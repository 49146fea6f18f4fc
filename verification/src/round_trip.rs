//! What holds between a manifest and the package that it compiles to: the
//! package loads as what was authored, its sprites carry the identifiers from
//! 1 on, and every sprite file gives back the pixels of its cell.

use crate::compiler::{
    all_restore, compile_outcome, compiled, compiled_animation, compiled_animations,
    compiled_appearance, compiled_appearances, compiled_group, compiled_groups, fresh_ids, sheet_in,
    sheet_row, EmittedSprite,
};
use crate::error::ErrorView;
use crate::format::{
    appearance_map, lemma_appearance_map_holds_appearances, lemma_appearance_map_of_distinct,
    lemma_index_round_trip, parse_database, parse_index, storable_appearance, storable_index,
};
use crate::loaded_types::{
    distinct_keys, DatabaseView, LoadedAnimationView, LoadedAppearanceView, LoadedFrameGroupView,
    LoadedSpriteView,
};
use crate::loader::{
    animation_sprite_ids, appearance_sprite_ids, lemma_preloaded_cache, lemma_preloaded_succeeds,
    lemma_sprite_ids_along, loaded_sprite, obtainable, preloaded, sprite_ids_along,
};
use crate::sprite::{lemma_sprite_file_round_trip, sprite_file_bytes, RawImage, RawImageView};
use crate::types::{AnimationView, AppearanceView, AppearancesFileView, Direction, FrameGroupView};
use vstd::prelude::*;

verus! {

/// Whether a compiled animation is the authored one: it stands under the
/// same direction, has a sprite for every frame, and plays as long and as
/// often, an animation without a duration standing still and one without a
/// loop flag looping.
pub open spec fn animation_mirrors(
    key: Option<Direction>,
    authored: AnimationView,
    compiled: (Option<Direction>, LoadedAnimationView),
) -> bool {
    &&& compiled.0 == key
    &&& compiled.1.sprite_ids.len() == authored.frame_count
    &&& compiled.1.duration == match authored.duration {
        Some(duration) => duration,
        None => 0,
    }
    &&& compiled.1.looped == match authored.looped {
        Some(looped) => looped,
        None => true,
    }
}

/// Whether a compiled frame group is the authored one: it has the same name
/// and the same animations in the same order, no two under one direction.
pub open spec fn group_mirrors(authored: FrameGroupView, compiled: LoadedFrameGroupView) -> bool {
    &&& compiled.name == authored.name
    &&& compiled.animations.len() == authored.animations.len()
    &&& distinct_keys(compiled.animations)
    &&& forall|k: int|
        0 <= k < authored.animations.len() ==> animation_mirrors(
            authored.animations[k].0,
            authored.animations[k].1,
            #[trigger] compiled.animations[k],
        )
}

/// Whether a compiled appearance is the authored one: it has the same
/// identifier, name, offset and size, and the same frame groups in the same
/// order.
pub open spec fn appearance_mirrors(
    authored: AppearanceView,
    compiled: LoadedAppearanceView,
) -> bool {
    &&& compiled.id == authored.id
    &&& compiled.name == authored.name
    &&& compiled.offset == authored.offset
    &&& compiled.size == authored.size
    &&& compiled.framegroups.len() == authored.framegroups.len()
    &&& forall|j: int|
        0 <= j < authored.framegroups.len() ==> group_mirrors(
            authored.framegroups[j],
            #[trigger] compiled.framegroups[j],
        )
}

/// Whether compiled appearances are those of a manifest, in the same order.
pub open spec fn index_mirrors(
    file: AppearancesFileView,
    compiled: Seq<LoadedAppearanceView>,
) -> bool {
    &&& compiled.len() == file.appearances.len()
    &&& forall|i: int|
        0 <= i < file.appearances.len() ==> appearance_mirrors(
            file.appearances[i],
            #[trigger] compiled[i],
        )
}

/// The sprites of a list of appearances, appearance by appearance.
pub open spec fn all_sprite_ids(appearances: Seq<LoadedAppearanceView>) -> Seq<u32>
    decreases appearances.len(),
{
    if appearances.len() == 0 {
        Seq::empty()
    } else {
        all_sprite_ids(appearances.drop_last()) + appearance_sprite_ids(
            appearances.last().framegroups,
        )
    }
}

/// The animations that compile are the authored ones, and their frames hold
/// the identifiers that follow those given out before, one after the other.
pub proof fn lemma_compiled_animations(
    appearance: AppearanceView,
    group: FrameGroupView,
    sheet: Option<RawImageView>,
    base_path: Seq<char>,
    count: nat,
    emitted: nat,
)
    requires
        count <= group.animations.len(),
        compiled_animations(appearance, group, sheet, base_path, count, emitted) is Ok,
    ensures
        ({
            let (entries, sprites) = compiled_animations(
                appearance,
                group,
                sheet,
                base_path,
                count,
                emitted,
            )->Ok_0;
            &&& entries.len() == count
            &&& forall|k: int|
                0 <= k < count ==> animation_mirrors(
                    group.animations[k].0,
                    group.animations[k].1,
                    #[trigger] entries[k],
                )
            &&& animation_sprite_ids(entries) == fresh_ids(emitted, sprites.len())
        }),
    decreases count,
{
    let (entries, sprites) = compiled_animations(
        appearance,
        group,
        sheet,
        base_path,
        count,
        emitted,
    )->Ok_0;
    if count > 0 {
        lemma_compiled_animations(appearance, group, sheet, base_path, (count - 1) as nat, emitted);
        let (front, before) = compiled_animations(
            appearance,
            group,
            sheet,
            base_path,
            (count - 1) as nat,
            emitted,
        )->Ok_0;
        let entry = group.animations[count - 1];
        let (animation, added) = compiled_animation(
            appearance,
            group,
            sheet,
            base_path,
            entry.0,
            entry.1,
            emitted + before.len(),
        )->Ok_0;
        assert(entries == front.push((entry.0, animation)));
        assert(entries.drop_last() =~= front);
        assert(fresh_ids(emitted, before.len()) + fresh_ids(emitted + before.len(), added.len())
            =~= fresh_ids(emitted, sprites.len()));
    } else {
        assert(animation_sprite_ids(entries) =~= fresh_ids(emitted, 0));
    }
}

/// A frame group that compiles is the authored one, and its frames hold the
/// identifiers that follow those given out before.
pub proof fn lemma_compiled_group(
    appearance: AppearanceView,
    group: FrameGroupView,
    sheet: Option<RawImageView>,
    base_path: Seq<char>,
    emitted: nat,
)
    requires
        compiled_group(appearance, group, sheet, base_path, emitted) is Ok,
    ensures
        ({
            let (compiled, sprites) = compiled_group(
                appearance,
                group,
                sheet,
                base_path,
                emitted,
            )->Ok_0;
            &&& group_mirrors(group, compiled)
            &&& animation_sprite_ids(compiled.animations) == fresh_ids(emitted, sprites.len())
        }),
{
    lemma_compiled_animations(appearance, group, sheet, base_path, group.animations.len(), emitted);
    let (compiled, sprites) = compiled_group(appearance, group, sheet, base_path, emitted)->Ok_0;
    assert forall|i: int, j: int| 0 <= i < j < compiled.animations.len() implies (
    #[trigger] compiled.animations[i]).0 != (#[trigger] compiled.animations[j]).0 by {
        assert(group.animations[i].0 != group.animations[j].0);
    }
}

/// The frame groups that compile are the authored ones, and their frames
/// hold the identifiers that follow those given out before.
pub proof fn lemma_compiled_groups(
    appearance: AppearanceView,
    row: Seq<Option<RawImage>>,
    base_path: Seq<char>,
    count: nat,
    emitted: nat,
)
    requires
        count <= appearance.framegroups.len(),
        compiled_groups(appearance, row, base_path, count, emitted) is Ok,
    ensures
        ({
            let (groups, sprites) = compiled_groups(
                appearance,
                row,
                base_path,
                count,
                emitted,
            )->Ok_0;
            &&& groups.len() == count
            &&& forall|j: int|
                0 <= j < count ==> group_mirrors(appearance.framegroups[j], #[trigger] groups[j])
            &&& appearance_sprite_ids(groups) == fresh_ids(emitted, sprites.len())
        }),
    decreases count,
{
    let (groups, sprites) = compiled_groups(appearance, row, base_path, count, emitted)->Ok_0;
    if count > 0 {
        lemma_compiled_groups(appearance, row, base_path, (count - 1) as nat, emitted);
        let (front, before) = compiled_groups(
            appearance,
            row,
            base_path,
            (count - 1) as nat,
            emitted,
        )->Ok_0;
        lemma_compiled_group(
            appearance,
            appearance.framegroups[count - 1],
            sheet_in(row, count - 1),
            base_path,
            emitted + before.len(),
        );
        let (group, added) = compiled_group(
            appearance,
            appearance.framegroups[count - 1],
            sheet_in(row, count - 1),
            base_path,
            emitted + before.len(),
        )->Ok_0;
        assert(groups == front.push(group));
        assert(groups.drop_last() =~= front);
        assert(fresh_ids(emitted, before.len()) + fresh_ids(emitted + before.len(), added.len())
            =~= fresh_ids(emitted, sprites.len()));
    } else {
        assert(appearance_sprite_ids(groups) =~= fresh_ids(emitted, 0));
    }
}

/// The appearances that compile are the authored ones, and their frames hold
/// the identifiers from 1 on, one after the other.
pub proof fn lemma_compiled_appearances(
    file: AppearancesFileView,
    sheets: Seq<Vec<Option<RawImage>>>,
    base_path: Seq<char>,
    count: nat,
)
    requires
        count <= file.appearances.len(),
        compiled_appearances(file, sheets, base_path, count) is Ok,
    ensures
        ({
            let (appearances, sprites) = compiled_appearances(file, sheets, base_path, count)->Ok_0;
            &&& appearances.len() == count
            &&& forall|i: int|
                0 <= i < count ==> appearance_mirrors(
                    file.appearances[i],
                    #[trigger] appearances[i],
                )
            &&& all_sprite_ids(appearances) == fresh_ids(0, sprites.len())
        }),
    decreases count,
{
    let (appearances, sprites) = compiled_appearances(file, sheets, base_path, count)->Ok_0;
    if count > 0 {
        lemma_compiled_appearances(file, sheets, base_path, (count - 1) as nat);
        let (front, before) = compiled_appearances(
            file,
            sheets,
            base_path,
            (count - 1) as nat,
        )->Ok_0;
        let authored = file.appearances[count - 1];
        lemma_compiled_groups(
            authored,
            sheet_row(sheets, count - 1),
            base_path,
            authored.framegroups.len(),
            before.len(),
        );
        let (appearance, added) = compiled_appearance(
            authored,
            sheet_row(sheets, count - 1),
            base_path,
            before.len(),
        )->Ok_0;
        assert(appearances == front.push(appearance));
        assert(appearances.drop_last() =~= front);
        assert(fresh_ids(0, before.len()) + fresh_ids(before.len(), added.len()) =~= fresh_ids(
            0,
            sprites.len(),
        ));
    } else {
        assert(all_sprite_ids(appearances) =~= fresh_ids(0, 0));
    }
}

/// Loading what was compiled gives back what was authored: the index of a
/// package reads as the version of the manifest and as its appearances, in
/// their order and with their identifiers, names, offsets and sizes; with
/// their frame groups, in their order and with their names; and with their
/// animations, each under its direction, as long and as often as authored.
pub proof fn lemma_compile_then_load(
    file: AppearancesFileView,
    sheets: Seq<Vec<Option<RawImage>>>,
    base_path: Seq<char>,
)
    requires
        compile_outcome(file, sheets, base_path) is Ok,
    ensures
        ({
            let package = compile_outcome(file, sheets, base_path)->Ok_0;
            let appearances = compiled(file, sheets, base_path)->Ok_0.0;
            &&& parse_index(package.index) == Ok::<(u32, Seq<LoadedAppearanceView>), ErrorView>(
                (file.version, appearances),
            )
            &&& parse_database(package.index) == Ok::<DatabaseView, ErrorView>(
                DatabaseView { version: file.version, appearances: appearance_map(appearances) },
            )
            &&& index_mirrors(file, appearances)
        }),
{
    let appearances = compiled(file, sheets, base_path)->Ok_0.0;
    lemma_compiled_appearances(file, sheets, base_path, file.appearances.len());
    assert(storable_index(appearances)) by {
        assert forall|i: int| 0 <= i < appearances.len() implies storable_appearance(
            #[trigger] appearances[i],
        ) by {
            assert(appearance_mirrors(file.appearances[i], appearances[i]));
            assert forall|j: int| 0 <= j < appearances[i].framegroups.len() implies distinct_keys(
                (#[trigger] appearances[i].framegroups[j]).animations,
            ) by {
                assert(group_mirrors(
                    file.appearances[i].framegroups[j],
                    appearances[i].framegroups[j],
                ));
            }
        }
    }
    lemma_index_round_trip(file.version, appearances);
}

/// Where no two appearances of the manifest have the same identifier, the
/// database of the compiled package holds as many appearances as the
/// manifest, each under its identifier.
pub proof fn lemma_compile_then_load_database(
    file: AppearancesFileView,
    sheets: Seq<Vec<Option<RawImage>>>,
    base_path: Seq<char>,
)
    requires
        compile_outcome(file, sheets, base_path) is Ok,
        forall|i: int, j: int|
            0 <= i < j < file.appearances.len() ==> (#[trigger] file.appearances[i]).id != (
            #[trigger] file.appearances[j]).id,
    ensures
        ({
            let package = compile_outcome(file, sheets, base_path)->Ok_0;
            let database = parse_database(package.index)->Ok_0;
            &&& parse_database(package.index) is Ok
            &&& database.version == file.version
            &&& database.appearances.dom().finite()
            &&& database.appearances.dom().len() == file.appearances.len()
            &&& forall|i: int|
                0 <= i < file.appearances.len() ==> {
                    &&& database.appearances.contains_key((#[trigger] file.appearances[i]).id)
                    &&& appearance_mirrors(
                        file.appearances[i],
                        database.appearances[file.appearances[i].id],
                    )
                }
        }),
{
    let appearances = compiled(file, sheets, base_path)->Ok_0.0;
    lemma_compile_then_load(file, sheets, base_path);
    assert forall|i: int, j: int| 0 <= i < j < appearances.len() implies (
    #[trigger] appearances[i]).id != (#[trigger] appearances[j]).id by {
        assert(appearance_mirrors(file.appearances[i], appearances[i]));
        assert(appearance_mirrors(file.appearances[j], appearances[j]));
    }
    lemma_appearance_map_of_distinct(appearances);
    assert forall|i: int| 0 <= i < file.appearances.len() implies {
        &&& appearance_map(appearances).contains_key((#[trigger] file.appearances[i]).id)
        &&& appearance_mirrors(
            file.appearances[i],
            appearance_map(appearances)[file.appearances[i].id],
        )
    } by {
        assert(appearance_mirrors(file.appearances[i], appearances[i]));
    }
}

/// The identifiers of one compilation are 1, 2, 3 and so on: the sprite
/// files carry them in this order, and the animations of the index, read
/// appearance by appearance, frame group by frame group, animation by
/// animation and frame by frame, hold them in this order too. So no
/// identifier is given out twice, each is positive, and each that the index
/// names has its sprite file.
pub proof fn lemma_sprite_ids_are_fresh(
    file: AppearancesFileView,
    sheets: Seq<Vec<Option<RawImage>>>,
    base_path: Seq<char>,
)
    requires
        compile_outcome(file, sheets, base_path) is Ok,
    ensures
        ({
            let package = compile_outcome(file, sheets, base_path)->Ok_0;
            let appearances = compiled(file, sheets, base_path)->Ok_0.0;
            &&& package.sprites.len() <= u32::MAX
            &&& package.result.sprites_count == package.sprites.len()
            &&& all_sprite_ids(appearances).len() == package.sprites.len()
            &&& forall|k: int|
                0 <= k < package.sprites.len() ==> {
                    &&& (#[trigger] package.sprites[k]).sprite_id == k + 1
                    &&& all_sprite_ids(appearances)[k] == k + 1
                }
            &&& forall|k: int, l: int|
                0 <= k < l < package.sprites.len() ==> (#[trigger] package.sprites[k]).sprite_id < (
                #[trigger] package.sprites[l]).sprite_id
        }),
{
    lemma_compiled_appearances(file, sheets, base_path, file.appearances.len());
    lemma_sprite_count_fits(file, sheets, base_path, file.appearances.len());
}

/// There are never more sprites than identifiers.
pub proof fn lemma_sprite_count_fits(
    file: AppearancesFileView,
    sheets: Seq<Vec<Option<RawImage>>>,
    base_path: Seq<char>,
    count: nat,
)
    requires
        compiled_appearances(file, sheets, base_path, count) is Ok,
    ensures
        compiled_appearances(file, sheets, base_path, count)->Ok_0.1.len() <= u32::MAX,
    decreases count,
{
    if count > 0 {
        lemma_sprite_count_fits(file, sheets, base_path, (count - 1) as nat);
        let before = compiled_appearances(file, sheets, base_path, (count - 1) as nat)->Ok_0.1;
        lemma_group_count_fits(
            file.appearances[count - 1],
            sheet_row(sheets, count - 1),
            base_path,
            file.appearances[count - 1].framegroups.len(),
            before.len(),
        );
    }
}

/// The frame groups that compile leave the sprites within the identifiers.
pub proof fn lemma_group_count_fits(
    appearance: AppearanceView,
    row: Seq<Option<RawImage>>,
    base_path: Seq<char>,
    count: nat,
    emitted: nat,
)
    requires
        emitted <= u32::MAX,
        compiled_groups(appearance, row, base_path, count, emitted) is Ok,
    ensures
        emitted + compiled_groups(appearance, row, base_path, count, emitted)->Ok_0.1.len()
            <= u32::MAX,
    decreases count,
{
    if count > 0 {
        lemma_group_count_fits(appearance, row, base_path, (count - 1) as nat, emitted);
        let before = compiled_groups(
            appearance,
            row,
            base_path,
            (count - 1) as nat,
            emitted,
        )->Ok_0.1;
        let group = appearance.framegroups[count - 1];
        lemma_animation_count_fits(
            appearance,
            group,
            sheet_in(row, count - 1),
            base_path,
            group.animations.len(),
            emitted + before.len(),
        );
    }
}

/// The animations that compile leave the sprites within the identifiers.
pub proof fn lemma_animation_count_fits(
    appearance: AppearanceView,
    group: FrameGroupView,
    sheet: Option<RawImageView>,
    base_path: Seq<char>,
    count: nat,
    emitted: nat,
)
    requires
        emitted <= u32::MAX,
        compiled_animations(appearance, group, sheet, base_path, count, emitted) is Ok,
    ensures
        emitted + compiled_animations(
            appearance,
            group,
            sheet,
            base_path,
            count,
            emitted,
        )->Ok_0.1.len()
            <= u32::MAX,
    decreases count,
{
    if count > 0 {
        lemma_animation_count_fits(
            appearance,
            group,
            sheet,
            base_path,
            (count - 1) as nat,
            emitted,
        );
    }
}

/// A sprite file of a package loads as the sprite that it was emitted for:
/// under its identifier, with the dimensions of the sprite, and with the
/// pixels of the cell that the sprite was cut from.
pub proof fn lemma_emitted_sprite_loads(sprite: EmittedSprite, base_path: Seq<char>, sprite_id: u32)
    requires
        sprite.restores(),
    ensures
        loaded_sprite(base_path, sprite_id, Some(sprite_file_bytes(sprite.data))) == Ok::<
            LoadedSpriteView,
            ErrorView,
        >(
            LoadedSpriteView {
                sprite_id,
                width: sprite.data.width,
                height: sprite.data.height,
                pixels: sprite.pixels,
            },
        ),
{
    lemma_sprite_file_round_trip(sprite.data);
}

/// Every sprite that the index of a package names has its file in the
/// package, and the file loads: sprite `k` of the index, the sprites being
/// read in the order of the index, is the sprite of file `k`, with the pixels
/// of the cell that it was cut from.
pub proof fn lemma_every_named_sprite_loads(
    file: AppearancesFileView,
    sheets: Seq<Vec<Option<RawImage>>>,
    base_path: Seq<char>,
    directory: Seq<char>,
    k: int,
)
    requires
        compile_outcome(file, sheets, base_path) is Ok,
        all_restore(compiled(file, sheets, base_path)->Ok_0.1),
        0 <= k < all_sprite_ids(compiled(file, sheets, base_path)->Ok_0.0).len(),
    ensures
        ({
            let package = compile_outcome(file, sheets, base_path)->Ok_0;
            let (appearances, sprites) = compiled(file, sheets, base_path)->Ok_0;
            let sprite_id = all_sprite_ids(appearances)[k];
            &&& k < package.sprites.len()
            &&& package.sprites[k].sprite_id == sprite_id
            &&& loaded_sprite(directory, sprite_id, Some(package.sprites[k].bytes)) == Ok::<
                LoadedSpriteView,
                ErrorView,
            >(
                LoadedSpriteView {
                    sprite_id,
                    width: sprites[k].data.width,
                    height: sprites[k].data.height,
                    pixels: sprites[k].pixels,
                },
            )
        }),
{
    let (appearances, sprites) = compiled(file, sheets, base_path)->Ok_0;
    lemma_sprite_ids_are_fresh(file, sheets, base_path);
    assert(sprites[k].restores());
    lemma_emitted_sprite_loads(sprites[k], directory, all_sprite_ids(appearances)[k]);
}

/// Every sprite of an appearance is one of the sprites of all appearances.
pub proof fn lemma_all_sprite_ids_hold(
    appearances: Seq<LoadedAppearanceView>,
    place: int,
    sprite_id: u32,
)
    requires
        0 <= place < appearances.len(),
        appearance_sprite_ids(appearances[place].framegroups).contains(sprite_id),
    ensures
        all_sprite_ids(appearances).contains(sprite_id),
    decreases appearances.len(),
{
    let front = all_sprite_ids(appearances.drop_last());
    let last = appearance_sprite_ids(appearances.last().framegroups);
    if place < appearances.len() - 1 {
        assert(appearances.drop_last()[place] == appearances[place]);
        lemma_all_sprite_ids_hold(appearances.drop_last(), place, sprite_id);
        let k = choose|k: int| 0 <= k < front.len() && front[k] == sprite_id;
        assert((front + last)[k] == sprite_id);
    } else {
        let k = choose|k: int| 0 <= k < last.len() && last[k] == sprite_id;
        assert((front + last)[front.len() + k] == sprite_id);
    }
}

/// A compiled package loads as a whole: where the files of its sprites are
/// at hand, each under its identifier, preloading the sprites of its
/// appearances, in whatever order the appearances are walked, loads every
/// sprite that the index names.
pub proof fn lemma_compiled_package_loads(
    file: AppearancesFileView,
    sheets: Seq<Vec<Option<RawImage>>>,
    base_path: Seq<char>,
    directory: Seq<char>,
    files: Map<u32, Vec<u8>>,
    walk: Seq<u32>,
)
    requires
        compile_outcome(file, sheets, base_path) is Ok,
        all_restore(compiled(file, sheets, base_path)->Ok_0.1),
        forall|k: int|
            0 <= k < compile_outcome(file, sheets, base_path)->Ok_0.sprites.len() ==> {
                let sprite = #[trigger] compile_outcome(file, sheets, base_path)->Ok_0.sprites[k];
                files.contains_key(sprite.sprite_id) && files[sprite.sprite_id]@ == sprite.bytes
            },
        forall|w: int|
            0 <= w < walk.len() ==> appearance_map(
                compiled(file, sheets, base_path)->Ok_0.0,
            ).contains_key(#[trigger] walk[w]),
    ensures
        ({
            let database = appearance_map(compiled(file, sheets, base_path)->Ok_0.0);
            let (cache, outcome) = preloaded(
                Map::empty(),
                directory,
                sprite_ids_along(walk, database),
                files,
            );
            &&& outcome is Ok
            &&& forall|i: int|
                0 <= i < sprite_ids_along(walk, database).len() ==> cache.contains_key(
                    #[trigger] sprite_ids_along(walk, database)[i],
                )
        }),
{
    let package = compile_outcome(file, sheets, base_path)->Ok_0;
    let (appearances, sprites) = compiled(file, sheets, base_path)->Ok_0;
    let database = appearance_map(appearances);
    let wanted = sprite_ids_along(walk, database);
    lemma_sprite_ids_are_fresh(file, sheets, base_path);
    assert forall|i: int| 0 <= i < wanted.len() implies obtainable(
        Map::empty(),
        directory,
        files,
        #[trigger] wanted[i],
    ) by {
        lemma_sprite_ids_along(walk, database, i);
        let w = choose|w: int|
            0 <= w < walk.len() && appearance_sprite_ids(
                database[#[trigger] walk[w]].framegroups,
            ).contains(wanted[i]);
        lemma_appearance_map_holds_appearances(appearances, walk[w]);
        let place = choose|place: int|
            0 <= place < appearances.len() && #[trigger] appearances[place] == database[walk[w]];
        lemma_all_sprite_ids_hold(appearances, place, wanted[i]);
        let k = choose|k: int|
            0 <= k < all_sprite_ids(appearances).len() && all_sprite_ids(appearances)[k]
                == wanted[i];
        lemma_every_named_sprite_loads(file, sheets, base_path, directory, k);
        assert(package.sprites[k].sprite_id == wanted[i]);
    }
    lemma_preloaded_succeeds(Map::empty(), directory, wanted, files);
    lemma_preloaded_cache(Map::empty(), directory, wanted, files);
}

} // verus!
