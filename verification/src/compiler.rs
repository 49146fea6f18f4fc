//! Compiling: from the authoring model and its spritesheets to the index file
//! and the sprite files of a package.

use crate::error::{AppearanceError, ErrorView};
use crate::geometry::{
    calculate_direction_row, count_directions, direction_count, direction_index, entry_keys,
    grid_columns, grid_rows, lanes, lemma_direction_index_is_rank, lemma_slice_position_is_cell,
    present_directions, slice_indices, slice_position,
};
use crate::loaded_types::{
    distinct_keys, frame_group_views, lemma_find_key, loaded_entries, position_of_key,
    LoadedAnimation, LoadedAnimationView, LoadedAppearance, LoadedAppearanceView, LoadedFrameGroup,
    LoadedFrameGroupView,
};
use crate::sprite::{
    cell_pixels, decompressed, encode_sprite_file, slice_spritesheet, sliced, sprite_file_bytes,
    sprite_views, RawImage, RawImageView,
};
use crate::text::{resolve_spritesheet_path, resolved_path};
use crate::types::{
    animation_entries, Animation, AnimationView, Appearance, AppearanceView, AppearancesFile,
    AppearancesFileView, Direction, FrameGroup, FrameGroupView, Orientation, SpriteData,
    SpriteDataView,
};
use crate::wire::{invalid_data, lemma_u32_le_round_trip, saturated, too_long};
use crate::writer::{appearance_views, write_index, written_index};
use vstd::prelude::*;

verus! {

/// One sprite file of a package: the identifier of the sprite, and what the
/// file holds.
#[derive(Clone, Debug)]
pub struct SpriteFile {
    pub sprite_id: u32,
    pub bytes: Vec<u8>,
}

/// What a [`SpriteFile`] holds.
pub struct SpriteFileView {
    pub sprite_id: u32,
    pub bytes: Seq<u8>,
}

impl View for SpriteFile {
    type V = SpriteFileView;

    open spec fn view(&self) -> SpriteFileView {
        SpriteFileView { sprite_id: self.sprite_id, bytes: self.bytes@ }
    }
}

/// What a list of sprite files holds.
pub open spec fn sprite_file_views(files: Seq<SpriteFile>) -> Seq<SpriteFileView> {
    files.map_values(|file: SpriteFile| file@)
}

/// One sprite that compiling emits: the sprite as it is stored, and the
/// pixels of the cell that it was cut from.
pub struct EmittedSprite {
    pub data: SpriteDataView,
    pub pixels: Seq<u8>,
}

impl EmittedSprite {
    /// Whether the sprite as it is stored fits a sprite file and decompresses
    /// to the pixels of its cell.
    pub open spec fn restores(self) -> bool {
        &&& self.data.compressed_pixels.len() <= u32::MAX
        &&& decompressed(self.data.compressed_pixels, self.data.width, self.data.height) == Ok::<
            Seq<u8>,
            ErrorView,
        >(self.pixels)
    }
}

/// Whether every sprite as it is stored fits a sprite file and decompresses
/// to the pixels of its cell.
pub open spec fn all_restore(sprites: Seq<EmittedSprite>) -> bool {
    forall|k: int| 0 <= k < sprites.len() ==> (#[trigger] sprites[k]).restores()
}

/// Whether the compressed pixels of one of the sprites are too long to be
/// stored.
pub open spec fn any_too_long(sprites: Seq<EmittedSprite>) -> bool {
    exists|k: int|
        0 <= k < sprites.len() && (#[trigger] sprites[k]).data.compressed_pixels.len() > u32::MAX
}

/// The files of `sprites`, where `emitted` sprites were emitted before them:
/// the identifiers go on from `emitted + 1`.
pub open spec fn emitted_files(sprites: Seq<EmittedSprite>, emitted: nat) -> Seq<SpriteFileView> {
    Seq::new(
        sprites.len(),
        |k: int|
            SpriteFileView {
                sprite_id: (emitted + 1 + k) as u32,
                bytes: sprite_file_bytes(sprites[k].data),
            },
    )
}

/// The `count` identifiers that follow the `emitted` that were given out.
pub open spec fn fresh_ids(emitted: nat, count: nat) -> Seq<u32> {
    Seq::new(count, |k: int| (emitted + 1 + k) as u32)
}

/// What is said where the sprites are more than there are identifiers.
pub open spec fn ids_exhausted() -> Seq<char> {
    "there are no sprite identifiers left"@
}

/// What is said of a frame group that holds two animations under one
/// direction.
pub open spec fn duplicate_direction() -> Seq<char> {
    "a frame group holds two animations under one direction"@
}

/// The number of lanes that the sheet of a frame group has for an animation
/// under `key`: the number of directions that the frame group holds, and 0
/// for an animation under no direction.
pub open spec fn lane_count(group: FrameGroupView, key: Option<Direction>) -> u32 {
    match key {
        Some(_) => direction_count(present_directions(entry_keys(group.animations))) as u32,
        None => 0,
    }
}

/// The lane of the animation under `key` on the sheet of its frame group.
pub open spec fn lane_of(group: FrameGroupView, key: Option<Direction>) -> u32 {
    match key {
        Some(direction) => direction_index(
            direction,
            present_directions(entry_keys(group.animations)),
        ) as u32,
        None => 0,
    }
}

/// The sprites of one animation: of the cells of its sheet, those of its
/// lane, frame by frame.
pub open spec fn chosen_sprites(
    sheet: RawImageView,
    cells: Seq<SpriteDataView>,
    sprite_size: u32,
    lane: u32,
    frame_count: u32,
    lane_total: u32,
    orientation: Orientation,
) -> Seq<EmittedSprite> {
    Seq::new(
        frame_count as nat,
        |frame: int|
            {
                let position = slice_position(
                    frame,
                    lane as int,
                    frame_count,
                    lane_total,
                    orientation,
                );
                EmittedSprite {
                    data: cells[position],
                    pixels: cell_pixels(
                        sheet,
                        sprite_size,
                        grid_columns(frame_count, lane_total, orientation),
                        position,
                    ),
                }
            },
    )
}

/// What compiling one animation gives, `emitted` sprites having been emitted
/// before: the animation as the index holds it, with fresh identifiers for
/// its frames, and the sprites of its frames. It fails with `AssetNotFound`
/// where the sheet is missing, with `DimensionMismatch` where the sheet does
/// not have the dimensions that the animation asks for, with the compressor's
/// error, and with `InvalidData` where the identifiers run out or a sprite is
/// too long to be stored.
pub open spec fn compiled_animation(
    appearance: AppearanceView,
    group: FrameGroupView,
    sheet: Option<RawImageView>,
    base_path: Seq<char>,
    key: Option<Direction>,
    animation: AnimationView,
    emitted: nat,
) -> Result<(LoadedAnimationView, Seq<EmittedSprite>), ErrorView> {
    match sheet {
        None => Err(ErrorView::AssetNotFound { path: resolved_path(base_path, group.spritesheet) }),
        Some(sheet) => match sliced(
            sheet,
            appearance.name,
            group.name,
            appearance.size,
            animation.frame_count,
            lane_count(group, key),
            group.orientation,
        ) {
            Err(e) => Err(e),
            Ok(cells) => {
                let sprites = chosen_sprites(
                    sheet,
                    cells,
                    appearance.size,
                    lane_of(group, key),
                    animation.frame_count,
                    lane_count(group, key),
                    group.orientation,
                );
                if emitted + animation.frame_count > u32::MAX {
                    Err(ErrorView::InvalidData(ids_exhausted()))
                } else if any_too_long(sprites) {
                    Err(ErrorView::InvalidData(too_long()))
                } else {
                    Ok(
                        (
                            LoadedAnimationView {
                                sprite_ids: fresh_ids(emitted, animation.frame_count as nat),
                                duration: match animation.duration {
                                    Some(duration) => duration,
                                    None => 0,
                                },
                                looped: match animation.looped {
                                    Some(looped) => looped,
                                    None => true,
                                },
                            },
                            sprites,
                        ),
                    )
                }
            },
        },
    }
}

/// The keys of the animations are those of what the animations say.
pub proof fn lemma_keys_of_views(entries: Seq<(Option<Direction>, Animation)>)
    ensures
        entry_keys(animation_entries(entries)) == entry_keys(entries),
{
    assert(entry_keys(animation_entries(entries)) =~= entry_keys(entries));
}

/// Compiles the animation that a frame group holds under `key`: cuts the
/// sheet into its cells, and gives every frame of the animation a fresh
/// identifier and a sprite file. `emitted` is the number of sprites that were
/// emitted before.
#[verifier::loop_isolation(false)]
pub fn compile_animation(
    appearance: &Appearance,
    group: &FrameGroup,
    sheet: Option<&RawImage>,
    base_path: &str,
    key: Option<Direction>,
    animation: &Animation,
    emitted: u32,
) -> (outcome: Result<(LoadedAnimation, Vec<SpriteFile>), AppearanceError>)
    ensures
        match compiled_animation(
            appearance@,
            group@,
            match sheet {
                Some(sheet) => Some(sheet@),
                None => None,
            },
            base_path@,
            key,
            animation@,
            emitted as nat,
        ) {
            Ok((animation, sprites)) => {
                &&& outcome matches Ok(compiled)
                &&& compiled.0@ == animation
                &&& sprite_file_views(compiled.1@) == emitted_files(sprites, emitted as nat)
                &&& emitted + sprites.len() <= u32::MAX
                &&& all_restore(sprites)
            },
            Err(e) => outcome matches Err(error) && error@ == e,
        },
{
    let ghost entry = (key, animation@);
    let sheet: &RawImage = match sheet {
        Some(sheet) => sheet,
        None => {
            return Err(
                AppearanceError::AssetNotFound {
                    path: resolve_spritesheet_path(base_path, group.spritesheet.as_str()),
                },
            );
        },
    };
    proof {
        lemma_keys_of_views(group.animations@);
    }
    let ghost present = present_directions(entry_keys(group@.animations));
    let (lane_total, lane): (u32, u32) = match key {
        Some(direction) => {
            proof {
                if present.contains(direction) {
                    lemma_direction_index_is_rank(direction, direction, present);
                }
            }
            (
                count_directions(&group.animations),
                calculate_direction_row(direction, &group.animations) as u32,
            )
        },
        None => (0, 0),
    };
    assert(lane_total == lane_count(group@, key));
    assert(lane == lane_of(group@, key));
    assert(lane < lanes(lane_total));
    let frame_count: u32 = animation.frame_count;
    let cells: Vec<SpriteData> = match slice_spritesheet(
        sheet,
        appearance.name.as_str(),
        group.name.as_str(),
        appearance.size,
        frame_count,
        lane_total,
        group.orientation,
    ) {
        Ok(cells) => cells,
        Err(e) => {
            return Err(e);
        },
    };
    let ghost cell_views = sprite_views(cells@);
    let ghost columns = grid_columns(frame_count, lane_total, group.orientation);
    let ghost rows = grid_rows(frame_count, lane_total, group.orientation);
    assert(cell_views.len() == rows * columns);
    assert(cells@.len() == rows * columns);
    let ghost sprites = chosen_sprites(
        sheet@,
        cell_views,
        appearance.size,
        lane,
        frame_count,
        lane_total,
        group.orientation,
    );
    if frame_count > u32::MAX - emitted {
        return Err(invalid_data("there are no sprite identifiers left"));
    }
    let positions: Vec<u64> = slice_indices(lane, frame_count, lane_total, group.orientation);
    let cell_count: usize = cells.len();
    let mut files: Vec<SpriteFile> = Vec::new();
    let mut sprite_ids: Vec<u32> = Vec::new();
    let mut frame: u32 = 0;
    while frame < frame_count
        invariant
            frame <= frame_count,
            files@.len() == frame,
            sprite_ids@.len() == frame,
            forall|k: int|
                0 <= k < frame ==> (#[trigger] files@[k])@ == emitted_files(
                    sprites,
                    emitted as nat,
                )[k],
            forall|k: int|
                0 <= k < frame ==> (#[trigger] sprites[k]).data.compressed_pixels.len() <= u32::MAX,
            forall|k: int| 0 <= k < frame ==> #[trigger] sprite_ids@[k] == emitted + 1 + k,
        decreases frame_count - frame,
    {
        proof {
            lemma_slice_position_is_cell(
                frame,
                lane,
                appearance.size,
                frame_count,
                lane_total,
                group.orientation,
            );
        }
        let ghost spot = slice_position(
            frame as int,
            lane as int,
            frame_count,
            lane_total,
            group.orientation,
        );
        assert(positions@[frame as int] == spot);
        assert(0 <= spot < cell_count);
        let position: usize = positions[frame as usize] as usize;
        assert(position == spot);
        assert(cell_views[spot] == cells@[spot]@);
        assert(sprites[frame as int].data == cells@[position as int]@);
        let bytes: Vec<u8> = match encode_sprite_file(&cells[position]) {
            Ok(bytes) => bytes,
            Err(e) => {
                assert(sprites[frame as int].data.compressed_pixels.len() > u32::MAX);
                assert(any_too_long(sprites));
                return Err(e);
            },
        };
        let sprite_id: u32 = emitted + 1 + frame;
        files.push(SpriteFile { sprite_id, bytes });
        sprite_ids.push(sprite_id);
        frame += 1;
    }
    proof {
        assert(sliced(
            sheet@,
            appearance@.name,
            group@.name,
            appearance@.size,
            entry.1.frame_count,
            lane_count(group@, entry.0),
            group@.orientation,
        ) == Ok::<Seq<SpriteDataView>, ErrorView>(cell_views));
        assert(sprite_file_views(files@) =~= emitted_files(sprites, emitted as nat));
        assert(sprite_ids@ =~= fresh_ids(emitted as nat, frame_count as nat));
        assert(!any_too_long(sprites));
        assert forall|k: int| 0 <= k < sprites.len() implies (#[trigger] sprites[k]).restores() by {
            lemma_slice_position_is_cell(
                k as u32,
                lane,
                appearance.size,
                frame_count,
                lane_total,
                group.orientation,
            );
        }
    }
    let duration: u32 = match animation.duration {
        Some(duration) => duration,
        None => 0,
    };
    let looped: bool = match animation.looped {
        Some(looped) => looped,
        None => true,
    };
    Ok((LoadedAnimation { sprite_ids, duration, looped }, files))
}

/// What compiling the first `count` animations of a frame group gives,
/// `emitted` sprites having been emitted before: the animations as the index
/// holds them, each under its direction, and the sprites of their frames; or
/// the error of the first animation that does not compile.
pub open spec fn compiled_animations(
    appearance: AppearanceView,
    group: FrameGroupView,
    sheet: Option<RawImageView>,
    base_path: Seq<char>,
    count: nat,
    emitted: nat,
) -> Result<(Seq<(Option<Direction>, LoadedAnimationView)>, Seq<EmittedSprite>), ErrorView>
    decreases count,
{
    if count == 0 {
        Ok((Seq::empty(), Seq::empty()))
    } else {
        match compiled_animations(
            appearance,
            group,
            sheet,
            base_path,
            (count - 1) as nat,
            emitted,
        ) {
            Err(e) => Err(e),
            Ok((entries, sprites)) => {
                let entry = group.animations[count - 1];
                match compiled_animation(
                    appearance,
                    group,
                    sheet,
                    base_path,
                    entry.0,
                    entry.1,
                    emitted + sprites.len(),
                ) {
                    Err(e) => Err(e),
                    Ok((animation, added)) => Ok(
                        (entries.push((entry.0, animation)), sprites + added),
                    ),
                }
            },
        }
    }
}

/// What compiling one frame group gives: the frame group as the index
/// holds it, and the sprites of its animations, in the order of the
/// animations. A frame group with two animations under one direction is
/// refused.
pub open spec fn compiled_group(
    appearance: AppearanceView,
    group: FrameGroupView,
    sheet: Option<RawImageView>,
    base_path: Seq<char>,
    emitted: nat,
) -> Result<(LoadedFrameGroupView, Seq<EmittedSprite>), ErrorView> {
    if !distinct_keys(group.animations) {
        Err(ErrorView::InvalidData(duplicate_direction()))
    } else {
        match compiled_animations(
            appearance,
            group,
            sheet,
            base_path,
            group.animations.len(),
            emitted,
        ) {
            Err(e) => Err(e),
            Ok((animations, sprites)) => Ok(
                (LoadedFrameGroupView { name: group.name, animations }, sprites),
            ),
        }
    }
}

/// The sheet in place `place` of a list of sheets; a place that the list
/// does not have holds no sheet.
pub open spec fn sheet_in(row: Seq<Option<RawImage>>, place: int) -> Option<RawImageView> {
    if 0 <= place < row.len() {
        match row[place] {
            Some(sheet) => Some(sheet@),
            None => None,
        }
    } else {
        None
    }
}

/// What compiling the first `count` frame groups of an appearance gives,
/// the sheet of each being the one in its place in `row`.
pub open spec fn compiled_groups(
    appearance: AppearanceView,
    row: Seq<Option<RawImage>>,
    base_path: Seq<char>,
    count: nat,
    emitted: nat,
) -> Result<(Seq<LoadedFrameGroupView>, Seq<EmittedSprite>), ErrorView>
    decreases count,
{
    if count == 0 {
        Ok((Seq::empty(), Seq::empty()))
    } else {
        match compiled_groups(appearance, row, base_path, (count - 1) as nat, emitted) {
            Err(e) => Err(e),
            Ok((groups, sprites)) => match compiled_group(
                appearance,
                appearance.framegroups[count - 1],
                sheet_in(row, count - 1),
                base_path,
                emitted + sprites.len(),
            ) {
                Err(e) => Err(e),
                Ok((group, added)) => Ok((groups.push(group), sprites + added)),
            },
        }
    }
}

/// What compiling one appearance gives: the appearance as the index holds
/// it, and the sprites of its frame groups.
pub open spec fn compiled_appearance(
    appearance: AppearanceView,
    row: Seq<Option<RawImage>>,
    base_path: Seq<char>,
    emitted: nat,
) -> Result<(LoadedAppearanceView, Seq<EmittedSprite>), ErrorView> {
    match compiled_groups(appearance, row, base_path, appearance.framegroups.len(), emitted) {
        Err(e) => Err(e),
        Ok((framegroups, sprites)) => Ok(
            (
                LoadedAppearanceView {
                    id: appearance.id,
                    name: appearance.name,
                    offset: appearance.offset,
                    size: appearance.size,
                    framegroups,
                },
                sprites,
            ),
        ),
    }
}

/// The sheets of the appearance in place `place`; an appearance without an
/// entry has no sheets.
pub open spec fn sheet_row(
    sheets: Seq<Vec<Option<RawImage>>>,
    place: int,
) -> Seq<Option<RawImage>> {
    if 0 <= place < sheets.len() {
        sheets[place]@
    } else {
        Seq::empty()
    }
}

/// What compiling the first `count` appearances of a manifest gives: the
/// appearances as the index holds them, and all their sprites, in the order
/// in which they are emitted. Sprite `k` of these gets the identifier `k + 1`.
pub open spec fn compiled_appearances(
    file: AppearancesFileView,
    sheets: Seq<Vec<Option<RawImage>>>,
    base_path: Seq<char>,
    count: nat,
) -> Result<(Seq<LoadedAppearanceView>, Seq<EmittedSprite>), ErrorView>
    decreases count,
{
    if count == 0 {
        Ok((Seq::empty(), Seq::empty()))
    } else {
        match compiled_appearances(file, sheets, base_path, (count - 1) as nat) {
            Err(e) => Err(e),
            Ok((appearances, sprites)) => match compiled_appearance(
                file.appearances[count - 1],
                sheet_row(sheets, count - 1),
                base_path,
                sprites.len(),
            ) {
                Err(e) => Err(e),
                Ok((appearance, added)) => Ok((appearances.push(appearance), sprites + added)),
            },
        }
    }
}

/// What compiling a manifest gives.
pub open spec fn compiled(
    file: AppearancesFileView,
    sheets: Seq<Vec<Option<RawImage>>>,
    base_path: Seq<char>,
) -> Result<(Seq<LoadedAppearanceView>, Seq<EmittedSprite>), ErrorView> {
    compiled_appearances(file, sheets, base_path, file.appearances.len())
}

/// Animations that do not compile up to `low` do not compile further either,
/// and fail in the same way.
pub proof fn lemma_compiled_animations_stays_failed(
    appearance: AppearanceView,
    group: FrameGroupView,
    sheet: Option<RawImageView>,
    base_path: Seq<char>,
    low: nat,
    high: nat,
    emitted: nat,
)
    requires
        low <= high,
        compiled_animations(appearance, group, sheet, base_path, low, emitted) is Err,
    ensures
        compiled_animations(appearance, group, sheet, base_path, high, emitted)
            == compiled_animations(appearance, group, sheet, base_path, low, emitted),
    decreases high,
{
    if low < high {
        lemma_compiled_animations_stays_failed(
            appearance,
            group,
            sheet,
            base_path,
            low,
            (high - 1) as nat,
            emitted,
        );
    }
}

/// Frame groups that do not compile up to `low` do not compile further
/// either, and fail in the same way.
pub proof fn lemma_compiled_groups_stays_failed(
    appearance: AppearanceView,
    row: Seq<Option<RawImage>>,
    base_path: Seq<char>,
    low: nat,
    high: nat,
    emitted: nat,
)
    requires
        low <= high,
        compiled_groups(appearance, row, base_path, low, emitted) is Err,
    ensures
        compiled_groups(appearance, row, base_path, high, emitted) == compiled_groups(
            appearance,
            row,
            base_path,
            low,
            emitted,
        ),
    decreases high,
{
    if low < high {
        lemma_compiled_groups_stays_failed(
            appearance,
            row,
            base_path,
            low,
            (high - 1) as nat,
            emitted,
        );
    }
}

/// Appearances that do not compile up to `low` do not compile further either,
/// and fail in the same way.
pub proof fn lemma_compiled_appearances_stays_failed(
    file: AppearancesFileView,
    sheets: Seq<Vec<Option<RawImage>>>,
    base_path: Seq<char>,
    low: nat,
    high: nat,
)
    requires
        low <= high,
        compiled_appearances(file, sheets, base_path, low) is Err,
    ensures
        compiled_appearances(file, sheets, base_path, high) == compiled_appearances(
            file,
            sheets,
            base_path,
            low,
        ),
    decreases high,
{
    if low < high {
        lemma_compiled_appearances_stays_failed(file, sheets, base_path, low, (high - 1) as nat);
    }
}

/// Two runs of sprites that restore their cells do so one after the other.
pub proof fn lemma_all_restore_concat(first: Seq<EmittedSprite>, second: Seq<EmittedSprite>)
    requires
        all_restore(first),
        all_restore(second),
    ensures
        all_restore(first + second),
{
    let both = first + second;
    assert forall|k: int| 0 <= k < both.len() implies (#[trigger] both[k]).restores() by {
        if k < first.len() {
            assert((first + second)[k] == first[k]);
        } else {
            assert((first + second)[k] == second[k - first.len()]);
        }
    }
}

/// The files of two runs of sprites, one after the other.
pub proof fn lemma_emitted_files_concat(
    first: Seq<EmittedSprite>,
    second: Seq<EmittedSprite>,
    emitted: nat,
)
    ensures
        emitted_files(first + second, emitted) == emitted_files(first, emitted) + emitted_files(
            second,
            emitted + first.len(),
        ),
{
    assert(emitted_files(first + second, emitted) =~= emitted_files(first, emitted) + emitted_files(
        second,
        emitted + first.len(),
    ));
}

/// Whether no direction occurs twice among the animations.
pub fn distinct_directions<A>(animations: &Vec<(Option<Direction>, A)>) -> (distinct: bool)
    ensures
        distinct == distinct_keys(animations@),
{
    let mut i: usize = 0;
    while i < animations.len()
        invariant
            i <= animations.len(),
            forall|a: int, b: int|
                0 <= a < b < animations@.len() && b < i ==> (#[trigger] animations@[a]).0 != (
                #[trigger] animations@[b]).0,
        decreases animations.len() - i,
    {
        let key: Option<Direction> = animations[i].0;
        proof {
            lemma_find_key(animations@, key);
        }
        match position_of_key(animations, key) {
            Some(first) => {
                if first != i {
                    assert(animations@[first as int].0 == animations@[i as int].0);
                    return false;
                }
            },
            None => {
                assert(false);
            },
        }
        i += 1;
    }
    true
}

/// No direction occurs twice among the animations where none does among
/// what they say.
pub proof fn lemma_distinct_keys_of_views(entries: Seq<(Option<Direction>, Animation)>)
    ensures
        distinct_keys(animation_entries(entries)) == distinct_keys(entries),
{
    let views = animation_entries(entries);
    if distinct_keys(entries) {
        assert forall|i: int, j: int| 0 <= i < j < views.len() implies (#[trigger] views[i]).0 != (
        #[trigger] views[j]).0 by {
            assert(entries[i].0 != entries[j].0);
        }
    }
    if distinct_keys(views) {
        assert forall|i: int, j: int| 0 <= i < j < entries.len() implies (#[trigger] entries[i]).0
            != (#[trigger] entries[j]).0 by {
            assert(views[i].0 != views[j].0);
        }
    }
}

/// Compiles one frame group: every animation in its order. `sheet` is the
/// spritesheet of the frame group, or `None` where it could not be found;
/// `emitted` is the number of sprites that were emitted before.
#[verifier::loop_isolation(false)]
pub fn compile_framegroup(
    appearance: &Appearance,
    group: &FrameGroup,
    sheet: Option<&RawImage>,
    base_path: &str,
    emitted: u32,
) -> (outcome: Result<(LoadedFrameGroup, Vec<SpriteFile>), AppearanceError>)
    ensures
        match compiled_group(
            appearance@,
            group@,
            match sheet {
                Some(sheet) => Some(sheet@),
                None => None,
            },
            base_path@,
            emitted as nat,
        ) {
            Ok((compiled, sprites)) => {
                &&& outcome matches Ok(out)
                &&& out.0@ == compiled
                &&& sprite_file_views(out.1@) == emitted_files(sprites, emitted as nat)
                &&& emitted + sprites.len() <= u32::MAX
                &&& all_restore(sprites)
            },
            Err(e) => outcome matches Err(error) && error@ == e,
        },
{
    let ghost sheet_view: Option<RawImageView> = match sheet {
        Some(sheet) => Some(sheet@),
        None => None,
    };
    proof {
        lemma_distinct_keys_of_views(group.animations@);
    }
    if !distinct_directions(&group.animations) {
        return Err(invalid_data("a frame group holds two animations under one direction"));
    }
    let mut files: Vec<SpriteFile> = Vec::new();
    let mut animations: Vec<(Option<Direction>, LoadedAnimation)> = Vec::new();
    let ghost mut sprites: Seq<EmittedSprite> = Seq::empty();
    let mut next: u32 = emitted;
    let mut i: usize = 0;
    assert(loaded_entries(animations@) =~= Seq::empty());
    assert(sprite_file_views(files@) =~= emitted_files(sprites, emitted as nat));
    while i < group.animations.len()
        invariant
            i <= group.animations.len(),
            group@.animations.len() == group.animations@.len(),
            next == emitted + sprites.len(),
            compiled_animations(
                appearance@,
                group@,
                sheet_view,
                base_path@,
                i as nat,
                emitted as nat,
            ) == Ok::<
                (Seq<(Option<Direction>, LoadedAnimationView)>, Seq<EmittedSprite>),
                ErrorView,
            >(
                (loaded_entries(animations@), sprites),
            ),
            sprite_file_views(files@) == emitted_files(sprites, emitted as nat),
            all_restore(sprites),
        decreases group.animations.len() - i,
    {
        let ghost entry = group@.animations[i as int];
        assert(entry == (group.animations@[i as int].0, group.animations@[i as int].1@));
        match compile_animation(
            appearance,
            group,
            sheet,
            base_path,
            group.animations[i].0,
            &group.animations[i].1,
            next,
        ) {
            Ok((animation, mut added)) => {
                proof {
                    let new_sprites = compiled_animation(
                        appearance@,
                        group@,
                        sheet_view,
                        base_path@,
                        entry.0,
                        entry.1,
                        next as nat,
                    )->Ok_0.1;
                    lemma_emitted_files_concat(sprites, new_sprites, emitted as nat);
                    lemma_all_restore_concat(sprites, new_sprites);
                    assert(sprite_file_views(files@ + added@) =~= sprite_file_views(files@)
                        + sprite_file_views(added@));
                    sprites = sprites + new_sprites;
                }
                let ghost before = animations@;
                animations.push((group.animations[i].0, animation));
                assert(loaded_entries(animations@) =~= loaded_entries(before).push(
                    (entry.0, animation@),
                ));
                next = next + added.len() as u32;
                files.append(&mut added);
            },
            Err(e) => {
                proof {
                    assert(compiled_animations(
                        appearance@,
                        group@,
                        sheet_view,
                        base_path@,
                        (i + 1) as nat,
                        emitted as nat,
                    ) is Err);
                    lemma_compiled_animations_stays_failed(
                        appearance@,
                        group@,
                        sheet_view,
                        base_path@,
                        (i + 1) as nat,
                        group@.animations.len(),
                        emitted as nat,
                    );
                }
                return Err(e);
            },
        }
        i += 1;
    }
    Ok((LoadedFrameGroup { name: group.name.clone(), animations }, files))
}

/// Compiles one appearance: every frame group in its order. `row` holds the
/// spritesheet of each frame group in the place of the frame group, and
/// `None`, or nothing, in the place of a sheet that could not be found;
/// `emitted` is the number of sprites that were emitted before.
#[verifier::loop_isolation(false)]
pub fn compile_appearance(
    appearance: &Appearance,
    row: &Vec<Option<RawImage>>,
    base_path: &str,
    emitted: u32,
) -> (outcome: Result<(LoadedAppearance, Vec<SpriteFile>), AppearanceError>)
    ensures
        match compiled_appearance(appearance@, row@, base_path@, emitted as nat) {
            Ok((compiled, sprites)) => {
                &&& outcome matches Ok(out)
                &&& out.0@ == compiled
                &&& sprite_file_views(out.1@) == emitted_files(sprites, emitted as nat)
                &&& emitted + sprites.len() <= u32::MAX
                &&& all_restore(sprites)
            },
            Err(e) => outcome matches Err(error) && error@ == e,
        },
{
    let mut files: Vec<SpriteFile> = Vec::new();
    let mut framegroups: Vec<LoadedFrameGroup> = Vec::new();
    let ghost mut sprites: Seq<EmittedSprite> = Seq::empty();
    let mut next: u32 = emitted;
    let mut i: usize = 0;
    assert(frame_group_views(framegroups@) =~= Seq::empty());
    assert(sprite_file_views(files@) =~= emitted_files(sprites, emitted as nat));
    while i < appearance.framegroups.len()
        invariant
            i <= appearance.framegroups.len(),
            appearance@.framegroups.len() == appearance.framegroups@.len(),
            next == emitted + sprites.len(),
            compiled_groups(appearance@, row@, base_path@, i as nat, emitted as nat) == Ok::<
                (Seq<LoadedFrameGroupView>, Seq<EmittedSprite>),
                ErrorView,
            >((frame_group_views(framegroups@), sprites)),
            sprite_file_views(files@) == emitted_files(sprites, emitted as nat),
            all_restore(sprites),
        decreases appearance.framegroups.len() - i,
    {
        let group: &FrameGroup = &appearance.framegroups[i];
        assert(appearance@.framegroups[i as int] == group@);
        let sheet: Option<&RawImage> = if i < row.len() {
            row[i].as_ref()
        } else {
            None
        };
        let ghost sheet_view: Option<RawImageView> = match sheet {
            Some(sheet) => Some(sheet@),
            None => None,
        };
        assert(sheet_view == sheet_in(row@, i as int));
        match compile_framegroup(appearance, group, sheet, base_path, next) {
            Ok((compiled, mut added)) => {
                proof {
                    let new_sprites = compiled_group(
                        appearance@,
                        group@,
                        sheet_view,
                        base_path@,
                        next as nat,
                    )->Ok_0.1;
                    lemma_emitted_files_concat(sprites, new_sprites, emitted as nat);
                    lemma_all_restore_concat(sprites, new_sprites);
                    assert(sprite_file_views(files@ + added@) =~= sprite_file_views(files@)
                        + sprite_file_views(added@));
                    sprites = sprites + new_sprites;
                }
                let ghost before = framegroups@;
                framegroups.push(compiled);
                assert(frame_group_views(framegroups@) =~= frame_group_views(before).push(
                    compiled@,
                ));
                next = next + added.len() as u32;
                files.append(&mut added);
            },
            Err(e) => {
                proof {
                    assert(compiled_groups(
                        appearance@,
                        row@,
                        base_path@,
                        (i + 1) as nat,
                        emitted as nat,
                    ) is Err);
                    lemma_compiled_groups_stays_failed(
                        appearance@,
                        row@,
                        base_path@,
                        (i + 1) as nat,
                        appearance@.framegroups.len(),
                        emitted as nat,
                    );
                }
                return Err(e);
            },
        }
        i += 1;
    }
    Ok(
        (
            LoadedAppearance {
                id: appearance.id,
                name: appearance.name.clone(),
                offset: appearance.offset,
                size: appearance.size,
                framegroups,
            },
            files,
        ),
    )
}

/// The sizes of a compiled package.
#[derive(Clone, Copy, Debug, PartialEq, Eq, Structural)]
pub struct CompilationResult {
    /// The number of appearances.
    pub appearances_count: usize,
    /// The number of sprites.
    pub sprites_count: usize,
    /// The length of the index file in bytes.
    pub dat_size: usize,
    /// The sum of the lengths of the compressed pixels of all sprites, or the
    /// largest `usize` where the sum is above it.
    pub total_spr_size: usize,
}

/// A compiled package: what its index file holds, and its sprite files.
#[derive(Debug)]
pub struct CompiledPackage {
    pub index: Vec<u8>,
    pub sprites: Vec<SpriteFile>,
    pub result: CompilationResult,
}

/// What a [`CompiledPackage`] holds.
pub struct PackageView {
    pub index: Seq<u8>,
    pub sprites: Seq<SpriteFileView>,
    pub result: CompilationResult,
}

impl View for CompiledPackage {
    type V = PackageView;

    open spec fn view(&self) -> PackageView {
        PackageView {
            index: self.index@,
            sprites: sprite_file_views(self.sprites@),
            result: self.result,
        }
    }
}

/// The sum of the lengths of the compressed pixels of `sprites`.
pub open spec fn compressed_bytes(sprites: Seq<EmittedSprite>) -> nat
    decreases sprites.len(),
{
    if sprites.len() == 0 {
        0
    } else {
        compressed_bytes(sprites.drop_last()) + sprites.last().data.compressed_pixels.len()
    }
}

/// The package that a manifest and its sheets compile to: the index file
/// for the compiled appearances, and a sprite file for every sprite, sprite
/// `k` under the identifier `k + 1`. It is the error of the first appearance
/// that does not compile, or else the error of appearances that do not fit
/// the index.
pub open spec fn compile_outcome(
    file: AppearancesFileView,
    sheets: Seq<Vec<Option<RawImage>>>,
    base_path: Seq<char>,
) -> Result<PackageView, ErrorView> {
    match compiled(file, sheets, base_path) {
        Err(e) => Err(e),
        Ok((appearances, sprites)) => match written_index(file.version, appearances) {
            Err(e) => Err(e),
            Ok(index) => Ok(
                PackageView {
                    index,
                    sprites: emitted_files(sprites, 0),
                    result: CompilationResult {
                        appearances_count: file.appearances.len() as usize,
                        sprites_count: sprites.len() as usize,
                        dat_size: index.len() as usize,
                        total_spr_size: saturated(compressed_bytes(sprites)),
                    },
                },
            ),
        },
    }
}

/// The sum of the lengths of the compressed pixels of the sprites that the
/// files hold, or the largest `usize` where the sum is above it.
fn total_compressed(
    files: &Vec<SpriteFile>,
    Ghost(sprites): Ghost<Seq<EmittedSprite>>,
) -> (total: usize)
    requires
        sprite_file_views(files@) == emitted_files(sprites, 0),
    ensures
        total == saturated(compressed_bytes(sprites)),
{
    let mut total: usize = 0;
    let mut k: usize = 0;
    assert(sprites.take(0) =~= Seq::empty());
    assert(sprite_file_views(files@).len() == files@.len());
    assert(emitted_files(sprites, 0).len() == sprites.len());
    while k < files.len()
        invariant
            k <= files.len(),
            files@.len() == sprites.len(),
            sprite_file_views(files@) == emitted_files(sprites, 0),
            total == saturated(compressed_bytes(sprites.take(k as int))),
        decreases files.len() - k,
    {
        proof {
            assert(sprites.take(k + 1).drop_last() =~= sprites.take(k as int));
            assert(sprites.take(k + 1).last() == sprites[k as int]);
            assert(sprite_file_views(files@)[k as int] == files@[k as int]@);
            assert(files@[k as int]@.bytes == sprite_file_bytes(sprites[k as int].data));
            lemma_u32_le_round_trip(sprites[k as int].data.width);
            lemma_u32_le_round_trip(sprites[k as int].data.height);
            lemma_u32_le_round_trip(sprites[k as int].data.compressed_pixels.len() as u32);
        }
        let length: usize = files[k].bytes.len();
        let compressed: usize = if length >= 12 {
            length - 12
        } else {
            0
        };
        total = match total.checked_add(compressed) {
            Some(sum) => sum,
            None => usize::MAX,
        };
        k += 1;
    }
    assert(sprites.take(k as int) =~= sprites);
    total
}

/// Compiles a manifest into a package. `sheets` holds the decoded
/// spritesheets: for every appearance, in its place, the sheet of every frame
/// group, in its place; `None`, or no entry, stands for a sheet that could not
/// be found. `base_path` is the directory below which the sheets with a path
/// that starts with `assets/` were looked for.
///
/// The sprites get the identifiers 1, 2, 3 and so on, in the order in which
/// they are emitted: appearance by appearance, frame group by frame group,
/// animation by animation, frame by frame. Every sprite file holds the
/// pixels of its cell: loading it gives them back. Nothing is emitted where
/// anything fails.
#[verifier::loop_isolation(false)]
pub fn compile_appearances(
    appearances_file: &AppearancesFile,
    base_path: &str,
    sheets: &Vec<Vec<Option<RawImage>>>,
) -> (outcome: Result<CompiledPackage, AppearanceError>)
    ensures
        match compile_outcome(appearances_file@, sheets@, base_path@) {
            Ok(package) => {
                &&& outcome matches Ok(compiled_package)
                &&& compiled_package@ == package
                &&& all_restore(compiled(appearances_file@, sheets@, base_path@)->Ok_0.1)
                &&& forall|k: int|
                    0 <= k < package.sprites.len() ==> (#[trigger] package.sprites[k]).sprite_id
                        == k + 1
            },
            Err(e) => outcome matches Err(error) && error@ == e,
        },
{
    let ghost file = appearances_file@;
    let no_sheets: Vec<Option<RawImage>> = Vec::new();
    let mut files: Vec<SpriteFile> = Vec::new();
    let mut appearances: Vec<LoadedAppearance> = Vec::new();
    let ghost mut sprites: Seq<EmittedSprite> = Seq::empty();
    let mut next: u32 = 0;
    let mut i: usize = 0;
    assert(appearance_views(appearances@) =~= Seq::empty());
    assert(sprite_file_views(files@) =~= emitted_files(sprites, 0));
    while i < appearances_file.appearances.len()
        invariant
            i <= appearances_file.appearances.len(),
            file.appearances.len() == appearances_file.appearances@.len(),
            next == sprites.len(),
            compiled_appearances(file, sheets@, base_path@, i as nat) == Ok::<
                (Seq<LoadedAppearanceView>, Seq<EmittedSprite>),
                ErrorView,
            >((appearance_views(appearances@), sprites)),
            sprite_file_views(files@) == emitted_files(sprites, 0),
            all_restore(sprites),
        decreases appearances_file.appearances.len() - i,
    {
        let appearance: &Appearance = &appearances_file.appearances[i];
        assert(file.appearances[i as int] == appearance@);
        let row: &Vec<Option<RawImage>> = if i < sheets.len() {
            &sheets[i]
        } else {
            &no_sheets
        };
        assert(row@ =~= sheet_row(sheets@, i as int));
        match compile_appearance(appearance, row, base_path, next) {
            Ok((done, mut added)) => {
                proof {
                    let new_sprites = compiled_appearance(
                        appearance@,
                        row@,
                        base_path@,
                        next as nat,
                    )->Ok_0.1;
                    lemma_emitted_files_concat(sprites, new_sprites, 0);
                    lemma_all_restore_concat(sprites, new_sprites);
                    assert(sprite_file_views(files@ + added@) =~= sprite_file_views(files@)
                        + sprite_file_views(added@));
                    sprites = sprites + new_sprites;
                }
                let ghost before = appearances@;
                appearances.push(done);
                assert(appearance_views(appearances@) =~= appearance_views(before).push(done@));
                next = next + added.len() as u32;
                files.append(&mut added);
            },
            Err(e) => {
                proof {
                    assert(compiled_appearances(file, sheets@, base_path@, (i + 1) as nat) is Err);
                    lemma_compiled_appearances_stays_failed(
                        file,
                        sheets@,
                        base_path@,
                        (i + 1) as nat,
                        file.appearances.len(),
                    );
                }
                return Err(e);
            },
        }
        i += 1;
    }
    let index: Vec<u8> = match write_index(appearances_file.version, &appearances) {
        Ok(index) => index,
        Err(e) => {
            return Err(e);
        },
    };
    let total_spr_size: usize = total_compressed(&files, Ghost(sprites));
    let result = CompilationResult {
        appearances_count: appearances_file.appearances.len(),
        sprites_count: files.len(),
        dat_size: index.len(),
        total_spr_size,
    };
    Ok(CompiledPackage { index, sprites: files, result })
}

} // verus!
