//! Loading a package: the index into a database, and sprite files into a
//! cache.

use crate::cache::{cache_bytes, SpriteCache};
use crate::error::{AppearanceError, ErrorView};
use crate::format::{
    appearance_map, lemma_parse_animations_stays_failed, lemma_parse_appearances_stays_failed,
    lemma_parse_frame_groups_stays_failed, lemma_parse_ids_stays_failed, parse_animation,
    parse_animations, parse_appearance, parse_appearances, parse_database, parse_frame_group,
    parse_frame_groups, parse_ids, parse_key,
};
use crate::loaded_types::{
    frame_group_views, walks, AppearanceDatabase, DatabaseView, LoadedAnimation,
    LoadedAnimationView, LoadedAppearance, LoadedAppearanceView, LoadedFrameGroup,
    LoadedFrameGroupView, LoadedSprite, LoadedSpriteView,
};
use crate::sprite::{decompress_pixels, decompressed, parse_sprite_file, read_sprite_file};
use crate::text::{join_path, joined_path, sprite_file_name, sprite_file_name_of};
use crate::types::{u8_to_direction, Direction, Offset, SpriteData};
use crate::wire::{read_string, saturated, ByteReader};
use std::collections::HashMap;
use vstd::prelude::*;
use vstd::string::StringExecFns;

verus! {

broadcast use vstd::std_specs::hash::group_hash_axioms;

/// Reads the direction of an animation.
pub fn read_direction(
    reader: &mut ByteReader,
) -> (outcome: Result<Option<Direction>, AppearanceError>)
    ensures
        final(reader).bytes() == old(reader).bytes(),
        match parse_key(old(reader).bytes(), old(reader).position()) {
            Ok((key, end)) => {
                &&& outcome == Ok::<Option<Direction>, AppearanceError>(key)
                &&& final(reader).position() == end
            },
            Err(e) => outcome matches Err(error) && error@ == e,
        },
{
    let flag: u8 = match reader.read_u8() {
        Ok(flag) => flag,
        Err(e) => {
            return Err(e);
        },
    };
    if flag == 1 {
        match reader.read_u8() {
            Ok(code) => Ok(Some(u8_to_direction(code))),
            Err(e) => Err(e),
        }
    } else {
        Ok(None)
    }
}

/// Reads `count` sprite identifiers.
#[verifier::loop_isolation(false)]
pub fn read_sprite_ids(
    reader: &mut ByteReader,
    count: u32,
) -> (outcome: Result<Vec<u32>, AppearanceError>)
    ensures
        final(reader).has_read_as(
            *old(reader),
            outcome,
            parse_ids(old(reader).bytes(), old(reader).position(), count as nat),
        ),
{
    let ghost data = reader.bytes();
    let ghost start = reader.position();
    let mut sprite_ids: Vec<u32> = Vec::new();
    let mut i: u32 = 0;
    while i < count
        invariant
            i <= count,
            reader.bytes() == data,
            parse_ids(data, start, i as nat) == Ok::<(Seq<u32>, int), ErrorView>(
                (sprite_ids@, reader.position()),
            ),
        decreases count - i,
    {
        match reader.read_u32() {
            Ok(sprite_id) => {
                sprite_ids.push(sprite_id);
            },
            Err(e) => {
                proof {
                    assert(parse_ids(data, start, (i + 1) as nat) is Err);
                    lemma_parse_ids_stays_failed(data, start, (i + 1) as nat, count as nat);
                }
                return Err(e);
            },
        }
        i += 1;
    }
    Ok(sprite_ids)
}

/// Reads one animation with its direction.
pub fn read_animation(reader: &mut ByteReader) -> (outcome: Result<
    (Option<Direction>, LoadedAnimation),
    AppearanceError,
>)
    ensures
        final(reader).bytes() == old(reader).bytes(),
        match parse_animation(old(reader).bytes(), old(reader).position()) {
            Ok(((key, animation), end)) => {
                &&& outcome matches Ok(read)
                &&& read.0 == key
                &&& read.1@ == animation
                &&& final(reader).position() == end
            },
            Err(e) => outcome matches Err(error) && error@ == e,
        },
{
    let direction: Option<Direction> = match read_direction(reader) {
        Ok(direction) => direction,
        Err(e) => {
            return Err(e);
        },
    };
    let count: u32 = match reader.read_u32() {
        Ok(count) => count,
        Err(e) => {
            return Err(e);
        },
    };
    let sprite_ids: Vec<u32> = match read_sprite_ids(reader, count) {
        Ok(sprite_ids) => sprite_ids,
        Err(e) => {
            return Err(e);
        },
    };
    let duration: u32 = match reader.read_u32() {
        Ok(duration) => duration,
        Err(e) => {
            return Err(e);
        },
    };
    let flag: u8 = match reader.read_u8() {
        Ok(flag) => flag,
        Err(e) => {
            return Err(e);
        },
    };
    Ok((direction, LoadedAnimation { sprite_ids, duration, looped: flag == 1 }))
}

/// Reads one frame group: its name and its animations. Of two animations
/// under the same direction the later one takes the place of the earlier one.
#[verifier::loop_isolation(false)]
pub fn read_framegroup(
    reader: &mut ByteReader,
) -> (outcome: Result<LoadedFrameGroup, AppearanceError>)
    ensures
        final(reader).has_read_as(
            *old(reader),
            outcome,
            parse_frame_group(old(reader).bytes(), old(reader).position()),
        ),
{
    let ghost data = reader.bytes();
    let name: String = match read_string(reader) {
        Ok(name) => name,
        Err(e) => {
            return Err(e);
        },
    };
    let count: u32 = match reader.read_u32() {
        Ok(count) => count,
        Err(e) => {
            return Err(e);
        },
    };
    let ghost start = reader.position();
    let ghost group_name = name@;
    let mut group = LoadedFrameGroup { name, animations: Vec::new() };
    assert(group@.animations =~= Seq::empty());
    let mut i: u32 = 0;
    while i < count
        invariant
            i <= count,
            reader.bytes() == data,
            group@.name == group_name,
            parse_animations(data, start, i as nat) == Ok::<
                (Seq<(Option<Direction>, LoadedAnimationView)>, int),
                ErrorView,
            >((group@.animations, reader.position())),
        decreases count - i,
    {
        match read_animation(reader) {
            Ok((direction, animation)) => {
                group.insert_animation(direction, animation);
            },
            Err(e) => {
                proof {
                    assert(parse_animations(data, start, (i + 1) as nat) is Err);
                    lemma_parse_animations_stays_failed(data, start, (i + 1) as nat, count as nat);
                }
                return Err(e);
            },
        }
        i += 1;
    }
    Ok(group)
}

/// Reads one appearance with its frame groups.
#[verifier::loop_isolation(false)]
pub fn read_appearance(
    reader: &mut ByteReader,
) -> (outcome: Result<LoadedAppearance, AppearanceError>)
    ensures
        final(reader).has_read_as(
            *old(reader),
            outcome,
            parse_appearance(old(reader).bytes(), old(reader).position()),
        ),
{
    let ghost data = reader.bytes();
    let id: u32 = match reader.read_u32() {
        Ok(id) => id,
        Err(e) => {
            return Err(e);
        },
    };
    let name: String = match read_string(reader) {
        Ok(name) => name,
        Err(e) => {
            return Err(e);
        },
    };
    let x: i32 = match reader.read_i32() {
        Ok(x) => x,
        Err(e) => {
            return Err(e);
        },
    };
    let y: i32 = match reader.read_i32() {
        Ok(y) => y,
        Err(e) => {
            return Err(e);
        },
    };
    let size: u32 = match reader.read_u32() {
        Ok(size) => size,
        Err(e) => {
            return Err(e);
        },
    };
    let count: u32 = match reader.read_u32() {
        Ok(count) => count,
        Err(e) => {
            return Err(e);
        },
    };
    let ghost start = reader.position();
    let mut framegroups: Vec<LoadedFrameGroup> = Vec::new();
    assert(frame_group_views(framegroups@) =~= Seq::empty());
    let mut i: u32 = 0;
    while i < count
        invariant
            i <= count,
            reader.bytes() == data,
            parse_frame_groups(data, start, i as nat) == Ok::<
                (Seq<LoadedFrameGroupView>, int),
                ErrorView,
            >((frame_group_views(framegroups@), reader.position())),
        decreases count - i,
    {
        match read_framegroup(reader) {
            Ok(group) => {
                let ghost before = framegroups@;
                framegroups.push(group);
                assert(frame_group_views(framegroups@) =~= frame_group_views(before).push(group@));
            },
            Err(e) => {
                proof {
                    assert(parse_frame_groups(data, start, (i + 1) as nat) is Err);
                    lemma_parse_frame_groups_stays_failed(
                        data,
                        start,
                        (i + 1) as nat,
                        count as nat,
                    );
                }
                return Err(e);
            },
        }
        i += 1;
    }
    Ok(LoadedAppearance { id, name, offset: Offset { x, y }, size, framegroups })
}

/// Reads an index file into a database. It fails with `Truncated` where the
/// file ends before the last appearance does, and with `InvalidUtf8` where a
/// name is not valid UTF-8.
#[verifier::loop_isolation(false)]
pub fn read_database(data: &[u8]) -> (outcome: Result<AppearanceDatabase, AppearanceError>)
    ensures
        match parse_database(data@) {
            Ok(database) => outcome matches Ok(read) && read@ == database,
            Err(e) => outcome matches Err(error) && error@ == e,
        },
{
    let mut reader: ByteReader = ByteReader::new(data);
    let version: u32 = match reader.read_u32() {
        Ok(version) => version,
        Err(e) => {
            return Err(e);
        },
    };
    let count: u32 = match reader.read_u32() {
        Ok(count) => count,
        Err(e) => {
            return Err(e);
        },
    };
    let ghost start = reader.position();
    let ghost mut appearances: Seq<LoadedAppearanceView> = Seq::empty();
    let mut database = AppearanceDatabase::new(version);
    let mut i: u32 = 0;
    while i < count
        invariant
            i <= count,
            reader.bytes() == data@,
            database@ == (DatabaseView { version, appearances: appearance_map(appearances) }),
            parse_appearances(data@, start, i as nat) == Ok::<
                (Seq<LoadedAppearanceView>, int),
                ErrorView,
            >((appearances, reader.position())),
        decreases count - i,
    {
        match read_appearance(&mut reader) {
            Ok(appearance) => {
                proof {
                    let ghost before = appearances;
                    appearances = appearances.push(appearance@);
                    assert(appearances.drop_last() =~= before);
                }
                database.add_appearance(appearance);
            },
            Err(e) => {
                proof {
                    assert(parse_appearances(data@, start, (i + 1) as nat) is Err);
                    lemma_parse_appearances_stays_failed(
                        data@,
                        start,
                        (i + 1) as nat,
                        count as nat,
                    );
                }
                return Err(e);
            },
        }
        i += 1;
    }
    Ok(database)
}

/// The path of the file that holds the sprite `sprite_id` of the package in
/// the directory `base_path`.
pub open spec fn sprite_path(base_path: Seq<char>, sprite_id: u32) -> Seq<char> {
    joined_path(base_path, sprite_file_name_of(sprite_id))
}

/// The sprite `sprite_id` as its file gives it, `file` being what the file
/// holds, or `None` where there is no such file. It is `AssetNotFound` with
/// the path of the file where the file is missing, `Truncated` where the file
/// ends before the sprite does, and `CorruptSprite` where the pixels do not
/// decompress, or not to four bytes for every pixel.
pub open spec fn loaded_sprite(
    base_path: Seq<char>,
    sprite_id: u32,
    file: Option<Seq<u8>>,
) -> Result<
    LoadedSpriteView,
    ErrorView,
> {
    match file {
        None => Err(ErrorView::AssetNotFound { path: sprite_path(base_path, sprite_id) }),
        Some(data) => match parse_sprite_file(data) {
            Err(e) => Err(e),
            Ok(stored) => match decompressed(
                stored.compressed_pixels,
                stored.width,
                stored.height,
            ) {
                Err(e) => Err(e),
                Ok(pixels) => Ok(
                    LoadedSpriteView {
                        sprite_id,
                        width: stored.width,
                        height: stored.height,
                        pixels,
                    },
                ),
            },
        },
    }
}

/// What a file holds, where there is one.
pub open spec fn file_bytes(file: Option<&[u8]>) -> Option<Seq<u8>> {
    match file {
        Some(data) => Some(data@),
        None => None,
    }
}

/// What the file of the sprite `sprite_id` holds, in a set of files that are
/// given by the identifier of their sprite.
pub open spec fn file_of(files: Map<u32, Vec<u8>>, sprite_id: u32) -> Option<Seq<u8>> {
    if files.contains_key(sprite_id) {
        Some(files[sprite_id]@)
    } else {
        None
    }
}

/// The cache after the sprite `sprite_id` was asked for: as it was, where it
/// held the sprite or the sprite cannot be loaded, and with the sprite under
/// its identifier otherwise.
pub open spec fn cache_after_load(
    cache: Map<u32, LoadedSpriteView>,
    base_path: Seq<char>,
    sprite_id: u32,
    file: Option<Seq<u8>>,
) -> Map<u32, LoadedSpriteView> {
    if cache.contains_key(sprite_id) {
        cache
    } else {
        match loaded_sprite(base_path, sprite_id, file) {
            Ok(sprite) => cache.insert(sprite_id, sprite),
            Err(_) => cache,
        }
    }
}

/// What asking for the sprite `sprite_id` gives: the sprite that the cache
/// holds, or else the sprite as its file gives it.
pub open spec fn sprite_after_load(
    cache: Map<u32, LoadedSpriteView>,
    base_path: Seq<char>,
    sprite_id: u32,
    file: Option<Seq<u8>>,
) -> Result<LoadedSpriteView, ErrorView> {
    if cache.contains_key(sprite_id) {
        Ok(cache[sprite_id])
    } else {
        loaded_sprite(base_path, sprite_id, file)
    }
}

/// Asking for a sprite a second time gives the sprite of the first time,
/// whatever its file holds by then, and leaves the cache as the first time
/// left it; and the first time adds at most one sprite to the cache.
pub proof fn lemma_load_sprite_twice(
    cache: Map<u32, LoadedSpriteView>,
    base_path: Seq<char>,
    sprite_id: u32,
    first_file: Option<Seq<u8>>,
    second_file: Option<Seq<u8>>,
)
    requires
        cache.dom().finite(),
        sprite_after_load(cache, base_path, sprite_id, first_file) is Ok,
    ensures
        ({
            let once = cache_after_load(cache, base_path, sprite_id, first_file);
            &&& sprite_after_load(once, base_path, sprite_id, second_file) == sprite_after_load(
                cache,
                base_path,
                sprite_id,
                first_file,
            )
            &&& cache_after_load(once, base_path, sprite_id, second_file) == once
            &&& once.dom().finite()
            &&& cache.dom().len() <= once.dom().len() <= cache.dom().len() + 1
        }),
{
}

/// The cache and the outcome after the sprites `sprite_ids` were asked for,
/// one after the other, up to the first that cannot be loaded.
pub open spec fn preloaded(
    cache: Map<u32, LoadedSpriteView>,
    base_path: Seq<char>,
    sprite_ids: Seq<u32>,
    files: Map<u32, Vec<u8>>,
) -> (Map<u32, LoadedSpriteView>, Result<(), ErrorView>)
    decreases sprite_ids.len(),
{
    if sprite_ids.len() == 0 {
        (cache, Ok(()))
    } else {
        let sprite_id = sprite_ids[0];
        let file = file_of(files, sprite_id);
        match sprite_after_load(cache, base_path, sprite_id, file) {
            Err(e) => (cache, Err(e)),
            Ok(_) => preloaded(
                cache_after_load(cache, base_path, sprite_id, file),
                base_path,
                sprite_ids.drop_first(),
                files,
            ),
        }
    }
}

/// The sprites of the animations of a frame group, animation by animation.
pub open spec fn animation_sprite_ids(
    entries: Seq<(Option<Direction>, LoadedAnimationView)>,
) -> Seq<u32>
    decreases entries.len(),
{
    if entries.len() == 0 {
        Seq::empty()
    } else {
        animation_sprite_ids(entries.drop_last()) + entries.last().1.sprite_ids
    }
}

/// The sprites of the frame groups of an appearance, frame group by frame
/// group.
pub open spec fn appearance_sprite_ids(groups: Seq<LoadedFrameGroupView>) -> Seq<u32>
    decreases groups.len(),
{
    if groups.len() == 0 {
        Seq::empty()
    } else {
        appearance_sprite_ids(groups.drop_last()) + animation_sprite_ids(groups.last().animations)
    }
}

/// The sprites of the appearances with the identifiers `walk`, appearance by
/// appearance.
pub open spec fn sprite_ids_along(
    walk: Seq<u32>,
    appearances: Map<u32, LoadedAppearanceView>,
) -> Seq<u32>
    decreases walk.len(),
{
    if walk.len() == 0 {
        Seq::empty()
    } else {
        sprite_ids_along(walk.drop_last(), appearances) + appearance_sprite_ids(
            appearances[walk.last()].framegroups,
        )
    }
}

/// Preloading loses nothing that the cache held, and where it succeeds the
/// cache holds every sprite that was asked for.
pub proof fn lemma_preloaded_cache(
    cache: Map<u32, LoadedSpriteView>,
    base_path: Seq<char>,
    sprite_ids: Seq<u32>,
    files: Map<u32, Vec<u8>>,
)
    ensures
        ({
            let (after, outcome) = preloaded(cache, base_path, sprite_ids, files);
            &&& forall|id: u32|
                cache.contains_key(id) ==> #[trigger] after.contains_key(id) && after[id]
                    == cache[id]
            &&& outcome is Ok ==> forall|i: int|
                0 <= i < sprite_ids.len() ==> after.contains_key(#[trigger] sprite_ids[i])
        }),
    decreases sprite_ids.len(),
{
    if sprite_ids.len() > 0 {
        let sprite_id = sprite_ids[0];
        let file = file_of(files, sprite_id);
        if sprite_after_load(cache, base_path, sprite_id, file) is Ok {
            let next = cache_after_load(cache, base_path, sprite_id, file);
            lemma_preloaded_cache(next, base_path, sprite_ids.drop_first(), files);
            let (after, outcome) = preloaded(cache, base_path, sprite_ids, files);
            if outcome is Ok {
                assert forall|i: int| 0 <= i < sprite_ids.len() implies after.contains_key(
                    #[trigger] sprite_ids[i],
                ) by {
                    if i > 0 {
                        assert(sprite_ids.drop_first()[i - 1] == sprite_ids[i]);
                    }
                }
            }
        }
    }
}

/// Whether the sprite `sprite_id` can be had: the cache holds it, or its file
/// gives it.
pub open spec fn obtainable(
    cache: Map<u32, LoadedSpriteView>,
    base_path: Seq<char>,
    files: Map<u32, Vec<u8>>,
    sprite_id: u32,
) -> bool {
    ||| cache.contains_key(sprite_id)
    ||| loaded_sprite(base_path, sprite_id, file_of(files, sprite_id)) is Ok
}

/// Preloading succeeds where every sprite that is asked for can be had.
pub proof fn lemma_preloaded_succeeds(
    cache: Map<u32, LoadedSpriteView>,
    base_path: Seq<char>,
    sprite_ids: Seq<u32>,
    files: Map<u32, Vec<u8>>,
)
    requires
        forall|i: int|
            0 <= i < sprite_ids.len() ==> obtainable(
                cache,
                base_path,
                files,
                #[trigger] sprite_ids[i],
            ),
    ensures
        preloaded(cache, base_path, sprite_ids, files).1 is Ok,
    decreases sprite_ids.len(),
{
    if sprite_ids.len() > 0 {
        let sprite_id = sprite_ids[0];
        let rest = sprite_ids.drop_first();
        assert(obtainable(cache, base_path, files, sprite_ids[0]));
        let next = cache_after_load(cache, base_path, sprite_id, file_of(files, sprite_id));
        assert forall|i: int| 0 <= i < rest.len() implies obtainable(
            next,
            base_path,
            files,
            #[trigger] rest[i],
        ) by {
            assert(obtainable(cache, base_path, files, sprite_ids[i + 1]));
        }
        lemma_preloaded_succeeds(next, base_path, rest, files);
    }
}

/// Every sprite along a walk is a sprite of one of the appearances of the
/// walk.
pub proof fn lemma_sprite_ids_along(
    walk: Seq<u32>,
    appearances: Map<u32, LoadedAppearanceView>,
    place: int,
)
    requires
        0 <= place < sprite_ids_along(walk, appearances).len(),
    ensures
        exists|w: int|
            0 <= w < walk.len() && appearance_sprite_ids(
                appearances[#[trigger] walk[w]].framegroups,
            ).contains(sprite_ids_along(walk, appearances)[place]),
    decreases walk.len(),
{
    let front = sprite_ids_along(walk.drop_last(), appearances);
    let last = appearance_sprite_ids(appearances[walk.last()].framegroups);
    if place < front.len() {
        lemma_sprite_ids_along(walk.drop_last(), appearances, place);
        let w = choose|w: int|
            0 <= w < walk.drop_last().len() && appearance_sprite_ids(
                appearances[#[trigger] walk.drop_last()[w]].framegroups,
            ).contains(front[place]);
        assert(walk[w] == walk.drop_last()[w]);
    } else {
        assert(last[place - front.len()] == sprite_ids_along(walk, appearances)[place]);
        assert(walk[walk.len() - 1] == walk.last());
    }
}

/// Appends the sprites of an appearance to `sprite_ids`.
pub fn collect_sprite_ids(appearance: &LoadedAppearance, sprite_ids: &mut Vec<u32>)
    ensures
        final(sprite_ids)@ == old(sprite_ids)@ + appearance_sprite_ids(appearance@.framegroups),
{
    let ghost groups = appearance@.framegroups;
    let ghost before = sprite_ids@;
    let mut g: usize = 0;
    assert(groups.take(0) =~= Seq::empty());
    while g < appearance.framegroups.len()
        invariant
            g <= appearance.framegroups.len(),
            groups == appearance@.framegroups,
            groups.len() == appearance.framegroups@.len(),
            sprite_ids@ == before + appearance_sprite_ids(groups.take(g as int)),
        decreases appearance.framegroups.len() - g,
    {
        let group: &LoadedFrameGroup = &appearance.framegroups[g];
        let ghost entries = group@.animations;
        assert(groups[g as int] == group@);
        let ghost at_group = sprite_ids@;
        let mut a: usize = 0;
        assert(entries.take(0) =~= Seq::empty());
        while a < group.animations.len()
            invariant
                a <= group.animations.len(),
                entries == group@.animations,
                entries.len() == group.animations@.len(),
                sprite_ids@ == at_group + animation_sprite_ids(entries.take(a as int)),
            decreases group.animations.len() - a,
        {
            let ghost so_far = sprite_ids@;
            sprite_ids.extend_from_slice(group.animations[a].1.sprite_ids.as_slice());
            proof {
                assert(entries[a as int].1 == group.animations@[a as int].1@);
                assert(sprite_ids@ =~= so_far + entries[a as int].1.sprite_ids);
                assert(entries.take(a + 1).drop_last() =~= entries.take(a as int));
                assert(entries.take(a + 1).last() == entries[a as int]);
                assert(sprite_ids@ =~= at_group + animation_sprite_ids(entries.take(a + 1)));
            }
            a += 1;
        }
        proof {
            assert(entries.take(a as int) =~= entries);
            assert(groups.take(g + 1).drop_last() =~= groups.take(g as int));
            assert(groups.take(g + 1).last() == groups[g as int]);
            assert(sprite_ids@ =~= before + appearance_sprite_ids(groups.take(g + 1)));
        }
        g += 1;
    }
    assert(groups.take(g as int) =~= groups);
}

/// What a [`AppearanceLoader`] holds.
pub struct LoaderView {
    pub base_path: Seq<char>,
    pub cache: Map<u32, LoadedSpriteView>,
}

/// Loads the sprites of one package, and keeps those that it has loaded.
#[derive(Clone, Debug)]
pub struct AppearanceLoader {
    base_path: String,
    sprite_cache: SpriteCache,
}

impl View for AppearanceLoader {
    type V = LoaderView;

    closed spec fn view(&self) -> LoaderView {
        LoaderView { base_path: self.base_path@, cache: self.sprite_cache@ }
    }
}

impl Default for AppearanceLoader {
    fn default() -> (loader: AppearanceLoader)
        ensures
            loader@ == (LoaderView { base_path: Seq::empty(), cache: Map::empty() }),
    {
        proof {
            reveal_strlit("");
            assert(""@ =~= Seq::<char>::empty());
        }
        AppearanceLoader::new("")
    }
}

impl AppearanceLoader {
    /// A loader for the package in the directory `base_path`, with an empty
    /// cache.
    pub fn new(base_path: &str) -> (loader: Self)
        ensures
            loader@ == (LoaderView { base_path: base_path@, cache: Map::empty() }),
    {
        AppearanceLoader {
            base_path: String::from_str(base_path),
            sprite_cache: SpriteCache::new(),
        }
    }

    /// Reads the index file of the package into a database. `data` is what
    /// the file holds. The loader stays as it is.
    pub fn load_database(&mut self, data: &[u8]) -> (outcome: Result<
        AppearanceDatabase,
        AppearanceError,
    >)
        ensures
            final(self)@ == old(self)@,
            match parse_database(data@) {
                Ok(database) => outcome matches Ok(read) && read@ == database,
                Err(e) => outcome matches Err(error) && error@ == e,
            },
    {
        read_database(data)
    }

    /// Reads the sprite `sprite_id` out of its file. `file` is what the file
    /// holds, or `None` where there is no such file. The cache is not looked
    /// at.
    pub fn load_sprite_from_file(&self, sprite_id: u32, file: Option<&[u8]>) -> (outcome: Result<
        LoadedSprite,
        AppearanceError,
    >)
        ensures
            match loaded_sprite(self@.base_path, sprite_id, file_bytes(file)) {
                Ok(sprite) => {
                    &&& outcome matches Ok(read)
                    &&& read@ == sprite
                    &&& sprite.valid()
                    &&& sprite.sprite_id == sprite_id
                },
                Err(e) => outcome matches Err(error) && error@ == e,
            },
    {
        let data: &[u8] = match file {
            Some(data) => data,
            None => {
                let name: String = sprite_file_name(sprite_id);
                return Err(
                    AppearanceError::AssetNotFound {
                        path: join_path(self.base_path.as_str(), name.as_str()),
                    },
                );
            },
        };
        let stored: SpriteData = match read_sprite_file(data) {
            Ok(stored) => stored,
            Err(e) => {
                return Err(e);
            },
        };
        let pixels: Vec<u8> = match decompress_pixels(
            stored.compressed_pixels.as_slice(),
            stored.width,
            stored.height,
        ) {
            Ok(pixels) => pixels,
            Err(e) => {
                return Err(e);
            },
        };
        Ok(LoadedSprite { sprite_id, width: stored.width, height: stored.height, pixels })
    }

    /// The sprite `sprite_id`: out of the cache where the cache holds it, and
    /// else out of its file and into the cache. `file` is what the file
    /// holds, or `None` where there is no such file; it is not looked at where
    /// the cache holds the sprite.
    pub fn load_sprite(&mut self, sprite_id: u32, file: Option<&[u8]>) -> (outcome: Result<
        &LoadedSprite,
        AppearanceError,
    >)
        ensures
            final(self)@.base_path == old(self)@.base_path,
            final(self)@.cache == cache_after_load(
                old(self)@.cache,
                old(self)@.base_path,
                sprite_id,
                file_bytes(file),
            ),
            match sprite_after_load(
                old(self)@.cache,
                old(self)@.base_path,
                sprite_id,
                file_bytes(file),
            ) {
                Ok(sprite) => {
                    &&& outcome matches Ok(found)
                    &&& found@ == sprite
                    &&& sprite.valid()
                    &&& sprite.sprite_id == sprite_id
                },
                Err(e) => outcome matches Err(error) && error@ == e,
            },
    {
        if !self.sprite_cache.contains(sprite_id) {
            let sprite: LoadedSprite = match self.load_sprite_from_file(sprite_id, file) {
                Ok(sprite) => sprite,
                Err(e) => {
                    return Err(e);
                },
            };
            self.sprite_cache.insert_if_absent(sprite);
        }
        match self.sprite_cache.get(sprite_id) {
            Some(sprite) => Ok(sprite),
            None => {
                assert(false);
                Err(AppearanceError::CorruptSprite)
            },
        }
    }

    /// The sprite `sprite_id`, where the cache holds it.
    pub fn get_cached_sprite(&self, sprite_id: u32) -> (found: Option<&LoadedSprite>)
        ensures
            match found {
                Some(sprite) => {
                    &&& self@.cache.contains_key(sprite_id)
                    &&& sprite@ == self@.cache[sprite_id]
                    &&& sprite@.valid()
                    &&& sprite@.sprite_id == sprite_id
                },
                None => !self@.cache.contains_key(sprite_id),
            },
    {
        self.sprite_cache.get(sprite_id)
    }

    /// Empties the cache.
    pub fn clear_sprite_cache(&mut self)
        ensures
            final(self)@ == (LoaderView { base_path: old(self)@.base_path, cache: Map::empty() }),
    {
        self.sprite_cache.clear();
    }

    /// The number of sprites in the cache.
    pub fn cached_sprite_count(&self) -> (count: usize)
        ensures
            count == self@.cache.dom().len(),
    {
        self.sprite_cache.len()
    }

    /// The number of bytes that the pixels of the cached sprites take, or
    /// the largest `usize` where they take more than that.
    pub fn cache_size_bytes(&self) -> (size: usize)
        ensures
            size == saturated(cache_bytes(self@.cache)),
    {
        self.sprite_cache.size_bytes()
    }

    /// Loads every sprite of `sprite_ids` that the cache does not hold, in
    /// their order, and stops at the first that cannot be loaded. `files` holds
    /// what the sprite files hold, each under the identifier of its sprite; a
    /// sprite without an entry has no file.
    #[verifier::loop_isolation(false)]
    pub fn preload_sprites(
        &mut self,
        sprite_ids: &[u32],
        files: &HashMap<u32, Vec<u8>>,
    ) -> (outcome: Result<
        (),
        AppearanceError,
    >)
        ensures
            final(self)@.base_path == old(self)@.base_path,
            final(self)@.cache == preloaded(
                old(self)@.cache,
                old(self)@.base_path,
                sprite_ids@,
                files@,
            ).0,
            match preloaded(old(self)@.cache, old(self)@.base_path, sprite_ids@, files@).1 {
                Ok(_) => outcome is Ok,
                Err(e) => outcome matches Err(error) && error@ == e,
            },
    {
        let ghost base = self@.base_path;
        let ghost whole = preloaded(self@.cache, base, sprite_ids@, files@);
        assert(sprite_ids@.skip(0) =~= sprite_ids@);
        let mut i: usize = 0;
        while i < sprite_ids.len()
            invariant
                i <= sprite_ids.len(),
                self@.base_path == base,
                preloaded(self@.cache, base, sprite_ids@.skip(i as int), files@) == whole,
            decreases sprite_ids.len() - i,
        {
            let sprite_id: u32 = sprite_ids[i];
            let ghost rest = sprite_ids@.skip(i as int);
            assert(rest[0] == sprite_id);
            assert(rest.drop_first() =~= sprite_ids@.skip(i + 1));
            let file: Option<&[u8]> = match files.get(&sprite_id) {
                Some(data) => Some(data.as_slice()),
                None => None,
            };
            assert(file_bytes(file) == file_of(files@, sprite_id));
            match self.load_sprite(sprite_id, file) {
                Ok(_) => {},
                Err(e) => {
                    return Err(e);
                },
            }
            i += 1;
        }
        Ok(())
    }

    /// Loads every sprite of an appearance that the cache does not hold:
    /// frame group by frame group, animation by animation, frame by frame.
    pub fn preload_appearance_sprites(
        &mut self,
        appearance: &LoadedAppearance,
        files: &HashMap<u32, Vec<u8>>,
    ) -> (outcome: Result<(), AppearanceError>)
        ensures
            final(self)@.base_path == old(self)@.base_path,
            final(self)@.cache == preloaded(
                old(self)@.cache,
                old(self)@.base_path,
                appearance_sprite_ids(appearance@.framegroups),
                files@,
            ).0,
            match preloaded(
                old(self)@.cache,
                old(self)@.base_path,
                appearance_sprite_ids(appearance@.framegroups),
                files@,
            ).1 {
                Ok(_) => outcome is Ok,
                Err(e) => outcome matches Err(error) && error@ == e,
            },
    {
        let mut sprite_ids: Vec<u32> = Vec::new();
        collect_sprite_ids(appearance, &mut sprite_ids);
        assert(sprite_ids@ =~= appearance_sprite_ids(appearance@.framegroups));
        self.preload_sprites(sprite_ids.as_slice(), files)
    }
}

/// Loads the database of a package and every sprite that it names. `index`
/// is what the index file holds; `files` holds what the sprite files hold,
/// each under the identifier of its sprite. The sprites are loaded appearance
/// by appearance, the appearances in no particular order, and the first
/// sprite that cannot be loaded ends the loading with its error.
pub fn load_all(base_path: &str, index: &[u8], files: &HashMap<u32, Vec<u8>>) -> (outcome: Result<
    (AppearanceDatabase, AppearanceLoader),
    AppearanceError,
>)
    ensures
        match parse_database(index@) {
            Err(e) => outcome matches Err(error) && error@ == e,
            Ok(database) => exists|walk: Seq<u32>|
                {
                    &&& #[trigger] walks(walk, database.appearances)
                    &&& match preloaded(
                        Map::empty(),
                        base_path@,
                        sprite_ids_along(walk, database.appearances),
                        files@,
                    ) {
                        (cache, Ok(_)) => {
                            &&& outcome matches Ok(loaded)
                            &&& loaded.0@ == database
                            &&& loaded.1@ == (LoaderView { base_path: base_path@, cache })
                        },
                        (_, Err(e)) => outcome matches Err(error) && error@ == e,
                    }
                },
        },
{
    let mut loader = AppearanceLoader::new(base_path);
    let database: AppearanceDatabase = match loader.load_database(index) {
        Ok(database) => database,
        Err(e) => {
            return Err(e);
        },
    };
    let mut sprite_ids: Vec<u32> = Vec::new();
    let ghost appearances = database@.appearances;
    let all: Vec<&LoadedAppearance> = database.all_appearances();
    let ghost walk: Seq<u32> = choose|walk: Seq<u32>|
        {
            &&& #[trigger] walks(walk, appearances)
            &&& walk.len() == all@.len()
            &&& forall|i: int| 0 <= i < all@.len() ==> (#[trigger] all@[i])@ == appearances[walk[i]]
        };
    assert(walk.take(0) =~= Seq::empty());
    let mut i: usize = 0;
    while i < all.len()
        invariant
            i <= all.len(),
            walk.len() == all@.len(),
            forall|j: int| 0 <= j < all@.len() ==> (#[trigger] all@[j])@ == appearances[walk[j]],
            sprite_ids@ == sprite_ids_along(walk.take(i as int), appearances),
        decreases all.len() - i,
    {
        let ghost so_far = sprite_ids@;
        collect_sprite_ids(all[i], &mut sprite_ids);
        proof {
            assert(walk.take(i + 1).drop_last() =~= walk.take(i as int));
            assert(walk.take(i + 1).last() == walk[i as int]);
            assert(all@[i as int]@ == appearances[walk[i as int]]);
        }
        i += 1;
    }
    assert(walk.take(i as int) =~= walk);
    match loader.preload_sprites(sprite_ids.as_slice(), files) {
        Ok(_) => Ok((database, loader)),
        Err(e) => Err(e),
    }
}

/// Loads the database of a package and no sprite: the sprites are loaded
/// when they are asked for. `index` is what the index file holds.
pub fn load_database_only(base_path: &str, index: &[u8]) -> (outcome: Result<
    (AppearanceDatabase, AppearanceLoader),
    AppearanceError,
>)
    ensures
        match parse_database(index@) {
            Err(e) => outcome matches Err(error) && error@ == e,
            Ok(database) => {
                &&& outcome matches Ok(loaded)
                &&& loaded.0@ == database
                &&& loaded.1@ == (LoaderView { base_path: base_path@, cache: Map::empty() })
            },
        },
{
    let mut loader = AppearanceLoader::new(base_path);
    match loader.load_database(index) {
        Ok(database) => Ok((database, loader)),
        Err(e) => Err(e),
    }
}

} // verus!
