//! The index file: which bytes stand for which appearances, and the other
//! way round.
//!
//! All numbers are little-endian. The file is a version and a count of four
//! bytes each, then the appearances. An appearance is its identifier, its name,
//! the two coordinates of its offset (signed), its size and the count of its
//! frame groups, then the frame groups. A frame group is its name and the
//! count of its animations, then the animations. An animation is one byte that
//! is 1 where a direction follows, the byte of that direction's code, the count
//! of its sprites, the identifier of each sprite, its duration, and one byte
//! that is 1 where it loops.

use crate::error::ErrorView;
use crate::loaded_types::{
    distinct_keys, find_key, lemma_find_key, with_animation, DatabaseView, LoadedAnimationView,
    LoadedAppearanceView, LoadedFrameGroupView,
};
use crate::types::{Direction, Offset};
use crate::wire::{
    holds_at, i32_le_bytes, lemma_holds_at_concat, lemma_holds_at_start, lemma_parse_written_i32,
    lemma_parse_written_string, lemma_parse_written_u32, lemma_parse_written_u8,
    lemma_u32_le_round_trip, parse_i32, parse_string, parse_u32, parse_u8, string_bytes,
    u32_le_bytes,
};
use vstd::prelude::*;
use vstd::utf8::encode_utf8;

verus! {

/// The bytes that stand for the direction of an animation.
pub open spec fn key_bytes(key: Option<Direction>) -> Seq<u8> {
    match key {
        Some(direction) => seq![1u8, direction.code()],
        None => seq![0u8],
    }
}

/// The direction of the animation at `pos`. A first byte other than 1 means
/// that there is none; a code above 7 is read as `North`.
pub open spec fn parse_key(data: Seq<u8>, pos: int) -> Result<(Option<Direction>, int), ErrorView> {
    match parse_u8(data, pos) {
        Err(e) => Err(e),
        Ok((flag, after_flag)) => if flag == 1 {
            match parse_u8(data, after_flag) {
                Err(e) => Err(e),
                Ok((code, end)) => Ok((Some(Direction::of_code(code)), end)),
            }
        } else {
            Ok((None, after_flag))
        },
    }
}

/// The bytes that stand for a list of sprite identifiers.
pub open spec fn ids_bytes(ids: Seq<u32>) -> Seq<u8>
    decreases ids.len(),
{
    if ids.len() == 0 {
        Seq::empty()
    } else {
        ids_bytes(ids.drop_last()) + u32_le_bytes(ids.last())
    }
}

/// The `count` sprite identifiers at `pos`.
pub open spec fn parse_ids(
    data: Seq<u8>,
    pos: int,
    count: nat,
) -> Result<(Seq<u32>, int), ErrorView>
    decreases count,
{
    if count == 0 {
        Ok((Seq::empty(), pos))
    } else {
        match parse_ids(data, pos, (count - 1) as nat) {
            Err(e) => Err(e),
            Ok((ids, next)) => match parse_u32(data, next) {
                Err(e) => Err(e),
                Ok((id, end)) => Ok((ids.push(id), end)),
            },
        }
    }
}

/// The byte that stands for a flag.
pub open spec fn flag_byte(flag: bool) -> u8 {
    if flag {
        1
    } else {
        0
    }
}

/// The bytes that stand for one animation under its direction.
pub open spec fn animation_bytes(
    key: Option<Direction>,
    animation: LoadedAnimationView,
) -> Seq<u8> {
    key_bytes(key) + u32_le_bytes(animation.sprite_ids.len() as u32) + ids_bytes(
        animation.sprite_ids,
    ) + u32_le_bytes(animation.duration) + seq![flag_byte(animation.looped)]
}

/// The animation at `pos`, with its direction.
pub open spec fn parse_animation(data: Seq<u8>, pos: int) -> Result<
    ((Option<Direction>, LoadedAnimationView), int),
    ErrorView,
> {
    match parse_key(data, pos) {
        Err(e) => Err(e),
        Ok((key, after_key)) => match parse_u32(data, after_key) {
            Err(e) => Err(e),
            Ok((count, after_count)) => match parse_ids(data, after_count, count as nat) {
                Err(e) => Err(e),
                Ok((sprite_ids, after_ids)) => match parse_u32(data, after_ids) {
                    Err(e) => Err(e),
                    Ok((duration, after_duration)) => match parse_u8(data, after_duration) {
                        Err(e) => Err(e),
                        Ok((flag, end)) => Ok(
                            (
                                (
                                    key,
                                    LoadedAnimationView { sprite_ids, duration, looped: flag == 1 },
                                ),
                                end,
                            ),
                        ),
                    },
                },
            },
        }
    }
}

/// The bytes that stand for the animations of a frame group.
pub open spec fn animations_bytes(entries: Seq<(Option<Direction>, LoadedAnimationView)>) -> Seq<u8>
    decreases entries.len(),
{
    if entries.len() == 0 {
        Seq::empty()
    } else {
        animations_bytes(entries.drop_last()) + animation_bytes(entries.last().0, entries.last().1)
    }
}

/// The `count` animations at `pos`. Of two animations under the same
/// direction the later one takes the place of the earlier one.
pub open spec fn parse_animations(data: Seq<u8>, pos: int, count: nat) -> Result<
    (Seq<(Option<Direction>, LoadedAnimationView)>, int),
    ErrorView,
>
    decreases count,
{
    if count == 0 {
        Ok((Seq::empty(), pos))
    } else {
        match parse_animations(data, pos, (count - 1) as nat) {
            Err(e) => Err(e),
            Ok((entries, next)) => match parse_animation(data, next) {
                Err(e) => Err(e),
                Ok(((key, animation), end)) => Ok((with_animation(entries, key, animation), end)),
            },
        }
    }
}

/// The bytes that stand for one frame group.
pub open spec fn frame_group_bytes(group: LoadedFrameGroupView) -> Seq<u8> {
    string_bytes(group.name) + u32_le_bytes(group.animations.len() as u32) + animations_bytes(
        group.animations,
    )
}

/// The frame group at `pos`.
pub open spec fn parse_frame_group(
    data: Seq<u8>,
    pos: int,
) -> Result<(LoadedFrameGroupView, int), ErrorView> {
    match parse_string(data, pos) {
        Err(e) => Err(e),
        Ok((name, after_name)) => match parse_u32(data, after_name) {
            Err(e) => Err(e),
            Ok((count, after_count)) => match parse_animations(data, after_count, count as nat) {
                Err(e) => Err(e),
                Ok((animations, end)) => Ok((LoadedFrameGroupView { name, animations }, end)),
            },
        },
    }
}

/// The bytes that stand for the frame groups of an appearance.
pub open spec fn frame_groups_bytes(groups: Seq<LoadedFrameGroupView>) -> Seq<u8>
    decreases groups.len(),
{
    if groups.len() == 0 {
        Seq::empty()
    } else {
        frame_groups_bytes(groups.drop_last()) + frame_group_bytes(groups.last())
    }
}

/// The `count` frame groups at `pos`.
pub open spec fn parse_frame_groups(data: Seq<u8>, pos: int, count: nat) -> Result<
    (Seq<LoadedFrameGroupView>, int),
    ErrorView,
>
    decreases count,
{
    if count == 0 {
        Ok((Seq::empty(), pos))
    } else {
        match parse_frame_groups(data, pos, (count - 1) as nat) {
            Err(e) => Err(e),
            Ok((groups, next)) => match parse_frame_group(data, next) {
                Err(e) => Err(e),
                Ok((group, end)) => Ok((groups.push(group), end)),
            },
        }
    }
}

/// The bytes that stand for one appearance.
pub open spec fn appearance_bytes(appearance: LoadedAppearanceView) -> Seq<u8> {
    u32_le_bytes(appearance.id) + string_bytes(appearance.name) + i32_le_bytes(appearance.offset.x)
        + i32_le_bytes(appearance.offset.y) + u32_le_bytes(appearance.size) + u32_le_bytes(
        appearance.framegroups.len() as u32,
    ) + frame_groups_bytes(appearance.framegroups)
}

/// The appearance at `pos`.
pub open spec fn parse_appearance(
    data: Seq<u8>,
    pos: int,
) -> Result<(LoadedAppearanceView, int), ErrorView> {
    match parse_u32(data, pos) {
        Err(e) => Err(e),
        Ok((id, after_id)) => match parse_string(data, after_id) {
            Err(e) => Err(e),
            Ok((name, after_name)) => match parse_i32(data, after_name) {
                Err(e) => Err(e),
                Ok((x, after_x)) => match parse_i32(data, after_x) {
                    Err(e) => Err(e),
                    Ok((y, after_y)) => match parse_u32(data, after_y) {
                        Err(e) => Err(e),
                        Ok((size, after_size)) => match parse_u32(data, after_size) {
                            Err(e) => Err(e),
                            Ok((count, after_count)) => match parse_frame_groups(
                                data,
                                after_count,
                                count as nat,
                            ) {
                                Err(e) => Err(e),
                                Ok((framegroups, end)) => Ok(
                                    (
                                        LoadedAppearanceView {
                                            id,
                                            name,
                                            offset: Offset { x, y },
                                            size,
                                            framegroups,
                                        },
                                        end,
                                    ),
                                ),
                            },
                        },
                    },
                },
            },
        },
    }
}

/// The bytes that stand for a list of appearances.
pub open spec fn appearances_bytes(appearances: Seq<LoadedAppearanceView>) -> Seq<u8>
    decreases appearances.len(),
{
    if appearances.len() == 0 {
        Seq::empty()
    } else {
        appearances_bytes(appearances.drop_last()) + appearance_bytes(appearances.last())
    }
}

/// The `count` appearances at `pos`, in the order in which they stand.
pub open spec fn parse_appearances(data: Seq<u8>, pos: int, count: nat) -> Result<
    (Seq<LoadedAppearanceView>, int),
    ErrorView,
>
    decreases count,
{
    if count == 0 {
        Ok((Seq::empty(), pos))
    } else {
        match parse_appearances(data, pos, (count - 1) as nat) {
            Err(e) => Err(e),
            Ok((appearances, next)) => match parse_appearance(data, next) {
                Err(e) => Err(e),
                Ok((appearance, end)) => Ok((appearances.push(appearance), end)),
            },
        }
    }
}

/// The bytes of the index file for `appearances`.
pub open spec fn index_bytes(version: u32, appearances: Seq<LoadedAppearanceView>) -> Seq<u8> {
    u32_le_bytes(version) + u32_le_bytes(appearances.len() as u32) + appearances_bytes(appearances)
}

/// The version and the appearances that an index file holds, or the error
/// of the first value that cannot be read: `Truncated` where the file ends
/// before the value does, `InvalidUtf8` for a name that is not valid UTF-8.
/// Bytes behind the last appearance are not looked at.
pub open spec fn parse_index(data: Seq<u8>) -> Result<(u32, Seq<LoadedAppearanceView>), ErrorView> {
    match parse_u32(data, 0) {
        Err(e) => Err(e),
        Ok((version, after_version)) => match parse_u32(data, after_version) {
            Err(e) => Err(e),
            Ok((count, after_count)) => match parse_appearances(data, after_count, count as nat) {
                Err(e) => Err(e),
                Ok((appearances, _)) => Ok((version, appearances)),
            },
        },
    }
}

/// The appearances, each under its identifier. Of two appearances with the
/// same identifier the later one takes the place of the earlier one.
pub open spec fn appearance_map(
    appearances: Seq<LoadedAppearanceView>,
) -> Map<u32, LoadedAppearanceView>
    decreases appearances.len(),
{
    if appearances.len() == 0 {
        Map::empty()
    } else {
        appearance_map(appearances.drop_last()).insert(appearances.last().id, appearances.last())
    }
}

/// The database that an index file holds.
pub open spec fn parse_database(data: Seq<u8>) -> Result<DatabaseView, ErrorView> {
    match parse_index(data) {
        Err(e) => Err(e),
        Ok((version, appearances)) => Ok(
            DatabaseView { version, appearances: appearance_map(appearances) },
        ),
    }
}

/// A list of sprite identifiers that cannot be read up to `low` cannot be
/// read further either, and fails in the same way.
pub proof fn lemma_parse_ids_stays_failed(data: Seq<u8>, pos: int, low: nat, high: nat)
    requires
        low <= high,
        parse_ids(data, pos, low) is Err,
    ensures
        parse_ids(data, pos, high) == parse_ids(data, pos, low),
    decreases high,
{
    if low < high {
        lemma_parse_ids_stays_failed(data, pos, low, (high - 1) as nat);
    }
}

/// A list of animations that cannot be read up to `low` cannot be read
/// further either, and fails in the same way.
pub proof fn lemma_parse_animations_stays_failed(data: Seq<u8>, pos: int, low: nat, high: nat)
    requires
        low <= high,
        parse_animations(data, pos, low) is Err,
    ensures
        parse_animations(data, pos, high) == parse_animations(data, pos, low),
    decreases high,
{
    if low < high {
        lemma_parse_animations_stays_failed(data, pos, low, (high - 1) as nat);
    }
}

/// A list of frame groups that cannot be read up to `low` cannot be read
/// further either, and fails in the same way.
pub proof fn lemma_parse_frame_groups_stays_failed(data: Seq<u8>, pos: int, low: nat, high: nat)
    requires
        low <= high,
        parse_frame_groups(data, pos, low) is Err,
    ensures
        parse_frame_groups(data, pos, high) == parse_frame_groups(data, pos, low),
    decreases high,
{
    if low < high {
        lemma_parse_frame_groups_stays_failed(data, pos, low, (high - 1) as nat);
    }
}

/// A list of appearances that cannot be read up to `low` cannot be read
/// further either, and fails in the same way.
pub proof fn lemma_parse_appearances_stays_failed(data: Seq<u8>, pos: int, low: nat, high: nat)
    requires
        low <= high,
        parse_appearances(data, pos, low) is Err,
    ensures
        parse_appearances(data, pos, high) == parse_appearances(data, pos, low),
    decreases high,
{
    if low < high {
        lemma_parse_appearances_stays_failed(data, pos, low, (high - 1) as nat);
    }
}

/// Whether a text can be stored: the length of its encoding fits four bytes.
pub open spec fn storable_text(text: Seq<char>) -> bool {
    encode_utf8(text).len() <= u32::MAX
}

/// Whether a frame group fits the index: the lengths of its name and of its
/// lists fit the four bytes that hold them.
pub open spec fn fits_frame_group(group: LoadedFrameGroupView) -> bool {
    &&& storable_text(group.name)
    &&& group.animations.len() <= u32::MAX
    &&& forall|i: int|
        0 <= i < group.animations.len() ==> (#[trigger] group.animations[i]).1.sprite_ids.len()
            <= u32::MAX
}

/// Whether an appearance fits the index.
pub open spec fn fits_appearance(appearance: LoadedAppearanceView) -> bool {
    &&& storable_text(appearance.name)
    &&& appearance.framegroups.len() <= u32::MAX
    &&& forall|i: int|
        0 <= i < appearance.framegroups.len() ==> fits_frame_group(
            #[trigger] appearance.framegroups[i],
        )
}

/// Whether a list of appearances fits the index.
pub open spec fn fits_index(appearances: Seq<LoadedAppearanceView>) -> bool {
    &&& appearances.len() <= u32::MAX
    &&& forall|i: int| 0 <= i < appearances.len() ==> fits_appearance(#[trigger] appearances[i])
}

/// Whether a frame group can be stored and read back as it is: it fits the
/// index, and it holds no two animations under one direction.
pub open spec fn storable_frame_group(group: LoadedFrameGroupView) -> bool {
    &&& fits_frame_group(group)
    &&& distinct_keys(group.animations)
}

/// Whether an appearance can be stored and read back as it is.
pub open spec fn storable_appearance(appearance: LoadedAppearanceView) -> bool {
    &&& fits_appearance(appearance)
    &&& forall|i: int|
        0 <= i < appearance.framegroups.len() ==> distinct_keys(
            (#[trigger] appearance.framegroups[i]).animations,
        )
}

/// Whether a list of appearances can be stored and read back as it is.
pub open spec fn storable_index(appearances: Seq<LoadedAppearanceView>) -> bool {
    &&& fits_index(appearances)
    &&& forall|i: int|
        0 <= i < appearances.len() ==> storable_appearance(#[trigger] appearances[i])
}

/// The direction of an animation is read back as it was written.
pub proof fn lemma_parse_written_key(data: Seq<u8>, pos: int, key: Option<Direction>)
    requires
        holds_at(data, pos, key_bytes(key)),
    ensures
        parse_key(data, pos) == Ok::<(Option<Direction>, int), ErrorView>(
            (key, pos + key_bytes(key).len()),
        ),
{
    match key {
        Some(direction) => {
            assert(key_bytes(key) =~= seq![1u8] + seq![direction.code()]);
            lemma_holds_at_concat(data, pos, seq![1u8], seq![direction.code()]);
            lemma_parse_written_u8(data, pos, 1u8);
            lemma_parse_written_u8(data, pos + 1, direction.code());
        },
        None => {
            lemma_parse_written_u8(data, pos, 0u8);
        },
    }
}

/// Sprite identifiers are read back as they were written.
pub proof fn lemma_parse_written_ids(data: Seq<u8>, pos: int, ids: Seq<u32>)
    requires
        holds_at(data, pos, ids_bytes(ids)),
    ensures
        parse_ids(data, pos, ids.len()) == Ok::<(Seq<u32>, int), ErrorView>(
            (ids, pos + ids_bytes(ids).len()),
        ),
    decreases ids.len(),
{
    if ids.len() > 0 {
        let front = ids.drop_last();
        lemma_holds_at_concat(data, pos, ids_bytes(front), u32_le_bytes(ids.last()));
        lemma_parse_written_ids(data, pos, front);
        lemma_parse_written_u32(data, pos + ids_bytes(front).len(), ids.last());
        assert(front.push(ids.last()) =~= ids);
    } else {
        assert(ids =~= Seq::empty());
    }
}

/// One animation is read back as it was written.
pub proof fn lemma_parse_written_animation(
    data: Seq<u8>,
    pos: int,
    key: Option<Direction>,
    animation: LoadedAnimationView,
)
    requires
        animation.sprite_ids.len() <= u32::MAX,
        holds_at(data, pos, animation_bytes(key, animation)),
    ensures
        parse_animation(data, pos) == Ok::<
            ((Option<Direction>, LoadedAnimationView), int),
            ErrorView,
        >(
            ((key, animation), pos + animation_bytes(key, animation).len()),
        ),
{
    let count = animation.sprite_ids.len() as u32;
    let a = key_bytes(key);
    let b = u32_le_bytes(count);
    let c = ids_bytes(animation.sprite_ids);
    let d = u32_le_bytes(animation.duration);
    let e = seq![flag_byte(animation.looped)];
    lemma_holds_at_concat(data, pos, a + b + c + d, e);
    lemma_holds_at_concat(data, pos, a + b + c, d);
    lemma_holds_at_concat(data, pos, a + b, c);
    lemma_holds_at_concat(data, pos, a, b);
    lemma_parse_written_key(data, pos, key);
    lemma_parse_written_u32(data, pos + a.len(), count);
    lemma_parse_written_ids(data, pos + a.len() + 4, animation.sprite_ids);
    lemma_parse_written_u32(data, pos + a.len() + 4 + c.len(), animation.duration);
    lemma_parse_written_u8(data, pos + a.len() + 4 + c.len() + 4, flag_byte(animation.looped));
}

/// The animations of a frame group in which no direction occurs twice are
/// read back as they were written.
pub proof fn lemma_parse_written_animations(
    data: Seq<u8>,
    pos: int,
    entries: Seq<(Option<Direction>, LoadedAnimationView)>,
)
    requires
        distinct_keys(entries),
        forall|i: int|
            0 <= i < entries.len() ==> (#[trigger] entries[i]).1.sprite_ids.len() <= u32::MAX,
        holds_at(data, pos, animations_bytes(entries)),
    ensures
        parse_animations(data, pos, entries.len()) == Ok::<
            (Seq<(Option<Direction>, LoadedAnimationView)>, int),
            ErrorView,
        >((entries, pos + animations_bytes(entries).len())),
    decreases entries.len(),
{
    if entries.len() > 0 {
        let front = entries.drop_last();
        let last = entries.last();
        assert(forall|i: int| 0 <= i < front.len() ==> front[i] == #[trigger] entries[i]);
        lemma_holds_at_concat(data, pos, animations_bytes(front), animation_bytes(last.0, last.1));
        lemma_parse_written_animations(data, pos, front);
        lemma_parse_written_animation(data, pos + animations_bytes(front).len(), last.0, last.1);
        lemma_find_key(front, last.0);
        assert(find_key(front, last.0) is None) by {
            if find_key(front, last.0) is Some {
                let place = find_key(front, last.0)->0;
                assert(entries[place].0 == entries[entries.len() - 1].0);
            }
        }
        assert(front.push((last.0, last.1)) =~= entries);
    } else {
        assert(entries =~= Seq::empty());
    }
}

/// One frame group is read back as it was written.
pub proof fn lemma_parse_written_frame_group(data: Seq<u8>, pos: int, group: LoadedFrameGroupView)
    requires
        storable_frame_group(group),
        holds_at(data, pos, frame_group_bytes(group)),
    ensures
        parse_frame_group(data, pos) == Ok::<(LoadedFrameGroupView, int), ErrorView>(
            (group, pos + frame_group_bytes(group).len()),
        ),
{
    let count = group.animations.len() as u32;
    let a = string_bytes(group.name);
    let b = u32_le_bytes(count);
    let c = animations_bytes(group.animations);
    lemma_holds_at_concat(data, pos, a + b, c);
    lemma_holds_at_concat(data, pos, a, b);
    lemma_parse_written_string(data, pos, group.name);
    lemma_parse_written_u32(data, pos + a.len(), count);
    lemma_parse_written_animations(data, pos + a.len() + 4, group.animations);
}

/// Frame groups are read back as they were written.
pub proof fn lemma_parse_written_frame_groups(
    data: Seq<u8>,
    pos: int,
    groups: Seq<LoadedFrameGroupView>,
)
    requires
        forall|i: int| 0 <= i < groups.len() ==> storable_frame_group(#[trigger] groups[i]),
        holds_at(data, pos, frame_groups_bytes(groups)),
    ensures
        parse_frame_groups(data, pos, groups.len()) == Ok::<
            (Seq<LoadedFrameGroupView>, int),
            ErrorView,
        >(
            (groups, pos + frame_groups_bytes(groups).len()),
        ),
    decreases groups.len(),
{
    if groups.len() > 0 {
        let front = groups.drop_last();
        assert(forall|i: int| 0 <= i < front.len() ==> front[i] == #[trigger] groups[i]);
        lemma_holds_at_concat(
            data,
            pos,
            frame_groups_bytes(front),
            frame_group_bytes(groups.last()),
        );
        lemma_parse_written_frame_groups(data, pos, front);
        lemma_parse_written_frame_group(data, pos + frame_groups_bytes(front).len(), groups.last());
        assert(front.push(groups.last()) =~= groups);
    } else {
        assert(groups =~= Seq::empty());
    }
}

/// One appearance is read back as it was written.
pub proof fn lemma_parse_written_appearance(
    data: Seq<u8>,
    pos: int,
    appearance: LoadedAppearanceView,
)
    requires
        storable_appearance(appearance),
        holds_at(data, pos, appearance_bytes(appearance)),
    ensures
        parse_appearance(data, pos) == Ok::<(LoadedAppearanceView, int), ErrorView>(
            (appearance, pos + appearance_bytes(appearance).len()),
        ),
{
    let count = appearance.framegroups.len() as u32;
    let a = u32_le_bytes(appearance.id);
    let b = string_bytes(appearance.name);
    let c = i32_le_bytes(appearance.offset.x);
    let d = i32_le_bytes(appearance.offset.y);
    let e = u32_le_bytes(appearance.size);
    let f = u32_le_bytes(count);
    let g = frame_groups_bytes(appearance.framegroups);
    lemma_holds_at_concat(data, pos, a + b + c + d + e + f, g);
    lemma_holds_at_concat(data, pos, a + b + c + d + e, f);
    lemma_holds_at_concat(data, pos, a + b + c + d, e);
    lemma_holds_at_concat(data, pos, a + b + c, d);
    lemma_holds_at_concat(data, pos, a + b, c);
    lemma_holds_at_concat(data, pos, a, b);
    lemma_parse_written_u32(data, pos, appearance.id);
    lemma_parse_written_string(data, pos + 4, appearance.name);
    lemma_parse_written_i32(data, pos + 4 + b.len(), appearance.offset.x);
    lemma_parse_written_i32(data, pos + 4 + b.len() + 4, appearance.offset.y);
    lemma_parse_written_u32(data, pos + 4 + b.len() + 8, appearance.size);
    lemma_parse_written_u32(data, pos + 4 + b.len() + 12, count);
    lemma_parse_written_frame_groups(data, pos + 4 + b.len() + 16, appearance.framegroups);
}

/// Appearances are read back as they were written.
pub proof fn lemma_parse_written_appearances(
    data: Seq<u8>,
    pos: int,
    appearances: Seq<LoadedAppearanceView>,
)
    requires
        forall|i: int|
            0 <= i < appearances.len() ==> storable_appearance(#[trigger] appearances[i]),
        holds_at(data, pos, appearances_bytes(appearances)),
    ensures
        parse_appearances(data, pos, appearances.len()) == Ok::<
            (Seq<LoadedAppearanceView>, int),
            ErrorView,
        >((appearances, pos + appearances_bytes(appearances).len())),
    decreases appearances.len(),
{
    if appearances.len() > 0 {
        let front = appearances.drop_last();
        assert(forall|i: int| 0 <= i < front.len() ==> front[i] == #[trigger] appearances[i]);
        lemma_holds_at_concat(
            data,
            pos,
            appearances_bytes(front),
            appearance_bytes(appearances.last()),
        );
        lemma_parse_written_appearances(data, pos, front);
        lemma_parse_written_appearance(
            data,
            pos + appearances_bytes(front).len(),
            appearances.last(),
        );
        assert(front.push(appearances.last()) =~= appearances);
    } else {
        assert(appearances =~= Seq::empty());
    }
}

/// An index file is read back as the version and the appearances that it was
/// written for, in their order.
pub proof fn lemma_index_round_trip(version: u32, appearances: Seq<LoadedAppearanceView>)
    requires
        storable_index(appearances),
    ensures
        parse_index(index_bytes(version, appearances)) == Ok::<
            (u32, Seq<LoadedAppearanceView>),
            ErrorView,
        >((version, appearances)),
{
    let data = index_bytes(version, appearances);
    let count = appearances.len() as u32;
    let a = u32_le_bytes(version);
    let b = u32_le_bytes(count);
    let c = appearances_bytes(appearances);
    lemma_u32_le_round_trip(version);
    lemma_u32_le_round_trip(count);
    assert(a.len() == 4 && b.len() == 4);
    assert(data == (a + b) + c);
    lemma_holds_at_start(data);
    lemma_holds_at_concat(data, 0, a + b, c);
    lemma_holds_at_concat(data, 0, a, b);
    assert(holds_at(data, 0, a));
    assert(holds_at(data, 4, b));
    assert(holds_at(data, 8, c));
    lemma_parse_written_u32(data, 0, version);
    lemma_parse_written_u32(data, 4, count);
    lemma_parse_written_appearances(data, 8, appearances);
    assert(count as nat == appearances.len());
}

/// Whatever stands under an identifier is one of the appearances.
pub proof fn lemma_appearance_map_holds_appearances(appearances: Seq<LoadedAppearanceView>, id: u32)
    requires
        appearance_map(appearances).contains_key(id),
    ensures
        exists|i: int|
            0 <= i < appearances.len() && #[trigger] appearances[i] == appearance_map(
                appearances,
            )[id],
    decreases appearances.len(),
{
    if appearances.len() > 0 {
        let front = appearances.drop_last();
        if appearances.last().id == id {
            assert(appearances[appearances.len() - 1] == appearance_map(appearances)[id]);
        } else {
            lemma_appearance_map_holds_appearances(front, id);
            let i = choose|i: int|
                0 <= i < front.len() && #[trigger] front[i] == appearance_map(front)[id];
            assert(appearances[i] == front[i]);
        }
    }
}

/// In a list of appearances with identifiers that differ, every appearance is
/// the one that stands under its identifier, and nothing else stands there.
pub proof fn lemma_appearance_map_of_distinct(appearances: Seq<LoadedAppearanceView>)
    requires
        forall|i: int, j: int|
            0 <= i < j < appearances.len() ==> (#[trigger] appearances[i]).id != (
            #[trigger] appearances[j]).id,
    ensures
        appearance_map(appearances).dom().finite(),
        appearance_map(appearances).dom().len() == appearances.len(),
        forall|i: int|
            0 <= i < appearances.len() ==> {
                &&& appearance_map(appearances).contains_key((#[trigger] appearances[i]).id)
                &&& appearance_map(appearances)[appearances[i].id] == appearances[i]
            },
        forall|id: u32|
            appearance_map(appearances).contains_key(id) ==> exists|i: int|
                0 <= i < appearances.len() && (#[trigger] appearances[i]).id == id,
    decreases appearances.len(),
{
    if appearances.len() > 0 {
        let front = appearances.drop_last();
        let last = appearances.last();
        assert(forall|i: int| 0 <= i < front.len() ==> front[i] == #[trigger] appearances[i]);
        lemma_appearance_map_of_distinct(front);
        assert(!appearance_map(front).contains_key(last.id)) by {
            if appearance_map(front).contains_key(last.id) {
                let i = choose|i: int| 0 <= i < front.len() && (#[trigger] front[i]).id == last.id;
                assert(appearances[i].id == appearances[appearances.len() - 1].id);
            }
        }
        assert forall|id: u32| appearance_map(appearances).contains_key(id) implies exists|i: int|
            0 <= i < appearances.len() && (#[trigger] appearances[i]).id == id by {
            if id == last.id {
                assert(appearances[appearances.len() - 1].id == id);
            } else {
                let i = choose|i: int| 0 <= i < front.len() && (#[trigger] front[i]).id == id;
                assert(appearances[i].id == id);
            }
        }
    }
}

} // verus!
