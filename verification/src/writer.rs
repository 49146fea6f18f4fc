//! Writing the index file: the bytes for appearances, frame groups and
//! animations, as the format describes them.

use crate::error::{AppearanceError, ErrorView};
use crate::format::{
    animation_bytes, animations_bytes, appearance_bytes, appearances_bytes, fits_appearance,
    fits_frame_group, fits_index, frame_group_bytes, frame_groups_bytes, ids_bytes, index_bytes,
    key_bytes,
};
use crate::loaded_types::{
    LoadedAnimation, LoadedAppearance, LoadedAppearanceView, LoadedFrameGroup,
};
use crate::types::{direction_to_u8, Direction};
use crate::wire::{too_long, too_long_error, write_i32, write_string, write_u32, write_u8};
use vstd::prelude::*;

verus! {

/// What a list of appearances says.
pub open spec fn appearance_views(appearances: Seq<LoadedAppearance>) -> Seq<LoadedAppearanceView> {
    appearances.map_values(|a: LoadedAppearance| a@)
}

/// Appends the bytes that stand for the direction of an animation.
pub fn write_direction(buffer: &mut Vec<u8>, key: Option<Direction>)
    ensures
        final(buffer)@ == old(buffer)@ + key_bytes(key),
{
    match key {
        Some(direction) => {
            write_u8(buffer, 1);
            write_u8(buffer, direction_to_u8(direction));
        },
        None => {
            write_u8(buffer, 0);
        },
    }
    assert(buffer@ =~= old(buffer)@ + key_bytes(key));
}

/// Appends the bytes that stand for a list of sprite identifiers.
pub fn write_sprite_ids(buffer: &mut Vec<u8>, sprite_ids: &Vec<u32>)
    ensures
        final(buffer)@ == old(buffer)@ + ids_bytes(sprite_ids@),
{
    let ghost before = buffer@;
    let mut i: usize = 0;
    assert(sprite_ids@.take(0) =~= Seq::empty());
    assert(buffer@ =~= before + ids_bytes(sprite_ids@.take(0)));
    while i < sprite_ids.len()
        invariant
            i <= sprite_ids.len(),
            buffer@ == before + ids_bytes(sprite_ids@.take(i as int)),
        decreases sprite_ids.len() - i,
    {
        write_u32(buffer, sprite_ids[i]);
        proof {
            let next = sprite_ids@.take(i + 1);
            assert(next.drop_last() =~= sprite_ids@.take(i as int));
            assert(next.last() == sprite_ids@[i as int]);
            assert(buffer@ =~= before + ids_bytes(next));
        }
        i += 1;
    }
    assert(sprite_ids@.take(i as int) =~= sprite_ids@);
}

/// Appends the bytes that stand for one animation under its direction. An
/// animation of more sprites than four bytes can count is refused.
pub fn write_animation(
    buffer: &mut Vec<u8>,
    key: Option<Direction>,
    animation: &LoadedAnimation,
) -> (outcome:
    Result<(), AppearanceError>)
    ensures
        match outcome {
            Ok(_) => {
                &&& animation@.sprite_ids.len() <= u32::MAX
                &&& final(buffer)@ == old(buffer)@ + animation_bytes(key, animation@)
            },
            Err(error) => {
                &&& animation@.sprite_ids.len() > u32::MAX
                &&& error@ == ErrorView::InvalidData(too_long())
            },
        },
{
    if animation.sprite_ids.len() > u32::MAX as usize {
        return Err(too_long_error());
    }
    write_direction(buffer, key);
    write_u32(buffer, animation.sprite_ids.len() as u32);
    write_sprite_ids(buffer, &animation.sprite_ids);
    write_u32(buffer, animation.duration);
    write_u8(
        buffer,
        if animation.looped {
            1
        } else {
            0
        },
    );
    assert(buffer@ =~= old(buffer)@ + animation_bytes(key, animation@));
    Ok(())
}

/// Appends the bytes that stand for one frame group. A frame group that does
/// not fit the index is refused.
pub fn write_framegroup(buffer: &mut Vec<u8>, group: &LoadedFrameGroup) -> (outcome: Result<
    (),
    AppearanceError,
>)
    ensures
        match outcome {
            Ok(_) => {
                &&& fits_frame_group(group@)
                &&& final(buffer)@ == old(buffer)@ + frame_group_bytes(group@)
            },
            Err(error) => {
                &&& !fits_frame_group(group@)
                &&& error@ == ErrorView::InvalidData(too_long())
            },
        },
{
    let ghost before = buffer@;
    let ghost entries = group@.animations;
    if group.animations.len() > u32::MAX as usize {
        return Err(too_long_error());
    }
    match write_string(buffer, group.name.as_str()) {
        Ok(_) => {},
        Err(e) => {
            return Err(e);
        },
    }
    write_u32(buffer, group.animations.len() as u32);
    let ghost head = buffer@;
    let mut i: usize = 0;
    assert(entries.take(0) =~= Seq::empty());
    assert(buffer@ =~= head + animations_bytes(entries.take(0)));
    while i < group.animations.len()
        invariant
            i <= group.animations.len(),
            entries == group@.animations,
            entries.len() == group.animations@.len(),
            buffer@ == head + animations_bytes(entries.take(i as int)),
            forall|j: int| 0 <= j < i ==> (#[trigger] entries[j]).1.sprite_ids.len() <= u32::MAX,
        decreases group.animations.len() - i,
    {
        let ghost entry = group.animations@[i as int];
        assert(entries[i as int] == (entry.0, entry.1@));
        match write_animation(buffer, group.animations[i].0, &group.animations[i].1) {
            Ok(_) => {},
            Err(e) => {
                return Err(e);
            },
        }
        proof {
            let next = entries.take(i + 1);
            assert(next.drop_last() =~= entries.take(i as int));
            assert(next.last() == entries[i as int]);
            assert(buffer@ =~= head + animations_bytes(next));
        }
        i += 1;
    }
    assert(entries.take(i as int) =~= entries);
    assert(buffer@ =~= before + frame_group_bytes(group@));
    Ok(())
}

/// Appends the bytes that stand for one appearance. An appearance that does
/// not fit the index is refused.
pub fn write_appearance(buffer: &mut Vec<u8>, appearance: &LoadedAppearance) -> (outcome: Result<
    (),
    AppearanceError,
>)
    ensures
        match outcome {
            Ok(_) => {
                &&& fits_appearance(appearance@)
                &&& final(buffer)@ == old(buffer)@ + appearance_bytes(appearance@)
            },
            Err(error) => {
                &&& !fits_appearance(appearance@)
                &&& error@ == ErrorView::InvalidData(too_long())
            },
        },
{
    let ghost before = buffer@;
    let ghost groups = appearance@.framegroups;
    if appearance.framegroups.len() > u32::MAX as usize {
        return Err(too_long_error());
    }
    write_u32(buffer, appearance.id);
    match write_string(buffer, appearance.name.as_str()) {
        Ok(_) => {},
        Err(e) => {
            return Err(e);
        },
    }
    write_i32(buffer, appearance.offset.x);
    write_i32(buffer, appearance.offset.y);
    write_u32(buffer, appearance.size);
    write_u32(buffer, appearance.framegroups.len() as u32);
    let ghost head = buffer@;
    let mut i: usize = 0;
    assert(groups.take(0) =~= Seq::empty());
    assert(buffer@ =~= head + frame_groups_bytes(groups.take(0)));
    while i < appearance.framegroups.len()
        invariant
            i <= appearance.framegroups.len(),
            groups == appearance@.framegroups,
            groups.len() == appearance.framegroups@.len(),
            buffer@ == head + frame_groups_bytes(groups.take(i as int)),
            forall|j: int| 0 <= j < i ==> fits_frame_group(#[trigger] groups[j]),
        decreases appearance.framegroups.len() - i,
    {
        assert(groups[i as int] == appearance.framegroups@[i as int]@);
        match write_framegroup(buffer, &appearance.framegroups[i]) {
            Ok(_) => {},
            Err(e) => {
                return Err(e);
            },
        }
        proof {
            let next = groups.take(i + 1);
            assert(next.drop_last() =~= groups.take(i as int));
            assert(next.last() == groups[i as int]);
            assert(buffer@ =~= head + frame_groups_bytes(next));
        }
        i += 1;
    }
    assert(groups.take(i as int) =~= groups);
    assert(buffer@ =~= before + appearance_bytes(appearance@));
    Ok(())
}

/// The bytes of the index file for `appearances`, or the error for
/// appearances that do not fit the index.
pub open spec fn written_index(version: u32, appearances: Seq<LoadedAppearanceView>) -> Result<
    Seq<u8>,
    ErrorView,
> {
    if fits_index(appearances) {
        Ok(index_bytes(version, appearances))
    } else {
        Err(ErrorView::InvalidData(too_long()))
    }
}

/// The bytes of the index file for `appearances`. Appearances that do not fit
/// the index are refused: a name or a list among them is longer than four
/// bytes can count.
pub fn write_index(version: u32, appearances: &Vec<LoadedAppearance>) -> (outcome: Result<
    Vec<u8>,
    AppearanceError,
>)
    ensures
        match written_index(version, appearance_views(appearances@)) {
            Ok(bytes) => outcome matches Ok(written) && written@ == bytes,
            Err(e) => outcome matches Err(error) && error@ == e,
        },
{
    let ghost views = appearance_views(appearances@);
    if appearances.len() > u32::MAX as usize {
        return Err(too_long_error());
    }
    let mut buffer: Vec<u8> = Vec::new();
    write_u32(&mut buffer, version);
    write_u32(&mut buffer, appearances.len() as u32);
    let ghost head = buffer@;
    let mut i: usize = 0;
    assert(views.take(0) =~= Seq::empty());
    assert(buffer@ =~= head + appearances_bytes(views.take(0)));
    while i < appearances.len()
        invariant
            i <= appearances.len(),
            views == appearance_views(appearances@),
            buffer@ == head + appearances_bytes(views.take(i as int)),
            forall|j: int| 0 <= j < i ==> fits_appearance(#[trigger] views[j]),
        decreases appearances.len() - i,
    {
        match write_appearance(&mut buffer, &appearances[i]) {
            Ok(_) => {},
            Err(e) => {
                assert(!fits_appearance(views[i as int]));
                return Err(e);
            },
        }
        proof {
            let next = views.take(i + 1);
            assert(next.drop_last() =~= views.take(i as int));
            assert(next.last() == views[i as int]);
            assert(buffer@ =~= head + appearances_bytes(next));
        }
        i += 1;
    }
    assert(views.take(i as int) =~= views);
    assert(buffer@ =~= index_bytes(version, views));
    Ok(buffer)
}

} // verus!
