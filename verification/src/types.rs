//! The authoring model: what a manifest says about each appearance.

use vstd::prelude::*;

verus! {

/// One of the eight facings an animation can be drawn for.
#[derive(Clone, Copy, Debug, PartialEq, Eq, Structural, Hash)]
pub enum Direction {
    North,
    East,
    South,
    West,
    NorthEast,
    SouthEast,
    SouthWest,
    NorthWest,
}

impl Direction {
    /// The number that stands for this direction in the index file, and by
    /// which the directions of a frame group are ordered.
    pub open spec fn code(self) -> u8 {
        match self {
            Direction::North => 0,
            Direction::East => 1,
            Direction::South => 2,
            Direction::West => 3,
            Direction::NorthEast => 4,
            Direction::SouthEast => 5,
            Direction::SouthWest => 6,
            Direction::NorthWest => 7,
        }
    }

    /// The direction a byte of the index file stands for. A byte above 7
    /// stands for `North`.
    pub open spec fn of_code(byte: u8) -> Direction {
        if byte == 1 {
            Direction::East
        } else if byte == 2 {
            Direction::South
        } else if byte == 3 {
            Direction::West
        } else if byte == 4 {
            Direction::NorthEast
        } else if byte == 5 {
            Direction::SouthEast
        } else if byte == 6 {
            Direction::SouthWest
        } else if byte == 7 {
            Direction::NorthWest
        } else {
            Direction::North
        }
    }
}

/// The code of a direction.
pub fn direction_to_u8(dir: Direction) -> (code: u8)
    ensures
        code == dir.code(),
        code < 8,
{
    match dir {
        Direction::North => 0,
        Direction::East => 1,
        Direction::South => 2,
        Direction::West => 3,
        Direction::NorthEast => 4,
        Direction::SouthEast => 5,
        Direction::SouthWest => 6,
        Direction::NorthWest => 7,
    }
}

/// The direction that a byte of the index file stands for. A byte above 7 is
/// not refused: it is read as `North`.
pub fn u8_to_direction(byte: u8) -> (dir: Direction)
    ensures
        dir == Direction::of_code(byte),
        byte < 8 ==> dir.code() == byte,
        byte >= 8 ==> dir == Direction::North,
{
    match byte {
        0 => Direction::North,
        1 => Direction::East,
        2 => Direction::South,
        3 => Direction::West,
        4 => Direction::NorthEast,
        5 => Direction::SouthEast,
        6 => Direction::SouthWest,
        7 => Direction::NorthWest,
        _ => Direction::North,
    }
}

/// Every direction is the one its own code stands for, and two directions
/// with the same code are the same direction.
pub proof fn lemma_direction_code_round_trip(a: Direction, b: Direction)
    ensures
        a.code() < 8,
        Direction::of_code(a.code()) == a,
        a.code() == b.code() ==> a == b,
{
}

/// How frames and directions are laid out on a spritesheet.
#[derive(Clone, Copy, Debug, PartialEq, Eq, Structural)]
pub enum Orientation {
    /// Frames side by side, one row per direction.
    Vertical,
    /// Directions side by side, one row per frame.
    Horizontal,
}

impl Default for Orientation {
    fn default() -> (r: Orientation)
        ensures
            r == Orientation::Vertical,
    {
        Orientation::Vertical
    }
}

/// Where an appearance is drawn, relative to its tile.
#[derive(Clone, Copy, Debug, PartialEq, Eq, Structural)]
pub struct Offset {
    pub x: i32,
    pub y: i32,
}

impl Default for Offset {
    fn default() -> (r: Offset)
        ensures
            r.x == 0,
            r.y == 0,
    {
        Offset { x: 0, y: 0 }
    }
}

/// The number of frames of an animation whose manifest entry names none.
pub fn default_frames() -> (frames: u32)
    ensures
        frames == 1,
{
    1
}

/// The loop flag of an animation whose manifest entry names none.
pub fn default_looped() -> (looped: Option<bool>)
    ensures
        looped == Some(true),
{
    Some(true)
}

/// One animation as authored: how many frames to cut, and how to play them.
#[derive(Clone, Debug)]
pub struct Animation {
    /// Sprite identifiers, where a manifest carries them. The compiler assigns
    /// its own and does not read these.
    pub sprite_ids: Option<Vec<u32>>,
    /// The number of frames to cut out of the spritesheet.
    pub frame_count: u32,
    /// The length of the whole animation in milliseconds.
    pub duration: Option<u32>,
    /// Whether the animation starts over when it ends. `None` means that it does.
    pub looped: Option<bool>,
}

/// What an [`Animation`] says.
pub struct AnimationView {
    pub sprite_ids: Option<Seq<u32>>,
    pub frame_count: u32,
    pub duration: Option<u32>,
    pub looped: Option<bool>,
}

impl View for Animation {
    type V = AnimationView;

    open spec fn view(&self) -> AnimationView {
        AnimationView {
            sprite_ids: match self.sprite_ids {
                Some(ids) => Some(ids@),
                None => None,
            },
            frame_count: self.frame_count,
            duration: self.duration,
            looped: self.looped,
        }
    }
}

/// The animations of frame groups, each under the direction it is drawn for,
/// or under `None` where the frame group has no directions.
pub open spec fn animation_entries(entries: Seq<(Option<Direction>, Animation)>) -> Seq<
    (Option<Direction>, AnimationView),
> {
    entries.map_values(|e: (Option<Direction>, Animation)| (e.0, e.1@))
}

/// A named set of animations that are cut out of one spritesheet.
#[derive(Clone, Debug)]
pub struct FrameGroup {
    pub name: String,
    /// The path of the spritesheet.
    pub spritesheet: String,
    pub orientation: Orientation,
    /// The animations in the order in which they are compiled, each under its
    /// direction. No direction occurs twice in a frame group that compiles.
    pub animations: Vec<(Option<Direction>, Animation)>,
}

/// What a [`FrameGroup`] says.
pub struct FrameGroupView {
    pub name: Seq<char>,
    pub spritesheet: Seq<char>,
    pub orientation: Orientation,
    pub animations: Seq<(Option<Direction>, AnimationView)>,
}

impl View for FrameGroup {
    type V = FrameGroupView;

    open spec fn view(&self) -> FrameGroupView {
        FrameGroupView {
            name: self.name@,
            spritesheet: self.spritesheet@,
            orientation: self.orientation,
            animations: animation_entries(self.animations@),
        }
    }
}

/// One visual entity: a creature, an item, an effect.
#[derive(Clone, Debug)]
pub struct Appearance {
    pub id: u32,
    pub name: String,
    pub offset: Offset,
    /// The side of one square sprite, in pixels.
    pub size: u32,
    pub framegroups: Vec<FrameGroup>,
}

/// What an [`Appearance`] says.
pub struct AppearanceView {
    pub id: u32,
    pub name: Seq<char>,
    pub offset: Offset,
    pub size: u32,
    pub framegroups: Seq<FrameGroupView>,
}

impl View for Appearance {
    type V = AppearanceView;

    open spec fn view(&self) -> AppearanceView {
        AppearanceView {
            id: self.id,
            name: self.name@,
            offset: self.offset,
            size: self.size,
            framegroups: self.framegroups@.map_values(|g: FrameGroup| g@),
        }
    }
}

/// A whole manifest.
#[derive(Clone, Debug)]
pub struct AppearancesFile {
    pub version: u32,
    pub appearances: Vec<Appearance>,
}

/// What an [`AppearancesFile`] says.
pub struct AppearancesFileView {
    pub version: u32,
    pub appearances: Seq<AppearanceView>,
}

impl View for AppearancesFile {
    type V = AppearancesFileView;

    open spec fn view(&self) -> AppearancesFileView {
        AppearancesFileView {
            version: self.version,
            appearances: self.appearances@.map_values(|a: Appearance| a@),
        }
    }
}

/// The identifier and the dimensions of one compiled sprite.
#[derive(Clone, Debug)]
pub struct SpriteMetadata {
    pub sprite_id: u32,
    pub width: u32,
    pub height: u32,
}

/// One sprite as it is stored: its dimensions and its compressed pixels.
#[derive(Clone, Debug)]
pub struct SpriteData {
    pub width: u32,
    pub height: u32,
    pub compressed_pixels: Vec<u8>,
}

/// What a [`SpriteData`] holds.
pub struct SpriteDataView {
    pub width: u32,
    pub height: u32,
    pub compressed_pixels: Seq<u8>,
}

impl View for SpriteData {
    type V = SpriteDataView;

    open spec fn view(&self) -> SpriteDataView {
        SpriteDataView {
            width: self.width,
            height: self.height,
            compressed_pixels: self.compressed_pixels@,
        }
    }
}

} // verus!
