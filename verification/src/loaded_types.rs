//! The loaded model: what an index file says, and the pixels of a sprite.

use crate::text::same_text;
use crate::types::{Direction, Offset};
use std::collections::HashMap;
use vstd::prelude::*;
use vstd::std_specs::iter::IteratorSpec;

verus! {

broadcast use vstd::std_specs::hash::group_hash_axioms;

/// The frames of one animation, and how to play them.
#[derive(Clone, Debug)]
pub struct LoadedAnimation {
    /// The sprite of each frame, in the order of the frames.
    pub sprite_ids: Vec<u32>,
    /// The length of the whole animation in milliseconds; 0 for one that
    /// stands still.
    pub duration: u32,
    pub looped: bool,
}

/// What a [`LoadedAnimation`] says.
pub struct LoadedAnimationView {
    pub sprite_ids: Seq<u32>,
    pub duration: u32,
    pub looped: bool,
}

impl View for LoadedAnimation {
    type V = LoadedAnimationView;

    open spec fn view(&self) -> LoadedAnimationView {
        LoadedAnimationView {
            sprite_ids: self.sprite_ids@,
            duration: self.duration,
            looped: self.looped,
        }
    }
}

/// What a list of animations, each under its direction, says.
pub open spec fn loaded_entries(entries: Seq<(Option<Direction>, LoadedAnimation)>) -> Seq<
    (Option<Direction>, LoadedAnimationView),
> {
    entries.map_values(|e: (Option<Direction>, LoadedAnimation)| (e.0, e.1@))
}

/// The place of the first entry under `key`, if there is one.
pub open spec fn find_key<A>(
    entries: Seq<(Option<Direction>, A)>,
    key: Option<Direction>,
) -> Option<int>
    decreases entries.len(),
{
    if entries.len() == 0 {
        None
    } else {
        match find_key(entries.drop_last(), key) {
            Some(place) => Some(place),
            None => if entries.last().0 == key {
                Some(entries.len() - 1)
            } else {
                None
            },
        }
    }
}

/// `find_key` finds an entry under `key`, the first one, or finds that there
/// is none.
pub proof fn lemma_find_key<A>(entries: Seq<(Option<Direction>, A)>, key: Option<Direction>)
    ensures
        match find_key(entries, key) {
            Some(place) => {
                &&& 0 <= place < entries.len()
                &&& entries[place].0 == key
                &&& forall|i: int| 0 <= i < place ==> (#[trigger] entries[i]).0 != key
            },
            None => forall|i: int| 0 <= i < entries.len() ==> (#[trigger] entries[i]).0 != key,
        },
    decreases entries.len(),
{
    if entries.len() > 0 {
        lemma_find_key(entries.drop_last(), key);
        assert(forall|i: int|
            0 <= i < entries.len() - 1 ==> entries.drop_last()[i] == #[trigger] entries[i]);
    }
}

/// Whether no key occurs twice.
pub open spec fn distinct_keys<A>(entries: Seq<(Option<Direction>, A)>) -> bool {
    forall|i: int, j: int|
        0 <= i < j < entries.len() ==> (#[trigger] entries[i]).0 != (#[trigger] entries[j]).0
}

/// The animation under `key`, if there is one.
pub open spec fn animation_at<A>(
    entries: Seq<(Option<Direction>, A)>,
    key: Option<Direction>,
) -> Option<A> {
    match find_key(entries, key) {
        Some(place) => Some(entries[place].1),
        None => None,
    }
}

/// The entries with `animation` under `key`: in the place of the entry that
/// was under `key`, or at the end where there was none.
pub open spec fn with_animation<A>(
    entries: Seq<(Option<Direction>, A)>,
    key: Option<Direction>,
    animation: A,
) -> Seq<(Option<Direction>, A)> {
    match find_key(entries, key) {
        Some(place) => entries.update(place, (key, animation)),
        None => entries.push((key, animation)),
    }
}

/// A named set of animations, each under the direction it is drawn for, or
/// under `None` where the frame group has no directions.
#[derive(Clone, Debug)]
pub struct LoadedFrameGroup {
    pub name: String,
    pub animations: Vec<(Option<Direction>, LoadedAnimation)>,
}

/// What a [`LoadedFrameGroup`] says.
pub struct LoadedFrameGroupView {
    pub name: Seq<char>,
    pub animations: Seq<(Option<Direction>, LoadedAnimationView)>,
}

impl View for LoadedFrameGroup {
    type V = LoadedFrameGroupView;

    open spec fn view(&self) -> LoadedFrameGroupView {
        LoadedFrameGroupView { name: self.name@, animations: loaded_entries(self.animations@) }
    }
}

/// What a list of frame groups says.
pub open spec fn frame_group_views(groups: Seq<LoadedFrameGroup>) -> Seq<LoadedFrameGroupView> {
    groups.map_values(|g: LoadedFrameGroup| g@)
}

/// One appearance as the index describes it.
#[derive(Clone, Debug)]
pub struct LoadedAppearance {
    pub id: u32,
    pub name: String,
    pub offset: Offset,
    pub size: u32,
    pub framegroups: Vec<LoadedFrameGroup>,
}

/// What a [`LoadedAppearance`] says.
pub struct LoadedAppearanceView {
    pub id: u32,
    pub name: Seq<char>,
    pub offset: Offset,
    pub size: u32,
    pub framegroups: Seq<LoadedFrameGroupView>,
}

impl View for LoadedAppearance {
    type V = LoadedAppearanceView;

    open spec fn view(&self) -> LoadedAppearanceView {
        LoadedAppearanceView {
            id: self.id,
            name: self.name@,
            offset: self.offset,
            size: self.size,
            framegroups: frame_group_views(self.framegroups@),
        }
    }
}

impl Default for LoadedAppearance {
    fn default() -> (appearance: LoadedAppearance)
        ensures
            appearance@ == (LoadedAppearanceView {
                id: 0,
                name: Seq::empty(),
                offset: Offset { x: 0, y: 0 },
                size: 0,
                framegroups: Seq::empty(),
            }),
    {
        let appearance = LoadedAppearance {
            id: 0,
            name: String::new(),
            offset: Offset { x: 0, y: 0 },
            size: 0,
            framegroups: Vec::new(),
        };
        assert(appearance@.framegroups =~= Seq::empty());
        appearance
    }
}

/// One sprite with its pixels, row by row, four bytes (red, green, blue,
/// alpha) for each.
#[derive(Clone, Debug)]
pub struct LoadedSprite {
    pub sprite_id: u32,
    pub width: u32,
    pub height: u32,
    pub pixels: Vec<u8>,
}

/// What a [`LoadedSprite`] holds.
pub struct LoadedSpriteView {
    pub sprite_id: u32,
    pub width: u32,
    pub height: u32,
    pub pixels: Seq<u8>,
}

impl LoadedSpriteView {
    /// Four bytes for every pixel.
    pub open spec fn valid(self) -> bool {
        self.pixels.len() == 4 * self.width * self.height
    }
}

impl View for LoadedSprite {
    type V = LoadedSpriteView;

    open spec fn view(&self) -> LoadedSpriteView {
        LoadedSpriteView {
            sprite_id: self.sprite_id,
            width: self.width,
            height: self.height,
            pixels: self.pixels@,
        }
    }
}

impl Default for LoadedSprite {
    fn default() -> (sprite: LoadedSprite)
        ensures
            sprite@ == (LoadedSpriteView {
                sprite_id: 0,
                width: 0,
                height: 0,
                pixels: Seq::empty(),
            }),
    {
        LoadedSprite { sprite_id: 0, width: 0, height: 0, pixels: Vec::new() }
    }
}

/// All appearances of a package, each under its identifier.
#[derive(Clone, Debug)]
pub struct AppearanceDatabase {
    pub version: u32,
    pub appearances: HashMap<u32, LoadedAppearance>,
}

/// What an [`AppearanceDatabase`] says.
pub struct DatabaseView {
    pub version: u32,
    pub appearances: Map<u32, LoadedAppearanceView>,
}

impl View for AppearanceDatabase {
    type V = DatabaseView;

    open spec fn view(&self) -> DatabaseView {
        DatabaseView {
            version: self.version,
            appearances: self.appearances@.map_values(|a: LoadedAppearance| a@),
        }
    }
}

impl Default for AppearanceDatabase {
    fn default() -> (database: AppearanceDatabase)
        ensures
            database@ == (DatabaseView { version: 0, appearances: Map::empty() }),
    {
        AppearanceDatabase::new(0)
    }
}

/// The identifiers in `walk` are those of the database, each once.
pub open spec fn walks(walk: Seq<u32>, appearances: Map<u32, LoadedAppearanceView>) -> bool {
    &&& walk.no_duplicates()
    &&& walk.to_set() == appearances.dom()
}

impl AppearanceDatabase {
    /// A database without appearances.
    pub fn new(version: u32) -> (database: Self)
        ensures
            database@ == (DatabaseView { version, appearances: Map::empty() }),
    {
        let database = AppearanceDatabase { version, appearances: HashMap::new() };
        assert(database@.appearances =~= Map::empty());
        database
    }

    /// Puts an appearance under its identifier, in the place of the one that
    /// was there.
    pub fn add_appearance(&mut self, appearance: LoadedAppearance)
        ensures
            final(self)@ == (DatabaseView {
                version: old(self)@.version,
                appearances: old(self)@.appearances.insert(appearance.id, appearance@),
            }),
    {
        let ghost added = appearance@;
        let ghost id = appearance.id;
        self.appearances.insert(appearance.id, appearance);
        assert(self@.appearances =~= old(self)@.appearances.insert(id, added));
    }

    /// The appearance under `id`, if there is one.
    pub fn get_appearance(&self, id: u32) -> (found: Option<&LoadedAppearance>)
        ensures
            match found {
                Some(appearance) => self@.appearances.contains_key(id) && appearance@
                    == self@.appearances[id],
                None => !self@.appearances.contains_key(id),
            },
    {
        self.appearances.get(&id)
    }

    /// All appearances, each once, in no particular order.
    pub fn all_appearances(&self) -> (all: Vec<&LoadedAppearance>)
        ensures
            all@.len() == self@.appearances.dom().len(),
            exists|walk: Seq<u32>|
                {
                    &&& #[trigger] walks(walk, self@.appearances)
                    &&& walk.len() == all@.len()
                    &&& forall|i: int|
                        0 <= i < all@.len() ==> (#[trigger] all@[i])@ == self@.appearances[walk[i]]
                },
    {
        let mut all: Vec<&LoadedAppearance> = Vec::new();
        let ghost keys = vstd::std_specs::hash::spec_keys_iter(&self.appearances).remaining();
        let ghost walk = keys.unref();
        assert(walk.no_duplicates()) by {
            assert forall|i: int, j: int|
                0 <= i < walk.len() && 0 <= j < walk.len() && i != j implies walk[i] != walk[j] by {
                assert(keys[i] != keys[j]);
            }
        }
        assert(self@.appearances.dom() =~= self.appearances@.dom());
        for id in it: self.appearances.keys()
            invariant
                it.seq() == keys,
                walk == keys.unref(),
                walk.to_set() == self.appearances@.dom(),
                all@.len() == it.index(),
                forall|i: int|
                    0 <= i < all@.len() ==> (#[trigger] all@[i])@ == self@.appearances[walk[i]],
        {
            assert(walk[it.index()] == *id);
            assert(walk.to_set().contains(*id));
            match self.appearances.get(id) {
                Some(appearance) => {
                    all.push(appearance);
                },
                None => {
                    assert(false);
                },
            }
        }
        assert(walks(walk, self@.appearances));
        all
    }

    /// The number of appearances.
    pub fn count(&self) -> (count: usize)
        ensures
            count == self@.appearances.dom().len(),
    {
        assert(self@.appearances.dom() =~= self.appearances@.dom());
        self.appearances.len()
    }
}

/// The place of the first frame group with the name `name`, if there is one.
pub open spec fn find_group(groups: Seq<LoadedFrameGroupView>, name: Seq<char>) -> Option<int>
    decreases groups.len(),
{
    if groups.len() == 0 {
        None
    } else {
        match find_group(groups.drop_last(), name) {
            Some(place) => Some(place),
            None => if groups.last().name == name {
                Some(groups.len() - 1)
            } else {
                None
            },
        }
    }
}

impl LoadedAppearance {
    /// The first frame group with the name `name`, if there is one.
    pub fn get_framegroup(&self, name: &str) -> (found: Option<&LoadedFrameGroup>)
        ensures
            match find_group(self@.framegroups, name@) {
                Some(place) => found matches Some(group) && group@ == self@.framegroups[place],
                None => found is None,
            },
    {
        let ghost groups = self@.framegroups;
        let mut i: usize = 0;
        while i < self.framegroups.len()
            invariant
                i <= self.framegroups.len(),
                groups == self@.framegroups,
                groups.len() == self.framegroups@.len(),
                find_group(groups.take(i as int), name@) is None,
            decreases self.framegroups.len() - i,
        {
            assert(groups.take(i + 1).drop_last() =~= groups.take(i as int));
            if same_text(self.framegroups[i].name.as_str(), name) {
                assert(find_group(groups.take(i + 1), name@) == Some(i as int));
                proof {
                    lemma_find_group_extends(groups, name@, i + 1);
                }
                return Some(&self.framegroups[i]);
            }
            i += 1;
        }
        assert(groups.take(i as int) =~= groups);
        None
    }

    /// All frame groups.
    pub fn all_framegroups(&self) -> (groups: &[LoadedFrameGroup])
        ensures
            frame_group_views(groups@) == self@.framegroups,
    {
        self.framegroups.as_slice()
    }

    /// The names of all frame groups.
    pub fn framegroup_names(&self) -> (names: Vec<&String>)
        ensures
            names@.len() == self@.framegroups.len(),
            forall|i: int|
                0 <= i < names@.len() ==> (#[trigger] names@[i])@ == self@.framegroups[i].name,
    {
        let mut names: Vec<&String> = Vec::new();
        let mut i: usize = 0;
        while i < self.framegroups.len()
            invariant
                i <= self.framegroups.len(),
                names@.len() == i,
                forall|j: int|
                    0 <= j < i ==> (#[trigger] names@[j])@ == self@.framegroups[j].name,
            decreases self.framegroups.len() - i,
        {
            names.push(&self.framegroups[i].name);
            i += 1;
        }
        names
    }
}

/// A frame group that is found among the first `count` is found among all.
proof fn lemma_find_group_extends(groups: Seq<LoadedFrameGroupView>, name: Seq<char>, count: int)
    requires
        0 <= count <= groups.len(),
        find_group(groups.take(count), name) is Some,
    ensures
        find_group(groups, name) == find_group(groups.take(count), name),
    decreases groups.len() - count,
{
    if count < groups.len() {
        assert(groups.take(count + 1).drop_last() =~= groups.take(count));
        lemma_find_group_extends(groups, name, count + 1);
    } else {
        assert(groups.take(count) =~= groups);
    }
}

/// An entry that is found among the first `count` is found among all.
pub proof fn lemma_find_key_extends<A>(
    entries: Seq<(Option<Direction>, A)>,
    key: Option<Direction>,
    count: int,
)
    requires
        0 <= count <= entries.len(),
        find_key(entries.take(count), key) is Some,
    ensures
        find_key(entries, key) == find_key(entries.take(count), key),
    decreases entries.len() - count,
{
    if count < entries.len() {
        assert(entries.take(count + 1).drop_last() =~= entries.take(count));
        lemma_find_key_extends(entries, key, count + 1);
    } else {
        assert(entries.take(count) =~= entries);
    }
}

/// Whether two keys are the same.
pub fn same_key(a: Option<Direction>, b: Option<Direction>) -> (same: bool)
    ensures
        same == (a == b),
{
    match (a, b) {
        (Some(x), Some(y)) => x == y,
        (None, None) => true,
        _ => false,
    }
}

/// The place of the first entry under `key`, if there is one.
pub fn position_of_key<A>(
    entries: &Vec<(Option<Direction>, A)>,
    key: Option<Direction>,
) -> (found: Option<usize>)
    ensures
        match find_key(entries@, key) {
            Some(place) => found matches Some(at) && at == place && 0 <= place < entries@.len(),
            None => found is None,
        },
{
    proof {
        lemma_find_key(entries@, key);
    }
    let mut i: usize = 0;
    while i < entries.len()
        invariant
            i <= entries.len(),
            find_key(entries@.take(i as int), key) is None,
        decreases entries.len() - i,
    {
        assert(entries@.take(i + 1).drop_last() =~= entries@.take(i as int));
        if same_key(entries[i].0, key) {
            assert(find_key(entries@.take(i + 1), key) == Some(i as int));
            proof {
                lemma_find_key_extends(entries@, key, i + 1);
            }
            return Some(i);
        }
        i += 1;
    }
    assert(entries@.take(i as int) =~= entries@);
    None
}

impl LoadedFrameGroup {
    /// The animation under `direction`, if there is one.
    pub fn get_animation(&self, direction: Option<Direction>) -> (found: Option<&LoadedAnimation>)
        ensures
            match animation_at(self@.animations, direction) {
                Some(animation) => found matches Some(a) && a@ == animation,
                None => found is None,
            },
    {
        proof {
            lemma_find_key_of_views(self.animations@, direction);
        }
        match position_of_key(&self.animations, direction) {
            Some(place) => {
                assert(self@.animations[place as int].1 == self.animations@[place as int].1@);
                Some(&self.animations[place].1)
            },
            None => None,
        }
    }

    /// The animation under `direction`, or, where there is none, the one
    /// under no direction.
    pub fn get_animation_or_default(&self, direction: Option<Direction>) -> (found: Option<
        &LoadedAnimation,
    >)
        ensures
            match animation_at(self@.animations, direction) {
                Some(animation) => found matches Some(a) && a@ == animation,
                None => match animation_at(self@.animations, None) {
                    Some(animation) => found matches Some(a) && a@ == animation,
                    None => found is None,
                },
            },
    {
        match self.get_animation(direction) {
            Some(animation) => Some(animation),
            None => self.get_animation(None),
        }
    }

    /// Puts `animation` under `direction`, in the place of the one that was
    /// there.
    pub fn insert_animation(&mut self, direction: Option<Direction>, animation: LoadedAnimation)
        ensures
            final(self)@ == (LoadedFrameGroupView {
                name: old(self)@.name,
                animations: with_animation(old(self)@.animations, direction, animation@),
            }),
    {
        proof {
            lemma_find_key_of_views(self.animations@, direction);
        }
        let ghost added = animation@;
        match position_of_key(&self.animations, direction) {
            Some(place) => {
                self.animations.set(place, (direction, animation));
            },
            None => {
                self.animations.push((direction, animation));
            },
        }
        assert(self@.animations =~= with_animation(old(self)@.animations, direction, added));
    }
}

/// An entry is found among the animations where it is found among what they
/// say.
pub proof fn lemma_find_key_of_views(
    entries: Seq<(Option<Direction>, LoadedAnimation)>,
    key: Option<Direction>,
)
    ensures
        find_key(loaded_entries(entries), key) == find_key(entries, key),
    decreases entries.len(),
{
    if entries.len() > 0 {
        assert(loaded_entries(entries).drop_last() =~= loaded_entries(entries.drop_last()));
        lemma_find_key_of_views(entries.drop_last(), key);
    }
}

} // verus!
