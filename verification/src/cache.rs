//! The sprite cache: the sprites that a loader has loaded, each under its
//! identifier.

use crate::loaded_types::{LoadedSprite, LoadedSpriteView};
use crate::sprite::lemma_area_fits;
use crate::wire::saturated;
use std::collections::HashMap;
use vstd::prelude::*;
use vstd::std_specs::iter::IteratorSpec;

verus! {

broadcast use vstd::std_specs::hash::group_hash_axioms;

/// What a map of sprites holds.
pub open spec fn cached_views(cache: Map<u32, LoadedSprite>) -> Map<u32, LoadedSpriteView> {
    cache.map_values(|sprite: LoadedSprite| sprite@)
}

/// The sum of the lengths of the pixels of the cached sprites with an
/// identifier below `bound`.
pub open spec fn pixel_bytes_below(cache: Map<u32, LoadedSpriteView>, bound: nat) -> nat
    decreases bound,
{
    if bound == 0 {
        0
    } else {
        let id = (bound - 1) as u32;
        pixel_bytes_below(cache, (bound - 1) as nat) + if cache.contains_key(id) {
            cache[id].pixels.len()
        } else {
            0
        }
    }
}

/// The sum of the lengths of the pixels of all cached sprites.
pub open spec fn cache_bytes(cache: Map<u32, LoadedSpriteView>) -> nat {
    pixel_bytes_below(cache, 0x1_0000_0000)
}

/// The sum of the lengths of the pixels of the sprites `sprite_ids`.
pub open spec fn listed_bytes(cache: Map<u32, LoadedSpriteView>, sprite_ids: Seq<u32>) -> nat
    decreases sprite_ids.len(),
{
    if sprite_ids.len() == 0 {
        0
    } else {
        listed_bytes(cache, sprite_ids.drop_last()) + cache[sprite_ids.last()].pixels.len()
    }
}

/// An empty cache holds no bytes.
pub proof fn lemma_empty_cache_bytes(bound: nat)
    ensures
        pixel_bytes_below(Map::<u32, LoadedSpriteView>::empty(), bound) == 0,
    decreases bound,
{
    if bound > 0 {
        lemma_empty_cache_bytes((bound - 1) as nat);
    }
}

/// A sprite that comes into the cache under a new identifier adds the length
/// of its pixels to the bytes of the cache.
pub proof fn lemma_cache_bytes_insert(
    cache: Map<u32, LoadedSpriteView>,
    sprite_id: u32,
    sprite: LoadedSpriteView,
    bound: nat,
)
    requires
        !cache.contains_key(sprite_id),
        bound <= 0x1_0000_0000,
    ensures
        pixel_bytes_below(cache.insert(sprite_id, sprite), bound) == pixel_bytes_below(cache, bound)
            + if sprite_id < bound {
            sprite.pixels.len()
        } else {
            0
        },
    decreases bound,
{
    if bound > 0 {
        lemma_cache_bytes_insert(cache, sprite_id, sprite, (bound - 1) as nat);
    }
}

/// The bytes of listed sprites do not depend on what else the cache holds.
proof fn lemma_listed_bytes_agree(
    one: Map<u32, LoadedSpriteView>,
    other: Map<u32, LoadedSpriteView>,
    sprite_ids: Seq<u32>,
)
    requires
        forall|i: int|
            0 <= i < sprite_ids.len() ==> one[#[trigger] sprite_ids[i]] == other[sprite_ids[i]],
    ensures
        listed_bytes(one, sprite_ids) == listed_bytes(other, sprite_ids),
    decreases sprite_ids.len(),
{
    if sprite_ids.len() > 0 {
        let front = sprite_ids.drop_last();
        assert forall|i: int| 0 <= i < front.len() implies one[#[trigger] front[i]]
            == other[front[i]] by {
            assert(front[i] == sprite_ids[i]);
        }
        lemma_listed_bytes_agree(one, other, front);
        assert(sprite_ids[sprite_ids.len() - 1] == sprite_ids.last());
    }
}

/// The bytes of the cache are the bytes of its sprites, in whatever order
/// they are listed, each once.
pub proof fn lemma_listed_bytes_are_cache_bytes(
    cache: Map<u32, LoadedSpriteView>,
    sprite_ids: Seq<u32>,
)
    requires
        sprite_ids.no_duplicates(),
        sprite_ids.to_set() == cache.dom(),
    ensures
        listed_bytes(cache, sprite_ids) == cache_bytes(cache),
    decreases sprite_ids.len(),
{
    if sprite_ids.len() == 0 {
        assert(cache =~= Map::empty()) by {
            assert forall|id: u32| !cache.contains_key(id) by {
                if cache.contains_key(id) {
                    assert(sprite_ids.to_set().contains(id));
                    assert(sprite_ids.contains(id));
                }
            }
        }
        lemma_empty_cache_bytes(0x1_0000_0000);
    } else {
        let front = sprite_ids.drop_last();
        let last = sprite_ids.last();
        let rest = cache.remove(last);
        assert(sprite_ids[sprite_ids.len() - 1] == last);
        assert(sprite_ids.to_set().contains(last));
        assert(front.no_duplicates()) by {
            assert forall|i: int, j: int|
                0 <= i < front.len() && 0 <= j < front.len() && i != j implies front[i]
                != front[j] by {
                assert(front[i] == sprite_ids[i] && front[j] == sprite_ids[j]);
            }
        }
        assert(front.to_set() =~= rest.dom()) by {
            assert forall|id: u32| front.to_set().contains(id) <==> rest.dom().contains(id) by {
                if front.to_set().contains(id) {
                    let i = choose|i: int| 0 <= i < front.len() && front[i] == id;
                    assert(sprite_ids[i] == id);
                    assert(sprite_ids.to_set().contains(id));
                    assert(id != last);
                }
                if rest.dom().contains(id) {
                    assert(sprite_ids.to_set().contains(id));
                    let i = choose|i: int| 0 <= i < sprite_ids.len() && sprite_ids[i] == id;
                    assert(i < sprite_ids.len() - 1);
                    assert(front[i] == id);
                }
            }
        }
        lemma_listed_bytes_are_cache_bytes(rest, front);
        assert forall|i: int| 0 <= i < front.len() implies cache[#[trigger] front[i]]
            == rest[front[i]] by {
            assert(front[i] == sprite_ids[i]);
        }
        lemma_listed_bytes_agree(cache, rest, front);
        lemma_cache_bytes_insert(rest, last, cache[last], 0x1_0000_0000);
        assert(rest.insert(last, cache[last]) =~= cache);
    }
}

/// The sprites that were loaded, each under its identifier. Every sprite in
/// the cache has four bytes for each of its pixels.
#[derive(Debug)]
pub struct SpriteCache {
    sprites: HashMap<u32, LoadedSprite>,
}

impl View for SpriteCache {
    type V = Map<u32, LoadedSpriteView>;

    closed spec fn view(&self) -> Map<u32, LoadedSpriteView> {
        cached_views(self.sprites@)
    }
}

impl Clone for SpriteCache {
    fn clone(&self) -> (copy: SpriteCache)
        ensures
            copy@ == self@,
    {
        proof {
            use_type_invariant(self);
        }
        SpriteCache { sprites: self.sprites.clone() }
    }
}

impl Default for SpriteCache {
    fn default() -> (cache: SpriteCache)
        ensures
            cache@ == Map::<u32, LoadedSpriteView>::empty(),
    {
        SpriteCache::new()
    }
}

impl SpriteCache {
    #[verifier::type_invariant]
    spec fn well_formed(self) -> bool {
        forall|id: u32| #[trigger]
            self.sprites@.contains_key(id) ==> self.sprites@[id]@.sprite_id == id
                && self.sprites@[id]@.valid()
    }

    /// An empty cache.
    pub fn new() -> (cache: SpriteCache)
        ensures
            cache@ == Map::<u32, LoadedSpriteView>::empty(),
    {
        let cache = SpriteCache { sprites: HashMap::new() };
        assert(cache@ =~= Map::empty());
        cache
    }

    /// Whether the cache holds the sprite `sprite_id`.
    pub fn contains(&self, sprite_id: u32) -> (found: bool)
        ensures
            found == self@.contains_key(sprite_id),
    {
        assert(self@.dom() =~= self.sprites@.dom());
        self.sprites.contains_key(&sprite_id)
    }

    /// The sprite `sprite_id`, where the cache holds it.
    pub fn get(&self, sprite_id: u32) -> (found: Option<&LoadedSprite>)
        ensures
            match found {
                Some(sprite) => {
                    &&& self@.contains_key(sprite_id)
                    &&& sprite@ == self@[sprite_id]
                    &&& sprite@.valid()
                    &&& sprite@.sprite_id == sprite_id
                },
                None => !self@.contains_key(sprite_id),
            },
    {
        proof {
            use_type_invariant(self);
        }
        assert(self@.dom() =~= self.sprites@.dom());
        self.sprites.get(&sprite_id)
    }

    /// Puts `sprite` under its identifier, unless the cache holds a sprite
    /// there, or `sprite` does not have four bytes for each of its pixels.
    /// It says whether it has put the sprite there.
    pub fn insert_if_absent(&mut self, sprite: LoadedSprite) -> (inserted: bool)
        ensures
            inserted == (!old(self)@.contains_key(sprite.sprite_id) && sprite@.valid()),
            final(self)@ == if inserted {
                old(self)@.insert(sprite.sprite_id, sprite@)
            } else {
                old(self)@
            },
    {
        proof {
            use_type_invariant(&*self);
            lemma_area_fits(sprite.width, sprite.height);
        }
        assert(self@.dom() =~= self.sprites@.dom());
        let area: u128 = sprite.width as u128 * sprite.height as u128;
        if self.sprites.contains_key(&sprite.sprite_id) || sprite.pixels.len() as u128 != 4 * area {
            return false;
        }
        let ghost added = sprite@;
        let ghost before = self.sprites@;
        let sprite_id: u32 = sprite.sprite_id;
        let mut sprites: HashMap<u32, LoadedSprite> = HashMap::new();
        std::mem::swap(&mut sprites, &mut self.sprites);
        sprites.insert(sprite_id, sprite);
        self.sprites = sprites;
        assert(self@ =~= cached_views(before).insert(sprite_id, added));
        true
    }

    /// Empties the cache.
    pub fn clear(&mut self)
        ensures
            final(self)@ == Map::<u32, LoadedSpriteView>::empty(),
    {
        self.sprites = HashMap::new();
        assert(self@ =~= Map::empty());
    }

    /// The number of sprites in the cache.
    pub fn len(&self) -> (count: usize)
        ensures
            count == self@.dom().len(),
    {
        assert(self@.dom() =~= self.sprites@.dom());
        self.sprites.len()
    }

    /// The number of bytes that the pixels of the cached sprites take, or
    /// the largest `usize` where they take more than that.
    pub fn size_bytes(&self) -> (size: usize)
        ensures
            size == saturated(cache_bytes(self@)),
    {
        let ghost cache = self@;
        let ghost keys = vstd::std_specs::hash::spec_keys_iter(&self.sprites).remaining();
        let ghost walk = keys.unref();
        proof {
            assert(cache.dom() =~= self.sprites@.dom());
            assert(walk.no_duplicates()) by {
                assert forall|i: int, j: int|
                    0 <= i < walk.len() && 0 <= j < walk.len() && i != j implies walk[i]
                    != walk[j] by {
                    assert(keys[i] != keys[j]);
                }
            }
            lemma_listed_bytes_are_cache_bytes(cache, walk);
            assert(walk.take(0) =~= Seq::empty());
        }
        let mut size: usize = 0;
        for id in it: self.sprites.keys()
            invariant
                it.seq() == keys,
                walk == keys.unref(),
                cache == self@,
                walk.to_set() == self.sprites@.dom(),
                size == saturated(listed_bytes(cache, walk.take(it.index()))),
        {
            proof {
                let next = walk.take(it.index() + 1);
                assert(next.drop_last() =~= walk.take(it.index()));
                assert(next.last() == *id);
                assert(walk[it.index()] == *id);
                assert(walk.to_set().contains(*id));
            }
            match self.sprites.get(id) {
                Some(sprite) => {
                    assert(cache[*id] == sprite@);
                    size = match size.checked_add(sprite.pixels.len()) {
                        Some(sum) => sum,
                        None => usize::MAX,
                    };
                },
                None => {
                    assert(false);
                },
            }
        }
        assert(walk.take(walk.len() as int) =~= walk);
        size
    }
}

} // verus!
