use yggdrasil_appearancelib::cache::SpriteCache;
use yggdrasil_appearancelib::loaded_types::LoadedSprite;

fn sprite(sprite_id: u32, width: u32, height: u32, seed: u8) -> LoadedSprite {
    LoadedSprite { sprite_id, width, height, pixels: vec![seed; (width * height * 4) as usize] }
}

#[test]
fn a_new_cache_is_empty() {
    let cache = SpriteCache::new();
    assert_eq!(cache.len(), 0);
    assert_eq!(cache.size_bytes(), 0);
    assert!(!cache.contains(1));
    assert!(cache.get(1).is_none());
    assert_eq!(SpriteCache::default().len(), 0);
}

#[test]
fn a_sprite_is_kept_under_its_identifier() {
    let mut cache = SpriteCache::new();
    assert!(cache.insert_if_absent(sprite(7, 2, 3, 9)));
    assert!(cache.contains(7));
    assert!(!cache.contains(8));
    let found = cache.get(7).unwrap();
    assert_eq!((found.sprite_id, found.width, found.height), (7, 2, 3));
    assert_eq!(found.pixels, vec![9; 24]);
    assert_eq!(cache.len(), 1);
    assert_eq!(cache.size_bytes(), 24);
}

#[test]
fn a_sprite_that_is_there_is_not_replaced() {
    let mut cache = SpriteCache::new();
    assert!(cache.insert_if_absent(sprite(7, 2, 2, 1)));
    assert!(!cache.insert_if_absent(sprite(7, 1, 1, 2)));
    assert_eq!(cache.get(7).unwrap().pixels, vec![1; 16]);
    assert_eq!(cache.len(), 1);
    assert_eq!(cache.size_bytes(), 16);
}

#[test]
fn a_sprite_without_four_bytes_for_every_pixel_is_refused() {
    let mut cache = SpriteCache::new();
    let mut short = sprite(3, 2, 2, 1);
    short.pixels.pop();
    assert!(!cache.insert_if_absent(short));
    let mut long = sprite(3, 2, 2, 1);
    long.pixels.push(0);
    assert!(!cache.insert_if_absent(long));
    assert!(!cache.contains(3));
    assert_eq!(cache.len(), 0);
    assert!(cache.insert_if_absent(sprite(3, 0, 5, 1)));
    assert_eq!(cache.get(3).unwrap().pixels, Vec::<u8>::new());
}

#[test]
fn the_bytes_of_the_cache_are_those_of_all_its_sprites() {
    let mut cache = SpriteCache::new();
    let mut expected = 0;
    for id in 1..=20u32 {
        assert!(cache.insert_if_absent(sprite(id, id, 2, id as u8)));
        expected += (id * 2 * 4) as usize;
        assert_eq!(cache.size_bytes(), expected);
        assert_eq!(cache.len(), id as usize);
    }
    assert_eq!(cache.size_bytes(), 1680);
}

#[test]
fn a_cleared_cache_holds_nothing() {
    let mut cache = SpriteCache::new();
    cache.insert_if_absent(sprite(1, 1, 1, 0));
    cache.insert_if_absent(sprite(2, 1, 1, 0));
    cache.clear();
    assert_eq!(cache.len(), 0);
    assert_eq!(cache.size_bytes(), 0);
    assert!(cache.get(1).is_none());
    assert!(cache.insert_if_absent(sprite(1, 2, 2, 5)));
    assert_eq!(cache.size_bytes(), 16);
}

#[test]
fn a_copy_of_a_cache_goes_its_own_way() {
    let mut cache = SpriteCache::new();
    cache.insert_if_absent(sprite(1, 1, 1, 3));
    let copy = cache.clone();
    cache.insert_if_absent(sprite(2, 1, 1, 4));
    cache.clear();
    assert_eq!(copy.len(), 1);
    assert_eq!(copy.get(1).unwrap().pixels, vec![3; 4]);
    assert!(!copy.contains(2));
}
