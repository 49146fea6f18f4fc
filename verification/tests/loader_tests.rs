use std::collections::HashMap;
use yggdrasil_appearancelib::error::AppearanceError;
use yggdrasil_appearancelib::loaded_types::{LoadedAnimation, LoadedAppearance, LoadedFrameGroup};
use yggdrasil_appearancelib::loader::{
    collect_sprite_ids, load_all, load_database_only, read_animation, read_appearance,
    read_database, read_direction, read_framegroup, read_sprite_ids, AppearanceLoader,
};
use yggdrasil_appearancelib::sprite::{compress_pixels, encode_sprite_file};
use yggdrasil_appearancelib::types::{Direction, Offset, SpriteData};
use yggdrasil_appearancelib::wire::ByteReader;

fn text(s: &str) -> Vec<u8> {
    let mut bytes = (s.len() as u32).to_le_bytes().to_vec();
    bytes.extend_from_slice(s.as_bytes());
    bytes
}

fn number(n: u32) -> Vec<u8> {
    n.to_le_bytes().to_vec()
}

/// An animation: flag, direction, sprite identifiers, duration, loop flag.
fn animation_bytes(direction: Option<u8>, ids: &[u32], duration: u32, looped: u8) -> Vec<u8> {
    let mut bytes = Vec::new();
    match direction {
        Some(code) => bytes.extend_from_slice(&[1, code]),
        None => bytes.push(0),
    }
    bytes.extend(number(ids.len() as u32));
    for id in ids {
        bytes.extend(number(*id));
    }
    bytes.extend(number(duration));
    bytes.push(looped);
    bytes
}

/// The index of one warrior with one frame group of two animations.
fn warrior_index() -> Vec<u8> {
    let mut bytes = Vec::new();
    bytes.extend(number(2));
    bytes.extend(number(1));
    bytes.extend(number(1));
    bytes.extend(text("warrior"));
    bytes.extend((-3i32).to_le_bytes());
    bytes.extend(4i32.to_le_bytes());
    bytes.extend(number(64));
    bytes.extend(number(1));
    bytes.extend(text("idle"));
    bytes.extend(number(2));
    bytes.extend(animation_bytes(Some(2), &[1, 2], 1000, 1));
    bytes.extend(animation_bytes(None, &[3], 0, 0));
    bytes
}

fn pixels(seed: u8, width: u32, height: u32) -> Vec<u8> {
    (0..width * height * 4).map(|i| seed.wrapping_add((i * 13) as u8)).collect()
}

/// The file of a sprite with the given pixels.
fn sprite_file(seed: u8, width: u32, height: u32) -> Vec<u8> {
    let compressed_pixels = compress_pixels(&pixels(seed, width, height)).unwrap();
    encode_sprite_file(&SpriteData { width, height, compressed_pixels }).unwrap()
}

fn three_files() -> HashMap<u32, Vec<u8>> {
    let mut files = HashMap::new();
    files.insert(1, sprite_file(10, 2, 2));
    files.insert(2, sprite_file(20, 2, 2));
    files.insert(3, sprite_file(30, 4, 1));
    files
}

#[test]
fn an_index_is_read_into_a_database() {
    let database = read_database(&warrior_index()).unwrap();
    assert_eq!(database.version, 2);
    assert_eq!(database.count(), 1);
    let warrior = database.get_appearance(1).unwrap();
    assert_eq!(warrior.id, 1);
    assert_eq!(warrior.name, "warrior");
    assert_eq!(warrior.offset, Offset { x: -3, y: 4 });
    assert_eq!(warrior.size, 64);
    assert_eq!(warrior.framegroups.len(), 1);
    let idle = warrior.get_framegroup("idle").unwrap();
    assert_eq!(idle.animations.len(), 2);
    let south = idle.get_animation(Some(Direction::South)).unwrap();
    assert_eq!(south.sprite_ids, vec![1, 2]);
    assert_eq!(south.duration, 1000);
    assert!(south.looped);
    let still = idle.get_animation(None).unwrap();
    assert_eq!(still.sprite_ids, vec![3]);
    assert_eq!(still.duration, 0);
    assert!(!still.looped);
}

#[test]
fn a_loader_reads_the_index_and_stays_as_it_is() {
    let mut loader = AppearanceLoader::new("pkg");
    let database = loader.load_database(&warrior_index()).unwrap();
    assert_eq!(database.count(), 1);
    assert_eq!(loader.cached_sprite_count(), 0);
    assert_eq!(loader.load_database(&[1, 2]).err(), Some(AppearanceError::Truncated));
}

#[test]
fn an_empty_index_is_a_version_and_a_count() {
    let database = read_database(&[9, 0, 0, 0, 0, 0, 0, 0]).unwrap();
    assert_eq!(database.version, 9);
    assert_eq!(database.count(), 0);
}

#[test]
fn every_index_that_is_cut_off_is_truncated() {
    let index = warrior_index();
    for length in 0..index.len() {
        assert_eq!(
            read_database(&index[..length]).err(),
            Some(AppearanceError::Truncated),
            "at length {}",
            length
        );
    }
    assert!(read_database(&index).is_ok());
}

#[test]
fn bytes_behind_the_last_appearance_are_not_looked_at() {
    let mut index = warrior_index();
    index.extend_from_slice(&[0xff, 0xff, 0xff]);
    assert_eq!(read_database(&index).unwrap().count(), 1);
}

#[test]
fn a_count_that_promises_more_than_there_is_is_truncated() {
    let mut index = warrior_index();
    index[4] = 2;
    assert_eq!(read_database(&index).err(), Some(AppearanceError::Truncated));
    let huge = [1, 0, 0, 0, 0xff, 0xff, 0xff, 0xff];
    assert_eq!(read_database(&huge).err(), Some(AppearanceError::Truncated));
}

#[test]
fn a_name_that_is_not_utf8_is_refused() {
    let mut index = warrior_index();
    index[16] = 0xff;
    assert_eq!(read_database(&index).err(), Some(AppearanceError::InvalidUtf8));
}

#[test]
fn a_direction_code_above_seven_is_read_as_north() {
    let bytes = animation_bytes(Some(9), &[5], 0, 1);
    let mut reader = ByteReader::new(&bytes);
    let (direction, animation) = read_animation(&mut reader).unwrap();
    assert_eq!(direction, Some(Direction::North));
    assert_eq!(animation.sprite_ids, vec![5]);
    assert_eq!(reader.remaining(), 0);
}

#[test]
fn only_a_flag_of_1_means_a_direction_or_a_loop() {
    let mut bytes = vec![2];
    bytes.extend(number(0));
    bytes.extend(number(7));
    bytes.push(2);
    let mut reader = ByteReader::new(&bytes);
    let (direction, animation) = read_animation(&mut reader).unwrap();
    assert_eq!(direction, None);
    assert!(animation.sprite_ids.is_empty());
    assert_eq!(animation.duration, 7);
    assert!(!animation.looped);
}

#[test]
fn directions_are_read_by_their_code() {
    let all = [
        Direction::North,
        Direction::East,
        Direction::South,
        Direction::West,
        Direction::NorthEast,
        Direction::SouthEast,
        Direction::SouthWest,
        Direction::NorthWest,
    ];
    for (code, direction) in all.iter().enumerate() {
        let bytes = [1, code as u8];
        let mut reader = ByteReader::new(&bytes);
        assert_eq!(read_direction(&mut reader), Ok(Some(*direction)));
    }
    let mut reader = ByteReader::new(&[0, 5]);
    assert_eq!(read_direction(&mut reader), Ok(None));
    assert_eq!(reader.remaining(), 1);
    let mut reader = ByteReader::new(&[1]);
    assert_eq!(read_direction(&mut reader), Err(AppearanceError::Truncated));
    let mut reader = ByteReader::new(&[]);
    assert_eq!(read_direction(&mut reader), Err(AppearanceError::Truncated));
}

#[test]
fn sprite_identifiers_are_read_in_their_order() {
    let bytes = [7, 0, 0, 0, 1, 1, 0, 0, 9];
    let mut reader = ByteReader::new(&bytes);
    assert_eq!(read_sprite_ids(&mut reader, 2), Ok(vec![7, 257]));
    assert_eq!(reader.remaining(), 1);
    let mut reader = ByteReader::new(&bytes);
    assert_eq!(read_sprite_ids(&mut reader, 3), Err(AppearanceError::Truncated));
    let mut reader = ByteReader::new(&bytes);
    assert_eq!(read_sprite_ids(&mut reader, 0), Ok(vec![]));
}

#[test]
fn of_two_animations_under_one_direction_the_later_one_stays() {
    let mut bytes = text("walk");
    bytes.extend(number(3));
    bytes.extend(animation_bytes(Some(1), &[1], 10, 1));
    bytes.extend(animation_bytes(None, &[2], 20, 1));
    bytes.extend(animation_bytes(Some(1), &[3], 30, 0));
    let mut reader = ByteReader::new(&bytes);
    let group = read_framegroup(&mut reader).unwrap();
    assert_eq!(group.name, "walk");
    assert_eq!(group.animations.len(), 2);
    let east = group.get_animation(Some(Direction::East)).unwrap();
    assert_eq!(east.sprite_ids, vec![3]);
    assert_eq!(east.duration, 30);
    assert_eq!(group.get_animation(None).unwrap().sprite_ids, vec![2]);
}

#[test]
fn of_two_appearances_with_one_identifier_the_later_one_stays() {
    let mut index = Vec::new();
    index.extend(number(1));
    index.extend(number(2));
    for name in ["first", "second"] {
        index.extend(number(4));
        index.extend(text(name));
        index.extend(0i32.to_le_bytes());
        index.extend(0i32.to_le_bytes());
        index.extend(number(32));
        index.extend(number(0));
    }
    let database = read_database(&index).unwrap();
    assert_eq!(database.count(), 1);
    assert_eq!(database.get_appearance(4).unwrap().name, "second");
}

#[test]
fn an_appearance_is_read_with_its_frame_groups() {
    let index = warrior_index();
    let mut reader = ByteReader::new(&index[8..]);
    let warrior = read_appearance(&mut reader).unwrap();
    assert_eq!(warrior.name, "warrior");
    assert_eq!(warrior.framegroups[0].name, "idle");
    assert_eq!(reader.remaining(), 0);
}

#[test]
fn a_sprite_is_loaded_out_of_its_file() {
    let mut loader = AppearanceLoader::new("pkg");
    let file = sprite_file(10, 2, 3);
    let sprite = loader.load_sprite(7, Some(&file)).unwrap();
    assert_eq!(sprite.sprite_id, 7);
    assert_eq!((sprite.width, sprite.height), (2, 3));
    assert_eq!(sprite.pixels, pixels(10, 2, 3));
    assert_eq!(loader.cached_sprite_count(), 1);
    assert_eq!(loader.get_cached_sprite(7).unwrap().pixels, pixels(10, 2, 3));
    assert!(loader.get_cached_sprite(8).is_none());
}

#[test]
fn loading_a_sprite_twice_gives_the_same_pixels_and_caches_it_once() {
    let mut loader = AppearanceLoader::new("pkg");
    let file = sprite_file(10, 2, 2);
    let before = loader.cached_sprite_count();
    let first = loader.load_sprite(7, Some(&file)).unwrap().clone();
    let after_first = loader.cached_sprite_count();
    let second = loader.load_sprite(7, Some(&file)).unwrap().clone();
    assert_eq!(first.pixels, second.pixels);
    assert_eq!((first.width, first.height), (second.width, second.height));
    assert_eq!(after_first, before + 1);
    assert_eq!(loader.cached_sprite_count(), after_first);
}

#[test]
fn a_cached_sprite_is_not_read_again() {
    let mut loader = AppearanceLoader::new("pkg");
    let file = sprite_file(10, 2, 2);
    loader.load_sprite(7, Some(&file)).unwrap();
    let other = sprite_file(99, 1, 1);
    assert_eq!(loader.load_sprite(7, Some(&other)).unwrap().pixels, pixels(10, 2, 2));
    assert_eq!(loader.load_sprite(7, None).unwrap().pixels, pixels(10, 2, 2));
    assert_eq!(loader.load_sprite(7, Some(&[1, 2, 3])).unwrap().pixels, pixels(10, 2, 2));
    assert_eq!(loader.cached_sprite_count(), 1);
}

#[test]
fn a_sprite_without_file_is_not_found_at_its_path() {
    let mut loader = AppearanceLoader::new("pkg");
    assert_eq!(
        loader.load_sprite(7, None).err(),
        Some(AppearanceError::AssetNotFound { path: "pkg/00007.spr".to_string() })
    );
    assert_eq!(loader.cached_sprite_count(), 0);
    let mut deep = AppearanceLoader::new("assets/appearances/compiled/");
    assert_eq!(
        deep.load_sprite(123_456, None).err(),
        Some(AppearanceError::AssetNotFound {
            path: "assets/appearances/compiled/123456.spr".to_string()
        })
    );
    let here = AppearanceLoader::new("");
    assert_eq!(
        here.load_sprite_from_file(1, None).err(),
        Some(AppearanceError::AssetNotFound { path: "00001.spr".to_string() })
    );
}

#[test]
fn a_sprite_that_does_not_decompress_is_corrupt() {
    let mut loader = AppearanceLoader::new("pkg");
    let broken = encode_sprite_file(&SpriteData {
        width: 1,
        height: 1,
        compressed_pixels: vec![1, 2, 3, 4, 5],
    })
    .unwrap();
    assert_eq!(loader.load_sprite(1, Some(&broken)).err(), Some(AppearanceError::CorruptSprite));
    assert_eq!(loader.cached_sprite_count(), 0);
    assert!(loader.get_cached_sprite(1).is_none());
}

#[test]
fn a_sprite_with_pixels_of_another_length_is_corrupt() {
    let mut loader = AppearanceLoader::new("pkg");
    let compressed_pixels = compress_pixels(&pixels(1, 2, 2)).unwrap();
    let wrong = encode_sprite_file(&SpriteData { width: 2, height: 3, compressed_pixels }).unwrap();
    assert_eq!(loader.load_sprite(1, Some(&wrong)).err(), Some(AppearanceError::CorruptSprite));
}

#[test]
fn loading_a_sprite_file_that_is_cut_off_is_truncated() {
    let mut loader = AppearanceLoader::new("pkg");
    let file = sprite_file(10, 2, 2);
    assert_eq!(loader.load_sprite(1, Some(&file[..8])).err(), Some(AppearanceError::Truncated));
    assert_eq!(
        loader.load_sprite(1, Some(&file[..file.len() - 1])).err(),
        Some(AppearanceError::Truncated)
    );
    assert_eq!(loader.load_sprite(1, Some(&[])).err(), Some(AppearanceError::Truncated));
    assert_eq!(loader.cached_sprite_count(), 0);
}

#[test]
fn reading_a_file_does_not_touch_the_cache() {
    let loader = AppearanceLoader::new("pkg");
    let file = sprite_file(10, 2, 2);
    let sprite = loader.load_sprite_from_file(3, Some(&file)).unwrap();
    assert_eq!(sprite.sprite_id, 3);
    assert_eq!(sprite.pixels, pixels(10, 2, 2));
    assert_eq!(loader.cached_sprite_count(), 0);
}

#[test]
fn sprites_are_preloaded_once_each() {
    let mut loader = AppearanceLoader::new("pkg");
    assert_eq!(loader.preload_sprites(&[1, 2, 1, 3, 3], &three_files()), Ok(()));
    assert_eq!(loader.cached_sprite_count(), 3);
    assert_eq!(loader.get_cached_sprite(3).unwrap().pixels, pixels(30, 4, 1));
    assert_eq!(loader.get_cached_sprite(2).unwrap().sprite_id, 2);
    assert_eq!(loader.preload_sprites(&[], &three_files()), Ok(()));
    assert_eq!(loader.preload_sprites(&[1, 2], &HashMap::new()), Ok(()));
    assert_eq!(loader.cached_sprite_count(), 3);
}

#[test]
fn preloading_stops_at_the_first_sprite_that_is_missing() {
    let mut loader = AppearanceLoader::new("pkg");
    assert_eq!(
        loader.preload_sprites(&[1, 4, 2, 5], &three_files()),
        Err(AppearanceError::AssetNotFound { path: "pkg/00004.spr".to_string() })
    );
    assert_eq!(loader.cached_sprite_count(), 1);
    assert!(loader.get_cached_sprite(1).is_some());
    assert!(loader.get_cached_sprite(2).is_none());
}

#[test]
fn the_sprites_of_an_appearance_are_collected_in_their_order() {
    let appearance = LoadedAppearance {
        id: 1,
        name: "orc".to_string(),
        offset: Offset { x: 0, y: 0 },
        size: 2,
        framegroups: vec![
            LoadedFrameGroup {
                name: "idle".to_string(),
                animations: vec![
                    (
                        Some(Direction::South),
                        LoadedAnimation { sprite_ids: vec![3, 1], duration: 0, looped: true },
                    ),
                    (None, LoadedAnimation { sprite_ids: vec![], duration: 0, looped: true }),
                ],
            },
            LoadedFrameGroup { name: "none".to_string(), animations: vec![] },
            LoadedFrameGroup {
                name: "walk".to_string(),
                animations: vec![(
                    None,
                    LoadedAnimation { sprite_ids: vec![2, 3], duration: 0, looped: true },
                )],
            },
        ],
    };
    let mut ids = vec![9];
    collect_sprite_ids(&appearance, &mut ids);
    assert_eq!(ids, vec![9, 3, 1, 2, 3]);
    let mut loader = AppearanceLoader::new("pkg");
    assert_eq!(loader.preload_appearance_sprites(&appearance, &three_files()), Ok(()));
    assert_eq!(loader.cached_sprite_count(), 3);
    let mut missing = three_files();
    missing.remove(&2);
    let mut loader = AppearanceLoader::new("pkg");
    assert_eq!(
        loader.preload_appearance_sprites(&appearance, &missing),
        Err(AppearanceError::AssetNotFound { path: "pkg/00002.spr".to_string() })
    );
    assert_eq!(loader.cached_sprite_count(), 2);
}

#[test]
fn the_cache_counts_the_bytes_of_its_pixels() {
    let mut loader = AppearanceLoader::new("pkg");
    assert_eq!(loader.cache_size_bytes(), 0);
    loader.preload_sprites(&[1, 3], &three_files()).unwrap();
    assert_eq!(loader.cache_size_bytes(), 2 * 2 * 4 + 4 * 1 * 4);
    loader.preload_sprites(&[1, 2, 3], &three_files()).unwrap();
    assert_eq!(loader.cache_size_bytes(), 48);
    assert_eq!(loader.load_sprite(9, None).err().is_some(), true);
    assert_eq!(loader.cache_size_bytes(), 48);
}

#[test]
fn a_cleared_cache_is_empty() {
    let mut loader = AppearanceLoader::new("pkg");
    loader.preload_sprites(&[1, 2, 3], &three_files()).unwrap();
    loader.clear_sprite_cache();
    assert_eq!(loader.cached_sprite_count(), 0);
    assert_eq!(loader.cache_size_bytes(), 0);
    assert!(loader.get_cached_sprite(1).is_none());
    assert_eq!(
        loader.load_sprite(1, None).err(),
        Some(AppearanceError::AssetNotFound { path: "pkg/00001.spr".to_string() })
    );
    loader.preload_sprites(&[2], &three_files()).unwrap();
    assert_eq!(loader.cached_sprite_count(), 1);
    assert_eq!(loader.cache_size_bytes(), 16);
}

#[test]
fn loading_all_loads_the_database_and_every_sprite() {
    let (database, loader) = load_all("pkg", &warrior_index(), &three_files()).unwrap();
    assert_eq!(database.version, 2);
    assert_eq!(database.count(), 1);
    assert_eq!(loader.cached_sprite_count(), 3);
    assert_eq!(loader.cache_size_bytes(), 48);
    for id in [1u32, 2, 3] {
        assert_eq!(loader.get_cached_sprite(id).unwrap().sprite_id, id);
    }
}

#[test]
fn loading_all_fails_where_a_sprite_is_missing() {
    let mut files = three_files();
    files.remove(&3);
    assert_eq!(
        load_all("pkg", &warrior_index(), &files).err(),
        Some(AppearanceError::AssetNotFound { path: "pkg/00003.spr".to_string() })
    );
    assert_eq!(
        load_all("pkg", &warrior_index()[..20], &three_files()).err(),
        Some(AppearanceError::Truncated)
    );
}

#[test]
fn loading_the_database_only_loads_no_sprite() {
    let (database, mut loader) = load_database_only("pkg", &warrior_index()).unwrap();
    assert_eq!(database.count(), 1);
    assert_eq!(loader.cached_sprite_count(), 0);
    let file = sprite_file(10, 2, 2);
    assert_eq!(loader.load_sprite(1, Some(&file)).unwrap().pixels, pixels(10, 2, 2));
    assert_eq!(
        load_database_only("pkg", &[]).err(),
        Some(AppearanceError::Truncated)
    );
}

#[test]
fn loaders_do_not_share_their_cache() {
    let mut one = AppearanceLoader::new("a");
    let two = AppearanceLoader::default();
    one.preload_sprites(&[1], &three_files()).unwrap();
    assert_eq!(one.cached_sprite_count(), 1);
    assert_eq!(two.cached_sprite_count(), 0);
    let copy = one.clone();
    one.clear_sprite_cache();
    assert_eq!(copy.cached_sprite_count(), 1);
    assert_eq!(copy.cache_size_bytes(), 16);
}
