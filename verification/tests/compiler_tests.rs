use std::collections::HashMap;
use yggdrasil_appearancelib::compiler::{
    compile_animation, compile_appearance, compile_appearances, compile_framegroup,
    distinct_directions, CompilationResult, CompiledPackage,
};
use yggdrasil_appearancelib::error::AppearanceError;
use yggdrasil_appearancelib::loaded_types::{LoadedAnimation, LoadedAppearance, LoadedFrameGroup};
use yggdrasil_appearancelib::loader::{load_all, read_database, AppearanceLoader};
use yggdrasil_appearancelib::sprite::RawImage;
use yggdrasil_appearancelib::text::sprite_file_name;
use yggdrasil_appearancelib::types::{
    Animation, Appearance, AppearancesFile, Direction, FrameGroup, Offset, Orientation,
};
use yggdrasil_appearancelib::writer::{
    write_animation, write_appearance, write_direction, write_framegroup, write_index,
    write_sprite_ids,
};

/// An image in which every pixel says where it lies, and on which sheet.
fn sheet(mark: u8, width: u32, height: u32) -> RawImage {
    let mut pixels = Vec::new();
    for y in 0..height {
        for x in 0..width {
            pixels.extend_from_slice(&[x as u8, y as u8, mark, 255]);
        }
    }
    RawImage::new(width, height, pixels).unwrap()
}

/// The pixels of a rectangle of such an image.
fn rectangle(mark: u8, x: u32, y: u32, width: u32, height: u32) -> Vec<u8> {
    let mut pixels = Vec::new();
    for row in y..y + height {
        for column in x..x + width {
            pixels.extend_from_slice(&[column as u8, row as u8, mark, 255]);
        }
    }
    pixels
}

fn animation(frame_count: u32, duration: Option<u32>, looped: Option<bool>) -> Animation {
    Animation { sprite_ids: None, frame_count, duration, looped }
}

fn walk_group() -> FrameGroup {
    FrameGroup {
        name: "walk".to_string(),
        spritesheet: "assets/walk.png".to_string(),
        orientation: Orientation::Vertical,
        animations: vec![
            (Some(Direction::South), animation(3, Some(300), None)),
            (Some(Direction::North), animation(3, None, Some(false))),
        ],
    }
}

fn idle_group() -> FrameGroup {
    FrameGroup {
        name: "idle".to_string(),
        spritesheet: "sheets/idle.png".to_string(),
        orientation: Orientation::Horizontal,
        animations: vec![(None, animation(2, Some(1000), Some(true)))],
    }
}

fn turn_group() -> FrameGroup {
    FrameGroup {
        name: "turn".to_string(),
        spritesheet: "assets/turn.png".to_string(),
        orientation: Orientation::Horizontal,
        animations: vec![
            (Some(Direction::West), animation(2, None, None)),
            (Some(Direction::East), animation(2, Some(50), None)),
        ],
    }
}

fn warrior() -> Appearance {
    Appearance {
        id: 1,
        name: "warrior".to_string(),
        offset: Offset { x: 1, y: -2 },
        size: 2,
        framegroups: vec![walk_group(), idle_group()],
    }
}

fn orc() -> Appearance {
    Appearance {
        id: 7,
        name: "orc".to_string(),
        offset: Offset { x: 0, y: 0 },
        size: 1,
        framegroups: vec![turn_group()],
    }
}

fn manifest() -> AppearancesFile {
    AppearancesFile { version: 2, appearances: vec![warrior(), orc()] }
}

fn sheets() -> Vec<Vec<Option<RawImage>>> {
    vec![vec![Some(sheet(10, 6, 4)), Some(sheet(20, 2, 4))], vec![Some(sheet(30, 2, 2))]]
}

fn compiled() -> CompiledPackage {
    compile_appearances(&manifest(), "/game", &sheets()).unwrap()
}

fn files_of(package: &CompiledPackage) -> HashMap<u32, Vec<u8>> {
    package.sprites.iter().map(|file| (file.sprite_id, file.bytes.clone())).collect()
}

#[test]
fn sprites_get_the_identifiers_from_1_on() {
    let package = compiled();
    let ids: Vec<u32> = package.sprites.iter().map(|file| file.sprite_id).collect();
    assert_eq!(ids, (1..=12).collect::<Vec<u32>>());
    for pair in ids.windows(2) {
        assert!(pair[0] < pair[1]);
    }
    assert!(ids.iter().all(|id| *id >= 1));
}

#[test]
fn the_sizes_of_a_package_are_counted() {
    let package = compiled();
    let compressed: usize = package.sprites.iter().map(|file| file.bytes.len() - 12).sum();
    assert_eq!(
        package.result,
        CompilationResult {
            appearances_count: 2,
            sprites_count: 12,
            dat_size: package.index.len(),
            total_spr_size: compressed,
        }
    );
    assert!(compressed > 0);
}

#[test]
fn loading_what_was_compiled_gives_back_what_was_authored() {
    let package = compiled();
    let database = read_database(&package.index).unwrap();
    assert_eq!(database.version, 2);
    assert_eq!(database.count(), 2);
    let warrior = database.get_appearance(1).unwrap();
    assert_eq!(warrior.name, "warrior");
    assert_eq!(warrior.offset, Offset { x: 1, y: -2 });
    assert_eq!(warrior.size, 2);
    let names: Vec<&str> = warrior.framegroup_names().iter().map(|n| n.as_str()).collect();
    assert_eq!(names, vec!["walk", "idle"]);
    let walk = warrior.get_framegroup("walk").unwrap();
    assert_eq!(walk.animations.len(), 2);
    let south = walk.get_animation(Some(Direction::South)).unwrap();
    assert_eq!((south.duration, south.looped), (300, true));
    let north = walk.get_animation(Some(Direction::North)).unwrap();
    assert_eq!((north.duration, north.looped), (0, false));
    let idle = warrior.get_framegroup("idle").unwrap().get_animation(None).unwrap();
    assert_eq!((idle.duration, idle.looped), (1000, true));
    let orc = database.get_appearance(7).unwrap();
    assert_eq!(orc.name, "orc");
    assert_eq!(orc.offset, Offset { x: 0, y: 0 });
    assert_eq!(orc.size, 1);
    let turn = orc.get_framegroup("turn").unwrap();
    assert_eq!(turn.get_animation(Some(Direction::East)).unwrap().duration, 50);
    assert!(turn.get_animation(Some(Direction::West)).unwrap().looped);
}

#[test]
fn identifiers_follow_the_order_of_the_animations() {
    let database = read_database(&compiled().index).unwrap();
    let warrior = database.get_appearance(1).unwrap();
    let walk = warrior.get_framegroup("walk").unwrap();
    assert_eq!(walk.animations[0].0, Some(Direction::South));
    assert_eq!(walk.animations[0].1.sprite_ids, vec![1, 2, 3]);
    assert_eq!(walk.animations[1].0, Some(Direction::North));
    assert_eq!(walk.animations[1].1.sprite_ids, vec![4, 5, 6]);
    let idle = warrior.get_framegroup("idle").unwrap();
    assert_eq!(idle.animations[0].1.sprite_ids, vec![7, 8]);
    let turn = database.get_appearance(7).unwrap().get_framegroup("turn").unwrap();
    assert_eq!(turn.get_animation(Some(Direction::West)).unwrap().sprite_ids, vec![9, 10]);
    assert_eq!(turn.get_animation(Some(Direction::East)).unwrap().sprite_ids, vec![11, 12]);
}

#[test]
fn every_sprite_file_holds_the_pixels_of_its_cell() {
    let package = compiled();
    let files = files_of(&package);
    let mut loader = AppearanceLoader::new("out");
    let expected: Vec<(u32, Vec<u8>)> = vec![
        // walk, vertical: north is row 0, south is row 1
        (1, rectangle(10, 0, 2, 2, 2)),
        (2, rectangle(10, 2, 2, 2, 2)),
        (3, rectangle(10, 4, 2, 2, 2)),
        (4, rectangle(10, 0, 0, 2, 2)),
        (5, rectangle(10, 2, 0, 2, 2)),
        (6, rectangle(10, 4, 0, 2, 2)),
        // idle, horizontal, no direction: one column of frames
        (7, rectangle(20, 0, 0, 2, 2)),
        (8, rectangle(20, 0, 2, 2, 2)),
        // turn, horizontal: east is column 0, west is column 1
        (9, rectangle(30, 1, 0, 1, 1)),
        (10, rectangle(30, 1, 1, 1, 1)),
        (11, rectangle(30, 0, 0, 1, 1)),
        (12, rectangle(30, 0, 1, 1, 1)),
    ];
    for (id, pixels) in expected {
        let sprite = loader.load_sprite(id, files.get(&id).map(|bytes| bytes.as_slice())).unwrap();
        assert_eq!(sprite.sprite_id, id);
        assert_eq!(sprite.pixels, pixels, "sprite {}", id);
        assert_eq!(sprite.pixels.len() as u32, sprite.width * sprite.height * 4);
    }
}

#[test]
fn a_compiled_package_loads_as_a_whole() {
    let package = compiled();
    let (database, loader) = load_all("out", &package.index, &files_of(&package)).unwrap();
    assert_eq!(database.count(), 2);
    assert_eq!(loader.cached_sprite_count(), 12);
    assert_eq!(loader.cache_size_bytes(), 8 * 16 + 4 * 4);
    assert_eq!(sprite_file_name(package.sprites[11].sprite_id), "00012.spr");
}

#[test]
fn an_empty_manifest_compiles_to_an_empty_index() {
    let empty = AppearancesFile { version: 5, appearances: vec![] };
    let package = compile_appearances(&empty, ".", &vec![]).unwrap();
    assert_eq!(package.index, vec![5, 0, 0, 0, 0, 0, 0, 0]);
    assert!(package.sprites.is_empty());
    assert_eq!(
        package.result,
        CompilationResult { appearances_count: 0, sprites_count: 0, dat_size: 8, total_spr_size: 0 }
    );
}

#[test]
fn the_index_of_one_still_sprite() {
    let stone = Appearance {
        id: 3,
        name: "st".to_string(),
        offset: Offset { x: -1, y: 2 },
        size: 1,
        framegroups: vec![FrameGroup {
            name: "g".to_string(),
            spritesheet: "s.png".to_string(),
            orientation: Orientation::Vertical,
            animations: vec![(Some(Direction::West), animation(1, None, None))],
        }],
    };
    let file = AppearancesFile { version: 2, appearances: vec![stone] };
    let package = compile_appearances(&file, ".", &vec![vec![Some(sheet(1, 1, 1))]]).unwrap();
    let expected: Vec<u8> = vec![
        2, 0, 0, 0, // version
        1, 0, 0, 0, // appearances
        3, 0, 0, 0, // id
        2, 0, 0, 0, b's', b't', // name
        0xff, 0xff, 0xff, 0xff, // offset x
        2, 0, 0, 0, // offset y
        1, 0, 0, 0, // size
        1, 0, 0, 0, // frame groups
        1, 0, 0, 0, b'g', // name
        1, 0, 0, 0, // animations
        1, 3, // west
        1, 0, 0, 0, // sprites
        1, 0, 0, 0, // sprite 1
        0, 0, 0, 0, // duration
        1, // looped
    ];
    assert_eq!(package.index, expected);
    assert_eq!(package.sprites.len(), 1);
    assert_eq!(&package.sprites[0].bytes[..8], &[1, 0, 0, 0, 1, 0, 0, 0]);
}

#[test]
fn a_sheet_of_200_by_64_where_256_by_64_is_expected_fails_the_compilation() {
    let file = AppearancesFile {
        version: 2,
        appearances: vec![Appearance {
            id: 1,
            name: "warrior".to_string(),
            offset: Offset { x: 0, y: 0 },
            size: 64,
            framegroups: vec![FrameGroup {
                name: "idle".to_string(),
                spritesheet: "assets/idle.png".to_string(),
                orientation: Orientation::Vertical,
                animations: vec![(None, animation(4, None, None))],
            }],
        }],
    };
    let outcome = compile_appearances(&file, ".", &vec![vec![Some(sheet(1, 200, 64))]]);
    assert_eq!(
        outcome.err(),
        Some(AppearanceError::DimensionMismatch {
            appearance: "warrior".to_string(),
            frame_group: "idle".to_string(),
            expected_width: 256,
            expected_height: 64,
            actual_width: 200,
            actual_height: 64,
        })
    );
    let good = compile_appearances(&file, ".", &vec![vec![Some(sheet(1, 256, 64))]]).unwrap();
    assert_eq!(good.sprites.len(), 4);
}

#[test]
fn a_mismatch_in_a_later_frame_group_emits_nothing() {
    let mut all = sheets();
    all[1][0] = Some(sheet(30, 2, 3));
    assert_eq!(
        compile_appearances(&manifest(), "/game", &all).err(),
        Some(AppearanceError::DimensionMismatch {
            appearance: "orc".to_string(),
            frame_group: "turn".to_string(),
            expected_width: 2,
            expected_height: 2,
            actual_width: 2,
            actual_height: 3,
        })
    );
}

#[test]
fn animations_of_one_frame_group_must_agree_on_the_sheet() {
    let mut group = walk_group();
    group.animations[1].1.frame_count = 2;
    let appearance = Appearance { framegroups: vec![group], ..warrior() };
    let outcome = compile_appearance(&appearance, &vec![Some(sheet(10, 6, 4))], "/game", 0);
    assert_eq!(
        outcome.err(),
        Some(AppearanceError::DimensionMismatch {
            appearance: "warrior".to_string(),
            frame_group: "walk".to_string(),
            expected_width: 4,
            expected_height: 4,
            actual_width: 6,
            actual_height: 4,
        })
    );
}

#[test]
fn a_sheet_that_is_missing_is_not_found_at_its_path() {
    let mut all = sheets();
    all[0][0] = None;
    assert_eq!(
        compile_appearances(&manifest(), "/game", &all).err(),
        Some(AppearanceError::AssetNotFound { path: "/game/assets/walk.png".to_string() })
    );
    let mut all = sheets();
    all[0].truncate(1);
    assert_eq!(
        compile_appearances(&manifest(), "/game", &all).err(),
        Some(AppearanceError::AssetNotFound { path: "sheets/idle.png".to_string() })
    );
    let mut all = sheets();
    all.truncate(1);
    assert_eq!(
        compile_appearances(&manifest(), "base/", &all).err(),
        Some(AppearanceError::AssetNotFound { path: "base/assets/turn.png".to_string() })
    );
}

#[test]
fn the_first_failure_is_the_one_that_is_reported() {
    let mut all = sheets();
    all[0][1] = None;
    all[1][0] = Some(sheet(30, 5, 5));
    assert_eq!(
        compile_appearances(&manifest(), "/game", &all).err(),
        Some(AppearanceError::AssetNotFound { path: "sheets/idle.png".to_string() })
    );
}

#[test]
fn a_frame_group_without_animations_needs_no_sheet() {
    let bare = FrameGroup {
        name: "bare".to_string(),
        spritesheet: "assets/none.png".to_string(),
        orientation: Orientation::Vertical,
        animations: vec![],
    };
    let (group, files) = compile_framegroup(&warrior(), &bare, None, ".", 4).unwrap();
    assert_eq!(group.name, "bare");
    assert!(group.animations.is_empty());
    assert!(files.is_empty());
}

#[test]
fn two_animations_under_one_direction_are_refused() {
    let mut group = walk_group();
    group.animations[1].0 = Some(Direction::South);
    let image = sheet(10, 6, 2);
    assert_eq!(
        compile_framegroup(&warrior(), &group, Some(&image), ".", 0).err(),
        Some(AppearanceError::InvalidData(
            "a frame group holds two animations under one direction".to_string()
        ))
    );
    assert!(!distinct_directions(&group.animations));
    assert!(distinct_directions(&walk_group().animations));
    assert!(distinct_directions(&Vec::<(Option<Direction>, u8)>::new()));
    assert!(!distinct_directions(&vec![(None, 1u8), (Some(Direction::East), 2), (None, 3)]));
}

#[test]
fn an_animation_without_direction_beside_directions_is_one_lane() {
    let group = FrameGroup {
        name: "mixed".to_string(),
        spritesheet: "m.png".to_string(),
        orientation: Orientation::Vertical,
        animations: vec![
            (None, animation(2, None, None)),
            (Some(Direction::East), animation(2, None, None)),
        ],
    };
    let image = sheet(5, 4, 2);
    let (compiled, files) = compile_framegroup(&warrior(), &group, Some(&image), ".", 0).unwrap();
    assert_eq!(compiled.animations[0].1.sprite_ids, vec![1, 2]);
    assert_eq!(compiled.animations[1].1.sprite_ids, vec![3, 4]);
    assert_eq!(files.len(), 4);
    assert_eq!(files[0].bytes, files[2].bytes);
    assert_eq!(files[1].bytes, files[3].bytes);
}

#[test]
fn identifiers_go_on_from_those_emitted_before() {
    let image = sheet(10, 6, 4);
    let group = walk_group();
    let (key, authored) = (group.animations[1].0, &group.animations[1].1);
    let (animation, files) =
        compile_animation(&warrior(), &group, Some(&image), ".", key, authored, 40).unwrap();
    assert_eq!(animation.sprite_ids, vec![41, 42, 43]);
    assert_eq!((animation.duration, animation.looped), (0, false));
    let ids: Vec<u32> = files.iter().map(|file| file.sprite_id).collect();
    assert_eq!(ids, vec![41, 42, 43]);
    let (key, authored) = (group.animations[0].0, &group.animations[0].1);
    let (animation, _) =
        compile_animation(&warrior(), &group, Some(&image), ".", key, authored, 0).unwrap();
    assert_eq!(animation.sprite_ids, vec![1, 2, 3]);
    assert_eq!((animation.duration, animation.looped), (300, true));
}

#[test]
fn identifiers_that_run_out_are_refused() {
    let image = sheet(10, 6, 4);
    let group = walk_group();
    let (key, authored) = (group.animations[0].0, &group.animations[0].1);
    assert_eq!(
        compile_animation(&warrior(), &group, Some(&image), ".", key, authored, u32::MAX - 2).err(),
        Some(AppearanceError::InvalidData("there are no sprite identifiers left".to_string()))
    );
    let (animation, _) =
        compile_animation(&warrior(), &group, Some(&image), ".", key, authored, u32::MAX - 3)
            .unwrap();
    assert_eq!(animation.sprite_ids, vec![u32::MAX - 2, u32::MAX - 1, u32::MAX]);
}

#[test]
fn an_animation_under_a_direction_that_the_frame_group_does_not_hold_is_in_lane_0() {
    let image = sheet(10, 6, 4);
    let stray = animation(3, None, None);
    let (compiled, files) = compile_animation(
        &warrior(),
        &walk_group(),
        Some(&image),
        ".",
        Some(Direction::West),
        &stray,
        0,
    )
    .unwrap();
    assert_eq!(compiled.sprite_ids, vec![1, 2, 3]);
    let (north, north_files) = compile_animation(
        &warrior(),
        &walk_group(),
        Some(&image),
        ".",
        Some(Direction::North),
        &stray,
        0,
    )
    .unwrap();
    assert_eq!(north.sprite_ids, vec![1, 2, 3]);
    assert_eq!(files[2].bytes, north_files[2].bytes);
}

#[test]
fn an_animation_without_frames_has_no_sprites() {
    let group = FrameGroup {
        name: "none".to_string(),
        spritesheet: "n.png".to_string(),
        orientation: Orientation::Vertical,
        animations: vec![(None, animation(0, None, None))],
    };
    let image = RawImage::new(0, 2, vec![]).unwrap();
    let (compiled, files) = compile_framegroup(&warrior(), &group, Some(&image), ".", 0).unwrap();
    assert!(compiled.animations[0].1.sprite_ids.is_empty());
    assert!(files.is_empty());
}

#[test]
fn the_parts_of_an_index_are_written_as_the_format_says() {
    let mut bytes = Vec::new();
    write_direction(&mut bytes, Some(Direction::NorthWest));
    write_direction(&mut bytes, None);
    write_direction(&mut bytes, Some(Direction::North));
    assert_eq!(bytes, vec![1, 7, 0, 1, 0]);
    let mut bytes = Vec::new();
    write_sprite_ids(&mut bytes, &vec![1, 258]);
    assert_eq!(bytes, vec![1, 0, 0, 0, 2, 1, 0, 0]);
    let animation = LoadedAnimation { sprite_ids: vec![5], duration: 256, looped: false };
    let mut bytes = Vec::new();
    assert_eq!(write_animation(&mut bytes, Some(Direction::East), &animation), Ok(()));
    assert_eq!(bytes, vec![1, 1, 1, 0, 0, 0, 5, 0, 0, 0, 0, 1, 0, 0, 0]);
    let group = LoadedFrameGroup { name: "ab".to_string(), animations: vec![(None, animation)] };
    let mut bytes = Vec::new();
    assert_eq!(write_framegroup(&mut bytes, &group), Ok(()));
    assert_eq!(
        bytes,
        vec![2, 0, 0, 0, b'a', b'b', 1, 0, 0, 0, 0, 1, 0, 0, 0, 5, 0, 0, 0, 0, 1, 0, 0, 0]
    );
    let appearance = LoadedAppearance {
        id: 9,
        name: "x".to_string(),
        offset: Offset { x: 1, y: -1 },
        size: 3,
        framegroups: vec![],
    };
    let mut bytes = vec![0xaa];
    assert_eq!(write_appearance(&mut bytes, &appearance), Ok(()));
    assert_eq!(
        bytes,
        vec![
            0xaa, 9, 0, 0, 0, 1, 0, 0, 0, b'x', 1, 0, 0, 0, 0xff, 0xff, 0xff, 0xff, 3, 0, 0, 0, 0,
            0, 0, 0
        ]
    );
}

#[test]
fn a_written_index_is_read_back() {
    let appearances = vec![
        LoadedAppearance {
            id: 4,
            name: "dragão".to_string(),
            offset: Offset { x: i32::MIN, y: i32::MAX },
            size: 128,
            framegroups: vec![LoadedFrameGroup {
                name: "fly".to_string(),
                animations: vec![
                    (
                        Some(Direction::SouthEast),
                        LoadedAnimation {
                            sprite_ids: vec![10, 11, 12],
                            duration: 900,
                            looped: true,
                        },
                    ),
                    (None, LoadedAnimation { sprite_ids: vec![], duration: 0, looped: false }),
                ],
            }],
        },
        LoadedAppearance::default(),
    ];
    let index = write_index(77, &appearances).unwrap();
    let database = read_database(&index).unwrap();
    assert_eq!(database.version, 77);
    assert_eq!(database.count(), 2);
    let dragon = database.get_appearance(4).unwrap();
    assert_eq!(dragon.name, "dragão");
    assert_eq!(dragon.offset, Offset { x: i32::MIN, y: i32::MAX });
    let fly = dragon.get_framegroup("fly").unwrap();
    assert_eq!(fly.get_animation(Some(Direction::SouthEast)).unwrap().sprite_ids, vec![10, 11, 12]);
    assert_eq!(fly.get_animation(Some(Direction::SouthEast)).unwrap().duration, 900);
    assert!(!fly.get_animation(None).unwrap().looped);
    assert_eq!(database.get_appearance(0).unwrap().name, "");
}
