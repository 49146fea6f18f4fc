use yggdrasil_appearancelib::loaded_types::{
    position_of_key, same_key, AppearanceDatabase, LoadedAnimation, LoadedAppearance,
    LoadedFrameGroup, LoadedSprite,
};
use yggdrasil_appearancelib::types::{Direction, Offset};

fn animation(ids: &[u32], duration: u32) -> LoadedAnimation {
    LoadedAnimation { sprite_ids: ids.to_vec(), duration, looped: true }
}

fn group(name: &str, entries: Vec<(Option<Direction>, LoadedAnimation)>) -> LoadedFrameGroup {
    LoadedFrameGroup { name: name.to_string(), animations: entries }
}

fn appearance(id: u32, name: &str, groups: Vec<LoadedFrameGroup>) -> LoadedAppearance {
    LoadedAppearance {
        id,
        name: name.to_string(),
        offset: Offset { x: -3, y: 4 },
        size: 64,
        framegroups: groups,
    }
}

#[test]
fn a_new_database_is_empty() {
    let database = AppearanceDatabase::new(7);
    assert_eq!(database.version, 7);
    assert_eq!(database.count(), 0);
    assert!(database.get_appearance(1).is_none());
    assert!(database.all_appearances().is_empty());
    let default = AppearanceDatabase::default();
    assert_eq!(default.version, 0);
    assert_eq!(default.count(), 0);
}

#[test]
fn appearances_stand_under_their_identifier() {
    let mut database = AppearanceDatabase::new(2);
    database.add_appearance(appearance(5, "orc", vec![]));
    database.add_appearance(appearance(9, "elf", vec![]));
    assert_eq!(database.count(), 2);
    assert_eq!(database.get_appearance(5).unwrap().name, "orc");
    assert_eq!(database.get_appearance(9).unwrap().name, "elf");
    assert!(database.get_appearance(6).is_none());
    let mut names: Vec<String> =
        database.all_appearances().iter().map(|a| a.name.clone()).collect();
    names.sort();
    assert_eq!(names, vec!["elf".to_string(), "orc".to_string()]);
}

#[test]
fn a_later_appearance_takes_the_place_of_an_earlier_one() {
    let mut database = AppearanceDatabase::new(2);
    database.add_appearance(appearance(5, "orc", vec![]));
    database.add_appearance(appearance(5, "troll", vec![]));
    assert_eq!(database.count(), 1);
    assert_eq!(database.get_appearance(5).unwrap().name, "troll");
    assert_eq!(database.all_appearances().len(), 1);
}

#[test]
fn frame_groups_are_found_by_name() {
    let orc = appearance(
        1,
        "orc",
        vec![
            group("idle", vec![(None, animation(&[1], 0))]),
            group("walk", vec![(None, animation(&[2, 3], 400))]),
            group("idle", vec![(None, animation(&[4], 0))]),
        ],
    );
    assert_eq!(orc.get_framegroup("walk").unwrap().animations[0].1.sprite_ids, vec![2, 3]);
    assert_eq!(orc.get_framegroup("idle").unwrap().animations[0].1.sprite_ids, vec![1]);
    assert!(orc.get_framegroup("run").is_none());
    assert!(orc.get_framegroup("").is_none());
    assert_eq!(orc.all_framegroups().len(), 3);
    assert_eq!(orc.all_framegroups()[1].name, "walk");
    let names: Vec<&str> = orc.framegroup_names().iter().map(|n| n.as_str()).collect();
    assert_eq!(names, vec!["idle", "walk", "idle"]);
    assert!(appearance(2, "x", vec![]).framegroup_names().is_empty());
}

#[test]
fn animations_are_found_by_direction() {
    let walk = group(
        "walk",
        vec![
            (Some(Direction::South), animation(&[1, 2], 100)),
            (None, animation(&[3], 0)),
            (Some(Direction::North), animation(&[4, 5], 200)),
        ],
    );
    assert_eq!(walk.get_animation(Some(Direction::North)).unwrap().sprite_ids, vec![4, 5]);
    assert_eq!(walk.get_animation(Some(Direction::South)).unwrap().duration, 100);
    assert_eq!(walk.get_animation(None).unwrap().sprite_ids, vec![3]);
    assert!(walk.get_animation(Some(Direction::East)).is_none());
}

#[test]
fn the_animation_without_direction_is_the_default() {
    let walk = group(
        "walk",
        vec![(Some(Direction::South), animation(&[1, 2], 100)), (None, animation(&[3], 0))],
    );
    let south = walk.get_animation_or_default(Some(Direction::South)).unwrap();
    assert_eq!(south.sprite_ids, vec![1, 2]);
    assert_eq!(walk.get_animation_or_default(Some(Direction::East)).unwrap().sprite_ids, vec![3]);
    assert_eq!(walk.get_animation_or_default(None).unwrap().sprite_ids, vec![3]);
    let only = group("walk", vec![(Some(Direction::South), animation(&[1], 0))]);
    assert!(only.get_animation_or_default(Some(Direction::East)).is_none());
    assert!(only.get_animation_or_default(None).is_none());
}

#[test]
fn an_inserted_animation_takes_the_place_of_the_one_under_its_direction() {
    let mut walk = group("walk", vec![]);
    walk.insert_animation(Some(Direction::East), animation(&[1], 10));
    walk.insert_animation(None, animation(&[2], 20));
    walk.insert_animation(Some(Direction::East), animation(&[3], 30));
    assert_eq!(walk.animations.len(), 2);
    assert_eq!(walk.animations[0].0, Some(Direction::East));
    assert_eq!(walk.animations[0].1.sprite_ids, vec![3]);
    assert_eq!(walk.animations[1].0, None);
    assert_eq!(walk.get_animation(Some(Direction::East)).unwrap().duration, 30);
    walk.insert_animation(None, animation(&[4], 40));
    assert_eq!(walk.animations.len(), 2);
    assert_eq!(walk.get_animation(None).unwrap().sprite_ids, vec![4]);
}

#[test]
fn keys_are_compared_and_found() {
    assert!(same_key(None, None));
    assert!(same_key(Some(Direction::West), Some(Direction::West)));
    assert!(!same_key(Some(Direction::West), Some(Direction::East)));
    assert!(!same_key(None, Some(Direction::North)));
    assert!(!same_key(Some(Direction::North), None));
    let entries = vec![(Some(Direction::West), 1u8), (None, 2), (Some(Direction::West), 3)];
    assert_eq!(position_of_key(&entries, Some(Direction::West)), Some(0));
    assert_eq!(position_of_key(&entries, None), Some(1));
    assert_eq!(position_of_key(&entries, Some(Direction::North)), None);
}

#[test]
fn defaults_are_empty() {
    let appearance = LoadedAppearance::default();
    assert_eq!(appearance.id, 0);
    assert_eq!(appearance.name, "");
    assert_eq!(appearance.offset, Offset { x: 0, y: 0 });
    assert_eq!(appearance.size, 0);
    assert!(appearance.framegroups.is_empty());
    let sprite = LoadedSprite::default();
    assert_eq!((sprite.sprite_id, sprite.width, sprite.height), (0, 0, 0));
    assert!(sprite.pixels.is_empty());
}
