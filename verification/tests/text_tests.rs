use yggdrasil_appearancelib::text::{
    join_path, resolve_spritesheet_path, same_text, sprite_file_name, starts_with_asset_root,
};

#[test]
fn sprite_files_are_named_by_five_digits() {
    assert_eq!(sprite_file_name(1), "00001.spr");
    assert_eq!(sprite_file_name(42), "00042.spr");
    assert_eq!(sprite_file_name(0), "00000.spr");
    assert_eq!(sprite_file_name(99_999), "99999.spr");
    assert_eq!(sprite_file_name(10_000), "10000.spr");
}

#[test]
fn sprite_files_of_large_identifiers_have_more_digits() {
    assert_eq!(sprite_file_name(100_000), "100000.spr");
    assert_eq!(sprite_file_name(123_456), "123456.spr");
    assert_eq!(sprite_file_name(u32::MAX), "4294967295.spr");
}

#[test]
fn sprite_file_names_agree_with_the_standard_formatting() {
    for id in [0u32, 7, 10, 99, 100, 4_096, 65_535, 70_001, 1_000_000, 4_000_000_000] {
        assert_eq!(sprite_file_name(id), format!("{:05}.spr", id));
    }
}

#[test]
fn paths_are_joined_with_one_slash() {
    assert_eq!(join_path("out", "00001.spr"), "out/00001.spr");
    assert_eq!(join_path("out/", "00001.spr"), "out/00001.spr");
    assert_eq!(join_path("", "00001.spr"), "00001.spr");
    assert_eq!(join_path(".", "assets/a.png"), "./assets/a.png");
    assert_eq!(join_path("/", "a"), "/a");
    assert_eq!(join_path("a/b", ""), "a/b/");
}

#[test]
fn a_path_from_the_root_stands_alone() {
    assert_eq!(join_path("out", "/etc/sheet.png"), "/etc/sheet.png");
}

#[test]
fn joined_paths_agree_with_the_standard_library() {
    let pairs = [("out", "a.spr"), ("out/", "a.spr"), ("", "a"), ("x/y", "z/w.png"), ("x", "/abs")];
    for (base, relative) in pairs {
        let expected = std::path::Path::new(base).join(relative);
        assert_eq!(join_path(base, relative), expected.display().to_string());
    }
}

#[test]
fn sheets_below_assets_are_looked_for_below_the_base() {
    assert_eq!(
        resolve_spritesheet_path("/game", "assets/sprites/warrior/idle.png"),
        "/game/assets/sprites/warrior/idle.png"
    );
    assert_eq!(resolve_spritesheet_path(".", "assets/a.png"), "./assets/a.png");
    assert_eq!(resolve_spritesheet_path("", "assets/a.png"), "assets/a.png");
}

#[test]
fn other_sheets_are_looked_for_as_given() {
    assert_eq!(resolve_spritesheet_path("/game", "sprites/idle.png"), "sprites/idle.png");
    assert_eq!(resolve_spritesheet_path("/game", "/tmp/idle.png"), "/tmp/idle.png");
    assert_eq!(resolve_spritesheet_path("/game", "assets"), "assets");
    assert_eq!(resolve_spritesheet_path("/game", "Assets/a.png"), "Assets/a.png");
    assert_eq!(resolve_spritesheet_path("/game", ""), "");
}

#[test]
fn the_asset_root_is_recognised() {
    assert!(starts_with_asset_root("assets/"));
    assert!(starts_with_asset_root("assets/x"));
    assert!(!starts_with_asset_root("assets"));
    assert!(!starts_with_asset_root("asset/s"));
    assert!(!starts_with_asset_root("xassets/"));
    assert!(!starts_with_asset_root(""));
}

#[test]
fn texts_are_compared_by_their_characters() {
    assert!(same_text("idle", "idle"));
    assert!(same_text("", ""));
    assert!(!same_text("idle", "Idle"));
    assert!(!same_text("idle", "idle "));
    assert!(same_text("açaí", "açaí"));
    assert!(!same_text("açaí", "acai"));
}
