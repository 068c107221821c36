use gg2_custom::asset::{AssetType, AtlasDefinition, AtlasMetadata, AtlasSelector};
use gg2_custom::atlas::{AssetError, TextureAtlas};
use gg2_custom::resource::{ResourceError, ResourceId};
use gg2_custom::spath::{SPath, SPathBuf};
use gg2_custom::sprite::{
    sprite_frame, SpriteContextAsset, SpriteContextBranch, SpriteContextCondition, Team,
};

fn gg2(path: &str) -> ResourceId {
    ResourceId::gg2(SPathBuf::from_str(path))
}

fn id(namespace: &str, path: &str) -> ResourceId {
    ResourceId::new(namespace.to_string(), SPathBuf::from_str(path))
}

#[test]
fn selector_single() {
    let selector = AtlasSelector::Single {
        asset: gg2("test/texture"),
    };

    assert!(!selector.scan_check(&gg2("test")));
    assert!(!selector.scan_check(&gg2("test/texture/sub")));
    assert!(!selector.scan_check(&id("other", "test/texture")));
    assert!(selector.scan_check(&gg2("test/texture")));
}

#[test]
fn selector_path() {
    let selector = AtlasSelector::Path {
        path: SPathBuf::from_str("test/path"),
    };

    assert!(!selector.scan_check(&gg2("test")));
    assert!(!selector.scan_check(&gg2("test/path")));
    assert!(!selector.scan_check(&gg2("test/path/")));
    assert!(selector.scan_check(&gg2("test/path/sub0")));
    assert!(selector.scan_check(&gg2("test/path/sub1")));
    assert!(selector.scan_check(&gg2("test/path/sub3")));
    assert!(selector.scan_check(&id("other", "test/path/sub0")));
}

#[test]
fn selector_namespace_path() {
    let selector = AtlasSelector::NamespacePath {
        path: id("mod", "sprites"),
    };
    assert!(selector.scan_check(&id("mod", "sprites/hat")));
    assert!(!selector.scan_check(&id("gg2", "sprites/hat")));
    assert!(!selector.scan_check(&id("mod", "sprites")));
    assert!(!selector.scan_check(&id("mod", "other/hat")));
}

#[test]
fn within_path_by_components() {
    assert!(AtlasSelector::within_path(SPath::new("a"), SPath::new("a/b")));
    assert!(AtlasSelector::within_path(SPath::new("a/./b"), SPath::new("a/b/c")));
    assert!(!AtlasSelector::within_path(SPath::new("a/b"), SPath::new("a")));
    assert!(!AtlasSelector::within_path(SPath::new("a"), SPath::new("a//")));
    assert!(!AtlasSelector::within_path(SPath::new("a/b/c"), SPath::new("a/b///")));
    assert!(!AtlasSelector::within_path(SPath::new("a"), SPath::new("b/c")));
}

#[test]
fn atlas_definition_selects_any() {
    let definition = AtlasDefinition {
        metadata: AtlasMetadata { size: 1024 },
        selectors: vec![
            AtlasSelector::Single { asset: gg2("player/red") },
            AtlasSelector::Path { path: SPathBuf::from_str("map") },
        ],
    };
    assert!(definition.selects(&gg2("player/red")));
    assert!(definition.selects(&gg2("map/tile")));
    assert!(!definition.selects(&gg2("player/blu")));
    let ids = vec![gg2("player/blu"), gg2("map/tile"), gg2("player/red"), gg2("hud")];
    assert_eq!(definition.select(&ids), vec![1, 2]);
}

#[test]
fn asset_type_names() {
    assert_eq!(AssetType::Texture.folder(), "textures");
    assert_eq!(AssetType::GameMap.folder(), "maps");
    assert_eq!(AssetType::Sprite.folder(), "sprites");
    assert_eq!(AssetType::Atlas.folder(), "atlases");
    assert_eq!(AssetType::Texture.extension(), "png");
    assert_eq!(AssetType::GameMap.extension(), "png");
    assert_eq!(AssetType::Sprite.extension(), "toml");
    assert_eq!(AssetType::Atlas.extension(), "toml");
    assert_eq!(AssetType::from_folder("sprites"), Some(AssetType::Sprite));
    assert_eq!(AssetType::from_folder("maps"), Some(AssetType::GameMap));
    assert_eq!(AssetType::from_folder("sounds"), None);
    assert_eq!(AssetType::GameMap.to_string(), "Map");
    assert_eq!(AssetType::Texture.to_string(), "Texture");
}

#[test]
fn get_id_of_texture() {
    let (t, id) = AssetType::get_id(SPath::new("gg2/textures/player/red.png")).unwrap();
    assert_eq!(t, AssetType::Texture);
    assert_eq!(id.to_string(), "gg2:player/red");
}

#[test]
fn get_id_cuts_at_first_dot() {
    let (t, id) = AssetType::get_id(SPath::new("pack/sprites/a.b.toml")).unwrap();
    assert_eq!(t, AssetType::Sprite);
    assert_eq!(id.get_namespace(), "pack");
    assert_eq!(id.get_path().as_str(), "a");
}

#[test]
fn get_id_keeps_name_without_extension() {
    let (t, id) = AssetType::get_id(SPath::new("gg2/maps/./ctf//truefort")).unwrap();
    assert_eq!(t, AssetType::GameMap);
    assert_eq!(id.to_string(), "gg2:ctf/truefort");
}

#[test]
fn get_id_refuses_unknown_folder() {
    match AssetType::get_id(SPath::new("gg2/sounds/x.ogg")) {
        Err(ResourceError::InvalidResourcePath(p)) => assert_eq!(p.as_str(), "gg2/sounds/x.ogg"),
        _ => panic!("expected an invalid resource path"),
    }
    assert!(AssetType::get_id(SPath::new("gg2")).is_err());
    assert!(AssetType::get_id(SPath::new("")).is_err());
}

fn team_sprite() -> SpriteContextAsset {
    SpriteContextAsset {
        branch: SpriteContextBranch::Condition(Box::new(SpriteContextCondition::Team {
            red: Some(SpriteContextBranch::Texture(gg2("red/test"))),
            blu: Some(SpriteContextBranch::Texture(gg2("blu/test"))),
            spectator: None,
        })),
    }
}

#[test]
fn sprite_picks_team_texture() {
    let sprite = team_sprite();
    assert_eq!(sprite.evaluate(Some(Team::Red)).map(|id| id.to_string()), Some("gg2:red/test".to_string()));
    assert_eq!(sprite.evaluate(Some(Team::Blu)).map(|id| id.to_string()), Some("gg2:blu/test".to_string()));
    assert!(sprite.evaluate(Some(Team::Spectator)).is_none());
    assert!(sprite.evaluate(None).is_none());
}

#[test]
fn sprite_root_texture_ignores_team() {
    let sprite = SpriteContextAsset {
        branch: SpriteContextBranch::Texture(gg2("test/path")),
    };
    assert_eq!(sprite.evaluate(None).map(|id| id.to_string()), Some("gg2:test/path".to_string()));
    assert_eq!(sprite.evaluate(Some(Team::Blu)).map(|id| id.to_string()), Some("gg2:test/path".to_string()));
}

#[test]
fn sprite_nested_conditions() {
    let inner = SpriteContextBranch::Condition(Box::new(SpriteContextCondition::Team {
        red: Some(SpriteContextBranch::Texture(gg2("inner/red"))),
        blu: None,
        spectator: None,
    }));
    let sprite = SpriteContextAsset {
        branch: SpriteContextBranch::Condition(Box::new(SpriteContextCondition::Team {
            red: Some(inner),
            blu: None,
            spectator: Some(SpriteContextBranch::Texture(gg2("spectator"))),
        })),
    };
    assert_eq!(sprite.evaluate(Some(Team::Red)).map(|id| id.to_string()), Some("gg2:inner/red".to_string()));
    assert_eq!(sprite.evaluate(Some(Team::Spectator)).map(|id| id.to_string()), Some("gg2:spectator".to_string()));
    assert!(sprite.evaluate(Some(Team::Blu)).is_none());
}

#[test]
fn sprite_frame_looks_up_picked_texture() {
    let atlas = TextureAtlas::from_frames(64, &vec![gg2("red/test/0"), gg2("red/test/1")], &vec![7u16, 8]);
    let sprite = team_sprite();
    assert_eq!(sprite_frame(&sprite, Some(Team::Red), &atlas).unwrap(), Some(7));
    assert_eq!(sprite_frame(&sprite, None, &atlas).unwrap(), None);
    match sprite_frame(&sprite, Some(Team::Blu), &atlas) {
        Err(AssetError::AtlasLookup(id)) => assert_eq!(id.to_string(), "gg2:blu/test"),
        _ => panic!("the blue texture is not on the atlas"),
    }
}

#[test]
fn found_file_is_where_its_asset_path_points() {
    for file in [
        "gg2/textures/player/red.png",
        "mod/sprites/hud/health.toml",
        "gg2/maps/ctf_truefort.png",
        "pack/atlases/a/b/c/sheet.toml",
    ] {
        let (t, id) = AssetType::get_id(SPath::new(file)).unwrap();
        assert_eq!(id.asset_path(t).as_str(), file);
    }
}
