use gg2_custom::asset::AssetType;
use gg2_custom::resource::{ResourceError, ResourceId, DEFAULT_NAMESPACE};
use gg2_custom::spath::SPathBuf;

fn id(namespace: &str, path: &str) -> ResourceId {
    ResourceId::new(namespace.to_string(), SPathBuf::from_str(path))
}

#[test]
fn id_text_is_namespace_colon_path() {
    assert_eq!(ResourceId::gg2(SPathBuf::from_str("player/red")).to_string(), "gg2:player/red");
    assert_eq!(id("mod", "a/b").to_string(), "mod:a/b");
    assert_eq!(DEFAULT_NAMESPACE, "gg2");
}

#[test]
fn id_parses_at_first_colon() {
    let parsed = ResourceId::from_str("mod:a:b/c").unwrap();
    assert_eq!(parsed.get_namespace(), "mod");
    assert_eq!(parsed.get_path().as_str(), "a:b/c");
    let empty = ResourceId::from_str(":x").unwrap();
    assert_eq!(empty.get_namespace(), "");
    assert_eq!(empty.get_path().as_str(), "x");
}

#[test]
fn id_without_colon_is_refused() {
    match ResourceId::from_str("no-namespace") {
        Err(ResourceError::IdNamespace(s)) => assert_eq!(s, "no-namespace"),
        _ => panic!("expected a namespace error"),
    }
}

#[test]
fn id_text_round_trip() {
    let first = id("gg2", "sprites/player");
    let back = ResourceId::from_str(&first.to_string()).unwrap();
    assert!(back == first);
    assert_eq!(back.to_string(), "gg2:sprites/player");
}

#[test]
fn ids_equal_by_namespace_and_components() {
    assert!(id("gg2", "a//b/") == id("gg2", "a/b"));
    assert!(id("gg2", "a/b") != id("mod", "a/b"));
    assert!(id("gg2", "a/b") != id("gg2", "a/c"));
    assert!(id("gg2", "a").clone() == id("gg2", "a"));
}

#[test]
fn ids_order_by_namespace_then_path() {
    assert!(id("a", "z") < id("b", "a"));
    assert!(id("gg2", "player/1") < id("gg2", "player/2"));
    assert!(id("gg2", "player") < id("gg2", "player/1"));
    assert!(id("gg2", "b") > id("gg2", "a/z"));
}

#[test]
fn id_file_name_and_pop() {
    let mut frame = id("gg2", "player/run/3");
    assert_eq!(frame.file_name(), Some("3"));
    assert!(frame.pop());
    assert_eq!(frame.to_string(), "gg2:player/run");
    assert_eq!(frame.get_namespace(), "gg2");
    let mut root = id("gg2", "");
    assert_eq!(root.file_name(), None);
    assert!(!root.pop());
}

#[test]
fn set_extension_replaces_last_extension() {
    let mut p = SPathBuf::from_str("a/b.txt");
    assert!(p.set_extension("png"));
    assert_eq!(p.as_str(), "a/b.png");
    let mut p = SPathBuf::from_str("a/b.tar.gz");
    assert!(p.set_extension("png"));
    assert_eq!(p.as_str(), "a/b.tar.png");
    let mut p = SPathBuf::from_str("a/b");
    assert!(p.set_extension("toml"));
    assert_eq!(p.as_str(), "a/b.toml");
}

#[test]
fn set_extension_edge_cases() {
    let mut hidden = SPathBuf::from_str("a/.bashrc");
    assert!(hidden.set_extension("png"));
    assert_eq!(hidden.as_str(), "a/.bashrc.png");
    let mut trailing = SPathBuf::from_str("a/b.txt/./");
    assert!(trailing.set_extension("png"));
    assert_eq!(trailing.as_str(), "a/b.png");
    let mut removed = SPathBuf::from_str("a/b.txt");
    assert!(removed.set_extension(""));
    assert_eq!(removed.as_str(), "a/b");
    let mut root = SPathBuf::from_str("/");
    assert!(!root.set_extension("png"));
    assert_eq!(root.as_str(), "/");
    let mut parent = SPathBuf::from_str("a/..");
    assert!(!parent.set_extension("png"));
    assert_eq!(parent.as_str(), "a/..");
}

#[test]
fn asset_paths() {
    let texture = ResourceId::gg2(SPathBuf::from_str("player/red"));
    assert_eq!(texture.asset_path(AssetType::Texture).as_str(), "gg2/textures/player/red.png");
    let sprite = id("mod", "hud//health/");
    assert_eq!(sprite.asset_path(AssetType::Sprite).as_str(), "mod/sprites/hud/health.toml");
    let map = id("gg2", "ctf_truefort");
    assert_eq!(map.asset_path(AssetType::GameMap).as_str(), "gg2/maps/ctf_truefort.png");
}
