use gg2_custom::atlas::{sort_order, texture_atlas, AssetError, TextureAtlas};
use gg2_custom::texture::{read_texture, RgbaImage};
use gg2_custom::number::parses_as_usize;
use gg2_custom::resource::ResourceId;
use gg2_custom::spath::SPathBuf;

fn gg2(path: &str) -> ResourceId {
    ResourceId::gg2(SPathBuf::from_str(path))
}

#[test]
fn usize_text() {
    assert!(parses_as_usize("0"));
    assert!(parses_as_usize("12"));
    assert!(parses_as_usize("+7"));
    assert!(parses_as_usize("0007"));
    assert!(!parses_as_usize(""));
    assert!(!parses_as_usize("+"));
    assert!(!parses_as_usize("-1"));
    assert!(!parses_as_usize("1a"));
    assert!(!parses_as_usize(" 1"));
    assert!(parses_as_usize("18446744073709551615") == (usize::MAX as u128 >= 18446744073709551615u128));
    assert!(!parses_as_usize("18446744073709551616"));
    assert_eq!(parses_as_usize("4294967296"), "4294967296".parse::<usize>().is_ok());
}

#[test]
fn frames_group_into_sprites() {
    let ids = vec![gg2("player/run/0"), gg2("player/run/1"), gg2("player/idle"), gg2("hud/+2")];
    let frames = vec![10u32, 11, 20, 30];
    let atlas = TextureAtlas::from_frames(512, &ids, &frames);
    assert_eq!(atlas.lookup_sprite_many(&gg2("player/run")).unwrap(), &[10, 11]);
    assert_eq!(atlas.lookup_sprite(&gg2("player/run")).unwrap(), 10);
    assert_eq!(atlas.lookup_sprite(&gg2("player/idle")).unwrap(), 20);
    assert_eq!(atlas.lookup_sprite_many(&gg2("hud")).unwrap(), &[30]);
    assert_eq!(atlas.size, 512);
}

#[test]
fn lookup_of_missing_sprite_fails() {
    let ids = vec![gg2("player/run/0")];
    let atlas = TextureAtlas::from_frames(64, &ids, &vec![1u8]);
    match atlas.lookup_sprite(&gg2("player/run/0")) {
        Err(AssetError::AtlasLookup(id)) => assert_eq!(id.to_string(), "gg2:player/run/0"),
        _ => panic!("a frame is not a sprite of its own"),
    }
    assert!(atlas.lookup_sprite_many(&gg2("nothing")).is_err());
}

#[test]
fn lookup_matches_by_components() {
    let ids = vec![gg2("a/b")];
    let atlas = TextureAtlas::from_frames(64, &ids, &vec![5u8]);
    assert_eq!(atlas.lookup_sprite(&gg2("a//b/")).unwrap(), 5);
}

#[test]
fn extra_frames_or_ids_are_left_out() {
    let ids = vec![gg2("a"), gg2("b")];
    let atlas = TextureAtlas::from_frames(64, &ids, &vec![1u8]);
    assert!(atlas.lookup_sprite(&gg2("a")).is_ok());
    assert!(atlas.lookup_sprite(&gg2("b")).is_err());
}

#[test]
fn insert_frame_appends_last() {
    let mut atlas = TextureAtlas::from_frames(64, &vec![gg2("walk/0")], &vec![1u8]);
    atlas.insert_frame(gg2("walk/1"), 2);
    atlas.insert_frame(gg2("walk"), 3);
    assert_eq!(atlas.lookup_sprite_many(&gg2("walk")).unwrap(), &[1, 2, 3]);
}

#[test]
fn layout_order_sorts_stably() {
    let ids = vec![gg2("b/1"), gg2("a"), gg2("b/0"), ResourceId::new("a".to_string(), SPathBuf::from_str("z")), gg2("a")];
    assert_eq!(sort_order(&ids), vec![3, 1, 4, 2, 0]);
    let empty: Vec<ResourceId> = Vec::new();
    assert_eq!(sort_order(&empty), Vec::<usize>::new());
}

#[test]
fn animations_keep_frame_order_after_layout() {
    let ids = vec![gg2("run/2"), gg2("run/0"), gg2("run/1")];
    let order = sort_order(&ids);
    let sorted: Vec<ResourceId> = order.iter().map(|&i| ids[i].clone()).collect();
    let frames: Vec<usize> = order.clone();
    let atlas = TextureAtlas::from_frames(64, &sorted, &frames);
    assert_eq!(atlas.lookup_sprite_many(&gg2("run")).unwrap(), &[1, 2, 0]);
}

fn image(width: u32, height: u32) -> RgbaImage {
    RgbaImage { width, height, pixels: vec![255; (4 * width * height) as usize] }
}

#[test]
fn texture_atlas_places_every_texture() {
    let textures = vec![
        (gg2("run/1"), image(2, 2)),
        (gg2("idle"), image(3, 1)),
        (gg2("run/0"), image(2, 2)),
    ];
    let (atlas, page) = texture_atlas(16, textures).unwrap();
    assert_eq!((page.width, page.height), (16, 16));
    assert_eq!(page.pixels.len(), 4 * 16 * 16);
    let run = atlas.lookup_sprite_many(&gg2("run")).unwrap();
    assert_eq!(run.len(), 2);
    for rect in run {
        assert_eq!((rect.max_x - rect.min_x, rect.max_y - rect.min_y), (2, 2));
    }
    let idle = atlas.lookup_sprite(&gg2("idle")).unwrap();
    assert_eq!((idle.max_x - idle.min_x, idle.max_y - idle.min_y), (3, 1));
    assert_eq!(atlas.size, 16);
}

#[test]
fn texture_atlas_of_nothing_is_empty() {
    match texture_atlas(16, Vec::new()) {
        Err(AssetError::AtlasEmpty) => (),
        other => panic!("expected an empty atlas, got {:?}", other.map(|_| ())),
    }
}

#[test]
fn png_round_trip() {
    let mut source = image::RgbaImage::new(3, 2);
    source.put_pixel(1, 1, image::Rgba([1, 2, 3, 4]));
    let mut bytes = std::io::Cursor::new(Vec::new());
    source.write_to(&mut bytes, image::ImageFormat::Png).unwrap();
    let decoded = read_texture(bytes.get_ref()).unwrap();
    assert_eq!((decoded.width, decoded.height), (3, 2));
    assert_eq!(decoded.pixels, source.into_raw());
    assert!(read_texture(b"not a png").is_err());
}

#[test]
fn empty_atlas_by_default() {
    let atlas: TextureAtlas<u8> = TextureAtlas::default();
    assert_eq!(atlas.size, 0);
    assert!(atlas.lookup_sprite(&gg2("anything")).is_err());
}

#[test]
fn texture_atlas_overflows_one_page() {
    let textures = vec![(gg2("a"), image(16, 16)), (gg2("b"), image(16, 16))];
    match texture_atlas(16, textures) {
        Err(AssetError::AtlasOverflow) => (),
        other => panic!("expected an overflow, got {:?}", other.map(|_| ())),
    }
}

#[test]
fn texture_atlas_page_holds_the_texture_pixels() {
    let mut red = image(2, 2);
    for chunk in red.pixels.chunks_mut(4) {
        chunk.copy_from_slice(&[200, 10, 20, 255]);
    }
    let textures = vec![(gg2("blank"), image(1, 1)), (gg2("red"), red)];
    let (atlas, page) = texture_atlas(8, textures).unwrap();
    let rect = atlas.lookup_sprite(&gg2("red")).unwrap();
    let at = (4 * (rect.min_y * 8 + rect.min_x)) as usize;
    assert_eq!(&page.pixels[at..at + 4], &[200, 10, 20, 255]);
}
