use open_tcg::images::{ImageManager, DEFAULT_LARGE_SCALE, DEFAULT_SMALL_SCALE};
use open_tcg::names::NameMap;

#[test]
fn image_path_follows_set_code() {
    assert_eq!(ImageManager::<u8>::image_path("LOB-001"), "images/LOB-001.png");
    assert_eq!(ImageManager::<u8>::image_path("proxy"), "images/proxy.png");
}

#[test]
fn images_are_kept_once_both_sizes_exist() {
    let mut images: ImageManager<&str> = ImageManager::new();
    assert_eq!((images.small_scale, images.large_scale), (DEFAULT_SMALL_SCALE, DEFAULT_LARGE_SCALE));
    assert_eq!((DEFAULT_SMALL_SCALE, DEFAULT_LARGE_SCALE), (100, 250));
    assert!(images.needs_image("A"));
    images.load_image("A", Some("small"), None);
    assert!(images.needs_image("A"));
    images.load_image("A", Some("small"), Some("large"));
    assert!(!images.needs_image("A"));
    assert_eq!(images.get_small_image("A"), Some(&"small"));
    assert_eq!(images.get_large_image("A"), Some(&"large"));
    images.load_image("A", Some("other"), Some("other"));
    assert_eq!(images.get_small_image("A"), Some(&"small"));
    images.unload_image("A");
    assert_eq!(images.get_large_image("A"), None);
    assert!(images.needs_image("A"));
}

#[test]
fn name_map_keeps_first_insertion_order() {
    let mut m = NameMap::new();
    m.insert("b".to_string(), 1);
    m.insert("a".to_string(), 2);
    m.insert("b".to_string(), 3);
    assert_eq!(m.len(), 2);
    assert_eq!(m.name_at(0), "b");
    assert_eq!(*m.value_at(0), 3);
    assert!(m.contains_key("a"));
    m.remove("b");
    assert_eq!(m.len(), 1);
    assert_eq!(m.name_at(0), "a");
    m.remove("zzz");
    assert_eq!(m.len(), 1);
}
