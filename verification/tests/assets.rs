use skelanim::assets::AssetHandle;

#[test]
fn test_handle_creation() {
    let handle = AssetHandle::new(1, 42_i32);
    assert_eq!(*handle.get(), 42);
}

#[test]
fn test_handle_clone() {
    let handle1 = AssetHandle::new(1, "test".to_string());
    let handle2 = handle1.clone();
    assert_eq!(handle1.id(), handle2.id());
    assert_eq!(handle1.strong_count(), 2);
}

#[test]
fn handles_are_equal_by_identifier() {
    let a = AssetHandle::new(7, 1_u8);
    let b = AssetHandle::new(7, 2_u8);
    let c = AssetHandle::new(8, 1_u8);
    assert!(a == b);
    assert!(a != c);
    assert_eq!(a.id(), 7);
    assert_eq!(a.weak_count(), 0);
    assert_eq!(a.strong_count(), 1);
    let shared = a.clone();
    assert_eq!(*shared.get(), 1);
    assert_eq!(shared.strong_count(), 2);
    drop(shared);
    assert_eq!(a.strong_count(), 1);
}

#[test]
fn test_add_and_get() {
    let mut assets = skelanim::assets::Assets::<String>::new();
    let handle = assets.add("hello".to_string());

    let retrieved = assets.get(handle.id());
    assert!(retrieved.is_some());
    assert_eq!(*retrieved.unwrap().get(), "hello");
}

#[test]
fn test_path_deduplication() {
    let mut assets = skelanim::assets::Assets::<i32>::new();
    let handle1 = assets.add_with_path(42, "test/asset.txt");
    let handle2 = assets.add_with_path(100, "test/asset.txt");

    // Should return same handle (deduplication)
    assert_eq!(handle1.id(), handle2.id());
    assert_eq!(*handle1.get(), 42);
}

#[test]
fn storage_hands_out_rising_identifiers_from_one() {
    let mut assets = skelanim::assets::Assets::<u8>::default();
    assert!(assets.is_empty());
    let a = assets.add(10);
    let b = assets.add_with_path(20, "b");
    let c = assets.add(30);
    assert_eq!((a.id(), b.id(), c.id()), (1, 2, 3));
    assert_eq!(assets.len(), 3);
    assert!(!assets.is_empty());
    let all: Vec<(u64, u8)> = assets.iter().into_iter().map(|h| (h.id(), *h.get())).collect();
    assert_eq!(all, vec![(1, 10), (2, 20), (3, 30)]);
    // The storage holds a handle of its own to every asset.
    assert_eq!(a.strong_count(), 2);
}

#[test]
fn storage_finds_assets_by_path_until_they_are_removed() {
    let mut assets = skelanim::assets::Assets::<&'static str>::new();
    assert!(!assets.contains_path("mesh/cube"));
    assert!(assets.get_by_path("mesh/cube").is_none());
    let cube = assets.add_with_path("cube", "mesh/cube");
    let ball = assets.add_with_path("ball", "mesh/ball");
    assert!(assets.contains_path("mesh/cube"));
    assert_eq!(*assets.get_by_path("mesh/ball").unwrap().get(), "ball");
    assert!(assets.get(99).is_none());

    assert!(assets.remove(cube.id()));
    assert!(!assets.remove(cube.id()));
    assert!(!assets.contains_path("mesh/cube"));
    assert!(assets.get(cube.id()).is_none());
    assert!(assets.contains_path("mesh/ball"));
    assert_eq!(assets.len(), 1);

    // The path is free again: a new asset is stored under it.
    let again = assets.add_with_path("cube 2", "mesh/cube");
    assert!(again.id() != cube.id());
    assert_eq!(*assets.get_by_path("mesh/cube").unwrap().get(), "cube 2");

    assets.clear();
    assert!(assets.is_empty());
    assert!(!assets.contains_path("mesh/ball"));
    assert_eq!(*ball.get(), "ball");
}
