use dir2::favorites::{Favorite, FavoritesManager, MAX_FAVORITES};

#[test]
fn favorite_alias_is_file_name() {
    let f = Favorite::from("/home/u/run.sh".to_string());
    assert_eq!(f.get_alias_name(), "run.sh");
    assert_eq!(f.get_path(), "/home/u/run.sh");
}

#[test]
fn favorite_without_file_name_is_unknown() {
    let f = Favorite::from("/".to_string());
    assert_eq!(f.get_alias_name(), "unknown");
}

#[test]
fn add_rejects_duplicate_alias() {
    let mut m = FavoritesManager::with_favorites("favs.json".to_string(), Vec::new());
    assert!(m.is_empty());
    assert!(m.add(Favorite::new("a".to_string(), "/x/a".to_string())).is_ok());
    assert_eq!(
        m.add(Favorite::new("a".to_string(), "/y/a".to_string())).unwrap_err(),
        "Favorite with alias 'a' already exists"
    );
    assert_eq!(m.len(), 1);
    assert_eq!(m.get_by_index(0).unwrap().get_path(), "/x/a");
    assert!(m.get_by_index(1).is_none());
}

#[test]
fn remove_by_index() {
    let mut m = FavoritesManager::with_favorites(
        "favs.json".to_string(),
        vec![
            Favorite::new("a".to_string(), "/a".to_string()),
            Favorite::new("b".to_string(), "/b".to_string()),
        ],
    );
    assert_eq!(m.remove(2).unwrap_err(), "Index out of range: 2");
    assert_eq!(m.remove(17).unwrap_err(), "Index out of range: 17");
    assert!(m.remove(0).is_ok());
    assert_eq!(m.len(), 1);
    assert_eq!(m.get_all()[0].get_alias_name(), "b");
    assert_eq!(m.file_path(), "favs.json");
}

#[test]
fn list_is_full_at_capacity() {
    let mut m = FavoritesManager::with_favorites("f".to_string(), Vec::new());
    for i in 0..MAX_FAVORITES {
        assert!(!m.is_full());
        assert!(m.add(Favorite::new(format!("n{}", i), format!("/p{}", i))).is_ok());
    }
    assert!(m.is_full());
}
