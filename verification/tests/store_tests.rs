use blog::model::{Author, Post, PostId};
use blog::store::Store;

fn sample(id: u128, title: &str) -> Post {
    let author = Author::new("Me");
    Post::new(title, "body text", &author, "2024-01-01T00:00:00Z", PostId::new(id))
}

#[test]
fn list_returns_adds_in_order() {
    let mut store = Store::new();
    store.add(sample(1, "first"));
    store.add(sample(2, "second"));
    store.add(sample(3, "third"));
    let posts = store.list();
    assert_eq!(posts.len(), 3);
    assert_eq!(posts[0].title, "first");
    assert_eq!(posts[1].title, "second");
    assert_eq!(posts[2].title, "third");
}

#[test]
fn list_of_empty_store_is_empty() {
    let store = Store::new();
    assert!(store.list().is_empty());
    assert_eq!(store.len(), 0);
}

#[test]
fn find_returns_added_post() {
    let mut store = Store::new();
    store.add(sample(7, "seven"));
    store.add(sample(8, "eight"));
    let found = store.find(PostId::new(8)).expect("post 8 was added");
    assert_eq!(found.title, "eight");
    assert_eq!(found.id.value, 8u128);
}

#[test]
fn find_missing_id_is_none() {
    let mut store = Store::new();
    store.add(sample(7, "seven"));
    assert!(store.find(PostId::new(9)).is_none());
}

#[test]
fn find_with_duplicate_ids_returns_first() {
    let mut store = Store::new();
    store.add(sample(1, "kept"));
    store.add(sample(1, "shadowed"));
    let posts = store.list();
    assert_eq!(posts.len(), 2);
    let found = store.find(PostId::new(1)).expect("first duplicate is found");
    assert_eq!(found.title, "kept");
}

#[test]
fn distinct_adds_grow_store_by_one_each() {
    let mut store = Store::new();
    for i in 0..10u128 {
        store.add(sample(i, "post"));
        assert_eq!(store.len(), (i + 1) as usize);
    }
    assert_eq!(store.len(), 10);
}
