use blog::handlers::{create_response, feed_response, get_response, Handlers};
use blog::model::{Author, Post, PostId};
use blog::store::Store;

const WIRE_BODY: &str = "{\"id\":\"00000000-0000-0000-0000-000000000001\",\"title\":\"T\",\"body\":\"B\",\"author\":{\"name\":\"A\"},\"created_at\":\"2024-01-01T00:00:00Z\"}";

fn sample(id: u128, title: &str) -> Post {
    let author = Author::new("Me");
    Post::new(title, "body text", &author, "2024-01-01T00:00:00Z", PostId::new(id))
}

#[test]
fn create_then_get_round_trip() {
    let handlers = Handlers::new(Store::new());
    let created = handlers.make_post.handle(WIRE_BODY);
    assert_eq!(created.status, 201);
    assert_eq!(created.body, WIRE_BODY);
    let fetched = handlers.post.handle(PostId::new(1));
    assert_eq!(fetched.status, 200);
    assert_eq!(fetched.body, WIRE_BODY);
}

#[test]
fn create_bad_payload_is_400() {
    let handlers = Handlers::new(Store::new());
    let rejected = handlers.make_post.handle("not json");
    assert_eq!(rejected.status, 400);
    assert_eq!(rejected.body, "invalid post payload");
    let feed = handlers.feed.handle();
    assert_eq!(feed.body, "[]");
}

#[test]
fn get_missing_is_404_with_empty_body() {
    let handlers = Handlers::new(Store::new());
    let missing = handlers.post.handle(PostId::new(42));
    assert_eq!(missing.status, 404);
    assert_eq!(missing.body, "");
}

#[test]
fn feed_of_empty_store_is_200_empty_array() {
    let handlers = Handlers::new(Store::new());
    let feed = handlers.feed.handle();
    assert_eq!(feed.status, 200);
    assert_eq!(feed.body, "[]");
}

#[test]
fn repeated_feed_reads_are_identical() {
    let handlers = Handlers::new(Store::new());
    handlers.make_post.handle(WIRE_BODY);
    let first = handlers.feed.handle();
    let second = handlers.feed.handle();
    assert_eq!(first.status, second.status);
    assert_eq!(first.body, second.body);
}

#[test]
fn feed_lists_creates_in_order() {
    let mut store = Store::new();
    store.add(sample(1, "first"));
    store.add(sample(2, "second"));
    let handlers = Handlers::new(store);
    let feed = handlers.feed.handle();
    assert_eq!(feed.status, 200);
    let first_at = feed.body.find("first").expect("first post listed");
    let second_at = feed.body.find("second").expect("second post listed");
    assert!(first_at < second_at);
}

#[test]
fn create_response_appends_exactly_one_post() {
    let mut store = Store::new();
    let created = create_response(&mut store, WIRE_BODY);
    assert_eq!(created.status, 201);
    assert_eq!(store.len(), 1);
    let rejected = create_response(&mut store, "{");
    assert_eq!(rejected.status, 400);
    assert_eq!(store.len(), 1);
}

#[test]
fn many_distinct_creates_are_all_kept() {
    let mut store = Store::new();
    for i in 0..5u128 {
        let body = format!(
            "{{\"id\":\"00000000-0000-0000-0000-00000000000{}\",\"title\":\"T{}\",\"body\":\"B\",\"author\":{{\"name\":\"A\"}},\"created_at\":\"2024-01-01T00:00:00Z\"}}",
            i, i
        );
        let created = create_response(&mut store, &body);
        assert_eq!(created.status, 201);
    }
    assert_eq!(store.len(), 5);
    for i in 0..5u128 {
        let found = get_response(&store, PostId::new(i));
        assert_eq!(found.status, 200);
    }
}

#[test]
fn get_response_serializes_found_post() {
    let mut store = Store::new();
    let created = create_response(&mut store, WIRE_BODY);
    assert_eq!(created.status, 201);
    let found = get_response(&store, PostId::new(1));
    assert_eq!(found.status, 200);
    assert_eq!(found.body, WIRE_BODY);
    let feed = feed_response(&store);
    assert_eq!(feed.status, 200);
    assert_eq!(feed.body, format!("[{}]", WIRE_BODY));
}
