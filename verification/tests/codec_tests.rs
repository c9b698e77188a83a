use blog::codec::{decode_post, encode_feed, encode_post, parse_post_id};
use blog::model::{Author, Post, PostId};

const WIRE_BODY: &str = "{\"id\":\"00000000-0000-0000-0000-000000000001\",\"title\":\"T\",\"body\":\"B\",\"author\":{\"name\":\"A\"},\"created_at\":\"2024-01-01T00:00:00Z\"}";

fn sample_post() -> Post {
    let author = Author::new("A");
    Post::new("T", "B", &author, "2024-01-01T00:00:00Z", PostId::new(1))
}

#[test]
fn encode_post_exact_wire_form() {
    let encoded = encode_post(&sample_post());
    assert_eq!(encoded, WIRE_BODY);
}

#[test]
fn decode_valid_body() {
    let post = decode_post(WIRE_BODY).expect("well-formed body must decode");
    assert_eq!(post.id.value, 1u128);
    assert_eq!(post.title, "T");
    assert_eq!(post.body, "B");
    assert_eq!(post.author.name, "A");
    assert_eq!(post.created_at, "2024-01-01T00:00:00Z");
}

#[test]
fn decode_then_encode_round_trips() {
    let post = decode_post(WIRE_BODY).expect("well-formed body must decode");
    assert_eq!(encode_post(&post), WIRE_BODY);
}

#[test]
fn decode_accepts_whitespace_between_tokens() {
    let spaced = "{ \"id\" : \"00000000-0000-0000-0000-000000000001\" ,\n \"title\" : \"T\" , \"body\" : \"B\" , \"author\" : { \"name\" : \"A\" } , \"created_at\" : \"2024-01-01T00:00:00Z\" }\n";
    let post = decode_post(spaced).expect("whitespace is insignificant");
    assert_eq!(post.title, "T");
    assert_eq!(post.id.value, 1u128);
}

#[test]
fn decode_rejects_not_json() {
    assert!(decode_post("not json").is_none());
}

#[test]
fn decode_rejects_missing_member() {
    let truncated = "{\"id\":\"00000000-0000-0000-0000-000000000001\",\"title\":\"T\",\"body\":\"B\",\"author\":{\"name\":\"A\"}}";
    assert!(decode_post(truncated).is_none());
}

#[test]
fn decode_rejects_bad_uuid() {
    let bad = "{\"id\":\"zz000000-0000-0000-0000-000000000001\",\"title\":\"T\",\"body\":\"B\",\"author\":{\"name\":\"A\"},\"created_at\":\"2024-01-01T00:00:00Z\"}";
    assert!(decode_post(bad).is_none());
}

#[test]
fn decode_rejects_trailing_text() {
    let trailing = format!("{} extra", WIRE_BODY);
    assert!(decode_post(&trailing).is_none());
}

#[test]
fn escaped_characters_round_trip() {
    let author = Author::new("A\\B");
    let post = Post::new(
        "say \"hi\"",
        "line\nbreak",
        &author,
        "2024-01-01T00:00:00Z",
        PostId::new(0xDEADBEEF_u128),
    );
    let encoded = encode_post(&post);
    assert!(encoded.contains("say \\\"hi\\\""));
    assert!(encoded.contains("line\\u000abreak"));
    assert!(encoded.contains("A\\\\B"));
    let back = decode_post(&encoded).expect("every encoded post decodes");
    assert_eq!(back.title, "say \"hi\"");
    assert_eq!(back.body, "line\nbreak");
    assert_eq!(back.author.name, "A\\B");
    assert_eq!(back.id.value, 0xDEADBEEF_u128);
}

#[test]
fn decode_reads_simple_escapes() {
    let body = "{\"id\":\"00000000-0000-0000-0000-000000000001\",\"title\":\"a\\tb\\/c\",\"body\":\"B\",\"author\":{\"name\":\"A\"},\"created_at\":\"2024-01-01T00:00:00Z\"}";
    let post = decode_post(body).expect("simple escapes decode");
    assert_eq!(post.title, "a\tb/c");
}

#[test]
fn decode_reads_unicode_escape() {
    let body = "{\"id\":\"00000000-0000-0000-0000-000000000001\",\"title\":\"\\u0041\\u00e9\",\"body\":\"B\",\"author\":{\"name\":\"A\"},\"created_at\":\"2024-01-01T00:00:00Z\"}";
    let post = decode_post(body).expect("unicode escapes decode");
    assert_eq!(post.title, "A\u{e9}");
}

#[test]
fn decode_rejects_surrogate_escape() {
    let body = "{\"id\":\"00000000-0000-0000-0000-000000000001\",\"title\":\"\\ud834\",\"body\":\"B\",\"author\":{\"name\":\"A\"},\"created_at\":\"2024-01-01T00:00:00Z\"}";
    assert!(decode_post(body).is_none());
}

#[test]
fn encode_feed_empty_is_empty_array() {
    let posts: Vec<Post> = Vec::new();
    assert_eq!(encode_feed(&posts), "[]");
}

#[test]
fn encode_feed_joins_posts_in_order() {
    let author = Author::new("A");
    let first = Post::new("T1", "B1", &author, "2024-01-01T00:00:00Z", PostId::new(1));
    let second = Post::new("T2", "B2", &author, "2024-01-02T00:00:00Z", PostId::new(2));
    let expected = format!("[{},{}]", encode_post(&first), encode_post(&second));
    let posts = vec![first, second];
    assert_eq!(encode_feed(&posts), expected);
}

#[test]
fn parse_post_id_reads_hyphenated_form() {
    let id = parse_post_id("00000000-0000-0000-0000-0000deadbeef").expect("valid id parses");
    assert_eq!(id.value, 0xDEADBEEF_u128);
    let upper = parse_post_id("00000000-0000-0000-0000-0000DEADBEEF").expect("either case parses");
    assert_eq!(upper.value, 0xDEADBEEF_u128);
}

#[test]
fn parse_post_id_rejects_malformed_forms() {
    assert!(parse_post_id("").is_none());
    assert!(parse_post_id("not an id").is_none());
    assert!(parse_post_id("00000000-0000-0000-0000-0000deadbee").is_none());
    assert!(parse_post_id("000000000000-0000-0000-0000-00deadbeef").is_none());
}

#[test]
fn encode_uuid_uses_full_width() {
    let author = Author::new("A");
    let post = Post::new(
        "T",
        "B",
        &author,
        "2024-01-01T00:00:00Z",
        PostId::new(u128::MAX),
    );
    let encoded = encode_post(&post);
    assert!(encoded.contains("ffffffff-ffff-ffff-ffff-ffffffffffff"));
    let back = decode_post(&encoded).expect("every encoded post decodes");
    assert_eq!(back.id.value, u128::MAX);
}
