//! The three request operations over the shared store.
//!
//! Each handler owns a handle to the one store, behind a verified
//! reader-writer lock, and turns one request into one response. The response
//! bodies are fixed exactly by the codec's specification functions.

use std::sync::Arc;

use vstd::prelude::*;
use vstd::rwlock::{RwLock, RwLockPredicate};

use crate::codec::{
    encode_feed, encode_post, feed_json, lemma_post_roundtrip, parse_post, parse_post_chars,
    post_json, str_chars,
};
use crate::model::{Post, PostId, PostView};
use crate::store::{lemma_find_is_membership, spec_find, unique_ids, Store};

verus! {

/// Description sent with a rejected create payload.
pub const INVALID_POST_PAYLOAD: &'static str = "invalid post payload";

/// One HTTP-shaped answer: a status code and a body.
pub struct Response {
    pub status: u16,
    pub body: String,
}

/// Any store may sit in the shared lock: the store keeps its own shape.
pub struct StorePred;

impl RwLockPredicate<Store> for StorePred {
    open spec fn inv(self, v: Store) -> bool {
        true
    }
}

/// The one store, shared by every operation behind an exclusive-writer lock.
pub type SharedStore = Arc<RwLock<Store, StorePred>>;

/// Relies on Arc::clone: yields another handle to the same shared lock.
#[verifier::external_body]
fn share(database: &SharedStore) -> (r: SharedStore)
    ensures
        r == *database,
{
    database.clone()
}

/// Lists the whole feed: always succeeds, body fixed by the store contents.
pub fn feed_response(store: &Store) -> (r: Response)
    ensures
        r.status == 200,
        r.body@ == feed_json(store@),
{
    let posts = store.list();
    Response { status: 200, body: encode_feed(&posts) }
}

/// Applies one create request: a well-formed payload is appended and echoed
/// back verbatim under 201; anything else leaves the store untouched and is
/// rejected under 400 with a description.
pub fn create_response(store: &mut Store, payload: &str) -> (r: Response)
    ensures
        match parse_post_chars(payload@) {
            Some(p) => r.status == 201 && r.body@ == payload@ && final(store)@ == old(
                store,
            )@.push(p),
            None => r.status == 400 && r.body@ == INVALID_POST_PAYLOAD@ && final(store)@ == old(
                store,
            )@,
        },
{
    let chars = str_chars(payload);
    match parse_post(&chars) {
        Some(post) => {
            store.add(post);
            Response { status: 201, body: payload.to_owned() }
        },
        None => Response { status: 400, body: INVALID_POST_PAYLOAD.to_owned() },
    }
}

/// Answers one lookup: the first post under the id, serialized, or 404 with
/// an empty body when no post carries it.
pub fn get_response(store: &Store, id: PostId) -> (r: Response)
    ensures
        match spec_find(store@, id@) {
            Some(p) => r.status == 200 && r.body@ == post_json(p),
            None => r.status == 404 && r.body@ == Seq::<char>::empty(),
        },
{
    match store.find(id) {
        Some(post) => Response { status: 200, body: encode_post(&post) },
        None => Response { status: 404, body: String::new() },
    }
}

/// Serves the feed route.
pub struct FeedHandler {
    database: SharedStore,
}

impl FeedHandler {
    /// The shared lock this handler reads.
    pub closed spec fn db(&self) -> SharedStore {
        self.database
    }

    pub fn new(database: SharedStore) -> (h: FeedHandler)
        ensures
            h.db() == database,
    {
        FeedHandler { database }
    }

    /// Lists all posts of some consistent snapshot of the shared store.
    pub fn handle(&self) -> (r: Response)
        ensures
            r.status == 200,
            exists|s: Seq<PostView>| r.body@ == feed_json(s),
    {
        let read = self.database.acquire_read();
        let r = feed_response(read.borrow());
        read.release_read();
        r
    }
}

/// Serves the create route.
pub struct MakePostHandler {
    database: SharedStore,
}

impl MakePostHandler {
    /// The shared lock this handler writes.
    pub closed spec fn db(&self) -> SharedStore {
        self.database
    }

    pub fn new(database: SharedStore) -> (h: MakePostHandler)
        ensures
            h.db() == database,
    {
        MakePostHandler { database }
    }

    /// Appends the post carried by `payload` to the shared store and echoes
    /// the payload, or rejects it without touching the store.
    pub fn handle(&self, payload: &str) -> (r: Response)
        ensures
            parse_post_chars(payload@) is Some ==> r.status == 201 && r.body@ == payload@,
            parse_post_chars(payload@) is None ==> r.status == 400 && r.body@
                == INVALID_POST_PAYLOAD@,
    {
        let (mut store, write) = self.database.acquire_write();
        let r = create_response(&mut store, payload);
        write.release_write(store);
        r
    }
}

/// Serves the single-post route.
pub struct PostHandler {
    database: SharedStore,
}

impl PostHandler {
    /// The shared lock this handler reads.
    pub closed spec fn db(&self) -> SharedStore {
        self.database
    }

    pub fn new(database: SharedStore) -> (h: PostHandler)
        ensures
            h.db() == database,
    {
        PostHandler { database }
    }

    /// The first post under `id` in some consistent snapshot of the store.
    pub fn find_post(&self, id: PostId) -> (r: Option<Post>)
        ensures
            exists|s: Seq<PostView>|
                match r {
                    Some(p) => spec_find(s, id@) == Some(p@),
                    None => spec_find(s, id@) is None,
                },
    {
        let read = self.database.acquire_read();
        let r = read.borrow().find(id);
        proof {
            let ghost snapshot = read.view()@;
            assert(match r {
                Some(p) => spec_find(snapshot, id@) == Some(p@),
                None => spec_find(snapshot, id@) is None,
            });
        }
        read.release_read();
        r
    }

    /// Against one consistent snapshot of the shared store: the first post
    /// under `id`, serialized under 200, or 404 with an empty body when the
    /// snapshot holds no post under it.
    pub fn handle(&self, id: PostId) -> (r: Response)
        ensures
            exists|s: Seq<PostView>|
                match #[trigger] spec_find(s, id@) {
                    Some(p) => r.status == 200 && r.body@ == post_json(p),
                    None => r.status == 404 && r.body@ == Seq::<char>::empty(),
                },
            r.status == 200 || r.status == 404,
    {
        let read = self.database.acquire_read();
        let r = get_response(read.borrow(), id);
        proof {
            let ghost snapshot = read.view()@;
            assert(match spec_find(snapshot, id@) {
                Some(p) => r.status == 200 && r.body@ == post_json(p),
                None => r.status == 404 && r.body@ == Seq::<char>::empty(),
            });
        }
        read.release_read();
        r
    }
}

/// The three handlers, wired once around one shared store.
pub struct Handlers {
    pub feed: FeedHandler,
    pub make_post: MakePostHandler,
    pub post: PostHandler,
}

impl Handlers {
    /// Exactly one store is shared: all three handlers leave with the same
    /// lock, so a post created through one is seen by the others.
    pub fn new(database: Store) -> (h: Handlers)
        ensures
            h.feed.db() == h.make_post.db(),
            h.make_post.db() == h.post.db(),
    {
        let database: SharedStore = Arc::new(RwLock::new(database, Ghost(StorePred)));
        Handlers {
            feed: FeedHandler::new(share(&database)),
            make_post: MakePostHandler::new(share(&database)),
            post: PostHandler::new(database),
        }
    }
}

/// A post sent in its wire form is accepted, stored, and served back under
/// its id exactly as it was sent: `create_response` on `post_json(p)`
/// answers 201 and appends `p`, and `find` on the grown store answers `p`
/// again, whose serialized form is that same text. Requires the ids to stay
/// unique; a duplicate id would leave the new post shadowed by the first.
pub proof fn lemma_create_then_get(before: Seq<PostView>, p: PostView)
    requires
        unique_ids(before.push(p)),
    ensures
        parse_post_chars(post_json(p)) == Some(p),
        spec_find(before.push(p), p.id) == Some(p),
{
    lemma_post_roundtrip(p);
    assert(before.push(p).contains(p)) by {
        assert(before.push(p)[before.len() as int] == p);
    }
    lemma_find_is_membership(before.push(p), p, p.id);
}

/// Feed reads are idempotent: the body is a function of the store contents
/// alone, so two reads with no add between them answer the same text.
pub proof fn lemma_feed_idempotent(s: Seq<PostView>, b1: Seq<char>, b2: Seq<char>)
    requires
        b1 == feed_json(s),
        b2 == feed_json(s),
    ensures
        b1 == b2,
{
}

} // verus!
