//! The data entities: an author, a post identifier, and a post.

use vstd::prelude::*;

verus! {

/// The author of a post: a display name, owned by value by each post.
pub struct Author {
    pub name: String,
}

/// Mathematical image of an [`Author`].
pub struct AuthorView {
    pub name: Seq<char>,
}

impl View for Author {
    type V = AuthorView;

    open spec fn view(&self) -> AuthorView {
        AuthorView { name: self.name@ }
    }
}

impl Author {
    pub fn new(name: &str) -> (a: Author)
        ensures
            a@.name == name@,
    {
        Author { name: name.to_owned() }
    }
}

impl Clone for Author {
    fn clone(&self) -> (r: Self)
        ensures
            r@ == self@,
    {
        Author { name: self.name.clone() }
    }
}

/// A post identifier: the 128 bits of a UUID, most significant byte first.
#[derive(Clone, Copy, PartialEq, Eq, Structural)]
pub struct PostId {
    pub value: u128,
}

impl View for PostId {
    type V = u128;

    open spec fn view(&self) -> u128 {
        self.value
    }
}

impl PostId {
    pub fn new(value: u128) -> (r: PostId)
        ensures
            r@ == value,
    {
        PostId { value }
    }
}

/// One authored post. Immutable once created; `id` is the sole lookup key.
pub struct Post {
    pub id: PostId,
    pub title: String,
    pub body: String,
    pub author: Author,
    pub created_at: String,
}

/// Mathematical image of a [`Post`].
pub struct PostView {
    pub id: u128,
    pub title: Seq<char>,
    pub body: Seq<char>,
    pub author: AuthorView,
    pub created_at: Seq<char>,
}

impl View for Post {
    type V = PostView;

    open spec fn view(&self) -> PostView {
        PostView {
            id: self.id@,
            title: self.title@,
            body: self.body@,
            author: self.author@,
            created_at: self.created_at@,
        }
    }
}

impl Post {
    pub fn new(title: &str, body: &str, author: &Author, created_at: &str, id: PostId) -> (p: Post)
        ensures
            p@.id == id@,
            p@.title == title@,
            p@.body == body@,
            p@.author == author@,
            p@.created_at == created_at@,
    {
        Post {
            id,
            title: title.to_owned(),
            body: body.to_owned(),
            author: author.clone(),
            created_at: created_at.to_owned(),
        }
    }
}

impl Clone for Post {
    fn clone(&self) -> (r: Self)
        ensures
            r@ == self@,
    {
        Post {
            id: self.id,
            title: self.title.clone(),
            body: self.body.clone(),
            author: self.author.clone(),
            created_at: self.created_at.clone(),
        }
    }
}

} // verus!
