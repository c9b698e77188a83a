//! The exclusive-access in-memory container of posts.

use vstd::prelude::*;

use crate::model::{Post, PostId, PostView};

verus! {

/// First post of `s` whose id is `id`, if any: the lookup `find` answers.
pub open spec fn spec_find(s: Seq<PostView>, id: u128) -> Option<PostView>
    decreases s.len(),
{
    if s.len() == 0 {
        None
    } else if s[0].id == id {
        Some(s[0])
    } else {
        spec_find(s.drop_first(), id)
    }
}

/// The views of a sequence of posts, in order.
pub open spec fn posts_view(v: Seq<Post>) -> Seq<PostView> {
    v.map_values(|p: Post| p@)
}

/// No two posts of `s` share an id.
pub open spec fn unique_ids(s: Seq<PostView>) -> bool {
    forall|i: int, j: int| 0 <= i < j < s.len() ==> s[i].id != s[j].id
}

/// Owns the ordered sequence of posts: insertion order is list order,
/// oldest first. Duplicate ids are accepted silently; `find` then reaches
/// only the first of them.
pub struct Store {
    posts: Vec<Post>,
}

impl View for Store {
    type V = Seq<PostView>;

    closed spec fn view(&self) -> Seq<PostView> {
        posts_view(self.posts@)
    }
}

impl Store {
    /// An empty store.
    pub fn new() -> (s: Store)
        ensures
            s@ == Seq::<PostView>::empty(),
    {
        let s = Store { posts: Vec::new() };
        proof {
            assert(s@ =~= Seq::<PostView>::empty());
        }
        s
    }

    /// Appends `post` at the end; never fails and never reorders.
    pub fn add(&mut self, post: Post)
        ensures
            final(self)@ == old(self)@.push(post@),
    {
        let ghost before = self@;
        let ghost pv = post@;
        self.posts.push(post);
        proof {
            assert(self@ =~= before.push(pv));
        }
    }

    /// A snapshot of all posts, in insertion order.
    pub fn list(&self) -> (r: Vec<Post>)
        ensures
            posts_view(r@) == self@,
    {
        let mut out: Vec<Post> = Vec::new();
        let n = self.posts.len();
        for i in 0..n
            invariant
                n == self.posts.len(),
                out@.len() == i,
                posts_view(out@) =~= self@.take(i as int),
        {
            out.push(self.posts[i].clone());
            proof {
                assert(out@[i as int]@ == self@[i as int]);
                assert(posts_view(out@) =~= self@.take(i + 1));
            }
        }
        proof {
            assert(self@.take(n as int) =~= self@);
        }
        out
    }

    /// How many posts the store holds.
    pub fn len(&self) -> (n: usize)
        ensures
            n == self@.len(),
    {
        self.posts.len()
    }

    /// Linear scan by id: the first post carrying `id`, or nothing.
    pub fn find(&self, id: PostId) -> (r: Option<Post>)
        ensures
            match r {
                Some(p) => spec_find(self@, id@) == Some(p@),
                None => spec_find(self@, id@) is None,
            },
    {
        let n = self.posts.len();
        proof {
            assert(self@.skip(0) =~= self@);
        }
        for i in 0..n
            invariant
                n == self.posts.len(),
                spec_find(self@, id@) == spec_find(self@.skip(i as int), id@),
        {
            if self.posts[i].id.value == id.value {
                proof {
                    assert(self@.skip(i as int)[0] == self@[i as int]);
                }
                return Some(self.posts[i].clone());
            }
            proof {
                assert(self@.skip(i as int).drop_first() =~= self@.skip(i + 1));
                assert(self@.skip(i as int)[0] == self@[i as int]);
            }
        }
        proof {
            assert(self@.skip(n as int) =~= Seq::<PostView>::empty());
        }
        None
    }
}

/// The contents after a run of `add` calls made one at a time in the given
/// order, each appending one post at the end as `Store::add` ensures.
pub open spec fn store_after(before: Seq<PostView>, added: Seq<PostView>) -> Seq<PostView>
    decreases added.len(),
{
    if added.len() == 0 {
        before
    } else {
        store_after(before.push(added[0]), added.drop_first())
    }
}

/// A run of `add` calls appends exactly the added posts, in call order:
/// none is lost, none reordered, and the store grows by exactly the number
/// of calls. Calls racing on the shared lock are serialized, so any group of
/// concurrent adds completes as such a run in some order.
pub proof fn lemma_adds_append_in_order(before: Seq<PostView>, added: Seq<PostView>)
    ensures
        store_after(before, added) == before + added,
        store_after(before, added).len() == before.len() + added.len(),
    decreases added.len(),
{
    if added.len() == 0 {
        assert(store_after(before, added) =~= before + added);
    } else {
        lemma_adds_append_in_order(before.push(added[0]), added.drop_first());
        assert(before.push(added[0]) + added.drop_first() =~= before + added);
    }
}

/// Every post that was added is found again under its id, as long as ids are
/// unique, and an id that no post carries is never found: `find` answers
/// membership exactly. With duplicate ids only the first duplicate is
/// reachable, which is why uniqueness is required for the first half.
pub proof fn lemma_find_is_membership(s: Seq<PostView>, p: PostView, id: u128)
    requires
        unique_ids(s),
    ensures
        s.contains(p) && p.id == id ==> spec_find(s, id) == Some(p),
        (forall|i: int| 0 <= i < s.len() ==> s[i].id != id) ==> spec_find(s, id) is None,
    decreases s.len(),
{
    if s.len() > 0 {
        assert(s.drop_first().len() == s.len() - 1);
        assert(unique_ids(s.drop_first())) by {
            assert(forall|i: int, j: int|
                0 <= i < j < s.drop_first().len() ==> s.drop_first()[i] == s[i + 1]
                    && s.drop_first()[j] == s[j + 1]);
        }
        lemma_find_is_membership(s.drop_first(), p, id);
        if s.contains(p) && p.id == id {
            let w = choose|w: int| 0 <= w < s.len() && s[w] == p;
            if s[0].id == id {
                assert(w == 0) by {
                    if w != 0 {
                        assert(s[0].id != s[w].id);
                    }
                }
                assert(spec_find(s, id) == Some(p));
            } else {
                assert(s.drop_first()[w - 1] == p);
                assert(s.drop_first().contains(p));
            }
        }
        if forall|i: int| 0 <= i < s.len() ==> s[i].id != id {
            assert(forall|i: int|
                0 <= i < s.drop_first().len() ==> s.drop_first()[i] == s[i + 1]);
        }
    }
}

} // verus!
