//! Reader comments: grouped by article slug, rate-limited per address,
//! and serialised line by line elsewhere.

use vstd::prelude::*;
use vstd::string::StringExecFns;
use crate::strutil::str_eq;

verus! {

/// The rate limit between comments from one address, in milliseconds.
pub const COMMENT_RATE_LIMIT_MS: i64 = 2000;

/// One comment as shown under an article.
#[derive(Debug)]
pub struct Comment {
    pub text: String,
    pub author: String,
    pub author_url: String,
    pub timestamp: i64,
}

impl Clone for Comment {
    /// A clone carries the same comment.
    fn clone(&self) -> (res: Self)
        ensures
            res == *self,
    {
        Comment {
            text: self.text.clone(),
            author: self.author.clone(),
            author_url: self.author_url.clone(),
            timestamp: self.timestamp,
        }
    }
}

impl Comment {
    /// The comment a stored line carries.
    pub fn from_comment_line(cline: &CommentLine) -> (r: Comment)
        ensures
            r.text == cline.text,
            r.author == cline.author,
            r.author_url == cline.author_url,
            r.timestamp == cline.timestamp,
    {
        Comment {
            text: cline.text.clone(),
            author: cline.author.clone(),
            author_url: cline.author_url.clone(),
            timestamp: cline.timestamp,
        }
    }
}

/// One stored comment line: a comment tagged with its article's slug.
#[derive(Debug)]
pub struct CommentLine {
    pub slug: String,
    pub text: String,
    pub author: String,
    pub author_url: String,
    pub timestamp: i64,
}

impl Clone for CommentLine {
    /// A clone carries the same line.
    fn clone(&self) -> (res: Self)
        ensures
            res == *self,
    {
        CommentLine {
            slug: self.slug.clone(),
            text: self.text.clone(),
            author: self.author.clone(),
            author_url: self.author_url.clone(),
            timestamp: self.timestamp,
        }
    }
}

impl CommentLine {
    /// The stored form of a comment under the given slug.
    pub fn from_comment(c: &Comment, slug: &str) -> (r: CommentLine)
        ensures
            r.slug@ == slug@,
            r.text == c.text,
            r.author == c.author,
            r.author_url == c.author_url,
            r.timestamp == c.timestamp,
    {
        CommentLine {
            slug: slug.to_owned(),
            text: c.text.clone(),
            author: c.author.clone(),
            author_url: c.author_url.clone(),
            timestamp: c.timestamp,
        }
    }
}

/// All comments, grouped by article slug, with the last time each
/// address commented (for rate limiting).
pub struct Comments {
    comments: Vec<(String, Vec<Comment>)>,
    prev_instants: Vec<(String, i64)>,
}

impl Comments {
    /// Slugs appear at most once, and a group exists only once it has
    /// a comment — so a slug has stored comments exactly when its
    /// contents are non-empty.
    pub closed spec fn wf(&self) -> bool {
        &&& forall|i: int, j: int|
            0 <= i < j < self.comments@.len() ==> self.comments@[i].0@ != self.comments@[j].0@
        &&& forall|i: int|
            0 <= i < self.comments@.len() ==> (#[trigger] self.comments@[i]).1@.len() > 0
    }

    /// The comments filed under this slug, in posting order; empty
    /// when the slug was never commented on.
    pub closed spec fn spec_comments_for(&self, slug: Seq<char>) -> Seq<Comment> {
        if exists|i: int| 0 <= i < self.comments@.len() && self.comments@[i].0@ == slug {
            let i = choose|i: int|
                0 <= i < self.comments@.len() && self.comments@[i].0@ == slug;
            self.comments@[i].1@
        } else {
            Seq::empty()
        }
    }

    /// How many comments the article with this slug has.
    pub open spec fn spec_count_for(&self, slug: Seq<char>) -> int {
        self.spec_comments_for(slug).len() as int
    }

    /// In a well-formed store, the group at a matching position is
    /// the slug's contents.
    proof fn lemma_comments_for_is(self, slug: Seq<char>, i: int)
        requires
            self.wf(),
            0 <= i < self.comments@.len(),
            self.comments@[i].0@ == slug,
        ensures
            self.spec_comments_for(slug) == self.comments@[i].1@,
    {
        let w = choose|w: int| 0 <= w < self.comments@.len() && self.comments@[w].0@ == slug;
        if w != i {
            assert(self.comments@[w].0@ == slug);
            assert(self.comments@[i].0@ == slug);
        }
    }

    /// A slug no group carries has no contents.
    proof fn lemma_comments_for_absent(self, slug: Seq<char>)
        requires
            forall|k: int| 0 <= k < self.comments@.len() ==> self.comments@[k].0@ != slug,
        ensures
            self.spec_comments_for(slug) == Seq::<Comment>::empty(),
    {
        if exists|i: int| 0 <= i < self.comments@.len() && self.comments@[i].0@ == slug {
            let i = choose|i: int|
                0 <= i < self.comments@.len() && self.comments@[i].0@ == slug;
        }
    }

    /// An empty comment store.
    pub fn new() -> (r: Comments)
        ensures
            r.wf(),
            forall|s: Seq<char>| r.spec_comments_for(s) == Seq::<Comment>::empty(),
    {
        let r = Comments { comments: Vec::new(), prev_instants: Vec::new() };
        proof {
            assert forall|s: Seq<char>| r.spec_comments_for(s) == Seq::<Comment>::empty() by {
                r.lemma_comments_for_absent(s);
            }
        }
        r
    }

    /// Group stored comment lines by their slug, in reading order.
    pub fn from_lines(lines: &Vec<CommentLine>) -> (r: Comments)
        ensures
            r.wf(),
    {
        let n: usize = lines.len();
        let mut r = Comments::new();
        let mut k: usize = 0;
        while k < n
            invariant
                0 <= k <= n,
                n == lines@.len(),
                r.wf(),
            decreases n - k,
        {
            let cl: &CommentLine = &lines[k];
            let comment: Comment = Comment::from_comment_line(cl);
            r.push_comment(cl.slug.as_str(), comment);
            k += 1;
        }
        r
    }

    /// File a comment under its slug, appending to the slug's group
    /// or starting a new one.  No other slug's comments change.
    fn push_comment(&mut self, slug: &str, comment: Comment)
        requires
            old(self).wf(),
        ensures
            final(self).wf(),
            final(self).spec_comments_for(slug@) == old(self).spec_comments_for(slug@).push(
                comment,
            ),
            forall|s: Seq<char>|
                s != slug@ ==> final(self).spec_comments_for(s) == old(
                    self,
                ).spec_comments_for(s),
            final(self).prev_instants@ == old(self).prev_instants@,
    {
        let n: usize = self.comments.len();
        let mut i: usize = 0;
        while i < n
            invariant
                0 <= i <= n,
                n == self.comments@.len(),
                self.wf(),
                *self == *old(self),
                forall|k: int| 0 <= k < i ==> self.comments@[k].0@ != slug@,
            decreases n - i,
        {
            if str_eq(self.comments[i].0.as_str(), slug) {
                let ghost pre = self.comments@;
                let mut entry: (String, Vec<Comment>) = self.comments.remove(i);
                entry.1.push(comment);
                self.comments.insert(i, entry);
                proof {
                    assert(self.comments@.len() == pre.len());
                    assert forall|a: int|
                        0 <= a < self.comments@.len() && a != i implies self.comments@[a]
                        == pre[a] by {
                        let mid = pre.remove(i as int);
                        if a < i {
                            assert(mid[a] == pre[a]);
                        } else {
                            assert(mid[a - 1] == pre[a]);
                        }
                    }
                    assert(self.comments@[i as int].0 == pre[i as int].0);
                    assert(self.comments@[i as int].1@ == pre[i as int].1@.push(comment));
                    assert(final(self).wf()) by {
                        assert forall|a: int, b: int|
                            0 <= a < b < self.comments@.len() implies self.comments@[a].0@
                            != self.comments@[b].0@ by {
                            assert(self.comments@[a].0 == pre[a].0);
                            assert(self.comments@[b].0 == pre[b].0);
                        }
                        assert forall|a: int|
                            0 <= a < self.comments@.len() implies (
                        #[trigger] self.comments@[a]).1@.len() > 0 by {
                            if a != i {
                                assert(self.comments@[a] == pre[a]);
                            }
                        }
                    }
                    assert(self.comments@[i as int].0@ == slug@);
                    self.lemma_comments_for_is(slug@, i as int);
                    old(self).lemma_comments_for_is(slug@, i as int);
                    assert(self.spec_comments_for(slug@) == old(self).spec_comments_for(
                        slug@,
                    ).push(comment));
                    assert forall|s: Seq<char>|
                        s != slug@ implies self.spec_comments_for(s) == old(
                        self,
                    ).spec_comments_for(s) by {
                        if exists|k: int|
                            0 <= k < pre.len() && pre[k].0@ == s {
                            let k = choose|k: int| 0 <= k < pre.len() && pre[k].0@ == s;
                            assert(k != i);
                            assert(self.comments@[k].0@ == s);
                            self.lemma_comments_for_is(s, k);
                            old(self).lemma_comments_for_is(s, k);
                        } else {
                            assert(forall|k: int|
                                0 <= k < self.comments@.len() ==> self.comments@[k].0@ != s)
                                by {
                                assert forall|k: int|
                                    0 <= k < self.comments@.len() implies self.comments@[k].0@
                                    != s by {
                                    if k != i {
                                        assert(self.comments@[k] == pre[k]);
                                    }
                                }
                            }
                            self.lemma_comments_for_absent(s);
                            old(self).lemma_comments_for_absent(s);
                        }
                    }
                }
                return;
            }
            i += 1;
        }
        let ghost pre = self.comments@;
        let mut group: Vec<Comment> = Vec::new();
        group.push(comment);
        self.comments.push((slug.to_owned(), group));
        proof {
            assert(self.comments@[self.comments@.len() - 1].0@ == slug@);
            assert forall|a: int, b: int|
                0 <= a < b < self.comments@.len() implies self.comments@[a].0@
                != self.comments@[b].0@ by {
                if b < self.comments@.len() - 1 {
                    assert(self.comments@[a] == pre[a]);
                    assert(self.comments@[b] == pre[b]);
                } else {
                    assert(self.comments@[a] == pre[a]);
                }
            }
            assert forall|a: int|
                0 <= a < self.comments@.len() implies (
            #[trigger] self.comments@[a]).1@.len() > 0 by {
                if a < self.comments@.len() - 1 {
                    assert(self.comments@[a] == pre[a]);
                }
            }
            old(self).lemma_comments_for_absent(slug@);
            self.lemma_comments_for_is(slug@, self.comments@.len() - 1);
            assert(self.comments@[self.comments@.len() - 1].1@ =~= Seq::<
                Comment,
            >::empty().push(comment));
            assert(self.spec_comments_for(slug@) =~= old(self).spec_comments_for(slug@).push(
                comment,
            ));
            assert forall|s: Seq<char>|
                s != slug@ implies self.spec_comments_for(s) == old(
                self,
            ).spec_comments_for(s) by {
                if exists|k: int| 0 <= k < pre.len() && pre[k].0@ == s {
                    let k = choose|k: int| 0 <= k < pre.len() && pre[k].0@ == s;
                    assert(self.comments@[k].0@ == s);
                    self.lemma_comments_for_is(s, k);
                    old(self).lemma_comments_for_is(s, k);
                } else {
                    assert(forall|k: int|
                        0 <= k < self.comments@.len() ==> self.comments@[k].0@ != s) by {
                        assert forall|k: int|
                            0 <= k < self.comments@.len() implies self.comments@[k].0@
                            != s by {
                            if k < self.comments@.len() - 1 {
                                assert(self.comments@[k] == pre[k]);
                            }
                        }
                    }
                    self.lemma_comments_for_absent(s);
                    old(self).lemma_comments_for_absent(s);
                }
            }
        }
    }

    /// The address behind `key` commented less than the rate limit ago.
    pub closed spec fn spec_is_limited(&self, key: Seq<char>, now_ms: int) -> bool {
        exists|i: int|
            0 <= i < self.prev_instants@.len() && (#[trigger] self.prev_instants@[i]).0@ == key
                && now_ms - self.prev_instants@[i].1 < COMMENT_RATE_LIMIT_MS
    }

    /// Did this address comment too recently?
    pub fn is_limited(&self, key: &str, now_ms: i64) -> (r: bool)
        ensures
            r == self.spec_is_limited(key@, now_ms as int),
    {
        let n: usize = self.prev_instants.len();
        let mut i: usize = 0;
        while i < n
            invariant
                0 <= i <= n,
                n == self.prev_instants@.len(),
                forall|k: int|
                    0 <= k < i ==> !((#[trigger] self.prev_instants@[k]).0@ == key@ && now_ms
                        - self.prev_instants@[k].1 < COMMENT_RATE_LIMIT_MS),
            decreases n - i,
        {
            if str_eq(self.prev_instants[i].0.as_str(), key) {
                let prev: i64 = self.prev_instants[i].1;
                if (now_ms as i128) - (prev as i128) < (COMMENT_RATE_LIMIT_MS as i128) {
                    proof {
                        assert(self.prev_instants@[i as int].0@ == key@);
                    }
                    return true;
                }
            }
            i += 1;
        }
        false
    }

    /// Add a comment to an article.  Fails without a commenting
    /// address, or when the address is rate limited, changing nothing;
    /// otherwise exactly the given comment is appended under the slug
    /// (no other slug changes) and returned for the caller to persist.
    pub fn add(&mut self, slug: &str, comment: Comment, addr: Option<&str>, now_ms: i64) -> (r:
        Result<Comment, String>)
        requires
            old(self).wf(),
        ensures
            final(self).wf(),
            addr is None ==> r is Err,
            r is Err ==> *final(self) == *old(self),
            r matches Ok(c) ==> c == comment && final(self).spec_comments_for(slug@) == old(
                self,
            ).spec_comments_for(slug@).push(comment) && forall|s: Seq<char>|
                s != slug@ ==> final(self).spec_comments_for(s) == old(
                    self,
                ).spec_comments_for(s),
    {
        let ip: &str = match addr {
            Some(a) => a,
            None => {
                return Err("No IP supplied".to_owned());
            },
        };
        let mut instants_key: String = ip.to_owned();
        instants_key.append(slug);
        if self.is_limited(instants_key.as_str(), now_ms) {
            return Err("IP is rate limited".to_owned());
        }
        let returned: Comment = comment.clone();
        self.push_comment(slug, comment);
        self.record_instant(instants_key, now_ms);
        Ok(returned)
    }

    /// Remember when this address last commented.
    fn record_instant(&mut self, key: String, now_ms: i64)
        requires
            old(self).wf(),
        ensures
            final(self).wf(),
            final(self).comments@ == old(self).comments@,
            forall|s: Seq<char>|
                final(self).spec_comments_for(s) == old(self).spec_comments_for(s),
    {
        let n: usize = self.prev_instants.len();
        let mut i: usize = 0;
        while i < n
            invariant
                0 <= i <= n,
                n == self.prev_instants@.len(),
                *self == *old(self),
                old(self).wf(),
            decreases n - i,
        {
            if str_eq(self.prev_instants[i].0.as_str(), key.as_str()) {
                self.prev_instants.remove(i);
                self.prev_instants.insert(i, (key, now_ms));
                proof {
                    assert(self.comments@ == old(self).comments@);
                    assert(self.wf());
                }
                return;
            }
            i += 1;
        }
        self.prev_instants.push((key, now_ms));
    }

    /// The comments of the article with this slug, in posting order:
    /// exactly the slug's stored contents, `None` exactly when it has
    /// none.
    pub fn get<'a>(&'a self, slug: &str) -> (r: Option<&'a Vec<Comment>>)
        requires
            self.wf(),
        ensures
            match r {
                Some(v) => v@ == self.spec_comments_for(slug@) && v@.len() > 0,
                None => self.spec_comments_for(slug@) == Seq::<Comment>::empty(),
            },
    {
        let n: usize = self.comments.len();
        let mut i: usize = 0;
        while i < n
            invariant
                0 <= i <= n,
                n == self.comments@.len(),
                self.wf(),
                forall|k: int| 0 <= k < i ==> self.comments@[k].0@ != slug@,
            decreases n - i,
        {
            if str_eq(self.comments[i].0.as_str(), slug) {
                proof {
                    assert(self.comments@[i as int].0@ == slug@);
                    self.lemma_comments_for_is(slug@, i as int);
                }
                return Some(&self.comments[i].1);
            }
            i += 1;
        }
        proof {
            self.lemma_comments_for_absent(slug@);
        }
        None
    }

    /// The comments of the article with this slug, copied; empty when
    /// it has none.
    pub fn get_cloned(&self, slug: &str) -> (r: Vec<Comment>)
        requires
            self.wf(),
        ensures
            r@.len() == self.spec_count_for(slug@),
    {
        match self.get(slug) {
            Some(v) => {
                let n: usize = v.len();
                let mut r: Vec<Comment> = Vec::new();
                let mut i: usize = 0;
                while i < n
                    invariant
                        0 <= i <= n,
                        n == v@.len(),
                        r@.len() == i,
                    decreases n - i,
                {
                    r.push(v[i].clone());
                    i += 1;
                }
                r
            },
            None => Vec::new(),
        }
    }

    /// How many comments the article with this slug has.
    pub fn count_for(&self, slug: &str) -> (r: usize)
        requires
            self.wf(),
        ensures
            r as int == self.spec_count_for(slug@),
    {
        match self.get(slug) {
            Some(v) => v.len(),
            None => 0,
        }
    }
}

} // verus!
