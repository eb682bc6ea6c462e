//! Storing and fetching parsed articles: pagination, lookup by slug,
//! ordering, and the naming of new article files.

use vstd::prelude::*;
use vstd::multiset::Multiset;
use vstd::pervasive::VecAdditionalExecFns;
use vstd::string::StringExecFns;
use crate::errors::ParseError;
use crate::article::builder::{Builder, ParsedArticle, ArticlePrevNext, spec_title_of};
use crate::slug::{nfd_of, spec_slug_of_decomposed};
use crate::strutil::{str_eq, i64_to_dec, spec_i64_digits};

verus! {

/// One page of the article index, with the size of the whole set.
pub struct PaginatedArticles {
    pub articles: Vec<ParsedArticle>,
    pub total_articles: usize,
}

/// The positions of the articles carrying `tag` (every article when
/// no tag is asked for).
pub open spec fn spec_subset_idx(articles: Seq<ParsedArticle>, tag: Option<Seq<char>>) -> Seq<
    int,
> {
    Seq::new(articles.len() as nat, |i: int| i).filter(
        |i: int| match tag {
            Some(t) => articles[i].tags@.map_values(|p: String| p@).contains(t),
            None => true,
        },
    )
}

/// Fetch one page of the article index, optionally narrowed to a tag.
/// Page numbers start at 1; page 0 also names the first page.  The
/// returned articles are the page'th chunk of `per_page` matching
/// articles, in order; an out-of-range page yields no articles.  The
/// total is always the full count of matching articles.
pub fn fetch_paginated_articles(
    page: usize,
    per_page: usize,
    tag: Option<&str>,
    articles: &Vec<ParsedArticle>,
) -> (r: PaginatedArticles)
    requires
        per_page > 0,
    ensures
        ({
            let idx = spec_subset_idx(
                articles@,
                match tag {
                    Some(t) => Some(t@),
                    None => None,
                },
            );
            let p: int = if page > 0 {
                page - 1
            } else {
                0int
            };
            let lo: int = if p * per_page <= idx.len() {
                p * per_page
            } else {
                idx.len() as int
            };
            let hi: int = if lo + per_page <= idx.len() {
                lo + per_page
            } else {
                idx.len() as int
            };
            &&& r.total_articles == idx.len()
            &&& (idx.len() > 0 && lo < idx.len()) ==> r.articles@.len() == hi - lo
                && forall|m: int|
                    0 <= m < r.articles@.len() ==> crate::article::builder::same_article(
                        #[trigger] r.articles@[m],
                        articles@[idx[lo + m]],
                    )
            &&& (idx.len() == 0 || lo >= idx.len()) ==> r.articles@.len() == 0
        }),
{
    let ghost stag: Option<Seq<char>> = match tag {
        Some(t) => Some(t@),
        None => None,
    };
    let ghost idx = spec_subset_idx(articles@, stag);
    let n: usize = articles.len();
    let mut subset: Vec<usize> = Vec::new();
    proof {
        reveal(Seq::filter);
        let base = Seq::new(articles@.len() as nat, |i: int| i);
        assert(base.subrange(0, 0).filter(
            |i: int| match stag {
                Some(t) => articles@[i].tags@.map_values(|p: String| p@).contains(t),
                None => true,
            },
        ) =~= Seq::<int>::empty());
        assert(subset@.map_values(|u: usize| u as int) =~= Seq::<int>::empty());
    }
    let mut k: usize = 0;
    while k < n
        invariant
            0 <= k <= n,
            n == articles@.len(),
            stag == match tag {
                Some(t) => Some(t@),
                None => None,
            },
            idx == spec_subset_idx(articles@, stag),
            subset@.map_values(|u: usize| u as int) == Seq::new(
                articles@.len() as nat,
                |i: int| i,
            ).subrange(0, k as int).filter(
                |i: int| match stag {
                    Some(t) => articles@[i].tags@.map_values(|p: String| p@).contains(t),
                    None => true,
                },
            ),
            forall|m: int| 0 <= m < subset@.len() ==> (#[trigger] subset@[m]) < n,
        decreases n - k,
    {
        let ghost pred = |i: int| match stag {
            Some(t) => articles@[i].tags@.map_values(|p: String| p@).contains(t),
            None => true,
        };
        let ghost base = Seq::new(articles@.len() as nat, |i: int| i);
        let ghost pre = base.subrange(0, k as int);
        let ghost cur = base.subrange(0, k + 1);
        proof {
            reveal(Seq::filter);
            assert(cur.drop_last() =~= pre);
            assert(cur.last() == k as int);
        }
        let matches_tag: bool = match tag {
            Some(t) => contains_tag(&articles[k], t),
            None => true,
        };
        if matches_tag {
            subset.push(k);
            proof {
                reveal(Seq::filter);
                assert(pred(k as int));
                assert(cur.filter(pred) =~= pre.filter(pred).push(k as int));
                assert(subset@.map_values(|u: usize| u as int) =~= cur.filter(pred));
            }
        } else {
            proof {
                reveal(Seq::filter);
                assert(!pred(k as int));
                assert(cur.filter(pred) =~= pre.filter(pred));
            }
        }
        k += 1;
    }
    proof {
        let base = Seq::new(articles@.len() as nat, |i: int| i);
        assert(base.subrange(0, n as int) =~= base);
    }
    let total_articles: usize = subset.len();
    // pages come 1-indexed from the URL; page 0 is the home page and
    // shows the same chunk as page 1
    let p: usize = if page > 0 {
        page - 1
    } else {
        0
    };
    let ghost gl: int = if p * per_page <= idx.len() {
        (p as int) * (per_page as int)
    } else {
        idx.len() as int
    };
    let pages: usize = crate::div_ceil(total_articles, per_page);
    if total_articles == 0 || p >= pages {
        proof {
            assert(idx.len() == total_articles);
            if total_articles > 0 {
                vstd::arithmetic::div_mod::lemma_fundamental_div_mod(
                    total_articles as int,
                    per_page as int,
                );
                let q: int = (total_articles as int) / (per_page as int);
                let rm: int = (total_articles as int) % (per_page as int);
                assert((p as int) * (per_page as int) >= idx.len()) by (nonlinear_arith)
                    requires
                        p as int >= q + (if rm > 0 {
                            1int
                        } else {
                            0int
                        }),
                        total_articles as int == q * (per_page as int) + rm,
                        0 <= rm < per_page as int,
                        per_page as int > 0,
                        idx.len() == total_articles as int,
                ;
            }
        }
        return PaginatedArticles { articles: Vec::new(), total_articles };
    }
    proof {
        vstd::arithmetic::div_mod::lemma_fundamental_div_mod(
            total_articles as int,
            per_page as int,
        );
        let q: int = (total_articles as int) / (per_page as int);
        let rm: int = (total_articles as int) % (per_page as int);
        assert((p as int) * (per_page as int) < idx.len()) by (nonlinear_arith)
            requires
                (p as int) < q + (if rm > 0 {
                    1int
                } else {
                    0int
                }),
                total_articles as int == q * (per_page as int) + rm,
                0 <= rm < per_page as int,
                per_page as int > 0,
                idx.len() == total_articles as int,
        ;
    }
    let lo: usize = p * per_page;
    proof {
        assert(lo == gl);
    }
    let hi: usize = if per_page <= total_articles - lo {
        lo + per_page
    } else {
        total_articles
    };
    let mut out: Vec<ParsedArticle> = Vec::new();
    let mut m: usize = lo;
    while m < hi
        invariant
            lo <= m <= hi <= subset@.len(),
            idx == subset@.map_values(|u: usize| u as int),
            forall|x: int| 0 <= x < subset@.len() ==> (#[trigger] subset@[x]) < articles@.len(),
            out@.len() == m - lo,
            forall|x: int|
                0 <= x < out@.len() ==> crate::article::builder::same_article(
                    #[trigger] out@[x],
                    articles@[subset@[lo + x] as int],
                ),
        decreases hi - m,
    {
        let j: usize = subset[m];
        out.push(articles[j].clone());
        m += 1;
    }
    PaginatedArticles { articles: out, total_articles }
}

/// Does the article carry this tag?
fn contains_tag(a: &ParsedArticle, t: &str) -> (r: bool)
    ensures
        r == a.tags@.map_values(|p: String| p@).contains(t@),
{
    let n: usize = a.tags.len();
    let mut i: usize = 0;
    while i < n
        invariant
            0 <= i <= n,
            n == a.tags@.len(),
            forall|k: int| 0 <= k < i ==> a.tags@[k]@ != t@,
        decreases n - i,
    {
        if str_eq(a.tags[i].as_str(), t) {
            proof {
                assert(a.tags@.map_values(|p: String| p@)[i as int] == t@);
            }
            return true;
        }
        i += 1;
    }
    proof {
        let tv = a.tags@.map_values(|p: String| p@);
        if tv.contains(t@) {
            let k = choose|k: int| 0 <= k < tv.len() && tv[k] == t@;
            assert(a.tags@[k]@ == t@);
        }
    }
    false
}

/// The first article with this slug, if any: no article at an
/// earlier position carries it.
pub fn fetch_by_slug<'a>(slug: &str, articles: &'a Vec<ParsedArticle>) -> (r: Option<
    &'a ParsedArticle,
>)
    ensures
        match r {
            Some(a) => exists|i: int|
                0 <= i < articles@.len() && articles@[i].slug@ == slug@ && *a == articles@[i]
                    && forall|k: int| 0 <= k < i ==> articles@[k].slug@ != slug@,
            None => forall|i: int| 0 <= i < articles@.len() ==> articles@[i].slug@ != slug@,
        },
{
    let n: usize = articles.len();
    let mut i: usize = 0;
    while i < n
        invariant
            0 <= i <= n,
            n == articles@.len(),
            forall|k: int| 0 <= k < i ==> articles@[k].slug@ != slug@,
        decreases n - i,
    {
        if str_eq(articles[i].slug.as_str(), slug) {
            proof {
                assert(articles@[i as int].slug@ == slug@ && forall|k: int|
                    0 <= k < i ==> articles@[k].slug@ != slug@);
            }
            return Some(&articles[i]);
        }
        i += 1;
    }
    None
}

/// The position of the first article with this slug, if any.
pub fn fetch_index_by_slug(slug: &str, articles: &Vec<ParsedArticle>) -> (r: Option<usize>)
    ensures
        match r {
            Some(i) => i < articles@.len() && articles@[i as int].slug@ == slug@,
            None => forall|k: int| 0 <= k < articles@.len() ==> articles@[k].slug@ != slug@,
        },
{
    let n: usize = articles.len();
    let mut i: usize = 0;
    while i < n
        invariant
            0 <= i <= n,
            n == articles@.len(),
            forall|k: int| 0 <= k < i ==> articles@[k].slug@ != slug@,
        decreases n - i,
    {
        if str_eq(articles[i].slug.as_str(), slug) {
            return Some(i);
        }
        i += 1;
    }
    None
}

/// Link each article to its neighbours: the previous (newer) and next
/// (older) article in index order.  Nothing else changes.
pub fn set_prev_next(articles: &mut Vec<ParsedArticle>)
    ensures
        final(articles)@.len() == old(articles)@.len(),
        forall|i: int|
            0 <= i < final(articles)@.len() ==> {
                let a = #[trigger] final(articles)@[i];
                let o = old(articles)@[i];
                &&& a.title == o.title
                &&& a.parsed_content == o.parsed_content
                &&& a.base_content == o.base_content
                &&& a.preview == o.preview
                &&& a.slug == o.slug
                &&& a.source_filename == o.source_filename
                &&& a.timestamp == o.timestamp
                &&& a.tags@ == o.tags@
                &&& a.comment_count == o.comment_count
                &&& (i > 0 ==> (a.prev matches Some(p) && p.title == old(articles)@[i
                    - 1].title && p.slug == old(articles)@[i - 1].slug))
                &&& (i == 0 ==> a.prev is None)
                &&& (i + 1 < old(articles)@.len() ==> (a.next matches Some(x) && x.title
                    == old(articles)@[i + 1].title && x.slug == old(articles)@[i + 1].slug))
                &&& (i + 1 == old(articles)@.len() ==> a.next is None)
            },
{
    let n: usize = articles.len();
    let mut i: usize = 0;
    while i < n
        invariant
            0 <= i <= n,
            n == articles@.len(),
            forall|k: int|
                i <= k < n ==> #[trigger] articles@[k] == old(articles)@[k],
            forall|k: int|
                0 <= k < i ==> {
                    let a = #[trigger] articles@[k];
                    let o = old(articles)@[k];
                    &&& a.title == o.title
                    &&& a.parsed_content == o.parsed_content
                    &&& a.base_content == o.base_content
                    &&& a.preview == o.preview
                    &&& a.slug == o.slug
                    &&& a.source_filename == o.source_filename
                    &&& a.timestamp == o.timestamp
                    &&& a.tags@ == o.tags@
                    &&& a.comment_count == o.comment_count
                    &&& (k > 0 ==> (a.prev matches Some(p) && p.title == old(articles)@[k
                        - 1].title && p.slug == old(articles)@[k - 1].slug))
                    &&& (k == 0 ==> a.prev is None)
                    &&& (k + 1 < n ==> (a.next matches Some(x) && x.title == old(
                        articles,
                    )@[k + 1].title && x.slug == old(articles)@[k + 1].slug))
                    &&& (k + 1 == n ==> a.next is None)
                },
        decreases n - i,
    {
        let prev: Option<ArticlePrevNext> = if i > 0 {
            let ghost o = old(articles)@[i as int - 1];
            let p = ArticlePrevNext {
                title: articles[i - 1].title.clone(),
                slug: articles[i - 1].slug.clone(),
            };
            Some(p)
        } else {
            None
        };
        let next: Option<ArticlePrevNext> = if i + 1 < n {
            let x = ArticlePrevNext {
                title: articles[i + 1].title.clone(),
                slug: articles[i + 1].slug.clone(),
            };
            Some(x)
        } else {
            None
        };
        let mut a: ParsedArticle = articles[i].clone();
        a.prev = prev;
        a.next = next;
        let ghost before = articles@;
        articles.set(i, a);
        i += 1;
    }
}

/// The articles sorted newest first by timestamp, with neighbour
/// links set.  This orders the whole index: the same articles come
/// out (by slug), newest first.
pub fn order_articles(articles: Vec<ParsedArticle>) -> (r: Vec<ParsedArticle>)
    ensures
        r@.len() == articles@.len(),
        forall|i: int, j: int| 0 <= i < j < r@.len() ==> r@[i].timestamp >= r@[j].timestamp,
        r@.map_values(|a: ParsedArticle| a.slug@).to_multiset() == articles@.map_values(
            |a: ParsedArticle| a.slug@,
        ).to_multiset(),
        neighbours_linked(r@),
{
    broadcast use vstd::seq_lib::group_to_multiset_ensures;

    let n: usize = articles.len();
    let mut sorted: Vec<ParsedArticle> = Vec::new();
    proof {
        assert(sorted@.map_values(|a: ParsedArticle| a.slug@) =~= Seq::<Seq<char>>::empty());
        assert(articles@.subrange(0, 0).map_values(|a: ParsedArticle| a.slug@)
            =~= Seq::<Seq<char>>::empty());
    }
    let mut k: usize = 0;
    while k < n
        invariant
            0 <= k <= n,
            n == articles@.len(),
            sorted@.len() == k,
            forall|i: int, j: int|
                0 <= i < j < sorted@.len() ==> sorted@[i].timestamp >= sorted@[j].timestamp,
            sorted@.map_values(|a: ParsedArticle| a.slug@).to_multiset()
                == articles@.subrange(0, k as int).map_values(
                |a: ParsedArticle| a.slug@,
            ).to_multiset(),
        decreases n - k,
    {
        let x: ParsedArticle = articles[k].clone();
        let sl: usize = sorted.len();
        let mut pos: usize = 0;
        while pos < sl && sorted[pos].timestamp >= x.timestamp
            invariant
                0 <= pos <= sl,
                sl == sorted@.len(),
                forall|m: int| 0 <= m < pos ==> sorted@[m].timestamp >= x.timestamp,
            decreases sl - pos,
        {
            pos += 1;
        }
        let ghost before = sorted@;
        let ghost xv = x.slug@;
        sorted.insert(pos, x);
        proof {
            broadcast use vstd::seq_lib::group_to_multiset_ensures;

            let old_m = before.map_values(|a: ParsedArticle| a.slug@);
            let new_m = sorted@.map_values(|a: ParsedArticle| a.slug@);
            assert(new_m.to_multiset() =~= old_m.to_multiset().insert(xv)) by {
                assert(new_m =~= old_m.subrange(0, pos as int) + seq![xv] + old_m.subrange(
                    pos as int,
                    old_m.len() as int,
                ));
                vstd::seq_lib::lemma_multiset_commutative(
                    old_m.subrange(0, pos as int) + seq![xv],
                    old_m.subrange(pos as int, old_m.len() as int),
                );
                vstd::seq_lib::lemma_multiset_commutative(
                    old_m.subrange(0, pos as int),
                    seq![xv],
                );
                vstd::seq_lib::lemma_multiset_commutative(
                    old_m.subrange(0, pos as int),
                    old_m.subrange(pos as int, old_m.len() as int),
                );
                assert(old_m.subrange(0, pos as int) + old_m.subrange(
                    pos as int,
                    old_m.len() as int,
                ) =~= old_m);
                assert(seq![xv] =~= Seq::<Seq<char>>::empty().push(xv));
                assert(seq![xv].to_multiset() =~= Multiset::empty().insert(xv));
            }
            assert(articles@.subrange(0, k + 1).map_values(|a: ParsedArticle| a.slug@)
                =~= articles@.subrange(0, k as int).map_values(
                |a: ParsedArticle| a.slug@,
            ).push(articles@[k as int].slug@));
            assert(xv == articles@[k as int].slug@);
            assert forall|i: int, j: int|
                0 <= i < j < sorted@.len() implies sorted@[i].timestamp
                >= sorted@[j].timestamp by {
                let gi: int = if i < pos {
                    i
                } else {
                    i - 1
                };
                let gj: int = if j < pos {
                    j
                } else {
                    j - 1
                };
                if i == pos {
                    assert(sorted@[j] == before[j - 1]);
                    if j - 1 >= pos {
                        assert(before[j - 1].timestamp <= x.timestamp) by {
                            if pos < before.len() {
                                assert(before[pos as int].timestamp < x.timestamp);
                            }
                        }
                    }
                } else if j == pos {
                    assert(sorted@[i] == before[i]);
                } else {
                    assert(sorted@[i] == before[gi]);
                    assert(sorted@[j] == before[gj]);
                }
            }
        }
        k += 1;
    }
    proof {
        assert(articles@.subrange(0, n as int) =~= articles@);
    }
    let mut out: Vec<ParsedArticle> = sorted;
    let ghost mid = out@;
    set_prev_next(&mut out);
    proof {
        assert(out@.map_values(|a: ParsedArticle| a.slug@) =~= mid.map_values(
            |a: ParsedArticle| a.slug@,
        ));
        assert forall|i: int| 0 <= i < out@.len() implies ({
            &&& (i == 0 ==> (#[trigger] out@[i]).prev is None)
            &&& (i > 0 ==> (out@[i].prev matches Some(p) && p.title == out@[i - 1].title
                && p.slug == out@[i - 1].slug))
            &&& (i + 1 == out@.len() ==> out@[i].next is None)
            &&& (i + 1 < out@.len() ==> (out@[i].next matches Some(x) && x.title == out@[i
                + 1].title && x.slug == out@[i + 1].slug))
        }) by {
            if i > 0 {
                assert(out@[i - 1].title == mid[i - 1].title);
                assert(out@[i - 1].slug == mid[i - 1].slug);
            }
            if i + 1 < out@.len() {
                assert(out@[i + 1].title == mid[i + 1].title);
                assert(out@[i + 1].slug == mid[i + 1].slug);
            }
        }
    }
    out
}

/// Each article points at its neighbours: the first has no newer one,
/// the last no older one, and every link carries the neighbour's
/// title and slug.
pub open spec fn neighbours_linked(v: Seq<ParsedArticle>) -> bool {
    forall|i: int|
        0 <= i < v.len() ==> {
            &&& (i == 0 ==> (#[trigger] v[i]).prev is None)
            &&& (i > 0 ==> (v[i].prev matches Some(p) && p.title == v[i - 1].title && p.slug
                == v[i - 1].slug))
            &&& (i + 1 == v.len() ==> v[i].next is None)
            &&& (i + 1 < v.len() ==> (v[i].next matches Some(x) && x.title == v[i + 1].title
                && x.slug == v[i + 1].slug))
        }
}

/// One article source as read from disk: where it was found, its
/// text, and its modification time in milliseconds.
pub struct ArticleSource {
    pub path: String,
    pub content: String,
    pub timestamp: i64,
}

/// Build the article index from the sources of an articles directory:
/// parse each source (skipping ones with no title line), sort newest
/// first, and link neighbours.  Fails exactly when the caller found
/// no articles directory.
pub fn gather_fs_articles(
    sources: &Vec<ArticleSource>,
    dir_found: bool,
    max_preview_length: usize,
) -> (r: Result<Vec<ParsedArticle>, ParseError>)
    ensures
        match r {
            Ok(articles) => {
                &&& dir_found
                &&& articles@.len() == sources@.filter(
                    |s: ArticleSource| s.content@.len() > 0,
                ).len()
                &&& articles@.map_values(|a: ParsedArticle| a.slug@).to_multiset()
                    == sources@.filter(|s: ArticleSource| s.content@.len() > 0).map_values(
                    |s: ArticleSource| spec_slug_of_decomposed(
                        nfd_of(spec_title_of(s.content@)),
                    ),
                ).to_multiset()
                &&& forall|i: int, j: int|
                    0 <= i < j < articles@.len() ==> articles@[i].timestamp
                        >= articles@[j].timestamp
                &&& neighbours_linked(articles@)
            },
            Err(_) => !dir_found,
        },
{
    if !dir_found {
        return Err(crate::errors::parse_error_from_message(
            "article path is not a directory",
        ));
    }
    let ghost pred = |s: ArticleSource| s.content@.len() > 0;
    let ghost slug_of = |s: ArticleSource| spec_slug_of_decomposed(
        nfd_of(spec_title_of(s.content@)),
    );
    let n: usize = sources.len();
    let mut parsed: Vec<ParsedArticle> = Vec::new();
    proof {
        reveal(Seq::filter);
        assert(sources@.subrange(0, 0).filter(pred) =~= Seq::<ArticleSource>::empty());
        assert(parsed@.map_values(|a: ParsedArticle| a.slug@)
            =~= Seq::<ArticleSource>::empty().map_values(slug_of));
    }
    let mut k: usize = 0;
    while k < n
        invariant
            0 <= k <= n,
            n == sources@.len(),
            pred == (|s: ArticleSource| s.content@.len() > 0),
            slug_of == (|s: ArticleSource| spec_slug_of_decomposed(
                nfd_of(spec_title_of(s.content@)),
            )),
            parsed@.len() == sources@.subrange(0, k as int).filter(pred).len(),
            parsed@.map_values(|a: ParsedArticle| a.slug@) == sources@.subrange(
                0,
                k as int,
            ).filter(pred).map_values(slug_of),
        decreases n - k,
    {
        let ghost pre = sources@.subrange(0, k as int);
        let ghost cur = sources@.subrange(0, k + 1);
        proof {
            reveal(Seq::filter);
            assert(cur.drop_last() =~= pre);
            assert(cur.last() == sources@[k as int]);
        }
        let src: &ArticleSource = &sources[k];
        let b = Builder::new(
            src.content.clone(),
            src.timestamp,
            src.path.clone(),
            max_preview_length,
        );
        match ParsedArticle::from_builder(&b) {
            Ok(a) => {
                let ghost av = a.slug@;
                parsed.push(a);
                proof {
                    reveal(Seq::filter);
                    assert(pred(sources@[k as int]));
                    assert(cur.filter(pred) =~= pre.filter(pred).push(sources@[k as int]));
                    assert(av == slug_of(sources@[k as int]));
                    assert(parsed@.map_values(|a2: ParsedArticle| a2.slug@) =~= pre.filter(
                        pred,
                    ).map_values(slug_of).push(av));
                    assert(parsed@.map_values(|a2: ParsedArticle| a2.slug@) =~= cur.filter(
                        pred,
                    ).map_values(slug_of));
                }
            },
            Err(_) => {
                // a source without a title line is logged and skipped
                proof {
                    reveal(Seq::filter);
                    assert(!pred(sources@[k as int]));
                    assert(cur.filter(pred) =~= pre.filter(pred));
                }
            },
        }
        k += 1;
    }
    proof {
        assert(sources@.subrange(0, n as int) =~= sources@);
    }
    Ok(order_articles(parsed))
}

/// The file name a new article is stored under: its slug followed by
/// its timestamp, with the Markdown extension.
pub fn article_file_name(slug: &crate::slug::Slug, timestamp: i64) -> (r: String)
    ensures
        r@ == slug@ + spec_i64_digits(timestamp as int) + ".md"@,
{
    let ts: String = i64_to_dec(timestamp);
    let mut out: String = String::new();
    out.append(slug.as_str());
    out.append(ts.as_str());
    out.append(".md");
    out
}

/// Merge newly parsed content into an existing article, as an update
/// does: content, rendering, preview and tags change; identity,
/// timestamp and neighbours stay.
pub fn update_article_fields(article: &mut ParsedArticle, new_article: &ParsedArticle)
    ensures
        final(article).base_content == new_article.base_content,
        final(article).parsed_content == new_article.parsed_content,
        final(article).preview == new_article.preview,
        final(article).tags@ == new_article.tags@,
        final(article).title == old(article).title,
        final(article).slug == old(article).slug,
        final(article).source_filename == old(article).source_filename,
        final(article).timestamp == old(article).timestamp,
        final(article).prev == old(article).prev,
        final(article).next == old(article).next,
        final(article).comment_count == old(article).comment_count,
{
    article.base_content = new_article.base_content.clone();
    article.parsed_content = new_article.parsed_content.clone();
    article.preview = new_article.preview.clone();
    article.tags = clone_tags(&new_article.tags);
}

/// Copy a tag list.
fn clone_tags(tags: &Vec<String>) -> (r: Vec<String>)
    ensures
        r@ == tags@,
{
    let n: usize = tags.len();
    let mut r: Vec<String> = Vec::new();
    let mut i: usize = 0;
    while i < n
        invariant
            0 <= i <= n,
            n == tags@.len(),
            r@.len() == i,
            forall|k: int| 0 <= k < i ==> r@[k] == tags@[k],
        decreases n - i,
    {
        r.push(tags[i].clone());
        i += 1;
    }
    proof {
        assert(r@ =~= tags@);
    }
    r
}

} // verus!
