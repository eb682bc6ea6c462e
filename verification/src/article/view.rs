//! Shaping articles for rendering: the index page view, RSS views,
//! and the single-article view with its related articles.

use vstd::prelude::*;
use vstd::string::StrSliceExecFns;
use vstd::string::StringExecFns;
use crate::article::builder::ParsedArticle;
use crate::article::storage::PaginatedArticles;
use crate::comments::Comments;
use crate::strutil::{str_eq, spec_replace_all, replace_all};

verus! {

/// Everything the index page template needs.
pub struct IndexRenderView {
    pub blog_title: String,
    pub title: String,
    pub prev_page: usize,
    pub current_page: usize,
    pub next_page: usize,
    pub last_page: usize,
    pub search_tag: Option<String>,
    pub article_count: usize,
    pub articles: Vec<ParsedArticle>,
    pub comment_counts: Vec<usize>,
    pub body_class: String,
    pub content_dir: String,
    pub theme: String,
    pub home_page_info: Option<String>,
}

impl IndexRenderView {
    /// How many comments each listed article has.
    pub fn get_comment_counts(articles: &Vec<ParsedArticle>, comments: &Comments) -> (r: Vec<
        usize,
    >)
        requires
            comments.wf(),
        ensures
            r@.len() == articles@.len(),
            forall|i: int|
                0 <= i < r@.len() ==> (#[trigger] r@[i]) as int == comments.spec_count_for(
                    articles@[i].slug@,
                ),
    {
        let n: usize = articles.len();
        let mut r: Vec<usize> = Vec::new();
        let mut i: usize = 0;
        while i < n
            invariant
                0 <= i <= n,
                n == articles@.len(),
                comments.wf(),
                r@.len() == i,
                forall|k: int|
                    0 <= k < i ==> (#[trigger] r@[k]) as int == comments.spec_count_for(
                        articles@[k].slug@,
                    ),
            decreases n - i,
        {
            r.push(comments.count_for(articles[i].slug.as_str()));
            i += 1;
        }
        r
    }

    /// Assemble the index view: page links clamped to the index size,
    /// the tag search reflected in the title and body class, and the
    /// home-page info box shown only on page zero.
    pub fn new(
        article_list: &PaginatedArticles,
        tag: Option<&str>,
        page: usize,
        page_size: usize,
        theme: String,
        blog_title: &str,
        content_dir: &str,
        info_html: &str,
        comments: &Comments,
    ) -> (r: IndexRenderView)
        requires
            comments.wf(),
            page_size > 0,
            page < usize::MAX,
        ensures
            r.last_page as int == crate::div_ceil_spec(
                article_list.total_articles as int,
                page_size as int,
            ),
            r.current_page == if page > 0 {
                page as int
            } else {
                1int
            },
            r.prev_page == if r.current_page > 1 {
                r.current_page - 1
            } else {
                0int
            },
            r.next_page == if r.current_page < r.last_page {
                r.current_page + 1
            } else {
                0int
            },
            r.article_count == article_list.total_articles,
            r.home_page_info is Some <==> page == 0,
            tag is Some <==> r.search_tag is Some,
            r.title@ == match tag {
                Some(t) => "Tag: "@ + t@,
                None => "Article Index"@,
            },
            r.body_class@ == if tag is Some {
                "tag-index"@
            } else {
                "index"@
            },
    {
        let last_page: usize = crate::div_ceil(article_list.total_articles, page_size);
        let title: String = match tag {
            Some(t) => {
                let mut s: String = String::new();
                s.append("Tag: ");
                s.append(t);
                s
            },
            None => "Article Index".to_owned(),
        };
        // page zero is the home page: the first index page plus the
        // info box
        let home_page_info: Option<String> = if page == 0 {
            Some(info_html.to_owned())
        } else {
            None
        };
        let page: usize = if page > 0 {
            page
        } else {
            1
        };
        let articles: Vec<ParsedArticle> = clone_articles(&article_list.articles);
        let comment_counts: Vec<usize> = Self::get_comment_counts(&article_list.articles, comments);
        IndexRenderView {
            blog_title: blog_title.to_owned(),
            title,
            prev_page: if page > 1 {
                page - 1
            } else {
                0
            },
            current_page: page,
            next_page: if page < last_page {
                page + 1
            } else {
                0
            },
            last_page,
            body_class: if tag.is_some() {
                "tag-index".to_owned()
            } else {
                "index".to_owned()
            },
            search_tag: match tag {
                Some(t) => Some(t.to_owned()),
                None => None,
            },
            article_count: article_list.total_articles,
            articles,
            comment_counts,
            content_dir: content_dir.to_owned(),
            theme,
            home_page_info,
        }
    }
}

/// Copy a list of articles.
fn clone_articles(v: &Vec<ParsedArticle>) -> (r: Vec<ParsedArticle>)
    ensures
        r@.len() == v@.len(),
        forall|i: int|
            0 <= i < r@.len() ==> crate::article::builder::same_article(
                #[trigger] r@[i],
                v@[i],
            ),
{
    let n: usize = v.len();
    let mut r: Vec<ParsedArticle> = Vec::new();
    let mut i: usize = 0;
    while i < n
        invariant
            0 <= i <= n,
            n == v@.len(),
            r@.len() == i,
            forall|k: int|
                0 <= k < i ==> crate::article::builder::same_article(
                    #[trigger] r@[k],
                    v@[k],
                ),
        decreases n - i,
    {
        r.push(v[i].clone());
        i += 1;
    }
    r
}

/// One article as the RSS feed shows it: relative image and link
/// targets made absolute against the blog's URL.
pub struct RssArticleView {
    pub title: String,
    pub slug: String,
    pub content: String,
    pub timestamp: i64,
}

impl RssArticleView {
    /// Build the RSS view of an article.  Every relative `src="/` or
    /// `href="/` target in the rendered content is prefixed with the
    /// blog URL (trailing slashes trimmed off first).
    pub fn from_parsed_article(article: &ParsedArticle, blog_url: &str) -> (r: RssArticleView)
        ensures
            r.title == article.title,
            r.slug == article.slug,
            r.timestamp == article.timestamp,
            ({
                let trimmed = crate::strutil::spec_trim_end(blog_url@, |x: char| x == '/');
                r.content@ == spec_replace_all(
                    spec_replace_all(
                        article.parsed_content@,
                        " src=\"/"@,
                        " src=\""@ + trimmed + "/"@,
                    ),
                    " href=\"/"@,
                    " href=\""@ + trimmed + "/"@,
                )
            }),
    {
        let trimmed_url: String = crate::strutil::trim_end_matches_char(blog_url, '/');
        let mut src_rep: String = String::new();
        src_rep.append(" src=\"");
        src_rep.append(trimmed_url.as_str());
        src_rep.append("/");
        let mut href_rep: String = String::new();
        href_rep.append(" href=\"");
        href_rep.append(trimmed_url.as_str());
        href_rep.append("/");
        proof {
            reveal_strlit(" src=\"/");
            reveal_strlit(" href=\"/");
            reveal_strlit(" src=\"");
            reveal_strlit(" href=\"");
            reveal_strlit("/");
        }
        let pass1: String = replace_all(
            article.parsed_content.as_str(),
            " src=\"/",
            src_rep.as_str(),
        );
        let content: String = replace_all(pass1.as_str(), " href=\"/", href_rep.as_str());
        RssArticleView {
            title: article.title.clone(),
            slug: article.slug.clone(),
            content,
            timestamp: article.timestamp,
        }
    }
}

/// Everything the RSS template needs.
pub struct RssIndexView {
    pub blog_title: String,
    pub blog_url: String,
    pub blog_description: String,
    pub articles: Vec<RssArticleView>,
}

/// Everything the single-article template needs.
pub struct ArticleRenderView {
    pub title: String,
    pub blog_title: String,
    pub article: ParsedArticle,
    pub related_articles: Vec<ParsedArticle>,
    pub comments: Vec<crate::comments::Comment>,
    pub return_path: String,
    pub body_class: String,
    pub content_dir: String,
    pub theme: String,
}

impl ArticleRenderView {
    /// Assemble the single-article view, with the article's comments
    /// and up to five related articles.
    pub fn new(
        article: &ParsedArticle,
        all_articles: &Vec<ParsedArticle>,
        return_path: &str,
        theme: &str,
        blog_title: &str,
        content_dir: &str,
        comments: &Comments,
    ) -> (r: ArticleRenderView)
        requires
            comments.wf(),
        ensures
            r.title == article.title,
            crate::article::builder::same_article(r.article, *article),
            r.return_path@ == return_path@,
            r.body_class@ == "article"@,
            r.related_articles@.len() <= 5,
    {
        ArticleRenderView {
            title: article.title.clone(),
            blog_title: blog_title.to_owned(),
            comments: comments.get_cloned(article.slug.as_str()),
            article: article.clone(),
            related_articles: related_articles(article, all_articles),
            return_path: return_path.to_owned(),
            body_class: "article".to_owned(),
            content_dir: content_dir.to_owned(),
            theme: theme.to_owned(),
        }
    }
}

/// How many of `b`'s tags `a` also carries.
pub open spec fn spec_common_tag_count(a: ParsedArticle, b: ParsedArticle) -> int {
    b.tags@.map_values(|p: String| p@).filter(
        |t: Seq<char>| a.tags@.map_values(|p: String| p@).contains(t),
    ).len() as int
}

/// Does the article carry this tag?
fn has_tag(a: &ParsedArticle, t: &str) -> (r: bool)
    ensures
        r == a.tags@.map_values(|p: String| p@).contains(t@),
{
    let n: usize = a.tags.len();
    let mut i: usize = 0;
    while i < n
        invariant
            0 <= i <= n,
            n == a.tags@.len(),
            forall|k: int| 0 <= k < i ==> a.tags@[k]@ != t@,
        decreases n - i,
    {
        if str_eq(a.tags[i].as_str(), t) {
            proof {
                assert(a.tags@.map_values(|p: String| p@)[i as int] == t@);
            }
            return true;
        }
        i += 1;
    }
    proof {
        let tv = a.tags@.map_values(|p: String| p@);
        if tv.contains(t@) {
            let k = choose|k: int| 0 <= k < tv.len() && tv[k] == t@;
            assert(a.tags@[k]@ == t@);
        }
    }
    false
}

/// How many tags `a` and `b` share.
fn common_tag_count(a: &ParsedArticle, b: &ParsedArticle) -> (r: usize)
    ensures
        r as int == spec_common_tag_count(*a, *b),
{
    let ghost pred = |t: Seq<char>| a.tags@.map_values(|p: String| p@).contains(t);
    let ghost bv = b.tags@.map_values(|p: String| p@);
    let n: usize = b.tags.len();
    let mut count: usize = 0;
    proof {
        reveal(Seq::filter);
        assert(bv.subrange(0, 0).filter(pred) =~= Seq::<Seq<char>>::empty());
    }
    let mut i: usize = 0;
    while i < n
        invariant
            0 <= i <= n,
            n == b.tags@.len(),
            bv == b.tags@.map_values(|p: String| p@),
            pred == (|t: Seq<char>| a.tags@.map_values(|p: String| p@).contains(t)),
            count == bv.subrange(0, i as int).filter(pred).len(),
        decreases n - i,
    {
        let ghost pre = bv.subrange(0, i as int);
        let ghost cur = bv.subrange(0, i + 1);
        proof {
            reveal(Seq::filter);
            assert(cur.drop_last() =~= pre);
            assert(cur.last() == bv[i as int]);
            assert(bv[i as int] == b.tags@[i as int]@);
            pre.lemma_filter_len(pred);
        }
        if has_tag(a, b.tags[i].as_str()) {
            count += 1;
            proof {
                reveal(Seq::filter);
                assert(cur.filter(pred) =~= pre.filter(pred).push(bv[i as int]));
            }
        } else {
            proof {
                reveal(Seq::filter);
                assert(cur.filter(pred) =~= pre.filter(pred));
            }
        }
        i += 1;
    }
    proof {
        assert(bv.subrange(0, n as int) =~= bv);
    }
    count
}

/// A fit candidate for the related list: a different article that
/// shares at least one tag.
pub open spec fn spec_related_candidate(article: ParsedArticle, b: ParsedArticle) -> bool {
    spec_common_tag_count(article, b) > 0 && article.slug@ != b.slug@
}

/// Up to five other articles sharing tags with `article`, the ones
/// sharing most tags first; every one shares a tag and is not the
/// article itself.
pub fn related_articles(article: &ParsedArticle, all_articles: &Vec<ParsedArticle>) -> (r: Vec<
    ParsedArticle,
>)
    ensures
        r@.len() <= 5,
        forall|m: int|
            0 <= m < r@.len() ==> spec_related_candidate(*article, #[trigger] r@[m]),
{
    let n: usize = all_articles.len();
    // collect candidates with their shared-tag counts, keeping index
    // order
    let mut scored: Vec<(usize, usize)> = Vec::new();
    let mut i: usize = 0;
    while i < n
        invariant
            0 <= i <= n,
            n == all_articles@.len(),
            forall|k: int|
                0 <= k < scored@.len() ==> (#[trigger] scored@[k]).0 < n
                    && spec_related_candidate(*article, all_articles@[scored@[k].0 as int]),
        decreases n - i,
    {
        let b: &ParsedArticle = &all_articles[i];
        let c: usize = common_tag_count(article, b);
        if c > 0 && !str_eq(article.slug.as_str(), b.slug.as_str()) {
            scored.push((i, c));
        }
        i += 1;
    }
    // sort by shared-tag count, most first (stable: earlier articles
    // win ties)
    let sn: usize = scored.len();
    let mut sorted: Vec<(usize, usize)> = Vec::new();
    let mut k: usize = 0;
    while k < sn
        invariant
            0 <= k <= sn,
            sn == scored@.len(),
            sorted@.len() == k,
            n == all_articles@.len(),
            forall|m: int|
                0 <= m < scored@.len() ==> (#[trigger] scored@[m]).0 < n
                    && spec_related_candidate(*article, all_articles@[scored@[m].0 as int]),
            forall|m: int|
                0 <= m < sorted@.len() ==> (#[trigger] sorted@[m]).0 < n
                    && spec_related_candidate(*article, all_articles@[sorted@[m].0 as int]),
        decreases sn - k,
    {
        let x: (usize, usize) = (scored[k].0, scored[k].1);
        let sl: usize = sorted.len();
        let mut pos: usize = 0;
        while pos < sl && sorted[pos].1 >= x.1
            invariant
                0 <= pos <= sl,
                sl == sorted@.len(),
            decreases sl - pos,
        {
            pos += 1;
        }
        let ghost before = sorted@;
        sorted.insert(pos, x);
        proof {
            assert forall|m: int|
                0 <= m < sorted@.len() implies (#[trigger] sorted@[m]).0 < n
                && spec_related_candidate(*article, all_articles@[sorted@[m].0 as int]) by {
                if m < pos {
                    assert(sorted@[m] == before[m]);
                } else if m > pos {
                    assert(sorted@[m] == before[m - 1]);
                } else {
                    assert(sorted@[m] == scored@[k as int]);
                }
            }
        }
        k += 1;
    }
    let mut r: Vec<ParsedArticle> = Vec::new();
    let mut m: usize = 0;
    let take: usize = if sn < 5 {
        sn
    } else {
        5
    };
    while m < take
        invariant
            0 <= m <= take,
            take <= sorted@.len(),
            take <= 5,
            n == all_articles@.len(),
            forall|x: int|
                0 <= x < sorted@.len() ==> (#[trigger] sorted@[x]).0 < n
                    && spec_related_candidate(*article, all_articles@[sorted@[x].0 as int]),
            r@.len() == m,
            forall|x: int|
                0 <= x < r@.len() ==> spec_related_candidate(*article, #[trigger] r@[x]),
        decreases take - m,
    {
        let idx: usize = sorted[m].0;
        let cloned: ParsedArticle = all_articles[idx].clone();
        proof {
            let orig = all_articles@[idx as int];
            assert(crate::article::builder::same_article(cloned, orig));
            assert(cloned.tags@.map_values(|p: String| p@) =~= orig.tags@.map_values(
                |p: String| p@,
            ));
            assert(spec_common_tag_count(*article, cloned) == spec_common_tag_count(
                *article,
                orig,
            ));
        }
        r.push(cloned);
        m += 1;
    }
    r
}

} // verus!
