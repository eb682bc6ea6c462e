//! Tests for article building, storage, views and comments.

use velum::article::builder::{Builder, ParsedArticle, safe_truncate};
use velum::article::storage::{
    ArticleSource, article_file_name, fetch_by_slug, fetch_index_by_slug,
    fetch_paginated_articles, gather_fs_articles, set_prev_next, update_article_fields,
};
use velum::article::view::{IndexRenderView, RssArticleView, related_articles};
use velum::article::ArticleBuilder;
use velum::article_view::{ArticleView, pair_timestamps, surrounding_keys};
use velum::comments::{Comment, CommentLine, Comments};
use velum::slug::Slug;

fn builder(content: &str) -> Builder {
    Builder::new(content.to_string(), 42, "a.md".to_string(), 100)
}

fn sample_article(slug: &str, ts: i64, tags: &[&str]) -> ParsedArticle {
    let mut content = format!("# {slug}\n");
    if !tags.is_empty() {
        content.push_str(&format!("|{}|\n", tags.join(",")));
    }
    content.push_str("Body text.\n");
    let b = Builder::new(content, ts, format!("{slug}.md"), 100);
    ParsedArticle::from_builder(&b).unwrap()
}

#[test]
fn builder_title_strips_heading() {
    let b = builder("# My Great Title\nBody");
    assert_eq!(b.title().unwrap(), "My Great Title");
    let plain = builder("No heading\nBody");
    assert_eq!(plain.title().unwrap(), "No heading");
    let empty = builder("");
    assert!(empty.title().is_err());
}

#[test]
fn builder_slug_is_lowercase_and_safe() {
    let b = builder("# Hello, World!\nBody");
    assert_eq!(b.slug().unwrap().as_str(), "hello-world");
    let accents = builder("# Caf\u{e9} Crème\nBody");
    assert_eq!(accents.slug().unwrap().as_str(), "cafe-creme");
}

#[test]
fn builder_tags_sorted_and_slugged() {
    let b = builder("# T\n|Zeta, alpha , Beta|\nBody");
    let tags = b.tags();
    assert_eq!(tags, vec!["alpha", "beta", "zeta"]);
    let none = builder("# T\nBody");
    assert!(none.tags().is_empty());
}

#[test]
fn builder_main_content_skips_header_lines() {
    let with_tags = builder("# T\n|a|\nline one\nline two");
    assert_eq!(with_tags.main_content(), "line one\nline two");
    let without = builder("# T\nline one");
    assert_eq!(without.main_content(), "line one");
}

#[test]
fn builder_renders_markdown() {
    let b = builder("# T\nplain *emphasis* text");
    let html = b.parsed_content();
    assert!(html.contains("<em>emphasis</em>"));
}

#[test]
fn builder_preview_truncates() {
    let b = builder("# T\nshort body");
    let p = b.content_preview(100);
    assert_eq!(p, "short body");
    let cut = b.content_preview(5);
    assert_eq!(cut, "short…");
    // the preview collects plain text, not markup
    let marked = builder("# T\nfoo *bar*");
    assert_eq!(marked.content_preview(100), "foo  bar");
}

#[test]
fn safe_truncate_respects_char_boundaries() {
    assert_eq!(safe_truncate("héllo", 2), "hé");
    assert_eq!(safe_truncate("abc", 10), "abc");
}

#[test]
fn parsed_article_carries_fields() {
    let a = sample_article("post", 7, &["x"]);
    assert_eq!(a.slug, "post");
    assert_eq!(a.timestamp, 7);
    assert_eq!(a.tags, vec!["x"]);
    assert_eq!(a.comment_count, 0);
    assert!(a.prev.is_none() && a.next.is_none());
}

#[test]
fn pagination_chunks_and_totals() {
    let articles: Vec<ParsedArticle> = (0..5)
        .map(|i| sample_article(&format!("p{i}"), i, &[]))
        .collect();
    let page1 = fetch_paginated_articles(1, 2, None, &articles);
    assert_eq!(page1.total_articles, 5);
    assert_eq!(page1.articles.len(), 2);
    assert_eq!(page1.articles[0].slug, "p0");
    let page3 = fetch_paginated_articles(3, 2, None, &articles);
    assert_eq!(page3.articles.len(), 1);
    assert_eq!(page3.articles[0].slug, "p4");
    let page0 = fetch_paginated_articles(0, 2, None, &articles);
    assert_eq!(page0.articles[0].slug, "p0");
    let beyond = fetch_paginated_articles(9, 2, None, &articles);
    assert_eq!(beyond.articles.len(), 0);
    assert_eq!(beyond.total_articles, 5);
}

#[test]
fn pagination_filters_by_tag() {
    let articles = vec![
        sample_article("a", 1, &["rust"]),
        sample_article("b", 2, &["prose"]),
        sample_article("c", 3, &["rust"]),
    ];
    let rust = fetch_paginated_articles(1, 10, Some("rust"), &articles);
    assert_eq!(rust.total_articles, 2);
    let slugs: Vec<&str> = rust.articles.iter().map(|a| a.slug.as_str()).collect();
    assert_eq!(slugs, vec!["a", "c"]);
}

#[test]
fn fetch_by_slug_finds_first_match() {
    let articles = vec![sample_article("one", 1, &[]), sample_article("two", 2, &[])];
    assert_eq!(fetch_by_slug("two", &articles).unwrap().timestamp, 2);
    assert!(fetch_by_slug("three", &articles).is_none());
    assert_eq!(fetch_index_by_slug("one", &articles), Some(0));
}

#[test]
fn prev_next_linking() {
    let mut articles = vec![
        sample_article("a", 3, &[]),
        sample_article("b", 2, &[]),
        sample_article("c", 1, &[]),
    ];
    set_prev_next(&mut articles);
    assert!(articles[0].prev.is_none());
    assert_eq!(articles[0].next.as_ref().unwrap().slug, "b");
    assert_eq!(articles[1].prev.as_ref().unwrap().slug, "a");
    assert_eq!(articles[1].next.as_ref().unwrap().slug, "c");
    assert!(articles[2].next.is_none());
}

#[test]
fn gather_orders_newest_first() {
    let sources = vec![
        ArticleSource {
            path: "old.md".to_string(),
            content: "# Old\nbody".to_string(),
            timestamp: 10,
        },
        ArticleSource {
            path: "new.md".to_string(),
            content: "# New\nbody".to_string(),
            timestamp: 20,
        },
        ArticleSource {
            path: "broken.md".to_string(),
            content: String::new(),
            timestamp: 30,
        },
    ];
    let articles = gather_fs_articles(&sources, true, 100).unwrap();
    assert_eq!(articles.len(), 2);
    assert_eq!(articles[0].slug, "new");
    assert_eq!(articles[1].slug, "old");
    assert!(articles[0].prev.is_none());
    assert_eq!(articles[0].next.as_ref().unwrap().slug, "old");
    assert_eq!(articles[1].prev.as_ref().unwrap().slug, "new");
    assert!(articles[1].next.is_none());
    assert!(gather_fs_articles(&sources, false, 100).is_err());
}

#[test]
fn article_file_name_concatenates() {
    let s = Slug::new("My Post");
    assert_eq!(article_file_name(&s, 99), "my-post99.md");
}

#[test]
fn update_merges_content_only() {
    let mut a = sample_article("keep", 5, &["x"]);
    let newer = sample_article("ignored", 6, &["y"]);
    update_article_fields(&mut a, &newer);
    assert_eq!(a.slug, "keep");
    assert_eq!(a.timestamp, 5);
    assert_eq!(a.tags, vec!["y"]);
    assert_eq!(a.base_content, newer.base_content);
}

#[test]
fn index_view_paging() {
    let articles = vec![sample_article("a", 1, &[])];
    let list = fetch_paginated_articles(1, 10, None, &articles);
    let comments = Comments::new();
    let v = IndexRenderView::new(
        &list,
        None,
        0,
        10,
        "light".to_string(),
        "Blog",
        "content",
        "<p>info</p>",
        &comments,
    );
    assert_eq!(v.current_page, 1);
    assert_eq!(v.last_page, 1);
    assert_eq!(v.prev_page, 0);
    assert_eq!(v.next_page, 0);
    assert!(v.home_page_info.is_some());
    assert_eq!(v.title, "Article Index");
    let tagged = IndexRenderView::new(
        &list,
        Some("rust"),
        2,
        10,
        "light".to_string(),
        "Blog",
        "content",
        "",
        &comments,
    );
    assert_eq!(tagged.title, "Tag: rust");
    assert_eq!(tagged.body_class, "tag-index");
    assert!(tagged.home_page_info.is_none());
}

#[test]
fn rss_view_absolutises_urls() {
    let mut a = sample_article("a", 1, &[]);
    a.parsed_content =
        "<p><img src=\"/images/x.png\"> <a href=\"/article/y\">y</a></p>".to_string();
    let v = RssArticleView::from_parsed_article(&a, "https://example.org/");
    assert_eq!(
        v.content,
        "<p><img src=\"https://example.org/images/x.png\"> \
         <a href=\"https://example.org/article/y\">y</a></p>"
    );
}

#[test]
fn related_articles_ranked_by_shared_tags() {
    let subject = sample_article("s", 1, &["a", "b", "c"]);
    let others = vec![
        sample_article("s", 1, &["a", "b", "c"]),
        sample_article("two", 2, &["a", "b"]),
        sample_article("one", 3, &["c"]),
        sample_article("none", 4, &["z"]),
    ];
    let related = related_articles(&subject, &others);
    let slugs: Vec<&str> = related.iter().map(|a| a.slug.as_str()).collect();
    assert_eq!(slugs, vec!["two", "one"]);
}

#[test]
fn article_view_from_redis() {
    let fields = vec![
        ("title".to_string(), "T".to_string()),
        ("content".to_string(), "# T\nbody".to_string()),
        ("route".to_string(), "/articles/t".to_string()),
        ("timestamp".to_string(), "123".to_string()),
    ];
    let v = ArticleView::from_redis(&fields, true);
    assert_eq!(v.title, "T");
    assert_eq!(v.route, "/articles/t");
    assert_eq!(v.timestamp, 123);
    assert!(v.content.contains("body"));
    let bare = ArticleView::from_redis(&fields, false);
    assert_eq!(bare.content, "");
}

#[test]
fn timestamps_pair_and_surround() {
    let keys = vec![
        "velum:timestamps:a".to_string(),
        "velum:timestamps:b".to_string(),
        "velum:timestamps:c".to_string(),
    ];
    let vals = vec!["10".to_string(), "30".to_string(), "20".to_string()];
    let ts = pair_timestamps(&keys, &vals);
    assert_eq!(ts[0].timestamp, 30);
    assert_eq!(ts[1].timestamp, 20);
    assert_eq!(ts[2].timestamp, 10);
    let (prev, next) = surrounding_keys(&ts, 20);
    assert_eq!(prev.unwrap(), "velum:articles:b");
    assert_eq!(next.unwrap(), "velum:articles:a");
    let (p0, n0) = surrounding_keys(&ts, 99);
    assert!(p0.is_none() && n0.is_none());
}

#[test]
fn comments_add_and_count() {
    let mut c = Comments::new();
    let comment = Comment {
        text: "hi".to_string(),
        author: "me".to_string(),
        author_url: String::new(),
        timestamp: 1,
    };
    assert!(c.add("slug", comment.clone(), None, 1000).is_err());
    assert!(c.add("slug", comment.clone(), Some("1.2.3.4"), 1000).is_ok());
    // a second comment from the same address inside the window is
    // rate limited
    assert!(c.add("slug", comment.clone(), Some("1.2.3.4"), 1500).is_err());
    assert!(c.add("slug", comment.clone(), Some("1.2.3.4"), 5000).is_ok());
    assert_eq!(c.count_for("slug"), 2);
    let stored = c.get("slug").unwrap();
    assert_eq!(stored.len(), 2);
    // the stored comments are the ones that were added, in order
    assert_eq!(stored[0].text, "hi");
    assert_eq!(stored[1].author, "me");
    assert!(c.get("other").is_none());
    assert_eq!(c.count_for("other"), 0);
}

#[test]
fn fetch_by_slug_prefers_earliest() {
    let articles = vec![
        sample_article("dup", 1, &[]),
        sample_article("dup", 2, &[]),
    ];
    // two articles under one slug: the earlier one wins
    assert_eq!(fetch_by_slug("dup", &articles).unwrap().timestamp, 1);
}

#[test]
fn comment_lines_round_trip() {
    let comment = Comment {
        text: "body".to_string(),
        author: "a".to_string(),
        author_url: "u".to_string(),
        timestamp: 9,
    };
    let line = CommentLine::from_comment(&comment, "s");
    assert_eq!(line.slug, "s");
    let back = Comment::from_comment_line(&line);
    assert_eq!(back.text, "body");
    assert_eq!(back.timestamp, 9);
    let store = Comments::from_lines(&vec![line]);
    assert_eq!(store.count_for("s"), 1);
}

#[test]
fn legacy_builder_kv_list() {
    let b = ArticleBuilder::new("# Title Here\nBody".to_string(), 5);
    assert_eq!(b.title().unwrap(), "Title Here");
    assert_eq!(b.slug().unwrap(), "title-here");
    let kv = b.to_kv_list();
    assert_eq!(kv[0], ("title".to_string(), "Title Here".to_string()));
    assert_eq!(kv[2], ("slug".to_string(), "title-here".to_string()));
    assert_eq!(kv[3], ("timestamp".to_string(), "5".to_string()));
    assert!(kv[1].1.contains("<p>Body</p>"));
}
