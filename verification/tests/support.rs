//! Tests for the string utilities, slugs, configuration, handler
//! support and static-asset helpers.

use velum::config::{extract_theme_name, find_themes, normalize_content_dir};
use velum::handlers::{
    create_timestamp, log_elapsed, needs_to_log_in, render_error_message, sanitize_file_name,
    theme,
};
use velum::hb::helpers::{
    age_description, article_full_url, path_with_timestamp, pluralize, render_tags, return_text,
};
use velum::hb::template_name;
use velum::slug::Slug;
use velum::static_files::{build_fs_path, concat_files, extract_filepaths, untimestamped_path};
use velum::strutil::{
    i64_to_dec, join_with, parse_i64, parse_i64_or_zero, replace_all, sort_strings, split_char,
    split_lines, str_contains, str_ends_with, str_eq, str_lt, str_starts_with, to_ascii_lower,
    trim_matches_char, trim_ws, u64_to_dec,
};
use velum::div_ceil;
use velum::typography::typogrified;

#[test]
fn replace_all_replaces_every_occurrence() {
    assert_eq!(replace_all("a-b-c", "-", "+"), "a+b+c");
    assert_eq!(replace_all("aaa", "aa", "b"), "ba");
    assert_eq!(replace_all("none", "x", "y"), "none");
}

#[test]
fn split_and_join() {
    let parts = split_char("a,b,,c", ',');
    assert_eq!(parts, vec!["a", "b", "", "c"]);
    assert_eq!(split_char("solo", ','), vec!["solo"]);
    assert_eq!(join_with(&parts, ","), "a,b,,c");
}

#[test]
fn lines_match_std_semantics() {
    assert_eq!(split_lines("a\nb"), vec!["a", "b"]);
    assert_eq!(split_lines("a\nb\n"), vec!["a", "b"]);
    assert_eq!(split_lines("a\r\nb"), vec!["a", "b"]);
    assert!(split_lines("").is_empty());
    assert_eq!(split_lines("\n"), vec![""]);
}

#[test]
fn trimming() {
    assert_eq!(trim_ws("  padded\t"), "padded");
    assert_eq!(trim_matches_char("--x--", '-'), "x");
    assert_eq!(trim_matches_char("|", '|'), "");
}

#[test]
fn searching() {
    assert!(str_starts_with("prefix-rest", "prefix"));
    assert!(str_ends_with("file.jpg", ".jpg"));
    assert!(str_contains("hay needle stack", "needle"));
    assert!(!str_contains("haystack", "needle"));
    assert!(str_eq("same", "same"));
    assert!(!str_eq("same", "other"));
}

#[test]
fn ordering_and_sorting() {
    assert!(str_lt("abc", "abd"));
    assert!(str_lt("ab", "abc"));
    assert!(!str_lt("b", "ab"));
    let sorted = sort_strings(&vec!["pear".to_string(), "apple".to_string(), "fig".to_string()]);
    assert_eq!(sorted, vec!["apple", "fig", "pear"]);
}

#[test]
fn decimal_formatting() {
    assert_eq!(u64_to_dec(0), "0");
    assert_eq!(u64_to_dec(1234), "1234");
    assert_eq!(i64_to_dec(-56), "-56");
    assert_eq!(i64_to_dec(i64::MIN), "-9223372036854775808");
}

#[test]
fn integer_parsing() {
    assert_eq!(parse_i64("123"), Some(123));
    assert_eq!(parse_i64("-123"), Some(-123));
    assert_eq!(parse_i64("+7"), Some(7));
    assert_eq!(parse_i64(""), None);
    assert_eq!(parse_i64("12a"), None);
    assert_eq!(parse_i64("9223372036854775807"), Some(i64::MAX));
    assert_eq!(parse_i64("-9223372036854775808"), Some(i64::MIN));
    assert_eq!(parse_i64("9223372036854775808"), None);
    assert_eq!(parse_i64_or_zero("bad"), 0);
}

#[test]
fn ascii_lowering() {
    assert_eq!(to_ascii_lower("MiXeD09"), "mixed09");
}

#[test]
fn div_ceil_rounds_up() {
    assert_eq!(div_ceil(10, 3), 4);
    assert_eq!(div_ceil(9, 3), 3);
    assert_eq!(div_ceil(0, 3), 0);
}

#[test]
fn slugs() {
    assert_eq!(Slug::new("Hello, World!").as_str(), "hello-world");
    assert_eq!(Slug::new("  -- spaced --  ").as_str(), "spaced");
    assert_eq!(Slug::new("déjà vu").as_str(), "deja-vu");
    assert_eq!(Slug::new("").as_str(), "");
}

#[test]
fn config_directory_normalising() {
    assert_eq!(normalize_content_dir("./content"), "content");
    assert_eq!(normalize_content_dir("content"), "content");
}

#[test]
fn theme_names_from_stylesheets() {
    assert_eq!(extract_theme_name("/* Dark */\nbody {}").unwrap(), "Dark");
    assert_eq!(extract_theme_name("Light\nbody {}").unwrap(), "Light");
    assert!(extract_theme_name("").is_err());
}

#[test]
fn themes_sorted_by_name() {
    let files = vec![
        ("z.css".to_string(), "/* Zebra */\n".to_string()),
        ("a.css".to_string(), "/* Apple */\n".to_string()),
        ("broken.css".to_string(), String::new()),
    ];
    let themes = find_themes(&files);
    assert_eq!(themes.len(), 2);
    assert_eq!(themes[0].name, "Apple");
    assert_eq!(themes[1].name, "Zebra");
    assert_eq!(themes[0].filename, "a.css");
}

#[test]
fn timestamps_are_plausible() {
    let t = create_timestamp();
    // after 2020 in milliseconds, long before year 3000
    assert!(t > 1_577_836_800_000);
    assert!(t < 32_503_680_000_000);
}

#[test]
fn elapsed_log_lines() {
    assert_eq!(
        log_elapsed("ARTICLE", Some("slug"), Some(2), 1500),
        "Rendered ARTICLE `slug` (2) in 1ms"
    );
    assert_eq!(log_elapsed("INDEX", None, None, 999), "Rendered INDEX in 999µs");
}

#[test]
fn theme_cookie_defaults() {
    assert_eq!(theme(Some("dark")), "dark");
    assert_eq!(theme(None), "light");
}

#[test]
fn error_pages() {
    assert_eq!(
        render_error_message("HTTP error 404", Some("<h1>####</h1>")),
        "<h1>HTTP error 404</h1>"
    );
    assert_eq!(render_error_message("oops", None), "oops");
}

#[test]
fn session_checks() {
    assert!(!needs_to_log_in(Some("s1"), Some("s1")));
    assert!(needs_to_log_in(Some("s1"), Some("s2")));
    assert!(needs_to_log_in(None, Some("s1")));
    assert!(needs_to_log_in(Some("s1"), None));
}

#[test]
fn uploaded_names_are_sanitised() {
    assert_eq!(sanitize_file_name("my photo file.jpg"), "my-photo-file.jpg");
}

#[test]
fn template_names() {
    assert_eq!(template_name("tpl/index.hbs", "tpl/"), "index");
    assert_eq!(template_name("tpl/admin/_articles.hbs", "tpl/"), "admin/_articles");
}

#[test]
fn helper_texts() {
    assert_eq!(pluralize("day", 1).0, "day");
    assert_eq!(pluralize("day", 3).0, "days");
    assert_eq!(
        path_with_timestamp("styles.css", "20220925145205"),
        "styles-20220925145205.css"
    );
    assert_eq!(
        article_full_url("https://example.org/", "post"),
        "https://example.org/article/post"
    );
    assert_eq!(return_text("/"), "Home");
    assert_eq!(return_text("/tag/rust"), "Tag: <b>rust</b>");
    assert_eq!(return_text("/tag/rust/2"), "Tag: <b>rust</b> (page 2)");
    assert_eq!(return_text("/articles/1"), "Home");
    assert_eq!(return_text("/articles/3"), "Articles (page 3)");
}

#[test]
fn tag_lists_render() {
    let tags = vec!["a".to_string(), "b".to_string()];
    let html = render_tags(&tags, Some("b"));
    assert!(html.contains("<a href=\"/tag/a\">a</a>"));
    assert!(html.contains("<span class=\"current-tag\">b</span>"));
    let plain = render_tags(&tags, None);
    assert!(plain.contains("<a href=\"/tag/b\">b</a>"));
}

#[test]
fn ages_read_naturally() {
    let minute = 60_000i64;
    assert_eq!(age_description(1000, 500), "Just now");
    assert_eq!(age_description(5 * minute, 0), "5 minutes ago");
    assert_eq!(age_description(120 * minute, 0), "2 hours ago");
    assert_eq!(age_description(3 * 24 * 60 * minute, 0), "3 days ago");
}

#[test]
fn manifest_extraction() {
    let (paths, code) = extract_filepaths("//=lib/a\nvar x = 1;\n//=b\nvar y = 2;");
    assert_eq!(paths, vec!["lib/a.js", "b.js"]);
    assert_eq!(code, ";var x = 1;\nvar y = 2;");
}

#[test]
fn concatenation_tracks_latest_mtime() {
    let files = vec![(vec![1u8, 2u8], 10i64), (vec![3u8], 30i64), (vec![], 20i64)];
    let (buf, mtime) = concat_files(&files);
    assert_eq!(buf, vec![1, 2, 59, 3, 59, 59]);
    assert_eq!(mtime, 30);
}

#[test]
fn timestamped_asset_names() {
    assert_eq!(untimestamped_path("ui.min-20220925145205.js"), "ui.min.js");
    assert_eq!(untimestamped_path("plain.css"), "plain.css");
    assert_eq!(
        build_fs_path("content", "styles.css", false),
        "content/assets/styles.css"
    );
    assert_eq!(
        build_fs_path("content", "styles-20220925145205.css", false),
        "content/assets/styles.css"
    );
    assert_eq!(
        build_fs_path("content", "styles-20220925145205.css", true),
        "content/assets/styles-20220925145205.css"
    );
}

#[test]
fn typography_quotes() {
    assert_eq!(typogrified("\"hello\""), "\u{201c}hello\u{201d}");
    assert_eq!(typogrified("say 'hi' now"), "say \u{2018}hi\u{2019} now");
    assert_eq!(typogrified("``quoted''"), "\u{201c}quoted\u{201d}");
    assert_eq!(typogrified("it's"), "it\u{2019}s");
}

#[test]
fn typography_decades_and_dashes() {
    assert_eq!(typogrified("the '80s"), "the \u{2019}80s");
    assert_eq!(typogrified("well--known"), "well\u{200a}\u{2013}\u{200a}known");
    assert_eq!(typogrified("a - b"), "a\u{2009}\u{2013}\u{2009}b");
    assert_eq!(typogrified("a -- b"), "a\u{2009}\u{2013}\u{2009}b");
    assert_eq!(typogrified("um---well"), "um\u{200a}\u{2014}\u{200a}well");
}

#[test]
fn typography_ellipsis_and_times() {
    assert_eq!(typogrified("wait..."), "wait\u{2026}");
    assert_eq!(typogrified("640x480"), "640\u{d7}480");
    assert_eq!(typogrified("ax12x"), "ax12x");
    assert_eq!(typogrified("plain text"), "plain text");
}

#[test]
fn typographic_rendering_skips_code() {
    let b = velum::article::builder::Builder::new(
        "# T\nsay \"hi\"\n\n    let x = \"code\";\n".to_string(),
        1,
        "t.md".to_string(),
        100,
    );
    let html = b.parsed_content();
    assert!(html.contains("\u{201c}hi\u{201d}"));
    assert!(html.contains("let x = &quot;code&quot;;"));
}
