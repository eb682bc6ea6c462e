//! Text helpers used by the templates: pluralising, timestamped asset
//! names, tag lists, URLs, and human-readable ages.

use vstd::prelude::*;
use vstd::string::StrSliceExecFns;
use vstd::string::StringExecFns;
use crate::strutil::{
    i64_to_dec,
    string_push_char,
    append_range,
    str_eq,
    spec_trim_end,
    trim_end_matches_char,
    split_char,
};
use crate::thumbnails::{spec_ext_dot, rfind_char};

verus! {

/// A counted noun: the word with an `s` when the count is not one.
pub fn pluralize(word: &str, num: i64) -> (r: (String, i64))
    ensures
        r.1 == num,
        num == 1 ==> r.0@ == word@,
        num != 1 ==> r.0@ == word@ + "s"@,
{
    if num == 1 {
        (word.to_owned(), num)
    } else {
        let mut w: String = word.to_owned();
        w.append("s");
        (w, num)
    }
}

/// A path with a timestamp spliced in before the extension:
/// `dir/stem-STAMP.ext`.  A path with no stem/extension split stays
/// as it is.
pub fn path_with_timestamp(path: &str, stamp: &str) -> (r: String)
    ensures
        match spec_ext_dot(path@) {
            Some(k) => r@ == path@.subrange(0, k) + seq!['-'] + stamp@ + seq!['.']
                + path@.subrange(k + 1, path@.len() as int),
            None => r@ == path@,
        },
{
    let n: usize = path.unicode_len();
    match rfind_char(path, '.') {
        Some(k) => {
            if k == 0 || k + 1 >= n {
                return path.to_owned();
            }
            let mut out: String = String::new();
            append_range(&mut out, path, 0, k);
            string_push_char(&mut out, '-');
            out.append(stamp);
            string_push_char(&mut out, '.');
            append_range(&mut out, path, k + 1, n);
            out
        },
        None => path.to_owned(),
    }
}

/// The absolute URL of an article: the blog URL (trailing slashes
/// trimmed) joined with the article route and slug.
pub fn article_full_url(blog_url: &str, slug: &str) -> (r: String)
    ensures
        r@ == spec_trim_end(blog_url@, |x: char| x == '/') + "/article/"@ + slug@,
{
    let trimmed: String = trim_end_matches_char(blog_url, '/');
    let mut out: String = trimmed;
    out.append("/article/");
    out.append(slug);
    out
}

/// The tag list of an article as HTML: each tag a link, the searched
/// tag (when given) marked as current instead.
pub fn render_tags(tags: &Vec<String>, search_tag: Option<&str>) -> (r: String)
    ensures
        r@.len() >= "<ul class=\"tags\"></ul>"@.len(),
{
    let mut html: String = String::new();
    html.append("<ul class=\"tags\">");
    let n: usize = tags.len();
    let mut i: usize = 0;
    while i < n
        invariant
            0 <= i <= n,
            n == tags@.len(),
            html@.len() >= "<ul class=\"tags\">"@.len(),
        decreases n - i,
    {
        let tag: &String = &tags[i];
        html.append("<li>");
        let is_current: bool = match search_tag {
            Some(st) => str_eq(tag.as_str(), st),
            None => false,
        };
        if is_current {
            html.append("<span class=\"current-tag\">");
            html.append(tag.as_str());
            html.append("</span>");
        } else {
            html.append("<a href=\"/tag/");
            html.append(tag.as_str());
            html.append("\">");
            html.append(tag.as_str());
            html.append("</a>");
        }
        html.append("</li>");
        i += 1;
    }
    html.append("</ul>");
    proof {
        reveal_strlit("<ul class=\"tags\">");
        reveal_strlit("</ul>");
        reveal_strlit("<ul class=\"tags\"></ul>");
    }
    html
}

/// The text of the return link for a path: the home label for the
/// root, a tag label for tag searches, a page label for index pages.
pub fn return_text(path: &str) -> (r: String)
{
    if str_eq(path, "/") {
        return "Home".to_owned();
    }
    let trimmed: String = crate::strutil::trim_start_matches_char(path, '/');
    let parts: Vec<String> = split_char(trimmed.as_str(), '/');
    let head: &String = &parts[0];
    if str_eq(head.as_str(), "tag") && parts.len() >= 2 {
        let mut text: String = String::new();
        text.append("Tag: <b>");
        text.append(parts[1].as_str());
        text.append("</b>");
        if parts.len() == 2 {
            text
        } else {
            let mut out: String = text;
            out.append(" (page ");
            out.append(parts[2].as_str());
            out.append(")");
            out
        }
    } else if str_eq(head.as_str(), "articles") && parts.len() >= 2 {
        if str_eq(path, "/articles/1") {
            "Home".to_owned()
        } else {
            let mut out: String = String::new();
            out.append("Articles (page ");
            out.append(parts[1].as_str());
            out.append(")");
            out
        }
    } else {
        "Home".to_owned()
    }
}

/// A human-readable age: the time since `ts_ms` at `now_ms`, bucketed
/// into minutes, hours, days, weeks, months or years.
pub fn age_description(now_ms: i64, ts_ms: i64) -> (r: String)
    requires
        ts_ms <= now_ms,
        now_ms - ts_ms <= i64::MAX,
{
    let age_ms: i64 = now_ms - ts_ms;
    let minutes: i64 = age_ms / 60_000;
    let hours: i64 = age_ms / 3_600_000;
    let days: i64 = age_ms / 86_400_000;
    let weeks: i64 = days / 7;
    let (unit, num): (String, i64) = if minutes < 60 * 24 {
        if minutes <= 90 {
            if minutes == 0 {
                ("Just now".to_owned(), 0)
            } else {
                pluralize("minute", minutes)
            }
        } else {
            pluralize("hour", hours)
        }
    } else {
        if days <= 14 {
            pluralize("day", days)
        } else if days <= 31 {
            pluralize("week", weeks)
        } else if days <= 365 {
            // months are taken as thirty days, close enough here
            pluralize("month", days / 30)
        } else {
            let years: i64 = days / 365;
            let months: i64 = (days - years * 365) / 30;
            proof {
                assert(years * 365 <= days) by (nonlinear_arith)
                    requires
                        years == days / 365,
                        days >= 0,
                ;
            }
            let (yunit, _): (String, i64) = pluralize("year", years);
            let mut unit: String = i64_to_dec(years);
            unit.append(" ");
            unit.append(yunit.as_str());
            unit.append(" ");
            let md: String = i64_to_dec(months);
            unit.append(md.as_str());
            (unit, months)
        }
    };
    if num > 0 {
        let mut out: String = i64_to_dec(num);
        out.append(" ");
        out.append(unit.as_str());
        out.append(" ago");
        out
    } else {
        unit
    }
}

} // verus!
