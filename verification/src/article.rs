//! Articles: building them from source text, storing and fetching
//! them, and shaping them for rendering.

pub mod builder;
pub mod storage;
pub mod view;

use vstd::prelude::*;
use vstd::string::StringExecFns;
use crate::markdown::{html_of, render_markdown};
use crate::strutil::{
    i64_to_dec,
    spec_ascii_lower,
    is_sorted_le,
};
use crate::article::builder::{
    spec_title_of,
    spec_tags_line_of,
    spec_tags_raw,
    spec_main_content_of,
    Builder,
};

verus! {

/// What lowercasing yields for `s`, per Unicode case mapping.  The
/// result depends on the characters of `s` alone, and agrees with
/// ASCII lowercasing on ASCII letters.
pub uninterp spec fn lower_of(s: Seq<char>) -> Seq<char>;

/// Relies on str::to_lowercase: the Unicode lowercase of the text, a
/// function of its characters alone; on ASCII text it is the ASCII
/// lowercase.
#[verifier::external_body]
pub fn to_lowercase(s: &str) -> (r: String)
    ensures
        r@ == lower_of(s@),
        s.is_ascii() ==> r@ == spec_ascii_lower(s@),
{
    s.to_lowercase()
}

/// An earlier shape of the article builder, kept for the parts of the
/// system that store articles as plain key/value lists.
#[derive(Debug, Clone)]
pub struct ArticleBuilder {
    pub content: String,
    pub timestamp: i64,
}

impl ArticleBuilder {
    /// A builder over source text read elsewhere.
    pub fn new(content: String, timestamp: i64) -> (r: ArticleBuilder)
        ensures
            r.content == content,
            r.timestamp == timestamp,
    {
        ArticleBuilder { content, timestamp }
    }

    /// The first source line, stripped of its heading mark; nothing
    /// when the source is empty.
    pub fn title(&self) -> (r: Option<String>)
        ensures
            match r {
                Some(t) => self.content@.len() > 0 && t@ == spec_title_of(self.content@),
                None => self.content@.len() == 0,
            },
    {
        let b = Builder::new(self.content.clone(), self.timestamp, String::new(), 0);
        match b.title() {
            Ok(t) => Some(t),
            Err(_) => None,
        }
    }

    /// A lowercase key for the article, derived from the lowercased
    /// title.  Fails exactly when the source is empty.
    pub fn slug(&self) -> (r: Result<String, &'static str>)
        ensures
            r is Ok ==> self.content@.len() > 0,
            r is Err ==> self.content@.len() == 0,
    {
        match self.title() {
            Some(t) => {
                let lowercase_title: String = to_lowercase(t.as_str());
                let s: crate::slug::Slug = crate::slug::Slug::new(lowercase_title.as_str());
                Ok(s.into_string())
            },
            None => Err("unable to create key because article has no title"),
        }
    }

    /// The raw tags line, when the second source line is wrapped in
    /// bars.
    pub fn tags_line(&self) -> (r: Option<String>)
        ensures
            match r {
                Some(l) => spec_tags_line_of(self.content@) == Some(l@),
                None => spec_tags_line_of(self.content@) is None,
            },
    {
        let b = Builder::new(self.content.clone(), self.timestamp, String::new(), 0);
        b.tags_line()
    }

    /// The article's tags, sorted.
    pub fn tags(&self) -> (r: Vec<String>)
        ensures
            is_sorted_le(r@.map_values(|p: String| p@)),
            r@.map_values(|p: String| p@).to_multiset() == spec_tags_raw(
                self.content@,
            ).to_multiset(),
    {
        let b = Builder::new(self.content.clone(), self.timestamp, String::new(), 0);
        b.tags()
    }

    /// The body rendered to HTML (without the typographic pass, which
    /// the key/value storage path never applied).
    pub fn parsed_content(&self) -> (r: String)
        ensures
            r@ == html_of(spec_main_content_of(self.content@)),
    {
        let b = Builder::new(self.content.clone(), self.timestamp, String::new(), 0);
        let content: String = b.main_content();
        render_markdown(content.as_str())
    }

    /// The article's fields as a key/value list, for storage in a
    /// plain hash: title, rendered content, slug and timestamp.
    pub fn to_kv_list(&self) -> (r: Vec<(String, String)>)
        ensures
            r@.len() == 4,
            r@[0].0@ == "title"@,
            r@[1].0@ == "content"@,
            r@[1].1@ == html_of(spec_main_content_of(self.content@)),
            r@[2].0@ == "slug"@,
            r@[3].0@ == "timestamp"@,
            r@[3].1@ == crate::strutil::spec_i64_digits(self.timestamp as int),
            self.content@.len() > 0 ==> r@[0].1@ == spec_title_of(self.content@),
            self.content@.len() == 0 ==> r@[0].1@ == "<no title>"@,
    {
        let title: String = match self.title() {
            Some(t) => t,
            None => "<no title>".to_owned(),
        };
        let slug: String = match self.slug() {
            Ok(s) => s,
            Err(_) => "-".to_owned(),
        };
        let mut r: Vec<(String, String)> = Vec::new();
        r.push(("title".to_owned(), title));
        r.push(("content".to_owned(), self.parsed_content()));
        r.push(("slug".to_owned(), slug));
        r.push(("timestamp".to_owned(), i64_to_dec(self.timestamp)));
        r
    }
}

} // verus!
