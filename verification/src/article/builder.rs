//! Building articles from their Markdown sources: title, slug, tags,
//! preview and rendered content.
//!
//! An article source starts with a `# Title` line, may carry a
//! `|tag, tag|` line right after it, and continues with the body.

use vstd::prelude::*;
use vstd::string::StrSliceExecFns;
use vstd::string::StringExecFns;
use crate::errors::ParseError;
use crate::markdown::{
    typographic_html_of,
    render_markdown_typographic,
    text_pieces_of,
    markdown_text_pieces,
};
use crate::typography::{spec_typogrified, typogrified};
use crate::slug::{Slug, nfd_of, spec_slug_of_decomposed};
use crate::strutil::{
    is_ws_char,
    spec_lines,
    split_lines,
    spec_join,
    join_with,
    spec_split,
    split_char,
    spec_trim,
    spec_trim_start,
    trim_ws,
    trim_matches_char,
    is_sorted_le,
    sort_strings,
    str_starts_with,
    str_ends_with,
    append_range,
    };

verus! {

/// Truncate to at most `max_chars` characters, never splitting the
/// text anywhere but at a character boundary.
pub fn safe_truncate(s: &str, max_chars: usize) -> (r: String)
    ensures
        r@ == if max_chars <= s@.len() {
            s@.subrange(0, max_chars as int)
        } else {
            s@
        },
{
    let n: usize = s.unicode_len();
    let end: usize = if max_chars <= n {
        max_chars
    } else {
        n
    };
    let mut out: String = String::new();
    append_range(&mut out, s, 0, end);
    proof {
        if max_chars > s@.len() {
            assert(s@.subrange(0, n as int) =~= s@);
        }
    }
    out
}

/// The title of a source: its first line, with a single leading `#`
/// and the whitespace after it removed.
pub open spec fn spec_title_of(content: Seq<char>) -> Seq<char>
    recommends
        content.len() > 0,
{
    let l = spec_lines(content)[0];
    if l.len() > 0 && l[0] == '#' {
        spec_trim_start(l.subrange(1, l.len() as int), |c: char| is_ws_char(c))
    } else {
        l
    }
}

/// The raw tags line of a source: its second line, when that line is
/// wrapped in `|` bars.
pub open spec fn spec_tags_line_of(content: Seq<char>) -> Option<Seq<char>> {
    let ls = spec_lines(content);
    if ls.len() >= 2 && ls[1].len() > 0 && ls[1][0] == '|' && ls[1][ls[1].len() - 1] == '|' {
        Some(ls[1])
    } else {
        None
    }
}

/// The slugs of the comma-separated tags of a source, before sorting.
pub open spec fn spec_tags_raw(content: Seq<char>) -> Seq<Seq<char>> {
    match spec_tags_line_of(content) {
        Some(line) => spec_split(
            spec_trim(line, |x: char| x == '|'),
            ',',
        ).map_values(
            |p: Seq<char>| spec_slug_of_decomposed(
                nfd_of(spec_trim(p, |x: char| is_ws_char(x))),
            ),
        ),
        None => Seq::empty(),
    }
}

/// The body of a source: every line after the title line (and after
/// the tags line, when there is one), rejoined.
pub open spec fn spec_main_content_of(content: Seq<char>) -> Seq<char> {
    let skip: int = if spec_tags_line_of(content) is Some {
        2int
    } else {
        1int
    };
    let ls = spec_lines(content);
    if ls.len() <= skip {
        Seq::empty()
    } else {
        spec_join(ls.subrange(skip, ls.len() as int), seq!['\n'])
    }
}

/// Collects an article's source text and builds its parsed parts.
#[derive(Debug, Clone)]
pub struct Builder {
    pub content: String,
    pub timestamp: i64,
    pub source_filename: String,
    pub max_preview_length: usize,
}

impl Builder {
    /// A builder over source text read elsewhere.
    pub fn new(
        content: String,
        timestamp: i64,
        source_filename: String,
        max_preview_length: usize,
    ) -> (r: Builder)
        ensures
            r.content == content,
            r.timestamp == timestamp,
            r.source_filename == source_filename,
            r.max_preview_length == max_preview_length,
    {
        Builder { content, timestamp, source_filename, max_preview_length }
    }

    /// The article's title: the first source line, stripped of its
    /// heading mark.  Fails exactly when the source is empty.
    pub fn title(&self) -> (r: Result<String, ParseError>)
        ensures
            match r {
                Ok(t) => self.content@.len() > 0 && t@ == spec_title_of(self.content@),
                Err(e) => self.content@.len() == 0 && e.cause@ == "unable to parse title"@,
            },
    {
        let lines: Vec<String> = split_lines(self.content.as_str());
        if lines.len() == 0 {
            proof {
                if self.content@.len() > 0 {
                    crate::strutil::lemma_lines_nonempty(self.content@);
                    assert(lines@.map_values(|p: String| p@).len() == 0);
                }
            }
            return Err(ParseError::new("unable to parse title".to_owned()));
        }
        let first: &String = &lines[0];
        proof {
            assert(lines@.map_values(|p: String| p@)[0] == first@);
            assert(self.content@.len() > 0) by {
                if self.content@.len() == 0 {
                    assert(spec_lines(self.content@).len() == 0);
                }
            }
        }
        let fl: usize = first.as_str().unicode_len();
        if fl > 0 && first.as_str().get_char(0) == '#' {
            let mut rest: String = String::new();
            append_range(&mut rest, first.as_str(), 1, fl);
            Ok(trim_ws_start_only(rest.as_str()))
        } else {
            Ok(first.clone())
        }
    }

    /// The article's slug, derived from its title.
    pub fn slug(&self) -> (r: Result<Slug, ParseError>)
        ensures
            match r {
                Ok(s) => self.content@.len() > 0 && s@ == spec_slug_of_decomposed(
                    nfd_of(spec_title_of(self.content@)),
                ),
                Err(e) => self.content@.len() == 0,
            },
    {
        match self.title() {
            Ok(t) => Ok(Slug::new(t.as_str())),
            Err(e) => Err(e),
        }
    }

    /// The raw tags line, when the second source line is wrapped in
    /// bars.
    pub fn tags_line(&self) -> (r: Option<String>)
        ensures
            match r {
                Some(l) => spec_tags_line_of(self.content@) == Some(l@),
                None => spec_tags_line_of(self.content@) is None,
            },
    {
        let lines: Vec<String> = split_lines(self.content.as_str());
        if lines.len() < 2 {
            return None;
        }
        let line: &String = &lines[1];
        proof {
            assert(lines@.map_values(|p: String| p@)[1] == line@);
        }
        if str_starts_with(line.as_str(), "|") && str_ends_with(line.as_str(), "|") {
            proof {
                reveal_strlit("|");
                let lv = line@;
                assert(lv.len() > 0 && lv[0] == '|' && lv[lv.len() - 1] == '|') by {
                    assert(lv.subrange(0, 1) =~= "|"@);
                    assert(lv.subrange(lv.len() - 1, lv.len() as int) =~= "|"@);
                    assert(lv[0] == lv.subrange(0, 1)[0]);
                    assert(lv[lv.len() - 1] == lv.subrange(lv.len() - 1, lv.len() as int)[0]);
                }
            }
            Some(line.clone())
        } else {
            proof {
                reveal_strlit("|");
                let lv = line@;
                if lv.len() > 0 && lv[0] == '|' && lv[lv.len() - 1] == '|' {
                    assert(lv.subrange(0, 1) =~= "|"@);
                    assert(lv.subrange(lv.len() - 1, lv.len() as int) =~= "|"@);
                }
            }
            None
        }
    }

    /// The article's tags: the bar-wrapped line split at commas, each
    /// piece trimmed and slugified, sorted ascending.
    pub fn tags(&self) -> (r: Vec<String>)
        ensures
            is_sorted_le(r@.map_values(|p: String| p@)),
            r@.map_values(|p: String| p@).to_multiset() == spec_tags_raw(
                self.content@,
            ).to_multiset(),
    {
        broadcast use vstd::seq_lib::group_to_multiset_ensures;

        match self.tags_line() {
            Some(line) => {
                let trimmed: String = trim_matches_char(line.as_str(), '|');
                let pieces: Vec<String> = split_char(trimmed.as_str(), ',');
                let pn: usize = pieces.len();
                let mut tags: Vec<String> = Vec::new();
                let ghost target = spec_tags_raw(self.content@);
                proof {
                    assert(pieces@.map_values(|p: String| p@) == spec_split(
                        spec_trim(line@, |c: char| c == '|'),
                        ',',
                    ));
                    assert(target == pieces@.map_values(|p: String| p@).map_values(
                        |p: Seq<char>| spec_slug_of_decomposed(
                            nfd_of(spec_trim(p, |x: char| is_ws_char(x))),
                        ),
                    ));
                    assert(tags@.map_values(|p: String| p@) =~= target.subrange(0, 0));
                }
                let mut i: usize = 0;
                while i < pn
                    invariant
                        0 <= i <= pn,
                        pn == pieces@.len(),
                        target.len() == pn,
                        target == pieces@.map_values(|p: String| p@).map_values(
                            |p: Seq<char>| spec_slug_of_decomposed(
                                nfd_of(spec_trim(p, |x: char| is_ws_char(x))),
                            ),
                        ),
                        tags@.map_values(|p: String| p@) == target.subrange(0, i as int),
                    decreases pn - i,
                {
                    let t: String = trim_ws(pieces[i].as_str());
                    let sg: Slug = Slug::new(t.as_str());
                    let sv: String = sg.into_string();
                    let ghost old_tags = tags@;
                    tags.push(sv);
                    proof {
                        let pv = pieces@.map_values(|p: String| p@);
                        assert(pv[i as int] == pieces@[i as int]@);
                        assert(target[i as int] == spec_slug_of_decomposed(
                            nfd_of(spec_trim(pv[i as int], |x: char| is_ws_char(x))),
                        ));
                        let lhs = tags@.map_values(|p: String| p@);
                        assert(tags@ == old_tags.push(sv));
                        assert(sv@ == spec_slug_of_decomposed(nfd_of(t@)));
                        assert(tags@.len() == old_tags.len() + 1);
                        assert(old_tags.map_values(|p: String| p@) == target.subrange(
                            0,
                            i as int,
                        ));
                        assert(old_tags.map_values(|p: String| p@).len() == old_tags.len());
                        assert(lhs.len() == tags@.len());
                        assert(lhs.len() == i + 1);
                        assert(t@ == spec_trim(pv[i as int], |x: char| is_ws_char(x)));
                        assert(lhs[i as int] == spec_slug_of_decomposed(nfd_of(t@)));
                        assert(lhs[i as int] == target[i as int]);
                        assert forall|m: int| 0 <= m < i implies lhs[m] == target[m] by {
                            let prev_l = old_tags.map_values(|p: String| p@);
                            assert(tags@[m] == old_tags[m]);
                            assert(prev_l[m] == target.subrange(0, i as int)[m]);
                        }
                        assert(tags@.map_values(|p: String| p@) =~= target.subrange(0, i + 1));
                    }
                    i += 1;
                }
                proof {
                    assert(target.subrange(0, pn as int) =~= target);
                }
                let sorted: Vec<String> = sort_strings(&tags);
                sorted
            },
            None => {
                let tags: Vec<String> = Vec::new();
                proof {
                    assert(tags@.map_values(|p: String| p@) =~= Seq::<Seq<char>>::empty());
                    assert(Seq::<Seq<char>>::empty().to_multiset() =~= spec_tags_raw(
                        self.content@,
                    ).to_multiset());
                }
                tags
            },
        }
    }

    /// The article body: the source without its title and tags lines.
    pub fn main_content(&self) -> (r: String)
        ensures
            r@ == spec_main_content_of(self.content@),
    {
        let skip: usize = match self.tags_line() {
            Some(_) => 2,
            None => 1,
        };
        let lines: Vec<String> = split_lines(self.content.as_str());
        let n: usize = lines.len();
        if n <= skip {
            proof {
                assert(spec_lines(self.content@).len() == lines@.map_values(
                    |p: String| p@,
                ).len());
            }
            return String::new();
        }
        let mut rest: Vec<String> = Vec::new();
        let mut i: usize = skip;
        while i < n
            invariant
                skip <= i <= n,
                n == lines@.len(),
                rest@.len() == i - skip,
                forall|m: int| 0 <= m < rest@.len() ==> rest@[m] == lines@[m + skip],
            decreases n - i,
        {
            rest.push(lines[i].clone());
            i += 1;
        }
        let joined: String = join_with(&rest, "\n");
        proof {
            reveal_strlit("\n");
            assert("\n"@ =~= seq!['\n']);
            let lv = lines@.map_values(|p: String| p@);
            assert(rest@.map_values(|p: String| p@) =~= lv.subrange(skip as int, lv.len() as int));
        }
        joined
    }

    /// A plain-text preview of the body: its text pieces joined, cut
    /// to the preview length and typographically polished, with an
    /// ellipsis when the cut bit.
    pub fn content_preview(&self, max_len: usize) -> (r: String)
        ensures
            ({
                let joined = spec_join(
                    text_pieces_of(spec_main_content_of(self.content@)),
                    seq![' '],
                );
                let cut = if max_len <= joined.len() {
                    joined.subrange(0, max_len as int)
                } else {
                    joined
                };
                let polished = spec_typogrified(cut);
                r@ == if polished.len() < max_len {
                    polished
                } else {
                    polished + "…"@
                }
            }),
    {
        let content: String = self.main_content();
        let parts: Vec<String> = markdown_text_pieces(content.as_str());
        let joined: String = join_with(&parts, " ");
        proof {
            reveal_strlit(" ");
            assert(" "@ =~= seq![' ']);
        }
        let cut: String = safe_truncate(joined.as_str(), max_len);
        let truncated: String = typogrified(cut.as_str());
        if truncated.as_str().unicode_len() < max_len {
            truncated
        } else {
            truncated.concat("…")
        }
    }

    /// The body rendered to HTML, with the typographic pass applied
    /// to its prose.
    pub fn parsed_content(&self) -> (r: String)
        ensures
            r@ == typographic_html_of(spec_main_content_of(self.content@)),
    {
        let content: String = self.main_content();
        render_markdown_typographic(content.as_str())
    }
}

/// Trim whitespace from the start only.
fn trim_ws_start_only(s: &str) -> (r: String)
    ensures
        r@ == spec_trim_start(s@, |c: char| is_ws_char(c)),
{
    let ghost p = |c: char| is_ws_char(c);
    let n: usize = s.unicode_len();
    let mut i: usize = 0;
    while i < n && crate::strutil::is_ws(s.get_char(i))
        invariant
            0 <= i <= n,
            n == s@.len(),
            forall|k: int| 0 <= k < i ==> is_ws_char(s@[k]),
        decreases n - i,
    {
        i += 1;
    }
    proof {
        crate::strutil::lemma_trim_start_at(s@, p, i as int);
    }
    let mut out: String = String::new();
    append_range(&mut out, s, i, n);
    out
}

/// The title and slug a neighbouring article is shown with.
#[derive(Debug)]
pub struct ArticlePrevNext {
    pub title: String,
    pub slug: String,
}

impl Clone for ArticlePrevNext {
    /// A clone carries the same link.
    fn clone(&self) -> (res: Self)
        ensures
            res == *self,
    {
        ArticlePrevNext { title: self.title.clone(), slug: self.slug.clone() }
    }
}

impl ArticlePrevNext {
    /// The neighbour links of a parsed article.
    pub fn from_article(value: &ParsedArticle) -> (r: ArticlePrevNext)
        ensures
            r.title == value.title,
            r.slug == value.slug,
    {
        ArticlePrevNext { title: value.title.clone(), slug: value.slug.clone() }
    }
}

/// A fully parsed article, ready for rendering.
#[derive(Debug)]
pub struct ParsedArticle {
    pub title: String,
    pub parsed_content: String,
    pub base_content: String,
    pub preview: String,
    pub slug: String,
    pub source_filename: String,
    pub timestamp: i64,
    pub tags: Vec<String>,
    pub comment_count: usize,
    pub prev: Option<ArticlePrevNext>,
    pub next: Option<ArticlePrevNext>,
}

/// Two parsed articles hold the same data, field for field.
pub open spec fn same_article(a: ParsedArticle, b: ParsedArticle) -> bool {
    &&& a.title == b.title
    &&& a.parsed_content == b.parsed_content
    &&& a.base_content == b.base_content
    &&& a.preview == b.preview
    &&& a.slug == b.slug
    &&& a.source_filename == b.source_filename
    &&& a.timestamp == b.timestamp
    &&& a.tags@ == b.tags@
    &&& a.comment_count == b.comment_count
    &&& a.prev == b.prev
    &&& a.next == b.next
}

impl Clone for ParsedArticle {
    /// A clone carries the same article data.
    fn clone(&self) -> (res: Self)
        ensures
            same_article(res, *self),
    {
        let tags: Vec<String> = copy_strings(&self.tags);
        let prev: Option<ArticlePrevNext> = match &self.prev {
            Some(p) => Some(p.clone()),
            None => None,
        };
        let next: Option<ArticlePrevNext> = match &self.next {
            Some(p) => Some(p.clone()),
            None => None,
        };
        let res = ParsedArticle {
            title: self.title.clone(),
            parsed_content: self.parsed_content.clone(),
            base_content: self.base_content.clone(),
            preview: self.preview.clone(),
            slug: self.slug.clone(),
            source_filename: self.source_filename.clone(),
            timestamp: self.timestamp,
            tags,
            comment_count: self.comment_count,
            prev,
            next,
        };
        res
    }
}

/// Copy a vector of strings.
fn copy_strings(v: &Vec<String>) -> (r: Vec<String>)
    ensures
        r@ == v@,
{
    let n: usize = v.len();
    let mut r: Vec<String> = Vec::new();
    let mut i: usize = 0;
    while i < n
        invariant
            0 <= i <= n,
            n == v@.len(),
            r@.len() == i,
            forall|k: int| 0 <= k < i ==> r@[k] == v@[k],
        decreases n - i,
    {
        r.push(v[i].clone());
        i += 1;
    }
    proof {
        assert(r@ =~= v@);
    }
    r
}

impl ParsedArticle {
    /// Parse a builder's source into an article.  Fails exactly when
    /// the source is empty (no title line).
    pub fn from_builder(b: &Builder) -> (r: Result<ParsedArticle, ParseError>)
        ensures
            match r {
                Ok(a) => {
                    &&& b.content@.len() > 0
                    &&& a.title@ == spec_title_of(b.content@)
                    &&& a.slug@ == spec_slug_of_decomposed(nfd_of(spec_title_of(b.content@)))
                    &&& a.parsed_content@ == typographic_html_of(
                        spec_main_content_of(b.content@),
                    )
                    &&& a.base_content == b.content
                    &&& a.source_filename == b.source_filename
                    &&& a.timestamp == b.timestamp
                    &&& is_sorted_le(a.tags@.map_values(|p: String| p@))
                    &&& a.tags@.map_values(|p: String| p@).to_multiset() == spec_tags_raw(
                        b.content@,
                    ).to_multiset()
                    &&& a.comment_count == 0
                    &&& a.prev is None
                    &&& a.next is None
                },
                Err(_) => b.content@.len() == 0,
            },
    {
        let title: String = match b.title() {
            Ok(t) => t,
            Err(e) => {
                return Err(e);
            },
        };
        let slug: Slug = match b.slug() {
            Ok(s) => s,
            Err(e) => {
                return Err(e);
            },
        };
        Ok(
            ParsedArticle {
                slug: slug.into_string(),
                title,
                parsed_content: b.parsed_content(),
                base_content: b.content.clone(),
                preview: b.content_preview(b.max_preview_length),
                source_filename: b.source_filename.clone(),
                timestamp: b.timestamp,
                tags: b.tags(),
                comment_count: 0,
                prev: None,
                next: None,
            },
        )
    }
}

} // verus!
