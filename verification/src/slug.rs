//! URL-safe slugs: ASCII letters and digits lowercased, whitespace and
//! hyphens collapsed to single hyphens, everything else dropped, after
//! Unicode decomposition has split letters from their diacritics.

use vstd::prelude::*;
use vstd::string::StringExecFns;
use vstd::string::StrSliceExecFns;
use crate::strutil::{
    is_ws_char,
    is_ws,
    spec_ascii_lower_char,
    ascii_lower_char,
    spec_trim,
    trim_matches_char,
    string_push_char,
};

verus! {

/// What canonical decomposition (NFD) yields for `s`.  The result
/// depends on the characters of `s` alone.
pub uninterp spec fn nfd_of(s: Seq<char>) -> Seq<char>;

/// Relies on unicode_normalization's nfd(): the canonical
/// decomposition of the text, a function of its characters alone.
/// An empty text stays empty, and ASCII text — having no composed
/// characters — comes back unchanged.
#[verifier::external_body]
fn nfd_chars(s: &str) -> (r: Vec<char>)
    ensures
        r@ == nfd_of(s@),
        s@.len() == 0 ==> r@.len() == 0,
        s.is_ascii() ==> r@ == s@,
{
    unicode_normalization::UnicodeNormalization::nfd(s).collect()
}

/// `c` is an ASCII letter or digit.
pub open spec fn is_ascii_alnum(c: char) -> bool {
    ('a' <= c && c <= 'z') || ('A' <= c && c <= 'Z') || ('0' <= c && c <= '9')
}

/// One character of decomposed text, as the slug keeps it: lowercased
/// when an ASCII letter or digit, a hyphen for whitespace or a hyphen,
/// dropped otherwise.
pub open spec fn spec_slug_char(c: char) -> Option<char> {
    if is_ascii_alnum(c) {
        Some(spec_ascii_lower_char(c))
    } else if is_ws_char(c) || c == '-' {
        Some('-')
    } else {
        None
    }
}

/// The kept characters of decomposed text, before hyphen collapsing.
pub open spec fn spec_slug_kept(s: Seq<char>) -> Seq<char>
    decreases s.len(),
{
    if s.len() == 0 {
        Seq::empty()
    } else {
        let rest = spec_slug_kept(s.subrange(0, s.len() - 1));
        match spec_slug_char(s[s.len() - 1]) {
            Some(c) => rest.push(c),
            None => rest,
        }
    }
}

/// Runs of hyphens collapsed to a single hyphen.
pub open spec fn spec_collapse_hyphens(s: Seq<char>) -> Seq<char>
    decreases s.len(),
{
    if s.len() == 0 {
        Seq::empty()
    } else {
        let rest = spec_collapse_hyphens(s.subrange(0, s.len() - 1));
        if s[s.len() - 1] == '-' && s.len() >= 2 && s[s.len() - 2] == '-' {
            rest
        } else {
            rest.push(s[s.len() - 1])
        }
    }
}

/// The slug of decomposed text: keep and lowercase, collapse hyphen
/// runs, trim hyphens from the ends.
pub open spec fn spec_slug_of_decomposed(s: Seq<char>) -> Seq<char> {
    spec_trim(spec_collapse_hyphens(spec_slug_kept(s)), |x: char| x == '-')
}

/// A URL-safe, lowercase key derived from a title.
#[derive(Debug)]
pub struct Slug {
    slug: String,
}

impl Slug {
    /// The slug text.
    pub closed spec fn view(&self) -> Seq<char> {
        self.slug@
    }

    /// Convert the given string to a URL-safe, lowercase version.
    pub fn new(s: &str) -> (r: Slug)
        ensures
            r@ == spec_slug_of_decomposed(nfd_of(s@)),
    {
        let decomposed: Vec<char> = nfd_chars(s);
        let n: usize = decomposed.len();
        let mut kept: String = String::new();
        proof {
            assert(decomposed@.subrange(0, 0) =~= Seq::<char>::empty());
            assert(kept@ =~= spec_slug_kept(decomposed@.subrange(0, 0)));
        }
        let mut i: usize = 0;
        while i < n
            invariant
                0 <= i <= n,
                n == decomposed@.len(),
                kept@ == spec_slug_kept(decomposed@.subrange(0, i as int)),
            decreases n - i,
        {
            let c: char = decomposed[i];
            proof {
                assert(decomposed@.subrange(0, i + 1).subrange(0, i as int)
                    =~= decomposed@.subrange(0, i as int));
                assert(decomposed@.subrange(0, i + 1)[i as int] == c);
            }
            if (c >= 'a' && c <= 'z') || (c >= 'A' && c <= 'Z') || (c >= '0' && c <= '9') {
                string_push_char(&mut kept, ascii_lower_char(c));
            } else if is_ws(c) || c == '-' {
                string_push_char(&mut kept, '-');
            }
            i += 1;
        }
        proof {
            assert(decomposed@.subrange(0, n as int) =~= decomposed@);
        }
        let kn: usize = kept.as_str().unicode_len();
        let mut collapsed: String = String::new();
        proof {
            assert(kept@.subrange(0, 0) =~= Seq::<char>::empty());
            assert(collapsed@ =~= spec_collapse_hyphens(kept@.subrange(0, 0)));
        }
        let mut j: usize = 0;
        while j < kn
            invariant
                0 <= j <= kn,
                kn == kept@.len(),
                collapsed@ == spec_collapse_hyphens(kept@.subrange(0, j as int)),
            decreases kn - j,
        {
            let c: char = kept.as_str().get_char(j);
            proof {
                assert(kept@.subrange(0, j + 1).subrange(0, j as int) =~= kept@.subrange(
                    0,
                    j as int,
                ));
                assert(kept@.subrange(0, j + 1)[j as int] == c);
                if j >= 1 {
                    assert(kept@.subrange(0, j + 1)[j - 1] == kept@[j - 1]);
                }
            }
            if c == '-' && j >= 1 && kept.as_str().get_char(j - 1) == '-' {
            } else {
                string_push_char(&mut collapsed, c);
            }
            j += 1;
        }
        proof {
            assert(kept@.subrange(0, kn as int) =~= kept@);
        }
        let trimmed: String = trim_matches_char(collapsed.as_str(), '-');
        Slug { slug: trimmed }
    }

    /// The slug as a string.
    pub fn into_string(self) -> (r: String)
        ensures
            r@ == self@,
    {
        self.slug
    }

    /// The slug's text, borrowed.
    pub fn as_str(&self) -> (r: &str)
        ensures
            r@ == self@,
    {
        self.slug.as_str()
    }

    /// The slug followed by further text, as one string.
    pub fn concat_str(self, other: &str) -> (r: String)
        ensures
            r@ == self@ + other@,
    {
        self.slug.concat(other)
    }
}

} // verus!
