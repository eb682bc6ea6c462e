//! Template support: naming templates from their paths, and the text
//! helpers the templates call.

pub mod helpers;

use vstd::prelude::*;
use vstd::string::StrSliceExecFns;
use vstd::string::StringExecFns;
use crate::strutil::{match_at, append_range};
use crate::thumbnails::{spec_dir_of, spec_file_of};

verus! {

/// The name a template file registers under: its path below the
/// template directory, with the file's extensions dropped.
/// The prefix must really be a prefix ending at a separator (or the
/// path itself starts right after it).
pub fn template_name(path: &str, prefix: &str) -> (r: String)
    requires
        match_at(path@, prefix@, 0),
    ensures
        ({
            let rest = path@.subrange(prefix@.len() as int, path@.len() as int);
            let deprefixed = spec_dir_of(rest);
            let stem = spec_first_dot_stem(spec_file_of(rest));
            (rest.len() > 0 && rest[rest.len() - 1] != '/') ==> r@ == if deprefixed.len()
                == 0 {
                stem
            } else {
                deprefixed + seq!['/'] + stem
            }
        }),
{
    let pl: usize = prefix.unicode_len();
    let n: usize = path.unicode_len();
    let mut rest: String = String::new();
    append_range(&mut rest, path, pl, n);
    let parts: crate::thumbnails::NameParts = match crate::thumbnails::NameParts::new(
        rest.as_str(),
    ) {
        Ok(p) => p,
        Err(_) => {
            return String::new();
        },
    };
    let stem: String = first_dot_stem(parts.file_name.as_str());
    if parts.dir.as_str().unicode_len() == 0 {
        proof {
            assert(parts.dir@.len() == 0);
            assert(parts.dir@ =~= Seq::<char>::empty());
        }
        stem
    } else {
        let mut out: String = parts.dir.clone();
        crate::strutil::string_push_char(&mut out, '/');
        out.append(stem.as_str());
        out
    }
}

/// A file name cut at its first dot.
pub open spec fn spec_first_dot_stem(f: Seq<char>) -> Seq<char> {
    match crate::strutil::spec_find(f, seq!['.']) {
        Some(k) => f.subrange(0, k),
        None => f,
    }
}

/// Cut a file name at its first dot.
fn first_dot_stem(f: &str) -> (r: String)
    ensures
        r@ == spec_first_dot_stem(f@),
{
    proof {
        crate::strutil::lemma_spec_find(f@, seq!['.']);
    }
    let mut dot: String = String::new();
    crate::strutil::string_push_char(&mut dot, '.');
    assert(dot@ =~= seq!['.']);
    let n: usize = f.unicode_len();
    match crate::strutil::find_from(f, dot.as_str(), 0) {
        Some(k) => {
            proof {
                match crate::strutil::spec_find(f@, seq!['.']) {
                    Some(j) => {
                        assert(crate::strutil::match_at(f@, seq!['.'], j));
                        if j < k {
                            assert(!crate::strutil::match_at(f@, seq!['.'], j));
                        }
                        if k < j {
                            assert(!crate::strutil::match_at(f@, seq!['.'], k as int));
                        }
                    },
                    None => {
                        assert(crate::strutil::match_at(f@, seq!['.'], k as int));
                    },
                }
            }
            let mut out: String = String::new();
            append_range(&mut out, f, 0, k);
            out
        },
        None => {
            proof {
                match crate::strutil::spec_find(f@, seq!['.']) {
                    Some(j) => {
                        assert(crate::strutil::match_at(f@, seq!['.'], j));
                    },
                    None => {},
                }
            }
            f.to_owned()
        },
    }
}

} // verus!
