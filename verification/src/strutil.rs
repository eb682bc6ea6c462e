//! Verified string utilities: substring search, replacement, splitting,
//! joining, trimming, ordering, and integer formatting/parsing.
//!
//! Everything here works on `Seq<char>` views; executable code walks
//! characters with the vstd string primitives.

use vstd::prelude::*;
use vstd::multiset::Multiset;
use vstd::string::StrSliceExecFns;
use vstd::string::StringExecFns;

verus! {

/// A char `c` counts as whitespace here.  Mirrors the characters the
/// Unicode `White_Space` property contains among ASCII.
pub open spec fn is_ws_char(c: char) -> bool {
    c == ' ' || c == '\t' || c == '\n' || c == '\r'
}

/// Executable whitespace test.
pub fn is_ws(c: char) -> (r: bool)
    ensures
        r == is_ws_char(c),
{
    c == ' ' || c == '\t' || c == '\n' || c == '\r'
}

/// Relies on String::push: appends one character.
#[verifier::external_body]
pub fn string_push_char(s: &mut String, c: char)
    ensures
        final(s)@ == old(s)@.push(c),
{
    s.push(c);
}

/// `pat` occurs in `s` at position `i`.
pub open spec fn match_at(s: Seq<char>, pat: Seq<char>, i: int) -> bool {
    0 <= i && i + pat.len() <= s.len() && s.subrange(i, i + pat.len() as int) == pat
}

/// Does `pat` occur at position `i` of `s`?
pub fn starts_with_at(s: &str, pat: &str, i: usize) -> (r: bool)
    requires
        i <= s@.len(),
    ensures
        r == match_at(s@, pat@, i as int),
{
    let n: usize = s.unicode_len();
    let m: usize = pat.unicode_len();
    if m > n - i {
        assert(!match_at(s@, pat@, i as int));
        return false;
    }
    let mut j: usize = 0;
    while j < m
        invariant
            i + m <= n,
            n == s@.len(),
            m == pat@.len(),
            0 <= j <= m,
            forall|k: int| 0 <= k < j ==> s@[i + k] == pat@[k],
        decreases m - j,
    {
        if s.get_char(i + j) != pat.get_char(j) {
            assert(s@.subrange(i as int, i + m) != pat@) by {
                assert(s@.subrange(i as int, i + m)[j as int] != pat@[j as int]);
            }
            return false;
        }
        j += 1;
    }
    assert(s@.subrange(i as int, i + m) =~= pat@);
    true
}

/// Are two strings equal, character for character?
pub fn str_eq(a: &str, b: &str) -> (r: bool)
    ensures
        r == (a@ == b@),
{
    let an: usize = a.unicode_len();
    let bn: usize = b.unicode_len();
    if an != bn {
        return false;
    }
    let r: bool = starts_with_at(a, b, 0);
    proof {
        if r {
            assert(a@.subrange(0, bn as int) =~= a@);
        } else {
            if a@ == b@ {
                assert(a@.subrange(0, bn as int) =~= b@);
            }
        }
    }
    r
}

/// `s` starts with `pat`.
pub fn str_starts_with(s: &str, pat: &str) -> (r: bool)
    ensures
        r == match_at(s@, pat@, 0),
{
    starts_with_at(s, pat, 0)
}

/// `s` ends with `pat`.
pub fn str_ends_with(s: &str, pat: &str) -> (r: bool)
    ensures
        r == (pat@.len() <= s@.len() && match_at(s@, pat@, s@.len() - pat@.len())),
{
    let n: usize = s.unicode_len();
    let m: usize = pat.unicode_len();
    if m > n {
        false
    } else {
        starts_with_at(s, pat, n - m)
    }
}

/// First occurrence of `pat` in `s` at or after `from`.
pub fn find_from(s: &str, pat: &str, from: usize) -> (r: Option<usize>)
    requires
        from <= s@.len(),
        pat@.len() > 0,
    ensures
        match r {
            Some(j) => from <= j && match_at(s@, pat@, j as int) && forall|k: int|
                from <= k < j ==> !match_at(s@, pat@, k),
            None => forall|k: int| from <= k ==> !match_at(s@, pat@, k),
        },
{
    let n: usize = s.unicode_len();
    let m: usize = pat.unicode_len();
    if m > n || from > n - m {
        assert(forall|k: int| from <= k ==> !match_at(s@, pat@, k));
        return None;
    }
    let mut i: usize = from;
    while i <= n - m
        invariant
            1 <= m <= n,
            from <= i <= n - m + 1,
            n == s@.len(),
            m == pat@.len(),
            forall|k: int| from <= k < i ==> !match_at(s@, pat@, k),
        decreases n - m - i + 1,
    {
        if starts_with_at(s, pat, i) {
            return Some(i);
        }
        i += 1;
    }
    assert(forall|k: int| from <= k ==> !match_at(s@, pat@, k)) by {
        assert(forall|k: int| k + pat@.len() > s@.len() ==> !match_at(s@, pat@, k));
    }
    None
}

/// `s` contains `pat` somewhere.
pub fn str_contains(s: &str, pat: &str) -> (r: bool)
    requires
        pat@.len() > 0,
    ensures
        r == exists|k: int| match_at(s@, pat@, k),
{
    match find_from(s, pat, 0) {
        Some(j) => {
            assert(match_at(s@, pat@, j as int));
            true
        },
        None => {
            assert(forall|k: int| !match_at(s@, pat@, k)) by {
                assert(forall|k: int| k < 0 ==> !match_at(s@, pat@, k));
            }
            false
        },
    }
}

/// The position of the first occurrence of `pat` in `s`, if any;
/// `None` when `pat` does not occur.
pub open spec fn spec_find(s: Seq<char>, pat: Seq<char>) -> Option<int>
    decreases s.len(),
{
    if pat.len() > s.len() {
        None
    } else if s.subrange(0, pat.len() as int) == pat {
        Some(0int)
    } else if s.len() == 0 {
        None
    } else {
        match spec_find(s.subrange(1, s.len() as int), pat) {
            None => None,
            Some(i) => Some(i + 1),
        }
    }
}

/// `spec_find` returns exactly the least match position.
pub proof fn lemma_spec_find(s: Seq<char>, pat: Seq<char>)
    ensures
        match spec_find(s, pat) {
            Some(i) => match_at(s, pat, i) && forall|k: int| 0 <= k < i ==> !match_at(s, pat, k),
            None => forall|k: int| !match_at(s, pat, k),
        },
    decreases s.len(),
{
    if pat.len() > s.len() {
        assert(forall|k: int| !match_at(s, pat, k));
    } else if s.subrange(0, pat.len() as int) == pat {
        assert(match_at(s, pat, 0));
    } else if s.len() == 0 {
        assert(!match_at(s, pat, 0));
        assert(forall|k: int| !match_at(s, pat, k));
    } else {
        let t = s.subrange(1, s.len() as int);
        lemma_spec_find(t, pat);
        assert(forall|k: int| 1 <= k ==> match_at(s, pat, k) == match_at(t, pat, k - 1)) by {
            assert forall|k: int| 1 <= k implies match_at(s, pat, k) == match_at(t, pat, k - 1) by {
                if 1 <= k && k + pat.len() <= s.len() {
                    assert(s.subrange(k, k + pat.len() as int) =~= t.subrange(
                        k - 1,
                        k - 1 + pat.len() as int,
                    ));
                }
            }
        }
        match spec_find(t, pat) {
            None => {
                assert(!match_at(s, pat, 0));
                assert(forall|k: int| k < 0 ==> !match_at(s, pat, k));
            },
            Some(i) => {
                assert(match_at(s, pat, i + 1));
                assert(!match_at(s, pat, 0));
            },
        }
    }
}

/// Every occurrence of `pat` replaced by `rep`, scanning left to right
/// over non-overlapping matches.
pub open spec fn spec_replace_all(s: Seq<char>, pat: Seq<char>, rep: Seq<char>) -> Seq<char>
    recommends
        pat.len() > 0,
    decreases s.len(),
{
    match spec_find(s, pat) {
        None => s,
        Some(i) => if 0 < pat.len() && 0 <= i && i + pat.len() <= s.len() {
            s.subrange(0, i) + rep + spec_replace_all(
                s.subrange(i + pat.len() as int, s.len() as int),
                pat,
                rep,
            )
        } else {
            s
        },
    }
}

/// Copy the characters `s[from..to]` onto the end of `out`.
pub fn append_range(out: &mut String, s: &str, from: usize, to: usize)
    requires
        from <= to <= s@.len(),
    ensures
        final(out)@ == old(out)@ + s@.subrange(from as int, to as int),
{
    let piece: &str = s.substring_char(from, to);
    out.append(piece);
}

/// Replace every occurrence of `pat` in `s` by `rep`.
pub fn replace_all(s: &str, pat: &str, rep: &str) -> (r: String)
    requires
        pat@.len() > 0,
    ensures
        r@ == spec_replace_all(s@, pat@, rep@),
    decreases s@.len(),
{
    proof {
        lemma_spec_find(s@, pat@);
    }
    match find_from(s, pat, 0) {
        None => {
            proof {
                match spec_find(s@, pat@) {
                    Some(i) => {
                        assert(match_at(s@, pat@, i));
                    },
                    None => {},
                }
            }
            s.to_owned()
        },
        Some(i) => {
            let ghost oi = spec_find(s@, pat@);
            proof {
                match oi {
                    None => {
                        assert(match_at(s@, pat@, i as int));
                    },
                    Some(j) => {
                        // both are the least match, so they agree
                        assert(match_at(s@, pat@, j));
                        assert(!(j < i)) by {
                            if j < i {
                                assert(!match_at(s@, pat@, j));
                            }
                        }
                        assert(!(i < j)) by {
                            if i < j {
                                assert(!match_at(s@, pat@, i as int));
                            }
                        }
                    },
                }
            }
            let pl: usize = pat.unicode_len();
            let n: usize = s.unicode_len();
            let mut out: String = String::new();
            append_range(&mut out, s, 0, i);
            out.append(rep);
            let tail: &str = s.substring_char(i + pl, n);
            let rec: String = replace_all(tail, pat, rep);
            let result: String = out.concat(rec.as_str());
            assert(result@ =~= spec_replace_all(s@, pat@, rep@));
            result
        },
    }
}

/// `s` split at every occurrence of the character `sep`; a string with
/// no separator yields one piece, so the result is never empty.
pub open spec fn spec_split(s: Seq<char>, sep: char) -> Seq<Seq<char>>
    decreases s.len(),
{
    match spec_find(s, seq![sep]) {
        None => seq![s],
        Some(i) => if 0 <= i && i < s.len() {
            seq![s.subrange(0, i)] + spec_split(s.subrange(i + 1, s.len() as int), sep)
        } else {
            seq![s]
        },
    }
}

/// Split `s` at every occurrence of `sep`.
pub fn split_char(s: &str, sep: char) -> (r: Vec<String>)
    ensures
        r@.map_values(|p: String| p@) == spec_split(s@, sep),
        r@.len() > 0,
    decreases s@.len(),
{
    let mut sepstr: String = String::new();
    string_push_char(&mut sepstr, sep);
    assert(sepstr@ =~= seq![sep]);
    proof {
        lemma_spec_find(s@, seq![sep]);
    }
    match find_from(s, sepstr.as_str(), 0) {
        None => {
            proof {
                match spec_find(s@, seq![sep]) {
                    Some(i) => {
                        assert(match_at(s@, seq![sep], i));
                    },
                    None => {},
                }
            }
            let mut r: Vec<String> = Vec::new();
            r.push(s.to_owned());
            assert(r@.map_values(|p: String| p@) =~= spec_split(s@, sep));
            r
        },
        Some(i) => {
            let ghost oi = spec_find(s@, seq![sep]);
            proof {
                match oi {
                    None => {
                        assert(match_at(s@, seq![sep], i as int));
                    },
                    Some(j) => {
                        assert(match_at(s@, seq![sep], j));
                        assert(!(j < i)) by {
                            if j < i {
                                assert(!match_at(s@, seq![sep], j));
                            }
                        }
                        assert(!(i < j)) by {
                            if i < j {
                                assert(!match_at(s@, seq![sep], i as int));
                            }
                        }
                    },
                }
            }
            let n: usize = s.unicode_len();
            let mut head: String = String::new();
            append_range(&mut head, s, 0, i);
            let tail: &str = s.substring_char(i + 1, n);
            let mut rest: Vec<String> = split_char(tail, sep);
            let mut r: Vec<String> = Vec::new();
            r.push(head);
            let mut k: usize = 0;
            let rl: usize = rest.len();
            while k < rl
                invariant
                    0 <= k <= rl,
                    rl == rest@.len(),
                    r@.len() == k + 1,
                    r@[0]@ == s@.subrange(0, i as int),
                    forall|m: int| 0 <= m < k ==> r@[m + 1]@ == rest@[m]@,
                decreases rl - k,
            {
                let piece: String = rest[k].clone();
                r.push(piece);
                k += 1;
            }
            assert(r@.map_values(|p: String| p@) =~= spec_split(s@, sep)) by {
                let lhs = r@.map_values(|p: String| p@);
                let rhs = spec_split(s@, sep);
                assert(rest@.map_values(|p: String| p@) == spec_split(tail@, sep));
                assert forall|m: int| 0 <= m < lhs.len() implies lhs[m] == rhs[m] by {
                    if m >= 1 {
                        assert(rest@.map_values(|p: String| p@)[m - 1] == rest@[m - 1]@);
                    }
                }
            }
            r
        },
    }
}

/// The pieces joined with `sep` between them.
pub open spec fn spec_join(v: Seq<Seq<char>>, sep: Seq<char>) -> Seq<char>
    decreases v.len(),
{
    if v.len() == 0 {
        Seq::empty()
    } else if v.len() == 1 {
        v[0]
    } else {
        v[0] + sep + spec_join(v.subrange(1, v.len() as int), sep)
    }
}

/// Join the strings of `v` with `sep` between them.
pub fn join_with(v: &Vec<String>, sep: &str) -> (r: String)
    ensures
        r@ == spec_join(v@.map_values(|p: String| p@), sep@),
{
    let mut out: String = String::new();
    let n: usize = v.len();
    if n == 0 {
        return out;
    }
    out.append(v[0].as_str());
    let mut i: usize = 1;
    while i < n
        invariant
            1 <= i <= n,
            n == v@.len(),
            out@ == spec_join(v@.map_values(|p: String| p@).subrange(0, i as int), sep@),
        decreases n - i,
    {
        out.append(sep);
        out.append(v[i].as_str());
        proof {
            let vs = v@.map_values(|p: String| p@);
            lemma_join_snoc(vs.subrange(0, i + 1), sep@);
            assert(vs.subrange(0, i + 1).subrange(0, i as int) =~= vs.subrange(0, i as int));
        }
        i += 1;
    }
    proof {
        assert(v@.map_values(|p: String| p@).subrange(0, n as int) =~= v@.map_values(
            |p: String| p@,
        ));
    }
    out
}

/// Joining `v` equals joining all but the last piece, then `sep`, then
/// the last piece.
pub proof fn lemma_join_snoc(v: Seq<Seq<char>>, sep: Seq<char>)
    requires
        v.len() >= 2,
    ensures
        spec_join(v, sep) == spec_join(v.subrange(0, v.len() - 1), sep) + sep + v[v.len() - 1],
    decreases v.len(),
{
    if v.len() == 2 {
        assert(v.subrange(1, v.len() as int).len() == 1);
        assert(spec_join(v.subrange(1, v.len() as int), sep) == v[1]);
        assert(v.subrange(0, 1).len() == 1);
        assert(spec_join(v.subrange(0, 1), sep) == v.subrange(0, 1)[0]);
        assert(v.subrange(0, 1)[0] == v[0]);
    } else {
        let t = v.subrange(1, v.len() as int);
        lemma_join_snoc(t, sep);
        assert(t.subrange(0, t.len() - 1) =~= v.subrange(0, v.len() - 1).subrange(
            1,
            v.len() - 1,
        ));
        assert(spec_join(v, sep) == v[0] + sep + spec_join(t, sep));
        assert(t[t.len() - 1] == v[v.len() - 1]);
        let h = v.subrange(0, v.len() - 1);
        assert(h.len() >= 2);
        assert(spec_join(h, sep) == h[0] + sep + spec_join(h.subrange(1, h.len() as int), sep));
        assert(h[0] == v[0]);
        assert(spec_join(v, sep) =~= spec_join(h, sep) + sep + v[v.len() - 1]);
    }
}

/// `s` with leading characters satisfying `p` removed.
pub open spec fn spec_trim_start(s: Seq<char>, p: spec_fn(char) -> bool) -> Seq<char>
    decreases s.len(),
{
    if s.len() > 0 && p(s[0]) {
        spec_trim_start(s.subrange(1, s.len() as int), p)
    } else {
        s
    }
}

/// `s` with trailing characters satisfying `p` removed.
pub open spec fn spec_trim_end(s: Seq<char>, p: spec_fn(char) -> bool) -> Seq<char>
    decreases s.len(),
{
    if s.len() > 0 && p(s[s.len() - 1]) {
        spec_trim_end(s.subrange(0, s.len() - 1), p)
    } else {
        s
    }
}

/// `s` trimmed on both ends.
pub open spec fn spec_trim(s: Seq<char>, p: spec_fn(char) -> bool) -> Seq<char> {
    spec_trim_end(spec_trim_start(s, p), p)
}

/// If the first `i` characters satisfy `p` and position `i` does not
/// (or is the end), trimming the start lands exactly at `i`.
pub proof fn lemma_trim_start_at(s: Seq<char>, p: spec_fn(char) -> bool, i: int)
    requires
        0 <= i <= s.len(),
        forall|k: int| 0 <= k < i ==> p(s[k]),
        i == s.len() || !p(s[i]),
    ensures
        spec_trim_start(s, p) == s.subrange(i, s.len() as int),
    decreases i,
{
    if i == 0 {
        if s.len() > 0 && p(s[0]) {
            assert(false);
        }
        assert(s.subrange(0, s.len() as int) =~= s);
    } else {
        let t = s.subrange(1, s.len() as int);
        lemma_trim_start_at(t, p, i - 1);
        assert(t.subrange(i - 1, t.len() as int) =~= s.subrange(i, s.len() as int));
    }
}

/// Dual of `lemma_trim_start_at` for the end of the string.
pub proof fn lemma_trim_end_at(s: Seq<char>, p: spec_fn(char) -> bool, j: int)
    requires
        0 <= j <= s.len(),
        forall|k: int| j <= k < s.len() ==> p(s[k]),
        j == 0 || !p(s[j - 1]),
    ensures
        spec_trim_end(s, p) == s.subrange(0, j),
    decreases s.len() - j,
{
    if j == s.len() {
        if s.len() > 0 && p(s[s.len() - 1]) {
            assert(false);
        }
        assert(s.subrange(0, s.len() as int) =~= s);
    } else {
        let t = s.subrange(0, s.len() - 1);
        lemma_trim_end_at(t, p, j);
        assert(t.subrange(0, j) =~= s.subrange(0, j));
    }
}

/// Trim characters equal to `c` from both ends, as `str::trim_matches`
/// with a single-char pattern does.
pub fn trim_matches_char(s: &str, c: char) -> (r: String)
    ensures
        r@ == spec_trim(s@, |x: char| x == c),
{
    let ghost p = |x: char| x == c;
    let n: usize = s.unicode_len();
    let mut i: usize = 0;
    while i < n && s.get_char(i) == c
        invariant
            0 <= i <= n,
            n == s@.len(),
            forall|k: int| 0 <= k < i ==> s@[k] == c,
        decreases n - i,
    {
        i += 1;
    }
    let mut j: usize = n;
    while j > i && s.get_char(j - 1) == c
        invariant
            i <= j <= n,
            n == s@.len(),
            forall|k: int| j <= k < n ==> s@[k] == c,
        decreases j,
    {
        j -= 1;
    }
    proof {
        lemma_trim_start_at(s@, p, i as int);
        let t = s@.subrange(i as int, n as int);
        lemma_trim_end_at(t, p, j - i);
        assert(t.subrange(0, j - i) =~= s@.subrange(i as int, j as int));
    }
    let mut out: String = String::new();
    append_range(&mut out, s, i, j);
    out
}

/// Trim whitespace from both ends, as `str::trim` does for ASCII text.
pub fn trim_ws(s: &str) -> (r: String)
    ensures
        r@ == spec_trim(s@, |x: char| is_ws_char(x)),
{
    let ghost p = |x: char| is_ws_char(x);
    let n: usize = s.unicode_len();
    let mut i: usize = 0;
    while i < n && is_ws(s.get_char(i))
        invariant
            0 <= i <= n,
            n == s@.len(),
            forall|k: int| 0 <= k < i ==> is_ws_char(s@[k]),
        decreases n - i,
    {
        i += 1;
    }
    let mut j: usize = n;
    while j > i && is_ws(s.get_char(j - 1))
        invariant
            i <= j <= n,
            n == s@.len(),
            forall|k: int| j <= k < n ==> is_ws_char(s@[k]),
        decreases j,
    {
        j -= 1;
    }
    proof {
        lemma_trim_start_at(s@, p, i as int);
        let t = s@.subrange(i as int, n as int);
        lemma_trim_end_at(t, p, j - i);
        assert(t.subrange(0, j - i) =~= s@.subrange(i as int, j as int));
    }
    let mut out: String = String::new();
    append_range(&mut out, s, i, j);
    out
}

/// Trim only the start, by a single-char pattern.
pub fn trim_start_matches_char(s: &str, c: char) -> (r: String)
    ensures
        r@ == spec_trim_start(s@, |x: char| x == c),
{
    let ghost p = |x: char| x == c;
    let n: usize = s.unicode_len();
    let mut i: usize = 0;
    while i < n && s.get_char(i) == c
        invariant
            0 <= i <= n,
            n == s@.len(),
            forall|k: int| 0 <= k < i ==> s@[k] == c,
        decreases n - i,
    {
        i += 1;
    }
    proof {
        lemma_trim_start_at(s@, p, i as int);
    }
    let mut out: String = String::new();
    append_range(&mut out, s, i, n);
    out
}

/// Trim only the end, by a single-char pattern.
pub fn trim_end_matches_char(s: &str, c: char) -> (r: String)
    ensures
        r@ == spec_trim_end(s@, |x: char| x == c),
{
    let ghost p = |x: char| x == c;
    let n: usize = s.unicode_len();
    let mut j: usize = n;
    while j > 0 && s.get_char(j - 1) == c
        invariant
            0 <= j <= n,
            n == s@.len(),
            forall|k: int| j <= k < n ==> s@[k] == c,
        decreases j,
    {
        j -= 1;
    }
    proof {
        lemma_trim_end_at(s@, p, j as int);
    }
    let mut out: String = String::new();
    append_range(&mut out, s, 0, j);
    out
}

/// A line with a trailing carriage return stripped.
pub open spec fn spec_strip_cr(l: Seq<char>) -> Seq<char> {
    if l.len() > 0 && l[l.len() - 1] == '\r' {
        l.subrange(0, l.len() - 1)
    } else {
        l
    }
}

/// The lines of `s`, as `str::lines` yields them: split at `'\n'`, no
/// empty trailing line when `s` ends with a newline, and a trailing
/// `'\r'` stripped from each line.
pub open spec fn spec_lines(s: Seq<char>) -> Seq<Seq<char>> {
    if s.len() == 0 {
        Seq::empty()
    } else {
        let ps = spec_split(s, '\n');
        let kept = if s[s.len() - 1] == '\n' {
            ps.subrange(0, ps.len() - 1)
        } else {
            ps
        };
        kept.map_values(|l: Seq<char>| spec_strip_cr(l))
    }
}

/// Split `s` into its lines.
pub fn split_lines(s: &str) -> (r: Vec<String>)
    ensures
        r@.map_values(|p: String| p@) == spec_lines(s@),
{
    let n: usize = s.unicode_len();
    let mut r: Vec<String> = Vec::new();
    if n == 0 {
        assert(r@.map_values(|p: String| p@) =~= spec_lines(s@));
        return r;
    }
    let mut pieces: Vec<String> = split_char(s, '\n');
    if s.get_char(n - 1) == '\n' {
        proof {
            assert(pieces@.len() > 0);
        }
        let _last: Option<String> = pieces.pop();
    }
    let ghost kept = pieces@.map_values(|p: String| p@);
    let m: usize = pieces.len();
    let mut i: usize = 0;
    while i < m
        invariant
            0 <= i <= m,
            m == pieces@.len(),
            r@.len() == i,
            kept == pieces@.map_values(|p: String| p@),
            forall|k: int| 0 <= k < i ==> r@[k]@ == spec_strip_cr(kept[k]),
        decreases m - i,
    {
        let piece: &String = &pieces[i];
        let pl: usize = piece.as_str().unicode_len();
        if pl > 0 && piece.as_str().get_char(pl - 1) == '\r' {
            let mut stripped: String = String::new();
            append_range(&mut stripped, piece.as_str(), 0, pl - 1);
            r.push(stripped);
        } else {
            let copy: String = piece.clone();
            r.push(copy);
        }
        i += 1;
    }
    proof {
        let ps = spec_split(s@, '\n');
        if s@[s@.len() - 1] == '\n' {
            assert(kept =~= ps.subrange(0, ps.len() - 1));
        } else {
            assert(kept =~= ps);
        }
        assert(r@.map_values(|p: String| p@) =~= spec_lines(s@));
    }
    r
}

/// A split has at least one piece.
pub proof fn lemma_split_nonempty(s: Seq<char>, sep: char)
    ensures
        spec_split(s, sep).len() >= 1,
{
}

/// A non-empty string has at least one line.
pub proof fn lemma_lines_nonempty(s: Seq<char>)
    requires
        s.len() > 0,
    ensures
        spec_lines(s).len() >= 1,
{
    let ps = spec_split(s, '\n');
    lemma_spec_find(s, seq!['\n']);
    if s[s.len() - 1] == '\n' {
        // the final newline splits off one more piece
        assert(exists|k: int| match_at(s, seq!['\n'], k)) by {
            assert(s.subrange(s.len() - 1, s.len() as int) =~= seq!['\n']);
            assert(match_at(s, seq!['\n'], s.len() - 1));
        }
        match spec_find(s, seq!['\n']) {
            None => {
                assert(false);
            },
            Some(i) => {
                assert(ps.len() >= 2) by {
                    lemma_split_nonempty(s.subrange(i + 1, s.len() as int), '\n');
                }
            },
        }
    } else {
        lemma_split_nonempty(s, '\n');
    }
}

/// Strict lexicographic order on character sequences, by code point.
pub open spec fn spec_str_lt(a: Seq<char>, b: Seq<char>) -> bool
    decreases a.len(),
{
    if b.len() == 0 {
        false
    } else if a.len() == 0 {
        true
    } else if a[0] != b[0] {
        a[0] < b[0]
    } else {
        spec_str_lt(a.subrange(1, a.len() as int), b.subrange(1, b.len() as int))
    }
}

/// Weak lexicographic order.
pub open spec fn spec_str_le(a: Seq<char>, b: Seq<char>) -> bool {
    spec_str_lt(a, b) || a == b
}

/// The lexicographic order is total: of two sequences, one is below
/// the other, or they are equal.
pub proof fn lemma_str_lt_total(a: Seq<char>, b: Seq<char>)
    ensures
        spec_str_lt(a, b) || spec_str_lt(b, a) || a == b,
        !(spec_str_lt(a, b) && spec_str_lt(b, a)),
    decreases a.len(),
{
    if b.len() == 0 || a.len() == 0 {
        if a.len() == 0 && b.len() == 0 {
            assert(a =~= b);
        }
    } else if a[0] != b[0] {
    } else {
        lemma_str_lt_total(a.subrange(1, a.len() as int), b.subrange(1, b.len() as int));
        if a.subrange(1, a.len() as int) == b.subrange(1, b.len() as int) {
            assert(a =~= b) by {
                assert(forall|k: int|
                    1 <= k < a.len() ==> a[k] == a.subrange(1, a.len() as int)[k - 1]);
            }
        }
    }
}

/// The lexicographic order is transitive.
pub proof fn lemma_str_lt_trans(a: Seq<char>, b: Seq<char>, c: Seq<char>)
    requires
        spec_str_lt(a, b),
        spec_str_lt(b, c),
    ensures
        spec_str_lt(a, c),
    decreases a.len(),
{
    if c.len() == 0 {
        assert(false);
    } else if b.len() == 0 {
        assert(false);
    } else if a.len() == 0 {
    } else {
        if a[0] != b[0] {
            if b[0] != c[0] {
            } else {
            }
        } else {
            if b[0] != c[0] {
            } else {
                lemma_str_lt_trans(
                    a.subrange(1, a.len() as int),
                    b.subrange(1, b.len() as int),
                    c.subrange(1, c.len() as int),
                );
            }
        }
    }
}

/// Compare two strings lexicographically by code point.
pub fn str_lt(a: &str, b: &str) -> (r: bool)
    ensures
        r == spec_str_lt(a@, b@),
{
    let an: usize = a.unicode_len();
    let bn: usize = b.unicode_len();
    assert(a@.subrange(0, an as int) =~= a@);
    assert(b@.subrange(0, bn as int) =~= b@);
    let mut i: usize = 0;
    while i < an && i < bn
        invariant
            0 <= i,
            i <= an,
            i <= bn,
            an == a@.len(),
            bn == b@.len(),
            forall|k: int| 0 <= k < i ==> a@[k] == b@[k],
            spec_str_lt(a@, b@) == spec_str_lt(
                a@.subrange(i as int, an as int),
                b@.subrange(i as int, bn as int),
            ),
        decreases an - i,
    {
        let ca: char = a.get_char(i);
        let cb: char = b.get_char(i);
        if ca != cb {
            proof {
                let ta = a@.subrange(i as int, an as int);
                let tb = b@.subrange(i as int, bn as int);
                assert(ta[0] == ca && tb[0] == cb);
            }
            return ca < cb;
        }
        proof {
            let ta = a@.subrange(i as int, an as int);
            let tb = b@.subrange(i as int, bn as int);
            assert(ta[0] == tb[0]);
            assert(ta.subrange(1, ta.len() as int) =~= a@.subrange(i + 1, an as int));
            assert(tb.subrange(1, tb.len() as int) =~= b@.subrange(i + 1, bn as int));
        }
        i += 1;
    }
    proof {
        let ta = a@.subrange(i as int, an as int);
        let tb = b@.subrange(i as int, bn as int);
        if i == an {
            assert(ta.len() == 0);
            if i == bn {
                assert(tb.len() == 0);
            }
        } else {
            assert(tb.len() == 0);
        }
    }
    an < bn
}

/// `v` is sorted ascending under the lexicographic order.
pub open spec fn is_sorted_le(v: Seq<Seq<char>>) -> bool {
    forall|i: int, j: int| 0 <= i < j < v.len() ==> spec_str_le(v[i], v[j])
}

/// `v` is sorted descending under the lexicographic order.
pub open spec fn is_sorted_ge(v: Seq<Seq<char>>) -> bool {
    forall|i: int, j: int| 0 <= i < j < v.len() ==> spec_str_le(v[j], v[i])
}

/// Sort strings ascending by code point, keeping exactly the same
/// multiset of elements (insertion sort).
pub fn sort_strings(v: &Vec<String>) -> (r: Vec<String>)
    ensures
        is_sorted_le(r@.map_values(|p: String| p@)),
        r@.map_values(|p: String| p@).to_multiset() == v@.map_values(
            |p: String| p@,
        ).to_multiset(),
{
    broadcast use vstd::seq_lib::group_to_multiset_ensures;

    let n: usize = v.len();
    let mut r: Vec<String> = Vec::new();
    assert(r@.map_values(|p: String| p@) =~= Seq::<Seq<char>>::empty());
    assert(v@.subrange(0, 0).map_values(|p: String| p@) =~= Seq::<Seq<char>>::empty());
    let mut i: usize = 0;
    while i < n
        invariant
            0 <= i <= n,
            n == v@.len(),
            is_sorted_le(r@.map_values(|p: String| p@)),
            r@.map_values(|p: String| p@).to_multiset() == v@.subrange(0, i as int).map_values(
                |p: String| p@,
            ).to_multiset(),
        decreases n - i,
    {
        let x: String = v[i].clone();
        insert_sorted(&mut r, x);
        proof {
            broadcast use vstd::seq_lib::group_to_multiset_ensures;

            assert(v@.subrange(0, i + 1).map_values(|p: String| p@) =~= v@.subrange(
                0,
                i as int,
            ).map_values(|p: String| p@).push(v@[i as int]@));
            assert(v@.subrange(0, i as int).map_values(|p: String| p@).push(
                v@[i as int]@,
            ).to_multiset() =~= v@.subrange(0, i as int).map_values(
                |p: String| p@,
            ).to_multiset().insert(v@[i as int]@));
        }
        i += 1;
    }
    proof {
        assert(v@.subrange(0, n as int) =~= v@);
    }
    r
}

/// Insert `x` into a sorted vector, keeping it sorted.
pub fn insert_sorted(r: &mut Vec<String>, x: String)
    requires
        is_sorted_le(old(r)@.map_values(|p: String| p@)),
    ensures
        is_sorted_le(final(r)@.map_values(|p: String| p@)),
        final(r)@.map_values(|p: String| p@).to_multiset() == old(r)@.map_values(
            |p: String| p@,
        ).to_multiset().insert(x@),
{
    broadcast use vstd::seq_lib::group_to_multiset_ensures;

    let n: usize = r.len();
    let mut pos: usize = 0;
    while pos < n && str_lt(r[pos].as_str(), x.as_str())
        invariant
            0 <= pos <= n,
            n == r@.len(),
            forall|k: int| 0 <= k < pos ==> spec_str_lt(r@[k]@, x@),
        decreases n - pos,
    {
        pos += 1;
    }
    let ghost before = r@;
    r.insert(pos, x);
    proof {
        let old_m = before.map_values(|p: String| p@);
        let new_m = r@.map_values(|p: String| p@);
        assert(new_m =~= old_m.subrange(0, pos as int).push(x@) + old_m.subrange(
            pos as int,
            old_m.len() as int,
        ));
        assert(new_m.to_multiset() =~= old_m.to_multiset().insert(x@)) by {
            assert(new_m =~= old_m.subrange(0, pos as int) + seq![x@] + old_m.subrange(
                pos as int,
                old_m.len() as int,
            ));
            vstd::seq_lib::lemma_multiset_commutative(
                old_m.subrange(0, pos as int) + seq![x@],
                old_m.subrange(pos as int, old_m.len() as int),
            );
            vstd::seq_lib::lemma_multiset_commutative(
                old_m.subrange(0, pos as int),
                seq![x@],
            );
            vstd::seq_lib::lemma_multiset_commutative(
                old_m.subrange(0, pos as int),
                old_m.subrange(pos as int, old_m.len() as int),
            );
            assert(old_m.subrange(0, pos as int) + old_m.subrange(
                pos as int,
                old_m.len() as int,
            ) =~= old_m);
            assert(seq![x@] =~= Seq::<Seq<char>>::empty().push(x@));
            assert(Seq::<Seq<char>>::empty().to_multiset() =~= Multiset::empty());
            assert(seq![x@].to_multiset() =~= Multiset::empty().insert(x@));
        }
        assert(is_sorted_le(new_m)) by {
            assert forall|i: int, j: int| 0 <= i < j < new_m.len() implies spec_str_le(
                new_m[i],
                new_m[j],
            ) by {
                if j < pos {
                    assert(spec_str_le(old_m[i], old_m[j]));
                } else if i > pos {
                    assert(spec_str_le(old_m[i - 1], old_m[j - 1]));
                } else if i == pos && j > pos {
                    // x vs element formerly at j-1: pos stopped where not lt
                    if pos < before.len() {
                        lemma_str_lt_total(old_m[pos as int], x@);
                        if j - 1 > pos {
                            assert(spec_str_le(old_m[pos as int], old_m[j - 1]));
                            if spec_str_lt(x@, old_m[j - 1]) {
                            } else {
                                lemma_str_lt_total(x@, old_m[j - 1]);
                                if old_m[j - 1] != x@ {
                                    lemma_str_lt_trans(old_m[j - 1], x@, old_m[pos as int]);
                                    if spec_str_lt(old_m[pos as int], old_m[j - 1]) {
                                        lemma_str_lt_trans(
                                            old_m[pos as int],
                                            old_m[j - 1],
                                            old_m[pos as int],
                                        );
                                        lemma_str_lt_total(old_m[pos as int], old_m[pos as int]);
                                    }
                                }
                            }
                        }
                    }
                } else if j == pos {
                    assert(spec_str_lt(old_m[i], x@));
                } else {
                    // i == pos && j == pos impossible since i < j
                }
            }
        }
    }
}

/// ASCII lowercase of one character.
pub open spec fn spec_ascii_lower_char(c: char) -> char {
    if c == 'A' {
        'a'
    } else if c == 'B' {
        'b'
    } else if c == 'C' {
        'c'
    } else if c == 'D' {
        'd'
    } else if c == 'E' {
        'e'
    } else if c == 'F' {
        'f'
    } else if c == 'G' {
        'g'
    } else if c == 'H' {
        'h'
    } else if c == 'I' {
        'i'
    } else if c == 'J' {
        'j'
    } else if c == 'K' {
        'k'
    } else if c == 'L' {
        'l'
    } else if c == 'M' {
        'm'
    } else if c == 'N' {
        'n'
    } else if c == 'O' {
        'o'
    } else if c == 'P' {
        'p'
    } else if c == 'Q' {
        'q'
    } else if c == 'R' {
        'r'
    } else if c == 'S' {
        's'
    } else if c == 'T' {
        't'
    } else if c == 'U' {
        'u'
    } else if c == 'V' {
        'v'
    } else if c == 'W' {
        'w'
    } else if c == 'X' {
        'x'
    } else if c == 'Y' {
        'y'
    } else if c == 'Z' {
        'z'
    } else {
        c
    }
}

/// ASCII lowercase of a string, character by character.
pub open spec fn spec_ascii_lower(s: Seq<char>) -> Seq<char> {
    s.map_values(|c: char| spec_ascii_lower_char(c))
}

/// Lowercase one ASCII character.
pub fn ascii_lower_char(c: char) -> (r: char)
    ensures
        r == spec_ascii_lower_char(c),
{
    match c {
        'A' => 'a',
        'B' => 'b',
        'C' => 'c',
        'D' => 'd',
        'E' => 'e',
        'F' => 'f',
        'G' => 'g',
        'H' => 'h',
        'I' => 'i',
        'J' => 'j',
        'K' => 'k',
        'L' => 'l',
        'M' => 'm',
        'N' => 'n',
        'O' => 'o',
        'P' => 'p',
        'Q' => 'q',
        'R' => 'r',
        'S' => 's',
        'T' => 't',
        'U' => 'u',
        'V' => 'v',
        'W' => 'w',
        'X' => 'x',
        'Y' => 'y',
        'Z' => 'z',
        _ => c,
    }
}

/// Lowercase the ASCII letters of `s`, as `to_ascii_lowercase` does.
pub fn to_ascii_lower(s: &str) -> (r: String)
    ensures
        r@ == spec_ascii_lower(s@),
{
    let n: usize = s.unicode_len();
    let mut out: String = String::new();
    let mut i: usize = 0;
    while i < n
        invariant
            0 <= i <= n,
            n == s@.len(),
            out@ == spec_ascii_lower(s@.subrange(0, i as int)),
        decreases n - i,
    {
        string_push_char(&mut out, ascii_lower_char(s.get_char(i)));
        proof {
            assert(s@.subrange(0, i + 1).drop_last() =~= s@.subrange(0, i as int));
            assert(out@ =~= spec_ascii_lower(s@.subrange(0, i + 1)));
        }
        i += 1;
    }
    proof {
        assert(s@.subrange(0, n as int) =~= s@);
    }
    out
}

/// Insert `x` into a descending-sorted vector, keeping it sorted.
pub fn insert_sorted_desc(r: &mut Vec<String>, x: String)
    requires
        is_sorted_ge(old(r)@.map_values(|p: String| p@)),
    ensures
        is_sorted_ge(final(r)@.map_values(|p: String| p@)),
        final(r)@.map_values(|p: String| p@).to_multiset() == old(r)@.map_values(
            |p: String| p@,
        ).to_multiset().insert(x@),
{
    broadcast use vstd::seq_lib::group_to_multiset_ensures;

    let n: usize = r.len();
    let mut pos: usize = 0;
    while pos < n && str_lt(x.as_str(), r[pos].as_str())
        invariant
            0 <= pos <= n,
            n == r@.len(),
            forall|k: int| 0 <= k < pos ==> spec_str_lt(x@, r@[k]@),
        decreases n - pos,
    {
        pos += 1;
    }
    let ghost before = r@;
    r.insert(pos, x);
    proof {
        let old_m = before.map_values(|p: String| p@);
        let new_m = r@.map_values(|p: String| p@);
        assert(new_m =~= old_m.subrange(0, pos as int).push(x@) + old_m.subrange(
            pos as int,
            old_m.len() as int,
        ));
        assert(new_m.to_multiset() =~= old_m.to_multiset().insert(x@)) by {
            assert(new_m =~= old_m.subrange(0, pos as int) + seq![x@] + old_m.subrange(
                pos as int,
                old_m.len() as int,
            ));
            vstd::seq_lib::lemma_multiset_commutative(
                old_m.subrange(0, pos as int) + seq![x@],
                old_m.subrange(pos as int, old_m.len() as int),
            );
            vstd::seq_lib::lemma_multiset_commutative(old_m.subrange(0, pos as int), seq![x@]);
            vstd::seq_lib::lemma_multiset_commutative(
                old_m.subrange(0, pos as int),
                old_m.subrange(pos as int, old_m.len() as int),
            );
            assert(old_m.subrange(0, pos as int) + old_m.subrange(
                pos as int,
                old_m.len() as int,
            ) =~= old_m);
            assert(seq![x@] =~= Seq::<Seq<char>>::empty().push(x@));
            assert(seq![x@].to_multiset() =~= Multiset::empty().insert(x@));
        }
        assert(is_sorted_ge(new_m)) by {
            assert forall|i: int, j: int| 0 <= i < j < new_m.len() implies spec_str_le(
                new_m[j],
                new_m[i],
            ) by {
                if j < pos {
                    assert(spec_str_le(old_m[j], old_m[i]));
                } else if i > pos {
                    assert(spec_str_le(old_m[j - 1], old_m[i - 1]));
                } else if i == pos && j > pos {
                    if pos < before.len() {
                        lemma_str_lt_total(old_m[pos as int], x@);
                        if j - 1 > pos {
                            assert(spec_str_le(old_m[j - 1], old_m[pos as int]));
                            if spec_str_lt(old_m[j - 1], x@) {
                            } else {
                                lemma_str_lt_total(old_m[j - 1], x@);
                                if old_m[j - 1] != x@ {
                                    lemma_str_lt_trans(x@, old_m[j - 1], old_m[pos as int]);
                                    if spec_str_lt(old_m[j - 1], old_m[pos as int]) {
                                        lemma_str_lt_trans(
                                            old_m[j - 1],
                                            old_m[pos as int],
                                            old_m[j - 1],
                                        );
                                        lemma_str_lt_total(old_m[j - 1], old_m[j - 1]);
                                    }
                                }
                            }
                        }
                    }
                } else if j == pos {
                    assert(spec_str_lt(x@, old_m[i]));
                }
            }
        }
    }
}

/// Sort strings descending by code point, keeping exactly the same
/// multiset of elements.
pub fn sort_strings_desc(v: &Vec<String>) -> (r: Vec<String>)
    ensures
        is_sorted_ge(r@.map_values(|p: String| p@)),
        r@.map_values(|p: String| p@).to_multiset() == v@.map_values(
            |p: String| p@,
        ).to_multiset(),
{
    broadcast use vstd::seq_lib::group_to_multiset_ensures;

    let n: usize = v.len();
    let mut r: Vec<String> = Vec::new();
    assert(r@.map_values(|p: String| p@) =~= Seq::<Seq<char>>::empty());
    assert(v@.subrange(0, 0).map_values(|p: String| p@) =~= Seq::<Seq<char>>::empty());
    let mut i: usize = 0;
    while i < n
        invariant
            0 <= i <= n,
            n == v@.len(),
            is_sorted_ge(r@.map_values(|p: String| p@)),
            r@.map_values(|p: String| p@).to_multiset() == v@.subrange(0, i as int).map_values(
                |p: String| p@,
            ).to_multiset(),
        decreases n - i,
    {
        let x: String = v[i].clone();
        insert_sorted_desc(&mut r, x);
        proof {
            broadcast use vstd::seq_lib::group_to_multiset_ensures;

            assert(v@.subrange(0, i + 1).map_values(|p: String| p@) =~= v@.subrange(
                0,
                i as int,
            ).map_values(|p: String| p@).push(v@[i as int]@));
        }
        i += 1;
    }
    proof {
        assert(v@.subrange(0, n as int) =~= v@);
    }
    r
}

/// `c` is an ASCII decimal digit.
pub open spec fn is_digit_char(c: char) -> bool {
    c == '0' || c == '1' || c == '2' || c == '3' || c == '4' || c == '5' || c == '6' || c == '7'
        || c == '8' || c == '9'
}

/// The numeric value of a digit character (10 when not a digit).
pub open spec fn spec_digit_val(c: char) -> int {
    if c == '0' {
        0int
    } else if c == '1' {
        1int
    } else if c == '2' {
        2int
    } else if c == '3' {
        3int
    } else if c == '4' {
        4int
    } else if c == '5' {
        5int
    } else if c == '6' {
        6int
    } else if c == '7' {
        7int
    } else if c == '8' {
        8int
    } else if c == '9' {
        9int
    } else {
        10int
    }
}

/// The digit character for a value below ten ('?' otherwise).
pub open spec fn spec_digit_char(d: int) -> char {
    if d == 0 {
        '0'
    } else if d == 1 {
        '1'
    } else if d == 2 {
        '2'
    } else if d == 3 {
        '3'
    } else if d == 4 {
        '4'
    } else if d == 5 {
        '5'
    } else if d == 6 {
        '6'
    } else if d == 7 {
        '7'
    } else if d == 8 {
        '8'
    } else if d == 9 {
        '9'
    } else {
        '?'
    }
}

/// Executable digit test.
pub fn is_digit(c: char) -> (r: bool)
    ensures
        r == is_digit_char(c),
{
    c >= '0' && c <= '9'
}

/// Executable digit value.
pub fn digit_val(c: char) -> (d: u64)
    requires
        is_digit_char(c),
    ensures
        d == spec_digit_val(c),
        d <= 9,
{
    match c {
        '0' => 0,
        '1' => 1,
        '2' => 2,
        '3' => 3,
        '4' => 4,
        '5' => 5,
        '6' => 6,
        '7' => 7,
        '8' => 8,
        _ => 9,
    }
}

/// Executable digit character.
pub fn digit_char(d: u64) -> (c: char)
    requires
        d <= 9,
    ensures
        c == spec_digit_char(d as int),
{
    match d {
        0 => '0',
        1 => '1',
        2 => '2',
        3 => '3',
        4 => '4',
        5 => '5',
        6 => '6',
        7 => '7',
        8 => '8',
        _ => '9',
    }
}

/// Every character of `s` is a decimal digit.
pub open spec fn all_digits(s: Seq<char>) -> bool {
    forall|k: int| 0 <= k < s.len() ==> is_digit_char(s[k])
}

/// The numeric value of a digit string.
pub open spec fn spec_digits_val(s: Seq<char>) -> int
    decreases s.len(),
{
    if s.len() == 0 {
        0int
    } else {
        spec_digits_val(s.subrange(0, s.len() - 1)) * 10 + spec_digit_val(s[s.len() - 1])
    }
}

/// A digit string has a non-negative value.
pub proof fn lemma_digits_val_nonneg(s: Seq<char>)
    requires
        all_digits(s),
    ensures
        spec_digits_val(s) >= 0,
    decreases s.len(),
{
    if s.len() > 0 {
        let t = s.subrange(0, s.len() - 1);
        assert(all_digits(t));
        lemma_digits_val_nonneg(t);
    }
}

/// Extending a digit string never lowers its value.
pub proof fn lemma_digits_val_prefix_le(s: Seq<char>, k: int)
    requires
        all_digits(s),
        0 <= k <= s.len(),
    ensures
        spec_digits_val(s.subrange(0, k)) <= spec_digits_val(s),
    decreases s.len() - k,
{
    if k < s.len() {
        let t = s.subrange(0, s.len() - 1);
        assert(all_digits(t));
        if k < t.len() {
            lemma_digits_val_prefix_le(t, k);
            assert(t.subrange(0, k) =~= s.subrange(0, k));
        } else {
            assert(t =~= s.subrange(0, k));
        }
        lemma_digits_val_nonneg(t);
        assert(spec_digits_val(t) * 10 >= spec_digits_val(t));
    } else {
        assert(s.subrange(0, k) =~= s);
    }
}

/// The decimal representation of a non-negative number.
pub open spec fn spec_u64_digits(n: int) -> Seq<char>
    decreases n,
{
    if n < 10 {
        seq![spec_digit_char(n)]
    } else {
        spec_u64_digits(n / 10).push(spec_digit_char(n % 10))
    }
}

/// The decimal representation of an integer, a minus sign in front of
/// a negative one.
pub open spec fn spec_i64_digits(n: int) -> Seq<char> {
    if n >= 0 {
        spec_u64_digits(n)
    } else {
        seq!['-'] + spec_u64_digits(-n)
    }
}

/// Format `n` in decimal, as `u64::to_string` does.
pub fn u64_to_dec(n: u64) -> (r: String)
    ensures
        r@ == spec_u64_digits(n as int),
    decreases n,
{
    if n < 10 {
        let mut out: String = String::new();
        string_push_char(&mut out, digit_char(n));
        assert(out@ =~= seq![spec_digit_char(n as int)]);
        out
    } else {
        let mut out: String = u64_to_dec(n / 10);
        string_push_char(&mut out, digit_char(n % 10));
        out
    }
}

/// Format `n` in decimal, as `i64::to_string` does.
pub fn i64_to_dec(n: i64) -> (r: String)
    ensures
        r@ == spec_i64_digits(n as int),
{
    if n >= 0 {
        u64_to_dec(n as u64)
    } else {
        let mag: u64 = if n == i64::MIN {
            9223372036854775808u64
        } else {
            (-n) as u64
        };
        let mut out: String = String::new();
        string_push_char(&mut out, '-');
        let digits: String = u64_to_dec(mag);
        let r: String = out.concat(digits.as_str());
        assert(r@ =~= seq!['-'] + spec_u64_digits(-(n as int)));
        r
    }
}

/// Format `n` in decimal.
pub fn usize_to_dec(n: usize) -> (r: String)
    ensures
        r@ == spec_u64_digits(n as int),
{
    u64_to_dec(n as u64)
}

/// What parsing `s` as an `i64` yields, mirroring `str::parse::<i64>`:
/// an optional sign, then at least one digit, and a value in range.
pub open spec fn spec_parse_i64(s: Seq<char>) -> Option<int> {
    let neg = s.len() > 0 && s[0] == '-';
    let signed = s.len() > 0 && (s[0] == '-' || s[0] == '+');
    let digits = if signed {
        s.subrange(1, s.len() as int)
    } else {
        s
    };
    if digits.len() > 0 && all_digits(digits) {
        let mag = spec_digits_val(digits);
        let v = if neg {
            -mag
        } else {
            mag
        };
        if -0x8000_0000_0000_0000 <= v < 0x8000_0000_0000_0000 {
            Some(v)
        } else {
            None
        }
    } else {
        None
    }
}

/// Parse `s` as an `i64`, as `str::parse::<i64>` does.
pub fn parse_i64(s: &str) -> (r: Option<i64>)
    ensures
        match r {
            Some(v) => spec_parse_i64(s@) == Some(v as int),
            None => spec_parse_i64(s@) is None,
        },
{
    let n: usize = s.unicode_len();
    let mut start: usize = 0;
    let mut neg: bool = false;
    if n > 0 {
        let c0: char = s.get_char(0);
        if c0 == '-' {
            neg = true;
            start = 1;
        } else if c0 == '+' {
            start = 1;
        }
    }
    let ghost digits = s@.subrange(start as int, n as int);
    proof {
        if start == 0 {
            assert(digits =~= s@);
        }
    }
    if start == n {
        return None;
    }
    let bound: u64 = if neg {
        9223372036854775808u64
    } else {
        9223372036854775807u64
    };
    let mut acc: u64 = 0;
    let mut i: usize = start;
    while i < n
        invariant
            start <= i <= n,
            start < n,
            n == s@.len(),
            start <= 1,
            neg == (s@.len() > 0 && s@[0] == '-'),
            (start == 1) == (s@.len() > 0 && (s@[0] == '-' || s@[0] == '+')),
            bound == if neg {
                9223372036854775808u64
            } else {
                9223372036854775807u64
            },
            digits == s@.subrange(start as int, n as int),
            start == 0 ==> digits == s@,
            all_digits(s@.subrange(start as int, i as int)),
            acc == spec_digits_val(s@.subrange(start as int, i as int)),
            acc <= bound,
        decreases n - i,
    {
        let c: char = s.get_char(i);
        if !is_digit(c) {
            assert(!all_digits(digits)) by {
                assert(digits[i - start] == s@[i as int]);
            }
            return None;
        }
        let d: u64 = digit_val(c);
        let ghost pre = s@.subrange(start as int, i as int);
        let ghost cur = s@.subrange(start as int, i + 1);
        proof {
            assert(cur.subrange(0, cur.len() - 1) =~= pre);
            assert(cur[cur.len() - 1] == s@[i as int]);
        }
        if acc > (bound - d) / 10 {
            // the value read so far already exceeds the range
            proof {
                assert(acc * 10 + d > bound) by (nonlinear_arith)
                    requires
                        acc > (bound - d) / 10,
                        d <= 9,
                        d <= bound,
                        bound <= 0x8000_0000_0000_0000,
                ;
                if all_digits(digits) {
                    assert(all_digits(cur));
                    lemma_digits_val_prefix_le(digits, i + 1 - start);
                    assert(digits.subrange(0, i + 1 - start) =~= cur);
                    assert(spec_digits_val(digits) >= spec_digits_val(cur));
                    assert(spec_digits_val(cur) == acc * 10 + d);
                }
            }
            return None;
        }
        proof {
            assert(acc * 10 + d <= bound) by (nonlinear_arith)
                requires
                    acc <= (bound - d) / 10,
                    d <= 9,
                    d <= bound,
                    bound <= 0x8000_0000_0000_0000,
            ;
        }
        acc = acc * 10 + d;
        i += 1;
    }
    proof {
        assert(s@.subrange(start as int, n as int) =~= digits);
        assert(digits.len() > 0);
        assert(all_digits(digits));
        assert(acc == spec_digits_val(digits));
    }
    if neg {
        if acc == 9223372036854775808u64 {
            Some(i64::MIN)
        } else {
            Some(-(acc as i64))
        }
    } else {
        Some(acc as i64)
    }
}

/// Parse `s` as an `i64`, zero when that fails, mirroring
/// `parse::<i64>().unwrap_or(0)`.
pub fn parse_i64_or_zero(s: &str) -> (r: i64)
    ensures
        r as int == match spec_parse_i64(s@) {
            Some(v) => v,
            None => 0int,
        },
{
    match parse_i64(s) {
        Some(v) => v,
        None => 0,
    }
}

} // verus!
