//! Typographic replacement: straight quotes become curly ones, runs
//! of dashes become en and em dashes with hair spaces, three dots
//! become an ellipsis, and `640x480` gets a real multiplication sign.
//!
//! Word boundaries are taken over ASCII letters, digits and `_`.

use vstd::prelude::*;
use vstd::string::StrSliceExecFns;
use vstd::string::StringExecFns;
use crate::strutil::{
    is_ws_char,
    is_ws,
    is_digit_char,
    is_digit,
    spec_replace_all,
    replace_all,
    string_push_char,
    append_range,
    starts_with_at,
    match_at,
};

verus! {

/// A word character: an ASCII letter, digit or underscore.
pub open spec fn is_word_char(c: char) -> bool {
    ('a' <= c && c <= 'z') || ('A' <= c && c <= 'Z') || ('0' <= c && c <= '9') || c == '_'
}

/// Executable word-character test.
pub fn is_word(c: char) -> (r: bool)
    ensures
        r == is_word_char(c),
{
    (c >= 'a' && c <= 'z') || (c >= 'A' && c <= 'Z') || (c >= '0' && c <= '9') || c == '_'
}

/// A boundary before a quote: the start of the text, whitespace, or
/// an opening parenthesis.
pub open spec fn is_quote_boundary(c: char) -> bool {
    is_ws_char(c) || c == '('
}

/// Straight quotes that follow a boundary become opening quotes.
pub open spec fn spec_quote_pass(s: Seq<char>, boundary: bool, q: char, rep: char) -> Seq<char>
    decreases s.len(),
{
    if s.len() == 0 {
        Seq::empty()
    } else {
        let c = s[0];
        let e: char = if c == q && boundary {
            rep
        } else {
            c
        };
        seq![e] + spec_quote_pass(s.subrange(1, s.len() as int), is_quote_boundary(c), q, rep)
    }
}

/// Replace each `q` that follows a boundary with `rep`.
pub fn quote_pass(s: &str, q: char, rep: char) -> (r: String)
    ensures
        r@ == spec_quote_pass(s@, true, q, rep),
{
    let n: usize = s.unicode_len();
    let mut out: String = String::new();
    let mut boundary: bool = true;
    let mut i: usize = 0;
    proof {
        assert(out@ + spec_quote_pass(s@.subrange(0, n as int), true, q, rep)
            =~= spec_quote_pass(s@, true, q, rep)) by {
            assert(s@.subrange(0, n as int) =~= s@);
        }
    }
    while i < n
        invariant
            0 <= i <= n,
            n == s@.len(),
            out@ + spec_quote_pass(s@.subrange(i as int, n as int), boundary, q, rep)
                == spec_quote_pass(s@, true, q, rep),
        decreases n - i,
    {
        let c: char = s.get_char(i);
        let ghost rest = s@.subrange(i as int, n as int);
        proof {
            assert(rest[0] == c);
            assert(rest.subrange(1, rest.len() as int) =~= s@.subrange(i + 1, n as int));
        }
        let e: char = if c == q && boundary {
            rep
        } else {
            c
        };
        string_push_char(&mut out, e);
        proof {
            assert(out@ + spec_quote_pass(
                s@.subrange(i + 1, n as int),
                is_quote_boundary(c),
                q,
                rep,
            ) =~= spec_quote_pass(s@, true, q, rep));
        }
        boundary = is_ws(c) || c == '(';
        i += 1;
    }
    proof {
        assert(s@.subrange(n as int, n as int) =~= Seq::<char>::empty());
        assert(out@ =~= spec_quote_pass(s@, true, q, rep));
    }
    out
}

/// A decade like `'80s` keeps its digits but gets a proper
/// apostrophe.
pub open spec fn spec_decade_pass(s: Seq<char>) -> Seq<char>
    decreases s.len(),
{
    if s.len() == 0 {
        Seq::empty()
    } else if (s[0] == '\'' || s[0] == '\u{2018}') && s.len() >= 4 && is_digit_char(s[1])
        && is_digit_char(s[2]) && s[3] == 's' {
        seq!['\u{2019}', s[1], s[2], 's'] + spec_decade_pass(s.subrange(4, s.len() as int))
    } else {
        seq![s[0]] + spec_decade_pass(s.subrange(1, s.len() as int))
    }
}

/// Rewrite decade apostrophes.
pub fn decade_pass(s: &str) -> (r: String)
    ensures
        r@ == spec_decade_pass(s@),
{
    let n: usize = s.unicode_len();
    let mut out: String = String::new();
    let mut i: usize = 0;
    proof {
        assert(out@ + spec_decade_pass(s@.subrange(0, n as int)) =~= spec_decade_pass(s@)) by {
            assert(s@.subrange(0, n as int) =~= s@);
        }
    }
    while i < n
        invariant
            0 <= i <= n,
            n == s@.len(),
            out@ + spec_decade_pass(s@.subrange(i as int, n as int)) == spec_decade_pass(s@),
        decreases n - i,
    {
        let c: char = s.get_char(i);
        let ghost rest = s@.subrange(i as int, n as int);
        proof {
            assert(rest[0] == c);
            if rest.len() >= 4 {
                assert(rest[1] == s@[i + 1] && rest[2] == s@[i + 2] && rest[3] == s@[i + 3]);
            }
        }
        if (c == '\'' || c == '\u{2018}') && n - i > 3 && is_digit(s.get_char(i + 1)) && is_digit(
            s.get_char(i + 2),
        ) && s.get_char(i + 3) == 's' {
            string_push_char(&mut out, '\u{2019}');
            string_push_char(&mut out, s.get_char(i + 1));
            string_push_char(&mut out, s.get_char(i + 2));
            string_push_char(&mut out, 's');
            proof {
                assert(rest.subrange(4, rest.len() as int) =~= s@.subrange(i + 4, n as int));
                assert(out@ + spec_decade_pass(s@.subrange(i + 4, n as int))
                    =~= spec_decade_pass(s@));
            }
            i += 4;
        } else {
            string_push_char(&mut out, c);
            proof {
                assert(rest.subrange(1, rest.len() as int) =~= s@.subrange(i + 1, n as int));
                assert(out@ + spec_decade_pass(s@.subrange(i + 1, n as int))
                    =~= spec_decade_pass(s@));
            }
            i += 1;
        }
    }
    proof {
        assert(s@.subrange(n as int, n as int) =~= Seq::<char>::empty());
        assert(out@ =~= spec_decade_pass(s@));
    }
    out
}

/// A dash with word characters on both sides gains hair spaces.
pub open spec fn spec_dash_pass(s: Seq<char>, prev_word: bool, dash: char) -> Seq<char>
    decreases s.len(),
{
    if s.len() == 0 {
        Seq::empty()
    } else {
        let c = s[0];
        let e: Seq<char> = if c == dash && prev_word && s.len() >= 2 && is_word_char(s[1]) {
            seq!['\u{200a}', dash, '\u{200a}']
        } else {
            seq![c]
        };
        e + spec_dash_pass(s.subrange(1, s.len() as int), is_word_char(c), dash)
    }
}

/// Space out a dash that joins two words.
pub fn dash_pass(s: &str, dash: char) -> (r: String)
    ensures
        r@ == spec_dash_pass(s@, false, dash),
{
    let n: usize = s.unicode_len();
    let mut out: String = String::new();
    let mut prev_word: bool = false;
    let mut i: usize = 0;
    proof {
        assert(out@ + spec_dash_pass(s@.subrange(0, n as int), false, dash) =~= spec_dash_pass(
            s@,
            false,
            dash,
        )) by {
            assert(s@.subrange(0, n as int) =~= s@);
        }
    }
    while i < n
        invariant
            0 <= i <= n,
            n == s@.len(),
            out@ + spec_dash_pass(s@.subrange(i as int, n as int), prev_word, dash)
                == spec_dash_pass(s@, false, dash),
        decreases n - i,
    {
        let c: char = s.get_char(i);
        let ghost rest = s@.subrange(i as int, n as int);
        proof {
            assert(rest[0] == c);
            if rest.len() >= 2 {
                assert(rest[1] == s@[i + 1]);
            }
            assert(rest.subrange(1, rest.len() as int) =~= s@.subrange(i + 1, n as int));
        }
        if c == dash && prev_word && i + 1 < n && is_word(s.get_char(i + 1)) {
            string_push_char(&mut out, '\u{200a}');
            string_push_char(&mut out, dash);
            string_push_char(&mut out, '\u{200a}');
        } else {
            string_push_char(&mut out, c);
        }
        proof {
            assert(out@ + spec_dash_pass(s@.subrange(i + 1, n as int), is_word_char(c), dash)
                =~= spec_dash_pass(s@, false, dash));
        }
        prev_word = is_word(c);
        i += 1;
    }
    proof {
        assert(s@.subrange(n as int, n as int) =~= Seq::<char>::empty());
        assert(out@ =~= spec_dash_pass(s@, false, dash));
    }
    out
}

/// A spaced single or double hyphen becomes a thin-spaced en dash.
pub open spec fn spec_spaced_hyphen_pass(s: Seq<char>) -> Seq<char>
    decreases s.len(),
{
    if s.len() == 0 {
        Seq::empty()
    } else if match_at(s, seq![' ', '-', ' '], 0) {
        seq!['\u{2009}', '\u{2013}', '\u{2009}'] + spec_spaced_hyphen_pass(
            s.subrange(3, s.len() as int),
        )
    } else if match_at(s, seq![' ', '-', '-', ' '], 0) {
        seq!['\u{2009}', '\u{2013}', '\u{2009}'] + spec_spaced_hyphen_pass(
            s.subrange(4, s.len() as int),
        )
    } else {
        seq![s[0]] + spec_spaced_hyphen_pass(s.subrange(1, s.len() as int))
    }
}

/// Replace ` - ` and ` -- ` with a thin-spaced en dash.
pub fn spaced_hyphen_pass(s: &str) -> (r: String)
    ensures
        r@ == spec_spaced_hyphen_pass(s@),
{
    proof {
        reveal_strlit(" - ");
        reveal_strlit(" -- ");
        assert(" - "@ =~= seq![' ', '-', ' ']);
        assert(" -- "@ =~= seq![' ', '-', '-', ' ']);
    }
    let n: usize = s.unicode_len();
    let mut out: String = String::new();
    let mut i: usize = 0;
    proof {
        assert(out@ + spec_spaced_hyphen_pass(s@.subrange(0, n as int))
            =~= spec_spaced_hyphen_pass(s@)) by {
            assert(s@.subrange(0, n as int) =~= s@);
        }
    }
    while i < n
        invariant
            0 <= i <= n,
            n == s@.len(),
            out@ + spec_spaced_hyphen_pass(s@.subrange(i as int, n as int))
                == spec_spaced_hyphen_pass(s@),
        decreases n - i,
    {
        let ghost rest = s@.subrange(i as int, n as int);
        proof {
            reveal_strlit(" - ");
            reveal_strlit(" -- ");
            assert(" - "@ =~= seq![' ', '-', ' ']);
            assert(" -- "@ =~= seq![' ', '-', '-', ' ']);
            assert(forall|k: int|
                0 <= k < rest.len() ==> rest[k] == s@[i + k]);
        }
        let one: bool = starts_with_at(s, " - ", i);
        let two: bool = if one {
            false
        } else {
            starts_with_at(s, " -- ", i)
        };
        proof {
            if one {
                assert(match_at(rest, seq![' ', '-', ' '], 0)) by {
                    assert(rest.subrange(0, 3) =~= s@.subrange(i as int, i + 3));
                }
            } else {
                if match_at(rest, seq![' ', '-', ' '], 0) {
                    assert(s@.subrange(i as int, i + 3) =~= rest.subrange(0, 3));
                }
            }
            if two {
                assert(match_at(rest, seq![' ', '-', '-', ' '], 0)) by {
                    assert(rest.subrange(0, 4) =~= s@.subrange(i as int, i + 4));
                }
            } else if !one {
                if match_at(rest, seq![' ', '-', '-', ' '], 0) {
                    assert(s@.subrange(i as int, i + 4) =~= rest.subrange(0, 4));
                }
            }
        }
        if one {
            string_push_char(&mut out, '\u{2009}');
            string_push_char(&mut out, '\u{2013}');
            string_push_char(&mut out, '\u{2009}');
            proof {
                assert(rest.subrange(3, rest.len() as int) =~= s@.subrange(i + 3, n as int));
                assert(out@ + spec_spaced_hyphen_pass(s@.subrange(i + 3, n as int))
                    =~= spec_spaced_hyphen_pass(s@));
            }
            i += 3;
        } else if two {
            string_push_char(&mut out, '\u{2009}');
            string_push_char(&mut out, '\u{2013}');
            string_push_char(&mut out, '\u{2009}');
            proof {
                assert(rest.subrange(4, rest.len() as int) =~= s@.subrange(i + 4, n as int));
                assert(out@ + spec_spaced_hyphen_pass(s@.subrange(i + 4, n as int))
                    =~= spec_spaced_hyphen_pass(s@));
            }
            i += 4;
        } else {
            string_push_char(&mut out, s.get_char(i));
            proof {
                assert(rest[0] == s@[i as int]);
                assert(rest.subrange(1, rest.len() as int) =~= s@.subrange(i + 1, n as int));
                assert(out@ + spec_spaced_hyphen_pass(s@.subrange(i + 1, n as int))
                    =~= spec_spaced_hyphen_pass(s@));
            }
            i += 1;
        }
    }
    proof {
        assert(s@.subrange(n as int, n as int) =~= Seq::<char>::empty());
        assert(out@ =~= spec_spaced_hyphen_pass(s@));
    }
    out
}

/// The count of leading digits.
pub open spec fn spec_digit_run(s: Seq<char>) -> int
    decreases s.len(),
{
    if s.len() == 0 || !is_digit_char(s[0]) {
        0int
    } else {
        1 + spec_digit_run(s.subrange(1, s.len() as int))
    }
}

/// The digit run is a well-formed prefix.
pub proof fn lemma_digit_run(s: Seq<char>)
    ensures
        0 <= spec_digit_run(s) <= s.len(),
        forall|k: int| 0 <= k < spec_digit_run(s) ==> is_digit_char(s[k]),
        spec_digit_run(s) < s.len() ==> !is_digit_char(s[spec_digit_run(s)]),
    decreases s.len(),
{
    if s.len() > 0 && is_digit_char(s[0]) {
        let t = s.subrange(1, s.len() as int);
        lemma_digit_run(t);
        assert forall|k: int| 0 <= k < spec_digit_run(s) implies is_digit_char(s[k]) by {
            if k > 0 {
                assert(s[k] == t[k - 1]);
            }
        }
        if spec_digit_run(s) < s.len() {
            assert(s[spec_digit_run(s)] == t[spec_digit_run(t)]);
        }
    }
}

/// A number followed by `x` at a word boundary becomes a
/// multiplication sign: `640x` turns into `640×`.
pub open spec fn spec_times_pass(s: Seq<char>, prev_word: bool) -> Seq<char>
    decreases s.len(),
{
    if s.len() == 0 {
        Seq::empty()
    } else if is_digit_char(s[0]) && !prev_word {
        let k = spec_digit_run(s);
        if 0 < k < s.len() && s[k] == 'x' {
            s.subrange(0, k) + seq!['\u{d7}'] + spec_times_pass(
                s.subrange(k + 1, s.len() as int),
                true,
            )
        } else if 0 < k <= s.len() {
            s.subrange(0, k) + spec_times_pass(s.subrange(k, s.len() as int), true)
        } else {
            seq![s[0]] + spec_times_pass(s.subrange(1, s.len() as int), is_word_char(s[0]))
        }
    } else {
        seq![s[0]] + spec_times_pass(s.subrange(1, s.len() as int), is_word_char(s[0]))
    }
}

/// Count the leading digits.
fn digit_run(s: &str, from: usize) -> (r: usize)
    requires
        from <= s@.len(),
    ensures
        r == spec_digit_run(s@.subrange(from as int, s@.len() as int)),
        from + r <= s@.len(),
{
    proof {
        lemma_digit_run(s@.subrange(from as int, s@.len() as int));
    }
    let n: usize = s.unicode_len();
    let mut i: usize = from;
    while i < n && is_digit(s.get_char(i))
        invariant
            from <= i <= n,
            n == s@.len(),
            forall|k: int| from <= k < i ==> is_digit_char(s@[k]),
        decreases n - i,
    {
        i += 1;
    }
    proof {
        let rest = s@.subrange(from as int, n as int);
        lemma_digit_run_at(rest, i - from);
    }
    i - from
}

/// A maximal digit prefix pins the digit run.
proof fn lemma_digit_run_at(s: Seq<char>, k: int)
    requires
        0 <= k <= s.len(),
        forall|m: int| 0 <= m < k ==> is_digit_char(s[m]),
        k == s.len() || !is_digit_char(s[k]),
    ensures
        spec_digit_run(s) == k,
    decreases k,
{
    if k == 0 {
    } else {
        let t = s.subrange(1, s.len() as int);
        lemma_digit_run_at(t, k - 1);
    }
}

/// Rewrite `640x` as `640×`.
pub fn times_pass(s: &str) -> (r: String)
    ensures
        r@ == spec_times_pass(s@, false),
{
    let n: usize = s.unicode_len();
    let mut out: String = String::new();
    let mut prev_word: bool = false;
    let mut i: usize = 0;
    proof {
        assert(out@ + spec_times_pass(s@.subrange(0, n as int), false) =~= spec_times_pass(
            s@,
            false,
        )) by {
            assert(s@.subrange(0, n as int) =~= s@);
        }
    }
    while i < n
        invariant
            0 <= i <= n,
            n == s@.len(),
            out@ + spec_times_pass(s@.subrange(i as int, n as int), prev_word)
                == spec_times_pass(s@, false),
        decreases n - i,
    {
        let c: char = s.get_char(i);
        let ghost rest = s@.subrange(i as int, n as int);
        proof {
            assert(rest[0] == c);
            assert(forall|k: int| 0 <= k < rest.len() ==> rest[k] == s@[i + k]);
            assert(rest.subrange(1, rest.len() as int) =~= s@.subrange(i + 1, n as int));
        }
        if is_digit(c) && !prev_word {
            let k: usize = digit_run(s, i);
            proof {
                assert(spec_digit_run(rest) == k) by {
                    lemma_digit_run(rest);
                    lemma_digit_run_at(rest, spec_digit_run(rest));
                    assert(rest =~= s@.subrange(i as int, s@.len() as int));
                }
                lemma_digit_run(rest);
                assert(k > 0);
                assert(rest.subrange(0, k as int) =~= s@.subrange(i as int, i + k));
            }
            if i + k < n && s.get_char(i + k) == 'x' {
                append_range(&mut out, s, i, i + k);
                string_push_char(&mut out, '\u{d7}');
                proof {
                    assert(rest[k as int] == 'x');
                    assert(rest.subrange(k + 1, rest.len() as int) =~= s@.subrange(
                        i + k + 1,
                        n as int,
                    ));
                    assert(out@ + spec_times_pass(s@.subrange(i + k + 1, n as int), true)
                        =~= spec_times_pass(s@, false));
                }
                prev_word = true;
                i = i + k + 1;
            } else {
                append_range(&mut out, s, i, i + k);
                proof {
                    if k < rest.len() {
                        assert(rest[k as int] != 'x') by {
                            assert(s@[i + k] == rest[k as int]);
                        }
                    }
                    assert(rest.subrange(k as int, rest.len() as int) =~= s@.subrange(
                        i + k,
                        n as int,
                    ));
                    assert(out@ + spec_times_pass(s@.subrange(i + k, n as int), true)
                        =~= spec_times_pass(s@, false));
                }
                prev_word = true;
                i = i + k;
            }
        } else {
            string_push_char(&mut out, c);
            proof {
                assert(out@ + spec_times_pass(s@.subrange(i + 1, n as int), is_word_char(c))
                    =~= spec_times_pass(s@, false));
            }
            prev_word = is_word(c);
            i += 1;
        }
    }
    proof {
        assert(s@.subrange(n as int, n as int) =~= Seq::<char>::empty());
        assert(out@ =~= spec_times_pass(s@, false));
    }
    out
}

/// The whole typographic rewriting, pass after pass, in the order the
/// rules apply: double and single quote pairs, decades, opening and
/// closing quotes, word dashes, spaced and doubled hyphens, the
/// ellipsis, and multiplication signs.
pub open spec fn spec_typogrified(s: Seq<char>) -> Seq<char> {
    let s1 = spec_replace_all(s, "``"@, "\u{201c}"@);
    let s2 = spec_replace_all(s1, "''"@, "\u{201d}"@);
    let s3 = spec_decade_pass(s2);
    let s4 = spec_replace_all(s3, "`"@, "\u{2018}"@);
    let s5 = spec_quote_pass(s4, true, '"', '\u{201c}');
    let s6 = spec_replace_all(s5, "\""@, "\u{201d}"@);
    let s7 = spec_quote_pass(s6, true, '\'', '\u{2018}');
    let s8 = spec_replace_all(s7, "'"@, "\u{2019}"@);
    let s9 = spec_dash_pass(s8, false, '\u{2013}');
    let s10 = spec_dash_pass(s9, false, '\u{2014}');
    let s11 = spec_replace_all(s10, " \u{2014} "@, "\u{200a}\u{2014}\u{200a}"@);
    let s12 = spec_replace_all(s11, "---"@, "\u{200a}\u{2014}\u{200a}"@);
    let s13 = spec_spaced_hyphen_pass(s12);
    let s14 = spec_replace_all(s13, "--"@, "\u{200a}\u{2013}\u{200a}"@);
    let s15 = spec_replace_all(s14, "..."@, "\u{2026}"@);
    spec_times_pass(s15, false)
}

/// Apply every typographic rule to `text`.
pub fn typogrified(text: &str) -> (r: String)
    ensures
        r@ == spec_typogrified(text@),
{
    proof {
        reveal_strlit("``");
        reveal_strlit("\u{201c}");
        reveal_strlit("''");
        reveal_strlit("\u{201d}");
        reveal_strlit("`");
        reveal_strlit("\u{2018}");
        reveal_strlit("\"");
        reveal_strlit("'");
        reveal_strlit("\u{2019}");
        reveal_strlit(" \u{2014} ");
        reveal_strlit("\u{200a}\u{2014}\u{200a}");
        reveal_strlit("---");
        reveal_strlit("--");
        reveal_strlit("\u{200a}\u{2013}\u{200a}");
        reveal_strlit("...");
        reveal_strlit("\u{2026}");
    }
    let s1: String = replace_all(text, "``", "\u{201c}");
    let s2: String = replace_all(s1.as_str(), "''", "\u{201d}");
    let s3: String = decade_pass(s2.as_str());
    let s4: String = replace_all(s3.as_str(), "`", "\u{2018}");
    let s5: String = quote_pass(s4.as_str(), '"', '\u{201c}');
    let s6: String = replace_all(s5.as_str(), "\"", "\u{201d}");
    let s7: String = quote_pass(s6.as_str(), '\'', '\u{2018}');
    let s8: String = replace_all(s7.as_str(), "'", "\u{2019}");
    let s9: String = dash_pass(s8.as_str(), '\u{2013}');
    let s10: String = dash_pass(s9.as_str(), '\u{2014}');
    let s11: String = replace_all(s10.as_str(), " \u{2014} ", "\u{200a}\u{2014}\u{200a}");
    let s12: String = replace_all(s11.as_str(), "---", "\u{200a}\u{2014}\u{200a}");
    let s13: String = spaced_hyphen_pass(s12.as_str());
    let s14: String = replace_all(s13.as_str(), "--", "\u{200a}\u{2013}\u{200a}");
    let s15: String = replace_all(s14.as_str(), "...", "\u{2026}");
    times_pass(s15.as_str())
}

} // verus!
