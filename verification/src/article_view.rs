//! An earlier article view backed by a key/value store: articles as
//! plain field lists, ordered by stored timestamps.

use vstd::prelude::*;
use vstd::string::StringExecFns;
use crate::markdown::{html_of, render_markdown};
use crate::strutil::{
    str_eq,
    spec_lines,
    split_lines,
    spec_join,
    join_with,
    parse_i64_or_zero,
    spec_parse_i64,
    replace_all,
    spec_replace_all,
};

verus! {

/// The first value stored under `key` in a field list, if any.
pub open spec fn spec_field_of(a: Seq<(String, String)>, key: Seq<char>) -> Option<Seq<char>> {
    let hits = a.filter(|kv: (String, String)| kv.0@ == key);
    if hits.len() > 0 {
        Some(hits[0].1@)
    } else {
        None
    }
}

/// Look a field up in a key/value list (first match wins).
pub fn field_of<'a>(a: &'a Vec<(String, String)>, key: &str) -> (r: Option<&'a String>)
    ensures
        match r {
            Some(v) => spec_field_of(a@, key@) == Some(v@),
            None => spec_field_of(a@, key@) is None,
        },
{
    let ghost pred = |kv: (String, String)| kv.0@ == key@;
    let n: usize = a.len();
    proof {
        reveal(Seq::filter);
        assert(a@.subrange(0, 0).filter(pred) =~= Seq::<(String, String)>::empty());
    }
    let mut i: usize = 0;
    while i < n
        invariant
            0 <= i <= n,
            n == a@.len(),
            pred == (|kv: (String, String)| kv.0@ == key@),
            a@.subrange(0, i as int).filter(pred).len() == 0,
        decreases n - i,
    {
        let ghost pre = a@.subrange(0, i as int);
        let ghost cur = a@.subrange(0, i + 1);
        proof {
            reveal(Seq::filter);
            assert(cur.drop_last() =~= pre);
            assert(cur.last() == a@[i as int]);
        }
        if str_eq(a[i].0.as_str(), key) {
            proof {
                reveal(Seq::filter);
                lemma_filter_split(a@, pred, i as int);
                assert(a@.filter(pred) == pre.filter(pred) + a@.subrange(
                    i as int,
                    a@.len() as int,
                ).filter(pred));
                let tail = a@.subrange(i as int, a@.len() as int);
                assert(tail[0] == a@[i as int]);
                lemma_filter_head(tail, pred);
                assert(a@.filter(pred).len() > 0);
                assert(a@.filter(pred)[0] == a@[i as int]);
            }
            return Some(&a[i].1);
        }
        proof {
            reveal(Seq::filter);
            assert(cur.filter(pred) =~= pre.filter(pred));
        }
        i += 1;
    }
    proof {
        reveal(Seq::filter);
        assert(a@.subrange(0, n as int) =~= a@);
    }
    None
}

/// A filter splits over a cut of the sequence.
proof fn lemma_filter_split(
    s: Seq<(String, String)>,
    pred: spec_fn((String, String)) -> bool,
    i: int,
)
    requires
        0 <= i <= s.len(),
    ensures
        s.filter(pred) == s.subrange(0, i).filter(pred) + s.subrange(
            i,
            s.len() as int,
        ).filter(pred),
{
    assert(s =~= s.subrange(0, i) + s.subrange(i, s.len() as int));
    Seq::filter_distributes_over_add(
        s.subrange(0, i),
        s.subrange(i, s.len() as int),
        pred,
    );
}

/// A filter whose head matches starts with that head.
proof fn lemma_filter_head(s: Seq<(String, String)>, pred: spec_fn((String, String)) -> bool)
    requires
        s.len() > 0,
        pred(s[0]),
    ensures
        s.filter(pred).len() > 0,
        s.filter(pred)[0] == s[0],
    decreases s.len(),
{
    reveal(Seq::filter);
    if s.len() == 1 {
        assert(s.drop_last() =~= Seq::<(String, String)>::empty());
    } else {
        let d = s.drop_last();
        assert(d[0] == s[0]);
        lemma_filter_head(d, pred);
    }
}

/// An article as the key/value store shows it.
#[derive(Debug)]
pub struct ArticleView {
    pub title: String,
    pub content: String,
    pub route: String,
    pub timestamp: i64,
}

impl ArticleView {
    /// Render stored content: drop its first (title) line and render
    /// the rest as Markdown.
    pub fn parse_content(content: &str) -> (r: String)
        ensures
            ({
                let ls = spec_lines(content@);
                let body = if ls.len() <= 1 {
                    Seq::<char>::empty()
                } else {
                    spec_join(ls.subrange(1, ls.len() as int), seq!['\n'])
                };
                r@ == html_of(body)
            }),
    {
        let lines: Vec<String> = split_lines(content);
        let n: usize = lines.len();
        if n <= 1 {
            proof {
                assert(spec_lines(content@).len() == lines@.map_values(|p: String| p@).len());
                reveal_strlit("");
                assert(""@ =~= Seq::<char>::empty());
            }
            return render_markdown("");
        }
        let mut rest: Vec<String> = Vec::new();
        let mut i: usize = 1;
        while i < n
            invariant
                1 <= i <= n,
                n == lines@.len(),
                rest@.len() == i - 1,
                forall|m: int| 0 <= m < rest@.len() ==> rest@[m] == lines@[m + 1],
            decreases n - i,
        {
            rest.push(lines[i].clone());
            i += 1;
        }
        let joined: String = join_with(&rest, "\n");
        proof {
            reveal_strlit("\n");
            assert("\n"@ =~= seq!['\n']);
            let lv = lines@.map_values(|p: String| p@);
            assert(rest@.map_values(|p: String| p@) =~= lv.subrange(1, lv.len() as int));
        }
        render_markdown(joined.as_str())
    }

    /// Build the view from a stored field list.  The title, route and
    /// timestamp fields must be present; the timestamp falls back to
    /// zero when its text does not parse.  Content is rendered only
    /// when asked for.
    pub fn from_redis(a: &Vec<(String, String)>, parse_content: bool) -> (r: ArticleView)
        requires
            spec_field_of(a@, "title"@) is Some,
            spec_field_of(a@, "route"@) is Some,
            spec_field_of(a@, "timestamp"@) is Some,
        ensures
            Some(r.title@) == spec_field_of(a@, "title"@),
            Some(r.route@) == spec_field_of(a@, "route"@),
            r.timestamp as int == match spec_parse_i64(
                spec_field_of(a@, "timestamp"@)->Some_0,
            ) {
                Some(v) => v,
                None => 0int,
            },
            !parse_content ==> r.content@.len() == 0,
    {
        let timestamp_text: &String = match field_of(a, "timestamp") {
            Some(v) => v,
            None => {
                proof {
                    assert(false);
                }
                vstd::pervasive::unreached()
            },
        };
        let timestamp: i64 = parse_i64_or_zero(timestamp_text.as_str());
        let title: String = match field_of(a, "title") {
            Some(v) => v.clone(),
            None => {
                proof {
                    assert(false);
                }
                vstd::pervasive::unreached()
            },
        };
        let route: String = match field_of(a, "route") {
            Some(v) => v.clone(),
            None => {
                proof {
                    assert(false);
                }
                vstd::pervasive::unreached()
            },
        };
        let content: String = if parse_content {
            let stored: String = match field_of(a, "content") {
                Some(v) => v.clone(),
                None => String::new(),
            };
            Self::parse_content(stored.as_str())
        } else {
            String::new()
        };
        ArticleView { title, content, route, timestamp }
    }
}

/// A stored timestamp paired with the store key it came from.
#[derive(Debug)]
pub struct TsMap {
    pub timestamp: i64,
    pub key: String,
}

/// Pair each store key with its parsed timestamp and order the pairs
/// newest first.
pub fn pair_timestamps(keys: &Vec<String>, vals: &Vec<String>) -> (r: Vec<TsMap>)
    requires
        keys@.len() == vals@.len(),
    ensures
        r@.len() == keys@.len(),
        forall|i: int, j: int| 0 <= i < j < r@.len() ==> r@[i].timestamp >= r@[j].timestamp,
{
    let n: usize = keys.len();
    let mut r: Vec<TsMap> = Vec::new();
    let mut k: usize = 0;
    while k < n
        invariant
            0 <= k <= n,
            n == keys@.len(),
            n == vals@.len(),
            r@.len() == k,
            forall|i: int, j: int| 0 <= i < j < r@.len() ==> r@[i].timestamp >= r@[j].timestamp,
        decreases n - k,
    {
        let ts: i64 = parse_i64_or_zero(vals[k].as_str());
        let x = TsMap { timestamp: ts, key: keys[k].clone() };
        let sl: usize = r.len();
        let mut pos: usize = 0;
        while pos < sl && r[pos].timestamp >= ts
            invariant
                0 <= pos <= sl,
                sl == r@.len(),
                forall|m: int| 0 <= m < pos ==> r@[m].timestamp >= ts,
            decreases sl - pos,
        {
            pos += 1;
        }
        let ghost before = r@;
        r.insert(pos, x);
        proof {
            assert forall|i: int, j: int|
                0 <= i < j < r@.len() implies r@[i].timestamp >= r@[j].timestamp by {
                if i == pos {
                    assert(r@[j] == before[j - 1]);
                    if j - 1 >= pos && pos < before.len() {
                        assert(before[pos as int].timestamp < ts);
                    }
                } else if j == pos {
                    assert(r@[i] == before[i]);
                } else {
                    let gi: int = if i < pos {
                        i
                    } else {
                        i - 1
                    };
                    let gj: int = if j < pos {
                        j
                    } else {
                        j - 1
                    };
                    assert(r@[i] == before[gi]);
                    assert(r@[j] == before[gj]);
                }
            }
        }
        k += 1;
    }
    r
}

/// Find the stored articles on either side of the one with this
/// timestamp: the keys just before and after it in newest-first
/// order, rewritten from timestamp keys to article keys.
pub fn surrounding_keys(timestamps: &Vec<TsMap>, self_timestamp: i64) -> (r: (
    Option<String>,
    Option<String>,
))
    ensures
        r.0 is Some ==> exists|i: int|
            0 < i < timestamps@.len() && timestamps@[i].timestamp == self_timestamp,
        r.1 is Some ==> exists|i: int|
            0 <= i < timestamps@.len() && timestamps@[i].timestamp == self_timestamp,
{
    let n: usize = timestamps.len();
    let mut idx: usize = 0;
    let mut found: bool = false;
    while idx < n && !found
        invariant
            0 <= idx <= n,
            n == timestamps@.len(),
            found ==> idx < n && timestamps@[idx as int].timestamp == self_timestamp,
        decreases n - idx + (if found {
            0int
        } else {
            1int
        }),
    {
        if timestamps[idx].timestamp == self_timestamp {
            found = true;
        } else {
            idx += 1;
        }
    }
    if !found {
        return (None, None);
    }
    let prev: Option<String> = if idx > 0 {
        Some(rekey(timestamps[idx - 1].key.as_str()))
    } else {
        None
    };
    let next: Option<String> = if idx + 1 < n {
        Some(rekey(timestamps[idx + 1].key.as_str()))
    } else {
        None
    };
    (prev, next)
}

/// Rewrite a timestamp key into its article key.
fn rekey(key: &str) -> (r: String)
    ensures
        r@ == spec_replace_all(key@, "velum:timestamps:"@, "velum:articles:"@),
{
    proof {
        reveal_strlit("velum:timestamps:");
    }
    replace_all(key, "velum:timestamps:", "velum:articles:")
}

} // verus!
