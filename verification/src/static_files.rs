//! Static assets: the JS manifest format, file concatenation, and
//! timestamped asset paths.

use vstd::prelude::*;
use vstd::string::StrSliceExecFns;
use vstd::string::StringExecFns;
use crate::strutil::{
    match_at,
    str_starts_with,
    append_range,
    spec_lines,
    split_lines,
    spec_join,
    is_digit,
    is_digit_char,
    string_push_char,
};

verus! {

/// A manifest line names an included file when it starts `//=`.
pub open spec fn spec_is_include_line(l: Seq<char>) -> bool {
    match_at(l, "//="@, 0)
}

/// The included path an include line names, with `.js` appended.
pub open spec fn spec_include_path(l: Seq<char>) -> Seq<char> {
    l.subrange(3, l.len() as int) + ".js"@
}

/// Split a JS manifest into the file paths it includes (each given
/// the `.js` extension) and its own code lines, rejoined.
pub fn extract_filepaths(manifest: &str) -> (r: (Vec<String>, String))
    ensures
        ({
            let ls = spec_lines(manifest@);
            let includes = ls.filter(|l: Seq<char>| spec_is_include_line(l));
            let code = ls.filter(|l: Seq<char>| !spec_is_include_line(l));
            &&& r.0@.map_values(|p: String| p@) == includes.map_values(
                |l: Seq<char>| spec_include_path(l),
            )
            &&& r.1@ == seq![';'] + spec_join(code, seq!['\n'])
        }),
{
    let ghost inc = |l: Seq<char>| spec_is_include_line(l);
    let ghost noninc = |l: Seq<char>| !spec_is_include_line(l);
    let lines: Vec<String> = split_lines(manifest);
    let n: usize = lines.len();
    let mut filepaths: Vec<String> = Vec::new();
    let mut code_lines: Vec<String> = Vec::new();
    proof {
        reveal(Seq::filter);
        let lv = lines@.map_values(|p: String| p@);
        assert(lv.subrange(0, 0).filter(inc) =~= Seq::<Seq<char>>::empty());
        assert(lv.subrange(0, 0).filter(noninc) =~= Seq::<Seq<char>>::empty());
        assert(filepaths@.map_values(|p: String| p@) =~= Seq::<Seq<char>>::empty().map_values(
            |l: Seq<char>| spec_include_path(l),
        ));
        assert(code_lines@.map_values(|p: String| p@) =~= Seq::<Seq<char>>::empty());
    }
    let mut i: usize = 0;
    while i < n
        invariant
            0 <= i <= n,
            n == lines@.len(),
            inc == (|l: Seq<char>| spec_is_include_line(l)),
            noninc == (|l: Seq<char>| !spec_is_include_line(l)),
            filepaths@.map_values(|p: String| p@) == lines@.map_values(
                |p: String| p@,
            ).subrange(0, i as int).filter(inc).map_values(
                |l: Seq<char>| spec_include_path(l),
            ),
            code_lines@.map_values(|p: String| p@) == lines@.map_values(
                |p: String| p@,
            ).subrange(0, i as int).filter(noninc),
        decreases n - i,
    {
        let ghost lv = lines@.map_values(|p: String| p@);
        let ghost pre = lv.subrange(0, i as int);
        let ghost cur = lv.subrange(0, i + 1);
        proof {
            reveal(Seq::filter);
            assert(cur.drop_last() =~= pre);
            assert(cur.last() == lv[i as int]);
            assert(lv[i as int] == lines@[i as int]@);
        }
        let line: &String = &lines[i];
        if str_starts_with(line.as_str(), "//=") {
            proof {
                reveal_strlit("//=");
            }
            let ll: usize = line.as_str().unicode_len();
            let mut jsname: String = String::new();
            append_range(&mut jsname, line.as_str(), 3, ll);
            jsname.append(".js");
            let ghost old_fp = filepaths@;
            filepaths.push(jsname);
            proof {
                reveal(Seq::filter);
                reveal_strlit("//=");
                reveal_strlit(".js");
                assert("//="@.len() == 3);
                assert(inc(lv[i as int]));
                assert(jsname@ == spec_include_path(lv[i as int]));
                assert(cur.filter(inc) =~= pre.filter(inc).push(lv[i as int]));
                assert(cur.filter(noninc) =~= pre.filter(noninc));
                assert(filepaths@ == old_fp.push(jsname));
                assert(old_fp.map_values(|p: String| p@) == pre.filter(inc).map_values(
                    |l: Seq<char>| spec_include_path(l),
                ));
                assert(filepaths@.map_values(|p: String| p@) =~= old_fp.map_values(
                    |p: String| p@,
                ).push(jsname@));
                assert(cur.filter(inc).map_values(|l: Seq<char>| spec_include_path(l))
                    =~= pre.filter(inc).map_values(|l: Seq<char>| spec_include_path(l)).push(
                    spec_include_path(lv[i as int]),
                ));
                assert(filepaths@.map_values(|p: String| p@) =~= cur.filter(inc).map_values(
                    |l: Seq<char>| spec_include_path(l),
                ));
            }
        } else {
            proof {
                reveal_strlit("//=");
            }
            code_lines.push(line.clone());
            proof {
                reveal(Seq::filter);
                assert(cur.filter(noninc) =~= pre.filter(noninc).push(lv[i as int]));
                assert(cur.filter(inc) =~= pre.filter(inc));
                assert(code_lines@.map_values(|p: String| p@) =~= cur.filter(noninc));
            }
        }
        i += 1;
    }
    proof {
        let lv = lines@.map_values(|p: String| p@);
        assert(lv.subrange(0, n as int) =~= lv);
    }
    let joined: String = crate::strutil::join_with(&code_lines, "\n");
    let mut code: String = String::new();
    string_push_char(&mut code, ';');
    code.append(joined.as_str());
    proof {
        reveal_strlit("\n");
        assert("\n"@ =~= seq!['\n']);
        assert(code@ =~= seq![';'] + spec_join(
            spec_lines(manifest@).filter(|l: Seq<char>| !spec_is_include_line(l)),
            seq!['\n'],
        ));
    }
    (filepaths, code)
}

/// Concatenate already-read files, a `;` after each, and keep the
/// latest of their modification times.
pub fn concat_files(files: &Vec<(Vec<u8>, i64)>) -> (r: (Vec<u8>, i64))
    ensures
        forall|i: int| 0 <= i < files@.len() ==> r.1 >= (#[trigger] files@[i]).1,
        files@.len() == 0 ==> r.1 == 0 && r.0@.len() == 0,
{
    let n: usize = files.len();
    let mut buf: Vec<u8> = Vec::new();
    let mut last_modified: i64 = 0;
    let mut i: usize = 0;
    while i < n
        invariant
            0 <= i <= n,
            n == files@.len(),
            forall|k: int| 0 <= k < i ==> last_modified >= (#[trigger] files@[k]).1,
            i == 0 ==> last_modified == 0 && buf@.len() == 0,
        decreases n - i,
    {
        let content: &Vec<u8> = &files[i].0;
        let m: usize = content.len();
        let mut j: usize = 0;
        while j < m
            invariant
                0 <= j <= m,
                m == content@.len(),
            decreases m - j,
        {
            buf.push(content[j]);
            j += 1;
        }
        buf.push(59u8);  // the ';' separator between files
        let mtime: i64 = files[i].1;
        if i == 0 || mtime > last_modified {
            last_modified = mtime;
        }
        i += 1;
    }
    (buf, last_modified)
}

/// A `-` followed by fourteen digits occurs at `k`.
pub open spec fn spec_stamp_at(s: Seq<char>, k: int) -> bool {
    &&& 0 <= k
    &&& k + 15 <= s.len()
    &&& s[k] == '-'
    &&& forall|m: int| k < m < k + 15 ==> is_digit_char(s[m])
}

/// Remove the first timestamp (`-` plus fourteen digits) from an
/// asset name; a name with no timestamp stays as it is.
pub fn untimestamped_path(path: &str) -> (r: String)
    ensures
        (exists|k: int| spec_stamp_at(path@, k)) ==> r@.len() == path@.len() - 15,
        !(exists|k: int| spec_stamp_at(path@, k)) ==> r@ == path@,
{
    let n: usize = path.unicode_len();
    let mut i: usize = 0;
    while i < n
        invariant
            0 <= i <= n,
            n == path@.len(),
            forall|k: int| 0 <= k < i ==> !spec_stamp_at(path@, k),
        decreases n - i,
    {
        if path.get_char(i) == '-' && stamp_digits_at(path, i) {
            let mut out: String = String::new();
            append_range(&mut out, path, 0, i);
            append_range(&mut out, path, i + 15, n);
            proof {
                assert(spec_stamp_at(path@, i as int));
            }
            return out;
        }
        proof {
            if spec_stamp_at(path@, i as int) {
                assert(path@[i as int] == '-');
            }
        }
        i += 1;
    }
    proof {
        assert(forall|k: int| !spec_stamp_at(path@, k)) by {
            assert(forall|k: int| k + 15 > path@.len() ==> !spec_stamp_at(path@, k));
            assert(forall|k: int| k < 0 ==> !spec_stamp_at(path@, k));
        }
    }
    path.to_owned()
}

/// Fourteen digits follow position `i`.
fn stamp_digits_at(path: &str, i: usize) -> (r: bool)
    requires
        i < path@.len(),
        path@[i as int] == '-',
    ensures
        r == spec_stamp_at(path@, i as int),
{
    let n: usize = path.unicode_len();
    if n - i < 15 {
        return false;
    }
    let mut m: usize = 1;
    while m < 15
        invariant
            1 <= m <= 15,
            i + 15 <= n,
            n == path@.len(),
            forall|x: int| i < x < i + m ==> #[trigger] is_digit_char(path@[x]),
        decreases 15 - m,
    {
        if !is_digit(path.get_char(i + m)) {
            return false;
        }
        m += 1;
    }
    proof {
        assert(spec_stamp_at(path@, i as int));
    }
    true
}

/// The on-disk path of an asset: the content directory's assets
/// folder, then the request path — the timestamped name when such a
/// file is known to exist, the untimestamped one otherwise.
pub fn build_fs_path(content_dir: &str, path: &str, timestamped_exists: bool) -> (r: String)
    ensures
        timestamped_exists ==> r@ == content_dir@ + "/assets/"@ + path@,
{
    let mut base: String = content_dir.to_owned();
    base.append("/assets/");
    if timestamped_exists {
        // a prebuilt timestamped file is served as named
        let mut out: String = base;
        out.append(path);
        return out;
    }
    let ut: String = untimestamped_path(path);
    let mut out: String = base;
    out.append(ut.as_str());
    out
}

} // verus!
