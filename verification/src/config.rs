//! Configuration: the blog's settings, its secrets, and the themes
//! found in the content directory.

use vstd::prelude::*;
use vstd::string::StringExecFns;
use crate::strutil::{
    match_at,
    str_starts_with,
    append_range,
    spec_lines,
    split_lines,
    spec_trim,
    is_ws_char,
    trim_ws,
    str_lt,
    spec_str_lt,
    spec_str_le,
};

verus! {

/// A selectable stylesheet: its file name and its display name.
#[derive(Debug)]
pub struct Theme {
    pub filename: String,
    pub name: String,
}

/// The blog's settings.
#[derive(Debug)]
pub struct Config {
    pub listen_ip: String,
    pub listen_port: u16,
    pub content_dir: String,
    pub page_size: usize,
    pub blog_title: String,
    pub blog_host: String,
    pub blog_url: String,
    pub blog_description: String,
    pub max_preview_length: usize,
    pub info_html: String,
    pub secrets: Secrets,
    pub theme_list: Vec<Theme>,
}

/// Credentials kept out of the main settings file.
#[derive(Debug)]
pub struct Secrets {
    pub admin_password_hash: Option<String>,
}

/// A `./` prefix stripped off the content directory, as loading does.
pub fn normalize_content_dir(dir: &str) -> (r: String)
    ensures
        match_at(dir@, "./"@, 0) ==> r@ == dir@.subrange(2, dir@.len() as int),
        !match_at(dir@, "./"@, 0) ==> r@ == dir@,
{
    if str_starts_with(dir, "./") {
        proof {
            reveal_strlit("./");
        }
        let len: usize = dir_len(dir);
        let mut out: String = String::new();
        append_range(&mut out, dir, 2, len);
        out
    } else {
        dir.to_owned()
    }
}

/// Character count of a path.
fn dir_len(s: &str) -> (n: usize)
    ensures
        n == s@.len(),
{
    vstd::string::StrSliceExecFns::unicode_len(s)
}

/// The theme name written in a stylesheet's first line, between `/*`
/// and `*/` markers.  Fails exactly when the stylesheet is empty.
pub fn extract_theme_name(content: &str) -> (r: Result<String, String>)
    ensures
        match r {
            Ok(name) => content@.len() > 0 && ({
                let l = spec_lines(content@)[0];
                let a = if l.len() >= 2 && l[0] == '/' && l[1] == '*' {
                    l.subrange(2, l.len() as int)
                } else {
                    l
                };
                let b = if a.len() >= 2 && a[a.len() - 2] == '*' && a[a.len() - 1] == '/' {
                    a.subrange(0, a.len() - 2)
                } else {
                    a
                };
                name@ == spec_trim(b, |x: char| is_ws_char(x))
            }),
            Err(_) => content@.len() == 0,
        },
{
    let lines: Vec<String> = split_lines(content);
    if lines.len() == 0 {
        proof {
            if content@.len() > 0 {
                crate::strutil::lemma_lines_nonempty(content@);
                assert(lines@.map_values(|p: String| p@).len() == 0);
            }
        }
        return Err("unable to extract theme name".to_owned());
    }
    proof {
        assert(content@.len() > 0) by {
            if content@.len() == 0 {
                assert(spec_lines(content@).len() == 0);
                assert(lines@.map_values(|p: String| p@).len() == 0);
            }
        }
        assert(lines@.map_values(|p: String| p@)[0] == lines@[0]@);
    }
    let first: &String = &lines[0];
    let fs: &str = first.as_str();
    let fl: usize = dir_len(fs);
    let mut a: String = String::new();
    if fl >= 2 && fs.get_char(0) == '/' && fs.get_char(1) == '*' {
        append_range(&mut a, fs, 2, fl);
    } else {
        append_range(&mut a, fs, 0, fl);
        proof {
            assert(a@ =~= first@);
        }
    }
    let al: usize = a.as_str().unicode_len();
    let mut b: String = String::new();
    if al >= 2 && a.as_str().get_char(al - 2) == '*' && a.as_str().get_char(al - 1) == '/' {
        append_range(&mut b, a.as_str(), 0, al - 2);
    } else {
        append_range(&mut b, a.as_str(), 0, al);
        proof {
            assert(b@ =~= a@);
        }
    }
    Ok(trim_ws(b.as_str()))
}

/// Build the sorted theme list from the stylesheets found under the
/// themes directory: each is named by its first line, and the list is
/// ordered by name.  Stylesheets with no name line are skipped.
pub fn find_themes(css_files: &Vec<(String, String)>) -> (r: Vec<Theme>)
    ensures
        r@.len() <= css_files@.len(),
        forall|i: int, j: int|
            0 <= i < j < r@.len() ==> spec_str_le(r@[i].name@, r@[j].name@),
{
    let n: usize = css_files.len();
    let mut themes: Vec<Theme> = Vec::new();
    let mut k: usize = 0;
    while k < n
        invariant
            0 <= k <= n,
            n == css_files@.len(),
            themes@.len() <= k,
            forall|i: int, j: int|
                0 <= i < j < themes@.len() ==> spec_str_le(themes@[i].name@, themes@[j].name@),
        decreases n - k,
    {
        let filename: &String = &css_files[k].0;
        match extract_theme_name(css_files[k].1.as_str()) {
            Ok(name) => {
                let t = Theme { filename: filename.clone(), name };
                let sl: usize = themes.len();
                let mut pos: usize = 0;
                while pos < sl && str_lt(themes[pos].name.as_str(), t.name.as_str())
                    invariant
                        0 <= pos <= sl,
                        sl == themes@.len(),
                        forall|m: int| 0 <= m < pos ==> spec_str_lt(themes@[m].name@, t.name@),
                    decreases sl - pos,
                {
                    pos += 1;
                }
                let ghost before = themes@;
                let ghost tv = t.name@;
                themes.insert(pos, t);
                proof {
                    assert forall|i: int, j: int|
                        0 <= i < j < themes@.len() implies spec_str_le(
                        themes@[i].name@,
                        themes@[j].name@,
                    ) by {
                        if i == pos {
                            assert(themes@[j] == before[j - 1]);
                            if j - 1 >= pos && pos < before.len() {
                                assert(!spec_str_lt(before[pos as int].name@, tv));
                                crate::strutil::lemma_str_lt_total(before[pos as int].name@, tv);
                                if j - 1 > pos {
                                    assert(spec_str_le(
                                        before[pos as int].name@,
                                        before[j - 1].name@,
                                    ));
                                    if spec_str_lt(tv, before[j - 1].name@) {
                                    } else {
                                        crate::strutil::lemma_str_lt_total(
                                            tv,
                                            before[j - 1].name@,
                                        );
                                        if before[j - 1].name@ != tv {
                                            crate::strutil::lemma_str_lt_trans(
                                                before[j - 1].name@,
                                                tv,
                                                before[pos as int].name@,
                                            );
                                            if spec_str_lt(
                                                before[pos as int].name@,
                                                before[j - 1].name@,
                                            ) {
                                                crate::strutil::lemma_str_lt_trans(
                                                    before[pos as int].name@,
                                                    before[j - 1].name@,
                                                    before[pos as int].name@,
                                                );
                                                crate::strutil::lemma_str_lt_total(
                                                    before[pos as int].name@,
                                                    before[pos as int].name@,
                                                );
                                            }
                                        }
                                    }
                                }
                            }
                        } else if j == pos {
                            assert(themes@[i] == before[i]);
                            assert(spec_str_lt(before[i].name@, tv));
                        } else {
                            let gi: int = if i < pos {
                                i
                            } else {
                                i - 1
                            };
                            let gj: int = if j < pos {
                                j
                            } else {
                                j - 1
                            };
                            assert(themes@[i] == before[gi]);
                            assert(themes@[j] == before[gj]);
                        }
                    }
                }
            },
            Err(_) => {
                // a stylesheet with no name line is skipped
            },
        }
        k += 1;
    }
    themes
}

} // verus!
