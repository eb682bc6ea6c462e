//! Image thumbnail subsystem: deterministic thumbnail naming, directory
//! scanning and grouped listing, aspect-ratio-preserving resize planning,
//! and progress tracking for background generation.
//!
//! Paths are modelled as strings with `/` separators; a path's directory
//! is everything before the last separator and its file name everything
//! after it.

use vstd::prelude::*;
use vstd::multiset::Multiset;
use vstd::string::StrSliceExecFns;
use vstd::string::StringExecFns;
use crate::strutil::{
    match_at,
    spec_str_lt,
    str_lt,
    starts_with_at,
    append_range,
    string_push_char,
};

verus! {

/// What went wrong while naming or generating a thumbnail.
#[derive(Debug, Clone, Copy, PartialEq, Eq, Structural)]
pub enum ThumbErrorKind {
    Name,
    File,
    AlreadyExists,
}

/// Error value for the thumbnail subsystem; `details` carries the text
/// of an underlying image error, when there is one.
#[derive(Debug, Clone)]
pub struct ThumbError {
    pub orig_file_name: String,
    pub kind: ThumbErrorKind,
    pub details: Option<String>,
}

impl ThumbError {
    /// A naming failure for the given path.
    pub fn name_error(path: &str) -> (r: ThumbError)
        ensures
            r.kind == ThumbErrorKind::Name,
            r.orig_file_name@ == path@,
            r.details is None,
    {
        ThumbError { orig_file_name: path.to_owned(), kind: ThumbErrorKind::Name, details: None }
    }

    /// The thumbnail for the given path already exists.
    pub fn exists_error(path: &str) -> (r: ThumbError)
        ensures
            r.kind == ThumbErrorKind::AlreadyExists,
            r.orig_file_name@ == path@,
            r.details is None,
    {
        ThumbError {
            orig_file_name: path.to_owned(),
            kind: ThumbErrorKind::AlreadyExists,
            details: None,
        }
    }

    /// A decode or write failure, with the underlying error's text.
    pub fn file_error(details: String) -> (r: ThumbError)
        ensures
            r.kind == ThumbErrorKind::File,
            r.details == Some(details),
    {
        ThumbError { orig_file_name: String::new(), kind: ThumbErrorKind::File, details: Some(
            details,
        ) }
    }

    /// A short description of the error.
    pub fn message(&self) -> (r: String)
        ensures
            self.kind == ThumbErrorKind::Name ==> r@ == "thumbnail name error: "@
                + self.orig_file_name@,
            self.kind == ThumbErrorKind::AlreadyExists ==> r@ == "thumbnail already exists: "@
                + self.orig_file_name@,
    {
        match self.kind {
            ThumbErrorKind::Name => {
                let mut m: String = String::new();
                m.append("thumbnail name error: ");
                m.append(self.orig_file_name.as_str());
                m
            },
            ThumbErrorKind::AlreadyExists => {
                let mut m: String = String::new();
                m.append("thumbnail already exists: ");
                m.append(self.orig_file_name.as_str());
                m
            },
            ThumbErrorKind::File => {
                let mut m: String = String::new();
                m.append("thumbnail file error: ");
                match &self.details {
                    Some(d) => m.append(d.as_str()),
                    None => m.append("unknown"),
                }
                m
            },
        }
    }
}

/// Position of the last occurrence of `c` in `s`, if any.
pub open spec fn spec_rfind(s: Seq<char>, c: char) -> Option<int> {
    if exists|k: int| 0 <= k < s.len() && s[k] == c {
        let j = choose|j: int| 0 <= j < s.len() && s[j] == c && forall|k: int|
            j < k < s.len() ==> s[k] != c;
        Some(j)
    } else {
        None
    }
}

/// Find the last occurrence of `c` in `s`.
pub fn rfind_char(s: &str, c: char) -> (r: Option<usize>)
    ensures
        match r {
            Some(j) => j < s@.len() && s@[j as int] == c && forall|k: int|
                j < k < s@.len() ==> s@[k] != c,
            None => forall|k: int| 0 <= k < s@.len() ==> s@[k] != c,
        },
{
    let n: usize = s.unicode_len();
    let mut j: usize = n;
    while j > 0
        invariant
            0 <= j <= n,
            n == s@.len(),
            forall|k: int| j <= k < n ==> s@[k] != c,
        decreases j,
    {
        j -= 1;
        if s.get_char(j) == c {
            return Some(j);
        }
    }
    None
}

/// The directory part of a path: everything before the last `/`
/// (empty when the path has no separator).
pub open spec fn spec_dir_of(p: Seq<char>) -> Seq<char> {
    match spec_rfind(p, '/') {
        Some(j) => p.subrange(0, j),
        None => Seq::empty(),
    }
}

/// The file-name part of a path: everything after the last `/`.
pub open spec fn spec_file_of(p: Seq<char>) -> Seq<char> {
    match spec_rfind(p, '/') {
        Some(j) => p.subrange(j + 1, p.len() as int),
        None => p,
    }
}

/// `dir` and `name` joined with a separator; a bare `name` when `dir`
/// is empty.
pub open spec fn spec_join_path(dir: Seq<char>, name: Seq<char>) -> Seq<char> {
    if dir.len() == 0 {
        name
    } else {
        dir + seq!['/'] + name
    }
}

/// A path split into its directory and file name.
#[derive(Debug)]
pub struct NameParts {
    pub path: String,
    pub dir: String,
    pub file_name: String,
}

impl Clone for NameParts {
    /// A clone carries the same parts.
    fn clone(&self) -> (res: Self)
        ensures
            res == *self,
    {
        let res = NameParts {
            path: self.path.clone(),
            dir: self.dir.clone(),
            file_name: self.file_name.clone(),
        };
        res
    }
}

impl NameParts {
    /// The parts are exactly the split of `path` at its last separator.
    pub open spec fn wf(&self) -> bool {
        &&& self.dir@ == spec_dir_of(self.path@)
        &&& self.file_name@ == spec_file_of(self.path@)
        &&& self.file_name@.len() > 0
    }

    /// Split `path` into directory and file name; fails when the file
    /// name would be empty (an empty path or one ending in `/`).
    pub fn new(path: &str) -> (r: Result<NameParts, ThumbError>)
        ensures
            match r {
                Ok(parts) => parts.wf() && parts.path@ == path@ && (path@.len() > 0 && path@[
                    path@.len() - 1
                ] != '/'),
                Err(e) => e.kind == ThumbErrorKind::Name && (path@.len() == 0 || path@[
                    path@.len() - 1
                ] == '/'),
            },
    {
        let n: usize = s_len(path);
        if n == 0 {
            return Err(ThumbError::name_error(path));
        }
        match rfind_char(path, '/') {
            Some(j) => {
                if j == n - 1 {
                    return Err(ThumbError::name_error(path));
                }
                let mut dir: String = String::new();
                append_range(&mut dir, path, 0, j);
                let mut file_name: String = String::new();
                append_range(&mut file_name, path, j + 1, n);
                Ok(NameParts { path: path.to_owned(), dir, file_name })
            },
            None => {
                Ok(
                    NameParts {
                        path: path.to_owned(),
                        dir: String::new(),
                        file_name: path.to_owned(),
                    },
                )
            },
        }
    }
}

/// Character count of `s` (its view length).
fn s_len(s: &str) -> (n: usize)
    ensures
        n == s@.len(),
{
    s.unicode_len()
}

/// Position of the dot that separates stem and extension: the last dot,
/// provided it is neither the first nor the last character.
pub open spec fn spec_ext_dot(f: Seq<char>) -> Option<int> {
    match spec_rfind(f, '.') {
        Some(k) => if 0 < k < f.len() - 1 {
            Some(k)
        } else {
            None
        },
        None => None,
    }
}

/// The stem of a file name: the part before the extension dot, or the
/// whole name when there is no extension.
pub open spec fn spec_stem_of(f: Seq<char>) -> Seq<char> {
    match spec_ext_dot(f) {
        Some(k) => f.subrange(0, k),
        None => f,
    }
}

/// The extension of a file name, without its dot.
pub open spec fn spec_ext_of(f: Seq<char>) -> Option<Seq<char>> {
    match spec_ext_dot(f) {
        Some(k) => Some(f.subrange(k + 1, f.len() as int)),
        None => None,
    }
}

/// The derived thumbnail name for a well-formed file name:
/// `{stem}_thumbnail.{ext}`.
pub open spec fn spec_thumbnail_name(f: Seq<char>) -> Seq<char> {
    spec_stem_of(f) + "_thumbnail"@ + seq!['.'] + spec_ext_of(f).unwrap()
}

/// A file name counts as a thumbnail when its stem ends with the
/// reserved `_thumbnail` suffix.
pub open spec fn spec_is_thumbnail(f: Seq<char>) -> bool {
    "_thumbnail"@.len() <= spec_stem_of(f).len() && match_at(
        spec_stem_of(f),
        "_thumbnail"@,
        spec_stem_of(f).len() - "_thumbnail"@.len(),
    )
}

/// A listing row: an original image and its derived thumbnail name.
#[derive(Debug, Clone)]
pub struct ImageListEntry {
    pub thumbnail_file_name: String,
    pub orig_file_name: String,
}

impl ImageListEntry {
    /// The entry pairs `file_name` with its derived thumbnail name.
    pub open spec fn wf_for(&self, file_name: Seq<char>) -> bool {
        &&& self.orig_file_name@ == file_name
        &&& self.thumbnail_file_name@ == spec_thumbnail_name(file_name)
    }

    /// Derive the thumbnail file name `{stem}_thumbnail.{ext}`.
    /// Fails with a `Name` error exactly when the file name has no
    /// non-empty stem or no non-empty extension.
    pub fn thumbnail_file_name(file_name: &str) -> (r: Result<String, ThumbError>)
        ensures
            match r {
                Ok(t) => spec_ext_dot(file_name@) is Some && t@ == spec_thumbnail_name(file_name@),
                Err(e) => spec_ext_dot(file_name@) is None && e.kind == ThumbErrorKind::Name,
            },
    {
        let n: usize = s_len(file_name);
        match rfind_char(file_name, '.') {
            Some(k) => {
                if k == 0 || k + 1 >= n {
                    return Err(ThumbError::name_error(file_name));
                }
                let mut t: String = String::new();
                append_range(&mut t, file_name, 0, k);
                t.append("_thumbnail");
                string_push_char(&mut t, '.');
                append_range(&mut t, file_name, k + 1, n);
                proof {
                    assert(t@ =~= spec_thumbnail_name(file_name@));
                }
                Ok(t)
            },
            None => Err(ThumbError::name_error(file_name)),
        }
    }

    /// Build a listing row for `file_name`.
    pub fn new(file_name: &str) -> (r: Result<ImageListEntry, ThumbError>)
        ensures
            match r {
                Ok(e) => spec_ext_dot(file_name@) is Some && e.wf_for(file_name@),
                Err(e) => spec_ext_dot(file_name@) is None && e.kind == ThumbErrorKind::Name,
            },
    {
        let thumbnail_file_name: String = match Self::thumbnail_file_name(file_name) {
            Ok(t) => t,
            Err(e) => {
                return Err(e);
            },
        };
        Ok(ImageListEntry { thumbnail_file_name, orig_file_name: file_name.to_owned() })
    }
}

/// Is `file_name` a thumbnail (stem ends in `_thumbnail`)?
pub fn is_thumbnail(file_name: &str) -> (r: bool)
    ensures
        r == spec_is_thumbnail(file_name@),
{
    let n: usize = s_len(file_name);
    let stem_end: usize = match rfind_char(file_name, '.') {
        Some(k) => if k == 0 || k + 1 >= n {
            n
        } else {
            k
        },
        None => n,
    };
    proof {
        match spec_ext_dot(file_name@) {
            Some(k) => {
                assert(spec_stem_of(file_name@) == file_name@.subrange(0, k));
            },
            None => {
                assert(spec_stem_of(file_name@) == file_name@);
            },
        }
    }
    let suffix: &str = "_thumbnail";
    let sl: usize = s_len(suffix);
    if sl > stem_end {
        return false;
    }
    let r: bool = starts_with_at(file_name, suffix, stem_end - sl);
    proof {
        let stem = spec_stem_of(file_name@);
        assert(stem =~= file_name@.subrange(0, stem_end as int));
        if r {
            assert(match_at(stem, suffix@, stem.len() - suffix@.len())) by {
                assert(stem.subrange(
                    stem.len() - suffix@.len(),
                    stem.len() as int,
                ) =~= file_name@.subrange(stem_end - sl, stem_end as int));
            }
        } else {
            if "_thumbnail"@.len() <= stem.len() && match_at(
                stem,
                suffix@,
                stem.len() - suffix@.len(),
            ) {
                assert(file_name@.subrange(stem_end - sl, stem_end as int) =~= stem.subrange(
                    stem.len() - suffix@.len(),
                    stem.len() as int,
                ));
            }
        }
    }
    r
}

/// When `j` holds `c` and nothing after it does, the last occurrence
/// is exactly `j`.
pub proof fn lemma_rfind_is(s: Seq<char>, c: char, j: int)
    requires
        0 <= j < s.len(),
        s[j] == c,
        forall|k: int| j < k < s.len() ==> s[k] != c,
    ensures
        spec_rfind(s, c) == Some(j),
{
    assert(exists|k: int| 0 <= k < s.len() && s[k] == c);
    let j2 = choose|j2: int| 0 <= j2 < s.len() && s[j2] == c && forall|k: int|
        j2 < k < s.len() ==> s[k] != c;
    if j2 < j {
        assert(s[j] != c);
    }
    if j < j2 {
        assert(s[j2] != c);
    }
}

/// Some occurrence of `c` implies a last occurrence of `c`.
proof fn lemma_exists_last(s: Seq<char>, c: char, k0: int)
    requires
        0 <= k0 < s.len(),
        s[k0] == c,
    ensures
        exists|j: int|
            0 <= j < s.len() && s[j] == c && forall|k: int| j < k < s.len() ==> s[k] != c,
    decreases s.len() - k0,
{
    if exists|k1: int| k0 < k1 < s.len() && s[k1] == c {
        let k1 = choose|k1: int| k0 < k1 < s.len() && s[k1] == c;
        lemma_exists_last(s, c, k1);
    } else {
        assert(0 <= k0 < s.len() && s[k0] == c && forall|k: int|
            k0 < k < s.len() ==> s[k] != c);
    }
}

/// What the last occurrence satisfies, when there is one.
pub proof fn lemma_rfind_props(s: Seq<char>, c: char)
    ensures
        match spec_rfind(s, c) {
            Some(j) => 0 <= j < s.len() && s[j] == c && forall|k: int|
                j < k < s.len() ==> s[k] != c,
            None => forall|k: int| 0 <= k < s.len() ==> s[k] != c,
        },
{
    if exists|k: int| 0 <= k < s.len() && s[k] == c {
        let k0 = choose|k: int| 0 <= k < s.len() && s[k] == c;
        lemma_exists_last(s, c, k0);
        let j = choose|j: int| 0 <= j < s.len() && s[j] == c && forall|k: int|
            j < k < s.len() ==> s[k] != c;
        assert(spec_rfind(s, c) == Some(j));
    }
}

/// Law: the derived thumbnail name is itself recognised as a thumbnail.
/// Together with the exact contracts of `thumbnail_file_name` (whose
/// result is a function of the file name alone) this gives the
/// determinism of thumbnail naming.
#[verifier::rlimit(50)]
pub proof fn lemma_thumbnail_of_own_output(f: Seq<char>)
    requires
        spec_ext_dot(f) is Some,
    ensures
        spec_is_thumbnail(spec_thumbnail_name(f)),
{
    let k = spec_ext_dot(f)->Some_0;
    lemma_rfind_props(f, '.');
    let stem = spec_stem_of(f);
    let ext = spec_ext_of(f)->Some_0;
    let suffix = "_thumbnail"@;
    let t = spec_thumbnail_name(f);
    let dot = stem.len() + suffix.len() as int;
    assert(t.len() == dot + 1 + ext.len());
    assert(t[dot] == '.');
    // nothing after `dot` is a dot: those characters come from `ext`,
    // which sits after the last dot of `f`
    assert forall|m: int| dot < m < t.len() implies t[m] != '.' by {
        assert(t[m] == ext[m - dot - 1]);
        assert(ext[m - dot - 1] == f[k + 1 + (m - dot - 1)]);
    }
    lemma_rfind_is(t, '.', dot);
    assert(ext.len() > 0);
    assert(spec_ext_dot(t) == Some(dot));
    let tstem = spec_stem_of(t);
    assert(tstem == t.subrange(0, dot));
    assert(tstem =~= stem + suffix);
    assert(suffix.len() <= tstem.len());
    assert(tstem.subrange(tstem.len() - suffix.len(), tstem.len() as int) =~= suffix);
    assert(match_at(tstem, suffix, tstem.len() - suffix.len()));
}

/// A directory path used as a listing key; keys order largest path
/// first, so the most recently dated directories lead the listing.
#[derive(Debug, Clone)]
pub struct DirKey(pub String);

impl DirKey {
    /// Wrap a directory path.
    pub fn new(p: &str) -> (r: DirKey)
        ensures
            r.0@ == p@,
    {
        DirKey(p.to_owned())
    }
}

impl PartialEq for DirKey {
    fn eq(&self, other: &DirKey) -> (r: bool) {
        self.0 == other.0
    }
}

impl vstd::std_specs::cmp::PartialEqSpecImpl for DirKey {
    open spec fn obeys_eq_spec() -> bool {
        true
    }

    open spec fn eq_spec(&self, other: &DirKey) -> bool {
        self.0@ == other.0@
    }
}

impl Eq for DirKey {}

impl vstd::std_specs::cmp::PartialOrdSpecImpl for DirKey {
    open spec fn obeys_partial_cmp_spec() -> bool {
        true
    }

    open spec fn partial_cmp_spec(&self, other: &DirKey) -> Option<core::cmp::Ordering> {
        if spec_str_lt(other.0@, self.0@) {
            Some(core::cmp::Ordering::Less)
        } else if spec_str_lt(self.0@, other.0@) {
            Some(core::cmp::Ordering::Greater)
        } else {
            Some(core::cmp::Ordering::Equal)
        }
    }
}

impl PartialOrd for DirKey {
    /// Reversed path order: the lexicographically larger path compares
    /// as the smaller key.
    fn partial_cmp(&self, other: &DirKey) -> (r: Option<core::cmp::Ordering>) {
        if str_lt(other.0.as_str(), self.0.as_str()) {
            Some(core::cmp::Ordering::Less)
        } else if str_lt(self.0.as_str(), other.0.as_str()) {
            Some(core::cmp::Ordering::Greater)
        } else {
            Some(core::cmp::Ordering::Equal)
        }
    }
}

/// One directory of the grouped image listing.
#[derive(Debug, Clone)]
pub struct ImageListDir {
    pub dir: String,
    pub file_names: Vec<ImageListEntry>,
}

impl ImageListDir {
    /// Backslashes replaced by forward slashes, for HTML output.
    pub fn reslash(p: &str) -> (r: String)
        ensures
            r@ == crate::strutil::spec_replace_all(p@, seq!['\\'], seq!['/']),
    {
        proof {
            reveal_strlit("\\");
            reveal_strlit("/");
            assert("\\"@ =~= seq!['\\']);
            assert("/"@ =~= seq!['/']);
        }
        let r: String = crate::strutil::replace_all(p, "\\", "/");
        r
    }

    /// Start a directory group with its first entry.
    pub fn new(parts: &NameParts) -> (r: Result<ImageListDir, ThumbError>)
        ensures
            match r {
                Ok(d) => {
                    &&& spec_ext_dot(parts.file_name@) is Some
                    &&& d.dir@ == crate::strutil::spec_replace_all(
                        parts.dir@,
                        seq!['\\'],
                        seq!['/'],
                    )
                    &&& d.file_names@.len() == 1
                    &&& d.file_names@[0].wf_for(parts.file_name@)
                },
                Err(e) => spec_ext_dot(parts.file_name@) is None && e.kind
                    == ThumbErrorKind::Name,
            },
    {
        let entry: ImageListEntry = match ImageListEntry::new(parts.file_name.as_str()) {
            Ok(e) => e,
            Err(e) => {
                return Err(e);
            },
        };
        let mut file_names: Vec<ImageListEntry> = Vec::new();
        file_names.push(entry);
        Ok(ImageListDir { dir: Self::reslash(parts.dir.as_str()), file_names })
    }

    /// Append one more file of the same directory.
    pub fn push(&mut self, file_name: &str) -> (r: Result<(), ThumbError>)
        ensures
            match r {
                Ok(()) => {
                    &&& spec_ext_dot(file_name@) is Some
                    &&& final(self).dir == old(self).dir
                    &&& final(self).file_names@.len() == old(self).file_names@.len() + 1
                    &&& final(self).file_names@.subrange(0, old(self).file_names@.len() as int)
                        == old(self).file_names@
                    &&& final(self).file_names@[old(self).file_names@.len() as int].wf_for(
                        file_name@,
                    )
                },
                Err(e) => {
                    &&& spec_ext_dot(file_name@) is None
                    &&& e.kind == ThumbErrorKind::Name
                    &&& *final(self) == *old(self)
                },
            },
    {
        let entry: ImageListEntry = match ImageListEntry::new(file_name) {
            Ok(e) => e,
            Err(e) => {
                return Err(e);
            },
        };
        self.file_names.push(entry);
        proof {
            assert(self.file_names@.subrange(0, old(self).file_names@.len() as int) =~= old(
                self,
            ).file_names@);
        }
        Ok(())
    }
}

/// A point-in-time progress snapshot, safe to hand out: `count`
/// thumbnails still outstanding, of `total` when the scan began.
#[derive(Debug, Clone, Copy)]
pub struct ThumbsRemaining {
    pub total: usize,
    pub count: usize,
}

/// `s` with its first occurrence of `x` removed; `s` itself when `x`
/// does not occur.
pub open spec fn spec_remove_first(s: Seq<Seq<char>>, x: Seq<char>) -> Seq<Seq<char>>
    decreases s.len(),
{
    if s.len() == 0 {
        s
    } else if s[0] == x {
        s.subrange(1, s.len() as int)
    } else {
        seq![s[0]] + spec_remove_first(s.subrange(1, s.len() as int), x)
    }
}

/// Removing an element never lengthens the sequence, shortens it by
/// one exactly when the element occurs, and removes nothing else.
pub proof fn lemma_remove_first_len(s: Seq<Seq<char>>, x: Seq<char>)
    ensures
        s.contains(x) ==> spec_remove_first(s, x).len() == s.len() - 1,
        !s.contains(x) ==> spec_remove_first(s, x) == s,
    decreases s.len(),
{
    if s.len() > 0 {
        let t = s.subrange(1, s.len() as int);
        lemma_remove_first_len(t, x);
        if s[0] == x {
        } else {
            if s.contains(x) {
                let i = choose|i: int| 0 <= i < s.len() && s[i] == x;
                assert(t[i - 1] == x);
                assert(t.contains(x));
            } else {
                assert(!t.contains(x)) by {
                    if t.contains(x) {
                        let i = choose|i: int| 0 <= i < t.len() && t[i] == x;
                        assert(s[i + 1] == x);
                    }
                }
                assert(seq![s[0]] + t =~= s);
            }
        }
    }
}

/// Removing an element keeps every other element's multiplicity.
pub proof fn lemma_remove_first_multiset(s: Seq<Seq<char>>, x: Seq<char>)
    requires
        s.contains(x),
    ensures
        spec_remove_first(s, x).to_multiset() == s.to_multiset().remove(x),
    decreases s.len(),
{
    broadcast use vstd::seq_lib::group_to_multiset_ensures;

    let t = s.subrange(1, s.len() as int);
    if s[0] == x {
        assert(s =~= seq![s[0]] + t);
        vstd::seq_lib::lemma_multiset_commutative(seq![s[0]], t);
        assert(seq![s[0]].to_multiset() =~= Multiset::empty().insert(x)) by {
            assert(seq![s[0]] =~= Seq::<Seq<char>>::empty().push(x));
        }
        assert(spec_remove_first(s, x).to_multiset() =~= s.to_multiset().remove(x));
    } else {
        assert(t.contains(x)) by {
            let i = choose|i: int| 0 <= i < s.len() && s[i] == x;
            assert(t[i - 1] == x);
        }
        lemma_remove_first_multiset(t, x);
        assert(s =~= seq![s[0]] + t);
        vstd::seq_lib::lemma_multiset_commutative(seq![s[0]], t);
        vstd::seq_lib::lemma_multiset_commutative(seq![s[0]], spec_remove_first(t, x));
        assert(s.to_multiset() == seq![s[0]].to_multiset().add(t.to_multiset()));
        assert(spec_remove_first(s, x).to_multiset() == seq![s[0]].to_multiset().add(
            spec_remove_first(t, x).to_multiset(),
        ));
        assert(spec_remove_first(s, x).to_multiset() =~= s.to_multiset().remove(x));
    }
}

/// Process-lifetime record of which originals still need a thumbnail:
/// the in-flight paths of the current scan, plus how many were
/// outstanding when the scan began.
#[derive(Debug, Clone)]
pub struct ProgressTracker {
    in_flight: Vec<String>,
    initial_total: usize,
}

impl ProgressTracker {
    /// The set of in-flight paths, as a sequence of path views.
    pub closed spec fn paths(&self) -> Seq<Seq<char>> {
        self.in_flight@.map_values(|p: String| p@)
    }

    /// The seeded total.
    pub closed spec fn total(&self) -> int {
        self.initial_total as int
    }

    /// In-flight paths are registered at most once.
    pub open spec fn wf(&self) -> bool {
        forall|i: int, j: int|
            0 <= i < j < self.paths().len() ==> self.paths()[i] != self.paths()[j]
    }

    /// A fresh tracker with nothing in flight.
    pub fn new(initial_total: usize) -> (r: ProgressTracker)
        ensures
            r.wf(),
            r.paths().len() == 0,
            r.total() == initial_total,
    {
        let r = ProgressTracker { in_flight: Vec::new(), initial_total };
        proof {
            assert(r.paths() =~= Seq::<Seq<char>>::empty());
        }
        r
    }

    /// Does the tracker hold `path`?
    pub fn contains(&self, path: &str) -> (r: bool)
        ensures
            r == self.paths().contains(path@),
    {
        let n: usize = self.in_flight.len();
        let mut i: usize = 0;
        while i < n
            invariant
                0 <= i <= n,
                n == self.in_flight@.len(),
                forall|k: int| 0 <= k < i ==> self.paths()[k] != path@,
            decreases n - i,
        {
            if crate::strutil::str_eq(self.in_flight[i].as_str(), path) {
                assert(self.paths()[i as int] == path@);
                return true;
            }
            i += 1;
        }
        assert(!self.paths().contains(path@)) by {
            if self.paths().contains(path@) {
                let k = choose|k: int| 0 <= k < self.paths().len() && self.paths()[k] == path@;
            }
        }
        false
    }

    /// Add `path` to the in-flight set; already-registered paths are
    /// not added twice.
    pub fn register(&mut self, path: &str)
        requires
            old(self).wf(),
        ensures
            final(self).wf(),
            final(self).total() == old(self).total(),
            old(self).paths().contains(path@) ==> final(self).paths() == old(self).paths(),
            !old(self).paths().contains(path@) ==> final(self).paths() == old(self).paths().push(
                path@,
            ),
            final(self).paths().contains(path@),
    {
        if !self.contains(path) {
            self.in_flight.push(path.to_owned());
            proof {
                assert(self.paths() =~= old(self).paths().push(path@));
                assert(self.paths()[self.paths().len() - 1] == path@);
            }
        }
    }

    /// Remove `path` from the in-flight set (generation finished,
    /// whether it succeeded or failed).  The count never grows, and
    /// shrinks by exactly one when the path was in flight.
    pub fn complete(&mut self, path: &str)
        requires
            old(self).wf(),
        ensures
            final(self).wf(),
            final(self).total() == old(self).total(),
            final(self).paths() == spec_remove_first(old(self).paths(), path@),
            final(self).paths().len() <= old(self).paths().len(),
            old(self).paths().contains(path@) ==> final(self).paths().len() == old(
                self,
            ).paths().len() - 1,
            !old(self).paths().contains(path@) ==> final(self).paths() == old(self).paths(),
            !final(self).paths().contains(path@),
    {
        proof {
            lemma_remove_first_len(self.paths(), path@);
        }
        let n: usize = self.in_flight.len();
        let mut i: usize = 0;
        while i < n
            invariant
                0 <= i <= n,
                n == self.in_flight@.len(),
                self.wf(),
                self.paths() == old(self).paths(),
                self.total() == old(self).total(),
                n == self.paths().len(),
                forall|k: int| 0 <= k < i ==> self.paths()[k] != path@,
            decreases n - i,
        {
            if crate::strutil::str_eq(self.in_flight[i].as_str(), path) {
                let ghost pre = self.paths();
                proof {
                    assert(pre[i as int] == path@);
                    assert(old(self).paths().contains(path@));
                }
                self.in_flight.remove(i);
                proof {
                    assert(self.paths() =~= pre.subrange(0, i as int) + pre.subrange(
                        i + 1,
                        pre.len() as int,
                    ));
                    lemma_remove_first_prefix(pre, path@, i as int);
                    assert forall|a: int, b: int|
                        0 <= a < b < self.paths().len() implies self.paths()[a]
                        != self.paths()[b] by {
                        let pa: int = if a < i {
                            a
                        } else {
                            a + 1
                        };
                        let pb: int = if b < i {
                            b
                        } else {
                            b + 1
                        };
                        assert(self.paths()[a] == pre[pa]);
                        assert(self.paths()[b] == pre[pb]);
                    }
                    assert(!self.paths().contains(path@)) by {
                        if self.paths().contains(path@) {
                            let k = choose|k: int|
                                0 <= k < self.paths().len() && self.paths()[k] == path@;
                            if k < i {
                                assert(pre[k] == path@);
                            } else {
                                assert(pre[k + 1] == path@);
                                assert(pre[i as int] == path@);
                            }
                        }
                    }
                }
                return;
            }
            i += 1;
        }
        proof {
            assert(!self.paths().contains(path@)) by {
                if self.paths().contains(path@) {
                    let k = choose|k: int|
                        0 <= k < self.paths().len() && self.paths()[k] == path@;
                }
            }
        }
    }

    /// A point-in-time snapshot: the in-flight count and the seeded
    /// total.
    pub fn snapshot(&self) -> (r: ThumbsRemaining)
        ensures
            r.count == self.paths().len(),
            r.total == self.total(),
    {
        ThumbsRemaining { count: self.in_flight.len(), total: self.initial_total }
    }
}

/// Removing the first occurrence, when it sits at `i`, splices the
/// sequence around `i`.
pub proof fn lemma_remove_first_prefix(s: Seq<Seq<char>>, x: Seq<char>, i: int)
    requires
        0 <= i < s.len(),
        s[i] == x,
        forall|k: int| 0 <= k < i ==> s[k] != x,
    ensures
        spec_remove_first(s, x) == s.subrange(0, i) + s.subrange(i + 1, s.len() as int),
    decreases i,
{
    if i == 0 {
        assert(spec_remove_first(s, x) == s.subrange(1, s.len() as int));
        assert(s.subrange(0, 0) + s.subrange(1, s.len() as int) =~= s.subrange(
            1,
            s.len() as int,
        ));
    } else {
        let t = s.subrange(1, s.len() as int);
        lemma_remove_first_prefix(t, x, i - 1);
        assert(s[0] != x);
        assert(spec_remove_first(s, x) == seq![s[0]] + spec_remove_first(t, x));
        assert(t.subrange(0, i - 1) =~= s.subrange(1, i));
        assert(t.subrange(i, t.len() as int) =~= s.subrange(i + 1, s.len() as int));
        assert(seq![s[0]] + (s.subrange(1, i) + s.subrange(i + 1, s.len() as int)) =~= s.subrange(
            0,
            i,
        ) + s.subrange(i + 1, s.len() as int));
    }
}

/// The in-flight paths left after completing the jobs of `js`, in
/// order.
pub open spec fn spec_run_completions(s: Seq<Seq<char>>, js: Seq<Seq<char>>) -> Seq<Seq<char>>
    decreases js.len(),
{
    if js.len() == 0 {
        s
    } else {
        spec_run_completions(spec_remove_first(s, js[0]), js.subrange(1, js.len() as int))
    }
}

/// Law (convergence): completing, in any order, exactly the jobs that
/// are in flight leaves nothing in flight — the progress count reaches
/// zero.
pub proof fn lemma_progress_converges(s: Seq<Seq<char>>, js: Seq<Seq<char>>)
    requires
        s.to_multiset() == js.to_multiset(),
    ensures
        spec_run_completions(s, js).len() == 0,
    decreases js.len(),
{
    broadcast use vstd::seq_lib::group_to_multiset_ensures;

    if js.len() == 0 {
        if s.len() > 0 {
            assert(s.to_multiset().len() == s.len());
        }
    } else {
        let x = js[0];
        assert(js.contains(x));
        assert(js.to_multiset().count(x) > 0);
        assert(s.to_multiset().count(x) > 0);
        assert(s.contains(x));
        lemma_remove_first_multiset(s, x);
        let jt = js.subrange(1, js.len() as int);
        assert(js =~= seq![x] + jt);
        vstd::seq_lib::lemma_multiset_commutative(seq![x], jt);
        assert(seq![x].to_multiset() =~= Multiset::empty().insert(x)) by {
            assert(seq![x] =~= Seq::<Seq<char>>::empty().push(x));
        }
        assert(jt.to_multiset() =~= js.to_multiset().remove(x));
        lemma_progress_converges(spec_remove_first(s, x), jt);
    }
}

/// Law (monotonicity): as completions proceed, the number in flight
/// never increases.
pub proof fn lemma_progress_monotone(s: Seq<Seq<char>>, js: Seq<Seq<char>>)
    ensures
        spec_run_completions(s, js).len() <= s.len(),
    decreases js.len(),
{
    if js.len() > 0 {
        let x = js[0];
        lemma_remove_first_len(s, x);
        lemma_progress_monotone(spec_remove_first(s, x), js.subrange(1, js.len() as int));
    }
}

/// The extension (lowercased) is on the image allow-list.
pub open spec fn spec_is_image_ext(e: Seq<char>) -> bool {
    let l = crate::strutil::spec_ascii_lower(e);
    l == "jpg"@ || l == "jpeg"@ || l == "png"@ || l == "gif"@
}

/// A file name the scanner lists: it has an allow-listed image
/// extension and is not itself a thumbnail.
pub open spec fn spec_is_listed_image(name: Seq<char>) -> bool {
    match spec_ext_of(name) {
        Some(e) => spec_is_image_ext(e) && !spec_is_thumbnail(name),
        None => false,
    }
}

/// Does the scanner list this file name?
pub fn is_valid_image_file(file_name: &str) -> (r: bool)
    ensures
        r == spec_is_listed_image(file_name@),
{
    let n: usize = s_len(file_name);
    match rfind_char(file_name, '.') {
        Some(k) => {
            if k == 0 || k + 1 >= n {
                assert(spec_ext_dot(file_name@) is None);
                return false;
            }
            let mut ext: String = String::new();
            append_range(&mut ext, file_name, k + 1, n);
            assert(ext@ == spec_ext_of(file_name@)->Some_0);
            let lower: String = crate::strutil::to_ascii_lower(ext.as_str());
            let is_image: bool = crate::strutil::str_eq(lower.as_str(), "jpg")
                || crate::strutil::str_eq(lower.as_str(), "jpeg") || crate::strutil::str_eq(
                lower.as_str(),
                "png",
            ) || crate::strutil::str_eq(lower.as_str(), "gif");
            is_image && !is_thumbnail(file_name)
        },
        None => {
            assert(spec_ext_dot(file_name@) is None);
            false
        },
    }
}

/// The scanner keeps an entry when it is a file (not a directory)
/// whose name the listing rules accept.
pub open spec fn spec_keep_entry(e: (String, bool)) -> bool {
    !e.1 && spec_is_listed_image(spec_file_of(e.0@))
}

/// The surviving paths of a raw directory walk, in walk order.
pub open spec fn spec_scan(entries: Seq<(String, bool)>) -> Seq<(String, bool)> {
    entries.filter(|e: (String, bool)| spec_keep_entry(e))
}

/// Filter a raw walk down to the image files the listing shows,
/// splitting each surviving path into its parts.
pub fn scan_paths(entries: &Vec<(String, bool)>) -> (r: Vec<NameParts>)
    ensures
        r@.map_values(|p: NameParts| p.path@) == spec_scan(entries@).map_values(
            |e: (String, bool)| e.0@,
        ),
        forall|i: int|
            0 <= i < r@.len() ==> (#[trigger] r@[i]).wf() && spec_ext_dot(r@[i].file_name@)
                is Some && spec_is_listed_image(r@[i].file_name@),
{
    let ghost keep = |e: (String, bool)| spec_keep_entry(e);
    let n: usize = entries.len();
    let mut r: Vec<NameParts> = Vec::new();
    proof {
        reveal(Seq::filter);
        assert(entries@.subrange(0, 0).filter(keep) =~= Seq::<(String, bool)>::empty());
    }
    assert(r@.map_values(|p: NameParts| p.path@) =~= Seq::<(String, bool)>::empty().map_values(
        |e: (String, bool)| e.0@,
    ));
    let mut i: usize = 0;
    while i < n
        invariant
            0 <= i <= n,
            n == entries@.len(),
            r@.map_values(|p: NameParts| p.path@) == entries@.subrange(0, i as int).filter(
                keep,
            ).map_values(|e: (String, bool)| e.0@),
            keep == (|e: (String, bool)| spec_keep_entry(e)),
            forall|m: int|
                0 <= m < r@.len() ==> (#[trigger] r@[m]).wf() && spec_ext_dot(r@[m].file_name@)
                    is Some && spec_is_listed_image(r@[m].file_name@),
        decreases n - i,
    {
        let path: &String = &entries[i].0;
        let is_dir: bool = entries[i].1;
        let ghost pre = entries@.subrange(0, i as int);
        let ghost cur = entries@.subrange(0, i + 1);
        proof {
            assert(cur.drop_last() =~= pre);
            assert(cur.last() == entries@[i as int]);
        }
        let mut kept: bool = false;
        if !is_dir {
            match NameParts::new(path.as_str()) {
                Ok(parts) => {
                    if is_valid_image_file(parts.file_name.as_str()) {
                        assert(spec_keep_entry(entries@[i as int]));
                        r.push(parts);
                        kept = true;
                        proof {
                            reveal(Seq::filter);
                            assert(r@.map_values(|p: NameParts| p.path@) =~= cur.filter(
                                keep,
                            ).map_values(|e: (String, bool)| e.0@)) by {
                                assert(cur.filter(keep) =~= pre.filter(keep).push(
                                    entries@[i as int],
                                ));
                                assert(r@.map_values(|p: NameParts| p.path@)
                                    =~= pre.filter(keep).map_values(
                                    |e: (String, bool)| e.0@,
                                ).push(entries@[i as int].0@));
                            }
                        }
                    }
                },
                Err(_) => {
                    // an empty path or one ending in `/` has no file
                    // name, so nothing the listing rules accept
                    proof {
                        if path@.len() == 0 {
                            lemma_rfind_props(path@, '/');
                            assert(!spec_keep_entry(entries@[i as int]));
                        } else {
                            assert(path@[path@.len() - 1] == '/');
                            lemma_rfind_props(path@, '/');
                            let f = spec_file_of(path@);
                            assert(f.len() == 0);
                            assert(spec_ext_dot(f) is None) by {
                                lemma_rfind_props(f, '.');
                            }
                            assert(!spec_keep_entry(entries@[i as int]));
                        }
                    }
                },
            }
        }
        proof {
            reveal(Seq::filter);
            if !kept {
                assert(!spec_keep_entry(entries@[i as int]));
                assert(cur.filter(keep) =~= pre.filter(keep));
            }
        }
        i += 1;
    }
    proof {
        assert(entries@.subrange(0, n as int) =~= entries@);
    }
    r
}

/// Join a directory and a file name with `/` (a bare name when the
/// directory is empty).
pub fn join_path(dir: &str, name: &str) -> (r: String)
    ensures
        r@ == spec_join_path(dir@, name@),
{
    let n: usize = s_len(dir);
    if n == 0 {
        name.to_owned()
    } else {
        let mut out: String = dir.to_owned();
        string_push_char(&mut out, '/');
        out.append(name);
        assert(out@ =~= dir@ + seq!['/'] + name@);
        out
    }
}

/// The file still needs its thumbnail: the walk saw none.
pub open spec fn spec_needs_thumbnail(f: NameParts, entries: Seq<(String, bool)>) -> bool {
    !spec_has_thumbnail(f, entries)
}

/// The scanned files still needing a thumbnail, in scan order.
pub open spec fn spec_jobs_of(files: Seq<NameParts>, entries: Seq<(String, bool)>) -> Seq<
    NameParts,
> {
    files.filter(|f: NameParts| spec_needs_thumbnail(f, entries))
}

/// The walk saw a file at the thumbnail's derived path.
pub open spec fn spec_has_thumbnail(parts: NameParts, entries: Seq<(String, bool)>) -> bool {
    exists|k: int|
        0 <= k < entries.len() && !entries[k].1 && entries[k].0@ == spec_join_path(
            parts.dir@,
            spec_thumbnail_name(parts.file_name@),
        )
}

/// Does the walk snapshot already contain this file's thumbnail?
pub fn has_thumbnail(parts: &NameParts, entries: &Vec<(String, bool)>) -> (r: bool)
    requires
        spec_ext_dot(parts.file_name@) is Some,
    ensures
        r == spec_has_thumbnail(*parts, entries@),
{
    let thumb_name: String = match ImageListEntry::thumbnail_file_name(parts.file_name.as_str()) {
        Ok(t) => t,
        Err(_) => {
            proof {
                assert(false);
            }
            return false;
        },
    };
    let thumb_path: String = join_path(parts.dir.as_str(), thumb_name.as_str());
    let n: usize = entries.len();
    let mut i: usize = 0;
    while i < n
        invariant
            0 <= i <= n,
            n == entries@.len(),
            thumb_path@ == spec_join_path(parts.dir@, spec_thumbnail_name(parts.file_name@)),
            forall|k: int|
                0 <= k < i ==> !(!entries@[k].1 && entries@[k].0@ == spec_join_path(
                    parts.dir@,
                    spec_thumbnail_name(parts.file_name@),
                )),
        decreases n - i,
    {
        if !entries[i].1 && crate::strutil::str_eq(entries[i].0.as_str(), thumb_path.as_str()) {
            return true;
        }
        i += 1;
    }
    false
}

/// No element of `s` occurs twice.
pub open spec fn nodup(s: Seq<Seq<char>>) -> bool {
    forall|i: int, j: int| 0 <= i < j < s.len() ==> s[i] != s[j]
}

/// The directories of the scanned files, in scan order.
pub open spec fn dir_views(files: Seq<NameParts>) -> Seq<Seq<char>> {
    files.map_values(|f: NameParts| f.dir@)
}

/// The directory keys of the grouped listing, in listing order.
pub open spec fn key_views(groups: Seq<(DirKey, ImageListDir)>) -> Seq<Seq<char>> {
    groups.map_values(|g: (DirKey, ImageListDir)| g.0.0@)
}

/// The distinct directories of `files`, each exactly once, with the
/// same members as the directories occurring in `files`.
fn unique_dirs(files: &Vec<NameParts>) -> (r: Vec<String>)
    ensures
        nodup(r@.map_values(|p: String| p@)),
        forall|i: int|
            0 <= i < r@.len() ==> dir_views(files@).contains((#[trigger] r@[i])@),
        forall|k: int|
            0 <= k < files@.len() ==> r@.map_values(|p: String| p@).contains(
                (#[trigger] files@[k]).dir@,
            ),
{
    let n: usize = files.len();
    let mut r: Vec<String> = Vec::new();
    let mut k: usize = 0;
    while k < n
        invariant
            0 <= k <= n,
            n == files@.len(),
            nodup(r@.map_values(|p: String| p@)),
            forall|i: int|
                0 <= i < r@.len() ==> dir_views(files@).contains((#[trigger] r@[i])@),
            forall|m: int|
                0 <= m < k ==> r@.map_values(|p: String| p@).contains(
                    (#[trigger] files@[m]).dir@,
                ),
        decreases n - k,
    {
        let d: &String = &files[k].dir;
        let rl: usize = r.len();
        let mut found: bool = false;
        let mut i: usize = 0;
        while i < rl && !found
            invariant
                0 <= i <= rl,
                rl == r@.len(),
                found ==> exists|j: int| 0 <= j < r@.len() && r@[j]@ == d@,
                !found ==> forall|j: int| 0 <= j < i ==> r@[j]@ != d@,
            decreases rl - i + (if found {
                0int
            } else {
                1int
            }),
        {
            if crate::strutil::str_eq(r[i].as_str(), d.as_str()) {
                found = true;
                assert(r@[i as int]@ == d@);
            } else {
                i += 1;
            }
        }
        let ghost pre = r@;
        if !found {
            r.push(d.clone());
            proof {
                assert(r@[r@.len() - 1]@ == files@[k as int].dir@);
                let pm = pre.map_values(|p: String| p@);
                let nm = r@.map_values(|p: String| p@);
                assert forall|a: int, b: int| 0 <= a < b < nm.len() implies nm[a] != nm[b] by {
                    assert(nm[a] == r@[a]@);
                    assert(nm[b] == r@[b]@);
                    if b == nm.len() - 1 {
                        assert(pre[a]@ != d@);
                    } else {
                        assert(pm[a] == pre[a]@);
                        assert(pm[b] == pre[b]@);
                    }
                }
            }
        }
        proof {
            let nm = r@.map_values(|p: String| p@);
            assert forall|i2: int|
                0 <= i2 < r@.len() implies dir_views(files@).contains((#[trigger] r@[i2])@) by {
                if i2 < pre.len() {
                    assert(r@[i2] == pre[i2]);
                } else {
                    assert(r@[i2]@ == files@[k as int].dir@);
                    assert(dir_views(files@)[k as int] == files@[k as int].dir@);
                }
            }
            assert forall|m: int|
                0 <= m < k + 1 implies r@.map_values(|p: String| p@).contains(
                (#[trigger] files@[m]).dir@,
            ) by {
                if m < k {
                    let pm = pre.map_values(|p: String| p@);
                    let j = choose|j: int| 0 <= j < pm.len() && #[trigger] pm[j] == files@[m].dir@;
                    assert(nm[j] == r@[j]@);
                    assert(r@[j] == pre[j]);
                    assert(pm[j] == pre[j]@);
                    assert(nm[j] == files@[m].dir@);
                } else {
                    if found {
                        let j = choose|j: int| 0 <= j < pre.len() && pre[j]@ == d@;
                        assert(r@[j] == pre[j]);
                        assert(nm[j] == files@[m].dir@);
                    } else {
                        assert(nm[nm.len() - 1] == files@[m].dir@);
                    }
                }
            }
        }
        k += 1;
    }
    r
}

/// The file names of `files` lying directly in `dir`, in scan order.
pub open spec fn spec_files_in_dir(files: Seq<NameParts>, dir: Seq<char>) -> Seq<Seq<char>> {
    files.filter(|f: NameParts| f.dir@ == dir).map_values(|f: NameParts| f.file_name@)
}

/// Build the listing group of one directory: its entries are exactly
/// the files of `files` lying in `dir`, in scan order.
fn group_for_dir(files: &Vec<NameParts>, dir: &str) -> (r: ImageListDir)
    requires
        forall|k: int|
            0 <= k < files@.len() ==> spec_ext_dot((#[trigger] files@[k]).file_name@) is Some,
    ensures
        r.dir@ == crate::strutil::spec_replace_all(dir@, seq!['\\'], seq!['/']),
        r.file_names@.map_values(|e: ImageListEntry| e.orig_file_name@) == spec_files_in_dir(
            files@,
            dir@,
        ),
        forall|m: int|
            0 <= m < r.file_names@.len() ==> (#[trigger] r.file_names@[m]).wf_for(
                r.file_names@[m].orig_file_name@,
            ),
{
    let ghost pred = |f: NameParts| f.dir@ == dir@;
    let n: usize = files.len();
    let mut g = ImageListDir { dir: ImageListDir::reslash(dir), file_names: Vec::new() };
    proof {
        reveal(Seq::filter);
        assert(files@.subrange(0, 0).filter(pred) =~= Seq::<NameParts>::empty());
        assert(g.file_names@.map_values(|e: ImageListEntry| e.orig_file_name@)
            =~= Seq::<NameParts>::empty().map_values(|f: NameParts| f.file_name@));
    }
    let mut k: usize = 0;
    while k < n
        invariant
            0 <= k <= n,
            n == files@.len(),
            pred == (|f: NameParts| f.dir@ == dir@),
            forall|m: int|
                0 <= m < files@.len() ==> spec_ext_dot((#[trigger] files@[m]).file_name@)
                    is Some,
            g.dir@ == crate::strutil::spec_replace_all(dir@, seq!['\\'], seq!['/']),
            g.file_names@.map_values(|e: ImageListEntry| e.orig_file_name@) == files@.subrange(
                0,
                k as int,
            ).filter(pred).map_values(|f: NameParts| f.file_name@),
            forall|m: int|
                0 <= m < g.file_names@.len() ==> (#[trigger] g.file_names@[m]).wf_for(
                    g.file_names@[m].orig_file_name@,
                ),
        decreases n - k,
    {
        let ghost pre = files@.subrange(0, k as int);
        let ghost cur = files@.subrange(0, k + 1);
        proof {
            reveal(Seq::filter);
            assert(cur.drop_last() =~= pre);
            assert(cur.last() == files@[k as int]);
        }
        if crate::strutil::str_eq(files[k].dir.as_str(), dir) {
            let ghost gpre = g.file_names@;
            match g.push(files[k].file_name.as_str()) {
                Ok(()) => {
                    proof {
                        reveal(Seq::filter);
                        assert(cur.filter(pred) =~= pre.filter(pred).push(files@[k as int]));
                        assert(g.file_names@.map_values(|e: ImageListEntry| e.orig_file_name@)
                            =~= cur.filter(pred).map_values(|f: NameParts| f.file_name@)) by {
                            assert(g.file_names@.subrange(0, gpre.len() as int) =~= gpre);
                            assert(g.file_names@.map_values(
                                |e: ImageListEntry| e.orig_file_name@,
                            ) =~= gpre.map_values(|e: ImageListEntry| e.orig_file_name@).push(
                                files@[k as int].file_name@,
                            ));
                        }
                        assert forall|m: int|
                            0 <= m < g.file_names@.len() implies (
                        #[trigger] g.file_names@[m]).wf_for(
                            g.file_names@[m].orig_file_name@,
                        ) by {
                            if m < gpre.len() {
                                assert(g.file_names@[m] == gpre[m]) by {
                                    assert(g.file_names@.subrange(0, gpre.len() as int)[m]
                                        == g.file_names@[m]);
                                }
                            } else {
                                assert(g.file_names@[m].wf_for(files@[k as int].file_name@));
                            }
                        }
                    }
                },
                Err(_) => {
                    proof {
                        assert(false);
                    }
                },
            }
        } else {
            proof {
                reveal(Seq::filter);
                assert(cur.filter(pred) =~= pre.filter(pred));
            }
        }
        k += 1;
    }
    proof {
        assert(files@.subrange(0, n as int) =~= files@);
    }
    g
}

/// Two sequences with the same multiset have the same members.
pub proof fn lemma_multiset_contains_transfer(a: Seq<Seq<char>>, b: Seq<Seq<char>>, x: Seq<char>)
    requires
        a.to_multiset() == b.to_multiset(),
        a.contains(x),
    ensures
        b.contains(x),
{
    broadcast use vstd::seq_lib::group_to_multiset_ensures;

    assert(a.to_multiset().count(x) > 0);
}

/// A multiset-preserving rearrangement keeps freedom from duplicates.
pub proof fn lemma_nodup_transfer(a: Seq<Seq<char>>, b: Seq<Seq<char>>)
    requires
        a.to_multiset() == b.to_multiset(),
        nodup(a),
    ensures
        nodup(b),
{
    broadcast use vstd::seq_lib::group_to_multiset_ensures;

    if !nodup(b) {
        let (i, j) = choose|i: int, j: int| 0 <= i < j < b.len() && b[i] == b[j];
        assert(b.to_multiset().count(b[i]) >= 2) by {
            let br = b.remove(i);
            assert(br.to_multiset() == b.to_multiset().remove(b[i]));
            assert(br[j - 1] == b[j]);
            assert(br.contains(b[j]));
            assert(br.to_multiset().count(b[j]) > 0);
        }
        assert(a.to_multiset().count(b[i]) >= 2);
        assert(a.contains(b[i])) by {
            assert(a.to_multiset().count(b[i]) > 0);
        }
        let i0 = choose|i0: int| 0 <= i0 < a.len() && a[i0] == b[i];
        let ar = a.remove(i0);
        assert(ar.to_multiset() == a.to_multiset().remove(b[i]));
        assert(ar.to_multiset().count(b[i]) >= 1);
        assert(ar.contains(b[i]));
        let i1 = choose|i1: int| 0 <= i1 < ar.len() && ar[i1] == b[i];
        if i1 < i0 {
            assert(a[i1] == ar[i1]);
            assert(a[i1] == a[i0] && i1 != i0);
        } else {
            assert(a[i1 + 1] == ar[i1]);
            assert(a[i1 + 1] == a[i0] && i1 + 1 != i0);
        }
        assert(false);
    }
}

/// The grouped listing is correct for `files`: group keys are exactly
/// the directories of `files`, strictly descending, and each group
/// lists exactly its directory's files in scan order, each paired
/// with its derived thumbnail name.
pub open spec fn listing_ok(files: Seq<NameParts>, groups: Seq<(DirKey, ImageListDir)>) -> bool {
    &&& forall|i: int, j: int|
        0 <= i < j < groups.len() ==> spec_str_lt(groups[j].0.0@, groups[i].0.0@)
    &&& forall|i: int|
        0 <= i < groups.len() ==> dir_views(files).contains((#[trigger] groups[i]).0.0@)
    &&& forall|k: int|
        0 <= k < files.len() ==> key_views(groups).contains((#[trigger] files[k]).dir@)
    &&& forall|i: int|
        0 <= i < groups.len() ==> (#[trigger] groups[i]).1.dir@
            == crate::strutil::spec_replace_all(groups[i].0.0@, seq!['\\'], seq!['/'])
    &&& forall|i: int|
        0 <= i < groups.len() ==> (#[trigger] groups[i]).1.file_names@.map_values(
            |e: ImageListEntry| e.orig_file_name@,
        ) == spec_files_in_dir(files, groups[i].0.0@)
    &&& forall|i: int, m: int|
        0 <= i < groups.len() && 0 <= m < groups[i].1.file_names@.len()
            ==> (#[trigger] groups[i].1.file_names@[m]).wf_for(
            groups[i].1.file_names@[m].orig_file_name@,
        )
}

/// Group the scanned files by directory, most recently dated (largest)
/// directory first.
pub fn build_image_list(files: &Vec<NameParts>) -> (r: Vec<(DirKey, ImageListDir)>)
    requires
        forall|k: int|
            0 <= k < files@.len() ==> spec_ext_dot((#[trigger] files@[k]).file_name@) is Some,
    ensures
        listing_ok(files@, r@),
{
    let dirs: Vec<String> = unique_dirs(files);
    let sorted: Vec<String> = crate::strutil::sort_strings_desc(&dirs);
    let ghost dv = dirs@.map_values(|p: String| p@);
    let ghost sv = sorted@.map_values(|p: String| p@);
    proof {
        lemma_nodup_transfer(dv, sv);
    }
    let m: usize = sorted.len();
    let mut r: Vec<(DirKey, ImageListDir)> = Vec::new();
    let mut i: usize = 0;
    while i < m
        invariant
            0 <= i <= m,
            m == sorted@.len(),
            sv == sorted@.map_values(|p: String| p@),
            r@.len() == i,
            forall|a: int| 0 <= a < i ==> (#[trigger] r@[a]).0.0@ == sv[a],
            forall|a: int|
                0 <= a < i ==> (#[trigger] r@[a]).1.dir@ == crate::strutil::spec_replace_all(
                    sv[a],
                    seq!['\\'],
                    seq!['/'],
                ),
            forall|a: int|
                0 <= a < i ==> (#[trigger] r@[a]).1.file_names@.map_values(
                    |e: ImageListEntry| e.orig_file_name@,
                ) == spec_files_in_dir(files@, sv[a]),
            forall|a: int, b: int|
                0 <= a < i && 0 <= b < r@[a].1.file_names@.len()
                    ==> (#[trigger] r@[a].1.file_names@[b]).wf_for(
                    r@[a].1.file_names@[b].orig_file_name@,
                ),
            forall|k: int|
                0 <= k < files@.len() ==> spec_ext_dot((#[trigger] files@[k]).file_name@)
                    is Some,
        decreases m - i,
    {
        let key = DirKey::new(sorted[i].as_str());
        let group: ImageListDir = group_for_dir(files, sorted[i].as_str());
        r.push((key, group));
        i += 1;
    }
    proof {
        assert forall|a: int, b: int|
            0 <= a < b < r@.len() implies spec_str_lt(r@[b].0.0@, r@[a].0.0@) by {
            assert(crate::strutil::spec_str_le(sv[b], sv[a]));
            assert(sv[a] != sv[b]);
            assert(r@[b].0.0@ == sv[b] && r@[a].0.0@ == sv[a]);
        }
        assert forall|a: int|
            0 <= a < r@.len() implies dir_views(files@).contains((#[trigger] r@[a]).0.0@) by {
            assert(sv[a] == sorted@[a]@);
            assert(sv.contains(sv[a]));
            lemma_multiset_contains_transfer(sv, dv, sv[a]);
            let j = choose|j: int| 0 <= j < dv.len() && dv[j] == sv[a];
            assert(dirs@[j]@ == sv[a]);
            assert(dir_views(files@).contains(dirs@[j]@));
        }
        assert forall|k: int|
            0 <= k < files@.len() implies key_views(r@).contains(
            (#[trigger] files@[k]).dir@,
        ) by {
            assert(dv.contains(files@[k].dir@));
            lemma_multiset_contains_transfer(dv, sv, files@[k].dir@);
            let a = choose|a: int| 0 <= a < sv.len() && sv[a] == files@[k].dir@;
            assert(key_views(r@)[a] == r@[a].0.0@);
            assert(key_views(r@)[a] == files@[k].dir@);
        }
        assert(listing_ok(files@, r@));
    }
    r
}

/// Law (listing idempotence): the grouped listing is a function of the
/// scanned files alone — two listings built over the same files are
/// identical, group for group and entry for entry.
#[verifier::rlimit(50)]
pub proof fn lemma_listing_idempotent(
    files: Seq<NameParts>,
    g1: Seq<(DirKey, ImageListDir)>,
    g2: Seq<(DirKey, ImageListDir)>,
)
    requires
        listing_ok(files, g1),
        listing_ok(files, g2),
    ensures
        g1.len() == g2.len(),
        forall|i: int|
            0 <= i < g1.len() ==> (#[trigger] g1[i]).0.0@ == g2[i].0.0@ && g1[i].1.dir@
                == g2[i].1.dir@ && g1[i].1.file_names@.len() == g2[i].1.file_names@.len(),
        forall|i: int, m: int|
            0 <= i < g1.len() && 0 <= m < g1[i].1.file_names@.len()
                ==> (#[trigger] g1[i].1.file_names@[m]).orig_file_name@
                == g2[i].1.file_names@[m].orig_file_name@
                && g1[i].1.file_names@[m].thumbnail_file_name@
                == g2[i].1.file_names@[m].thumbnail_file_name@,
{
    let k1 = key_views(g1);
    let k2 = key_views(g2);
    assert forall|x: Seq<char>| k1.contains(x) == k2.contains(x) by {
        if k1.contains(x) {
            let i = choose|i: int| 0 <= i < k1.len() && k1[i] == x;
            assert(k1[i] == g1[i].0.0@);
            assert(dir_views(files).contains(x));
            let m = choose|m: int| 0 <= m < dir_views(files).len() && dir_views(files)[m] == x;
            assert(files[m].dir@ == x);
            assert(k2.contains(files[m].dir@));
        }
        if k2.contains(x) {
            let i = choose|i: int| 0 <= i < k2.len() && k2[i] == x;
            assert(k2[i] == g2[i].0.0@);
            assert(dir_views(files).contains(x));
            let m = choose|m: int| 0 <= m < dir_views(files).len() && dir_views(files)[m] == x;
            assert(files[m].dir@ == x);
            assert(k1.contains(files[m].dir@));
        }
    }
    assert forall|i: int, j: int| 0 <= i < j < k1.len() implies spec_str_lt(k1[j], k1[i]) by {
        assert(k1[j] == g1[j].0.0@ && k1[i] == g1[i].0.0@);
    }
    assert forall|i: int, j: int| 0 <= i < j < k2.len() implies spec_str_lt(k2[j], k2[i]) by {
        assert(k2[j] == g2[j].0.0@ && k2[i] == g2[i].0.0@);
    }
    lemma_sorted_desc_same_members_equal(k1, k2);
    assert forall|i: int|
        0 <= i < g1.len() implies (#[trigger] g1[i]).0.0@ == g2[i].0.0@ && g1[i].1.dir@ == g2[i]
        .1
        .dir@ && g1[i].1.file_names@.len() == g2[i].1.file_names@.len() by {
        assert(k1[i] == g1[i].0.0@ && k2[i] == g2[i].0.0@);
        let n1 = g1[i].1.file_names@.map_values(|e: ImageListEntry| e.orig_file_name@);
        let n2 = g2[i].1.file_names@.map_values(|e: ImageListEntry| e.orig_file_name@);
        assert(n1 == spec_files_in_dir(files, g1[i].0.0@));
        assert(n2 == spec_files_in_dir(files, g2[i].0.0@));
    }
    assert forall|i: int, m: int|
        0 <= i < g1.len() && 0 <= m < g1[i].1.file_names@.len() implies (#[trigger] g1[i]
        .1
        .file_names@[m]).orig_file_name@ == g2[i].1.file_names@[m].orig_file_name@ && g1[i]
        .1
        .file_names@[m].thumbnail_file_name@
        == g2[i].1.file_names@[m].thumbnail_file_name@ by {
        assert(k1[i] == g1[i].0.0@ && k2[i] == g2[i].0.0@);
        let n1 = g1[i].1.file_names@.map_values(|e: ImageListEntry| e.orig_file_name@);
        let n2 = g2[i].1.file_names@.map_values(|e: ImageListEntry| e.orig_file_name@);
        assert(n1 == spec_files_in_dir(files, g1[i].0.0@));
        assert(n2 == spec_files_in_dir(files, g2[i].0.0@));
        assert(n1[m] == n2[m]);
        assert(g1[i].1.file_names@[m].wf_for(g1[i].1.file_names@[m].orig_file_name@));
        assert(g2[i].1.file_names@[m].wf_for(g2[i].1.file_names@[m].orig_file_name@));
    }
}

/// Two path splits carry the same text in every part.
pub open spec fn same_parts(a: NameParts, b: NameParts) -> bool {
    a.path@ == b.path@ && a.dir@ == b.dir@ && a.file_name@ == b.file_name@
}

/// Two scanned file lists agree part for part.
pub open spec fn files_alike(f1: Seq<NameParts>, f2: Seq<NameParts>) -> bool {
    f1.len() == f2.len() && forall|i: int|
        0 <= i < f1.len() ==> same_parts(#[trigger] f1[i], #[trigger] f2[i])
}

/// Alike file lists put the same names in every directory.
proof fn lemma_files_in_dir_alike(f1: Seq<NameParts>, f2: Seq<NameParts>, dir: Seq<char>)
    requires
        files_alike(f1, f2),
    ensures
        spec_files_in_dir(f1, dir) == spec_files_in_dir(f2, dir),
    decreases f1.len(),
{
    reveal(Seq::filter);
    if f1.len() == 0 {
        assert(spec_files_in_dir(f1, dir) =~= spec_files_in_dir(f2, dir));
    } else {
        let d1 = f1.drop_last();
        let d2 = f2.drop_last();
        assert(files_alike(d1, d2)) by {
            assert(forall|i: int| 0 <= i < d1.len() ==> d1[i] == f1[i] && d2[i] == f2[i]);
        }
        lemma_files_in_dir_alike(d1, d2, dir);
        assert(same_parts(f1.last(), f2.last()));
        if f1.last().dir@ == dir {
            assert(spec_files_in_dir(f1, dir) =~= spec_files_in_dir(d1, dir).push(
                f1.last().file_name@,
            ));
            assert(spec_files_in_dir(f2, dir) =~= spec_files_in_dir(d2, dir).push(
                f2.last().file_name@,
            ));
            assert(spec_files_in_dir(f1, dir) =~= spec_files_in_dir(f2, dir));
        } else {
            assert(spec_files_in_dir(f1, dir) =~= spec_files_in_dir(d1, dir));
            assert(spec_files_in_dir(f2, dir) =~= spec_files_in_dir(d2, dir));
        }
    }
}

/// A correct listing of one file list is a correct listing of any
/// alike file list.
proof fn lemma_listing_ok_alike(
    f1: Seq<NameParts>,
    f2: Seq<NameParts>,
    groups: Seq<(DirKey, ImageListDir)>,
)
    requires
        files_alike(f1, f2),
        listing_ok(f1, groups),
    ensures
        listing_ok(f2, groups),
{
    assert(dir_views(f1) =~= dir_views(f2));
    assert forall|i: int|
        0 <= i < groups.len() implies (#[trigger] groups[i]).1.file_names@.map_values(
        |e: ImageListEntry| e.orig_file_name@,
    ) == spec_files_in_dir(f2, groups[i].0.0@) by {
        lemma_files_in_dir_alike(f1, f2, groups[i].0.0@);
    }
    assert forall|k: int|
        0 <= k < f2.len() implies key_views(groups).contains((#[trigger] f2[k]).dir@) by {
        assert(f2[k].dir@ == f1[k].dir@);
    }
}

/// Alike file lists leave the same files needing a thumbnail, in
/// order.
proof fn lemma_needs_alike(f1: Seq<NameParts>, f2: Seq<NameParts>, entries: Seq<(String, bool)>)
    requires
        files_alike(f1, f2),
    ensures
        files_alike(spec_jobs_of(f1, entries), spec_jobs_of(f2, entries)),
    decreases f1.len(),
{
    reveal(Seq::filter);
    if f1.len() == 0 {
        assert(spec_jobs_of(f1, entries) =~= spec_jobs_of(f2, entries));
        assert(files_alike(spec_jobs_of(f1, entries), spec_jobs_of(f2, entries)));
    } else {
        let d1 = f1.drop_last();
        let d2 = f2.drop_last();
        assert(files_alike(d1, d2)) by {
            assert(forall|i: int| 0 <= i < d1.len() ==> d1[i] == f1[i] && d2[i] == f2[i]);
        }
        lemma_needs_alike(d1, d2, entries);
        assert(same_parts(f1.last(), f2.last()));
        assert(spec_has_thumbnail(f1.last(), entries) == spec_has_thumbnail(
            f2.last(),
            entries,
        ));
        let j1 = spec_jobs_of(f1, entries);
        let j2 = spec_jobs_of(f2, entries);
        let e1 = spec_jobs_of(d1, entries);
        let e2 = spec_jobs_of(d2, entries);
        if spec_needs_thumbnail(f1.last(), entries) {
            assert(j1 == e1.push(f1.last()));
            assert(j2 == e2.push(f2.last()));
            assert(files_alike(j1, j2)) by {
                assert forall|i: int|
                    0 <= i < j1.len() implies same_parts(
                    #[trigger] j1[i],
                    #[trigger] j2[i],
                ) by {
                    if i < j1.len() - 1 {
                        assert(j1[i] == e1[i] && j2[i] == e2[i]);
                    }
                }
            }
        } else {
            assert(j1 == e1 && j2 == e2);
        }
    }
}

/// Law (scan idempotence): two scans that satisfy their contract over
/// the same walk snapshot agree in everything a caller can see — the
/// same files part for part, identical groups entry for entry, the
/// same jobs, the same tracked paths, and the same snapshot counts.
#[verifier::rlimit(50)]
pub proof fn lemma_scan_idempotent(entries: Seq<(String, bool)>, s1: ImageScan, s2: ImageScan)
    requires
        s1.wf(),
        s2.wf(),
        s1.files@.map_values(|p: NameParts| p.path@) == spec_scan(entries).map_values(
            |e: (String, bool)| e.0@,
        ),
        s2.files@.map_values(|p: NameParts| p.path@) == spec_scan(entries).map_values(
            |e: (String, bool)| e.0@,
        ),
        s1.jobs@ == spec_jobs_of(s1.files@, entries),
        s2.jobs@ == spec_jobs_of(s2.files@, entries),
    ensures
        files_alike(s1.files@, s2.files@),
        s1.groups@.len() == s2.groups@.len(),
        forall|i: int|
            0 <= i < s1.groups@.len() ==> (#[trigger] s1.groups@[i]).0.0@ == s2.groups@[i].0.0@
                && s1.groups@[i].1.dir@ == s2.groups@[i].1.dir@
                && s1.groups@[i].1.file_names@.len() == s2.groups@[i].1.file_names@.len(),
        forall|i: int, m: int|
            0 <= i < s1.groups@.len() && 0 <= m < s1.groups@[i].1.file_names@.len()
                ==> (#[trigger] s1.groups@[i].1.file_names@[m]).orig_file_name@
                == s2.groups@[i].1.file_names@[m].orig_file_name@
                && s1.groups@[i].1.file_names@[m].thumbnail_file_name@
                == s2.groups@[i].1.file_names@[m].thumbnail_file_name@,
        files_alike(s1.jobs@, s2.jobs@),
        s1.tracker.paths() == s2.tracker.paths(),
        s1.remaining.count == s2.remaining.count,
        s1.remaining.total == s2.remaining.total,
{
    let pv = spec_scan(entries).map_values(|e: (String, bool)| e.0@);
    assert(files_alike(s1.files@, s2.files@)) by {
        assert(s1.files@.len() == pv.len() && s2.files@.len() == pv.len());
        assert forall|i: int|
            0 <= i < s1.files@.len() implies same_parts(
            #[trigger] s1.files@[i],
            #[trigger] s2.files@[i],
        ) by {
            assert(s1.files@[i].path@ == pv[i]);
            assert(s2.files@[i].path@ == pv[i]);
            assert(s1.files@[i].wf() && s2.files@[i].wf());
        }
    }
    lemma_listing_ok_alike(s1.files@, s2.files@, s1.groups@);
    lemma_listing_idempotent(s2.files@, s1.groups@, s2.groups@);
    lemma_needs_alike(s1.files@, s2.files@, entries);
    assert(s1.jobs@.map_values(|p: NameParts| p.path@) =~= s2.jobs@.map_values(
        |p: NameParts| p.path@,
    ));
    assert(s1.tracker.paths() == s2.tracker.paths());
    assert(s1.remaining.count == s1.tracker.paths().len());
    assert(s2.remaining.count == s2.tracker.paths().len());
    assert(s1.remaining.total == s1.jobs@.len() && s2.remaining.total == s2.jobs@.len());
}

/// Two strictly descending sequences with the same members are equal.
pub proof fn lemma_sorted_desc_same_members_equal(a: Seq<Seq<char>>, b: Seq<Seq<char>>)
    requires
        forall|i: int, j: int| 0 <= i < j < a.len() ==> spec_str_lt(a[j], a[i]),
        forall|i: int, j: int| 0 <= i < j < b.len() ==> spec_str_lt(b[j], b[i]),
        forall|x: Seq<char>| a.contains(x) == b.contains(x),
    ensures
        a == b,
    decreases a.len(),
{
    if a.len() == 0 {
        if b.len() > 0 {
            assert(b.contains(b[0]));
            assert(a.contains(b[0]));
            let i = choose|i: int| 0 <= i < a.len() && a[i] == b[0];
            assert(false);
        }
        assert(a =~= b);
    } else {
        assert(a.contains(a[0]));
        assert(b.contains(a[0]));
        assert(b.len() > 0);
        assert(b.contains(b[0]));
        assert(a.contains(b[0]));
        // the head of each is its unique maximum, so the heads agree
        assert(a[0] == b[0]) by {
            if a[0] != b[0] {
                let i = choose|i: int| 0 <= i < b.len() && b[i] == a[0];
                let j = choose|j: int| 0 <= j < a.len() && a[j] == b[0];
                assert(i > 0);
                assert(j > 0);
                assert(spec_str_lt(b[i], b[0]));
                assert(spec_str_lt(a[j], a[0]));
                crate::strutil::lemma_str_lt_trans(a[0], b[0], a[0]);
                crate::strutil::lemma_str_lt_total(a[0], a[0]);
            }
        }
        let at = a.subrange(1, a.len() as int);
        let bt = b.subrange(1, b.len() as int);
        assert forall|x: Seq<char>| at.contains(x) == bt.contains(x) by {
            if at.contains(x) {
                let i = choose|i: int| 0 <= i < at.len() && at[i] == x;
                assert(a[i + 1] == x);
                assert(spec_str_lt(x, a[0]));
                assert(a.contains(x));
                assert(b.contains(x));
                let j = choose|j: int| 0 <= j < b.len() && b[j] == x;
                if j == 0 {
                    crate::strutil::lemma_str_lt_total(x, x);
                }
                assert(bt[j - 1] == x);
                assert(bt.contains(x));
            }
            if bt.contains(x) {
                let i = choose|i: int| 0 <= i < bt.len() && bt[i] == x;
                assert(b[i + 1] == x);
                assert(spec_str_lt(x, b[0]));
                assert(b.contains(x));
                assert(a.contains(x));
                let j = choose|j: int| 0 <= j < a.len() && a[j] == x;
                if j == 0 {
                    crate::strutil::lemma_str_lt_total(x, x);
                }
                assert(at[j - 1] == x);
                assert(at.contains(x));
            }
        }
        lemma_sorted_desc_same_members_equal(at, bt);
        assert(a.len() == b.len());
        assert forall|i: int| 0 <= i < a.len() implies a[i] == b[i] by {
            if i > 0 {
                assert(a[i] == at[i - 1]);
                assert(b[i] == bt[i - 1]);
            }
        }
        assert(a =~= b);
    }
}

/// The target size of a thumbnail for an original of `w` by `h` and a
/// long-edge size `t`: the dominant dimension becomes exactly `t`, the
/// other is scaled to keep the aspect ratio, rounded to nearest.
pub open spec fn spec_target_dims(w: int, h: int, t: int) -> (int, int)
    recommends
        w > 0,
        h > 0,
        t > 0,
{
    if w >= h {
        (t, (2 * t * h + w) / (2 * w))
    } else {
        ((2 * t * w + h) / (2 * h), t)
    }
}

/// Compute the thumbnail's dimensions from the original's, preserving
/// the aspect ratio exactly in the dominant dimension and rounding the
/// other to the nearest integer.
pub fn target_dimensions(w: u32, h: u32, t: u32) -> (r: (u32, u32))
    requires
        w > 0,
        h > 0,
        0 < t <= 0x8000_0000,
    ensures
        (r.0 as int, r.1 as int) == spec_target_dims(w as int, h as int, t as int),
        w >= h ==> r.0 == t,
        w < h ==> r.1 == t,
{
    if w >= h {
        proof {
            assert((t as u128) * (h as u128) <= 0x8000_0000u128 * 0xFFFF_FFFFu128)
                by (nonlinear_arith)
                requires
                    t as u128 <= 0x8000_0000u128,
                    h as u128 <= 0xFFFF_FFFFu128,
            ;
        }
        let p: u128 = (t as u128) * (h as u128);
        let num: u128 = 2u128 * p + (w as u128);
        let den: u128 = 2u128 * (w as u128);
        let sec: u128 = num / den;
        proof {
            assert(num == 2 * (t as int) * (h as int) + w) by (nonlinear_arith)
                requires
                    p == (t as u128) * (h as u128),
                    num == 2u128 * p + (w as u128),
            ;
            assert(sec <= t) by (nonlinear_arith)
                requires
                    sec == (2 * (t as int) * (h as int) + w) / (2 * (w as int)),
                    0 < h <= w,
                    0 < t,
            ;
        }
        (t, sec as u32)
    } else {
        proof {
            assert((t as u128) * (w as u128) <= 0x8000_0000u128 * 0xFFFF_FFFFu128)
                by (nonlinear_arith)
                requires
                    t as u128 <= 0x8000_0000u128,
                    w as u128 <= 0xFFFF_FFFFu128,
            ;
        }
        let p: u128 = (t as u128) * (w as u128);
        let num: u128 = 2u128 * p + (h as u128);
        let den: u128 = 2u128 * (h as u128);
        let sec: u128 = num / den;
        proof {
            assert(num == 2 * (t as int) * (w as int) + h) by (nonlinear_arith)
                requires
                    p == (t as u128) * (w as u128),
                    num == 2u128 * p + (h as u128),
            ;
            assert(sec <= t) by (nonlinear_arith)
                requires
                    sec == (2 * (t as int) * (w as int) + h) / (2 * (h as int)),
                    0 < w < h,
                    0 < t,
            ;
        }
        (sec as u32, t)
    }
}

/// The width and height of the image that `bytes` decodes to, when
/// the image crate can decode it at all.  Decoding depends on the
/// bytes alone.
pub uninterp spec fn decoded_dims_of(bytes: Seq<u8>) -> Option<(int, int)>;

/// Relies on image::load_from_memory and GenericImageView::dimensions:
/// decode an image held in bytes and report its size.  It succeeds
/// exactly when the bytes decode, and then returns the named decoded
/// dimensions; the error is carried as its display text.
#[verifier::external_body]
fn decode_image_dims(bytes: &Vec<u8>) -> (r: Result<(u32, u32), String>)
    ensures
        match r {
            Ok(d) => decoded_dims_of(bytes@) == Some((d.0 as int, d.1 as int)),
            Err(_) => decoded_dims_of(bytes@) is None,
        },
{
    match image::load_from_memory(bytes.as_slice()) {
        Ok(img) => Ok(image::GenericImageView::dimensions(&img)),
        Err(e) => Err(e.to_string()),
    }
}

/// The JPEG bytes the resize pipeline produces for `bytes` scaled to
/// `w` by `h`, or nothing when decoding or encoding fails.  The name
/// covers the composite of three image-crate calls — decode, resize,
/// encode — each a function of its arguments alone, so the composite
/// depends on the arguments alone too.
pub uninterp spec fn thumb_jpeg_of(bytes: Seq<u8>, w: int, h: int) -> Option<Seq<u8>>;

/// Relies on image::load_from_memory, DynamicImage::resize_exact with
/// a triangle (bilinear) filter, and DynamicImage::write_to as JPEG:
/// decode the bytes afresh (so the result is a function of the bytes,
/// not of an image value decoded elsewhere), resample to exactly `w`
/// by `h`, and encode.  It succeeds exactly when the named composite
/// holds a value, and then returns that value; the error is carried
/// as its display text.
#[verifier::external_body]
fn decode_resize_encode_jpeg(bytes: &Vec<u8>, w: u32, h: u32) -> (r: Result<Vec<u8>, String>)
    ensures
        match r {
            Ok(v) => thumb_jpeg_of(bytes@, w as int, h as int) == Some(v@),
            Err(_) => thumb_jpeg_of(bytes@, w as int, h as int) is None,
        },
{
    let img = match image::load_from_memory(bytes.as_slice()) {
        Ok(img) => img,
        Err(e) => {
            return Err(e.to_string());
        },
    };
    let thumb = img.resize_exact(w, h, image::imageops::FilterType::Triangle);
    let mut buf: Vec<u8> = Vec::new();
    match thumb.write_to(&mut std::io::Cursor::new(&mut buf), image::ImageFormat::Jpeg) {
        Ok(()) => Ok(buf),
        Err(e) => Err(e.to_string()),
    }
}

/// Decode an original image, scale it to the configured long-edge size
/// with the aspect ratio preserved, and encode the result as JPEG.
/// Fails with a `File` error exactly when the image cannot be decoded,
/// is empty, or cannot be encoded; for a decodable, non-empty image
/// the result is the pipeline's output at the planned dimensions, so
/// success is owed whenever that pipeline succeeds.
pub fn generate_thumbnail_bytes(orig: &Vec<u8>, long_edge: u32) -> (r: Result<Vec<u8>, ThumbError>)
    requires
        0 < long_edge <= 0x8000_0000,
    ensures
        r is Err ==> r->Err_0.kind == ThumbErrorKind::File,
        decoded_dims_of(orig@) is None ==> r is Err,
        ({
            let dims = decoded_dims_of(orig@);
            dims is Some && (dims->Some_0.0 == 0 || dims->Some_0.1 == 0) ==> r is Err
        }),
        ({
            let dims = decoded_dims_of(orig@);
            dims is Some && dims->Some_0.0 > 0 && dims->Some_0.1 > 0 ==> ({
                let t = spec_target_dims(dims->Some_0.0, dims->Some_0.1, long_edge as int);
                match r {
                    Ok(v) => thumb_jpeg_of(orig@, t.0, t.1) == Some(v@),
                    Err(_) => thumb_jpeg_of(orig@, t.0, t.1) is None,
                }
            })
        }),
{
    let (w, h): (u32, u32) = match decode_image_dims(orig) {
        Ok(d) => d,
        Err(e) => {
            return Err(ThumbError::file_error(e));
        },
    };
    if w == 0 || h == 0 {
        return Err(ThumbError::file_error("image has no pixels".to_owned()));
    }
    let (tw, th): (u32, u32) = target_dimensions(w, h, long_edge);
    match decode_resize_encode_jpeg(orig, tw, th) {
        Ok(bytes) => Ok(bytes),
        Err(e) => Err(ThumbError::file_error(e)),
    }
}

/// Where the thumbnail file for `parts` belongs; an `AlreadyExists`
/// error when the caller has found it on disk, a `Name` error when the
/// file name cannot carry a thumbnail name.
pub fn generate_thumb_path(parts: &NameParts, thumb_exists: bool) -> (r: Result<
    String,
    ThumbError,
>)
    ensures
        match r {
            Ok(p) => !thumb_exists && spec_ext_dot(parts.file_name@) is Some && p@
                == spec_join_path(parts.dir@, spec_thumbnail_name(parts.file_name@)),
            Err(e) => (e.kind == ThumbErrorKind::Name && spec_ext_dot(parts.file_name@) is None)
                || (e.kind == ThumbErrorKind::AlreadyExists && thumb_exists && spec_ext_dot(
                parts.file_name@,
            ) is Some && e.orig_file_name@ == parts.path@),
        },
{
    let thumb_name: String = match ImageListEntry::thumbnail_file_name(parts.file_name.as_str()) {
        Ok(t) => t,
        Err(e) => {
            return Err(e);
        },
    };
    if thumb_exists {
        Err(ThumbError::exists_error(parts.path.as_str()))
    } else {
        Ok(join_path(parts.dir.as_str(), thumb_name.as_str()))
    }
}

/// One background generation step, up to the file writes: skip
/// untouched when the thumbnail already exists (no decode is
/// attempted), otherwise produce the thumbnail path and its bytes for
/// the caller to write.  On the work path, success is owed exactly
/// when the resize pipeline succeeds for the planned dimensions, and
/// the produced bytes are that pipeline's output.
pub fn create_thumbnail(
    parts: &NameParts,
    thumb_exists: bool,
    orig_bytes: &Vec<u8>,
    long_edge: u32,
) -> (r: Result<Option<(String, Vec<u8>)>, ThumbError>)
    requires
        0 < long_edge <= 0x8000_0000,
    ensures
        thumb_exists && spec_ext_dot(parts.file_name@) is Some ==> r is Ok && r->Ok_0 is None,
        match r {
            Ok(out) => match out {
                Some(pb) => !thumb_exists && spec_ext_dot(parts.file_name@) is Some && pb.0@
                    == spec_join_path(parts.dir@, spec_thumbnail_name(parts.file_name@)),
                None => thumb_exists,
            },
            Err(e) => e.kind == ThumbErrorKind::Name && spec_ext_dot(parts.file_name@) is None
                || e.kind == ThumbErrorKind::File && !thumb_exists,
        },
        ({
            let dims = decoded_dims_of(orig_bytes@);
            !thumb_exists && spec_ext_dot(parts.file_name@) is Some ==> {
                &&& (dims is None ==> r is Err)
                &&& (dims is Some && (dims->Some_0.0 == 0 || dims->Some_0.1 == 0) ==> r
                    is Err)
                &&& (dims is Some && dims->Some_0.0 > 0 && dims->Some_0.1 > 0 ==> ({
                    let t = spec_target_dims(
                        dims->Some_0.0,
                        dims->Some_0.1,
                        long_edge as int,
                    );
                    match r {
                        Ok(out) => out matches Some(pb) && thumb_jpeg_of(
                            orig_bytes@,
                            t.0,
                            t.1,
                        ) == Some(pb.1@),
                        Err(_) => thumb_jpeg_of(orig_bytes@, t.0, t.1) is None,
                    }
                }))
            }
        }),
{
    let thumb_path: String = match generate_thumb_path(parts, thumb_exists) {
        Ok(p) => p,
        Err(e) => {
            if matches!(e.kind, ThumbErrorKind::AlreadyExists) {
                return Ok(None);
            }
            return Err(e);
        },
    };
    match generate_thumbnail_bytes(orig_bytes, long_edge) {
        Ok(bytes) => Ok(Some((thumb_path, bytes))),
        Err(e) => Err(e),
    }
}

/// Relies on walkdir::WalkDir: every entry of the tree under `root`
/// that can be read, as a path with an is-directory flag; unreadable
/// entries are skipped.
#[verifier::external_body]
fn walk_tree(root: &str) -> (r: Vec<(String, bool)>)
{
    let mut v: Vec<(String, bool)> = Vec::new();
    for entry in walkdir::WalkDir::new(root) {
        if let Ok(e) = entry {
            v.push((e.path().to_string_lossy().into_owned(), e.file_type().is_dir()));
        }
    }
    v
}

/// Relies on walkdir::WalkDir with depth 0: whether `root` names a
/// readable directory.
#[verifier::external_body]
fn dir_exists(root: &str) -> (r: bool)
{
    match walkdir::WalkDir::new(root).max_depth(0).into_iter().next() {
        Some(Ok(e)) => e.file_type().is_dir(),
        _ => false,
    }
}

/// One scan's results: the grouped listing for the caller, the files
/// still needing a thumbnail, a fresh tracker already seeded with
/// them, and the snapshot to report.
pub struct ImageScan {
    pub files: Vec<NameParts>,
    pub groups: Vec<(DirKey, ImageListDir)>,
    pub jobs: Vec<NameParts>,
    pub tracker: ProgressTracker,
    pub remaining: ThumbsRemaining,
}

/// `s` with later repetitions of an element dropped, keeping first
/// occurrences in order.
pub open spec fn spec_dedup(s: Seq<Seq<char>>) -> Seq<Seq<char>>
    decreases s.len(),
{
    if s.len() == 0 {
        s
    } else {
        let d = spec_dedup(s.drop_last());
        if d.contains(s.last()) {
            d
        } else {
            d.push(s.last())
        }
    }
}

impl ImageScan {
    /// The scan's parts agree with one another: every scanned file is
    /// the well-formed split of a listed image path (so the groups are
    /// a function of the walk), the listing groups the scanned files,
    /// the jobs are scanned files, and the tracker holds exactly the
    /// distinct job paths, which is what the snapshot counts.
    pub open spec fn wf(&self) -> bool {
        &&& forall|i: int|
            0 <= i < self.files@.len() ==> (#[trigger] self.files@[i]).wf() && spec_ext_dot(
                self.files@[i].file_name@,
            ) is Some && spec_is_listed_image(self.files@[i].file_name@)
        &&& listing_ok(self.files@, self.groups@)
        &&& forall|j: int|
            0 <= j < self.jobs@.len() ==> self.files@.contains(#[trigger] self.jobs@[j])
        &&& forall|j: int|
            0 <= j < self.jobs@.len() ==> (#[trigger] self.jobs@[j]).wf() && spec_ext_dot(
                self.jobs@[j].file_name@,
            ) is Some
        &&& self.tracker.wf()
        &&& self.tracker.paths() == spec_dedup(self.jobs@.map_values(|p: NameParts| p.path@))
        &&& self.tracker.total() == self.jobs@.len()
        &&& self.remaining.count == self.tracker.paths().len()
        &&& self.remaining.total == self.jobs@.len()
    }
}

/// Build a scan from a raw walk snapshot: filter and split the paths,
/// group them for the listing, and classify each file by whether its
/// thumbnail is present in the same snapshot.
pub fn list_from_entries(entries: &Vec<(String, bool)>) -> (r: ImageScan)
    ensures
        r.wf(),
        r.files@.map_values(|p: NameParts| p.path@) == spec_scan(entries@).map_values(
            |e: (String, bool)| e.0@,
        ),
        r.jobs@ == spec_jobs_of(r.files@, entries@),
{
    let files: Vec<NameParts> = scan_paths(entries);
    let groups: Vec<(DirKey, ImageListDir)> = build_image_list(&files);
    let ghost needs = |f: NameParts| spec_needs_thumbnail(f, entries@);
    let n: usize = files.len();
    let mut jobs: Vec<NameParts> = Vec::new();
    proof {
        reveal(Seq::filter);
        assert(files@.subrange(0, 0).filter(needs) =~= Seq::<NameParts>::empty());
        assert(jobs@ =~= files@.subrange(0, 0).filter(needs));
    }
    let mut k: usize = 0;
    while k < n
        invariant
            0 <= k <= n,
            n == files@.len(),
            needs == (|f: NameParts| spec_needs_thumbnail(f, entries@)),
            jobs@ == files@.subrange(0, k as int).filter(needs),
            forall|m: int|
                0 <= m < files@.len() ==> (#[trigger] files@[m]).wf() && spec_ext_dot(
                    files@[m].file_name@,
                ) is Some,
        decreases n - k,
    {
        let ghost pre = files@.subrange(0, k as int);
        let ghost cur = files@.subrange(0, k + 1);
        proof {
            reveal(Seq::filter);
            assert(cur.drop_last() =~= pre);
            assert(cur.last() == files@[k as int]);
        }
        if !has_thumbnail(&files[k], entries) {
            jobs.push(files[k].clone());
            proof {
                reveal(Seq::filter);
                assert(needs(files@[k as int]));
                assert(jobs@ == pre.filter(needs).push(files@[k as int]));
                assert(cur.filter(needs) == pre.filter(needs).push(files@[k as int]));
                assert(jobs@ =~= cur.filter(needs));
            }
        } else {
            proof {
                reveal(Seq::filter);
                assert(cur.filter(needs) =~= pre.filter(needs));
            }
        }
        k += 1;
    }
    proof {
        assert(files@.subrange(0, n as int) =~= files@);
    }
    let jn: usize = jobs.len();
    let mut tracker: ProgressTracker = ProgressTracker::new(jn);
    proof {
        let jv = jobs@.map_values(|p: NameParts| p.path@);
        assert(tracker.paths() =~= spec_dedup(jv.subrange(0, 0)));
    }
    let mut j: usize = 0;
    while j < jn
        invariant
            0 <= j <= jn,
            jn == jobs@.len(),
            tracker.wf(),
            tracker.total() == jn,
            tracker.paths() == spec_dedup(
                jobs@.map_values(|p: NameParts| p.path@).subrange(0, j as int),
            ),
        decreases jn - j,
    {
        tracker.register(jobs[j].path.as_str());
        proof {
            let jv = jobs@.map_values(|p: NameParts| p.path@);
            let pre = jv.subrange(0, j as int);
            let cur = jv.subrange(0, j + 1);
            assert(cur.drop_last() =~= pre);
            assert(cur.last() == jobs@[j as int].path@);
        }
        j += 1;
    }
    let remaining: ThumbsRemaining = tracker.snapshot();
    let remaining = ThumbsRemaining { count: remaining.count, total: jn };
    let r = ImageScan { files, groups, jobs, tracker, remaining };
    proof {
        let jv = r.jobs@.map_values(|p: NameParts| p.path@);
        assert(jv.subrange(0, jn as int) =~= jv);
        assert forall|m: int|
            0 <= m < r.jobs@.len() implies r.files@.contains(#[trigger] r.jobs@[m]) by {
            lemma_filter_subset(r.files@, needs, m);
        }
        assert forall|m: int|
            0 <= m < r.jobs@.len() implies (#[trigger] r.jobs@[m]).wf() && spec_ext_dot(
            r.jobs@[m].file_name@,
        ) is Some by {
            lemma_filter_subset(r.files@, needs, m);
            let x = choose|x: int| 0 <= x < r.files@.len() && r.files@[x] == r.jobs@[m];
        }
        assert(r.files@.map_values(|p: NameParts| p.path@) =~= spec_scan(entries@).map_values(
            |e: (String, bool)| e.0@,
        ));
    }
    r
}

/// Scan the image tree under `root`: return the grouped listing, the
/// files still needing a thumbnail (as jobs for background
/// generation), and a fresh, seeded progress tracker.  Fails exactly
/// when `root` is not a readable directory — the one caller-visible
/// failure of a scan.
pub fn get_image_list(root: &str) -> (r: Result<ImageScan, ThumbError>)
    ensures
        r matches Ok(scan) ==> scan.wf(),
        r matches Err(e) ==> e.kind == ThumbErrorKind::File,
{
    if !dir_exists(root) {
        return Err(ThumbError::file_error("image root is not a readable directory".to_owned()));
    }
    let entries: Vec<(String, bool)> = walk_tree(root);
    Ok(list_from_entries(&entries))
}

/// Each element a filter keeps comes from the underlying sequence.
pub proof fn lemma_filter_subset(s: Seq<NameParts>, pred: spec_fn(NameParts) -> bool, m: int)
    requires
        0 <= m < s.filter(pred).len(),
    ensures
        s.contains(s.filter(pred)[m]),
    decreases s.len(),
{
    reveal(Seq::filter);
    if s.len() > 0 {
        let d = s.drop_last().filter(pred);
        if m < d.len() {
            lemma_filter_subset(s.drop_last(), pred, m);
            let x = choose|x: int|
                0 <= x < s.drop_last().len() && s.drop_last()[x] == s.drop_last().filter(
                    pred,
                )[m];
            assert(s[x] == s.filter(pred)[m]);
        } else {
            assert(s.filter(pred)[m] == s.last());
        }
    }
}

} // verus!
