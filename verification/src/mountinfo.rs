//! Parsing of one mount-table line into a structured entry, and the
//! containment, lookup and overlap-resolution queries over parsed entries.
//!
//! Fields follow the kernel's `mountinfo` text format: each record reads
//! `id parent_id major:minor root mount_point options optional... - fstype
//! source super_options`, fields separated by runs of space or tab, with a
//! literal `-` token closing the variable-length optional-fields section.

use vstd::prelude::*;

use crate::error::{line_failure_desc, LineError, LineErrorView, ParseError};
use crate::strutil::{
    dec_val, is_path_prefix, parse_dec_bounded, path_starts_with, sep_tokens, split_first,
    split_first_spec, split_nonempty, split_terminator, str_eq_str, strs_view, term_split, trim,
    trim_spec, valid_dec_text,
};
use crate::{mnt_ops_of_token, MntOps, MntOpsView};

verus! {

/// One parsed mount-table row.
#[derive(Debug, Clone, PartialEq, Eq)]
pub struct MountInfoEntry {
    /// Unique identifier of the mount.
    pub id: i32,
    /// Identifier of the parent mount.
    pub parent_id: i32,
    /// Major device number of the filesystem's backing device.
    pub major: u32,
    /// Minor device number of the filesystem's backing device.
    pub minor: u32,
    /// Path inside the filesystem that forms the root of this mount.
    pub root: String,
    /// The mount point: where in the hierarchy the filesystem is attached.
    pub file: String,
    /// Per-mount options, in the order the kernel lists them.
    pub mntops: Vec<MntOps>,
    /// Optional-field tags with their values, one entry per distinct tag in
    /// first-occurrence order; a repeated tag keeps the last value.
    pub optionals: Vec<(String, Option<String>)>,
    /// Filesystem type.
    pub vfstype: String,
    /// Mount source, or `None` when the kernel reports the literal `none`.
    pub spec: Option<String>,
    /// Superblock options, duplicates collapsed, in first-occurrence order.
    pub super_options: Vec<String>,
}

/// Mathematical model of a `MountInfoEntry`.
pub struct MountInfoEntryView {
    pub id: int,
    pub parent_id: int,
    pub major: int,
    pub minor: int,
    pub root: Seq<char>,
    pub file: Seq<char>,
    pub mntops: Seq<MntOpsView>,
    pub optionals: Seq<(Seq<char>, Option<Seq<char>>)>,
    pub vfstype: Seq<char>,
    pub spec: Option<Seq<char>>,
    pub super_options: Seq<Seq<char>>,
}

pub open spec fn ops_view(v: Seq<MntOps>) -> Seq<MntOpsView> {
    v.map_values(|o: MntOps| o@)
}

pub open spec fn opt_str_view(v: Option<String>) -> Option<Seq<char>> {
    match v {
        Some(s) => Some(s@),
        None => None,
    }
}

pub open spec fn optionals_view(v: Seq<(String, Option<String>)>) -> Seq<
    (Seq<char>, Option<Seq<char>>),
> {
    v.map_values(|p: (String, Option<String>)| (p.0@, opt_str_view(p.1)))
}

impl View for MountInfoEntry {
    type V = MountInfoEntryView;

    open spec fn view(&self) -> MountInfoEntryView {
        MountInfoEntryView {
            id: self.id as int,
            parent_id: self.parent_id as int,
            major: self.major as int,
            minor: self.minor as int,
            root: self.root@,
            file: self.file@,
            mntops: ops_view(self.mntops@),
            optionals: optionals_view(self.optionals@),
            vfstype: self.vfstype@,
            spec: opt_str_view(self.spec),
            super_options: strs_view(self.super_options@),
        }
    }
}

/// A single-field query against one entry: which field to compare and the
/// value it must have.
#[derive(Clone, Debug)]
pub enum MountInfoParam<'a> {
    MountId(i32),
    ParentId(i32),
    Major(u32),
    Minor(u32),
    Root(&'a str),
    MountPoint(&'a str),
    MntOps(&'a MntOps),
    Optionals(&'a str),
    VfsType(&'a str),
    Spec(Option<&'a str>),
    SuperOptions(&'a str),
}

/// Mathematical model of a `MountInfoParam`.
pub enum MountInfoParamView {
    MountId(int),
    ParentId(int),
    Major(int),
    Minor(int),
    Root(Seq<char>),
    MountPoint(Seq<char>),
    MntOps(MntOpsView),
    Optionals(Seq<char>),
    VfsType(Seq<char>),
    Spec(Option<Seq<char>>),
    SuperOptions(Seq<char>),
}

impl<'a> View for MountInfoParam<'a> {
    type V = MountInfoParamView;

    open spec fn view(&self) -> MountInfoParamView {
        match self {
            MountInfoParam::MountId(id) => MountInfoParamView::MountId(*id as int),
            MountInfoParam::ParentId(id) => MountInfoParamView::ParentId(*id as int),
            MountInfoParam::Major(m) => MountInfoParamView::Major(*m as int),
            MountInfoParam::Minor(m) => MountInfoParamView::Minor(*m as int),
            MountInfoParam::Root(p) => MountInfoParamView::Root(p@),
            MountInfoParam::MountPoint(p) => MountInfoParamView::MountPoint(p@),
            MountInfoParam::MntOps(o) => MountInfoParamView::MntOps(o@),
            MountInfoParam::Optionals(t) => MountInfoParamView::Optionals(t@),
            MountInfoParam::VfsType(v) => MountInfoParamView::VfsType(v@),
            MountInfoParam::Spec(s) => MountInfoParamView::Spec(
                match s {
                    Some(x) => Some(x@),
                    None => None,
                },
            ),
            MountInfoParam::SuperOptions(s) => MountInfoParamView::SuperOptions(s@),
        }
    }
}

/// Whether an entry matches a single-field query: equality on the named
/// field, or membership for the option, optional-field and superblock
/// option queries.
pub open spec fn entry_contains(e: MountInfoEntryView, q: MountInfoParamView) -> bool {
    match q {
        MountInfoParamView::MountId(id) => id == e.id,
        MountInfoParamView::ParentId(id) => id == e.parent_id,
        MountInfoParamView::Major(m) => m == e.major,
        MountInfoParamView::Minor(m) => m == e.minor,
        MountInfoParamView::Root(p) => p == e.root,
        MountInfoParamView::MountPoint(p) => p == e.file,
        MountInfoParamView::MntOps(o) => e.mntops.contains(o),
        MountInfoParamView::Optionals(t) => exists|j: int|
            0 <= j < e.optionals.len() && (#[trigger] e.optionals[j]).0 == t,
        MountInfoParamView::VfsType(v) => v == e.vfstype,
        MountInfoParamView::Spec(s) => s == e.spec,
        MountInfoParamView::SuperOptions(s) => e.super_options.contains(s),
    }
}

/// Compare two option values.
pub fn mnt_ops_eq(a: &MntOps, b: &MntOps) -> (r: bool)
    ensures
        r == (a@ == b@),
{
    match (a, b) {
        (MntOps::Atime(x), MntOps::Atime(y)) => x == y,
        (MntOps::DirAtime(x), MntOps::DirAtime(y)) => x == y,
        (MntOps::RelAtime(x), MntOps::RelAtime(y)) => x == y,
        (MntOps::Dev(x), MntOps::Dev(y)) => x == y,
        (MntOps::Exec(x), MntOps::Exec(y)) => x == y,
        (MntOps::Suid(x), MntOps::Suid(y)) => x == y,
        (MntOps::Write(x), MntOps::Write(y)) => x == y,
        (MntOps::Extra(s1), MntOps::Extra(s2)) => str_eq_str(s1.as_str(), s2.as_str()),
        _ => false,
    }
}

/// Linear search for an option among a parsed entry's options.
fn ops_contain(v: &Vec<MntOps>, o: &MntOps) -> (r: bool)
    ensures
        r == ops_view(v@).contains(o@),
{
    let mut j: usize = 0;
    while j < v.len()
        invariant
            0 <= j <= v@.len(),
            forall|j2: int| 0 <= j2 < j ==> ops_view(v@)[j2] != o@,
        decreases v@.len() - j,
    {
        if mnt_ops_eq(&v[j], o) {
            proof {
                assert(ops_view(v@)[j as int] == o@);
            }
            return true;
        }
        j += 1;
    }
    false
}

impl MountInfoEntry {
    /// Whether this entry matches the given single-field query. Never
    /// fails: every query yields a plain answer.
    pub fn contains(&self, search: &MountInfoParam) -> (r: bool)
        ensures
            r == entry_contains(self@, search@),
    {
        match *search {
            MountInfoParam::MountId(id) => id == self.id,
            MountInfoParam::ParentId(id) => id == self.parent_id,
            MountInfoParam::Major(maj) => maj == self.major,
            MountInfoParam::Minor(min) => min == self.minor,
            MountInfoParam::Root(p) => str_eq_str(p, self.root.as_str()),
            MountInfoParam::MountPoint(p) => str_eq_str(p, self.file.as_str()),
            MountInfoParam::MntOps(o) => ops_contain(&self.mntops, o),
            MountInfoParam::Optionals(t) => {
                let mut j: usize = 0;
                let mut r = false;
                while j < self.optionals.len()
                    invariant
                        0 <= j <= self.optionals@.len(),
                        r == exists|j2: int|
                            0 <= j2 < j && (#[trigger] optionals_view(self.optionals@)[j2]).0
                                == t@,
                    decreases self.optionals@.len() - j,
                {
                    if str_eq_str(self.optionals[j].0.as_str(), t) {
                        proof {
                            assert(optionals_view(self.optionals@)[j as int].0 == t@);
                        }
                        r = true;
                    }
                    j += 1;
                }
                proof {
                    let ghost ov = optionals_view(self.optionals@);
                    if r {
                        let j0 = choose|j2: int|
                            0 <= j2 < j && (#[trigger] optionals_view(self.optionals@)[j2]).0
                                == t@;
                        assert(0 <= j0 < self@.optionals.len() && (#[trigger] self@.optionals[j0]).0
                            == t@);
                    }
                    if entry_contains(self@, search@) {
                        let j1 = choose|j2: int|
                            0 <= j2 < self@.optionals.len() && (#[trigger] self@.optionals[j2]).0
                                == t@;
                        assert(optionals_view(self.optionals@)[j1].0 == t@);
                        assert(r);
                    }
                }
                r
            },
            MountInfoParam::VfsType(v) => str_eq_str(v, self.vfstype.as_str()),
            MountInfoParam::Spec(s) => {
                match (s, &self.spec) {
                    (None, None) => true,
                    (Some(a), Some(b)) => str_eq_str(a, b.as_str()),
                    (None, Some(_)) => false,
                    (Some(_), None) => false,
                }
            },
            MountInfoParam::SuperOptions(s) => vec_contains_str(&self.super_options, s),
        }
    }
}

/// Index of the first `-` separator token at or after position `i`.
pub open spec fn dash_index_from(toks: Seq<Seq<char>>, i: int) -> Option<int>
    decreases toks.len() - i,
{
    if i < 0 || i >= toks.len() {
        None
    } else if toks[i] == "-"@ {
        Some(i)
    } else {
        dash_index_from(toks, i + 1)
    }
}

/// An optional-fields token split at its first `:`: a bare tag has no
/// value, `tag:value` keeps the value.
pub open spec fn opt_pair_of(tok: Seq<char>) -> (Seq<char>, Option<Seq<char>>) {
    match split_first_spec(tok, ':') {
        None => (tok, None),
        Some(p) => (p.0, Some(p.1)),
    }
}

/// Record `(k, v)` in an association list: overwrite the value of an
/// existing key in place, otherwise append at the end.
pub open spec fn upsert(
    m: Seq<(Seq<char>, Option<Seq<char>>)>,
    k: Seq<char>,
    v: Option<Seq<char>>,
) -> Seq<(Seq<char>, Option<Seq<char>>)>
    decreases m.len(),
{
    if m.len() == 0 {
        seq![(k, v)]
    } else if m[0].0 == k {
        seq![(k, v)] + m.drop_first()
    } else {
        seq![m[0]] + upsert(m.drop_first(), k, v)
    }
}

/// The optional-fields mapping accumulated from tokens `i` (inclusive) to
/// `sep` (exclusive): later occurrences of a tag overwrite earlier ones.
pub open spec fn optionals_fold(
    toks: Seq<Seq<char>>,
    i: int,
    sep: int,
    acc: Seq<(Seq<char>, Option<Seq<char>>)>,
) -> Seq<(Seq<char>, Option<Seq<char>>)>
    decreases sep - i,
{
    if i >= sep {
        acc
    } else {
        let p = opt_pair_of(toks[i]);
        optionals_fold(toks, i + 1, sep, upsert(acc, p.0, p.1))
    }
}

/// Duplicates collapsed, first occurrence kept, from position `i` on.
pub open spec fn dedup_fold(items: Seq<Seq<char>>, i: int, acc: Seq<Seq<char>>) -> Seq<Seq<char>>
    decreases items.len() - i,
{
    if i < 0 || i >= items.len() {
        acc
    } else if acc.contains(items[i]) {
        dedup_fold(items, i + 1, acc)
    } else {
        dedup_fold(items, i + 1, acc.push(items[i]))
    }
}

pub open spec fn dedup_spec(items: Seq<Seq<char>>) -> Seq<Seq<char>> {
    dedup_fold(items, 0, Seq::empty())
}

/// Each comma-separated option token classified by the vocabulary.
pub open spec fn ops_of_tokens(toks: Seq<Seq<char>>) -> Seq<MntOpsView> {
    toks.map_values(|t: Seq<char>| mnt_ops_of_token(t))
}

/// A well-formed `major:minor` token: a `:` is present and both sides are
/// decimal numbers in range.
pub open spec fn majmin_valid(tok: Seq<char>) -> bool {
    match split_first_spec(tok, ':') {
        None => false,
        Some(p) => valid_dec_text(p.0, u32::MAX as int) && valid_dec_text(p.1, u32::MAX as int),
    }
}

/// What parsing a whitespace-tokenized mount-table record yields: the entry
/// built from the fixed field order, or the error for the first missing or
/// malformed field. Tokens after the superblock options are ignored.
pub open spec fn parse_tokens(toks: Seq<Seq<char>>) -> Result<MountInfoEntryView, LineErrorView> {
    if toks.len() < 1 {
        Err(LineErrorView::MissingId)
    } else if !valid_dec_text(toks[0], i32::MAX as int) {
        Err(LineErrorView::InvalidId(toks[0]))
    } else if toks.len() < 2 {
        Err(LineErrorView::MissingParentId)
    } else if !valid_dec_text(toks[1], i32::MAX as int) {
        Err(LineErrorView::InvalidParentId(toks[1]))
    } else if toks.len() < 3 {
        Err(LineErrorView::MissingMajMin)
    } else if !majmin_valid(toks[2]) {
        Err(LineErrorView::InvalidMajMin(toks[2]))
    } else if toks.len() < 4 {
        Err(LineErrorView::MissingRoot)
    } else if toks.len() < 5 {
        Err(LineErrorView::MissingFile)
    } else if toks.len() < 6 {
        Err(LineErrorView::MissingMntops)
    } else {
        match dash_index_from(toks, 6) {
            None => Err(LineErrorView::MissingOptional),
            Some(sep) => {
                if toks.len() < sep + 2 {
                    Err(LineErrorView::MissingVfstype)
                } else if toks.len() < sep + 3 {
                    Err(LineErrorView::MissingSpec)
                } else if toks.len() < sep + 4 {
                    Err(LineErrorView::MissingSuperOptions)
                } else {
                    let mm = split_first_spec(toks[2], ':')->Some_0;
                    Ok(
                        MountInfoEntryView {
                            id: dec_val(toks[0]),
                            parent_id: dec_val(toks[1]),
                            major: dec_val(mm.0),
                            minor: dec_val(mm.1),
                            root: toks[3],
                            file: toks[4],
                            mntops: ops_of_tokens(term_split(toks[5], ',')),
                            optionals: optionals_fold(toks, 6, sep, Seq::empty()),
                            vfstype: toks[sep + 1],
                            spec: if toks[sep + 2] == "none"@ {
                                None
                            } else {
                                Some(toks[sep + 2])
                            },
                            super_options: dedup_spec(term_split(toks[sep + 3], ',')),
                        },
                    )
                }
            },
        }
    }
}

/// The tokens of one mount-table line: trimmed, then split on runs of
/// space and tab.
pub open spec fn line_tokens(line: Seq<char>) -> Seq<Seq<char>> {
    sep_tokens(trim_spec(line), ' ', '\t')
}

/// What parsing one mount-table line yields.
pub open spec fn parse_line_spec(line: Seq<char>) -> Result<MountInfoEntryView, LineErrorView> {
    parse_tokens(line_tokens(line))
}

/// `dash_index_from` is unchanged by skipping over non-`-` tokens.
proof fn lemma_dash_index_skip(toks: Seq<Seq<char>>, i: int, k: int)
    requires
        0 <= i <= k,
        forall|j: int| i <= j < k ==> toks[j] != "-"@,
    ensures
        dash_index_from(toks, i) == dash_index_from(toks, k),
    decreases k - i,
{
    if i < k {
        if i < toks.len() {
            assert(toks[i] != "-"@);
        }
        lemma_dash_index_skip(toks, i + 1, k);
    }
}

/// `upsert` of an absent key appends the pair.
proof fn lemma_upsert_absent(
    m: Seq<(Seq<char>, Option<Seq<char>>)>,
    k: Seq<char>,
    v: Option<Seq<char>>,
)
    requires
        forall|j: int| 0 <= j < m.len() ==> (#[trigger] m[j]).0 != k,
    ensures
        upsert(m, k, v) =~= m.push((k, v)),
    decreases m.len(),
{
    if m.len() > 0 {
        assert(m[0].0 != k);
        assert forall|j: int| 0 <= j < m.drop_first().len() implies (#[trigger] m.drop_first()[j]).0
            != k by {
            assert(m.drop_first()[j] == m[j + 1]);
        }
        lemma_upsert_absent(m.drop_first(), k, v);
    }
}

/// `upsert` of a key first present at `j` updates that pair in place.
proof fn lemma_upsert_present(
    m: Seq<(Seq<char>, Option<Seq<char>>)>,
    k: Seq<char>,
    v: Option<Seq<char>>,
    j: int,
)
    requires
        0 <= j < m.len(),
        m[j].0 == k,
        forall|j2: int| 0 <= j2 < j ==> (#[trigger] m[j2]).0 != k,
    ensures
        upsert(m, k, v) =~= m.update(j, (k, v)),
    decreases m.len(),
{
    if j == 0 {
    } else {
        assert(m[0].0 != k);
        assert(m.drop_first()[j - 1].0 == k);
        assert forall|j2: int| 0 <= j2 < j - 1 implies (#[trigger] m.drop_first()[j2]).0 != k by {
            assert(m.drop_first()[j2] == m[j2 + 1]);
        }
        lemma_upsert_present(m.drop_first(), k, v, j - 1);
    }
}

/// Linear search for a string among those collected so far.
fn vec_contains_str(v: &Vec<String>, s: &str) -> (r: bool)
    ensures
        r == strs_view(v@).contains(s@),
{
    let mut j: usize = 0;
    while j < v.len()
        invariant
            0 <= j <= v@.len(),
            forall|j2: int| 0 <= j2 < j ==> strs_view(v@)[j2] != s@,
        decreases v@.len() - j,
    {
        if str_eq_str(v[j].as_str(), s) {
            proof {
                assert(strs_view(v@)[j as int] == s@);
            }
            return true;
        }
        j += 1;
    }
    proof {
        assert forall|j2: int| 0 <= j2 < strs_view(v@).len() implies strs_view(v@)[j2] != s@ by {}
    }
    false
}

/// Record one optional-field pair in the mapping under construction.
fn upsert_exec(m: &mut Vec<(String, Option<String>)>, k: String, v: Option<String>)
    ensures
        optionals_view(final(m)@) == upsert(optionals_view(old(m)@), k@, opt_str_view(v)),
{
    let ghost mv = optionals_view(m@);
    let mut i: usize = 0;
    while i < m.len()
        invariant
            mv == optionals_view(old(m)@),
            mv == optionals_view(m@),
            0 <= i <= m@.len(),
            forall|j: int| 0 <= j < i ==> (#[trigger] mv[j]).0 != k@,
        decreases m@.len() - i,
    {
        if str_eq_str(m[i].0.as_str(), k.as_str()) {
            proof {
                assert(mv[i as int].0 == k@);
                lemma_upsert_present(mv, k@, opt_str_view(v), i as int);
            }
            m[i] = (k, v);
            proof {
                assert(optionals_view(m@) =~= mv.update(i as int, (k@, opt_str_view(v))));
            }
            return ;
        }
        i += 1;
    }
    proof {
        lemma_upsert_absent(mv, k@, opt_str_view(v));
    }
    m.push((k, v));
    proof {
        assert(optionals_view(m@) =~= mv.push((k@, opt_str_view(v))));
    }
}

impl MountInfoEntry {
    /// Parse one mount-table line. Returns the entry, or the error for the
    /// first missing or malformed field; no partial entry is ever built.
    pub fn from_str(line: &str) -> (r: Result<MountInfoEntry, LineError>)
        ensures
            match r {
                Ok(e) => parse_line_spec(line@) == Ok::<MountInfoEntryView, LineErrorView>(e@),
                Err(err) => parse_line_spec(line@) == Err::<MountInfoEntryView, LineErrorView>(
                    err@,
                ),
            },
    {
        let toks = split_nonempty(trim(line), ' ', '\t');
        let ghost tv = strs_view(toks@);
        if toks.len() < 1 {
            return Err(LineError::MissingId);
        }
        let id: i32 = match parse_dec_bounded(toks[0].as_str(), 2147483647u32) {
            Some(n) => n as i32,
            None => {
                return Err(LineError::InvalidId(toks[0].clone()));
            },
        };
        if toks.len() < 2 {
            return Err(LineError::MissingParentId);
        }
        let parent_id: i32 = match parse_dec_bounded(toks[1].as_str(), 2147483647u32) {
            Some(n) => n as i32,
            None => {
                return Err(LineError::InvalidParentId(toks[1].clone()));
            },
        };
        if toks.len() < 3 {
            return Err(LineError::MissingMajMin);
        }
        let (major, minor): (u32, u32) = match split_first(toks[2].as_str(), ':') {
            Some((maj_text, min_text)) => {
                let maj = parse_dec_bounded(maj_text.as_str(), u32::MAX);
                let min = parse_dec_bounded(min_text.as_str(), u32::MAX);
                match (maj, min) {
                    (Some(a), Some(b)) => (a, b),
                    _ => {
                        return Err(LineError::InvalidMajMin(toks[2].clone()));
                    },
                }
            },
            None => {
                return Err(LineError::InvalidMajMin(toks[2].clone()));
            },
        };
        if toks.len() < 4 {
            return Err(LineError::MissingRoot);
        }
        let root = toks[3].clone();
        if toks.len() < 5 {
            return Err(LineError::MissingFile);
        }
        let file = toks[4].clone();
        if toks.len() < 6 {
            return Err(LineError::MissingMntops);
        }
        let op_toks = split_terminator(toks[5].as_str(), ',');
        let mut mntops: Vec<MntOps> = Vec::new();
        let mut oi: usize = 0;
        proof {
            assert(ops_view(mntops@) =~= ops_of_tokens(strs_view(op_toks@).take(0)));
        }
        while oi < op_toks.len()
            invariant
                0 <= oi <= op_toks@.len(),
                ops_view(mntops@) == ops_of_tokens(strs_view(op_toks@).take(oi as int)),
            decreases op_toks@.len() - oi,
        {
            let op = MntOps::from_str(op_toks[oi].as_str());
            let ghost prev = ops_view(mntops@);
            mntops.push(op);
            proof {
                assert(ops_view(mntops@) =~= prev.push(op@));
                assert(ops_of_tokens(strs_view(op_toks@).take(oi as int + 1)) =~= ops_of_tokens(
                    strs_view(op_toks@).take(oi as int),
                ).push(mnt_ops_of_token(strs_view(op_toks@)[oi as int])));
            }
            oi += 1;
        }
        proof {
            assert(strs_view(op_toks@).take(op_toks@.len() as int) =~= strs_view(op_toks@));
        }
        // Find the `-` separator that closes the optional-fields section.
        let mut sep: usize = 6;
        while sep < toks.len() && !str_eq_str(toks[sep].as_str(), "-")
            invariant
                6 <= sep <= toks@.len(),
                tv == strs_view(toks@),
                forall|j: int| 6 <= j < sep ==> tv[j] != "-"@,
            decreases toks@.len() - sep,
        {
            sep += 1;
        }
        proof {
            lemma_dash_index_skip(tv, 6, sep as int);
        }
        if sep >= toks.len() {
            proof {
                assert(dash_index_from(tv, sep as int) is None);
            }
            return Err(LineError::MissingOptional);
        }
        proof {
            assert(tv[sep as int] == "-"@);
            assert(dash_index_from(tv, sep as int) == Some(sep as int));
        }
        let mut optionals: Vec<(String, Option<String>)> = Vec::new();
        let mut i: usize = 6;
        proof {
            assert(optionals_view(optionals@) =~= Seq::<(Seq<char>, Option<Seq<char>>)>::empty());
        }
        while i < sep
            invariant
                6 <= i <= sep < toks@.len(),
                tv == strs_view(toks@),
                optionals_fold(tv, i as int, sep as int, optionals_view(optionals@))
                    == optionals_fold(tv, 6, sep as int, Seq::empty()),
            decreases sep - i,
        {
            let (tag, value): (String, Option<String>) = match split_first(toks[i].as_str(), ':') {
                Some((t, w)) => (t, Some(w)),
                None => (toks[i].clone(), None),
            };
            proof {
                assert((tag@, opt_str_view(value)) == opt_pair_of(tv[i as int]));
            }
            upsert_exec(&mut optionals, tag, value);
            i += 1;
        }
        if toks.len() - sep < 2 {
            return Err(LineError::MissingVfstype);
        }
        let vfstype = toks[sep + 1].clone();
        if toks.len() - sep < 3 {
            return Err(LineError::MissingSpec);
        }
        let source: Option<String> = if str_eq_str(toks[sep + 2].as_str(), "none") {
            None
        } else {
            Some(toks[sep + 2].clone())
        };
        if toks.len() - sep < 4 {
            return Err(LineError::MissingSuperOptions);
        }
        let so_toks = split_terminator(toks[sep + 3].as_str(), ',');
        let mut super_options: Vec<String> = Vec::new();
        let mut si: usize = 0;
        proof {
            assert(strs_view(super_options@) =~= Seq::<Seq<char>>::empty());
        }
        while si < so_toks.len()
            invariant
                0 <= si <= so_toks@.len(),
                dedup_fold(strs_view(so_toks@), si as int, strs_view(super_options@))
                    == dedup_spec(strs_view(so_toks@)),
            decreases so_toks@.len() - si,
        {
            let ghost sv = strs_view(super_options@);
            let found = vec_contains_str(&super_options, so_toks[si].as_str());
            if !found {
                let item = so_toks[si].clone();
                super_options.push(item);
                proof {
                    assert(strs_view(super_options@) =~= sv.push(strs_view(so_toks@)[si as int]));
                }
            }
            si += 1;
        }
        let entry = MountInfoEntry {
            id,
            parent_id,
            major,
            minor,
            root,
            file,
            mntops,
            optionals,
            vfstype,
            spec: source,
            super_options,
        };
        proof {
            assert(strs_view(so_toks@) == term_split(tv[sep as int + 3], ','));
            assert(dedup_fold(
                strs_view(so_toks@),
                so_toks@.len() as int,
                strs_view(entry.super_options@),
            ) == strs_view(entry.super_options@));
            assert(parse_tokens(tv) == Ok::<MountInfoEntryView, LineErrorView>(entry@));
        }
        Ok(entry)
    }
}

/// A pull-based pass over the lines of one mount table snapshot, parsing
/// one entry per call and numbering lines from 0 for diagnostics. The pass
/// is forward-only: a fresh iterator is needed to read the table again.
pub struct MountInfoIter {
    lines: Vec<String>,
    cursor: usize,
}

impl MountInfoIter {
    /// The lines this pass reads, one record each.
    pub closed spec fn lines_view(&self) -> Seq<Seq<char>> {
        strs_view(self.lines@)
    }

    /// Index of the next line to parse.
    pub closed spec fn pos(&self) -> int {
        self.cursor as int
    }

    #[verifier::type_invariant]
    spec fn wf(&self) -> bool {
        self.cursor as int <= self.lines@.len()
    }

    /// Start a pass over the given lines.
    pub fn new(lines: Vec<String>) -> (r: MountInfoIter)
        ensures
            r.lines_view() == strs_view(lines@),
            r.pos() == 0,
    {
        MountInfoIter { lines, cursor: 0 }
    }

    /// Parse the next line, if one is left: the entry it holds, or a parse
    /// error naming the 0-based line it came from.
    pub fn next(&mut self) -> (r: Option<Result<MountInfoEntry, ParseError>>)
        ensures
            final(self).lines_view() == old(self).lines_view(),
            match r {
                None => old(self).pos() >= old(self).lines_view().len() && final(self).pos()
                    == old(self).pos(),
                Some(item) => {
                    &&& old(self).pos() < old(self).lines_view().len()
                    &&& final(self).pos() == old(self).pos() + 1
                    &&& (match item {
                        Ok(e) => parse_line_spec(old(self).lines_view()[old(self).pos()]) == Ok::<
                            MountInfoEntryView,
                            LineErrorView,
                        >(e@),
                        Err(pe) => {
                            &&& parse_line_spec(old(self).lines_view()[old(self).pos()]) is Err
                            &&& pe@ == line_failure_desc(
                                old(self).pos(),
                                parse_line_spec(old(self).lines_view()[old(self).pos()])->Err_0,
                            )
                        },
                    })
                },
            },
    {
        if self.cursor >= self.lines.len() {
            return None;
        }
        let nb = self.cursor;
        let item = match MountInfoEntry::from_str(self.lines[nb].as_str()) {
            Ok(e) => Ok(e),
            Err(le) => Err(ParseError::at_line(nb, &le)),
        };
        self.cursor = nb + 1;
        Some(item)
    }
}

/// View of a vector of entries as a sequence of entry models.
pub open spec fn entries_view(v: Seq<MountInfoEntry>) -> Seq<MountInfoEntryView> {
    v.map_values(|e: MountInfoEntry| e@)
}

/// What collecting the submounts of `root` from the given lines yields,
/// lines numbered from `nb`: the entries mounted at or below `root` in
/// input order, or the description of the first line's failure.
pub open spec fn submounts_spec(lines: Seq<Seq<char>>, nb: int, root: Seq<char>) -> Result<
    Seq<MountInfoEntryView>,
    Seq<char>,
>
    decreases lines.len(),
{
    if lines.len() == 0 {
        Ok(Seq::empty())
    } else {
        match parse_line_spec(lines[0]) {
            Err(e) => Err(line_failure_desc(nb, e)),
            Ok(m) => match submounts_spec(lines.drop_first(), nb + 1, root) {
                Err(d) => Err(d),
                Ok(rest) => Ok(
                    if is_path_prefix(root, m.file) {
                        seq![m] + rest
                    } else {
                        rest
                    },
                ),
            },
        }
    }
}

/// Collect every entry whose mount point equals `root` or lies beneath it,
/// in the order the table lists them. The first malformed line aborts the
/// whole query with its error.
#[verifier::loop_isolation(false)]
pub fn get_submounts_from(root: &str, iter: MountInfoIter) -> (r: Result<
    Vec<MountInfoEntry>,
    ParseError,
>)
    ensures
        match r {
            Ok(v) => submounts_spec(
                iter.lines_view().skip(iter.pos()),
                iter.pos(),
                root@,
            ) == Ok::<Seq<MountInfoEntryView>, Seq<char>>(entries_view(v@)),
            Err(pe) => submounts_spec(
                iter.lines_view().skip(iter.pos()),
                iter.pos(),
                root@,
            ) == Err::<Seq<MountInfoEntryView>, Seq<char>>(pe@),
        },
{
    let ghost all = iter.lines_view();
    let ghost c0 = iter.pos();
    let mut it = iter;
    proof {
        use_type_invariant(&it);
    }
    let mut ret: Vec<MountInfoEntry> = Vec::new();
    proof {
        if submounts_spec(all.skip(c0), c0, root@) is Ok {
            let s0 = submounts_spec(all.skip(c0), c0, root@)->Ok_0;
            assert(entries_view(ret@) + s0 =~= s0);
        }
    }
    loop
        invariant
            c0 <= it.pos() <= all.len(),
            all == it.lines_view(),
            match submounts_spec(all.skip(it.pos()), it.pos(), root@) {
                Ok(s) => submounts_spec(all.skip(c0), c0, root@) == Ok::<
                    Seq<MountInfoEntryView>,
                    Seq<char>,
                >(entries_view(ret@) + s),
                Err(d) => submounts_spec(all.skip(c0), c0, root@) == Err::<
                    Seq<MountInfoEntryView>,
                    Seq<char>,
                >(d),
            },
        decreases all.len() - it.pos(),
    {
        let ghost c = it.pos();
        let step = it.next();
        match step {
            None => {
                proof {
                    assert(all.skip(c) =~= Seq::<Seq<char>>::empty());
                    assert(entries_view(ret@) + Seq::<MountInfoEntryView>::empty() =~= entries_view(
                        ret@,
                    ));
                }
                return Ok(ret);
            },
            Some(Err(pe)) => {
                proof {
                    assert(all.skip(c)[0] == all[c]);
                }
                return Err(pe);
            },
            Some(Ok(m)) => {
                proof {
                    assert(all.skip(c)[0] == all[c]);
                    assert(all.skip(c).drop_first() =~= all.skip(c + 1));
                }
                let keep = path_starts_with(m.file.as_str(), root);
                let ghost prev = entries_view(ret@);
                let ghost mv = m@;
                if keep {
                    ret.push(m);
                }
                proof {
                    if keep {
                        assert(entries_view(ret@) =~= prev.push(mv));
                    }
                    if submounts_spec(all.skip(c + 1), c + 1, root@) is Ok {
                        let rest = submounts_spec(all.skip(c + 1), c + 1, root@)->Ok_0;
                        if keep {
                            assert(prev.push(mv) + rest =~= prev + (seq![mv] + rest));
                        }
                    }
                }
            },
        }
    }
}

/// What looking up the mount point enclosing `target` in the given lines
/// yields, with `cur` the best answer so far: the last entry whose mount
/// point contains `target`, or the description of the first line's failure.
pub open spec fn mount_lookup_spec(
    lines: Seq<Seq<char>>,
    nb: int,
    target: Seq<char>,
    cur: Option<MountInfoEntryView>,
) -> Result<Option<MountInfoEntryView>, Seq<char>>
    decreases lines.len(),
{
    if lines.len() == 0 {
        Ok(cur)
    } else {
        match parse_line_spec(lines[0]) {
            Err(e) => Err(line_failure_desc(nb, e)),
            Ok(m) => mount_lookup_spec(
                lines.drop_first(),
                nb + 1,
                target,
                if is_path_prefix(m.file, target) {
                    Some(m)
                } else {
                    cur
                },
            ),
        }
    }
}

pub open spec fn opt_entry_view(v: Option<MountInfoEntry>) -> Option<MountInfoEntryView> {
    match v {
        Some(e) => Some(e@),
        None => None,
    }
}

/// Find the most specific mount containing `target`: the last listed entry
/// whose mount point is an ancestor of `target` or `target` itself, since a
/// later mount at the same or a nested path supersedes earlier ones. The
/// first malformed line aborts the whole query with its error.
#[verifier::loop_isolation(false)]
pub fn get_mount_from(target: &str, iter: MountInfoIter) -> (r: Result<
    Option<MountInfoEntry>,
    ParseError,
>)
    ensures
        match r {
            Ok(v) => mount_lookup_spec(
                iter.lines_view().skip(iter.pos()),
                iter.pos(),
                target@,
                None,
            ) == Ok::<Option<MountInfoEntryView>, Seq<char>>(opt_entry_view(v)),
            Err(pe) => mount_lookup_spec(
                iter.lines_view().skip(iter.pos()),
                iter.pos(),
                target@,
                None,
            ) == Err::<Option<MountInfoEntryView>, Seq<char>>(pe@),
        },
{
    let ghost all = iter.lines_view();
    let ghost c0 = iter.pos();
    let mut it = iter;
    proof {
        use_type_invariant(&it);
    }
    let mut ret: Option<MountInfoEntry> = None;
    loop
        invariant
            c0 <= it.pos() <= all.len(),
            all == it.lines_view(),
            mount_lookup_spec(all.skip(it.pos()), it.pos(), target@, opt_entry_view(ret))
                == mount_lookup_spec(all.skip(c0), c0, target@, None),
        decreases all.len() - it.pos(),
    {
        let ghost c = it.cursor as int;
        let step = it.next();
        match step {
            None => {
                proof {
                    assert(all.skip(c) =~= Seq::<Seq<char>>::empty());
                }
                return Ok(ret);
            },
            Some(Err(pe)) => {
                proof {
                    assert(all.skip(c)[0] == all[c]);
                }
                return Err(pe);
            },
            Some(Ok(m)) => {
                proof {
                    assert(all.skip(c)[0] == all[c]);
                    assert(all.skip(c).drop_first() =~= all.skip(c + 1));
                }
                if path_starts_with(target, m.file.as_str()) {
                    ret = Some(m);
                }
            },
        }
    }
}

/// Find the mount providing access to `target`, and when `writable` is
/// asked, keep it only if its options carry the read-write flag. Any
/// failure of the lookup collapses to `None`.
pub fn get_mount_writable_from(target: &str, iter: MountInfoIter, writable: bool) -> (r: Option<
    MountInfoEntry,
>)
    ensures
        match mount_lookup_spec(
            iter.lines_view().skip(iter.pos()),
            iter.pos(),
            target@,
            None,
        ) {
            Ok(found) => match found {
                Some(m) => {
                    if !writable || m.mntops.contains(MntOpsView::Write(true)) {
                        opt_entry_view(r) == Some(m)
                    } else {
                        r is None
                    }
                },
                None => r is None,
            },
            Err(_) => r is None,
        },
{
    match get_mount_from(target, iter) {
        Ok(Some(m)) => {
            if !writable || ops_contain(&m.mntops, &MntOps::Write(true)) {
                Some(m)
            } else {
                None
            }
        },
        Ok(None) => None,
        Err(_) => None,
    }
}

/// The subset of `mounts` that stays visible after overlap resolution, in
/// the original (chronological) order. An entry is dropped when its mount
/// point is the filesystem root `/` (a synthetic root left by bind-mount
/// bookkeeping), or when a later visible entry whose mount point is not in
/// `excl` sits at the same path or an ancestor of it. Entries in `excl`
/// are not obstructions, but are not themselves forced to stay.
pub open spec fn visible_spec(mounts: Seq<MountInfoEntryView>, excl: Seq<Seq<char>>) -> Seq<
    MountInfoEntryView,
>
    decreases mounts.len(),
{
    if mounts.len() == 0 {
        Seq::empty()
    } else {
        let rest = visible_spec(mounts.drop_first(), excl);
        if mounts[0].file == "/"@ {
            rest
        } else if exists|j: int|
            0 <= j < rest.len() && !excl.contains((#[trigger] rest[j]).file) && is_path_prefix(
                rest[j].file,
                mounts[0].file,
            ) {
            rest
        } else {
            seq![mounts[0]] + rest
        }
    }
}

/// Whether a later-kept entry obstructs the candidate `m`: some entry of
/// `kept` whose mount point is not excluded sits at `m`'s mount point or
/// an ancestor of it.
fn is_shadowed(m: &MountInfoEntry, kept: &Vec<MountInfoEntry>, excl: &Vec<String>) -> (r: bool)
    ensures
        r == exists|j: int|
            0 <= j < entries_view(kept@).len() && !strs_view(excl@).contains(
                (#[trigger] entries_view(kept@)[j]).file,
            ) && is_path_prefix(entries_view(kept@)[j].file, m@.file),
{
    let mut j: usize = 0;
    while j < kept.len()
        invariant
            0 <= j <= kept@.len(),
            forall|j2: int|
                0 <= j2 < j ==> !(!strs_view(excl@).contains(
                    (#[trigger] entries_view(kept@)[j2]).file,
                ) && is_path_prefix(entries_view(kept@)[j2].file, m@.file)),
        decreases kept@.len() - j,
    {
        if !vec_contains_str(excl, kept[j].file.as_str()) && path_starts_with(
            m.file.as_str(),
            kept[j].file.as_str(),
        ) {
            proof {
                assert(entries_view(kept@)[j as int].file == kept@[j as int].file@);
            }
            return true;
        }
        j += 1;
    }
    false
}

/// An obstruction exists among `v` exactly when one exists among
/// `v.reverse()`.
proof fn lemma_obstruction_reverse(v: Seq<MountInfoEntryView>, excl: Seq<Seq<char>>, f: Seq<char>)
    ensures
        (exists|j: int|
            0 <= j < v.len() && !excl.contains((#[trigger] v[j]).file) && is_path_prefix(
                v[j].file,
                f,
            )) == (exists|j: int|
            0 <= j < v.reverse().len() && !excl.contains((#[trigger] v.reverse()[j]).file)
                && is_path_prefix(v.reverse()[j].file, f)),
{
    if exists|j: int|
        0 <= j < v.len() && !excl.contains((#[trigger] v[j]).file) && is_path_prefix(v[j].file, f) {
        let j = choose|j: int|
            0 <= j < v.len() && !excl.contains((#[trigger] v[j]).file) && is_path_prefix(
                v[j].file,
                f,
            );
        assert(v.reverse()[v.len() - 1 - j] == v[j]);
    }
    if exists|j: int|
        0 <= j < v.reverse().len() && !excl.contains((#[trigger] v.reverse()[j]).file)
            && is_path_prefix(v.reverse()[j].file, f) {
        let j = choose|j: int|
            0 <= j < v.reverse().len() && !excl.contains((#[trigger] v.reverse()[j]).file)
                && is_path_prefix(v.reverse()[j].file, f);
        assert(v[v.len() - 1 - j] == v.reverse()[j]);
    }
}

/// Overlap resolution over an ordered mount list.
pub trait VecMountEntry: Sized {
    /// The entries the collection holds, in order.
    spec fn entry_views(&self) -> Seq<MountInfoEntryView>;

    /// Resolve mount shadowing: keep, in chronological order, exactly the
    /// entries still visible, treating the mount points named in
    /// `exclude_files` as if they could not obstruct other mounts. A mount
    /// that was moved after being recorded keeps its original position in
    /// the table, so it is resolved at its recorded place: an accepted
    /// approximation, kept as the callers expect it.
    fn remove_overlaps(self, exclude_files: &Vec<String>) -> (r: Self)
        ensures
            r.entry_views() == visible_spec(self.entry_views(), strs_view(exclude_files@)),
    ;
}

impl VecMountEntry for Vec<MountInfoEntry> {
    open spec fn entry_views(&self) -> Seq<MountInfoEntryView> {
        entries_view(self@)
    }

    #[verifier::loop_isolation(false)]
    fn remove_overlaps(self, exclude_files: &Vec<String>) -> (r: Vec<MountInfoEntry>) {
        let ghost excl = strs_view(exclude_files@);
        let mut rest = self;
        let ghost orig = rest@;
        let mut kept_rev: Vec<MountInfoEntry> = Vec::new();
        proof {
            assert(rest@ =~= orig.take(rest@.len() as int));
            assert(entries_view(orig).skip(orig.len() as int) =~= Seq::<
                MountInfoEntryView,
            >::empty());
            assert(entries_view(kept_rev@).reverse() =~= Seq::<MountInfoEntryView>::empty());
        }
        while rest.len() > 0
            invariant
                rest@.len() <= orig.len(),
                rest@ == orig.take(rest@.len() as int),
                entries_view(kept_rev@).reverse() == visible_spec(
                    entries_view(orig).skip(rest@.len() as int),
                    excl,
                ),
            decreases rest@.len(),
        {
            let ghost k = rest@.len() - 1;
            let m = rest.pop().unwrap();
            proof {
                assert(orig.take(k + 1).last() == orig[k]);
                assert(orig.take(k + 1).drop_last() =~= orig.take(k));
                assert(entries_view(orig).skip(k)[0] == entries_view(orig)[k]);
                assert(entries_view(orig).skip(k).drop_first() =~= entries_view(orig).skip(k + 1));
            }
            let ghost kept_prev = entries_view(kept_rev@);
            let ghost rest_vis = visible_spec(entries_view(orig).skip(k + 1), excl);
            if str_eq_str(m.file.as_str(), "/") {
                continue ;
            }
            let shadowed = is_shadowed(&m, &kept_rev, exclude_files);
            proof {
                lemma_obstruction_reverse(kept_prev, excl, m@.file);
            }
            if !shadowed {
                let ghost mv = m@;
                kept_rev.push(m);
                proof {
                    assert(entries_view(kept_rev@) =~= kept_prev.push(mv));
                    assert(kept_prev.push(mv).reverse() =~= seq![mv] + kept_prev.reverse());
                }
            }
        }
        proof {
            assert(entries_view(orig).skip(0) =~= entries_view(orig));
        }
        let ghost target = visible_spec(entries_view(orig), excl);
        let mut out: Vec<MountInfoEntry> = Vec::new();
        proof {
            assert(entries_view(out@) + entries_view(kept_rev@).reverse() =~= entries_view(
                kept_rev@,
            ).reverse());
        }
        while kept_rev.len() > 0
            invariant
                entries_view(out@) + entries_view(kept_rev@).reverse() == target,
            decreases kept_rev@.len(),
        {
            let ghost kv = entries_view(kept_rev@);
            let ghost ov = entries_view(out@);
            let m = kept_rev.pop().unwrap();
            let ghost mv = m@;
            out.push(m);
            proof {
                assert(kv.reverse()[0] == kv.last());
                assert(entries_view(kept_rev@) =~= kv.drop_last());
                assert(kv.drop_last().reverse() =~= kv.reverse().drop_first());
                assert(entries_view(out@) =~= ov.push(mv));
                assert(ov.push(mv) + kv.reverse().drop_first() =~= ov + kv.reverse());
            }
        }
        proof {
            assert(entries_view(kept_rev@).reverse() =~= Seq::<MountInfoEntryView>::empty());
            assert(entries_view(out@) + Seq::<MountInfoEntryView>::empty() =~= entries_view(out@));
        }
        out
    }
}

/// Overlap resolution is idempotent: run again on its own output, with the
/// same exclusions, it keeps every entry — an already-resolved list has no
/// further shadowing to remove.
pub proof fn lemma_visible_idempotent(mounts: Seq<MountInfoEntryView>, excl: Seq<Seq<char>>)
    ensures
        visible_spec(visible_spec(mounts, excl), excl) == visible_spec(mounts, excl),
    decreases mounts.len(),
{
    if mounts.len() > 0 {
        lemma_visible_idempotent(mounts.drop_first(), excl);
        let rest = visible_spec(mounts.drop_first(), excl);
        let v = visible_spec(mounts, excl);
        if mounts[0].file == "/"@ {
        } else if exists|j: int|
            0 <= j < rest.len() && !excl.contains((#[trigger] rest[j]).file) && is_path_prefix(
                rest[j].file,
                mounts[0].file,
            ) {
        } else {
            assert(v == seq![mounts[0]] + rest);
            assert(v[0] == mounts[0]);
            assert(v.drop_first() =~= rest);
            assert(visible_spec(v.drop_first(), excl) == rest);
            assert(visible_spec(v, excl) == seq![v[0]] + rest);
        }
    }
}

/// The separator index is the first `-` token at or after `i`.
proof fn lemma_dash_index_first(toks: Seq<Seq<char>>, i: int)
    requires
        0 <= i,
    ensures
        match dash_index_from(toks, i) {
            None => forall|j: int| i <= j < toks.len() ==> toks[j] != "-"@,
            Some(s) => i <= s < toks.len() && toks[s] == "-"@ && forall|j: int|
                i <= j < s ==> toks[j] != "-"@,
        },
    decreases toks.len() - i,
{
    if i >= toks.len() {
    } else if toks[i] == "-"@ {
    } else {
        lemma_dash_index_first(toks, i + 1);
    }
}

/// The missing-field error that truncating a well-formed record at token
/// boundary `k` produces, `sep` being the index of its `-` separator.
pub open spec fn truncation_error(k: int, sep: int) -> LineErrorView {
    if k == 0 {
        LineErrorView::MissingId
    } else if k == 1 {
        LineErrorView::MissingParentId
    } else if k == 2 {
        LineErrorView::MissingMajMin
    } else if k == 3 {
        LineErrorView::MissingRoot
    } else if k == 4 {
        LineErrorView::MissingFile
    } else if k == 5 {
        LineErrorView::MissingMntops
    } else if k <= sep {
        LineErrorView::MissingOptional
    } else if k == sep + 1 {
        LineErrorView::MissingVfstype
    } else if k == sep + 2 {
        LineErrorView::MissingSpec
    } else {
        LineErrorView::MissingSuperOptions
    }
}

/// Truncating a well-formed record at any field boundary fails with the
/// missing-field error naming exactly the first field that was cut off.
pub proof fn lemma_truncation_missing_field(toks: Seq<Seq<char>>, k: int)
    requires
        parse_tokens(toks) is Ok,
        0 <= k <= dash_index_from(toks, 6)->Some_0 + 3,
    ensures
        parse_tokens(toks.take(k)) == Err::<MountInfoEntryView, LineErrorView>(
            truncation_error(k, dash_index_from(toks, 6)->Some_0),
        ),
{
    let sep = dash_index_from(toks, 6)->Some_0;
    lemma_dash_index_first(toks, 6);
    assert(toks.len() >= sep + 4);
    let t = toks.take(k);
    assert(t.len() == k);
    assert(forall|j: int| 0 <= j < k ==> t[j] == toks[j]);
    if k >= 6 {
        assert forall|j: int| 6 <= j < (if k <= sep {
            k
        } else {
            sep
        }) implies t[j] != "-"@ by {
            assert(toks[j] != "-"@);
        }
        if k <= sep {
            lemma_dash_index_skip(t, 6, k);
            assert(dash_index_from(t, k) is None);
        } else {
            lemma_dash_index_skip(t, 6, sep);
            assert(t[sep] == "-"@);
            assert(dash_index_from(t, sep) == Some(sep));
        }
    }
}

/// `optionals_fold` only reads the tokens between `i` and `sep`.
proof fn lemma_optionals_fold_congruent(
    t1: Seq<Seq<char>>,
    t2: Seq<Seq<char>>,
    i: int,
    sep: int,
    acc: Seq<(Seq<char>, Option<Seq<char>>)>,
)
    requires
        forall|j: int| i <= j < sep ==> t1[j] == t2[j],
    ensures
        optionals_fold(t1, i, sep, acc) == optionals_fold(t2, i, sep, acc),
    decreases sep - i,
{
    if i < sep {
        assert(t1[i] == t2[i]);
        let p = opt_pair_of(t1[i]);
        lemma_optionals_fold_congruent(t1, t2, i + 1, sep, upsert(acc, p.0, p.1));
    }
}

/// Parsing consumes exactly the documented fields: tokens after the
/// superblock options leave the result of a well-formed record unchanged.
pub proof fn lemma_parse_ignores_trailing(toks: Seq<Seq<char>>, extra: Seq<Seq<char>>)
    requires
        parse_tokens(toks) is Ok,
    ensures
        parse_tokens(toks + extra) == parse_tokens(toks),
{
    let sep = dash_index_from(toks, 6)->Some_0;
    lemma_dash_index_first(toks, 6);
    assert(toks.len() >= sep + 4);
    let a = toks + extra;
    assert(forall|j: int| 0 <= j < toks.len() ==> a[j] == toks[j]);
    assert forall|j: int| 6 <= j < sep implies a[j] != "-"@ by {
        assert(toks[j] != "-"@);
    }
    lemma_dash_index_skip(a, 6, sep);
    assert(a[sep] == "-"@);
    assert(dash_index_from(a, 6) == Some(sep));
    lemma_optionals_fold_congruent(a, toks, 6, sep, Seq::empty());
}

/// Whether an optionals mapping has an entry for tag `t`.
pub open spec fn has_key(m: Seq<(Seq<char>, Option<Seq<char>>)>, t: Seq<char>) -> bool {
    exists|j: int| 0 <= j < m.len() && (#[trigger] m[j]).0 == t
}

/// Whether an optionals mapping holds each tag at most once.
pub open spec fn unique_keys(m: Seq<(Seq<char>, Option<Seq<char>>)>) -> bool {
    forall|j1: int, j2: int|
        0 <= j1 < j2 < m.len() ==> (#[trigger] m[j1]).0 != (#[trigger] m[j2]).0
}

/// `upsert` keeps keys unique and adds exactly the key `k`.
proof fn lemma_upsert_keys(m: Seq<(Seq<char>, Option<Seq<char>>)>, k: Seq<char>, v: Option<Seq<char>>)
    requires
        unique_keys(m),
    ensures
        unique_keys(upsert(m, k, v)),
        forall|t: Seq<char>| has_key(upsert(m, k, v), t) == (has_key(m, t) || t == k),
        has_key(upsert(m, k, v), k),
{
    if has_key(m, k) {
        let j = choose|j: int| 0 <= j < m.len() && (#[trigger] m[j]).0 == k;
        assert forall|j2: int| 0 <= j2 < j implies (#[trigger] m[j2]).0 != k by {
            assert(m[j2].0 != m[j].0);
        }
        lemma_upsert_present(m, k, v, j);
        let u = m.update(j, (k, v));
        assert forall|t: Seq<char>| has_key(u, t) == (has_key(m, t) || t == k) by {
            if has_key(u, t) {
                let j2 = choose|j2: int| 0 <= j2 < u.len() && (#[trigger] u[j2]).0 == t;
                if j2 == j {
                    assert(t == k);
                } else {
                    assert(m[j2].0 == t);
                }
            }
            if has_key(m, t) {
                let j2 = choose|j2: int| 0 <= j2 < m.len() && (#[trigger] m[j2]).0 == t;
                if j2 == j {
                    assert(t == k);
                    assert(u[j].0 == t);
                } else {
                    assert(u[j2].0 == t);
                }
            }
            if t == k {
                assert(u[j].0 == t);
            }
        }
        assert forall|j1: int, j2: int| 0 <= j1 < j2 < u.len() implies (#[trigger] u[j1]).0 != (
        #[trigger] u[j2]).0 by {
            if j1 == j {
                assert(m[j2].0 != m[j].0);
                assert(u[j2].0 == m[j2].0 && u[j1].0 == m[j].0);
            } else if j2 == j {
                assert(m[j1].0 != m[j].0);
            } else {
                assert(u[j1].0 == m[j1].0 && u[j2].0 == m[j2].0);
            }
        }
    } else {
        assert forall|j2: int| 0 <= j2 < m.len() implies (#[trigger] m[j2]).0 != k by {
            if m[j2].0 == k {
                assert(has_key(m, k));
            }
        }
        lemma_upsert_absent(m, k, v);
        let u = m.push((k, v));
        assert forall|t: Seq<char>| has_key(u, t) == (has_key(m, t) || t == k) by {
            if has_key(u, t) {
                let j2 = choose|j2: int| 0 <= j2 < u.len() && (#[trigger] u[j2]).0 == t;
                if j2 < m.len() {
                    assert(m[j2].0 == t);
                } else {
                    assert(t == k);
                }
            }
            if has_key(m, t) {
                let j2 = choose|j2: int| 0 <= j2 < m.len() && (#[trigger] m[j2]).0 == t;
                assert(u[j2].0 == t);
            }
            if t == k {
                assert(u[m.len() as int].0 == t);
            }
        }
        assert forall|j1: int, j2: int| 0 <= j1 < j2 < u.len() implies (#[trigger] u[j1]).0 != (
        #[trigger] u[j2]).0 by {
            if j2 < m.len() {
                assert(m[j1].0 != m[j2].0);
            } else {
                assert(u[j2].0 == k);
                assert(m[j1].0 != k);
            }
        }
    }
}

/// The tags with an entry after folding the optionals region are those of
/// `acc` plus the tags of the tokens in the region, each held once.
proof fn lemma_optionals_fold_keys(
    toks: Seq<Seq<char>>,
    i: int,
    sep: int,
    acc: Seq<(Seq<char>, Option<Seq<char>>)>,
)
    requires
        unique_keys(acc),
    ensures
        unique_keys(optionals_fold(toks, i, sep, acc)),
        forall|t: Seq<char>|
            has_key(optionals_fold(toks, i, sep, acc), t) == (has_key(acc, t) || exists|j: int|
                i <= j < sep && (#[trigger] opt_pair_of(toks[j])).0 == t),
    decreases sep - i,
{
    if i >= sep {
        assert forall|t: Seq<char>|
            has_key(optionals_fold(toks, i, sep, acc), t) == (has_key(acc, t) || exists|j: int|
                i <= j < sep && (#[trigger] opt_pair_of(toks[j])).0 == t) by {
            if exists|j: int| i <= j < sep && (#[trigger] opt_pair_of(toks[j])).0 == t {
                let j = choose|j: int| i <= j < sep && (#[trigger] opt_pair_of(toks[j])).0 == t;
                assert(false);
            }
        }
    } else {
        let p = opt_pair_of(toks[i]);
        lemma_upsert_keys(acc, p.0, p.1);
        lemma_optionals_fold_keys(toks, i + 1, sep, upsert(acc, p.0, p.1));
        let r = optionals_fold(toks, i, sep, acc);
        assert forall|t: Seq<char>|
            has_key(r, t) == (has_key(acc, t) || exists|j: int|
                i <= j < sep && (#[trigger] opt_pair_of(toks[j])).0 == t) by {
            assert(r == optionals_fold(toks, i + 1, sep, upsert(acc, p.0, p.1)));
            assert(has_key(optionals_fold(toks, i + 1, sep, upsert(acc, p.0, p.1)), t) == (
            has_key(upsert(acc, p.0, p.1), t) || exists|j: int|
                i + 1 <= j < sep && (#[trigger] opt_pair_of(toks[j])).0 == t));
            assert(has_key(r, t) == (has_key(upsert(acc, p.0, p.1), t) || exists|j: int|
                i + 1 <= j < sep && (#[trigger] opt_pair_of(toks[j])).0 == t));
            if has_key(r, t) {
                if has_key(upsert(acc, p.0, p.1), t) && !has_key(acc, t) {
                    assert(t == p.0);
                    assert(opt_pair_of(toks[i]).0 == t);
                }
            }
            if exists|j: int| i <= j < sep && (#[trigger] opt_pair_of(toks[j])).0 == t {
                let j = choose|j: int| i <= j < sep && (#[trigger] opt_pair_of(toks[j])).0 == t;
                if j == i {
                    assert(t == p.0);
                    lemma_upsert_keys(acc, p.0, p.1);
                    assert(has_key(upsert(acc, p.0, p.1), p.0));
                }
            }
            if has_key(acc, t) {
                assert(has_key(upsert(acc, p.0, p.1), t));
            }
        }
    }
}

/// A well-formed record keeps exactly one optionals entry per distinct
/// tag: its keys are unique, and a tag has an entry exactly when one of
/// the optional-field tokens before the separator carries it.
pub proof fn lemma_optionals_keys_exact(toks: Seq<Seq<char>>)
    requires
        parse_tokens(toks) is Ok,
    ensures
        unique_keys(parse_tokens(toks)->Ok_0.optionals),
        forall|t: Seq<char>|
            has_key(parse_tokens(toks)->Ok_0.optionals, t) == exists|j: int|
                6 <= j < dash_index_from(toks, 6)->Some_0 && (#[trigger] opt_pair_of(toks[j])).0
                    == t,
{
    let sep = dash_index_from(toks, 6)->Some_0;
    lemma_optionals_fold_keys(toks, 6, sep, Seq::empty());
    let e = parse_tokens(toks)->Ok_0;
    assert(e.optionals == optionals_fold(toks, 6, sep, Seq::empty()));
    assert forall|t: Seq<char>|
        has_key(e.optionals, t) == (exists|j: int|
            6 <= j < sep && (#[trigger] opt_pair_of(toks[j])).0 == t) by {
        assert(has_key(optionals_fold(toks, 6, sep, Seq::empty()), t) == (has_key(
            Seq::empty(),
            t,
        ) || exists|j: int| 6 <= j < sep && (#[trigger] opt_pair_of(toks[j])).0 == t));
        if has_key(Seq::<(Seq<char>, Option<Seq<char>>)>::empty(), t) {
            let j = choose|j: int|
                0 <= j < Seq::<(Seq<char>, Option<Seq<char>>)>::empty().len() && (#[trigger] Seq::<
                    (Seq<char>, Option<Seq<char>>),
                >::empty()[j]).0 == t;
            assert(false);
        }
    }
}

} // verus!
