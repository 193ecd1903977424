//! Typed entries of a lock file.
//!
//! * Frozen dependencies come from `pip freeze` output.
//! * Locked dependencies are read from the lock file and are either the
//!   `Simple` variant (`foo==42`) or the `Git` variant
//!   (`git+https://git.local/foo@master#egg=foo`).
use vstd::prelude::*;

use crate::error::Error;
use crate::locate::{
    eq_eq, find_le_match, first_non_blank_some, lemma_version_range, parse_simple_line,
    simple_name, simple_range,
};
use crate::text::{
    append, byte_pos, byte_pos_exec, char_pos, char_pos_exec, chars_of, find, find_seq,
    is_ascii_ws, lemma_byte_pos_prefix, lemma_char_pos, lemma_encode_concat, seq_eq, slice,
    string_of, text_lines, text_lines_exec,
};
use vstd::utf8::encode_utf8;

verus! {

/// A `name==version` pair, one line of `pip freeze` output.
#[derive(Debug)]
pub struct FrozenDependency {
    pub name: String,
    pub version: String,
}

/// How a line of `pip freeze` output reads as `name==version`: exactly one
/// `==` (counting as `str::split` does), and a non-empty version after it.
pub open spec fn freeze_split(line: Seq<char>) -> Option<(Seq<char>, Seq<char>)> {
    match find(line, eq_eq()) {
        Some(e) => {
            let version = line.subrange(e + 2, line.len() as int);
            if find(version, eq_eq()) is None && version.len() > 0 {
                Some((line.subrange(0, e), version))
            } else {
                None
            }
        },
        None => None,
    }
}

impl FrozenDependency {
    /// Reads one line of `pip freeze` output.
    pub fn from_string(string: &str) -> (r: Result<Self, Error>)
        ensures
            match freeze_split(string@) {
                Some((name, version)) => r matches Ok(f) && f.name@ == name && f.version@ == version,
                None => r matches Err(Error::ParsePipFreezeError { line }) && line@ == string@,
            },
    {
        let l = chars_of(string);
        let n = l.len();
        let eq = vec!['=', '='];
        assert(eq@ =~= eq_eq());
        if let Some(e) = find_seq(&l, &eq) {
            proof {
                crate::locate::lemma_find_bounds(l@, eq_eq(), 0);
            }
            let version = slice(&l, e + 2, n);
            if find_seq(&version, &eq).is_none() && version.len() > 0 {
                let name = string_of(&slice(&l, 0, e));
                return Ok(FrozenDependency { name, version: string_of(&version) });
            }
        }
        Err(Error::ParsePipFreezeError { line: string_of(&l) })
    }

    /// Whether the version holds a character that is not ASCII whitespace,
    /// which a reconcile needs to locate it in the new entry.
    pub fn has_version(&self) -> (r: bool)
        ensures
            r == frozen_ok(*self),
    {
        let v = chars_of(self.version.as_str());
        let mut k: usize = 0;
        while k < v.len()
            invariant
                k <= v.len(),
                v@ == self.version@,
                forall|m: int| 0 <= m < k ==> is_ascii_ws(v@[m]),
            decreases v.len() - k,
        {
            if !crate::text::is_ascii_ws_exec(v[k]) {
                return true;
            }
            k = k + 1;
        }
        false
    }

    pub fn new(name: &str, version: &str) -> (r: Self)
        ensures
            r.name@ == name@,
            r.version@ == version@,
    {
        FrozenDependency { name: string_of(&chars_of(name)), version: string_of(&chars_of(version)) }
    }
}

/// Where a version or a git reference sits in the line of its entry.
///
/// `start` and `end` are byte offsets in the UTF-8 text of the line.
#[derive(Debug)]
pub struct VersionSpec {
    pub start: usize,
    pub end: usize,
    pub value: String,
}

impl VersionSpec {
    /// `value` is what the line holds from its character `cs` to its
    /// character `ce`, and `start` and `end` are the byte offsets of these.
    pub open spec fn located_at(self, line: Seq<char>, cs: int, ce: int) -> bool {
        &&& 0 <= cs <= ce <= line.len()
        &&& self.start == byte_pos(line, cs)
        &&& self.end == byte_pos(line, ce)
        &&& line.subrange(cs, ce) == self.value@
    }

    /// `value` is exactly what the line holds between the bytes `start` and
    /// `end`.
    pub open spec fn locates_in(self, line: Seq<char>) -> bool {
        self.located_at(line, char_pos(line, self.start as int), char_pos(line, self.end as int))
    }
}

/// A location given by characters is a location by bytes.
pub proof fn lemma_located(v: VersionSpec, line: Seq<char>, cs: int, ce: int)
    requires
        v.located_at(line, cs, ce),
    ensures
        v.locates_in(line),
        char_pos(line, v.start as int) == cs,
        char_pos(line, v.end as int) == ce,
{
    lemma_char_pos(line, cs);
    lemma_char_pos(line, ce);
}

/// `line` with the bytes `start..end` replaced by `new`.
pub open spec fn splice(line: Seq<char>, start: int, end: int, new: Seq<char>) -> Seq<char> {
    line.subrange(0, char_pos(line, start)) + new + line.subrange(
        char_pos(line, end),
        line.len() as int,
    )
}

/// `line` without its trailing newlines.
pub open spec fn trim_newlines(line: Seq<char>) -> Seq<char>
    decreases line.len(),
{
    if line.len() > 0 && line.last() == '\n' {
        trim_newlines(line.drop_last())
    } else {
        line
    }
}

/// Replaces the located part of `line` with `new`: the new line and the new
/// location.
fn splice_exec(line: &String, spec_: &VersionSpec, new: &str) -> (r: (String, VersionSpec))
    requires
        spec_.locates_in(line@),
    ensures
        r.0@ == splice(line@, spec_.start as int, spec_.end as int, new@),
        r.1.start == spec_.start,
        r.1.end == spec_.start + encode_utf8(new@).len(),
        r.1.value@ == new@,
        r.1.locates_in(r.0@),
{
    let chars = chars_of(line.as_str());
    let new_chars = chars_of(new);
    let ghost cs0 = char_pos(line@, spec_.start as int);
    let ghost ce0 = char_pos(line@, spec_.end as int);
    assert(0 <= cs0 <= chars@.len() && byte_pos(chars@, cs0) == spec_.start);
    assert(0 <= ce0 <= chars@.len() && byte_pos(chars@, ce0) == spec_.end);
    let cs = char_pos_exec(line.as_str(), &chars, spec_.start);
    let ce = char_pos_exec(line.as_str(), &chars, spec_.end);
    let mut res = slice(&chars, 0, cs);
    append(&mut res, &new_chars);
    let ne = res.len();
    let rest = slice(&chars, ce, chars.len());
    append(&mut res, &rest);
    let new_line = string_of(&res);
    let start = byte_pos_exec(new_line.as_str(), &res, cs);
    let end = byte_pos_exec(new_line.as_str(), &res, ne);
    let version = VersionSpec { start, end, value: string_of(&new_chars) };
    proof {
        assert(res@.subrange(0, cs as int) =~= chars@.subrange(0, cs as int));
        lemma_byte_pos_prefix(res@, chars@, cs as int);
        assert(res@.subrange(cs as int, ne as int) =~= new@);
        assert(res@.subrange(0, ne as int) =~= res@.subrange(0, cs as int) + new@);
        lemma_encode_concat(res@.subrange(0, cs as int), new@);
        lemma_located(version, res@, cs as int, ne as int);
    }
    (new_line, version)
}

/// A source-reference entry: `...@<ref>#egg=<name>`.
#[derive(Debug)]
pub struct GitDependency {
    pub name: String,
    pub line: String,
    pub git_ref: VersionSpec,
}

impl GitDependency {
    pub open spec fn wf(self) -> bool {
        self.git_ref.locates_in(self.line@)
    }

    /// Replaces the reference in the line with `new_ref`.
    pub fn git_bump(&mut self, new_ref: &str)
        requires
            old(self).wf(),
        ensures
            final(self).wf(),
            final(self).name == old(self).name,
            final(self).line@ == splice(
                old(self).line@,
                old(self).git_ref.start as int,
                old(self).git_ref.end as int,
                new_ref@,
            ),
            final(self).git_ref.start == old(self).git_ref.start,
            final(self).git_ref.value@ == new_ref@,
    {
        let (line, git_ref) = splice_exec(&self.line, &self.git_ref, new_ref);
        self.line = line;
        self.git_ref = git_ref;
    }
}


/// The name that a Debian bug makes `pip freeze` print: not a real package.
pub open spec fn pkg_resources() -> Seq<char> {
    "pkg-resources"@
}

/// The `(name, version)` pairs that the lines of `pip freeze` output give,
/// `pkg-resources` left out; or the first line that is not `name==version`.
pub open spec fn freeze_output_pairs(lines: Seq<Seq<char>>) -> Result<
    Seq<(Seq<char>, Seq<char>)>,
    Seq<char>,
>
    decreases lines.len(),
{
    if lines.len() == 0 {
        Ok(seq![])
    } else {
        match freeze_output_pairs(lines.drop_last()) {
            Err(l) => Err(l),
            Ok(ps) => match freeze_split(lines.last()) {
                None => Err(lines.last()),
                Some((name, version)) => if name == pkg_resources() {
                    Ok(ps)
                } else {
                    Ok(ps.push((name, version)))
                },
            },
        }
    }
}

/// `fs` are the frozen dependencies `ps`, in order.
pub open spec fn frozen_are(fs: Seq<FrozenDependency>, ps: Seq<(Seq<char>, Seq<char>)>) -> bool {
    &&& fs.len() == ps.len()
    &&& forall|i: int| 0 <= i < fs.len() ==> (#[trigger] fs[i]).name@ == ps[i].0 && fs[i].version@ == ps[i].1
}

proof fn lemma_freeze_output_err(ls: Seq<Seq<char>>, k: int)
    requires
        0 <= k <= ls.len(),
        freeze_output_pairs(ls.subrange(0, k)) is Err,
    ensures
        freeze_output_pairs(ls) == freeze_output_pairs(ls.subrange(0, k)),
    decreases ls.len() - k,
{
    if k < ls.len() {
        assert(ls.subrange(0, k + 1).drop_last() =~= ls.subrange(0, k));
        lemma_freeze_output_err(ls, k + 1);
    } else {
        assert(ls.subrange(0, k) =~= ls);
    }
}

/// Reads the output of `pip freeze`: one dependency per line.
pub fn parse_freeze_output(output: &str) -> (r: Result<Vec<FrozenDependency>, Error>)
    ensures
        match freeze_output_pairs(text_lines(output@)) {
            Ok(ps) => r matches Ok(fs) && frozen_are(fs@, ps),
            Err(l) => r matches Err(Error::ParsePipFreezeError { line }) && line@ == l,
        },
{
    let lines = text_lines_exec(output);
    let ghost ls = text_lines(output@);
    let skipped = chars_of("pkg-resources");
    let mut res: Vec<FrozenDependency> = Vec::new();
    let mut j: usize = 0;
    assert(ls.subrange(0, 0) =~= Seq::<Seq<char>>::empty());
    while j < lines.len()
        invariant
            j <= lines.len(),
            lines@.map_values(|l: Vec<char>| l@) == ls,
            ls == text_lines(output@),
            skipped@ == pkg_resources(),
            freeze_output_pairs(ls.subrange(0, j as int)) matches Ok(ps) && frozen_are(res@, ps),
        decreases lines.len() - j,
    {
        assert(ls.subrange(0, j + 1).drop_last() =~= ls.subrange(0, j as int));
        assert(ls[j as int] == lines[j as int]@);
        let ghost ps = freeze_output_pairs(ls.subrange(0, j as int))->Ok_0;
        match FrozenDependency::from_string(string_of(&lines[j]).as_str()) {
            Ok(f) => {
                if !seq_eq(&chars_of(f.name.as_str()), &skipped) {
                    res.push(f);
                    assert(frozen_are(res@, ps.push((f.name@, f.version@))));
                }
            },
            Err(e) => {
                proof {
                    lemma_freeze_output_err(ls, j + 1);
                }
                return Err(e);
            },
        }
        j = j + 1;
    }
    assert(ls.subrange(0, ls.len() as int) =~= ls);
    Ok(res)
}

/// The version holds a character that is not ASCII whitespace, as every
/// version that `pip freeze` prints does.
pub open spec fn frozen_ok(f: FrozenDependency) -> bool {
    exists|k: int| 0 <= k < f.version@.len() && !is_ascii_ws(#[trigger] f.version@[k])
}

/// The line of a new entry for `f`: `name==version`.
pub open spec fn frozen_line(f: FrozenDependency) -> Seq<char> {
    f.name@ + eq_eq() + f.version@ + seq!['\n']
}

proof fn lemma_trim_newlines_prefix(l: Seq<char>)
    ensures
        trim_newlines(l).len() <= l.len(),
        trim_newlines(l) == l.subrange(0, trim_newlines(l).len() as int),
        trim_newlines(l).len() > 0 ==> trim_newlines(l).last() != '\n',
    decreases l.len(),
{
    if l.len() > 0 && l.last() == '\n' {
        lemma_trim_newlines_prefix(l.drop_last());
        assert(l.drop_last().subrange(0, trim_newlines(l).len() as int) =~= l.subrange(
            0,
            trim_newlines(l).len() as int,
        ));
    } else {
        assert(l.subrange(0, l.len() as int) =~= l);
    }
}

proof fn lemma_trim_newlines_keeps(l: Seq<char>, k: int)
    requires
        0 < k <= l.len(),
        l[k - 1] != '\n',
    ensures
        trim_newlines(l).len() >= k,
    decreases l.len(),
{
    if l.len() > 0 && l.last() == '\n' {
        lemma_trim_newlines_keeps(l.drop_last(), k);
    }
}

proof fn lemma_frozen_line_locates(f: FrozenDependency)
    requires
        frozen_ok(f),
    ensures
        simple_range(frozen_line(f)) is Some,
{
    let fl = frozen_line(f);
    let nl = f.name@.len() as int;
    let k = choose|k: int| 0 <= k < f.version@.len() && !is_ascii_ws(f.version@[k]);
    assert(fl.subrange(nl, nl + 2) =~= eq_eq());
    find_le_match(fl, eq_eq(), nl);
    let e = find(fl, eq_eq())->0;
    assert(fl[nl + 2 + k] == f.version@[k]);
    first_non_blank_some(fl, e + 2, nl + 2 + k);
}

/// `line` without its trailing newlines.
fn trim_newlines_exec(line: &Vec<char>) -> (r: Vec<char>)
    ensures
        r@ == trim_newlines(line@),
{
    let mut hi = line.len();
    assert(line@.subrange(0, hi as int) =~= line@);
    while hi > 0 && line[hi - 1] == '\n'
        invariant
            hi <= line.len(),
            trim_newlines(line@) == trim_newlines(line@.subrange(0, hi as int)),
        decreases hi,
    {
        assert(line@.subrange(0, hi as int).drop_last() =~= line@.subrange(0, hi - 1));
        hi = hi - 1;
    }
    slice(line, 0, hi)
}

/// `line` with `marker` put after it, before a single final newline.
pub open spec fn with_marker(line: Seq<char>, marker: Seq<char>) -> Seq<char> {
    trim_newlines(line) + marker + seq!['\n']
}

pub open spec fn python_version_marker(python_version: Seq<char>) -> Seq<char> {
    " ; python_version "@ + python_version
}

pub open spec fn sys_platform_marker(sys_platform: Seq<char>) -> Seq<char> {
    " ; sys_platform == '"@ + sys_platform + "'"@
}

/// A pinned entry: `name==version`, possibly followed by a marker or a comment.
#[derive(Debug)]
pub struct SimpleDependency {
    pub name: String,
    pub line: String,
    pub version: VersionSpec,
}

impl SimpleDependency {
    pub open spec fn wf(self) -> bool {
        self.version.locates_in(self.line@)
    }

    /// Replaces the version in the line with `new_version`.
    pub fn simple_bump(&mut self, new_version: &str)
        requires
            old(self).wf(),
        ensures
            final(self).wf(),
            final(self).name == old(self).name,
            final(self).line@ == splice(
                old(self).line@,
                old(self).version.start as int,
                old(self).version.end as int,
                new_version@,
            ),
            final(self).version.start == old(self).version.start,
            final(self).version.value@ == new_version@,
    {
        let (line, version) = splice_exec(&self.line, &self.version, new_version);
        self.line = line;
        self.version = version;
    }

    /// Takes the version that `pip freeze` reported. This merges a version
    /// into the lock, where a bump sets one; the text changes the same way.
    pub fn freeze(&mut self, new_version: &str)
        requires
            old(self).wf(),
        ensures
            final(self).wf(),
            final(self).name == old(self).name,
            final(self).line@ == splice(
                old(self).line@,
                old(self).version.start as int,
                old(self).version.end as int,
                new_version@,
            ),
            final(self).version.start == old(self).version.start,
            final(self).version.value@ == new_version@,
    {
        self.simple_bump(new_version);
    }

    /// The version does not reach into the trailing newlines of the line.
    pub open spec fn markable(self) -> bool {
        self.wf() && char_pos(self.line@, self.version.end as int) <= trim_newlines(self.line@).len()
    }

    /// Appends `marker` to the line, after the version.
    fn add_marker(&mut self, marker: &Vec<char>)
        requires
            old(self).markable(),
        ensures
            final(self).markable(),
            final(self).name == old(self).name,
            final(self).version == old(self).version,
            final(self).line@ == with_marker(old(self).line@, marker@),
    {
        proof {
            lemma_trim_newlines_prefix(self.line@);
        }
        let ghost cs = char_pos(self.line@, self.version.start as int);
        let ghost ce = char_pos(self.line@, self.version.end as int);
        let mut l = trim_newlines_exec(&chars_of(self.line.as_str()));
        append(&mut l, marker);
        l.push('\n');
        let ghost t = trim_newlines(self.line@);
        proof {
            assert(l@.subrange(0, ce) =~= self.line@.subrange(0, ce));
            assert(l@.subrange(0, cs) =~= self.line@.subrange(0, cs));
            lemma_byte_pos_prefix(l@, self.line@, cs);
            lemma_byte_pos_prefix(l@, self.line@, ce);
            assert(l@.subrange(cs, ce) =~= self.line@.subrange(cs, ce));
            lemma_located(self.version, l@, cs, ce);
        }
        self.line = string_of(&l);
        proof {
            if t.len() > 0 {
                assert(l@[t.len() - 1] == t.last());
                lemma_trim_newlines_keeps(l@, t.len() as int);
            }
        }
    }

    /// Makes this dependency specific to a Python version.
    pub fn python_version(&mut self, python_version: &str)
        requires
            old(self).markable(),
        ensures
            final(self).markable(),
            final(self).name == old(self).name,
            final(self).version == old(self).version,
            final(self).line@ == with_marker(old(self).line@, python_version_marker(python_version@)),
    {
        let mut marker = chars_of(" ; python_version ");
        append(&mut marker, &chars_of(python_version));
        self.add_marker(&marker);
    }

    /// Makes this dependency specific to a platform.
    pub fn sys_platform(&mut self, sys_platform: &str)
        requires
            old(self).markable(),
        ensures
            final(self).markable(),
            final(self).name == old(self).name,
            final(self).version == old(self).version,
            final(self).line@ == with_marker(old(self).line@, sys_platform_marker(sys_platform@)),
    {
        let mut marker = chars_of(" ; sys_platform == '");
        append(&mut marker, &chars_of(sys_platform));
        append(&mut marker, &chars_of("'"));
        self.add_marker(&marker);
    }

    /// A new entry for a dependency seen in `pip freeze` output: its line is
    /// `name==version`, and the version is located in it as in any other line.
    pub fn from_frozen(frozen: &FrozenDependency) -> (r: Self)
        requires
            frozen_ok(*frozen),
        ensures
            r.markable(),
            r.line@ == frozen_line(*frozen),
            r.name@ == simple_name(frozen_line(*frozen)),
            simple_range(frozen_line(*frozen)) matches Some((cs, ce)) && r.version.located_at(
                frozen_line(*frozen),
                cs,
                ce,
            ),
    {
        let mut l = chars_of(frozen.name.as_str());
        let eq = vec!['=', '='];
        assert(eq@ =~= eq_eq());
        append(&mut l, &eq);
        append(&mut l, &chars_of(frozen.version.as_str()));
        l.push('\n');
        let line = string_of(&l);
        let ghost fl = frozen_line(*frozen);
        assert(line@ =~= fl);
        proof {
            lemma_frozen_line_locates(*frozen);
        }
        match parse_simple_line(line.as_str()) {
            Ok(d) => {
                proof {
                    lemma_version_range(d.line@);
                    let (cs, ce) = simple_range(d.line@)->0;
                    lemma_located(d.version, d.line@, cs, ce);
                    lemma_trim_newlines_keeps(d.line@, ce);
                }
                d
            },
            Err(_) => {
                assert(false);
                SimpleDependency {
                    name: string_of(&Vec::new()),
                    line: string_of(&Vec::new()),
                    version: VersionSpec { start: 0, end: 0, value: string_of(&Vec::new()) },
                }
            },
        }
    }
}


/// One entry of the lock.
#[derive(Debug)]
pub enum LockedDependency {
    Git(GitDependency),
    Simple(SimpleDependency),
}

impl LockedDependency {
    pub open spec fn wf(self) -> bool {
        match self {
            LockedDependency::Git(g) => g.wf(),
            LockedDependency::Simple(s) => s.wf(),
        }
    }

    pub open spec fn spec_line(self) -> Seq<char> {
        match self {
            LockedDependency::Git(g) => g.line@,
            LockedDependency::Simple(s) => s.line@,
        }
    }

    pub open spec fn spec_name(self) -> Seq<char> {
        match self {
            LockedDependency::Git(g) => g.name@,
            LockedDependency::Simple(s) => s.name@,
        }
    }

    /// The version of a simple entry, the reference of a git entry.
    pub open spec fn spec_value(self) -> Seq<char> {
        match self {
            LockedDependency::Git(g) => g.git_ref.value@,
            LockedDependency::Simple(s) => s.version.value@,
        }
    }

    /// The position of the value in the line.
    pub open spec fn spec_start(self) -> int {
        match self {
            LockedDependency::Git(g) => g.git_ref.start as int,
            LockedDependency::Simple(s) => s.version.start as int,
        }
    }

    pub open spec fn spec_end(self) -> int {
        match self {
            LockedDependency::Git(g) => g.git_ref.end as int,
            LockedDependency::Simple(s) => s.version.end as int,
        }
    }

    /// The full text of the entry, as it is written back to the lock.
    pub fn line(&self) -> (r: String)
        ensures
            r@ == self.spec_line(),
    {
        match self {
            LockedDependency::Git(x) => x.line.clone(),
            LockedDependency::Simple(x) => x.line.clone(),
        }
    }

    pub fn name(&self) -> (r: String)
        ensures
            r@ == self.spec_name(),
    {
        match self {
            LockedDependency::Git(x) => x.name.clone(),
            LockedDependency::Simple(x) => x.name.clone(),
        }
    }

    pub fn version(&self) -> (r: String)
        ensures
            r@ == self.spec_value(),
    {
        match self {
            LockedDependency::Git(x) => x.git_ref.value.clone(),
            LockedDependency::Simple(x) => x.version.value.clone(),
        }
    }

    /// Replaces the reference of a git entry; fails on a simple entry.
    pub fn git_bump(&mut self, new_ref: &str) -> (r: Result<(), Error>)
        requires
            old(self).wf(),
        ensures
            final(self).wf(),
            final(self).spec_name() == old(self).spec_name(),
            *old(self) is Git ==> r is Ok && *final(self) is Git && final(self).spec_line() == splice(
                old(self).spec_line(),
                old(self).spec_start(),
                old(self).spec_end(),
                new_ref@,
            ) && final(self).spec_value() == new_ref@ && final(self).spec_start()
                == old(self).spec_start(),
            *old(self) is Simple ==> *final(self) == *old(self) && (r matches Err(
                Error::IncorrectLockedType { name, expected_type },
            ) && name@ == old(self).spec_name() && expected_type@ == "git"@),
    {
        match self {
            LockedDependency::Git(x) => {
                x.git_bump(new_ref);
                Ok(())
            },
            LockedDependency::Simple(x) => Err(
                Error::IncorrectLockedType { name: x.name.clone(), expected_type: "git".to_string() },
            ),
        }
    }

    /// Replaces the version of a simple entry; fails on a git entry.
    pub fn simple_bump(&mut self, new_version: &str) -> (r: Result<(), Error>)
        requires
            old(self).wf(),
        ensures
            final(self).wf(),
            final(self).spec_name() == old(self).spec_name(),
            *old(self) is Simple ==> r is Ok && *final(self) is Simple && final(self).spec_line()
                == splice(
                old(self).spec_line(),
                old(self).spec_start(),
                old(self).spec_end(),
                new_version@,
            ) && final(self).spec_value() == new_version@ && final(self).spec_start()
                == old(self).spec_start(),
            *old(self) is Git ==> *final(self) == *old(self) && (r matches Err(
                Error::IncorrectLockedType { name, expected_type },
            ) && name@ == old(self).spec_name() && expected_type@ == "simple"@),
    {
        match self {
            LockedDependency::Simple(x) => {
                x.simple_bump(new_version);
                Ok(())
            },
            LockedDependency::Git(x) => Err(
                Error::IncorrectLockedType {
                    name: x.name.clone(),
                    expected_type: "simple".to_string(),
                },
            ),
        }
    }
}

} // verus!
