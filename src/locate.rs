//! Version-spec locator: where the version of a simple line, or the
//! reference of a source-reference line, sits; and the entry a single line
//! describes.
use vstd::prelude::*;

use crate::dependencies::{
    lemma_located, GitDependency, LockedDependency, SimpleDependency, VersionSpec,
};
use crate::error::Error;
use crate::text::{
    chars_of, contains, find, find_from, find_seq, is_ascii_ws, is_ascii_ws_exec, matches_at,
    matches_at_exec, rfind, rfind_from, rfind_seq, slice, string_of, trim, trim_end, trim_end_exec,
    trim_exec, append, byte_pos_exec,
};

verus! {

/// `==`, which separates the name of a simple line from its version.
pub open spec fn eq_eq() -> Seq<char> {
    seq!['=', '=']
}

/// `#egg=`, which marks a source-reference line.
pub open spec fn egg_marker() -> Seq<char> {
    seq!['#', 'e', 'g', 'g', '=']
}

/// `egg=`, which the name of a source-reference line follows.
pub open spec fn egg() -> Seq<char> {
    seq!['e', 'g', 'g', '=']
}

/// A character that closes a version: whitespace, a line continuation or a comment.
pub open spec fn is_version_end(c: char) -> bool {
    is_ascii_ws(c) || c == '\\' || c == '#'
}

/// The first position at or after `i` that does not hold ASCII whitespace.
pub open spec fn first_non_blank_from(l: Seq<char>, i: int) -> Option<int>
    decreases l.len() - i,
{
    if i < 0 || i >= l.len() {
        None
    } else if !is_ascii_ws(l[i]) {
        Some(i)
    } else {
        first_non_blank_from(l, i + 1)
    }
}

/// The first position at or after `i` that closes a version, or the length of `l`.
pub open spec fn version_end_from(l: Seq<char>, i: int) -> int
    decreases l.len() - i,
{
    if i < 0 || i >= l.len() {
        l.len() as int
    } else if is_version_end(l[i]) {
        i
    } else {
        version_end_from(l, i + 1)
    }
}

/// Where the version of a simple line sits: it starts at the first
/// non-blank character after the first `==`, and ends before the next
/// whitespace, backslash or `#`.
pub open spec fn simple_range(l: Seq<char>) -> Option<(int, int)> {
    match find(l, eq_eq()) {
        None => None,
        Some(e) => match first_non_blank_from(l, e + 2) {
            None => None,
            Some(s) => Some((s, version_end_from(l, s + 1))),
        },
    }
}

/// The name of a simple line: what precedes the first `==`, trimmed.
pub open spec fn simple_name(l: Seq<char>) -> Seq<char> {
    match find(l, eq_eq()) {
        Some(e) => trim(l.subrange(0, e)),
        None => trim(l),
    }
}

/// Where the reference of a source-reference line sits: the part after
/// the last `@` must read `<ref>#egg=<name>`, with no other `#`.
pub open spec fn git_range(l: Seq<char>) -> Option<(int, int)> {
    match rfind(l, seq!['@']) {
        None => None,
        Some(a) => {
            let after = l.subrange(a + 1, l.len() as int);
            match find(after, seq!['#']) {
                None => None,
                Some(h) => {
                    let tail = after.subrange(h + 1, after.len() as int);
                    if find(tail, seq!['#']) is None && matches_at(tail, egg(), 0) {
                        Some((a + 1, a + 1 + h))
                    } else {
                        None
                    }
                },
            }
        },
    }
}

/// The name of a source-reference line: what follows the last `egg=`, trimmed.
pub open spec fn git_name(l: Seq<char>) -> Seq<char> {
    match rfind(l, egg()) {
        Some(k) => trim(l.subrange(k + 4, l.len() as int)),
        None => trim(l),
    }
}

/// `pos` is `Some(p)` exactly when `spec_pos` is `Some(p)`.
pub open spec fn same_pos(pos: Option<usize>, spec_pos: Option<int>) -> bool {
    match pos {
        Some(p) => spec_pos == Some(p as int),
        None => spec_pos is None,
    }
}

fn first_non_blank_exec(l: &Vec<char>, i: usize) -> (r: Option<usize>)
    ensures
        same_pos(r, first_non_blank_from(l@, i as int)),
{
    let mut k = i;
    while k < l.len()
        invariant
            i <= k,
            first_non_blank_from(l@, i as int) == first_non_blank_from(l@, k as int),
        decreases l.len() - k,
    {
        if !is_ascii_ws_exec(l[k]) {
            return Some(k);
        }
        k = k + 1;
    }
    None
}

fn version_end_exec(l: &Vec<char>, i: usize) -> (r: usize)
    ensures
        r == version_end_from(l@, i as int),
{
    let mut k = i;
    while k < l.len()
        invariant
            i <= k,
            version_end_from(l@, i as int) == version_end_from(l@, k as int),
        decreases l.len() - k,
    {
        let c = l[k];
        if is_ascii_ws_exec(c) || c == '\\' || c == '#' {
            return k;
        }
        k = k + 1;
    }
    l.len()
}

proof fn lemma_version_end_bounds(l: Seq<char>, i: int)
    requires
        0 <= i,
    ensures
        i <= version_end_from(l, i) <= l.len() || (i > l.len() && version_end_from(l, i)
            == l.len()),
    decreases l.len() - i,
{
    if i < l.len() && !is_version_end(l[i]) {
        lemma_version_end_bounds(l, i + 1);
    }
}

proof fn lemma_first_non_blank_bounds(l: Seq<char>, i: int)
    ensures
        first_non_blank_from(l, i) matches Some(k) ==> i <= k < l.len() && !is_ascii_ws(l[k]),
    decreases l.len() - i,
{
    if 0 <= i < l.len() && is_ascii_ws(l[i]) {
        lemma_first_non_blank_bounds(l, i + 1);
    }
}

pub(crate) proof fn lemma_find_bounds(s: Seq<char>, p: Seq<char>, i: int)
    ensures
        find_from(s, p, i) matches Some(k) ==> i <= k && k + p.len() <= s.len() && matches_at(
            s,
            p,
            k,
        ),
    decreases s.len() - i,
{
    if 0 <= i && i + p.len() <= s.len() && s.subrange(i, i + p.len()) != p && i < s.len() {
        lemma_find_bounds(s, p, i + 1);
    }
}

proof fn lemma_rfind_bounds(s: Seq<char>, p: Seq<char>, i: int)
    ensures
        rfind_from(s, p, i) matches Some(k) ==> 0 <= k <= i && matches_at(s, p, k),
    decreases i + 1,
{
    if i >= 0 && !matches_at(s, p, i) {
        lemma_rfind_bounds(s, p, i - 1);
    }
}

/// The located version of a simple line, as a range.
fn simple_range_exec(l: &Vec<char>) -> (r: Option<(usize, usize)>)
    ensures
        match r {
            Some((s, e)) => simple_range(l@) == Some((s as int, e as int)) && s < e <= l@.len(),
            None => simple_range(l@) is None,
        },
{
    let n = l.len();
    let eq = vec!['=', '='];
    assert(eq@ =~= eq_eq());
    let e = match find_seq(l, &eq) {
        None => return None,
        Some(e) => e,
    };
    proof {
        lemma_find_bounds(l@, eq_eq(), 0);
        assert(find(l@, eq_eq()) == Some(e as int));
        assert(e + 2 <= l@.len());
    }
    let s = match first_non_blank_exec(l, e + 2) {
        None => return None,
        Some(s) => s,
    };
    proof {
        lemma_first_non_blank_bounds(l@, e + 2);
        lemma_version_end_bounds(l@, s + 1);
        assert(s < l@.len());
    }
    let end = version_end_exec(l, s + 1);
    Some((s, end))
}

/// The location of the characters `s..e` of `line`.
fn version_spec_at(line: &str, l: &Vec<char>, s: usize, e: usize) -> (r: VersionSpec)
    requires
        l@ == line@,
        s <= e <= l@.len(),
    ensures
        r.located_at(line@, s as int, e as int),
        r.locates_in(line@),
{
    let r = VersionSpec {
        start: byte_pos_exec(line, l, s),
        end: byte_pos_exec(line, l, e),
        value: string_of(&slice(l, s, e)),
    };
    proof {
        lemma_located(r, line@, s as int, e as int);
    }
    r
}

/// Locates the version in a line that contains `==`.
pub fn parse_simple_version(line: &str) -> (r: VersionSpec)
    requires
        simple_range(line@) is Some,
    ensures
        simple_range(line@) matches Some((cs, ce)) && r.located_at(line@, cs, ce),
        r.locates_in(line@),
{
    let l = chars_of(line);
    match simple_range_exec(&l) {
        Some((s, e)) => version_spec_at(line, &l, s, e),
        None => {
            assert(false);
            VersionSpec { start: 0, end: 0, value: string_of(&Vec::new()) }
        },
    }
}

/// The located reference of a source-reference line, as a range.
fn git_range_exec(l: &Vec<char>) -> (r: Option<(usize, usize)>)
    ensures
        match r {
            Some((s, e)) => git_range(l@) == Some((s as int, e as int)) && s <= e <= l@.len(),
            None => git_range(l@) is None,
        },
{
    let n = l.len();
    let at = vec!['@'];
    assert(at@ =~= seq!['@']);
    let a = match rfind_seq(l, &at) {
        None => return None,
        Some(a) => a,
    };
    proof {
        lemma_rfind_bounds(l@, seq!['@'], l@.len() - 1);
    }
    let after = slice(l, a + 1, n);
    let hash = vec!['#'];
    assert(hash@ =~= seq!['#']);
    let h = match find_seq(&after, &hash) {
        None => return None,
        Some(h) => h,
    };
    proof {
        lemma_find_bounds(after@, seq!['#'], 0);
    }
    let tail = slice(&after, h + 1, after.len());
    let egg_v = vec!['e', 'g', 'g', '='];
    assert(egg_v@ =~= egg());
    if find_seq(&tail, &hash).is_none() && matches_at_exec(&tail, &egg_v, 0) {
        Some((a + 1, a + 1 + h))
    } else {
        None
    }
}

/// The name of a simple line: what precedes the first `==`, trimmed.
pub fn parse_simple_name(line: &str) -> (r: String)
    ensures
        r@ == simple_name(line@),
{
    let l = chars_of(line);
    let eq = vec!['=', '='];
    assert(eq@ =~= eq_eq());
    match find_seq(&l, &eq) {
        Some(e) => {
            proof {
                lemma_find_bounds(l@, eq_eq(), 0);
            }
            string_of(&trim_exec(&slice(&l, 0, e)))
        },
        None => string_of(&trim_exec(&l)),
    }
}

/// The name of a source-reference line: what follows the last `egg=`, trimmed.
pub fn parse_git_name(line: &str) -> (r: String)
    ensures
        r@ == git_name(line@),
{
    let l = chars_of(line);
    let n = l.len();
    let egg_v = vec!['e', 'g', 'g', '='];
    assert(egg_v@ =~= egg());
    match rfind_seq(&l, &egg_v) {
        Some(k) => {
            proof {
                lemma_rfind_bounds(l@, egg(), l@.len() - 4);
            }
            string_of(&trim_exec(&slice(&l, k + 4, l.len())))
        },
        None => string_of(&trim_exec(&l)),
    }
}

/// What follows the last `@` of `l`: all of `l` when it has none.
pub open spec fn after_at(l: Seq<char>) -> Seq<char> {
    match rfind(l, seq!['@']) {
        Some(a) => l.subrange(a + 1, l.len() as int),
        None => l,
    }
}

/// Why a source-reference line has no reference: it quotes what follows
/// the last `@`.
pub open spec fn reason_bad_ref(l: Seq<char>) -> Seq<char> {
    "expecting `<ref>#egg=<name>` after `@`, got '"@ + trim_end(after_at(l)) + "'"@
}

/// Why a simple line has no version: it quotes the line.
pub open spec fn reason_no_version(l: Seq<char>) -> Seq<char> {
    "expecting a version after `==` in line `"@ + trim_end(l) + "`"@
}

/// Why a line is neither kind of entry: it quotes the line.
pub open spec fn reason_neither(l: Seq<char>) -> Seq<char> {
    "Could not parse line `"@ + trim_end(l) + "` as either a simple or a git dependency"@
}

/// `prefix`, then `quoted` without trailing whitespace, then `suffix`.
fn quoting(prefix: &str, quoted: &Vec<char>, suffix: &str) -> (r: String)
    ensures
        r@ == prefix@ + trim_end(quoted@) + suffix@,
{
    let mut res = chars_of(prefix);
    append(&mut res, &trim_end_exec(quoted));
    append(&mut res, &chars_of(suffix));
    string_of(&res)
}

fn after_at_exec(l: &Vec<char>) -> (r: Vec<char>)
    ensures
        r@ == after_at(l@),
{
    let n = l.len();
    let at = vec!['@'];
    assert(at@ =~= seq!['@']);
    match rfind_seq(l, &at) {
        Some(a) => {
            proof {
                lemma_rfind_bounds(l@, seq!['@'], l@.len() - 1);
            }
            slice(l, a + 1, n)
        },
        None => slice(l, 0, n),
    }
}

/// The error reported for a malformed lock line.
pub open spec fn malformed(r: Error, line: int, details: Seq<char>) -> bool {
    r matches Error::MalformedLock { line: n, details: d } && n == line && d@ == details
}

/// Locates the reference in a source-reference line.
pub fn parse_git_ref(line: &str) -> (r: Result<VersionSpec, Error>)
    ensures
        match r {
            Ok(v) => git_range(line@) matches Some((cs, ce)) && v.located_at(line@, cs, ce)
                && v.locates_in(line@),
            Err(e) => git_range(line@) is None && malformed(e, 1, reason_bad_ref(line@)),
        },
{
    let l = chars_of(line);
    match git_range_exec(&l) {
        Some((s, e)) => Ok(version_spec_at(line, &l, s, e)),
        None => {
            assert(l@.subrange(0, l@.len() as int) =~= l@);
            Err(
                Error::MalformedLock {
                    line: 1,
                    details: quoting("expecting `<ref>#egg=<name>` after `@`, got '", &after_at_exec(&l), "'"),
                },
            )
        },
    }
}

/// `d` is the entry that a simple line `l` describes.
pub open spec fn simple_parsed_from(d: SimpleDependency, l: Seq<char>) -> bool {
    &&& d.line@ == l
    &&& d.name@ == simple_name(l)
    &&& simple_range(l) matches Some((cs, ce)) && d.version.located_at(l, cs, ce)
    &&& d.version.locates_in(l)
}

/// `d` is the entry that a source-reference line `l` describes.
pub open spec fn git_parsed_from(d: GitDependency, l: Seq<char>) -> bool {
    &&& d.line@ == l
    &&& d.name@ == git_name(l)
    &&& git_range(l) matches Some((cs, ce)) && d.git_ref.located_at(l, cs, ce)
    &&& d.git_ref.locates_in(l)
}

/// A simple entry read from `line`.
pub fn parse_simple_line(line: &str) -> (r: Result<SimpleDependency, Error>)
    ensures
        match r {
            Ok(d) => simple_parsed_from(d, line@),
            Err(e) => simple_range(line@) is None && malformed(e, 1, reason_no_version(line@)),
        },
{
    let l = chars_of(line);
    match simple_range_exec(&l) {
        Some((s, e)) => Ok(
            SimpleDependency {
                name: parse_simple_name(line),
                line: string_of(&l),
                version: version_spec_at(line, &l, s, e),
            },
        ),
        None => Err(
            Error::MalformedLock {
                line: 1,
                details: quoting("expecting a version after `==` in line `", &l, "`"),
            },
        ),
    }
}

/// A source-reference entry read from `line`.
pub fn parse_git_line(line: &str) -> (r: Result<GitDependency, Error>)
    ensures
        match r {
            Ok(d) => git_parsed_from(d, line@),
            Err(e) => git_range(line@) is None && malformed(e, 1, reason_bad_ref(line@)),
        },
{
    let git_ref = parse_git_ref(line)?;
    Ok(GitDependency { name: parse_git_name(line), line: string_of(&chars_of(line)), git_ref })
}

pub open spec fn is_git_line(l: Seq<char>) -> bool {
    contains(l, egg_marker())
}

pub open spec fn is_simple_line(l: Seq<char>) -> bool {
    !is_git_line(l) && contains(l, eq_eq())
}

/// Why a line is not an entry, if it is not.
pub open spec fn line_error(l: Seq<char>) -> Option<Seq<char>> {
    if is_git_line(l) {
        if git_range(l) is Some {
            None
        } else {
            Some(reason_bad_ref(l))
        }
    } else if contains(l, eq_eq()) {
        if simple_range(l) is Some {
            None
        } else {
            Some(reason_no_version(l))
        }
    } else {
        Some(reason_neither(l))
    }
}

/// `d` is the entry that the line `l` describes.
pub open spec fn parsed_from(d: LockedDependency, l: Seq<char>) -> bool {
    match d {
        LockedDependency::Git(g) => is_git_line(l) && git_parsed_from(g, l),
        LockedDependency::Simple(s) => is_simple_line(l) && simple_parsed_from(s, l),
    }
}

/// An entry read from `line`: a source reference if it holds `#egg=`, else a
/// simple entry if it holds `==`.
pub fn parse_line(line: &str) -> (r: Result<LockedDependency, Error>)
    ensures
        match r {
            Ok(d) => line_error(line@) is None && parsed_from(d, line@) && d.wf(),
            Err(e) => line_error(line@) matches Some(why) && malformed(e, 1, why),
        },
{
    let l = chars_of(line);
    let marker = vec!['#', 'e', 'g', 'g', '='];
    assert(marker@ =~= egg_marker());
    if find_seq(&l, &marker).is_some() {
        let git_dep = parse_git_line(line)?;
        return Ok(LockedDependency::Git(git_dep));
    }
    let eq = vec!['=', '='];
    assert(eq@ =~= eq_eq());
    if find_seq(&l, &eq).is_some() {
        let simple_dep = parse_simple_line(line)?;
        return Ok(LockedDependency::Simple(simple_dep));
    }
    Err(
        Error::MalformedLock {
            line: 1,
            details: quoting("Could not parse line `", &l, "` as either a simple or a git dependency"),
        },
    )
}


/// `find` returns a position no later than any occurrence.
pub proof fn find_le_match(s: Seq<char>, p: Seq<char>, m: int)
    requires
        matches_at(s, p, m),
    ensures
        find(s, p) matches Some(e) && e <= m && matches_at(s, p, e),
{
    find_from_le_match(s, p, 0, m);
}

proof fn find_from_le_match(s: Seq<char>, p: Seq<char>, i: int, m: int)
    requires
        0 <= i <= m,
        matches_at(s, p, m),
    ensures
        find_from(s, p, i) matches Some(e) && i <= e <= m && matches_at(s, p, e),
    decreases m - i,
{
    if s.subrange(i, i + p.len()) != p {
        find_from_le_match(s, p, i + 1, m);
    }
}

/// Some non-blank character at or after `i` is found.
pub proof fn first_non_blank_some(l: Seq<char>, i: int, k: int)
    requires
        0 <= i <= k < l.len(),
        !is_ascii_ws(l[k]),
    ensures
        first_non_blank_from(l, i) is Some,
    decreases k - i,
{
    if is_ascii_ws(l[i]) {
        first_non_blank_some(l, i + 1, k);
    }
}

/// The located version of a simple line starts with a non-blank character
/// and holds no newline.
pub proof fn lemma_version_range(l: Seq<char>)
    ensures
        simple_range(l) matches Some((s, e)) ==> 0 <= s < e <= l.len() && l[e - 1] != '\n',
{
    if let Some(eq) = find(l, eq_eq()) {
        lemma_find_bounds(l, eq_eq(), 0);
        if let Some(s) = first_non_blank_from(l, eq + 2) {
            lemma_first_non_blank_bounds(l, eq + 2);
            lemma_version_end_no_nl(l, s + 1);
            lemma_version_end_bounds(l, s + 1);
        }
    }
}

proof fn lemma_version_end_no_nl(l: Seq<char>, i: int)
    requires
        0 <= i,
    ensures
        forall|k: int| i <= k < version_end_from(l, i) && k < l.len() ==> !is_version_end(l[k]),
    decreases l.len() - i,
{
    if i < l.len() && !is_version_end(l[i]) {
        lemma_version_end_no_nl(l, i + 1);
    }
}

} // verus!
