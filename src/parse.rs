//! Manifest parser: from the text of a lock file to its entries.
use vstd::prelude::*;

use crate::dependencies::LockedDependency;
use crate::error::Error;
use crate::locate::{line_error, malformed, parse_line, parsed_from};
use crate::text::{chars_of, string_of, trim_start, trim_start_exec};

verus! {

/// A newline that ends a logical line: one not preceded by a backslash.
pub open spec fn is_boundary(t: Seq<char>, k: int) -> bool {
    0 <= k < t.len() && t[k] == '\n' && (k == 0 || t[k - 1] != '\\')
}

/// The first logical-line end at or after `k`.
pub open spec fn next_boundary(t: Seq<char>, k: int) -> Option<int>
    decreases t.len() - k,
{
    if k < 0 || k >= t.len() {
        None
    } else if is_boundary(t, k) {
        Some(k)
    } else {
        next_boundary(t, k + 1)
    }
}

/// The number of newlines in `s`.
pub open spec fn count_nl(s: Seq<char>) -> nat
    decreases s.len(),
{
    if s.len() == 0 {
        0
    } else {
        count_nl(s.drop_last()) + if s.last() == '\n' {
            1nat
        } else {
            0nat
        }
    }
}

proof fn lemma_next_boundary_bounds(t: Seq<char>, k: int)
    ensures
        next_boundary(t, k) matches Some(b) ==> k <= b < t.len() && is_boundary(t, b),
    decreases t.len() - k,
{
    if 0 <= k < t.len() && !is_boundary(t, k) {
        lemma_next_boundary_bounds(t, k + 1);
    }
}

proof fn lemma_count_nl_le(s: Seq<char>)
    ensures
        count_nl(s) <= s.len(),
    decreases s.len(),
{
    if s.len() > 0 {
        lemma_count_nl_le(s.drop_last());
    }
}

#[via_fn]
proof fn logical_lines_from_decreases(t: Seq<char>, n: int) {
    lemma_next_boundary_bounds(t, 0);
}

/// The logical lines of `t`, each with the number of its first physical line,
/// counting from `n`. A physical line that ends with a backslash is joined
/// with the next one; every logical line ends with a newline.
pub open spec fn logical_lines_from(t: Seq<char>, n: int) -> Seq<(Seq<char>, int)>
    decreases t.len(),
    via logical_lines_from_decreases
{
    match next_boundary(t, 0) {
        Some(b) => {
            let l = t.subrange(0, b + 1);
            seq![(l, n)] + logical_lines_from(t.subrange(b + 1, t.len() as int), n + count_nl(l))
        },
        None => if t.len() == 0 {
            seq![]
        } else if t.last() == '\n' {
            seq![(t, n)]
        } else {
            seq![(t.push('\n'), n)]
        },
    }
}

pub open spec fn logical_lines(t: Seq<char>) -> Seq<(Seq<char>, int)> {
    logical_lines_from(t, 1)
}

/// Boundaries of a suffix that starts a logical line are those of the text.
proof fn lemma_boundary_shift(t: Seq<char>, c: int, k: int)
    requires
        0 <= c <= t.len(),
        c == 0 || t[c - 1] == '\n',
        0 <= k < t.len() - c,
    ensures
        is_boundary(t.subrange(c, t.len() as int), k) == is_boundary(t, c + k),
{
}

pub proof fn lemma_next_boundary_is(u: Seq<char>, j: int, b: int)
    requires
        0 <= j <= b < u.len(),
        is_boundary(u, b),
        forall|k: int| j <= k < b ==> !is_boundary(u, k),
    ensures
        next_boundary(u, j) == Some(b),
    decreases b - j,
{
    if j < b {
        lemma_next_boundary_is(u, j + 1, b);
    }
}

proof fn lemma_next_boundary_none(u: Seq<char>, j: int)
    requires
        0 <= j,
        forall|k: int| j <= k < u.len() ==> !is_boundary(u, k),
    ensures
        next_boundary(u, j) is None,
    decreases u.len() - j,
{
    if j < u.len() {
        lemma_next_boundary_none(u, j + 1);
    }
}

pub open spec fn pairs_view(ls: Seq<Vec<char>>, ns: Seq<usize>) -> Seq<(Seq<char>, int)> {
    Seq::new(ls.len(), |j: int| (ls[j]@, ns[j] as int))
}

/// The logical lines of `t` and their numbers.
fn split_numbered(t: &Vec<char>) -> (r: (Vec<Vec<char>>, Vec<usize>))
    ensures
        r.0.len() == r.1.len(),
        pairs_view(r.0@, r.1@) == logical_lines(t@),
{
    let mut lines: Vec<Vec<char>> = Vec::new();
    let mut numbers: Vec<usize> = Vec::new();
    let mut current: Vec<char> = Vec::new();
    let mut number: usize = 1;
    let mut nl_cur: usize = 0;
    let mut c: usize = 0;
    let mut i: usize = 0;
    assert(t@.subrange(0, t@.len() as int) =~= t@);
    while i < t.len()
        invariant
            c <= i <= t.len(),
            c == 0 || t@[c - 1] == '\n',
            current@ == t@.subrange(c as int, i as int),
            forall|k: int| c <= k < i ==> !is_boundary(t@, k),
            nl_cur == count_nl(t@.subrange(c as int, i as int)),
            number <= c + 1,
            nl_cur <= i - c,
            number >= 1,
            lines.len() == numbers.len(),
            pairs_view(lines@, numbers@) + logical_lines_from(
                t@.subrange(c as int, t@.len() as int),
                number as int,
            ) == logical_lines(t@),
        decreases t.len() - i,
    {
        let ch = t[i];
        current.push(ch);
        assert(t@.subrange(c as int, i + 1) =~= t@.subrange(c as int, i as int).push(ch));
        assert(t@.subrange(c as int, i + 1).drop_last() =~= t@.subrange(c as int, i as int));
        if ch == '\n' {
            nl_cur = nl_cur + 1;
        }
        if ch == '\n' && (i == 0 || t[i - 1] != '\\') {
            let ghost u = t@.subrange(c as int, t@.len() as int);
            let ghost old_pairs = pairs_view(lines@, numbers@);
            proof {
                assert forall|k: int| 0 <= k < i - c implies !is_boundary(u, k) by {
                    lemma_boundary_shift(t@, c as int, k);
                }
                lemma_boundary_shift(t@, c as int, i - c);
                lemma_next_boundary_is(u, 0, i - c);
                assert(u.subrange(0, i - c + 1) =~= t@.subrange(c as int, i + 1));
                assert(u.subrange(i - c + 1, u.len() as int) =~= t@.subrange(
                    i + 1,
                    t@.len() as int,
                ));
            }
            lines.push(current);
            numbers.push(number);
            proof {
                assert(pairs_view(lines@, numbers@) =~= old_pairs.push(
                    (t@.subrange(c as int, i + 1), number as int),
                ));
            }
            proof {
                lemma_count_nl_le(t@.subrange(c as int, i + 1));
                let e = t@.subrange(i + 1, t@.len() as int);
                if i + 1 == t.len() {
                    assert(e.len() == 0);
                    assert(next_boundary(e, 0) is None);
                    assert(logical_lines_from(e, number + nl_cur) =~= logical_lines_from(
                        e,
                        number as int,
                    ));
                }
            }
            if i + 1 < t.len() {
                number = number + nl_cur;
            }
            nl_cur = 0;
            current = Vec::new();
            c = i + 1;
            assert(t@.subrange(c as int, c as int) =~= Seq::<char>::empty());
        }
        i = i + 1;
    }
    let ghost u = t@.subrange(c as int, t@.len() as int);
    proof {
        assert forall|k: int| 0 <= k < u.len() implies !is_boundary(u, k) by {
            lemma_boundary_shift(t@, c as int, k);
        }
        lemma_next_boundary_none(u, 0);
        assert(u =~= current@);
    }
    if current.len() > 0 {
        let ghost old_pairs = pairs_view(lines@, numbers@);
        if current[current.len() - 1] != '\n' {
            current.push('\n');
        }
        lines.push(current);
        numbers.push(number);
        assert(pairs_view(lines@, numbers@) =~= old_pairs + logical_lines_from(u, number as int));
    } else {
        assert(pairs_view(lines@, numbers@) + logical_lines_from(u, number as int) =~= pairs_view(
            lines@,
            numbers@,
        ));
    }
    (lines, numbers)
}

/// Splits `text` into logical lines: a physical line that ends with a
/// backslash is joined with the next one, and every line ends with a newline.
pub fn split_logical_lines(text: &str) -> (r: Vec<String>)
    ensures
        r.len() == logical_lines(text@).len(),
        forall|j: int| 0 <= j < r.len() ==> #[trigger] r[j]@ == logical_lines(text@)[j].0,
{
    let t = chars_of(text);
    let (lines, numbers) = split_numbered(&t);
    let mut res: Vec<String> = Vec::new();
    let mut j: usize = 0;
    while j < lines.len()
        invariant
            j <= lines.len(),
            lines.len() == numbers.len(),
            pairs_view(lines@, numbers@) == logical_lines(t@),
            res.len() == j,
            forall|k: int| 0 <= k < j ==> #[trigger] res[k]@ == logical_lines(t@)[k].0,
        decreases lines.len() - j,
    {
        res.push(string_of(&lines[j]));
        j = j + 1;
    }
    res
}


/// A blank line, or one whose first non-whitespace character is `#`.
pub open spec fn is_skipped(l: Seq<char>) -> bool {
    let u = trim_start(l);
    u.len() == 0 || u[0] == '#'
}

/// A logical line that ends with a backslash: the last line of a text that
/// ends with a line continuation, which nothing follows to join.
pub open spec fn is_dangling(l: Seq<char>) -> bool {
    l.len() >= 2 && l.last() == '\n' && l[l.len() - 2] == '\\'
}

/// The lines of the entries that the numbered logical lines `ls` hold, or
/// the number and the reason of the first line that is malformed.
pub open spec fn parse_lines(ls: Seq<(Seq<char>, int)>) -> Result<
    Seq<Seq<char>>,
    (int, Seq<char>),
>
    decreases ls.len(),
{
    if ls.len() == 0 {
        Ok(seq![])
    } else {
        match parse_lines(ls.drop_last()) {
            Err(e) => Err(e),
            Ok(v) => {
                let (l, n) = ls.last();
                if is_skipped(l) {
                    Ok(v)
                } else {
                    match line_error(l) {
                        Some(why) => Err((n, why)),
                        None => Ok(v.push(l)),
                    }
                }
            },
        }
    }
}

/// The lines of the entries of the lock text `t`, or the number and the
/// reason of its first malformed line.
pub open spec fn parse_text(t: Seq<char>) -> Result<Seq<Seq<char>>, (int, Seq<char>)> {
    parse_lines(logical_lines(t))
}

/// `deps` are the entries whose lines are `v`, in order.
pub open spec fn entries_of(deps: Seq<LockedDependency>, v: Seq<Seq<char>>) -> bool {
    &&& deps.len() == v.len()
    &&& forall|i: int| 0 <= i < v.len() ==> parsed_from(#[trigger] deps[i], v[i]) && deps[i].wf()
}

/// Once a prefix fails, the whole sequence fails the same way.
proof fn lemma_parse_lines_err(ls: Seq<(Seq<char>, int)>, k: int)
    requires
        0 <= k <= ls.len(),
        parse_lines(ls.subrange(0, k)) is Err,
    ensures
        parse_lines(ls) == parse_lines(ls.subrange(0, k)),
    decreases ls.len() - k,
{
    if k < ls.len() {
        assert(ls.subrange(0, k + 1).drop_last() =~= ls.subrange(0, k));
        lemma_parse_lines_err(ls, k + 1);
    } else {
        assert(ls.subrange(0, k) =~= ls);
    }
}

fn is_skipped_exec(l: &Vec<char>) -> (r: bool)
    ensures
        r == is_skipped(l@),
{
    let u = trim_start_exec(l);
    u.len() == 0 || u[0] == '#'
}

/// Reads the entries of a lock: comments and blank lines are skipped, and a
/// malformed line fails the whole text with its line number.
pub fn parse(text: &str) -> (r: Result<Vec<LockedDependency>, Error>)
    ensures
        match parse_text(text@) {
            Ok(v) => r matches Ok(deps) && entries_of(deps@, v),
            Err((n, why)) => r matches Err(e) && malformed(e, n, why),
        },
{
    let t = chars_of(text);
    let (lines, numbers) = split_numbered(&t);
    let ghost ls = logical_lines(t@);
    let mut res: Vec<LockedDependency> = Vec::new();
    let mut j: usize = 0;
    while j < lines.len()
        invariant
            j <= lines.len(),
            lines.len() == numbers.len(),
            pairs_view(lines@, numbers@) == ls,
            ls == logical_lines(text@),
            parse_lines(ls.subrange(0, j as int)) matches Ok(v) && entries_of(res@, v),
        decreases lines.len() - j,
    {
        let ghost prev = ls.subrange(0, j as int);
        assert(ls.subrange(0, j + 1).drop_last() =~= prev);
        assert(ls[j as int] == (lines[j as int]@, numbers[j as int] as int));
        let line = &lines[j];
        if !is_skipped_exec(line) {
            match parse_line(&string_of(line)) {
                Ok(dep) => {
                    res.push(dep);
                    proof {
                        let v = parse_lines(prev)->Ok_0;
                        assert(res@ =~= res@.drop_last().push(dep));
                        assert(entries_of(res@, v.push(line@)));
                    }
                },
                Err(e) => {
                    let details = match e {
                        Error::MalformedLock { details, .. } => details,
                        _ => {
                            assert(false);
                            "".to_string()
                        },
                    };
                    proof {
                        lemma_parse_lines_err(ls, j + 1);
                    }
                    return Err(Error::MalformedLock { line: numbers[j], details });
                },
            }
        }
        j = j + 1;
    }
    assert(ls.subrange(0, lines.len() as int) =~= ls);
    Ok(res)
}

} // verus!
