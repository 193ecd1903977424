//! Laws of the lock engine that relate several operations.
use vstd::prelude::*;

use crate::bump::{bumped, count_named, lemma_count_pos, lemma_count_prefix, BumpType};
use crate::dependencies::{frozen_line, splice, FrozenDependency, LockedDependency};
use crate::dump::{
    dump_text, insert_pos_from, insert_sorted, key_lt, keyed, lex_lt, lines_of, sort_keyed,
    sort_lines, terminated, unkeyed, Keyed,
};
use crate::error::Error;
use crate::locate::{
    eq_eq, find_le_match, first_non_blank_from, is_version_end, line_error, simple_name,
    simple_range, version_end_from,
};
use crate::parse::{
    count_nl, is_boundary, is_dangling, is_skipped, lemma_next_boundary_is, logical_lines,
    logical_lines_from, next_boundary, parse_lines, parse_text,
};
use crate::text::{find, trim, trim_start};
use crate::update::{
    added, added_line, first_frozen_from, is_known, lemma_missing_unknown, missing, patched,
    reconciled,
};

verus! {

// ---- Logical lines ----------------------------------------------------------

/// The shape of every logical line: it ends with a newline, and no newline
/// inside it ends a logical line.
pub open spec fn is_line_shape(l: Seq<char>) -> bool {
    &&& l.len() > 0
    &&& l.last() == '\n'
    &&& forall|k: int| 0 <= k < l.len() - 1 ==> !is_boundary(l, k)
}

/// A complete logical line: its final newline ends it, as no backslash
/// precedes that newline.
pub open spec fn is_logical_line(l: Seq<char>) -> bool {
    is_line_shape(l) && is_boundary(l, l.len() - 1)
}

/// A line that parses back to an entry by itself.
pub open spec fn is_entry_line(l: Seq<char>) -> bool {
    is_line_shape(l) && !is_skipped(l) && line_error(l) is None
}

proof fn lemma_next_boundary_first(t: Seq<char>, j: int)
    requires
        0 <= j,
    ensures
        match next_boundary(t, j) {
            Some(b) => j <= b < t.len() && is_boundary(t, b) && forall|k: int|
                j <= k < b ==> !is_boundary(t, k),
            None => forall|k: int| j <= k < t.len() ==> !is_boundary(t, k),
        },
    decreases t.len() - j,
{
    if j < t.len() && !is_boundary(t, j) {
        lemma_next_boundary_first(t, j + 1);
    }
}

/// Every logical line ends with a newline, and no boundary is inside it.
proof fn lemma_logical_shape(t: Seq<char>, n: int)
    ensures
        forall|i: int|
            0 <= i < logical_lines_from(t, n).len() ==> {
                let l = (#[trigger] logical_lines_from(t, n)[i]).0;
                &&& l.len() > 0
                &&& l.last() == '\n'
                &&& forall|k: int| 0 <= k < l.len() - 1 ==> !is_boundary(l, k)
            },
    decreases t.len(),
{
    lemma_next_boundary_first(t, 0);
    match next_boundary(t, 0) {
        Some(b) => {
            let l = t.subrange(0, b + 1);
            let rest = t.subrange(b + 1, t.len() as int);
            let n2 = n + count_nl(l);
            lemma_logical_shape(rest, n2);
            assert forall|k: int| 0 <= k < l.len() - 1 implies !is_boundary(l, k) by {
                assert(is_boundary(l, k) == is_boundary(t, k));
            }
            let ls = logical_lines_from(t, n);
            assert(ls == seq![(l, n)] + logical_lines_from(rest, n2));
            assert forall|i: int| 0 < i < ls.len() implies (#[trigger] ls[i]) == logical_lines_from(
                rest,
                n2,
            )[i - 1] by {}
        },
        None => {
            if t.len() > 0 {
                let l = if t.last() == '\n' {
                    t
                } else {
                    t.push('\n')
                };
                assert forall|k: int| 0 <= k < l.len() - 1 implies !is_boundary(l, k) by {
                    assert(is_boundary(l, k) == is_boundary(t, k));
                }
            }
        },
    }
}

pub open spec fn firsts(ls: Seq<(Seq<char>, int)>) -> Seq<Seq<char>> {
    Seq::new(ls.len(), |i: int| ls[i].0)
}

/// The lines of a successful parse are entry lines.
proof fn lemma_parse_lines_entry(ls: Seq<(Seq<char>, int)>)
    requires
        forall|i: int|
            0 <= i < ls.len() ==> {
                let l = (#[trigger] ls[i]).0;
                &&& l.len() > 0
                &&& l.last() == '\n'
                &&& forall|k: int| 0 <= k < l.len() - 1 ==> !is_boundary(l, k)
            },
    ensures
        parse_lines(ls) matches Ok(v) ==> forall|i: int| 0 <= i < v.len() ==> is_entry_line(#[trigger] v[i]),
    decreases ls.len(),
{
    if ls.len() > 0 {
        lemma_parse_lines_entry(ls.drop_last());
        let l = ls.last().0;
        assert(ls[ls.len() - 1] == ls.last());
        if !is_skipped(l) && line_error(l) is None {
            assert(is_line_shape(l));
        }
    }
}

/// The text made of complete logical lines, the last of which may end with
/// a backslash, splits back into them.
proof fn lemma_split_flatten(w: Seq<Seq<char>>, n: int)
    requires
        forall|i: int| 0 <= i < w.len() ==> is_line_shape(#[trigger] w[i]),
        forall|i: int| 0 <= i < w.len() - 1 ==> is_logical_line(#[trigger] w[i]),
    ensures
        firsts(logical_lines_from(w.flatten(), n)) == w,
    decreases w.len(),
{
    if w.len() == 0 {
        assert(next_boundary(w.flatten(), 0) is None);
        assert(firsts(logical_lines_from(w.flatten(), n)) =~= w);
    } else if !is_logical_line(w[0]) {
        let w0 = w[0];
        assert(w.len() == 1);
        assert(w.drop_first().flatten() =~= Seq::<char>::empty());
        assert(w.flatten() =~= w0);
        assert(is_line_shape(w0));
        lemma_next_boundary_first(w0, 0);
        assert(next_boundary(w0, 0) is None);
        let ls = logical_lines_from(w0, n);
        assert(ls == seq![(w0, n)]);
        assert(firsts(ls) =~= w);
    } else {
        let w0 = w[0];
        let rest = w.drop_first();
        let t = w.flatten();
        assert(t == w0 + rest.flatten());
        let b = w0.len() - 1;
        assert(is_logical_line(w0));
        assert forall|k: int| 0 <= k <= b implies is_boundary(t, k) == is_boundary(w0, k) by {
            assert(t[k] == w0[k]);
            if k > 0 {
                assert(t[k - 1] == w0[k - 1]);
            }
        }
        lemma_next_boundary_is(t, 0, b);
        assert(t.subrange(0, b + 1) =~= w0);
        assert(t.subrange(b + 1, t.len() as int) =~= rest.flatten());
        assert forall|i: int| 0 <= i < rest.len() implies is_line_shape(#[trigger] rest[i]) by {
            assert(rest[i] == w[i + 1]);
        }
        assert forall|i: int| 0 <= i < rest.len() - 1 implies is_logical_line(#[trigger] rest[i]) by {
            assert(rest[i] == w[i + 1]);
        }
        let n2 = n + count_nl(w0);
        lemma_split_flatten(rest, n2);
        let ls = logical_lines_from(t, n);
        let rs = logical_lines_from(rest.flatten(), n2);
        assert(ls == seq![(w0, n)] + rs);
        assert forall|i: int| 0 <= i < w.len() implies #[trigger] firsts(ls)[i] == w[i] by {
            if i > 0 {
                assert(ls[i] == rs[i - 1]);
                assert(firsts(rs)[i - 1] == rest[i - 1]);
            }
        }
        assert(firsts(ls) =~= w);
    }
}

/// Entry lines parse back to themselves.
proof fn lemma_parse_lines_all_entries(ls: Seq<(Seq<char>, int)>)
    requires
        forall|i: int| 0 <= i < ls.len() ==> is_entry_line((#[trigger] ls[i]).0),
    ensures
        parse_lines(ls) == Ok::<Seq<Seq<char>>, (int, Seq<char>)>(firsts(ls)),
    decreases ls.len(),
{
    if ls.len() > 0 {
        lemma_parse_lines_all_entries(ls.drop_last());
        assert(ls[ls.len() - 1] == ls.last());
        let l = ls.last().0;
        assert(firsts(ls.drop_last()).push(l) =~= firsts(ls));
    } else {
        assert(firsts(ls) =~= seq![]);
    }
}

// ---- Sorting ---------------------------------------------------------------

proof fn lemma_lex_trans(a: Seq<char>, b: Seq<char>, c: Seq<char>)
    requires
        lex_lt(a, b),
        lex_lt(b, c),
    ensures
        lex_lt(a, c),
    decreases a.len(),
{
    if a.len() > 0 && a[0] == b[0] && b[0] == c[0] {
        lemma_lex_trans(a.drop_first(), b.drop_first(), c.drop_first());
    }
}

proof fn lemma_lex_irrefl(a: Seq<char>)
    ensures
        !lex_lt(a, a),
    decreases a.len(),
{
    if a.len() > 0 {
        lemma_lex_irrefl(a.drop_first());
    }
}

pub open spec fn sorted(s: Seq<Keyed>) -> bool {
    forall|i: int, j: int| 0 <= i < j < s.len() ==> !key_lt(#[trigger] s[j], #[trigger] s[i])
}

proof fn lemma_insert_pos(s: Seq<Keyed>, x: Keyed, i: int)
    requires
        0 <= i <= s.len(),
    ensures
        i <= insert_pos_from(s, x, i) <= s.len(),
        forall|k: int| i <= k < insert_pos_from(s, x, i) ==> !key_lt(x, #[trigger] s[k]),
        insert_pos_from(s, x, i) < s.len() ==> key_lt(x, s[insert_pos_from(s, x, i)]),
    decreases s.len() - i,
{
    if i < s.len() && !key_lt(x, s[i]) {
        lemma_insert_pos(s, x, i + 1);
    }
}

proof fn lemma_insert_sorted(s: Seq<Keyed>, x: Keyed)
    requires
        sorted(s),
    ensures
        sorted(insert_sorted(s, x)),
        insert_sorted(s, x).len() == s.len() + 1,
        forall|k: int|
            0 <= k < insert_sorted(s, x).len() ==> #[trigger] insert_sorted(s, x)[k] == x || exists|m: int|
                0 <= m < s.len() && insert_sorted(s, x)[k] == s[m],
{
    lemma_insert_pos(s, x, 0);
    let p = insert_pos_from(s, x, 0);
    let r = s.insert(p, x);
    assert forall|i: int, j: int|
            0 <= i < j < r.len() implies !key_lt(#[trigger] r[j], #[trigger] r[i]) by {
        if j < p {
            assert(r[i] == s[i] && r[j] == s[j]);
        } else if j == p {
            assert(r[i] == s[i]);
        } else if i < p {
            assert(r[i] == s[i] && r[j] == s[j - 1]);
        } else if i == p {
            assert(r[j] == s[j - 1]);
            if key_lt(s[j - 1], x) {
                lemma_lex_trans(s[j - 1].1, x.1, s[p].1);
                if j - 1 > p {
                    assert(!key_lt(s[j - 1], s[p]));
                } else {
                    lemma_lex_irrefl(s[p].1);
                }
            }
        } else {
            assert(r[i] == s[i - 1] && r[j] == s[j - 1]);
        }
    }
    assert forall|k: int| 0 <= k < r.len() implies #[trigger] r[k] == x || exists|m: int|
        0 <= m < s.len() && r[k] == s[m] by {
        if k < p {
            assert(r[k] == s[k]);
        } else if k > p {
            assert(r[k] == s[k - 1]);
        }
    }
}

/// Sorting keeps the length, gives a sorted sequence, and every line of it
/// comes from the input.
proof fn lemma_sort_keyed(s: Seq<Keyed>)
    ensures
        sort_keyed(s).len() == s.len(),
        sorted(sort_keyed(s)),
        forall|k: int|
            0 <= k < s.len() ==> exists|m: int| 0 <= m < s.len() && #[trigger] sort_keyed(s)[k] == s[m],
    decreases s.len(),
{
    if s.len() > 0 {
        let d = s.drop_last();
        lemma_sort_keyed(d);
        lemma_insert_sorted(sort_keyed(d), s.last());
        assert forall|k: int| 0 <= k < s.len() implies exists|m: int|
            0 <= m < s.len() && #[trigger] sort_keyed(s)[k] == s[m] by {
            if sort_keyed(s)[k] == s.last() {
                assert(sort_keyed(s)[k] == s[s.len() - 1]);
            } else {
                let m1 = choose|m1: int|
                    0 <= m1 < d.len() && sort_keyed(s)[k] == sort_keyed(d)[m1];
                let m2 = choose|m2: int| 0 <= m2 < d.len() && sort_keyed(d)[m1] == d[m2];
                assert(sort_keyed(s)[k] == s[m2]);
            }
        }
    }
}

/// Sorting a sorted sequence leaves it as it is.
proof fn lemma_sort_sorted(s: Seq<Keyed>)
    requires
        sorted(s),
    ensures
        sort_keyed(s) == s,
    decreases s.len(),
{
    if s.len() > 0 {
        let d = s.drop_last();
        assert(sorted(d)) by {
            assert forall|i: int, j: int|
            0 <= i < j < d.len() implies !key_lt(#[trigger] d[j], #[trigger] d[i]) by {
                assert(d[i] == s[i] && d[j] == s[j]);
            }
        }
        lemma_sort_sorted(d);
        lemma_insert_pos(d, s.last(), 0);
        let p = insert_pos_from(d, s.last(), 0);
        if p < d.len() {
            assert(key_lt(s.last(), d[p]));
            assert(s[s.len() - 1] == s.last() && d[p] == s[p]);
        }
        assert(insert_sorted(d, s.last()) =~= s);
    }
}

// ---- The laws ----------------------------------------------------------------

/// Writing a lock normalizes it once and for all: the text that `dump` writes
/// for the entries that `parse` reads from a text parses again, and `dump`
/// writes the same text for the new entries. This needs that only the last
/// of the sorted lines may end with a line continuation, as any other one
/// would be joined with the line after it.
pub proof fn dump_parse_round_trip(t: Seq<char>)
    requires
        parse_text(t) is Ok,
        forall|i: int|
            0 <= i < sort_lines(parse_text(t)->Ok_0).len() - 1 ==> !is_dangling(
                #[trigger] sort_lines(parse_text(t)->Ok_0)[i],
            ),
    ensures
        parse_text(dump_text(parse_text(t)->Ok_0)) matches Ok(v2) && dump_text(v2) == dump_text(
            parse_text(t)->Ok_0,
        ),
{
    let v = parse_text(t)->Ok_0;
    lemma_logical_shape(t, 1);
    lemma_parse_lines_entry(logical_lines(t));
    let kv = keyed(v);
    lemma_sort_keyed(kv);
    let sk = sort_keyed(kv);
    let w = sort_lines(v);
    assert(w == unkeyed(sk));
    assert forall|i: int| 0 <= i < w.len() implies is_entry_line(#[trigger] w[i]) by {
        let m = choose|m: int| 0 <= m < kv.len() && sk[i] == kv[m];
        assert(w[i] == sk[i].0);
    }
    assert(keyed(w) =~= sk) by {
        assert forall|i: int| 0 <= i < w.len() implies #[trigger] keyed(w)[i] == sk[i] by {
            let m = choose|m: int| 0 <= m < kv.len() && sk[i] == kv[m];
        }
    }
    lemma_sort_sorted(sk);
    assert(sort_lines(w) =~= w);
    assert forall|i: int| 0 <= i < w.len() - 1 implies is_logical_line(#[trigger] w[i]) by {
        assert(is_entry_line(w[i]));
        assert(!is_dangling(w[i]));
    }
    if w.len() == 0 {
        let nl = seq!['\n'];
        assert(dump_text(v) =~= nl);
        assert(is_boundary(nl, 0));
        lemma_next_boundary_is(nl, 0, 0);
        assert(nl.subrange(0, 1) =~= nl);
        assert(nl.subrange(1, 1) =~= Seq::<char>::empty());
        assert(next_boundary(Seq::<char>::empty(), 0) is None);
        assert(logical_lines_from(Seq::<char>::empty(), 1int + count_nl(nl)) =~= seq![]);
        assert(logical_lines(nl) == seq![(nl, 1int)] + logical_lines_from(
            Seq::<char>::empty(),
            1int + count_nl(nl),
        ));
        assert(logical_lines(nl) =~= seq![(nl, 1int)]);
        assert(trim_start(nl.drop_first()) == nl.drop_first());
        assert(is_skipped(nl));
        assert(logical_lines(nl).drop_last() =~= seq![]);
        assert(logical_lines(nl).last() == (nl, 1int));
        assert(parse_lines(logical_lines(nl).drop_last()) == Ok::<Seq<Seq<char>>, (int, Seq<char>)>(
            seq![],
        ));
        assert(parse_text(nl) == Ok::<Seq<Seq<char>>, (int, Seq<char>)>(seq![]));
    } else {
        assert(w.map_values(|l: Seq<char>| terminated(l)) =~= w) by {
            assert forall|i: int| 0 <= i < w.len() implies #[trigger] terminated(w[i]) == w[i] by {
                assert(is_entry_line(w[i]));
            }
        }
        let f = w.flatten();
        assert(dump_text(v) == f);
        lemma_split_flatten(w, 1);
        let ls = logical_lines(f);
        assert forall|i: int| 0 <= i < ls.len() implies is_entry_line((#[trigger] ls[i]).0) by {
            assert(firsts(ls)[i] == w[i]);
        }
        lemma_parse_lines_all_entries(ls);
        assert(parse_text(f) == Ok::<Seq<Seq<char>>, (int, Seq<char>)>(w));
        assert(firsts(ls).len() == w.len());
        assert(dump_text(w) == f);
    }
}

/// Bumping the only entry named `name` to the value it already holds
/// reports no change and leaves the entries, hence the written lock, as they
/// were.
pub proof fn bump_to_current_value_is_noop(
    old: Seq<LockedDependency>,
    new: Seq<LockedDependency>,
    name: Seq<char>,
    kind: BumpType,
    r: Result<bool, Error>,
    i: int,
)
    requires
        0 <= i < old.len(),
        old[i].spec_name() == name,
        count_named(old, name) == 1,
        bumped(old, new, name, old[i].spec_value(), kind, r),
    ensures
        r == Ok::<bool, Error>(false),
        new == old,
        dump_text(lines_of(new)) == dump_text(lines_of(old)),
{
}

/// A lock with two entries named `name` makes every bump of `name` fail
/// with `MultipleBumps`, and leaves the entries as they were.
pub proof fn bump_with_two_entries_is_ambiguous(
    old: Seq<LockedDependency>,
    new: Seq<LockedDependency>,
    name: Seq<char>,
    value: Seq<char>,
    kind: BumpType,
    r: Result<bool, Error>,
    i: int,
    j: int,
)
    requires
        0 <= i < j < old.len(),
        old[i].spec_name() == name,
        old[j].spec_name() == name,
        bumped(old, new, name, value, kind, r),
    ensures
        new == old,
        r matches Err(Error::MultipleBumps { name: n }) && n@ == name,
{
    lemma_count_pos(old, name, i, j);
    lemma_count_prefix(old, name, j);
    lemma_count_at_least(old, name, j + 1);
    assert(old.subrange(0, old.len() as int) =~= old);
}

proof fn lemma_count_at_least(s: Seq<LockedDependency>, name: Seq<char>, k: int)
    requires
        0 <= k <= s.len(),
    ensures
        count_named(s, name) >= count_named(s.subrange(0, k), name),
    decreases s.len() - k,
{
    if k < s.len() {
        lemma_count_prefix(s, name, k);
        lemma_count_at_least(s, name, k + 1);
    } else {
        assert(s.subrange(0, k) =~= s);
    }
}

/// A reconcile never touches a source-reference entry: `pip freeze` reports
/// versions, not references. It adds no entry for a frozen dependency of the
/// same name; an added entry takes the name that its line gives, which is
/// the frozen name unless that name has surrounding whitespace or `==`.
pub proof fn reconcile_keeps_git_entries(
    old: Seq<LockedDependency>,
    new: Seq<LockedDependency>,
    frozen: Seq<FrozenDependency>,
    python_version: Option<Seq<char>>,
    sys_platform: Option<Seq<char>>,
    i: int,
)
    requires
        reconciled(old, new, frozen, python_version, sys_platform),
        0 <= i < old.len(),
        old[i] is Git,
    ensures
        new[i] == old[i],
        forall|j: int|
            0 <= j < missing(old, frozen).len() ==> (#[trigger] missing(old, frozen)[j]).name@
                != old[i].spec_name(),
        forall|j: int|
            0 <= j < missing(old, frozen).len() && simple_name(frozen_line(missing(old, frozen)[j]))
                == missing(old, frozen)[j].name@ ==> (#[trigger] new[old.len() + j]).spec_name()
                != old[i].spec_name(),
{
    assert(patched(old[i], new[i], frozen));
    lemma_missing_unknown(old, frozen);
    assert forall|j: int| 0 <= j < missing(old, frozen).len() implies (#[trigger] missing(
        old,
        frozen,
    )[j]).name@ != old[i].spec_name() by {
        if missing(old, frozen)[j].name@ == old[i].spec_name() {
            assert(is_known(old, missing(old, frozen)[j].name@));
        }
    }
    assert forall|j: int|
        0 <= j < missing(old, frozen).len() && simple_name(frozen_line(missing(old, frozen)[j]))
            == missing(old, frozen)[j].name@ implies (#[trigger] new[old.len() + j]).spec_name()
        != old[i].spec_name() by {
        assert(added(new[old.len() + j], missing(old, frozen)[j], python_version, sys_platform));
        if missing(old, frozen)[j].name@ == old[i].spec_name() {
            assert(is_known(old, missing(old, frozen)[j].name@));
        }
    }
}

/// A reconcile puts markers on the entries it adds and on no other: an entry
/// that was in the lock keeps its line, or has only its version replaced,
/// while an added entry gets the markers asked for.
pub proof fn reconcile_marks_only_added_entries(
    old: Seq<LockedDependency>,
    new: Seq<LockedDependency>,
    frozen: Seq<FrozenDependency>,
    python_version: Option<Seq<char>>,
    sys_platform: Option<Seq<char>>,
)
    requires
        reconciled(old, new, frozen, python_version, sys_platform),
    ensures
        forall|i: int|
            0 <= i < old.len() ==> (#[trigger] new[i]).spec_line() == old[i].spec_line() || exists|
                v: Seq<char>,
            |
                new[i].spec_line() == splice(
                    old[i].spec_line(),
                    old[i].spec_start(),
                    old[i].spec_end(),
                    v,
                ),
        forall|j: int|
            0 <= j < missing(old, frozen).len() ==> (#[trigger] new[old.len() + j]).spec_line()
                == added_line(missing(old, frozen)[j], python_version, sys_platform),
{
    assert forall|i: int| 0 <= i < old.len() implies (#[trigger] new[i]).spec_line()
        == old[i].spec_line() || exists|v: Seq<char>|
        new[i].spec_line() == splice(old[i].spec_line(), old[i].spec_start(), old[i].spec_end(), v) by {
        assert(patched(old[i], new[i], frozen));
        if let LockedDependency::Simple(d) = old[i] {
            if let Some(k) = first_frozen_from(frozen, d.name@, 0) {
                if frozen[k].version@ != d.version.value@ {
                    let v = frozen[k].version@;
                    assert(new[i].spec_line() == splice(
                        old[i].spec_line(),
                        old[i].spec_start(),
                        old[i].spec_end(),
                        v,
                    ));
                }
            }
        }
    }
}

// ---- Reconciling twice ---------------------------------------------------------

/// A frozen dependency whose line `name==version` reads back as itself: the
/// name holds no `=` and no surrounding whitespace, and the version is one
/// non-empty token.
pub open spec fn frozen_clean(f: FrozenDependency) -> bool {
    &&& forall|k: int| 0 <= k < f.name@.len() ==> f.name@[k] != '='
    &&& trim(f.name@) == f.name@
    &&& f.version@.len() > 0
    &&& forall|k: int| 0 <= k < f.version@.len() ==> !is_version_end(#[trigger] f.version@[k])
}

/// No two frozen dependencies share a name.
pub open spec fn names_distinct(frozen: Seq<FrozenDependency>) -> bool {
    forall|i: int, j: int|
        0 <= i < j < frozen.len() ==> (#[trigger] frozen[i]).name@ != (#[trigger] frozen[j]).name@
}

proof fn lemma_version_end_at(l: Seq<char>, i: int, e: int)
    requires
        0 <= i <= e < l.len(),
        is_version_end(l[e]),
        forall|k: int| i <= k < e ==> !is_version_end(#[trigger] l[k]),
    ensures
        version_end_from(l, i) == e,
    decreases e - i,
{
    if i < e {
        lemma_version_end_at(l, i + 1, e);
    }
}

/// The entry added for a clean frozen dependency has its name and version.
proof fn lemma_clean_line(f: FrozenDependency)
    requires
        frozen_clean(f),
    ensures
        simple_name(frozen_line(f)) == f.name@,
        simple_range(frozen_line(f)) matches Some((cs, ce)) && frozen_line(f).subrange(cs, ce)
            == f.version@,
{
    let l = frozen_line(f);
    let n = f.name@.len() as int;
    let vl = f.version@.len() as int;
    assert(l.subrange(n, n + 2) =~= eq_eq());
    find_le_match(l, eq_eq(), n);
    let e = find(l, eq_eq())->0;
    if e < n {
        assert(l.subrange(e, e + 2)[0] == l[e]);
        assert(l[e] == f.name@[e]);
    }
    assert(e == n);
    assert(l[n + 2] == f.version@[0]);
    assert(!is_version_end(f.version@[0]));
    assert(first_non_blank_from(l, n + 2) == Some(n + 2));
    assert(l[n + 2 + vl] == '\n');
    assert forall|k: int| n + 3 <= k < n + 2 + vl implies !is_version_end(#[trigger] l[k]) by {
        assert(l[k] == f.version@[k - n - 2]);
    }
    lemma_version_end_at(l, n + 3, n + 2 + vl);
    assert(l.subrange(n + 2, n + 2 + vl) =~= f.version@);
    assert(l.subrange(0, n) =~= f.name@);
}

proof fn lemma_first_frozen(frozen: Seq<FrozenDependency>, name: Seq<char>, i: int)
    requires
        0 <= i,
    ensures
        match first_frozen_from(frozen, name, i) {
            Some(k) => i <= k < frozen.len() && frozen[k].name@ == name,
            None => forall|k: int| i <= k < frozen.len() ==> (#[trigger] frozen[k]).name@ != name,
        },
    decreases frozen.len() - i,
{
    if i < frozen.len() && frozen[i].name@ != name {
        lemma_first_frozen(frozen, name, i + 1);
    }
}

/// What a reconcile adds comes from the frozen list, and every frozen
/// dependency not in the lock is added.
proof fn lemma_missing_members(deps: Seq<LockedDependency>, frozen: Seq<FrozenDependency>)
    ensures
        forall|j: int|
            0 <= j < missing(deps, frozen).len() ==> exists|i: int|
                0 <= i < frozen.len() && frozen[i] == #[trigger] missing(deps, frozen)[j],
        forall|i: int|
            0 <= i < frozen.len() && !is_known(deps, (#[trigger] frozen[i]).name@) ==> exists|j: int|
                0 <= j < missing(deps, frozen).len() && missing(deps, frozen)[j] == frozen[i],
    decreases frozen.len(),
{
    if frozen.len() > 0 {
        let d = frozen.drop_last();
        lemma_missing_members(deps, d);
        let m = missing(deps, d);
        let mm = missing(deps, frozen);
        assert forall|j: int| 0 <= j < mm.len() implies exists|i: int|
            0 <= i < frozen.len() && frozen[i] == #[trigger] mm[j] by {
            if j < m.len() {
                assert(mm[j] == m[j]);
                let i = choose|i: int| 0 <= i < d.len() && d[i] == m[j];
                assert(frozen[i] == d[i]);
            } else {
                assert(mm[j] == frozen[frozen.len() - 1]);
            }
        }
        assert forall|i: int|
            0 <= i < frozen.len() && !is_known(deps, (#[trigger] frozen[i]).name@) implies exists|j: int|
            0 <= j < mm.len() && mm[j] == frozen[i] by {
            if i < d.len() {
                assert(d[i] == frozen[i]);
                let j = choose|j: int| 0 <= j < m.len() && m[j] == d[i];
                assert(mm[j] == m[j]);
            } else {
                assert(frozen[i] == frozen.last());
                assert(mm[m.len() as int] == frozen.last());
            }
        }
    }
}

/// Reconciling a second time with the same frozen list changes nothing,
/// when the frozen names are distinct and every frozen line reads back as
/// itself.
pub proof fn reconcile_twice_changes_nothing(
    d0: Seq<LockedDependency>,
    d1: Seq<LockedDependency>,
    d2: Seq<LockedDependency>,
    frozen: Seq<FrozenDependency>,
    python_version: Option<Seq<char>>,
    sys_platform: Option<Seq<char>>,
)
    requires
        reconciled(d0, d1, frozen, python_version, sys_platform),
        reconciled(d1, d2, frozen, python_version, sys_platform),
        forall|i: int| 0 <= i < frozen.len() ==> frozen_clean(#[trigger] frozen[i]),
        names_distinct(frozen),
    ensures
        d2 == d1,
{
    let n0 = d0.len() as int;
    let m0 = missing(d0, frozen);
    lemma_missing_members(d0, frozen);
    lemma_missing_members(d1, frozen);
    lemma_missing_unknown(d1, frozen);
    // every entry of d1 keeps the name it had, and added ones have clean names
    assert forall|j: int| 0 <= j < m0.len() implies (#[trigger] d1[n0 + j]).spec_name() == m0[j].name@
        && d1[n0 + j].spec_value() == m0[j].version@ && d1[n0 + j] is Simple by {
        let i = choose|i: int| 0 <= i < frozen.len() && frozen[i] == m0[j];
        lemma_clean_line(m0[j]);
        assert(added(d1[n0 + j], m0[j], python_version, sys_platform));
    }
    assert forall|q: int| 0 <= q < n0 implies (#[trigger] d1[q]).spec_name() == d0[q].spec_name() by {
        assert(patched(d0[q], d1[q], frozen));
    }
    // nothing is missing the second time
    let m1 = missing(d1, frozen);
    if m1.len() > 0 {
        let i0 = choose|i: int| 0 <= i < frozen.len() && frozen[i] == m1[0];
        assert(!is_known(d1, m1[0].name@));
        if is_known(d0, frozen[i0].name@) {
            let q = choose|q: int| 0 <= q < d0.len() && (#[trigger] d0[q]).spec_name() == frozen[i0].name@;
            assert(d1[q].spec_name() == frozen[i0].name@);
            assert(is_known(d1, frozen[i0].name@));
        } else {
            let j = choose|j: int| 0 <= j < m0.len() && m0[j] == frozen[i0];
            assert(d1[n0 + j].spec_name() == frozen[i0].name@);
            assert(is_known(d1, frozen[i0].name@));
        }
    }
    assert(d2.len() == d1.len());
    // the patch pass of the second reconcile finds every version in place
    assert forall|i: int| 0 <= i < d1.len() implies #[trigger] d2[i] == d1[i] by {
        assert(patched(d1[i], d2[i], frozen));
        if let LockedDependency::Simple(s1) = d1[i] {
            lemma_first_frozen(frozen, s1.name@, 0);
            if let Some(k) = first_frozen_from(frozen, s1.name@, 0) {
                if i < n0 {
                    assert(patched(d0[i], d1[i], frozen));
                    if let LockedDependency::Simple(s0) = d0[i] {
                        assert(s0.name@ == s1.name@);
                    }
                } else {
                    let j = i - n0;
                    assert(d1[n0 + j].spec_name() == m0[j].name@);
                    let i1 = choose|i1: int| 0 <= i1 < frozen.len() && frozen[i1] == m0[j];
                    if k < i1 {
                        assert(frozen[k].name@ != frozen[i1].name@);
                    } else if i1 < k {
                        assert(frozen[i1].name@ != frozen[k].name@);
                    }
                }
            }
        }
    }
    assert(d2 =~= d1);
}

/// An entry that a reconcile adds for a frozen dependency whose line reads
/// back as itself carries its name and its version.
pub proof fn reconcile_adds_frozen_versions(
    old: Seq<LockedDependency>,
    new: Seq<LockedDependency>,
    frozen: Seq<FrozenDependency>,
    python_version: Option<Seq<char>>,
    sys_platform: Option<Seq<char>>,
)
    requires
        reconciled(old, new, frozen, python_version, sys_platform),
        forall|i: int| 0 <= i < frozen.len() ==> frozen_clean(#[trigger] frozen[i]),
    ensures
        forall|j: int|
            0 <= j < missing(old, frozen).len() ==> (#[trigger] new[old.len() + j]).spec_name()
                == missing(old, frozen)[j].name@ && new[old.len() + j].spec_value() == missing(
                old,
                frozen,
            )[j].version@,
{
    lemma_missing_members(old, frozen);
    assert forall|j: int| 0 <= j < missing(old, frozen).len() implies (#[trigger] new[old.len()
        + j]).spec_name() == missing(old, frozen)[j].name@ && new[old.len() + j].spec_value()
        == missing(old, frozen)[j].version@ by {
        let f = missing(old, frozen)[j];
        let i = choose|i: int| 0 <= i < frozen.len() && frozen[i] == f;
        lemma_clean_line(f);
        assert(added(new[old.len() + j], f, python_version, sys_platform));
    }
}

} // verus!
