//! Manifest serializer: from entries back to the text of a lock file.
use vstd::prelude::*;

use crate::dependencies::LockedDependency;
use crate::text::{append, chars_of, string_of};

verus! {

/// What `str::to_lowercase` makes of a string.
pub uninterp spec fn lower_of(s: Seq<char>) -> Seq<char>;

/// Relies on `str::to_lowercase`: the result depends on the characters alone.
#[verifier::external_body]
fn lowercase(s: &str) -> (r: String)
    ensures
        r@ == lower_of(s@),
{
    s.to_lowercase()
}

/// Lexicographic order on characters. On the UTF-8 encodings of the two
/// sequences it agrees with the byte order that `String` compares by.
pub open spec fn lex_lt(a: Seq<char>, b: Seq<char>) -> bool
    decreases a.len(),
{
    if b.len() == 0 {
        false
    } else if a.len() == 0 {
        true
    } else if a[0] != b[0] {
        (a[0] as u32) < (b[0] as u32)
    } else {
        lex_lt(a.drop_first(), b.drop_first())
    }
}

/// A line and the key it sorts by.
pub type Keyed = (Seq<char>, Seq<char>);

/// `a` sorts before `b`: its key is smaller.
pub open spec fn key_lt(a: Keyed, b: Keyed) -> bool {
    lex_lt(a.1, b.1)
}

/// Where `x` goes in `s`, at or after `i`: before the first line whose key
/// is greater.
pub open spec fn insert_pos_from(s: Seq<Keyed>, x: Keyed, i: int) -> int
    decreases s.len() - i,
{
    if i < 0 || i >= s.len() {
        s.len() as int
    } else if key_lt(x, s[i]) {
        i
    } else {
        insert_pos_from(s, x, i + 1)
    }
}

pub open spec fn insert_sorted(s: Seq<Keyed>, x: Keyed) -> Seq<Keyed> {
    s.insert(insert_pos_from(s, x, 0), x)
}

/// `s` sorted by key, lines with equal keys keeping their order.
pub open spec fn sort_keyed(s: Seq<Keyed>) -> Seq<Keyed>
    decreases s.len(),
{
    if s.len() == 0 {
        s
    } else {
        insert_sorted(sort_keyed(s.drop_last()), s.last())
    }
}

/// Each line with its lowercase form as key, as `pip freeze` orders them.
pub open spec fn keyed(lines: Seq<Seq<char>>) -> Seq<Keyed> {
    Seq::new(lines.len(), |i: int| (lines[i], lower_of(lines[i])))
}

/// The lines without their keys.
pub open spec fn unkeyed(s: Seq<Keyed>) -> Seq<Seq<char>> {
    Seq::new(s.len(), |i: int| s[i].0)
}

/// `lines` sorted by their lowercase form, equal ones keeping their order.
pub open spec fn sort_lines(lines: Seq<Seq<char>>) -> Seq<Seq<char>> {
    unkeyed(sort_keyed(keyed(lines)))
}

/// `l` ending with a newline: itself when it ends with one already.
pub open spec fn terminated(l: Seq<char>) -> Seq<char> {
    if l.len() > 0 && l.last() == '\n' {
        l
    } else {
        l.push('\n')
    }
}

/// The lines one after the other, each ending with a newline; a lone
/// newline when there is none.
pub open spec fn render(lines: Seq<Seq<char>>) -> Seq<char> {
    if lines.len() == 0 {
        seq!['\n']
    } else {
        lines.map_values(|l: Seq<char>| terminated(l)).flatten()
    }
}

/// The text of a lock whose entries have the lines `lines`.
pub open spec fn dump_text(lines: Seq<Seq<char>>) -> Seq<char> {
    render(sort_lines(lines))
}

/// The lines `lines` with the keys `keys`, pair by pair.
pub open spec fn pairs_of(lines: Seq<String>, keys: Seq<String>) -> Seq<Keyed> {
    Seq::new(lines.len(), |i: int| (lines[i]@, keys[i]@))
}

pub open spec fn lines_of(deps: Seq<LockedDependency>) -> Seq<Seq<char>> {
    Seq::new(deps.len(), |i: int| deps[i].spec_line())
}

fn lex_lt_exec(a: &Vec<char>, b: &Vec<char>) -> (r: bool)
    ensures
        r == lex_lt(a@, b@),
{
    let mut k: usize = 0;
    assert(a@.subrange(0, a@.len() as int) =~= a@);
    assert(b@.subrange(0, b@.len() as int) =~= b@);
    loop
        invariant
            k <= a.len(),
            k <= b.len(),
            lex_lt(a@, b@) == lex_lt(
                a@.subrange(k as int, a@.len() as int),
                b@.subrange(k as int, b@.len() as int),
            ),
        decreases a.len() - k,
    {
        if k == b.len() {
            return false;
        }
        if k == a.len() {
            return true;
        }
        if a[k] != b[k] {
            return (a[k] as u32) < (b[k] as u32);
        }
        assert(a@.subrange(k as int, a@.len() as int).drop_first() =~= a@.subrange(
            k + 1,
            a@.len() as int,
        ));
        assert(b@.subrange(k as int, b@.len() as int).drop_first() =~= b@.subrange(
            k + 1,
            b@.len() as int,
        ));
        k = k + 1;
    }
}

pub open spec fn zip_view(lines: Seq<Vec<char>>, keys: Seq<Vec<char>>) -> Seq<Keyed> {
    Seq::new(lines.len(), |i: int| (lines[i]@, keys[i]@))
}

/// The text of a lock whose lines are `lines`, sorted by `keys` (the key of
/// `lines[i]` is `keys[i]`), lines with equal keys keeping their order.
pub fn dump_sorted(lines: &Vec<String>, keys: &Vec<String>) -> (r: String)
    requires
        lines.len() == keys.len(),
    ensures
        r@ == render(unkeyed(sort_keyed(pairs_of(lines@, keys@)))),
{
    let ghost all = pairs_of(lines@, keys@);
    let mut sorted: Vec<Vec<char>> = Vec::new();
    let mut skeys: Vec<Vec<char>> = Vec::new();
    let mut i: usize = 0;
    while i < lines.len()
        invariant
            i <= lines.len(),
            lines.len() == keys.len(),
            all == pairs_of(lines@, keys@),
            sorted.len() == skeys.len(),
            zip_view(sorted@, skeys@) == sort_keyed(all.subrange(0, i as int)),
        decreases lines.len() - i,
    {
        let x = chars_of(lines[i].as_str());
        let kx = chars_of(keys[i].as_str());
        let ghost s = zip_view(sorted@, skeys@);
        let mut p: usize = 0;
        while p < sorted.len() && !lex_lt_exec(&kx, &skeys[p])
            invariant
                p <= sorted.len(),
                sorted.len() == skeys.len(),
                s == zip_view(sorted@, skeys@),
                insert_pos_from(s, (x@, kx@), 0) == insert_pos_from(s, (x@, kx@), p as int),
            decreases sorted.len() - p,
        {
            p = p + 1;
        }
        let ghost old_keys = skeys@;
        let ghost old_sorted = sorted@;
        sorted.insert(p, x);
        skeys.insert(p, kx);
        proof {
            assert(all.subrange(0, i + 1).drop_last() =~= all.subrange(0, i as int));
            assert(all.subrange(0, i + 1).last() == (x@, kx@));
            assert forall|k: int| 0 <= k < sorted.len() implies #[trigger] zip_view(sorted@, skeys@)[k]
                == s.insert(p as int, (x@, kx@))[k] by {
                if k > p {
                    assert(skeys[k] == old_keys[k - 1]);
                    assert(sorted[k] == old_sorted[k - 1]);
                } else if k < p {
                    assert(skeys[k] == old_keys[k]);
                    assert(sorted[k] == old_sorted[k]);
                }
            }
            assert(zip_view(sorted@, skeys@) =~= s.insert(p as int, (x@, kx@)));
        }
        i = i + 1;
    }
    let ghost s = unkeyed(zip_view(sorted@, skeys@));
    assert(s =~= sorted@.map_values(|v: Vec<char>| v@));
    let ghost ts = s.map_values(|l: Seq<char>| terminated(l));
    assert(all.subrange(0, lines.len() as int) =~= all);
    let mut res: Vec<char> = Vec::new();
    let mut j: usize = 0;
    while j < sorted.len()
        invariant
            j <= sorted.len(),
            s == sorted@.map_values(|v: Vec<char>| v@),
            ts == s.map_values(|l: Seq<char>| terminated(l)),
            res@ == ts.subrange(0, j as int).flatten_alt(),
        decreases sorted.len() - j,
    {
        let line = &sorted[j];
        append(&mut res, line);
        if line.len() == 0 || line[line.len() - 1] != '\n' {
            res.push('\n');
        }
        assert(ts.subrange(0, j + 1).drop_last() =~= ts.subrange(0, j as int));
        assert(ts[j as int] == terminated(line@));
        j = j + 1;
    }
    proof {
        assert(ts.subrange(0, ts.len() as int) =~= ts);
        ts.lemma_flatten_and_flatten_alt_are_equivalent();
    }
    if sorted.len() == 0 {
        res.push('\n');
        assert(res@ =~= seq!['\n']);
    }
    string_of(&res)
}

/// Renders the entries as the text of a lock: their lines sorted by their
/// lowercase form, each ending with a newline.
pub fn dump(deps: &[LockedDependency]) -> (r: String)
    ensures
        r@ == dump_text(lines_of(deps@)),
{
    let mut lines: Vec<String> = Vec::new();
    let mut keys: Vec<String> = Vec::new();
    let mut i: usize = 0;
    while i < deps.len()
        invariant
            i <= deps.len(),
            lines.len() == i,
            keys.len() == i,
            forall|k: int| 0 <= k < i ==> (#[trigger] lines[k])@ == deps@[k].spec_line(),
            forall|k: int| 0 <= k < i ==> (#[trigger] keys[k])@ == lower_of(deps@[k].spec_line()),
        decreases deps.len() - i,
    {
        let line = deps[i].line();
        keys.push(lowercase(line.as_str()));
        lines.push(line);
        i = i + 1;
    }
    let r = dump_sorted(&lines, &keys);
    assert(pairs_of(lines@, keys@) =~= keyed(lines_of(deps@)));
    r
}

} // verus!
