//! Character-sequence helpers shared by the lock-file parser and serializer.
use vstd::prelude::*;
use vstd::std_specs::iter::IteratorSpec;
use vstd::utf8::{char_is_scalar, encode_utf8};

verus! {

/// The characters of `s`, in order.
pub fn chars_of(s: &str) -> (r: Vec<char>)
    ensures
        r@ == s@,
{
    broadcast use vstd::string::group_string_axioms;

    let mut it = s.chars();
    let mut r: Vec<char> = Vec::new();
    loop
        invariant
            r@ + it.remaining() == s@,
            it.obeys_prophetic_iter_laws(),
            it.decrease() is Some,
        decreases it.decrease()->0,
    {
        match it.next() {
            Some(c) => {
                assert(r@.push(c) + it.remaining() =~= s@);
                r.push(c);
            },
            None => {
                assert(r@ =~= s@);
                return r;
            },
        }
    }
}

/// Relies on `String: FromIterator<&char>`: the string made of the characters of `v`, in order.
#[verifier::external_body]
pub fn string_of(v: &[char]) -> (r: String)
    ensures
        r@ == v@,
{
    v.iter().collect()
}

/// Whether `p` occurs in `s` at position `i`.
pub open spec fn matches_at(s: Seq<char>, p: Seq<char>, i: int) -> bool {
    0 <= i && i + p.len() <= s.len() && s.subrange(i, i + p.len()) == p
}

/// The first position at or after `i` where `p` occurs in `s`.
pub open spec fn find_from(s: Seq<char>, p: Seq<char>, i: int) -> Option<int>
    decreases s.len() - i,
{
    if i < 0 || i + p.len() > s.len() {
        None
    } else if s.subrange(i, i + p.len()) == p {
        Some(i)
    } else if i >= s.len() {
        None
    } else {
        find_from(s, p, i + 1)
    }
}

pub open spec fn find(s: Seq<char>, p: Seq<char>) -> Option<int> {
    find_from(s, p, 0)
}

/// Whether `p` occurs in `s` at position `i`.
pub fn matches_at_exec(s: &Vec<char>, p: &Vec<char>, i: usize) -> (r: bool)
    ensures
        r == matches_at(s@, p@, i as int),
{
    if i > s.len() || p.len() > s.len() - i {
        return false;
    }
    let mut j: usize = 0;
    while j < p.len()
        invariant
            i + p.len() <= s.len(),
            j <= p.len(),
            forall|k: int| 0 <= k < j ==> s@[i + k] == p@[k],
        decreases p.len() - j,
    {
        if s[i + j] != p[j] {
            assert(s@.subrange(i as int, i + p.len())[j as int] != p@[j as int]);
            return false;
        }
        j = j + 1;
    }
    assert(s@.subrange(i as int, i + p.len()) =~= p@);
    true
}

/// First position of `p` in `s`.
pub fn find_seq(s: &Vec<char>, p: &Vec<char>) -> (r: Option<usize>)
    ensures
        r matches Some(i) ==> find(s@, p@) == Some(i as int),
        r is None ==> find(s@, p@) is None,
{
    let mut i: usize = 0;
    loop
        invariant
            i <= s.len(),
            find(s@, p@) == find_from(s@, p@, i as int),
        decreases s.len() - i,
    {
        if p.len() > s.len() - i {
            return None;
        }
        if matches_at_exec(s, p, i) {
            return Some(i);
        }
        if i == s.len() {
            return None;
        }
        i = i + 1;
    }
}


/// The last position at or before `i` where `p` occurs in `s`.
pub open spec fn rfind_from(s: Seq<char>, p: Seq<char>, i: int) -> Option<int>
    decreases i + 1,
{
    if i < 0 {
        None
    } else if matches_at(s, p, i) {
        Some(i)
    } else {
        rfind_from(s, p, i - 1)
    }
}

pub open spec fn rfind(s: Seq<char>, p: Seq<char>) -> Option<int> {
    rfind_from(s, p, s.len() - p.len())
}

/// Last position of `p` in `s`.
pub fn rfind_seq(s: &Vec<char>, p: &Vec<char>) -> (r: Option<usize>)
    ensures
        r matches Some(i) ==> rfind(s@, p@) == Some(i as int),
        r is None ==> rfind(s@, p@) is None,
{
    if p.len() > s.len() {
        return None;
    }
    let mut i: usize = s.len() - p.len();
    loop
        invariant
            i + p.len() <= s.len(),
            rfind(s@, p@) == rfind_from(s@, p@, i as int),
        decreases i,
    {
        if matches_at_exec(s, p, i) {
            return Some(i);
        }
        if i == 0 {
            assert(rfind_from(s@, p@, -1) is None);
            return None;
        }
        i = i - 1;
    }
}

/// Whether `p` occurs somewhere in `s`.
pub open spec fn contains(s: Seq<char>, p: Seq<char>) -> bool {
    find(s, p) is Some
}

/// ASCII whitespace, as `char::is_ascii_whitespace` defines it.
pub open spec fn is_ascii_ws(c: char) -> bool {
    c == ' ' || c == '\t' || c == '\n' || c == '\x0C' || c == '\r'
}

pub fn is_ascii_ws_exec(c: char) -> (r: bool)
    ensures
        r == is_ascii_ws(c),
{
    c == ' ' || c == '\t' || c == '\n' || c == '\x0C' || c == '\r'
}

/// Unicode `White_Space`, the set `str::trim` strips.
pub open spec fn is_ws(c: char) -> bool {
    let u = c as u32;
    (0x09 <= u <= 0x0D) || u == 0x20 || u == 0x85 || u == 0xA0 || u == 0x1680 || (0x2000 <= u
        <= 0x200A) || u == 0x2028 || u == 0x2029 || u == 0x202F || u == 0x205F || u == 0x3000
}

pub fn is_ws_exec(c: char) -> (r: bool)
    ensures
        r == is_ws(c),
{
    let u = c as u32;
    (0x09 <= u && u <= 0x0D) || u == 0x20 || u == 0x85 || u == 0xA0 || u == 0x1680 || (0x2000 <= u
        && u <= 0x200A) || u == 0x2028 || u == 0x2029 || u == 0x202F || u == 0x205F || u == 0x3000
}

/// `s` without its leading whitespace.
pub open spec fn trim_start(s: Seq<char>) -> Seq<char>
    decreases s.len(),
{
    if s.len() > 0 && is_ws(s[0]) {
        trim_start(s.drop_first())
    } else {
        s
    }
}

/// `s` without its trailing whitespace.
pub open spec fn trim_end(s: Seq<char>) -> Seq<char>
    decreases s.len(),
{
    if s.len() > 0 && is_ws(s.last()) {
        trim_end(s.drop_last())
    } else {
        s
    }
}

/// `s` without leading and trailing whitespace, as `str::trim` leaves it.
pub open spec fn trim(s: Seq<char>) -> Seq<char> {
    trim_end(trim_start(s))
}

/// The characters of `s` from `lo` (included) to `hi` (excluded).
pub fn slice(s: &Vec<char>, lo: usize, hi: usize) -> (r: Vec<char>)
    requires
        lo <= hi <= s.len(),
    ensures
        r@ == s@.subrange(lo as int, hi as int),
{
    let mut r: Vec<char> = Vec::new();
    let mut i: usize = lo;
    while i < hi
        invariant
            lo <= i <= hi <= s.len(),
            r@ == s@.subrange(lo as int, i as int),
        decreases hi - i,
    {
        r.push(s[i]);
        assert(s@.subrange(lo as int, i + 1) =~= s@.subrange(lo as int, i as int).push(s@[i as int]));
        i = i + 1;
    }
    r
}

/// `s` without its trailing whitespace.
pub fn trim_end_exec(s: &Vec<char>) -> (r: Vec<char>)
    ensures
        r@ == trim_end(s@),
{
    let mut hi: usize = s.len();
    assert(s@.subrange(0, hi as int) =~= s@);
    while hi > 0 && is_ws_exec(s[hi - 1])
        invariant
            hi <= s.len(),
            trim_end(s@) == trim_end(s@.subrange(0, hi as int)),
        decreases hi,
    {
        assert(s@.subrange(0, hi as int).drop_last() =~= s@.subrange(0, hi - 1));
        hi = hi - 1;
    }
    slice(s, 0, hi)
}

/// `s` with leading and trailing whitespace removed.
pub fn trim_exec(s: &Vec<char>) -> (r: Vec<char>)
    ensures
        r@ == trim(s@),
{
    let mut lo: usize = 0;
    assert(s@.subrange(0, s@.len() as int) =~= s@);
    while lo < s.len() && is_ws_exec(s[lo])
        invariant
            lo <= s.len(),
            trim_start(s@) == trim_start(s@.subrange(lo as int, s@.len() as int)),
        decreases s.len() - lo,
    {
        assert(s@.subrange(lo as int, s@.len() as int).drop_first() =~= s@.subrange(
            lo + 1,
            s@.len() as int,
        ));
        lo = lo + 1;
    }
    assert(s@.subrange(0, s@.len() as int) =~= s@);
    let ghost mid = s@.subrange(lo as int, s@.len() as int);
    assert(trim_start(s@) == mid);
    let mut hi: usize = s.len();
    while hi > lo && is_ws_exec(s[hi - 1])
        invariant
            lo <= hi <= s.len(),
            trim_end(mid) == trim_end(s@.subrange(lo as int, hi as int)),
        decreases hi,
    {
        assert(s@.subrange(lo as int, hi as int).drop_last() =~= s@.subrange(lo as int, hi - 1));
        hi = hi - 1;
    }
    slice(s, lo, hi)
}

/// The sequence `a` followed by `b`.
pub fn append(a: &mut Vec<char>, b: &Vec<char>)
    ensures
        final(a)@ == old(a)@ + b@,
{
    let mut i: usize = 0;
    while i < b.len()
        invariant
            i <= b.len(),
            a@ == old(a)@ + b@.subrange(0, i as int),
        decreases b.len() - i,
    {
        a.push(b[i]);
        assert(b@.subrange(0, i + 1) =~= b@.subrange(0, i as int).push(b@[i as int]));
        i = i + 1;
    }
    assert(b@.subrange(0, b@.len() as int) =~= b@);
}

/// Whether two character sequences are equal.
pub fn seq_eq(a: &Vec<char>, b: &Vec<char>) -> (r: bool)
    ensures
        r == (a@ == b@),
{
    if a.len() != b.len() {
        return false;
    }
    let mut i: usize = 0;
    while i < a.len()
        invariant
            a.len() == b.len(),
            i <= a.len(),
            forall|k: int| 0 <= k < i ==> a@[k] == b@[k],
        decreases a.len() - i,
    {
        if a[i] != b[i] {
            return false;
        }
        i = i + 1;
    }
    assert(a@ =~= b@);
    true
}


/// `s` without its leading whitespace.
pub fn trim_start_exec(s: &Vec<char>) -> (r: Vec<char>)
    ensures
        r@ == trim_start(s@),
{
    let mut lo: usize = 0;
    assert(s@.subrange(0, s@.len() as int) =~= s@);
    while lo < s.len() && is_ws_exec(s[lo])
        invariant
            lo <= s.len(),
            trim_start(s@) == trim_start(s@.subrange(lo as int, s@.len() as int)),
        decreases s.len() - lo,
    {
        assert(s@.subrange(lo as int, s@.len() as int).drop_first() =~= s@.subrange(
            lo + 1,
            s@.len() as int,
        ));
        lo = lo + 1;
    }
    slice(s, lo, s.len())
}

/// `l` without one final carriage return.
pub open spec fn strip_cr(l: Seq<char>) -> Seq<char> {
    if l.len() > 0 && l.last() == '\r' {
        l.drop_last()
    } else {
        l
    }
}

#[via_fn]
proof fn text_lines_decreases(t: Seq<char>) {
    lemma_find_char_bounds(t, 0);
}

/// The lines of `t` as `str::lines` gives them: split at each newline, a
/// carriage return before a newline dropped, no empty line after a final
/// newline.
pub open spec fn text_lines(t: Seq<char>) -> Seq<Seq<char>>
    decreases t.len(),
    via text_lines_decreases
{
    match find(t, seq!['\n']) {
        Some(k) => seq![strip_cr(t.subrange(0, k))] + text_lines(t.subrange(k + 1, t.len() as int)),
        None => if t.len() == 0 {
            seq![]
        } else {
            seq![t]
        },
    }
}

proof fn lemma_find_char_bounds(t: Seq<char>, i: int)
    ensures
        find_from(t, seq!['\n'], i) matches Some(k) ==> i <= k < t.len() && t[k] == '\n',
    decreases t.len() - i,
{
    if 0 <= i && i + 1 <= t.len() && t.subrange(i, i + 1) != seq!['\n'] && i < t.len() {
        lemma_find_char_bounds(t, i + 1);
    }
    if 0 <= i && i + 1 <= t.len() && t.subrange(i, i + 1) == seq!['\n'] {
        assert(t.subrange(i, i + 1)[0] == t[i]);
    }
}

proof fn lemma_find_char_is(t: Seq<char>, j: int, k: int)
    requires
        0 <= j <= k < t.len(),
        t[k] == '\n',
        forall|m: int| j <= m < k ==> t[m] != '\n',
    ensures
        find_from(t, seq!['\n'], j) == Some(k),
    decreases k - j,
{
    if j < k {
        assert(t.subrange(j, j + 1)[0] == t[j]);
        lemma_find_char_is(t, j + 1, k);
    } else {
        assert(t.subrange(j, j + 1) =~= seq!['\n']);
    }
}

proof fn lemma_find_char_none(t: Seq<char>, j: int)
    requires
        0 <= j,
        forall|m: int| j <= m < t.len() ==> t[m] != '\n',
    ensures
        find_from(t, seq!['\n'], j) is None,
    decreases t.len() - j,
{
    if j < t.len() {
        assert(t.subrange(j, j + 1)[0] == t[j]);
        lemma_find_char_none(t, j + 1);
    }
}

/// The lines of `text`, as `str::lines` gives them.
pub fn text_lines_exec(text: &str) -> (r: Vec<Vec<char>>)
    ensures
        r@.map_values(|l: Vec<char>| l@) == text_lines(text@),
{
    let t = chars_of(text);
    let mut res: Vec<Vec<char>> = Vec::new();
    let mut c: usize = 0;
    let mut i: usize = 0;
    assert(t@.subrange(0, t@.len() as int) =~= t@);
    while i < t.len()
        invariant
            c <= i <= t.len(),
            t@ == text@,
            forall|m: int| c <= m < i ==> t@[m] != '\n',
            res@.map_values(|l: Vec<char>| l@) + text_lines(t@.subrange(c as int, t@.len() as int))
                == text_lines(t@),
        decreases t.len() - i,
    {
        if t[i] == '\n' {
            let ghost u = t@.subrange(c as int, t@.len() as int);
            let ghost before = res@.map_values(|l: Vec<char>| l@);
            proof {
                lemma_find_char_is(u, 0, i - c);
                assert(u.subrange(0, i - c) =~= t@.subrange(c as int, i as int));
                assert(u.subrange(i - c + 1, u.len() as int) =~= t@.subrange(i + 1, t@.len() as int));
            }
            let mut hi = i;
            if hi > c && t[hi - 1] == '\r' {
                hi = hi - 1;
            }
            let line = slice(&t, c, hi);
            res.push(line);
            assert(line@ =~= strip_cr(t@.subrange(c as int, i as int)));
            assert(res@.map_values(|l: Vec<char>| l@) =~= before.push(line@));
            c = i + 1;
        }
        i = i + 1;
    }
    let ghost u = t@.subrange(c as int, t@.len() as int);
    proof {
        lemma_find_char_none(u, 0);
    }
    if c < t.len() {
        let ghost before = res@.map_values(|l: Vec<char>| l@);
        let line = slice(&t, c, t.len());
        res.push(line);
        assert(res@.map_values(|l: Vec<char>| l@) =~= before.push(u));
    } else {
        assert(res@.map_values(|l: Vec<char>| l@) + text_lines(u) =~= res@.map_values(
            |l: Vec<char>| l@,
        ));
    }
    res
}

// ---- UTF-8 lengths -----------------------------------------------------------

/// The number of bytes of the UTF-8 encoding of `c`.
pub open spec fn utf8_width(c: char) -> nat {
    let u = c as u32;
    if u <= 0x7F {
        1
    } else if u <= 0x7FF {
        2
    } else if u <= 0xFFFF {
        3
    } else {
        4
    }
}

/// The byte offset, in the UTF-8 encoding of `l`, of its character `k`.
pub open spec fn byte_pos(l: Seq<char>, k: int) -> int {
    encode_utf8(l.subrange(0, k)).len() as int
}

/// The character of `l` that starts at byte offset `b`.
pub open spec fn char_pos(l: Seq<char>, b: int) -> int {
    choose|k: int| 0 <= k <= l.len() && byte_pos(l, k) == b
}

/// Encoding a concatenation concatenates the encodings.
pub proof fn lemma_encode_concat(a: Seq<char>, b: Seq<char>)
    ensures
        encode_utf8(a + b) == encode_utf8(a) + encode_utf8(b),
    decreases a.len(),
{
    if a.len() == 0 {
        assert(a + b =~= b);
        assert(encode_utf8(a) =~= Seq::<u8>::empty());
        assert(encode_utf8(a) + encode_utf8(b) =~= encode_utf8(b));
    } else {
        assert((a + b).drop_first() =~= a.drop_first() + b);
        assert((a + b)[0] == a[0]);
        lemma_encode_concat(a.drop_first(), b);
        assert(encode_utf8(a + b) =~= encode_utf8(a) + encode_utf8(b));
    }
}

/// One character takes `utf8_width` bytes.
pub proof fn lemma_encode_one(c: char)
    ensures
        encode_utf8(seq![c]).len() == utf8_width(c),
{
    char_is_scalar(c);
    let one = seq![c];
    assert(one.drop_first() =~= Seq::<char>::empty());
    assert(one[0] == c);
    assert(encode_utf8(one.drop_first()) =~= Seq::<u8>::empty());
    assert(encode_utf8(one) == vstd::utf8::encode_scalar(c as u32) + encode_utf8(one.drop_first()));
    let u = c as u32;
    if u <= 0x7F {
    } else if u <= 0x7FF {
    } else if u <= 0xFFFF {
        assert(vstd::utf8::has_width_3_encoding(u));
    } else {
        assert(vstd::utf8::has_width_4_encoding(u));
    }
}

/// Adding a character adds its width.
pub proof fn lemma_byte_pos_step(l: Seq<char>, k: int)
    requires
        0 <= k < l.len(),
    ensures
        byte_pos(l, k + 1) == byte_pos(l, k) + utf8_width(l[k]),
        utf8_width(l[k]) >= 1,
{
    assert(l.subrange(0, k + 1) =~= l.subrange(0, k) + seq![l[k]]);
    lemma_encode_concat(l.subrange(0, k), seq![l[k]]);
    lemma_encode_one(l[k]);
}

/// Byte offsets grow strictly with character positions.
pub proof fn lemma_byte_pos_mono(l: Seq<char>, j: int, k: int)
    requires
        0 <= j <= k <= l.len(),
    ensures
        byte_pos(l, j) + (k - j) <= byte_pos(l, k),
    decreases k - j,
{
    if j < k {
        lemma_byte_pos_step(l, k - 1);
        lemma_byte_pos_mono(l, j, k - 1);
    }
}

/// No byte offset is past the length of the encoding.
pub proof fn lemma_byte_pos_total(l: Seq<char>, k: int)
    requires
        0 <= k <= l.len(),
    ensures
        byte_pos(l, k) <= encode_utf8(l).len(),
        byte_pos(l, l.len() as int) == encode_utf8(l).len(),
{
    assert(l.subrange(0, l.len() as int) =~= l);
    lemma_byte_pos_mono(l, k, l.len() as int);
}

/// `char_pos` inverts `byte_pos`.
pub proof fn lemma_char_pos(l: Seq<char>, k: int)
    requires
        0 <= k <= l.len(),
    ensures
        char_pos(l, byte_pos(l, k)) == k,
{
    let c = char_pos(l, byte_pos(l, k));
    assert(0 <= c <= l.len() && byte_pos(l, c) == byte_pos(l, k));
    if c < k {
        lemma_byte_pos_mono(l, c, k);
    } else if k < c {
        lemma_byte_pos_mono(l, k, c);
    }
}

/// Byte offsets depend on the characters before the position only.
pub proof fn lemma_byte_pos_prefix(a: Seq<char>, b: Seq<char>, k: int)
    requires
        0 <= k <= a.len(),
        k <= b.len(),
        a.subrange(0, k) == b.subrange(0, k),
    ensures
        byte_pos(a, k) == byte_pos(b, k),
{
}

pub fn utf8_width_exec(c: char) -> (r: usize)
    ensures
        r == utf8_width(c),
{
    let u = c as u32;
    if u <= 0x7F {
        1
    } else if u <= 0x7FF {
        2
    } else if u <= 0xFFFF {
        3
    } else {
        4
    }
}

/// The byte offset of character `k` of `line`.
pub fn byte_pos_exec(line: &str, l: &Vec<char>, k: usize) -> (r: usize)
    requires
        l@ == line@,
        k <= l@.len(),
    ensures
        r == byte_pos(l@, k as int),
{
    let total = line.as_bytes().len();
    proof {
        lemma_byte_pos_total(l@, k as int);
    }
    let mut acc: usize = 0;
    let mut i: usize = 0;
    assert(l@.subrange(0, 0) =~= Seq::<char>::empty());
    while i < k
        invariant
            i <= k <= l@.len(),
            l@ == line@,
            total == encode_utf8(l@).len(),
            acc == byte_pos(l@, i as int),
        decreases k - i,
    {
        proof {
            lemma_byte_pos_step(l@, i as int);
            lemma_byte_pos_total(l@, i + 1);
        }
        acc = acc + utf8_width_exec(l[i]);
        i = i + 1;
    }
    acc
}

/// The character of `l` that starts at byte offset `b`, given that one does.
pub fn char_pos_exec(line: &str, l: &Vec<char>, b: usize) -> (r: usize)
    requires
        l@ == line@,
        exists|k: int| 0 <= k <= l@.len() && byte_pos(l@, k) == b,
    ensures
        r == char_pos(l@, b as int),
        r <= l@.len(),
{
    let ghost target = choose|k: int| 0 <= k <= l@.len() && byte_pos(l@, k) == b;
    proof {
        lemma_char_pos(l@, target);
    }
    let total = line.as_bytes().len();
    let n = l.len();
    let mut acc: usize = 0;
    let mut i: usize = 0;
    assert(l@.subrange(0, 0) =~= Seq::<char>::empty());
    while acc < b
        invariant
            n == l@.len(),
            i <= target,
            0 <= target <= l@.len(),
            byte_pos(l@, target) == b,
            l@ == line@,
            total == encode_utf8(l@).len(),
            acc == byte_pos(l@, i as int),
        decreases target - i,
    {
        proof {
            if i == target {
                assert(false);
            }
            lemma_byte_pos_step(l@, i as int);
            lemma_byte_pos_total(l@, i + 1);
            lemma_byte_pos_mono(l@, i + 1, target);
        }
        acc = acc + utf8_width_exec(l[i]);
        i = i + 1;
    }
    proof {
        if i < target {
            lemma_byte_pos_mono(l@, i as int, target);
            assert(false);
        }
    }
    i
}

} // verus!
