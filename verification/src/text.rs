//! Character-level helpers on which the string functions and the parser are built.
use vstd::prelude::*;

verus! {

/// ASCII lower-casing of one character; other characters are unchanged.
pub open spec fn lower_char(c: char) -> char {
    if 'A' <= c && c <= 'Z' {
        ((c as u32) + 32) as char
    } else {
        c
    }
}

/// ASCII upper-casing of one character; other characters are unchanged.
pub open spec fn upper_char(c: char) -> char {
    if 'a' <= c && c <= 'z' {
        ((c as u32) - 32) as char
    } else {
        c
    }
}

pub open spec fn lower_seq(s: Seq<char>) -> Seq<char> {
    s.map_values(|c: char| lower_char(c))
}

pub open spec fn upper_seq(s: Seq<char>) -> Seq<char> {
    s.map_values(|c: char| upper_char(c))
}

/// Lexicographic comparison by code point: -1, 0 or 1.
pub open spec fn seq_order(a: Seq<char>, b: Seq<char>) -> int
    decreases a.len(),
{
    if a.len() == 0 {
        if b.len() == 0 { 0 } else { -1 }
    } else if b.len() == 0 {
        1
    } else if a[0] < b[0] {
        -1
    } else if a[0] > b[0] {
        1
    } else {
        seq_order(a.drop_first(), b.drop_first())
    }
}

/// Whether `needle` occurs in `hay` starting at index `i`.
pub open spec fn occurs_at(hay: Seq<char>, needle: Seq<char>, i: int) -> bool {
    0 <= i && i + needle.len() <= hay.len() && hay.subrange(i, i + needle.len()) == needle
}

/// The first index at or after `i` at which `needle` occurs in `hay`, if any.
pub open spec fn find_from(hay: Seq<char>, needle: Seq<char>, i: int) -> Option<int>
    decreases hay.len() + 1 - i,
{
    if i < 0 || i + needle.len() > hay.len() {
        None
    } else if occurs_at(hay, needle, i) {
        Some(i)
    } else {
        find_from(hay, needle, i + 1)
    }
}

/// The first index at which `needle` occurs in `hay`, if any.
pub open spec fn find_first(hay: Seq<char>, needle: Seq<char>) -> Option<int> {
    find_from(hay, needle, 0)
}

pub open spec fn digit_char(d: int) -> char {
    if 0 <= d && d <= 9 { (('0' as u32) + d) as char } else { '?' }
}

/// Decimal digits of a natural number, most significant first.
pub open spec fn nat_digits(n: nat) -> Seq<char>
    decreases n,
{
    if n < 10 {
        seq![digit_char(n as int)]
    } else {
        nat_digits(n / 10).push(digit_char((n % 10) as int))
    }
}

/// The decimal text of an integer, with a leading '-' for negatives.
pub open spec fn int_text(i: int) -> Seq<char> {
    if i < 0 { seq!['-'] + nat_digits((-i) as nat) } else { nat_digits(i as nat) }
}

pub open spec fn hex_char(d: int) -> char {
    if 0 <= d && d <= 9 {
        (('0' as u32) + d) as char
    } else if 10 <= d && d <= 15 {
        (('A' as u32) + d - 10) as char
    } else {
        '?'
    }
}

/// Upper-case hexadecimal digits of a natural number, without padding.
pub open spec fn hex_digits(n: nat) -> Seq<char>
    decreases n,
{
    if n < 16 {
        seq![hex_char(n as int)]
    } else {
        hex_digits(n / 16).push(hex_char((n % 16) as int))
    }
}

/// The characters of a string slice.
pub fn chars_of(s: &str) -> (v: Vec<char>)
    ensures
        v@ == s@,
{
    let mut v: Vec<char> = Vec::new();
    for c in it: s.chars()
        invariant
            v@ == it.seq().take(it.index() as int),
            it.seq() == s@,
    {
        v.push(c);
    }
    v
}

/// Appends one character (`String::push`).
#[verifier::external_body]
pub(crate) fn push_char(s: &mut String, c: char)
    ensures
        final(s)@ == old(s)@.push(c),
{
    s.push(c);
}

/// A string holding exactly the given characters.
pub fn string_of(v: &[char]) -> (s: String)
    ensures
        s@ == v@,
{
    let mut s = String::new();
    let mut i: usize = 0;
    while i < v.len()
        invariant
            i <= v.len(),
            s@ == v@.take(i as int),
        decreases v.len() - i,
    {
        push_char(&mut s, v[i]);
        i += 1;
        assert(v@.take(i as int) == v@.take((i - 1) as int).push(v@[i - 1]));
    }
    assert(v@.take(v.len() as int) == v@);
    s
}

/// The characters `v[lo..hi]` as a string.
pub fn string_of_range(v: &Vec<char>, lo: usize, hi: usize) -> (s: String)
    requires
        lo <= hi <= v.len(),
    ensures
        s@ == v@.subrange(lo as int, hi as int),
{
    let mut s = String::new();
    let mut i: usize = lo;
    while i < hi
        invariant
            lo <= i <= hi <= v.len(),
            s@ == v@.subrange(lo as int, i as int),
        decreases hi - i,
    {
        push_char(&mut s, v[i]);
        i += 1;
        assert(v@.subrange(lo as int, i as int) == v@.subrange(lo as int, i - 1).push(v@[i - 1]));
    }
    s
}

/// Equality of two string slices.
pub fn str_eq(a: &str, b: &str) -> (r: bool)
    ensures
        r == (a@ == b@),
{
    a.to_owned() == b.to_owned()
}

/// Upper-case hexadecimal digits of a natural number.
pub fn hex_to_string(n: u64) -> (s: String)
    ensures
        s@ == hex_digits(n as nat),
    decreases n,
{
    let d = n % 16;
    let c: char = if d < 10 {
        let b: u8 = 48 + (d as u8);
        (b as char)
    } else {
        let b: u8 = 55 + (d as u8);
        (b as char)
    };
    assert(c == hex_char(d as int));
    if n < 16 {
        let mut s = String::new();
        push_char(&mut s, c);
        s
    } else {
        let mut s = hex_to_string(n / 16);
        push_char(&mut s, c);
        s
    }
}

/// Concatenation of two strings.
pub fn concat_str(a: &str, b: &str) -> (s: String)
    ensures
        s@ == a@ + b@,
{
    let mut s = a.to_owned();
    s.append(b);
    s
}

pub fn lower_char_exec(c: char) -> (r: char)
    ensures
        r == lower_char(c),
{
    if 'A' <= c && c <= 'Z' {
        let u = (c as u8) + 32;
        assert((c as u32) < 128);
        (u as char)
    } else {
        c
    }
}


pub fn upper_char_exec(c: char) -> (r: char)
    ensures
        r == upper_char(c),
{
    if 'a' <= c && c <= 'z' {
        let u = (c as u8) - 32;
        (u as char)
    } else {
        c
    }
}

/// ASCII lower-casing of a string.
pub fn lower_str(s: &str) -> (r: String)
    ensures
        r@ == lower_seq(s@),
{
    let v = chars_of(s);
    let mut out: Vec<char> = Vec::new();
    let mut i: usize = 0;
    while i < v.len()
        invariant
            i <= v.len(),
            out@ == lower_seq(v@.take(i as int)),
        decreases v.len() - i,
    {
        out.push(lower_char_exec(v[i]));
        i += 1;
        assert(lower_seq(v@.take(i as int)) == lower_seq(v@.take((i - 1) as int)).push(lower_char(v@[i - 1])));
    }
    assert(v@.take(v.len() as int) == v@);
    string_of(out.as_slice())
}

/// ASCII upper-casing of a string.
pub fn upper_str(s: &str) -> (r: String)
    ensures
        r@ == upper_seq(s@),
{
    let v = chars_of(s);
    let mut out: Vec<char> = Vec::new();
    let mut i: usize = 0;
    while i < v.len()
        invariant
            i <= v.len(),
            out@ == upper_seq(v@.take(i as int)),
        decreases v.len() - i,
    {
        out.push(upper_char_exec(v[i]));
        i += 1;
        assert(upper_seq(v@.take(i as int)) == upper_seq(v@.take((i - 1) as int)).push(upper_char(v@[i - 1])));
    }
    assert(v@.take(v.len() as int) == v@);
    string_of(out.as_slice())
}

/// Lexicographic comparison by code point.
pub fn order_strs(a: &str, b: &str) -> (r: i8)
    ensures
        r as int == seq_order(a@, b@),
{
    let x = chars_of(a);
    let y = chars_of(b);
    let mut i: usize = 0;
    assert(x@.skip(0) == x@);
    assert(y@.skip(0) == y@);
    while i < x.len() && i < y.len() && x[i] == y[i]
        invariant
            i <= x.len(),
            i <= y.len(),
            seq_order(x@, y@) == seq_order(x@.skip(i as int), y@.skip(i as int)),
        decreases x.len() - i,
    {
        proof {
            let xs = x@.skip(i as int);
            let ys = y@.skip(i as int);
            assert(xs[0] == ys[0]);
            assert(xs.drop_first() == x@.skip(i + 1));
            assert(ys.drop_first() == y@.skip(i + 1));
        }
        i += 1;
    }
    assert(x@.skip(i as int).len() == x.len() - i);
    assert(y@.skip(i as int).len() == y.len() - i);
    assert(i < x.len() ==> x@.skip(i as int)[0] == x@[i as int]);
    assert(i < y.len() ==> y@.skip(i as int)[0] == y@[i as int]);
    if i == x.len() {
        if i == y.len() { 0 } else { -1 }
    } else if i == y.len() {
        1
    } else if x[i] < y[i] {
        -1
    } else {
        1
    }
}

/// Whether `needle` occurs in `hay` at index `i` (executable form).
fn occurs_at_exec(hay: &Vec<char>, needle: &Vec<char>, i: usize) -> (r: bool)
    ensures
        r == occurs_at(hay@, needle@, i as int),
{
    if i > hay.len() || needle.len() > hay.len() - i {
        return false;
    }
    let mut k: usize = 0;
    while k < needle.len()
        invariant
            k <= needle.len(),
            i + needle.len() <= hay.len(),
            forall|j: int| 0 <= j < k ==> hay@[i + j] == needle@[j],
        decreases needle.len() - k,
    {
        if hay[i + k] != needle[k] {
            assert(hay@.subrange(i as int, i + needle.len())[k as int] != needle@[k as int]);
            return false;
        }
        k += 1;
    }
    assert(hay@.subrange(i as int, i + needle.len()) == needle@);
    true
}

/// The first index at which `needle` occurs in `hay`, if any.
pub fn find_str(hay: &str, needle: &str) -> (r: Option<usize>)
    ensures
        match r {
            Some(i) => find_first(hay@, needle@) == Some(i as int),
            None => find_first(hay@, needle@) is None,
        },
{
    let h = chars_of(hay);
    let n = chars_of(needle);
    if n.len() > h.len() {
        return None;
    }
    let last = h.len() - n.len();
    let mut i: usize = 0;
    while i <= last
        invariant
            h@ == hay@,
            n@ == needle@,
            last == h.len() - n.len(),
            i <= last,
            find_first(h@, n@) == find_from(h@, n@, i as int),
        decreases last - i,
    {
        if occurs_at_exec(&h, &n, i) {
            return Some(i);
        }
        if i == last {
            assert(find_from(h@, n@, i + 1) is None);
            return None;
        }
        i += 1;
    }
    None
}

pub fn starts_with_str(hay: &str, prefix: &str) -> (r: bool)
    ensures
        r == prefix@.is_prefix_of(hay@),
{
    let h = chars_of(hay);
    let p = chars_of(prefix);
    let r = occurs_at_exec(&h, &p, 0);
    proof {
        if r {
            assert(h@.subrange(0, p@.len() as int) == p@);
            assert forall|k: int| 0 <= k < p@.len() implies p@[k] == h@[k] by {
                assert(h@.subrange(0, p@.len() as int)[k] == h@[k]);
            }
        } else if p@.is_prefix_of(h@) {
            assert(h@.subrange(0, p@.len() as int) == p@);
        }
    }
    r
}

pub fn ends_with_str(hay: &str, suffix: &str) -> (r: bool)
    ensures
        r == suffix@.is_suffix_of(hay@),
{
    let h = chars_of(hay);
    let p = chars_of(suffix);
    if p.len() > h.len() {
        return false;
    }
    let r = occurs_at_exec(&h, &p, h.len() - p.len());
    proof {
        let st = h@.len() - p@.len();
        if r {
            assert forall|k: int| 0 <= k < p@.len() implies p@[k] == h@[st + k] by {
                assert(h@.subrange(st, st + p@.len())[k] == h@[st + k]);
            }
        } else if suffix@.is_suffix_of(hay@) {
            assert(h@.subrange(st, st + p@.len()) == p@);
        }
    }
    r
}

/// Different numbers have different decimal digits.
pub proof fn lemma_nat_digits_injective(a: nat, b: nat)
    requires
        nat_digits(a) == nat_digits(b),
    ensures
        a == b,
    decreases a,
{
    lemma_nat_digits_len(a / 10);
    lemma_nat_digits_len(b / 10);
    if a < 10 && b < 10 {
        assert(nat_digits(a) == seq![digit_char(a as int)]);
        assert(nat_digits(b) == seq![digit_char(b as int)]);
        assert(nat_digits(a)[0] == digit_char(a as int));
        assert(nat_digits(b)[0] == digit_char(b as int));
        lemma_digit_char_injective(a as int, b as int);
    } else if a < 10 {
        assert(nat_digits(b).len() == nat_digits(b / 10).len() + 1);
    } else if b < 10 {
        assert(nat_digits(a).len() == nat_digits(a / 10).len() + 1);
    } else {
        let da = nat_digits(a);
        let db = nat_digits(b);
        assert(da.last() == db.last());
        assert(da.drop_last() =~= nat_digits(a / 10));
        assert(db.drop_last() =~= nat_digits(b / 10));
        lemma_nat_digits_injective(a / 10, b / 10);
        lemma_digit_char_injective((a % 10) as int, (b % 10) as int);
    }
}

proof fn lemma_digit_char_injective(a: int, b: int)
    requires
        0 <= a <= 9,
        0 <= b <= 9,
        digit_char(a) == digit_char(b),
    ensures
        a == b,
{
    assert((digit_char(a) as u32) == 48 + a);
    assert((digit_char(b) as u32) == 48 + b);
}

pub proof fn lemma_nat_digits_len(n: nat)
    ensures
        nat_digits(n).len() >= 1,
    decreases n,
{
    if n >= 10 {
        lemma_nat_digits_len(n / 10);
    }
}

fn digit_exec(d: u64) -> (c: char)
    requires
        d < 10,
    ensures
        c == digit_char(d as int),
{
    let b: u8 = 48 + (d as u8);
    (b as char)
}

/// The decimal digits of a natural number.
pub fn nat_to_string(n: u64) -> (s: String)
    ensures
        s@ == nat_digits(n as nat),
    decreases n,
{
    if n < 10 {
        let mut s = String::new();
        push_char(&mut s, digit_exec(n));
        s
    } else {
        let mut s = nat_to_string(n / 10);
        push_char(&mut s, digit_exec(n % 10));
        s
    }
}

/// The decimal text of a 64-bit signed integer.
pub fn int_to_string(n: i64) -> (s: String)
    ensures
        s@ == int_text(n as int),
{
    if n < 0 {
        let m: u64 = if n == i64::MIN { 9223372036854775808u64 } else { (-n) as u64 };
        let d = nat_to_string(m);
        proof {
            reveal_strlit("-");
        }
        concat_str("-", d.as_str())
    } else {
        nat_to_string(n as u64)
    }
}

} // verus!
