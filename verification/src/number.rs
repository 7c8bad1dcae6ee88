//! Reading numbers the way C's `strtol` (base 10) and `strtod` do, with the whole text consumed.
use vstd::prelude::*;
use crate::text::{chars_of, lower_char, lower_char_exec};

verus! {

/// The text up to (not including) the first NUL character.
pub open spec fn c_text(s: Seq<char>) -> Seq<char>
    decreases s.len(),
{
    if s.len() == 0 {
        s
    } else if s[0] == '\0' {
        Seq::empty()
    } else {
        seq![s[0]] + c_text(s.drop_first())
    }
}

/// White space as C's `isspace` sees it in the "C" locale.
pub open spec fn is_c_space(c: char) -> bool {
    c == ' ' || c == '\t' || c == '\n' || c == '\x0B' || c == '\x0C' || c == '\r'
}

pub open spec fn is_digit(c: char) -> bool {
    '0' <= c && c <= '9'
}

/// The number of leading white-space characters.
pub open spec fn leading_spaces(s: Seq<char>) -> nat
    decreases s.len(),
{
    if s.len() > 0 && is_c_space(s[0]) { 1 + leading_spaces(s.drop_first()) } else { 0 }
}

/// The number of leading decimal digits.
pub open spec fn leading_digits(s: Seq<char>) -> nat
    decreases s.len(),
{
    if s.len() > 0 && is_digit(s[0]) { 1 + leading_digits(s.drop_first()) } else { 0 }
}

/// The value of a run of decimal digits.
pub open spec fn digits_value(s: Seq<char>) -> nat
    decreases s.len(),
{
    if s.len() == 0 {
        0
    } else {
        digits_value(s.drop_last()) * 10 + ((s.last() as int) - ('0' as int)) as nat
    }
}

/// `strtol` saturates at the bounds of a 64-bit `long`.
pub open spec fn clamp_i64(v: int) -> i64 {
    if v > i64::MAX { i64::MAX } else if v < i64::MIN { i64::MIN } else { v as i64 }
}

/// What `strtol(text, &end, 10)` yields when `*end` is the terminating NUL; `None` otherwise.
pub open spec fn strtol_whole(s: Seq<char>) -> Option<i64> {
    let c = c_text(s);
    let rest = c.skip(leading_spaces(c) as int);
    let neg = rest.len() > 0 && rest[0] == '-';
    let signed = rest.len() > 0 && (rest[0] == '-' || rest[0] == '+');
    let ds = if signed { rest.drop_first() } else { rest };
    let n = leading_digits(ds);
    if n == 0 {
        // No conversion: the end pointer is the start of the text.
        if c.len() == 0 { Some(0i64) } else { None }
    } else if n == ds.len() {
        Some(clamp_i64(if neg { -(digits_value(ds) as int) } else { digits_value(ds) as int }))
    } else {
        None
    }
}

proof fn lemma_c_text(s: Seq<char>, k: int)
    requires
        0 <= k <= s.len(),
        forall|i: int| 0 <= i < k ==> s[i] != '\0',
        k == s.len() || s[k] == '\0',
    ensures
        c_text(s) == s.take(k),
    decreases s.len(),
{
    if s.len() > 0 && k > 0 {
        lemma_c_text(s.drop_first(), k - 1);
        assert(s.take(k) == seq![s[0]] + s.drop_first().take(k - 1));
    }
}

proof fn lemma_leading_spaces(s: Seq<char>, k: int)
    requires
        0 <= k <= s.len(),
        forall|i: int| 0 <= i < k ==> is_c_space(s[i]),
        k == s.len() || !is_c_space(s[k]),
    ensures
        leading_spaces(s) == k,
    decreases s.len(),
{
    if s.len() > 0 && k > 0 {
        lemma_leading_spaces(s.drop_first(), k - 1);
    }
}

proof fn lemma_leading_digits(s: Seq<char>, k: int)
    requires
        0 <= k <= s.len(),
        forall|i: int| 0 <= i < k ==> is_digit(s[i]),
        k == s.len() || !is_digit(s[k]),
    ensures
        leading_digits(s) == k,
    decreases s.len(),
{
    if s.len() > 0 && k > 0 {
        lemma_leading_digits(s.drop_first(), k - 1);
    }
}

proof fn lemma_digits_value_mono(s: Seq<char>, c: char)
    requires
        is_digit(c),
    ensures
        digits_value(s.push(c)) >= digits_value(s) * 10,
        digits_value(s.push(c)) == digits_value(s) * 10 + ((c as int) - ('0' as int)),
{
    assert(s.push(c).drop_last() == s);
}

/// Reads a decimal integer as `strtol` does in base 10; `None` unless the whole text
/// (up to any NUL) is consumed.
pub fn strtol_whole_exec(text: &str) -> (r: Option<i64>)
    ensures
        r == strtol_whole(text@),
{
    let v = chars_of(text);
    // Length of the C string.
    let mut clen: usize = 0;
    while clen < v.len() && v[clen] != '\0'
        invariant
            clen <= v.len(),
            forall|i: int| 0 <= i < clen ==> v@[i] != '\0',
        decreases v.len() - clen,
    {
        clen += 1;
    }
    proof {
        lemma_c_text(v@, clen as int);
    }
    let ghost c = v@.take(clen as int);
    assert(c == c_text(text@));
    let mut i: usize = 0;
    while i < clen && (v[i] == ' ' || v[i] == '\t' || v[i] == '\n' || v[i] == '\x0B' || v[i] == '\x0C' || v[i] == '\r')
        invariant
            i <= clen <= v.len(),
            c == v@.take(clen as int),
            forall|j: int| 0 <= j < i ==> is_c_space(c[j]),
        decreases clen - i,
    {
        i += 1;
    }
    proof {
        lemma_leading_spaces(c, i as int);
    }
    let ghost rest = c.skip(i as int);
    let mut neg = false;
    let mut j = i;
    if i < clen && (v[i] == '-' || v[i] == '+') {
        neg = v[i] == '-';
        j = i + 1;
    }
    let ghost ds = c.skip(j as int);
    assert(ds == (if rest.len() > 0 && (rest[0] == '-' || rest[0] == '+') { rest.drop_first() } else { rest }));
    let start = j;
    // Saturating accumulation: 2^63 is enough to clamp at either bound.
    let big: u64 = 0x8000_0000_0000_0000;
    let mut acc: u64 = 0;
    while j < clen && '0' <= v[j] && v[j] <= '9'
        invariant
            start <= j <= clen <= v.len(),
            big == 0x8000_0000_0000_0000u64,
            c == v@.take(clen as int),
            ds == c.skip(start as int),
            forall|k: int| start <= k < j ==> is_digit(c[k]),
            acc as int == if digits_value(c.subrange(start as int, j as int)) >= big as int {
                big as int
            } else {
                digits_value(c.subrange(start as int, j as int)) as int
            },
        decreases clen - j,
    {
        let ch = v[j];
        assert(('0' as u32) == 48 && ('9' as u32) == 57);
        assert(48 <= (ch as u32) <= 57);
        let d = ((ch as u32) - 48) as u64;
        proof {
            assert(c.subrange(start as int, j + 1) == c.subrange(start as int, j as int).push(c[j as int]));
            lemma_digits_value_mono(c.subrange(start as int, j as int), c[j as int]);
        }
        if acc >= big / 10 + 1 {
            acc = big;
        } else {
            assert(acc <= 922337203685477580);
            assert(d <= 9);
            assert(acc * 10 + d <= 9223372036854775809) by (nonlinear_arith)
                requires
                    acc <= 922337203685477580,
                    d <= 9,
            ;
            let t = acc * 10 + d;
            acc = if t >= big { big } else { t };
        }
        j += 1;
    }
    proof {
        lemma_leading_digits(ds, (j - start) as int);
        assert(c.subrange(start as int, j as int) == ds.take((j - start) as int));
    }
    if j == start {
        if clen == 0 { Some(0) } else { None }
    } else if j == clen {
        proof {
            assert(ds.take((j - start) as int) == ds);
        }
        if neg {
            if acc == big { Some(i64::MIN) } else { Some(-(acc as i64)) }
        } else {
            if acc == big { Some(i64::MAX) } else { Some(acc as i64) }
        }
    } else {
        None
    }
}

// ---- strtod -------------------------------------------------------------------------------

/// The character at `i`, or NUL past either end.
pub open spec fn char_at(c: Seq<char>, i: int) -> char {
    if 0 <= i < c.len() { c[i] } else { '\0' }
}

pub open spec fn is_hex_digit(ch: char) -> bool {
    is_digit(ch) || ('a' <= ch && ch <= 'f') || ('A' <= ch && ch <= 'F')
}

pub open spec fn is_nan_char(ch: char) -> bool {
    is_digit(ch) || ('a' <= ch && ch <= 'z') || ('A' <= ch && ch <= 'Z') || ch == '_'
}

/// The number of consecutive decimal digits from `i`.
pub open spec fn digit_run(c: Seq<char>, i: int) -> nat
    decreases c.len() - i,
{
    if 0 <= i < c.len() && is_digit(c[i]) { 1 + digit_run(c, i + 1) } else { 0 }
}

/// The number of consecutive hexadecimal digits from `i`.
pub open spec fn hex_run(c: Seq<char>, i: int) -> nat
    decreases c.len() - i,
{
    if 0 <= i < c.len() && is_hex_digit(c[i]) { 1 + hex_run(c, i + 1) } else { 0 }
}

/// The number of consecutive characters of a NaN payload from `i`.
pub open spec fn nan_run(c: Seq<char>, i: int) -> nat
    decreases c.len() - i,
{
    if 0 <= i < c.len() && is_nan_char(c[i]) { 1 + nan_run(c, i + 1) } else { 0 }
}

/// Where an optional exponent (`e`, or `p` for hexadecimal) that may follow `m` ends: it
/// needs at least one decimal digit after its optional sign, else nothing of it is read.
pub open spec fn exponent_end(c: Seq<char>, m: int, lo: char, hi: char) -> int {
    if char_at(c, m) == lo || char_at(c, m) == hi {
        let j = m + 1 + (if char_at(c, m + 1) == '+' || char_at(c, m + 1) == '-' { 1int } else { 0int });
        let d = digit_run(c, j);
        if d > 0 { j + d } else { m }
    } else {
        m
    }
}

/// Where a decimal number starting at `i` ends, if it has a digit.
pub open spec fn decimal_end(c: Seq<char>, i: int) -> Option<int> {
    let a = digit_run(c, i);
    let frac = char_at(c, i + a) == '.';
    let b = if frac { digit_run(c, i + a + 1) } else { 0 };
    if a + b == 0 {
        None
    } else {
        Some(exponent_end(c, if frac { i + a + 1 + b } else { i + a }, 'e', 'E'))
    }
}

/// Where a hexadecimal number ("0x", digits, an optional fraction and binary exponent)
/// starting at `i` ends, if it has a digit after "0x".
pub open spec fn hex_end(c: Seq<char>, i: int) -> Option<int> {
    if char_at(c, i) == '0' && (char_at(c, i + 1) == 'x' || char_at(c, i + 1) == 'X') {
        let h = i + 2;
        let a = hex_run(c, h);
        let frac = char_at(c, h + a) == '.';
        let b = if frac { hex_run(c, h + a + 1) } else { 0 };
        if a + b == 0 {
            None
        } else {
            Some(exponent_end(c, if frac { h + a + 1 + b } else { h + a }, 'p', 'P'))
        }
    } else {
        None
    }
}

/// Whether the letters from `i` spell `word` (in lower case), ignoring ASCII case.
pub open spec fn word_at(c: Seq<char>, i: int, word: Seq<char>) -> bool {
    forall|k: int| 0 <= k < word.len() ==> lower_char(#[trigger] char_at(c, i + k)) == word[k]
}

/// Where "inf", "infinity", "nan" or "nan(payload)" starting at `i` ends.
pub open spec fn special_end(c: Seq<char>, i: int) -> Option<int> {
    if word_at(c, i, "infinity"@) {
        Some(i + 8)
    } else if word_at(c, i, "inf"@) {
        Some(i + 3)
    } else if word_at(c, i, "nan"@) {
        let k = nan_run(c, i + 4);
        if char_at(c, i + 3) == '(' && char_at(c, i + 4 + k) == ')' { Some(i + 5 + k) } else { Some(i + 3) }
    } else {
        None
    }
}

/// Where `strtod` stops reading `c`; `None` when it converts nothing.
pub open spec fn strtod_end(c: Seq<char>) -> Option<int> {
    let i0 = leading_spaces(c) as int;
    let i = i0 + (if char_at(c, i0) == '+' || char_at(c, i0) == '-' { 1int } else { 0int });
    match hex_end(c, i) {
        Some(e) => Some(e),
        None => match special_end(c, i) {
            Some(e) => Some(e),
            None => decimal_end(c, i),
        },
    }
}

/// Whether `strtod(text, &end)` leaves `*end` at the terminating NUL.
pub open spec fn strtod_whole(s: Seq<char>) -> bool {
    let c = c_text(s);
    c.len() == 0 || strtod_end(c) == Some(c.len() as int)
}

fn char_at_exec(v: &Vec<char>, i: usize) -> (r: char)
    ensures
        r == char_at(v@, i as int),
{
    if i < v.len() { v[i] } else { '\0' }
}

fn digit_run_exec(v: &Vec<char>, i: usize) -> (r: usize)
    requires
        i <= v@.len(),
    ensures
        r == digit_run(v@, i as int),
        i + r <= v@.len(),
{
    let mut j = i;
    while j < v.len() && '0' <= v[j] && v[j] <= '9'
        invariant
            i <= j <= v@.len(),
            digit_run(v@, i as int) == (j - i) + digit_run(v@, j as int),
        decreases v.len() - j,
    {
        j += 1;
    }
    j - i
}

fn hex_run_exec(v: &Vec<char>, i: usize) -> (r: usize)
    requires
        i <= v@.len(),
    ensures
        r == hex_run(v@, i as int),
        i + r <= v@.len(),
{
    let mut j = i;
    while j < v.len() && (('0' <= v[j] && v[j] <= '9') || ('a' <= v[j] && v[j] <= 'f') || ('A' <= v[j] && v[j] <= 'F'))
        invariant
            i <= j <= v@.len(),
            hex_run(v@, i as int) == (j - i) + hex_run(v@, j as int),
        decreases v.len() - j,
    {
        j += 1;
    }
    j - i
}

fn nan_run_exec(v: &Vec<char>, i: usize) -> (r: usize)
    requires
        i <= v@.len(),
    ensures
        r == nan_run(v@, i as int),
        i + r <= v@.len(),
{
    let mut j = i;
    while j < v.len() && (('0' <= v[j] && v[j] <= '9') || ('a' <= v[j] && v[j] <= 'z') || ('A' <= v[j] && v[j] <= 'Z') || v[j] == '_')
        invariant
            i <= j <= v@.len(),
            nan_run(v@, i as int) == (j - i) + nan_run(v@, j as int),
        decreases v.len() - j,
    {
        j += 1;
    }
    j - i
}

fn exponent_end_exec(v: &Vec<char>, m: usize, lo: char, hi: char) -> (r: usize)
    requires
        m <= v@.len(),
        lo != '\0',
        hi != '\0',
    ensures
        r == exponent_end(v@, m as int, lo, hi),
        m <= r <= v@.len(),
{
    assert(v@.len() == v.len());
    if m < v.len() && (v[m] == lo || v[m] == hi) {
        let j = if m + 1 < v.len() && (v[m + 1] == '+' || v[m + 1] == '-') { m + 2 } else { m + 1 };
        let d = digit_run_exec(v, j);
        assert(j + d <= v@.len());
        if d > 0 { j + d } else { m }
    } else {
        m
    }
}

fn decimal_end_exec(v: &Vec<char>, i: usize) -> (r: Option<usize>)
    requires
        i <= v@.len(),
    ensures
        r matches Some(e) ==> e <= v@.len(),
        match decimal_end(v@, i as int) {
            Some(e) => 0 <= e <= v@.len() && r == Some(e as usize),
            None => r is None,
        },
{
    let a = digit_run_exec(v, i);
    assert(i + a <= v@.len());
    assert(v@.len() == v.len());
    let frac = char_at_exec(v, i + a) == '.';
    let b = if frac { digit_run_exec(v, i + a + 1) } else { 0 };
    if a == 0 && b == 0 {
        None
    } else {
        let m = if frac { i + a + 1 + b } else { i + a };
        Some(exponent_end_exec(v, m, 'e', 'E'))
    }
}

fn hex_end_exec(v: &Vec<char>, i: usize) -> (r: Option<usize>)
    requires
        i <= v@.len(),
    ensures
        r matches Some(e) ==> e <= v@.len(),
        match hex_end(v@, i as int) {
            Some(e) => 0 <= e <= v@.len() && r == Some(e as usize),
            None => r is None,
        },
{
    if v.len() - i >= 2 && v[i] == '0' && (v[i + 1] == 'x' || v[i + 1] == 'X') {
        let h = i + 2;
        let a = hex_run_exec(v, h);
        let frac = char_at_exec(v, h + a) == '.';
        let b = if frac { hex_run_exec(v, h + a + 1) } else { 0 };
        if a == 0 && b == 0 {
            None
        } else {
            let m = if frac { h + a + 1 + b } else { h + a };
            Some(exponent_end_exec(v, m, 'p', 'P'))
        }
    } else {
        None
    }
}

fn word_at_exec(v: &Vec<char>, i: usize, word: &str) -> (r: bool)
    requires
        i <= v@.len(),
    ensures
        r == word_at(v@, i as int, word@),
{
    let w = chars_of(word);
    let mut k: usize = 0;
    while k < w.len()
        invariant
            k <= w@.len(),
            i <= v@.len(),
            w@ == word@,
            forall|q: int| 0 <= q < k ==> lower_char(#[trigger] char_at(v@, i + q)) == w@[q],
        decreases w.len() - k,
    {
        let ch = if k < v.len() - i { v[i + k] } else { '\0' };
        assert(ch == char_at(v@, i + k));
        if lower_char_exec(ch) != w[k] {
            assert(lower_char(char_at(v@, i + k)) != word@[k as int]);
            return false;
        }
        k += 1;
    }
    true
}

fn special_end_exec(v: &Vec<char>, i: usize) -> (r: Option<usize>)
    requires
        i <= v@.len(),
    ensures
        r matches Some(e) ==> e <= v@.len(),
        match special_end(v@, i as int) {
            Some(e) => 0 <= e <= v@.len() && r == Some(e as usize),
            None => r is None,
        },
{
    let n = v.len() - i;
    proof {
        reveal_strlit("infinity");
        reveal_strlit("inf");
        reveal_strlit("nan");
        assert(char_at(v@, i + n) == '\0');
        assert(lower_char('\0') == '\0');
    }
    if n >= 8 && word_at_exec(v, i, "infinity") {
        Some(i + 8)
    } else if n >= 3 && word_at_exec(v, i, "inf") {
        proof {
            if n < 8 {
                assert(lower_char(char_at(v@, i + n)) != "infinity"@[n as int]);
            }
        }
        Some(i + 3)
    } else if n >= 3 && word_at_exec(v, i, "nan") {
        proof {
            if n < 8 {
                assert(lower_char(char_at(v@, i + n)) != "infinity"@[n as int]);
            }
            assert(lower_char(char_at(v@, i + 0)) != "infinity"@[0]);
        }
        if n >= 4 && v[i + 3] == '(' {
            let k = nan_run_exec(v, i + 4);
            if char_at_exec(v, i + 4 + k) == ')' {
                return Some(i + 5 + k);
            }
        }
        Some(i + 3)
    } else {
        proof {
            if n < 8 {
                assert(lower_char(char_at(v@, i + n)) != "infinity"@[n as int]);
            }
            if n < 3 {
                assert(lower_char(char_at(v@, i + n)) != "inf"@[n as int]);
                assert(lower_char(char_at(v@, i + n)) != "nan"@[n as int]);
            }
        }
        None
    }
}

/// Whether `strtod` reads the whole text (up to any NUL).
pub fn strtod_whole_exec(text: &str) -> (r: bool)
    ensures
        r == strtod_whole(text@),
{
    let v = chars_of(text);
    let mut clen: usize = 0;
    while clen < v.len() && v[clen] != '\0'
        invariant
            clen <= v.len(),
            forall|i: int| 0 <= i < clen ==> v@[i] != '\0',
        decreases v.len() - clen,
    {
        clen += 1;
    }
    proof {
        lemma_c_text(v@, clen as int);
    }
    let mut c: Vec<char> = Vec::new();
    let mut k: usize = 0;
    while k < clen
        invariant
            k <= clen <= v@.len(),
            c@ == v@.take(k as int),
        decreases clen - k,
    {
        c.push(v[k]);
        k += 1;
        assert(c@ == v@.take(k as int));
    }
    assert(c@ == c_text(text@));
    if c.len() == 0 {
        return true;
    }
    let mut i: usize = 0;
    while i < c.len() && (c[i] == ' ' || c[i] == '\t' || c[i] == '\n' || c[i] == '\x0B' || c[i] == '\x0C' || c[i] == '\r')
        invariant
            i <= c@.len(),
            forall|j: int| 0 <= j < i ==> is_c_space(c@[j]),
        decreases c.len() - i,
    {
        i += 1;
    }
    proof {
        lemma_leading_spaces(c@, i as int);
    }
    let sign = char_at_exec(&c, i);
    let j = if sign == '+' || sign == '-' { i + 1 } else { i };
    let end = match hex_end_exec(&c, j) {
        Some(e) => Some(e),
        None => match special_end_exec(&c, j) {
            Some(e) => Some(e),
            None => decimal_end_exec(&c, j),
        },
    };
    proof {
        let i0 = leading_spaces(c@) as int;
        assert(i0 == i);
        assert(j == i0 + (if char_at(c@, i0) == '+' || char_at(c@, i0) == '-' { 1int } else { 0int }));
        assert(match strtod_end(c@) {
            Some(e) => 0 <= e <= c@.len() && end == Some(e as usize),
            None => end is None,
        });
    }
    match end {
        Some(e) => e == c.len(),
        None => false,
    }
}

} // verus!
