//! Character classes and small string utilities shared by the parser and
//! the command generator.

use vstd::prelude::*;

verus! {

/// An ASCII control character: the range below space, and DEL.
pub open spec fn is_ctrl(c: char) -> bool {
    (c as u32) < 0x20 || (c as u32) == 0x7f
}

/// A printable ASCII character: ASCII and not a control character.
pub open spec fn is_printable(c: char) -> bool {
    0x20 <= (c as u32) && (c as u32) <= 0x7e
}

/// An ASCII decimal digit.
pub open spec fn is_digit(c: char) -> bool {
    0x30 <= (c as u32) && (c as u32) <= 0x39
}

/// The numeric value of an ASCII decimal digit.
pub open spec fn digit_val(c: char) -> int {
    c as u32 - 0x30
}

pub fn ctrl_char(c: char) -> (r: bool)
    ensures
        r == is_ctrl(c),
{
    let u = c as u32;
    u < 0x20 || u == 0x7f
}

pub fn printable_char(c: char) -> (r: bool)
    ensures
        r == is_printable(c),
{
    let u = c as u32;
    0x20 <= u && u <= 0x7e
}

pub fn digit_char(c: char) -> (r: bool)
    ensures
        r == is_digit(c),
{
    let u = c as u32;
    0x30 <= u && u <= 0x39
}

/// Whether the characters of `a` from `i` on spell out `p`.
pub open spec fn is_prefix_at(s: Seq<char>, i: int, p: Seq<char>) -> bool {
    0 <= i && i + p.len() <= s.len() && s.subrange(i, i + p.len()) == p
}

/// Character-by-character string comparison; `==` on `&str` carries no
/// specification, so the library compares through this function.
pub fn str_eq(a: &str, b: &str) -> (r: bool)
    ensures
        r == (a@ == b@),
{
    let an = a.unicode_len();
    let bn = b.unicode_len();
    if an != bn {
        assert(a@ =~= b@ ==> a@.len() == b@.len());
        return false;
    }
    let mut i: usize = 0;
    while i < an
        invariant
            an == a@.len(),
            an == b@.len(),
            0 <= i <= an,
            forall|k: int| 0 <= k < i ==> a@[k] == b@[k],
        decreases an - i,
    {
        if a.get_char(i) != b.get_char(i) {
            assert(a@[i as int] != b@[i as int]);
            assert(a@ =~= b@ ==> a@[i as int] == b@[i as int]);
            return false;
        }
        i += 1;
    }
    assert(a@ =~= b@);
    true
}

/// The end of the run of control characters that starts at `i`.
pub open spec fn ctrl_end(s: Seq<char>, i: int) -> int
    decreases s.len() - i when 0 <= i <= s.len()
{
    if i < s.len() && is_ctrl(s[i]) {
        ctrl_end(s, i + 1)
    } else {
        i
    }
}

/// The end of the run, starting at `i`, of printable characters that are
/// none of the characters of `stop`.
pub open spec fn run_end(s: Seq<char>, i: int, stop: Seq<char>) -> int
    decreases s.len() - i when 0 <= i <= s.len()
{
    if i < s.len() && is_printable(s[i]) && !stop.contains(s[i]) {
        run_end(s, i + 1, stop)
    } else {
        i
    }
}

/// The end of the run of decimal digits that starts at `i`.
pub open spec fn digits_end(s: Seq<char>, i: int) -> int
    decreases s.len() - i when 0 <= i <= s.len()
{
    if i < s.len() && is_digit(s[i]) {
        digits_end(s, i + 1)
    } else {
        i
    }
}

/// The position of the first occurrence of `c` at or after `i`, if any.
pub open spec fn find_char(s: Seq<char>, i: int, c: char) -> Option<int>
    decreases s.len() - i when 0 <= i <= s.len()
{
    if i >= s.len() {
        None
    } else if s[i] == c {
        Some(i)
    } else {
        find_char(s, i + 1, c)
    }
}

pub proof fn lemma_ctrl_end_range(s: Seq<char>, i: int)
    requires
        0 <= i <= s.len(),
    ensures
        i <= ctrl_end(s, i) <= s.len(),
    decreases s.len() - i,
{
    if i < s.len() && is_ctrl(s[i]) {
        lemma_ctrl_end_range(s, i + 1);
    }
}

pub proof fn lemma_run_end_range(s: Seq<char>, i: int, stop: Seq<char>)
    requires
        0 <= i <= s.len(),
    ensures
        i <= run_end(s, i, stop) <= s.len(),
    decreases s.len() - i,
{
    if i < s.len() && is_printable(s[i]) && !stop.contains(s[i]) {
        lemma_run_end_range(s, i + 1, stop);
    }
}

pub proof fn lemma_digits_end_range(s: Seq<char>, i: int)
    requires
        0 <= i <= s.len(),
    ensures
        i <= digits_end(s, i) <= s.len(),
    decreases s.len() - i,
{
    if i < s.len() && is_digit(s[i]) {
        lemma_digits_end_range(s, i + 1);
    }
}

pub proof fn lemma_find_char_range(s: Seq<char>, i: int, c: char)
    requires
        0 <= i <= s.len(),
    ensures
        find_char(s, i, c) matches Some(j) ==> i <= j < s.len() && s[j] == c,
    decreases s.len() - i,
{
    if i < s.len() && s[i] != c {
        lemma_find_char_range(s, i + 1, c);
    }
}

/// Skips the run of control characters starting at `i`.
pub fn skip_ctrl(s: &str, n: usize, i: usize) -> (j: usize)
    requires
        n == s@.len(),
        i <= n,
    ensures
        j == ctrl_end(s@, i as int),
        i <= j <= n,
{
    let mut j: usize = i;
    while j < n && ctrl_char(s.get_char(j))
        invariant
            n == s@.len(),
            i <= j <= n,
            ctrl_end(s@, i as int) == ctrl_end(s@, j as int),
        decreases n - j,
    {
        j += 1;
    }
    j
}

/// Skips the run, starting at `i`, of printable characters outside `stop`.
pub fn skip_run(s: &str, n: usize, i: usize, stop: &str) -> (j: usize)
    requires
        n == s@.len(),
        i <= n,
    ensures
        j == run_end(s@, i as int, stop@),
        i <= j <= n,
{
    let mut j: usize = i;
    loop
        invariant
            n == s@.len(),
            i <= j <= n,
            run_end(s@, i as int, stop@) == run_end(s@, j as int, stop@),
        decreases n - j,
    {
        if j >= n {
            return j;
        }
        let c = s.get_char(j);
        if !printable_char(c) || contains_char(stop, c) {
            return j;
        }
        j += 1;
    }
}

/// Skips the run of decimal digits starting at `i`.
pub fn skip_digits(s: &str, n: usize, i: usize) -> (j: usize)
    requires
        n == s@.len(),
        i <= n,
    ensures
        j == digits_end(s@, i as int),
        i <= j <= n,
{
    let mut j: usize = i;
    while j < n && digit_char(s.get_char(j))
        invariant
            n == s@.len(),
            i <= j <= n,
            digits_end(s@, i as int) == digits_end(s@, j as int),
        decreases n - j,
    {
        j += 1;
    }
    j
}

/// Finds the first occurrence of `c` at or after `i`.
pub fn scan_for_char(s: &str, n: usize, i: usize, c: char) -> (r: Option<usize>)
    requires
        n == s@.len(),
        i <= n,
    ensures
        r matches Some(j) ==> Some(j as int) == find_char(s@, i as int, c),
        r is None ==> find_char(s@, i as int, c) is None,
{
    let mut j: usize = i;
    loop
        invariant
            n == s@.len(),
            i <= j <= n,
            find_char(s@, i as int, c) == find_char(s@, j as int, c),
        decreases n - j,
    {
        if j >= n {
            return None;
        }
        if s.get_char(j) == c {
            return Some(j);
        }
        j += 1;
    }
}

/// Whether `c` is one of the characters of `s`.
pub fn contains_char(s: &str, c: char) -> (r: bool)
    ensures
        r == s@.contains(c),
{
    let n = s.unicode_len();
    let mut i: usize = 0;
    while i < n
        invariant
            n == s@.len(),
            0 <= i <= n,
            forall|k: int| 0 <= k < i ==> s@[k] != c,
        decreases n - i,
    {
        if s.get_char(i) == c {
            return true;
        }
        i += 1;
    }
    false
}

/// Whether `p` occurs in `s` starting at position `i`.
pub fn prefix_at(s: &str, n: usize, i: usize, p: &str) -> (r: bool)
    requires
        n == s@.len(),
        i <= n,
    ensures
        r == is_prefix_at(s@, i as int, p@),
{
    let pn = p.unicode_len();
    if pn > n - i {
        return false;
    }
    let mut k: usize = 0;
    while k < pn
        invariant
            n == s@.len(),
            pn == p@.len(),
            i + pn <= n,
            0 <= k <= pn,
            forall|j: int| 0 <= j < k ==> s@[i + j] == p@[j],
        decreases pn - k,
    {
        if s.get_char(i + k) != p.get_char(k) {
            assert(s@.subrange(i as int, i + pn) =~= p@ ==> s@[i + k] == p@[k as int]);
            return false;
        }
        k += 1;
    }
    assert(s@.subrange(i as int, i + pn) =~= p@);
    true
}

/// Every character of `s` is a decimal digit.
pub open spec fn all_digits(s: Seq<char>) -> bool {
    forall|i: int| 0 <= i < s.len() ==> is_digit(s[i])
}

/// The value of `s` read as a decimal numeral.
pub open spec fn dec_val(s: Seq<char>) -> int
    decreases s.len(),
{
    if s.len() == 0 {
        0
    } else {
        dec_val(s.drop_last()) * 10 + digit_val(s.last())
    }
}

pub proof fn lemma_dec_val_nonneg(s: Seq<char>)
    requires
        all_digits(s),
    ensures
        dec_val(s) >= 0,
    decreases s.len(),
{
    if s.len() > 0 {
        assert(all_digits(s.drop_last()));
        lemma_dec_val_nonneg(s.drop_last());
    }
}

/// A decimal numeral never shrinks when digits are appended: the value of
/// any prefix is at most the value of the whole.
pub proof fn lemma_dec_val_prefix(s: Seq<char>, k: int)
    requires
        all_digits(s),
        0 <= k <= s.len(),
    ensures
        dec_val(s.subrange(0, k)) <= dec_val(s),
    decreases s.len() - k,
{
    if k == s.len() {
        assert(s.subrange(0, k) =~= s);
    } else {
        let p = s.subrange(0, k);
        let q = s.subrange(0, k + 1);
        assert(q.drop_last() =~= p);
        assert(all_digits(p));
        lemma_dec_val_nonneg(p);
        assert(dec_val(q) == dec_val(p) * 10 + digit_val(s[k]));
        lemma_dec_val_prefix(s, k + 1);
    }
}

/// Reads the decimal digits of `s` in `[from, to)` as a number, or `None`
/// when the value does not fit in `usize`.
pub fn parse_dec(s: &str, n: usize, from: usize, to: usize) -> (r: Option<usize>)
    requires
        n == s@.len(),
        from <= to <= n,
        all_digits(s@.subrange(from as int, to as int)),
    ensures
        r matches Some(v) ==> v == dec_val(s@.subrange(from as int, to as int)),
        r is None ==> dec_val(s@.subrange(from as int, to as int)) > usize::MAX,
{
    let ghost whole = s@.subrange(from as int, to as int);
    let mut v: usize = 0;
    let mut k: usize = from;
    while k < to
        invariant
            n == s@.len(),
            from <= k <= to <= n,
            all_digits(whole),
            whole == s@.subrange(from as int, to as int),
            v == dec_val(s@.subrange(from as int, k as int)),
        decreases to - k,
    {
        let c = s.get_char(k);
        proof {
            assert(whole[k - from] == s@[k as int]);
            assert(is_digit(s@[k as int]));
        }
        let d = (c as u32 - 0x30) as usize;
        let ghost next = s@.subrange(from as int, k + 1);
        proof {
            assert(next.drop_last() =~= s@.subrange(from as int, k as int));
            assert(next.last() == s@[k as int]);
            assert(forall|i: int| 0 <= i < next.len() ==> next[i] == whole[i]);
            assert(all_digits(next));
        }
        let step = match v.checked_mul(10) {
            Some(m) => m.checked_add(d),
            None => None,
        };
        match step {
            Some(w) => {
                v = w;
            },
            None => {
                proof {
                    assert(dec_val(next) == v * 10 + digit_val(s@[k as int]));
                    assert(dec_val(next) > usize::MAX);
                    assert(next =~= whole.subrange(0, k + 1 - from));
                    lemma_dec_val_prefix(whole, k + 1 - from);
                }
                return None;
            },
        }
        k += 1;
    }
    assert(s@.subrange(from as int, to as int) =~= whole);
    Some(v)
}

/// The numeral character for one hexadecimal digit.
pub open spec fn hex_digit_chars(d: int) -> Seq<char> {
    if d == 0 { "0"@ }
    else if d == 1 { "1"@ }
    else if d == 2 { "2"@ }
    else if d == 3 { "3"@ }
    else if d == 4 { "4"@ }
    else if d == 5 { "5"@ }
    else if d == 6 { "6"@ }
    else if d == 7 { "7"@ }
    else if d == 8 { "8"@ }
    else if d == 9 { "9"@ }
    else if d == 10 { "a"@ }
    else if d == 11 { "b"@ }
    else if d == 12 { "c"@ }
    else if d == 13 { "d"@ }
    else if d == 14 { "e"@ }
    else { "f"@ }
}

/// The digits of `n` written in lowercase hexadecimal, without a prefix.
pub open spec fn hex_chars(n: int) -> Seq<char>
    decreases n when n >= 0
{
    if n < 16 {
        hex_digit_chars(n)
    } else {
        hex_chars(n / 16) + hex_digit_chars(n % 16)
    }
}

/// `n` written as a `0x`-prefixed lowercase hexadecimal literal.
pub open spec fn hex_lit(n: int) -> Seq<char> {
    "0x"@ + hex_chars(n)
}

fn hex_digit_str(d: usize) -> (r: &'static str)
    requires
        d < 16,
    ensures
        r@ == hex_digit_chars(d as int),
{
    match d {
        0 => "0",
        1 => "1",
        2 => "2",
        3 => "3",
        4 => "4",
        5 => "5",
        6 => "6",
        7 => "7",
        8 => "8",
        9 => "9",
        10 => "a",
        11 => "b",
        12 => "c",
        13 => "d",
        14 => "e",
        _ => "f",
    }
}

fn hex_digits_string(n: usize) -> (r: String)
    ensures
        r@ == hex_chars(n as int),
    decreases n,
{
    if n < 16 {
        hex_digit_str(n).to_owned()
    } else {
        let mut s = hex_digits_string(n / 16);
        s.append(hex_digit_str(n % 16));
        s
    }
}

/// Renders `n` the way the command templates embed numbers: `0x` followed
/// by lowercase hexadecimal digits.
pub fn hex_lit_string(n: usize) -> (r: String)
    ensures
        r@ == hex_lit(n as int),
{
    let mut s = "0x".to_owned();
    s.append(hex_digits_string(n).as_str());
    s
}

/// The digits of `n` written in decimal.
pub open spec fn dec_chars(n: int) -> Seq<char>
    decreases n when n >= 0
{
    if n < 10 {
        hex_digit_chars(n)
    } else {
        dec_chars(n / 10) + hex_digit_chars(n % 10)
    }
}

/// Renders `n` in decimal.
pub fn dec_string(n: usize) -> (r: String)
    ensures
        r@ == dec_chars(n as int),
    decreases n,
{
    if n < 10 {
        hex_digit_str(n).to_owned()
    } else {
        let mut s = dec_string(n / 10);
        s.append(hex_digit_str(n % 10));
        s
    }
}

/// The value of `s` read the way `u32::from_str` reads it: an optional
/// leading `+`, then at least one decimal digit, the value at most
/// `u32::MAX`.
pub open spec fn spec_parse_u32(s: Seq<char>) -> Option<u32> {
    let t = if s.len() > 0 && s[0] == '+' {
        s.subrange(1, s.len() as int)
    } else {
        s
    };
    if t.len() > 0 && all_digits(t) && dec_val(t) <= u32::MAX {
        Some(dec_val(t) as u32)
    } else {
        None
    }
}

/// Reads a `u32` from decimal text, accepting exactly what
/// `spec_parse_u32` accepts.
pub fn parse_u32_str(s: &str) -> (r: Option<u32>)
    ensures
        r == spec_parse_u32(s@),
{
    let n = s.unicode_len();
    let start: usize = if n > 0 && s.get_char(0) == '+' {
        1
    } else {
        0
    };
    let ghost t = if s@.len() > 0 && s@[0] == '+' {
        s@.subrange(1, s@.len() as int)
    } else {
        s@
    };
    proof {
        assert(t =~= s@.subrange(start as int, n as int));
    }
    if start >= n {
        return None;
    }
    let e = skip_digits(s, n, start);
    if e < n {
        proof {
            lemma_digits_end_spread(s@, start as int, e as int);
            assert(t[e - start] == s@[e as int]);
            assert(!is_digit(t[e - start]));
        }
        return None;
    }
    proof {
        lemma_digits_end_spread(s@, start as int, e as int);
        assert(forall|i: int| 0 <= i < t.len() ==> t[i] == s@[start + i]);
        assert(all_digits(t));
    }
    match parse_dec(s, n, start, n) {
        Some(v) => {
            if v <= 0xffff_ffff {
                Some(v as u32)
            } else {
                None
            }
        },
        None => None,
    }
}

/// Every character strictly before the digit-run end is a digit, and the
/// end itself (if inside the text) is not.
pub proof fn lemma_digits_end_spread(s: Seq<char>, i: int, e: int)
    requires
        0 <= i <= s.len(),
        e == digits_end(s, i),
    ensures
        i <= e <= s.len(),
        forall|k: int| i <= k < e ==> is_digit(s[k]),
        e < s.len() ==> !is_digit(s[e]),
    decreases s.len() - i,
{
    if i < s.len() && is_digit(s[i]) {
        lemma_digits_end_spread(s, i + 1, e);
    }
}

} // verus!
