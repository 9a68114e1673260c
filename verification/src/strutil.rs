//! Verified utilities over characters: conversions between `&str` and
//! `Vec<char>`, comparisons, substring search, trimming, and decimal
//! rendering and parsing.

use vstd::prelude::*;
use vstd::string::*;

verus! {

/// Character content of `s` as a vector.
pub fn str_to_chars(s: &str) -> (r: Vec<char>)
    ensures
        r@ == s@,
{
    let n = s.unicode_len();
    let mut v: Vec<char> = Vec::new();
    let mut i: usize = 0;
    while i < n
        invariant
            i <= n,
            n == s@.len(),
            v@ == s@.take(i as int),
        decreases n - i,
    {
        v.push(s.get_char(i));
        proof {
            assert(s@.take(i as int).push(s@[i as int]) =~= s@.take(i + 1 as int));
        }
        i = i + 1;
    }
    proof {
        assert(s@.take(n as int) =~= s@);
    }
    v
}

/// Relies on `String`'s `FromIterator<char>` implementation (through
/// `Iterator::collect`): the returned string holds exactly the characters
/// of `v`, in order.
#[verifier::external_body]
pub(crate) fn chars_to_string(v: &Vec<char>) -> (r: String)
    ensures
        r@ == v@,
{
    v.iter().collect()
}

/// True exactly when the two strings hold the same characters.
pub fn str_eq(a: &str, b: &str) -> (r: bool)
    ensures
        r == (a@ == b@),
{
    let na = a.unicode_len();
    let nb = b.unicode_len();
    if na != nb {
        return false;
    }
    let mut i: usize = 0;
    while i < na
        invariant
            i <= na,
            na == a@.len(),
            na == b@.len(),
            forall|j: int| 0 <= j < i ==> a@[j] == b@[j],
        decreases na - i,
    {
        if a.get_char(i) != b.get_char(i) {
            return false;
        }
        i = i + 1;
    }
    proof {
        assert(a@ =~= b@);
    }
    true
}

/// `p` is an initial segment of `s`.
pub open spec fn has_prefix(s: Seq<char>, p: Seq<char>) -> bool {
    p.len() <= s.len() && s.take(p.len() as int) == p
}

/// True exactly when `s` starts with `p`.
pub fn str_starts_with(s: &str, p: &str) -> (r: bool)
    ensures
        r == has_prefix(s@, p@),
{
    let ns = s.unicode_len();
    let np = p.unicode_len();
    if np > ns {
        return false;
    }
    let mut i: usize = 0;
    while i < np
        invariant
            i <= np,
            np <= ns,
            ns == s@.len(),
            np == p@.len(),
            forall|j: int| 0 <= j < i ==> s@[j] == p@[j],
        decreases np - i,
    {
        if s.get_char(i) != p.get_char(i) {
            return false;
        }
        i = i + 1;
    }
    proof {
        assert(s@.take(np as int) =~= p@);
    }
    true
}

/// The characters of `v` between `start` (inclusive) and `end` (exclusive).
pub fn subvec(v: &Vec<char>, start: usize, end: usize) -> (r: Vec<char>)
    requires
        start <= end <= v@.len(),
    ensures
        r@ == v@.subrange(start as int, end as int),
{
    let mut r: Vec<char> = Vec::new();
    let mut i: usize = start;
    while i < end
        invariant
            start <= i <= end <= v@.len(),
            r@ == v@.subrange(start as int, i as int),
        decreases end - i,
    {
        r.push(v[i]);
        proof {
            assert(v@.subrange(start as int, i as int).push(v@[i as int]) =~= v@.subrange(
                start as int,
                i + 1 as int,
            ));
        }
        i = i + 1;
    }
    r
}

/// Appends the characters of `s` to `out`.
pub fn push_str_chars(out: &mut Vec<char>, s: &str)
    ensures
        final(out)@ == old(out)@ + s@,
{
    let n = s.unicode_len();
    let mut i: usize = 0;
    while i < n
        invariant
            i <= n,
            n == s@.len(),
            out@ == old(out)@ + s@.take(i as int),
        decreases n - i,
    {
        out.push(s.get_char(i));
        proof {
            assert(old(out)@ + s@.take(i + 1 as int) =~= (old(out)@ + s@.take(i as int)).push(
                s@[i as int],
            ));
        }
        i = i + 1;
    }
    proof {
        assert(old(out)@ + s@.take(n as int) =~= old(out)@ + s@);
    }
}

/// `pat` occurs in `s` at position `i`.
pub open spec fn occurs_at(s: Seq<char>, pat: Seq<char>, i: int) -> bool {
    0 <= i && i + pat.len() <= s.len() && s.subrange(i, i + pat.len()) == pat
}

/// Position of the first occurrence of `pat` in `s` at or after `from`.
pub open spec fn find_from(s: Seq<char>, pat: Seq<char>, from: int) -> Option<int>
    decreases s.len() - from,
{
    if from < 0 || from + pat.len() > s.len() {
        None
    } else if pat.len() == 0 || occurs_at(s, pat, from) {
        Some(from)
    } else {
        find_from(s, pat, from + 1)
    }
}

/// Whether `v[i..]` starts with the characters of `pat`.
pub fn matches_at(v: &Vec<char>, pat: &Vec<char>, i: usize) -> (r: bool)
    requires
        i + pat@.len() <= v@.len(),
    ensures
        r == occurs_at(v@, pat@, i as int),
{
    let n = v.len();
    let m = pat.len();
    let mut j: usize = 0;
    while j < m
        invariant
            j <= m,
            m == pat@.len(),
            n == v@.len(),
            i + m <= n,
            forall|k: int| 0 <= k < j ==> v@[i + k] == pat@[k],
        decreases m - j,
    {
        if v[i + j] != pat[j] {
            proof {
                assert(v@.subrange(i as int, i + m) != pat@) by {
                    assert(v@.subrange(i as int, i + m)[j as int] == v@[i + j]);
                }
            }
            return false;
        }
        j = j + 1;
    }
    proof {
        assert(v@.subrange(i as int, i + m) =~= pat@);
    }
    true
}

/// First occurrence of `pat` in `v` at or after `from`.
pub fn find_sub(v: &Vec<char>, pat: &Vec<char>, from: usize) -> (r: Option<usize>)
    ensures
        match r {
            Some(i) => find_from(v@, pat@, from as int) == Some(i as int) && i <= v@.len(),
            None => find_from(v@, pat@, from as int) is None,
        },
{
    if from > v.len() || pat.len() > v.len() - from {
        return None;
    }
    let last = v.len() - pat.len();
    let mut i: usize = from;
    loop
        invariant
            from <= i <= last,
            last + pat@.len() == v@.len(),
            find_from(v@, pat@, from as int) == find_from(v@, pat@, i as int),
        decreases last - i,
    {
        if matches_at(v, pat, i) {
            return Some(i);
        }
        proof {
            if pat@.len() == 0 {
                assert(v@.subrange(i as int, i as int) =~= pat@);
            }
        }
        if i == last {
            proof {
                assert(find_from(v@, pat@, i as int) is None);
            }
            return None;
        }
        proof {
            assert(find_from(v@, pat@, i as int) == find_from(v@, pat@, i + 1 as int));
        }
        i = i + 1;
    }
}

/// An ASCII whitespace character (space, tab, newline, carriage return).
pub open spec fn is_ws(c: char) -> bool {
    c == ' ' || c == '\t' || c == '\n' || c == '\r'
}

/// `s` with leading whitespace removed.
pub open spec fn trim_left(s: Seq<char>) -> Seq<char>
    decreases s.len(),
{
    if s.len() > 0 && is_ws(s[0]) {
        trim_left(s.drop_first())
    } else {
        s
    }
}

/// `s` with trailing whitespace removed.
pub open spec fn trim_right(s: Seq<char>) -> Seq<char>
    decreases s.len(),
{
    if s.len() > 0 && is_ws(s.last()) {
        trim_right(s.drop_last())
    } else {
        s
    }
}

/// `s` with whitespace removed from both ends.
pub open spec fn trimmed(s: Seq<char>) -> Seq<char> {
    trim_right(trim_left(s))
}

proof fn lemma_trim_left_index(s: Seq<char>, l: int)
    requires
        0 <= l <= s.len(),
        forall|j: int| 0 <= j < l ==> is_ws(s[j]),
        l == s.len() || !is_ws(s[l]),
    ensures
        trim_left(s) == s.subrange(l, s.len() as int),
    decreases l,
{
    if l == 0 {
        assert(trim_left(s) == s);
        assert(s.subrange(0, s.len() as int) =~= s);
    } else {
        assert(is_ws(s[0]));
        lemma_trim_left_index(s.drop_first(), l - 1);
        assert(s.drop_first().subrange(l - 1, s.drop_first().len() as int) =~= s.subrange(
            l,
            s.len() as int,
        ));
    }
}

proof fn lemma_trim_right_index(s: Seq<char>, r: int)
    requires
        0 <= r <= s.len(),
        forall|j: int| r <= j < s.len() ==> is_ws(s[j]),
        r == 0 || !is_ws(s[r - 1]),
    ensures
        trim_right(s) == s.subrange(0, r),
    decreases s.len() - r,
{
    if r == s.len() {
        if s.len() > 0 && is_ws(s.last()) {
            assert(false);
        }
        assert(s.subrange(0, s.len() as int) =~= s);
    } else {
        assert(is_ws(s.last()));
        lemma_trim_right_index(s.drop_last(), r);
        assert(s.drop_last().subrange(0, r) =~= s.subrange(0, r));
    }
}

fn is_ws_exec(c: char) -> (r: bool)
    ensures
        r == is_ws(c),
{
    c == ' ' || c == '\t' || c == '\n' || c == '\r'
}

/// The characters of `v` with whitespace removed from both ends.
pub fn trim_vec(v: &Vec<char>) -> (r: Vec<char>)
    ensures
        r@ == trimmed(v@),
{
    let n = v.len();
    let mut l: usize = 0;
    while l < n && is_ws_exec(v[l])
        invariant
            l <= n,
            n == v@.len(),
            forall|j: int| 0 <= j < l ==> is_ws(v@[j]),
        decreases n - l,
    {
        l = l + 1;
    }
    proof {
        lemma_trim_left_index(v@, l as int);
    }
    let mut r: usize = n;
    while r > l && is_ws_exec(v[r - 1])
        invariant
            l <= r <= n,
            n == v@.len(),
            forall|j: int| r <= j < n ==> is_ws(v@[j]),
        decreases r,
    {
        r = r - 1;
    }
    proof {
        let mid = v@.subrange(l as int, n as int);
        lemma_trim_right_index(mid, r - l as int);
        assert(mid.subrange(0, r - l as int) =~= v@.subrange(l as int, r as int));
    }
    subvec(v, l, r)
}

/// The decimal digit character for `d`.
pub open spec fn dec_digit(d: int) -> char {
    if d == 0 {
        '0'
    } else if d == 1 {
        '1'
    } else if d == 2 {
        '2'
    } else if d == 3 {
        '3'
    } else if d == 4 {
        '4'
    } else if d == 5 {
        '5'
    } else if d == 6 {
        '6'
    } else if d == 7 {
        '7'
    } else if d == 8 {
        '8'
    } else {
        '9'
    }
}

/// The decimal rendering of a natural number, without leading zeros.
pub open spec fn dec_nat(n: nat) -> Seq<char>
    decreases n,
{
    if n < 10 {
        seq![dec_digit(n as int)]
    } else {
        dec_nat(n / 10) + seq![dec_digit((n % 10) as int)]
    }
}

/// The decimal rendering of an integer: a minus sign for negative values,
/// then the digits of the magnitude.
pub open spec fn dec_int(t: int) -> Seq<char> {
    if t < 0 {
        seq!['-'] + dec_nat((-t) as nat)
    } else {
        dec_nat(t as nat)
    }
}

fn digit_char(d: u64) -> (r: char)
    requires
        d < 10,
    ensures
        r == dec_digit(d as int),
{
    if d == 0 {
        '0'
    } else if d == 1 {
        '1'
    } else if d == 2 {
        '2'
    } else if d == 3 {
        '3'
    } else if d == 4 {
        '4'
    } else if d == 5 {
        '5'
    } else if d == 6 {
        '6'
    } else if d == 7 {
        '7'
    } else if d == 8 {
        '8'
    } else {
        '9'
    }
}

/// Appends the decimal digits of `n` to `out`.
pub fn push_u64_dec(out: &mut Vec<char>, n: u64)
    ensures
        final(out)@ == old(out)@ + dec_nat(n as nat),
    decreases n,
{
    if n < 10 {
        out.push(digit_char(n));
        proof {
            assert(old(out)@ + dec_nat(n as nat) =~= old(out)@.push(dec_digit(n as int)));
        }
    } else {
        push_u64_dec(out, n / 10);
        out.push(digit_char(n % 10));
        proof {
            assert(old(out)@ + dec_nat(n as nat) =~= (old(out)@ + dec_nat((n / 10) as nat)).push(
                dec_digit((n % 10) as int),
            ));
        }
    }
}

/// Appends the decimal rendering of `t` to `out`.
pub fn push_i64_dec(out: &mut Vec<char>, t: i64)
    ensures
        final(out)@ == old(out)@ + dec_int(t as int),
{
    if t < 0 {
        out.push('-');
        let mag: u64 = ((-(t + 1)) as u64) + 1;
        assert(mag as nat == -(t as int) as nat);
        push_u64_dec(out, mag);
        proof {
            assert(old(out)@ + dec_int(t as int) =~= old(out)@.push('-') + dec_nat(
                (-(t as int)) as nat,
            ));
        }
    } else {
        push_u64_dec(out, t as u64);
    }
}

/// Ten to the power `k`.
pub open spec fn pow10(k: nat) -> nat
    decreases k,
{
    if k == 0 {
        1
    } else {
        10 * pow10((k - 1) as nat)
    }
}

/// A decimal digit character.
pub open spec fn is_digit(c: char) -> bool {
    48 <= c as u32 <= 57
}

/// The numeric value of a digit character.
pub open spec fn digit_val(c: char) -> int {
    c as u32 - 48
}

/// The numeric value of a digit string, most significant digit first.
pub open spec fn dec_val(s: Seq<char>) -> int
    decreases s.len(),
{
    if s.len() == 0 {
        0
    } else {
        dec_val(s.drop_last()) * 10 + digit_val(s.last())
    }
}

/// All characters of `s` are digits.
pub open spec fn all_digits(s: Seq<char>) -> bool {
    forall|j: int| 0 <= j < s.len() ==> is_digit(s[j])
}

/// The rendering of a natural number consists of digits, has no leading
/// zero (unless it is exactly "0"), and evaluates back to the number.
pub proof fn lemma_dec_nat_facts(n: nat)
    ensures
        dec_nat(n).len() >= 1,
        all_digits(dec_nat(n)),
        dec_val(dec_nat(n)) == n,
        n > 0 ==> dec_nat(n)[0] != '0',
        n == 0 ==> dec_nat(n) == seq!['0'],
        n < pow10(dec_nat(n).len()),
        dec_nat(n).len() > 1 ==> pow10((dec_nat(n).len() - 1) as nat) <= n,
    decreases n,
{
    if n < 10 {
        assert(dec_nat(n) == seq![dec_digit(n as int)]);
        assert(dec_nat(n).drop_last() =~= Seq::<char>::empty());
        assert(pow10(0) == 1);
        assert(pow10(1) == 10);
        assert(digit_val(dec_digit(n as int)) == n);
        assert(dec_val(dec_nat(n)) == dec_val(Seq::<char>::empty()) * 10 + digit_val(
            dec_digit(n as int),
        ));
    } else {
        lemma_dec_nat_facts(n / 10);
        let s = dec_nat(n);
        let hd = dec_nat(n / 10);
        assert(s == hd + seq![dec_digit((n % 10) as int)]);
        assert(s.drop_last() =~= hd);
        assert(s[0] == hd[0]);
        assert(n / 10 > 0);
        assert(dec_val(s) == dec_val(hd) * 10 + digit_val(s.last()));
        assert(digit_val(dec_digit((n % 10) as int)) == n % 10);
        assert(pow10(s.len()) == 10 * pow10(hd.len()));
        assert(pow10((s.len() - 1) as nat) == pow10(hd.len()));
        assert(n / 10 < pow10(hd.len()));
        assert(n == (n / 10) * 10 + n % 10);
        if hd.len() > 1 {
            assert(pow10((hd.len() - 1) as nat) <= n / 10);
            assert(pow10(hd.len()) == 10 * pow10((hd.len() - 1) as nat));
        } else {
            assert(pow10(hd.len()) == 10);
            assert(1 <= n / 10);
        }
    }
}

/// Digit strings of equal length and equal value are equal.
pub proof fn lemma_dec_val_bound(s: Seq<char>)
    requires
        all_digits(s),
    ensures
        0 <= dec_val(s) < pow10(s.len()),
    decreases s.len(),
{
    if s.len() == 0 {
    } else {
        lemma_dec_val_bound(s.drop_last());
        assert(all_digits(s.drop_last()));
        assert(is_digit(s.last()));
        assert(pow10(s.len()) == 10 * pow10((s.len() - 1) as nat)) by {
            assert(s.len() >= 1);
        }
    }
}

/// The value of a canonical decimal rendering of an unsigned 64-bit number:
/// digits only, no leading zero unless the text is exactly "0".
pub open spec fn parse_u64_spec(s: Seq<char>) -> Option<u64> {
    if 1 <= s.len() <= 20 && all_digits(s) && (s[0] != '0' || s.len() == 1) && dec_val(s)
        <= 0xffffffffffffffff {
        Some(dec_val(s) as u64)
    } else {
        None
    }
}

/// Parses a canonical decimal unsigned 64-bit number.
pub fn parse_u64(s: &str) -> (r: Option<u64>)
    ensures
        r == parse_u64_spec(s@),
{
    let v = str_to_chars(s);
    let n = v.len();
    if n == 0 || n > 20 {
        return None;
    }
    let first = v[0];
    let mut acc: u128 = 0;
    let mut j: usize = 0;
    while j < n
        invariant
            j <= n,
            v@ == s@,
            n == v@.len(),
            n <= 20,
            forall|t: int| 0 <= t < j ==> is_digit(v@[t]),
            acc == dec_val(v@.take(j as int)),
            0 <= acc < pow10(j as nat),
        decreases n - j,
    {
        let c = v[j];
        let u = c as u32;
        if u < 48 || u > 57 {
            proof {
                assert(!is_digit(v@[j as int]));
                assert(!all_digits(v@));
            }
            return None;
        }
        proof {
            lemma_pow10_le_20((j + 1) as nat);
            assert(v@.take(j + 1 as int).drop_last() =~= v@.take(j as int));
            assert(v@.take(j + 1 as int).last() == v@[j as int]);
            assert(pow10((j + 1) as nat) == 10 * pow10(j as nat));
        }
        acc = acc * 10 + ((u - 48) as u128);
        j = j + 1;
    }
    proof {
        assert(v@.take(n as int) =~= v@);
        assert(all_digits(v@));
    }
    if n > 1 && first == '0' {
        return None;
    }
    if acc > 0xffffffffffffffff {
        return None;
    }
    Some(acc as u64)
}

/// Ten to any power up to twenty fits a 128-bit number.
proof fn lemma_pow10_le_20(k: nat)
    requires
        k <= 20,
    ensures
        pow10(k) <= 100000000000000000000,
    decreases k,
{
    if k == 0 {
        assert(pow10(0) == 1);
    } else {
        lemma_pow10_le_20_aux(k, 20);
    }
}

proof fn lemma_pow10_le_20_aux(k: nat, cap: nat)
    requires
        k <= cap,
        cap == 20,
    ensures
        pow10(k) <= 100000000000000000000,
{
    assert(pow10(0) == 1);
    assert(pow10(1) == 10);
    assert(pow10(2) == 100);
    assert(pow10(3) == 1000);
    assert(pow10(4) == 10000);
    assert(pow10(5) == 100000);
    assert(pow10(6) == 1000000);
    assert(pow10(7) == 10000000);
    assert(pow10(8) == 100000000);
    assert(pow10(9) == 1000000000);
    assert(pow10(10) == 10000000000);
    assert(pow10(11) == 100000000000);
    assert(pow10(12) == 1000000000000);
    assert(pow10(13) == 10000000000000);
    assert(pow10(14) == 100000000000000);
    assert(pow10(15) == 1000000000000000);
    assert(pow10(16) == 10000000000000000);
    assert(pow10(17) == 100000000000000000);
    assert(pow10(18) == 1000000000000000000);
    assert(pow10(19) == 10000000000000000000);
    assert(pow10(20) == 100000000000000000000);
}

/// Byte-wise lexicographic order: `a` at or before `b`.
pub open spec fn bytes_le(a: Seq<u8>, b: Seq<u8>) -> bool
    decreases a.len(),
{
    if a.len() == 0 {
        true
    } else if b.len() == 0 {
        false
    } else if a[0] < b[0] {
        true
    } else if a[0] > b[0] {
        false
    } else {
        bytes_le(a.drop_first(), b.drop_first())
    }
}

/// Byte order is total.
pub proof fn lemma_bytes_le_total(a: Seq<u8>, b: Seq<u8>)
    ensures
        bytes_le(a, b) || bytes_le(b, a),
    decreases a.len(),
{
    if a.len() == 0 {
    } else if b.len() == 0 {
    } else if a[0] == b[0] {
        lemma_bytes_le_total(a.drop_first(), b.drop_first());
    }
}

/// Byte order is transitive.
pub proof fn lemma_bytes_le_trans(a: Seq<u8>, b: Seq<u8>, c: Seq<u8>)
    requires
        bytes_le(a, b),
        bytes_le(b, c),
    ensures
        bytes_le(a, c),
    decreases a.len(),
{
    if a.len() == 0 {
    } else {
        assert(b.len() > 0);
        assert(c.len() > 0);
        if a[0] == b[0] && b[0] == c[0] {
            lemma_bytes_le_trans(a.drop_first(), b.drop_first(), c.drop_first());
        }
    }
}

/// True exactly when `a` is at or before `b` in byte order.
pub fn bytes_le_exec(a: &[u8], b: &[u8]) -> (r: bool)
    ensures
        r == bytes_le(a@, b@),
{
    let na = a.len();
    let nb = b.len();
    let mut i: usize = 0;
    proof {
        assert(a@.skip(0) =~= a@);
        assert(b@.skip(0) =~= b@);
    }
    loop
        invariant
            i <= na,
            i <= nb,
            na == a@.len(),
            nb == b@.len(),
            bytes_le(a@, b@) == bytes_le(a@.skip(i as int), b@.skip(i as int)),
        decreases na - i,
    {
        if i >= na {
            proof {
                assert(a@.skip(i as int) =~= Seq::<u8>::empty());
            }
            return true;
        }
        if i >= nb {
            proof {
                assert(b@.skip(i as int) =~= Seq::<u8>::empty());
                assert(a@.skip(i as int).len() > 0);
            }
            return false;
        }
        let x = a[i];
        let y = b[i];
        proof {
            assert(a@.skip(i as int)[0] == a@[i as int]);
            assert(b@.skip(i as int)[0] == b@[i as int]);
            assert(a@.skip(i as int).drop_first() =~= a@.skip(i + 1 as int));
            assert(b@.skip(i as int).drop_first() =~= b@.skip(i + 1 as int));
        }
        if x < y {
            return true;
        }
        if x > y {
            return false;
        }
        i = i + 1;
    }
}

} // verus!
