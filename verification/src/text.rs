//! Byte classes, character-level text operations and their executable counterparts.

use vstd::prelude::*;
use vstd::string::StringSliceAdditionalSpecFns;
use vstd::utf8::*;
use crate::foreign::string_from_chars;

verus! {

broadcast use vstd::utf8::encode_utf8_valid_utf8, vstd::utf8::encode_utf8_decode_utf8;

/// An ASCII decimal digit byte.
pub open spec fn is_digit_byte(c: u8) -> bool {
    0x30 <= c <= 0x39
}

/// An ASCII letter byte.
pub open spec fn is_alpha_byte(c: u8) -> bool {
    (0x41 <= c <= 0x5a) || (0x61 <= c <= 0x7a)
}

/// A byte that may continue an identifier: an ASCII letter, digit or `_`.
pub open spec fn is_alnum_byte(c: u8) -> bool {
    is_alpha_byte(c) || is_digit_byte(c) || c == 0x5f
}

/// The characters that `bytes[i..j]` encodes.
pub open spec fn text_of(bytes: Seq<u8>, i: int, j: int) -> Seq<char> {
    decode_utf8(bytes.subrange(i, j))
}

/// A byte position at which a UTF-8 text can be cut: its ends, or next to an ASCII byte.
pub open spec fn cut_point(bytes: Seq<u8>, i: int) -> bool {
    i == 0 || i == bytes.len() || (0 < i < bytes.len() && (bytes[i] < 0x80 || bytes[i - 1] < 0x80))
}

/// The first position at or after `p` that does not hold a decimal digit.
pub open spec fn digits_end(s: Seq<u8>, p: int) -> int
    decreases s.len() - p,
{
    if p < 0 || p >= s.len() || !is_digit_byte(s[p]) {
        p
    } else {
        digits_end(s, p + 1)
    }
}

/// The end of the mantissa `[0-9]*\.?[0-9]+` matched at the start of `s`, if any.
pub open spec fn mantissa_end(s: Seq<u8>) -> Option<int> {
    let a = digits_end(s, 0);
    if a + 1 < s.len() && s[a] == 0x2e && is_digit_byte(s[a + 1]) {
        Some(digits_end(s, a + 1))
    } else if a > 0 {
        Some(a)
    } else {
        None
    }
}

/// The length of the match of `^[0-9]*\.?[0-9]+(?:[eE][-+]?[0-9]+)?` at the start of `s`
/// under leftmost-first semantics: the greedy mantissa, then the exponent where one follows.
pub open spec fn number_prefix_len(s: Seq<u8>) -> Option<nat> {
    match mantissa_end(s) {
        None => None,
        Some(m) => {
            let q = m + 1;
            let q2 = if q < s.len() && (s[q] == 0x2b || s[q] == 0x2d) { q + 1 } else { q };
            if m < s.len() && (s[m] == 0x65 || s[m] == 0x45) && q2 < s.len() && is_digit_byte(s[q2]) {
                Some(digits_end(s, q2) as nat)
            } else {
                Some(m as nat)
            }
        },
    }
}

/// The characters with the Unicode `White_Space` property.
pub open spec fn is_white_space(c: char) -> bool {
    let u = c as u32;
    (0x09 <= u <= 0x0d) || u == 0x20 || u == 0x85 || u == 0xa0 || u == 0x1680
        || (0x2000 <= u <= 0x200a) || u == 0x2028 || u == 0x2029 || u == 0x202f
        || u == 0x205f || u == 0x3000
}

/// `s` without its leading white space.
pub open spec fn trim_start_chars(s: Seq<char>) -> Seq<char>
    decreases s.len(),
{
    if s.len() > 0 && is_white_space(s[0]) {
        trim_start_chars(s.drop_first())
    } else {
        s
    }
}

/// `s` with every non-overlapping occurrence of the pair `a b`, read from the left,
/// replaced by `r`.
pub open spec fn replace_pair(s: Seq<char>, a: char, b: char, r: char) -> Seq<char>
    decreases s.len(),
{
    if s.len() == 0 {
        s
    } else if s.len() >= 2 && s[0] == a && s[1] == b {
        seq![r] + replace_pair(s.skip(2), a, b, r)
    } else {
        seq![s[0]] + replace_pair(s.drop_first(), a, b, r)
    }
}

/// `s` without any occurrence of `c`.
pub open spec fn remove_char(s: Seq<char>, c: char) -> Seq<char>
    decreases s.len(),
{
    if s.len() == 0 {
        s
    } else if s[0] == c {
        remove_char(s.drop_first(), c)
    } else {
        seq![s[0]] + remove_char(s.drop_first(), c)
    }
}

/// The digit character for `d < 10`.
pub open spec fn digit_char(d: nat) -> char {
    ((d + 0x30) as u8) as char
}

/// The decimal notation of `n`, without leading zeros.
pub open spec fn decimal_text(n: nat) -> Seq<char>
    decreases n,
{
    if n < 10 {
        seq![digit_char(n)]
    } else {
        decimal_text(n / 10).push(digit_char(n % 10))
    }
}

/// The decimal notation of the integer `n`, with a leading `-` when it is negative.
pub open spec fn signed_decimal_text(n: int) -> Seq<char> {
    if n < 0 {
        seq!['-'] + decimal_text((-n) as nat)
    } else {
        decimal_text(n as nat)
    }
}

proof fn lemma_cut_point_boundary(bytes: Seq<u8>, i: int)
    requires
        valid_utf8(bytes),
        cut_point(bytes, i),
    ensures
        is_char_boundary(bytes, i),
{
    broadcast use vstd::utf8::is_char_boundary_start_end_of_seq;
    if 0 < i < bytes.len() {
        if bytes[i - 1] < 0x80 {
            lemma_after_ascii(bytes, i - 1);
        }
        vstd::utf8::is_char_boundary_iff_not_is_continuation_byte(bytes, i);
    }
}

proof fn lemma_after_ascii(b: Seq<u8>, k: int)
    requires
        valid_utf8(b),
        0 <= k,
        k + 1 < b.len(),
        b[k] < 0x80,
    ensures
        !is_continuation_byte(b[k + 1]),
{
    vstd::utf8::is_char_boundary_iff_not_is_continuation_byte(b, k);
    vstd::utf8::valid_utf8_split(b, k);
    let s = b.subrange(k, b.len() as int);
    assert(s[0] == b[k]);
    assert(length_of_first_scalar(s) == 1);
    let t = pop_first_scalar(s);
    assert(t =~= b.subrange(k + 1, b.len() as int));
    assert(valid_utf8(t));
    assert(t[0] == b[k + 1]);
    assert(valid_first_scalar(t));
}

/// The part `s[i..j]` of a text, cut at two cut points.
pub fn substr(s: &str, i: usize, j: usize) -> (r: &str)
    requires
        i <= j <= s.spec_bytes().len(),
        cut_point(s.spec_bytes(), i as int),
        cut_point(s.spec_bytes(), j as int),
    ensures
        r@ == text_of(s.spec_bytes(), i as int, j as int),
        r.spec_bytes() == s.spec_bytes().subrange(i as int, j as int),
{
    let ghost b = s.spec_bytes();
    proof {
        lemma_cut_point_boundary(b, j as int);
        vstd::utf8::valid_utf8_split(b, j as int);
    }
    let (a, _) = s.split_at(j);
    proof {
        let ab = a.spec_bytes();
        assert(ab =~= b.subrange(0, j as int));
        assert(cut_point(ab, i as int));
        lemma_cut_point_boundary(ab, i as int);
    }
    let (_, c) = a.split_at(i);
    proof {
        assert(c.spec_bytes() =~= b.subrange(i as int, j as int));
    }
    c
}

/// The characters of a text, as a vector.
pub fn chars_vec(s: &str) -> (v: Vec<char>)
    ensures
        v@ == s@,
{
    let mut v: Vec<char> = Vec::new();
    for c in iter: s.chars()
        invariant
            iter.seq() == s@,
            v@ =~= s@.take(iter.index() as int),
    {
        v.push(c);
    }
    assert(s@.take(s@.len() as int) =~= s@);
    v
}

/// Appends the decimal notation of `n` to `out`.
pub fn push_decimal(n: u64, out: &mut Vec<char>)
    ensures
        final(out)@ == old(out)@ + decimal_text(n as nat),
    decreases n,
{
    if n >= 10 {
        push_decimal(n / 10, out);
    }
    let d = (n % 10) as u8;
    out.push((d + 0x30u8) as char);
    proof {
        assert(decimal_text(n as nat) == if n < 10 { seq![digit_char(n as nat)] } else {
            decimal_text((n / 10) as nat).push(digit_char((n % 10) as nat))
        });
    }
}

/// Appends the characters of `s` to `out`.
pub fn push_text(s: &str, out: &mut Vec<char>)
    ensures
        final(out)@ == old(out)@ + s@,
{
    let ghost start = out@;
    for c in iter: s.chars()
        invariant
            iter.seq() == s@,
            out@ =~= start + s@.take(iter.index() as int),
    {
        out.push(c);
    }
    assert(s@.take(s@.len() as int) =~= s@);
}

/// The decimal notation of `n` as a string.
pub fn decimal_string(n: u64) -> (r: String)
    ensures
        r@ == decimal_text(n as nat),
{
    let mut v: Vec<char> = Vec::new();
    push_decimal(n, &mut v);
    assert(v@ =~= decimal_text(n as nat));
    string_from_chars(&v)
}

/// The decimal notation of `n`, with a leading `-` when it is negative.
pub fn signed_decimal_string(n: i64) -> (r: String)
    ensures
        r@ == signed_decimal_text(n as int),
{
    let mut v: Vec<char> = Vec::new();
    if n < 0 {
        v.push('-');
        let m: u64 = if n == i64::MIN { 0x8000_0000_0000_0000u64 } else { (-n) as u64 };
        push_decimal(m, &mut v);
        assert(v@ =~= seq!['-'] + decimal_text((-n) as nat));
    } else {
        push_decimal(n as u64, &mut v);
        assert(v@ =~= decimal_text(n as nat));
    }
    string_from_chars(&v)
}

/// `a` followed by `b`.
pub fn concat_str(a: &str, b: &str) -> (r: String)
    ensures
        r@ == a@ + b@,
{
    let mut r = String::from_str(a);
    r.append(b);
    r
}

/// `s` with the pair `a b` replaced by `r`, left to right.
pub fn replace_pair_exec(s: &str, a: char, b: char, r: char) -> (out: String)
    ensures
        out@ == replace_pair(s@, a, b, r),
{
    let v = chars_vec(s);
    let mut res: Vec<char> = Vec::new();
    let mut i: usize = 0;
    assert(v@.skip(0) =~= v@);
    assert(res@ + replace_pair(v@, a, b, r) =~= replace_pair(v@, a, b, r));
    while i < v.len()
        invariant
            i <= v@.len(),
            v@ == s@,
            res@ + replace_pair(v@.skip(i as int), a, b, r) == replace_pair(v@, a, b, r),
        decreases v@.len() - i,
    {
        let ghost rest = v@.skip(i as int);
        let ghost old_res = res@;
        if i + 1 < v.len() && v[i] == a && v[i + 1] == b {
            proof {
                assert(rest.skip(2) =~= v@.skip(i + 2));
                assert(replace_pair(rest, a, b, r) == seq![r] + replace_pair(rest.skip(2), a, b, r));
            }
            res.push(r);
            proof {
                assert(res@ + replace_pair(v@.skip(i + 2), a, b, r) =~= old_res + (seq![r]
                    + replace_pair(rest.skip(2), a, b, r)));
            }
            i = i + 2;
        } else {
            proof {
                assert(rest.drop_first() =~= v@.skip(i + 1));
                assert(replace_pair(rest, a, b, r) == seq![rest[0]] + replace_pair(rest.drop_first(), a, b, r));
            }
            res.push(v[i]);
            proof {
                assert(res@ + replace_pair(v@.skip(i + 1), a, b, r) =~= old_res + (seq![rest[0]]
                    + replace_pair(rest.drop_first(), a, b, r)));
            }
            i = i + 1;
        }
    }
    assert(v@.skip(i as int) =~= Seq::<char>::empty());
    assert(res@ =~= replace_pair(v@, a, b, r));
    string_from_chars(&res)
}

/// Whether the text `s` is the text `lit`.
pub fn text_is(s: &str, lit: &str) -> (r: bool)
    ensures
        r == (s@ == lit@),
{
    let a = chars_vec(s);
    let b = chars_vec(lit);
    let n = a.len();
    if n != b.len() {
        return false;
    }
    let mut k: usize = 0;
    while k < n
        invariant
            n == a@.len(),
            n == b@.len(),
            a@ == s@,
            b@ == lit@,
            k <= n,
            forall|t: int| 0 <= t < k ==> a@[t] == b@[t],
        decreases n - k,
    {
        if a[k] != b[k] {
            return false;
        }
        k = k + 1;
    }
    assert(a@ =~= b@);
    true
}

/// Whether `c` has the Unicode `White_Space` property.
pub fn is_white_space_char(c: char) -> (r: bool)
    ensures
        r == is_white_space(c),
{
    let u = c as u32;
    (0x09 <= u && u <= 0x0d) || u == 0x20 || u == 0x85 || u == 0xa0 || u == 0x1680
        || (0x2000 <= u && u <= 0x200a) || u == 0x2028 || u == 0x2029 || u == 0x202f
        || u == 0x205f || u == 0x3000
}

/// `s` without its trailing white space.
pub open spec fn trim_end_chars(s: Seq<char>) -> Seq<char>
    decreases s.len(),
{
    if s.len() > 0 && is_white_space(s.last()) {
        trim_end_chars(s.drop_last())
    } else {
        s
    }
}

/// `s` without its leading white space, as `str::trim_start` gives it.
pub fn trim_start_text(s: &str) -> (r: String)
    ensures
        r@ == trim_start_chars(s@),
{
    let cs = chars_vec(s);
    let n = cs.len();
    let mut b: usize = 0;
    assert(s@.subrange(0, n as int) =~= s@);
    while b < n && is_white_space_char(cs[b])
        invariant
            n == cs@.len(),
            cs@ == s@,
            b <= n,
            trim_start_chars(s@) == trim_start_chars(s@.subrange(b as int, n as int)),
        decreases n - b,
    {
        assert(s@.subrange(b as int, n as int).drop_first() =~= s@.subrange(b + 1, n as int));
        b = b + 1;
    }
    assert(trim_start_chars(s@.subrange(b as int, n as int)) == s@.subrange(b as int, n as int));
    let mut out: Vec<char> = Vec::new();
    let mut i: usize = b;
    while i < n
        invariant
            n == cs@.len(),
            cs@ == s@,
            b <= i <= n,
            out@ == s@.subrange(b as int, i as int),
        decreases n - i,
    {
        out.push(cs[i]);
        i = i + 1;
        assert(out@ =~= s@.subrange(b as int, i as int));
    }
    string_from_chars(&out)
}

/// The value of the digit `c` in bases up to 36 (`0`-`9`, then `a`-`z` or `A`-`Z`); 36 for
/// any other character.
pub open spec fn digit_value(c: char) -> int {
    if '0' <= c && c <= '9' {
        c as int - '0' as int
    } else if 'a' <= c && c <= 'z' {
        c as int - 'a' as int + 10
    } else if 'A' <= c && c <= 'Z' {
        c as int - 'A' as int + 10
    } else {
        36
    }
}

/// The number that the digits `ds` write in base `radix`.
pub open spec fn digits_number(ds: Seq<char>, radix: int) -> int
    decreases ds.len(),
{
    if ds.len() == 0 {
        0
    } else {
        digits_number(ds.drop_last(), radix) * radix + digit_value(ds.last())
    }
}

/// Whether some character of `ds` is not a digit of base `radix`.
pub open spec fn has_foreign_digit(ds: Seq<char>, radix: int) -> bool {
    exists|i: int| 0 <= i < ds.len() && digit_value(#[trigger] ds[i]) >= radix
}

/// What `i64::from_str_radix` (and `str::parse::<i64>` in base 10) reads from `s`: an optional `+` or `-` and then at least one
/// digit of the base, the value fitting in `i64`; `None` otherwise.
pub open spec fn radix_value(s: Seq<char>, radix: int) -> Option<int> {
    let signed = s.len() > 0 && (s[0] == '+' || s[0] == '-');
    let ds = if signed { s.drop_first() } else { s };
    let v = if signed && s[0] == '-' { -digits_number(ds, radix) } else { digits_number(ds, radix) };
    if ds.len() == 0 || has_foreign_digit(ds, radix) {
        None
    } else if i64::MIN <= v <= i64::MAX {
        Some(v)
    } else {
        None
    }
}

/// The value of the digit `c`, as `digit_value` gives it.
fn digit_value_exec(c: char) -> (r: u32)
    ensures
        r == digit_value(c),
{
    if '0' <= c && c <= '9' {
        (c as u32) - ('0' as u32)
    } else if 'a' <= c && c <= 'z' {
        (c as u32) - ('a' as u32) + 10
    } else if 'A' <= c && c <= 'Z' {
        (c as u32) - ('A' as u32) + 10
    } else {
        36
    }
}

proof fn lemma_digits_number_grows(ds: Seq<char>, radix: int, j: int)
    requires
        2 <= radix,
        0 <= j <= ds.len(),
    ensures
        0 <= digits_number(ds.take(j), radix) <= digits_number(ds, radix),
    decreases ds.len(),
{
    if ds.len() > 0 {
        if j < ds.len() {
            lemma_digits_number_grows(ds.drop_last(), radix, j);
            assert(ds.drop_last().take(j) =~= ds.take(j));
        } else {
            assert(ds.take(j) =~= ds);
            lemma_digits_number_grows(ds.drop_last(), radix, 0);
        }
        let d = digits_number(ds.drop_last(), radix);
        assert(d * radix >= d) by (nonlinear_arith)
            requires
                d >= 0,
                radix >= 2,
        ;
    } else {
        assert(ds.take(j) =~= ds);
    }
}

/// The integer that the text `s` writes in base `radix`, as `radix_value` describes
/// `i64::from_str_radix`: an optional sign, then at least one digit of the base, the value
/// fitting in `i64`.
pub fn read_i64_radix(s: &str, radix: u32) -> (res: Option<i64>)
    requires
        2 <= radix <= 36,
    ensures
        match radix_value(s@, radix as int) {
            Some(v) => res == Some(v as i64),
            None => res is None,
        },
{
    let cs = chars_vec(s);
    let n = cs.len();
    let signed = n > 0 && (cs[0] == '+' || cs[0] == '-');
    let neg = signed && cs[0] == '-';
    let start: usize = if signed { 1 } else { 0 };
    let ghost ds = if signed { s@.drop_first() } else { s@ };
    let ghost r = radix as int;
    assert(ds =~= s@.subrange(start as int, n as int));
    if start == n {
        return None;
    }
    let limit: i128 = 0x8000_0000_0000_0000i128;
    let mut acc: i128 = 0;
    let mut i: usize = start;
    assert(ds.take(0) =~= Seq::<char>::empty());
    while i < n
        invariant
            n == cs@.len(),
            cs@ == s@,
            ds == s@.subrange(start as int, n as int),
            ds == (if s@.len() > 0 && (s@[0] == '+' || s@[0] == '-') { s@.drop_first() } else { s@ }),
            signed == (s@.len() > 0 && (s@[0] == '+' || s@[0] == '-')),
            start == (if signed { 1usize } else { 0usize }),
            start <= i <= n,
            r == radix as int,
            2 <= radix <= 36,
            acc == digits_number(ds.take(i - start), r),
            0 <= acc <= limit,
            limit == 0x8000_0000_0000_0000i128,
            forall|t: int| 0 <= t < i - start ==> digit_value(#[trigger] ds[t]) < r,
        decreases n - i,
    {
        let d = digit_value_exec(cs[i]);
        proof {
            assert(ds[i - start] == cs@[i as int]);
        }
        if d >= radix {
            proof {
                assert(digit_value(ds[i - start]) >= r);
                assert(has_foreign_digit(ds, r));
            }
            return None;
        }
        proof {
            assert(ds.take(i - start + 1).drop_last() =~= ds.take(i - start));
            assert(ds.take(i - start + 1).last() == ds[i - start]);
            assert(acc * (radix as i128) <= limit * 36) by (nonlinear_arith)
                requires
                    0 <= acc <= limit,
                    radix <= 36,
            ;
            assert(acc * (radix as i128) >= 0) by (nonlinear_arith)
                requires
                    0 <= acc,
                    radix >= 2,
            ;
        }
        let next = acc * (radix as i128) + (d as i128);
        if next > limit {
            proof {
                lemma_digits_number_grows(ds, r, i - start + 1);
                assert(digits_number(ds, r) > limit);
            }
            return None;
        }
        acc = next;
        i = i + 1;
    }
    assert(ds.take(n - start) =~= ds);
    let v: i128 = if neg { -acc } else { acc };
    if v > 0x7fff_ffff_ffff_ffffi128 {
        None
    } else {
        Some(v as i64)
    }
}

/// `s` without its leading and trailing white space, as `str::trim` gives it.
pub open spec fn trim_chars(s: Seq<char>) -> Seq<char> {
    trim_end_chars(trim_start_chars(s))
}

/// `s` without its leading and trailing white space.
pub fn trim_text(s: &str) -> (r: String)
    ensures
        r@ == trim_chars(s@),
{
    let cs = chars_vec(s);
    let n = cs.len();
    let mut b: usize = 0;
    assert(s@.subrange(0, n as int) =~= s@);
    while b < n && is_white_space_char(cs[b])
        invariant
            n == cs@.len(),
            cs@ == s@,
            b <= n,
            trim_start_chars(s@) == trim_start_chars(s@.subrange(b as int, n as int)),
        decreases n - b,
    {
        assert(s@.subrange(b as int, n as int).drop_first() =~= s@.subrange(b + 1, n as int));
        b = b + 1;
    }
    assert(trim_start_chars(s@.subrange(b as int, n as int)) == s@.subrange(b as int, n as int));
    let mut e: usize = n;
    while e > b && is_white_space_char(cs[e - 1])
        invariant
            n == cs@.len(),
            cs@ == s@,
            b <= e <= n,
            trim_chars(s@) == trim_end_chars(s@.subrange(b as int, e as int)),
        decreases e,
    {
        assert(s@.subrange(b as int, e as int).drop_last() =~= s@.subrange(b as int, e - 1));
        e = e - 1;
    }
    assert(trim_end_chars(s@.subrange(b as int, e as int)) == s@.subrange(b as int, e as int));
    let mut out: Vec<char> = Vec::new();
    let mut i: usize = b;
    while i < e
        invariant
            n == cs@.len(),
            cs@ == s@,
            b <= i <= e,
            e <= n,
            out@ == s@.subrange(b as int, i as int),
        decreases e - i,
    {
        out.push(cs[i]);
        i = i + 1;
        assert(out@ =~= s@.subrange(b as int, i as int));
    }
    string_from_chars(&out)
}

} // verus!
