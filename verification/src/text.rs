//! Text building blocks shared by the decoders: decimal and hexadecimal
//! rendering of numbers, zero padding, UTF-8 decoding and truncation.

use crate::pattern::{all_digits, digits_value};
use vstd::prelude::*;
use vstd::string::*;
use vstd::utf8::{decode_utf8, valid_utf8};

verus! {

/// The character for digit `d` (0..16), in lower or upper case.
pub open spec fn digit_char(d: nat, upper: bool) -> char {
    if d == 0 { '0' }
    else if d == 1 { '1' }
    else if d == 2 { '2' }
    else if d == 3 { '3' }
    else if d == 4 { '4' }
    else if d == 5 { '5' }
    else if d == 6 { '6' }
    else if d == 7 { '7' }
    else if d == 8 { '8' }
    else if d == 9 { '9' }
    else if d == 10 { if upper { 'A' } else { 'a' } }
    else if d == 11 { if upper { 'B' } else { 'b' } }
    else if d == 12 { if upper { 'C' } else { 'c' } }
    else if d == 13 { if upper { 'D' } else { 'd' } }
    else if d == 14 { if upper { 'E' } else { 'e' } }
    else { if upper { 'F' } else { 'f' } }
}

/// The radix: 16 for hexadecimal, 10 for decimal.
pub open spec fn radix(hex: bool) -> nat {
    if hex { 16 } else { 10 }
}

/// The digits of `n` in the given radix, most significant first, without
/// leading zeros (zero is the single digit `0`).
pub open spec fn num_text(n: nat, hex: bool, upper: bool) -> Seq<char>
    decreases n,
{
    if n < radix(hex) {
        seq![digit_char(n, upper)]
    } else {
        num_text(n / radix(hex), hex, upper).push(digit_char(n % radix(hex), upper))
    }
}

/// Decimal rendering, as `{}` formats an unsigned integer.
pub open spec fn dec(n: nat) -> Seq<char> {
    num_text(n, false, false)
}

/// `t` is the decimal numeral of `m`: ASCII digits without leading zeros
/// (zero is the single digit `0`) whose value is `m`.
pub open spec fn numeral_of(t: Seq<char>, m: int) -> bool {
    &&& t.len() > 0
    &&& all_digits(t)
    &&& digits_value(t) == m
    &&& t.len() > 1 ==> t[0] != '0'
}

/// `t` is the decimal rendering of `n`: its numeral, after a `-` when
/// `n` is negative.
pub open spec fn signed_numeral_of(t: Seq<char>, n: int) -> bool {
    if n < 0 {
        t.len() > 1 && t[0] == '-' && numeral_of(t.drop_first(), -n)
    } else {
        numeral_of(t, n)
    }
}

/// `dec(n)` is the decimal numeral of `n`.
pub proof fn lemma_dec_is_numeral(n: nat)
    ensures
        numeral_of(dec(n), n as int),
        n > 0 ==> dec(n)[0] != '0',
    decreases n,
{
    if n >= 10 {
        lemma_dec_is_numeral(n / 10);
        let t = dec(n);
        let d = digit_char(n % 10, false);
        assert(t == dec(n / 10).push(d));
        assert(t.drop_last() =~= dec(n / 10));
        assert(t[0] == dec(n / 10)[0]);
        assert forall|i: int| 0 <= i < t.len() implies '0' <= #[trigger] t[i] <= '9' by {
            if i < t.len() - 1 {
                assert(t[i] == dec(n / 10)[i]);
            }
        }
        assert(d as int - '0' as int == n % 10);
        assert(t.last() == d);
        assert(digits_value(t) == digits_value(t.drop_last()) * 10 + (t.last() as int - '0' as int));
        assert((n / 10) * 10 + n % 10 == n);
    } else {
        let t = dec(n);
        assert(t == seq![digit_char(n, false)]);
        assert(t.drop_last() =~= Seq::<char>::empty());
        assert(digits_value(t.drop_last()) == 0);
        assert(digit_char(n, false) as int - '0' as int == n);
        assert(digits_value(t) == digits_value(t.drop_last()) * 10 + (t.last() as int - '0' as int));
    }
}

/// `signed_dec(n)` is the decimal rendering of `n`.
pub proof fn lemma_signed_dec_is_numeral(n: int)
    ensures
        signed_numeral_of(signed_dec(n), n),
{
    if n < 0 {
        lemma_dec_is_numeral((-n) as nat);
        assert((seq!['-'] + dec((-n) as nat)).drop_first() =~= dec((-n) as nat));
    } else {
        lemma_dec_is_numeral(n as nat);
    }
}

/// Lower-case hexadecimal rendering, as `{:x}` formats it.
pub open spec fn hex_lower(n: nat) -> Seq<char> {
    num_text(n, true, false)
}

/// Upper-case hexadecimal rendering, as `{:X}` formats it.
pub open spec fn hex_upper(n: nat) -> Seq<char> {
    num_text(n, true, true)
}

/// `s` left-padded with `'0'` to at least `width` characters.
pub open spec fn zero_pad(s: Seq<char>, width: nat) -> Seq<char> {
    if s.len() < width {
        Seq::new((width - s.len()) as nat, |_i: int| '0') + s
    } else {
        s
    }
}

/// The Unicode `White_Space` property, which `char::is_whitespace` follows.
pub open spec fn is_unicode_whitespace(c: char) -> bool {
    let v = c as u32;
    ||| 0x09 <= v <= 0x0D
    ||| v == 0x20
    ||| v == 0x85
    ||| v == 0xA0
    ||| v == 0x1680
    ||| 0x2000 <= v <= 0x200A
    ||| v == 0x2028
    ||| v == 0x2029
    ||| v == 0x202F
    ||| v == 0x205F
    ||| v == 0x3000
}

/// `s` without its leading whitespace.
pub open spec fn trim_start(s: Seq<char>) -> Seq<char>
    decreases s.len(),
{
    if s.len() > 0 && is_unicode_whitespace(s[0]) {
        trim_start(s.drop_first())
    } else {
        s
    }
}

/// `s` without its trailing whitespace.
pub open spec fn trim_end(s: Seq<char>) -> Seq<char>
    decreases s.len(),
{
    if s.len() > 0 && is_unicode_whitespace(s.last()) {
        trim_end(s.drop_last())
    } else {
        s
    }
}

/// `s` with leading and trailing whitespace removed, as `str::trim` does.
pub open spec fn trimmed(s: Seq<char>) -> Seq<char> {
    trim_end(trim_start(s))
}

/// The text of `String::from_utf8_lossy` on `bytes`: valid sequences decoded,
/// each invalid sequence replaced by U+FFFD.
pub uninterp spec fn utf8_lossy(bytes: Seq<u8>) -> Seq<char>;

/// `s` cut to its first `max_chars` characters, with `…` appended when
/// something was cut.
pub open spec fn truncated(s: Seq<char>, max_chars: nat) -> Seq<char> {
    if s.len() > max_chars {
        s.take(max_chars as int).push('\u{2026}')
    } else {
        s
    }
}

/// Appends one character (`String::push`).
#[verifier::external_body]
pub(crate) fn push_char(s: &mut String, c: char)
    ensures
        final(s)@ == old(s)@.push(c),
{
    s.push(c);
}

/// Appends a string slice.
pub fn push_str(s: &mut String, t: &str)
    ensures
        final(s)@ == old(s)@ + t@,
{
    s.append(t);
}

/// `std::str::from_utf8`: the bytes decoded when they are valid UTF-8.
#[verifier::external_body]
pub(crate) fn str_from_utf8(bytes: &[u8]) -> (r: Option<&str>)
    ensures
        r.is_some() == valid_utf8(bytes@),
        r matches Some(s) ==> s@ == decode_utf8(bytes@),
{
    std::str::from_utf8(bytes).ok()
}

/// Whether `c` is Unicode whitespace.
pub fn is_whitespace_char(c: char) -> (r: bool)
    ensures
        r == is_unicode_whitespace(c),
{
    let v = c as u32;
    (0x09 <= v && v <= 0x0D) || v == 0x20 || v == 0x85 || v == 0xA0 || v == 0x1680 || (0x2000 <= v && v
        <= 0x200A) || v == 0x2028 || v == 0x2029 || v == 0x202F || v == 0x205F || v == 0x3000
}

/// The position of the first non-whitespace character of `chars` (its
/// length when there is none).
fn leading_whitespace(chars: &Vec<char>) -> (i: usize)
    ensures
        i <= chars@.len(),
        trim_start(chars@) == chars@.subrange(i as int, chars@.len() as int),
{
    let n = chars.len();
    let mut i: usize = 0;
    assert(chars@.subrange(0, n as int) =~= chars@);
    while i < n && is_whitespace_char(chars[i])
        invariant
            i <= n,
            n == chars@.len(),
            trim_start(chars@) == trim_start(chars@.subrange(i as int, n as int)),
        decreases n - i,
    {
        assert(chars@.subrange(i as int, n as int).drop_first() =~= chars@.subrange(i + 1, n as int));
        i += 1;
    }
    if i == n {
        assert(chars@.subrange(i as int, n as int) =~= Seq::<char>::empty());
    }
    i
}

/// Removes leading and trailing Unicode whitespace, as `str::trim` does.
pub fn str_trim(s: &str) -> (r: &str)
    ensures
        r@ == trimmed(s@),
{
    let chars = crate::chars::str_chars(s);
    let i = leading_whitespace(&chars);
    let mut j: usize = chars.len();
    while j > i && is_whitespace_char(chars[j - 1])
        invariant
            i <= j <= chars@.len(),
            chars@ == s@,
            trimmed(s@) == trim_end(chars@.subrange(i as int, j as int)),
        decreases j,
    {
        assert(chars@.subrange(i as int, j as int).drop_last() =~= chars@.subrange(i as int, j - 1));
        j -= 1;
    }
    if j == i {
        assert(chars@.subrange(i as int, j as int) =~= Seq::<char>::empty());
    }
    s.substring_char(i, j)
}

/// Removes leading Unicode whitespace, as `str::trim_start` does.
pub fn str_trim_start(s: &str) -> (r: &str)
    ensures
        r@ == trim_start(s@),
{
    let chars = crate::chars::str_chars(s);
    let i = leading_whitespace(&chars);
    s.substring_char(i, chars.len())
}

/// `String::from_utf8_lossy`, owned.
#[verifier::external_body]
pub(crate) fn utf8_lossy_string(bytes: &[u8]) -> (r: String)
    ensures
        r@ == utf8_lossy(bytes@),
        valid_utf8(bytes@) ==> r@ == decode_utf8(bytes@),
{
    String::from_utf8_lossy(bytes).into_owned()
}

/// The character of digit `d` (below 16).
pub fn digit(d: u64, upper: bool) -> (c: char)
    requires
        d < 16,
    ensures
        c == digit_char(d as nat, upper),
{
    match d {
        0 => '0',
        1 => '1',
        2 => '2',
        3 => '3',
        4 => '4',
        5 => '5',
        6 => '6',
        7 => '7',
        8 => '8',
        9 => '9',
        10 => if upper { 'A' } else { 'a' },
        11 => if upper { 'B' } else { 'b' },
        12 => if upper { 'C' } else { 'c' },
        13 => if upper { 'D' } else { 'd' },
        14 => if upper { 'E' } else { 'e' },
        _ => if upper { 'F' } else { 'f' },
    }
}

/// Appends the digits of `n` in the given radix.
pub fn push_num(s: &mut String, n: u64, hex: bool, upper: bool)
    ensures
        final(s)@ == old(s)@ + num_text(n as nat, hex, upper),
    decreases n,
{
    let b: u64 = if hex { 16 } else { 10 };
    if n >= b {
        push_num(s, n / b, hex, upper);
    }
    push_char(s, digit(n % b, upper));
    proof {
        if n >= b {
            assert(old(s)@ + num_text(n as nat, hex, upper) =~= old(s)@ + num_text(
                (n / b) as nat,
                hex,
                upper,
            ) + seq![digit_char((n % b) as nat, upper)]);
        } else {
            assert(old(s)@ + num_text(n as nat, hex, upper) =~= old(s)@ + seq![
                digit_char(n as nat, upper),
            ]);
        }
    }
}

/// The number of digits of `n` in the given radix.
pub fn num_len(n: u64, hex: bool, upper: bool) -> (r: usize)
    ensures
        r == num_text(n as nat, hex, upper).len(),
        r <= 20,
    decreases n,
{
    let b: u64 = if hex { 16 } else { 10 };
    if n >= b {
        let k = num_len(n / b, hex, upper);
        proof {
            lemma_num_text_len_bound(n as nat, hex, upper);
        }
        k + 1
    } else {
        1
    }
}

/// A `u64` has at most 20 decimal digits.
pub proof fn lemma_num_text_len_bound(n: nat, hex: bool, upper: bool)
    requires
        n <= u64::MAX,
    ensures
        num_text(n, hex, upper).len() <= 20,
        num_text(n, hex, upper).len() >= 1,
    decreases n,
{
    if n >= radix(hex) {
        lemma_num_text_len_bound(n / radix(hex), hex, upper);
        lemma_len_below(n, hex, upper);
    }
}

proof fn lemma_len_below(n: nat, hex: bool, upper: bool)
    requires
        n <= u64::MAX,
    ensures
        num_text(n, hex, upper).len() <= 20,
    decreases n,
{
    if n >= radix(hex) {
        let m = n / radix(hex);
        lemma_len_below(m, hex, upper);
        if n >= 10000000000000000000 {
            assert(m < 10000000000000000000);
            lemma_len_pow(m, hex, upper);
        } else {
            lemma_len_pow(n, hex, upper);
        }
    }
}

/// Numbers below 10^19 have at most 19 digits in either radix.
proof fn lemma_len_pow(n: nat, hex: bool, upper: bool)
    requires
        n < 10000000000000000000,
    ensures
        num_text(n, hex, upper).len() <= 19,
    decreases n,
{
    reveal_with_fuel(pow10, 20);
    assert(pow10(19) == 10000000000000000000);
    lemma_len_le(n, hex, upper, 19);
}

proof fn lemma_len_le(n: nat, hex: bool, upper: bool, k: nat)
    requires
        n < pow10(k),
        k >= 1,
    ensures
        num_text(n, hex, upper).len() <= k,
    decreases k,
{
    if n >= radix(hex) {
        assert(k > 1) by {
            if k == 1 {
                assert(pow10(1) == 10 * pow10(0));
            }
        }
        assert(n / radix(hex) < pow10((k - 1) as nat)) by {
            assert(pow10(k) == 10 * pow10((k - 1) as nat));
            assert(n / radix(hex) <= n / 10) by (nonlinear_arith)
                requires
                    radix(hex) >= 10,
            ;
            assert(n / 10 < pow10((k - 1) as nat)) by (nonlinear_arith)
                requires
                    n < 10 * pow10((k - 1) as nat),
            ;
        }
        lemma_len_le(n / radix(hex), hex, upper, (k - 1) as nat);
    }
}

/// Powers of ten.
pub open spec fn pow10(k: nat) -> nat
    decreases k,
{
    if k == 0 { 1 } else { 10 * pow10((k - 1) as nat) }
}

/// Appends `n` in the given radix, left-padded with zeros to `width` digits.
pub fn push_num_padded(s: &mut String, n: u64, hex: bool, upper: bool, width: usize)
    ensures
        final(s)@ == old(s)@ + zero_pad(num_text(n as nat, hex, upper), width as nat),
{
    let len = num_len(n, hex, upper);
    let mut i: usize = len;
    let ghost start = s@;
    while i < width
        invariant
            len <= i <= width || (i == len && len >= width),
            len == num_text(n as nat, hex, upper).len(),
            s@ == start + Seq::new((i - len) as nat, |_k: int| '0'),
        decreases width - i,
    {
        push_char(s, '0');
        i += 1;
        assert(s@ =~= start + Seq::new((i - len) as nat, |_k: int| '0'));
    }
    let ghost mid = s@;
    push_num(s, n, hex, upper);
    assert(s@ =~= old(s)@ + zero_pad(num_text(n as nat, hex, upper), width as nat));
}

/// Appends `n` in decimal.
pub fn push_dec(s: &mut String, n: u64)
    ensures
        final(s)@ == old(s)@ + dec(n as nat),
{
    push_num(s, n, false, false);
}

/// `s` cut to its first `max_chars` characters, with `…` appended when
/// characters were dropped.
pub fn truncate_utf8(s: &str, max_chars: usize) -> (r: String)
    ensures
        r@ == truncated(s@, max_chars as nat),
{
    let n = s.unicode_len();
    if n > max_chars {
        let head = s.substring_char(0, max_chars);
        let mut r = String::from_str(head);
        push_char(&mut r, '\u{2026}');
        r
    } else {
        let r = String::from_str(s);
        proof {
            assert(s@.subrange(0, s@.len() as int) =~= s@);
        }
        r
    }
}

} // verus!

verus! {

/// `parts` joined with `sep` between consecutive parts (as `[..].join(sep)`).
pub open spec fn joined(parts: Seq<Seq<char>>, sep: Seq<char>) -> Seq<char>
    decreases parts.len(),
{
    if parts.len() == 0 {
        Seq::empty()
    } else if parts.len() == 1 {
        parts[0]
    } else {
        joined(parts.drop_last(), sep) + sep + parts.last()
    }
}

/// Joining one more part appends the separator (unless it is the first
/// part) and the part.
pub proof fn lemma_joined_step(parts: Seq<Seq<char>>, sep: Seq<char>, i: int)
    requires
        0 <= i < parts.len(),
    ensures
        joined(parts.take(i + 1), sep) == if i == 0 {
            parts[0]
        } else {
            joined(parts.take(i), sep) + sep + parts[i]
        },
{
    assert(parts.take(i + 1).drop_last() =~= parts.take(i));
    if i == 0 {
        assert(parts.take(1).len() == 1);
    }
}

/// Appends the decimal digits of a 128-bit `n`.
pub fn push_dec_u128(s: &mut String, n: u128)
    ensures
        final(s)@ == old(s)@ + dec(n as nat),
    decreases n,
{
    if n >= 10 {
        push_dec_u128(s, n / 10);
    }
    let d = (n % 10) as u64;
    push_char(s, digit(d, false));
    proof {
        if n >= 10 {
            assert(old(s)@ + dec(n as nat) =~= old(s)@ + dec((n / 10) as nat) + seq![digit_char((n % 10) as nat, false)]);
        } else {
            assert(old(s)@ + dec(n as nat) =~= old(s)@ + seq![digit_char(n as nat, false)]);
        }
    }
}

/// A signed integer as `{}` formats it.
pub open spec fn signed_dec(n: int) -> Seq<char> {
    if n < 0 { seq!['-'] + dec((-n) as nat) } else { dec(n as nat) }
}

/// Appends a signed 128-bit `n` in decimal.
pub fn push_dec_i128(s: &mut String, n: i128)
    ensures
        final(s)@ == old(s)@ + signed_dec(n as int),
{
    if n < 0 {
        push_char(s, '-');
        let magnitude: u128 = if n == i128::MIN { 170141183460469231731687303715884105728 } else { (-n) as u128 };
        push_dec_u128(s, magnitude);
        assert(s@ =~= old(s)@ + signed_dec(n as int));
    } else {
        push_dec_u128(s, n as u128);
    }
}

/// Appends `n` in upper-case hexadecimal, zero-padded to `width` digits.
pub fn push_hex_upper(s: &mut String, n: u64, width: usize)
    ensures
        final(s)@ == old(s)@ + zero_pad(hex_upper(n as nat), width as nat),
{
    push_num_padded(s, n, true, true, width);
}

/// Appends `n` in lower-case hexadecimal, zero-padded to `width` digits.
pub fn push_hex_lower(s: &mut String, n: u64, width: usize)
    ensures
        final(s)@ == old(s)@ + zero_pad(hex_lower(n as nat), width as nat),
{
    push_num_padded(s, n, true, false, width);
}

/// Appends `n` in decimal, zero-padded to `width` digits.
pub fn push_dec_padded(s: &mut String, n: u64, width: usize)
    ensures
        final(s)@ == old(s)@ + zero_pad(dec(n as nat), width as nat),
{
    push_num_padded(s, n, false, false, width);
}

} // verus!

verus! {

/// The texts of a list of strings.
pub open spec fn texts(v: Seq<String>) -> Seq<Seq<char>> {
    v.map_values(|s: String| s@)
}

/// `parts` joined with `sep`.
pub fn join_strings(parts: &Vec<String>, sep: &str) -> (r: String)
    ensures
        r@ == joined(texts(parts@), sep@),
{
    let mut r = String::new();
    let ghost ps = texts(parts@);
    let mut i: usize = 0;
    while i < parts.len()
        invariant
            i <= parts@.len(),
            ps == texts(parts@),
            r@ == joined(ps.take(i as int), sep@),
        decreases parts.len() - i,
    {
        proof {
            lemma_joined_step(ps, sep@, i as int);
        }
        if i > 0 {
            push_str(&mut r, sep);
        }
        push_str(&mut r, parts[i].as_str());
        i += 1;
        assert(r@ =~= joined(ps.take(i as int), sep@));
    }
    assert(ps.take(parts@.len() as int) =~= ps);
    r
}

} // verus!

verus! {

/// The text of an optional string.
pub open spec fn opt_text(r: Option<String>) -> Option<Seq<char>> {
    match r {
        Some(s) => Some(s@),
        None => None,
    }
}

} // verus!
