//! Character-level helpers for the line-oriented text formats: ASCII case
//! folding, character classes, number parsing and number rendering.
use vstd::prelude::*;

verus! {

broadcast use vstd::string::axiom_spec_iter;

/// Collects the characters of `s` into a vector.
pub fn chars_of(s: &str) -> (v: Vec<char>)
    ensures
        v@ == s@,
{
    let mut v: Vec<char> = Vec::new();
    for c in it: s.chars()
        invariant
            it.seq() == s@,
            v@ == s@.take(it.index() as int),
    {
        v.push(c);
    }
    v
}

/// Appends one character to `s` through std's `String::push`, which vstd
/// gives no contract. Believed without proof: the characters of `s`
/// afterwards are its former characters followed by `c`, as the
/// documentation of `String::push` states.
#[verifier::external_body]
pub(crate) fn push_char(s: &mut String, c: char)
    ensures
        final(s)@ == old(s)@.push(c),
{
    s.push(c);
}

/// Builds a string holding exactly the characters of `v`.
pub fn string_from_chars(v: &[char]) -> (s: String)
    ensures
        s@ == v@,
{
    let mut s = String::new();
    let mut i: usize = 0;
    while i < v.len()
        invariant
            i <= v.len(),
            s@ == v@.take(i as int),
        decreases v.len() - i,
    {
        push_char(&mut s, v[i]);
        i += 1;
        proof {
            assert(v@.take(i as int) == v@.take((i - 1) as int).push(v@[i - 1]));
        }
    }
    proof {
        assert(v@.take(v.len() as int) == v@);
    }
    s
}

/// Appends every character of `v` to `out`.
pub fn extend_chars(out: &mut Vec<char>, v: &[char])
    ensures
        final(out)@ == old(out)@ + v@,
{
    let mut i: usize = 0;
    while i < v.len()
        invariant
            i <= v.len(),
            out@ == old(out)@ + v@.take(i as int),
        decreases v.len() - i,
    {
        out.push(v[i]);
        i += 1;
        proof {
            assert(v@.take(i as int) == v@.take((i - 1) as int).push(v@[i - 1]));
        }
    }
    proof {
        assert(v@.take(v.len() as int) == v@);
    }
}

/// Appends the characters of a text.
pub fn push_text(out: &mut Vec<char>, s: &str)
    ensures
        final(out)@ == old(out)@ + s@,
{
    let v = chars_of(s);
    extend_chars(out, &v);
}

/// Whether two character slices hold the same characters.
pub fn chars_eq(a: &[char], b: &[char]) -> (r: bool)
    ensures
        r == (a@ == b@),
{
    if a.len() != b.len() {
        return false;
    }
    let mut i: usize = 0;
    while i < a.len()
        invariant
            i <= a.len(),
            a.len() == b.len(),
            a@.take(i as int) == b@.take(i as int),
        decreases a.len() - i,
    {
        if a[i] != b[i] {
            return false;
        }
        i += 1;
        proof {
            assert(a@.take(i as int) == a@.take((i - 1) as int).push(a@[i - 1]));
            assert(b@.take(i as int) == b@.take((i - 1) as int).push(b@[i - 1]));
        }
    }
    proof {
        assert(a@.take(a.len() as int) == a@);
        assert(b@.take(b.len() as int) == b@);
    }
    true
}

/// ASCII upper-casing of one character; every other character is unchanged.
pub open spec fn upper(c: char) -> char {
    if 'a' <= c && c <= 'z' {
        ((c as u32) - 32) as char
    } else {
        c
    }
}

/// ASCII lower-casing of one character; every other character is unchanged.
pub open spec fn lower(c: char) -> char {
    if 'A' <= c && c <= 'Z' {
        ((c as u32) + 32) as char
    } else {
        c
    }
}

/// ASCII upper-casing of a whole text.
pub open spec fn upper_seq(s: Seq<char>) -> Seq<char> {
    s.map_values(|c: char| upper(c))
}

/// ASCII lower-casing of a whole text.
pub open spec fn lower_seq(s: Seq<char>) -> Seq<char> {
    s.map_values(|c: char| lower(c))
}

/// Upper-cases one character the way `char::to_ascii_uppercase` does.
pub fn to_upper(c: char) -> (r: char)
    ensures
        r == upper(c),
{
    if 'a' <= c && c <= 'z' {
        let b: u8 = (c as u32 - 32) as u8;
        b as char
    } else {
        c
    }
}

/// Lower-cases one character the way `char::to_ascii_lowercase` does.
pub fn to_lower(c: char) -> (r: char)
    ensures
        r == lower(c),
{
    if 'A' <= c && c <= 'Z' {
        let b: u8 = (c as u32 + 32) as u8;
        b as char
    } else {
        c
    }
}

/// The ASCII upper-case form of a whole text.
pub fn upper_chars(v: &[char]) -> (r: Vec<char>)
    ensures
        r@ == upper_seq(v@),
{
    let mut r: Vec<char> = Vec::new();
    let mut i: usize = 0;
    while i < v.len()
        invariant
            i <= v.len(),
            r@ == upper_seq(v@.take(i as int)),
        decreases v.len() - i,
    {
        r.push(to_upper(v[i]));
        i += 1;
        proof {
            assert(upper_seq(v@.take(i as int)) == upper_seq(v@.take((i - 1) as int)).push(upper(v@[i - 1])));
        }
    }
    proof {
        assert(v@.take(v.len() as int) == v@);
    }
    r
}

/// The ASCII lower-case form of a whole text.
pub fn lower_chars(v: &[char]) -> (r: Vec<char>)
    ensures
        r@ == lower_seq(v@),
{
    let mut r: Vec<char> = Vec::new();
    let mut i: usize = 0;
    while i < v.len()
        invariant
            i <= v.len(),
            r@ == lower_seq(v@.take(i as int)),
        decreases v.len() - i,
    {
        r.push(to_lower(v[i]));
        i += 1;
        proof {
            assert(lower_seq(v@.take(i as int)) == lower_seq(v@.take((i - 1) as int)).push(lower(v@[i - 1])));
        }
    }
    proof {
        assert(v@.take(v.len() as int) == v@);
    }
    r
}

/// An ASCII decimal digit.
pub open spec fn is_digit(c: char) -> bool {
    '0' <= c && c <= '9'
}

/// An ASCII letter.
pub open spec fn is_alpha(c: char) -> bool {
    ('a' <= c && c <= 'z') || ('A' <= c && c <= 'Z')
}

/// An ASCII hexadecimal digit.
pub open spec fn is_hex_digit(c: char) -> bool {
    is_digit(c) || ('a' <= c && c <= 'f') || ('A' <= c && c <= 'F')
}

/// The value of a decimal digit.
pub open spec fn digit_value(c: char) -> int {
    (c as u32) - ('0' as u32)
}

/// The value of a hexadecimal digit.
pub open spec fn hex_digit_value(c: char) -> int {
    if is_digit(c) {
        (c as u32) - ('0' as u32)
    } else if 'a' <= c && c <= 'f' {
        (c as u32) - ('a' as u32) + 10
    } else {
        (c as u32) - ('A' as u32) + 10
    }
}

/// Every character of `s` is a decimal digit.
pub open spec fn all_digits(s: Seq<char>) -> bool {
    forall|i: int| 0 <= i < s.len() ==> is_digit(#[trigger] s[i])
}

/// Every character of `s` is a hexadecimal digit.
pub open spec fn all_hex_digits(s: Seq<char>) -> bool {
    forall|i: int| 0 <= i < s.len() ==> is_hex_digit(#[trigger] s[i])
}

/// The value of a run of decimal digits, most significant first.
pub open spec fn decimal_value(s: Seq<char>) -> int
    decreases s.len(),
{
    if s.len() == 0 {
        0
    } else {
        decimal_value(s.drop_last()) * 10 + digit_value(s.last())
    }
}

/// The value of a run of hexadecimal digits, most significant first.
pub open spec fn hex_value(s: Seq<char>) -> int
    decreases s.len(),
{
    if s.len() == 0 {
        0
    } else {
        hex_value(s.drop_last()) * 16 + hex_digit_value(s.last())
    }
}

/// A decimal numeral with an optional leading sign, as `str::parse::<i32>`
/// accepts it, read as an unbounded integer.
pub open spec fn signed_decimal(s: Seq<char>) -> Option<int> {
    if s.len() > 0 && (s[0] == '-' || s[0] == '+') {
        let digits = s.drop_first();
        if digits.len() > 0 && all_digits(digits) {
            if s[0] == '-' {
                Some(-decimal_value(digits))
            } else {
                Some(decimal_value(digits))
            }
        } else {
            None
        }
    } else if s.len() > 0 && all_digits(s) {
        Some(decimal_value(s))
    } else {
        None
    }
}

/// What `str::parse::<i32>` returns for `s`.
pub open spec fn parse_i32_spec(s: Seq<char>) -> Option<i32> {
    match signed_decimal(s) {
        Some(v) => if i32::MIN <= v <= i32::MAX {
            Some(v as i32)
        } else {
            None
        },
        None => None,
    }
}

/// Whether `c` is a decimal digit.
pub fn is_digit_char(c: char) -> (r: bool)
    ensures
        r == is_digit(c),
{
    '0' <= c && c <= '9'
}

/// Whether `c` is an ASCII letter.
pub fn is_alpha_char(c: char) -> (r: bool)
    ensures
        r == is_alpha(c),
{
    ('a' <= c && c <= 'z') || ('A' <= c && c <= 'Z')
}

/// Whether `c` is a hexadecimal digit.
pub fn is_hex_digit_char(c: char) -> (r: bool)
    ensures
        r == is_hex_digit(c),
{
    ('0' <= c && c <= '9') || ('a' <= c && c <= 'f') || ('A' <= c && c <= 'F')
}

proof fn lemma_decimal_value_nonneg(s: Seq<char>)
    requires
        all_digits(s),
    ensures
        decimal_value(s) >= 0,
    decreases s.len(),
{
    if s.len() > 0 {
        lemma_decimal_value_nonneg(s.drop_last());
    }
}

proof fn lemma_decimal_value_monotone(s: Seq<char>, i: int)
    requires
        all_digits(s),
        0 <= i <= s.len(),
    ensures
        decimal_value(s.take(i)) <= decimal_value(s),
    decreases s.len(),
{
    if i < s.len() {
        assert(s.drop_last().take(i) == s.take(i));
        lemma_decimal_value_monotone(s.drop_last(), i);
        lemma_decimal_value_nonneg(s.drop_last());
        assert(decimal_value(s) == decimal_value(s.drop_last()) * 10 + digit_value(s.last()));
    } else {
        assert(s.take(i) == s);
    }
}

/// The value of the digit run `s`, or `None` when it is empty, holds a
/// non-digit, or exceeds `limit`.
pub fn bounded_decimal(s: &[char], limit: u64) -> (r: Option<u64>)
    requires
        limit <= 0x1_0000_0000,
    ensures
        r matches Some(v) ==> s@.len() > 0 && all_digits(s@) && v == decimal_value(s@) && v <= limit,
        r is None ==> !(s@.len() > 0 && all_digits(s@) && decimal_value(s@) <= limit),
{
    if s.len() == 0 {
        return None;
    }
    let mut acc: u64 = 0;
    let mut i: usize = 0;
    while i < s.len()
        invariant
            i <= s.len(),
            limit <= 0x1_0000_0000,
            all_digits(s@.take(i as int)),
            acc == decimal_value(s@.take(i as int)),
            acc <= limit,
        decreases s.len() - i,
    {
        let c = s[i];
        if !is_digit_char(c) {
            proof {
                assert(!is_digit(s@[i as int]));
            }
            return None;
        }
        let d: u64 = (c as u32 - '0' as u32) as u64;
        proof {
            assert(s@.take(i + 1).drop_last() == s@.take(i as int));
            assert(s@.take(i + 1).last() == c);
        }
        if d > limit || acc > (limit - d) / 10 {
            proof {
                assert(all_digits(s@.take(i + 1)));
                assert(decimal_value(s@.take(i + 1)) == acc * 10 + d);
                if d <= limit {
                    assert(acc * 10 + d > limit) by (nonlinear_arith)
                        requires acc > (limit - d) / 10, d <= limit, d >= 0;
                }
                if all_digits(s@) {
                    lemma_decimal_value_monotone(s@, i + 1);
                }
            }
            return None;
        }
        proof {
            assert(acc * 10 + d <= limit) by (nonlinear_arith)
                requires acc <= (limit - d) / 10, d <= 9, limit >= d;
        }
        acc = acc * 10 + d;
        i += 1;
        proof {
            assert(all_digits(s@.take(i as int)));
        }
    }
    proof {
        assert(s@.take(s.len() as int) == s@);
    }
    Some(acc)
}


/// Parses a decimal numeral with an optional sign, as `str::parse::<i32>` does.
pub fn parse_i32(s: &[char]) -> (r: Option<i32>)
    ensures
        r == parse_i32_spec(s@),
{
    if s.len() > 0 && (s[0] == '-' || s[0] == '+') {
        let digits = vstd::slice::slice_subrange(s, 1, s.len());
        proof {
            assert(digits@ == s@.drop_first());
        }
        if s[0] == '-' {
            match bounded_decimal(digits, 0x8000_0000) {
                Some(v) => {
                    let r: i64 = 0 - (v as i64);
                    Some(r as i32)
                },
                None => {
                    proof {
                        if digits@.len() > 0 && all_digits(digits@) {
                            lemma_decimal_value_nonneg(digits@);
                        }
                    }
                    None
                },
            }
        } else {
            match bounded_decimal(digits, 0x7FFF_FFFF) {
                Some(v) => Some(v as i32),
                None => {
                    proof {
                        if digits@.len() > 0 && all_digits(digits@) {
                            lemma_decimal_value_nonneg(digits@);
                        }
                    }
                    None
                },
            }
        }
    } else {
        match bounded_decimal(s, 0x7FFF_FFFF) {
            Some(v) => Some(v as i32),
            None => {
                proof {
                    if s@.len() > 0 && all_digits(s@) {
                        lemma_decimal_value_nonneg(s@);
                    }
                }
                None
            },
        }
    }
}

proof fn lemma_hex_value_nonneg(s: Seq<char>)
    requires
        all_hex_digits(s),
    ensures
        hex_value(s) >= 0,
    decreases s.len(),
{
    if s.len() > 0 {
        lemma_hex_value_nonneg(s.drop_last());
    }
}

proof fn lemma_hex_value_monotone(s: Seq<char>, i: int)
    requires
        all_hex_digits(s),
        0 <= i <= s.len(),
    ensures
        hex_value(s.take(i)) <= hex_value(s),
    decreases s.len(),
{
    if i < s.len() {
        assert(s.drop_last().take(i) == s.take(i));
        lemma_hex_value_monotone(s.drop_last(), i);
        lemma_hex_value_nonneg(s.drop_last());
    } else {
        assert(s.take(i) == s);
    }
}

/// The value of one hexadecimal digit.
pub fn hex_digit_of(c: char) -> (r: u64)
    requires
        is_hex_digit(c),
    ensures
        r == hex_digit_value(c),
        r < 16,
{
    if '0' <= c && c <= '9' {
        (c as u32 - '0' as u32) as u64
    } else if 'a' <= c && c <= 'f' {
        (c as u32 - 'a' as u32 + 10) as u64
    } else {
        (c as u32 - 'A' as u32 + 10) as u64
    }
}

/// The value of the hexadecimal digit run `s`, or `None` when it is empty,
/// holds a non-digit, or exceeds `limit`.
pub fn bounded_hex(s: &[char], limit: u64) -> (r: Option<u64>)
    requires
        limit <= 0x1_0000_0000,
    ensures
        r matches Some(v) ==> s@.len() > 0 && all_hex_digits(s@) && v == hex_value(s@) && v <= limit,
        r is None ==> !(s@.len() > 0 && all_hex_digits(s@) && hex_value(s@) <= limit),
{
    if s.len() == 0 {
        return None;
    }
    let mut acc: u64 = 0;
    let mut i: usize = 0;
    while i < s.len()
        invariant
            i <= s.len(),
            limit <= 0x1_0000_0000,
            all_hex_digits(s@.take(i as int)),
            acc == hex_value(s@.take(i as int)),
            acc <= limit,
        decreases s.len() - i,
    {
        let c = s[i];
        if !is_hex_digit_char(c) {
            proof {
                assert(!is_hex_digit(s@[i as int]));
            }
            return None;
        }
        let d = hex_digit_of(c);
        proof {
            assert(s@.take(i + 1).drop_last() == s@.take(i as int));
            assert(s@.take(i + 1).last() == c);
        }
        if d > limit || acc > (limit - d) / 16 {
            proof {
                assert(all_hex_digits(s@.take(i + 1)));
                assert(hex_value(s@.take(i + 1)) == acc * 16 + d);
                if d <= limit {
                    assert(acc * 16 + d > limit) by (nonlinear_arith)
                        requires acc > (limit - d) / 16, d <= limit, d >= 0;
                }
                if all_hex_digits(s@) {
                    lemma_hex_value_monotone(s@, i + 1);
                }
            }
            return None;
        }
        proof {
            assert(acc * 16 + d <= limit) by (nonlinear_arith)
                requires acc <= (limit - d) / 16, d < 16, limit >= d;
        }
        acc = acc * 16 + d;
        i += 1;
        proof {
            assert(all_hex_digits(s@.take(i as int)));
        }
    }
    proof {
        assert(s@.take(s.len() as int) == s@);
    }
    Some(acc)
}

/// The digit naming a value below sixteen, upper-case.
pub open spec fn hex_char(n: int) -> char {
    if n < 10 {
        (('0' as u32) + n) as char
    } else {
        (('A' as u32) + n - 10) as char
    }
}

/// Four upper-case hexadecimal digits, as `{:04X}` prints a word.
pub open spec fn hex4(w: u16) -> Seq<char> {
    seq![
        hex_char(((w as int) / 4096) % 16),
        hex_char(((w as int) / 256) % 16),
        hex_char(((w as int) / 16) % 16),
        hex_char((w as int) % 16),
    ]
}

/// Two upper-case hexadecimal digits, as `{:02X}` prints a byte-sized value.
pub open spec fn hex2(w: u16) -> Seq<char> {
    seq![hex_char(((w as int) / 16) % 16), hex_char((w as int) % 16)]
}

/// The digit character for a value below sixteen.
pub fn hex_digit_char(n: u16) -> (c: char)
    requires
        n < 16,
    ensures
        c == hex_char(n as int),
{
    if n < 10 {
        ((n as u8) + 48) as char
    } else {
        ((n as u8) + 55) as char
    }
}

/// Appends the four upper-case hexadecimal digits of `w`.
pub fn push_hex4(out: &mut Vec<char>, w: u16)
    ensures
        final(out)@ == old(out)@ + hex4(w),
{
    out.push(hex_digit_char((w / 4096) % 16));
    out.push(hex_digit_char((w / 256) % 16));
    out.push(hex_digit_char((w / 16) % 16));
    out.push(hex_digit_char(w % 16));
    proof {
        assert(final(out)@ =~= old(out)@ + hex4(w));
    }
}

/// Appends the two upper-case hexadecimal digits of `w`, which is below 256.
pub fn push_hex2(out: &mut Vec<char>, w: u16)
    requires
        w < 256,
    ensures
        final(out)@ == old(out)@ + hex2(w),
{
    out.push(hex_digit_char((w / 16) % 16));
    out.push(hex_digit_char(w % 16));
    proof {
        assert(final(out)@ =~= old(out)@ + hex2(w));
    }
}

/// The decimal digits of `n`, most significant first, without leading zeros.
pub open spec fn decimal_text(n: nat) -> Seq<char>
    decreases n,
{
    if n < 10 {
        seq![(('0' as u32) + n) as char]
    } else {
        decimal_text(n / 10).push((('0' as u32) + n % 10) as char)
    }
}

/// The decimal form of a signed value, as `{}` prints it.
pub open spec fn signed_text(v: int) -> Seq<char> {
    if v < 0 {
        seq!['-'] + decimal_text((-v) as nat)
    } else {
        decimal_text(v as nat)
    }
}

/// Appends the decimal digits of `n`.
pub fn push_decimal(out: &mut Vec<char>, n: u64)
    ensures
        final(out)@ == old(out)@ + decimal_text(n as nat),
    decreases n,
{
    if n >= 10 {
        push_decimal(out, n / 10);
        let d: u8 = (n % 10) as u8;
        out.push((d + 48) as char);
        proof {
            assert(final(out)@ =~= old(out)@ + decimal_text(n as nat));
        }
    } else {
        let d: u8 = n as u8;
        out.push((d + 48) as char);
        proof {
            assert(final(out)@ =~= old(out)@ + decimal_text(n as nat));
        }
    }
}

/// Appends the decimal form of a signed value.
pub fn push_signed(out: &mut Vec<char>, v: i32)
    ensures
        final(out)@ == old(out)@ + signed_text(v as int),
{
    if v < 0 {
        out.push('-');
        let m: i64 = -(v as i64);
        push_decimal(out, m as u64);
        proof {
            assert(final(out)@ =~= old(out)@ + signed_text(v as int));
        }
    } else {
        push_decimal(out, v as u64);
    }
}

/// `n` spaces.
pub open spec fn spaces(n: nat) -> Seq<char> {
    Seq::new(n, |i: int| ' ')
}

/// `s` padded with spaces on the right to at least `width` characters, as
/// `{:<width}` formats it.
pub open spec fn pad_right(s: Seq<char>, width: nat) -> Seq<char> {
    if s.len() < width {
        s + spaces((width - s.len()) as nat)
    } else {
        s
    }
}

/// Appends `s` padded with spaces on the right to at least `width` characters.
pub fn push_padded(out: &mut Vec<char>, s: &[char], width: usize)
    ensures
        final(out)@ == old(out)@ + pad_right(s@, width as nat),
{
    extend_chars(out, s);
    let mut n: usize = s.len();
    while n < width
        invariant
            s@.len() <= n <= width || (n == s@.len() && n >= width),
            out@ == old(out)@ + s@ + spaces((n - s@.len()) as nat),
        decreases width - n,
    {
        out.push(' ');
        n += 1;
        proof {
            assert(spaces((n - s@.len()) as nat) =~= spaces((n - 1 - s@.len()) as nat).push(' '));
        }
    }
    proof {
        assert(spaces(0) =~= Seq::<char>::empty());
        if s@.len() < width {
            assert(n == width);
        }
        assert(final(out)@ =~= old(out)@ + pad_right(s@, width as nat));
    }
}

/// The 16-bit word an integer wraps to.
pub open spec fn wrap16(x: int) -> u16 {
    (x % 0x1_0000) as u16
}

/// Adds a signed amount to an address, wrapping through the 16-bit space.
pub fn wrapping_offset(address: u16, delta: i16) -> (r: u16)
    ensures
        r == wrap16(address + delta),
{
    address.wrapping_add_signed(delta)
}

/// Adds one to an address, wrapping at the top of the 16-bit space.
pub fn wrapping_next(address: u16) -> (r: u16)
    ensures
        r == wrap16(address + 1),
{
    address.wrapping_add(1)
}

/// Wrapping is compatible with addition: an amount may be added before or
/// after wrapping.
pub proof fn lemma_wrap16_add(x: int, d: int)
    ensures
        wrap16(wrap16(x) + d) == wrap16(x + d),
        0 <= wrap16(x) as int == x % 0x1_0000,
{
    vstd::arithmetic::div_mod::lemma_add_mod_noop(x, d, 0x1_0000);
    vstd::arithmetic::div_mod::lemma_add_mod_noop(x % 0x1_0000, d, 0x1_0000);
    vstd::arithmetic::div_mod::lemma_mod_twice(x, 0x1_0000);
}

/// The lower-case digit naming a value below sixteen.
pub open spec fn hex_char_lower(n: int) -> char {
    if n < 10 {
        (('0' as u32) + n) as char
    } else {
        (('a' as u32) + n - 10) as char
    }
}

/// Four lower-case hexadecimal digits, as `{:04x}` prints a word.
pub open spec fn hex4_lower(w: u16) -> Seq<char> {
    seq![
        hex_char_lower(((w as int) / 4096) % 16),
        hex_char_lower(((w as int) / 256) % 16),
        hex_char_lower(((w as int) / 16) % 16),
        hex_char_lower((w as int) % 16),
    ]
}

/// Lower-case hexadecimal digits of a word, at least two, as `{:02x}`
/// prints it.
pub open spec fn hex_lower_min2(w: u16) -> Seq<char> {
    if w < 0x100 {
        hex4_lower(w).skip(2)
    } else if w < 0x1000 {
        hex4_lower(w).skip(1)
    } else {
        hex4_lower(w)
    }
}

/// The lower-case digit character for a value below sixteen.
fn hex_digit_char_lower(n: u16) -> (c: char)
    requires
        n < 16,
    ensures
        c == hex_char_lower(n as int),
{
    if n < 10 {
        ((n as u8) + 48) as char
    } else {
        ((n as u8) + 87) as char
    }
}

/// Appends the four lower-case hexadecimal digits of `w`.
pub fn push_hex4_lower(out: &mut Vec<char>, w: u16)
    ensures
        final(out)@ == old(out)@ + hex4_lower(w),
{
    out.push(hex_digit_char_lower((w / 4096) % 16));
    out.push(hex_digit_char_lower((w / 256) % 16));
    out.push(hex_digit_char_lower((w / 16) % 16));
    out.push(hex_digit_char_lower(w % 16));
    proof {
        assert(final(out)@ =~= old(out)@ + hex4_lower(w));
    }
}

/// Appends the lower-case hexadecimal digits of `w`, at least two.
pub fn push_hex_lower_min2(out: &mut Vec<char>, w: u16)
    ensures
        final(out)@ == old(out)@ + hex_lower_min2(w),
{
    if w >= 0x1000 {
        out.push(hex_digit_char_lower((w / 4096) % 16));
    }
    if w >= 0x100 {
        out.push(hex_digit_char_lower((w / 256) % 16));
    }
    out.push(hex_digit_char_lower((w / 16) % 16));
    out.push(hex_digit_char_lower(w % 16));
    proof {
        assert(final(out)@ =~= old(out)@ + hex_lower_min2(w));
    }
}


/// The decimal digits of a number read back as that number.
pub proof fn lemma_decimal_text_reads(n: nat)
    ensures
        decimal_text(n).len() >= 1,
        all_digits(decimal_text(n)),
        decimal_value(decimal_text(n)) == n,
    decreases n,
{
    let t = decimal_text(n);
    if n < 10 {
        assert(decimal_value(t) == decimal_value(t.drop_last()) * 10 + digit_value(t.last()));
        assert(t.drop_last().len() == 0);
    } else {
        lemma_decimal_text_reads(n / 10);
        let p = decimal_text(n / 10);
        assert(t.drop_last() =~= p);
        assert(decimal_value(t) == decimal_value(p) * 10 + digit_value(t.last()));
        assert(all_digits(t)) by {
            assert forall|i: int| 0 <= i < t.len() implies is_digit(#[trigger] t[i]) by {
                if i < p.len() {
                    assert(t[i] == p[i]);
                }
            }
        }
    }
}

/// The signed decimal form of a value reads back as that value.
pub proof fn lemma_signed_text_reads(v: i32)
    requires
        v > i32::MIN,
    ensures
        parse_i32_spec(signed_text(v as int)) == Some(v),
        signed_text(v as int).len() >= 1,
        v < 0 ==> signed_text(v as int)[0] == '-' && signed_text(v as int).drop_first() == decimal_text(
            (-v) as nat,
        ),
        v >= 0 ==> signed_text(v as int) == decimal_text(v as nat),
{
    if v < 0 {
        lemma_decimal_text_reads((-v) as nat);
        let s = signed_text(v as int);
        assert(s.drop_first() =~= decimal_text((-v) as nat));
    } else {
        lemma_decimal_text_reads(v as nat);
        let s = decimal_text(v as nat);
        assert(is_digit(s[0]));
    }
}

/// Every hexadecimal digit character reads back as its value.
pub proof fn lemma_hex_char_reads(n: int)
    requires
        0 <= n < 16,
    ensures
        is_hex_digit(hex_char(n)),
        hex_digit_value(hex_char(n)) == n,
        is_digit(hex_char(n)) || ('A' <= hex_char(n) && hex_char(n) <= 'F'),
{
}

/// Four hexadecimal digits read back as the word they print.
pub proof fn lemma_hex4_reads(w: u16)
    ensures
        hex4(w).len() == 4,
        all_hex_digits(hex4(w)),
        hex_value(hex4(w)) == w,
{
    let s = hex4(w);
    let a = ((w as int) / 4096) % 16;
    let b = ((w as int) / 256) % 16;
    let c = ((w as int) / 16) % 16;
    let d = (w as int) % 16;
    lemma_hex_char_reads(a);
    lemma_hex_char_reads(b);
    lemma_hex_char_reads(c);
    lemma_hex_char_reads(d);
    assert(s.drop_last() =~= seq![hex_char(a), hex_char(b), hex_char(c)]);
    assert(s.drop_last().drop_last() =~= seq![hex_char(a), hex_char(b)]);
    assert(s.drop_last().drop_last().drop_last() =~= seq![hex_char(a)]);
    assert(s.drop_last().drop_last().drop_last().drop_last() =~= Seq::<char>::empty());
    assert(hex_value(s) == ((a * 16 + b) * 16 + c) * 16 + d) by {
        reveal_with_fuel(hex_value, 5);
    }
    assert(((a * 16 + b) * 16 + c) * 16 + d == w) by {
        assert(0 <= w < 0x1_0000);
    }
}

/// Two hexadecimal digits read back as the byte they print.
pub proof fn lemma_hex2_reads(w: u16)
    requires
        w < 256,
    ensures
        hex2(w).len() == 2,
        all_hex_digits(hex2(w)),
        hex_value(hex2(w)) == w,
{
    let s = hex2(w);
    let c = ((w as int) / 16) % 16;
    let d = (w as int) % 16;
    lemma_hex_char_reads(c);
    lemma_hex_char_reads(d);
    assert(s.drop_last() =~= seq![hex_char(c)]);
    assert(s.drop_last().drop_last() =~= Seq::<char>::empty());
    assert(hex_value(s) == c * 16 + d) by {
        reveal_with_fuel(hex_value, 3);
    }
}


/// Small numbers have short decimal forms.
pub proof fn lemma_decimal_text_short(n: nat)
    ensures
        n < 10 ==> decimal_text(n).len() <= 1,
        n < 100 ==> decimal_text(n).len() <= 2,
        n < 1000 ==> decimal_text(n).len() <= 3,
        n < 10000 ==> decimal_text(n).len() <= 4,
    decreases n,
{
    if n >= 10 {
        lemma_decimal_text_short(n / 10);
    }
}

/// The signed decimal form of a value below ten thousand in size takes at
/// most five characters.
pub proof fn lemma_signed_text_short(v: int)
    requires
        -10000 < v < 10000,
    ensures
        signed_text(v).len() <= 5,
{
    if v < 0 {
        lemma_decimal_text_short((-v) as nat);
    } else {
        lemma_decimal_text_short(v as nat);
    }
}

} // verus!
