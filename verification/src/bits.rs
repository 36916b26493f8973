//! Bit-field helpers shared by every tool.
use vstd::prelude::*;

verus! {

/// The value of the low `bits` bits of `value` read as a two's-complement
/// number and widened back to sixteen bits.
pub open spec fn spec_sign_extend(value: u16, bit_count: u32) -> u16 {
    if bit_count == 0 || bit_count >= 16 {
        value
    } else {
        let mask = ((1u32 << bit_count) - 1) as u16;
        let magnitude = value & mask;
        if magnitude & ((1u32 << ((bit_count - 1) as u32)) as u16) != 0 {
            magnitude | !mask
        } else {
            magnitude
        }
    }
}

/// Sign-extends the low `bit_count` bits of `value` to a full 16-bit word.
pub fn sign_extend(value: u16, bit_count: u32) -> (r: u16)
    ensures
        r == spec_sign_extend(value, bit_count),
{
    if bit_count == 0 || bit_count >= 16 {
        return value;
    }
    assert(1 <= bit_count < 16 ==> 1 <= (1u32 << bit_count) <= 0x8000) by (bit_vector);
    let field_mask: u16 = ((1u32 << bit_count) - 1) as u16;
    let magnitude = value & field_mask;
    assert(1 <= bit_count < 16 ==> (1u32 << ((bit_count - 1) as u32)) <= 0x8000) by (bit_vector);
    let sign_bit: u16 = (1u32 << ((bit_count - 1) as u32)) as u16;
    if magnitude & sign_bit != 0 {
        magnitude | !field_mask
    } else {
        magnitude
    }
}


/// `2^bits`, the number of values a `bits`-wide field holds.
pub open spec fn field_span(bits: u32) -> int
    decreases bits,
{
    if bits == 0 {
        1
    } else {
        2 * field_span((bits - 1) as u32)
    }
}

/// The `bits`-wide two's-complement encoding of `value`, if it fits.
pub open spec fn signed_field_spec(value: i32, bits: u32) -> Option<u16> {
    let half = field_span(bits) / 2;
    if -half <= value && value < half {
        Some(if value < 0 { (value + field_span(bits)) as u16 } else { value as u16 })
    } else {
        None
    }
}

/// The `bits`-wide unsigned encoding of `value`, if it fits.
pub open spec fn unsigned_field_spec(value: i32, bits: u32) -> Option<u16> {
    if 0 <= value && value < field_span(bits) {
        Some(value as u16)
    } else {
        None
    }
}

proof fn lemma_field_span_positive(b: u32)
    ensures
        1 <= field_span(b),
    decreases b,
{
    if b > 0 {
        lemma_field_span_positive((b - 1) as u32);
    }
}

proof fn lemma_field_span_monotone(b: u32, c: u32)
    requires
        b <= c,
    ensures
        1 <= field_span(b) <= field_span(c),
    decreases c,
{
    if c > b {
        lemma_field_span_monotone(b, (c - 1) as u32);
    } else {
        lemma_field_span_positive(b);
    }
}

proof fn lemma_field_span_bounds(bits: u32)
    requires
        bits <= 16,
    ensures
        1 <= field_span(bits) <= 0x1_0000,
        bits >= 1 ==> field_span(bits) % 2 == 0,
{
    reveal_with_fuel(field_span, 17);
    assert(field_span(16) == 0x1_0000);
    lemma_field_span_monotone(bits, 16);
}

fn span_of(bits: u32) -> (r: i64)
    requires
        bits <= 16,
    ensures
        r == field_span(bits),
{
    let mut r: i64 = 1;
    let mut k: u32 = 0;
    while k < bits
        invariant
            k <= bits <= 16,
            r == field_span(k),
        decreases bits - k,
    {
        proof {
            lemma_field_span_bounds(k);
        }
        r = r * 2;
        k += 1;
    }
    r
}

/// Encodes `value` into a signed `bits`-wide instruction field, or `None` when
/// it does not fit the field's two's-complement range.
pub fn signed_field(value: i32, bits: u32) -> (r: Option<u16>)
    requires
        1 <= bits <= 16,
    ensures
        r == signed_field_spec(value, bits),
{
    let span = span_of(bits);
    proof {
        lemma_field_span_bounds(bits);
    }
    let half = span / 2;
    let v = value as i64;
    if -half <= v && v < half {
        if v < 0 {
            Some((v + span) as u16)
        } else {
            Some(v as u16)
        }
    } else {
        None
    }
}

/// Encodes `value` into an unsigned `bits`-wide instruction field, or `None`
/// when it is negative or too large for the field.
pub fn unsigned_field(value: i32, bits: u32) -> (r: Option<u16>)
    requires
        1 <= bits <= 16,
    ensures
        r == unsigned_field_spec(value, bits),
{
    let span = span_of(bits);
    proof {
        lemma_field_span_bounds(bits);
    }
    let v = value as i64;
    if 0 <= v && v < span {
        Some(v as u16)
    } else {
        None
    }
}

} // verus!
