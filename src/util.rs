//! Bit-field helpers shared by the instruction codec and the CPU.
use vstd::prelude::*;

verus! {

/// Mask with the low `bits` bits set.
pub open spec fn field_mask(bits: u32) -> u16 {
    (0xffffu16 >> ((16 - bits) as u16))
}

/// The low `bits` bits of `v`, read as a two's complement number and
/// widened to 16 bits: the value itself when its top bit is clear, the value
/// with every higher bit set otherwise.
pub open spec fn sign_extended(v: u16, bits: u32) -> u16 {
    let m = v & field_mask(bits);
    if m & (1u16 << ((bits - 1) as u16)) == 0 {
        m
    } else {
        m | !field_mask(bits)
    }
}

/// The low `bits` bits of `v` as an unsigned value.
pub fn field(v: u16, bits: u32) -> (r: u16)
    requires
        1 <= bits <= 16,
    ensures
        r == v & field_mask(bits),
{
    let mask: u16 = 0xffffu16 >> ((16 - bits) as u16);
    v & mask
}

/// The low `bits` bits of `v` as a signed value.
pub fn sign_extend_field(v: u16, bits: u32) -> (r: i16)
    requires
        1 <= bits <= 15,
    ensures
        r as u16 == sign_extended(v, bits),
{
    let mask: u16 = 0xffffu16 >> ((16 - bits) as u16);
    let top: u16 = 1u16 << ((bits - 1) as u16);
    let m: u16 = v & mask;
    let w: u16 = if m & top == 0 {
        m
    } else {
        m | !mask
    };
    let r: i16 = #[verifier::truncate] (w as i16);
    assert(r as u16 == w) by (bit_vector)
        requires
            r == #[verifier::truncate] (w as i16),
    ;
    r
}

/// Two's complement bits of `value`, truncated to the low `bits` bits.
pub fn encode_signed_field(value: i16, bits: u32) -> (r: u16)
    requires
        1 <= bits <= 16,
    ensures
        r == (value as u16) & field_mask(bits),
{
    let mask: u16 = 0xffffu16 >> ((16 - bits) as u16);
    (value as u16) & mask
}

/// Whether two strings hold the same characters.
pub fn str_eq(a: &str, b: &str) -> (r: bool)
    ensures
        r == (a@ == b@),
{
    let n = a.unicode_len();
    if n != b.unicode_len() {
        return false;
    }
    let mut i: usize = 0;
    while i < n
        invariant
            n == a@.len(),
            n == b@.len(),
            i <= n,
            forall|k: int| 0 <= k < i ==> a@[k] == b@[k],
        decreases n - i,
    {
        if a.get_char(i) != b.get_char(i) {
            return false;
        }
        i = i + 1;
    }
    assert(a@ =~= b@);
    true
}

} // verus!
