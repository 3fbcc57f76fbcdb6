//! The primitive codec: variable-length and fixed-width integers, booleans
//! and length-prefixed UTF-8 text, written to a byte sink and read back
//! through a cursor.

use vstd::prelude::*;
use vstd::string::StringSliceAdditionalSpecFns;
use vstd::utf8::valid_utf8;

verus! {

/// The unsigned varint of `v`: seven bits per byte, least significant group
/// first, the top bit of a byte set on all but the last.
pub open spec fn varint_bytes(v: nat) -> Seq<u8>
    decreases v,
{
    if v < 128 {
        seq![v as u8]
    } else {
        seq![(v % 128 + 128) as u8] + varint_bytes(v / 128)
    }
}

/// The varint that starts at `offs` in `s`: its value and the offset just
/// behind it, or `None` where the bytes end before the varint does.
pub open spec fn varint_value(s: Seq<u8>, offs: int) -> Option<(nat, int)>
    decreases s.len() - offs,
{
    if offs < 0 || offs >= s.len() {
        None
    } else if s[offs] < 128 {
        Some((s[offs] as nat, offs + 1))
    } else {
        match varint_value(s, offs + 1) {
            Some((v, next)) => Some(((s[offs] - 128 + 128 * v) as nat, next)),
            None => None,
        }
    }
}

/// A varint starts at `offs` in `s` and its value is at most `limit`.
pub open spec fn varint_fits(s: Seq<u8>, offs: int, limit: nat) -> bool {
    match varint_value(s, offs) {
        Some((v, _)) => v <= limit,
        None => false,
    }
}

/// The zig-zag code of a signed integer, which keeps the sign in the lowest
/// bit: 0, -1, 1, -2, 2 and so on have the codes 0, 1, 2, 3, 4 and so on.
/// Every integer of 32 or 64 bits has a code of the same width.
pub open spec fn signed_code(v: int) -> nat {
    if v >= 0 {
        (2 * v) as nat
    } else {
        (-2 * v - 1) as nat
    }
}

/// The integer that a zig-zag code stands for.
pub open spec fn signed_of_code(code: nat) -> int {
    if code % 2 == 0 {
        code as int / 2
    } else {
        -(code as int / 2) - 1
    }
}

/// The integer that the code of an integer stands for is that integer, and
/// the code of an integer of 32 or 64 bits has as many bits.
pub proof fn lemma_signed_round_trip(v: int)
    ensures
        signed_of_code(signed_code(v)) == v,
        i32::MIN <= v <= i32::MAX ==> signed_code(v) <= u32::MAX,
        i64::MIN <= v <= i64::MAX ==> signed_code(v) <= u64::MAX,
{
}

/// The four bytes of `v`, least significant first.
pub open spec fn fixed_u32_bytes(v: u32) -> Seq<u8> {
    seq![
        (v % 256) as u8,
        (v / 256 % 256) as u8,
        (v / 65536 % 256) as u8,
        (v / 16777216 % 256) as u8,
    ]
}

/// The eight bytes of `v`, least significant first.
pub open spec fn fixed_u64_bytes(v: u64) -> Seq<u8> {
    fixed_u32_bytes((v % 4294967296) as u32) + fixed_u32_bytes((v / 4294967296) as u32)
}

/// The number whose four little-endian bytes start at `offs` in `s`.
pub open spec fn fixed_u32_value(s: Seq<u8>, offs: int) -> nat {
    (s[offs] + 256 * s[offs + 1] + 65536 * s[offs + 2] + 16777216 * s[offs + 3]) as nat
}

/// The number whose eight little-endian bytes start at `offs` in `s`.
pub open spec fn fixed_u64_value(s: Seq<u8>, offs: int) -> nat {
    fixed_u32_value(s, offs) + 4294967296 * fixed_u32_value(s, offs + 4)
}

/// The byte that stands for a boolean.
pub open spec fn bool_bytes(v: bool) -> Seq<u8> {
    seq![if v { 1u8 } else { 0u8 }]
}

/// A text on the wire: the varint of its length in bytes, then its UTF-8 bytes.
pub open spec fn utf8_bytes(text: Seq<u8>) -> Seq<u8> {
    varint_bytes(text.len()) + text
}

/// The place of the length-prefixed bytes that start at `offs` in `s`: where
/// the bytes behind the varint of their length begin and where they end.
pub open spec fn prefixed_span(s: Seq<u8>, offs: int) -> Option<(int, int)> {
    match varint_value(s, offs) {
        Some((len, start)) => if start + len <= s.len() {
            Some((start, start + len))
        } else {
            None
        },
        None => None,
    }
}

/// A length-prefixed valid UTF-8 text starts at `offs` in `s`.
pub open spec fn utf8_fits(s: Seq<u8>, offs: int) -> bool {
    match prefixed_span(s, offs) {
        Some((start, end)) => valid_utf8(s.subrange(start, end)),
        None => false,
    }
}

/// The value that a varint reader has when `acc` is what the bytes before
/// `rest` gave and each unit of `rest` weighs `weight`.
pub open spec fn varint_resume(rest: Option<(nat, int)>, acc: nat, weight: nat) -> Option<
    (nat, int),
> {
    match rest {
        Some((v, next)) => Some((acc + weight * v, next)),
        None => None,
    }
}

/// A varint is at least as large as the seven low bits of its first byte.
pub proof fn lemma_varint_value_low(s: Seq<u8>, offs: int)
    requires
        varint_value(s, offs) is Some,
    ensures
        (varint_value(s, offs)->0).0 >= s[offs] % 128,
        offs < (varint_value(s, offs)->0).1 <= s.len(),
    decreases s.len() - offs,
{
    if s[offs] >= 128 {
        lemma_varint_value_low(s, offs + 1);
    }
}

/// Reading the varint of `v` gives `v` back, wherever its bytes stand.
pub proof fn lemma_varint_round_trip(s: Seq<u8>, offs: int, v: nat)
    requires
        0 <= offs,
        offs + varint_bytes(v).len() <= s.len(),
        s.subrange(offs, offs + varint_bytes(v).len()) == varint_bytes(v),
    ensures
        varint_value(s, offs) == Some((v, offs + varint_bytes(v).len())),
    decreases v,
{
    let enc = varint_bytes(v);
    let part = s.subrange(offs, offs + enc.len());
    assert(part[0] == s[offs]);
    if v >= 128 {
        let tail = varint_bytes(v / 128);
        assert(enc == seq![(v % 128 + 128) as u8] + tail);
        assert(s.subrange(offs + 1, offs + 1 + tail.len()) =~= tail) by {
            assert forall|j: int| 0 <= j < tail.len() implies s[offs + 1 + j] == tail[j] by {
                assert(part[j + 1] == s[offs + 1 + j]);
                assert(enc[j + 1] == tail[j]);
            }
        }
        lemma_varint_round_trip(s, offs + 1, v / 128);
    }
}

/// A varint is never empty, and that of a 64-bit number has at most ten bytes.
pub proof fn lemma_varint_len(v: nat)
    ensures
        varint_bytes(v).len() >= 1,
        v <= u64::MAX ==> varint_bytes(v).len() <= 10,
        v <= u32::MAX ==> varint_bytes(v).len() <= 5,
{
    reveal_with_fuel(varint_bytes, 11);
}

/// Appends the varint of `value` to `buf`.
fn put_varint(buf: &mut Vec<u8>, value: u64)
    ensures
        final(buf)@ == old(buf)@ + varint_bytes(value as nat),
{
    let mut rest: u64 = value;
    while rest >= 128
        invariant
            buf@ + varint_bytes(rest as nat) == old(buf)@ + varint_bytes(value as nat),
        decreases rest,
    {
        let ghost before = buf@;
        let low: u8 = (rest % 128 + 128) as u8;
        buf.push(low);
        proof {
            let tail = varint_bytes((rest / 128) as nat);
            assert(varint_bytes(rest as nat) == seq![low] + tail);
            assert(before.push(low) + tail =~= before + (seq![low] + tail));
        }
        rest = rest / 128;
    }
    let ghost before = buf@;
    buf.push(rest as u8);
    proof {
        assert(before.push(rest as u8) =~= before + varint_bytes(rest as nat));
    }
}

/// Reads the varint at `offs`: its value and the offset behind it, if a varint
/// is there and its value is at most `limit`.
pub fn checked_varint(buf: &[u8], offs: usize, limit: u64) -> (r: Option<(u64, usize)>)
    ensures
        r is Some <==> varint_fits(buf@, offs as int, limit as nat),
        r matches Some((v, next)) ==> varint_value(buf@, offs as int) == Some(
            (v as nat, next as int),
        ),
{
    let ghost s = buf@;
    let mut acc: u64 = 0;
    let mut scale: Option<u64> = Some(1);
    let ghost mut weight: nat = 1;
    let mut i: usize = offs;
    while i < buf.len()
        invariant
            s == buf@,
            offs <= i,
            acc <= limit,
            weight >= 1,
            scale matches Some(m) ==> m == weight,
            scale is None ==> weight > u64::MAX,
            varint_value(s, offs as int) == varint_resume(
                varint_value(s, i as int),
                acc as nat,
                weight,
            ),
        decreases buf.len() - i,
    {
        let byte: u8 = buf[i];
        let low: u64 = (byte % 128) as u64;
        let ghost rest = varint_value(s, i as int);
        proof {
            if rest is Some {
                lemma_varint_value_low(s, i as int);
                assert(weight * (rest->0).0 >= weight * low) by (nonlinear_arith)
                    requires
                        (rest->0).0 >= low,
                        weight >= 0,
                ;
            }
        }
        let mut sum: u64 = acc;
        if low != 0 {
            let term = match scale {
                Some(m) => low.checked_mul(m),
                None => None,
            };
            proof {
                assert(weight * low >= weight) by (nonlinear_arith)
                    requires
                        low >= 1,
                        weight >= 0,
                ;
            }
            match term {
                None => {
                    return None;
                },
                Some(t) => {
                    assert(t == weight * low) by (nonlinear_arith)
                        requires
                            t == low * weight,
                    ;
                    match acc.checked_add(t) {
                        None => {
                            return None;
                        },
                        Some(total) => {
                            if total > limit {
                                return None;
                            }
                            sum = total;
                        },
                    }
                },
            }
        } else {
            assert(weight * low == 0) by (nonlinear_arith)
                requires
                    low == 0,
            ;
        }
        assert(sum == acc + weight * low);
        if byte < 128 {
            return Some((sum, i + 1));
        }
        proof {
            let after = varint_value(s, i + 1);
            if after is Some {
                let v = (after->0).0;
                assert(weight * (low + 128 * v) == weight * low + (weight * 128) * v)
                    by (nonlinear_arith);
            }
        }
        scale = match scale {
            Some(m) => m.checked_mul(128),
            None => None,
        };
        proof {
            weight = weight * 128;
        }
        acc = sum;
        i = i + 1;
    }
    None
}

/// Appends the four little-endian bytes of `value` to `buf`.
fn put_fixed_u32(buf: &mut Vec<u8>, value: u32)
    ensures
        final(buf)@ == old(buf)@ + fixed_u32_bytes(value),
{
    buf.push((value % 256) as u8);
    buf.push((value / 256 % 256) as u8);
    buf.push((value / 65536 % 256) as u8);
    buf.push((value / 16777216 % 256) as u8);
    assert(buf@ =~= old(buf)@ + fixed_u32_bytes(value));
}

/// Reads the four little-endian bytes at `offs`, and gives the offset behind
/// them.
fn take_fixed_u32(buf: &[u8], offs: usize) -> (r: (u32, usize))
    requires
        offs + 4 <= buf@.len(),
    ensures
        r.0 == fixed_u32_value(buf@, offs as int),
        r.1 == offs + 4,
{
    let b0: u32 = buf[offs] as u32;
    let b1: u32 = buf[offs + 1] as u32;
    let b2: u32 = buf[offs + 2] as u32;
    let b3: u32 = buf[offs + 3] as u32;
    (b0 + 256 * b1 + 65536 * b2 + 16777216 * b3, offs + 4)
}

/// Reading the fixed-width bytes of a 32-bit number gives the number back.
pub proof fn lemma_fixed_u32_round_trip(s: Seq<u8>, offs: int, v: u32)
    requires
        0 <= offs,
        offs + 4 <= s.len(),
        s.subrange(offs, offs + 4) == fixed_u32_bytes(v),
    ensures
        fixed_u32_value(s, offs) == v,
{
    let part = s.subrange(offs, offs + 4);
    assert(part[0] == s[offs]);
    assert(part[1] == s[offs + 1]);
    assert(part[2] == s[offs + 2]);
    assert(part[3] == s[offs + 3]);
}

/// Reading the fixed-width bytes of a 64-bit number gives the number back.
pub proof fn lemma_fixed_u64_round_trip(s: Seq<u8>, offs: int, v: u64)
    requires
        0 <= offs,
        offs + 8 <= s.len(),
        s.subrange(offs, offs + 8) == fixed_u64_bytes(v),
    ensures
        fixed_u64_value(s, offs) == v,
{
    let part = s.subrange(offs, offs + 8);
    let low = (v % 4294967296) as u32;
    let high = (v / 4294967296) as u32;
    assert(s.subrange(offs, offs + 4) =~= part.subrange(0, 4));
    assert(s.subrange(offs + 4, offs + 8) =~= part.subrange(4, 8));
    assert(part.subrange(0, 4) =~= fixed_u32_bytes(low));
    assert(part.subrange(4, 8) =~= fixed_u32_bytes(high));
    lemma_fixed_u32_round_trip(s, offs, low);
    lemma_fixed_u32_round_trip(s, offs + 4, high);
}

/// A byte sink that the primitive values are written to.
pub trait EncodePrimitives {
    /// The bytes written so far.
    spec fn written(&self) -> Seq<u8>;

    /// Appends the varint of `value`.
    fn encode_varint_u64(&mut self, value: u64)
        ensures
            final(self).written() == old(self).written() + varint_bytes(value as nat),
    ;

    /// Appends the varint of `value`.
    fn encode_varint_u32(&mut self, value: u32)
        ensures
            final(self).written() == old(self).written() + varint_bytes(value as nat),
    ;

    /// Appends the varint of `value`.
    fn encode_varint_usize(&mut self, value: usize)
        ensures
            final(self).written() == old(self).written() + varint_bytes(value as nat),
    ;

    /// Appends the varint of the zig-zag code of `value`.
    fn encode_varint_i64(&mut self, value: i64)
        ensures
            final(self).written() == old(self).written() + varint_bytes(signed_code(value as int)),
    ;

    /// Appends the varint of the zig-zag code of `value`.
    fn encode_varint_i32(&mut self, value: i32)
        ensures
            final(self).written() == old(self).written() + varint_bytes(signed_code(value as int)),
    ;

    /// Appends the eight bytes of `value`, least significant first.
    fn encode_fixed_u64(&mut self, value: u64)
        ensures
            final(self).written() == old(self).written() + fixed_u64_bytes(value),
    ;

    /// Appends the four bytes of `value`, least significant first.
    fn encode_fixed_u32(&mut self, value: u32)
        ensures
            final(self).written() == old(self).written() + fixed_u32_bytes(value),
    ;

    /// Appends one byte: 1 for `true`, 0 for `false`.
    fn encode_bool(&mut self, value: bool)
        ensures
            final(self).written() == old(self).written() + bool_bytes(value),
    ;

    /// Appends the varint of the length of the text in bytes, then its UTF-8
    /// bytes.
    fn encode_utf8(&mut self, value: &str)
        ensures
            final(self).written() == old(self).written() + utf8_bytes(value.spec_bytes()),
    ;
}

impl EncodePrimitives for Vec<u8> {
    open spec fn written(&self) -> Seq<u8> {
        self@
    }

    fn encode_varint_u64(&mut self, value: u64) {
        put_varint(self, value)
    }

    fn encode_varint_u32(&mut self, value: u32) {
        put_varint(self, value as u64)
    }

    fn encode_varint_usize(&mut self, value: usize) {
        put_varint(self, value as u64)
    }

    fn encode_varint_i64(&mut self, value: i64) {
        if value >= 0 {
            put_varint(self, 2 * (value as u64))
        } else {
            put_varint(self, 2 * ((-(value + 1)) as u64) + 1)
        }
    }

    fn encode_varint_i32(&mut self, value: i32) {
        if value >= 0 {
            put_varint(self, 2 * (value as u64))
        } else {
            put_varint(self, 2 * ((-(value + 1)) as u64) + 1)
        }
    }

    fn encode_fixed_u64(&mut self, value: u64) {
        put_fixed_u32(self, (value % 4294967296) as u32);
        put_fixed_u32(self, (value / 4294967296) as u32);
        assert(self@ =~= old(self)@ + fixed_u64_bytes(value));
    }

    fn encode_fixed_u32(&mut self, value: u32) {
        put_fixed_u32(self, value)
    }

    fn encode_bool(&mut self, value: bool) {
        self.push(if value { 1u8 } else { 0u8 });
        assert(self@ =~= old(self)@ + bool_bytes(value));
    }

    fn encode_utf8(&mut self, value: &str) {
        let bytes = value.as_bytes();
        put_varint(self, bytes.len() as u64);
        self.extend_from_slice(bytes);
        assert(self@ =~= old(self)@ + utf8_bytes(value.spec_bytes()));
    }
}

/// Calls `std::str::from_utf8`: the text that the bytes spell, where they are
/// valid UTF-8, and nothing where they are not.
#[verifier::external_body]
pub(crate) fn text_of_bytes(bytes: &[u8]) -> (r: Option<&str>)
    ensures
        r is Some <==> valid_utf8(bytes@),
        r matches Some(text) ==> text.spec_bytes() == bytes@,
{
    std::str::from_utf8(bytes).ok()
}

/// Finds the length-prefixed bytes at `offs`: where they begin and where they
/// end, if the prefix and that many bytes are there.
pub fn checked_span(buf: &[u8], offs: usize) -> (r: Option<(usize, usize)>)
    ensures
        r is Some <==> prefixed_span(buf@, offs as int) is Some,
        r matches Some((start, end)) ==> prefixed_span(buf@, offs as int) == Some(
            (start as int, end as int),
        ) && offs < start <= end <= buf@.len(),
{
    let total: usize = buf.len();
    match checked_varint(buf, offs, usize::MAX as u64) {
        None => {
            proof {
                if varint_value(buf@, offs as int) is Some {
                    lemma_varint_value_low(buf@, offs as int);
                }
            }
            None
        },
        Some((len, start)) => {
            proof {
                lemma_varint_value_low(buf@, offs as int);
            }
            if len > (total - start) as u64 {
                return None;
            }
            Some((start, start + len as usize))
        },
    }
}

/// Reads the length-prefixed text at `offs`: the text and the offset behind
/// it, if the prefix and that many bytes are there and are valid UTF-8.
pub fn checked_utf8(buf: &[u8], offs: usize) -> (r: Option<(&str, usize)>)
    ensures
        r is Some <==> utf8_fits(buf@, offs as int),
        r matches Some((text, next)) ==> {
            &&& prefixed_span(buf@, offs as int) matches Some((start, end))
            &&& next == end
            &&& text.spec_bytes() == buf@.subrange(start, end)
        },
{
    match checked_span(buf, offs) {
        None => None,
        Some((start, end)) => {
            match text_of_bytes(vstd::slice::slice_subrange(buf, start, end)) {
                Some(text) => Some((text, end)),
                None => None,
            }
        },
    }
}

/// A byte buffer that the primitive values are read from, through a cursor
/// that each read moves behind what it consumed.
pub trait DecodePrimitives {
    /// The bytes of the buffer.
    spec fn bytes(&self) -> Seq<u8>;

    /// Reads the varint at `offs`, which fits in 64 bits.
    fn decode_varint_u64(&self, offs: &mut usize) -> (r: u64)
        requires
            varint_fits(self.bytes(), *old(offs) as int, u64::MAX as nat),
        ensures
            varint_value(self.bytes(), *old(offs) as int) == Some(
                (r as nat, *final(offs) as int),
            ),
    ;

    /// Reads the varint at `offs`, which fits in 32 bits.
    fn decode_varint_u32(&self, offs: &mut usize) -> (r: u32)
        requires
            varint_fits(self.bytes(), *old(offs) as int, u32::MAX as nat),
        ensures
            varint_value(self.bytes(), *old(offs) as int) == Some(
                (r as nat, *final(offs) as int),
            ),
    ;

    /// Reads the varint at `offs`, which fits in `usize`.
    fn decode_varint_usize(&self, offs: &mut usize) -> (r: usize)
        requires
            varint_fits(self.bytes(), *old(offs) as int, usize::MAX as nat),
        ensures
            varint_value(self.bytes(), *old(offs) as int) == Some(
                (r as nat, *final(offs) as int),
            ),
    ;

    /// Reads the varint at `offs` and gives the integer that it is the
    /// zig-zag code of.
    fn decode_varint_i64(&self, offs: &mut usize) -> (r: i64)
        requires
            varint_fits(self.bytes(), *old(offs) as int, u64::MAX as nat),
        ensures
            varint_value(self.bytes(), *old(offs) as int) matches Some((code, next))
                && r == signed_of_code(code) && *final(offs) == next,
    ;

    /// Reads the varint at `offs` and gives the integer that it is the
    /// zig-zag code of.
    fn decode_varint_i32(&self, offs: &mut usize) -> (r: i32)
        requires
            varint_fits(self.bytes(), *old(offs) as int, u32::MAX as nat),
        ensures
            varint_value(self.bytes(), *old(offs) as int) matches Some((code, next))
                && r == signed_of_code(code) && *final(offs) == next,
    ;

    /// Reads the eight little-endian bytes at `offs`.
    fn decode_fixed_u64(&self, offs: &mut usize) -> (r: u64)
        requires
            *old(offs) + 8 <= self.bytes().len(),
        ensures
            r == fixed_u64_value(self.bytes(), *old(offs) as int),
            *final(offs) == *old(offs) + 8,
    ;

    /// Reads the four little-endian bytes at `offs`.
    fn decode_fixed_u32(&self, offs: &mut usize) -> (r: u32)
        requires
            *old(offs) + 4 <= self.bytes().len(),
        ensures
            r == fixed_u32_value(self.bytes(), *old(offs) as int),
            *final(offs) == *old(offs) + 4,
    ;

    /// Reads the byte at `offs`: `false` where it is 0, else `true`.
    fn decode_bool(&self, offs: &mut usize) -> (r: bool)
        requires
            *old(offs) < self.bytes().len(),
        ensures
            r == (self.bytes()[*old(offs) as int] != 0),
            *final(offs) == *old(offs) + 1,
    ;

    /// Reads the length-prefixed text at `offs`, which is valid UTF-8.
    fn decode_utf8(&self, offs: &mut usize) -> (r: &str)
        requires
            utf8_fits(self.bytes(), *old(offs) as int),
        ensures
            prefixed_span(self.bytes(), *old(offs) as int) matches Some((start, end))
                && *final(offs) == end && r.spec_bytes() == self.bytes().subrange(start, end),
    ;
}

impl DecodePrimitives for [u8] {
    open spec fn bytes(&self) -> Seq<u8> {
        self@
    }

    fn decode_varint_u64(&self, offs: &mut usize) -> (r: u64) {
        match checked_varint(self, *offs, u64::MAX) {
            Some((v, next)) => {
                *offs = next;
                v
            },
            // not reached: the caller has shown that a varint is there
            None => 0,
        }
    }

    fn decode_varint_u32(&self, offs: &mut usize) -> (r: u32) {
        match checked_varint(self, *offs, u32::MAX as u64) {
            Some((v, next)) => {
                *offs = next;
                v as u32
            },
            // not reached: the caller has shown that a varint is there
            None => 0,
        }
    }

    fn decode_varint_usize(&self, offs: &mut usize) -> (r: usize) {
        match checked_varint(self, *offs, usize::MAX as u64) {
            Some((v, next)) => {
                *offs = next;
                v as usize
            },
            // not reached: the caller has shown that a varint is there
            None => 0,
        }
    }

    fn decode_varint_i64(&self, offs: &mut usize) -> (r: i64) {
        match checked_varint(self, *offs, u64::MAX) {
            Some((v, next)) => {
                *offs = next;
                if v % 2 == 0 {
                    (v / 2) as i64
                } else {
                    -((v / 2) as i64) - 1
                }
            },
            // not reached: the caller has shown that a varint is there
            None => 0,
        }
    }

    fn decode_varint_i32(&self, offs: &mut usize) -> (r: i32) {
        match checked_varint(self, *offs, u32::MAX as u64) {
            Some((v, next)) => {
                *offs = next;
                if v % 2 == 0 {
                    (v / 2) as i32
                } else {
                    -((v / 2) as i32) - 1
                }
            },
            // not reached: the caller has shown that a varint is there
            None => 0,
        }
    }

    fn decode_fixed_u64(&self, offs: &mut usize) -> (r: u64) {
        let (low, middle) = take_fixed_u32(self, *offs);
        let (high, next) = take_fixed_u32(self, middle);
        *offs = next;
        low as u64 + 4294967296 * (high as u64)
    }

    fn decode_fixed_u32(&self, offs: &mut usize) -> (r: u32) {
        let (r, next) = take_fixed_u32(self, *offs);
        *offs = next;
        r
    }

    fn decode_bool(&self, offs: &mut usize) -> (r: bool) {
        let r = self[*offs] != 0;
        *offs = *offs + 1;
        r
    }

    fn decode_utf8(&self, offs: &mut usize) -> (r: &str) {
        match checked_utf8(self, *offs) {
            Some((text, next)) => {
                *offs = next;
                text
            },
            // not reached: the caller has shown that a text is there
            None => "",
        }
    }
}

} // verus!
