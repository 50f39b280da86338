//! LEB128 encodings of the integer literals that emitted WebAssembly holds.

use vstd::prelude::*;

verus! {

/// The unsigned LEB128 encoding of `v`: seven bits per byte, least
/// significant group first, the top bit of every byte but the last set.
pub open spec fn uleb128(v: nat) -> Seq<u8>
    decreases v,
{
    if v < 128 {
        seq![v as u8]
    } else {
        seq![(v % 128 + 128) as u8] + uleb128(v / 128)
    }
}

/// The value that an unsigned LEB128 byte sequence stands for.
pub open spec fn uleb128_value(s: Seq<u8>) -> nat
    decreases s.len(),
{
    if s.len() == 0 {
        0
    } else {
        (s[0] % 128) as nat + 128 * uleb128_value(s.drop_first())
    }
}

/// The absolute value, as a measure.
pub open spec fn magnitude(v: int) -> nat {
    if v >= 0 {
        v as nat
    } else {
        (-v) as nat
    }
}

/// The signed LEB128 encoding of `v`: seven bits per byte, least
/// significant group first, ending at the first group after which the
/// rest of the value is only the sign, which bit 6 of that last group
/// carries.
pub open spec fn sleb128(v: int) -> Seq<u8>
    decreases magnitude(v),
{
    let low = v % 128;
    let rest = (v - low) / 128;
    if (rest == 0 && low < 64) || (rest == -1 && low >= 64) {
        seq![low as u8]
    } else {
        seq![(low + 128) as u8] + sleb128(rest)
    }
}

/// The value that a signed LEB128 byte sequence stands for: the groups
/// of seven bits, the last sign-extended from its bit 6.
pub open spec fn sleb128_value(s: Seq<u8>) -> int
    decreases s.len(),
{
    if s.len() == 0 {
        0
    } else if s.len() == 1 {
        if s[0] % 128 >= 64 {
            (s[0] % 128) - 128
        } else {
            (s[0] % 128) as int
        }
    } else {
        (s[0] % 128) as int + 128 * sleb128_value(s.drop_first())
    }
}

/// Whether a byte sequence is laid out as a LEB128 encoding: not empty,
/// the top bit set on every byte but the last, and clear on the last.
pub open spec fn leb128_framed(s: Seq<u8>) -> bool {
    &&& s.len() > 0
    &&& forall|i: int| 0 <= i < s.len() - 1 ==> #[trigger] s[i] >= 128
    &&& s[s.len() - 1] < 128
}

/// An unsigned 32-bit integer encoded as unsigned LEB128.
pub struct LEB128 {
    pub inner: Vec<u8>,
}

/// A signed 32-bit integer encoded as signed LEB128.
pub struct SLEB128 {
    pub inner: Vec<u8>,
}

impl From<u32> for LEB128 {
    /// Encodes `value`.
    fn from(value: u32) -> (r: LEB128)
        ensures
            r.inner@ == uleb128(value as nat),
    {
        let ghost initial = value as nat;
        let mut value = value;
        let mut inner: Vec<u8> = Vec::new();
        loop
            invariant_except_break
                inner@ + uleb128(value as nat) == uleb128(initial),
            ensures
                inner@ == uleb128(initial),
            decreases value,
        {
            let ghost prev = value;
            let mut byte = value & 0x7f;
            value = value >> 7;
            assert(byte == prev % 128 && value == prev / 128) by (bit_vector)
                requires
                    byte == prev & 0x7f,
                    value == prev >> 7,
            ;
            if value != 0 {
                assert(byte | 0x80 == byte + 128) by (bit_vector)
                    requires
                        byte < 128,
                ;
                byte = byte | 0x80;
            }
            let ghost before = inner@;
            inner.push(byte as u8);
            if value == 0 {
                assert(inner@ == before + uleb128(prev as nat));
                break ;
            }
            assert(uleb128(prev as nat) == seq![byte as u8] + uleb128(value as nat));
            assert(inner@ + uleb128(value as nat) == before + uleb128(prev as nat));
        }
        LEB128 { inner }
    }
}

/// The encoding is stated by `from`'s own `ensures`; no single value of
/// the type is named as the result, as a spec function cannot build the
/// vector.
impl vstd::std_specs::convert::FromSpecImpl<u32> for LEB128 {
    open spec fn obeys_from_spec() -> bool {
        false
    }

    open spec fn from_spec(v: u32) -> LEB128 {
        vstd::pervasive::arbitrary()
    }
}

proof fn lemma_i32_low_bits(prev: i32, byte: i32, rest: i32)
    requires
        byte == prev & 0x7f,
        rest == prev >> 7,
    ensures
        byte as int == (prev as int) % 128,
        rest as int == (prev as int - byte as int) / 128,
        0 <= byte < 128,
{
    assert(0 <= byte < 128) by (bit_vector)
        requires
            byte == prev & 0x7f,
    ;
    assert(prev == rest * 128 + byte) by (bit_vector)
        requires
            byte == prev & 0x7f,
            rest == prev >> 7,
    ;
}

impl From<i32> for SLEB128 {
    /// Encodes `value`.
    fn from(value: i32) -> (r: SLEB128)
        ensures
            r.inner@ == sleb128(value as int),
    {
        let ghost initial = value as int;
        let mut value = value;
        let mut inner: Vec<u8> = Vec::new();
        loop
            invariant_except_break
                inner@ + sleb128(value as int) == sleb128(initial),
            ensures
                inner@ == sleb128(initial),
            decreases magnitude(value as int),
        {
            let ghost prev = value;
            let masked = value & 0x7f;
            value = value >> 7;
            proof {
                lemma_i32_low_bits(prev, masked, value);
            }
            let byte = masked as u8;
            let sign_bit_set = (byte & 0x40) != 0;
            assert(sign_bit_set == (byte >= 64)) by (bit_vector)
                requires
                    byte < 128,
                    sign_bit_set == ((byte & 0x40) != 0),
            ;
            let done = (value == 0 && !sign_bit_set) || (value == -1 && sign_bit_set);
            let ghost before = inner@;
            if done {
                inner.push(byte);
                assert(inner@ == before + sleb128(prev as int));
                break ;
            } else {
                assert(byte | 0x80 == byte + 128) by (bit_vector)
                    requires
                        byte < 128,
                ;
                inner.push(byte | 0x80);
            }
            assert(sleb128(prev as int) == seq![(byte | 0x80) as u8] + sleb128(value as int));
            assert(inner@ + sleb128(value as int) == before + sleb128(prev as int));
        }
        SLEB128 { inner }
    }
}

/// The encoding is stated by `from`'s own `ensures`; no single value of
/// the type is named as the result, as a spec function cannot build the
/// vector.
impl vstd::std_specs::convert::FromSpecImpl<i32> for SLEB128 {
    open spec fn obeys_from_spec() -> bool {
        false
    }

    open spec fn from_spec(v: i32) -> SLEB128 {
        vstd::pervasive::arbitrary()
    }
}

/// Decoding the unsigned LEB128 encoding of a value gives the value back,
/// and the encoding is framed as LEB128 requires.
pub proof fn lemma_uleb128_round_trip(v: nat)
    ensures
        uleb128_value(uleb128(v)) == v,
        leb128_framed(uleb128(v)),
    decreases v,
{
    if v >= 128 {
        lemma_uleb128_round_trip(v / 128);
        let s = uleb128(v);
        assert(s.drop_first() == uleb128(v / 128));
        assert(s[0] % 128 == v % 128);
        assert(v == v % 128 + 128 * (v / 128));
    } else {
        let s = uleb128(v);
        assert(s.drop_first().len() == 0);
        assert(uleb128_value(s.drop_first()) == 0);
    }
}

/// An unsigned 32-bit value takes between one and five bytes.
pub proof fn lemma_uleb128_length(v: nat)
    requires
        v < 0x1_0000_0000,
    ensures
        1 <= uleb128(v).len() <= 5,
{
    reveal_with_fuel(uleb128, 6);
}

/// Decoding the signed LEB128 encoding of a value gives the value back,
/// and the encoding is framed as LEB128 requires.
pub proof fn lemma_sleb128_round_trip(v: int)
    ensures
        sleb128_value(sleb128(v)) == v,
        leb128_framed(sleb128(v)),
    decreases magnitude(v),
{
    let low = v % 128;
    let rest = (v - low) / 128;
    if (rest == 0 && low < 64) || (rest == -1 && low >= 64) {
    } else {
        lemma_sleb128_round_trip(rest);
        let s = sleb128(v);
        assert(s.drop_first() == sleb128(rest));
    }
}

/// The unsigned LEB128 encoding is the shortest: a value takes more than
/// one byte only where its last group is not zero.
pub proof fn lemma_uleb128_minimal(v: nat)
    ensures
        uleb128(v).len() == 1 || uleb128(v).last() != 0,
    decreases v,
{
    if v >= 128 {
        lemma_uleb128_minimal(v / 128);
        let t = uleb128(v / 128);
        assert(uleb128(v).last() == t.last());
    }
}

/// The signed LEB128 encoding is the shortest: where a value takes more
/// than one byte, its last byte is not the mere sign extension of the
/// byte before it (0x00 after a group whose bit 6 is clear, 0x7f after one
/// whose bit 6 is set).
pub proof fn lemma_sleb128_minimal(v: int)
    ensures
        sleb128(v).len() == 1 || ({
            let s = sleb128(v);
            let n = s.len() as int;
            &&& !(s[n - 1] == 0 && s[n - 2] % 128 < 64)
            &&& !(s[n - 1] == 0x7f && s[n - 2] % 128 >= 64)
        }),
    decreases magnitude(v),
{
    let low = v % 128;
    let rest = (v - low) / 128;
    if !((rest == 0 && low < 64) || (rest == -1 && low >= 64)) {
        lemma_sleb128_minimal(rest);
        let s = sleb128(v);
        let t = sleb128(rest);
        assert(s == seq![(low + 128) as u8] + t);
        reveal_with_fuel(sleb128, 2);
        if t.len() >= 2 {
            assert(s[s.len() - 1] == t[t.len() - 1]);
            assert(s[s.len() - 2] == t[t.len() - 2]);
        } else {
            assert(s.len() == 2);
            assert(s[0] % 128 == low);
        }
    }
}

/// A signed 32-bit value takes between one and five bytes.
pub proof fn lemma_sleb128_length(v: int)
    requires
        i32::MIN <= v <= i32::MAX,
    ensures
        1 <= sleb128(v).len() <= 5,
{
    reveal_with_fuel(sleb128, 6);
}

} // verus!
