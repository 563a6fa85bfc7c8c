//! Reading and writing the big-endian fields of a payload.

use vstd::prelude::*;
use crate::protocol::DecodeError;

verus! {

/// `256^n`.
pub open spec fn radix(n: nat) -> int
    decreases n,
{
    if n == 0 { 1 } else { 256 * radix((n - 1) as nat) }
}

/// The `n` low-order bytes of `v`, most significant first.
pub open spec fn be_bytes(v: int, n: nat) -> Seq<u8>
    decreases n,
{
    if n == 0 {
        Seq::empty()
    } else {
        be_bytes(v / 256, (n - 1) as nat).push((v % 256) as u8)
    }
}

/// The number that big-endian bytes stand for.
pub open spec fn read_be(s: Seq<u8>) -> int
    decreases s.len(),
{
    if s.len() == 0 { 0 } else { read_be(s.drop_last()) * 256 + s.last() }
}

/// Two's complement reading of a 32-bit pattern.
pub open spec fn i32_of_bits(u: int) -> int {
    if u >= 0x8000_0000 { u - 0x1_0000_0000 } else { u }
}

/// Two's complement 32-bit pattern of a signed value.
pub open spec fn bits_of_i32(v: int) -> int {
    if v < 0 { v + 0x1_0000_0000 } else { v }
}

/// Values of `radix` used by the fixed-size fields.
pub proof fn radix_values()
    ensures
        radix(1) == 0x100,
        radix(2) == 0x1_0000,
        radix(4) == 0x1_0000_0000,
        radix(8) == 0x1_0000_0000_0000_0000,
{
    reveal_with_fuel(radix, 9);
}

/// `radix` grows with the number of bytes.
pub proof fn radix_grows(m: nat, n: nat)
    requires
        m <= n,
    ensures
        1 <= radix(m) <= radix(n),
    decreases n,
{
    if n > 0 {
        if m < n {
            radix_grows(m, (n - 1) as nat);
        } else {
            radix_grows(0, (n - 1) as nat);
        }
    }
}

/// `be_bytes` has the requested length.
pub proof fn be_bytes_len(v: int, n: nat)
    ensures
        be_bytes(v, n).len() == n,
    decreases n,
{
    if n > 0 {
        be_bytes_len(v / 256, (n - 1) as nat);
    }
}

/// Reading back the bytes written for `v` gives `v` modulo `256^n`.
pub proof fn be_roundtrip(v: int, n: nat)
    requires
        v >= 0,
    ensures
        read_be(be_bytes(v, n)) == v % radix(n),
    decreases n,
{
    if n == 0 {
    } else {
        let s = be_bytes(v, n);
        be_roundtrip(v / 256, (n - 1) as nat);
        assert(s.drop_last() =~= be_bytes(v / 256, (n - 1) as nat));
        radix_grows(0, (n - 1) as nat);
        vstd::arithmetic::div_mod::lemma_mod_breakdown(v, 256, radix((n - 1) as nat));
    }
}

/// The bytes written for a value below `256^n` read back to that value.
pub proof fn be_roundtrip_exact(v: int, n: nat)
    requires
        0 <= v < radix(n),
    ensures
        read_be(be_bytes(v, n)) == v,
        be_bytes(v, n).len() == n,
{
    be_roundtrip(v, n);
    be_bytes_len(v, n);
    vstd::arithmetic::div_mod::lemma_small_mod(v as nat, radix(n) as nat);
}

/// A big-endian reading is below `256^len`.
pub proof fn read_be_bound(s: Seq<u8>)
    ensures
        0 <= read_be(s) < radix(s.len()),
    decreases s.len(),
{
    if s.len() > 0 {
        read_be_bound(s.drop_last());
    }
}

/// Signed values survive the trip through their two's complement pattern.
pub proof fn i32_bits_roundtrip(v: i32)
    ensures
        0 <= bits_of_i32(v as int) < 0x1_0000_0000,
        i32_of_bits(bits_of_i32(v as int)) == v,
{
}

/// Appends the `n` big-endian bytes of `v`.
pub fn push_be(out: &mut Vec<u8>, v: u64, n: usize)
    requires
        n <= 8,
    ensures
        final(out)@ == old(out)@ + be_bytes(v as int, n as nat),
    decreases n,
{
    if n == 0 {
        assert(old(out)@ + be_bytes(v as int, 0) =~= old(out)@);
        return;
    }
    push_be(out, v / 256, n - 1);
    out.push((v % 256) as u8);
    assert(final(out)@ =~= old(out)@ + be_bytes(v as int, n as nat)) by {
        assert(be_bytes(v as int, n as nat) == be_bytes(v as int / 256, (n - 1) as nat).push(
            (v as int % 256) as u8,
        ));
    }
}

/// Reads up to eight big-endian bytes.
pub fn read_be_slice(s: &[u8]) -> (r: u64)
    requires
        s@.len() <= 8,
    ensures
        r == read_be(s@),
{
    let mut acc: u64 = 0;
    let mut i: usize = 0;
    proof {
        radix_values();
    }
    while i < s.len()
        invariant
            i <= s@.len() <= 8,
            acc == read_be(s@.take(i as int)),
            radix(8) == 0x1_0000_0000_0000_0000,
        decreases s@.len() - i,
    {
        proof {
            read_be_bound(s@.take(i as int));
            radix_grows((i + 1) as nat, 8);
            assert(acc * 256 + 255 < 0x1_0000_0000_0000_0000) by {
                assert(radix((i + 1) as nat) == 256 * radix(i as nat));
            }
            assert(s@.take(i + 1).drop_last() =~= s@.take(i as int));
        }
        acc = acc * 256 + s[i] as u64;
        i = i + 1;
    }
    proof {
        assert(s@.take(i as int) =~= s@);
    }
    acc
}

/// Sequential reader over a payload. [`Reader::finish`] demands that every
/// announced byte be consumed.
pub struct Reader<'a> {
    bytes: &'a [u8],
}

impl<'a> View for Reader<'a> {
    type V = Seq<u8>;

    closed spec fn view(&self) -> Seq<u8> {
        self.bytes@
    }
}

impl<'a> Reader<'a> {
    pub fn new(bytes: &'a [u8]) -> (r: Self)
        ensures
            r@ == bytes@,
    {
        Self { bytes }
    }

    /// Takes `n` bytes off the front, or fails leaving the reader as it was.
    fn take(&mut self, n: usize) -> (r: Result<u64, DecodeError>)
        requires
            n <= 8,
        ensures
            old(self)@.len() < n ==> r == Err::<u64, DecodeError>(DecodeError::MalformedPayload) && final(self)@ == old(self)@,
            old(self)@.len() >= n ==> r == Ok::<u64, DecodeError>(read_be(old(self)@.take(n as int)) as u64)
                && final(self)@ == old(self)@.skip(n as int),
    {
        if self.bytes.len() < n {
            return Err(DecodeError::MalformedPayload);
        }
        let head = &self.bytes[0..n];
        let value = read_be_slice(head);
        self.bytes = &self.bytes[n..self.bytes.len()];
        assert(head@ =~= old(self)@.take(n as int));
        assert(self@ =~= old(self)@.skip(n as int));
        Ok(value)
    }

    pub fn u8(&mut self) -> (r: Result<u8, DecodeError>)
        ensures
            old(self)@.len() < 1 ==> r == Err::<u8, DecodeError>(DecodeError::MalformedPayload) && final(self)@ == old(self)@,
            old(self)@.len() >= 1 ==> r == Ok::<u8, DecodeError>(read_be(old(self)@.take(1)) as u8)
                && final(self)@ == old(self)@.skip(1),
    {
        match self.take(1) {
            Ok(v) => {
                proof {
                    read_be_bound(old(self)@.take(1));
                    radix_values();
                }
                Ok(v as u8)
            },
            Err(e) => Err(e),
        }
    }

    pub fn u16(&mut self) -> (r: Result<u16, DecodeError>)
        ensures
            old(self)@.len() < 2 ==> r == Err::<u16, DecodeError>(DecodeError::MalformedPayload) && final(self)@ == old(self)@,
            old(self)@.len() >= 2 ==> r == Ok::<u16, DecodeError>(read_be(old(self)@.take(2)) as u16)
                && final(self)@ == old(self)@.skip(2),
    {
        match self.take(2) {
            Ok(v) => {
                proof {
                    read_be_bound(old(self)@.take(2));
                    radix_values();
                }
                Ok(v as u16)
            },
            Err(e) => Err(e),
        }
    }

    pub fn u32(&mut self) -> (r: Result<u32, DecodeError>)
        ensures
            old(self)@.len() < 4 ==> r == Err::<u32, DecodeError>(DecodeError::MalformedPayload) && final(self)@ == old(self)@,
            old(self)@.len() >= 4 ==> r == Ok::<u32, DecodeError>(read_be(old(self)@.take(4)) as u32)
                && final(self)@ == old(self)@.skip(4),
    {
        match self.take(4) {
            Ok(v) => {
                proof {
                    read_be_bound(old(self)@.take(4));
                    radix_values();
                }
                Ok(v as u32)
            },
            Err(e) => Err(e),
        }
    }

    pub fn u64(&mut self) -> (r: Result<u64, DecodeError>)
        ensures
            old(self)@.len() < 8 ==> r == Err::<u64, DecodeError>(DecodeError::MalformedPayload) && final(self)@ == old(self)@,
            old(self)@.len() >= 8 ==> r == Ok::<u64, DecodeError>(read_be(old(self)@.take(8)) as u64)
                && final(self)@ == old(self)@.skip(8),
    {
        self.take(8)
    }

    pub fn i32(&mut self) -> (r: Result<i32, DecodeError>)
        ensures
            old(self)@.len() < 4 ==> r == Err::<i32, DecodeError>(DecodeError::MalformedPayload) && final(self)@ == old(self)@,
            old(self)@.len() >= 4 ==> r == Ok::<i32, DecodeError>(i32_of_bits(read_be(old(self)@.take(4))) as i32)
                && final(self)@ == old(self)@.skip(4),
    {
        match self.take(4) {
            Ok(v) => {
                proof {
                    read_be_bound(old(self)@.take(4));
                    radix_values();
                }
                if v >= 0x8000_0000 {
                    Ok(((v - 0x8000_0000) as i32) - 0x7fff_ffff - 1)
                } else {
                    Ok(v as i32)
                }
            },
            Err(e) => Err(e),
        }
    }

    /// Fails if unread bytes remain.
    pub fn finish(self) -> (r: Result<(), DecodeError>)
        ensures
            r == (if self@.len() == 0 {
                Ok::<(), DecodeError>(())
            } else {
                Err(DecodeError::MalformedPayload)
            }),
    {
        if self.bytes.len() == 0 {
            Ok(())
        } else {
            Err(DecodeError::MalformedPayload)
        }
    }
}

/// Payload accumulator.
pub struct Writer {
    bytes: Vec<u8>,
}

impl View for Writer {
    type V = Seq<u8>;

    closed spec fn view(&self) -> Seq<u8> {
        self.bytes@
    }
}

impl Default for Writer {
    fn default() -> (r: Self)
        ensures
            r@ == Seq::<u8>::empty(),
    {
        Self { bytes: Vec::new() }
    }
}

impl Writer {
    pub fn u8(self, value: u8) -> (r: Self)
        ensures
            r@ == self@ + be_bytes(value as int, 1),
    {
        let mut bytes = self.bytes;
        push_be(&mut bytes, value as u64, 1);
        Self { bytes }
    }

    pub fn u16(self, value: u16) -> (r: Self)
        ensures
            r@ == self@ + be_bytes(value as int, 2),
    {
        let mut bytes = self.bytes;
        push_be(&mut bytes, value as u64, 2);
        Self { bytes }
    }

    pub fn u32(self, value: u32) -> (r: Self)
        ensures
            r@ == self@ + be_bytes(value as int, 4),
    {
        let mut bytes = self.bytes;
        push_be(&mut bytes, value as u64, 4);
        Self { bytes }
    }

    pub fn u64(self, value: u64) -> (r: Self)
        ensures
            r@ == self@ + be_bytes(value as int, 8),
    {
        let mut bytes = self.bytes;
        push_be(&mut bytes, value, 8);
        Self { bytes }
    }

    pub fn i32(self, value: i32) -> (r: Self)
        ensures
            r@ == self@ + be_bytes(bits_of_i32(value as int), 4),
    {
        let bits: u64 = if value < 0 {
            (value as i64 + 0x1_0000_0000i64) as u64
        } else {
            value as u64
        };
        let mut bytes = self.bytes;
        push_be(&mut bytes, bits, 4);
        Self { bytes }
    }

    pub fn into_bytes(self) -> (r: Vec<u8>)
        ensures
            r@ == self@,
    {
        self.bytes
    }
}

} // verus!
