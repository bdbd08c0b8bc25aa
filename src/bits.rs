use vstd::prelude::*;

use endio_bit::{BEBitReader, BEBitWriter};

use crate::error::ReplicaError;

verus! {

/// The number of values that fit in `w` bits.
pub open spec fn bit_bound(w: nat) -> nat
    decreases w,
{
    if w == 0 { 1 } else { 2 * bit_bound((w - 1) as nat) }
}

/// The number of values that fit in `n` bytes.
pub open spec fn byte_bound(n: nat) -> nat
    decreases n,
{
    if n == 0 { 1 } else { 256 * byte_bound((n - 1) as nat) }
}

/// The value of a bit sequence read most significant bit first.
pub open spec fn bits_value(s: Seq<bool>) -> nat
    decreases s.len(),
{
    if s.len() == 0 {
        0
    } else {
        2 * bits_value(s.drop_last()) + (if s.last() { 1nat } else { 0nat })
    }
}

/// The `w` low bits of `v`, most significant bit first.
pub open spec fn uint_bits(v: nat, w: nat) -> Seq<bool>
    decreases w,
{
    if w == 0 {
        Seq::empty()
    } else {
        uint_bits(v / 2, (w - 1) as nat).push(v % 2 == 1)
    }
}

/// The `n` low bytes of `v`, least significant byte first, each byte most
/// significant bit first.
pub open spec fn le_bits(v: nat, n: nat) -> Seq<bool>
    decreases n,
{
    if n == 0 {
        Seq::empty()
    } else {
        uint_bits(v % 256, 8) + le_bits(v / 256, (n - 1) as nat)
    }
}

/// The value of the first `n` bytes of `s`, laid out as `le_bits` lays them.
pub open spec fn le_value(s: Seq<bool>, n: nat) -> nat
    decreases n,
{
    if n == 0 {
        0
    } else {
        bits_value(s.take(8)) + 256 * le_value(s.skip(8), (n - 1) as nat)
    }
}

/// The bits of a byte buffer, each byte most significant bit first.
pub open spec fn bits_of_bytes(b: Seq<u8>) -> Seq<bool>
    decreases b.len(),
{
    if b.len() == 0 {
        Seq::empty()
    } else {
        uint_bits(b[0] as nat, 8) + bits_of_bytes(b.skip(1))
    }
}

/// `k` zero bits, to complete a partial byte.
pub open spec fn zero_pad(k: nat) -> Seq<bool> {
    Seq::new(k, |i: int| false)
}

/// The bytes of a bit sequence: groups of eight bits, most significant bit
/// first, the last group padded with zero bits.
pub open spec fn bytes_of_bits(s: Seq<bool>) -> Seq<u8>
    decreases s.len(),
{
    if s.len() == 0 {
        Seq::empty()
    } else if s.len() < 8 {
        seq![bits_value(s + zero_pad((8 - s.len()) as nat)) as u8]
    } else {
        seq![bits_value(s.take(8)) as u8] + bytes_of_bits(s.skip(8))
    }
}

/// One bit off the front of `s`, with the count of bits it took.
pub open spec fn parse_bool(s: Seq<bool>) -> Option<(bool, nat)> {
    if s.len() >= 1 { Some((s[0], 1nat)) } else { None }
}

/// An `n`-byte integer off the front of `s`, with the count of bits it took.
pub open spec fn parse_le(s: Seq<bool>, n: nat) -> Option<(nat, nat)> {
    if s.len() >= 8 * n { Some((le_value(s, n), 8 * n)) } else { None }
}

pub proof fn lemma_uint_bits_len(v: nat, w: nat)
    ensures
        uint_bits(v, w).len() == w,
    decreases w,
{
    if w > 0 {
        lemma_uint_bits_len(v / 2, (w - 1) as nat);
    }
}

pub proof fn lemma_le_bits_len(v: nat, n: nat)
    ensures
        le_bits(v, n).len() == 8 * n,
    decreases n,
{
    if n > 0 {
        lemma_uint_bits_len(v % 256, 8);
        lemma_le_bits_len(v / 256, (n - 1) as nat);
    }
}

pub proof fn lemma_bits_value_bound(s: Seq<bool>)
    ensures
        bits_value(s) < bit_bound(s.len()),
    decreases s.len(),
{
    if s.len() > 0 {
        lemma_bits_value_bound(s.drop_last());
    }
}

/// Reading back the bits of a value that fits in `w` bits gives the value.
pub proof fn lemma_uint_round_trip(v: nat, w: nat)
    requires
        v < bit_bound(w),
    ensures
        bits_value(uint_bits(v, w)) == v,
    decreases w,
{
    if w > 0 {
        let prev = uint_bits(v / 2, (w - 1) as nat);
        assert(uint_bits(v, w).drop_last() =~= prev);
        assert(v / 2 < bit_bound((w - 1) as nat));
        lemma_uint_round_trip(v / 2, (w - 1) as nat);
    }
}

pub proof fn lemma_le_value_bound(s: Seq<bool>, n: nat)
    requires
        s.len() >= 8 * n,
    ensures
        le_value(s, n) < byte_bound(n),
    decreases n,
{
    if n > 0 {
        lemma_bits_value_bound(s.take(8));
        assert(bit_bound(8) == 256) by {
            reveal_with_fuel(bit_bound, 9);
        }
        lemma_le_value_bound(s.skip(8), (n - 1) as nat);
        let a = bits_value(s.take(8));
        let b = le_value(s.skip(8), (n - 1) as nat);
        let c = byte_bound((n - 1) as nat);
        assert(a + 256 * b < 256 * c) by (nonlinear_arith)
            requires
                a < 256,
                b < c,
        ;
    }
}

/// Reading back the bytes of a value that fits in `n` bytes gives the value,
/// whatever follows them.
pub proof fn lemma_le_round_trip(v: nat, n: nat, rest: Seq<bool>)
    requires
        v < byte_bound(n),
    ensures
        le_value(le_bits(v, n) + rest, n) == v,
        le_bits(v, n).len() == 8 * n,
    decreases n,
{
    lemma_le_bits_len(v, n);
    if n > 0 {
        let head = uint_bits(v % 256, 8);
        let tail = le_bits(v / 256, (n - 1) as nat);
        lemma_uint_bits_len(v % 256, 8);
        let s = le_bits(v, n) + rest;
        assert(s.take(8) =~= head);
        assert(s.skip(8) =~= tail + rest);
        assert(bit_bound(8) == 256) by {
            reveal_with_fuel(bit_bound, 9);
        }
        lemma_uint_round_trip(v % 256, 8);
        let c = byte_bound((n - 1) as nat);
        assert(v / 256 < c) by (nonlinear_arith)
            requires
                v < 256 * c,
        ;
        lemma_le_round_trip(v / 256, (n - 1) as nat, rest);
    }
}

/// `parse_le` takes back what `le_bits` wrote, and stops right after it.
pub proof fn lemma_parse_le_round_trip(v: nat, n: nat, rest: Seq<bool>)
    requires
        v < byte_bound(n),
    ensures
        parse_le(le_bits(v, n) + rest, n) == Some((v, 8 * n)),
        (le_bits(v, n) + rest).skip(8 * n as int) == rest,
{
    lemma_le_round_trip(v, n, rest);
    assert((le_bits(v, n) + rest).skip(8 * n as int) =~= rest);
}

/// Writing back the value of a bit sequence gives the sequence.
pub proof fn lemma_uint_bits_of_value(t: Seq<bool>)
    ensures
        uint_bits(bits_value(t), t.len()) == t,
    decreases t.len(),
{
    if t.len() > 0 {
        let p = t.drop_last();
        lemma_uint_bits_of_value(p);
        let v = bits_value(t);
        let b: nat = if t.last() { 1 } else { 0 };
        assert(v == 2 * bits_value(p) + b);
        assert(v / 2 == bits_value(p));
        assert(v % 2 == b);
        assert(uint_bits(v, t.len()) =~= t);
    }
}

/// Writing back the value of the first `n` bytes of `s` gives those bits.
pub proof fn lemma_le_bits_of_value(s: Seq<bool>, n: nat)
    requires
        s.len() >= 8 * n,
    ensures
        le_bits(le_value(s, n), n) == s.take(8 * n as int),
    decreases n,
{
    if n == 0 {
        assert(s.take(0) =~= Seq::<bool>::empty());
    } else {
        let a = bits_value(s.take(8));
        let b = le_value(s.skip(8), (n - 1) as nat);
        lemma_bits_value_bound(s.take(8));
        assert(bit_bound(8) == 256) by {
            reveal_with_fuel(bit_bound, 9);
        }
        let v = a + 256 * b;
        assert(v % 256 == a && v / 256 == b) by (nonlinear_arith)
            requires
                v == a + 256 * b,
                a < 256,
        ;
        lemma_uint_bits_of_value(s.take(8));
        lemma_le_bits_of_value(s.skip(8), (n - 1) as nat);
        assert(s.take(8) + s.skip(8).take(8 * (n - 1)) =~= s.take(8 * n as int));
    }
}

/// What `parse_le` takes off the front of `s` is the encoding of what it
/// returns.
pub proof fn lemma_parse_le_inverts(s: Seq<bool>, n: nat)
    requires
        parse_le(s, n) is Some,
    ensures
        parse_le(s, n)->Some_0.1 == 8 * n,
        8 * n <= s.len(),
        s.take(8 * n as int) == le_bits(parse_le(s, n)->Some_0.0, n),
        parse_le(s, n)->Some_0.0 < byte_bound(n),
{
    lemma_le_bits_of_value(s, n);
    lemma_le_value_bound(s, n);
}

/// The zero bits that complete the last byte of `s`.
pub open spec fn pad_len(n: nat) -> nat {
    if n % 8 == 0 { 0 } else { (8 - n % 8) as nat }
}

/// Unpacking the bytes of a bit sequence gives the sequence back, followed
/// by the zero bits that completed its last byte.
pub proof fn lemma_bytes_round_trip(s: Seq<bool>)
    ensures
        bits_of_bytes(bytes_of_bits(s)) == s + zero_pad(pad_len(s.len())),
    decreases s.len(),
{
    assert(bit_bound(8) == 256) by {
        reveal_with_fuel(bit_bound, 9);
    }
    if s.len() == 0 {
        assert(s + zero_pad(0) =~= s);
    } else if s.len() < 8 {
        let t = s + zero_pad((8 - s.len()) as nat);
        lemma_bits_value_bound(t);
        lemma_uint_bits_of_value(t);
        let b = seq![bits_value(t) as u8];
        assert(b.skip(1) =~= Seq::<u8>::empty());
        assert(bits_of_bytes(Seq::<u8>::empty()) == Seq::<bool>::empty());
        assert(b[0] as nat == bits_value(t));
        assert(bytes_of_bits(s) == b);
        assert(bits_of_bytes(b) == uint_bits(bits_value(t), 8) + bits_of_bytes(b.skip(1)));
        assert(s.len() % 8 == s.len());
        assert(pad_len(s.len()) == 8 - s.len());
        assert(t.len() == 8);
        assert(uint_bits(bits_value(t), 8) + Seq::<bool>::empty() =~= t);
    } else {
        let h = s.take(8);
        lemma_bits_value_bound(h);
        lemma_uint_bits_of_value(h);
        lemma_bytes_round_trip(s.skip(8));
        let b = seq![bits_value(h) as u8] + bytes_of_bits(s.skip(8));
        assert(b[0] == bits_value(h) as u8);
        assert(b[0] as nat == bits_value(h));
        assert(bytes_of_bits(s) == b);
        assert(b.skip(1) =~= bytes_of_bits(s.skip(8)));
        assert(bits_of_bytes(b) == uint_bits(bits_value(h), 8) + bits_of_bytes(b.skip(1)));
        assert(h.len() == 8);
        assert((s.len() - 8) % 8 == s.len() % 8);
        assert(h + (s.skip(8) + zero_pad(pad_len(s.len()))) =~= s + zero_pad(pad_len(s.len())));
    }
}

pub proof fn lemma_byte_bounds()
    ensures
        byte_bound(4) == 0x1_0000_0000,
        byte_bound(8) == 0x1_0000_0000_0000_0000,
{
    reveal_with_fuel(byte_bound, 9);
}

/// Relies on endio_bit's `BEBitWriter` over a `Vec<u8>`: `write_bit` fills each
/// byte from its most significant bit down, and `into_inner` flushes a partial
/// last byte with zero bits below the ones written.
#[verifier::external_body]
fn pack_bits(bits: &Vec<bool>) -> (r: Vec<u8>)
    ensures
        r@ == bytes_of_bits(bits@),
{
    let mut writer = BEBitWriter::new(Vec::new());
    for bit in bits.iter() {
        let _ = writer.write_bit(*bit);
    }
    match writer.into_inner() {
        Ok(bytes) => bytes,
        Err(_) => Vec::new(),
    }
}

/// Relies on endio_bit's `BEBitReader` over a byte slice: `read_bit` hands out
/// each byte's bits from the most significant one down, until the bytes end.
#[verifier::external_body]
fn unpack_bits(bytes: &[u8]) -> (r: Vec<bool>)
    ensures
        r@ == bits_of_bytes(bytes@),
{
    let mut reader = BEBitReader::new(bytes);
    let mut bits = Vec::with_capacity(bytes.len() * 8);
    while let Ok(bit) = reader.read_bit() {
        bits.push(bit);
    }
    bits
}

/// Accumulates the bits of one frame.
pub struct BitWriter {
    bits: Vec<bool>,
}

impl View for BitWriter {
    type V = Seq<bool>;

    closed spec fn view(&self) -> Seq<bool> {
        self.bits@
    }
}

impl BitWriter {
    pub fn new() -> (r: BitWriter)
        ensures
            r@ == Seq::<bool>::empty(),
    {
        BitWriter { bits: Vec::new() }
    }

    /// The number of bits written so far.
    pub fn len(&self) -> (r: usize)
        ensures
            r == self@.len(),
    {
        self.bits.len()
    }

    pub fn write_bit(&mut self, bit: bool)
        ensures
            final(self)@ == old(self)@.push(bit),
    {
        self.bits.push(bit);
    }

    /// Writes the `w` low bits of `v`, most significant bit first.
    pub fn write_uint(&mut self, v: u64, w: u64)
        ensures
            final(self)@ == old(self)@ + uint_bits(v as nat, w as nat),
        decreases w,
    {
        if w > 0 {
            self.write_uint(v / 2, w - 1);
            self.write_bit(v % 2 == 1);
            assert(final(self)@ =~= old(self)@ + uint_bits(v as nat, w as nat));
        } else {
            assert(final(self)@ =~= old(self)@ + uint_bits(v as nat, w as nat));
        }
    }

    /// Writes the `n` low bytes of `v`, least significant byte first.
    pub fn write_le(&mut self, v: u64, n: u64)
        ensures
            final(self)@ == old(self)@ + le_bits(v as nat, n as nat),
        decreases n,
    {
        if n > 0 {
            self.write_uint(v % 256, 8);
            self.write_le(v / 256, n - 1);
            assert(final(self)@ =~= old(self)@ + le_bits(v as nat, n as nat));
        } else {
            assert(final(self)@ =~= old(self)@ + le_bits(v as nat, n as nat));
        }
    }

    pub fn write_u32(&mut self, v: u32)
        ensures
            final(self)@ == old(self)@ + le_bits(v as nat, 4),
    {
        self.write_le(v as u64, 4);
    }

    pub fn write_u64(&mut self, v: u64)
        ensures
            final(self)@ == old(self)@ + le_bits(v as nat, 8),
    {
        self.write_le(v, 8);
    }

    /// The bits written so far.
    pub fn to_bits(&self) -> (r: Vec<bool>)
        ensures
            r@ == self@,
    {
        self.bits.clone()
    }

    /// The frame's bytes, the last one padded with zero bits.
    pub fn into_bytes(self) -> (r: Vec<u8>)
        ensures
            r@ == bytes_of_bits(self@),
    {
        pack_bits(&self.bits)
    }
}

/// Reads the bits of one frame from a cursor that only moves forward.
pub struct BitReader {
    bits: Vec<bool>,
    pos: usize,
}

impl View for BitReader {
    /// The frame's bits and the cursor's position.
    type V = (Seq<bool>, nat);

    closed spec fn view(&self) -> (Seq<bool>, nat) {
        (self.bits@, self.pos as nat)
    }
}

impl BitReader {
    pub open spec fn wf(&self) -> bool {
        self@.1 <= self@.0.len()
    }

    /// The bits that are left to read.
    pub open spec fn rest(&self) -> Seq<bool> {
        self@.0.skip(self@.1 as int)
    }

    pub fn from_bits(bits: Vec<bool>) -> (r: BitReader)
        ensures
            r.wf(),
            r@ == (bits@, 0nat),
    {
        BitReader { bits, pos: 0 }
    }

    pub fn from_bytes(bytes: &[u8]) -> (r: BitReader)
        ensures
            r.wf(),
            r@ == (bits_of_bytes(bytes@), 0nat),
    {
        BitReader { bits: unpack_bits(bytes), pos: 0 }
    }

    /// The number of bits read so far.
    pub fn position(&self) -> (r: usize)
        ensures
            r == self@.1,
    {
        self.pos
    }

    pub fn read_bit(&mut self) -> (r: Result<bool, ReplicaError>)
        requires
            old(self).wf(),
        ensures
            final(self).wf(),
            final(self)@.0 == old(self)@.0,
            match parse_bool(old(self).rest()) {
                Some((b, k)) => r == Ok::<bool, ReplicaError>(b) && final(self)@.1 == old(self)@.1 + k,
                None => r == Err::<bool, ReplicaError>(ReplicaError::TruncatedStream),
            },
    {
        if self.pos < self.bits.len() {
            let b = self.bits[self.pos];
            self.pos = self.pos + 1;
            Ok(b)
        } else {
            Err(ReplicaError::TruncatedStream)
        }
    }

    /// The byte whose bits start at `at`.
    fn byte_at(&self, at: usize) -> (r: u64)
        requires
            at + 8 <= self@.0.len(),
        ensures
            r == bits_value(self@.0.subrange(at as int, at + 8)),
    {
        let len = self.bits.len();
        let mut v: u64 = 0;
        let mut i: usize = 0;
        while i < 8
            invariant
                i <= 8,
                at + 8 <= self@.0.len(),
                len == self@.0.len(),
                v == bits_value(self@.0.subrange(at as int, at + i)),
            decreases 8 - i,
        {
            proof {
                lemma_bits_value_bound(self@.0.subrange(at as int, at + i));
                reveal_with_fuel(bit_bound, 9);
                assert(bit_bound(i as nat) <= 256) by {
                    reveal_with_fuel(bit_bound, 9);
                }
            }
            let b = self.bits[at + i];
            v = 2 * v + if b { 1u64 } else { 0u64 };
            assert(self@.0.subrange(at as int, at + i + 1).drop_last()
                =~= self@.0.subrange(at as int, at + i));
            i = i + 1;
        }
        v
    }

    /// The `n`-byte integer whose bits start at `at`.
    fn le_at(&self, at: usize, n: u64) -> (r: u64)
        requires
            n <= 8,
            at + 8 * n <= self@.0.len(),
        ensures
            r == le_value(self@.0.skip(at as int), n as nat),
        decreases n,
    {
        if n == 0 {
            0
        } else {
            let len = self.bits.len();
            let b = self.byte_at(at);
            let hi = self.le_at(at + 8, n - 1);
            let ghost s = self@.0.skip(at as int);
            assert(s.take(8) =~= self@.0.subrange(at as int, at + 8));
            assert(s.skip(8) =~= self@.0.skip(at + 8));
            proof {
                lemma_bits_value_bound(s.take(8));
                lemma_le_value_bound(s.skip(8), (n - 1) as nat);
                lemma_byte_bounds();
                reveal_with_fuel(bit_bound, 9);
                reveal_with_fuel(byte_bound, 9);
                let c = byte_bound((n - 1) as nat);
                assert(c <= 0x100_0000_0000_0000);
                assert(b + 256 * hi < 256 * c) by (nonlinear_arith)
                    requires
                        b < 256,
                        hi < c,
                ;
            }
            b + 256 * hi
        }
    }

    /// Reads an `n`-byte integer, least significant byte first.
    pub fn read_le(&mut self, n: u64) -> (r: Result<u64, ReplicaError>)
        requires
            old(self).wf(),
            n <= 8,
        ensures
            final(self).wf(),
            final(self)@.0 == old(self)@.0,
            match parse_le(old(self).rest(), n as nat) {
                Some((v, k)) => r == Ok::<u64, ReplicaError>(v as u64) && final(self)@.1 == old(self)@.1 + k,
                None => r == Err::<u64, ReplicaError>(ReplicaError::TruncatedStream),
            },
    {
        if self.bits.len() - self.pos >= 8 * (n as usize) {
            let v = self.le_at(self.pos, n);
            self.pos = self.pos + 8 * (n as usize);
            Ok(v)
        } else {
            Err(ReplicaError::TruncatedStream)
        }
    }

    pub fn read_u32(&mut self) -> (r: Result<u32, ReplicaError>)
        requires
            old(self).wf(),
        ensures
            final(self).wf(),
            final(self)@.0 == old(self)@.0,
            match parse_le(old(self).rest(), 4) {
                Some((v, k)) => r == Ok::<u32, ReplicaError>(v as u32) && final(self)@.1 == old(self)@.1 + k,
                None => r == Err::<u32, ReplicaError>(ReplicaError::TruncatedStream),
            },
    {
        let v = self.read_le(4)?;
        proof {
            lemma_le_value_bound(old(self).rest(), 4);
            lemma_byte_bounds();
        }
        Ok(v as u32)
    }

    pub fn read_u64(&mut self) -> (r: Result<u64, ReplicaError>)
        requires
            old(self).wf(),
        ensures
            final(self).wf(),
            final(self)@.0 == old(self)@.0,
            match parse_le(old(self).rest(), 8) {
                Some((v, k)) => r == Ok::<u64, ReplicaError>(v as u64) && final(self)@.1 == old(self)@.1 + k,
                None => r == Err::<u64, ReplicaError>(ReplicaError::TruncatedStream),
            },
    {
        self.read_le(8)
    }
}

} // verus!
