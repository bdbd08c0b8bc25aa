use vstd::prelude::*;

verus! {

/// The `n` low bytes of `v`, least significant first.
pub open spec fn le_bytes(v: nat, n: nat) -> Seq<u8>
    decreases n,
{
    if n == 0 {
        Seq::empty()
    } else {
        seq![(v % 256) as u8] + le_bytes(v / 256, (n - 1) as nat)
    }
}

pub open spec fn zero_bytes(n: nat) -> Seq<u8> {
    Seq::new(n, |i: int| 0u8)
}

/// Each 16-bit unit as two bytes, least significant first.
pub open spec fn units_bytes(us: Seq<u16>) -> Seq<u8>
    decreases us.len(),
{
    if us.len() == 0 {
        Seq::empty()
    } else {
        units_bytes(us.drop_last()) + le_bytes(us.last() as nat, 2)
    }
}

/// A fixed-width string of 33 bytes; text shorter than that is followed by
/// zero bytes.
#[derive(Debug, Clone, PartialEq)]
pub struct LuStr33 {
    bytes: Vec<u8>,
}

/// A fixed-width string of 33 UTF-16 units; text shorter than that is
/// followed by zero units.
#[derive(Debug, Clone, PartialEq)]
pub struct LuWStr33 {
    units: Vec<u16>,
}

impl View for LuStr33 {
    type V = Seq<u8>;

    closed spec fn view(&self) -> Seq<u8> {
        self.bytes@
    }
}

impl View for LuWStr33 {
    type V = Seq<u16>;

    closed spec fn view(&self) -> Seq<u16> {
        self.units@
    }
}

/// The UTF-16 code units of a string, in order.
pub open spec fn utf16_of(s: Seq<char>) -> Seq<u16>
    decreases s.len(),
{
    if s.len() == 0 {
        Seq::empty()
    } else {
        let prev = utf16_of(s.drop_last());
        let c = s.last() as u32;
        if c < 0x10000 {
            prev.push(c as u16)
        } else {
            let v = (c - 0x10000) as u32;
            prev.push((0xD800 + v / 0x400) as u16).push((0xDC00 + v % 0x400) as u16)
        }
    }
}

/// Relies on `str::encode_utf16`: the string's UTF-16 code units, in order.
#[verifier::external_body]
fn encode_utf16(s: &str) -> (r: Vec<u16>)
    ensures
        r@ == utf16_of(s@),
{
    s.encode_utf16().collect()
}

pub fn push_zeros(out: &mut Vec<u8>, n: usize)
    ensures
        final(out)@ == old(out)@ + zero_bytes(n as nat),
{
    let mut i: usize = 0;
    while i < n
        invariant
            i <= n,
            out@ == old(out)@ + zero_bytes(i as nat),
        decreases n - i,
    {
        out.push(0u8);
        assert(old(out)@ + zero_bytes((i + 1) as nat) =~= (old(out)@ + zero_bytes(i as nat)).push(0u8));
        i = i + 1;
    }
}

pub fn push_u16(out: &mut Vec<u8>, v: u16)
    ensures
        final(out)@ == old(out)@ + le_bytes(v as nat, 2),
{
    out.push((v % 256) as u8);
    out.push((v / 256) as u8);
    proof {
        reveal_with_fuel(le_bytes, 3);
        assert((v as nat / 256) % 256 == v as nat / 256);
    }
    assert(final(out)@ =~= old(out)@ + le_bytes(v as nat, 2));
}

pub fn push_u32(out: &mut Vec<u8>, v: u32)
    ensures
        final(out)@ == old(out)@ + le_bytes(v as nat, 4),
{
    out.push((v % 256) as u8);
    out.push(((v / 256) % 256) as u8);
    out.push(((v / 65536) % 256) as u8);
    out.push((v / 16777216) as u8);
    assert((v as nat / 256) / 256 == v as nat / 65536) by (nonlinear_arith);
    assert((v as nat / 65536) / 256 == v as nat / 16777216) by (nonlinear_arith);
    proof {
        reveal_with_fuel(le_bytes, 5);
        assert((v as nat / 16777216) % 256 == v as nat / 16777216);
        assert(((v as nat / 256) / 256) / 256 == v as nat / 16777216) by (nonlinear_arith);
    }
    assert(final(out)@ =~= old(out)@ + le_bytes(v as nat, 4));
}

pub fn push_units(out: &mut Vec<u8>, us: &Vec<u16>)
    ensures
        final(out)@ == old(out)@ + units_bytes(us@),
{
    let mut i: usize = 0;
    assert(us@.take(0) =~= Seq::<u16>::empty());
    assert(out@ =~= old(out)@ + units_bytes(us@.take(0)));
    while i < us.len()
        invariant
            i <= us@.len(),
            out@ == old(out)@ + units_bytes(us@.take(i as int)),
        decreases us@.len() - i,
    {
        push_u16(out, us[i]);
        assert(us@.take(i + 1).drop_last() =~= us@.take(i as int));
        assert(out@ =~= old(out)@ + units_bytes(us@.take(i + 1)));
        i = i + 1;
    }
    assert(us@.take(i as int) =~= us@);
}

impl LuStr33 {
    pub open spec fn wf(&self) -> bool {
        self@.len() == 33
    }

    /// The text `b` padded with zero bytes to 33; `None` when it is longer.
    pub fn new(b: &[u8]) -> (r: Option<LuStr33>)
        ensures
            b@.len() <= 33 <==> r is Some,
            r is Some ==> r->Some_0.wf() && r->Some_0@ == b@ + zero_bytes((33 - b@.len()) as nat),
    {
        if b.len() > 33 {
            return None;
        }
        let mut bytes: Vec<u8> = Vec::new();
        let mut i: usize = 0;
        while i < b.len()
            invariant
                i <= b@.len(),
                bytes@ == b@.take(i as int),
            decreases b@.len() - i,
        {
            bytes.push(b[i]);
            assert(b@.take(i + 1) =~= b@.take(i as int).push(b@[i as int]));
            i = i + 1;
        }
        assert(b@.take(i as int) =~= b@);
        push_zeros(&mut bytes, 33 - b.len());
        Some(LuStr33 { bytes })
    }

    /// The 33 bytes as they are sent.
    pub fn write(&self, out: &mut Vec<u8>)
        ensures
            final(out)@ == old(out)@ + self@,
    {
        let mut i: usize = 0;
        while i < self.bytes.len()
            invariant
                i <= self@.len(),
                out@ == old(out)@ + self@.take(i as int),
            decreases self@.len() - i,
        {
            out.push(self.bytes[i]);
            assert(self@.take(i + 1) =~= self@.take(i as int).push(self@[i as int]));
            assert(out@ =~= old(out)@ + self@.take(i + 1));
            i = i + 1;
        }
        assert(self@.take(i as int) =~= self@);
    }
}

impl LuWStr33 {
    pub open spec fn wf(&self) -> bool {
        self@.len() == 33
    }

    /// The units `u` padded with zero units to 33; `None` when there are more.
    pub fn from_units(u: &Vec<u16>) -> (r: Option<LuWStr33>)
        ensures
            u@.len() <= 33 <==> r is Some,
            r is Some ==> r->Some_0.wf() && r->Some_0@ == u@ + Seq::new((33 - u@.len()) as nat, |i: int| 0u16),
    {
        if u.len() > 33 {
            return None;
        }
        let mut units: Vec<u16> = Vec::new();
        let mut i: usize = 0;
        while i < u.len()
            invariant
                i <= u@.len(),
                units@ == u@.take(i as int),
            decreases u@.len() - i,
        {
            units.push(u[i]);
            assert(u@.take(i + 1) =~= u@.take(i as int).push(u@[i as int]));
            i = i + 1;
        }
        assert(u@.take(i as int) =~= u@);
        while units.len() < 33
            invariant
                u@.len() <= units@.len() <= 33,
                units@ == u@ + Seq::new((units@.len() - u@.len()) as nat, |i: int| 0u16),
            decreases 33 - units@.len(),
        {
            units.push(0u16);
            assert(units@ =~= u@ + Seq::new((units@.len() - u@.len()) as nat, |i: int| 0u16));
        }
        Some(LuWStr33 { units })
    }

    /// The UTF-16 units of `s` padded to 33; `None` when there are more.
    pub fn from_str(s: &str) -> (r: Option<LuWStr33>)
        ensures
            utf16_of(s@).len() <= 33 <==> r is Some,
            r is Some ==> r->Some_0@ == utf16_of(s@) + Seq::new((33 - utf16_of(s@).len()) as nat, |i: int| 0u16),
    {
        LuWStr33::from_units(&encode_utf16(s))
    }

    /// The 33 units as they are sent, two bytes each.
    pub fn write(&self, out: &mut Vec<u8>)
        ensures
            final(out)@ == old(out)@ + units_bytes(self@),
    {
        push_units(out, &self.units);
    }
}

/// The UTF-16 units of a string, as a message sends them.
pub fn utf16_units(s: &str) -> (r: Vec<u16>)
    ensures
        r@ == utf16_of(s@),
{
    encode_utf16(s)
}

} // verus!
