use vstd::prelude::*;

use crate::bits::{
    le_bits, lemma_byte_bounds, lemma_parse_le_inverts, lemma_parse_le_round_trip, parse_bool,
    parse_le, BitReader, BitWriter,
};
use crate::error::ReplicaError;

verus! {

/// The shape of one field of a fixed record layout.
#[derive(Debug, Clone, Copy, PartialEq, Eq, Structural)]
pub enum FieldKind {
    Bit,
    U32,
    U64,
    OptU32,
}

/// One field of a record, as it stands on the wire.
#[derive(Debug, Clone, Copy, PartialEq, Eq, Structural)]
pub enum Field {
    Bit(bool),
    U32(u32),
    U64(u64),
    OptU32(Option<u32>),
}

pub open spec fn kind_of(f: Field) -> FieldKind {
    match f {
        Field::Bit(_) => FieldKind::Bit,
        Field::U32(_) => FieldKind::U32,
        Field::U64(_) => FieldKind::U64,
        Field::OptU32(_) => FieldKind::OptU32,
    }
}

/// The fields `fs` follow `layout` one for one.
pub open spec fn fits(fs: Seq<Field>, layout: Seq<FieldKind>) -> bool {
    &&& fs.len() == layout.len()
    &&& forall|i: int| 0 <= i < fs.len() ==> kind_of(#[trigger] fs[i]) == layout[i]
}

/// An optional value: a presence bit, then the value's bits when present.
pub open spec fn enc_opt<T>(e: spec_fn(T) -> Seq<bool>, o: Option<T>) -> Seq<bool> {
    match o {
        None => seq![false],
        Some(x) => seq![true] + e(x),
    }
}

pub open spec fn parse_opt<T>(p: spec_fn(Seq<bool>) -> Option<(T, nat)>, s: Seq<bool>) -> Option<(Option<T>, nat)> {
    match parse_bool(s) {
        None => None,
        Some((present, k)) => if !present {
            Some((None, k))
        } else {
            match p(s.skip(k as int)) {
                None => None,
                Some((x, n)) => Some((Some(x), k + n)),
            }
        },
    }
}

pub open spec fn enc_field(f: Field) -> Seq<bool> {
    match f {
        Field::Bit(b) => seq![b],
        Field::U32(v) => le_bits(v as nat, 4),
        Field::U64(v) => le_bits(v as nat, 8),
        Field::OptU32(o) => enc_opt(|v: u32| le_bits(v as nat, 4), o),
    }
}

pub open spec fn parse_u32(s: Seq<bool>) -> Option<(u32, nat)> {
    match parse_le(s, 4) {
        None => None,
        Some((v, n)) => Some((v as u32, n)),
    }
}

pub open spec fn parse_field(k: FieldKind, s: Seq<bool>) -> Option<(Field, nat)> {
    match k {
        FieldKind::Bit => match parse_bool(s) {
            None => None,
            Some((b, n)) => Some((Field::Bit(b), n)),
        },
        FieldKind::U32 => match parse_u32(s) {
            None => None,
            Some((v, n)) => Some((Field::U32(v), n)),
        },
        FieldKind::U64 => match parse_le(s, 8) {
            None => None,
            Some((v, n)) => Some((Field::U64(v as u64), n)),
        },
        FieldKind::OptU32 => match parse_opt(|t: Seq<bool>| parse_u32(t), s) {
            None => None,
            Some((o, n)) => Some((Field::OptU32(o), n)),
        },
    }
}

/// The bits of a sequence of items, one after another.
pub open spec fn enc_many<T>(e: spec_fn(T) -> Seq<bool>, xs: Seq<T>) -> Seq<bool>
    decreases xs.len(),
{
    if xs.len() == 0 {
        Seq::empty()
    } else {
        e(xs[0]) + enc_many(e, xs.skip(1))
    }
}

/// `k` items off the front of `s`, with the count of bits they took.
pub open spec fn parse_many<T>(p: spec_fn(Seq<bool>) -> Option<(T, nat)>, s: Seq<bool>, k: nat) -> Option<(Seq<T>, nat)>
    decreases k,
{
    if k == 0 {
        Some((Seq::empty(), 0nat))
    } else {
        match p(s) {
            None => None,
            Some((x, n)) => match parse_many(p, s.skip(n as int), (k - 1) as nat) {
                None => None,
                Some((xs, m)) => Some((seq![x] + xs, n + m)),
            },
        }
    }
}

pub open spec fn enc_fields(fs: Seq<Field>) -> Seq<bool> {
    enc_many(|f: Field| enc_field(f), fs)
}

/// The fields of `layout`, in order, off the front of `s`.
pub open spec fn parse_fields(layout: Seq<FieldKind>, s: Seq<bool>) -> Option<(Seq<Field>, nat)>
    decreases layout.len(),
{
    if layout.len() == 0 {
        Some((Seq::empty(), 0nat))
    } else {
        match parse_field(layout[0], s) {
            None => None,
            Some((f, n)) => match parse_fields(layout.skip(1), s.skip(n as int)) {
                None => None,
                Some((fs, m)) => Some((seq![f] + fs, n + m)),
            },
        }
    }
}

/// `p` reads back whatever `e` writes of a value that `ok` admits, and stops
/// right after it.
pub open spec fn round_trips<T>(e: spec_fn(T) -> Seq<bool>, p: spec_fn(Seq<bool>) -> Option<(T, nat)>, ok: spec_fn(T) -> bool) -> bool {
    forall|x: T, rest: Seq<bool>| ok(x) ==> #[trigger] p(e(x) + rest) == Some((x, e(x).len()))
}

/// Whatever `p` takes off the front of a sequence is what `e` writes of the
/// value it returns: a parse consumes exactly the bits of its result.
pub open spec fn inverts<T>(e: spec_fn(T) -> Seq<bool>, p: spec_fn(Seq<bool>) -> Option<(T, nat)>) -> bool {
    forall|s: Seq<bool>| #[trigger] p(s) is Some ==> {
        &&& p(s)->Some_0.1 <= s.len()
        &&& s.take(p(s)->Some_0.1 as int) == e(p(s)->Some_0.0)
    }
}

pub proof fn lemma_take_concat(s: Seq<bool>, a: Seq<bool>, b: Seq<bool>, n: nat, m: nat)
    requires
        n <= s.len(),
        m <= s.len() - n,
        s.take(n as int) == a,
        s.skip(n as int).take(m as int) == b,
    ensures
        s.take((n + m) as int) == a + b,
{
    assert(s.take((n + m) as int) =~= a + b);
}

pub proof fn lemma_opt_inverts<T>(e: spec_fn(T) -> Seq<bool>, p: spec_fn(Seq<bool>) -> Option<(T, nat)>, s: Seq<bool>)
    requires
        inverts(e, p),
        parse_opt(p, s) is Some,
    ensures
        parse_opt(p, s)->Some_0.1 <= s.len(),
        s.take(parse_opt(p, s)->Some_0.1 as int) == enc_opt(e, parse_opt(p, s)->Some_0.0),
{
    if s[0] {
        let t = s.skip(1);
        assert(p(t) is Some);
        let (x, n) = p(t)->Some_0;
        assert(s.take(1) =~= seq![true]);
        lemma_take_concat(s, seq![true], e(x), 1, n);
    } else {
        assert(s.take(1) =~= seq![false]);
    }
}

pub proof fn lemma_u32_inverts(s: Seq<bool>)
    requires
        parse_u32(s) is Some,
    ensures
        parse_u32(s)->Some_0.1 == 32,
        32 <= s.len(),
        s.take(32) == le_bits(parse_u32(s)->Some_0.0 as nat, 4),
{
    lemma_parse_le_inverts(s, 4);
    lemma_byte_bounds();
}

pub proof fn lemma_field_inverts(k: FieldKind, s: Seq<bool>)
    requires
        parse_field(k, s) is Some,
    ensures
        kind_of(parse_field(k, s)->Some_0.0) == k,
        parse_field(k, s)->Some_0.1 <= s.len(),
        s.take(parse_field(k, s)->Some_0.1 as int) == enc_field(parse_field(k, s)->Some_0.0),
{
    lemma_byte_bounds();
    match k {
        FieldKind::Bit => {
            assert(s.take(1) =~= seq![s[0]]);
        },
        FieldKind::U32 => lemma_u32_inverts(s),
        FieldKind::U64 => lemma_parse_le_inverts(s, 8),
        FieldKind::OptU32 => {
            let e = |v: u32| le_bits(v as nat, 4);
            let p = |t: Seq<bool>| parse_u32(t);
            assert forall|t: Seq<bool>| #[trigger] p(t) is Some implies {
                &&& p(t)->Some_0.1 <= t.len()
                &&& t.take(p(t)->Some_0.1 as int) == e(p(t)->Some_0.0)
            } by {
                lemma_u32_inverts(t);
            }
            lemma_opt_inverts(e, p, s);
        },
    }
}

/// What `parse_fields` takes off the front of `s` is the encoding of the
/// fields it returns, and they follow the layout.
pub proof fn lemma_fields_inverts(layout: Seq<FieldKind>, s: Seq<bool>)
    requires
        parse_fields(layout, s) is Some,
    ensures
        fits(parse_fields(layout, s)->Some_0.0, layout),
        parse_fields(layout, s)->Some_0.1 <= s.len(),
        s.take(parse_fields(layout, s)->Some_0.1 as int) == enc_fields(parse_fields(layout, s)->Some_0.0),
    decreases layout.len(),
{
    if layout.len() == 0 {
        assert(s.take(0) =~= Seq::<bool>::empty());
    } else {
        let (f, n) = parse_field(layout[0], s)->Some_0;
        lemma_field_inverts(layout[0], s);
        let t = s.skip(n as int);
        lemma_fields_inverts(layout.skip(1), t);
        let (fs, m) = parse_fields(layout.skip(1), t)->Some_0;
        lemma_take_concat(s, enc_field(f), enc_fields(fs), n, m);
        let all = seq![f] + fs;
        assert(all[0] == f);
        assert(all.skip(1) =~= fs);
        assert(forall|i: int| 0 < i < all.len() ==> all[i] == fs[i - 1]);
        assert(forall|i: int| 0 < i < layout.len() ==> layout[i] == layout.skip(1)[i - 1]);
    }
}

/// What `parse_many` takes off the front of `s` is the encoding of the items
/// it returns, `k` of them.
pub proof fn lemma_many_inverts<T>(e: spec_fn(T) -> Seq<bool>, p: spec_fn(Seq<bool>) -> Option<(T, nat)>, s: Seq<bool>, k: nat)
    requires
        inverts(e, p),
        parse_many(p, s, k) is Some,
    ensures
        parse_many(p, s, k)->Some_0.0.len() == k,
        parse_many(p, s, k)->Some_0.1 <= s.len(),
        s.take(parse_many(p, s, k)->Some_0.1 as int) == enc_many(e, parse_many(p, s, k)->Some_0.0),
    decreases k,
{
    if k == 0 {
        assert(s.take(0) =~= Seq::<bool>::empty());
    } else {
        assert(p(s) is Some);
        let (x, n) = p(s)->Some_0;
        let t = s.skip(n as int);
        lemma_many_inverts(e, p, t, (k - 1) as nat);
        let (xs, m) = parse_many(p, t, (k - 1) as nat)->Some_0;
        lemma_take_concat(s, e(x), enc_many(e, xs), n, m);
        let all = seq![x] + xs;
        assert(all[0] == x);
        assert(all.skip(1) =~= xs);
    }
}

pub proof fn lemma_skip_prefix(a: Seq<bool>, b: Seq<bool>)
    ensures
        (a + b).skip(a.len() as int) == b,
{
    assert((a + b).skip(a.len() as int) =~= b);
}

pub proof fn lemma_opt_round_trip<T>(e: spec_fn(T) -> Seq<bool>, p: spec_fn(Seq<bool>) -> Option<(T, nat)>, ok: spec_fn(T) -> bool, o: Option<T>, rest: Seq<bool>)
    requires
        round_trips(e, p, ok),
        o is Some ==> ok(o->Some_0),
    ensures
        parse_opt(p, enc_opt(e, o) + rest) == Some((o, enc_opt(e, o).len())),
{
    let s = enc_opt(e, o) + rest;
    match o {
        None => {},
        Some(x) => {
            assert(s.skip(1) =~= e(x) + rest);
            assert(p(e(x) + rest) == Some((x, e(x).len())));
        },
    }
}

pub proof fn lemma_many_round_trip<T>(e: spec_fn(T) -> Seq<bool>, p: spec_fn(Seq<bool>) -> Option<(T, nat)>, ok: spec_fn(T) -> bool, xs: Seq<T>, rest: Seq<bool>)
    requires
        round_trips(e, p, ok),
        forall|i: int| 0 <= i < xs.len() ==> ok(#[trigger] xs[i]),
    ensures
        parse_many(p, enc_many(e, xs) + rest, xs.len()) == Some((xs, enc_many(e, xs).len())),
    decreases xs.len(),
{
    if xs.len() > 0 {
        let tail = enc_many(e, xs.skip(1)) + rest;
        let s = enc_many(e, xs) + rest;
        assert(s =~= e(xs[0]) + tail);
        assert(p(e(xs[0]) + tail) == Some((xs[0], e(xs[0]).len())));
        lemma_skip_prefix(e(xs[0]), tail);
        assert(ok(xs[0]));
        lemma_many_round_trip(e, p, ok, xs.skip(1), rest);
        assert(seq![xs[0]] + xs.skip(1) =~= xs);
    }
}

pub proof fn lemma_u32_round_trip(v: u32, rest: Seq<bool>)
    ensures
        parse_u32(le_bits(v as nat, 4) + rest) == Some((v, 32nat)),
        le_bits(v as nat, 4).len() == 32,
{
    lemma_byte_bounds();
    lemma_parse_le_round_trip(v as nat, 4, rest);
}

pub proof fn lemma_field_round_trip(f: Field, rest: Seq<bool>)
    ensures
        parse_field(kind_of(f), enc_field(f) + rest) == Some((f, enc_field(f).len())),
{
    lemma_byte_bounds();
    match f {
        Field::Bit(b) => {},
        Field::U32(v) => lemma_u32_round_trip(v, rest),
        Field::U64(v) => lemma_parse_le_round_trip(v as nat, 8, rest),
        Field::OptU32(o) => {
            let e = |v: u32| le_bits(v as nat, 4);
            let p = |t: Seq<bool>| parse_u32(t);
            let ok = |x: u32| true;
            assert forall|x: u32, r: Seq<bool>| ok(x) implies #[trigger] p(e(x) + r) == Some((x, e(x).len())) by {
                lemma_u32_round_trip(x, r);
            }
            lemma_opt_round_trip(e, p, ok, o, rest);
        },
    }
}

/// Reading the fields of a layout back from their bits gives the fields.
pub proof fn lemma_fields_round_trip(fs: Seq<Field>, layout: Seq<FieldKind>, rest: Seq<bool>)
    requires
        fits(fs, layout),
    ensures
        parse_fields(layout, enc_fields(fs) + rest) == Some((fs, enc_fields(fs).len())),
    decreases fs.len(),
{
    if fs.len() > 0 {
        let e = |f: Field| enc_field(f);
        let tail = enc_fields(fs.skip(1)) + rest;
        let s = enc_fields(fs) + rest;
        assert(s =~= enc_field(fs[0]) + tail);
        lemma_field_round_trip(fs[0], tail);
        lemma_skip_prefix(enc_field(fs[0]), tail);
        assert(fits(fs.skip(1), layout.skip(1)));
        lemma_fields_round_trip(fs.skip(1), layout.skip(1), rest);
        assert(seq![fs[0]] + fs.skip(1) =~= fs);
    }
}

pub proof fn lemma_enc_many_push<T>(e: spec_fn(T) -> Seq<bool>, xs: Seq<T>, x: T)
    ensures
        enc_many(e, xs.push(x)) == enc_many(e, xs) + e(x),
    decreases xs.len(),
{
    if xs.len() == 0 {
        assert(xs.push(x).skip(1) =~= Seq::<T>::empty());
        assert(xs.push(x)[0] == x);
        assert(enc_many(e, Seq::<T>::empty()) == Seq::<bool>::empty());
        assert(enc_many(e, xs) == Seq::<bool>::empty());
        assert(enc_many(e, xs.push(x)) =~= enc_many(e, xs) + e(x));
    } else {
        assert(xs.push(x).skip(1) =~= xs.skip(1).push(x));
        assert(xs.push(x)[0] == xs[0]);
        lemma_enc_many_push(e, xs.skip(1), x);
        assert(enc_many(e, xs.push(x)) =~= enc_many(e, xs) + e(x));
    }
}

pub fn write_field(w: &mut BitWriter, f: Field)
    ensures
        final(w)@ == old(w)@ + enc_field(f),
{
    match f {
        Field::Bit(b) => {
            w.write_bit(b);
        },
        Field::U32(v) => w.write_u32(v),
        Field::U64(v) => w.write_u64(v),
        Field::OptU32(o) => match o {
            None => {
                w.write_bit(false);
            },
            Some(v) => {
                w.write_bit(true);
                w.write_u32(v);
                assert(final(w)@ =~= old(w)@ + enc_field(f));
            },
        },
    }
}

pub fn write_fields(w: &mut BitWriter, fs: &Vec<Field>)
    ensures
        final(w)@ == old(w)@ + enc_fields(fs@),
{
    let mut i: usize = 0;
    assert(fs@.take(0) =~= Seq::<Field>::empty());
    assert(w@ =~= old(w)@ + enc_fields(fs@.take(0)));
    while i < fs.len()
        invariant
            i <= fs@.len(),
            w@ == old(w)@ + enc_fields(fs@.take(i as int)),
        decreases fs@.len() - i,
    {
        write_field(w, fs[i]);
        proof {
            assert(fs@.take(i + 1) =~= fs@.take(i as int).push(fs@[i as int]));
            lemma_enc_many_push(|f: Field| enc_field(f), fs@.take(i as int), fs@[i as int]);
        }
        assert(w@ =~= old(w)@ + enc_fields(fs@.take(i + 1)));
        i = i + 1;
    }
    assert(fs@.take(i as int) =~= fs@);
}

pub fn read_u32(r: &mut BitReader) -> (res: Result<u32, ReplicaError>)
    requires
        old(r).wf(),
    ensures
        final(r).wf(),
        final(r)@.0 == old(r)@.0,
        match parse_u32(old(r).rest()) {
            Some((v, n)) => res == Ok::<u32, ReplicaError>(v) && final(r)@.1 == old(r)@.1 + n,
            None => res == Err::<u32, ReplicaError>(ReplicaError::TruncatedStream),
        },
{
    r.read_u32()
}

pub proof fn lemma_rest_advance(r0: BitReader, r1: BitReader, n: nat)
    requires
        r0.wf(),
        r1.wf(),
        r1@.0 == r0@.0,
        r1@.1 == r0@.1 + n,
    ensures
        r1.rest() == r0.rest().skip(n as int),
{
    assert(r1.rest() =~= r0.rest().skip(n as int));
}

pub fn read_field(r: &mut BitReader, k: FieldKind) -> (res: Result<Field, ReplicaError>)
    requires
        old(r).wf(),
    ensures
        final(r).wf(),
        final(r)@.0 == old(r)@.0,
        match parse_field(k, old(r).rest()) {
            Some((f, n)) => res == Ok::<Field, ReplicaError>(f) && final(r)@.1 == old(r)@.1 + n,
            None => res == Err::<Field, ReplicaError>(ReplicaError::TruncatedStream),
        },
{
    match k {
        FieldKind::Bit => {
            let b = r.read_bit()?;
            Ok(Field::Bit(b))
        },
        FieldKind::U32 => {
            let v = r.read_u32()?;
            Ok(Field::U32(v))
        },
        FieldKind::U64 => {
            let v = r.read_u64()?;
            Ok(Field::U64(v))
        },
        FieldKind::OptU32 => {
            let ghost r0 = *r;
            let present = r.read_bit()?;
            if present {
                let ghost r1 = *r;
                proof { lemma_rest_advance(r0, r1, 1); }
                let v = r.read_u32()?;
                Ok(Field::OptU32(Some(v)))
            } else {
                Ok(Field::OptU32(None))
            }
        },
    }
}

/// Reads the fields of `layout` in order.
pub fn read_fields(r: &mut BitReader, layout: &Vec<FieldKind>) -> (res: Result<Vec<Field>, ReplicaError>)
    requires
        old(r).wf(),
    ensures
        final(r).wf(),
        final(r)@.0 == old(r)@.0,
        match parse_fields(layout@, old(r).rest()) {
            Some((fs, n)) => res is Ok && res->Ok_0@ == fs && final(r)@.1 == old(r)@.1 + n,
            None => res == Err::<Vec<Field>, ReplicaError>(ReplicaError::TruncatedStream),
        },
{
    let ghost start = *r;
    let ghost s0 = start.rest();
    let mut out: Vec<Field> = Vec::new();
    let mut i: usize = 0;
    assert(layout@.skip(0) =~= layout@);
    assert(r.rest() =~= s0.skip(0));
    while i < layout.len()
        invariant
            i <= layout@.len(),
            start@ == old(r)@,
            start.wf(),
            s0 == start.rest(),
            r.wf(),
            r@.0 == start@.0,
            r@.1 >= start@.1,
            r.rest() == s0.skip(r@.1 - start@.1),
            parse_fields(layout@, s0) == match parse_fields(layout@.skip(i as int), r.rest()) {
                None => None,
                Some((fs, m)) => Some((out@ + fs, ((r@.1 - start@.1) + m) as nat)),
            },
        decreases layout@.len() - i,
    {
        let ghost r0 = *r;
        let ghost c = r@.1 - start@.1;
        let ghost acc = out@;
        let f = read_field(r, layout[i]);
        assert(layout@.skip(i as int)[0] == layout@[i as int]);
        match f {
            Err(e) => {
                assert(parse_field(layout@[i as int], r0.rest()) is None);
                assert(parse_fields(layout@.skip(i as int), r0.rest()) is None);
                return Err(e);
            },
            Ok(f) => {
                proof {
                    assert(parse_field(layout@[i as int], r0.rest()) is Some);
                    assert(r0@.1 <= r@.1 <= r@.0.len());
                    let n = (r@.1 - r0@.1) as nat;
                    lemma_rest_advance(r0, *r, n);
                    assert(layout@.skip(i as int).skip(1) =~= layout@.skip(i + 1));
                    assert(r.rest() =~= s0.skip(r@.1 - start@.1));
                    match parse_fields(layout@.skip(i + 1), r.rest()) {
                        None => {},
                        Some((fs, m)) => {
                            assert(acc + (seq![f] + fs) =~= acc.push(f) + fs);
                        },
                    }
                }
                out.push(f);
                i = i + 1;
            },
        }
    }
    assert(layout@.skip(i as int) =~= Seq::<FieldKind>::empty());
    assert(out@ + Seq::<Field>::empty() =~= out@);
    Ok(out)
}

pub open spec fn bit_of(f: Field) -> bool {
    match f {
        Field::Bit(b) => b,
        _ => false,
    }
}

pub open spec fn u32_of(f: Field) -> u32 {
    match f {
        Field::U32(v) => v,
        _ => 0,
    }
}

pub open spec fn u64_of(f: Field) -> u64 {
    match f {
        Field::U64(v) => v,
        _ => 0,
    }
}

pub open spec fn opt_u32_of(f: Field) -> Option<u32> {
    match f {
        Field::OptU32(o) => o,
        _ => None,
    }
}

impl Field {
    pub fn bit(&self) -> (r: bool)
        ensures
            r == bit_of(*self),
    {
        match self {
            Field::Bit(b) => *b,
            _ => false,
        }
    }

    pub fn word(&self) -> (r: u32)
        ensures
            r == u32_of(*self),
    {
        match self {
            Field::U32(v) => *v,
            _ => 0,
        }
    }

    pub fn long_word(&self) -> (r: u64)
        ensures
            r == u64_of(*self),
    {
        match self {
            Field::U64(v) => *v,
            _ => 0,
        }
    }

    pub fn opt_word(&self) -> (r: Option<u32>)
        ensures
            r == opt_u32_of(*self),
    {
        match self {
            Field::OptU32(o) => *o,
            _ => None,
        }
    }
}

/// What `parse_fields` returns has one field per entry of the layout.
pub proof fn lemma_parse_fields_len(layout: Seq<FieldKind>, s: Seq<bool>)
    requires
        parse_fields(layout, s) is Some,
    ensures
        parse_fields(layout, s)->Some_0.0.len() == layout.len(),
    decreases layout.len(),
{
    if layout.len() > 0 {
        let (f, n) = parse_field(layout[0], s)->Some_0;
        lemma_parse_fields_len(layout.skip(1), s.skip(n as int));
    }
}

} // verus!
