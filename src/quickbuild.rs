use vstd::prelude::*;

use crate::bits::{
    bits_of_bytes, bytes_of_bits, le_bits, lemma_bytes_round_trip, pad_len, zero_pad, BitReader,
    BitWriter,
};
use crate::error::ReplicaError;
use crate::fields::{
    bit_of, enc_fields, enc_many, enc_opt, fits, inverts, kind_of, lemma_enc_many_push,
    lemma_fields_inverts, lemma_fields_round_trip, lemma_many_inverts, lemma_many_round_trip,
    lemma_opt_inverts, lemma_opt_round_trip, lemma_parse_fields_len, lemma_rest_advance,
    lemma_skip_prefix, lemma_take_concat, lemma_u32_inverts, lemma_u32_round_trip, opt_u32_of,
    parse_fields, parse_many, parse_opt, parse_u32, read_fields, read_u32, round_trips, u32_of,
    u64_of, write_fields, Field, FieldKind,
};

verus! {

/// A position in the world. Each coordinate is held as the IEEE-754 bit
/// pattern of a 32-bit float, which is how it travels.
#[derive(Debug, Clone, Copy, PartialEq, Eq, Structural)]
pub struct Vector3 {
    pub x: u32,
    pub y: u32,
    pub z: u32,
}

/// One player taking part in a quickbuild activity. The activity values are
/// the bit patterns of 32-bit floats.
#[derive(Debug, Clone, Copy, PartialEq, Eq, Structural)]
pub struct ActivityUserInfo {
    pub user_object_id: u64,
    pub activity_value_0: u32,
    pub activity_value_1: u32,
    pub activity_value_2: u32,
    pub activity_value_3: u32,
    pub activity_value_4: u32,
    pub activity_value_5: u32,
    pub activity_value_6: u32,
    pub activity_value_7: u32,
    pub activity_value_8: u32,
    pub activity_value_9: u32,
}

/// The state block of a quickbuild construction. `current_state` is the
/// rebuild challenge state's 32-bit wire value; the timers are the bit
/// patterns of 32-bit floats.
#[derive(Debug, Clone, Copy, PartialEq, Eq, Structural)]
pub struct QuickbuildConstructionInfo {
    pub current_state: u32,
    pub show_reset_effect: bool,
    pub has_activator: bool,
    pub duration_timer: u32,
    pub total_incomplete_time: u32,
    pub unknown: Option<u32>,
    pub activator_position: Vector3,
    pub reposition_player: bool,
}

/// The full state of a quickbuild component.
#[derive(Debug, Clone, PartialEq)]
pub struct QuickbuildConstruction {
    pub activity_user_infos: Option<Vec<ActivityUserInfo>>,
    pub quickbuild_construction_info: Option<QuickbuildConstructionInfo>,
}

/// The state block of a quickbuild update: the construction block without
/// the reserved field, the activator position and the reposition flag.
#[derive(Debug, Clone, Copy, PartialEq, Eq, Structural)]
pub struct QuickbuildSerializationInfo {
    pub current_state: u32,
    pub show_reset_effect: bool,
    pub has_activator: bool,
    pub duration_timer: u32,
    pub total_incomplete_time: u32,
}

/// An update of a quickbuild component.
#[derive(Debug, Clone, PartialEq)]
pub struct QuickbuildSerialization {
    pub activity_user_infos: Option<Vec<ActivityUserInfo>>,
    pub quickbuild_serialization_info: Option<QuickbuildSerializationInfo>,
}

pub open spec fn opt_view(o: Option<Vec<ActivityUserInfo>>) -> Option<Seq<ActivityUserInfo>> {
    match o {
        None => None,
        Some(v) => Some(v@),
    }
}

impl View for QuickbuildConstruction {
    type V = (Option<Seq<ActivityUserInfo>>, Option<QuickbuildConstructionInfo>);

    open spec fn view(&self) -> Self::V {
        (opt_view(self.activity_user_infos), self.quickbuild_construction_info)
    }
}

impl View for QuickbuildSerialization {
    type V = (Option<Seq<ActivityUserInfo>>, Option<QuickbuildSerializationInfo>);

    open spec fn view(&self) -> Self::V {
        (opt_view(self.activity_user_infos), self.quickbuild_serialization_info)
    }
}

/// A user list fits the 32-bit count that precedes it.
pub open spec fn users_fit(o: Option<Seq<ActivityUserInfo>>) -> bool {
    match o {
        None => true,
        Some(us) => us.len() <= u32::MAX,
    }
}

// ---- record layouts ----

pub open spec fn user_layout() -> Seq<FieldKind> {
    seq![FieldKind::U64, FieldKind::U32, FieldKind::U32, FieldKind::U32, FieldKind::U32,
        FieldKind::U32, FieldKind::U32, FieldKind::U32, FieldKind::U32, FieldKind::U32,
        FieldKind::U32]
}

pub open spec fn user_fields(u: ActivityUserInfo) -> Seq<Field> {
    seq![Field::U64(u.user_object_id), Field::U32(u.activity_value_0),
        Field::U32(u.activity_value_1), Field::U32(u.activity_value_2),
        Field::U32(u.activity_value_3), Field::U32(u.activity_value_4),
        Field::U32(u.activity_value_5), Field::U32(u.activity_value_6),
        Field::U32(u.activity_value_7), Field::U32(u.activity_value_8),
        Field::U32(u.activity_value_9)]
}

pub open spec fn user_from_fields(fs: Seq<Field>) -> ActivityUserInfo {
    ActivityUserInfo {
        user_object_id: u64_of(fs[0]),
        activity_value_0: u32_of(fs[1]),
        activity_value_1: u32_of(fs[2]),
        activity_value_2: u32_of(fs[3]),
        activity_value_3: u32_of(fs[4]),
        activity_value_4: u32_of(fs[5]),
        activity_value_5: u32_of(fs[6]),
        activity_value_6: u32_of(fs[7]),
        activity_value_7: u32_of(fs[8]),
        activity_value_8: u32_of(fs[9]),
        activity_value_9: u32_of(fs[10]),
    }
}

pub open spec fn cons_info_layout() -> Seq<FieldKind> {
    seq![FieldKind::U32, FieldKind::Bit, FieldKind::Bit, FieldKind::U32, FieldKind::U32,
        FieldKind::OptU32, FieldKind::U32, FieldKind::U32, FieldKind::U32, FieldKind::Bit]
}

pub open spec fn cons_info_fields(i: QuickbuildConstructionInfo) -> Seq<Field> {
    seq![Field::U32(i.current_state), Field::Bit(i.show_reset_effect),
        Field::Bit(i.has_activator), Field::U32(i.duration_timer),
        Field::U32(i.total_incomplete_time), Field::OptU32(i.unknown),
        Field::U32(i.activator_position.x), Field::U32(i.activator_position.y),
        Field::U32(i.activator_position.z), Field::Bit(i.reposition_player)]
}

pub open spec fn cons_info_from_fields(fs: Seq<Field>) -> QuickbuildConstructionInfo {
    QuickbuildConstructionInfo {
        current_state: u32_of(fs[0]),
        show_reset_effect: bit_of(fs[1]),
        has_activator: bit_of(fs[2]),
        duration_timer: u32_of(fs[3]),
        total_incomplete_time: u32_of(fs[4]),
        unknown: opt_u32_of(fs[5]),
        activator_position: Vector3 { x: u32_of(fs[6]), y: u32_of(fs[7]), z: u32_of(fs[8]) },
        reposition_player: bit_of(fs[9]),
    }
}

pub open spec fn ser_info_layout() -> Seq<FieldKind> {
    seq![FieldKind::U32, FieldKind::Bit, FieldKind::Bit, FieldKind::U32, FieldKind::U32]
}

pub open spec fn ser_info_fields(i: QuickbuildSerializationInfo) -> Seq<Field> {
    seq![Field::U32(i.current_state), Field::Bit(i.show_reset_effect),
        Field::Bit(i.has_activator), Field::U32(i.duration_timer),
        Field::U32(i.total_incomplete_time)]
}

pub open spec fn ser_info_from_fields(fs: Seq<Field>) -> QuickbuildSerializationInfo {
    QuickbuildSerializationInfo {
        current_state: u32_of(fs[0]),
        show_reset_effect: bit_of(fs[1]),
        has_activator: bit_of(fs[2]),
        duration_timer: u32_of(fs[3]),
        total_incomplete_time: u32_of(fs[4]),
    }
}

// ---- wire format ----

pub open spec fn enc_user(u: ActivityUserInfo) -> Seq<bool> {
    enc_fields(user_fields(u))
}

pub open spec fn parse_user(s: Seq<bool>) -> Option<(ActivityUserInfo, nat)> {
    match parse_fields(user_layout(), s) {
        None => None,
        Some((fs, n)) => Some((user_from_fields(fs), n)),
    }
}

pub open spec fn user_encoder() -> spec_fn(ActivityUserInfo) -> Seq<bool> {
    |u: ActivityUserInfo| enc_user(u)
}

pub open spec fn user_parser() -> spec_fn(Seq<bool>) -> Option<(ActivityUserInfo, nat)> {
    |s: Seq<bool>| parse_user(s)
}

/// A user list: its 32-bit count, then each user.
pub open spec fn enc_users(us: Seq<ActivityUserInfo>) -> Seq<bool> {
    le_bits(us.len(), 4) + enc_many(user_encoder(), us)
}

pub open spec fn parse_users(s: Seq<bool>) -> Option<(Seq<ActivityUserInfo>, nat)> {
    match parse_u32(s) {
        None => None,
        Some((k, n)) => match parse_many(user_parser(), s.skip(n as int), k as nat) {
            None => None,
            Some((us, m)) => Some((us, n + m)),
        },
    }
}

pub open spec fn users_encoder() -> spec_fn(Seq<ActivityUserInfo>) -> Seq<bool> {
    |us: Seq<ActivityUserInfo>| enc_users(us)
}

pub open spec fn users_parser() -> spec_fn(Seq<bool>) -> Option<(Seq<ActivityUserInfo>, nat)> {
    |s: Seq<bool>| parse_users(s)
}

pub open spec fn cons_info_encoder() -> spec_fn(QuickbuildConstructionInfo) -> Seq<bool> {
    |i: QuickbuildConstructionInfo| enc_fields(cons_info_fields(i))
}

pub open spec fn cons_info_parser() -> spec_fn(Seq<bool>) -> Option<(QuickbuildConstructionInfo, nat)> {
    |s: Seq<bool>| match parse_fields(cons_info_layout(), s) {
        None => None,
        Some((fs, n)) => Some((cons_info_from_fields(fs), n)),
    }
}

pub open spec fn ser_info_encoder() -> spec_fn(QuickbuildSerializationInfo) -> Seq<bool> {
    |i: QuickbuildSerializationInfo| enc_fields(ser_info_fields(i))
}

pub open spec fn ser_info_parser() -> spec_fn(Seq<bool>) -> Option<(QuickbuildSerializationInfo, nat)> {
    |s: Seq<bool>| match parse_fields(ser_info_layout(), s) {
        None => None,
        Some((fs, n)) => Some((ser_info_from_fields(fs), n)),
    }
}

/// The bits of a quickbuild construction: the optional user list, then the
/// optional state block, each behind its presence bit.
pub open spec fn enc_construction(v: (Option<Seq<ActivityUserInfo>>, Option<QuickbuildConstructionInfo>)) -> Seq<bool> {
    enc_opt(users_encoder(), v.0) + enc_opt(cons_info_encoder(), v.1)
}

pub open spec fn parse_construction(s: Seq<bool>) -> Option<((Option<Seq<ActivityUserInfo>>, Option<QuickbuildConstructionInfo>), nat)> {
    match parse_opt(users_parser(), s) {
        None => None,
        Some((a, n)) => match parse_opt(cons_info_parser(), s.skip(n as int)) {
            None => None,
            Some((b, m)) => Some(((a, b), n + m)),
        },
    }
}

/// The bits of a quickbuild update, laid out as a construction is.
pub open spec fn enc_serialization(v: (Option<Seq<ActivityUserInfo>>, Option<QuickbuildSerializationInfo>)) -> Seq<bool> {
    enc_opt(users_encoder(), v.0) + enc_opt(ser_info_encoder(), v.1)
}

pub open spec fn parse_serialization(s: Seq<bool>) -> Option<((Option<Seq<ActivityUserInfo>>, Option<QuickbuildSerializationInfo>), nat)> {
    match parse_opt(users_parser(), s) {
        None => None,
        Some((a, n)) => match parse_opt(ser_info_parser(), s.skip(n as int)) {
            None => None,
            Some((b, m)) => Some(((a, b), n + m)),
        },
    }
}

pub open spec fn any_user() -> spec_fn(ActivityUserInfo) -> bool {
    |u: ActivityUserInfo| true
}

pub open spec fn counted() -> spec_fn(Seq<ActivityUserInfo>) -> bool {
    |us: Seq<ActivityUserInfo>| us.len() <= u32::MAX
}

pub open spec fn any_cons_info() -> spec_fn(QuickbuildConstructionInfo) -> bool {
    |i: QuickbuildConstructionInfo| true
}

pub open spec fn any_ser_info() -> spec_fn(QuickbuildSerializationInfo) -> bool {
    |i: QuickbuildSerializationInfo| true
}

pub proof fn lemma_user_round_trip(u: ActivityUserInfo, rest: Seq<bool>)
    ensures
        parse_user(enc_user(u) + rest) == Some((u, enc_user(u).len())),
{
    let fs = user_fields(u);
    assert(fits(fs, user_layout()));
    lemma_fields_round_trip(fs, user_layout(), rest);
    assert(user_from_fields(fs) == u);
}

pub proof fn lemma_users_round_trip(us: Seq<ActivityUserInfo>, rest: Seq<bool>)
    requires
        us.len() <= u32::MAX,
    ensures
        parse_users(enc_users(us) + rest) == Some((us, enc_users(us).len())),
{
    assert forall|u: ActivityUserInfo, r: Seq<bool>| any_user()(u) implies #[trigger] user_parser()(user_encoder()(u) + r)
        == Some((u, user_encoder()(u).len())) by {
        lemma_user_round_trip(u, r);
    }
    let tail = enc_many(user_encoder(), us) + rest;
    assert(enc_users(us) + rest =~= le_bits(us.len(), 4) + tail);
    lemma_u32_round_trip(us.len() as u32, tail);
    lemma_skip_prefix(le_bits(us.len(), 4), tail);
    lemma_many_round_trip(user_encoder(), user_parser(), any_user(), us, rest);
}

pub proof fn lemma_users_codec()
    ensures
        round_trips(users_encoder(), users_parser(), counted()),
{
    assert forall|us: Seq<ActivityUserInfo>, r: Seq<bool>| counted()(us) implies #[trigger] users_parser()(users_encoder()(us) + r)
        == Some((us, users_encoder()(us).len())) by {
        lemma_users_round_trip(us, r);
    }
}

pub proof fn lemma_cons_info_codec()
    ensures
        round_trips(cons_info_encoder(), cons_info_parser(), any_cons_info()),
{
    assert forall|i: QuickbuildConstructionInfo, r: Seq<bool>| any_cons_info()(i) implies #[trigger] cons_info_parser()(cons_info_encoder()(i) + r)
        == Some((i, cons_info_encoder()(i).len())) by {
        let fs = cons_info_fields(i);
        assert(fits(fs, cons_info_layout()));
        lemma_fields_round_trip(fs, cons_info_layout(), r);
        assert(cons_info_from_fields(fs) == i);
    }
}

pub proof fn lemma_ser_info_codec()
    ensures
        round_trips(ser_info_encoder(), ser_info_parser(), any_ser_info()),
{
    assert forall|i: QuickbuildSerializationInfo, r: Seq<bool>| any_ser_info()(i) implies #[trigger] ser_info_parser()(ser_info_encoder()(i) + r)
        == Some((i, ser_info_encoder()(i).len())) by {
        let fs = ser_info_fields(i);
        assert(fits(fs, ser_info_layout()));
        lemma_fields_round_trip(fs, ser_info_layout(), r);
        assert(ser_info_from_fields(fs) == i);
    }
}

/// Decoding the bits of a quickbuild construction gives it back, whatever
/// follows them, and takes exactly its bits.
pub proof fn lemma_construction_round_trip(
    v: (Option<Seq<ActivityUserInfo>>, Option<QuickbuildConstructionInfo>),
    rest: Seq<bool>,
)
    requires
        users_fit(v.0),
    ensures
        parse_construction(enc_construction(v) + rest) == Some((v, enc_construction(v).len())),
{
    let a = enc_opt(users_encoder(), v.0);
    let b = enc_opt(cons_info_encoder(), v.1);
    assert(enc_construction(v) + rest =~= a + (b + rest));
    lemma_users_codec();
    lemma_cons_info_codec();
    lemma_opt_round_trip(users_encoder(), users_parser(), counted(), v.0, b + rest);
    lemma_skip_prefix(a, b + rest);
    lemma_opt_round_trip(cons_info_encoder(), cons_info_parser(), any_cons_info(), v.1, rest);
}

/// Decoding the bits of a quickbuild update gives it back, whatever follows
/// them, and takes exactly its bits.
pub proof fn lemma_serialization_round_trip(
    v: (Option<Seq<ActivityUserInfo>>, Option<QuickbuildSerializationInfo>),
    rest: Seq<bool>,
)
    requires
        users_fit(v.0),
    ensures
        parse_serialization(enc_serialization(v) + rest) == Some((v, enc_serialization(v).len())),
{
    let a = enc_opt(users_encoder(), v.0);
    let b = enc_opt(ser_info_encoder(), v.1);
    assert(enc_serialization(v) + rest =~= a + (b + rest));
    lemma_users_codec();
    lemma_ser_info_codec();
    lemma_opt_round_trip(users_encoder(), users_parser(), counted(), v.0, b + rest);
    lemma_skip_prefix(a, b + rest);
    lemma_opt_round_trip(ser_info_encoder(), ser_info_parser(), any_ser_info(), v.1, rest);
}

pub proof fn lemma_user_inverts()
    ensures
        inverts(user_encoder(), user_parser()),
{
    assert forall|s: Seq<bool>| #[trigger] user_parser()(s) is Some implies {
        &&& user_parser()(s)->Some_0.1 <= s.len()
        &&& s.take(user_parser()(s)->Some_0.1 as int) == user_encoder()(user_parser()(s)->Some_0.0)
    } by {
        lemma_fields_inverts(user_layout(), s);
        let fs = parse_fields(user_layout(), s)->Some_0.0;
        assert(user_fields(user_from_fields(fs)) =~= fs) by {
            assert(forall|i: int| 0 <= i < 11 ==> kind_of(#[trigger] fs[i]) == user_layout()[i]);
        }
    }
}

pub proof fn lemma_users_inverts()
    ensures
        inverts(users_encoder(), users_parser()),
{
    lemma_user_inverts();
    assert forall|s: Seq<bool>| #[trigger] users_parser()(s) is Some implies {
        &&& users_parser()(s)->Some_0.1 <= s.len()
        &&& s.take(users_parser()(s)->Some_0.1 as int) == users_encoder()(users_parser()(s)->Some_0.0)
    } by {
        lemma_u32_inverts(s);
        let (k, n) = parse_u32(s)->Some_0;
        let t = s.skip(32);
        lemma_many_inverts(user_encoder(), user_parser(), t, k as nat);
        let (us, m) = parse_many(user_parser(), t, k as nat)->Some_0;
        lemma_take_concat(s, le_bits(k as nat, 4), enc_many(user_encoder(), us), 32, m);
    }
}

pub proof fn lemma_cons_info_inverts()
    ensures
        inverts(cons_info_encoder(), cons_info_parser()),
{
    assert forall|s: Seq<bool>| #[trigger] cons_info_parser()(s) is Some implies {
        &&& cons_info_parser()(s)->Some_0.1 <= s.len()
        &&& s.take(cons_info_parser()(s)->Some_0.1 as int) == cons_info_encoder()(cons_info_parser()(s)->Some_0.0)
    } by {
        lemma_fields_inverts(cons_info_layout(), s);
        let fs = parse_fields(cons_info_layout(), s)->Some_0.0;
        assert(cons_info_fields(cons_info_from_fields(fs)) =~= fs) by {
            assert(forall|i: int| 0 <= i < 10 ==> kind_of(#[trigger] fs[i]) == cons_info_layout()[i]);
        }
    }
}

pub proof fn lemma_ser_info_inverts()
    ensures
        inverts(ser_info_encoder(), ser_info_parser()),
{
    assert forall|s: Seq<bool>| #[trigger] ser_info_parser()(s) is Some implies {
        &&& ser_info_parser()(s)->Some_0.1 <= s.len()
        &&& s.take(ser_info_parser()(s)->Some_0.1 as int) == ser_info_encoder()(ser_info_parser()(s)->Some_0.0)
    } by {
        lemma_fields_inverts(ser_info_layout(), s);
        let fs = parse_fields(ser_info_layout(), s)->Some_0.0;
        assert(ser_info_fields(ser_info_from_fields(fs)) =~= fs) by {
            assert(forall|i: int| 0 <= i < 5 ==> kind_of(#[trigger] fs[i]) == ser_info_layout()[i]);
        }
    }
}

/// Decoding a quickbuild construction consumes exactly the bits that encode
/// the decoded state: the cursor moves by the length that its presence bits
/// and field widths give.
pub proof fn lemma_construction_consumes(s: Seq<bool>)
    requires
        parse_construction(s) is Some,
    ensures
        parse_construction(s)->Some_0.1 <= s.len(),
        s.take(parse_construction(s)->Some_0.1 as int) == enc_construction(parse_construction(s)->Some_0.0),
        parse_construction(s)->Some_0.1 == enc_construction(parse_construction(s)->Some_0.0).len(),
{
    lemma_users_inverts();
    lemma_cons_info_inverts();
    lemma_opt_inverts(users_encoder(), users_parser(), s);
    let (a, n) = parse_opt(users_parser(), s)->Some_0;
    let t = s.skip(n as int);
    lemma_opt_inverts(cons_info_encoder(), cons_info_parser(), t);
    let (b, m) = parse_opt(cons_info_parser(), t)->Some_0;
    lemma_take_concat(s, enc_opt(users_encoder(), a), enc_opt(cons_info_encoder(), b), n, m);
}

/// Decoding a quickbuild update consumes exactly the bits that encode the
/// decoded update.
pub proof fn lemma_serialization_consumes(s: Seq<bool>)
    requires
        parse_serialization(s) is Some,
    ensures
        parse_serialization(s)->Some_0.1 <= s.len(),
        s.take(parse_serialization(s)->Some_0.1 as int) == enc_serialization(parse_serialization(s)->Some_0.0),
        parse_serialization(s)->Some_0.1 == enc_serialization(parse_serialization(s)->Some_0.0).len(),
{
    lemma_users_inverts();
    lemma_ser_info_inverts();
    lemma_opt_inverts(users_encoder(), users_parser(), s);
    let (a, n) = parse_opt(users_parser(), s)->Some_0;
    let t = s.skip(n as int);
    lemma_opt_inverts(ser_info_encoder(), ser_info_parser(), t);
    let (b, m) = parse_opt(ser_info_parser(), t)->Some_0;
    lemma_take_concat(s, enc_opt(users_encoder(), a), enc_opt(ser_info_encoder(), b), n, m);
}

/// A construction packed into the bytes of a frame and unpacked again
/// decodes to the same state, and the cursor stops before the padding.
pub proof fn lemma_construction_frame_round_trip(
    v: (Option<Seq<ActivityUserInfo>>, Option<QuickbuildConstructionInfo>),
)
    requires
        users_fit(v.0),
    ensures
        parse_construction(bits_of_bytes(bytes_of_bits(enc_construction(v))))
            == Some((v, enc_construction(v).len())),
{
    let e = enc_construction(v);
    lemma_bytes_round_trip(e);
    lemma_construction_round_trip(v, zero_pad(pad_len(e.len())));
}

/// An update packed into the bytes of a frame and unpacked again decodes to
/// the same update.
pub proof fn lemma_serialization_frame_round_trip(
    v: (Option<Seq<ActivityUserInfo>>, Option<QuickbuildSerializationInfo>),
)
    requires
        users_fit(v.0),
    ensures
        parse_serialization(bits_of_bytes(bytes_of_bits(enc_serialization(v))))
            == Some((v, enc_serialization(v).len())),
{
    let e = enc_serialization(v);
    lemma_bytes_round_trip(e);
    lemma_serialization_round_trip(v, zero_pad(pad_len(e.len())));
}

fn user_layout_vec() -> (r: Vec<FieldKind>)
    ensures
        r@ == user_layout(),
{
    let mut v: Vec<FieldKind> = Vec::new();
    v.push(FieldKind::U64);
    let mut i: usize = 0;
    while i < 10
        invariant
            i <= 10,
            v@.len() == i + 1,
            v@[0] == FieldKind::U64,
            forall|j: int| 1 <= j < v@.len() ==> v@[j] == FieldKind::U32,
        decreases 10 - i,
    {
        v.push(FieldKind::U32);
        i = i + 1;
    }
    assert(v@ =~= user_layout());
    v
}

fn cons_info_layout_vec() -> (r: Vec<FieldKind>)
    ensures
        r@ == cons_info_layout(),
{
    let mut v: Vec<FieldKind> = Vec::new();
    v.push(FieldKind::U32);
    v.push(FieldKind::Bit);
    v.push(FieldKind::Bit);
    v.push(FieldKind::U32);
    v.push(FieldKind::U32);
    v.push(FieldKind::OptU32);
    v.push(FieldKind::U32);
    v.push(FieldKind::U32);
    v.push(FieldKind::U32);
    v.push(FieldKind::Bit);
    assert(v@ =~= cons_info_layout());
    v
}

fn ser_info_layout_vec() -> (r: Vec<FieldKind>)
    ensures
        r@ == ser_info_layout(),
{
    let mut v: Vec<FieldKind> = Vec::new();
    v.push(FieldKind::U32);
    v.push(FieldKind::Bit);
    v.push(FieldKind::Bit);
    v.push(FieldKind::U32);
    v.push(FieldKind::U32);
    assert(v@ =~= ser_info_layout());
    v
}

impl ActivityUserInfo {
    fn to_fields(&self) -> (r: Vec<Field>)
        ensures
            r@ == user_fields(*self),
    {
        let mut v: Vec<Field> = Vec::new();
        v.push(Field::U64(self.user_object_id));
        v.push(Field::U32(self.activity_value_0));
        v.push(Field::U32(self.activity_value_1));
        v.push(Field::U32(self.activity_value_2));
        v.push(Field::U32(self.activity_value_3));
        v.push(Field::U32(self.activity_value_4));
        v.push(Field::U32(self.activity_value_5));
        v.push(Field::U32(self.activity_value_6));
        v.push(Field::U32(self.activity_value_7));
        v.push(Field::U32(self.activity_value_8));
        v.push(Field::U32(self.activity_value_9));
        assert(v@ =~= user_fields(*self));
        v
    }

    fn from_fields(fs: &Vec<Field>) -> (r: ActivityUserInfo)
        requires
            fs@.len() == 11,
        ensures
            r == user_from_fields(fs@),
    {
        ActivityUserInfo {
            user_object_id: fs[0].long_word(),
            activity_value_0: fs[1].word(),
            activity_value_1: fs[2].word(),
            activity_value_2: fs[3].word(),
            activity_value_3: fs[4].word(),
            activity_value_4: fs[5].word(),
            activity_value_5: fs[6].word(),
            activity_value_6: fs[7].word(),
            activity_value_7: fs[8].word(),
            activity_value_8: fs[9].word(),
            activity_value_9: fs[10].word(),
        }
    }

    pub fn ser(&self, writer: &mut BitWriter)
        ensures
            final(writer)@ == old(writer)@ + enc_user(*self),
    {
        write_fields(writer, &self.to_fields());
    }

    pub fn deserialize(reader: &mut BitReader) -> (r: Result<ActivityUserInfo, ReplicaError>)
        requires
            old(reader).wf(),
        ensures
            final(reader).wf(),
            final(reader)@.0 == old(reader)@.0,
            match parse_user(old(reader).rest()) {
                Some((u, n)) => r == Ok::<ActivityUserInfo, ReplicaError>(u) && final(reader)@.1 == old(reader)@.1 + n,
                None => r == Err::<ActivityUserInfo, ReplicaError>(ReplicaError::TruncatedStream),
            },
    {
        let fs = read_fields(reader, &user_layout_vec())?;
        proof {
            lemma_parse_fields_len(user_layout(), old(reader).rest());
        }
        Ok(ActivityUserInfo::from_fields(&fs))
    }
}

impl QuickbuildConstructionInfo {
    fn to_fields(&self) -> (r: Vec<Field>)
        ensures
            r@ == cons_info_fields(*self),
    {
        let mut v: Vec<Field> = Vec::new();
        v.push(Field::U32(self.current_state));
        v.push(Field::Bit(self.show_reset_effect));
        v.push(Field::Bit(self.has_activator));
        v.push(Field::U32(self.duration_timer));
        v.push(Field::U32(self.total_incomplete_time));
        v.push(Field::OptU32(self.unknown));
        v.push(Field::U32(self.activator_position.x));
        v.push(Field::U32(self.activator_position.y));
        v.push(Field::U32(self.activator_position.z));
        v.push(Field::Bit(self.reposition_player));
        assert(v@ =~= cons_info_fields(*self));
        v
    }

    fn from_fields(fs: &Vec<Field>) -> (r: QuickbuildConstructionInfo)
        requires
            fs@.len() == 10,
        ensures
            r == cons_info_from_fields(fs@),
    {
        QuickbuildConstructionInfo {
            current_state: fs[0].word(),
            show_reset_effect: fs[1].bit(),
            has_activator: fs[2].bit(),
            duration_timer: fs[3].word(),
            total_incomplete_time: fs[4].word(),
            unknown: fs[5].opt_word(),
            activator_position: Vector3 { x: fs[6].word(), y: fs[7].word(), z: fs[8].word() },
            reposition_player: fs[9].bit(),
        }
    }

    pub fn ser(&self, writer: &mut BitWriter)
        ensures
            final(writer)@ == old(writer)@ + cons_info_encoder()(*self),
    {
        write_fields(writer, &self.to_fields());
    }

    pub fn deserialize(reader: &mut BitReader) -> (r: Result<QuickbuildConstructionInfo, ReplicaError>)
        requires
            old(reader).wf(),
        ensures
            final(reader).wf(),
            final(reader)@.0 == old(reader)@.0,
            match cons_info_parser()(old(reader).rest()) {
                Some((i, n)) => r == Ok::<QuickbuildConstructionInfo, ReplicaError>(i) && final(reader)@.1 == old(reader)@.1 + n,
                None => r == Err::<QuickbuildConstructionInfo, ReplicaError>(ReplicaError::TruncatedStream),
            },
    {
        let fs = read_fields(reader, &cons_info_layout_vec())?;
        proof {
            lemma_parse_fields_len(cons_info_layout(), old(reader).rest());
        }
        Ok(QuickbuildConstructionInfo::from_fields(&fs))
    }
}

impl QuickbuildSerializationInfo {
    fn to_fields(&self) -> (r: Vec<Field>)
        ensures
            r@ == ser_info_fields(*self),
    {
        let mut v: Vec<Field> = Vec::new();
        v.push(Field::U32(self.current_state));
        v.push(Field::Bit(self.show_reset_effect));
        v.push(Field::Bit(self.has_activator));
        v.push(Field::U32(self.duration_timer));
        v.push(Field::U32(self.total_incomplete_time));
        assert(v@ =~= ser_info_fields(*self));
        v
    }

    fn from_fields(fs: &Vec<Field>) -> (r: QuickbuildSerializationInfo)
        requires
            fs@.len() == 5,
        ensures
            r == ser_info_from_fields(fs@),
    {
        QuickbuildSerializationInfo {
            current_state: fs[0].word(),
            show_reset_effect: fs[1].bit(),
            has_activator: fs[2].bit(),
            duration_timer: fs[3].word(),
            total_incomplete_time: fs[4].word(),
        }
    }

    pub fn ser(&self, writer: &mut BitWriter)
        ensures
            final(writer)@ == old(writer)@ + ser_info_encoder()(*self),
    {
        write_fields(writer, &self.to_fields());
    }

    pub fn deserialize(reader: &mut BitReader) -> (r: Result<QuickbuildSerializationInfo, ReplicaError>)
        requires
            old(reader).wf(),
        ensures
            final(reader).wf(),
            final(reader)@.0 == old(reader)@.0,
            match ser_info_parser()(old(reader).rest()) {
                Some((i, n)) => r == Ok::<QuickbuildSerializationInfo, ReplicaError>(i) && final(reader)@.1 == old(reader)@.1 + n,
                None => r == Err::<QuickbuildSerializationInfo, ReplicaError>(ReplicaError::TruncatedStream),
            },
    {
        let fs = read_fields(reader, &ser_info_layout_vec())?;
        proof {
            lemma_parse_fields_len(ser_info_layout(), old(reader).rest());
        }
        Ok(QuickbuildSerializationInfo::from_fields(&fs))
    }
}

/// Writes a user list: its 32-bit count, then each user.
pub fn write_users(writer: &mut BitWriter, users: &Vec<ActivityUserInfo>)
    requires
        users@.len() <= u32::MAX,
    ensures
        final(writer)@ == old(writer)@ + enc_users(users@),
{
    writer.write_u32(users.len() as u32);
    let ghost mid = writer@;
    let mut i: usize = 0;
    assert(users@.take(0) =~= Seq::<ActivityUserInfo>::empty());
    assert(writer@ =~= mid + enc_many(user_encoder(), users@.take(0)));
    while i < users.len()
        invariant
            i <= users@.len(),
            mid == old(writer)@ + le_bits(users@.len(), 4),
            writer@ == mid + enc_many(user_encoder(), users@.take(i as int)),
        decreases users@.len() - i,
    {
        users[i].ser(writer);
        proof {
            assert(users@.take(i + 1) =~= users@.take(i as int).push(users@[i as int]));
            lemma_enc_many_push(user_encoder(), users@.take(i as int), users@[i as int]);
        }
        assert(writer@ =~= mid + enc_many(user_encoder(), users@.take(i + 1)));
        i = i + 1;
    }
    assert(users@.take(i as int) =~= users@);
    assert(writer@ =~= old(writer)@ + enc_users(users@));
}

/// Reads a user list: its 32-bit count, then that many users.
pub fn read_users(reader: &mut BitReader) -> (r: Result<Vec<ActivityUserInfo>, ReplicaError>)
    requires
        old(reader).wf(),
    ensures
        final(reader).wf(),
        final(reader)@.0 == old(reader)@.0,
        match parse_users(old(reader).rest()) {
            Some((us, n)) => r is Ok && r->Ok_0@ == us && final(reader)@.1 == old(reader)@.1 + n,
            None => r == Err::<Vec<ActivityUserInfo>, ReplicaError>(ReplicaError::TruncatedStream),
        },
{
    let ghost r_in = *reader;
    let k = read_u32(reader)?;
    let ghost start = *reader;
    let ghost s0 = start.rest();
    proof {
        lemma_rest_advance(r_in, start, 32);
    }
    let mut out: Vec<ActivityUserInfo> = Vec::new();
    let mut i: u32 = 0;
    assert(reader.rest() =~= s0.skip(0));
    assert(out@ + Seq::<ActivityUserInfo>::empty() =~= out@);
    while i < k
        invariant
            i <= k,
            r_in@ == old(reader)@,
            r_in.wf(),
            start@.0 == r_in@.0,
            start@.1 == r_in@.1 + 32,
            parse_u32(r_in.rest()) == Some((k, 32nat)),
            s0 == r_in.rest().skip(32),
            start.wf(),
            s0 == start.rest(),
            reader.wf(),
            reader@.0 == start@.0,
            reader@.1 >= start@.1,
            reader.rest() == s0.skip(reader@.1 - start@.1),
            parse_many(user_parser(), s0, k as nat) == match parse_many(user_parser(), reader.rest(), (k - i) as nat) {
                None => None,
                Some((us, m)) => Some((out@ + us, ((reader@.1 - start@.1) + m) as nat)),
            },
        decreases k - i,
    {
        let ghost r0 = *reader;
        let ghost acc = out@;
        let u = ActivityUserInfo::deserialize(reader);
        match u {
            Err(e) => {
                assert(parse_user(r0.rest()) is None);
                assert(parse_many(user_parser(), r0.rest(), (k - i) as nat) is None);
                return Err(e);
            },
            Ok(u) => {
                proof {
                    assert(parse_user(r0.rest()) is Some);
                    assert(r0@.1 <= reader@.1 <= reader@.0.len());
                    let n = (reader@.1 - r0@.1) as nat;
                    lemma_rest_advance(r0, *reader, n);
                    assert(reader.rest() =~= s0.skip(reader@.1 - start@.1));
                    match parse_many(user_parser(), reader.rest(), (k - i - 1) as nat) {
                        None => {},
                        Some((us, m)) => {
                            assert(acc + (seq![u] + us) =~= acc.push(u) + us);
                        },
                    }
                }
                out.push(u);
                i = i + 1;
            },
        }
    }
    assert(out@ + Seq::<ActivityUserInfo>::empty() =~= out@);
    Ok(out)
}

fn write_opt_users(writer: &mut BitWriter, users: &Option<Vec<ActivityUserInfo>>)
    requires
        users_fit(opt_view(*users)),
    ensures
        final(writer)@ == old(writer)@ + enc_opt(users_encoder(), opt_view(*users)),
{
    match users {
        None => {
            writer.write_bit(false);
        },
        Some(us) => {
            writer.write_bit(true);
            write_users(writer, us);
            assert(final(writer)@ =~= old(writer)@ + enc_opt(users_encoder(), opt_view(*users)));
        },
    }
}

fn read_opt_users(reader: &mut BitReader) -> (r: Result<Option<Vec<ActivityUserInfo>>, ReplicaError>)
    requires
        old(reader).wf(),
    ensures
        final(reader).wf(),
        final(reader)@.0 == old(reader)@.0,
        match parse_opt(users_parser(), old(reader).rest()) {
            Some((o, n)) => r is Ok && opt_view(r->Ok_0) == o && final(reader)@.1 == old(reader)@.1 + n,
            None => r == Err::<Option<Vec<ActivityUserInfo>>, ReplicaError>(ReplicaError::TruncatedStream),
        },
{
    let ghost r0 = *reader;
    let present = reader.read_bit()?;
    if present {
        let ghost r1 = *reader;
        proof {
            lemma_rest_advance(r0, r1, 1);
        }
        let us = read_users(reader)?;
        Ok(Some(us))
    } else {
        Ok(None)
    }
}

impl QuickbuildConstruction {
    /// The state can be written: a user list holds at most `u32::MAX` users.
    pub open spec fn wf(&self) -> bool {
        users_fit(self@.0)
    }

    pub fn ser(&self, writer: &mut BitWriter)
        requires
            self.wf(),
        ensures
            final(writer)@ == old(writer)@ + enc_construction(self@),
    {
        write_opt_users(writer, &self.activity_user_infos);
        let ghost mid = writer@;
        match &self.quickbuild_construction_info {
            None => {
                writer.write_bit(false);
            },
            Some(info) => {
                writer.write_bit(true);
                info.ser(writer);
            },
        }
        assert(writer@ =~= old(writer)@ + enc_construction(self@));
    }

    pub fn deserialize(reader: &mut BitReader) -> (r: Result<QuickbuildConstruction, ReplicaError>)
        requires
            old(reader).wf(),
        ensures
            final(reader).wf(),
            final(reader)@.0 == old(reader)@.0,
            match parse_construction(old(reader).rest()) {
                Some((v, n)) => r is Ok && r->Ok_0@ == v && final(reader)@.1 == old(reader)@.1 + n,
                None => r == Err::<QuickbuildConstruction, ReplicaError>(ReplicaError::TruncatedStream),
            },
    {
        let ghost r0 = *reader;
        let users = read_opt_users(reader)?;
        let ghost r1 = *reader;
        proof {
            lemma_rest_advance(r0, r1, (r1@.1 - r0@.1) as nat);
        }
        let present = reader.read_bit()?;
        let info = if present {
            let ghost r2 = *reader;
            proof {
                lemma_rest_advance(r1, r2, 1);
            }
            Some(QuickbuildConstructionInfo::deserialize(reader)?)
        } else {
            None
        };
        Ok(QuickbuildConstruction { activity_user_infos: users, quickbuild_construction_info: info })
    }
}

impl QuickbuildSerialization {
    /// The update can be written: a user list holds at most `u32::MAX` users.
    pub open spec fn wf(&self) -> bool {
        users_fit(self@.0)
    }

    pub fn ser(&self, writer: &mut BitWriter)
        requires
            self.wf(),
        ensures
            final(writer)@ == old(writer)@ + enc_serialization(self@),
    {
        write_opt_users(writer, &self.activity_user_infos);
        let ghost mid = writer@;
        match &self.quickbuild_serialization_info {
            None => {
                writer.write_bit(false);
            },
            Some(info) => {
                writer.write_bit(true);
                info.ser(writer);
            },
        }
        assert(writer@ =~= old(writer)@ + enc_serialization(self@));
    }

    pub fn deserialize(reader: &mut BitReader) -> (r: Result<QuickbuildSerialization, ReplicaError>)
        requires
            old(reader).wf(),
        ensures
            final(reader).wf(),
            final(reader)@.0 == old(reader)@.0,
            match parse_serialization(old(reader).rest()) {
                Some((v, n)) => r is Ok && r->Ok_0@ == v && final(reader)@.1 == old(reader)@.1 + n,
                None => r == Err::<QuickbuildSerialization, ReplicaError>(ReplicaError::TruncatedStream),
            },
    {
        let ghost r0 = *reader;
        let users = read_opt_users(reader)?;
        let ghost r1 = *reader;
        proof {
            lemma_rest_advance(r0, r1, (r1@.1 - r0@.1) as nat);
        }
        let present = reader.read_bit()?;
        let info = if present {
            let ghost r2 = *reader;
            proof {
                lemma_rest_advance(r1, r2, 1);
            }
            Some(QuickbuildSerializationInfo::deserialize(reader)?)
        } else {
            None
        };
        Ok(QuickbuildSerialization { activity_user_infos: users, quickbuild_serialization_info: info })
    }
}

} // verus!
