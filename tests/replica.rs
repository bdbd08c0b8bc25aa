use lu_packets::bits::{BitReader, BitWriter};
use lu_packets::error::ReplicaError;
use lu_packets::quickbuild::{
    ActivityUserInfo, QuickbuildConstruction, QuickbuildConstructionInfo, QuickbuildSerialization,
    QuickbuildSerializationInfo, Vector3,
};

fn user(id: u64) -> ActivityUserInfo {
    ActivityUserInfo {
        user_object_id: id,
        activity_value_0: 1.5f32.to_bits(),
        activity_value_1: 2.0f32.to_bits(),
        activity_value_2: 0,
        activity_value_3: 3,
        activity_value_4: 4,
        activity_value_5: 5,
        activity_value_6: 6,
        activity_value_7: 7,
        activity_value_8: 8,
        activity_value_9: u32::MAX,
    }
}

fn cons_info(unknown: Option<u32>) -> QuickbuildConstructionInfo {
    QuickbuildConstructionInfo {
        current_state: 2,
        show_reset_effect: true,
        has_activator: false,
        duration_timer: 10.0f32.to_bits(),
        total_incomplete_time: 0.25f32.to_bits(),
        unknown,
        activator_position: Vector3 { x: 1.0f32.to_bits(), y: (-2.0f32).to_bits(), z: 0 },
        reposition_player: true,
    }
}

fn ser_info() -> QuickbuildSerializationInfo {
    QuickbuildSerializationInfo {
        current_state: 5,
        show_reset_effect: false,
        has_activator: true,
        duration_timer: 7,
        total_incomplete_time: 9,
    }
}

fn construction_bytes(c: &QuickbuildConstruction) -> (Vec<u8>, usize) {
    let mut w = BitWriter::new();
    c.ser(&mut w);
    let n = w.len();
    (w.into_bytes(), n)
}

fn decode_construction(bytes: &[u8]) -> (Result<QuickbuildConstruction, ReplicaError>, usize) {
    let mut r = BitReader::from_bytes(bytes);
    let c = QuickbuildConstruction::deserialize(&mut r);
    (c, r.position())
}

#[test]
fn construction_all_absent_is_two_zero_bits() {
    let c = QuickbuildConstruction { activity_user_infos: None, quickbuild_construction_info: None };
    let (bytes, n) = construction_bytes(&c);
    assert_eq!(n, 2);
    assert_eq!(bytes, vec![0x00]);
    let (back, pos) = decode_construction(&bytes);
    assert_eq!(back, Ok(c));
    assert_eq!(pos, 2);
}

#[test]
fn construction_empty_user_list_bits() {
    let c = QuickbuildConstruction { activity_user_infos: Some(vec![]), quickbuild_construction_info: None };
    let (bytes, n) = construction_bytes(&c);
    assert_eq!(n, 34);
    assert_eq!(bytes, vec![0x80, 0x00, 0x00, 0x00, 0x00]);
}

#[test]
fn construction_round_trip_full() {
    let c = QuickbuildConstruction {
        activity_user_infos: Some(vec![user(1), user(0x0102_0304_0506_0708)]),
        quickbuild_construction_info: Some(cons_info(Some(0xdead_beef))),
    };
    let (bytes, n) = construction_bytes(&c);
    // presence, count, two users of 64 + 10 * 32 bits, presence, state block
    let info_bits = 32 + 1 + 1 + 32 + 32 + (1 + 32) + 96 + 1;
    assert_eq!(n, 1 + 32 + 2 * 384 + 1 + info_bits);
    let (back, pos) = decode_construction(&bytes);
    assert_eq!(back, Ok(c));
    assert_eq!(pos, n);
}

#[test]
fn construction_round_trip_mixed() {
    let c = QuickbuildConstruction { activity_user_infos: None, quickbuild_construction_info: Some(cons_info(None)) };
    let (bytes, n) = construction_bytes(&c);
    assert_eq!(n, 1 + 1 + 32 + 1 + 1 + 32 + 32 + 1 + 96 + 1);
    let (back, pos) = decode_construction(&bytes);
    assert_eq!(back, Ok(c));
    assert_eq!(pos, n);
}

#[test]
fn serialization_round_trip() {
    let cases = vec![
        QuickbuildSerialization { activity_user_infos: None, quickbuild_serialization_info: None },
        QuickbuildSerialization { activity_user_infos: Some(vec![user(9)]), quickbuild_serialization_info: None },
        QuickbuildSerialization { activity_user_infos: None, quickbuild_serialization_info: Some(ser_info()) },
        QuickbuildSerialization {
            activity_user_infos: Some(vec![user(3), user(4), user(5)]),
            quickbuild_serialization_info: Some(ser_info()),
        },
    ];
    for s in cases {
        let mut w = BitWriter::new();
        s.ser(&mut w);
        let n = w.len();
        let bytes = w.into_bytes();
        assert_eq!(bytes.len(), (n + 7) / 8);
        let mut r = BitReader::from_bytes(&bytes);
        assert_eq!(QuickbuildSerialization::deserialize(&mut r), Ok(s));
        assert_eq!(r.position(), n);
    }
}

#[test]
fn serialization_state_block_bits() {
    let s = QuickbuildSerialization { activity_user_infos: None, quickbuild_serialization_info: Some(ser_info()) };
    let mut w = BitWriter::new();
    s.ser(&mut w);
    assert_eq!(w.len(), 1 + 1 + 32 + 1 + 1 + 32 + 32);
    let bits = w.to_bits();
    // absent users, present block, then state 5 least significant byte first
    assert_eq!(&bits[0..10], &[false, true, false, false, false, false, false, true, false, true]);
}

#[test]
fn truncated_construction_fails() {
    let c = QuickbuildConstruction {
        activity_user_infos: Some(vec![user(1)]),
        quickbuild_construction_info: Some(cons_info(Some(1))),
    };
    let mut w = BitWriter::new();
    c.ser(&mut w);
    let mut bits = w.to_bits();
    bits.pop();
    let mut r = BitReader::from_bits(bits);
    assert_eq!(QuickbuildConstruction::deserialize(&mut r), Err(ReplicaError::TruncatedStream));
    let mut empty = BitReader::from_bits(vec![]);
    assert_eq!(QuickbuildConstruction::deserialize(&mut empty), Err(ReplicaError::TruncatedStream));
}

#[test]
fn user_count_larger_than_stream_fails() {
    let mut w = BitWriter::new();
    w.write_bit(true);
    w.write_u32(1000);
    let mut r = BitReader::from_bytes(&w.into_bytes());
    assert_eq!(QuickbuildConstruction::deserialize(&mut r), Err(ReplicaError::TruncatedStream));
}

#[test]
fn two_components_share_one_cursor() {
    let a = QuickbuildConstruction { activity_user_infos: None, quickbuild_construction_info: Some(cons_info(Some(3))) };
    let b = QuickbuildSerialization { activity_user_infos: Some(vec![user(2)]), quickbuild_serialization_info: None };
    let mut w = BitWriter::new();
    a.ser(&mut w);
    let first = w.len();
    b.ser(&mut w);
    let total = w.len();
    let mut r = BitReader::from_bytes(&w.into_bytes());
    assert_eq!(QuickbuildConstruction::deserialize(&mut r), Ok(a));
    assert_eq!(r.position(), first);
    assert_eq!(QuickbuildSerialization::deserialize(&mut r), Ok(b));
    assert_eq!(r.position(), total);
}

#[test]
fn integers_are_little_endian_bytes_high_bit_first() {
    let mut w = BitWriter::new();
    w.write_u32(0x1234_5678);
    assert_eq!(w.into_bytes(), vec![0x78, 0x56, 0x34, 0x12]);
    let mut w = BitWriter::new();
    w.write_bit(true);
    w.write_u32(1);
    assert_eq!(w.into_bytes(), vec![0x80, 0x80, 0x00, 0x00, 0x00]);
    let mut w = BitWriter::new();
    w.write_u64(0x0102_0304_0506_0708);
    assert_eq!(w.into_bytes(), vec![8, 7, 6, 5, 4, 3, 2, 1]);
}

#[test]
fn reader_reads_bits_high_first() {
    let mut r = BitReader::from_bytes(&[0xa0, 0x01]);
    assert_eq!(r.read_bit(), Ok(true));
    assert_eq!(r.read_bit(), Ok(false));
    assert_eq!(r.read_bit(), Ok(true));
    assert_eq!(r.position(), 3);
    let mut r = BitReader::from_bytes(&[0x78, 0x56, 0x34, 0x12]);
    assert_eq!(r.read_u32(), Ok(0x1234_5678));
    assert_eq!(r.read_bit(), Err(ReplicaError::TruncatedStream));
    let mut r = BitReader::from_bytes(&[0xff, 0xff, 0xff]);
    assert_eq!(r.read_u32(), Err(ReplicaError::TruncatedStream));
}
