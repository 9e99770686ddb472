use portus::datapath::{Bin, Instr, Reg, Type};
use portus::ast::Op;
use portus::lang::{compile, compile_and_serialize};
use portus::serialize::Msg;

/// A compiled program survives the serialize/deserialize round trip.
#[test]
fn bin_round_trip() {
    let src = b"
        (def (foo 100000000))
        (bind Flow.foo (if (< Rtt Flow.foo) Rtt))
        ";
    let (b, _) = compile(src).unwrap();
    let bytes = b.serialize().unwrap();
    let back = Bin::deserialize(&bytes).unwrap();
    assert_eq!(b, back);
}

/// Each instruction occupies 55 bytes on the wire.
#[test]
fn bin_wire_length() {
    let src = b"(def (foo 0)) (bind Flow.foo (+ 2 3))";
    let (b, _) = compile(src).unwrap();
    let bytes = b.serialize().unwrap();
    assert_eq!(bytes.len(), 55 * b.0.len());
}

/// compile_and_serialize agrees with compile followed by serialize.
#[test]
fn compile_and_serialize_agrees() {
    let src = b"(def (foo 0)) (bind Flow.foo (+ 2 3))";
    let (bytes, _) = compile_and_serialize(src).unwrap();
    let (b, _) = compile(src).unwrap();
    assert_eq!(bytes, b.serialize().unwrap());
}

/// A program still carrying a transient name register cannot be encoded.
#[test]
fn name_register_rejected() {
    let b = Bin(vec![Instr {
        res: Reg::Perm(1, Type::Name(String::from("x"))),
        op: Op::Def,
        left: Reg::Perm(1, Type::Name(String::from("x"))),
        right: Reg::ImmNum(0),
    }]);
    assert!(b.serialize().is_err());
}

/// Truncated or malformed instruction streams are rejected.
#[test]
fn malformed_bin_rejected() {
    assert!(Bin::deserialize(&[0u8; 54]).is_err());
    assert!(Bin::deserialize(&[0u8; 56]).is_err());
    let mut bad = vec![0u8; 55];
    bad[0] = 200; // no such opcode
    assert!(Bin::deserialize(&bad).is_err());
    // an empty stream is the empty program
    assert_eq!(Bin::deserialize(&[]).unwrap(), Bin(vec![]));
}

/// The create message round-trips, with the documented header layout:
/// kind 0, a little-endian length counting the whole frame, the stream
/// id, six 32-bit fields, and the algorithm name as trailing ASCII.
#[test]
fn create_round_trip() {
    let m = Msg {
        sid: 15,
        init_cwnd: 14480,
        mss: 1448,
        src_ip: 0,
        src_port: 4242,
        dst_ip: 0,
        dst_port: 4242,
        cong_alg: String::from("nimbus"),
    };
    let bytes = m.serialize().unwrap();
    assert_eq!(bytes.len(), 9 + 24 + 6);
    assert_eq!(bytes[0], 0); // kind: Create
    assert_eq!(u32::from_le_bytes([bytes[1], bytes[2], bytes[3], bytes[4]]), 39);
    assert_eq!(u32::from_le_bytes([bytes[5], bytes[6], bytes[7], bytes[8]]), 15);
    assert_eq!(&bytes[33..], b"nimbus");
    let back = Msg::deserialize(&bytes).unwrap();
    assert_eq!(back, m);
}

/// The header fields come from the message.
#[test]
fn create_header() {
    let m = Msg {
        sid: 7,
        init_cwnd: 10,
        mss: 1500,
        src_ip: 1,
        src_port: 2,
        dst_ip: 3,
        dst_port: 4,
        cong_alg: String::from("reno"),
    };
    let (kind, len, sid) = m.get_hdr();
    assert_eq!(kind, 0);
    assert_eq!(len, 9 + 24 + 4);
    assert_eq!(sid, 7);
}

/// Frames with a wrong kind, a wrong length, or a short body are
/// rejected.
#[test]
fn malformed_create_rejected() {
    let m = Msg {
        sid: 1,
        init_cwnd: 2,
        mss: 3,
        src_ip: 4,
        src_port: 5,
        dst_ip: 6,
        dst_port: 7,
        cong_alg: String::from("x"),
    };
    let good = m.serialize().unwrap();
    let mut wrong_kind = good.clone();
    wrong_kind[0] = 9;
    assert!(Msg::deserialize(&wrong_kind).is_err());
    let mut wrong_len = good.clone();
    wrong_len[1] = wrong_len[1].wrapping_add(1);
    assert!(Msg::deserialize(&wrong_len).is_err());
    assert!(Msg::deserialize(&good[..20]).is_err());
    let mut bad_utf8 = good.clone();
    bad_utf8[33] = 0xff;
    assert!(Msg::deserialize(&bad_utf8).is_err());
}
