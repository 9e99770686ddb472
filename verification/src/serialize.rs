//! The wire format: a fixed-size little-endian encoding of bytecode
//! instructions, and the `Create` control message with its framing header.

use vstd::prelude::*;
use vstd::bytes::{
    lemma_auto_spec_u32_to_from_le_bytes, lemma_auto_spec_u64_to_from_le_bytes,
    spec_u32_from_le_bytes, spec_u32_to_le_bytes, spec_u64_from_le_bytes, spec_u64_to_le_bytes,
    u32_from_le_bytes, u32_to_le_bytes, u64_from_le_bytes, u64_to_le_bytes,
};
use vstd::slice::slice_subrange;
use crate::ast::Op;
use crate::datapath::{Bin, Instr, Reg, Type};
use crate::lang::Error;

verus! {

/// Bytes of one encoded register: a class tag, a 64-bit value (immediate
/// or index), a type tag, and a 64-bit type payload.
pub const REG_BYTES: usize = 18;

/// Bytes of one encoded instruction: an opcode and three registers.
pub const INSTR_BYTES: usize = 55;

/// The opcode of an operator.
pub open spec fn spec_opcode(o: Op) -> u8 {
    match o {
        Op::Add => 0,
        Op::Bind => 1,
        Op::Def => 2,
        Op::Div => 3,
        Op::Equiv => 4,
        Op::Ewma => 5,
        Op::Gt => 6,
        Op::If => 7,
        Op::Let => 8,
        Op::Lt => 9,
        Op::Max => 10,
        Op::MaxWrap => 11,
        Op::Min => 12,
        Op::Mul => 13,
        Op::NotIf => 14,
        Op::Sub => 15,
    }
}

/// The operator of an opcode byte, if it denotes one.
pub open spec fn spec_opcode_inv(b: u8) -> Option<Op> {
    if b == 0 {
        Option::Some(Op::Add)
    } else if b == 1 {
        Option::Some(Op::Bind)
    } else if b == 2 {
        Option::Some(Op::Def)
    } else if b == 3 {
        Option::Some(Op::Div)
    } else if b == 4 {
        Option::Some(Op::Equiv)
    } else if b == 5 {
        Option::Some(Op::Ewma)
    } else if b == 6 {
        Option::Some(Op::Gt)
    } else if b == 7 {
        Option::Some(Op::If)
    } else if b == 8 {
        Option::Some(Op::Let)
    } else if b == 9 {
        Option::Some(Op::Lt)
    } else if b == 10 {
        Option::Some(Op::Max)
    } else if b == 11 {
        Option::Some(Op::MaxWrap)
    } else if b == 12 {
        Option::Some(Op::Min)
    } else if b == 13 {
        Option::Some(Op::Mul)
    } else if b == 14 {
        Option::Some(Op::NotIf)
    } else if b == 15 {
        Option::Some(Op::Sub)
    } else {
        Option::None
    }
}

/// A type tag is encodable unless it is a transient name.
pub open spec fn type_ser_ok(t: Type) -> bool {
    !(t matches Type::Name(_))
}

/// The encoding of a type tag: a tag byte and a 64-bit payload.
pub open spec fn spec_ser_type(t: Type) -> Seq<u8> {
    match t {
        Type::Bool(o) => match o {
            Option::None => seq![0u8] + spec_u64_to_le_bytes(0),
            Option::Some(b) => seq![1u8] + spec_u64_to_le_bytes(if b { 1u64 } else { 0u64 }),
        },
        Type::Num(o) => match o {
            Option::None => seq![2u8] + spec_u64_to_le_bytes(0),
            Option::Some(v) => seq![3u8] + spec_u64_to_le_bytes(v),
        },
        Type::Void => seq![4u8] + spec_u64_to_le_bytes(0),
        Type::Name(_) => Seq::empty(),
    }
}

/// The type a tag byte and payload decode to, if any.
pub open spec fn spec_deser_type(tag: u8, v: u64) -> Option<Type> {
    if tag == 0 {
        Option::Some(Type::Bool(Option::None))
    } else if tag == 1 {
        if v == 0 {
            Option::Some(Type::Bool(Option::Some(false)))
        } else if v == 1 {
            Option::Some(Type::Bool(Option::Some(true)))
        } else {
            Option::None
        }
    } else if tag == 2 {
        Option::Some(Type::Num(Option::None))
    } else if tag == 3 {
        Option::Some(Type::Num(Option::Some(v)))
    } else if tag == 4 {
        Option::Some(Type::Void)
    } else {
        Option::None
    }
}

/// A register is encodable unless its type tag is a transient name.
pub open spec fn reg_ser_ok(r: Reg) -> bool {
    match r {
        Reg::Const(_, t) => type_ser_ok(t),
        Reg::Tmp(_, t) => type_ser_ok(t),
        Reg::Perm(_, t) => type_ser_ok(t),
        _ => true,
    }
}

/// The 18-byte encoding of a register.
pub open spec fn spec_ser_reg(r: Reg) -> Seq<u8> {
    match r {
        Reg::ImmNum(n) => seq![0u8] + spec_u64_to_le_bytes(n) + seq![2u8] + spec_u64_to_le_bytes(0),
        Reg::ImmBool(b) => seq![1u8] + spec_u64_to_le_bytes(if b { 1u64 } else { 0u64 })
            + seq![0u8] + spec_u64_to_le_bytes(0),
        Reg::Const(i, t) => seq![2u8] + spec_u64_to_le_bytes(i as u64) + spec_ser_type(t),
        Reg::Tmp(i, t) => seq![3u8] + spec_u64_to_le_bytes(i as u64) + spec_ser_type(t),
        Reg::Perm(i, t) => seq![4u8] + spec_u64_to_le_bytes(i as u64) + spec_ser_type(t),
        Reg::Void => seq![5u8] + spec_u64_to_le_bytes(0) + seq![4u8] + spec_u64_to_le_bytes(0),
    }
}

/// The register 18 bytes decode to, if any.
pub open spec fn spec_deser_reg(b: Seq<u8>) -> Option<Reg> {
    let class = b[0];
    let val = spec_u64_from_le_bytes(b.subrange(1, 9));
    let tag = b[9];
    let tv = spec_u64_from_le_bytes(b.subrange(10, 18));
    if class == 0 {
        Option::Some(Reg::ImmNum(val))
    } else if class == 1 {
        if val == 0 {
            Option::Some(Reg::ImmBool(false))
        } else if val == 1 {
            Option::Some(Reg::ImmBool(true))
        } else {
            Option::None
        }
    } else if class == 2 || class == 3 || class == 4 {
        if val <= 255 {
            match spec_deser_type(tag, tv) {
                Option::Some(t) => if class == 2 {
                    Option::Some(Reg::Const(val as u8, t))
                } else if class == 3 {
                    Option::Some(Reg::Tmp(val as u8, t))
                } else {
                    Option::Some(Reg::Perm(val as u8, t))
                },
                Option::None => Option::None,
            }
        } else {
            Option::None
        }
    } else if class == 5 {
        Option::Some(Reg::Void)
    } else {
        Option::None
    }
}

/// An instruction is encodable when its three registers are.
pub open spec fn instr_ser_ok(ins: Instr) -> bool {
    reg_ser_ok(ins.res) && reg_ser_ok(ins.left) && reg_ser_ok(ins.right)
}

/// The 55-byte encoding of an instruction.
pub open spec fn spec_ser_instr(ins: Instr) -> Seq<u8> {
    seq![spec_opcode(ins.op)] + spec_ser_reg(ins.res) + spec_ser_reg(ins.left) + spec_ser_reg(
        ins.right,
    )
}

/// The instruction 55 bytes decode to, if any.
pub open spec fn spec_deser_instr(b: Seq<u8>) -> Option<Instr> {
    match spec_opcode_inv(b[0]) {
        Option::Some(op) => match (
            spec_deser_reg(b.subrange(1, 19)),
            spec_deser_reg(b.subrange(19, 37)),
            spec_deser_reg(b.subrange(37, 55)),
        ) {
            (Option::Some(res), Option::Some(left), Option::Some(right)) => Option::Some(
                Instr { res, op, left, right },
            ),
            _ => Option::None,
        },
        Option::None => Option::None,
    }
}

/// Every instruction of the program is encodable.
pub open spec fn bin_ser_ok(s: Seq<Instr>) -> bool {
    forall|k: int| 0 <= k < s.len() ==> instr_ser_ok(#[trigger] s[k])
}

/// The encoding of a whole program: each instruction's bytes in order.
pub open spec fn spec_ser_bin(s: Seq<Instr>) -> Seq<u8>
    decreases s.len(),
{
    if s.len() == 0 {
        Seq::empty()
    } else {
        spec_ser_instr(s[0]) + spec_ser_bin(s.drop_first())
    }
}

/// The instruction sequence a byte string decodes to: it must consist of
/// whole 55-byte instructions, each of them decodable.
pub open spec fn spec_deser_bin(b: Seq<u8>) -> Option<Seq<Instr>>
    decreases b.len(),
{
    if b.len() == 0 {
        Option::Some(Seq::empty())
    } else if b.len() < 55 {
        Option::None
    } else {
        match spec_deser_instr(b.subrange(0, 55)) {
            Option::Some(ins) => match spec_deser_bin(b.skip(55)) {
                Option::Some(rest) => Option::Some(seq![ins] + rest),
                Option::None => Option::None,
            },
            Option::None => Option::None,
        }
    }
}

/// An encoded type is 9 bytes.
proof fn lemma_ser_type_len(t: Type)
    requires
        type_ser_ok(t),
    ensures
        spec_ser_type(t).len() == 9,
{
    lemma_auto_spec_u64_to_from_le_bytes();
}

/// An encoded register is 18 bytes.
pub proof fn lemma_ser_reg_len(r: Reg)
    requires
        reg_ser_ok(r),
    ensures
        spec_ser_reg(r).len() == 18,
{
    lemma_auto_spec_u64_to_from_le_bytes();
    match r {
        Reg::Const(_, t) => lemma_ser_type_len(t),
        Reg::Tmp(_, t) => lemma_ser_type_len(t),
        Reg::Perm(_, t) => lemma_ser_type_len(t),
        _ => {},
    }
}

/// An encoded instruction is 55 bytes.
pub proof fn lemma_ser_instr_len(ins: Instr)
    requires
        instr_ser_ok(ins),
    ensures
        spec_ser_instr(ins).len() == 55,
{
    lemma_ser_reg_len(ins.res);
    lemma_ser_reg_len(ins.left);
    lemma_ser_reg_len(ins.right);
}

/// Decoding inverts encoding for one register.
proof fn lemma_reg_round_trip(r: Reg)
    requires
        reg_ser_ok(r),
    ensures
        spec_ser_reg(r).len() == 18,
        spec_deser_reg(spec_ser_reg(r)) == Option::Some(r),
{
    lemma_auto_spec_u64_to_from_le_bytes();
    lemma_ser_reg_len(r);
    let b = spec_ser_reg(r);
    match r {
        Reg::ImmNum(n) => {
            assert(b.subrange(1, 9) =~= spec_u64_to_le_bytes(n));
        },
        Reg::ImmBool(v) => {
            assert(b.subrange(1, 9) =~= spec_u64_to_le_bytes(if v { 1u64 } else { 0u64 }));
        },
        Reg::Const(i, t) => {
            lemma_ser_type_len(t);
            assert(b.subrange(1, 9) =~= spec_u64_to_le_bytes(i as u64));
            lemma_type_in_reg(seq![2u8] + spec_u64_to_le_bytes(i as u64), t);
            assert(spec_deser_reg(b) == Option::Some(Reg::Const(i, t)));
        },
        Reg::Tmp(i, t) => {
            lemma_ser_type_len(t);
            assert(b.subrange(1, 9) =~= spec_u64_to_le_bytes(i as u64));
            lemma_type_in_reg(seq![3u8] + spec_u64_to_le_bytes(i as u64), t);
            assert(spec_deser_reg(b) == Option::Some(Reg::Tmp(i, t)));
        },
        Reg::Perm(i, t) => {
            lemma_ser_type_len(t);
            assert(b.subrange(1, 9) =~= spec_u64_to_le_bytes(i as u64));
            lemma_type_in_reg(seq![4u8] + spec_u64_to_le_bytes(i as u64), t);
            assert(spec_deser_reg(b) == Option::Some(Reg::Perm(i, t)));
        },
        Reg::Void => {
            assert(b.subrange(1, 9) =~= spec_u64_to_le_bytes(0));
        },
    }
}

/// In a register encoding `prefix + type bytes`, the type tag and payload
/// land at offsets 9 and 10..18 and decode back to the type.
proof fn lemma_type_in_reg(prefix: Seq<u8>, t: Type)
    requires
        prefix.len() == 9,
        type_ser_ok(t),
    ensures
        (prefix + spec_ser_type(t))[9] == spec_ser_type(t)[0],
        (prefix + spec_ser_type(t)).subrange(10, 18) =~= spec_ser_type(t).subrange(1, 9),
        spec_deser_type(
            spec_ser_type(t)[0],
            spec_u64_from_le_bytes(spec_ser_type(t).subrange(1, 9)),
        ) == Option::Some(t),
{
    lemma_auto_spec_u64_to_from_le_bytes();
    lemma_ser_type_len(t);
    match t {
        Type::Bool(o) => match o {
            Option::None => {
                assert(spec_ser_type(t).subrange(1, 9) =~= spec_u64_to_le_bytes(0));
            },
            Option::Some(v) => {
                assert(spec_ser_type(t).subrange(1, 9) =~= spec_u64_to_le_bytes(
                    if v { 1u64 } else { 0u64 },
                ));
            },
        },
        Type::Num(o) => match o {
            Option::None => {
                assert(spec_ser_type(t).subrange(1, 9) =~= spec_u64_to_le_bytes(0));
            },
            Option::Some(v) => {
                assert(spec_ser_type(t).subrange(1, 9) =~= spec_u64_to_le_bytes(v));
            },
        },
        Type::Void => {
            assert(spec_ser_type(t).subrange(1, 9) =~= spec_u64_to_le_bytes(0));
        },
        Type::Name(_) => {},
    }
}

/// Decoding inverts encoding for one instruction.
pub proof fn lemma_instr_round_trip(ins: Instr)
    requires
        instr_ser_ok(ins),
    ensures
        spec_ser_instr(ins).len() == 55,
        spec_deser_instr(spec_ser_instr(ins)) == Option::Some(ins),
{
    lemma_reg_round_trip(ins.res);
    lemma_reg_round_trip(ins.left);
    lemma_reg_round_trip(ins.right);
    let b = spec_ser_instr(ins);
    assert(b[0] == spec_opcode(ins.op));
    assert(spec_opcode_inv(spec_opcode(ins.op)) == Option::Some(ins.op));
    assert(b.subrange(1, 19) =~= spec_ser_reg(ins.res));
    assert(b.subrange(19, 37) =~= spec_ser_reg(ins.left));
    assert(b.subrange(37, 55) =~= spec_ser_reg(ins.right));
}

/// Deserializing a serialized program yields the program back: the
/// round-trip law for the bytecode wire format.
pub proof fn lemma_bin_round_trip(s: Seq<Instr>)
    requires
        bin_ser_ok(s),
    ensures
        spec_deser_bin(spec_ser_bin(s)) == Option::Some(s),
    decreases s.len(),
{
    if s.len() == 0 {
    } else {
        lemma_instr_round_trip(s[0]);
        assert(bin_ser_ok(s.drop_first()));
        lemma_bin_round_trip(s.drop_first());
        lemma_ser_bin_len(s.drop_first());
        let b = spec_ser_bin(s);
        assert(b.subrange(0, 55) =~= spec_ser_instr(s[0]));
        assert(b.skip(55) =~= spec_ser_bin(s.drop_first()));
        assert(seq![s[0]] + s.drop_first() =~= s);
    }
}

/// A serialized program's length is a whole number of instructions.
pub proof fn lemma_ser_bin_len(s: Seq<Instr>)
    requires
        bin_ser_ok(s),
    ensures
        spec_ser_bin(s).len() == 55 * s.len(),
    decreases s.len(),
{
    if s.len() > 0 {
        lemma_instr_round_trip(s[0]);
        assert(bin_ser_ok(s.drop_first()));
        lemma_ser_bin_len(s.drop_first());
    }
}

/// Serializing one more instruction appends its bytes.
proof fn lemma_ser_bin_snoc(s: Seq<Instr>, j: int)
    requires
        0 <= j < s.len(),
    ensures
        spec_ser_bin(s.subrange(0, j + 1)) == spec_ser_bin(s.subrange(0, j)) + spec_ser_instr(
            s[j],
        ),
    decreases j,
{
    if j == 0 {
        assert(s.subrange(0, 1).drop_first() =~= s.subrange(0, 0));
        assert(s.subrange(0, 0).len() == 0);
        assert(s.subrange(0, 1)[0] == s[0]);
        assert(spec_ser_bin(s.subrange(0, 1)) =~= spec_ser_bin(s.subrange(0, 0)) + spec_ser_instr(
            s[0],
        ));
    } else {
        lemma_ser_bin_snoc(s.drop_first(), j - 1);
        assert(s.subrange(0, j + 1)[0] == s[0]);
        assert(s.subrange(0, j + 1).drop_first() =~= s.drop_first().subrange(0, j));
        assert(s.subrange(0, j)[0] == s[0]);
        assert(s.subrange(0, j).drop_first() =~= s.drop_first().subrange(0, j - 1));
        assert(s.drop_first()[j - 1] == s[j]);
        assert(spec_ser_bin(s.subrange(0, j + 1)) == spec_ser_instr(s[0]) + spec_ser_bin(
            s.drop_first().subrange(0, j),
        ));
        assert(spec_ser_bin(s.drop_first().subrange(0, j)) == spec_ser_bin(
            s.drop_first().subrange(0, j - 1),
        ) + spec_ser_instr(s[j]));
        assert(spec_ser_bin(s.subrange(0, j)) == spec_ser_instr(s[0]) + spec_ser_bin(
            s.drop_first().subrange(0, j - 1),
        ));
        assert(spec_ser_instr(s[0]) + (spec_ser_bin(s.drop_first().subrange(0, j - 1))
            + spec_ser_instr(s[j])) =~= (spec_ser_instr(s[0]) + spec_ser_bin(
            s.drop_first().subrange(0, j - 1),
        )) + spec_ser_instr(s[j]));
    }
}

/// Append a 64-bit value in little-endian order.
fn push_u64(out: &mut Vec<u8>, x: u64)
    ensures
        final(out)@ == old(out)@ + spec_u64_to_le_bytes(x),
{
    let mut b = u64_to_le_bytes(x);
    out.append(&mut b);
}

/// Append a 32-bit value in little-endian order.
fn push_u32(out: &mut Vec<u8>, x: u32)
    ensures
        final(out)@ == old(out)@ + spec_u32_to_le_bytes(x),
{
    let mut b = u32_to_le_bytes(x);
    out.append(&mut b);
}

/// Read a 64-bit little-endian value at `pos`.
fn read_u64_at(buf: &[u8], pos: usize) -> (x: u64)
    requires
        pos + 8 <= buf@.len(),
    ensures
        x == spec_u64_from_le_bytes(buf@.subrange(pos as int, pos as int + 8)),
{
    let n: usize = buf.len();
    proof {
        assert(pos + 8 <= n);
    }
    let s = slice_subrange(buf, pos, pos + 8);
    u64_from_le_bytes(s)
}

/// Read a 32-bit little-endian value at `pos`.
fn read_u32_at(buf: &[u8], pos: usize) -> (x: u32)
    requires
        pos + 4 <= buf@.len(),
    ensures
        x == spec_u32_from_le_bytes(buf@.subrange(pos as int, pos as int + 4)),
{
    let n: usize = buf.len();
    proof {
        assert(pos + 4 <= n);
    }
    let s = slice_subrange(buf, pos, pos + 4);
    u32_from_le_bytes(s)
}

/// Whether an instruction is encodable.
fn instr_ok(ins: &Instr) -> (b: bool)
    ensures
        b == instr_ser_ok(*ins),
{
    reg_ok(&ins.res) && reg_ok(&ins.left) && reg_ok(&ins.right)
}

/// Whether a register is encodable.
fn reg_ok(r: &Reg) -> (b: bool)
    ensures
        b == reg_ser_ok(*r),
{
    match r {
        Reg::Const(_, t) => type_ok(t),
        Reg::Tmp(_, t) => type_ok(t),
        Reg::Perm(_, t) => type_ok(t),
        _ => true,
    }
}

/// Whether a type tag is encodable.
fn type_ok(t: &Type) -> (b: bool)
    ensures
        b == type_ser_ok(*t),
{
    match t {
        Type::Name(_) => false,
        _ => true,
    }
}

/// Append a type tag's encoding.
fn push_type(t: &Type, out: &mut Vec<u8>)
    requires
        type_ser_ok(*t),
    ensures
        final(out)@ == old(out)@ + spec_ser_type(*t),
{
    match t {
        Type::Bool(o) => match o {
            Some(b) => {
                out.push(1);
                push_u64(out, if *b { 1 } else { 0 });
            },
            None => {
                out.push(0);
                push_u64(out, 0);
            },
        },
        Type::Num(o) => match o {
            Some(v) => {
                out.push(3);
                push_u64(out, *v);
            },
            None => {
                out.push(2);
                push_u64(out, 0);
            },
        },
        Type::Void => {
            out.push(4);
            push_u64(out, 0);
        },
        Type::Name(_) => {
            proof {
                assert(false);
            }
        },
    }
    proof {
        assert(out@ =~= old(out)@ + spec_ser_type(*t));
    }
}

/// Append a register's encoding.
fn push_reg(r: &Reg, out: &mut Vec<u8>)
    requires
        reg_ser_ok(*r),
    ensures
        final(out)@ == old(out)@ + spec_ser_reg(*r),
{
    match r {
        Reg::ImmNum(n) => {
            out.push(0);
            push_u64(out, *n);
            out.push(2);
            push_u64(out, 0);
        },
        Reg::ImmBool(b) => {
            out.push(1);
            push_u64(out, if *b { 1 } else { 0 });
            out.push(0);
            push_u64(out, 0);
        },
        Reg::Const(i, t) => {
            out.push(2);
            push_u64(out, *i as u64);
            push_type(t, out);
        },
        Reg::Tmp(i, t) => {
            out.push(3);
            push_u64(out, *i as u64);
            push_type(t, out);
        },
        Reg::Perm(i, t) => {
            out.push(4);
            push_u64(out, *i as u64);
            push_type(t, out);
        },
        Reg::Void => {
            out.push(5);
            push_u64(out, 0);
            out.push(4);
            push_u64(out, 0);
        },
    }
    proof {
        assert(out@ =~= old(out)@ + spec_ser_reg(*r));
    }
}

/// The opcode byte of an operator.
fn opcode(o: Op) -> (b: u8)
    ensures
        b == spec_opcode(o),
{
    match o {
        Op::Add => 0,
        Op::Bind => 1,
        Op::Def => 2,
        Op::Div => 3,
        Op::Equiv => 4,
        Op::Ewma => 5,
        Op::Gt => 6,
        Op::If => 7,
        Op::Let => 8,
        Op::Lt => 9,
        Op::Max => 10,
        Op::MaxWrap => 11,
        Op::Min => 12,
        Op::Mul => 13,
        Op::NotIf => 14,
        Op::Sub => 15,
    }
}

/// The operator an opcode byte denotes, if any.
fn opcode_inv(b: u8) -> (r: Option<Op>)
    ensures
        r == spec_opcode_inv(b),
{
    if b == 0 {
        Some(Op::Add)
    } else if b == 1 {
        Some(Op::Bind)
    } else if b == 2 {
        Some(Op::Def)
    } else if b == 3 {
        Some(Op::Div)
    } else if b == 4 {
        Some(Op::Equiv)
    } else if b == 5 {
        Some(Op::Ewma)
    } else if b == 6 {
        Some(Op::Gt)
    } else if b == 7 {
        Some(Op::If)
    } else if b == 8 {
        Some(Op::Let)
    } else if b == 9 {
        Some(Op::Lt)
    } else if b == 10 {
        Some(Op::Max)
    } else if b == 11 {
        Some(Op::MaxWrap)
    } else if b == 12 {
        Some(Op::Min)
    } else if b == 13 {
        Some(Op::Mul)
    } else if b == 14 {
        Some(Op::NotIf)
    } else if b == 15 {
        Some(Op::Sub)
    } else {
        None
    }
}

/// Append an instruction's encoding.
fn push_instr(ins: &Instr, out: &mut Vec<u8>)
    requires
        instr_ser_ok(*ins),
    ensures
        final(out)@ == old(out)@ + spec_ser_instr(*ins),
{
    out.push(opcode(ins.op));
    push_reg(&ins.res, out);
    push_reg(&ins.left, out);
    push_reg(&ins.right, out);
    proof {
        assert(out@ =~= old(out)@ + spec_ser_instr(*ins));
    }
}

impl Bin {
    /// Encode the program for the datapath: each instruction's fixed-size
    /// encoding, in order. Fails only on a program still carrying a
    /// transient name register, which lowering never emits.
    pub fn serialize(&self) -> (r: Result<Vec<u8>, Error>)
        ensures
            match r {
                Result::Ok(v) => bin_ser_ok(self.0@) && v@ == spec_ser_bin(self.0@),
                Result::Err(_) => !bin_ser_ok(self.0@),
            },
    {
        let n = self.0.len();
        let mut out: Vec<u8> = Vec::new();
        let mut k: usize = 0;
        while k < n
            invariant
                n == self.0@.len(),
                k <= n,
                bin_ser_ok(self.0@.subrange(0, k as int)),
                out@ == spec_ser_bin(self.0@.subrange(0, k as int)),
            decreases n - k,
        {
            let ins = &self.0[k];
            if !instr_ok(ins) {
                return Result::Err(Error::new("cannot serialize a name register"));
            }
            push_instr(ins, &mut out);
            proof {
                lemma_ser_bin_snoc(self.0@, k as int);
                assert(forall|q: int|
                    0 <= q < k + 1 ==> instr_ser_ok(#[trigger] self.0@.subrange(0, k + 1)[q]));
            }
            k += 1;
        }
        proof {
            assert(self.0@.subrange(0, n as int) =~= self.0@);
        }
        Result::Ok(out)
    }

    /// Decode a program from bytes: the exact inverse of `serialize` on
    /// its output; an error on a short or malformed frame.
    pub fn deserialize(buf: &[u8]) -> (r: Result<Bin, Error>)
        ensures
            match r {
                Result::Ok(b) => spec_deser_bin(buf@) == Option::Some(b.0@),
                Result::Err(_) => spec_deser_bin(buf@) is None,
            },
    {
        let n = buf.len();
        let mut out: Vec<Instr> = Vec::new();
        let mut pos: usize = 0;
        proof {
            assert(buf@.skip(0) =~= buf@);
            match spec_deser_bin(buf@) {
                Option::Some(rest) => {
                    assert(out@ + rest =~= rest);
                },
                Option::None => {},
            }
        }
        loop
            invariant
                n == buf@.len(),
                pos <= n,
                spec_deser_bin(buf@.skip(pos as int)) matches Option::Some(rest) ==> spec_deser_bin(
                    buf@,
                ) == Option::Some(out@ + rest),
                spec_deser_bin(buf@.skip(pos as int)) is None ==> spec_deser_bin(buf@) is None,
            decreases n - pos,
        {
            if pos >= n {
                proof {
                    assert(buf@.skip(pos as int).len() == 0);
                    assert(out@ + Seq::<Instr>::empty() =~= out@);
                }
                return Result::Ok(Bin(out));
            }
            if n - pos < 55 {
                return Result::Err(Error::new("truncated instruction"));
            }
            let ghost rem = buf@.skip(pos as int);
            proof {
                assert(rem.subrange(0, 55) =~= buf@.subrange(pos as int, pos as int + 55));
                assert(rem.skip(55) =~= buf@.skip(pos as int + 55));
            }
            let ins = match deser_instr_at(buf, pos) {
                Result::Ok(i) => i,
                Result::Err(e) => {
                    return Result::Err(e);
                },
            };
            let ghost out0 = out@;
            out.push(ins);
            proof {
                match spec_deser_bin(buf@.skip(pos as int + 55)) {
                    Option::Some(rest2) => {
                        assert(spec_deser_bin(rem) == Option::Some(seq![ins] + rest2));
                        assert(out0 + (seq![ins] + rest2) =~= out@ + rest2);
                    },
                    Option::None => {},
                }
            }
            pos += 55;
        }
    }
}

/// Decode the 55-byte instruction at `pos`.
fn deser_instr_at(buf: &[u8], pos: usize) -> (r: Result<Instr, Error>)
    requires
        pos + 55 <= buf@.len(),
    ensures
        match r {
            Result::Ok(i) => spec_deser_instr(buf@.subrange(pos as int, pos as int + 55))
                == Option::Some(i),
            Result::Err(_) => spec_deser_instr(buf@.subrange(pos as int, pos as int + 55)) is None,
        },
{
    let ghost b = buf@.subrange(pos as int, pos as int + 55);
    proof {
        assert(b[0] == buf@[pos as int]);
        assert(b.subrange(1, 19) =~= buf@.subrange(pos as int + 1, pos as int + 19));
        assert(b.subrange(19, 37) =~= buf@.subrange(pos as int + 19, pos as int + 37));
        assert(b.subrange(37, 55) =~= buf@.subrange(pos as int + 37, pos as int + 55));
    }
    let op = match opcode_inv(buf[pos]) {
        Some(o) => o,
        _ => {
            return Result::Err(Error::new("unknown opcode"));
        },
    };
    let res = deser_reg_at(buf, pos + 1)?;
    let left = deser_reg_at(buf, pos + 19)?;
    let right = deser_reg_at(buf, pos + 37)?;
    Result::Ok(Instr { res, op, left, right })
}

/// Decode the 18-byte register at `pos`.
fn deser_reg_at(buf: &[u8], pos: usize) -> (r: Result<Reg, Error>)
    requires
        pos + 18 <= buf@.len(),
    ensures
        match r {
            Result::Ok(reg) => spec_deser_reg(buf@.subrange(pos as int, pos as int + 18))
                == Option::Some(reg),
            Result::Err(_) => spec_deser_reg(buf@.subrange(pos as int, pos as int + 18)) is None,
        },
{
    let ghost b = buf@.subrange(pos as int, pos as int + 18);
    proof {
        assert(b[0] == buf@[pos as int]);
        assert(b[9] == buf@[pos as int + 9]);
        assert(b.subrange(1, 9) =~= buf@.subrange(pos as int + 1, pos as int + 9));
        assert(b.subrange(10, 18) =~= buf@.subrange(pos as int + 10, pos as int + 18));
    }
    let class = buf[pos];
    let val = read_u64_at(buf, pos + 1);
    let tag = buf[pos + 9];
    let tv = read_u64_at(buf, pos + 10);
    if class == 0 {
        Result::Ok(Reg::ImmNum(val))
    } else if class == 1 {
        if val == 0 {
            Result::Ok(Reg::ImmBool(false))
        } else if val == 1 {
            Result::Ok(Reg::ImmBool(true))
        } else {
            Result::Err(Error::new("bad boolean immediate"))
        }
    } else if class == 2 || class == 3 || class == 4 {
        if val > 255 {
            return Result::Err(Error::new("register index out of range"));
        }
        let t = match deser_type(tag, tv) {
            Some(t) => t,
            _ => {
                return Result::Err(Error::new("bad type tag"));
            },
        };
        if class == 2 {
            Result::Ok(Reg::Const(val as u8, t))
        } else if class == 3 {
            Result::Ok(Reg::Tmp(val as u8, t))
        } else {
            Result::Ok(Reg::Perm(val as u8, t))
        }
    } else if class == 5 {
        Result::Ok(Reg::Void)
    } else {
        Result::Err(Error::new("bad register class"))
    }
}

/// Decode a type tag and payload.
fn deser_type(tag: u8, v: u64) -> (r: Option<Type>)
    ensures
        r == spec_deser_type(tag, v),
{
    if tag == 0 {
        Some(Type::Bool(None))
    } else if tag == 1 {
        if v == 0 {
            Some(Type::Bool(Some(false)))
        } else if v == 1 {
            Some(Type::Bool(Some(true)))
        } else {
            None
        }
    } else if tag == 2 {
        Some(Type::Num(None))
    } else if tag == 3 {
        Some(Type::Num(Some(v)))
    } else if tag == 4 {
        Some(Type::Void)
    } else {
        None
    }
}

/// The kind byte of a `Create` message.
pub const CREATE: u8 = 0;

/// Bytes of a frame header: a kind byte, a 32-bit length counting the
/// whole frame, and a 32-bit stream id, integers little-endian.
pub const HDR_LENGTH: u32 = 9;

/// The `Create` control message: the datapath announces a new flow.
/// `cong_alg` is the requested congestion algorithm, as raw UTF-8 in the
/// frame's trailing bytes.
#[derive(Debug)]
pub struct Msg {
    pub sid: u32,
    pub init_cwnd: u32,
    pub mss: u32,
    pub src_ip: u32,
    pub src_port: u32,
    pub dst_ip: u32,
    pub dst_port: u32,
    pub cong_alg: String,
}

impl PartialEq for Msg {
    fn eq(&self, o: &Msg) -> (r: bool) {
        self.sid == o.sid && self.init_cwnd == o.init_cwnd && self.mss == o.mss && self.src_ip
            == o.src_ip && self.src_port == o.src_port && self.dst_ip == o.dst_ip && self.dst_port
            == o.dst_port && self.cong_alg == o.cong_alg
    }
}

impl vstd::std_specs::cmp::PartialEqSpecImpl for Msg {
    open spec fn obeys_eq_spec() -> bool {
        true
    }

    open spec fn eq_spec(&self, o: &Msg) -> bool {
        self.sid == o.sid && self.init_cwnd == o.init_cwnd && self.mss == o.mss && self.src_ip
            == o.src_ip && self.src_port == o.src_port && self.dst_ip == o.dst_ip && self.dst_port
            == o.dst_port && self.cong_alg@ == o.cong_alg@
    }
}

/// A frame split into its header fields and its payload: what follows the
/// nine header bytes.
#[derive(Debug)]
pub struct RawMsg {
    pub typ: u8,
    pub len: u32,
    pub sid: u32,
    pub payload: Vec<u8>,
}

/// The full frame of a `Create` message over its header fields and the
/// raw bytes of its algorithm name.
pub open spec fn spec_create_frame(
    sid: u32,
    init_cwnd: u32,
    mss: u32,
    src_ip: u32,
    src_port: u32,
    dst_ip: u32,
    dst_port: u32,
    alg: Seq<u8>,
) -> Seq<u8> {
    seq![0u8] + spec_u32_to_le_bytes((33 + alg.len()) as u32) + spec_u32_to_le_bytes(sid)
        + spec_u32_to_le_bytes(init_cwnd) + spec_u32_to_le_bytes(mss) + spec_u32_to_le_bytes(src_ip)
        + spec_u32_to_le_bytes(src_port) + spec_u32_to_le_bytes(dst_ip) + spec_u32_to_le_bytes(
        dst_port,
    ) + alg
}

/// The fields a `Create` frame decodes to, if it is well-formed: the kind
/// byte must be `CREATE` and the length field must count the whole frame.
pub open spec fn spec_deser_create(b: Seq<u8>) -> Option<
    (u32, u32, u32, u32, u32, u32, u32, Seq<u8>),
> {
    if b.len() < 33 {
        Option::None
    } else if b[0] != 0 {
        Option::None
    } else if spec_u32_from_le_bytes(b.subrange(1, 5)) as int != b.len() as int {
        Option::None
    } else {
        Option::Some(
            (
                spec_u32_from_le_bytes(b.subrange(5, 9)),
                spec_u32_from_le_bytes(b.subrange(9, 13)),
                spec_u32_from_le_bytes(b.subrange(13, 17)),
                spec_u32_from_le_bytes(b.subrange(17, 21)),
                spec_u32_from_le_bytes(b.subrange(21, 25)),
                spec_u32_from_le_bytes(b.subrange(25, 29)),
                spec_u32_from_le_bytes(b.subrange(29, 33)),
                b.skip(33),
            ),
        )
    }
}

/// Deserializing a serialized `Create` frame yields the fields back: the
/// round-trip law for control messages.
pub proof fn lemma_create_round_trip(
    sid: u32,
    init_cwnd: u32,
    mss: u32,
    src_ip: u32,
    src_port: u32,
    dst_ip: u32,
    dst_port: u32,
    alg: Seq<u8>,
)
    requires
        alg.len() + 33 <= u32::MAX,
    ensures
        spec_deser_create(
            spec_create_frame(sid, init_cwnd, mss, src_ip, src_port, dst_ip, dst_port, alg),
        ) == Option::Some((sid, init_cwnd, mss, src_ip, src_port, dst_ip, dst_port, alg)),
{
    lemma_auto_spec_u32_to_from_le_bytes();
    let b = spec_create_frame(sid, init_cwnd, mss, src_ip, src_port, dst_ip, dst_port, alg);
    assert(b.len() == 33 + alg.len());
    assert(b[0] == 0);
    assert(b.subrange(1, 5) =~= spec_u32_to_le_bytes((33 + alg.len()) as u32));
    assert(b.subrange(5, 9) =~= spec_u32_to_le_bytes(sid));
    assert(b.subrange(9, 13) =~= spec_u32_to_le_bytes(init_cwnd));
    assert(b.subrange(13, 17) =~= spec_u32_to_le_bytes(mss));
    assert(b.subrange(17, 21) =~= spec_u32_to_le_bytes(src_ip));
    assert(b.subrange(21, 25) =~= spec_u32_to_le_bytes(src_port));
    assert(b.subrange(25, 29) =~= spec_u32_to_le_bytes(dst_ip));
    assert(b.subrange(29, 33) =~= spec_u32_to_le_bytes(dst_port));
    assert(b.skip(33) =~= alg);
}

impl Msg {
    /// This message's frame header: the `Create` kind, the full frame
    /// length, and the stream id.
    pub fn get_hdr(&self) -> (h: (u8, u32, u32))
        requires
            vstd::utf8::encode_utf8(self.cong_alg@).len() + 33 <= u32::MAX,
        ensures
            h.0 == CREATE,
            h.1 == 33 + vstd::utf8::encode_utf8(self.cong_alg@).len(),
            h.2 == self.sid,
    {
        let alg_len = self.cong_alg.as_str().len();
        (CREATE, HDR_LENGTH + 6 * 4 + alg_len as u32, self.sid)
    }

    /// Append the six fixed 32-bit fields, little-endian.
    pub fn get_u32s(&self, w: &mut Vec<u8>)
        ensures
            final(w)@ == old(w)@ + spec_u32_to_le_bytes(self.init_cwnd) + spec_u32_to_le_bytes(
                self.mss,
            ) + spec_u32_to_le_bytes(self.src_ip) + spec_u32_to_le_bytes(self.src_port)
                + spec_u32_to_le_bytes(self.dst_ip) + spec_u32_to_le_bytes(self.dst_port),
    {
        push_u32(w, self.init_cwnd);
        push_u32(w, self.mss);
        push_u32(w, self.src_ip);
        push_u32(w, self.src_port);
        push_u32(w, self.dst_ip);
        push_u32(w, self.dst_port);
    }

    /// Append the trailing byte payload: the algorithm name's UTF-8 bytes.
    pub fn get_bytes(&self, w: &mut Vec<u8>)
        ensures
            final(w)@ == old(w)@ + vstd::utf8::encode_utf8(self.cong_alg@),
    {
        let mut b = self.cong_alg.as_str().as_bytes_vec();
        w.append(&mut b);
    }

    /// Encode the whole frame: header, the six 32-bit fields, then the
    /// algorithm name. Fails only when the name would overflow the 32-bit
    /// length field.
    pub fn serialize(&self) -> (r: Result<Vec<u8>, Error>)
        ensures
            match r {
                Result::Ok(v) => vstd::utf8::encode_utf8(self.cong_alg@).len() + 33 <= u32::MAX
                    && v@ == spec_create_frame(
                    self.sid,
                    self.init_cwnd,
                    self.mss,
                    self.src_ip,
                    self.src_port,
                    self.dst_ip,
                    self.dst_port,
                    vstd::utf8::encode_utf8(self.cong_alg@),
                ),
                Result::Err(_) => vstd::utf8::encode_utf8(self.cong_alg@).len() + 33 > u32::MAX,
            },
    {
        let alg_bytes = self.cong_alg.as_str().as_bytes_vec();
        let alg_len = alg_bytes.len();
        if alg_len > (u32::MAX - 33) as usize {
            return Result::Err(Error::new("algorithm name too long"));
        }
        let hdr = self.get_hdr();
        let mut out: Vec<u8> = Vec::new();
        out.push(hdr.0);
        push_u32(&mut out, hdr.1);
        push_u32(&mut out, hdr.2);
        self.get_u32s(&mut out);
        self.get_bytes(&mut out);
        proof {
            assert(out@ =~= spec_create_frame(
                self.sid,
                self.init_cwnd,
                self.mss,
                self.src_ip,
                self.src_port,
                self.dst_ip,
                self.dst_port,
                vstd::utf8::encode_utf8(self.cong_alg@),
            ));
        }
        Result::Ok(out)
    }

    /// Rebuild a message from a split frame: six 32-bit fields, then the
    /// algorithm name, which must be valid UTF-8.
    pub fn from_raw_msg(msg: RawMsg) -> (r: Result<Msg, Error>)
        ensures
            match r {
                Result::Ok(m) => {
                    &&& msg.payload@.len() >= 24
                    &&& m.sid == msg.sid
                    &&& m.init_cwnd == spec_u32_from_le_bytes(msg.payload@.subrange(0, 4))
                    &&& m.mss == spec_u32_from_le_bytes(msg.payload@.subrange(4, 8))
                    &&& m.src_ip == spec_u32_from_le_bytes(msg.payload@.subrange(8, 12))
                    &&& m.src_port == spec_u32_from_le_bytes(msg.payload@.subrange(12, 16))
                    &&& m.dst_ip == spec_u32_from_le_bytes(msg.payload@.subrange(16, 20))
                    &&& m.dst_port == spec_u32_from_le_bytes(msg.payload@.subrange(20, 24))
                    &&& vstd::utf8::valid_utf8(msg.payload@.skip(24))
                    &&& vstd::utf8::encode_utf8(m.cong_alg@) == msg.payload@.skip(24)
                },
                Result::Err(_) => msg.payload@.len() < 24 || !vstd::utf8::valid_utf8(
                    msg.payload@.skip(24),
                ),
            },
    {
        let n = msg.payload.len();
        if n < 24 {
            return Result::Err(Error::new("create message too short"));
        }
        let p = msg.payload.as_slice();
        let init_cwnd = read_u32_at(p, 0);
        let mss = read_u32_at(p, 4);
        let src_ip = read_u32_at(p, 8);
        let src_port = read_u32_at(p, 12);
        let dst_ip = read_u32_at(p, 16);
        let dst_port = read_u32_at(p, 20);
        let tail = slice_subrange(p, 24, n);
        proof {
            assert(tail@ =~= msg.payload@.skip(24));
        }
        match crate::lang::bytes_to_string(tail) {
            Some(cong_alg) => Result::Ok(
                Msg {
                    sid: msg.sid,
                    init_cwnd,
                    mss,
                    src_ip,
                    src_port,
                    dst_ip,
                    dst_port,
                    cong_alg,
                },
            ),
            _ => Result::Err(Error::new("algorithm name is not valid UTF-8")),
        }
    }

    /// Decode a whole `Create` frame: the inverse of `serialize` on its
    /// output; an error on a short frame, a wrong kind byte, a length
    /// field that does not count the frame, or a non-UTF-8 name.
    pub fn deserialize(buf: &[u8]) -> (r: Result<Msg, Error>)
        ensures
            match r {
                Result::Ok(m) => spec_deser_create(buf@) == Option::Some(
                    (
                        m.sid,
                        m.init_cwnd,
                        m.mss,
                        m.src_ip,
                        m.src_port,
                        m.dst_ip,
                        m.dst_port,
                        vstd::utf8::encode_utf8(m.cong_alg@),
                    ),
                ),
                Result::Err(_) => spec_deser_create(buf@) is None || !vstd::utf8::valid_utf8(
                    buf@.skip(33),
                ),
            },
    {
        let n = buf.len();
        if n < 33 {
            return Result::Err(Error::new("frame too short"));
        }
        if buf[0] != CREATE {
            return Result::Err(Error::new("not a create message"));
        }
        let len = read_u32_at(buf, 1);
        if !(len as usize == n) {
            return Result::Err(Error::new("frame length mismatch"));
        }
        let sid = read_u32_at(buf, 5);
        let payload = vstd::slice::slice_to_vec(slice_subrange(buf, 9, n));
        let raw = RawMsg { typ: CREATE, len, sid, payload };
        proof {
            assert(raw.payload@.subrange(0, 4) =~= buf@.subrange(9, 13));
            assert(raw.payload@.subrange(4, 8) =~= buf@.subrange(13, 17));
            assert(raw.payload@.subrange(8, 12) =~= buf@.subrange(17, 21));
            assert(raw.payload@.subrange(12, 16) =~= buf@.subrange(21, 25));
            assert(raw.payload@.subrange(16, 20) =~= buf@.subrange(25, 29));
            assert(raw.payload@.subrange(20, 24) =~= buf@.subrange(29, 33));
            assert(raw.payload@.skip(24) =~= buf@.skip(33));
        }
        Msg::from_raw_msg(raw)
    }
}

} // verus!
