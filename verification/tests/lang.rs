use portus::ast::{Op, Prog};
use portus::datapath::{Bin, Instr, Reg, Type};

#[test]
fn prog() {
    let foo = b"
        (def (foo 0))
        (bind Flow.foo 4)
        ";

    let (p, mut sc) = Prog::new_with_scope(foo).unwrap();
    let b = Bin::compile_prog(&p, &mut sc).unwrap();

    assert_eq!(
        b,
        Bin(vec![
            Instr {
                res: Reg::Perm(1, Type::Num(Some(0))),
                op: Op::Def,
                left: Reg::Perm(1, Type::Num(Some(0))),
                right: Reg::ImmNum(0),
            },
            Instr {
                res: Reg::Perm(1, Type::Num(Some(0))),
                op: Op::Bind,
                left: Reg::Perm(1, Type::Num(Some(0))),
                right: Reg::ImmNum(4),
            },
        ])
    );
}

#[test]
fn prog1() {
    let foo = b"
        (def (foo 0))
        (bind Flow.foo (+ 2 3))
        ";

    let (p, mut sc) = Prog::new_with_scope(foo).unwrap();
    let b = Bin::compile_prog(&p, &mut sc).unwrap();

    assert_eq!(
        b,
        Bin(vec![
            Instr {
                res: Reg::Perm(1, Type::Num(Some(0))),
                op: Op::Def,
                left: Reg::Perm(1, Type::Num(Some(0))),
                right: Reg::ImmNum(0),
            },
            Instr {
                res: Reg::Tmp(0, Type::Num(None)),
                op: Op::Add,
                left: Reg::ImmNum(2),
                right: Reg::ImmNum(3),
            },
            Instr {
                res: Reg::Perm(1, Type::Num(Some(0))),
                op: Op::Bind,
                left: Reg::Perm(1, Type::Num(Some(0))),
                right: Reg::Tmp(0, Type::Num(None)),
            },
        ])
    );
}

#[test]
fn prog2() {
    let foo = b"
        (def (foo 0))
        (bind Flow.foo (ewma 2 SndRate))
        ";

    let (p, mut sc) = Prog::new_with_scope(foo).unwrap();
    let b = Bin::compile_prog(&p, &mut sc).unwrap();

    assert_eq!(
        b,
        Bin(vec![
            Instr {
                res: Reg::Perm(1, Type::Num(Some(0))),
                op: Op::Def,
                left: Reg::Perm(1, Type::Num(Some(0))),
                right: Reg::ImmNum(0),
            },
            Instr {
                res: Reg::Perm(1, Type::Num(Some(0))),
                op: Op::Ewma,
                left: Reg::ImmNum(2),
                right: Reg::Const(7, Type::Num(None)),
            },
        ])
    );
}

#[test]
fn prog3() {
    let foo = b"
        (def (foo 100000000))
        (bind Flow.foo (if (< Rtt Flow.foo) Rtt))
        ";

    let (p, mut sc) = Prog::new_with_scope(foo).unwrap();
    let b = Bin::compile_prog(&p, &mut sc).unwrap();

    assert_eq!(
        b,
        Bin(vec![
            Instr {
                res: Reg::Perm(1, Type::Num(Some(100000000))),
                op: Op::Def,
                left: Reg::Perm(1, Type::Num(Some(100000000))),
                right: Reg::ImmNum(100000000),
            },
            Instr {
                res: Reg::Tmp(0, Type::Bool(None)),
                op: Op::Lt,
                left: Reg::Const(5, Type::Num(None)),
                right: Reg::Perm(1, Type::Num(Some(100000000))),
            },
            Instr {
                res: Reg::Perm(1, Type::Num(Some(100000000))),
                op: Op::If,
                left: Reg::Tmp(0, Type::Bool(None)),
                right: Reg::Const(5, Type::Num(None)),
            },
        ])
    );
}

#[test]
fn prog_reset_tmps() {
    let foo = b"
        (def (foo 0) (bar 0))
        (bind Flow.foo (+ (+ 1 2) 3))
        (bind Flow.bar (+ (+ 4 5) 6))
        ";

    let (p, mut sc) = Prog::new_with_scope(foo).unwrap();
    let b = Bin::compile_prog(&p, &mut sc).unwrap();

    assert_eq!(
        b,
        Bin(vec![
            Instr {
                res: Reg::Perm(1, Type::Num(Some(0))),
                op: Op::Def,
                left: Reg::Perm(1, Type::Num(Some(0))),
                right: Reg::ImmNum(0),
            },
            Instr {
                res: Reg::Perm(2, Type::Num(Some(0))),
                op: Op::Def,
                left: Reg::Perm(2, Type::Num(Some(0))),
                right: Reg::ImmNum(0),
            },
            Instr {
                res: Reg::Tmp(0, Type::Num(None)),
                op: Op::Add,
                left: Reg::ImmNum(1),
                right: Reg::ImmNum(2),
            },
            Instr {
                res: Reg::Tmp(1, Type::Num(None)),
                op: Op::Add,
                left: Reg::Tmp(0, Type::Num(None)),
                right: Reg::ImmNum(3),
            },
            Instr {
                res: Reg::Perm(1, Type::Num(Some(0))),
                op: Op::Bind,
                left: Reg::Perm(1, Type::Num(Some(0))),
                right: Reg::Tmp(1, Type::Num(None)),
            },
            Instr {
                res: Reg::Tmp(0, Type::Num(None)),
                op: Op::Add,
                left: Reg::ImmNum(4),
                right: Reg::ImmNum(5),
            },
            Instr {
                res: Reg::Tmp(1, Type::Num(None)),
                op: Op::Add,
                left: Reg::Tmp(0, Type::Num(None)),
                right: Reg::ImmNum(6),
            },
            Instr {
                res: Reg::Perm(2, Type::Num(Some(0))),
                op: Op::Bind,
                left: Reg::Perm(2, Type::Num(Some(0))),
                right: Reg::Tmp(1, Type::Num(None)),
            },
        ])
    );
}
