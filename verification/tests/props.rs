use portus::ast::Op;
use portus::datapath::Reg;
use portus::lang::compile;

fn is_tmp(r: &Reg) -> Option<u8> {
    match r {
        Reg::Tmp(i, _) => Some(*i),
        _ => None,
    }
}

fn is_perm(r: &Reg) -> Option<u8> {
    match r {
        Reg::Perm(i, _) => Some(*i),
        _ => None,
    }
}

/// Compiling the same source bytes twice yields identical programs.
#[test]
fn deterministic_compilation() {
    let src = b"
        (def (foo 0) (bar 10))
        (bind Flow.foo (+ (max 1 2) Rtt))
        (bind Flow.bar (ewma 3 SndRate))
        ";
    let (b1, sc1) = compile(src).unwrap();
    let (b2, sc2) = compile(src).unwrap();
    assert_eq!(b1, b2);
    // the scopes also agree: same names bound to the same registers
    for name in ["Flow.foo", "Flow.bar", "Rtt", "isUrgent", "Flow.baz"] {
        assert_eq!(sc1.get(&String::from(name)), sc2.get(&String::from(name)));
    }
}

/// No emitted program carries the placeholder as a result register.
#[test]
fn no_placeholder_results() {
    let src = b"
        (def (foo 0))
        (bind Flow.foo (if (< Rtt 100) Rtt))
        (bind isUrgent (!if isUrgent (> Rtt 50)))
        ";
    let (b, _) = compile(src).unwrap();
    for ins in &b.0 {
        assert!(!matches!(ins.res, Reg::Void));
    }
}

/// Every permanent register a non-Def instruction mentions is either the
/// implicit slot 0 or defined by an earlier Def.
#[test]
fn defs_come_first() {
    let src = b"
        (def (foo 0) (bar 1))
        (bind Flow.bar (+ Flow.foo Flow.bar))
        (bind Flow.foo (ewma 2 SndRate))
        ";
    let (b, _) = compile(src).unwrap();
    for (k, ins) in b.0.iter().enumerate() {
        if matches!(ins.op, Op::Def) {
            continue;
        }
        for r in [&ins.res, &ins.left, &ins.right] {
            if let Some(i) = is_perm(r) {
                if i == 0 {
                    continue;
                }
                let defined = b.0[..k].iter().any(|d| {
                    matches!(d.op, Op::Def) && is_perm(&d.res) == Some(i)
                });
                assert!(defined, "Perm({}) used before its Def", i);
            }
        }
    }
}

/// Within each top-level expression the temporary indices start from zero
/// again: the highest Tmp index used is below the number of allocations
/// that expression alone performed.
#[test]
fn tmp_indices_reset() {
    let src = b"
        (def (a 0) (b 0))
        (bind Flow.a (+ (+ 1 2) (+ 3 4)))
        (bind Flow.b (+ 5 6))
        ";
    let (bin, _) = compile(src).unwrap();
    // split the body at each Bind to a permanent (each top-level binding)
    let mut max_tmp: Option<u8> = None;
    let mut count: u32 = 0;
    for ins in bin.0.iter().filter(|i| !matches!(i.op, Op::Def)) {
        for r in [&ins.res, &ins.left, &ins.right] {
            if let Some(i) = is_tmp(r) {
                max_tmp = Some(max_tmp.map_or(i, |m| m.max(i)));
            }
        }
        if is_tmp(&ins.res).is_some() {
            count += 1;
        }
        if matches!(ins.op, Op::Bind) && is_perm(&ins.res).is_some() {
            if let Some(m) = max_tmp {
                assert!((m as u32) < count, "Tmp{} used with only {} allocations", m, count);
            }
            max_tmp = None;
            count = 0;
        }
    }
    // the second binding must reuse Tmp0, not continue counting
    let second = &bin.0[bin.0.len() - 2];
    assert_eq!(is_tmp(&second.res), Some(0));
}

/// An ewma with two immediate operands is accepted: control operands are
/// not type-checked.
#[test]
fn ewma_immediate_operands_compile() {
    let src = b"(def (foo 0)) (bind Flow.foo (ewma 2 3))";
    assert!(compile(src).is_ok());
}

/// Binding a control operator into a temporary register must fail.
#[test]
fn control_into_tmp_fails() {
    let src = b"(:= (+ 1 2) (if (< 1 2) 3))";
    assert!(compile(src).is_err());
}

/// Using an undeclared name must fail.
#[test]
fn unknown_name_fails() {
    let src = b"(bind Flow.undeclared 4)";
    assert!(compile(src).is_err());
}

/// An arithmetic operand of boolean type must fail.
#[test]
fn type_mismatch_fails() {
    let src = b"(def (foo 0)) (bind Flow.foo (+ true 3))";
    assert!(compile(src).is_err());
}

/// A control operator standing alone at top level must fail: it has no
/// parent bind to patch its placeholder.
#[test]
fn bare_control_fails() {
    let src = b"(def (foo 0)) (ewma 2 SndRate)";
    assert!(compile(src).is_err());
}

/// Declaring the same name twice must fail.
#[test]
fn redeclared_name_fails() {
    let src = b"(def (foo 0) (foo 1)) (bind Flow.foo 4)";
    assert!(compile(src).is_err());
}

/// The parser resolves measurement primitives and declared names; the
/// scope survives compilation for decoding reports.
#[test]
fn scope_resolves_names() {
    let src = b"(def (foo 7)) (bind Flow.foo Rtt)";
    let (_, sc) = compile(src).unwrap();
    match sc.get(&String::from("Rtt")) {
        Some(Reg::Const(5, _)) => {}
        other => panic!("Rtt resolved to {:?}", other),
    }
    match sc.get(&String::from("Flow.foo")) {
        Some(Reg::Perm(1, _)) => {}
        other => panic!("Flow.foo resolved to {:?}", other),
    }
    assert!(sc.get(&String::from("Flow.bar")).is_none());
}

/// An unknown operator is rejected.
#[test]
fn unknown_operator_fails() {
    assert!(compile(b"(def (foo 0)) (bind Flow.foo (frob 1 2))").is_err());
}

/// `def` may only open a program, not stand in expression position.
#[test]
fn nested_def_fails() {
    assert!(compile(b"(def (foo 0)) (bind Flow.foo (def (bar 0)))").is_err());
}

/// A program needs at least one expression after its declarations.
#[test]
fn empty_body_fails() {
    assert!(compile(b"(def (foo 0))").is_err());
    assert!(compile(b"").is_err());
}

/// An unterminated declaration group is rejected.
#[test]
fn unterminated_def_fails() {
    assert!(compile(b"(def (foo 0)").is_err());
    assert!(compile(b"(def (foo)) (bind Flow.foo 1)").is_err());
}

/// A declaration group needs at least one declaration.
#[test]
fn empty_def_group_fails() {
    assert!(compile(b"(def) (bind isUrgent true)").is_err());
}

/// The implicit urgent-report register resolves without a declaration.
#[test]
fn is_urgent_is_implicit() {
    let src = b"(bind isUrgent true)";
    let (b, sc) = compile(src).unwrap();
    assert!(matches!(sc.get(&String::from("isUrgent")), Some(Reg::Perm(0, _))));
    // no Def is emitted for it
    assert!(!b.0.iter().any(|i| matches!(i.op, Op::Def)));
}

/// Comments and whitespace are insignificant.
#[test]
fn comments_are_skipped() {
    let a = b"(def (foo 0)) ; declare foo\n(bind Flow.foo 4) ; then bind it\n";
    let b = b"(def (foo 0))(bind Flow.foo 4)";
    let (ba, _) = compile(a).unwrap();
    let (bb, _) = compile(b).unwrap();
    assert_eq!(ba, bb);
}

/// A number too large for 64 bits is rejected.
#[test]
fn oversized_number_fails() {
    let src = b"(def (foo 99999999999999999999999)) (bind Flow.foo 4)";
    assert!(compile(src).is_err());
}

/// `let` is transparent by lowering time: the value is the right subtree.
#[test]
fn let_yields_right_value() {
    let src = b"(def (foo 0)) (bind Flow.foo (let 1 2))";
    let (b, _) = compile(src).unwrap();
    let bind = b.0.last().unwrap();
    assert!(matches!(bind.op, Op::Bind));
    assert!(matches!(bind.right, Reg::ImmNum(2)));
}

/// A compiled program can be rebuilt through the definition iterator: it
/// yields one Def per declared permanent, skipping the implicit slot 0.
#[test]
fn def_iter_matches_prefix() {
    let src = b"(def (foo 3) (bar 4)) (bind Flow.foo 1)";
    let (b, sc) = compile(src).unwrap();
    let mut it = sc.into_iter();
    let mut defs = Vec::new();
    while let Some(ins) = it.next() {
        defs.push(ins);
    }
    assert_eq!(defs.len(), 2);
    assert_eq!(defs[0], b.0[0]);
    assert_eq!(defs[1], b.0[1]);
}
