//! The datapath register machine: register classes, typed instructions,
//! compiled programs (`Bin`), and the name/index authority (`Scope`), with
//! the lowering pass from expression trees to instructions.

use vstd::prelude::*;
use crate::ast::{Expr, ExprV, Op, Prim, PrimV, Prog, body_view, expr_view};
use crate::lang::Error;

verus! {

/// The type tag of a register: a boolean or an unsigned 64-bit number, each
/// optionally carrying a literal for use at bind time; a still-unresolved
/// name (transient, only during parsing); or `Void`, marking a placeholder
/// slot awaiting rewrite by a parent expression.
#[derive(Debug)]
pub enum Type {
    Bool(Option<bool>),
    Name(String),
    Num(Option<u64>),
    Void,
}

/// A register of the datapath VM.
///
/// `ImmNum` and `ImmBool` are inline literals; `Const` is a read-only
/// measurement primitive (indices 0..8); `Perm` is a persistent state slot
/// (index 0 is the implicit `isUrgent` boolean); `Tmp` is per-expression
/// scratch; `Void` is a sentinel, legal only as the intermediate result of
/// a control operator awaiting its parent `Bind`.
#[derive(Debug)]
pub enum Reg {
    ImmNum(u64),
    ImmBool(bool),
    Const(u8, Type),
    Tmp(u8, Type),
    Perm(u8, Type),
    Void,
}

/// One bytecode instruction: a result register, an operator, and two
/// operand registers.
#[derive(Debug)]
pub struct Instr {
    pub res: Reg,
    pub op: Op,
    pub left: Reg,
    pub right: Reg,
}

/// A compiled program: `Def` instructions for the user-declared permanent
/// registers, then each top-level expression's instructions in source order.
#[derive(Debug)]
pub struct Bin(pub Vec<Instr>);

/// Structural equality of type tags, comparing names by their characters.
pub open spec fn type_eq(a: Type, b: Type) -> bool {
    match (a, b) {
        (Type::Bool(x), Type::Bool(y)) => x == y,
        (Type::Name(x), Type::Name(y)) => x@ == y@,
        (Type::Num(x), Type::Num(y)) => x == y,
        (Type::Void, Type::Void) => true,
        _ => false,
    }
}

/// Structural equality of registers.
pub open spec fn reg_eq(a: Reg, b: Reg) -> bool {
    match (a, b) {
        (Reg::ImmNum(x), Reg::ImmNum(y)) => x == y,
        (Reg::ImmBool(x), Reg::ImmBool(y)) => x == y,
        (Reg::Const(i, t), Reg::Const(j, u)) => i == j && type_eq(t, u),
        (Reg::Tmp(i, t), Reg::Tmp(j, u)) => i == j && type_eq(t, u),
        (Reg::Perm(i, t), Reg::Perm(j, u)) => i == j && type_eq(t, u),
        (Reg::Void, Reg::Void) => true,
        _ => false,
    }
}

/// Structural equality of instructions.
pub open spec fn instr_eq(a: Instr, b: Instr) -> bool {
    a.op == b.op && reg_eq(a.res, b.res) && reg_eq(a.left, b.left) && reg_eq(a.right, b.right)
}

impl PartialEq for Type {
    fn eq(&self, o: &Type) -> (r: bool) {
        match (self, o) {
            (Type::Bool(x), Type::Bool(y)) => match (x, y) {
                (Some(a), Some(b)) => a == b,
                (None, None) => true,
                _ => false,
            },
            (Type::Name(x), Type::Name(y)) => *x == *y,
            (Type::Num(x), Type::Num(y)) => match (x, y) {
                (Some(a), Some(b)) => a == b,
                (None, None) => true,
                _ => false,
            },
            (Type::Void, Type::Void) => true,
            _ => false,
        }
    }
}

impl vstd::std_specs::cmp::PartialEqSpecImpl for Type {
    open spec fn obeys_eq_spec() -> bool {
        true
    }

    open spec fn eq_spec(&self, o: &Type) -> bool {
        type_eq(*self, *o)
    }
}

impl PartialEq for Reg {
    fn eq(&self, o: &Reg) -> (r: bool) {
        match (self, o) {
            (Reg::ImmNum(x), Reg::ImmNum(y)) => x == y,
            (Reg::ImmBool(x), Reg::ImmBool(y)) => x == y,
            (Reg::Const(i, t), Reg::Const(j, u)) => i == j && t == u,
            (Reg::Tmp(i, t), Reg::Tmp(j, u)) => i == j && t == u,
            (Reg::Perm(i, t), Reg::Perm(j, u)) => i == j && t == u,
            (Reg::Void, Reg::Void) => true,
            _ => false,
        }
    }
}

impl vstd::std_specs::cmp::PartialEqSpecImpl for Reg {
    open spec fn obeys_eq_spec() -> bool {
        true
    }

    open spec fn eq_spec(&self, o: &Reg) -> bool {
        reg_eq(*self, *o)
    }
}

impl PartialEq for Instr {
    fn eq(&self, o: &Instr) -> (r: bool) {
        self.op == o.op && self.res == o.res && self.left == o.left && self.right == o.right
    }
}

impl vstd::std_specs::cmp::PartialEqSpecImpl for Instr {
    open spec fn obeys_eq_spec() -> bool {
        true
    }

    open spec fn eq_spec(&self, o: &Instr) -> bool {
        instr_eq(*self, *o)
    }
}

impl PartialEq for Bin {
    fn eq(&self, o: &Bin) -> (r: bool) {
        if self.0.len() != o.0.len() {
            return false;
        }
        let n = self.0.len();
        let mut i: usize = 0;
        while i < n
            invariant
                n == self.0@.len() == o.0@.len(),
                i <= n,
                forall|j: int| 0 <= j < i ==> instr_eq(self.0@[j], o.0@[j]),
            decreases n - i,
        {
            if !(self.0[i] == o.0[i]) {
                return false;
            }
            i += 1;
        }
        true
    }
}

impl vstd::std_specs::cmp::PartialEqSpecImpl for Bin {
    open spec fn obeys_eq_spec() -> bool {
        true
    }

    open spec fn eq_spec(&self, o: &Bin) -> bool {
        self.0@.len() == o.0@.len() && (forall|j: int|
            0 <= j < self.0@.len() ==> instr_eq(self.0@[j], o.0@[j]))
    }
}

/// Any `Tmp` register equal to `r` has index below `n`.
pub open spec fn reg_tmp_lt(r: Reg, n: int) -> bool {
    match r {
        Reg::Tmp(i, _) => i < n,
        _ => true,
    }
}

/// Every `Tmp` index in the instruction is below `n`.
pub open spec fn instr_tmps_lt(ins: Instr, n: int) -> bool {
    reg_tmp_lt(ins.res, n) && reg_tmp_lt(ins.left, n) && reg_tmp_lt(ins.right, n)
}

/// The register `r` appears in the instruction, as result or as an operand.
pub open spec fn instr_mentions(ins: Instr, r: Reg) -> bool {
    ins.res == r || ins.left == r || ins.right == r
}

/// No instruction of the sequence still carries the `Reg::Void`
/// placeholder as its result.
pub open spec fn no_placeholder_res(b: Seq<Instr>) -> bool {
    forall|k: int| 0 <= k < b.len() ==> (#[trigger] b[k]).res != Reg::Void
}

/// Every permanent register mentioned by a non-`Def` instruction either is
/// the implicit slot 0 or is the result of an earlier `Def` in the sequence.
pub open spec fn defs_prefixed(b: Seq<Instr>) -> bool {
    forall|k: int, i: u8, t: Type|
        0 <= k < b.len() && b[k].op != Op::Def && #[trigger] instr_mentions(b[k], Reg::Perm(i, t))
            && i != 0 ==> exists|j: int|
            0 <= j < k && (#[trigger] b[j]).op == Op::Def && b[j].res == Reg::Perm(i, t)
}

/// Copy a type tag; the copy equals the original.
pub(crate) fn dup_type(t: &Type) -> (r: Type)
    ensures
        r == *t,
{
    match t {
        Type::Bool(o) => Type::Bool(*o),
        Type::Name(s) => Type::Name(s.clone()),
        Type::Num(o) => Type::Num(*o),
        Type::Void => Type::Void,
    }
}

/// Copy a register; the copy equals the original.
pub(crate) fn dup_reg(r: &Reg) -> (res: Reg)
    ensures
        res == *r,
{
    match r {
        Reg::ImmNum(n) => Reg::ImmNum(*n),
        Reg::ImmBool(b) => Reg::ImmBool(*b),
        Reg::Const(i, t) => Reg::Const(*i, dup_type(t)),
        Reg::Tmp(i, t) => Reg::Tmp(*i, dup_type(t)),
        Reg::Perm(i, t) => Reg::Perm(*i, dup_type(t)),
        Reg::Void => Reg::Void,
    }
}

/// The type of the value held in a register.
pub open spec fn spec_reg_type(r: Reg) -> Type {
    match r {
        Reg::ImmNum(n) => Type::Num(Option::Some(n)),
        Reg::ImmBool(b) => Type::Bool(Option::Some(b)),
        Reg::Const(_, t) => t,
        Reg::Tmp(_, t) => t,
        Reg::Perm(_, t) => t,
        Reg::Void => Type::Void,
    }
}

impl Reg {
    /// The type of the value held in this register.
    pub(crate) fn get_type(&self) -> (r: Result<Type, Error>)
        ensures
            match r {
                Result::Ok(t) => t == spec_reg_type(*self),
                Result::Err(_) => false,
            },
    {
        match self {
            Reg::ImmNum(n) => Result::Ok(Type::Num(Some(*n))),
            Reg::ImmBool(b) => Result::Ok(Type::Bool(Some(*b))),
            Reg::Const(_, t) => Result::Ok(dup_type(t)),
            Reg::Tmp(_, t) => Result::Ok(dup_type(t)),
            Reg::Perm(_, t) => Result::Ok(dup_type(t)),
            Reg::Void => Result::Ok(Type::Void),
        }
    }
}

/// The type an atom denotes: its literal type, or the transient `Name`.
pub open spec fn spec_atom_type(e: Expr) -> Option<Type> {
    match e {
        Expr::Atom(Prim::Bool(b)) => Option::Some(Type::Bool(Option::Some(b))),
        Expr::Atom(Prim::Name(s)) => Option::Some(Type::Name(s)),
        Expr::Atom(Prim::Num(n)) => Option::Some(Type::Num(Option::Some(n))),
        _ => Option::None,
    }
}

/// The type of an atom expression; an error on a non-atom.
pub fn check_atom_type(e: &Expr) -> (r: Result<Type, Error>)
    ensures
        match r {
            Result::Ok(t) => spec_atom_type(*e) == Option::Some(t),
            Result::Err(_) => spec_atom_type(*e) is None,
        },
{
    match e {
        Expr::Atom(t) => match t {
            Prim::Bool(b) => Result::Ok(Type::Bool(Some(*b))),
            Prim::Name(name) => Result::Ok(Type::Name(name.clone())),
            Prim::Num(n) => Result::Ok(Type::Num(Some(*n))),
        },
        _ => Result::Err(Error::new("not an atom")),
    }
}

/// First-match lookup of a name in an association sequence.
pub open spec fn spec_lookup(s: Seq<(String, Reg)>, name: Seq<char>) -> Option<Reg>
    decreases s.len(),
{
    if s.len() == 0 {
        Option::None
    } else if s[0].0@ == name {
        Option::Some(s[0].1)
    } else {
        spec_lookup(s.drop_first(), name)
    }
}

/// The mathematical model of a name environment: each name as its
/// character sequence.
pub open spec fn named_model(s: Seq<(String, Reg)>) -> Seq<(Seq<char>, Reg)> {
    s.map_values(|p: (String, Reg)| (p.0@, p.1))
}

/// First-match lookup in a modelled name environment.
pub open spec fn spec_lookup_v(s: Seq<(Seq<char>, Reg)>, name: Seq<char>) -> Option<Reg>
    decreases s.len(),
{
    if s.len() == 0 {
        Option::None
    } else if s[0].0 == name {
        Option::Some(s[0].1)
    } else {
        spec_lookup_v(s.drop_first(), name)
    }
}

/// Lookup commutes with taking the model.
pub(crate) proof fn lemma_lookup_model(s: Seq<(String, Reg)>, name: Seq<char>)
    ensures
        spec_lookup(s, name) == spec_lookup_v(named_model(s), name),
    decreases s.len(),
{
    if s.len() > 0 {
        assert(named_model(s)[0] == (s[0].0@, s[0].1));
        if s[0].0@ != name {
            lemma_lookup_model(s.drop_first(), name);
            assert(named_model(s).drop_first() =~= named_model(s.drop_first()));
        }
    }
}

/// A scratch register holds an unannotated number or boolean.
pub open spec fn scratch_type(t: Type) -> bool {
    t == Type::Num(Option::<u64>::None) || t == Type::Bool(Option::<bool>::None)
}

/// A permanent register's declared type carries its initial literal.
pub open spec fn perm_init_ok(t: Type) -> bool {
    match t {
        Type::Num(o) => o is Some,
        Type::Bool(o) => o is Some,
        _ => false,
    }
}

/// Slot `i` of the permanent vector: `Perm(i, _)`, the implicit boolean at
/// slot 0, a declared literal-carrying register elsewhere.
pub open spec fn perm_slot_ok(r: Reg, i: int) -> bool {
    match r {
        Reg::Perm(j, t) => j == i && if i == 0 {
            t == Type::Bool(Option::<bool>::None)
        } else {
            perm_init_ok(t)
        },
        _ => false,
    }
}

/// Slot `i` of the temporary vector is `Tmp(i, _)` with a scratch type.
pub open spec fn tmp_slot_ok(r: Reg, i: int) -> bool {
    match r {
        Reg::Tmp(j, t) => j == i && scratch_type(t),
        _ => false,
    }
}

/// The name environment of one program: reserved measurement primitives,
/// user-declared permanent registers, and per-expression temporaries, with
/// the map from identifiers to their resolved registers.
#[derive(Debug)]
pub struct Scope {
    named: Vec<(String, Reg)>,
    primitive: Vec<Reg>,
    permanent: Vec<Reg>,
    tmp: Vec<Reg>,
}

impl Scope {
    /// The identifier-to-register association, in declaration order.
    pub closed spec fn named_seq(self) -> Seq<(String, Reg)> {
        self.named@
    }

    /// The fixed measurement-primitive registers.
    pub closed spec fn primitives(self) -> Seq<Reg> {
        self.primitive@
    }

    /// The permanent registers, implicit `isUrgent` first.
    pub closed spec fn permanents(self) -> Seq<Reg> {
        self.permanent@
    }

    /// The temporaries allocated since the last clear.
    pub closed spec fn tmps(self) -> Seq<Reg> {
        self.tmp@
    }
}

/// The register is one of the scope's primitives or permanents.
pub open spec fn reg_in_scope(s: Scope, r: Reg) -> bool {
    (exists|j: int| 0 <= j < s.primitives().len() && r == s.primitives()[j]) || (exists|j: int|
        0 <= j < s.permanents().len() && r == s.permanents()[j])
}

/// Well-formedness of a scope: eight canonical primitives, permanent slot
/// `i` holding `Perm(i, _)` (the implicit boolean at 0, declared literals
/// after), temporary slot `i` holding `Tmp(i, _)`, both vectors small
/// enough for 8-bit indices, every named register resolving into the
/// primitives or the permanents, and each name bound at most once (a
/// redeclaration is a failure, never a shadowing).
pub open spec fn scope_wf(s: Scope) -> bool {
    &&& forall|i: int, j: int|
        0 <= i < j < s.named_seq().len() ==> (#[trigger] s.named_seq()[i]).0@
            != (#[trigger] s.named_seq()[j]).0@
    &&& s.primitives().len() == 8
    &&& forall|i: int|
        0 <= i < 8 ==> #[trigger] s.primitives()[i] == Reg::Const(
            i as u8,
            Type::Num(Option::<u64>::None),
        )
    &&& 1 <= s.permanents().len() <= 256
    &&& forall|i: int| 0 <= i < s.permanents().len() ==> perm_slot_ok(#[trigger] s.permanents()[i], i)
    &&& s.tmps().len() <= 256
    &&& forall|i: int| 0 <= i < s.tmps().len() ==> tmp_slot_ok(#[trigger] s.tmps()[i], i)
    &&& forall|i: int|
        0 <= i < s.named_seq().len() ==> reg_in_scope(s, (#[trigger] s.named_seq()[i]).1)
}

/// A control operator: legal only as the right-hand side of a `Bind`.
pub open spec fn ctrl_op(o: Op) -> bool {
    o == Op::Ewma || o == Op::If || o == Op::NotIf
}

/// The type tag carries no transient name.
pub open spec fn type_plain(t: Type) -> bool {
    !(t matches Type::Name(_))
}

/// The register's type tag carries no transient name; all resolution
/// happened during lowering.
pub open spec fn reg_plain(r: Reg) -> bool {
    match r {
        Reg::Const(_, t) => type_plain(t),
        Reg::Tmp(_, t) => type_plain(t),
        Reg::Perm(_, t) => type_plain(t),
        _ => true,
    }
}

/// No register of the instruction carries a transient name.
pub open spec fn instr_plain(ins: Instr) -> bool {
    reg_plain(ins.res) && reg_plain(ins.left) && reg_plain(ins.right)
}

/// Any `Const` register equal to `r` addresses one of the eight
/// measurement primitives.
pub open spec fn reg_const_lt(r: Reg) -> bool {
    match r {
        Reg::Const(i, _) => i < 8,
        _ => true,
    }
}

/// Every `Const` index in the instruction addresses a primitive.
pub open spec fn instr_consts_lt(ins: Instr) -> bool {
    reg_const_lt(ins.res) && reg_const_lt(ins.left) && reg_const_lt(ins.right)
}

/// Any `Perm` register equal to `r` is the scope's own permanent at its
/// index.
pub open spec fn reg_perm_in(r: Reg, s: Scope) -> bool {
    match r {
        Reg::Perm(i, t) => i < s.permanents().len() && s.permanents()[i as int] == Reg::Perm(i, t),
        _ => true,
    }
}

/// Every `Perm` register of the instruction is a permanent of the scope.
pub open spec fn instr_perms_in(ins: Instr, s: Scope) -> bool {
    reg_perm_in(ins.res, s) && reg_perm_in(ins.left, s) && reg_perm_in(ins.right, s)
}

/// What lowering one expression guarantees of its emitted instructions and
/// its value register, relative to the scope after lowering:
/// every temporary index is below the scope's temporary count; no `Def` is
/// emitted; every permanent mentioned is the scope's own; and the `Void`
/// placeholder appears as a result only on the final instruction, exactly
/// when the expression's value register is itself the placeholder (a
/// control operator awaiting its parent `Bind`).
pub open spec fn expr_out_ok(s: Scope, instrs: Seq<Instr>, reg: Reg) -> bool {
    &&& forall|k: int|
        0 <= k < instrs.len() ==> instr_tmps_lt(#[trigger] instrs[k], s.tmps().len() as int)
    &&& forall|k: int| 0 <= k < instrs.len() ==> (#[trigger] instrs[k]).op != Op::Def
    &&& forall|k: int| 0 <= k < instrs.len() ==> instr_perms_in(#[trigger] instrs[k], s)
    &&& forall|k: int| 0 <= k < instrs.len() ==> instr_plain(#[trigger] instrs[k])
    &&& forall|k: int| 0 <= k < instrs.len() ==> instr_consts_lt(#[trigger] instrs[k])
    &&& reg_tmp_lt(reg, s.tmps().len() as int)
    &&& reg_perm_in(reg, s)
    &&& reg_plain(reg)
    &&& reg_const_lt(reg)
    &&& reg == Reg::Void ==> instrs.len() > 0 && instrs.last().res == Reg::Void && ctrl_op(
        instrs.last().op,
    )
    &&& forall|k: int| 0 <= k < instrs.len() - 1 ==> (#[trigger] instrs[k]).res != Reg::Void
    &&& reg != Reg::Void && instrs.len() > 0 ==> instrs.last().res != Reg::Void
}

/// The expression contains no `Def`: declarations come only from a
/// program's leading group, never from expression position.
pub open spec fn expr_no_def(e: ExprV) -> bool
    decreases e,
{
    match e {
        ExprV::Sexp(o, l, r) => o != Op::Def && expr_no_def(*l) && expr_no_def(*r),
        _ => true,
    }
}

/// The operator-specific step of lowering a compound expression, over the
/// concatenated operand instructions, the two operand registers, and the
/// temporary count.
pub open spec fn spec_compile_sexp(o: Op, instrs: Seq<Instr>, lr: Reg, rr: Reg, t: nat) -> Option<
    (Seq<Instr>, Reg, nat),
> {
    match o {
        Op::Add | Op::Div | Op::Max | Op::MaxWrap | Op::Min | Op::Mul | Op::Sub => {
            if (spec_reg_type(lr) matches Type::Num(_)) && (spec_reg_type(rr) matches Type::Num(_))
                && t < 256 {
                let res = Reg::Tmp(t as u8, Type::Num(Option::None));
                Option::Some(
                    (instrs.push(Instr { res, op: o, left: lr, right: rr }), res, (t + 1) as nat),
                )
            } else {
                Option::None
            }
        },
        Op::Equiv | Op::Gt | Op::Lt => {
            if (spec_reg_type(lr) matches Type::Num(_)) && (spec_reg_type(rr) matches Type::Num(_))
                && t < 256 {
                let res = Reg::Tmp(t as u8, Type::Bool(Option::None));
                Option::Some(
                    (instrs.push(Instr { res, op: o, left: lr, right: rr }), res, (t + 1) as nat),
                )
            } else {
                Option::None
            }
        },
        Op::Bind => {
            if (lr matches Reg::Perm(_, _)) && rr == Reg::Void {
                if instrs.len() == 0 {
                    Option::None
                } else {
                    let last = instrs.last();
                    Option::Some(
                        (
                            instrs.update(
                                instrs.len() - 1,
                                Instr { res: lr, op: last.op, left: last.left, right: last.right },
                            ),
                            lr,
                            t,
                        ),
                    )
                }
            } else if (lr matches Reg::Tmp(_, _)) && rr == Reg::Void {
                Option::None
            } else if (lr matches Reg::Perm(_, _)) || (lr matches Reg::Tmp(_, _)) {
                Option::Some(
                    (instrs.push(Instr { res: lr, op: Op::Bind, left: lr, right: rr }), lr, t),
                )
            } else {
                Option::None
            }
        },
        Op::Let => if lr == Reg::Void {
            Option::None
        } else {
            Option::Some((instrs, rr, t))
        },
        Op::Ewma | Op::If | Op::NotIf => if lr == Reg::Void || rr == Reg::Void {
            Option::None
        } else {
            Option::Some(
                (
                    instrs.push(Instr { res: Reg::Void, op: o, left: lr, right: rr }),
                    Reg::Void,
                    t,
                ),
            )
        },
        Op::Def => Option::None,
    }
}

/// The functional specification of lowering: from an expression's model,
/// the name environment's model, and the temporary count, the emitted
/// instructions, the value register and the new temporary count — or
/// nothing exactly where lowering fails. Lowering is a function of these
/// inputs, so the bytecode of a given source text is stable.
pub open spec fn spec_compile_expr(e: ExprV, nm: Seq<(Seq<char>, Reg)>, tmps: nat) -> Option<
    (Seq<Instr>, Reg, nat),
>
    decreases e,
{
    match e {
        ExprV::Atom(p) => match p {
            PrimV::Bool(b) => Option::Some((Seq::empty(), Reg::ImmBool(b), tmps)),
            PrimV::Name(s) => match spec_lookup_v(nm, s) {
                Option::Some(r) => Option::Some((Seq::empty(), r, tmps)),
                Option::None => Option::None,
            },
            PrimV::Num(n) => Option::Some((Seq::empty(), Reg::ImmNum(n), tmps)),
        },
        ExprV::Void => Option::None,
        ExprV::Sexp(o, l, r) => match spec_compile_expr(*l, nm, tmps) {
            Option::None => Option::None,
            Option::Some((li, lr, t1)) => match spec_compile_expr(*r, nm, t1) {
                Option::None => Option::None,
                Option::Some((ri, rr, t2)) => spec_compile_sexp(o, li + ri, lr, rr, t2),
            },
        },
    }
}

/// A register resolvable in scope `a` stays resolvable when the primitives
/// are unchanged and the permanents have only grown.
proof fn lemma_in_scope_preserved(a: Scope, b: Scope, r: Reg)
    requires
        reg_in_scope(a, r),
        b.primitives() == a.primitives(),
        a.permanents().len() <= b.permanents().len(),
        forall|j: int| 0 <= j < a.permanents().len() ==> #[trigger] b.permanents()[j]
            == a.permanents()[j],
    ensures
        reg_in_scope(b, r),
{
    if exists|j: int| 0 <= j < a.primitives().len() && r == a.primitives()[j] {
        let j = choose|j: int| 0 <= j < a.primitives().len() && r == a.primitives()[j];
        assert(0 <= j < b.primitives().len() && r == b.primitives()[j]);
    } else {
        let j = choose|j: int| 0 <= j < a.permanents().len() && r == a.permanents()[j];
        assert(0 <= j < b.permanents().len() && r == b.permanents()[j]);
    }
}

/// A missed lookup means no entry carries the name.
proof fn lemma_lookup_none(s: Seq<(String, Reg)>, name: Seq<char>)
    requires
        spec_lookup(s, name) is None,
    ensures
        forall|i: int| 0 <= i < s.len() ==> (#[trigger] s[i]).0@ != name,
    decreases s.len(),
{
    if s.len() > 0 {
        lemma_lookup_none(s.drop_first(), name);
        assert(forall|i: int| 1 <= i < s.len() ==> #[trigger] s[i] == s.drop_first()[i - 1]);
    }
}

/// A successful lookup returns one of the association's own values.
proof fn lemma_lookup_in_named(s: Seq<(String, Reg)>, name: Seq<char>, r: Reg)
    requires
        spec_lookup(s, name) == Option::Some(r),
    ensures
        exists|i: int| 0 <= i < s.len() && (#[trigger] s[i]).1 == r,
    decreases s.len(),
{
    if s.len() > 0 {
        if s[0].0@ == name {
            assert(s[0].1 == r);
        } else {
            lemma_lookup_in_named(s.drop_first(), name, r);
            let i = choose|i: int| 0 <= i < s.drop_first().len() && (#[trigger] s.drop_first()[i]).1
                == r;
            assert(s[i + 1].1 == r);
        }
    }
}

/// In a well-formed scope, every register a name resolves to is a canonical
/// primitive (`Const`) or a canonical permanent (`Perm`); never a
/// temporary, an immediate, or the placeholder.
proof fn lemma_resolved_reg(s: Scope, r: Reg)
    requires
        scope_wf(s),
        reg_in_scope(s, r),
    ensures
        reg_perm_in(r, s),
        reg_plain(r),
        reg_const_lt(r),
        r matches Reg::Tmp(i, t) ==> false,
        r != Reg::Void,
        !(r matches Reg::ImmNum(_)),
        !(r matches Reg::ImmBool(_)),
{
    if exists|j: int| 0 <= j < s.primitives().len() && r == s.primitives()[j] {
        let j = choose|j: int| 0 <= j < s.primitives().len() && r == s.primitives()[j];
        assert(r == Reg::Const(j as u8, Type::Num(Option::<u64>::None)));
    } else {
        let j = choose|j: int| 0 <= j < s.permanents().len() && r == s.permanents()[j];
        assert(perm_slot_ok(s.permanents()[j], j));
    }
}

impl Scope {
    /// The scope every program starts from: the eight measurement
    /// primitives, bound to their names in alphabetical order, and the
    /// implicit `isUrgent` boolean at permanent slot 0.
    pub(crate) fn new() -> (s: Scope)
        ensures
            scope_wf(s),
            s.permanents().len() == 1,
            s.tmps().len() == 0,
            s.named_seq().len() == 9,
            s.named_seq()[0].0@ == "Ack"@,
            s.named_seq()[0].1 == Reg::Const(0u8, Type::Num(Option::<u64>::None)),
            s.named_seq()[1].0@ == "Ecn"@,
            s.named_seq()[1].1 == Reg::Const(1u8, Type::Num(Option::<u64>::None)),
            s.named_seq()[2].0@ == "Loss"@,
            s.named_seq()[2].1 == Reg::Const(2u8, Type::Num(Option::<u64>::None)),
            s.named_seq()[3].0@ == "Mss"@,
            s.named_seq()[3].1 == Reg::Const(3u8, Type::Num(Option::<u64>::None)),
            s.named_seq()[4].0@ == "RcvRate"@,
            s.named_seq()[4].1 == Reg::Const(4u8, Type::Num(Option::<u64>::None)),
            s.named_seq()[5].0@ == "Rtt"@,
            s.named_seq()[5].1 == Reg::Const(5u8, Type::Num(Option::<u64>::None)),
            s.named_seq()[6].0@ == "SndCwnd"@,
            s.named_seq()[6].1 == Reg::Const(6u8, Type::Num(Option::<u64>::None)),
            s.named_seq()[7].0@ == "SndRate"@,
            s.named_seq()[7].1 == Reg::Const(7u8, Type::Num(Option::<u64>::None)),
            s.named_seq()[8].0@ == "isUrgent"@,
            s.named_seq()[8].1 == Reg::Perm(0u8, Type::Bool(Option::<bool>::None)),
    {
        let mut primitive: Vec<Reg> = Vec::new();
        primitive.push(Reg::Const(0, Type::Num(None)));
        primitive.push(Reg::Const(1, Type::Num(None)));
        primitive.push(Reg::Const(2, Type::Num(None)));
        primitive.push(Reg::Const(3, Type::Num(None)));
        primitive.push(Reg::Const(4, Type::Num(None)));
        primitive.push(Reg::Const(5, Type::Num(None)));
        primitive.push(Reg::Const(6, Type::Num(None)));
        primitive.push(Reg::Const(7, Type::Num(None)));

        let mut permanent: Vec<Reg> = Vec::new();
        permanent.push(Reg::Perm(0, Type::Bool(None)));

        // available measurement primitives (alphabetical order), then the
        // implicit urgent-report register, which needs no Def
        let mut named: Vec<(String, Reg)> = Vec::new();
        named.push((String::from_str("Ack"), Reg::Const(0, Type::Num(None))));
        named.push((String::from_str("Ecn"), Reg::Const(1, Type::Num(None))));
        named.push((String::from_str("Loss"), Reg::Const(2, Type::Num(None))));
        named.push((String::from_str("Mss"), Reg::Const(3, Type::Num(None))));
        named.push((String::from_str("RcvRate"), Reg::Const(4, Type::Num(None))));
        named.push((String::from_str("Rtt"), Reg::Const(5, Type::Num(None))));
        named.push((String::from_str("SndCwnd"), Reg::Const(6, Type::Num(None))));
        named.push((String::from_str("SndRate"), Reg::Const(7, Type::Num(None))));
        named.push((String::from_str("isUrgent"), Reg::Perm(0, Type::Bool(None))));

        let s = Scope { named, primitive, permanent, tmp: Vec::new() };
        proof {
            reveal_strlit("Ack");
            reveal_strlit("Ecn");
            reveal_strlit("Loss");
            reveal_strlit("Mss");
            reveal_strlit("RcvRate");
            reveal_strlit("Rtt");
            reveal_strlit("SndCwnd");
            reveal_strlit("SndRate");
            reveal_strlit("isUrgent");
            // the nine names are pairwise distinct: same-length pairs
            // differ at the index given, the rest differ in length
            assert(("Ack"@)[0] != ("Ecn"@)[0]);
            assert("Ack"@ != "Ecn"@);
            assert(("Ack"@).len() != ("Loss"@).len());
            assert("Ack"@ != "Loss"@);
            assert(("Ack"@)[0] != ("Mss"@)[0]);
            assert("Ack"@ != "Mss"@);
            assert(("Ack"@).len() != ("RcvRate"@).len());
            assert("Ack"@ != "RcvRate"@);
            assert(("Ack"@)[0] != ("Rtt"@)[0]);
            assert("Ack"@ != "Rtt"@);
            assert(("Ack"@).len() != ("SndCwnd"@).len());
            assert("Ack"@ != "SndCwnd"@);
            assert(("Ack"@).len() != ("SndRate"@).len());
            assert("Ack"@ != "SndRate"@);
            assert(("Ack"@).len() != ("isUrgent"@).len());
            assert("Ack"@ != "isUrgent"@);
            assert(("Ecn"@).len() != ("Loss"@).len());
            assert("Ecn"@ != "Loss"@);
            assert(("Ecn"@)[0] != ("Mss"@)[0]);
            assert("Ecn"@ != "Mss"@);
            assert(("Ecn"@).len() != ("RcvRate"@).len());
            assert("Ecn"@ != "RcvRate"@);
            assert(("Ecn"@)[0] != ("Rtt"@)[0]);
            assert("Ecn"@ != "Rtt"@);
            assert(("Ecn"@).len() != ("SndCwnd"@).len());
            assert("Ecn"@ != "SndCwnd"@);
            assert(("Ecn"@).len() != ("SndRate"@).len());
            assert("Ecn"@ != "SndRate"@);
            assert(("Ecn"@).len() != ("isUrgent"@).len());
            assert("Ecn"@ != "isUrgent"@);
            assert(("Loss"@).len() != ("Mss"@).len());
            assert("Loss"@ != "Mss"@);
            assert(("Loss"@).len() != ("RcvRate"@).len());
            assert("Loss"@ != "RcvRate"@);
            assert(("Loss"@).len() != ("Rtt"@).len());
            assert("Loss"@ != "Rtt"@);
            assert(("Loss"@).len() != ("SndCwnd"@).len());
            assert("Loss"@ != "SndCwnd"@);
            assert(("Loss"@).len() != ("SndRate"@).len());
            assert("Loss"@ != "SndRate"@);
            assert(("Loss"@).len() != ("isUrgent"@).len());
            assert("Loss"@ != "isUrgent"@);
            assert(("Mss"@).len() != ("RcvRate"@).len());
            assert("Mss"@ != "RcvRate"@);
            assert(("Mss"@)[0] != ("Rtt"@)[0]);
            assert("Mss"@ != "Rtt"@);
            assert(("Mss"@).len() != ("SndCwnd"@).len());
            assert("Mss"@ != "SndCwnd"@);
            assert(("Mss"@).len() != ("SndRate"@).len());
            assert("Mss"@ != "SndRate"@);
            assert(("Mss"@).len() != ("isUrgent"@).len());
            assert("Mss"@ != "isUrgent"@);
            assert(("RcvRate"@).len() != ("Rtt"@).len());
            assert("RcvRate"@ != "Rtt"@);
            assert(("RcvRate"@)[0] != ("SndCwnd"@)[0]);
            assert("RcvRate"@ != "SndCwnd"@);
            assert(("RcvRate"@)[0] != ("SndRate"@)[0]);
            assert("RcvRate"@ != "SndRate"@);
            assert(("RcvRate"@).len() != ("isUrgent"@).len());
            assert("RcvRate"@ != "isUrgent"@);
            assert(("Rtt"@).len() != ("SndCwnd"@).len());
            assert("Rtt"@ != "SndCwnd"@);
            assert(("Rtt"@).len() != ("SndRate"@).len());
            assert("Rtt"@ != "SndRate"@);
            assert(("Rtt"@).len() != ("isUrgent"@).len());
            assert("Rtt"@ != "isUrgent"@);
            assert(("SndCwnd"@)[3] != ("SndRate"@)[3]);
            assert("SndCwnd"@ != "SndRate"@);
            assert(("SndCwnd"@).len() != ("isUrgent"@).len());
            assert("SndCwnd"@ != "isUrgent"@);
            assert(("SndRate"@).len() != ("isUrgent"@).len());
            assert("SndRate"@ != "isUrgent"@);
            assert forall|i: int, j: int| 0 <= i < j < s.named_seq().len() implies (
            #[trigger] s.named_seq()[i]).0@ != (#[trigger] s.named_seq()[j]).0@ by {}
            assert forall|i: int| 0 <= i < 8 implies #[trigger] s.primitives()[i] == Reg::Const(
                i as u8,
                Type::Num(Option::<u64>::None),
            ) by {}
            assert(perm_slot_ok(s.permanents()[0], 0));
            assert forall|i: int| 0 <= i < s.named_seq().len() implies reg_in_scope(
                s,
                (#[trigger] s.named_seq()[i]).1,
            ) by {
                if i < 8 {
                    assert(s.named_seq()[i].1 == s.primitives()[i]);
                } else {
                    assert(s.named_seq()[i].1 == s.permanents()[0]);
                }
            }
        }
        s
    }

    /// Resolve a name to its register, if the name is known.
    pub fn get<'a>(&'a self, name: &String) -> (r: Option<&'a Reg>)
        ensures
            match r {
                Option::Some(reg) => spec_lookup(self.named_seq(), name@) == Option::Some(*reg),
                Option::None => spec_lookup(self.named_seq(), name@) is None,
            },
    {
        let n = self.named.len();
        proof {
            assert(self.named@.subrange(0, n as int) =~= self.named@);
        }
        let mut i: usize = 0;
        while i < n
            invariant
                n == self.named@.len(),
                i <= n,
                spec_lookup(self.named@, name@) == spec_lookup(
                    self.named@.subrange(i as int, n as int),
                    name@,
                ),
            decreases n - i,
        {
            let pair = &self.named[i];
            proof {
                assert(self.named@.subrange(i as int, n as int)[0] == self.named@[i as int]);
            }
            if pair.0 == *name {
                return Some(&pair.1);
            }
            proof {
                assert(self.named@.subrange(i as int, n as int).drop_first() =~= self.named@
                    .subrange(i as int + 1, n as int));
            }
            i += 1;
        }
        proof {
            assert(self.named@.subrange(n as int, n as int).len() == 0);
        }
        None
    }

    /// Allocate the next scratch register of type `t`.
    pub(crate) fn new_tmp(&mut self, t: Type) -> (r: Reg)
        requires
            scope_wf(*old(self)),
            old(self).tmps().len() < 256,
            scratch_type(t),
        ensures
            scope_wf(*final(self)),
            final(self).named_seq() == old(self).named_seq(),
            final(self).primitives() == old(self).primitives(),
            final(self).permanents() == old(self).permanents(),
            final(self).tmps() == old(self).tmps().push(r),
            r == Reg::Tmp(old(self).tmps().len() as u8, t),
    {
        let id = self.tmp.len() as u8;
        let r = Reg::Tmp(id, t);
        let stored = dup_reg(&r);
        self.tmp.push(stored);
        proof {
            assert forall|i: int| 0 <= i < self.tmp@.len() implies tmp_slot_ok(
                #[trigger] self.tmp@[i],
                i,
            ) by {
                if i < old(self).tmps().len() {
                    assert(tmp_slot_ok(old(self).tmps()[i], i));
                }
            }
            assert forall|i: int| 0 <= i < self.named@.len() implies reg_in_scope(
                *self,
                (#[trigger] self.named@[i]).1,
            ) by {
                assert(reg_in_scope(*old(self), old(self).named_seq()[i].1));
                lemma_in_scope_preserved(*old(self), *self, self.named@[i].1);
            }
        }
        r
    }

    /// Install a new permanent register under `name`, with its declared
    /// initial literal in `t`; the name must not be bound yet.
    pub(crate) fn new_perm(&mut self, name: String, t: Type) -> (r: Reg)
        requires
            scope_wf(*old(self)),
            old(self).permanents().len() < 256,
            perm_init_ok(t),
            spec_lookup(old(self).named_seq(), name@) is None,
        ensures
            scope_wf(*final(self)),
            final(self).primitives() == old(self).primitives(),
            final(self).tmps() == old(self).tmps(),
            r == Reg::Perm(old(self).permanents().len() as u8, t),
            final(self).permanents() == old(self).permanents().push(r),
            final(self).named_seq() == old(self).named_seq().push((name, r)),
    {
        let id = self.permanent.len() as u8;
        let r = Reg::Perm(id, t);
        let stored = dup_reg(&r);
        let bound = dup_reg(&r);
        self.permanent.push(stored);
        self.named.push((name, bound));
        proof {
            lemma_lookup_none(old(self).named_seq(), name@);
            assert forall|i: int, j: int| 0 <= i < j < self.named@.len() implies (
            #[trigger] self.named@[i]).0@ != (#[trigger] self.named@[j]).0@ by {
                if j < old(self).named_seq().len() {
                    assert(old(self).named_seq()[i].0@ != old(self).named_seq()[j].0@);
                } else {
                    assert(old(self).named_seq()[i].0@ != name@);
                }
            }
            assert forall|i: int| 0 <= i < self.permanent@.len() implies perm_slot_ok(
                #[trigger] self.permanent@[i],
                i,
            ) by {
                if i < old(self).permanents().len() {
                    assert(perm_slot_ok(old(self).permanents()[i], i));
                }
            }
            assert forall|i: int| 0 <= i < self.named@.len() implies reg_in_scope(
                *self,
                (#[trigger] self.named@[i]).1,
            ) by {
                if i < old(self).named_seq().len() {
                    assert(reg_in_scope(*old(self), old(self).named_seq()[i].1));
                    lemma_in_scope_preserved(*old(self), *self, self.named@[i].1);
                } else {
                    assert(self.named@[i].1 == self.permanent@[self.permanent@.len() - 1]);
                }
            }
        }
        r
    }

    /// How many permanent registers exist, the implicit one included.
    pub(crate) fn num_perms(&self) -> (n: usize)
        ensures
            n == self.permanents().len(),
    {
        self.permanent.len()
    }

    /// Forget all scratch registers; called at each top-level expression
    /// boundary so that temporaries are reused.
    pub(crate) fn clear_tmps(&mut self)
        ensures
            final(self).named_seq() == old(self).named_seq(),
            final(self).primitives() == old(self).primitives(),
            final(self).permanents() == old(self).permanents(),
            final(self).tmps().len() == 0,
    {
        self.tmp.clear()
    }
}

/// Lower one expression by a left-first depth-first descent, returning the
/// instructions that evaluate it and the register holding its value.
///
/// Because the caller clears the scope's temporaries at each top-level
/// expression boundary, the bound `instr_tmps_lt` in `expr_out_ok` says
/// that every `Tmp` index emitted for one top-level expression is below
/// the number of temporaries that expression alone allocated.
#[verifier::rlimit(100)]
pub fn compile_expr(e: &Expr, scope: &mut Scope) -> (r: Result<(Vec<Instr>, Reg), Error>)
    requires
        scope_wf(*old(scope)),
        expr_no_def(expr_view(*e)),
    ensures
        scope_wf(*final(scope)),
        final(scope).named_seq() == old(scope).named_seq(),
        final(scope).primitives() == old(scope).primitives(),
        final(scope).permanents() == old(scope).permanents(),
        old(scope).tmps().len() <= final(scope).tmps().len(),
        match r {
            Result::Ok(out) => expr_out_ok(*final(scope), out.0@, out.1) && spec_compile_expr(
                expr_view(*e),
                named_model(old(scope).named_seq()),
                old(scope).tmps().len() as nat,
            ) == Option::Some((out.0@, out.1, final(scope).tmps().len() as nat)),
            Result::Err(_) => spec_compile_expr(
                expr_view(*e),
                named_model(old(scope).named_seq()),
                old(scope).tmps().len() as nat,
            ) is None,
        },
    decreases e,
{
    match e {
        Expr::Atom(t) => match t {
            Prim::Bool(b) => Result::Ok((Vec::new(), Reg::ImmBool(*b))),
            Prim::Name(name) => match scope.get(name) {
                Some(found) => {
                    let r0 = dup_reg(found);
                    proof {
                        lemma_lookup_in_named(scope.named_seq(), name@, r0);
                        lemma_resolved_reg(*scope, r0);
                        lemma_lookup_model(scope.named_seq(), name@);
                    }
                    Result::Ok((Vec::new(), r0))
                },
                _ => {
                    proof {
                        lemma_lookup_model(scope.named_seq(), name@);
                    }
                    Result::Err(Error::with_detail("unknown name ", name.as_str()))
                },
            },
            Prim::Num(n) => Result::Ok((Vec::new(), Reg::ImmNum(*n))),
        },
        Expr::Void => Result::Err(Error::new("missing operand")),
        Expr::Sexp(o, left_expr, right_expr) => {
            let (mut instrs, left) = compile_expr(&**left_expr, scope)?;
            let ghost s1 = *scope;
            let ghost li = instrs@;
            let (mut right_instrs, right) = compile_expr(&**right_expr, scope)?;
            let ghost s2 = *scope;
            let ghost ri = right_instrs@;
            instrs.append(&mut right_instrs);
            let ghost nm = named_model(old(scope).named_seq());
            let ghost t0 = old(scope).tmps().len() as nat;
            let ghost t2n = s2.tmps().len() as nat;
            let ghost base = li + ri;
            proof {
                assert(spec_compile_expr(expr_view(*e), nm, t0) == spec_compile_sexp(
                    *o,
                    base,
                    left,
                    right,
                    t2n,
                ));
                assert(instrs@ == li + ri);
                assert forall|k: int| 0 <= k < instrs@.len() implies instr_tmps_lt(
                    #[trigger] instrs@[k],
                    s2.tmps().len() as int,
                ) && instrs@[k].op != Op::Def && instr_perms_in(instrs@[k], s2) && instr_plain(
                    instrs@[k],
                ) && instr_consts_lt(instrs@[k]) by {
                    if k < li.len() {
                        assert(instrs@[k] == li[k]);
                        assert(instr_tmps_lt(li[k], s1.tmps().len() as int));
                        assert(instr_perms_in(li[k], s1));
                        assert(instr_plain(li[k]));
                        assert(instr_consts_lt(li[k]));
                    } else {
                        assert(instrs@[k] == ri[k - li.len()]);
                    }
                }
                assert(reg_tmp_lt(left, s2.tmps().len() as int));
                assert(reg_perm_in(left, s2));
            }
            match o {
                Op::Add | Op::Div | Op::Max | Op::MaxWrap | Op::Min | Op::Mul | Op::Sub => {
                    let lt = left.get_type();
                    let l_num = match lt {
                        Result::Ok(Type::Num(_)) => true,
                        _ => false,
                    };
                    if !l_num {
                        return Result::Err(Error::new("expected Num operand"));
                    }
                    let rt = right.get_type();
                    let r_num = match rt {
                        Result::Ok(Type::Num(_)) => true,
                        _ => false,
                    };
                    if !r_num {
                        return Result::Err(Error::new("expected Num operand"));
                    }
                    if scope.tmp.len() >= 256 {
                        return Result::Err(Error::new("too many temporaries"));
                    }
                    let res = scope.new_tmp(Type::Num(None));
                    let stored = dup_reg(&res);
                    proof {
                        assert(left != Reg::Void && right != Reg::Void);
                    }
                    instrs.push(Instr { res: stored, op: *o, left, right });
                    Result::Ok((instrs, res))
                },
                Op::Equiv | Op::Gt | Op::Lt => {
                    let lt = left.get_type();
                    let l_num = match lt {
                        Result::Ok(Type::Num(_)) => true,
                        _ => false,
                    };
                    if !l_num {
                        return Result::Err(Error::new("expected Num operand"));
                    }
                    let rt = right.get_type();
                    let r_num = match rt {
                        Result::Ok(Type::Num(_)) => true,
                        _ => false,
                    };
                    if !r_num {
                        return Result::Err(Error::new("expected Num operand"));
                    }
                    if scope.tmp.len() >= 256 {
                        return Result::Err(Error::new("too many temporaries"));
                    }
                    let res = scope.new_tmp(Type::Bool(None));
                    let stored = dup_reg(&res);
                    proof {
                        assert(left != Reg::Void && right != Reg::Void);
                    }
                    instrs.push(Instr { res: stored, op: *o, left, right });
                    Result::Ok((instrs, res))
                },
                Op::Bind => {
                    // (bind a b) assigns value b to register a; a must be
                    // mutable, and a control operator on the right leaves a
                    // placeholder that is patched to the bind target
                    let l_perm = match &left {
                        Reg::Perm(_, _) => true,
                        _ => false,
                    };
                    let l_tmp = match &left {
                        Reg::Tmp(_, _) => true,
                        _ => false,
                    };
                    let r_void = match &right {
                        Reg::Void => true,
                        _ => false,
                    };
                    if l_perm && r_void {
                        let last = match instrs.pop() {
                            Some(ins) => ins,
                            _ => {
                                proof {
                                    assert(false);
                                }
                                return Result::Err(Error::new("nothing to patch"));
                            },
                        };
                        // the slot being overwritten must really be the
                        // placeholder left by a control operator
                        proof {
                            assert(last.res == Reg::Void);
                        }
                        let patched = Instr {
                            res: dup_reg(&left),
                            op: last.op,
                            left: last.left,
                            right: last.right,
                        };
                        instrs.push(patched);
                        Result::Ok((instrs, left))
                    } else if l_tmp && r_void {
                        Result::Err(Error::new("cannot bind stateful instruction to temporary"))
                    } else if l_perm || l_tmp {
                        let res = dup_reg(&left);
                        let src = dup_reg(&left);
                        instrs.push(Instr { res, op: Op::Bind, left: src, right });
                        Result::Ok((instrs, left))
                    } else {
                        Result::Err(Error::new("expected mutable register in bind"))
                    }
                },
                Op::Let => {
                    // a naming side-effect during parsing; by lowering time
                    // only the right subtree's value remains
                    let l_void = match &left {
                        Reg::Void => true,
                        _ => false,
                    };
                    if l_void {
                        Result::Err(Error::new("control operator outside bind"))
                    } else {
                        Result::Ok((instrs, right))
                    }
                },
                Op::Ewma | Op::If | Op::NotIf => {
                    // emit with a placeholder result; the parent must be a
                    // Bind to a permanent register, which patches it
                    let l_void = match &left {
                        Reg::Void => true,
                        _ => false,
                    };
                    let r_void = match &right {
                        Reg::Void => true,
                        _ => false,
                    };
                    if l_void || r_void {
                        Result::Err(Error::new("control operator outside bind"))
                    } else {
                        instrs.push(Instr { res: Reg::Void, op: *o, left, right });
                        Result::Ok((instrs, Reg::Void))
                    }
                },
                Op::Def => {
                    // a Def reached by lowering would be a programmer
                    // error; the requires rules the input out, so this arm
                    // is statically unreachable
                    proof {
                        assert(false);
                    }
                    Result::Err(Error::new("def in expression position"))
                },
            }
        },
    }
}

/// The `Def` instruction a permanent register gives rise to: one for each
/// declared literal-carrying register, none for the implicit `isUrgent`
/// (or for anything that is not a permanent).
pub open spec fn spec_def_of(r: Reg) -> Seq<Instr> {
    match r {
        Reg::Perm(i, Type::Num(Option::Some(n))) => seq![
            Instr { res: r, op: Op::Def, left: r, right: Reg::ImmNum(n) },
        ],
        Reg::Perm(i, Type::Bool(Option::Some(b))) => seq![
            Instr { res: r, op: Op::Def, left: r, right: Reg::ImmBool(b) },
        ],
        _ => Seq::empty(),
    }
}

/// The `Def` prefix a permanent vector yields, in slot order.
pub open spec fn spec_def_instrs(perms: Seq<Reg>) -> Seq<Instr>
    decreases perms.len(),
{
    if perms.len() == 0 {
        Seq::empty()
    } else {
        spec_def_instrs(perms.drop_last()) + spec_def_of(perms.last())
    }
}

/// Appending one register to the permanent vector appends its `Def`s.
proof fn lemma_def_instrs_snoc(perms: Seq<Reg>, j: int)
    requires
        0 <= j < perms.len(),
    ensures
        spec_def_instrs(perms.subrange(0, j + 1)) == spec_def_instrs(perms.subrange(0, j))
            + spec_def_of(perms[j]),
{
    assert(perms.subrange(0, j + 1).drop_last() =~= perms.subrange(0, j));
    assert(perms.subrange(0, j + 1).last() == perms[j]);
}

/// Peeling the front register off the permanent vector peels its `Def`s.
proof fn lemma_def_instrs_cons(perms: Seq<Reg>)
    requires
        perms.len() > 0,
    ensures
        spec_def_instrs(perms) == spec_def_of(perms[0]) + spec_def_instrs(perms.drop_first()),
    decreases perms.len(),
{
    if perms.len() == 1 {
        assert(spec_def_instrs(perms.drop_last()) =~= Seq::<Instr>::empty());
        assert(spec_def_instrs(perms.drop_first()) =~= Seq::<Instr>::empty());
        assert(spec_def_instrs(perms) == spec_def_instrs(perms.drop_last()) + spec_def_of(
            perms.last(),
        ));
        assert(perms.last() == perms[0]);
        assert(spec_def_instrs(perms) =~= spec_def_of(perms[0]) + spec_def_instrs(
            perms.drop_first(),
        ));
    } else {
        lemma_def_instrs_cons(perms.drop_last());
        assert(perms.drop_last()[0] == perms[0]);
        assert(perms.drop_first().drop_last() =~= perms.drop_last().drop_first());
        assert(perms.drop_first().last() == perms.last());
        assert(spec_def_instrs(perms.drop_first()) == spec_def_instrs(
            perms.drop_first().drop_last(),
        ) + spec_def_of(perms.drop_first().last()));
        assert(spec_def_instrs(perms.drop_first()) == spec_def_instrs(
            perms.drop_last().drop_first(),
        ) + spec_def_of(perms.last()));
        assert(spec_def_instrs(perms) == spec_def_instrs(perms.drop_last()) + spec_def_of(
            perms.last(),
        ));
        assert(spec_def_instrs(perms.drop_last()) == spec_def_of(perms[0]) + spec_def_instrs(
            perms.drop_last().drop_first(),
        ));
        assert((spec_def_of(perms[0]) + spec_def_instrs(perms.drop_last().drop_first()))
            + spec_def_of(perms.last()) =~= spec_def_of(perms[0]) + (spec_def_instrs(
            perms.drop_last().drop_first(),
        ) + spec_def_of(perms.last())));
    }
}

/// Every emitted `Def` carries the permanent register it defines as its
/// result.
proof fn lemma_def_instrs_shape(perms: Seq<Reg>)
    ensures
        forall|j: int|
            0 <= j < spec_def_instrs(perms).len() ==> (#[trigger] spec_def_instrs(perms)[j]).op
                == Op::Def && (spec_def_instrs(perms)[j].res matches Reg::Perm(_, _))
                && instr_plain(spec_def_instrs(perms)[j]) && instr_consts_lt(
                spec_def_instrs(perms)[j],
            ),
    decreases perms.len(),
{
    if perms.len() > 0 {
        lemma_def_instrs_shape(perms.drop_last());
    }
}

/// A declared permanent register's `Def` appears in the emitted prefix.
proof fn lemma_def_instrs_contains(perms: Seq<Reg>, i: int)
    requires
        0 <= i < perms.len(),
        spec_def_of(perms[i]).len() == 1,
    ensures
        exists|j: int|
            0 <= j < spec_def_instrs(perms).len() && #[trigger] spec_def_instrs(perms)[j]
                == spec_def_of(perms[i])[0],
    decreases perms.len(),
{
    if i == perms.len() - 1 {
        let pos = spec_def_instrs(perms.drop_last()).len() as int;
        assert(spec_def_instrs(perms)[pos] == spec_def_of(perms[i])[0]);
    } else {
        lemma_def_instrs_contains(perms.drop_last(), i);
        let j = choose|j: int|
            0 <= j < spec_def_instrs(perms.drop_last()).len() && #[trigger] spec_def_instrs(
                perms.drop_last(),
            )[j] == spec_def_of(perms.drop_last()[i])[0];
        assert(spec_def_instrs(perms)[j] == spec_def_of(perms[i])[0]);
    }
}

/// Lower each top-level expression of a body in order, with the
/// temporary count reset to zero at each boundary; nothing where one
/// expression fails to lower or leaves the placeholder as its value (a
/// control operator with no parent `Bind`).
pub open spec fn spec_compile_body(body: Seq<ExprV>, nm: Seq<(Seq<char>, Reg)>) -> Option<
    Seq<Instr>,
>
    decreases body.len(),
{
    if body.len() == 0 {
        Option::Some(Seq::empty())
    } else {
        match spec_compile_expr(body[0], nm, 0) {
            Option::Some((i, r, t)) => if r == Reg::Void {
                Option::None
            } else {
                match spec_compile_body(body.drop_first(), nm) {
                    Option::Some(rest) => Option::Some(i + rest),
                    Option::None => Option::None,
                }
            },
            Option::None => Option::None,
        }
    }
}

/// The functional specification of compiling a program: the `Def` prefix
/// the permanents yield, then the lowered body. Together with
/// `spec_compile_expr` this pins the bytecode down as a function of the
/// parse result, so compiling the same program twice yields identical
/// bytecode.
pub open spec fn spec_compile_prog(
    body: Seq<ExprV>,
    nm: Seq<(Seq<char>, Reg)>,
    perms: Seq<Reg>,
) -> Option<Seq<Instr>> {
    match spec_compile_body(body, nm) {
        Option::Some(b) => Option::Some(spec_def_instrs(perms) + b),
        Option::None => Option::None,
    }
}

impl Bin {
    /// Lower a whole program: emit the `Def` prefix for the scope's
    /// declared permanent registers, then, clearing temporaries at each
    /// boundary, each top-level expression's instructions in source order.
    ///
    /// The result carries no `Void` placeholder result (every control
    /// operator was patched by its parent `Bind`), and every permanent a
    /// non-`Def` instruction mentions is either the implicit slot 0 or
    /// defined by an earlier `Def`.
    pub fn compile_prog(p: &Prog, scope: &mut Scope) -> (r: Result<Bin, Error>)
        requires
            scope_wf(*old(scope)),
            forall|k: int| 0 <= k < p.0@.len() ==> expr_no_def(#[trigger] body_view(p.0@)[k]),
        ensures
            scope_wf(*final(scope)),
            final(scope).named_seq() == old(scope).named_seq(),
            final(scope).primitives() == old(scope).primitives(),
            final(scope).permanents() == old(scope).permanents(),
            match r {
                Result::Ok(b) => {
                    &&& no_placeholder_res(b.0@)
                    &&& defs_prefixed(b.0@)
                    &&& forall|k: int| 0 <= k < b.0@.len() ==> instr_plain(#[trigger] b.0@[k])
                    &&& forall|k: int| 0 <= k < b.0@.len() ==> instr_consts_lt(#[trigger] b.0@[k])
                    &&& spec_def_instrs(old(scope).permanents()).len() <= b.0@.len()
                    &&& b.0@.subrange(0, spec_def_instrs(old(scope).permanents()).len() as int)
                        == spec_def_instrs(old(scope).permanents())
                    &&& spec_compile_prog(
                        body_view(p.0@),
                        named_model(old(scope).named_seq()),
                        old(scope).permanents(),
                    ) == Option::Some(b.0@)
                },
                Result::Err(_) => spec_compile_prog(
                    body_view(p.0@),
                    named_model(old(scope).named_seq()),
                    old(scope).permanents(),
                ) is None,
            },
    {
        let ghost perms = scope.permanents();
        let ghost defs = spec_def_instrs(perms);
        let mut instrs: Vec<Instr> = Vec::new();
        let np = scope.permanent.len();
        let mut j: usize = 0;
        while j < np
            invariant
                np == scope.permanents().len(),
                scope_wf(*scope),
                scope.named_seq() == old(scope).named_seq(),
                scope.primitives() == old(scope).primitives(),
                scope.permanents() == old(scope).permanents(),
                perms == scope.permanents(),
                j <= np,
                instrs@ == spec_def_instrs(perms.subrange(0, j as int)),
            decreases np - j,
        {
            proof {
                lemma_def_instrs_snoc(perms, j as int);
            }
            match &scope.permanent[j] {
                Reg::Perm(i, t) => match t {
                    Type::Num(on) => match on {
                        Some(n) => {
                            let reg = dup_reg(&scope.permanent[j]);
                            let reg2 = dup_reg(&scope.permanent[j]);
                            let init = *n;
                            instrs.push(
                                Instr { res: reg, op: Op::Def, left: reg2, right: Reg::ImmNum(init) },
                            );
                        },
                        _ => {},
                    },
                    Type::Bool(ob) => match ob {
                        Some(b) => {
                            let reg = dup_reg(&scope.permanent[j]);
                            let reg2 = dup_reg(&scope.permanent[j]);
                            let init = *b;
                            instrs.push(
                                Instr {
                                    res: reg,
                                    op: Op::Def,
                                    left: reg2,
                                    right: Reg::ImmBool(init),
                                },
                            );
                        },
                        _ => {},
                    },
                    _ => {},
                },
                _ => {},
            }
            j += 1;
        }
        proof {
            assert(perms.subrange(0, np as int) =~= perms);
            assert(instrs@ == defs);
            lemma_def_instrs_shape(perms);
        }
        let ghost bv = body_view(p.0@);
        let ghost nm = named_model(old(scope).named_seq());
        proof {
            assert(bv.skip(0) =~= bv);
            match spec_compile_body(bv, nm) {
                Option::Some(rest) => {
                    assert(instrs@ + rest =~= defs + rest);
                },
                Option::None => {},
            }
        }
        let ne = p.0.len();
        let mut k: usize = 0;
        while k < ne
            invariant
                ne == p.0@.len(),
                scope_wf(*scope),
                scope.named_seq() == old(scope).named_seq(),
                scope.primitives() == old(scope).primitives(),
                scope.permanents() == old(scope).permanents(),
                perms == scope.permanents(),
                defs == spec_def_instrs(perms),
                bv == body_view(p.0@),
                nm == named_model(old(scope).named_seq()),
                forall|k2: int| 0 <= k2 < bv.len() ==> expr_no_def(#[trigger] bv[k2]),
                k <= ne,
                defs.len() <= instrs@.len(),
                instrs@.subrange(0, defs.len() as int) == defs,
                spec_compile_body(bv.skip(k as int), nm) matches Option::Some(rest)
                    ==> spec_compile_prog(bv, nm, perms) == Option::Some(instrs@ + rest),
                spec_compile_body(bv.skip(k as int), nm) is None ==> spec_compile_prog(
                    bv,
                    nm,
                    perms,
                ) is None,
                forall|q: int|
                    defs.len() <= q < instrs@.len() ==> (#[trigger] instrs@[q]).op != Op::Def
                        && instrs@[q].res != Reg::Void && instr_perms_in(instrs@[q], *scope)
                        && instr_plain(instrs@[q]) && instr_consts_lt(instrs@[q]),
                forall|q: int|
                    0 <= q < defs.len() ==> (#[trigger] instrs@[q]).op == Op::Def && (instrs@[q].res
                        matches Reg::Perm(_, _)) && instr_plain(instrs@[q]) && instr_consts_lt(
                        instrs@[q],
                    ),
            decreases ne - k,
        {
            scope.clear_tmps();
            let ghost before = instrs@;
            proof {
                assert(bv.skip(k as int)[0] == bv[k as int]);
                assert(bv[k as int] == expr_view(p.0@[k as int]));
            }
            let (mut e_instrs, reg) = match compile_expr(&p.0[k], scope) {
                Result::Ok(t) => t,
                Result::Err(e) => {
                    return Result::Err(e);
                },
            };
            let ghost ev = e_instrs@;
            let is_void = match &reg {
                Reg::Void => true,
                _ => false,
            };
            if is_void {
                return Result::Err(Error::new("control operator outside bind"));
            }
            proof {
                // a non-placeholder value register means no instruction of
                // this expression still carries the placeholder
                assert(forall|q: int|
                    0 <= q < e_instrs@.len() ==> (#[trigger] e_instrs@[q]).res != Reg::Void);
            }
            instrs.append(&mut e_instrs);
            proof {
                assert(instrs@.subrange(0, defs.len() as int) =~= before.subrange(
                    0,
                    defs.len() as int,
                ));
                assert(bv.skip(k as int).drop_first() =~= bv.skip(k as int + 1));
                match spec_compile_body(bv.skip(k as int + 1), nm) {
                    Option::Some(rest2) => {
                        assert(spec_compile_body(bv.skip(k as int), nm) == Option::Some(
                            ev + rest2,
                        ));
                        assert(before + (ev + rest2) =~= instrs@ + rest2);
                    },
                    Option::None => {},
                }
            }
            k += 1;
        }
        proof {
            assert(bv.skip(ne as int).len() == 0);
            assert(instrs@ + Seq::<Instr>::empty() =~= instrs@);
            assert(no_placeholder_res(instrs@));
            assert forall|q: int, i: u8, t: Type|
                0 <= q < instrs@.len() && instrs@[q].op != Op::Def && #[trigger] instr_mentions(
                    instrs@[q],
                    Reg::Perm(i, t),
                ) && i != 0 implies exists|w: int|
                0 <= w < q && (#[trigger] instrs@[w]).op == Op::Def && instrs@[w].res == Reg::Perm(
                    i,
                    t,
                ) by {
                assert(defs.len() <= q);
                assert(instr_perms_in(instrs@[q], *scope));
                assert(reg_perm_in(Reg::Perm(i, t), *scope) || !instr_mentions(
                    instrs@[q],
                    Reg::Perm(i, t),
                ));
                // the mentioned permanent is the scope's slot i, and since
                // i != 0 its declared literal makes exactly one Def
                assert(perms[i as int] == Reg::Perm(i, t));
                assert(perm_slot_ok(perms[i as int], i as int));
                assert(spec_def_of(perms[i as int]).len() == 1);
                lemma_def_instrs_contains(perms, i as int);
                let w = choose|w: int|
                    0 <= w < defs.len() && #[trigger] defs[w] == spec_def_of(perms[i as int])[0];
                assert(instrs@.subrange(0, defs.len() as int)[w] == defs[w]);
                assert(instrs@[w].op == Op::Def && instrs@[w].res == Reg::Perm(i, t));
            }
        }
        Result::Ok(Bin(instrs))
    }
}

/// Walks a permanent-register vector and yields one `Def` instruction per
/// declared literal-carrying register, skipping the implicit `isUrgent`.
pub struct ScopeDefInstrIter {
    v: Vec<Reg>,
    idx: usize,
}

impl ScopeDefInstrIter {
    /// The registers not yet visited.
    pub closed spec fn remaining(self) -> Seq<Reg> {
        self.v@.subrange(self.idx as int, self.v@.len() as int)
    }

    /// The cursor has not run past the end.
    pub closed spec fn wf(self) -> bool {
        self.idx <= self.v@.len()
    }

    fn new(v: Vec<Reg>) -> (r: ScopeDefInstrIter)
        ensures
            r.wf(),
            r.remaining() == v@,
    {
        let r = ScopeDefInstrIter { v, idx: 0 };
        proof {
            assert(r.remaining() =~= r.v@);
        }
        r
    }

    /// The next `Def` instruction, if any register with a declared literal
    /// remains: taken together, the instructions this yields are exactly
    /// `spec_def_instrs` of the registers it was built over.
    pub fn next(&mut self) -> (r: Option<Instr>)
        requires
            old(self).wf(),
        ensures
            final(self).wf(),
            match r {
                Option::Some(ins) => spec_def_instrs(old(self).remaining()) == seq![ins]
                    + spec_def_instrs(final(self).remaining()),
                Option::None => spec_def_instrs(old(self).remaining()).len() == 0
                    && final(self).remaining().len() == 0,
            },
    {
        loop
            invariant
                self.wf(),
                self.v@ == old(self).v@,
                spec_def_instrs(old(self).remaining()) == spec_def_instrs(self.remaining()),
            decreases self.v@.len() - self.idx,
        {
            if self.idx >= self.v.len() {
                return None;
            }
            let ghost rem = self.remaining();
            proof {
                lemma_def_instrs_cons(rem);
                assert(rem[0] == self.v@[self.idx as int]);
                assert(rem.drop_first() =~= self.v@.subrange(
                    self.idx as int + 1,
                    self.v@.len() as int,
                ));
            }
            let cur = &self.v[self.idx];
            match cur {
                Reg::Perm(_, t) => match t {
                    Type::Num(on) => match on {
                        Some(n) => {
                            let reg = dup_reg(cur);
                            let reg2 = dup_reg(cur);
                            let init = *n;
                            self.idx += 1;
                            return Some(
                                Instr { res: reg, op: Op::Def, left: reg2, right: Reg::ImmNum(init) },
                            );
                        },
                        _ => {
                            // the implicit boolean register needs no Def
                            self.idx += 1;
                        },
                    },
                    Type::Bool(ob) => match ob {
                        Some(b) => {
                            let reg = dup_reg(cur);
                            let reg2 = dup_reg(cur);
                            let init = *b;
                            self.idx += 1;
                            return Some(
                                Instr {
                                    res: reg,
                                    op: Op::Def,
                                    left: reg2,
                                    right: Reg::ImmBool(init),
                                },
                            );
                        },
                        _ => {
                            self.idx += 1;
                        },
                    },
                    _ => {
                        self.idx += 1;
                    },
                },
                _ => {
                    self.idx += 1;
                },
            }
        }
    }
}

impl Scope {
    /// Consume the scope, yielding its permanent registers' `Def`
    /// instructions in slot order.
    pub fn into_iter(self) -> (r: ScopeDefInstrIter)
        ensures
            r.wf(),
            r.remaining() == self.permanents(),
    {
        ScopeDefInstrIter::new(self.permanent)
    }
}

impl Bin {
    /// Consume the program, yielding its instructions.
    pub fn into_iter(self) -> (r: Vec<Instr>)
        ensures
            r@ == self.0@,
    {
        self.0
    }
}

} // verus!
