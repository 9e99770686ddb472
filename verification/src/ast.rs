//! The abstract syntax of the datapath language: operators, primitive
//! literals, expression trees, and whole programs.

use vstd::prelude::*;
use vstd::string::StringExecFns;
use crate::lang::Error;
use crate::lang::bytes_to_string;
use crate::datapath::{
    Reg, Scope, Type, expr_no_def, lemma_lookup_model, named_model, scope_wf, spec_lookup_v,
};

verus! {

/// An operator of the datapath language.
///
/// `Add` through `Sub` are arithmetic (operands and result `Num`); `Equiv`,
/// `Gt` and `Lt` compare two `Num`s into a `Bool`; `Bind` assigns its right
/// operand to its left; `Let` is a non-emitting naming form; `Ewma`, `If` and
/// `NotIf` are control operators that may only stand as the right-hand side
/// of a `Bind`; `Def` declares a permanent register and never appears in
/// expression position.
#[derive(Clone, Copy, Debug, PartialEq, Eq, Structural)]
pub enum Op {
    Add,
    Bind,
    Def,
    Div,
    Equiv,
    Ewma,
    Gt,
    If,
    Let,
    Lt,
    Max,
    MaxWrap,
    Min,
    Mul,
    NotIf,
    Sub,
}

/// A primitive literal: a boolean, a name, or an unsigned 64-bit number.
#[derive(Debug)]
pub enum Prim {
    Bool(bool),
    Name(String),
    Num(u64),
}

/// An expression tree. Binary s-expressions become `Sexp` nodes; a unary
/// s-expression carries `Expr::Void` in its unused right slot.
#[derive(Debug)]
pub enum Expr {
    Atom(Prim),
    Sexp(Op, Box<Expr>, Box<Expr>),
    Void,
}

/// A parsed program body: the top-level expressions in source order.
/// The `def` declarations are installed into the accompanying `Scope`
/// during parsing and are not part of the body.
#[derive(Debug)]
pub struct Prog(pub Vec<Expr>);

/// The mathematical model of a primitive literal: names as their
/// character sequences.
pub enum PrimV {
    Bool(bool),
    Name(Seq<char>),
    Num(u64),
}

/// The mathematical model of an expression tree.
pub enum ExprV {
    Atom(PrimV),
    Sexp(Op, Box<ExprV>, Box<ExprV>),
    Void,
}

/// The model of a primitive literal.
pub open spec fn prim_view(p: Prim) -> PrimV {
    match p {
        Prim::Bool(b) => PrimV::Bool(b),
        Prim::Name(s) => PrimV::Name(s@),
        Prim::Num(n) => PrimV::Num(n),
    }
}

/// The model of an expression tree.
pub open spec fn expr_view(e: Expr) -> ExprV
    decreases e,
{
    match e {
        Expr::Atom(p) => ExprV::Atom(prim_view(p)),
        Expr::Sexp(o, l, r) => ExprV::Sexp(o, Box::new(expr_view(*l)), Box::new(expr_view(*r))),
        Expr::Void => ExprV::Void,
    }
}

/// The model of a program body: each expression's model, in order.
pub open spec fn body_view(s: Seq<Expr>) -> Seq<ExprV> {
    s.map_values(|e: Expr| expr_view(e))
}

/// A lexical token: a parenthesis, or a word (an operator, a literal, or a
/// name).
enum Token {
    Open,
    Close,
    Word(Vec<u8>),
}

/// The mathematical model of a token.
pub enum TokenV {
    Open,
    Close,
    Word(Seq<u8>),
}

/// The model of a token.
spec fn token_view(t: Token) -> TokenV {
    match t {
        Token::Open => TokenV::Open,
        Token::Close => TokenV::Close,
        Token::Word(w) => TokenV::Word(w@),
    }
}

/// The model of a token list.
spec fn token_views(ts: Seq<Token>) -> Seq<TokenV> {
    ts.map_values(|t: Token| token_view(t))
}

/// A whitespace byte: space, tab, or a line break.
pub open spec fn spec_space(b: u8) -> bool {
    b == 32 || b == 9 || b == 10 || b == 13
}

/// The length of the comment run: the bytes before the next line break.
pub open spec fn comment_run(s: Seq<u8>) -> nat
    decreases s.len(),
{
    if s.len() == 0 {
        0
    } else if s[0] != 10 {
        1 + comment_run(s.drop_first())
    } else {
        0
    }
}

/// The length of the word at the front: the maximal run of word bytes.
pub open spec fn word_run(s: Seq<u8>) -> nat
    decreases s.len(),
{
    if s.len() == 0 {
        0
    } else if spec_word_byte(s[0]) {
        1 + word_run(s.drop_first())
    } else {
        0
    }
}

/// Neither run goes past the end.
proof fn lemma_runs_le(s: Seq<u8>)
    ensures
        comment_run(s) <= s.len(),
        word_run(s) <= s.len(),
    decreases s.len(),
{
    if s.len() > 0 {
        lemma_runs_le(s.drop_first());
    }
}

/// The comment run is exactly the bytes before the first line break.
proof fn lemma_comment_run_exact(s: Seq<u8>, k: int)
    requires
        0 <= k <= s.len(),
        forall|j: int| 0 <= j < k ==> #[trigger] s[j] != 10,
        k == s.len() || s[k] == 10,
    ensures
        comment_run(s) == k,
    decreases s.len(),
{
    if s.len() > 0 && k > 0 {
        assert(s[0] != 10);
        assert(forall|j: int| 0 <= j < k - 1 ==> s.drop_first()[j] == s[j + 1]);
        lemma_comment_run_exact(s.drop_first(), k - 1);
    }
}

/// The word run is exactly the bytes before the first non-word byte.
proof fn lemma_word_run_exact(s: Seq<u8>, k: int)
    requires
        0 <= k <= s.len(),
        forall|j: int| 0 <= j < k ==> spec_word_byte(#[trigger] s[j]),
        k == s.len() || !spec_word_byte(s[k]),
    ensures
        word_run(s) == k,
    decreases s.len(),
{
    if s.len() > 0 && k > 0 {
        assert(spec_word_byte(s[0]));
        assert(forall|j: int| 0 <= j < k - 1 ==> s.drop_first()[j] == s[j + 1]);
        lemma_word_run_exact(s.drop_first(), k - 1);
    }
}

/// The functional specification of the lexer: whitespace separates,
/// comments run from `;` to end of line, parentheses stand alone, and a
/// maximal run of word bytes is one word; any other byte is an error.
pub open spec fn spec_tokenize(s: Seq<u8>) -> Option<Seq<TokenV>>
    decreases s.len(),
    via spec_tokenize_decreases
{
    if s.len() == 0 {
        Option::Some(Seq::empty())
    } else if spec_space(s[0]) {
        spec_tokenize(s.drop_first())
    } else if s[0] == 59 {
        spec_tokenize(s.skip(1 + comment_run(s.drop_first()) as int))
    } else if s[0] == 40 {
        match spec_tokenize(s.drop_first()) {
            Option::Some(ts) => Option::Some(seq![TokenV::Open] + ts),
            Option::None => Option::None,
        }
    } else if s[0] == 41 {
        match spec_tokenize(s.drop_first()) {
            Option::Some(ts) => Option::Some(seq![TokenV::Close] + ts),
            Option::None => Option::None,
        }
    } else if spec_word_byte(s[0]) {
        let wl = word_run(s) as int;
        match spec_tokenize(s.skip(wl)) {
            Option::Some(ts) => Option::Some(seq![TokenV::Word(s.take(wl))] + ts),
            Option::None => Option::None,
        }
    } else {
        Option::None
    }
}

#[via_fn]
proof fn spec_tokenize_decreases(s: Seq<u8>) {
    if s.len() > 0 {
        lemma_runs_le(s.drop_first());
        lemma_runs_le(s);
    }
}

/// A byte that may stand inside a word: printable ASCII that is not a
/// parenthesis or the comment mark.
pub open spec fn spec_word_byte(b: u8) -> bool {
    33 <= b <= 126 && b != 40 && b != 41 && b != 59
}

fn is_word_byte(b: u8) -> (r: bool)
    ensures
        r == spec_word_byte(b),
{
    33 <= b && b <= 126 && b != 40 && b != 41 && b != 59
}

/// A byte that may stand in a name: a letter, a digit, `.` or `_`.
pub open spec fn spec_name_byte(b: u8) -> bool {
    (48 <= b <= 57) || (65 <= b <= 90) || (97 <= b <= 122) || b == 46 || b == 95
}

fn is_name_byte(b: u8) -> (r: bool)
    ensures
        r == spec_name_byte(b),
{
    (48 <= b && b <= 57) || (65 <= b && b <= 90) || (97 <= b && b <= 122) || b == 46 || b == 95
}

/// Every byte of the word is a decimal digit.
pub open spec fn all_digits(s: Seq<u8>) -> bool {
    forall|i: int| 0 <= i < s.len() ==> 48 <= #[trigger] s[i] <= 57
}

/// Every byte of the word may stand in a name.
pub open spec fn all_name_bytes(s: Seq<u8>) -> bool {
    forall|i: int| 0 <= i < s.len() ==> spec_name_byte(#[trigger] s[i])
}

/// The value of a decimal digit string.
pub open spec fn digits_val(s: Seq<u8>) -> int
    decreases s.len(),
{
    if s.len() == 0 {
        0
    } else {
        digits_val(s.drop_last()) * 10 + (s.last() - 48)
    }
}

/// Parse a decimal unsigned 64-bit number; an error on a non-digit or on
/// overflow.
fn parse_num(w: &Vec<u8>) -> (r: Result<u64, Error>)
    ensures
        match r {
            Result::Ok(v) => all_digits(w@) && v == digits_val(w@),
            Result::Err(_) => !all_digits(w@) || digits_val(w@) > u64::MAX,
        },
{
    let n = w.len();
    let mut val: u64 = 0;
    let mut i: usize = 0;
    while i < n
        invariant
            n == w@.len(),
            i <= n,
            all_digits(w@.subrange(0, i as int)),
            val == digits_val(w@.subrange(0, i as int)),
        decreases n - i,
    {
        let b = w[i];
        if b < 48 || b > 57 {
            proof {
                assert(w@.subrange(0, n as int)[i as int] == b);
            }
            return Result::Err(Error::new("expected a number"));
        }
        let d = (b - 48) as u64;
        if val > (u64::MAX - d) / 10 {
            proof {
                if all_digits(w@) {
                    lemma_digits_val_grows(w@, i as int);
                }
            }
            return Result::Err(Error::new("number too large"));
        }
        val = val * 10 + d;
        proof {
            assert(w@.subrange(0, i as int + 1).drop_last() =~= w@.subrange(0, i as int));
            assert(w@.subrange(0, i as int + 1).last() == b);
        }
        i += 1;
    }
    proof {
        assert(w@.subrange(0, n as int) =~= w@);
    }
    Result::Ok(val)
}

/// A digit string's value is not negative.
proof fn lemma_digits_val_nonneg(s: Seq<u8>)
    requires
        all_digits(s),
    ensures
        digits_val(s) >= 0,
    decreases s.len(),
{
    if s.len() > 0 {
        assert(all_digits(s.drop_last()));
        lemma_digits_val_nonneg(s.drop_last());
    }
}

/// A digit string's value only grows as digits are appended.
proof fn lemma_digits_val_grows(s: Seq<u8>, i: int)
    requires
        all_digits(s),
        0 <= i < s.len(),
    ensures
        digits_val(s) >= digits_val(s.subrange(0, i)) * 10 + (s[i] - 48),
    decreases s.len() - i,
{
    if i == s.len() - 1 {
        assert(s.drop_last() =~= s.subrange(0, i));
    } else {
        lemma_digits_val_grows(s, i + 1);
        assert(s.subrange(0, i + 1).drop_last() =~= s.subrange(0, i));
        assert(s.subrange(0, i + 1).last() == s[i]);
        let a = digits_val(s.subrange(0, i + 1));
        assert(a == digits_val(s.subrange(0, i)) * 10 + (s[i] - 48));
        assert(all_digits(s.subrange(0, i + 1)));
        lemma_digits_val_nonneg(s.subrange(0, i + 1));
        assert(digits_val(s) >= a * 10 + (s[i + 1] - 48));
        assert(a * 10 >= a) by (nonlinear_arith)
            requires
                a >= 0,
        ;
    }
}

/// The operator a word denotes, if any.
pub open spec fn spec_word_op(s: Seq<u8>) -> Option<Op> {
    if s == seq![43u8] {
        Option::Some(Op::Add)
    } else if s == seq![45u8] {
        Option::Some(Op::Sub)
    } else if s == seq![42u8] {
        Option::Some(Op::Mul)
    } else if s == seq![47u8] {
        Option::Some(Op::Div)
    } else if s == seq![62u8] {
        Option::Some(Op::Gt)
    } else if s == seq![60u8] {
        Option::Some(Op::Lt)
    } else if s == seq![61u8, 61u8] {
        Option::Some(Op::Equiv)
    } else if s == seq![58u8, 61u8] {
        Option::Some(Op::Bind)
    } else if s == seq![98u8, 105u8, 110u8, 100u8] {
        Option::Some(Op::Bind)
    } else if s == seq![109u8, 97u8, 120u8] {
        Option::Some(Op::Max)
    } else if s == seq![109u8, 105u8, 110u8] {
        Option::Some(Op::Min)
    } else if s == seq![109u8, 97u8, 120u8, 119u8, 114u8, 97u8, 112u8] {
        Option::Some(Op::MaxWrap)
    } else if s == seq![105u8, 102u8] {
        Option::Some(Op::If)
    } else if s == seq![33u8, 105u8, 102u8] {
        Option::Some(Op::NotIf)
    } else if s == seq![101u8, 119u8, 109u8, 97u8] {
        Option::Some(Op::Ewma)
    } else if s == seq![108u8, 101u8, 116u8] {
        Option::Some(Op::Let)
    } else if s == seq![100u8, 101u8, 102u8] {
        Option::Some(Op::Def)
    } else {
        Option::None
    }
}

/// Recognise an operator word.
fn word_op(w: &Vec<u8>) -> (r: Option<Op>)
    ensures
        r == spec_word_op(w@),
{
    let n = w.len();
    let r = if n == 1 {
        let b = w[0];
        if b == 43u8 {
            Some(Op::Add)
        } else if b == 45u8 {
            Some(Op::Sub)
        } else if b == 42u8 {
            Some(Op::Mul)
        } else if b == 47u8 {
            Some(Op::Div)
        } else if b == 62u8 {
            Some(Op::Gt)
        } else if b == 60u8 {
            Some(Op::Lt)
        } else {
            None
        }
    } else if n == 2 {
        if w[0] == 61u8 && w[1] == 61u8 {
            Some(Op::Equiv)
        } else if w[0] == 58u8 && w[1] == 61u8 {
            Some(Op::Bind)
        } else if w[0] == 105u8 && w[1] == 102u8 {
            Some(Op::If)
        } else {
            None
        }
    } else if n == 3 {
        if w[0] == 109u8 && w[1] == 97u8 && w[2] == 120u8 {
            Some(Op::Max)
        } else if w[0] == 109u8 && w[1] == 105u8 && w[2] == 110u8 {
            Some(Op::Min)
        } else if w[0] == 33u8 && w[1] == 105u8 && w[2] == 102u8 {
            Some(Op::NotIf)
        } else if w[0] == 108u8 && w[1] == 101u8 && w[2] == 116u8 {
            Some(Op::Let)
        } else if w[0] == 100u8 && w[1] == 101u8 && w[2] == 102u8 {
            Some(Op::Def)
        } else {
            None
        }
    } else if n == 4 {
        if w[0] == 98u8 && w[1] == 105u8 && w[2] == 110u8 && w[3] == 100u8 {
            Some(Op::Bind)
        } else if w[0] == 101u8 && w[1] == 119u8 && w[2] == 109u8 && w[3] == 97u8 {
            Some(Op::Ewma)
        } else {
            None
        }
    } else if n == 7 {
        if w[0] == 109u8 && w[1] == 97u8 && w[2] == 120u8 && w[3] == 119u8 && w[4] == 114u8 && w[5]
            == 97u8 && w[6] == 112u8 {
            Some(Op::MaxWrap)
        } else {
            None
        }
    } else {
        None
    };
    proof {
        assert(w@.len() == 1 ==> w@ =~= seq![w@[0]]);
        assert(w@.len() == 2 ==> w@ =~= seq![w@[0], w@[1]]);
        assert(w@.len() == 3 ==> w@ =~= seq![w@[0], w@[1], w@[2]]);
        assert(w@.len() == 4 ==> w@ =~= seq![w@[0], w@[1], w@[2], w@[3]]);
        assert(w@.len() == 7 ==> w@ =~= seq![w@[0], w@[1], w@[2], w@[3], w@[4], w@[5], w@[6]]);
    }
    r
}

/// The bytes of the literal `true`.
pub open spec fn true_word() -> Seq<u8> {
    seq![116u8, 114u8, 117u8, 101u8]
}

/// The bytes of the literal `false`.
pub open spec fn false_word() -> Seq<u8> {
    seq![102u8, 97u8, 108u8, 115u8, 101u8]
}

/// The atom a word denotes, if any: the boolean literals, a decimal
/// number (a word beginning with a digit), or a name of letters, digits,
/// `.` and `_`.
pub open spec fn spec_parse_atom(w: Seq<u8>) -> Option<PrimV> {
    if w == true_word() {
        Option::Some(PrimV::Bool(true))
    } else if w == false_word() {
        Option::Some(PrimV::Bool(false))
    } else if w.len() == 0 {
        Option::None
    } else if 48 <= w[0] <= 57 {
        if all_digits(w) && digits_val(w) <= u64::MAX {
            Option::Some(PrimV::Num(digits_val(w) as u64))
        } else {
            Option::None
        }
    } else if all_name_bytes(w) && vstd::utf8::valid_utf8(w) {
        Option::Some(PrimV::Name(vstd::utf8::decode_utf8(w)))
    } else {
        Option::None
    }
}

/// Classify a word as an atom: a boolean literal, a decimal number (a word
/// that begins with a digit), or a name of letters, digits, `.` and `_`.
fn parse_atom(w: &Vec<u8>) -> (r: Result<Prim, Error>)
    ensures
        match r {
            Result::Ok(p) => spec_parse_atom(w@) == Option::Some(prim_view(p)),
            Result::Err(_) => spec_parse_atom(w@) is None,
        },
{
    let n = w.len();
    if n == 0 {
        return Result::Err(Error::new("empty token"));
    }
    if n == 4 && w[0] == 116 && w[1] == 114 && w[2] == 117 && w[3] == 101 {
        proof {
            assert(w@ =~= true_word());
        }
        return Result::Ok(Prim::Bool(true));
    }
    if n == 5 && w[0] == 102 && w[1] == 97 && w[2] == 108 && w[3] == 115 && w[4] == 101 {
        proof {
            assert(w@ =~= false_word());
        }
        return Result::Ok(Prim::Bool(false));
    }
    let b0 = w[0];
    if 48 <= b0 && b0 <= 57 {
        let v = parse_num(w)?;
        return Result::Ok(Prim::Num(v));
    }
    let mut i: usize = 0;
    while i < n
        invariant
            n == w@.len(),
            i <= n,
            forall|j: int| 0 <= j < i ==> spec_name_byte(#[trigger] w@[j]),
        decreases n - i,
    {
        if !is_name_byte(w[i]) {
            return Result::Err(Error::new("invalid token"));
        }
        i += 1;
    }
    match bytes_to_string(w.as_slice()) {
        Some(s) => {
            proof {
                vstd::utf8::encode_utf8_decode_utf8(s@);
            }
            Result::Ok(Prim::Name(s))
        },
        _ => Result::Err(Error::new("invalid token")),
    }
}

/// Split source bytes into tokens: parentheses and words, with whitespace
/// skipped and `;` comments running to end of line.
#[verifier::rlimit(50)]
fn tokenize(src: &[u8]) -> (r: Result<Vec<Token>, Error>)
    ensures
        match r {
            Result::Ok(toks) => spec_tokenize(src@) == Option::Some(token_views(toks@)),
            Result::Err(_) => spec_tokenize(src@) is None,
        },
{
    let n = src.len();
    let mut toks: Vec<Token> = Vec::new();
    let mut i: usize = 0;
    proof {
        assert(src@.skip(0) =~= src@);
        match spec_tokenize(src@) {
            Option::Some(rest) => {
                assert(token_views(toks@) + rest =~= rest);
            },
            Option::None => {},
        }
    }
    while i < n
        invariant
            n == src@.len(),
            i <= n,
            spec_tokenize(src@.skip(i as int)) matches Option::Some(rest) ==> spec_tokenize(src@)
                == Option::Some(token_views(toks@) + rest),
            spec_tokenize(src@.skip(i as int)) is None ==> spec_tokenize(src@) is None,
        decreases n - i,
    {
        let ghost rem = src@.skip(i as int);
        let ghost tv0 = token_views(toks@);
        proof {
            assert(rem[0] == src@[i as int]);
        }
        let b = src[i];
        if b == 32 || b == 9 || b == 10 || b == 13 {
            proof {
                assert(rem.drop_first() =~= src@.skip(i as int + 1));
            }
            i += 1;
        } else if b == 59 {
            // a comment runs to the end of the line
            let ghost i0 = i as int;
            i += 1;
            while i < n && src[i] != 10
                invariant
                    n == src@.len(),
                    i0 < i <= n,
                    forall|j: int| i0 < j < i ==> #[trigger] src@[j] != 10,
                decreases n - i,
            {
                i += 1;
            }
            proof {
                let tail = rem.drop_first();
                assert(forall|j: int| 0 <= j < i - i0 - 1 ==> #[trigger] tail[j] == src@[i0 + 1
                    + j]);
                lemma_comment_run_exact(tail, i - i0 - 1);
                assert(rem.skip(1 + comment_run(tail) as int) =~= src@.skip(i as int));
            }
        } else if b == 40 {
            toks.push(Token::Open);
            proof {
                assert(rem.drop_first() =~= src@.skip(i as int + 1));
                assert(token_views(toks@) =~= tv0.push(TokenV::Open));
                match spec_tokenize(src@.skip(i as int + 1)) {
                    Option::Some(rest2) => {
                        assert(tv0 + (seq![TokenV::Open] + rest2) =~= token_views(toks@) + rest2);
                    },
                    Option::None => {},
                }
            }
            i += 1;
        } else if b == 41 {
            toks.push(Token::Close);
            proof {
                assert(rem.drop_first() =~= src@.skip(i as int + 1));
                assert(token_views(toks@) =~= tv0.push(TokenV::Close));
                match spec_tokenize(src@.skip(i as int + 1)) {
                    Option::Some(rest2) => {
                        assert(tv0 + (seq![TokenV::Close] + rest2) =~= token_views(toks@) + rest2);
                    },
                    Option::None => {},
                }
            }
            i += 1;
        } else if is_word_byte(b) {
            let ghost i0 = i as int;
            let mut w: Vec<u8> = Vec::new();
            w.push(b);
            i += 1;
            while i < n && is_word_byte(src[i])
                invariant
                    n == src@.len(),
                    i0 < i <= n,
                    w@.len() == i - i0,
                    forall|j: int| 0 <= j < i - i0 ==> #[trigger] w@[j] == src@[i0 + j],
                    forall|j: int| i0 <= j < i ==> spec_word_byte(#[trigger] src@[j]),
                decreases n - i,
            {
                w.push(src[i]);
                i += 1;
            }
            proof {
                assert(forall|j: int| 0 <= j < i - i0 ==> #[trigger] rem[j] == src@[i0 + j]);
                lemma_word_run_exact(rem, i - i0);
                assert(rem.take(i - i0) =~= w@);
                assert(rem.skip(i - i0) =~= src@.skip(i as int));
            }
            let ghost wv = w@;
            toks.push(Token::Word(w));
            proof {
                assert(token_views(toks@) =~= tv0.push(TokenV::Word(wv)));
                match spec_tokenize(src@.skip(i as int)) {
                    Option::Some(rest2) => {
                        assert(tv0 + (seq![TokenV::Word(wv)] + rest2) =~= token_views(toks@)
                            + rest2);
                    },
                    Option::None => {},
                }
            }
        } else {
            return Result::Err(Error::new("invalid byte in source"));
        }
    }
    proof {
        assert(src@.skip(n as int).len() == 0);
        assert(token_views(toks@) + Seq::<TokenV>::empty() =~= token_views(toks@));
    }
    Result::Ok(toks)
}

/// The expression starting at token `pos`, and the position after it, if
/// one is there: an atom, or a parenthesised operator with one operand
/// (the unused slot becomes the placeholder) or two. `def` may not stand
/// in expression position.
pub open spec fn spec_parse_expr(ts: Seq<TokenV>, pos: int) -> Option<(ExprV, int)>
    decreases ts.len() - pos,
{
    if pos < 0 || pos >= ts.len() {
        Option::None
    } else {
        match ts[pos] {
            TokenV::Word(w) => match spec_parse_atom(w) {
                Option::Some(p) => Option::Some((ExprV::Atom(p), pos + 1)),
                Option::None => Option::None,
            },
            TokenV::Close => Option::None,
            TokenV::Open => if pos + 1 >= ts.len() {
                Option::None
            } else {
                match ts[pos + 1] {
                    TokenV::Word(w) => match spec_word_op(w) {
                        Option::Some(o) => if o == Op::Def {
                            Option::None
                        } else {
                            match spec_parse_expr(ts, pos + 2) {
                                Option::Some((l, p1)) => if !(pos + 2 < p1 <= ts.len()) {
                                    Option::None
                                } else if p1 == ts.len() {
                                    Option::None
                                } else if ts[p1] == TokenV::Close {
                                    Option::Some(
                                        (
                                            ExprV::Sexp(o, Box::new(l), Box::new(ExprV::Void)),
                                            p1 + 1,
                                        ),
                                    )
                                } else {
                                    match spec_parse_expr(ts, p1) {
                                        Option::Some((rr, p2)) => if !(p1 < p2 <= ts.len()) {
                                            Option::None
                                        } else if p2 == ts.len() {
                                            Option::None
                                        } else if ts[p2] == TokenV::Close {
                                            Option::Some(
                                                (
                                                    ExprV::Sexp(o, Box::new(l), Box::new(rr)),
                                                    p2 + 1,
                                                ),
                                            )
                                        } else {
                                            Option::None
                                        },
                                        Option::None => Option::None,
                                    }
                                },
                                Option::None => Option::None,
                            }
                        },
                        Option::None => Option::None,
                    },
                    _ => Option::None,
                }
            },
        }
    }
}

/// A parsed expression carries no `def`: the parser rejects that
/// operator in expression position.
proof fn lemma_parse_expr_no_def(ts: Seq<TokenV>, pos: int)
    ensures
        spec_parse_expr(ts, pos) matches Option::Some(t) ==> expr_no_def(t.0),
    decreases ts.len() - pos,
{
    if 0 <= pos < ts.len() {
        match ts[pos] {
            TokenV::Open => {
                if pos + 1 < ts.len() {
                    match ts[pos + 1] {
                        TokenV::Word(w) => {
                            match spec_word_op(w) {
                                Option::Some(o) => {
                                    if o != Op::Def {
                                        assert(expr_no_def(ExprV::Void));
                                        lemma_parse_expr_no_def(ts, pos + 2);
                                        match spec_parse_expr(ts, pos + 2) {
                                            Option::Some((l, p1)) => {
                                                if pos + 2 < p1 && p1 < ts.len() {
                                                    lemma_parse_expr_no_def(ts, p1);
                                                }
                                            },
                                            Option::None => {},
                                        }
                                    }
                                },
                                Option::None => {},
                            }
                        },
                        _ => {},
                    }
                }
            },
            _ => {},
        }
    }
}

/// Parse one expression starting at token `pos`: an atom, or a
/// parenthesised operator with one operand (the unused slot becomes
/// `Expr::Void`) or two.
fn parse_expr(tokens: &Vec<Token>, pos: usize) -> (r: Result<(Expr, usize), Error>)
    requires
        pos <= tokens@.len(),
    ensures
        match r {
            Result::Ok(t) => pos < t.1 <= tokens@.len() && spec_parse_expr(
                token_views(tokens@),
                pos as int,
            ) == Option::Some((expr_view(t.0), t.1 as int)),
            Result::Err(_) => spec_parse_expr(token_views(tokens@), pos as int) is None,
        },
    decreases tokens@.len() - pos,
{
    proof {
        if pos < tokens@.len() {
            assert(token_views(tokens@)[pos as int] == token_view(tokens@[pos as int]));
        }
    }
    if pos >= tokens.len() {
        return Result::Err(Error::new("unexpected end of input"));
    }
    match &tokens[pos] {
        Token::Word(w) => {
            let a = parse_atom(w)?;
            Result::Ok((Expr::Atom(a), pos + 1))
        },
        Token::Close => Result::Err(Error::new("unexpected closing parenthesis")),
        Token::Open => {
            if pos + 1 >= tokens.len() {
                return Result::Err(Error::new("unexpected end of input"));
            }
            proof {
                assert(token_views(tokens@)[pos as int + 1] == token_view(tokens@[pos as int + 1]));
            }
            let o = match &tokens[pos + 1] {
                Token::Word(w) => match word_op(w) {
                    Some(o) => o,
                    _ => {
                        return Result::Err(Error::new("unknown operator"));
                    },
                },
                _ => {
                    return Result::Err(Error::new("expected an operator"));
                },
            };
            let is_def = match o {
                Op::Def => true,
                _ => false,
            };
            if is_def {
                return Result::Err(Error::new("def may only open a program"));
            }
            let (left, p1) = parse_expr(tokens, pos + 2)?;
            if p1 >= tokens.len() {
                return Result::Err(Error::new("unexpected end of input"));
            }
            proof {
                assert(token_views(tokens@)[p1 as int] == token_view(tokens@[p1 as int]));
            }
            let close_now = match &tokens[p1] {
                Token::Close => true,
                _ => false,
            };
            if close_now {
                proof {
                    assert(expr_view(Expr::Void) == ExprV::Void);
                }
                return Result::Ok(
                    (Expr::Sexp(o, Box::new(left), Box::new(Expr::Void)), p1 + 1),
                );
            }
            let (right, p2) = parse_expr(tokens, p1)?;
            if p2 >= tokens.len() {
                return Result::Err(Error::new("unexpected end of input"));
            }
            proof {
                assert(token_views(tokens@)[p2 as int] == token_view(tokens@[p2 as int]));
            }
            match &tokens[p2] {
                Token::Close => Result::Ok(
                    (Expr::Sexp(o, Box::new(left), Box::new(right)), p2 + 1),
                ),
                _ => Result::Err(Error::new("expected closing parenthesis")),
            }
        },
    }
}

/// The declarations of a `def` group from token `pos`, threading the
/// name environment and the permanent registers: each `(name num)`
/// installs `Flow.<name>` as the next permanent carrying its initial
/// value, and the group ends at its closing parenthesis. Nothing on a
/// malformed group, a redeclared name, or too many declarations.
pub open spec fn spec_parse_defs(
    ts: Seq<TokenV>,
    pos: int,
    nm: Seq<(Seq<char>, Reg)>,
    perms: Seq<Reg>,
) -> Option<(int, Seq<(Seq<char>, Reg)>, Seq<Reg>)>
    decreases ts.len() - pos,
{
    if pos < 0 || pos >= ts.len() {
        Option::None
    } else if ts[pos] == TokenV::Close {
        Option::Some((pos + 1, nm, perms))
    } else if ts[pos] != TokenV::Open {
        Option::None
    } else if ts.len() - pos < 4 {
        Option::None
    } else {
        let name = match ts[pos + 1] {
            TokenV::Word(w) => spec_parse_atom(w),
            _ => Option::None,
        };
        let init = match ts[pos + 2] {
            TokenV::Word(w) => spec_parse_atom(w),
            _ => Option::None,
        };
        match (name, init) {
            (Option::Some(PrimV::Name(s)), Option::Some(PrimV::Num(v))) => if ts[pos + 3]
                != TokenV::Close {
                Option::None
            } else {
                let full = "Flow."@ + s;
                if !(spec_lookup_v(nm, full) is None) {
                    Option::None
                } else if perms.len() >= 256 {
                    Option::None
                } else {
                    let r = Reg::Perm(perms.len() as u8, Type::Num(Option::Some(v)));
                    spec_parse_defs(ts, pos + 4, nm.push((full, r)), perms.push(r))
                }
            },
            _ => Option::None,
        }
    }
}

/// Parse the declarations of a `def` group, installing each as a new
/// permanent register named `Flow.<name>` with its initial value; returns
/// the position after the group's closing parenthesis.
fn parse_defs(tokens: &Vec<Token>, pos: usize, scope: &mut Scope) -> (r: Result<usize, Error>)
    requires
        scope_wf(*old(scope)),
        pos <= tokens@.len(),
    ensures
        scope_wf(*final(scope)),
        final(scope).primitives() == old(scope).primitives(),
        final(scope).tmps() == old(scope).tmps(),
        match r {
            Result::Ok(p2) => p2 <= tokens@.len() && spec_parse_defs(
                token_views(tokens@),
                pos as int,
                named_model(old(scope).named_seq()),
                old(scope).permanents(),
            ) == Option::Some(
                (p2 as int, named_model(final(scope).named_seq()), final(scope).permanents()),
            ),
            Result::Err(_) => spec_parse_defs(
                token_views(tokens@),
                pos as int,
                named_model(old(scope).named_seq()),
                old(scope).permanents(),
            ) is None,
        },
{
    let n = tokens.len();
    let ghost tv = token_views(tokens@);
    let ghost nm0 = named_model(old(scope).named_seq());
    let ghost perms0 = old(scope).permanents();
    let mut p = pos;
    loop
        invariant
            n == tokens@.len(),
            p <= n,
            scope_wf(*scope),
            scope.primitives() == old(scope).primitives(),
            scope.tmps() == old(scope).tmps(),
            tv == token_views(tokens@),
            nm0 == named_model(old(scope).named_seq()),
            perms0 == old(scope).permanents(),
            spec_parse_defs(tv, pos as int, nm0, perms0) == spec_parse_defs(
                tv,
                p as int,
                named_model(scope.named_seq()),
                scope.permanents(),
            ),
        decreases n - p,
    {
        proof {
            if p < n {
                assert(tv[p as int] == token_view(tokens@[p as int]));
            }
            if p + 1 < n {
                assert(tv[p as int + 1] == token_view(tokens@[p as int + 1]));
            }
            if p + 2 < n {
                assert(tv[p as int + 2] == token_view(tokens@[p as int + 2]));
            }
            if p + 3 < n {
                assert(tv[p as int + 3] == token_view(tokens@[p as int + 3]));
            }
        }
        if p >= n {
            return Result::Err(Error::new("unterminated def group"));
        }
        let is_close = match &tokens[p] {
            Token::Close => true,
            _ => false,
        };
        if is_close {
            return Result::Ok(p + 1);
        }
        let is_open = match &tokens[p] {
            Token::Open => true,
            _ => false,
        };
        if !is_open {
            return Result::Err(Error::new("expected a declaration"));
        }
        if n - p < 4 {
            return Result::Err(Error::new("unterminated declaration"));
        }
        let name = match &tokens[p + 1] {
            Token::Word(w) => match parse_atom(w)? {
                Prim::Name(s) => s,
                _ => {
                    return Result::Err(Error::new("expected a name in a def slot"));
                },
            },
            _ => {
                return Result::Err(Error::new("non-atom in a def slot"));
            },
        };
        let init = match &tokens[p + 2] {
            Token::Word(w) => match parse_atom(w)? {
                Prim::Num(v) => v,
                _ => {
                    return Result::Err(Error::new("non-numeric initial value"));
                },
            },
            _ => {
                return Result::Err(Error::new("non-numeric initial value"));
            },
        };
        let ok_close = match &tokens[p + 3] {
            Token::Close => true,
            _ => false,
        };
        if !ok_close {
            return Result::Err(Error::new("unterminated declaration"));
        }
        let mut full = String::from_str("Flow.");
        full.append(name.as_str());
        let ghost fullv = full@;
        proof {
            lemma_lookup_model(scope.named_seq(), full@);
        }
        let already = match scope.get(&full) {
            Some(_) => true,
            _ => false,
        };
        if already {
            return Result::Err(Error::new("redeclared name"));
        }
        if scope.num_perms() >= 256 {
            return Result::Err(Error::new("too many declarations"));
        }
        let ghost before_named = scope.named_seq();
        let newreg = scope.new_perm(full, Type::Num(Some(init)));
        proof {
            assert(named_model(scope.named_seq()) =~= named_model(before_named).push(
                (fullv, newreg),
            ));
        }
        p = p + 4;
    }
}

/// The top-level expressions from token `pos` to the end of the stream.
pub open spec fn spec_parse_body(ts: Seq<TokenV>, pos: int) -> Option<Seq<ExprV>>
    decreases ts.len() - pos,
{
    if pos < 0 || pos > ts.len() {
        Option::None
    } else if pos == ts.len() {
        Option::Some(Seq::empty())
    } else {
        match spec_parse_expr(ts, pos) {
            Option::Some((e, p2)) => if !(pos < p2 <= ts.len()) {
                Option::None
            } else {
                match spec_parse_body(ts, p2) {
                    Option::Some(rest) => Option::Some(seq![e] + rest),
                    Option::None => Option::None,
                }
            },
            Option::None => Option::None,
        }
    }
}

/// Whether the token stream opens with a `def` group.
pub open spec fn spec_has_defs(ts: Seq<TokenV>) -> bool {
    ts.len() >= 2 && ts[0] == TokenV::Open && match ts[1] {
        TokenV::Word(w) => spec_word_op(w) == Option::Some(Op::Def),
        _ => false,
    }
}

/// The name environment every program starts from: the measurement
/// primitives in alphabetical order, then the implicit `isUrgent`.
pub open spec fn initial_named() -> Seq<(Seq<char>, Reg)> {
    seq![
        ("Ack"@, Reg::Const(0u8, Type::Num(Option::<u64>::None))),
        ("Ecn"@, Reg::Const(1u8, Type::Num(Option::<u64>::None))),
        ("Loss"@, Reg::Const(2u8, Type::Num(Option::<u64>::None))),
        ("Mss"@, Reg::Const(3u8, Type::Num(Option::<u64>::None))),
        ("RcvRate"@, Reg::Const(4u8, Type::Num(Option::<u64>::None))),
        ("Rtt"@, Reg::Const(5u8, Type::Num(Option::<u64>::None))),
        ("SndCwnd"@, Reg::Const(6u8, Type::Num(Option::<u64>::None))),
        ("SndRate"@, Reg::Const(7u8, Type::Num(Option::<u64>::None))),
        ("isUrgent"@, Reg::Perm(0u8, Type::Bool(Option::<bool>::None))),
    ]
}

/// The permanent registers every program starts from.
pub open spec fn initial_perms() -> Seq<Reg> {
    seq![Reg::Perm(0u8, Type::Bool(Option::<bool>::None))]
}

/// The functional specification of parsing a whole program: lex the
/// source, install an optional leading `def` group (with at least one
/// declaration) over the initial scope, then read at least one
/// expression, consuming every token. Parsing is a function of the
/// source bytes alone.
pub open spec fn spec_new_with_scope(src: Seq<u8>) -> Option<
    (Seq<ExprV>, Seq<(Seq<char>, Reg)>, Seq<Reg>),
> {
    match spec_tokenize(src) {
        Option::Some(ts) => {
            let start = if spec_has_defs(ts) {
                match spec_parse_defs(ts, 2, initial_named(), initial_perms()) {
                    Option::Some((pos, nm, perms)) => if perms.len() <= 1 {
                        Option::None
                    } else {
                        Option::Some((pos, nm, perms))
                    },
                    Option::None => Option::None,
                }
            } else {
                Option::Some((0int, initial_named(), initial_perms()))
            };
            match start {
                Option::Some((pos, nm, perms)) => match spec_parse_body(ts, pos) {
                    Option::Some(body) => if body.len() == 0 {
                        Option::None
                    } else {
                        Option::Some((body, nm, perms))
                    },
                    Option::None => Option::None,
                },
                Option::None => Option::None,
            }
        },
        Option::None => Option::None,
    }
}

impl Prog {
    /// Parse source bytes into a program body and its scope: an optional
    /// leading `(def (name num) ...)` group installs permanent registers,
    /// and the remaining expressions, at least one, become the body.
    pub fn new_with_scope(source: &[u8]) -> (r: Result<(Prog, Scope), Error>)
        ensures
            match r {
                Result::Ok(t) => scope_wf(t.1) && t.1.tmps().len() == 0 && t.0.0@.len() >= 1 && (
                forall|k: int| 0 <= k < t.0.0@.len() ==> expr_no_def(#[trigger] body_view(t.0.0@)[k]))
                    && spec_new_with_scope(source@) == Option::Some(
                    (body_view(t.0.0@), named_model(t.1.named_seq()), t.1.permanents()),
                ),
                Result::Err(_) => spec_new_with_scope(source@) is None,
            },
    {
        let tokens = tokenize(source)?;
        let ghost tv = token_views(tokens@);
        let mut scope = Scope::new();
        proof {
            assert(named_model(scope.named_seq()) =~= initial_named());
            assert(scope.permanents() =~= initial_perms());
        }
        let mut pos: usize = 0;
        let has_defs = if tokens.len() >= 2 {
            proof {
                assert(tv[0] == token_view(tokens@[0]));
                assert(tv[1] == token_view(tokens@[1]));
            }
            let a = match &tokens[0] {
                Token::Open => true,
                _ => false,
            };
            let b = match &tokens[1] {
                Token::Word(w) => match word_op(w) {
                    Some(Op::Def) => true,
                    _ => false,
                },
                _ => false,
            };
            a && b
        } else {
            false
        };
        proof {
            assert(has_defs == spec_has_defs(tv));
        }
        if has_defs {
            pos = parse_defs(&tokens, 2, &mut scope)?;
            if scope.num_perms() == 1 {
                return Result::Err(Error::new("empty declaration group"));
            }
        }
        let ghost start = pos as int;
        let ghost nm1 = named_model(scope.named_seq());
        let ghost perms1 = scope.permanents();
        let mut body: Vec<Expr> = Vec::new();
        while pos < tokens.len()
            invariant
                pos <= tokens@.len(),
                tv == token_views(tokens@),
                scope_wf(scope),
                scope.tmps().len() == 0,
                nm1 == named_model(scope.named_seq()),
                perms1 == scope.permanents(),
                spec_tokenize(source@) == Option::Some(tv),
                0 <= start <= tokens@.len(),
                spec_has_defs(tv) ==> spec_parse_defs(tv, 2, initial_named(), initial_perms())
                    == Option::Some((start, nm1, perms1)) && perms1.len() > 1,
                !spec_has_defs(tv) ==> start == 0 && nm1 == initial_named() && perms1
                    == initial_perms(),
                forall|k2: int| 0 <= k2 < body@.len() ==> expr_no_def(
                    #[trigger] body_view(body@)[k2],
                ),
                spec_parse_body(tv, pos as int) matches Option::Some(rest) ==> spec_parse_body(
                    tv,
                    start,
                ) == Option::Some(body_view(body@) + rest),
                spec_parse_body(tv, pos as int) is None ==> spec_parse_body(tv, start) is None,
            decreases tokens@.len() - pos,
        {
            let ghost bv0 = body_view(body@);
            let (e, p2) = match parse_expr(&tokens, pos) {
                Result::Ok(t) => t,
                Result::Err(err) => {
                    proof {
                        assert(spec_parse_expr(tv, pos as int) is None);
                        assert(spec_parse_body(tv, pos as int) is None);
                        assert(spec_parse_body(tv, start) is None);
                        assert(spec_tokenize(source@) == Option::Some(tv));
                        if spec_has_defs(tv) {
                            assert(spec_parse_defs(tv, 2, initial_named(), initial_perms())
                                == Option::Some((start, nm1, perms1)));
                        } else {
                            assert(start == 0);
                            assert(nm1 == initial_named());
                            assert(perms1 == initial_perms());
                        }
                        assert(spec_new_with_scope(source@) is None);
                    }
                    return Result::Err(err);
                },
            };
            let ghost ev = expr_view(e);
            body.push(e);
            proof {
                lemma_parse_expr_no_def(tv, pos as int);
                assert(body_view(body@) =~= bv0.push(ev));
                match spec_parse_body(tv, p2 as int) {
                    Option::Some(rest2) => {
                        assert(spec_parse_body(tv, pos as int) == Option::Some(seq![ev] + rest2));
                        assert(bv0 + (seq![ev] + rest2) =~= body_view(body@) + rest2);
                    },
                    Option::None => {},
                }
            }
            pos = p2;
        }
        proof {
            assert(spec_parse_body(tv, pos as int) == Option::Some(Seq::<ExprV>::empty()));
            assert(body_view(body@) + Seq::<ExprV>::empty() =~= body_view(body@));
        }
        if body.len() == 0 {
            return Result::Err(Error::new("empty program"));
        }
        Result::Ok((Prog(body), scope))
    }
}

} // verus!
