//! The language-level error type and the top-level compile entry points.

use vstd::prelude::*;
use vstd::string::StringExecFns;
use crate::ast::{Prog, spec_new_with_scope};
use crate::datapath::{
    Bin, Scope, defs_prefixed, instr_consts_lt, instr_plain, named_model, no_placeholder_res,
    scope_wf, spec_compile_prog,
};
use crate::datapath::Instr;
use crate::serialize::{bin_ser_ok, spec_ser_bin};

verus! {

/// A compilation error: malformed syntax, an unknown operator or name, a
/// redeclared name, a type mismatch, or a misplaced control operator. The
/// payload is a human-readable description.
#[derive(Debug)]
pub struct Error(pub String);

impl Error {
    /// Build an error from a literal description.
    pub fn new(msg: &str) -> (r: Error)
        ensures
            r.0@ == msg@,
    {
        Error(String::from_str(msg))
    }

    /// Build an error from a literal description and an offending token.
    pub fn with_detail(msg: &str, detail: &str) -> (r: Error)
        ensures
            r.0@ == msg@ + detail@,
    {
        let mut s = String::from_str(msg);
        s.append(detail);
        Error(s)
    }

    /// The error's description.
    pub fn message(&self) -> (r: &str)
        ensures
            r@ == self.0@,
    {
        self.0.as_str()
    }
}

/// Relies on `core::str::from_utf8`: it succeeds exactly on valid UTF-8,
/// and the characters of the resulting string encode back to the input
/// bytes.
#[verifier::external_body]
pub(crate) fn bytes_to_string(v: &[u8]) -> (r: Option<String>)
    ensures
        r is Some <==> vstd::utf8::valid_utf8(v@),
        match r {
            Option::Some(s) => vstd::utf8::encode_utf8(s@) == v@,
            Option::None => true,
        },
{
    match core::str::from_utf8(v) {
        Ok(s) => Some(s.to_owned()),
        _ => None,
    }
}

/// The functional specification of the whole compiler: parse the source,
/// then lower the body over the parsed scope. The bytecode is a function
/// of the source bytes alone, so compiling the same source twice yields
/// identical programs.
pub open spec fn spec_compile(src: Seq<u8>) -> Option<Seq<Instr>> {
    match spec_new_with_scope(src) {
        Option::Some((body, nm, perms)) => spec_compile_prog(body, nm, perms),
        Option::None => Option::None,
    }
}

/// Compile source text to bytecode: parse to an expression list and a
/// scope, then lower each top-level expression. The scope is returned so
/// that the caller can decode reported measurements by register index;
/// its name bindings and permanent registers are exactly those the parse
/// of this source installs, so two compilations of the same bytes agree
/// on both the bytecode and the scope.
///
/// A successful result is exactly `spec_compile` of the source: it
/// carries no placeholder result register, has every user permanent's
/// `Def` before any use, and mentions no unresolved name.
pub fn compile(src: &[u8]) -> (r: Result<(Bin, Scope), Error>)
    ensures
        match r {
            Result::Ok(t) => {
                &&& scope_wf(t.1)
                &&& no_placeholder_res(t.0.0@)
                &&& defs_prefixed(t.0.0@)
                &&& forall|k: int| 0 <= k < t.0.0@.len() ==> instr_plain(#[trigger] t.0.0@[k])
                &&& forall|k: int| 0 <= k < t.0.0@.len() ==> instr_consts_lt(#[trigger] t.0.0@[k])
                &&& spec_compile(src@) == Option::Some(t.0.0@)
                &&& spec_new_with_scope(src@) is Some
                &&& named_model(t.1.named_seq()) == spec_new_with_scope(src@).unwrap().1
                &&& t.1.permanents() == spec_new_with_scope(src@).unwrap().2
            },
            Result::Err(_) => spec_compile(src@) is None,
        },
{
    let (p, mut s) = Prog::new_with_scope(src)?;
    let b = Bin::compile_prog(&p, &mut s)?;
    Result::Ok((b, s))
}

/// Compile source text and encode the result for the datapath: the bytes
/// are the wire encoding of exactly `spec_compile` of the source, and
/// the scope is the same one `compile` returns for it.
pub fn compile_and_serialize(src: &[u8]) -> (r: Result<(Vec<u8>, Scope), Error>)
    ensures
        match r {
            Result::Ok(t) => {
                &&& scope_wf(t.1)
                &&& spec_compile(src@) is Some
                &&& bin_ser_ok(spec_compile(src@).unwrap())
                &&& no_placeholder_res(spec_compile(src@).unwrap())
                &&& defs_prefixed(spec_compile(src@).unwrap())
                &&& t.0@ == spec_ser_bin(spec_compile(src@).unwrap())
                &&& spec_new_with_scope(src@) is Some
                &&& named_model(t.1.named_seq()) == spec_new_with_scope(src@).unwrap().1
                &&& t.1.permanents() == spec_new_with_scope(src@).unwrap().2
            },
            Result::Err(_) => spec_compile(src@) is None,
        },
{
    let (b, s) = compile(src)?;
    proof {
        assert(bin_ser_ok(b.0@));
    }
    match b.serialize() {
        Result::Ok(v) => {
            proof {
                assert({
                    &&& bin_ser_ok(b.0@)
                    &&& no_placeholder_res(b.0@)
                    &&& defs_prefixed(b.0@)
                    &&& v@ == spec_ser_bin(b.0@)
                });
            }
            Result::Ok((v, s))
        },
        Result::Err(e) => {
            proof {
                assert(false);
            }
            Result::Err(e)
        },
    }
}

} // verus!
