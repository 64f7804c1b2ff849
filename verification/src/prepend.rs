//! New code in front of a function.
//!
//! Every jump is relative, so instructions that come before a whole function move the source and
//! the target of each of its jumps alike, and leave the function as it was.

use vstd::prelude::*;
use hlbc::opcodes::Opcode;
use hlbc::types::{Function, RefType, Reg};
use crate::gate::source_at;
use crate::lookup::{first_where, lemma_first_where_is, lemma_first_where_none};
use crate::module::{function_view, FunctionView, Module, ModuleView};
use crate::sites::{method_findex, reg_type, Failure, Method, PatchError};

verus! {

/// The values of `results`, or the first error among them.
pub open spec fn all_ok<T>(results: Seq<Result<T, Failure>>) -> Result<Seq<T>, Failure> {
    match first_where(results, |r: Result<T, Failure>| r is Err) {
        Some(i) => Err(results[i]->Err_0),
        None => Ok(Seq::new(results.len(), |i: int| results[i]->Ok_0)),
    }
}

/// A register whose type new code takes over: the function, its number, and the register.
#[derive(Clone, Copy, Debug)]
pub struct TypeSource {
    pub method: Method,
    pub findex: usize,
    pub reg: usize,
}

impl ModuleView {
    /// The numbers of several methods of the game.
    pub open spec fn method_list(self, methods: Seq<Method>) -> Result<Seq<usize>, Failure> {
        all_ok(Seq::new(methods.len(), |i: int| self.method(methods[i])))
    }

    /// The types of several registers.
    pub open spec fn type_list(self, sources: Seq<TypeSource>) -> Result<Seq<RefType>, Failure> {
        all_ok(
            Seq::new(
                sources.len(),
                |i: int|
                    self.reg_type(sources[i].findex, sources[i].reg as int, sources[i].method),
            ),
        )
    }
}

/// Finds the numbers of several methods of the game.
pub fn method_findexes(code: &Module, methods: &Vec<Method>) -> (found: Result<
    Vec<usize>,
    PatchError,
>)
    ensures
        match found {
            Ok(numbers) => code@.method_list(methods@) == Ok::<Seq<usize>, Failure>(numbers@),
            Err(e) => code@.method_list(methods@) == Err::<Seq<usize>, Failure>(e@),
        },
{
    let ghost results = Seq::new(methods@.len(), |i: int| code@.method(methods@[i]));
    let ghost failed = |r: Result<usize, Failure>| r is Err;
    let mut numbers: Vec<usize> = Vec::new();
    for i in 0..methods.len()
        invariant
            results == Seq::new(methods@.len(), |i: int| code@.method(methods@[i])),
            failed == (|r: Result<usize, Failure>| r is Err),
            numbers@.len() == i,
            forall|j: int| 0 <= j < i ==> !failed(#[trigger] results[j]),
            forall|j: int| 0 <= j < i ==> numbers@[j] == (#[trigger] results[j])->Ok_0,
    {
        match method_findex(code, methods[i]) {
            Ok(findex) => numbers.push(findex),
            Err(error) => {
                proof {
                    assert(results[i as int] == Err::<usize, Failure>(error@));
                    lemma_first_where_is(results, failed, i as int);
                }
                return Err(error);
            },
        }
    }
    proof {
        lemma_first_where_none(results, failed);
        assert(numbers@ =~= Seq::new(results.len(), |i: int| results[i]->Ok_0));
    }
    Ok(numbers)
}

/// Finds the types of several registers.
pub fn register_types(code: &Module, sources: &Vec<TypeSource>) -> (found: Result<
    Vec<RefType>,
    PatchError,
>)
    ensures
        match found {
            Ok(types) => code@.type_list(sources@) == Ok::<Seq<RefType>, Failure>(types@),
            Err(e) => code@.type_list(sources@) == Err::<Seq<RefType>, Failure>(e@),
        },
{
    let ghost results = Seq::new(
        sources@.len(),
        |i: int| code@.reg_type(sources@[i].findex, sources@[i].reg as int, sources@[i].method),
    );
    let ghost failed = |r: Result<RefType, Failure>| r is Err;
    let mut types: Vec<RefType> = Vec::new();
    for i in 0..sources.len()
        invariant
            results == Seq::new(
                sources@.len(),
                |i: int|
                    code@.reg_type(sources@[i].findex, sources@[i].reg as int, sources@[i].method),
            ),
            failed == (|r: Result<RefType, Failure>| r is Err),
            types@.len() == i,
            forall|j: int| 0 <= j < i ==> !failed(#[trigger] results[j]),
            forall|j: int| 0 <= j < i ==> types@[j] == (#[trigger] results[j])->Ok_0,
    {
        match reg_type(code, sources[i].findex, sources[i].reg, sources[i].method) {
            Ok(t) => types.push(t),
            Err(error) => {
                proof {
                    assert(results[i as int] == Err::<RefType, Failure>(error@));
                    lemma_first_where_is(results, failed, i as int);
                }
                return Err(error);
            },
        }
    }
    proof {
        lemma_first_where_none(results, failed);
        assert(types@ =~= Seq::new(results.len(), |i: int| results[i]->Ok_0));
    }
    Ok(types)
}

/// The function `f` with the registers `regs` behind its own and the instructions `ops` before
/// its own. The new instructions have the source position of the first old one.
pub open spec fn prepended(f: FunctionView, regs: Seq<RefType>, ops: Seq<Opcode>) -> FunctionView {
    FunctionView {
        regs: f.regs + regs,
        ops: ops + f.ops,
        debug_info: match f.debug_info {
            Some(lines) => Some(Seq::new(ops.len(), |i: int| source_at(lines, 0)) + lines),
            None => None,
        },
        assigns: Some(Seq::empty()),
        ..f
    }
}

/// The register `k` places behind the first `base` ones.
pub open spec fn reg_above(base: u32, k: u32) -> Reg {
    Reg(base.wrapping_add(k))
}

/// The register `k` places behind the first `base` ones.
pub fn nth_above(base: u32, k: u32) -> (reg: Reg)
    ensures
        reg == reg_above(base, k),
{
    Reg(base.wrapping_add(k))
}

/// Puts new code before a function.
pub fn prepend(f: &mut Function, regs: Vec<RefType>, ops: Vec<Opcode>)
    ensures
        function_view(*final(f)) == prepended(function_view(*old(f)), regs@, ops@),
{
    let mut regs = regs;
    let mut ops = ops;
    let ghost added = ops@.len();
    let count = ops.len();
    f.regs.append(&mut regs);
    ops.append(&mut f.ops);
    f.ops = ops;
    if let Some(lines) = &mut f.debug_info {
        let first = if lines.len() > 0 {
            lines[0]
        } else {
            (0, 0)
        };
        let ghost orig = lines@;
        let mut new_lines: Vec<(usize, usize)> = Vec::new();
        for i in 0..count
            invariant
                new_lines@ == Seq::new(i as nat, |k: int| first),
        {
            new_lines.push(first);
            assert(Seq::new((i + 1) as nat, |k: int| first) =~= Seq::new(
                i as nat,
                |k: int| first,
            ).push(first));
        }
        new_lines.append(lines);
        *lines = new_lines;
        assert(lines@ =~= Seq::new(added, |i: int| source_at(orig, 0)) + orig);
    }
    f.assigns = Some(Vec::new());
}

} // verus!
