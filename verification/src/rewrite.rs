//! The call-site rewriter.
//!
//! Every retained function's body is walked depth first; a call to a
//! snipped function is replaced by a block that still evaluates each
//! argument in its original left-to-right order, discards the results, and
//! then traps. Deleting a call must never delete the observable side
//! effects of evaluating that call's arguments. Functions that are
//! themselves snipped are skipped: their bodies are about to be deleted.

use vstd::prelude::*;

use crate::ir::{instr_view, instrs_view, lemma_instrs_view_index, lemma_instrs_view_len,
    marked_set, FuncKind, FuncKindV, FuncV, Function, Instr, InstrV, Module, ModuleV};

verus! {

broadcast use lemma_instrs_view_len, lemma_instrs_view_index;

/// One rewritten instruction: a call to a snipped function becomes a block
/// that evaluates the rewritten arguments in order and then traps; every
/// other instruction keeps its shape, with its operand sequences rewritten.
pub open spec fn rw_instr(i: InstrV, snip: Set<int>) -> InstrV
    decreases i,
{
    match i {
        InstrV::Trap => InstrV::Trap,
        InstrV::Const { value } => InstrV::Const { value },
        InstrV::LocalGet { local } => InstrV::LocalGet { local },
        InstrV::LocalSet { local, value } => InstrV::LocalSet {
            local,
            value: rw_body(value, snip),
        },
        InstrV::GlobalGet { global } => InstrV::GlobalGet { global },
        InstrV::GlobalSet { global, value } => InstrV::GlobalSet {
            global,
            value: rw_body(value, snip),
        },
        InstrV::Block { body } => InstrV::Block { body: rw_body(body, snip) },
        InstrV::Loop { body } => InstrV::Loop { body: rw_body(body, snip) },
        InstrV::If { cond, then_body, else_body } => InstrV::If {
            cond: rw_body(cond, snip),
            then_body: rw_body(then_body, snip),
            else_body: rw_body(else_body, snip),
        },
        InstrV::Call { func, args } => if snip.contains(func) {
            InstrV::Block { body: rw_body(args, snip) + seq![InstrV::Trap] }
        } else {
            InstrV::Call { func, args: rw_body(args, snip) }
        },
        InstrV::CallIndirect { table, ty, index, args } => InstrV::CallIndirect {
            table,
            ty,
            index: rw_body(index, snip),
            args: rw_body(args, snip),
        },
    }
}

/// An instruction sequence with every instruction rewritten in place.
pub open spec fn rw_body(s: Seq<InstrV>, snip: Set<int>) -> Seq<InstrV>
    decreases s,
{
    if s.len() == 0 {
        Seq::empty()
    } else {
        seq![rw_instr(s[0], snip)] + rw_body(s.drop_first(), snip)
    }
}

/// Rewriting keeps the length of an instruction sequence.
pub broadcast proof fn lemma_rw_body_len(s: Seq<InstrV>, snip: Set<int>)
    ensures
        (#[trigger] rw_body(s, snip)).len() == s.len(),
    decreases s,
{
    if s.len() != 0 {
        lemma_rw_body_len(s.drop_first(), snip);
    }
}

/// Rewriting an instruction sequence rewrites each instruction in place.
pub broadcast proof fn lemma_rw_body_index(s: Seq<InstrV>, snip: Set<int>, j: int)
    requires
        0 <= j < s.len(),
    ensures
        #[trigger] rw_body(s, snip)[j] == rw_instr(s[j], snip),
    decreases s,
{
    lemma_rw_body_len(s, snip);
    if j > 0 {
        lemma_rw_body_index(s.drop_first(), snip, j - 1);
    }
}

/// Rewrites one instruction as [`rw_instr`] says.
pub fn rewrite_instr(i: &Instr, to_snip: &Vec<bool>) -> (r: Instr)
    ensures
        r@ == rw_instr(i@, marked_set(to_snip@)),
    decreases *i,
{
    match i {
        Instr::Trap => Instr::Trap,
        Instr::Const { value } => Instr::Const { value: *value },
        Instr::LocalGet { local } => Instr::LocalGet { local: *local },
        Instr::LocalSet { local, value } => Instr::LocalSet {
            local: *local,
            value: rewrite_body(value, to_snip),
        },
        Instr::GlobalGet { global } => Instr::GlobalGet { global: *global },
        Instr::GlobalSet { global, value } => Instr::GlobalSet {
            global: *global,
            value: rewrite_body(value, to_snip),
        },
        Instr::Block { body } => Instr::Block { body: rewrite_body(body, to_snip) },
        Instr::Loop { body } => Instr::Loop { body: rewrite_body(body, to_snip) },
        Instr::If { cond, then_body, else_body } => Instr::If {
            cond: rewrite_body(cond, to_snip),
            then_body: rewrite_body(then_body, to_snip),
            else_body: rewrite_body(else_body, to_snip),
        },
        Instr::Call { func, args } => {
            let new_args = rewrite_body(args, to_snip);
            if *func < to_snip.len() && to_snip[*func] {
                let mut body = new_args;
                body.push(Instr::Trap);
                proof {
                    assert(instrs_view(body@) =~= rw_body(instrs_view(args@), marked_set(
                        to_snip@,
                    )) + seq![InstrV::Trap]);
                }
                Instr::Block { body }
            } else {
                Instr::Call { func: *func, args: new_args }
            }
        },
        Instr::CallIndirect { table, ty, index, args } => Instr::CallIndirect {
            table: *table,
            ty: *ty,
            index: rewrite_body(index, to_snip),
            args: rewrite_body(args, to_snip),
        },
    }
}

/// Rewrites an instruction sequence as [`rw_body`] says.
pub fn rewrite_body(s: &Vec<Instr>, to_snip: &Vec<bool>) -> (r: Vec<Instr>)
    ensures
        instrs_view(r@) == rw_body(instrs_view(s@), marked_set(to_snip@)),
    decreases s@,
{
    let mut r: Vec<Instr> = Vec::new();
    let mut j: usize = 0;
    while j < s.len()
        invariant
            j <= s@.len(),
            r@.len() == j,
            forall|k: int|
                0 <= k < j ==> instr_view(#[trigger] r@[k]) == rw_instr(
                    instr_view(s@[k]),
                    marked_set(to_snip@),
                ),
        decreases s@.len() - j,
    {
        let ri = rewrite_instr(&s[j], to_snip);
        r.push(ri);
        j = j + 1;
    }
    proof {
        broadcast use lemma_rw_body_len, lemma_rw_body_index;

        assert(instrs_view(r@) =~= rw_body(instrs_view(s@), marked_set(to_snip@)));
    }
    r
}

/// The module with every retained local function's body rewritten; snipped
/// and imported functions are left as they are.
pub open spec fn spec_rewrite_module(m: ModuleV, snip: Set<int>) -> ModuleV {
    ModuleV {
        funcs: Seq::new(
            m.funcs.len(),
            |f: int|
                match m.funcs[f] {
                    Some(func) => if snip.contains(f) {
                        m.funcs[f]
                    } else {
                        match func.kind {
                            FuncKindV::Local { locals, body } => Some(
                                FuncV {
                                    kind: FuncKindV::Local {
                                        locals,
                                        body: rw_body(body, snip),
                                    },
                                    ..func
                                },
                            ),
                            FuncKindV::Imported => m.funcs[f],
                        }
                    },
                    None => None,
                },
        ),
        ..m
    }
}

/// Walks every retained function's body and replaces calls to snipped
/// functions with argument-preserving traps, as [`spec_rewrite_module`]
/// says. Slot `f` of the bitmap says whether function `f` is snipped.
pub fn replace_calls_with_unreachable(module: &mut Module, to_snip: &Vec<bool>)
    requires
        to_snip@.len() == old(module)@.funcs.len(),
    ensures
        final(module)@ == spec_rewrite_module(old(module)@, marked_set(to_snip@)),
{
    let ghost m0 = module@;
    let ghost snip = marked_set(to_snip@);
    let mut f: usize = 0;
    let n = module.funcs.len();
    while f < n
        invariant
            n == m0.funcs.len(),
            f <= n,
            to_snip@.len() == m0.funcs.len(),
            module@ == (ModuleV { funcs: module@.funcs, ..m0 }),
            module.funcs@.len() == m0.funcs.len(),
            snip == marked_set(to_snip@),
            forall|j: int|
                0 <= j < f ==> (match module.funcs@[j] {
                    Some(x) => Some(x@),
                    None => None,
                }) == spec_rewrite_module(m0, snip).funcs[j],
            forall|j: int|
                f <= j < m0.funcs.len() ==> (match module.funcs@[j] {
                    Some(x) => Some(x@),
                    None => None,
                }) == m0.funcs[j],
        decreases n - f,
    {
        let snipped = to_snip[f];
        let mut entry: Option<Function> = None;
        module.funcs.set_and_swap(f, &mut entry);
        match entry {
            Some(func) => {
                if snipped {
                    // Don't bother transforming functions that we are
                    // snipping: their bodies are about to be deleted.
                    module.funcs.set(f, Some(func));
                } else {
                    let Function { name, ty, kind } = func;
                    match kind {
                        FuncKind::Imported => {
                            module.funcs.set(
                                f,
                                Some(Function { name, ty, kind: FuncKind::Imported }),
                            );
                        },
                        FuncKind::Local { locals, body } => {
                            let new_body = rewrite_body(&body, to_snip);
                            module.funcs.set(
                                f,
                                Some(
                                    Function {
                                        name,
                                        ty,
                                        kind: FuncKind::Local { locals, body: new_body },
                                    },
                                ),
                            );
                        },
                    }
                }
            },
            None => {},
        }
        f = f + 1;
    }
    assert(module@.funcs =~= spec_rewrite_module(m0, snip).funcs);
    assert(module@ =~= spec_rewrite_module(m0, snip));
}

} // verus!
