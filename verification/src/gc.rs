//! The reachability collector.
//!
//! Mark and sweep over the whole module. The roots are every surviving
//! export's referenced item, every surviving table slot's function, and the
//! start function. Marking follows call instructions; the sweep deletes
//! every function, type, local and global that no marked function uses,
//! and every import whose function was swept.
//!
//! The marked set is specified non-constructively: [`live`] is the least
//! set closed under the call graph, and the worklist is proved to compute
//! exactly it.

use vstd::prelude::*;

use crate::ir::{func_exists, instr_view, instrs_view, lemma_instrs_view_index,
    lemma_instrs_view_len, ExportItemV, FuncKindV, Id, ImportKindV, Instr, InstrV, Module, ModuleV,
    TableV};

verus! {

broadcast use lemma_instrs_view_len, lemma_instrs_view_index,
    vstd::seq_lib::lemma_seq_contains_after_push;

/// Everything one instruction tree references: called functions, indirect
/// signature handles, local slots, and globals.
pub struct Refs {
    pub calls: Set<int>,
    pub tys: Set<int>,
    pub locals: Set<int>,
    pub globals: Set<int>,
}

/// No references.
pub open spec fn refs_empty() -> Refs {
    Refs { calls: Set::empty(), tys: Set::empty(), locals: Set::empty(), globals: Set::empty() }
}

/// Union of two reference collections.
pub open spec fn refs_union(a: Refs, b: Refs) -> Refs {
    Refs {
        calls: a.calls.union(b.calls),
        tys: a.tys.union(b.tys),
        locals: a.locals.union(b.locals),
        globals: a.globals.union(b.globals),
    }
}

/// Everything one instruction references, its operand trees included.
pub open spec fn instr_refs(i: InstrV) -> Refs
    decreases i,
{
    match i {
        InstrV::Trap => refs_empty(),
        InstrV::Const { .. } => refs_empty(),
        InstrV::LocalGet { local } => Refs { locals: Set::empty().insert(local), ..refs_empty() },
        InstrV::LocalSet { local, value } => refs_union(
            Refs { locals: Set::empty().insert(local), ..refs_empty() },
            body_refs(value),
        ),
        InstrV::GlobalGet { global } => Refs {
            globals: Set::empty().insert(global),
            ..refs_empty()
        },
        InstrV::GlobalSet { global, value } => refs_union(
            Refs { globals: Set::empty().insert(global), ..refs_empty() },
            body_refs(value),
        ),
        InstrV::Block { body } => body_refs(body),
        InstrV::Loop { body } => body_refs(body),
        InstrV::If { cond, then_body, else_body } => refs_union(
            body_refs(cond),
            refs_union(body_refs(then_body), body_refs(else_body)),
        ),
        InstrV::Call { func, args } => refs_union(
            Refs { calls: Set::empty().insert(func), ..refs_empty() },
            body_refs(args),
        ),
        InstrV::CallIndirect { table: _, ty, index, args } => refs_union(
            Refs { tys: Set::empty().insert(ty), ..refs_empty() },
            refs_union(body_refs(index), body_refs(args)),
        ),
    }
}

/// Everything an instruction sequence references.
pub open spec fn body_refs(s: Seq<InstrV>) -> Refs
    decreases s,
{
    if s.len() == 0 {
        refs_empty()
    } else {
        refs_union(instr_refs(s[0]), body_refs(s.drop_first()))
    }
}

/// Everything a live function's body references; an imported function
/// references nothing through its (absent) body.
pub open spec fn func_body_refs(m: ModuleV, f: int) -> Refs {
    match m.funcs[f]->Some_0.kind {
        FuncKindV::Local { locals: _, body } => body_refs(body),
        FuncKindV::Imported => refs_empty(),
    }
}

/// Export `e` survives and references function `f`.
pub open spec fn export_is_func(m: ModuleV, e: int, f: int) -> bool {
    &&& 0 <= e < m.exports.len()
    &&& m.exports[e] matches Some(ex) && ex.item == ExportItemV::Function(f)
}

/// Export `e` survives and references global `g`.
pub open spec fn export_is_global(m: ModuleV, e: int, g: int) -> bool {
    &&& 0 <= e < m.exports.len()
    &&& m.exports[e] matches Some(ex) && ex.item == ExportItemV::Global(g)
}

/// The root functions: referenced by a surviving export, held in a
/// surviving table slot, or the start function.
pub open spec fn root_funcs(m: ModuleV) -> Set<int> {
    Set::new(
        |f: int|
            {
                ||| (exists|e: int| #[trigger] export_is_func(m, e, f))
                ||| (exists|ti: int, j: int|
                    #[trigger] dense_slot_holds(m, ti, j, f))
                ||| (exists|ti: int, sj: int, k: int|
                    #[trigger] seg_slot_holds(m, ti, sj, k, f))
                ||| m.start == Some(f)
            },
    )
}

/// Dense slot `j` of table `ti` holds function `f`.
pub open spec fn dense_slot_holds(m: ModuleV, ti: int, j: int, f: int) -> bool {
    &&& 0 <= ti < m.tables.len()
    &&& m.tables[ti] matches Some(TableV::Function { elements, .. }) && 0 <= j < elements.len()
        && elements[j] == Some(f)
}

/// Slot `k` of segment `sj` of table `ti` holds function `f`.
pub open spec fn seg_slot_holds(m: ModuleV, ti: int, sj: int, k: int, f: int) -> bool {
    &&& 0 <= ti < m.tables.len()
    &&& m.tables[ti] matches Some(TableV::Function { segments, .. }) && 0 <= sj < segments.len()
        && 0 <= k < segments[sj].funcs.len() && segments[sj].funcs[k] == f
}

/// The set is closed under the rewritten call graph: it holds every live
/// root, and every live callee of each of its live members.
pub open spec fn closed(m: ModuleV, s: Set<int>) -> bool {
    &&& forall|f: int| root_funcs(m).contains(f) && func_exists(m, f) ==> s.contains(f)
    &&& forall|f: int, c: int|
        s.contains(f) && func_exists(m, f) && #[trigger] func_body_refs(m, f).calls.contains(c)
            && func_exists(m, c) ==> s.contains(c)
}

/// The functions the collector keeps: the least closed set, the
/// intersection of every closed set.
pub open spec fn live(m: ModuleV) -> Set<int> {
    Set::new(|f: int| forall|s: Set<int>| #[trigger] closed(m, s) ==> s.contains(f))
}

/// The live set only holds live entries of the function arena.
pub proof fn lemma_live_valid(m: ModuleV)
    ensures
        forall|f: int| live(m).contains(f) ==> func_exists(m, f),
{
    let valid = Set::new(|f: int| func_exists(m, f));
    assert(closed(m, valid));
    assert forall|f: int| live(m).contains(f) implies func_exists(m, f) by {
        assert(valid.contains(f));
    }
}

/// The live set is itself closed, being an intersection of closed sets.
pub proof fn lemma_live_closed(m: ModuleV)
    ensures
        closed(m, live(m)),
{
    assert forall|f: int| root_funcs(m).contains(f) && func_exists(m, f) implies live(m).contains(
        f,
    ) by {
        assert forall|s: Set<int>| closed(m, s) implies s.contains(f) by {}
    }
    assert forall|f: int, c: int|
        live(m).contains(f) && func_exists(m, f) && #[trigger] func_body_refs(m, f).calls.contains(
            c,
        ) && func_exists(m, c) implies live(m).contains(c) by {
        assert forall|s: Set<int>| closed(m, s) implies s.contains(c) by {
            assert(s.contains(f));
        }
    }
}

/// Signature `t` is used by some live function: as its own signature or in
/// an indirect call of its body.
pub open spec fn type_used(m: ModuleV, t: int) -> bool {
    exists|f: int|
        #[trigger] live(m).contains(f) && func_exists(m, f) && (m.funcs[f]->Some_0.ty == t
            || func_body_refs(m, f).tys.contains(t))
}

/// Local slot `l` is used by some live function: declared in its local
/// list or read or written in its body.
pub open spec fn local_used(m: ModuleV, l: int) -> bool {
    exists|f: int|
        #[trigger] live(m).contains(f) && func_exists(m, f) && (func_declared_locals(m, f).contains(
            l,
        ) || func_body_refs(m, f).locals.contains(l))
}

/// The local slots a function declares.
pub open spec fn func_declared_locals(m: ModuleV, f: int) -> Seq<int> {
    match m.funcs[f]->Some_0.kind {
        FuncKindV::Local { locals, .. } => locals,
        FuncKindV::Imported => Seq::empty(),
    }
}

/// Global `g` is used by some live function's body, or referenced by a
/// surviving export.
pub open spec fn global_used(m: ModuleV, g: int) -> bool {
    ||| (exists|f: int|
        #[trigger] live(m).contains(f) && func_exists(m, f) && func_body_refs(m, f).globals.contains(
            g,
        ))
    ||| (exists|e: int| #[trigger] export_is_global(m, e, g))
}

/// Appending one instruction to a sequence unions in its references.
pub proof fn lemma_body_refs_push(s: Seq<InstrV>, i: InstrV)
    ensures
        body_refs(s.push(i)).calls =~= body_refs(s).calls.union(instr_refs(i).calls),
        body_refs(s.push(i)).tys =~= body_refs(s).tys.union(instr_refs(i).tys),
        body_refs(s.push(i)).locals =~= body_refs(s).locals.union(instr_refs(i).locals),
        body_refs(s.push(i)).globals =~= body_refs(s).globals.union(instr_refs(i).globals),
    decreases s,
{
    reveal_with_fuel(body_refs, 2);
    if s.len() == 0 {
        assert(s.push(i)[0] == i);
        assert(s.push(i).drop_first() =~= Seq::<InstrV>::empty());
    } else {
        assert(s.push(i)[0] == s[0]);
        assert(s.push(i).drop_first() =~= s.drop_first().push(i));
        lemma_body_refs_push(s.drop_first(), i);
    }
}

/// Every handle an instruction references fits in the handle type: its
/// view was built from machine-sized handles.
#[verifier::rlimit(80)]
pub proof fn lemma_instr_refs_in_range(i: Instr)
    ensures
        forall|c: int|
            #[trigger] instr_refs(instr_view(i)).calls.contains(c) ==> c == (c as usize) as int,
        forall|c: int|
            #[trigger] instr_refs(instr_view(i)).tys.contains(c) ==> c == (c as usize) as int,
        forall|c: int|
            #[trigger] instr_refs(instr_view(i)).locals.contains(c) ==> c == (c as usize) as int,
        forall|c: int|
            #[trigger] instr_refs(instr_view(i)).globals.contains(c) ==> c == (c as usize) as int,
    decreases i,
{
    let r = instr_refs(instr_view(i));
    match i {
        Instr::Trap => {},
        Instr::Const { .. } => {},
        Instr::LocalGet { local } => {
            assert(r.locals =~= Set::empty().insert(local as int));
        },
        Instr::GlobalGet { global } => {
            assert(r.globals =~= Set::empty().insert(global as int));
        },
        Instr::LocalSet { local, value } => {
            lemma_body_refs_in_range(value@);
            let b = body_refs(instrs_view(value@));
            assert(r.calls =~= b.calls);
            assert(r.tys =~= b.tys);
            assert(r.globals =~= b.globals);
            assert(r.locals =~= Set::empty().insert(local as int).union(b.locals));
        },
        Instr::GlobalSet { global, value } => {
            lemma_body_refs_in_range(value@);
            let b = body_refs(instrs_view(value@));
            assert(r.calls =~= b.calls);
            assert(r.tys =~= b.tys);
            assert(r.locals =~= b.locals);
            assert(r.globals =~= Set::empty().insert(global as int).union(b.globals));
        },
        Instr::Block { body } => {
            lemma_body_refs_in_range(body@);
            let b = body_refs(instrs_view(body@));
            assert(r.calls =~= b.calls);
            assert(r.tys =~= b.tys);
            assert(r.locals =~= b.locals);
            assert(r.globals =~= b.globals);
        },
        Instr::Loop { body } => {
            lemma_body_refs_in_range(body@);
            let b = body_refs(instrs_view(body@));
            assert(r.calls =~= b.calls);
            assert(r.tys =~= b.tys);
            assert(r.locals =~= b.locals);
            assert(r.globals =~= b.globals);
        },
        Instr::If { cond, then_body, else_body } => {
            lemma_body_refs_in_range(cond@);
            lemma_body_refs_in_range(then_body@);
            lemma_body_refs_in_range(else_body@);
            let bc = body_refs(instrs_view(cond@));
            let bt = body_refs(instrs_view(then_body@));
            let be = body_refs(instrs_view(else_body@));
            assert(r.calls =~= bc.calls.union(bt.calls.union(be.calls)));
            assert(r.tys =~= bc.tys.union(bt.tys.union(be.tys)));
            assert(r.locals =~= bc.locals.union(bt.locals.union(be.locals)));
            assert(r.globals =~= bc.globals.union(bt.globals.union(be.globals)));
        },
        Instr::Call { func, args } => {
            lemma_body_refs_in_range(args@);
            let b = body_refs(instrs_view(args@));
            assert(r.calls =~= Set::empty().insert(func as int).union(b.calls));
            assert(r.tys =~= b.tys);
            assert(r.locals =~= b.locals);
            assert(r.globals =~= b.globals);
        },
        Instr::CallIndirect { table: _, ty, index, args } => {
            lemma_body_refs_in_range(index@);
            lemma_body_refs_in_range(args@);
            let bi = body_refs(instrs_view(index@));
            let ba = body_refs(instrs_view(args@));
            assert(r.calls =~= bi.calls.union(ba.calls));
            assert(r.tys =~= Set::empty().insert(ty as int).union(bi.tys.union(ba.tys)));
            assert(r.locals =~= bi.locals.union(ba.locals));
            assert(r.globals =~= bi.globals.union(ba.globals));
        },
    }
}

/// Every handle an instruction sequence references fits in the handle type.
pub proof fn lemma_body_refs_in_range(s: Seq<Instr>)
    ensures
        forall|c: int|
            #[trigger] body_refs(instrs_view(s)).calls.contains(c) ==> c == (c as usize) as int,
        forall|c: int|
            #[trigger] body_refs(instrs_view(s)).tys.contains(c) ==> c == (c as usize) as int,
        forall|c: int|
            #[trigger] body_refs(instrs_view(s)).locals.contains(c) ==> c == (c as usize) as int,
        forall|c: int|
            #[trigger] body_refs(instrs_view(s)).globals.contains(c) ==> c == (c as usize) as int,
    decreases s,
{
    if s.len() != 0 {
        lemma_instr_refs_in_range(s[0]);
        lemma_body_refs_in_range(s.drop_first());
        assert(instrs_view(s)[0] == instr_view(s[0]));
        assert(instrs_view(s).drop_first() =~= instrs_view(s.drop_first()));
        assert(body_refs(instrs_view(s)) == refs_union(
            instr_refs(instr_view(s[0])),
            body_refs(instrs_view(s.drop_first())),
        ));
    }
}

/// Collects every handle an instruction references into the four lists.
#[verifier::rlimit(80)]
fn collect_refs(
    i: &Instr,
    calls: &mut Vec<Id>,
    tys: &mut Vec<Id>,
    locs: &mut Vec<Id>,
    globs: &mut Vec<Id>,
)
    ensures
        forall|x: usize|
            final(calls)@.contains(x) <==> old(calls)@.contains(x) || instr_refs(
                instr_view(*i),
            ).calls.contains(x as int),
        forall|x: usize|
            final(tys)@.contains(x) <==> old(tys)@.contains(x) || instr_refs(
                instr_view(*i),
            ).tys.contains(x as int),
        forall|x: usize|
            final(locs)@.contains(x) <==> old(locs)@.contains(x) || instr_refs(
                instr_view(*i),
            ).locals.contains(x as int),
        forall|x: usize|
            final(globs)@.contains(x) <==> old(globs)@.contains(x) || instr_refs(
                instr_view(*i),
            ).globals.contains(x as int),
    decreases *i,
{
    match i {
        Instr::Trap => {},
        Instr::Const { .. } => {},
        Instr::LocalGet { local } => {
            locs.push(*local);
        },
        Instr::LocalSet { local, value } => {
            locs.push(*local);
            collect_refs_body(value, calls, tys, locs, globs);
        },
        Instr::GlobalGet { global } => {
            globs.push(*global);
        },
        Instr::GlobalSet { global, value } => {
            globs.push(*global);
            collect_refs_body(value, calls, tys, locs, globs);
        },
        Instr::Block { body } => {
            collect_refs_body(body, calls, tys, locs, globs);
        },
        Instr::Loop { body } => {
            collect_refs_body(body, calls, tys, locs, globs);
        },
        Instr::If { cond, then_body, else_body } => {
            collect_refs_body(cond, calls, tys, locs, globs);
            collect_refs_body(then_body, calls, tys, locs, globs);
            collect_refs_body(else_body, calls, tys, locs, globs);
        },
        Instr::Call { func, args } => {
            calls.push(*func);
            collect_refs_body(args, calls, tys, locs, globs);
        },
        Instr::CallIndirect { table: _, ty, index, args } => {
            tys.push(*ty);
            collect_refs_body(index, calls, tys, locs, globs);
            collect_refs_body(args, calls, tys, locs, globs);
        },
    }
}

/// Collects every handle an instruction sequence references.
fn collect_refs_body(
    s: &Vec<Instr>,
    calls: &mut Vec<Id>,
    tys: &mut Vec<Id>,
    locs: &mut Vec<Id>,
    globs: &mut Vec<Id>,
)
    ensures
        forall|x: usize|
            final(calls)@.contains(x) <==> old(calls)@.contains(x) || body_refs(
                instrs_view(s@),
            ).calls.contains(x as int),
        forall|x: usize|
            final(tys)@.contains(x) <==> old(tys)@.contains(x) || body_refs(
                instrs_view(s@),
            ).tys.contains(x as int),
        forall|x: usize|
            final(locs)@.contains(x) <==> old(locs)@.contains(x) || body_refs(
                instrs_view(s@),
            ).locals.contains(x as int),
        forall|x: usize|
            final(globs)@.contains(x) <==> old(globs)@.contains(x) || body_refs(
                instrs_view(s@),
            ).globals.contains(x as int),
    decreases s@,
{
    let ghost calls0 = calls@;
    let ghost tys0 = tys@;
    let ghost locs0 = locs@;
    let ghost globs0 = globs@;
    let n = s.len();
    let mut j: usize = 0;
    while j < n
        invariant
            n == s@.len(),
            j <= n,
            forall|x: usize|
                calls@.contains(x) <==> calls0.contains(x) || body_refs(
                    instrs_view(s@).take(j as int),
                ).calls.contains(x as int),
            forall|x: usize|
                tys@.contains(x) <==> tys0.contains(x) || body_refs(
                    instrs_view(s@).take(j as int),
                ).tys.contains(x as int),
            forall|x: usize|
                locs@.contains(x) <==> locs0.contains(x) || body_refs(
                    instrs_view(s@).take(j as int),
                ).locals.contains(x as int),
            forall|x: usize|
                globs@.contains(x) <==> globs0.contains(x) || body_refs(
                    instrs_view(s@).take(j as int),
                ).globals.contains(x as int),
        decreases n - j,
    {
        proof {
            assert(instrs_view(s@).take(j as int).push(instr_view(s@[j as int])) =~= instrs_view(
                s@,
            ).take(j + 1 as int));
            lemma_body_refs_push(instrs_view(s@).take(j as int), instr_view(s@[j as int]));
        }
        collect_refs(&s[j], calls, tys, locs, globs);
        j = j + 1;
    }
    proof {
        assert(instrs_view(s@).take(n as int) =~= instrs_view(s@));
    }
}

/// The module after collection: unreachable functions are deleted, with
/// the imports that declared them, and every type, local and global no
/// marked function uses. Exports, tables and the start function are the
/// roots and stay as they are.
pub open spec fn spec_gc(m: ModuleV) -> ModuleV {
    ModuleV {
        funcs: Seq::new(
            m.funcs.len(),
            |f: int|
                if live(m).contains(f) {
                    m.funcs[f]
                } else {
                    None
                },
        ),
        imports: Seq::new(
            m.imports.len(),
            |i: int|
                match m.imports[i] {
                    Some(im) => match im.kind {
                        ImportKindV::Function(f) => if live(m).contains(f) {
                            m.imports[i]
                        } else {
                            None
                        },
                        ImportKindV::Other => m.imports[i],
                    },
                    None => None,
                },
        ),
        types: Seq::new(
            m.types.len(),
            |t: int|
                if type_used(m, t) {
                    m.types[t]
                } else {
                    None
                },
        ),
        locals: Seq::new(
            m.locals.len(),
            |l: int|
                if local_used(m, l) {
                    m.locals[l]
                } else {
                    None
                },
        ),
        globals: Seq::new(
            m.globals.len(),
            |g: int|
                if global_used(m, g) {
                    m.globals[g]
                } else {
                    None
                },
        ),
        ..m
    }
}


/// How many entries of a bitmap are set.
pub open spec fn count_trues(s: Seq<bool>) -> nat
    decreases s,
{
    if s.len() == 0 {
        0
    } else {
        count_trues(s.drop_last()) + (if s.last() {
            1nat
        } else {
            0nat
        })
    }
}

/// A bitmap holds at most as many set entries as it has entries.
pub proof fn lemma_count_trues_le(s: Seq<bool>)
    ensures
        count_trues(s) <= s.len(),
    decreases s,
{
    if s.len() != 0 {
        lemma_count_trues_le(s.drop_last());
    }
}

/// Setting a clear entry raises the count by one.
pub proof fn lemma_count_trues_update(s: Seq<bool>, i: int)
    requires
        0 <= i < s.len(),
        !s[i],
    ensures
        count_trues(s.update(i, true)) == count_trues(s) + 1,
    decreases s,
{
    if i == s.len() - 1 {
        assert(s.update(i, true).drop_last() =~= s.drop_last());
        assert(s.update(i, true).last());
        assert(!s.last());
    } else {
        assert(s.update(i, true).drop_last() =~= s.drop_last().update(i, true));
        assert(s.update(i, true).last() == s.last());
        lemma_count_trues_update(s.drop_last(), i);
    }
}

/// Appending an entry adds its value to the count.
pub proof fn lemma_count_trues_push(s: Seq<bool>, b: bool)
    ensures
        count_trues(s.push(b)) == count_trues(s) + (if b {
            1nat
        } else {
            0nat
        }),
{
    assert(s.push(b).drop_last() =~= s);
    assert(s.push(b).last() == b);
}

/// The worklist holds function `g`.
pub open spec fn work_has(w: Seq<Id>, g: int) -> bool {
    exists|i: int| 0 <= i < w.len() && #[trigger] w[i] as int == g
}

/// The marking state is sound: the bitmap covers the function arena, the
/// count is exact, the worklist holds marked functions, and everything
/// marked is a live function.
pub open spec fn mark_inv(m: ModuleV, marked: Seq<bool>, work: Seq<Id>, n_marked: usize) -> bool {
    &&& marked.len() == m.funcs.len()
    &&& n_marked as nat == count_trues(marked)
    &&& forall|i: int|
        0 <= i < work.len() ==> (#[trigger] work[i] as int) < marked.len() && marked[work[i] as int]
    &&& forall|g: int|
        0 <= g < marked.len() && #[trigger] marked[g] ==> live(m).contains(g) && func_exists(m, g)
}

/// Marks one function, if it is live in the arena and not yet marked, and
/// queues it for its callees to be followed.
fn mark_func(
    module: &Module,
    marked: &mut Vec<bool>,
    work: &mut Vec<Id>,
    n_marked: &mut usize,
    f: Id,
    Ghost(m): Ghost<ModuleV>,
)
    requires
        m == module@,
        mark_inv(m, old(marked)@, old(work)@, *old(n_marked)),
        func_exists(m, f as int) ==> live(m).contains(f as int),
    ensures
        mark_inv(m, final(marked)@, final(work)@, *final(n_marked)),
        final(marked)@.len() == old(marked)@.len(),
        forall|g: int|
            0 <= g < old(marked)@.len() && old(marked)@[g] ==> #[trigger] final(marked)@[g],
        forall|g: int|
            0 <= g < old(marked)@.len() && g != f as int ==> #[trigger] final(marked)@[g]
                == old(marked)@[g],
        func_exists(m, f as int) ==> final(marked)@[f as int],
        forall|i: int| 0 <= i < old(work)@.len() ==> #[trigger] final(work)@[i] == old(work)@[i],
        old(work)@.len() <= final(work)@.len() <= old(work)@.len() + 1,
        *old(n_marked) <= *final(n_marked) <= *old(n_marked) + 1,
        final(work)@.len() == old(work)@.len() + 1 ==> *final(n_marked) == *old(n_marked) + 1
            && final(work)@[old(work)@.len() as int] == f && !old(marked)@[f as int],
        final(work)@.len() == old(work)@.len() ==> final(marked)@ == old(marked)@ && final(work)@
            == old(work)@ && *final(n_marked) == *old(n_marked),
{
    proof {
        assert(module.funcs@.len() == m.funcs.len());
    }
    if f < marked.len() {
        let exists_f = match &module.funcs[f] {
            Some(_) => true,
            None => false,
        };
        if exists_f && !marked[f] {
            proof {
                assert(func_exists(m, f as int));
                lemma_count_trues_update(marked@, f as int);
                lemma_count_trues_le(marked@.update(f as int, true));
            }
            marked.set(f, true);
            *n_marked = *n_marked + 1;
            work.push(f);
        }
    }
}

/// Marks every root: functions referenced by surviving exports, held in
/// surviving table slots, or named as the start function.
fn mark_roots(
    module: &Module,
    marked: &mut Vec<bool>,
    work: &mut Vec<Id>,
    n_marked: &mut usize,
    Ghost(m): Ghost<ModuleV>,
)
    requires
        m == module@,
        mark_inv(m, old(marked)@, old(work)@, *old(n_marked)),
        forall|g: int|
            0 <= g < old(marked)@.len() && #[trigger] old(marked)@[g] ==> work_has(old(work)@, g),
    ensures
        mark_inv(m, final(marked)@, final(work)@, *final(n_marked)),
        forall|f: int|
            root_funcs(m).contains(f) && func_exists(m, f) ==> final(marked)@[f],
        forall|g: int|
            0 <= g < final(marked)@.len() && #[trigger] final(marked)@[g] ==> work_has(
                final(work)@,
                g,
            ),
{
    proof {
        lemma_live_closed(m);
    }
    let ne = module.exports.len();
    let mut e: usize = 0;
    while e < ne
        invariant
            m == module@,
            ne == m.exports.len(),
            e <= ne,
            closed(m, live(m)),
            mark_inv(m, marked@, work@, *n_marked),
            forall|g: int|
                0 <= g < marked@.len() && #[trigger] marked@[g] ==> work_has(work@, g),
            forall|e2: int, f2: int|
                0 <= e2 < e && #[trigger] export_is_func(m, e2, f2) && func_exists(m, f2)
                    ==> marked@[f2],
        decreases ne - e,
    {
        match &module.exports[e] {
            Some(ex) => match ex.item {
                crate::ir::ExportItem::Function(f) => {
                    proof {
                        assert(export_is_func(m, e as int, f as int));
                        assert(root_funcs(m).contains(f as int));
                    }
                    let ghost marked_b = marked@;
                    let ghost work_b = work@;
                    mark_func(module, marked, work, n_marked, f, Ghost(m));
                    proof {
                        assert forall|g: int|
                            0 <= g < marked@.len() && #[trigger] marked@[g] implies work_has(
                            work@,
                            g,
                        ) by {
                            if marked_b[g] {
                                let i2 = choose|i2: int|
                                    0 <= i2 < work_b.len() && #[trigger] work_b[i2] as int == g;
                                assert(work@[i2] == work_b[i2]);
                            } else {
                                assert(g == f as int);
                                assert(work@[work_b.len() as int] == f);
                            }
                        }
                    }
                },
                crate::ir::ExportItem::Global(_) => {},
                crate::ir::ExportItem::Other => {},
            },
            None => {},
        }
        e = e + 1;
    }
    let nt = module.tables.len();
    let mut ti: usize = 0;
    while ti < nt
        invariant
            m == module@,
            nt == m.tables.len(),
            ti <= nt,
            closed(m, live(m)),
            mark_inv(m, marked@, work@, *n_marked),
            forall|g: int|
                0 <= g < marked@.len() && #[trigger] marked@[g] ==> work_has(work@, g),
            forall|e2: int, f2: int|
                #[trigger] export_is_func(m, e2, f2) && func_exists(m, f2) ==> marked@[f2],
            forall|t2: int, j2: int, f2: int|
                0 <= t2 < ti && #[trigger] dense_slot_holds(m, t2, j2, f2) && func_exists(m, f2)
                    ==> marked@[f2],
            forall|t2: int, s2: int, k2: int, f2: int|
                0 <= t2 < ti && #[trigger] seg_slot_holds(m, t2, s2, k2, f2) && func_exists(m, f2)
                    ==> marked@[f2],
        decreases nt - ti,
    {
        match &module.tables[ti] {
            Some(crate::ir::Table::Function { elements, segments }) => {
                proof {
                    assert(m.tables[ti as int] == Some(
                        TableV::Function {
                            elements: crate::ir::slots_view(elements@),
                            segments: crate::ir::opts_elems_view(segments@),
                        },
                    ));
                }
                let nel = elements.len();
                let mut j: usize = 0;
                while j < nel
                    invariant
                        m == module@,
                        0 <= ti < m.tables.len(),
                        m.tables[ti as int] == Some(
                            TableV::Function {
                                elements: crate::ir::slots_view(elements@),
                                segments: crate::ir::opts_elems_view(segments@),
                            },
                        ),
                        nel == elements@.len(),
                        j <= nel,
                        closed(m, live(m)),
                        mark_inv(m, marked@, work@, *n_marked),
            forall|g: int|
                0 <= g < marked@.len() && #[trigger] marked@[g] ==> work_has(work@, g),
                        forall|e2: int, f2: int|
                            #[trigger] export_is_func(m, e2, f2) && func_exists(m, f2)
                                ==> marked@[f2],
                        forall|t2: int, j2: int, f2: int|
                            0 <= t2 < ti && #[trigger] dense_slot_holds(m, t2, j2, f2)
                                && func_exists(m, f2) ==> marked@[f2],
                        forall|t2: int, s2: int, k2: int, f2: int|
                            0 <= t2 < ti && #[trigger] seg_slot_holds(m, t2, s2, k2, f2)
                                && func_exists(m, f2) ==> marked@[f2],
                        forall|j2: int, f2: int|
                            0 <= j2 < j && #[trigger] dense_slot_holds(m, ti as int, j2, f2)
                                && func_exists(m, f2) ==> marked@[f2],
                    decreases nel - j,
                {
                    match elements[j] {
                        Some(f) => {
                            proof {
                                assert(dense_slot_holds(m, ti as int, j as int, f as int));
                                assert(root_funcs(m).contains(f as int));
                            }
                            let ghost marked_b = marked@;
                    let ghost work_b = work@;
                    mark_func(module, marked, work, n_marked, f, Ghost(m));
                    proof {
                        assert forall|g: int|
                            0 <= g < marked@.len() && #[trigger] marked@[g] implies work_has(
                            work@,
                            g,
                        ) by {
                            if marked_b[g] {
                                let i2 = choose|i2: int|
                                    0 <= i2 < work_b.len() && #[trigger] work_b[i2] as int == g;
                                assert(work@[i2] == work_b[i2]);
                            } else {
                                assert(g == f as int);
                                assert(work@[work_b.len() as int] == f);
                            }
                        }
                    }
                        },
                        None => {},
                    }
                    j = j + 1;
                }
                let ns = segments.len();
                let mut sj: usize = 0;
                while sj < ns
                    invariant
                        m == module@,
                        0 <= ti < m.tables.len(),
                        m.tables[ti as int] == Some(
                            TableV::Function {
                                elements: crate::ir::slots_view(elements@),
                                segments: crate::ir::opts_elems_view(segments@),
                            },
                        ),
                        ns == segments@.len(),
                        sj <= ns,
                        closed(m, live(m)),
                        mark_inv(m, marked@, work@, *n_marked),
            forall|g: int|
                0 <= g < marked@.len() && #[trigger] marked@[g] ==> work_has(work@, g),
                        forall|e2: int, f2: int|
                            #[trigger] export_is_func(m, e2, f2) && func_exists(m, f2)
                                ==> marked@[f2],
                        forall|t2: int, j2: int, f2: int|
                            0 <= t2 < ti + 1 && #[trigger] dense_slot_holds(m, t2, j2, f2)
                                && func_exists(m, f2) ==> marked@[f2],
                        forall|t2: int, s2: int, k2: int, f2: int|
                            0 <= t2 < ti && #[trigger] seg_slot_holds(m, t2, s2, k2, f2)
                                && func_exists(m, f2) ==> marked@[f2],
                        forall|s2: int, k2: int, f2: int|
                            0 <= s2 < sj && #[trigger] seg_slot_holds(m, ti as int, s2, k2, f2)
                                && func_exists(m, f2) ==> marked@[f2],
                    decreases ns - sj,
                {
                    let seg = &segments[sj];
                    let nk = seg.funcs.len();
                    let mut k: usize = 0;
                    while k < nk
                        invariant
                            m == module@,
                            0 <= ti < m.tables.len(),
                            m.tables[ti as int] == Some(
                                TableV::Function {
                                    elements: crate::ir::slots_view(elements@),
                                    segments: crate::ir::opts_elems_view(segments@),
                                },
                            ),
                            0 <= sj < segments@.len(),
                            seg == &segments[sj as int],
                            nk == seg.funcs@.len(),
                            k <= nk,
                            closed(m, live(m)),
                            mark_inv(m, marked@, work@, *n_marked),
            forall|g: int|
                0 <= g < marked@.len() && #[trigger] marked@[g] ==> work_has(work@, g),
                            forall|e2: int, f2: int|
                                #[trigger] export_is_func(m, e2, f2) && func_exists(m, f2)
                                    ==> marked@[f2],
                            forall|t2: int, j2: int, f2: int|
                                0 <= t2 < ti + 1 && #[trigger] dense_slot_holds(m, t2, j2, f2)
                                    && func_exists(m, f2) ==> marked@[f2],
                            forall|t2: int, s2: int, k2: int, f2: int|
                                0 <= t2 < ti && #[trigger] seg_slot_holds(m, t2, s2, k2, f2)
                                    && func_exists(m, f2) ==> marked@[f2],
                            forall|s2: int, k2: int, f2: int|
                                0 <= s2 < sj && #[trigger] seg_slot_holds(m, ti as int, s2, k2, f2)
                                    && func_exists(m, f2) ==> marked@[f2],
                            forall|k2: int, f2: int|
                                0 <= k2 < k && #[trigger] seg_slot_holds(
                                    m,
                                    ti as int,
                                    sj as int,
                                    k2,
                                    f2,
                                ) && func_exists(m, f2) ==> marked@[f2],
                        decreases nk - k,
                    {
                        let f = seg.funcs[k];
                        proof {
                            assert(crate::ir::opts_elems_view(segments@)[sj as int]
                                == segments@[sj as int]@);
                            assert(seg_slot_holds(m, ti as int, sj as int, k as int, f as int));
                            assert(root_funcs(m).contains(f as int));
                        }
                        let ghost marked_b = marked@;
                    let ghost work_b = work@;
                    mark_func(module, marked, work, n_marked, f, Ghost(m));
                    proof {
                        assert forall|g: int|
                            0 <= g < marked@.len() && #[trigger] marked@[g] implies work_has(
                            work@,
                            g,
                        ) by {
                            if marked_b[g] {
                                let i2 = choose|i2: int|
                                    0 <= i2 < work_b.len() && #[trigger] work_b[i2] as int == g;
                                assert(work@[i2] == work_b[i2]);
                            } else {
                                assert(g == f as int);
                                assert(work@[work_b.len() as int] == f);
                            }
                        }
                    }
                        k = k + 1;
                    }
                    sj = sj + 1;
                }
            },
            Some(crate::ir::Table::Other) => {},
            None => {},
        }
        ti = ti + 1;
    }
    match module.start {
        Some(f) => {
            proof {
                assert(m.start == Some(f as int));
                assert(root_funcs(m).contains(f as int));
            }
            let ghost marked_b = marked@;
            let ghost work_b = work@;
            mark_func(module, marked, work, n_marked, f, Ghost(m));
            proof {
                assert forall|g: int|
                    0 <= g < marked@.len() && #[trigger] marked@[g] implies work_has(work@, g) by {
                    if marked_b[g] {
                        let i2 = choose|i2: int|
                            0 <= i2 < work_b.len() && #[trigger] work_b[i2] as int == g;
                        assert(work@[i2] == work_b[i2]);
                    } else {
                        assert(g == f as int);
                        assert(work@[work_b.len() as int] == f);
                    }
                }
            }
        },
        None => {},
    }
    proof {
        assert forall|f: int| root_funcs(m).contains(f) && func_exists(m, f) implies marked@[f] by {
            if exists|e2: int| #[trigger] export_is_func(m, e2, f) {
            } else if exists|t2: int, j2: int| #[trigger] dense_slot_holds(m, t2, j2, f) {
                let (t2, j2): (int, int) = choose|t2: int, j2: int| #[trigger]
                    dense_slot_holds(m, t2, j2, f);
            } else if exists|t2: int, s2: int, k2: int| #[trigger]
                seg_slot_holds(m, t2, s2, k2, f) {
                let (t2, s2, k2): (int, int, int) = choose|t2: int, s2: int, k2: int| #[trigger]
                    seg_slot_holds(m, t2, s2, k2, f);
            } else {
                assert(m.start == Some(f));
            }
        }
    }
}

/// Every live callee of function `g` is already marked.
pub open spec fn calls_done(m: ModuleV, marked: Seq<bool>, g: int) -> bool {
    forall|c: int|
        #[trigger] func_body_refs(m, g).calls.contains(c) && func_exists(m, c) ==> 0 <= c
            < marked.len() && marked[c]
}

/// Follows calls from the marked functions until a fixed point: afterwards
/// a function is marked exactly when it is in the least closed set.
fn mark_reachable(
    module: &Module,
    marked: &mut Vec<bool>,
    work: &mut Vec<Id>,
    n_marked: &mut usize,
    Ghost(m): Ghost<ModuleV>,
)
    requires
        m == module@,
        mark_inv(m, old(marked)@, old(work)@, *old(n_marked)),
        forall|f: int| root_funcs(m).contains(f) && func_exists(m, f) ==> old(marked)@[f],
        forall|g: int|
            0 <= g < old(marked)@.len() && old(marked)@[g] && !work_has(old(work)@, g)
                ==> calls_done(m, old(marked)@, g),
    ensures
        final(marked)@.len() == old(marked)@.len(),
        forall|g: int|
            0 <= g < final(marked)@.len() ==> (final(marked)@[g] <==> live(m).contains(g)),
{
    proof {
        lemma_live_closed(m);
        lemma_count_trues_le(marked@);
    }
    let n = marked.len();
    while work.len() > 0
        invariant
            m == module@,
            closed(m, live(m)),
            n == marked@.len(),
            *n_marked <= n,
            mark_inv(m, marked@, work@, *n_marked),
            forall|f: int| root_funcs(m).contains(f) && func_exists(m, f) ==> marked@[f],
            forall|g: int|
                0 <= g < marked@.len() && #[trigger] marked@[g] && !work_has(work@, g)
                    ==> calls_done(m, marked@, g),
        decreases n - *n_marked, work@.len(),
    {
        let ghost work_pre = work@;
        let ghost marked_pre = marked@;
        let ghost n_marked_pre = *n_marked;
        let f: Id = match work.pop() {
            Some(x) => x,
            None => unreached(),
        };
        proof {
            assert(work_pre[work_pre.len() - 1] == f);
            assert(marked@[f as int]);
            assert forall|g: int|
                0 <= g < marked@.len() && #[trigger] marked@[g] && !work_has(work@, g) && g
                    != f as int implies calls_done(m, marked@, g) by {
                if work_has(work_pre, g) {
                    let i2 = choose|i2: int|
                        0 <= i2 < work_pre.len() && #[trigger] work_pre[i2] as int == g;
                    assert(i2 < work_pre.len() - 1);
                    assert(work@[i2] == work_pre[i2]);
                    assert(work_has(work@, g));
                }
            }
        }
        let mut calls: Vec<Id> = Vec::new();
        let mut tys: Vec<Id> = Vec::new();
        let mut locs: Vec<Id> = Vec::new();
        let mut globs: Vec<Id> = Vec::new();
        match &module.funcs[f] {
            Some(func) => match &func.kind {
                crate::ir::FuncKind::Local { locals: _, body } => {
                    collect_refs_body(body, &mut calls, &mut tys, &mut locs, &mut globs);
                    proof {
                        lemma_body_refs_in_range(body@);
                        assert(func_body_refs(m, f as int) == body_refs(instrs_view(body@)));
                    }
                },
                crate::ir::FuncKind::Imported => {},
            },
            None => {
                proof {
                    assert(func_exists(m, f as int));
                }
                unreached()
            },
        }
        proof {
            assert(forall|c: int|
                #[trigger] func_body_refs(m, f as int).calls.contains(c) ==> calls@.contains(
                    c as usize,
                ) && c == (c as usize) as int);
        }
        let nc = calls.len();
        let mut ci: usize = 0;
        while ci < nc
            invariant
                m == module@,
                closed(m, live(m)),
                n == marked@.len(),
                *n_marked <= n,
                nc == calls@.len(),
                ci <= nc,
                mark_inv(m, marked@, work@, *n_marked),
                live(m).contains(f as int),
                func_exists(m, f as int),
                (f as int) < n,
                forall|c: int|
                    #[trigger] func_body_refs(m, f as int).calls.contains(c) ==> calls@.contains(
                        c as usize,
                    ) && c == (c as usize) as int,
                forall|c: usize|
                    calls@.contains(c) ==> func_body_refs(m, f as int).calls.contains(c as int),
                forall|f2: int| root_funcs(m).contains(f2) && func_exists(m, f2) ==> marked@[f2],
                forall|g: int|
                    0 <= g < marked@.len() && #[trigger] marked@[g] && !work_has(work@, g) && g
                        != f as int ==> calls_done(m, marked@, g),
                forall|x: int|
                    0 <= x < ci ==> (func_exists(m, #[trigger] calls@[x] as int) ==> marked@[
                        calls@[x] as int]),
                forall|g: int|
                    0 <= g < marked@.len() && #[trigger] marked@[g] && !marked_pre[g] ==> work_has(
                        work@,
                        g,
                    ),
                forall|g: int| 0 <= g < n && #[trigger] marked_pre[g] ==> marked@[g],
                forall|i2: int|
                    0 <= i2 < work_pre.len() - 1 ==> #[trigger] work@[i2] == work_pre[i2],
                work@.len() >= work_pre.len() - 1,
                *n_marked >= n_marked_pre,
                work@.len() > work_pre.len() - 1 ==> *n_marked > n_marked_pre,
            decreases nc - ci,
        {
            let c = calls[ci];
            proof {
                assert(calls@.contains(c));
                assert(func_body_refs(m, f as int).calls.contains(c as int));
                if func_exists(m, c as int) {
                    assert(live(m).contains(c as int));
                }
            }
            let ghost marked_it = marked@;
            let ghost work_it = work@;
            mark_func(module, marked, work, n_marked, c, Ghost(m));
            proof {
                lemma_count_trues_le(marked@);
                assert forall|g: int|
                    0 <= g < marked@.len() && #[trigger] marked@[g] && !work_has(work@, g) && g
                        != f as int implies calls_done(m, marked@, g) by {
                    if marked_it[g] {
                        if work_has(work_it, g) {
                            let i2 = choose|i2: int|
                                0 <= i2 < work_it.len() && #[trigger] work_it[i2] as int == g;
                            assert(work@[i2] as int == g);
                            assert(work_has(work@, g));
                        }
                        assert(calls_done(m, marked_it, g));
                        assert forall|c2: int|
                            #[trigger] func_body_refs(m, g).calls.contains(c2) && func_exists(
                                m,
                                c2,
                            ) implies 0 <= c2 < marked@.len() && marked@[c2] by {
                            assert(marked_it[c2]);
                        }
                    } else {
                        assert(g == c as int);
                        assert(work_has(work@, g));
                    }
                }
                assert forall|g: int|
                    0 <= g < marked@.len() && #[trigger] marked@[g] && !marked_pre[g]
                        implies work_has(work@, g) by {
                    if marked_it[g] {
                        assert(work_has(work_it, g));
                        let i2 = choose|i2: int|
                            0 <= i2 < work_it.len() && #[trigger] work_it[i2] as int == g;
                        assert(work@[i2] == work_it[i2]);
                        assert(work_has(work@, g));
                    } else {
                        assert(g == c as int);
                        assert(work@.len() == work_it.len() + 1);
                        assert(work@[work_it.len() as int] == c);
                        assert(work_has(work@, g));
                    }
                }
            }
            ci = ci + 1;
        }
        proof {
            assert forall|c2: int|
                #[trigger] func_body_refs(m, f as int).calls.contains(c2) && func_exists(m, c2)
                    implies 0 <= c2 < marked@.len() && marked@[c2] by {
                let cu = c2 as usize;
                assert(calls@.contains(cu));
                let x = choose|x: int| 0 <= x < calls@.len() && #[trigger] calls@[x] == cu;
            }
            assert(calls_done(m, marked@, f as int));
            assert forall|g: int|
                0 <= g < marked@.len() && #[trigger] marked@[g] && !work_has(work@, g)
                    implies calls_done(m, marked@, g) by {
                if g != f as int {
                }
            }
        }
    }
    proof {
        let msk = Set::new(|g: int| 0 <= g < marked@.len() && marked@[g]);
        assert forall|g: int| root_funcs(m).contains(g) && func_exists(m, g) implies msk.contains(
            g,
        ) by {}
        assert forall|g: int, c: int|
            msk.contains(g) && func_exists(m, g) && #[trigger] func_body_refs(m, g).calls.contains(
                c,
            ) && func_exists(m, c) implies msk.contains(c) by {
            assert(calls_done(m, marked@, g));
        }
        assert(closed(m, msk));
        assert forall|g: int| 0 <= g < marked@.len() implies (marked@[g] <==> live(m).contains(
            g,
        )) by {
            if live(m).contains(g) {
                assert(msk.contains(g));
            }
        }
    }
}

/// Function `f` uses signature `t`.
pub open spec fn uses_type(m: ModuleV, f: int, t: int) -> bool {
    func_exists(m, f) && (m.funcs[f]->Some_0.ty == t || func_body_refs(m, f).tys.contains(t))
}

/// Function `f` uses local slot `l`.
pub open spec fn uses_local(m: ModuleV, f: int, l: int) -> bool {
    func_exists(m, f) && (func_declared_locals(m, f).contains(l) || func_body_refs(
        m,
        f,
    ).locals.contains(l))
}

/// Function `f` uses global `g`.
pub open spec fn uses_global(m: ModuleV, f: int, g: int) -> bool {
    func_exists(m, f) && func_body_refs(m, f).globals.contains(g)
}

/// Records every type, local and global that function `f` uses.
fn mark_used_func(
    module: &Module,
    f: Id,
    ut: &mut Vec<bool>,
    ul: &mut Vec<bool>,
    ug: &mut Vec<bool>,
    Ghost(m): Ghost<ModuleV>,
)
    requires
        m == module@,
        func_exists(m, f as int),
        old(ut)@.len() == m.types.len(),
        old(ul)@.len() == m.locals.len(),
        old(ug)@.len() == m.globals.len(),
    ensures
        final(ut)@.len() == old(ut)@.len(),
        final(ul)@.len() == old(ul)@.len(),
        final(ug)@.len() == old(ug)@.len(),
        forall|t: int|
            0 <= t < m.types.len() ==> (#[trigger] final(ut)@[t] <==> old(ut)@[t] || uses_type(
                m,
                f as int,
                t,
            )),
        forall|l: int|
            0 <= l < m.locals.len() ==> (#[trigger] final(ul)@[l] <==> old(ul)@[l] || uses_local(
                m,
                f as int,
                l,
            )),
        forall|g: int|
            0 <= g < m.globals.len() ==> (#[trigger] final(ug)@[g] <==> old(ug)@[g] || uses_global(
                m,
                f as int,
                g,
            )),
{
    match &module.funcs[f] {
        Some(func) => {
            proof {
                assert(m.funcs[f as int] == Some(func@));
            }
            if func.ty < ut.len() {
                ut.set(func.ty, true);
            }
            match &func.kind {
                crate::ir::FuncKind::Imported => {
                    proof {
                        assert(func_body_refs(m, f as int) == refs_empty());
                        assert(func_declared_locals(m, f as int) =~= Seq::<int>::empty());
                    }
                },
                crate::ir::FuncKind::Local { locals: ls, body } => {
                    proof {
                        assert(func_body_refs(m, f as int) == body_refs(instrs_view(body@)));
                        assert(func_declared_locals(m, f as int) == crate::ir::ids_view(ls@));
                        lemma_body_refs_in_range(body@);
                    }
                    let ghost ul1 = ul@;
                    let nk = ls.len();
                    let mut k: usize = 0;
                    while k < nk
                        invariant
                            nk == ls@.len(),
                            k <= nk,
                            ul@.len() == ul1.len(),
                            forall|l: int|
                                0 <= l < ul@.len() ==> (#[trigger] ul@[l] <==> ul1[l] || (
                                exists|k2: int|
                                    0 <= k2 < k && #[trigger] ls@[k2] as int == l)),
                        decreases nk - k,
                    {
                        let l = ls[k];
                        if l < ul.len() {
                            ul.set(l, true);
                        }
                        k = k + 1;
                    }
                    proof {
                        assert forall|l: int| 0 <= l < ul@.len() implies (#[trigger] ul@[l] <==> ul1[
                            l] || func_declared_locals(m, f as int).contains(l)) by {
                            if func_declared_locals(m, f as int).contains(l) {
                                let k2 = choose|k2: int|
                                    0 <= k2 < crate::ir::ids_view(ls@).len() && #[trigger] crate::ir::ids_view(
                                        ls@,
                                    )[k2] == l;
                                assert(ls@[k2] as int == l);
                            }
                            if ul@[l] && !ul1[l] {
                                let k2 = choose|k2: int|
                                    0 <= k2 < ls@.len() && #[trigger] ls@[k2] as int == l;
                                assert(crate::ir::ids_view(ls@)[k2] == l);
                                assert(func_declared_locals(m, f as int).contains(l));
                            }
                        }
                    }
                    let mut calls: Vec<Id> = Vec::new();
                    let mut tysv: Vec<Id> = Vec::new();
                    let mut locsv: Vec<Id> = Vec::new();
                    let mut globsv: Vec<Id> = Vec::new();
                    collect_refs_body(body, &mut calls, &mut tysv, &mut locsv, &mut globsv);
                    let ghost ut1 = ut@;
                    let ghost ul2 = ul@;
                    let ghost ug1 = ug@;
                    let ghost brefs = body_refs(instrs_view(body@));
                    let nt = tysv.len();
                    let mut x: usize = 0;
                    while x < nt
                        invariant
                            nt == tysv@.len(),
                            x <= nt,
                            ut@.len() == ut1.len(),
                            forall|t: int|
                                0 <= t < ut@.len() ==> (#[trigger] ut@[t] <==> ut1[t] || (
                                exists|x2: int|
                                    0 <= x2 < x && #[trigger] tysv@[x2] as int == t)),
                        decreases nt - x,
                    {
                        let t = tysv[x];
                        if t < ut.len() {
                            ut.set(t, true);
                        }
                        x = x + 1;
                    }
                    proof {
                        assert forall|t: int| 0 <= t < ut@.len() implies (#[trigger] ut@[t] <==> ut1[
                            t] || brefs.tys.contains(t)) by {
                            if brefs.tys.contains(t) {
                                assert(tysv@.contains(t as usize));
                                let x2 = choose|x2: int|
                                    0 <= x2 < tysv@.len() && #[trigger] tysv@[x2] == t as usize;
                            }
                            if ut@[t] && !ut1[t] {
                                let x2 = choose|x2: int|
                                    0 <= x2 < nt && #[trigger] tysv@[x2] as int == t;
                                assert(tysv@.contains(tysv@[x2]));
                            }
                        }
                    }
                    let nl = locsv.len();
                    let mut x2: usize = 0;
                    while x2 < nl
                        invariant
                            nl == locsv@.len(),
                            x2 <= nl,
                            ul@.len() == ul2.len(),
                            forall|l: int|
                                0 <= l < ul@.len() ==> (#[trigger] ul@[l] <==> ul2[l] || (
                                exists|x3: int|
                                    0 <= x3 < x2 && #[trigger] locsv@[x3] as int == l)),
                        decreases nl - x2,
                    {
                        let l = locsv[x2];
                        if l < ul.len() {
                            ul.set(l, true);
                        }
                        x2 = x2 + 1;
                    }
                    proof {
                        assert forall|l: int| 0 <= l < ul@.len() implies (#[trigger] ul@[l] <==> ul2[
                            l] || brefs.locals.contains(l)) by {
                            if brefs.locals.contains(l) {
                                assert(locsv@.contains(l as usize));
                                let x3 = choose|x3: int|
                                    0 <= x3 < locsv@.len() && #[trigger] locsv@[x3] == l as usize;
                            }
                            if ul@[l] && !ul2[l] {
                                let x3 = choose|x3: int|
                                    0 <= x3 < nl && #[trigger] locsv@[x3] as int == l;
                                assert(locsv@.contains(locsv@[x3]));
                            }
                        }
                    }
                    let ng = globsv.len();
                    let mut x4: usize = 0;
                    while x4 < ng
                        invariant
                            ng == globsv@.len(),
                            x4 <= ng,
                            ug@.len() == ug1.len(),
                            forall|g: int|
                                0 <= g < ug@.len() ==> (#[trigger] ug@[g] <==> ug1[g] || (
                                exists|x5: int|
                                    0 <= x5 < x4 && #[trigger] globsv@[x5] as int == g)),
                        decreases ng - x4,
                    {
                        let g = globsv[x4];
                        if g < ug.len() {
                            ug.set(g, true);
                        }
                        x4 = x4 + 1;
                    }
                    proof {
                        assert forall|g: int| 0 <= g < ug@.len() implies (#[trigger] ug@[g] <==> ug1[
                            g] || brefs.globals.contains(g)) by {
                            if brefs.globals.contains(g) {
                                assert(globsv@.contains(g as usize));
                                let x5 = choose|x5: int|
                                    0 <= x5 < globsv@.len() && #[trigger] globsv@[x5] == g as usize;
                            }
                            if ug@[g] && !ug1[g] {
                                let x5 = choose|x5: int|
                                    0 <= x5 < ng && #[trigger] globsv@[x5] as int == g;
                                assert(globsv@.contains(globsv@[x5]));
                            }
                        }
                    }
                },
            }
        },
        None => {
            unreached()
        },
    }
}

/// Computes which types, locals and globals the live functions and the
/// surviving exports still use.
fn compute_used(module: &Module, marked: &Vec<bool>, Ghost(m): Ghost<ModuleV>) -> (r: (
    Vec<bool>,
    Vec<bool>,
    Vec<bool>,
))
    requires
        m == module@,
        marked@.len() == m.funcs.len(),
        forall|g: int| 0 <= g < marked@.len() ==> (#[trigger] marked@[g] <==> live(m).contains(g)),
    ensures
        r.0@.len() == m.types.len(),
        forall|t: int| 0 <= t < m.types.len() ==> (#[trigger] r.0@[t] <==> type_used(m, t)),
        r.1@.len() == m.locals.len(),
        forall|l: int| 0 <= l < m.locals.len() ==> (#[trigger] r.1@[l] <==> local_used(m, l)),
        r.2@.len() == m.globals.len(),
        forall|g: int| 0 <= g < m.globals.len() ==> (#[trigger] r.2@[g] <==> global_used(m, g)),
{
    proof {
        lemma_live_valid(m);
    }
    let mut ut: Vec<bool> = Vec::new();
    let ntypes = module.types.len();
    while ut.len() < ntypes
        invariant
            ut@.len() <= ntypes,
            forall|t: int| 0 <= t < ut@.len() ==> !(#[trigger] ut@[t]),
        decreases ntypes - ut@.len(),
    {
        ut.push(false);
    }
    let mut ul: Vec<bool> = Vec::new();
    let nlocals = module.locals.len();
    while ul.len() < nlocals
        invariant
            ul@.len() <= nlocals,
            forall|l: int| 0 <= l < ul@.len() ==> !(#[trigger] ul@[l]),
        decreases nlocals - ul@.len(),
    {
        ul.push(false);
    }
    let mut ug: Vec<bool> = Vec::new();
    let nglobals = module.globals.len();
    while ug.len() < nglobals
        invariant
            ug@.len() <= nglobals,
            forall|g: int| 0 <= g < ug@.len() ==> !(#[trigger] ug@[g]),
        decreases nglobals - ug@.len(),
    {
        ug.push(false);
    }
    let nf = module.funcs.len();
    let mut f: usize = 0;
    while f < nf
        invariant
            m == module@,
            nf == m.funcs.len(),
            f <= nf,
            marked@.len() == m.funcs.len(),
            forall|g: int|
                0 <= g < marked@.len() ==> (#[trigger] marked@[g] <==> live(m).contains(g)),
            forall|g: int| live(m).contains(g) ==> func_exists(m, g),
            ut@.len() == m.types.len(),
            ul@.len() == m.locals.len(),
            ug@.len() == m.globals.len(),
            forall|t: int|
                0 <= t < ut@.len() ==> (#[trigger] ut@[t] <==> exists|f2: int|
                    0 <= f2 < f && #[trigger] marked@[f2] && uses_type(m, f2, t)),
            forall|l: int|
                0 <= l < ul@.len() ==> (#[trigger] ul@[l] <==> exists|f2: int|
                    0 <= f2 < f && #[trigger] marked@[f2] && uses_local(m, f2, l)),
            forall|g: int|
                0 <= g < ug@.len() ==> (#[trigger] ug@[g] <==> exists|f2: int|
                    0 <= f2 < f && #[trigger] marked@[f2] && uses_global(m, f2, g)),
        decreases nf - f,
    {
        if marked[f] {
            proof {
                assert(live(m).contains(f as int));
                assert(func_exists(m, f as int));
            }
            mark_used_func(module, f, &mut ut, &mut ul, &mut ug, Ghost(m));
        }
        f = f + 1;
    }
    // The surviving exports keep their globals too.
    let ghost ug2 = ug@;
    let ne = module.exports.len();
    let mut e: usize = 0;
    while e < ne
        invariant
            m == module@,
            ne == m.exports.len(),
            e <= ne,
            ug@.len() == m.globals.len(),
            forall|g: int|
                0 <= g < ug@.len() ==> (#[trigger] ug@[g] <==> ug2[g] || exists|e2: int|
                    0 <= e2 < e && #[trigger] export_is_global(m, e2, g)),
        decreases ne - e,
    {
        match &module.exports[e] {
            Some(ex) => match ex.item {
                crate::ir::ExportItem::Global(g) => {
                    proof {
                        assert(export_is_global(m, e as int, g as int));
                    }
                    if g < ug.len() {
                        ug.set(g, true);
                    }
                },
                crate::ir::ExportItem::Function(_) => {},
                crate::ir::ExportItem::Other => {},
            },
            None => {},
        }
        e = e + 1;
    }
    proof {
        assert forall|t: int| 0 <= t < m.types.len() implies (#[trigger] ut@[t] <==> type_used(
            m,
            t,
        )) by {
            if ut@[t] {
                let f2 = choose|f2: int|
                    0 <= f2 < nf && #[trigger] marked@[f2] && uses_type(m, f2, t);
                assert(live(m).contains(f2));
            }
            if type_used(m, t) {
                let f2 = choose|f2: int|
                    #[trigger] live(m).contains(f2) && func_exists(m, f2) && (m.funcs[f2]->Some_0.ty
                        == t || func_body_refs(m, f2).tys.contains(t));
                assert(marked@[f2] && uses_type(m, f2, t));
            }
        }
        assert forall|l: int| 0 <= l < m.locals.len() implies (#[trigger] ul@[l] <==> local_used(
            m,
            l,
        )) by {
            if ul@[l] {
                let f2 = choose|f2: int|
                    0 <= f2 < nf && #[trigger] marked@[f2] && uses_local(m, f2, l);
                assert(live(m).contains(f2));
            }
            if local_used(m, l) {
                let f2 = choose|f2: int|
                    #[trigger] live(m).contains(f2) && func_exists(m, f2) && (func_declared_locals(
                        m,
                        f2,
                    ).contains(l) || func_body_refs(m, f2).locals.contains(l));
                assert(marked@[f2] && uses_local(m, f2, l));
            }
        }
        assert forall|g: int| 0 <= g < m.globals.len() implies (#[trigger] ug@[g] <==> global_used(
            m,
            g,
        )) by {
            if ug@[g] {
                if ug2[g] {
                    let f2 = choose|f2: int|
                        0 <= f2 < nf && #[trigger] marked@[f2] && uses_global(m, f2, g);
                    assert(live(m).contains(f2));
                    assert(global_used(m, g));
                } else {
                    assert(global_used(m, g));
                }
            }
            if global_used(m, g) {
                if exists|f2: int|
                    #[trigger] live(m).contains(f2) && func_exists(m, f2) && func_body_refs(
                        m,
                        f2,
                    ).globals.contains(g) {
                    let f2 = choose|f2: int|
                        #[trigger] live(m).contains(f2) && func_exists(m, f2) && func_body_refs(
                            m,
                            f2,
                        ).globals.contains(g);
                    assert(marked@[f2] && uses_global(m, f2, g));
                    assert(ug2[g]);
                }
            }
        }
    }
    (ut, ul, ug)
}

/// Deletes every function, import, type, local and global that the marks
/// and usage bitmaps say is no longer needed.
fn sweep(
    module: &mut Module,
    marked: &Vec<bool>,
    ut: &Vec<bool>,
    ul: &Vec<bool>,
    ug: &Vec<bool>,
    Ghost(m): Ghost<ModuleV>,
)
    requires
        m == old(module)@,
        marked@.len() == m.funcs.len(),
        forall|g: int| 0 <= g < marked@.len() ==> (#[trigger] marked@[g] <==> live(m).contains(g)),
        ut@.len() == m.types.len(),
        forall|t: int| 0 <= t < m.types.len() ==> (#[trigger] ut@[t] <==> type_used(m, t)),
        ul@.len() == m.locals.len(),
        forall|l: int| 0 <= l < m.locals.len() ==> (#[trigger] ul@[l] <==> local_used(m, l)),
        ug@.len() == m.globals.len(),
        forall|g: int| 0 <= g < m.globals.len() ==> (#[trigger] ug@[g] <==> global_used(m, g)),
    ensures
        final(module)@ == spec_gc(m),
{
    proof {
        lemma_live_valid(m);
    }
    let ghost funcs0 = module.funcs@;
    let nf = module.funcs.len();
    let mut f: usize = 0;
    while f < nf
        invariant
            nf == funcs0.len(),
            f <= nf,
            marked@.len() == nf,
            module@ == (ModuleV { funcs: module@.funcs, ..m }),
            module.funcs@.len() == nf,
            forall|j: int|
                0 <= j < f ==> #[trigger] module.funcs@[j] == (if marked@[j] {
                    funcs0[j]
                } else {
                    None
                }),
            forall|j: int| f <= j < nf ==> #[trigger] module.funcs@[j] == funcs0[j],
        decreases nf - f,
    {
        if !marked[f] {
            module.funcs.set(f, None);
        }
        f = f + 1;
    }
    proof {
        assert(module@.funcs =~= spec_gc(m).funcs);
    }
    let ghost mids = module@;
    let ghost imports0 = module.imports@;
    let ni = module.imports.len();
    let mut i: usize = 0;
    while i < ni
        invariant
            ni == imports0.len(),
            i <= ni,
            marked@.len() == m.funcs.len(),
            forall|g: int|
                0 <= g < marked@.len() ==> (#[trigger] marked@[g] <==> live(m).contains(g)),
            forall|g: int| live(m).contains(g) ==> func_exists(m, g),
            module@ == (ModuleV { imports: module@.imports, ..mids }),
            module.imports@.len() == ni,
            forall|j: int|
                0 <= j < i ==> #[trigger] module.imports@[j] == (match imports0[j] {
                    Some(im) => match im.kind {
                        crate::ir::ImportKind::Function(f2) => if live(m).contains(f2 as int) {
                            imports0[j]
                        } else {
                            None
                        },
                        crate::ir::ImportKind::Other => imports0[j],
                    },
                    None => None,
                }),
            forall|j: int| i <= j < ni ==> #[trigger] module.imports@[j] == imports0[j],
        decreases ni - i,
    {
        let dead: bool = match &module.imports[i] {
            Some(im) => match im.kind {
                crate::ir::ImportKind::Function(f2) => !(f2 < marked.len() && marked[f2]),
                crate::ir::ImportKind::Other => false,
            },
            None => false,
        };
        proof {
            match imports0[i as int] {
                Some(im) => match im.kind {
                    crate::ir::ImportKind::Function(f2) => {
                        if live(m).contains(f2 as int) {
                            assert(func_exists(m, f2 as int));
                            assert((f2 as int) < marked@.len());
                            assert(marked@[f2 as int]);
                            assert(!dead);
                        } else {
                            if (f2 as int) < marked@.len() {
                                assert(!marked@[f2 as int]);
                            }
                            assert(dead);
                        }
                    },
                    crate::ir::ImportKind::Other => {},
                },
                None => {},
            }
        }
        if dead {
            module.imports.set(i, None);
        }
        i = i + 1;
    }
    proof {
        assert(module@.imports =~= spec_gc(m).imports);
    }
    let ghost midt = module@;
    let ghost types0 = module.types@;
    let nt = module.types.len();
    let mut t: usize = 0;
    while t < nt
        invariant
            nt == types0.len(),
            t <= nt,
            ut@.len() == nt,
            module@ == (ModuleV { types: module@.types, ..midt }),
            module.types@.len() == nt,
            forall|j: int|
                0 <= j < t ==> #[trigger] module.types@[j] == (if ut@[j] {
                    types0[j]
                } else {
                    None
                }),
            forall|j: int| t <= j < nt ==> #[trigger] module.types@[j] == types0[j],
        decreases nt - t,
    {
        if !ut[t] {
            module.types.set(t, None);
        }
        t = t + 1;
    }
    proof {
        assert(module@.types =~= spec_gc(m).types);
    }
    let ghost midl = module@;
    let ghost locals0 = module.locals@;
    let nl = module.locals.len();
    let mut l: usize = 0;
    while l < nl
        invariant
            nl == locals0.len(),
            l <= nl,
            ul@.len() == nl,
            module@ == (ModuleV { locals: module@.locals, ..midl }),
            module.locals@.len() == nl,
            forall|j: int|
                0 <= j < l ==> #[trigger] module.locals@[j] == (if ul@[j] {
                    locals0[j]
                } else {
                    None
                }),
            forall|j: int| l <= j < nl ==> #[trigger] module.locals@[j] == locals0[j],
        decreases nl - l,
    {
        if !ul[l] {
            module.locals.set(l, None);
        }
        l = l + 1;
    }
    proof {
        assert(module@.locals =~= spec_gc(m).locals);
    }
    let ghost midg = module@;
    let ghost globals0 = module.globals@;
    let ng = module.globals.len();
    let mut g: usize = 0;
    while g < ng
        invariant
            ng == globals0.len(),
            g <= ng,
            ug@.len() == ng,
            module@ == (ModuleV { globals: module@.globals, ..midg }),
            module.globals@.len() == ng,
            forall|j: int|
                0 <= j < g ==> #[trigger] module.globals@[j] == (if ug@[j] {
                    globals0[j]
                } else {
                    None
                }),
            forall|j: int| g <= j < ng ==> #[trigger] module.globals@[j] == globals0[j],
        decreases ng - g,
    {
        if !ug[g] {
            module.globals.set(g, None);
        }
        g = g + 1;
    }
    proof {
        assert(module@.globals =~= spec_gc(m).globals);
        assert(module@ =~= spec_gc(m));
    }
}

/// Runs the collector: marks everything reachable from the surviving
/// roots, then deletes every function, import, type, local and global no
/// longer reached.
pub fn run(module: &mut Module)
    ensures
        final(module)@ == spec_gc(old(module)@),
{
    let ghost m = module@;
    let mut marked: Vec<bool> = Vec::new();
    let nf = module.funcs.len();
    while marked.len() < nf
        invariant
            marked@.len() <= nf,
            forall|g: int| 0 <= g < marked@.len() ==> !(#[trigger] marked@[g]),
            count_trues(marked@) == 0,
        decreases nf - marked@.len(),
    {
        proof {
            lemma_count_trues_push(marked@, false);
        }
        marked.push(false);
    }
    let mut work: Vec<Id> = Vec::new();
    let mut n_marked: usize = 0;
    proof {
        assert(module.funcs@.len() == m.funcs.len());
        assert(mark_inv(m, marked@, work@, n_marked));
    }
    mark_roots(module, &mut marked, &mut work, &mut n_marked, Ghost(m));
    mark_reachable(module, &mut marked, &mut work, &mut n_marked, Ghost(m));
    let (ut, ul, ug) = compute_used(module, &marked, Ghost(m));
    sweep(module, &marked, &ut, &ul, &ug, Ghost(m));
}

} // verus!
