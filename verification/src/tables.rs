//! The table patcher.
//!
//! An indirect call through a table slot is still runtime-reachable after
//! its target is snipped, and must resolve to some function of the exact
//! expected signature. So every slot that references a snipped function is
//! rewired to a synthesized stub: a fresh function of the same signature
//! whose body is a single trap. One stub is shared per distinct signature.
//!
//! The result is stated as a relation, [`patch_rel`]: the old entities are
//! untouched, every snipped slot now holds a stub of its old target's
//! signature, every other slot is unchanged, and every appended function or
//! local slot belongs to some stub.

use vstd::prelude::*;

use vstd::pervasive::unreached;

use crate::ir::{func_exists, ids_view, instrs_view, marked_set, opts_elems_view, slots_view, Id,
    type_exists, FuncKind, FuncKindV, Function, Instr, InstrV, Module, ModuleV, Segment, SegmentV,
    Table, TableV, ValType};

verus! {

/// The signature handle of a live function.
pub open spec fn slot_ty(m: ModuleV, f: int) -> int {
    m.funcs[f]->Some_0.ty
}

/// The local slots of a local function.
pub open spec fn stub_locals(m: ModuleV, g: int) -> Seq<int> {
    m.funcs[g]->Some_0.kind->Local_locals
}

/// Table `ti` exists in `m`, is a function table, and its dense slot `j`
/// holds a live snipped function.
pub open spec fn snipped_dense_slot_at(m: ModuleV, snip: Set<int>, ti: int, j: int) -> bool {
    &&& 0 <= ti < m.tables.len()
    &&& m.tables[ti] matches Some(TableV::Function { elements, .. }) && 0 <= j < elements.len()
        && (elements[j] matches Some(f) && snip.contains(f) && func_exists(m, f))
}

/// Table `ti` exists in `m`, is a function table, and slot `k` of its
/// relative segment `sj` holds a live snipped function.
pub open spec fn snipped_seg_slot_at(m: ModuleV, snip: Set<int>, ti: int, sj: int, k: int) -> bool {
    &&& 0 <= ti < m.tables.len()
    &&& m.tables[ti] matches Some(TableV::Function { segments, .. }) && 0 <= sj < segments.len()
        && 0 <= k < segments[sj].funcs.len() && snip.contains(segments[sj].funcs[k])
        && func_exists(m, segments[sj].funcs[k])
}

/// The signature of the function a dense slot holds.
pub open spec fn dense_slot_ty(m: ModuleV, ti: int, j: int) -> int {
    slot_ty(m, m.tables[ti]->Some_0->Function_elements[j]->Some_0)
}

/// The signature of the function a segment slot holds.
pub open spec fn seg_slot_ty(m: ModuleV, ti: int, sj: int, k: int) -> int {
    slot_ty(m, m.tables[ti]->Some_0->Function_segments[sj].funcs[k])
}

/// The signatures of the snipped functions that some table slot holds: the
/// signatures for which patching synthesizes a stub.
pub open spec fn snipped_slot_tys(m: ModuleV, snip: Set<int>) -> Set<int> {
    Set::new(
        |t: int|
            (exists|ti: int, j: int|
                #[trigger] snipped_dense_slot_at(m, snip, ti, j) && dense_slot_ty(m, ti, j) == t)
                || (exists|ti: int, sj: int, k: int|
                #[trigger] snipped_seg_slot_at(m, snip, ti, sj, k) && seg_slot_ty(m, ti, sj, k)
                    == t),
    )
}

/// In the grown module `m1`, `g` is a stub of signature `t`: a fresh,
/// unnamed local function whose body is a single trap and whose locals are
/// fresh slots carrying exactly the signature's parameter types.
pub open spec fn is_stub(m0: ModuleV, m1: ModuleV, g: int, t: int) -> bool {
    &&& m0.funcs.len() <= g < m1.funcs.len()
    &&& m1.funcs[g] matches Some(st) && {
        &&& st.name is None
        &&& st.ty == t
        &&& st.kind matches FuncKindV::Local { locals, body } && {
            &&& body == seq![InstrV::Trap]
            &&& locals.len() == (match m0.types[t] {
                Some(tv) => tv.params.len(),
                None => 0,
            })
            &&& forall|k: int|
                0 <= k < locals.len() ==> m0.locals.len() <= #[trigger] locals[k]
                    < m1.locals.len()
            &&& forall|k: int|
                0 <= k < locals.len() ==> m1.locals[#[trigger] locals[k]] == Some(
                    m0.types[t]->Some_0.params[k],
                )
        }
    }
}

/// `m1` extends `m0` with stubs and nothing else: all old functions and
/// locals are unchanged, every other arena is untouched, `stubof` maps each
/// stubbed signature to its stub, and every appended function or local slot
/// belongs to some stub.
pub open spec fn stubs_extend(
    m0: ModuleV,
    m1: ModuleV,
    snip: Set<int>,
    stubof: Map<int, int>,
) -> bool {
    &&& m1.types == m0.types
    &&& m1.globals == m0.globals
    &&& m1.imports == m0.imports
    &&& m1.exports == m0.exports
    &&& m1.start == m0.start
    &&& m1.has_names == m0.has_names
    &&& m1.funcs.len() >= m0.funcs.len()
    &&& forall|f: int| 0 <= f < m0.funcs.len() ==> m1.funcs[f] == m0.funcs[f]
    &&& m1.locals.len() >= m0.locals.len()
    &&& forall|l: int| 0 <= l < m0.locals.len() ==> m1.locals[l] == m0.locals[l]
    &&& stubof.dom().subset_of(snipped_slot_tys(m0, snip))
    &&& forall|t: int| stubof.dom().contains(t) ==> is_stub(m0, m1, stubof[t], t)
    &&& forall|g: int|
        m0.funcs.len() <= g < m1.funcs.len() ==> #[trigger] stub_id_covered(stubof, g)
    &&& forall|l: int|
        m0.locals.len() <= l < m1.locals.len() ==> #[trigger] stub_local_covered(m1, stubof, l)
}

/// The appended function `g` is one of the stubs.
pub open spec fn stub_id_covered(stubof: Map<int, int>, g: int) -> bool {
    exists|t: int| #[trigger] stubof.dom().contains(t) && stubof[t] == g
}

/// The appended local slot `l` belongs to one of the stubs.
pub open spec fn stub_local_covered(m1: ModuleV, stubof: Map<int, int>, l: int) -> bool {
    exists|t: int| #[trigger] stubof.dom().contains(t) && stub_locals(m1, stubof[t]).contains(l)
}

/// How one dense slot is patched: a snipped target is replaced by the stub
/// of its signature, anything else is unchanged.
pub open spec fn dense_slot_rel(
    m0: ModuleV,
    snip: Set<int>,
    stubof: Map<int, int>,
    old_s: Option<int>,
    new_s: Option<int>,
) -> bool {
    match old_s {
        Some(f) => if snip.contains(f) {
            stubof.dom().contains(slot_ty(m0, f)) && new_s == Some(stubof[slot_ty(m0, f)])
        } else {
            new_s == old_s
        },
        None => new_s is None,
    }
}

/// How one relative-segment slot is patched.
pub open spec fn seg_slot_rel(
    m0: ModuleV,
    snip: Set<int>,
    stubof: Map<int, int>,
    f0: int,
    f1: int,
) -> bool {
    if snip.contains(f0) {
        stubof.dom().contains(slot_ty(m0, f0)) && f1 == stubof[slot_ty(m0, f0)]
    } else {
        f1 == f0
    }
}

/// How one table is patched: same shape, every slot related by the slot
/// relations. Non-function tables are untouched.
pub open spec fn table_patched(
    m0: ModuleV,
    snip: Set<int>,
    stubof: Map<int, int>,
    t0: Option<TableV>,
    t1: Option<TableV>,
) -> bool {
    match (t0, t1) {
        (None, None) => true,
        (Some(TableV::Other), Some(TableV::Other)) => true,
        (
            Some(TableV::Function { elements: e0, segments: s0 }),
            Some(TableV::Function { elements: e1, segments: s1 }),
        ) => {
            &&& e1.len() == e0.len()
            &&& forall|j: int|
                0 <= j < e0.len() ==> dense_slot_rel(m0, snip, stubof, e0[j], #[trigger] e1[j])
            &&& s1.len() == s0.len()
            &&& forall|sj: int|
                0 <= sj < s0.len() ==> (#[trigger] s1[sj]).offset == s0[sj].offset
            &&& forall|sj: int|
                0 <= sj < s0.len() ==> (#[trigger] s1[sj]).funcs.len() == s0[sj].funcs.len()
            &&& forall|sj: int, k: int|
                0 <= sj < s0.len() && 0 <= k < s0[sj].funcs.len() ==> seg_slot_rel(
                    m0,
                    snip,
                    stubof,
                    s0[sj].funcs[k],
                    #[trigger] s1[sj].funcs[k],
                )
        },
        _ => false,
    }
}

/// The whole table-patching step: some stub map ties the grown function
/// arena to the patched tables.
pub open spec fn patch_rel(m0: ModuleV, snip: Set<int>, m1: ModuleV) -> bool {
    exists|stubof: Map<int, int>|
        #[trigger] stubs_extend(m0, m1, snip, stubof) && m1.tables.len() == m0.tables.len()
            && forall|ti: int|
            0 <= ti < m0.tables.len() ==> table_patched(
                m0,
                snip,
                stubof,
                m0.tables[ti],
                #[trigger] m1.tables[ti],
            )
}

/// Every function-table slot of the module references a live function of a
/// live signature, so its stub can be synthesized.
pub open spec fn tables_patchable(m: ModuleV) -> bool {
    &&& forall|ti: int, j: int|
        snipped_dense_slot_ok(m, ti, j) ==> func_exists(
            m,
            #[trigger] m.tables[ti]->Some_0->Function_elements[j]->Some_0,
        ) && type_exists(m, dense_slot_ty(m, ti, j))
    &&& forall|ti: int, sj: int, k: int|
        snipped_seg_slot_ok(m, ti, sj, k) ==> func_exists(
            m,
            #[trigger] m.tables[ti]->Some_0->Function_segments[sj].funcs[k],
        ) && type_exists(m, seg_slot_ty(m, ti, sj, k))
}

/// A dense slot exists and holds a function handle.
pub open spec fn snipped_dense_slot_ok(m: ModuleV, ti: int, j: int) -> bool {
    &&& 0 <= ti < m.tables.len()
    &&& m.tables[ti] matches Some(TableV::Function { elements, .. }) && 0 <= j < elements.len()
        && elements[j] is Some
}

/// A segment slot exists.
pub open spec fn snipped_seg_slot_ok(m: ModuleV, ti: int, sj: int, k: int) -> bool {
    &&& 0 <= ti < m.tables.len()
    &&& m.tables[ti] matches Some(TableV::Function { segments, .. }) && 0 <= sj < segments.len()
        && 0 <= k < segments[sj].funcs.len()
}

/// Growing a module again by appending functions and locals keeps every
/// settled stub a stub.
pub open spec fn module_grows(ma: ModuleV, mb: ModuleV) -> bool {
    &&& mb.funcs.len() >= ma.funcs.len()
    &&& forall|f: int| 0 <= f < ma.funcs.len() ==> mb.funcs[f] == ma.funcs[f]
    &&& mb.locals.len() >= ma.locals.len()
    &&& forall|l: int| 0 <= l < ma.locals.len() ==> mb.locals[l] == ma.locals[l]
}

/// A stub survives any further append-only growth of the module.
pub proof fn lemma_is_stub_grows(m0: ModuleV, ma: ModuleV, mb: ModuleV, g: int, t: int)
    requires
        is_stub(m0, ma, g, t),
        module_grows(ma, mb),
    ensures
        is_stub(m0, mb, g, t),
{
}

/// The memo table mirrors the stub map: slot `t` holds the stub synthesized
/// for signature `t`, if any.
pub open spec fn memo_ok(sf: Seq<Option<Id>>, stubof: Map<int, int>, m0: ModuleV) -> bool {
    &&& sf.len() == m0.types.len()
    &&& forall|t: int|
        0 <= t < sf.len() ==> match #[trigger] sf[t] {
            Some(g) => stubof.dom().contains(t) && stubof[t] == g as int,
            None => !stubof.dom().contains(t),
        }
    &&& forall|t: int| #[trigger] stubof.dom().contains(t) ==> 0 <= t < sf.len()
}

/// Returns the stub for the signature of the snipped function `f`,
/// synthesizing and memoizing it on first use. The ghost result is the
/// stub map afterwards.
fn patch_slot(
    module: &mut Module,
    stub_for: &mut Vec<Option<Id>>,
    f: Id,
    Ghost(m0): Ghost<ModuleV>,
    Ghost(snip): Ghost<Set<int>>,
    Ghost(st0): Ghost<Map<int, int>>,
) -> (res: (Id, Ghost<Map<int, int>>))
    requires
        stubs_extend(m0, old(module)@, snip, st0),
        memo_ok(old(stub_for)@, st0, m0),
        snip.contains(f as int),
        func_exists(m0, f as int),
        type_exists(m0, slot_ty(m0, f as int)),
        snipped_slot_tys(m0, snip).contains(slot_ty(m0, f as int)),
    ensures
        stubs_extend(m0, final(module)@, snip, res.1@),
        memo_ok(final(stub_for)@, res.1@, m0),
        st0.submap_of(res.1@),
        res.1@.dom().contains(slot_ty(m0, f as int)),
        res.0 as int == res.1@[slot_ty(m0, f as int)],
        final(module)@.tables == old(module)@.tables,
        module_grows(old(module)@, final(module)@),
{
    let ghost t = slot_ty(m0, f as int);
    assert(module@.funcs[f as int] == m0.funcs[f as int]);
    let fun_ty: Id = match &module.funcs[f] {
        Some(fun) => fun.ty,
        None => unreached(),
    };
    assert(fun_ty as int == t);
    match stub_for[fun_ty] {
        Some(g) => (g, Ghost(st0)),
        None => {
            // Materialize the signature's parameter types.
            assert(module@.types[t] == m0.types[t]);
            let ghost tv = m0.types[t]->Some_0;
            let np: usize = match &module.types[fun_ty] {
                Some(ft) => ft.params.len(),
                None => unreached(),
            };
            let mut params: Vec<ValType> = Vec::new();
            let mut k: usize = 0;
            while k < np
                invariant
                    k <= np,
                    np == tv.params.len(),
                    params@.len() == k,
                    module@.types[t] == m0.types[t],
                    m0.types[t] == Some(tv),
                    0 <= t < module@.types.len(),
                    fun_ty as int == t,
                    forall|x: int| 0 <= x < k ==> #[trigger] params@[x] == tv.params[x],
                decreases np - k,
            {
                let vt: ValType = match &module.types[fun_ty] {
                    Some(ft) => ft.params[k],
                    None => unreached(),
                };
                params.push(vt);
                k = k + 1;
            }
            // Bind one fresh local slot per parameter.
            let ghost mprev = module@;
            let mut locals: Vec<Id> = Vec::new();
            let mut k2: usize = 0;
            while k2 < params.len()
                invariant
                    k2 <= params@.len(),
                    locals@.len() == k2,
                    module@ == (ModuleV { locals: module@.locals, ..mprev }),
                    module.locals@.len() == mprev.locals.len() + k2,
                    forall|x: int|
                        0 <= x < mprev.locals.len() ==> #[trigger] module.locals@[x]
                            == mprev.locals[x],
                    forall|x: int|
                        0 <= x < k2 ==> #[trigger] locals@[x] == mprev.locals.len() + x,
                    forall|x: int|
                        0 <= x < k2 ==> #[trigger] module.locals@[mprev.locals.len() + x] == Some(
                            params@[x],
                        ),
                decreases params@.len() - k2,
            {
                let l = module.locals.len();
                module.locals.push(Some(params[k2]));
                locals.push(l);
                k2 = k2 + 1;
            }
            // The stub itself: one trap, nothing more.
            let body_vec: Vec<Instr> = vec![Instr::Trap];
            proof {
                assert(instrs_view(body_vec@) =~= seq![InstrV::Trap]) by {
                    reveal_with_fuel(instrs_view, 2);
                }
            }
            let ghost mmid = module@;
            let g = module.funcs.len();
            module.funcs.push(
                Some(Function { name: None, ty: fun_ty, kind: FuncKind::Local { locals, body: body_vec } }),
            );
            stub_for.set(fun_ty, Some(g));
            let ghost st1 = st0.insert(t, g as int);
            proof {
                assert forall|x: int| 0 <= x < mmid.funcs.len() implies module@.funcs[x]
                    == mmid.funcs[x] by {}
                assert(module_grows(old(module)@, module@));
                assert(module@.funcs[g as int] matches Some(st) && st.ty == t && st.name is None);
                assert(is_stub(m0, module@, g as int, t));
                assert forall|tp: int| st1.dom().contains(tp) implies is_stub(
                    m0,
                    module@,
                    st1[tp],
                    tp,
                ) by {
                    if tp != t {
                        lemma_is_stub_grows(m0, old(module)@, module@, st0[tp], tp);
                    }
                }
                assert forall|gg: int|
                    m0.funcs.len() <= gg < module@.funcs.len() implies stub_id_covered(
                    st1,
                    gg,
                ) by {
                    if gg < mmid.funcs.len() {
                        assert(stub_id_covered(st0, gg));
                        let tw = choose|tw: int| #[trigger]
                            st0.dom().contains(tw) && st0[tw] == gg;
                        assert(st1.dom().contains(tw) && st1[tw] == gg);
                    } else {
                        assert(st1.dom().contains(t) && st1[t] == gg);
                    }
                }
                assert forall|l: int|
                    m0.locals.len() <= l < module@.locals.len() implies stub_local_covered(
                    module@,
                    st1,
                    l,
                ) by {
                    if l < mprev.locals.len() {
                        assert(stub_local_covered(old(module)@, st0, l));
                        let tw = choose|tw: int| #[trigger]
                            st0.dom().contains(tw) && stub_locals(old(module)@, st0[tw]).contains(
                                l,
                            );
                        assert(stub_locals(module@, st1[tw]) == stub_locals(old(module)@, st0[tw]));
                        assert(st1.dom().contains(tw));
                    } else {
                        let x = l - mprev.locals.len();
                        assert(stub_locals(module@, g as int)[x] == l);
                        assert(stub_locals(module@, g as int).contains(l));
                        assert(st1.dom().contains(t) && st1[t] == g as int);
                    }
                }
                assert(stubs_extend(m0, module@, snip, st1));
                assert(st0.submap_of(st1));
            }
            (g, Ghost(st1))
        },
    }
}

/// A patched dense slot stays patched when the stub map grows.
pub proof fn lemma_dense_slot_rel_mono(
    m0: ModuleV,
    snip: Set<int>,
    sa: Map<int, int>,
    sb: Map<int, int>,
    old_s: Option<int>,
    new_s: Option<int>,
)
    requires
        dense_slot_rel(m0, snip, sa, old_s, new_s),
        sa.submap_of(sb),
    ensures
        dense_slot_rel(m0, snip, sb, old_s, new_s),
{
    match old_s {
        Some(f) => {
            if snip.contains(f) {
                assert(sa.dom().contains(slot_ty(m0, f)));
                assert(sb.dom().contains(slot_ty(m0, f)) && sa[slot_ty(m0, f)] == sb[slot_ty(
                    m0,
                    f,
                )]);
            }
        },
        None => {},
    }
}

/// A patched segment slot stays patched when the stub map grows.
pub proof fn lemma_seg_slot_rel_mono(
    m0: ModuleV,
    snip: Set<int>,
    sa: Map<int, int>,
    sb: Map<int, int>,
    f0: int,
    f1: int,
)
    requires
        seg_slot_rel(m0, snip, sa, f0, f1),
        sa.submap_of(sb),
    ensures
        seg_slot_rel(m0, snip, sb, f0, f1),
{
    if snip.contains(f0) {
        assert(sa.dom().contains(slot_ty(m0, f0)));
        assert(sb.dom().contains(slot_ty(m0, f0)) && sa[slot_ty(m0, f0)] == sb[slot_ty(m0, f0)]);
    }
}

/// A patched table stays patched when the stub map grows.
pub proof fn lemma_table_patched_mono(
    m0: ModuleV,
    snip: Set<int>,
    sa: Map<int, int>,
    sb: Map<int, int>,
    t0: Option<TableV>,
    t1: Option<TableV>,
)
    requires
        table_patched(m0, snip, sa, t0, t1),
        sa.submap_of(sb),
    ensures
        table_patched(m0, snip, sb, t0, t1),
{
    match (t0, t1) {
        (
            Some(TableV::Function { elements: e0, segments: s0 }),
            Some(TableV::Function { elements: e1, segments: s1 }),
        ) => {
            assert forall|j: int| 0 <= j < e0.len() implies dense_slot_rel(
                m0,
                snip,
                sb,
                e0[j],
                #[trigger] e1[j],
            ) by {
                lemma_dense_slot_rel_mono(m0, snip, sa, sb, e0[j], e1[j]);
            }
            assert forall|sj: int, k: int|
                0 <= sj < s0.len() && 0 <= k < s0[sj].funcs.len() implies seg_slot_rel(
                m0,
                snip,
                sb,
                s0[sj].funcs[k],
                #[trigger] s1[sj].funcs[k],
            ) by {
                lemma_seg_slot_rel_mono(m0, snip, sa, sb, s0[sj].funcs[k], s1[sj].funcs[k]);
            }
        },
        _ => {},
    }
}

/// Patches one relative segment's handle list in place: every snipped
/// handle is replaced by the stub of its signature.
fn patch_id_list(
    module: &mut Module,
    stub_for: &mut Vec<Option<Id>>,
    funcs: &mut Vec<Id>,
    to_snip: &Vec<bool>,
    Ghost(m0): Ghost<ModuleV>,
    Ghost(snip): Ghost<Set<int>>,
    Ghost(st0): Ghost<Map<int, int>>,
    Ghost(ti): Ghost<int>,
    Ghost(sj): Ghost<int>,
) -> (res: Ghost<Map<int, int>>)
    requires
        stubs_extend(m0, old(module)@, snip, st0),
        memo_ok(old(stub_for)@, st0, m0),
        to_snip@.len() == m0.funcs.len(),
        snip == marked_set(to_snip@),
        tables_patchable(m0),
        0 <= ti < m0.tables.len(),
        m0.tables[ti] matches Some(TableV::Function { segments, .. }) && 0 <= sj < segments.len()
            && segments[sj].funcs == ids_view(old(funcs)@),
    ensures
        stubs_extend(m0, final(module)@, snip, res@),
        memo_ok(final(stub_for)@, res@, m0),
        st0.submap_of(res@),
        final(module)@.tables == old(module)@.tables,
        module_grows(old(module)@, final(module)@),
        final(funcs)@.len() == old(funcs)@.len(),
        forall|k: int|
            0 <= k < old(funcs)@.len() ==> seg_slot_rel(
                m0,
                snip,
                res@,
                ids_view(old(funcs)@)[k],
                #[trigger] ids_view(final(funcs)@)[k],
            ),
{
    let ghost orig = ids_view(old(funcs)@);
    let ghost mentry = module@;
    let ghost tbl0 = module@.tables;
    let ghost stubof0 = st0;
    let mut stubof: Ghost<Map<int, int>> = Ghost(st0);
    let n = funcs.len();
    let mut k: usize = 0;
    while k < n
        invariant
            n == old(funcs)@.len(),
            k <= n,
            funcs@.len() == n,
            orig == ids_view(old(funcs)@),
            stubs_extend(m0, module@, snip, stubof@),
            memo_ok(stub_for@, stubof@, m0),
            st0.submap_of(stubof@),
            module@.tables == tbl0,
            module_grows(mentry, module@),
            to_snip@.len() == m0.funcs.len(),
            snip == marked_set(to_snip@),
            tables_patchable(m0),
            0 <= ti < m0.tables.len(),
            m0.tables[ti] matches Some(TableV::Function { segments, .. }) && 0 <= sj
                < segments.len() && segments[sj].funcs == orig,
            forall|x: int|
                0 <= x < k ==> seg_slot_rel(
                    m0,
                    snip,
                    stubof@,
                    orig[x],
                    #[trigger] ids_view(funcs@)[x],
                ),
            forall|x: int| k <= x < n ==> #[trigger] funcs@[x] == old(funcs)@[x],
        decreases n - k,
    {
        let f0 = funcs[k];
        if f0 < to_snip.len() && to_snip[f0] {
            proof {
                assert(orig[k as int] == f0 as int);
                assert(snipped_seg_slot_ok(m0, ti, sj, k as int));
                assert(snipped_seg_slot_at(m0, snip, ti, sj, k as int));
                assert(seg_slot_ty(m0, ti, sj, k as int) == slot_ty(m0, f0 as int));
                assert(snipped_slot_tys(m0, snip).contains(slot_ty(m0, f0 as int)));
            }
            let ghost st_before = stubof@;
            let (g, st2) = patch_slot(module, stub_for, f0, Ghost(m0), Ghost(snip), stubof);
            stubof = st2;
            let ghost fprev = funcs@;
            funcs.set(k, g);
            proof {
                vstd::map_lib::lemma_submap_of_trans(st0, st_before, stubof@);
                assert forall|x: int| 0 <= x < k implies seg_slot_rel(
                    m0,
                    snip,
                    stubof@,
                    orig[x],
                    #[trigger] ids_view(funcs@)[x],
                ) by {
                    assert(funcs@[x] == fprev[x]);
                    assert(ids_view(funcs@)[x] == ids_view(fprev)[x]);
                    lemma_seg_slot_rel_mono(m0, snip, st_before, stubof@, orig[x], ids_view(
                        fprev,
                    )[x]);
                }
                assert(ids_view(funcs@)[k as int] == g as int);
                assert(seg_slot_rel(m0, snip, stubof@, orig[k as int], ids_view(funcs@)[k as int]));
            }
        } else {
            proof {
                assert(orig[k as int] == f0 as int);
                assert(!snip.contains(f0 as int));
                assert(seg_slot_rel(m0, snip, stubof@, orig[k as int], ids_view(funcs@)[k as int]));
            }
        }
        k = k + 1;
    }
    proof {
        assert(st0.submap_of(stubof@));
    }
    stubof
}

/// Patches one table's dense element list in place: every slot that holds
/// a snipped handle is rewired to the stub of its signature.
fn patch_dense_list(
    module: &mut Module,
    stub_for: &mut Vec<Option<Id>>,
    elements: &mut Vec<Option<Id>>,
    to_snip: &Vec<bool>,
    Ghost(m0): Ghost<ModuleV>,
    Ghost(snip): Ghost<Set<int>>,
    Ghost(st0): Ghost<Map<int, int>>,
    Ghost(ti): Ghost<int>,
) -> (res: Ghost<Map<int, int>>)
    requires
        stubs_extend(m0, old(module)@, snip, st0),
        memo_ok(old(stub_for)@, st0, m0),
        to_snip@.len() == m0.funcs.len(),
        snip == marked_set(to_snip@),
        tables_patchable(m0),
        0 <= ti < m0.tables.len(),
        m0.tables[ti] matches Some(TableV::Function { elements: ev, .. }) && ev == slots_view(
            old(elements)@,
        ),
    ensures
        stubs_extend(m0, final(module)@, snip, res@),
        memo_ok(final(stub_for)@, res@, m0),
        st0.submap_of(res@),
        final(module)@.tables == old(module)@.tables,
        module_grows(old(module)@, final(module)@),
        final(elements)@.len() == old(elements)@.len(),
        forall|j: int|
            0 <= j < old(elements)@.len() ==> dense_slot_rel(
                m0,
                snip,
                res@,
                slots_view(old(elements)@)[j],
                #[trigger] slots_view(final(elements)@)[j],
            ),
{
    let ghost orig = slots_view(old(elements)@);
    let ghost mentry = module@;
    let ghost tbl0 = module@.tables;
    let mut stubof: Ghost<Map<int, int>> = Ghost(st0);
    let n = elements.len();
    let mut j: usize = 0;
    while j < n
        invariant
            n == old(elements)@.len(),
            j <= n,
            elements@.len() == n,
            orig == slots_view(old(elements)@),
            stubs_extend(m0, module@, snip, stubof@),
            memo_ok(stub_for@, stubof@, m0),
            st0.submap_of(stubof@),
            module@.tables == tbl0,
            module_grows(mentry, module@),
            to_snip@.len() == m0.funcs.len(),
            snip == marked_set(to_snip@),
            tables_patchable(m0),
            0 <= ti < m0.tables.len(),
            m0.tables[ti] matches Some(TableV::Function { elements: ev, .. }) && ev == orig,
            forall|x: int|
                0 <= x < j ==> dense_slot_rel(
                    m0,
                    snip,
                    stubof@,
                    orig[x],
                    #[trigger] slots_view(elements@)[x],
                ),
            forall|x: int| j <= x < n ==> #[trigger] elements@[x] == old(elements)@[x],
        decreases n - j,
    {
        let cur: Option<Id> = elements[j];
        match cur {
            Some(fid) => {
                if fid < to_snip.len() && to_snip[fid] {
                    proof {
                        assert(orig[j as int] == Some(fid as int));
                        assert(snipped_dense_slot_ok(m0, ti, j as int));
                        assert(snipped_dense_slot_at(m0, snip, ti, j as int));
                        assert(dense_slot_ty(m0, ti, j as int) == slot_ty(m0, fid as int));
                        assert(snipped_slot_tys(m0, snip).contains(slot_ty(m0, fid as int)));
                    }
                    let ghost st_before = stubof@;
                    let (g, st2) = patch_slot(module, stub_for, fid, Ghost(m0), Ghost(snip),
                        stubof);
                    stubof = st2;
                    let ghost eprev = elements@;
                    elements.set(j, Some(g));
                    proof {
                        vstd::map_lib::lemma_submap_of_trans(st0, st_before, stubof@);
                        assert forall|x: int| 0 <= x < j implies dense_slot_rel(
                            m0,
                            snip,
                            stubof@,
                            orig[x],
                            #[trigger] slots_view(elements@)[x],
                        ) by {
                            assert(elements@[x] == eprev[x]);
                            assert(slots_view(elements@)[x] == slots_view(eprev)[x]);
                            lemma_dense_slot_rel_mono(m0, snip, st_before, stubof@, orig[x],
                                slots_view(eprev)[x]);
                        }
                        assert(slots_view(elements@)[j as int] == Some(g as int));
                        assert(dense_slot_rel(m0, snip, stubof@, orig[j as int], slots_view(
                            elements@,
                        )[j as int]));
                    }
                } else {
                    proof {
                        assert(orig[j as int] == Some(fid as int));
                        assert(!snip.contains(fid as int));
                        assert(slots_view(elements@)[j as int] == Some(fid as int));
                        assert(dense_slot_rel(m0, snip, stubof@, orig[j as int], slots_view(
                            elements@,
                        )[j as int]));
                    }
                }
            },
            None => {
                proof {
                    assert(orig[j as int] is None);
                    assert(slots_view(elements@)[j as int] is None);
                }
            },
        }
        j = j + 1;
    }
    stubof
}

/// Patches every relative segment of one table in place.
fn patch_segments(
    module: &mut Module,
    stub_for: &mut Vec<Option<Id>>,
    segments: &mut Vec<Segment>,
    to_snip: &Vec<bool>,
    Ghost(m0): Ghost<ModuleV>,
    Ghost(snip): Ghost<Set<int>>,
    Ghost(st0): Ghost<Map<int, int>>,
    Ghost(ti): Ghost<int>,
) -> (res: Ghost<Map<int, int>>)
    requires
        stubs_extend(m0, old(module)@, snip, st0),
        memo_ok(old(stub_for)@, st0, m0),
        to_snip@.len() == m0.funcs.len(),
        snip == marked_set(to_snip@),
        tables_patchable(m0),
        0 <= ti < m0.tables.len(),
        m0.tables[ti] matches Some(TableV::Function { segments: sv, .. }) && sv == opts_elems_view(
            old(segments)@,
        ),
    ensures
        stubs_extend(m0, final(module)@, snip, res@),
        memo_ok(final(stub_for)@, res@, m0),
        st0.submap_of(res@),
        final(module)@.tables == old(module)@.tables,
        module_grows(old(module)@, final(module)@),
        final(segments)@.len() == old(segments)@.len(),
        forall|sj: int|
            0 <= sj < old(segments)@.len() ==> seg_patched(
                m0,
                snip,
                res@,
                old(segments)@[sj]@,
                #[trigger] final(segments)@[sj]@,
            ),
{
    let ghost orig = old(segments)@;
    let ghost mentry = module@;
    let ghost tbl0 = module@.tables;
    let mut stubof: Ghost<Map<int, int>> = Ghost(st0);
    let n = segments.len();
    let mut sj: usize = 0;
    while sj < n
        invariant
            n == orig.len(),
            sj <= n,
            segments@.len() == n,
            orig == old(segments)@,
            stubs_extend(m0, module@, snip, stubof@),
            memo_ok(stub_for@, stubof@, m0),
            st0.submap_of(stubof@),
            module@.tables == tbl0,
            module_grows(mentry, module@),
            to_snip@.len() == m0.funcs.len(),
            snip == marked_set(to_snip@),
            tables_patchable(m0),
            0 <= ti < m0.tables.len(),
            m0.tables[ti] matches Some(TableV::Function { segments: sv, .. }) && sv
                == opts_elems_view(orig),
            forall|x: int|
                0 <= x < sj ==> seg_patched(m0, snip, stubof@, orig[x]@, #[trigger] segments@[x]@),
            forall|x: int| sj <= x < n ==> #[trigger] segments@[x] == orig[x],
        decreases n - sj,
    {
        let mut segentry = Segment { offset: 0, funcs: Vec::new() };
        segments.set_and_swap(sj, &mut segentry);
        let Segment { offset, funcs: mut segfuncs } = segentry;
        proof {
            assert(opts_elems_view(orig)[sj as int] == orig[sj as int]@);
            assert(m0.tables[ti]->Some_0->Function_segments[sj as int].funcs == ids_view(
                segfuncs@,
            ));
        }
        let ghost st_before = stubof@;
        let ghost fraw0 = segfuncs@;
        let st2 = patch_id_list(module, stub_for, &mut segfuncs, to_snip, Ghost(m0), Ghost(snip),
            Ghost(st_before), Ghost(ti), Ghost(sj as int));
        stubof = st2;
        let ghost sprev = segments@;
        segments.set(sj, Segment { offset, funcs: segfuncs });
        proof {
            vstd::map_lib::lemma_submap_of_trans(st0, st_before, stubof@);
            assert forall|x: int| 0 <= x < sj implies seg_patched(
                m0,
                snip,
                stubof@,
                orig[x]@,
                #[trigger] segments@[x]@,
            ) by {
                assert(segments@[x] == sprev[x]);
                lemma_seg_patched_mono(m0, snip, st_before, stubof@, orig[x]@, sprev[x]@);
            }
            assert(segments@[sj as int]@.offset == orig[sj as int]@.offset);
            assert forall|k: int| 0 <= k < orig[sj as int]@.funcs.len() implies seg_slot_rel(
                m0,
                snip,
                stubof@,
                orig[sj as int]@.funcs[k],
                #[trigger] segments@[sj as int]@.funcs[k],
            ) by {
                assert(segments@[sj as int]@.funcs[k] == ids_view(segfuncs@)[k]);
                assert(orig[sj as int]@.funcs[k] == ids_view(fraw0)[k]);
            }
            assert(seg_patched(m0, snip, stubof@, orig[sj as int]@, segments@[sj as int]@));
        }
        sj = sj + 1;
    }
    stubof
}

/// How one relative segment is patched: same offset and length, each slot
/// related by [`seg_slot_rel`].
pub open spec fn seg_patched(
    m0: ModuleV,
    snip: Set<int>,
    stubof: Map<int, int>,
    s0: SegmentV,
    s1: SegmentV,
) -> bool {
    &&& s1.offset == s0.offset
    &&& s1.funcs.len() == s0.funcs.len()
    &&& forall|k: int|
        0 <= k < s0.funcs.len() ==> seg_slot_rel(m0, snip, stubof, s0.funcs[k], #[trigger] s1.funcs[k])
}

/// A patched segment stays patched when the stub map grows.
pub proof fn lemma_seg_patched_mono(
    m0: ModuleV,
    snip: Set<int>,
    sa: Map<int, int>,
    sb: Map<int, int>,
    s0: SegmentV,
    s1: SegmentV,
)
    requires
        seg_patched(m0, snip, sa, s0, s1),
        sa.submap_of(sb),
    ensures
        seg_patched(m0, snip, sb, s0, s1),
{
    assert forall|k: int| 0 <= k < s0.funcs.len() implies seg_slot_rel(
        m0,
        snip,
        sb,
        s0.funcs[k],
        #[trigger] s1.funcs[k],
    ) by {
        lemma_seg_slot_rel_mono(m0, snip, sa, sb, s0.funcs[k], s1.funcs[k]);
    }
}

/// The stub extension only speaks of functions and locals, so it survives
/// any change that leaves those arenas as they are.
pub proof fn lemma_stubs_extend_same_funcs(
    m0: ModuleV,
    ma: ModuleV,
    mb: ModuleV,
    snip: Set<int>,
    stubof: Map<int, int>,
)
    requires
        stubs_extend(m0, ma, snip, stubof),
        mb.types == ma.types,
        mb.globals == ma.globals,
        mb.imports == ma.imports,
        mb.exports == ma.exports,
        mb.start == ma.start,
        mb.has_names == ma.has_names,
        mb.funcs == ma.funcs,
        mb.locals == ma.locals,
    ensures
        stubs_extend(m0, mb, snip, stubof),
{
    assert forall|t: int| stubof.dom().contains(t) implies is_stub(m0, mb, stubof[t], t) by {
        lemma_is_stub_grows(m0, ma, mb, stubof[t], t);
    }
    assert forall|l: int|
        m0.locals.len() <= l < mb.locals.len() implies stub_local_covered(mb, stubof, l) by {
        assert(stub_local_covered(ma, stubof, l));
        let tw = choose|tw: int| #[trigger]
            stubof.dom().contains(tw) && stub_locals(ma, stubof[tw]).contains(l);
        assert(stub_locals(mb, stubof[tw]) == stub_locals(ma, stubof[tw]));
    }
}

/// Rewrites every indirect-call table slot that references a snipped
/// function, substituting a freshly synthesized, signature-matching
/// trapping stub, memoized per signature. Slot `f` of the bitmap says
/// whether function `f` is snipped.
pub fn snip_table_elements(module: &mut Module, to_snip: &Vec<bool>)
    requires
        to_snip@.len() == old(module)@.funcs.len(),
        tables_patchable(old(module)@),
    ensures
        patch_rel(old(module)@, marked_set(to_snip@), final(module)@),
{
    let ghost m0 = module@;
    let ghost snip = marked_set(to_snip@);
    let mut stub_for: Vec<Option<Id>> = Vec::new();
    let ntypes = module.types.len();
    let mut t: usize = 0;
    while t < ntypes
        invariant
            t <= ntypes,
            stub_for@.len() == t,
            module@ == m0,
            ntypes == m0.types.len(),
            forall|x: int| 0 <= x < t ==> #[trigger] stub_for@[x] is None,
        decreases ntypes - t,
    {
        stub_for.push(None);
        t = t + 1;
    }
    let mut stubof: Ghost<Map<int, int>> = Ghost(Map::empty());
    proof {
        assert(stubs_extend(m0, module@, snip, stubof@));
        assert(memo_ok(stub_for@, stubof@, m0));
    }
    let nt = module.tables.len();
    let mut ti: usize = 0;
    while ti < nt
        invariant
            nt == m0.tables.len(),
            ti <= nt,
            to_snip@.len() == m0.funcs.len(),
            snip == marked_set(to_snip@),
            tables_patchable(m0),
            stubs_extend(m0, module@, snip, stubof@),
            memo_ok(stub_for@, stubof@, m0),
            module.tables@.len() == m0.tables.len(),
            forall|x: int|
                0 <= x < ti ==> table_patched(
                    m0,
                    snip,
                    stubof@,
                    m0.tables[x],
                    #[trigger] module@.tables[x],
                ),
            forall|x: int| ti <= x < nt ==> #[trigger] module@.tables[x] == m0.tables[x],
        decreases nt - ti,
    {
        let ghost st_outer = stubof@;
        let ghost mv_before = module@;
        let ghost mtab_before = module@.tables;
        let ghost traw_before = module.tables@;
        let mut entry: Option<Table> = None;
        module.tables.set_and_swap(ti, &mut entry);
        let ghost entry0 = entry;
        proof {
            lemma_stubs_extend_same_funcs(m0, mv_before, module@, snip, stubof@);
            assert forall|x: int| 0 <= x < nt && x != ti implies #[trigger] module@.tables[x]
                == mtab_before[x] by {}
            assert(entry0 == traw_before[ti as int]);
            assert(m0.tables[ti as int] == mtab_before[ti as int]);
            assert(mtab_before[ti as int] == (match traw_before[ti as int] {
                Some(x) => Some(x@),
                None => None::<TableV>,
            }));
        }
        match entry {
            Some(Table::Function { mut elements, mut segments }) => {
                proof {
                    assert(entry0 matches Some(tb) && tb@ == (TableV::Function {
                        elements: slots_view(elements@),
                        segments: opts_elems_view(segments@),
                    }));
                    assert(m0.tables[ti as int] == Some(
                        TableV::Function {
                            elements: slots_view(elements@),
                            segments: opts_elems_view(segments@),
                        },
                    ));
                }
                let ghost e0raw = elements@;
                let ghost s0raw = segments@;
                let ghost tbl_hole = module@.tables;
                let std = patch_dense_list(module, &mut stub_for, &mut elements, to_snip,
                    Ghost(m0), Ghost(snip), stubof, Ghost(ti as int));
                proof {
                    vstd::map_lib::lemma_submap_of_trans(st_outer, stubof@, std@);
                }
                let ghost st_mid = std@;
                let sts = patch_segments(module, &mut stub_for, &mut segments, to_snip, Ghost(m0),
                    Ghost(snip), std, Ghost(ti as int));
                proof {
                    vstd::map_lib::lemma_submap_of_trans(st_outer, st_mid, sts@);
                }
                stubof = sts;
                let ghost mv_mid = module@;
                let ghost tbl_hole2 = module@.tables;
                proof {
                    assert(module@.tables.len() == nt);
                    assert(module.tables@.len() == nt);
                }
                module.tables.set(ti, Some(Table::Function { elements, segments }));
                proof {
                    lemma_stubs_extend_same_funcs(m0, mv_mid, module@, snip, stubof@);
                    assert forall|x: int| 0 <= x < nt && x != ti implies #[trigger] module@.tables[x]
                        == tbl_hole2[x] by {}
                    assert(module@.tables[ti as int] == Some(
                        TableV::Function {
                            elements: slots_view(elements@),
                            segments: opts_elems_view(segments@),
                        },
                    ));
                    assert forall|j: int| 0 <= j < slots_view(e0raw).len() implies dense_slot_rel(
                        m0,
                        snip,
                        stubof@,
                        slots_view(e0raw)[j],
                        #[trigger] slots_view(elements@)[j],
                    ) by {
                        lemma_dense_slot_rel_mono(m0, snip, st_mid, stubof@, slots_view(e0raw)[j],
                            slots_view(elements@)[j]);
                    }
                    assert forall|sj: int, k: int|
                        0 <= sj < opts_elems_view(s0raw).len() && 0 <= k < opts_elems_view(s0raw)[
                        sj].funcs.len() implies seg_slot_rel(
                        m0,
                        snip,
                        stubof@,
                        opts_elems_view(s0raw)[sj].funcs[k],
                        #[trigger] opts_elems_view(segments@)[sj].funcs[k],
                    ) by {
                        assert(seg_patched(m0, snip, stubof@, s0raw[sj]@, segments@[sj]@));
                        assert(opts_elems_view(segments@)[sj] == segments@[sj]@);
                        assert(opts_elems_view(s0raw)[sj] == s0raw[sj]@);
                    }
                    assert(table_patched(m0, snip, stubof@, m0.tables[ti as int],
                        module@.tables[ti as int]));
                }
            },
            Some(Table::Other) => {
                let ghost mv_mid = module@;
                let ghost tbl_hole2 = module@.tables;
                proof {
                    assert(module@.tables.len() == nt);
                    assert(module.tables@.len() == nt);
                }
                module.tables.set(ti, Some(Table::Other));
                proof {
                    lemma_stubs_extend_same_funcs(m0, mv_mid, module@, snip, stubof@);
                    assert forall|x: int| 0 <= x < nt && x != ti implies #[trigger] module@.tables[x]
                        == tbl_hole2[x] by {}
                    assert(module@.tables[ti as int] == Some(TableV::Other));
                    assert(m0.tables[ti as int] == Some(TableV::Other));
                }
            },
            None => {
                proof {
                    assert(module@.tables[ti as int] is None);
                    assert(m0.tables[ti as int] is None);
                }
            },
        }
        proof {
            assert forall|x: int| 0 <= x < ti + 1 implies table_patched(
                m0,
                snip,
                stubof@,
                m0.tables[x],
                #[trigger] module@.tables[x],
            ) by {
                if x < ti {
                    lemma_table_patched_mono(m0, snip, st_outer, stubof@, m0.tables[x],
                        module@.tables[x]);
                }
            }
        }
        ti = ti + 1;
    }
    proof {
        assert(stubs_extend(m0, module@, snip, stubof@));
        assert(patch_rel(m0, snip, module@));
    }
}

/// Two module views with the same tables, types, and function skeleton
/// (liveness and signature per handle).
pub open spec fn same_func_skeleton(ma: ModuleV, mb: ModuleV) -> bool {
    &&& mb.tables == ma.tables
    &&& mb.types == ma.types
    &&& mb.funcs.len() == ma.funcs.len()
    &&& forall|f: int|
        0 <= f < ma.funcs.len() ==> ((#[trigger] mb.funcs[f] is Some) == (ma.funcs[f] is Some) && (
        ma.funcs[f] is Some ==> mb.funcs[f]->Some_0.ty == ma.funcs[f]->Some_0.ty))
}

/// Patchability only reads the tables, the function skeleton and the
/// types, so it carries over to any module with the same skeleton.
pub proof fn lemma_patchable_transfer(ma: ModuleV, mb: ModuleV)
    requires
        tables_patchable(ma),
        same_func_skeleton(ma, mb),
    ensures
        tables_patchable(mb),
{
    assert forall|ti: int, j: int| snipped_dense_slot_ok(mb, ti, j) implies func_exists(
        mb,
        #[trigger] mb.tables[ti]->Some_0->Function_elements[j]->Some_0,
    ) && type_exists(mb, dense_slot_ty(mb, ti, j)) by {
        assert(snipped_dense_slot_ok(ma, ti, j));
        let f = ma.tables[ti]->Some_0->Function_elements[j]->Some_0;
        assert(func_exists(ma, f) && type_exists(ma, dense_slot_ty(ma, ti, j)));
    }
    assert forall|ti: int, sj: int, k: int| snipped_seg_slot_ok(mb, ti, sj, k) implies func_exists(
        mb,
        #[trigger] mb.tables[ti]->Some_0->Function_segments[sj].funcs[k],
    ) && type_exists(mb, seg_slot_ty(mb, ti, sj, k)) by {
        assert(snipped_seg_slot_ok(ma, ti, sj, k));
        let f = ma.tables[ti]->Some_0->Function_segments[sj].funcs[k];
        assert(func_exists(ma, f) && type_exists(ma, seg_slot_ty(ma, ti, sj, k)));
    }
}

/// Checks [`tables_patchable`]: every function-table slot references a
/// live function of a live signature. Hosts run this before the pass.
pub fn check_patchable(module: &Module) -> (b: bool)
    ensures
        b == tables_patchable(module@),
{
    let ghost m = module@;
    let nt = module.tables.len();
    let mut ti: usize = 0;
    while ti < nt
        invariant
            m == module@,
            nt == m.tables.len(),
            ti <= nt,
            forall|t2: int, j2: int|
                0 <= t2 < ti && snipped_dense_slot_ok(m, t2, j2) ==> func_exists(
                    m,
                    #[trigger] m.tables[t2]->Some_0->Function_elements[j2]->Some_0,
                ) && type_exists(m, dense_slot_ty(m, t2, j2)),
            forall|t2: int, s2: int, k2: int|
                0 <= t2 < ti && snipped_seg_slot_ok(m, t2, s2, k2) ==> func_exists(
                    m,
                    #[trigger] m.tables[t2]->Some_0->Function_segments[s2].funcs[k2],
                ) && type_exists(m, seg_slot_ty(m, t2, s2, k2)),
        decreases nt - ti,
    {
        match &module.tables[ti] {
            Some(Table::Function { elements, segments }) => {
                proof {
                    assert(m.tables[ti as int] == Some(
                        TableV::Function {
                            elements: slots_view(elements@),
                            segments: opts_elems_view(segments@),
                        },
                    ));
                }
                let nel = elements.len();
                let mut j: usize = 0;
                while j < nel
                    invariant
                        m == module@,
                        0 <= ti < m.tables.len(),
                        m.tables[ti as int] == Some(
                            TableV::Function {
                                elements: slots_view(elements@),
                                segments: opts_elems_view(segments@),
                            },
                        ),
                        nel == elements@.len(),
                        j <= nel,
                        forall|j2: int|
                            0 <= j2 < j && snipped_dense_slot_ok(m, ti as int, j2) ==> func_exists(
                                m,
                                #[trigger] m.tables[ti as int]->Some_0->Function_elements[j2]->Some_0,
                            ) && type_exists(m, dense_slot_ty(m, ti as int, j2)),
                    decreases nel - j,
                {
                    match elements[j] {
                        Some(f) => {
                            if !slot_target_ok(module, f) {
                                proof {
                                    assert(snipped_dense_slot_ok(m, ti as int, j as int));
                                    assert(!tables_patchable(m)) by {
                                        if tables_patchable(m) {
                                            assert(func_exists(m, f as int) && type_exists(
                                                m,
                                                dense_slot_ty(m, ti as int, j as int),
                                            ));
                                        }
                                    }
                                }
                                return false;
                            }
                        },
                        None => {},
                    }
                    j = j + 1;
                }
                let ns = segments.len();
                let mut sj: usize = 0;
                while sj < ns
                    invariant
                        m == module@,
                        0 <= ti < m.tables.len(),
                        m.tables[ti as int] == Some(
                            TableV::Function {
                                elements: slots_view(elements@),
                                segments: opts_elems_view(segments@),
                            },
                        ),
                        ns == segments@.len(),
                        sj <= ns,
                        forall|s2: int, k2: int|
                            0 <= s2 < sj && snipped_seg_slot_ok(m, ti as int, s2, k2)
                                ==> func_exists(
                                m,
                                #[trigger] m.tables[ti as int]->Some_0->Function_segments[s2].funcs[k2],
                            ) && type_exists(m, seg_slot_ty(m, ti as int, s2, k2)),
                    decreases ns - sj,
                {
                    let seg = &segments[sj];
                    let nk = seg.funcs.len();
                    let mut k: usize = 0;
                    while k < nk
                        invariant
                            m == module@,
                            0 <= ti < m.tables.len(),
                            m.tables[ti as int] == Some(
                                TableV::Function {
                                    elements: slots_view(elements@),
                                    segments: opts_elems_view(segments@),
                                },
                            ),
                            0 <= sj < segments@.len(),
                            seg == &segments[sj as int],
                            nk == seg.funcs@.len(),
                            k <= nk,
                            forall|k2: int|
                                0 <= k2 < k && snipped_seg_slot_ok(m, ti as int, sj as int, k2)
                                    ==> func_exists(
                                    m,
                                    #[trigger] m.tables[ti as int]->Some_0->Function_segments[sj as int].funcs[k2],
                                ) && type_exists(m, seg_slot_ty(m, ti as int, sj as int, k2)),
                        decreases nk - k,
                    {
                        let f = seg.funcs[k];
                        proof {
                            assert(opts_elems_view(segments@)[sj as int] == segments@[sj as int]@);
                        }
                        if !slot_target_ok(module, f) {
                            proof {
                                assert(m.tables[ti as int]->Some_0->Function_segments[sj as int].funcs[
                                    k as int] == f as int);
                                assert(snipped_seg_slot_ok(m, ti as int, sj as int, k as int));
                                assert(!tables_patchable(m)) by {
                                    if tables_patchable(m) {
                                        assert(func_exists(m, f as int) && type_exists(
                                            m,
                                            seg_slot_ty(m, ti as int, sj as int, k as int),
                                        ));
                                    }
                                }
                            }
                            return false;
                        }
                        k = k + 1;
                    }
                    sj = sj + 1;
                }
            },
            Some(Table::Other) => {},
            None => {},
        }
        ti = ti + 1;
    }
    true
}

/// The slot's function exists and its signature handle is live.
fn slot_target_ok(module: &Module, f: Id) -> (b: bool)
    ensures
        b == (func_exists(module@, f as int) && type_exists(module@, slot_ty(module@, f as int))),
{
    if f < module.funcs.len() {
        match &module.funcs[f] {
            Some(fun) => {
                let ty = fun.ty;
                proof {
                    assert(module@.funcs[f as int] == Some(fun@));
                }
                if ty < module.types.len() {
                    match &module.types[ty] {
                        Some(_) => true,
                        None => false,
                    }
                } else {
                    false
                }
            },
            None => false,
        }
    } else {
        false
    }
}

} // verus!
