//! Properties of the pass, stated and proved once over the specifications
//! that the executable functions are verified against.

use vstd::prelude::*;

use crate::gc::{closed, export_is_func, export_is_global, func_body_refs, live, root_funcs,
    spec_gc, type_used, global_used, lemma_live_valid, lemma_live_closed, dense_slot_holds};
use crate::ir::{func_exists, global_exists, type_exists, ExportItemV, ImportKindV, InstrV,
    ModuleV, TableV};
use crate::matcher::string_views;
use crate::prune::{spec_delete_exports, spec_delete_funcs, spec_unexport, spec_unimport};
use crate::rewrite::{lemma_rw_body_index, lemma_rw_body_len, rw_body, rw_instr,
    spec_rewrite_module};
use crate::select::{snip_pattern_texts, spec_exports_to_delete, spec_to_snip};
use crate::tables::{is_stub, patch_rel, slot_ty, stubs_extend, table_patched, tables_patchable,
    dense_slot_rel};
use crate::{spec_snip_result, Options};

verus! {

/// Deleting a call never deletes the observable side effects of its
/// arguments: a call to a snipped function is rewritten into a block that
/// still evaluates each (rewritten) argument, in its original left-to-right
/// order, and then traps.
pub proof fn lemma_side_effect_preservation(func: int, args: Seq<InstrV>, snip: Set<int>)
    requires
        snip.contains(func),
    ensures
        rw_instr(InstrV::Call { func, args }, snip) matches InstrV::Block { body } && {
            &&& body.len() == args.len() + 1
            &&& forall|j: int| 0 <= j < args.len() ==> body[j] == rw_instr(#[trigger] args[j], snip)
            &&& body[args.len() as int] == InstrV::Trap
        },
{
    lemma_rw_body_len(args, snip);
    assert forall|j: int| 0 <= j < args.len() implies (rw_body(args, snip) + seq![InstrV::Trap])[j]
        == rw_instr(#[trigger] args[j], snip) by {
        lemma_rw_body_index(args, snip, j);
    }
}

/// Cascading collection: if `b` is not a root, only `a` ever calls `b`,
/// and `a` is gone (it was snipped and deleted), then the collector
/// removes `b` as well.
pub proof fn lemma_cascading_collection(m: ModuleV, a: int, b: int)
    requires
        0 <= b < m.funcs.len(),
        !root_funcs(m).contains(b),
        forall|f: int|
            func_exists(m, f) && #[trigger] func_body_refs(m, f).calls.contains(b) ==> f == a,
        !func_exists(m, a),
    ensures
        spec_gc(m).funcs[b] is None,
{
    let s = Set::new(|x: int| x != b);
    assert forall|f: int| root_funcs(m).contains(f) && func_exists(m, f) implies s.contains(f) by {}
    assert forall|f: int, c: int|
        s.contains(f) && func_exists(m, f) && #[trigger] func_body_refs(m, f).calls.contains(c)
            && func_exists(m, c) implies s.contains(c) by {
        if c == b {
            assert(f == a);
        }
    }
    assert(closed(m, s));
    if live(m).contains(b) {
        assert(s.contains(b));
    }
}

/// After the pass, no surviving import references a function handle that
/// no longer exists: an import survives collection only if its function is
/// live, and live functions are kept.
pub proof fn lemma_import_consistency(md: ModuleV)
    ensures
        forall|i: int|
            0 <= i < spec_gc(md).imports.len() ==> (#[trigger] spec_gc(md).imports[i] matches Some(
                im,
            ) ==> (im.kind matches ImportKindV::Function(f) ==> func_exists(spec_gc(md), f))),
{
    let mg = spec_gc(md);
    lemma_live_valid(md);
    assert forall|i: int| 0 <= i < mg.imports.len() implies (#[trigger] mg.imports[i] matches Some(
        im,
    ) ==> (im.kind matches ImportKindV::Function(f) ==> func_exists(mg, f))) by {
        match mg.imports[i] {
            Some(im) => match im.kind {
                ImportKindV::Function(f) => {
                    assert(live(md).contains(f));
                    assert(func_exists(md, f));
                    assert(mg.funcs[f] == md.funcs[f]);
                },
                ImportKindV::Other => {},
            },
            None => {},
        }
    }
}

/// After collection, no surviving export references a handle that no
/// longer exists: exported functions are roots, and exported globals are
/// kept for being exported, provided each export was valid beforehand.
pub proof fn lemma_export_consistency(md: ModuleV)
    requires
        forall|e: int|
            0 <= e < md.exports.len() ==> (#[trigger] md.exports[e] matches Some(ex)
                ==> match ex.item {
                ExportItemV::Function(f) => func_exists(md, f),
                ExportItemV::Global(g) => global_exists(md, g),
                ExportItemV::Other => true,
            }),
    ensures
        forall|e: int|
            0 <= e < spec_gc(md).exports.len() ==> (#[trigger] spec_gc(md).exports[e] matches Some(
                ex,
            ) ==> match ex.item {
                ExportItemV::Function(f) => func_exists(spec_gc(md), f),
                ExportItemV::Global(g) => global_exists(spec_gc(md), g),
                ExportItemV::Other => true,
            }),
{
    let mg = spec_gc(md);
    lemma_live_closed(md);
    assert forall|e: int| 0 <= e < mg.exports.len() implies (#[trigger] mg.exports[e] matches Some(
        ex,
    ) ==> match ex.item {
        ExportItemV::Function(f) => func_exists(mg, f),
        ExportItemV::Global(g) => global_exists(mg, g),
        ExportItemV::Other => true,
    }) by {
        match mg.exports[e] {
            Some(ex) => match ex.item {
                ExportItemV::Function(f) => {
                    assert(md.exports[e] == mg.exports[e]);
                    assert(export_is_func(md, e, f));
                    assert(root_funcs(md).contains(f));
                    assert(func_exists(md, f));
                    assert(live(md).contains(f));
                    assert(mg.funcs[f] == md.funcs[f]);
                },
                ExportItemV::Global(g) => {
                    assert(md.exports[e] == mg.exports[e]);
                    assert(export_is_global(md, e, g));
                    assert(global_used(md, g));
                    assert(global_exists(md, g));
                    assert(mg.globals[g] == md.globals[g]);
                },
                ExportItemV::Other => {},
            },
            None => {},
        }
    }
}

/// The intermediate modules of the pass, fixed by the input and options.
pub open spec fn spec_phase4(m0: ModuleV, options: Options) -> ModuleV {
    let dead = spec_exports_to_delete(
        m0,
        string_views(options.kept_exports@),
        string_views(options.kept_export_patterns@),
    );
    let snipset = spec_to_snip(m0, string_views(options.functions@), snip_pattern_texts(options));
    spec_unimport(
        spec_unexport(spec_rewrite_module(spec_delete_exports(m0, dead), snipset), snipset),
        snipset,
    )
}

/// The selection set never holds a handle outside the function arena.
pub proof fn lemma_snip_set_in_range(m0: ModuleV, names: Seq<Seq<char>>, pats: Seq<Seq<char>>)
    ensures
        forall|f: int|
            #[trigger] spec_to_snip(m0, names, pats).contains(f) ==> 0 <= f < m0.funcs.len(),
{
}

/// The early phases keep every function handle alive with its signature.
pub proof fn lemma_phases_keep_skeleton(m0: ModuleV, options: Options)
    ensures
        crate::tables::same_func_skeleton(m0, spec_phase4(m0, options)),
{
}

/// Signature safety for dense slots: after the pass, the function a table
/// slot holds exists and has exactly the signature of the function the
/// slot held before the pass.
pub proof fn lemma_signature_safety_dense(
    m0: ModuleV,
    options: Options,
    result: ModuleV,
    ti: int,
    j: int,
)
    requires
        tables_patchable(m0),
        spec_snip_result(m0, options, result),
        0 <= ti < m0.tables.len(),
        m0.tables[ti] matches Some(TableV::Function { elements, .. }) && 0 <= j < elements.len()
            && elements[j] is Some,
    ensures
        result.tables[ti] matches Some(TableV::Function { elements: e1, .. }) && 0 <= j < e1.len()
            && (e1[j] matches Some(f1) && func_exists(result, f1) && result.funcs[f1]->Some_0.ty
            == slot_ty(m0, m0.tables[ti]->Some_0->Function_elements[j]->Some_0)),
{
    let f0 = m0.tables[ti]->Some_0->Function_elements[j]->Some_0;
    let snipset = spec_to_snip(m0, string_views(options.functions@), snip_pattern_texts(options));
    let m4 = spec_phase4(m0, options);
    lemma_phases_keep_skeleton(m0, options);
    crate::tables::lemma_patchable_transfer(m0, m4);
    lemma_snip_set_in_range(m0, string_views(options.functions@), snip_pattern_texts(options));
    let mid = choose|mid: ModuleV|
        #[trigger] patch_rel(m4, snipset, mid) && result == spec_gc(
            spec_delete_funcs(mid, snipset),
        );
    let stubof = choose|stubof: Map<int, int>|
        #[trigger] stubs_extend(m4, mid, snipset, stubof) && mid.tables.len() == m4.tables.len()
            && forall|t2: int|
            0 <= t2 < m4.tables.len() ==> table_patched(
                m4,
                snipset,
                stubof,
                m4.tables[t2],
                #[trigger] mid.tables[t2],
            );
    assert(m4.tables == m0.tables);
    assert(table_patched(m4, snipset, stubof, m4.tables[ti], mid.tables[ti]));
    assert(crate::tables::snipped_dense_slot_ok(m0, ti, j));
    assert(crate::ir::func_exists(m0, f0) && type_exists(m0, slot_ty(m0, f0)));
    assert(func_exists(m4, f0) && m4.funcs[f0]->Some_0.ty == slot_ty(m0, f0));
    let e0 = m4.tables[ti]->Some_0->Function_elements;
    let e1 = mid.tables[ti]->Some_0->Function_elements;
    assert(dense_slot_rel(m4, snipset, stubof, e0[j], e1[j]));
    let f1 = e1[j]->Some_0;
    assert(func_exists(mid, f1) && mid.funcs[f1]->Some_0.ty == slot_ty(m0, f0) && !snipset.contains(
        f1,
    )) by {
        if snipset.contains(f0) {
            assert(stubof.dom().contains(slot_ty(m4, f0)));
            assert(is_stub(m4, mid, stubof[slot_ty(m4, f0)], slot_ty(m4, f0)));
            assert(f1 >= m4.funcs.len());
            assert(m4.funcs.len() >= m0.funcs.len());
        } else {
            assert(f1 == f0);
            assert(mid.funcs[f0] == m4.funcs[f0]);
        }
    }
    let md = spec_delete_funcs(mid, snipset);
    assert(md.funcs[f1] == mid.funcs[f1]);
    assert(md.tables == mid.tables);
    assert(dense_slot_holds(md, ti, j, f1));
    assert(root_funcs(md).contains(f1));
    lemma_live_closed(md);
    assert(live(md).contains(f1));
    assert(result.funcs[f1] == md.funcs[f1]);
    assert(result.tables == md.tables);
}

/// Export and import consistency over the whole pass: when every export of
/// the input references an existing item, no export or import of the
/// output references a handle that no longer exists.
pub proof fn lemma_export_import_consistency(m0: ModuleV, options: Options, result: ModuleV)
    requires
        spec_snip_result(m0, options, result),
        forall|e: int|
            0 <= e < m0.exports.len() ==> (#[trigger] m0.exports[e] matches Some(ex)
                ==> match ex.item {
                ExportItemV::Function(f) => func_exists(m0, f),
                ExportItemV::Global(g) => global_exists(m0, g),
                ExportItemV::Other => true,
            }),
    ensures
        forall|e: int|
            0 <= e < result.exports.len() ==> (#[trigger] result.exports[e] matches Some(ex)
                ==> match ex.item {
                ExportItemV::Function(f) => func_exists(result, f),
                ExportItemV::Global(g) => global_exists(result, g),
                ExportItemV::Other => true,
            }),
        forall|i: int|
            0 <= i < result.imports.len() ==> (#[trigger] result.imports[i] matches Some(im) ==> (
            im.kind matches ImportKindV::Function(f) ==> func_exists(result, f))),
{
    let snipset = spec_to_snip(m0, string_views(options.functions@), snip_pattern_texts(options));
    let m4 = spec_phase4(m0, options);
    lemma_phases_keep_skeleton(m0, options);
    lemma_snip_set_in_range(m0, string_views(options.functions@), snip_pattern_texts(options));
    let mid = choose|mid: ModuleV|
        #[trigger] patch_rel(m4, snipset, mid) && result == spec_gc(
            spec_delete_funcs(mid, snipset),
        );
    let stubof = choose|stubof: Map<int, int>|
        #[trigger] stubs_extend(m4, mid, snipset, stubof) && mid.tables.len() == m4.tables.len()
            && forall|t2: int|
            0 <= t2 < m4.tables.len() ==> table_patched(
                m4,
                snipset,
                stubof,
                m4.tables[t2],
                #[trigger] mid.tables[t2],
            );
    let md = spec_delete_funcs(mid, snipset);
    assert forall|e: int| 0 <= e < md.exports.len() implies (#[trigger] md.exports[e] matches Some(
        ex,
    ) ==> match ex.item {
        ExportItemV::Function(f) => func_exists(md, f),
        ExportItemV::Global(g) => global_exists(md, g),
        ExportItemV::Other => true,
    }) by {
        match md.exports[e] {
            Some(ex) => match ex.item {
                ExportItemV::Function(f) => {
                    assert(md.exports[e] == mid.exports[e]);
                    assert(mid.exports[e] == m4.exports[e]);
                    assert(m0.exports[e] is Some);
                    assert(func_exists(m0, f));
                    assert(!snipset.contains(f));
                    assert(func_exists(m4, f));
                    assert(mid.funcs[f] == m4.funcs[f]);
                    assert(md.funcs[f] == mid.funcs[f]);
                },
                ExportItemV::Global(g) => {
                    assert(md.exports[e] == m4.exports[e]);
                    assert(m0.exports[e] is Some);
                    assert(global_exists(m0, g));
                    assert(md.globals == m0.globals);
                },
                ExportItemV::Other => {},
            },
            None => {},
        }
    }
    lemma_export_consistency(md);
    lemma_import_consistency(md);
}

/// The roots of a collected module are the roots of the module: the
/// collector touches no export, table or start function.
pub proof fn lemma_gc_same_roots(md: ModuleV)
    ensures
        root_funcs(spec_gc(md)) =~= root_funcs(md),
        forall|e: int, f: int|
            #[trigger] export_is_func(spec_gc(md), e, f) == export_is_func(md, e, f),
{
    let mg = spec_gc(md);
    assert(mg.exports == md.exports);
    assert(mg.tables == md.tables);
    assert(mg.start == md.start);
    assert forall|e: int, f: int| #[trigger] export_is_func(mg, e, f) == export_is_func(
        md,
        e,
        f,
    ) by {}
    assert forall|f: int| root_funcs(mg).contains(f) == root_funcs(md).contains(f) by {
        if root_funcs(md).contains(f) {
            if exists|e: int| #[trigger] export_is_func(md, e, f) {
                let e = choose|e: int| #[trigger] export_is_func(md, e, f);
                assert(export_is_func(mg, e, f));
            } else if exists|t2: int, j2: int| #[trigger] dense_slot_holds(md, t2, j2, f) {
                let (t2, j2): (int, int) = choose|t2: int, j2: int| #[trigger]
                    dense_slot_holds(md, t2, j2, f);
                assert(dense_slot_holds(mg, t2, j2, f));
            } else if exists|t2: int, s2: int, k2: int| #[trigger]
                crate::gc::seg_slot_holds(md, t2, s2, k2, f) {
                let (t2, s2, k2): (int, int, int) = choose|t2: int, s2: int, k2: int| #[trigger]
                    crate::gc::seg_slot_holds(md, t2, s2, k2, f);
                assert(crate::gc::seg_slot_holds(mg, t2, s2, k2, f));
            } else {
                assert(md.start == Some(f));
            }
            assert(root_funcs(mg).contains(f));
        }
        if root_funcs(mg).contains(f) {
            if exists|e: int| #[trigger] export_is_func(mg, e, f) {
                let e = choose|e: int| #[trigger] export_is_func(mg, e, f);
                assert(export_is_func(md, e, f));
            } else if exists|t2: int, j2: int| #[trigger] dense_slot_holds(mg, t2, j2, f) {
                let (t2, j2): (int, int) = choose|t2: int, j2: int| #[trigger]
                    dense_slot_holds(mg, t2, j2, f);
                assert(dense_slot_holds(md, t2, j2, f));
            } else if exists|t2: int, s2: int, k2: int| #[trigger]
                crate::gc::seg_slot_holds(mg, t2, s2, k2, f) {
                let (t2, s2, k2): (int, int, int) = choose|t2: int, s2: int, k2: int| #[trigger]
                    crate::gc::seg_slot_holds(mg, t2, s2, k2, f);
                assert(crate::gc::seg_slot_holds(md, t2, s2, k2, f));
            } else {
                assert(mg.start == Some(f));
            }
            assert(root_funcs(md).contains(f));
        }
    }
}

/// Collecting is idempotent: everything a collected module still holds is
/// reachable in it, so collecting again changes nothing.
pub proof fn lemma_gc_idempotent(md: ModuleV)
    ensures
        live(spec_gc(md)) =~= live(md),
        spec_gc(spec_gc(md)) == spec_gc(md),
{
    let mg = spec_gc(md);
    lemma_live_valid(md);
    lemma_live_closed(md);
    lemma_live_valid(mg);
    lemma_gc_same_roots(md);
    assert forall|f: int| #[trigger] func_exists(mg, f) == live(md).contains(f) by {
        if live(md).contains(f) {
            assert(func_exists(md, f));
            assert(mg.funcs[f] == md.funcs[f]);
        }
    }
    assert forall|f: int|
        live(md).contains(f) implies #[trigger] func_body_refs(mg, f) == func_body_refs(md, f) by {
        assert(func_exists(md, f));
        assert(0 <= f < md.funcs.len());
        assert(mg.funcs[f] == md.funcs[f]);
    }
    assert forall|f: int| live(mg).contains(f) == live(md).contains(f) by {
        if live(md).contains(f) {
            assert forall|s: Set<int>| closed(mg, s) implies s.contains(f) by {
                let u = live(md).intersect(s);
                assert forall|f2: int|
                    root_funcs(md).contains(f2) && func_exists(md, f2) implies u.contains(f2) by {
                    assert(live(md).contains(f2));
                    assert(func_exists(mg, f2));
                    assert(root_funcs(mg).contains(f2));
                    assert(s.contains(f2));
                }
                assert forall|f2: int, c: int|
                    u.contains(f2) && func_exists(md, f2) && #[trigger] func_body_refs(
                        md,
                        f2,
                    ).calls.contains(c) && func_exists(md, c) implies u.contains(c) by {
                    assert(live(md).contains(c));
                    assert(func_exists(mg, f2));
                    assert(func_body_refs(mg, f2).calls.contains(c));
                    assert(func_exists(mg, c));
                    assert(s.contains(c));
                }
                assert(closed(md, u));
                assert(u.contains(f));
            }
            assert(live(mg).contains(f));
        }
        if live(mg).contains(f) {
            assert(func_exists(mg, f));
        }
    }
    assert(live(mg) =~= live(md));
    let mgg = spec_gc(mg);
    assert(mgg.funcs =~= mg.funcs);
    assert forall|i: int| 0 <= i < mg.imports.len() implies #[trigger] mgg.imports[i]
        == mg.imports[i] by {
        match md.imports[i] {
            Some(im) => {},
            None => {},
        }
    }
    assert(mgg.imports =~= mg.imports);
    assert forall|t: int| 0 <= t < mg.types.len() implies #[trigger] mgg.types[t]
        == mg.types[t] by {
        if type_used(md, t) {
            let f2 = choose|f2: int|
                #[trigger] live(md).contains(f2) && func_exists(md, f2) && (md.funcs[f2]->Some_0.ty
                    == t || func_body_refs(md, f2).tys.contains(t));
            assert(mg.funcs[f2] == md.funcs[f2]);
            assert(live(mg).contains(f2) && func_exists(mg, f2) && (mg.funcs[f2]->Some_0.ty == t
                || func_body_refs(mg, f2).tys.contains(t)));
            assert(type_used(mg, t));
        }
        if type_used(mg, t) {
            let f2 = choose|f2: int|
                #[trigger] live(mg).contains(f2) && func_exists(mg, f2) && (mg.funcs[f2]->Some_0.ty
                    == t || func_body_refs(mg, f2).tys.contains(t));
            assert(mg.funcs[f2] == md.funcs[f2]);
            assert(type_used(md, t));
        }
    }
    assert(mgg.types =~= mg.types);
    assert forall|l: int| 0 <= l < mg.locals.len() implies #[trigger] mgg.locals[l]
        == mg.locals[l] by {
        if crate::gc::local_used(md, l) {
            let f2 = choose|f2: int|
                #[trigger] live(md).contains(f2) && func_exists(md, f2) && (
                crate::gc::func_declared_locals(md, f2).contains(l) || func_body_refs(
                    md,
                    f2,
                ).locals.contains(l));
            assert(mg.funcs[f2] == md.funcs[f2]);
            assert(crate::gc::func_declared_locals(mg, f2) == crate::gc::func_declared_locals(
                md,
                f2,
            ));
            assert(crate::gc::local_used(mg, l));
        }
        if crate::gc::local_used(mg, l) {
            let f2 = choose|f2: int|
                #[trigger] live(mg).contains(f2) && func_exists(mg, f2) && (
                crate::gc::func_declared_locals(mg, f2).contains(l) || func_body_refs(
                    mg,
                    f2,
                ).locals.contains(l));
            assert(mg.funcs[f2] == md.funcs[f2]);
            assert(crate::gc::func_declared_locals(mg, f2) == crate::gc::func_declared_locals(
                md,
                f2,
            ));
            assert(crate::gc::local_used(md, l));
        }
    }
    assert(mgg.locals =~= mg.locals);
    assert forall|e: int, g: int|
        #[trigger] export_is_global(mg, e, g) == export_is_global(md, e, g) by {}
    assert forall|g: int| 0 <= g < mg.globals.len() implies #[trigger] mgg.globals[g]
        == mg.globals[g] by {
        if global_used(md, g) {
            if exists|f2: int|
                #[trigger] live(md).contains(f2) && func_exists(md, f2) && func_body_refs(
                    md,
                    f2,
                ).globals.contains(g) {
                let f2 = choose|f2: int|
                    #[trigger] live(md).contains(f2) && func_exists(md, f2) && func_body_refs(
                        md,
                        f2,
                    ).globals.contains(g);
                assert(mg.funcs[f2] == md.funcs[f2]);
                assert(global_used(mg, g));
            } else {
                let e = choose|e: int| #[trigger] export_is_global(md, e, g);
                assert(export_is_global(mg, e, g));
                assert(global_used(mg, g));
            }
        }
        if global_used(mg, g) {
            if exists|f2: int|
                #[trigger] live(mg).contains(f2) && func_exists(mg, f2) && func_body_refs(
                    mg,
                    f2,
                ).globals.contains(g) {
                let f2 = choose|f2: int|
                    #[trigger] live(mg).contains(f2) && func_exists(mg, f2) && func_body_refs(
                        mg,
                        f2,
                    ).globals.contains(g);
                assert(mg.funcs[f2] == md.funcs[f2]);
                assert(global_used(md, g));
            } else {
                let e = choose|e: int| #[trigger] export_is_global(mg, e, g);
                assert(export_is_global(md, e, g));
                assert(global_used(md, g));
            }
        }
    }
    assert(mgg.globals =~= mg.globals);
    assert(mgg =~= mg);
}

/// Rewriting with nothing selected changes nothing.
pub proof fn lemma_rw_instr_empty(i: InstrV, snip: Set<int>)
    requires
        forall|x: int| !snip.contains(x),
    ensures
        rw_instr(i, snip) == i,
    decreases i,
{
    match i {
        InstrV::Trap => {},
        InstrV::Const { .. } => {},
        InstrV::LocalGet { .. } => {},
        InstrV::GlobalGet { .. } => {},
        InstrV::LocalSet { local: _, value } => {
            lemma_rw_body_empty(value, snip);
        },
        InstrV::GlobalSet { global: _, value } => {
            lemma_rw_body_empty(value, snip);
        },
        InstrV::Block { body } => {
            lemma_rw_body_empty(body, snip);
        },
        InstrV::Loop { body } => {
            lemma_rw_body_empty(body, snip);
        },
        InstrV::If { cond, then_body, else_body } => {
            lemma_rw_body_empty(cond, snip);
            lemma_rw_body_empty(then_body, snip);
            lemma_rw_body_empty(else_body, snip);
        },
        InstrV::Call { func: _, args } => {
            lemma_rw_body_empty(args, snip);
        },
        InstrV::CallIndirect { table: _, ty: _, index, args } => {
            lemma_rw_body_empty(index, snip);
            lemma_rw_body_empty(args, snip);
        },
    }
}

/// Rewriting a sequence with nothing selected changes nothing.
pub proof fn lemma_rw_body_empty(s: Seq<InstrV>, snip: Set<int>)
    requires
        forall|x: int| !snip.contains(x),
    ensures
        rw_body(s, snip) == s,
    decreases s,
{
    if s.len() != 0 {
        lemma_rw_instr_empty(s[0], snip);
        lemma_rw_body_empty(s.drop_first(), snip);
        assert(rw_body(s, snip) =~= s);
    }
}

/// Re-selection is idempotent: run the pass with a pattern-only target
/// set, and a second run with the same options selects nothing, retains
/// every export, and leaves the module exactly as it is. (An exact-name
/// target set is excluded: its names no longer resolve after the first
/// run, which the second run reports as a hard error instead.)
pub proof fn lemma_reselection_idempotent(m0: ModuleV, options: Options, result: ModuleV)
    requires
        spec_snip_result(m0, options, result),
        options.functions@.len() == 0,
    ensures
        spec_to_snip(result, string_views(options.functions@), snip_pattern_texts(options))
            =~= Set::empty(),
        spec_exports_to_delete(
            result,
            string_views(options.kept_exports@),
            string_views(options.kept_export_patterns@),
        ) =~= Set::empty(),
        spec_snip_result(result, options, result),
{
    let names = string_views(options.functions@);
    let pats = snip_pattern_texts(options);
    let keepn = string_views(options.kept_exports@);
    let keepp = string_views(options.kept_export_patterns@);
    let snipset = spec_to_snip(m0, names, pats);
    let dead = spec_exports_to_delete(m0, keepn, keepp);
    let m1 = spec_delete_exports(m0, dead);
    let m4 = spec_phase4(m0, options);
    lemma_phases_keep_skeleton(m0, options);
    lemma_snip_set_in_range(m0, names, pats);
    let mid = choose|mid: ModuleV|
        #[trigger] patch_rel(m4, snipset, mid) && result == spec_gc(
            spec_delete_funcs(mid, snipset),
        );
    let stubof = choose|stubof: Map<int, int>|
        #[trigger] stubs_extend(m4, mid, snipset, stubof) && mid.tables.len() == m4.tables.len()
            && forall|t2: int|
            0 <= t2 < m4.tables.len() ==> table_patched(
                m4,
                snipset,
                stubof,
                m4.tables[t2],
                #[trigger] mid.tables[t2],
            );
    let md = spec_delete_funcs(mid, snipset);
    crate::gc::lemma_live_valid(md);
    // The second selection finds nothing: every surviving named function
    // kept its name from the input, where it did not match; stubs have no
    // name.
    assert forall|f: int| !(#[trigger] spec_to_snip(result, names, pats).contains(f)) by {
        if crate::select::spec_selected(result, f, names, pats) {
            assert(func_exists(result, f));
            assert(live(md).contains(f));
            assert(func_exists(md, f));
            assert(result.funcs[f] == md.funcs[f]);
            assert(!snipset.contains(f) && mid.funcs[f] is Some);
            let n = result.funcs[f]->Some_0.name->Some_0;
            if f < m4.funcs.len() {
                assert(mid.funcs[f] == m4.funcs[f]);
                assert(m4.funcs[f] == spec_rewrite_module(m1, snipset).funcs[f]);
                assert(m1.funcs[f] == m0.funcs[f]);
                assert(m0.funcs[f]->Some_0.name == Some(n));
                assert(func_exists(m0, f));
                assert(!crate::select::spec_selected(m0, f, names, pats));
                assert(!crate::matcher::pattern_set_matches(pats, n));
            } else {
                assert(crate::tables::stub_id_covered(stubof, f));
                let t = choose|t: int| #[trigger] stubof.dom().contains(t) && stubof[t] == f;
                assert(is_stub(m4, mid, f, t));
                assert(mid.funcs[f]->Some_0.name is None);
            }
        }
    }
    // The second retention filter deletes nothing: every surviving export
    // already passed the first filter unchanged.
    assert forall|e: int|
        !(#[trigger] spec_exports_to_delete(result, keepn, keepp).contains(e)) by {
        if keepn.len() == 0 && keepp.len() == 0 {
        } else {
            if crate::select::spec_export_dead(result, e, keepn, keepp) {
                assert(result.exports[e] is Some);
                assert(result.exports[e] == md.exports[e]);
                assert(md.exports[e] == mid.exports[e]);
                assert(mid.exports[e] == m4.exports[e]);
                assert(m4.exports[e] == spec_unexport(
                    spec_rewrite_module(m1, snipset),
                    snipset,
                ).exports[e]);
                assert(m1.exports[e] is Some);
                assert(m1.exports[e] == m0.exports[e]);
                assert(!dead.contains(e));
                assert(!crate::select::spec_export_dead(m0, e, keepn, keepp));
            }
        }
    }
    // The no-op second run: every phase is the identity.
    let snipset2 = spec_to_snip(result, names, pats);
    let dead2 = spec_exports_to_delete(result, keepn, keepp);
    assert forall|x: int| !snipset2.contains(x) by {}
    let m1p = spec_delete_exports(result, dead2);
    assert(m1p =~= result);
    let m2p = spec_rewrite_module(m1p, snipset2);
    assert forall|f: int| 0 <= f < result.funcs.len() implies #[trigger] m2p.funcs[f]
        == result.funcs[f] by {
        match result.funcs[f] {
            Some(func) => match func.kind {
                crate::ir::FuncKindV::Local { locals, body } => {
                    lemma_rw_body_empty(body, snipset2);
                },
                crate::ir::FuncKindV::Imported => {},
            },
            None => {},
        }
    }
    assert(m2p =~= result);
    let m3p = spec_unexport(m2p, snipset2);
    assert(m3p =~= result);
    let m4p = spec_unimport(m3p, snipset2);
    assert(m4p =~= result);
    assert(spec_phase4(result, options) == result);
    // Patching with an empty selection relates the module to itself.
    let empty_map = Map::<int, int>::empty();
    assert(stubs_extend(result, result, snipset2, empty_map)) by {
        assert(empty_map.dom() =~= Set::<int>::empty());
        assert(empty_map.dom().subset_of(crate::tables::snipped_slot_tys(result, snipset2)));
    }
    assert forall|t2: int| 0 <= t2 < result.tables.len() implies table_patched(
        result,
        snipset2,
        empty_map,
        result.tables[t2],
        #[trigger] result.tables[t2],
    ) by {
        match result.tables[t2] {
            Some(TableV::Function { elements, segments }) => {},
            Some(TableV::Other) => {},
            None => {},
        }
    }
    assert(patch_rel(result, snipset2, result));
    let mdp = spec_delete_funcs(result, snipset2);
    assert(mdp =~= result);
    lemma_gc_idempotent(md);
    assert(result == spec_gc(md));
    assert(spec_gc(result) == result);
    assert(spec_gc(mdp) == result);
    assert(spec_snip_result(result, options, result));
}

/// Signature safety for relative-segment slots, the other slot kind.
pub proof fn lemma_signature_safety_segment(
    m0: ModuleV,
    options: Options,
    result: ModuleV,
    ti: int,
    sj: int,
    k: int,
)
    requires
        tables_patchable(m0),
        spec_snip_result(m0, options, result),
        0 <= ti < m0.tables.len(),
        m0.tables[ti] matches Some(TableV::Function { segments, .. }) && 0 <= sj < segments.len()
            && 0 <= k < segments[sj].funcs.len(),
    ensures
        result.tables[ti] matches Some(TableV::Function { segments: s1, .. }) && 0 <= sj
            < s1.len() && 0 <= k < s1[sj].funcs.len() && func_exists(result, s1[sj].funcs[k])
            && result.funcs[s1[sj].funcs[k]]->Some_0.ty == slot_ty(
            m0,
            m0.tables[ti]->Some_0->Function_segments[sj].funcs[k],
        ),
{
    let f0 = m0.tables[ti]->Some_0->Function_segments[sj].funcs[k];
    let snipset = spec_to_snip(m0, string_views(options.functions@), snip_pattern_texts(options));
    let m4 = spec_phase4(m0, options);
    lemma_phases_keep_skeleton(m0, options);
    crate::tables::lemma_patchable_transfer(m0, m4);
    lemma_snip_set_in_range(m0, string_views(options.functions@), snip_pattern_texts(options));
    let mid = choose|mid: ModuleV|
        #[trigger] patch_rel(m4, snipset, mid) && result == spec_gc(
            spec_delete_funcs(mid, snipset),
        );
    let stubof = choose|stubof: Map<int, int>|
        #[trigger] stubs_extend(m4, mid, snipset, stubof) && mid.tables.len() == m4.tables.len()
            && forall|t2: int|
            0 <= t2 < m4.tables.len() ==> table_patched(
                m4,
                snipset,
                stubof,
                m4.tables[t2],
                #[trigger] mid.tables[t2],
            );
    assert(m4.tables == m0.tables);
    assert(table_patched(m4, snipset, stubof, m4.tables[ti], mid.tables[ti]));
    assert(crate::tables::snipped_seg_slot_ok(m0, ti, sj, k));
    assert(crate::ir::func_exists(m0, f0) && type_exists(m0, slot_ty(m0, f0)));
    assert(func_exists(m4, f0) && m4.funcs[f0]->Some_0.ty == slot_ty(m0, f0));
    let s0 = m4.tables[ti]->Some_0->Function_segments;
    let s1 = mid.tables[ti]->Some_0->Function_segments;
    assert(crate::tables::seg_slot_rel(m4, snipset, stubof, s0[sj].funcs[k], s1[sj].funcs[k]));
    let f1 = s1[sj].funcs[k];
    assert(func_exists(mid, f1) && mid.funcs[f1]->Some_0.ty == slot_ty(m0, f0) && !snipset.contains(
        f1,
    )) by {
        if snipset.contains(f0) {
            assert(stubof.dom().contains(slot_ty(m4, f0)));
            assert(is_stub(m4, mid, stubof[slot_ty(m4, f0)], slot_ty(m4, f0)));
            assert(f1 >= m4.funcs.len());
            assert(m4.funcs.len() >= m0.funcs.len());
        } else {
            assert(f1 == f0);
            assert(mid.funcs[f0] == m4.funcs[f0]);
        }
    }
    let md = spec_delete_funcs(mid, snipset);
    assert(md.funcs[f1] == mid.funcs[f1]);
    assert(md.tables == mid.tables);
    assert(crate::gc::seg_slot_holds(md, ti, sj, k, f1));
    assert(root_funcs(md).contains(f1));
    lemma_live_closed(md);
    assert(live(md).contains(f1));
    assert(result.funcs[f1] == md.funcs[f1]);
    assert(result.tables == md.tables);
}

} // verus!
