//! The interface pruner, and the deletion of the targeted functions.
//!
//! Exports excluded by the retention filter, exports and imports that
//! reference a snipped function, and finally the snipped functions
//! themselves are all deleted here. Each deletion only blanks the entity's
//! arena entry; handles held elsewhere stay stable.

use vstd::prelude::*;

use crate::ir::{marked_set, Export, ExportItem, ExportItemV, Function, Import, ImportKind,
    ImportKindV, Module, ModuleV};

verus! {

/// The module after deleting the exports of the given set.
pub open spec fn spec_delete_exports(m: ModuleV, dead: Set<int>) -> ModuleV {
    ModuleV {
        exports: Seq::new(
            m.exports.len(),
            |e: int|
                if dead.contains(e) {
                    None
                } else {
                    m.exports[e]
                },
        ),
        ..m
    }
}

/// Deletes every export whose slot is marked in the bitmap.
pub fn delete_exports(module: &mut Module, to_delete: &Vec<bool>)
    requires
        to_delete@.len() == old(module)@.exports.len(),
    ensures
        final(module)@ == spec_delete_exports(old(module)@, marked_set(to_delete@)),
{
    let ghost m0 = module@;
    let ghost raw0 = module.exports@;
    let mut e: usize = 0;
    while e < to_delete.len()
        invariant
            to_delete@.len() == raw0.len(),
            e <= raw0.len(),
            module@ == (ModuleV { exports: module@.exports, ..m0 }),
            module.exports@.len() == raw0.len(),
            forall|j: int|
                0 <= j < e ==> module.exports@[j] == (if marked_set(to_delete@).contains(j) {
                    None::<Export>
                } else {
                    raw0[j]
                }),
            forall|j: int| e <= j < raw0.len() ==> module.exports@[j] == raw0[j],
        decreases to_delete@.len() - e,
    {
        if to_delete[e] {
            module.exports.set(e, None);
        }
        e = e + 1;
    }
    assert(module@.exports =~= spec_delete_exports(m0, marked_set(to_delete@)).exports);
    assert(module@ =~= spec_delete_exports(m0, marked_set(to_delete@)));
}

/// The module after deleting every export that references a snipped
/// function.
pub open spec fn spec_unexport(m: ModuleV, snip: Set<int>) -> ModuleV {
    ModuleV {
        exports: Seq::new(
            m.exports.len(),
            |e: int|
                match m.exports[e] {
                    Some(ex) => match ex.item {
                        ExportItemV::Function(f) => if snip.contains(f) {
                            None
                        } else {
                            m.exports[e]
                        },
                        ExportItemV::Global(_) => m.exports[e],
                        ExportItemV::Other => m.exports[e],
                    },
                    None => None,
                },
        ),
        ..m
    }
}

/// Whether this export entry references a snipped function.
pub open spec fn spec_export_snipped(ex: Option<Export>, snip: Set<int>) -> bool {
    match ex {
        Some(ex) => match ex.item {
            ExportItem::Function(f) => snip.contains(f as int),
            ExportItem::Global(_) => false,
            ExportItem::Other => false,
        },
        None => false,
    }
}

/// Deletes every export that references a snipped function. Slot `f` of the
/// bitmap says whether function `f` is snipped.
pub fn unexport_snipped_functions(module: &mut Module, to_snip: &Vec<bool>)
    requires
        to_snip@.len() == old(module)@.funcs.len(),
    ensures
        final(module)@ == spec_unexport(old(module)@, marked_set(to_snip@)),
{
    let ghost m0 = module@;
    let ghost raw0 = module.exports@;
    let mut e: usize = 0;
    let n = module.exports.len();
    while e < n
        invariant
            n == raw0.len(),
            e <= n,
            to_snip@.len() == m0.funcs.len(),
            module@ == (ModuleV { exports: module@.exports, ..m0 }),
            module.exports@.len() == raw0.len(),
            forall|j: int|
                0 <= j < e ==> module.exports@[j] == (if spec_export_snipped(
                    raw0[j],
                    marked_set(to_snip@),
                ) {
                    None::<Export>
                } else {
                    raw0[j]
                }),
            forall|j: int| e <= j < raw0.len() ==> module.exports@[j] == raw0[j],
        decreases n - e,
    {
        let dead: bool = match &module.exports[e] {
            Some(ex) => match ex.item {
                ExportItem::Function(f) => f < to_snip.len() && to_snip[f],
                ExportItem::Global(_) => false,
                ExportItem::Other => false,
            },
            None => false,
        };
        if dead {
            module.exports.set(e, None);
        }
        e = e + 1;
    }
    assert(module@.exports =~= spec_unexport(m0, marked_set(to_snip@)).exports);
    assert(module@ =~= spec_unexport(m0, marked_set(to_snip@)));
}

/// The module after deleting every import that references a snipped
/// function.
pub open spec fn spec_unimport(m: ModuleV, snip: Set<int>) -> ModuleV {
    ModuleV {
        imports: Seq::new(
            m.imports.len(),
            |i: int|
                match m.imports[i] {
                    Some(im) => match im.kind {
                        ImportKindV::Function(f) => if snip.contains(f) {
                            None
                        } else {
                            m.imports[i]
                        },
                        ImportKindV::Other => m.imports[i],
                    },
                    None => None,
                },
        ),
        ..m
    }
}

/// Whether this import entry references a snipped function.
pub open spec fn spec_import_snipped(im: Option<Import>, snip: Set<int>) -> bool {
    match im {
        Some(im) => match im.kind {
            ImportKind::Function(f) => snip.contains(f as int),
            ImportKind::Other => false,
        },
        None => false,
    }
}

/// Deletes every import that references a snipped function. Safe because
/// every call to a snipped function has already been rewritten when this
/// runs, and the function entity itself is deleted last.
pub fn unimport_snipped_functions(module: &mut Module, to_snip: &Vec<bool>)
    requires
        to_snip@.len() == old(module)@.funcs.len(),
    ensures
        final(module)@ == spec_unimport(old(module)@, marked_set(to_snip@)),
{
    let ghost m0 = module@;
    let ghost raw0 = module.imports@;
    let mut i: usize = 0;
    let n = module.imports.len();
    while i < n
        invariant
            n == raw0.len(),
            i <= n,
            to_snip@.len() == m0.funcs.len(),
            module@ == (ModuleV { imports: module@.imports, ..m0 }),
            module.imports@.len() == raw0.len(),
            forall|j: int|
                0 <= j < i ==> module.imports@[j] == (if spec_import_snipped(
                    raw0[j],
                    marked_set(to_snip@),
                ) {
                    None::<Import>
                } else {
                    raw0[j]
                }),
            forall|j: int| i <= j < raw0.len() ==> module.imports@[j] == raw0[j],
        decreases n - i,
    {
        let dead: bool = match &module.imports[i] {
            Some(im) => match im.kind {
                ImportKind::Function(f) => f < to_snip.len() && to_snip[f],
                ImportKind::Other => false,
            },
            None => false,
        };
        if dead {
            module.imports.set(i, None);
        }
        i = i + 1;
    }
    assert(module@.imports =~= spec_unimport(m0, marked_set(to_snip@)).imports);
    assert(module@ =~= spec_unimport(m0, marked_set(to_snip@)));
}

/// The module after deleting the snipped functions themselves.
pub open spec fn spec_delete_funcs(m: ModuleV, snip: Set<int>) -> ModuleV {
    ModuleV {
        funcs: Seq::new(
            m.funcs.len(),
            |f: int|
                if snip.contains(f) {
                    None
                } else {
                    m.funcs[f]
                },
        ),
        ..m
    }
}

/// Deletes every snipped function from the function arena. This must run
/// last among the mutating steps, once nothing references those functions.
pub fn delete_functions_to_snip(module: &mut Module, to_snip: &Vec<bool>)
    requires
        to_snip@.len() <= old(module)@.funcs.len(),
    ensures
        final(module)@ == spec_delete_funcs(old(module)@, marked_set(to_snip@)),
{
    let ghost m0 = module@;
    let ghost raw0 = module.funcs@;
    let mut f: usize = 0;
    while f < to_snip.len()
        invariant
            to_snip@.len() <= raw0.len(),
            f <= raw0.len(),
            module@ == (ModuleV { funcs: module@.funcs, ..m0 }),
            module.funcs@.len() == raw0.len(),
            forall|j: int|
                0 <= j < f ==> module.funcs@[j] == (if marked_set(to_snip@).contains(j) {
                    None::<Function>
                } else {
                    raw0[j]
                }),
            forall|j: int| f <= j < raw0.len() ==> module.funcs@[j] == raw0[j],
        decreases to_snip@.len() - f,
    {
        if to_snip[f] {
            module.funcs.set(f, None);
        }
        f = f + 1;
    }
    assert(module@.funcs =~= spec_delete_funcs(m0, marked_set(to_snip@)).funcs);
    assert(module@ =~= spec_delete_funcs(m0, marked_set(to_snip@)));
}

} // verus!
