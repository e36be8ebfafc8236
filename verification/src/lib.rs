//! Snip functions out of a WebAssembly-style module representation.
//!
//! The pass replaces the bodies of selected functions with a trap, rewrites
//! every call to a selected function so that the call's argument side effects
//! are kept but the call itself traps, prunes exports and imports that refer
//! to snipped functions, patches indirect-call tables with type-compatible
//! trapping stubs, and finally removes everything the surviving roots no
//! longer reach.

pub mod gc;
pub mod ir;
pub mod laws;
pub mod matcher;
pub mod prune;
pub mod rewrite;
pub mod select;
pub mod tables;

use vstd::prelude::*;

use crate::gc::spec_gc;
use crate::ir::{marked_set, Module, ModuleV};
use crate::matcher::{pattern_set_ok, regex_set_new, string_views};
use crate::prune::{delete_exports, delete_functions_to_snip, spec_delete_exports,
    spec_delete_funcs, spec_unexport, spec_unimport, unexport_snipped_functions,
    unimport_snipped_functions};
use crate::rewrite::{replace_calls_with_unreachable, spec_rewrite_module};
use crate::select::{build_regex_set, find_exports_to_delete, find_functions_to_snip,
    find_unresolved_name, snip_pattern_texts, spec_exports_to_delete, spec_name_resolved,
    spec_to_snip};
use crate::tables::{lemma_patchable_transfer, patch_rel, same_func_skeleton, snip_table_elements,
    tables_patchable};

verus! {

/// Input configuration.
#[derive(Clone, Debug, PartialEq, Eq)]
pub enum Input {
    /// The path of the input file whose functions should be snipped.
    File(String),
    /// The input binary blob whose functions should be snipped.
    Buffer(Vec<u8>),
}

impl Default for Input {
    fn default() -> (r: Input)
        ensures
            r matches Input::File(p) && p@ == Seq::<char>::empty(),
    {
        Input::File(String::new())
    }
}

/// Options for controlling which functions in what module should be
/// snipped.
#[derive(Clone, Debug, Default)]
pub struct Options {
    /// The functions that should be snipped from the module.
    pub functions: Vec<String>,

    /// The regex patterns whose matches should be snipped from the module.
    pub patterns: Vec<String>,

    /// The exports kept while others are snipped from the module.
    pub kept_exports: Vec<String>,

    /// The regex patterns of exports kept while others are snipped from the
    /// module.
    pub kept_export_patterns: Vec<String>,

    /// Should the formatting support functions be snipped?
    pub snip_rust_fmt_code: bool,

    /// Should the panic support functions be snipped?
    pub snip_rust_panicking_code: bool,

    /// Should emission of build-provenance metadata be suppressed? The
    /// in-memory pass never records such metadata; the host honours this
    /// flag when it re-encodes the module.
    pub skip_producers_section: bool,
}

/// Why the pass refused to run. Every error is raised before the module is
/// mutated.
#[derive(Clone, Debug, PartialEq, Eq)]
pub enum Error {
    /// The module carries no debug-name metadata, yet name- or
    /// pattern-based selection was requested.
    MissingNameData,
    /// An exact target name has no match among the module's debug names.
    UnknownFunction { name: String },
    /// A supplied regex pattern set does not compile.
    PatternCompileError { message: String },
    /// The module is not well formed; raised by hosts that load modules.
    MalformedModule { message: String },
    /// Reading or writing the module failed; raised by hosts that do I/O.
    IoError { message: String },
}

/// Whether the options ask for name- or pattern-based selection at all.
pub open spec fn selection_requested(options: Options) -> bool {
    ||| options.functions@.len() > 0
    ||| options.patterns@.len() > 0
    ||| options.snip_rust_fmt_code
    ||| options.snip_rust_panicking_code
}

/// The module the pass produces on success: exports the retention filter
/// excludes are deleted, every call to a snipped function is rewritten to
/// keep its argument effects and trap, exports and imports of snipped
/// functions are pruned, table slots are patched with stubs, the snipped
/// functions are deleted, and the collector removes whatever the surviving
/// roots no longer reach.
pub open spec fn spec_snip_result(m0: ModuleV, options: Options, result: ModuleV) -> bool {
    let dead = spec_exports_to_delete(
        m0,
        string_views(options.kept_exports@),
        string_views(options.kept_export_patterns@),
    );
    let snipset = spec_to_snip(m0, string_views(options.functions@), snip_pattern_texts(options));
    let m1 = spec_delete_exports(m0, dead);
    let m2 = spec_rewrite_module(m1, snipset);
    let m3 = spec_unexport(m2, snipset);
    let m4 = spec_unimport(m3, snipset);
    exists|mid: ModuleV|
        #[trigger] patch_rel(m4, snipset, mid) && result == spec_gc(
            spec_delete_funcs(mid, snipset),
        )
}

/// Snips the selected functions from the module.
///
/// Every error is detected before any mutation: a pattern set that does
/// not compile, a selection request against a module without debug names,
/// or an exact target name that resolves to nothing each leave the module
/// exactly as it was.
pub fn snip(module: &mut Module, options: Options) -> (r: Result<(), Error>)
    requires
        tables_patchable(old(module)@),
    ensures
        r is Err ==> *final(module) == *old(module),
        ({
            let kv = string_views(options.kept_export_patterns@);
            let sv = snip_pattern_texts(options);
            let m0 = old(module)@;
            &&& ((r matches Err(e) && e is PatternCompileError) <==> (!pattern_set_ok(kv)
                || !pattern_set_ok(sv)))
            &&& ((r matches Err(e) && e is MissingNameData) <==> (pattern_set_ok(kv)
                && pattern_set_ok(sv) && selection_requested(options) && !m0.has_names))
            &&& ((r matches Err(e) && e is UnknownFunction) <==> (pattern_set_ok(kv)
                && pattern_set_ok(sv) && !(selection_requested(options) && !m0.has_names) && !(
            forall|i: int|
                0 <= i < options.functions@.len() ==> spec_name_resolved(
                    m0,
                    #[trigger] options.functions@[i]@,
                ))))
            &&& (r matches Err(e) ==> (e matches Error::UnknownFunction { name } ==> exists|i: int|
                0 <= i < options.functions@.len() && #[trigger] options.functions@[i]@ == name@
                    && !spec_name_resolved(m0, name@) && (forall|j: int|
                    0 <= j < i ==> spec_name_resolved(m0, #[trigger] options.functions@[j]@))))
            &&& (r is Ok <==> (pattern_set_ok(kv) && pattern_set_ok(sv) && !(selection_requested(
                options,
            ) && !m0.has_names) && (forall|i: int|
                0 <= i < options.functions@.len() ==> spec_name_resolved(
                    m0,
                    #[trigger] options.functions@[i]@,
                ))))
            &&& (r is Ok ==> spec_snip_result(m0, options, final(module)@))
        }),
{
    let ghost m0 = module@;
    let re_kept = match regex_set_new(&options.kept_export_patterns) {
        Ok(set) => set,
        Err(message) => {
            return Err(Error::PatternCompileError { message });
        },
    };
    let re_set = match build_regex_set(&options) {
        Ok(set) => set,
        Err(e) => {
            return Err(e);
        },
    };
    let requested = options.functions.len() > 0 || options.patterns.len() > 0
        || options.snip_rust_fmt_code || options.snip_rust_panicking_code;
    if requested && !module.has_names {
        return Err(Error::MissingNameData);
    }
    match find_unresolved_name(module, &options.functions) {
        Some(name) => {
            return Err(Error::UnknownFunction { name });
        },
        None => {},
    }
    let exports_to_delete: Vec<bool> = if options.kept_exports.len() == 0
        && options.kept_export_patterns.len() == 0 {
        let mut v: Vec<bool> = Vec::new();
        let n = module.exports.len();
        while v.len() < n
            invariant
                v@.len() <= n,
                forall|j: int| 0 <= j < v@.len() ==> !(#[trigger] v@[j]),
            decreases n - v@.len(),
        {
            v.push(false);
        }
        proof {
            assert(marked_set(v@) =~= spec_exports_to_delete(
                m0,
                string_views(options.kept_exports@),
                string_views(options.kept_export_patterns@),
            ));
        }
        v
    } else {
        let v = find_exports_to_delete(module, &options.kept_exports, &re_kept);
        proof {
            assert(marked_set(v@) =~= spec_exports_to_delete(
                m0,
                string_views(options.kept_exports@),
                string_views(options.kept_export_patterns@),
            ));
        }
        v
    };
    let to_snip = find_functions_to_snip(module, &options.functions, &re_set);
    let ghost snipset = spec_to_snip(m0, string_views(options.functions@), snip_pattern_texts(
        options,
    ));
    proof {
        assert(marked_set(to_snip@) =~= snipset);
    }
    delete_exports(module, &exports_to_delete);
    let ghost m1 = module@;
    replace_calls_with_unreachable(module, &to_snip);
    let ghost m2 = module@;
    unexport_snipped_functions(module, &to_snip);
    let ghost m3 = module@;
    unimport_snipped_functions(module, &to_snip);
    let ghost m4 = module@;
    proof {
        assert(same_func_skeleton(m0, m1));
        lemma_patchable_transfer(m0, m1);
        assert(same_func_skeleton(m1, m2));
        lemma_patchable_transfer(m1, m2);
        assert(same_func_skeleton(m2, m3));
        lemma_patchable_transfer(m2, m3);
        assert(same_func_skeleton(m3, m4));
        lemma_patchable_transfer(m3, m4);
    }
    snip_table_elements(module, &to_snip);
    let ghost mid = module@;
    delete_functions_to_snip(module, &to_snip);
    crate::gc::run(module);
    proof {
        assert(patch_rel(m4, snipset, mid));
        assert(spec_snip_result(m0, options, module@));
    }
    Ok(())
}

} // verus!
