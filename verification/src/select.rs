//! The target selector.
//!
//! From exact-name lists, regex-pattern lists, and the built-in profile
//! flags it computes which functions to snip and which function exports to
//! delete, and it resolves exact names against the module's debug names so
//! that a typoed target is a hard error rather than a silent no-op.

use vstd::prelude::*;

use crate::ir::{func_exists, Export, ExportItem, Module, ModuleV};
use crate::matcher::{
    pattern_set_matches, pattern_set_ok, patterns_of, regex_set_is_match, regex_set_new,
    string_views,
};
use crate::Error;
use crate::Options;

verus! {

/// The patterns of the built-in profile for formatting support code: both
/// mangled and demangled spellings, and both historical and current
/// mangling conventions.
pub open spec fn fmt_profile_texts() -> Seq<Seq<char>> {
    seq![
        ".*4core3fmt.*"@,
        ".*3std3fmt.*"@,
        ".*core\\.\\.fmt\\.\\..*"@,
        ".*std\\.\\.fmt\\.\\..*"@,
        ".*core::fmt::.*"@,
        ".*std::fmt::.*"@,
    ]
}

/// The patterns of the built-in profile for panic support code.
pub open spec fn panic_profile_texts() -> Seq<Seq<char>> {
    seq![
        ".*4core9panicking.*"@,
        ".*3std9panicking.*"@,
        ".*core\\.\\.panicking\\.\\..*"@,
        ".*std\\.\\.panicking\\.\\..*"@,
        ".*core::panicking::.*"@,
        ".*std::panicking::.*"@,
    ]
}

/// The full pattern list selection works with: the supplied patterns,
/// followed by the patterns of each enabled profile.
pub open spec fn snip_pattern_texts(options: Options) -> Seq<Seq<char>> {
    string_views(options.patterns@) + (if options.snip_rust_fmt_code {
        fmt_profile_texts()
    } else {
        Seq::empty()
    }) + (if options.snip_rust_panicking_code {
        panic_profile_texts()
    } else {
        Seq::empty()
    })
}

/// Builds the full pattern list of [`snip_pattern_texts`] as strings.
pub fn build_patterns(options: &Options) -> (r: Vec<String>)
    ensures
        string_views(r@) == snip_pattern_texts(*options),
{
    let mut pats: Vec<String> = Vec::new();
    let mut i: usize = 0;
    while i < options.patterns.len()
        invariant
            i <= options.patterns@.len(),
            pats@.len() == i,
            forall|j: int| 0 <= j < i ==> #[trigger] pats@[j]@ == options.patterns@[j]@,
        decreases options.patterns@.len() - i,
    {
        pats.push(options.patterns[i].clone());
        i = i + 1;
    }
    if options.snip_rust_fmt_code {
        pats.push(String::from_str(".*4core3fmt.*"));
        pats.push(String::from_str(".*3std3fmt.*"));
        pats.push(String::from_str(".*core\\.\\.fmt\\.\\..*"));
        pats.push(String::from_str(".*std\\.\\.fmt\\.\\..*"));
        pats.push(String::from_str(".*core::fmt::.*"));
        pats.push(String::from_str(".*std::fmt::.*"));
    }
    if options.snip_rust_panicking_code {
        pats.push(String::from_str(".*4core9panicking.*"));
        pats.push(String::from_str(".*3std9panicking.*"));
        pats.push(String::from_str(".*core\\.\\.panicking\\.\\..*"));
        pats.push(String::from_str(".*std\\.\\.panicking\\.\\..*"));
        pats.push(String::from_str(".*core::panicking::.*"));
        pats.push(String::from_str(".*std::panicking::.*"));
    }
    assert(string_views(pats@) =~= snip_pattern_texts(*options));
    pats
}

/// Compiles the full pattern list, profiles included. Fails if and only if
/// that pattern set does not compile, and then with `PatternCompileError`.
pub fn build_regex_set(options: &Options) -> (r: Result<regex::RegexSet, Error>)
    ensures
        r is Ok <==> pattern_set_ok(snip_pattern_texts(*options)),
        r matches Ok(set) ==> patterns_of(set) == snip_pattern_texts(*options),
        r matches Err(e) ==> e is PatternCompileError,
{
    let pats = build_patterns(options);
    match regex_set_new(&pats) {
        Ok(set) => Ok(set),
        Err(message) => Err(Error::PatternCompileError { message }),
    }
}

/// Whether the string is one of the list.
pub fn contains_string(names: &Vec<String>, name: &String) -> (r: bool)
    ensures
        r == string_views(names@).contains(name@),
{
    let mut i: usize = 0;
    while i < names.len()
        invariant
            i <= names@.len(),
            forall|j: int| 0 <= j < i ==> #[trigger] names@[j]@ != name@,
        decreases names@.len() - i,
    {
        if names[i] == *name {
            assert(string_views(names@)[i as int] == name@);
            return true;
        }
        i = i + 1;
    }
    assert(forall|j: int|
        0 <= j < string_views(names@).len() ==> #[trigger] string_views(names@)[j] != name@);
    false
}

/// The function is selected for snipping: it is live, it has a debug name,
/// and that name is in the exact-name list or matches the pattern set.
pub open spec fn spec_selected(
    m: ModuleV,
    f: int,
    names: Seq<Seq<char>>,
    pats: Seq<Seq<char>>,
) -> bool {
    &&& func_exists(m, f)
    &&& match m.funcs[f]->Some_0.name {
        Some(n) => names.contains(n) || pattern_set_matches(pats, n),
        None => false,
    }
}

/// The set of function handles selected for snipping.
pub open spec fn spec_to_snip(m: ModuleV, names: Seq<Seq<char>>, pats: Seq<Seq<char>>) -> Set<
    int,
> {
    Set::new(|f: int| spec_selected(m, f, names, pats))
}

/// Marks every function selected by name or pattern, imported or local,
/// without regard to whether it has callers. Slot `f` of the result says
/// whether function `f` is selected.
pub fn find_functions_to_snip(
    module: &Module,
    names: &Vec<String>,
    re_set: &regex::RegexSet,
) -> (r: Vec<bool>)
    ensures
        r@.len() == module@.funcs.len(),
        forall|f: int|
            0 <= f < r@.len() ==> r@[f] == spec_selected(
                module@,
                f,
                string_views(names@),
                patterns_of(*re_set),
            ),
{
    let mut r: Vec<bool> = Vec::new();
    let mut f: usize = 0;
    while f < module.funcs.len()
        invariant
            f <= module.funcs@.len(),
            r@.len() == f,
            forall|j: int|
                0 <= j < f ==> r@[j] == spec_selected(
                    module@,
                    j,
                    string_views(names@),
                    patterns_of(*re_set),
                ),
        decreases module.funcs@.len() - f,
    {
        let sel: bool = match &module.funcs[f] {
            Some(func) => match &func.name {
                Some(n) => contains_string(names, n) || regex_set_is_match(re_set, n),
                None => false,
            },
            None => false,
        };
        r.push(sel);
        f = f + 1;
    }
    r
}

/// The export is a function export; non-function exports are never touched.
pub fn is_function(export: &Export) -> (r: Option<&Export>)
    ensures
        match r {
            Some(e) => export.item is Function && e == export,
            None => !(export.item is Function),
        },
{
    match export.item {
        ExportItem::Function(_) => Some(export),
        ExportItem::Global(_) => None,
        ExportItem::Other => None,
    }
}

/// The export is a live function export that the keep-list does not retain.
pub open spec fn spec_export_dead(
    m: ModuleV,
    e: int,
    keep_names: Seq<Seq<char>>,
    keep_pats: Seq<Seq<char>>,
) -> bool {
    &&& 0 <= e < m.exports.len()
    &&& m.exports[e] matches Some(ex) && ex.item is Function && !(keep_names.contains(ex.name)
        || pattern_set_matches(keep_pats, ex.name))
}

/// The set of exports the retention filter deletes: none when no keep-list
/// is supplied, otherwise every function export the keep-list misses.
pub open spec fn spec_exports_to_delete(
    m: ModuleV,
    keep_names: Seq<Seq<char>>,
    keep_pats: Seq<Seq<char>>,
) -> Set<int> {
    if keep_names.len() == 0 && keep_pats.len() == 0 {
        Set::empty()
    } else {
        Set::new(|e: int| spec_export_dead(m, e, keep_names, keep_pats))
    }
}

/// Marks every function export that the keep-list misses. Slot `e` of the
/// result says whether export `e` is marked. The caller applies the
/// no-keep-list-supplied rule.
pub fn find_exports_to_delete(
    module: &Module,
    names: &Vec<String>,
    re_set: &regex::RegexSet,
) -> (r: Vec<bool>)
    ensures
        r@.len() == module@.exports.len(),
        forall|e: int|
            0 <= e < r@.len() ==> r@[e] == spec_export_dead(
                module@,
                e,
                string_views(names@),
                patterns_of(*re_set),
            ),
{
    let mut r: Vec<bool> = Vec::new();
    let mut e: usize = 0;
    while e < module.exports.len()
        invariant
            e <= module.exports@.len(),
            r@.len() == e,
            forall|j: int|
                0 <= j < e ==> r@[j] == spec_export_dead(
                    module@,
                    j,
                    string_views(names@),
                    patterns_of(*re_set),
                ),
        decreases module.exports@.len() - e,
    {
        let dead: bool = match &module.exports[e] {
            Some(ex) => match is_function(ex) {
                Some(fx) => !(contains_string(names, &fx.name) || regex_set_is_match(
                    re_set,
                    &fx.name,
                )),
                None => false,
            },
            None => false,
        };
        r.push(dead);
        e = e + 1;
    }
    r
}

/// Some live function carries exactly this debug name.
pub open spec fn spec_name_resolved(m: ModuleV, n: Seq<char>) -> bool {
    exists|f: int| #[trigger] func_exists(m, f) && m.funcs[f]->Some_0.name == Some(n)
}

/// Whether the name resolves against the module's debug names.
pub fn name_resolved(module: &Module, name: &String) -> (r: bool)
    ensures
        r == spec_name_resolved(module@, name@),
{
    let mut f: usize = 0;
    while f < module.funcs.len()
        invariant
            f <= module.funcs@.len(),
            forall|j: int|
                0 <= j < f ==> !(func_exists(module@, j) && module@.funcs[j]->Some_0.name == Some(
                    name@,
                )),
        decreases module.funcs@.len() - f,
    {
        match &module.funcs[f] {
            Some(func) => match &func.name {
                Some(n) => {
                    if *n == *name {
                        assert(func_exists(module@, f as int));
                        return true;
                    }
                },
                None => {},
            },
            None => {},
        }
        f = f + 1;
    }
    false
}

/// Finds the first exact target name that resolves against no debug name
/// of the module; `None` when every target resolves.
pub fn find_unresolved_name(module: &Module, names: &Vec<String>) -> (r: Option<String>)
    ensures
        r is None <==> (forall|i: int|
            0 <= i < names@.len() ==> spec_name_resolved(module@, #[trigger] names@[i]@)),
        r matches Some(n) ==> exists|i: int|
            0 <= i < names@.len() && #[trigger] names@[i]@ == n@ && !spec_name_resolved(
                module@,
                n@,
            ) && (forall|j: int|
                0 <= j < i ==> spec_name_resolved(module@, #[trigger] names@[j]@)),
{
    let mut i: usize = 0;
    while i < names.len()
        invariant
            i <= names@.len(),
            forall|j: int|
                0 <= j < i ==> spec_name_resolved(module@, #[trigger] names@[j]@),
        decreases names@.len() - i,
    {
        if !name_resolved(module, &names[i]) {
            return Some(names[i].clone());
        }
        i = i + 1;
    }
    None
}

} // verus!
