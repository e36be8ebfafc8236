use wasm_snip::ir::{Export, ExportItem, FuncKind, FuncType, Function, Global, Import, ImportKind,
    Instr, Module, Segment, Table, ValType};
use wasm_snip::{snip, Error, Input, Options};

fn void_ty() -> Option<FuncType> {
    Some(FuncType { params: vec![], results: vec![] })
}

fn unary_ty() -> Option<FuncType> {
    Some(FuncType { params: vec![ValType::I32], results: vec![] })
}

fn local_func(name: &str, ty: usize, body: Vec<Instr>) -> Option<Function> {
    Some(Function { name: Some(name.to_string()), ty, kind: FuncKind::Local { locals: vec![], body } })
}

fn export_func(name: &str, f: usize) -> Option<Export> {
    Some(Export { name: name.to_string(), item: ExportItem::Function(f) })
}

fn empty_module() -> Module {
    Module {
        types: vec![],
        funcs: vec![],
        locals: vec![],
        globals: vec![],
        tables: vec![],
        imports: vec![],
        exports: vec![],
        start: None,
        has_names: true,
    }
}

/// The scenario module: `main` (exported) calls `helper`, `helper` calls
/// `doomed` with an argument whose evaluation reads a global.
fn scenario_module() -> Module {
    let mut m = empty_module();
    m.types = vec![void_ty(), unary_ty()];
    m.globals = vec![Some(Global { ty: ValType::I32, mutable: false, init: 7 })];
    m.funcs = vec![
        local_func("main", 0, vec![Instr::Call { func: 1, args: vec![] }]),
        local_func(
            "helper",
            0,
            vec![Instr::Call { func: 2, args: vec![Instr::GlobalGet { global: 0 }] }],
        ),
        local_func("doomed", 1, vec![Instr::Trap]),
    ];
    m.exports = vec![export_func("main", 0)];
    m
}

fn options_with_functions(names: &[&str]) -> Options {
    let mut o = Options::default();
    o.functions = names.iter().map(|s| s.to_string()).collect();
    o
}

fn options_with_patterns(pats: &[&str]) -> Options {
    let mut o = Options::default();
    o.patterns = pats.iter().map(|s| s.to_string()).collect();
    o
}

#[test]
fn snip_me() {
    // A function with a mangled debug name is snipped by its exact name.
    let mut m = empty_module();
    m.types = vec![void_ty()];
    m.funcs = vec![
        local_func("main", 0, vec![Instr::Call { func: 1, args: vec![] }]),
        local_func("_ZN5hello7snip_me17hf15dbd799e7ad6aaE", 0, vec![Instr::Const { value: 3 }]),
    ];
    m.exports = vec![export_func("main", 0)];
    let r = snip(&mut m, options_with_functions(&["_ZN5hello7snip_me17hf15dbd799e7ad6aaE"]));
    assert!(r.is_ok());
    assert!(m.funcs[1].is_none());
    assert_eq!(
        m.funcs[0].as_ref().unwrap().kind,
        FuncKind::Local { locals: vec![], body: vec![Instr::Block { body: vec![Instr::Trap] }] }
    );
}

#[test]
fn patterns() {
    // A regex pattern selects every function whose name matches it.
    let mut m = empty_module();
    m.types = vec![void_ty()];
    m.funcs = vec![
        local_func("main", 0, vec![Instr::Call { func: 1, args: vec![] }]),
        local_func("my_alloc_impl", 0, vec![Instr::Const { value: 1 }]),
        local_func("untouched", 0, vec![Instr::Const { value: 2 }]),
    ];
    m.exports = vec![export_func("main", 0), export_func("also", 2)];
    let r = snip(&mut m, options_with_patterns(&[".*alloc.*"]));
    assert!(r.is_ok());
    assert!(m.funcs[1].is_none());
    assert!(m.funcs[2].is_some());
    // The non-matching function was not rewritten.
    assert_eq!(
        m.funcs[2].as_ref().unwrap().kind,
        FuncKind::Local { locals: vec![], body: vec![Instr::Const { value: 2 }] }
    );
}

#[test]
fn snip_rust_fmt_code() {
    // The formatting profile snips mangled and demangled spellings alike,
    // without naming either function.
    let mut m = empty_module();
    m.types = vec![void_ty()];
    m.funcs = vec![
        local_func("main", 0, vec![Instr::Call { func: 1, args: vec![] }]),
        local_func("_ZN4core3fmt5write17h1234E", 0, vec![Instr::Const { value: 1 }]),
        local_func("core::fmt::Arguments::new", 0, vec![Instr::Const { value: 2 }]),
        local_func("keep", 0, vec![Instr::Const { value: 3 }]),
    ];
    m.exports = vec![export_func("main", 0), export_func("keep", 3)];
    let mut o = Options::default();
    o.snip_rust_fmt_code = true;
    let r = snip(&mut m, o);
    assert!(r.is_ok());
    assert!(m.funcs[1].is_none());
    assert!(m.funcs[2].is_none());
    assert!(m.funcs[3].is_some());
}

#[test]
fn snip_rust_panicking_code() {
    let mut m = empty_module();
    m.types = vec![void_ty()];
    m.funcs = vec![
        local_func("main", 0, vec![Instr::Call { func: 1, args: vec![] }]),
        local_func("_ZN4core9panicking5panic17hE", 0, vec![Instr::Const { value: 1 }]),
        local_func("std::panicking::begin_panic", 0, vec![Instr::Const { value: 2 }]),
    ];
    m.exports = vec![export_func("main", 0)];
    let mut o = Options::default();
    o.snip_rust_panicking_code = true;
    let r = snip(&mut m, o);
    assert!(r.is_ok());
    assert!(m.funcs[1].is_none());
    assert!(m.funcs[2].is_none());
}

#[test]
fn keep_exports() {
    // With an exact keep-list, every function export not on it is deleted,
    // and its function is collected when nothing else reaches it.
    let mut m = empty_module();
    m.types = vec![void_ty()];
    m.funcs = vec![
        local_func("keep_me", 0, vec![Instr::Const { value: 1 }]),
        local_func("drop_me", 0, vec![Instr::Const { value: 2 }]),
    ];
    m.exports = vec![export_func("keep_me", 0), export_func("drop_me", 1)];
    let mut o = Options::default();
    o.kept_exports = vec!["keep_me".to_string()];
    let r = snip(&mut m, o);
    assert!(r.is_ok());
    assert!(m.exports[0].is_some());
    assert!(m.exports[1].is_none());
    assert!(m.funcs[0].is_some());
    assert!(m.funcs[1].is_none());
}

#[test]
fn keep_export_patterns() {
    let mut m = empty_module();
    m.types = vec![void_ty()];
    m.funcs = vec![
        local_func("keep_me", 0, vec![Instr::Const { value: 1 }]),
        local_func("drop_me", 0, vec![Instr::Const { value: 2 }]),
    ];
    m.exports = vec![export_func("keep_me", 0), export_func("drop_me", 1)];
    let mut o = Options::default();
    o.kept_export_patterns = vec!["keep.*".to_string()];
    let r = snip(&mut m, o);
    assert!(r.is_ok());
    assert!(m.exports[0].is_some());
    assert!(m.exports[1].is_none());
    assert!(m.funcs[1].is_none());
}

#[test]
fn no_keep_list_deletes_no_export() {
    // Without a keep-list the retention filter deletes nothing.
    let mut m = empty_module();
    m.types = vec![void_ty()];
    m.funcs = vec![local_func("only", 0, vec![Instr::Const { value: 1 }])];
    m.exports = vec![export_func("only", 0)];
    let r = snip(&mut m, Options::default());
    assert!(r.is_ok());
    assert!(m.exports[0].is_some());
    assert!(m.funcs[0].is_some());
}

#[test]
fn scenario_snip_doomed() {
    // `main` calls `helper`, `helper` calls `doomed`; snipping `doomed`
    // rewrites `helper`'s call into an argument-preserving trap, deletes
    // `doomed`, and keeps `main` and `helper` exported and present.
    let mut m = scenario_module();
    let r = snip(&mut m, options_with_functions(&["doomed"]));
    assert!(r.is_ok());
    assert!(m.funcs[0].is_some());
    assert!(m.funcs[1].is_some());
    assert!(m.funcs[2].is_none());
    assert_eq!(m.exports[0], export_func("main", 0));
    // main is structurally unchanged aside from nothing: its call was not
    // to a snipped function.
    assert_eq!(
        m.funcs[0].as_ref().unwrap().kind,
        FuncKind::Local { locals: vec![], body: vec![Instr::Call { func: 1, args: vec![] }] }
    );
    // helper now evaluates the argument (its side effect: a global read)
    // and traps, instead of calling doomed.
    assert_eq!(
        m.funcs[1].as_ref().unwrap().kind,
        FuncKind::Local {
            locals: vec![],
            body: vec![Instr::Block {
                body: vec![Instr::GlobalGet { global: 0 }, Instr::Trap],
            }],
        }
    );
}

#[test]
fn side_effects_kept_in_order() {
    // f(a(), b()) with f snipped still evaluates a's and b's effects, in
    // order, before trapping.
    let mut m = empty_module();
    m.types = vec![void_ty(), Some(FuncType {
        params: vec![ValType::I32, ValType::I32],
        results: vec![],
    })];
    m.funcs = vec![
        local_func(
            "caller",
            0,
            vec![Instr::Call {
                func: 3,
                args: vec![
                    Instr::Call { func: 1, args: vec![] },
                    Instr::Call { func: 2, args: vec![] },
                ],
            }],
        ),
        local_func("a", 0, vec![Instr::GlobalSet { global: 0, value: vec![Instr::Const { value: 1 }] }]),
        local_func("b", 0, vec![Instr::GlobalSet { global: 0, value: vec![Instr::Const { value: 2 }] }]),
        local_func("f", 1, vec![Instr::Trap]),
    ];
    m.globals = vec![Some(Global { ty: ValType::I32, mutable: true, init: 0 })];
    m.exports = vec![export_func("caller", 0)];
    let r = snip(&mut m, options_with_functions(&["f"]));
    assert!(r.is_ok());
    assert_eq!(
        m.funcs[0].as_ref().unwrap().kind,
        FuncKind::Local {
            locals: vec![],
            body: vec![Instr::Block {
                body: vec![
                    Instr::Call { func: 1, args: vec![] },
                    Instr::Call { func: 2, args: vec![] },
                    Instr::Trap,
                ],
            }],
        }
    );
    assert!(m.funcs[1].is_some());
    assert!(m.funcs[2].is_some());
    assert!(m.funcs[3].is_none());
}

#[test]
fn cascading_collection() {
    // A calls only B, B is not otherwise referenced; snipping A removes B.
    let mut m = empty_module();
    m.types = vec![void_ty()];
    m.funcs = vec![
        local_func("a", 0, vec![Instr::Call { func: 1, args: vec![] }]),
        local_func("b", 0, vec![Instr::Const { value: 9 }]),
        local_func("rooted", 0, vec![Instr::Const { value: 1 }]),
    ];
    m.exports = vec![export_func("a", 0), export_func("rooted", 2)];
    let r = snip(&mut m, options_with_functions(&["a"]));
    assert!(r.is_ok());
    assert!(m.funcs[0].is_none());
    assert!(m.funcs[1].is_none());
    assert!(m.funcs[2].is_some());
    assert!(m.exports[0].is_none());
    assert!(m.exports[1].is_some());
}

#[test]
fn table_slots_get_typed_stubs() {
    // A table slot holding a snipped function is rewired to a fresh stub
    // of the same signature whose body is a single trap; one stub is
    // shared per signature.
    let mut m = empty_module();
    m.types = vec![void_ty(), unary_ty()];
    m.funcs = vec![
        local_func("doomed", 1, vec![Instr::Const { value: 1 }]),
        local_func("doomed_too", 1, vec![Instr::Const { value: 2 }]),
        local_func("kept", 0, vec![Instr::Const { value: 3 }]),
    ];
    m.tables = vec![Some(Table::Function {
        elements: vec![Some(0), None, Some(2)],
        segments: vec![Segment { offset: 4, funcs: vec![1] }],
    })];
    m.exports = vec![export_func("kept", 2)];
    let r = snip(&mut m, options_with_functions(&["doomed", "doomed_too"]));
    assert!(r.is_ok());
    // Both snipped functions are gone; the stub was appended at index 3
    // and shared between the two slots of the same signature.
    assert!(m.funcs[0].is_none());
    assert!(m.funcs[1].is_none());
    assert!(m.funcs[2].is_some());
    let stub = m.funcs[3].as_ref().expect("a stub should have been synthesized");
    assert_eq!(stub.name, None);
    assert_eq!(stub.ty, 1);
    match &stub.kind {
        FuncKind::Local { locals, body } => {
            assert_eq!(body, &vec![Instr::Trap]);
            assert_eq!(locals.len(), 1);
            assert_eq!(m.locals[locals[0]], Some(ValType::I32));
        },
        FuncKind::Imported => panic!("stub must be local"),
    }
    match m.tables[0].as_ref().unwrap() {
        Table::Function { elements, segments } => {
            assert_eq!(elements, &vec![Some(3), None, Some(2)]);
            assert_eq!(segments[0].offset, 4);
            assert_eq!(segments[0].funcs, vec![3]);
        },
        Table::Other => panic!("table kind must be preserved"),
    }
    // The stub's signature survived collection.
    assert!(m.types[1].is_some());
}

#[test]
fn snipped_import_is_unimported() {
    let mut m = empty_module();
    m.types = vec![void_ty()];
    m.funcs = vec![
        Some(Function { name: Some("imp".to_string()), ty: 0, kind: FuncKind::Imported }),
        local_func("main", 0, vec![Instr::Call { func: 0, args: vec![] }]),
    ];
    m.imports = vec![Some(Import {
        module: "env".to_string(),
        name: "imp".to_string(),
        kind: ImportKind::Function(0),
    })];
    m.exports = vec![export_func("main", 1)];
    let r = snip(&mut m, options_with_functions(&["imp"]));
    assert!(r.is_ok());
    assert!(m.funcs[0].is_none());
    assert!(m.imports[0].is_none());
    assert_eq!(
        m.funcs[1].as_ref().unwrap().kind,
        FuncKind::Local { locals: vec![], body: vec![Instr::Block { body: vec![Instr::Trap] }] }
    );
}

#[test]
fn exact_name_error_leaves_module_unchanged() {
    // Requesting a name absent from the debug names is a hard error, and
    // the module is exactly as it was.
    let mut m = scenario_module();
    let before = scenario_module();
    let r = snip(&mut m, options_with_functions(&["doooomed"]));
    match r {
        Err(Error::UnknownFunction { name }) => assert_eq!(name, "doooomed"),
        other => panic!("expected UnknownFunction, got {:?}", other),
    }
    assert_eq!(m, before);
}

#[test]
fn missing_name_data_error() {
    let mut m = scenario_module();
    m.has_names = false;
    for f in m.funcs.iter_mut() {
        f.as_mut().unwrap().name = None;
    }
    let before_len = m.funcs.len();
    let r = snip(&mut m, options_with_patterns(&[".*"]));
    assert!(matches!(r, Err(Error::MissingNameData)));
    assert_eq!(m.funcs.len(), before_len);
    assert!(m.funcs.iter().all(|f| f.is_some()));
}

#[test]
fn pattern_compile_error_leaves_module_unchanged() {
    let mut m = scenario_module();
    let before = scenario_module();
    let r = snip(&mut m, options_with_patterns(&["["]));
    assert!(matches!(r, Err(Error::PatternCompileError { .. })));
    assert_eq!(m, before);
}

#[test]
fn kept_export_pattern_compile_error() {
    let mut m = scenario_module();
    let before = scenario_module();
    let mut o = Options::default();
    o.kept_export_patterns = vec!["(".to_string()];
    let r = snip(&mut m, o);
    assert!(matches!(r, Err(Error::PatternCompileError { .. })));
    assert_eq!(m, before);
}

#[test]
fn reselection_is_a_no_op() {
    // Running the pass twice with the same pattern target set: the second
    // run snips nothing and changes nothing.
    let build = || {
        let mut m = empty_module();
        m.types = vec![void_ty()];
        m.funcs = vec![
            local_func("main", 0, vec![Instr::Call { func: 1, args: vec![] }]),
            local_func("noisy_log_call", 0, vec![Instr::Const { value: 1 }]),
        ];
        m.exports = vec![export_func("main", 0)];
        m
    };
    let mut m = build();
    let o = options_with_patterns(&[".*log.*"]);
    assert!(snip(&mut m, o.clone()).is_ok());
    let after_first = format!("{:?}", m);
    assert!(snip(&mut m, o).is_ok());
    assert_eq!(format!("{:?}", m), after_first);
}

#[test]
fn unreferenced_functions_are_collected() {
    // Even with nothing selected, the collector removes what no root
    // reaches, with its types, locals and globals.
    let mut m = empty_module();
    m.types = vec![void_ty(), unary_ty()];
    m.locals = vec![Some(ValType::I32)];
    m.globals = vec![Some(Global { ty: ValType::I64, mutable: true, init: 0 })];
    m.funcs = vec![
        local_func("kept", 0, vec![Instr::Const { value: 1 }]),
        Some(Function {
            name: Some("orphan".to_string()),
            ty: 1,
            kind: FuncKind::Local {
                locals: vec![0],
                body: vec![Instr::GlobalGet { global: 0 }],
            },
        }),
    ];
    m.exports = vec![export_func("kept", 0)];
    let r = snip(&mut m, Options::default());
    assert!(r.is_ok());
    assert!(m.funcs[0].is_some());
    assert!(m.funcs[1].is_none());
    assert!(m.types[0].is_some());
    assert!(m.types[1].is_none());
    assert!(m.locals[0].is_none());
    assert!(m.globals[0].is_none());
}

#[test]
fn start_function_is_a_root() {
    let mut m = empty_module();
    m.types = vec![void_ty()];
    m.funcs = vec![local_func("boot", 0, vec![Instr::Const { value: 1 }])];
    m.start = Some(0);
    let r = snip(&mut m, Options::default());
    assert!(r.is_ok());
    assert!(m.funcs[0].is_some());
    assert_eq!(m.start, Some(0));
}

#[test]
fn profile_pattern_lists_are_exact() {
    let mut o = Options::default();
    o.patterns = vec!["mine".to_string()];
    o.snip_rust_fmt_code = true;
    o.snip_rust_panicking_code = true;
    let pats = wasm_snip::select::build_patterns(&o);
    assert_eq!(
        pats,
        vec![
            "mine",
            ".*4core3fmt.*",
            ".*3std3fmt.*",
            ".*core\\.\\.fmt\\.\\..*",
            ".*std\\.\\.fmt\\.\\..*",
            ".*core::fmt::.*",
            ".*std::fmt::.*",
            ".*4core9panicking.*",
            ".*3std9panicking.*",
            ".*core\\.\\.panicking\\.\\..*",
            ".*std\\.\\.panicking\\.\\..*",
            ".*core::panicking::.*",
            ".*std::panicking::.*",
        ]
        .into_iter()
        .map(|s| s.to_string())
        .collect::<Vec<String>>()
    );
}

#[test]
fn pattern_matching_is_real() {
    // The matcher must actually consult the pattern: "x.*y" selects
    // "xzzy" but not "yx".
    let mut m = empty_module();
    m.types = vec![void_ty()];
    m.funcs = vec![
        local_func("xzzy", 0, vec![Instr::Const { value: 1 }]),
        local_func("yx", 0, vec![Instr::Const { value: 2 }]),
    ];
    m.exports = vec![export_func("xzzy", 0), export_func("yx", 1)];
    let r = snip(&mut m, options_with_patterns(&["x.*y"]));
    assert!(r.is_ok());
    assert!(m.funcs[0].is_none());
    assert!(m.funcs[1].is_some());
}

#[test]
fn check_patchable_accepts_and_rejects() {
    let m = scenario_module();
    assert!(wasm_snip::tables::check_patchable(&m));
    let mut bad = scenario_module();
    bad.tables = vec![Some(Table::Function { elements: vec![Some(9)], segments: vec![] })];
    assert!(!wasm_snip::tables::check_patchable(&bad));
}

#[test]
fn input_default_is_empty_path() {
    assert_eq!(Input::default(), Input::File(String::new()));
}
