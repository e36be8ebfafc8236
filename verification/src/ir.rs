//! The in-memory representation of a module.
//!
//! Every entity lives in an identifier-indexed arena on [`Module`]: a `Vec`
//! of `Option` entries whose index is the entity's handle. Deleting an entry
//! sets it to `None`, so handles stay stable for the module's whole lifetime
//! and a lookup of a deleted entity fails explicitly instead of dangling.
//! Cross-references between entities are always by handle, never by
//! ownership.
//!
//! Each executable type has a ghost view (`TypeV`, `FuncV`, ... `ModuleV`)
//! over mathematical sequences, and [`wf`] says when a module view is
//! well formed: every handle that an entity mentions resolves to a live
//! entry, and export and debug names are unique.

use vstd::prelude::*;

verus! {

/// A handle into one of the module's arenas.
pub type Id = usize;

/// A primitive value type of the module's type signatures.
#[derive(Clone, Copy, PartialEq, Eq, Structural, Debug)]
pub enum ValType {
    I32,
    I64,
    F32,
    F64,
}

/// A function signature: ordered parameter and result types.
#[derive(Clone, PartialEq, Eq, Debug)]
pub struct FuncType {
    pub params: Vec<ValType>,
    pub results: Vec<ValType>,
}

/// Ghost view of [`FuncType`].
#[verifier::ext_equal]
pub struct TypeV {
    pub params: Seq<ValType>,
    pub results: Seq<ValType>,
}

impl View for FuncType {
    type V = TypeV;

    open spec fn view(&self) -> TypeV {
        TypeV { params: self.params@, results: self.results@ }
    }
}

/// One instruction of a function body: a tree whose operand positions are
/// instruction sequences, evaluated left to right.
#[derive(PartialEq, Eq, Debug)]
pub enum Instr {
    /// Unconditionally halts the executing function.
    Trap,
    /// Produces a constant value.
    Const { value: i64 },
    /// Reads a local variable.
    LocalGet { local: Id },
    /// Evaluates `value`, then writes its result to a local variable.
    LocalSet { local: Id, value: Vec<Instr> },
    /// Reads a global variable.
    GlobalGet { global: Id },
    /// Evaluates `value`, then writes its result to a global variable.
    GlobalSet { global: Id, value: Vec<Instr> },
    /// A nested block of instructions.
    Block { body: Vec<Instr> },
    /// A nested loop.
    Loop { body: Vec<Instr> },
    /// Evaluates `cond`, then one of the two branches.
    If { cond: Vec<Instr>, then_body: Vec<Instr>, else_body: Vec<Instr> },
    /// Evaluates the arguments left to right, then calls `func`.
    Call { func: Id, args: Vec<Instr> },
    /// Evaluates the arguments, then `index`, then calls through `table`
    /// a function whose signature must equal `ty`.
    CallIndirect { table: Id, ty: Id, index: Vec<Instr>, args: Vec<Instr> },
}

/// Ghost view of [`Instr`].
#[verifier::ext_equal]
pub enum InstrV {
    Trap,
    Const { value: i64 },
    LocalGet { local: int },
    LocalSet { local: int, value: Seq<InstrV> },
    GlobalGet { global: int },
    GlobalSet { global: int, value: Seq<InstrV> },
    Block { body: Seq<InstrV> },
    Loop { body: Seq<InstrV> },
    If { cond: Seq<InstrV>, then_body: Seq<InstrV>, else_body: Seq<InstrV> },
    Call { func: int, args: Seq<InstrV> },
    CallIndirect { table: int, ty: int, index: Seq<InstrV>, args: Seq<InstrV> },
}

/// View of a whole instruction sequence.
pub open spec fn instrs_view(s: Seq<Instr>) -> Seq<InstrV>
    decreases s,
{
    if s.len() == 0 {
        Seq::empty()
    } else {
        seq![instr_view(s[0])] + instrs_view(s.drop_first())
    }
}

/// An instruction sequence and its view have the same length.
pub broadcast proof fn lemma_instrs_view_len(s: Seq<Instr>)
    ensures
        (#[trigger] instrs_view(s)).len() == s.len(),
    decreases s,
{
    if s.len() != 0 {
        lemma_instrs_view_len(s.drop_first());
    }
}

/// The view of an instruction sequence views each element in place.
pub broadcast proof fn lemma_instrs_view_index(s: Seq<Instr>, j: int)
    requires
        0 <= j < s.len(),
    ensures
        #[trigger] instrs_view(s)[j] == instr_view(s[j]),
    decreases s,
{
    lemma_instrs_view_len(s);
    if j > 0 {
        lemma_instrs_view_index(s.drop_first(), j - 1);
    }
}

/// View of one instruction.
pub open spec fn instr_view(i: Instr) -> InstrV
    decreases i,
{
    match i {
        Instr::Trap => InstrV::Trap,
        Instr::Const { value } => InstrV::Const { value },
        Instr::LocalGet { local } => InstrV::LocalGet { local: local as int },
        Instr::LocalSet { local, value } => InstrV::LocalSet {
            local: local as int,
            value: instrs_view(value@),
        },
        Instr::GlobalGet { global } => InstrV::GlobalGet { global: global as int },
        Instr::GlobalSet { global, value } => InstrV::GlobalSet {
            global: global as int,
            value: instrs_view(value@),
        },
        Instr::Block { body } => InstrV::Block { body: instrs_view(body@) },
        Instr::Loop { body } => InstrV::Loop { body: instrs_view(body@) },
        Instr::If { cond, then_body, else_body } => InstrV::If {
            cond: instrs_view(cond@),
            then_body: instrs_view(then_body@),
            else_body: instrs_view(else_body@),
        },
        Instr::Call { func, args } => InstrV::Call {
            func: func as int,
            args: instrs_view(args@),
        },
        Instr::CallIndirect { table, ty, index, args } => InstrV::CallIndirect {
            table: table as int,
            ty: ty as int,
            index: instrs_view(index@),
            args: instrs_view(args@),
        },
    }
}

impl View for Instr {
    type V = InstrV;

    open spec fn view(&self) -> InstrV {
        instr_view(*self)
    }
}

/// Whether a function owns a body here or is only declared by an import.
#[derive(PartialEq, Eq, Debug)]
pub enum FuncKind {
    /// Declared by an import; no body is owned here.
    Imported,
    /// A function with local variable slots and a body.
    Local { locals: Vec<Id>, body: Vec<Instr> },
}

/// A function: an optional debug name, a signature handle, and its kind.
#[derive(PartialEq, Eq, Debug)]
pub struct Function {
    pub name: Option<String>,
    pub ty: Id,
    pub kind: FuncKind,
}

/// Ghost view of [`FuncKind`].
#[verifier::ext_equal]
pub enum FuncKindV {
    Imported,
    Local { locals: Seq<int>, body: Seq<InstrV> },
}

/// Ghost view of [`Function`].
#[verifier::ext_equal]
pub struct FuncV {
    pub name: Option<Seq<char>>,
    pub ty: int,
    pub kind: FuncKindV,
}

/// View of a handle list.
pub open spec fn ids_view(s: Seq<Id>) -> Seq<int> {
    Seq::new(s.len(), |j: int| s[j] as int)
}

impl View for Function {
    type V = FuncV;

    open spec fn view(&self) -> FuncV {
        FuncV {
            name: match self.name {
                Some(n) => Some(n@),
                None => None,
            },
            ty: self.ty as int,
            kind: match self.kind {
                FuncKind::Imported => FuncKindV::Imported,
                FuncKind::Local { locals, body } => FuncKindV::Local {
                    locals: ids_view(locals@),
                    body: instrs_view(body@),
                },
            },
        }
    }
}

/// A global variable. Its initial value is a plain constant.
#[derive(Clone, Copy, PartialEq, Eq, Structural, Debug)]
pub struct Global {
    pub ty: ValType,
    pub mutable: bool,
    pub init: i64,
}

/// One relative segment of an indirect-call table: function handles laid
/// out from `offset`.
#[derive(PartialEq, Eq, Debug)]
pub struct Segment {
    pub offset: u32,
    pub funcs: Vec<Id>,
}

/// Ghost view of [`Segment`].
#[verifier::ext_equal]
pub struct SegmentV {
    pub offset: u32,
    pub funcs: Seq<int>,
}

impl View for Segment {
    type V = SegmentV;

    open spec fn view(&self) -> SegmentV {
        SegmentV { offset: self.offset, funcs: ids_view(self.funcs@) }
    }
}

/// An indirect-call table. Only tables of function references carry slots;
/// every slot is either empty or a function handle.
#[derive(PartialEq, Eq, Debug)]
pub enum Table {
    /// A table of function references: a dense element list indexed from
    /// zero, plus offset-based relative segments.
    Function { elements: Vec<Option<Id>>, segments: Vec<Segment> },
    /// A table of some other element kind; the pass never touches it.
    Other,
}

/// Ghost view of [`Table`].
#[verifier::ext_equal]
pub enum TableV {
    Function { elements: Seq<Option<int>>, segments: Seq<SegmentV> },
    Other,
}

/// View of a dense element list.
pub open spec fn slots_view(s: Seq<Option<Id>>) -> Seq<Option<int>> {
    Seq::new(s.len(), |j: int| match s[j] {
        Some(f) => Some(f as int),
        None => None,
    })
}

impl View for Table {
    type V = TableV;

    open spec fn view(&self) -> TableV {
        match self {
            Table::Function { elements, segments } => TableV::Function {
                elements: slots_view(elements@),
                segments: opts_elems_view(segments@),
            },
            Table::Other => TableV::Other,
        }
    }
}

/// View of a sequence of viewable values.
pub open spec fn opts_elems_view<T: View>(s: Seq<T>) -> Seq<T::V> {
    Seq::new(s.len(), |j: int| s[j]@)
}

/// What an import brings in.
#[derive(Clone, PartialEq, Eq, Debug)]
pub enum ImportKind {
    /// A function declared elsewhere; the handle has no body here.
    Function(Id),
    /// A table, memory, or global import; the pass never touches it.
    Other,
}

/// Ghost view of [`ImportKind`].
#[verifier::ext_equal]
pub enum ImportKindV {
    Function(int),
    Other,
}

/// An import: the outer module it comes from, its name there, and its kind.
#[derive(Clone, PartialEq, Eq, Debug)]
pub struct Import {
    pub module: String,
    pub name: String,
    pub kind: ImportKind,
}

/// Ghost view of [`Import`].
#[verifier::ext_equal]
pub struct ImportV {
    pub module: Seq<char>,
    pub name: Seq<char>,
    pub kind: ImportKindV,
}

impl View for Import {
    type V = ImportV;

    open spec fn view(&self) -> ImportV {
        ImportV {
            module: self.module@,
            name: self.name@,
            kind: match self.kind {
                ImportKind::Function(f) => ImportKindV::Function(f as int),
                ImportKind::Other => ImportKindV::Other,
            },
        }
    }
}

/// The item an export makes visible.
#[derive(Clone, PartialEq, Eq, Debug)]
pub enum ExportItem {
    Function(Id),
    Global(Id),
    /// A table or memory; the pass never touches such an export.
    Other,
}

/// Ghost view of [`ExportItem`].
#[verifier::ext_equal]
pub enum ExportItemV {
    Function(int),
    Global(int),
    Other,
}

/// An export: a unique name and the item it references.
#[derive(Clone, PartialEq, Eq, Debug)]
pub struct Export {
    pub name: String,
    pub item: ExportItem,
}

/// Ghost view of [`Export`].
#[verifier::ext_equal]
pub struct ExportV {
    pub name: Seq<char>,
    pub item: ExportItemV,
}

impl View for Export {
    type V = ExportV;

    open spec fn view(&self) -> ExportV {
        ExportV {
            name: self.name@,
            item: match self.item {
                ExportItem::Function(f) => ExportItemV::Function(f as int),
                ExportItem::Global(g) => ExportItemV::Global(g as int),
                ExportItem::Other => ExportItemV::Other,
            },
        }
    }
}

/// A module: identifier-indexed arenas for every entity it owns, an
/// optional start function, and whether it carries debug-name metadata.
#[derive(PartialEq, Eq, Debug)]
pub struct Module {
    pub types: Vec<Option<FuncType>>,
    pub funcs: Vec<Option<Function>>,
    pub locals: Vec<Option<ValType>>,
    pub globals: Vec<Option<Global>>,
    pub tables: Vec<Option<Table>>,
    pub imports: Vec<Option<Import>>,
    pub exports: Vec<Option<Export>>,
    pub start: Option<Id>,
    /// Whether the module carries the debug metadata that maps functions to
    /// human-readable names. Name- or pattern-based selection needs it.
    pub has_names: bool,
}

/// Ghost view of [`Module`].
#[verifier::ext_equal]
pub struct ModuleV {
    pub types: Seq<Option<TypeV>>,
    pub funcs: Seq<Option<FuncV>>,
    pub locals: Seq<Option<ValType>>,
    pub globals: Seq<Option<Global>>,
    pub tables: Seq<Option<TableV>>,
    pub imports: Seq<Option<ImportV>>,
    pub exports: Seq<Option<ExportV>>,
    pub start: Option<int>,
    pub has_names: bool,
}

/// View of an arena: each live entry viewed, each deleted entry `None`.
pub open spec fn arena_view<T: View>(s: Seq<Option<T>>) -> Seq<Option<T::V>> {
    Seq::new(s.len(), |j: int| match s[j] {
        Some(x) => Some(x@),
        None => None,
    })
}

impl View for Module {
    type V = ModuleV;

    open spec fn view(&self) -> ModuleV {
        ModuleV {
            types: arena_view(self.types@),
            funcs: arena_view(self.funcs@),
            locals: self.locals@,
            globals: self.globals@,
            tables: arena_view(self.tables@),
            imports: arena_view(self.imports@),
            exports: arena_view(self.exports@),
            start: match self.start {
                Some(f) => Some(f as int),
                None => None,
            },
            has_names: self.has_names,
        }
    }
}

/// The set of indices a bitmap marks.
pub open spec fn marked_set(bits: Seq<bool>) -> Set<int> {
    Set::new(|i: int| 0 <= i < bits.len() && bits[i])
}

/// The handle resolves to a live type.
pub open spec fn type_exists(m: ModuleV, t: int) -> bool {
    0 <= t < m.types.len() && m.types[t] is Some
}

/// The handle resolves to a live function.
pub open spec fn func_exists(m: ModuleV, f: int) -> bool {
    0 <= f < m.funcs.len() && m.funcs[f] is Some
}

/// The handle resolves to a live local slot.
pub open spec fn local_exists(m: ModuleV, l: int) -> bool {
    0 <= l < m.locals.len() && m.locals[l] is Some
}

/// The handle resolves to a live global.
pub open spec fn global_exists(m: ModuleV, g: int) -> bool {
    0 <= g < m.globals.len() && m.globals[g] is Some
}

/// The handle resolves to a live table of function references.
pub open spec fn func_table_exists(m: ModuleV, t: int) -> bool {
    0 <= t < m.tables.len() && m.tables[t] matches Some(TableV::Function { .. })
}

/// Every handle one instruction mentions resolves to a live entity.
pub open spec fn instr_wf(m: ModuleV, i: InstrV) -> bool
    decreases i,
{
    match i {
        InstrV::Trap => true,
        InstrV::Const { .. } => true,
        InstrV::LocalGet { local } => local_exists(m, local),
        InstrV::LocalSet { local, value } => local_exists(m, local) && body_wf(m, value),
        InstrV::GlobalGet { global } => global_exists(m, global),
        InstrV::GlobalSet { global, value } => global_exists(m, global) && body_wf(m, value),
        InstrV::Block { body } => body_wf(m, body),
        InstrV::Loop { body } => body_wf(m, body),
        InstrV::If { cond, then_body, else_body } => body_wf(m, cond) && body_wf(m, then_body)
            && body_wf(m, else_body),
        InstrV::Call { func, args } => func_exists(m, func) && body_wf(m, args),
        InstrV::CallIndirect { table, ty, index, args } => func_table_exists(m, table)
            && type_exists(m, ty) && body_wf(m, index) && body_wf(m, args),
    }
}

/// Every handle an instruction sequence mentions resolves to a live entity.
pub open spec fn body_wf(m: ModuleV, s: Seq<InstrV>) -> bool
    decreases s,
{
    forall|j: int| 0 <= j < s.len() ==> instr_wf(m, #[trigger] s[j])
}

/// Every handle a live function mentions resolves to a live entity.
pub open spec fn func_wf(m: ModuleV, f: FuncV) -> bool {
    &&& type_exists(m, f.ty)
    &&& f.name is Some ==> m.has_names
    &&& f.kind matches FuncKindV::Local { locals, body } ==> {
        &&& forall|j: int| 0 <= j < locals.len() ==> local_exists(m, #[trigger] locals[j])
        &&& body_wf(m, body)
    }
}

/// Every handle a live table mentions resolves to a live function.
pub open spec fn table_wf(m: ModuleV, t: TableV) -> bool {
    t matches TableV::Function { elements, segments } ==> {
        &&& forall|j: int|
            0 <= j < elements.len() ==> (#[trigger] elements[j] matches Some(f) ==> func_exists(
                m,
                f,
            ))
        &&& forall|j: int, k: int|
            0 <= j < segments.len() && 0 <= k < segments[j].funcs.len() ==> func_exists(
                m,
                #[trigger] segments[j].funcs[k],
            )
    }
}

/// A live function import declares a live, imported function.
pub open spec fn import_wf(m: ModuleV, im: Option<ImportV>) -> bool {
    match im {
        Some(im) => match im.kind {
            ImportKindV::Function(f) => func_exists(m, f) && m.funcs[f]->Some_0.kind is Imported,
            ImportKindV::Other => true,
        },
        None => true,
    }
}

/// A live export references a live item.
pub open spec fn export_wf(m: ModuleV, ex: Option<ExportV>) -> bool {
    match ex {
        Some(ex) => match ex.item {
            ExportItemV::Function(f) => func_exists(m, f),
            ExportItemV::Global(g) => global_exists(m, g),
            ExportItemV::Other => true,
        },
        None => true,
    }
}

/// The module is well formed: every cross-reference resolves to a live
/// entity, a function import declares an imported function, and export
/// names and debug names are unique.
pub open spec fn wf(m: ModuleV) -> bool {
    &&& forall|f: int|
        func_exists(m, f) ==> func_wf(m, #[trigger] m.funcs[f]->Some_0)
    &&& forall|t: int|
        0 <= t < m.tables.len() && m.tables[t] is Some ==> table_wf(
            m,
            #[trigger] m.tables[t]->Some_0,
        )
    &&& forall|i: int|
        0 <= i < m.imports.len() ==> import_wf(m, #[trigger] m.imports[i])
    &&& forall|e: int|
        0 <= e < m.exports.len() ==> export_wf(m, #[trigger] m.exports[e])
    &&& m.start matches Some(f) ==> func_exists(m, f)
    &&& forall|e1: int, e2: int|
        0 <= e1 < m.exports.len() && 0 <= e2 < m.exports.len() && e1 != e2 && m.exports[e1] is Some
            && m.exports[e2] is Some ==> #[trigger] m.exports[e1]->Some_0.name
            != #[trigger] m.exports[e2]->Some_0.name
    &&& forall|f1: int, f2: int|
        func_exists(m, f1) && func_exists(m, f2) && f1 != f2 && m.funcs[f1]->Some_0.name is Some
            && m.funcs[f2]->Some_0.name is Some ==> #[trigger] m.funcs[f1]->Some_0.name
            != #[trigger] m.funcs[f2]->Some_0.name
}

} // verus!
