//! Lowering of the front end's facts to the C++ IR.

use crate::ast::{Accessibility, Ast, Completeness, Entity, EntityId, EntityKind, Range};
use crate::ast::{Type, TypeIndex, TypeKind};
use crate::diagnostics::{err, ok, Diagnostic, DiagnosticView, Diagnostics, FileId, Outcome, Span};
use crate::diagnostics::{has_error, lemma_has_error_concat, Severity};
use crate::intern::{distinct, interned, views_of, Intern, INTERN_ID_MAX};
use crate::ir::cc;
use crate::ir::common::{is_identifier, path_components, Ident, Path, TypeId, TypeRef};
use crate::ir::db::Database;
use crate::ir::rs;
use crate::ir::source::Source;
use crate::ir::{DefKind, Module};
use vstd::prelude::*;

verus! {

/// What a name in an export namespace stands for.
#[derive(Copy, Clone, Debug, PartialEq, Eq, Hash, Structural)]
pub enum Export {
    /// A declaration brought in by a using-declaration.
    Decl(EntityId),
    /// A type given a name by an alias.
    Type(TypeIndex),
    /// An alias that takes parameters.
    TemplateType(EntityId),
}

/// An export with the name it is exported under.
#[derive(Debug)]
pub struct NamedExport {
    pub name: Path,
    pub export: Export,
}

pub struct NamedExportView {
    pub name: Seq<Seq<char>>,
    pub export: Export,
}

impl View for NamedExport {
    type V = NamedExportView;

    open spec fn view(&self) -> NamedExportView {
        NamedExportView { name: self.name@, export: self.export }
    }
}

/// The span of a range: a range that begins and ends in one file has one,
/// any other counts as absent.
pub open spec fn span_of(range: Option<Range>) -> Span {
    match range {
        Some(r) => match (r.start.file, r.end.file) {
            (Some(f), Some(g)) => if f == g {
                Span::Range { file: f, start: r.start.offset, end: r.end.offset }
            } else {
                Span::Absent
            },
            _ => Span::Absent,
        },
        None => Span::Absent,
    }
}

/// The span of a range that lies in a single file.
pub fn maybe_span_from_range(range: Option<Range>) -> (span: Option<Span>)
    ensures
        match span {
            Some(s) => s != Span::Absent && s == span_of(range),
            None => span_of(range) == Span::Absent,
        },
{
    let range = match range {
        Some(range) => range,
        None => return None,
    };
    let file = match (range.start.file, range.end.file) {
        (Some(f), Some(g)) => {
            if f == g {
                f
            } else {
                return None;
            }
        },
        _ => return None,
    };
    Some(Span::new(file, range.start.offset, range.end.offset))
}

/// The span of an entity, absent where no single file holds the entity.
pub fn span(ent: &Entity) -> (s: Span)
    ensures
        s == span_of(ent.range),
{
    match maybe_span_from_range(ent.range) {
        Some(s) => s,
        None => Span::absent(),
    }
}

pub open spec fn invalid_item_diag(at: Span) -> DiagnosticView {
    DiagnosticView::error(
        "invalid rust_export item"@,
        at,
        "only using declarations are allowed here"@,
    )
}

pub open spec fn unknown_name_diag(at: Span) -> DiagnosticView {
    DiagnosticView::error("unknown name"@, at, "this name does not resolve to a declaration"@)
}

pub open spec fn ambiguous_name_diag(at: Span) -> DiagnosticView {
    DiagnosticView::error("unknown name"@, at, "this name resolves to more than one declaration"@)
}

pub open spec fn unsupported_item_diag(kind_name: Seq<char>, at: Span) -> DiagnosticView {
    DiagnosticView::error("unsupported item type "@ + kind_name, at, "only structs are supported"@)
}

pub open spec fn not_pod_diag(at: Span) -> DiagnosticView {
    DiagnosticView::error("unsupported type"@, at, "only POD structs are supported"@)
}

pub open spec fn incomplete_diag(at: Span) -> DiagnosticView {
    DiagnosticView::error(
        "incomplete or dependent type"@,
        at,
        "only complete types can be exported"@,
    )
}

pub open spec fn bitfield_diag(at: Span) -> DiagnosticView {
    DiagnosticView::error(
        "bitfields are not supported"@,
        at,
        "only fields at byte offsets are supported"@,
    )
}

pub open spec fn unsupported_type_diag(at: Span) -> DiagnosticView {
    DiagnosticView::error("unsupported type"@, at, "this type cannot be represented"@)
}

pub open spec fn recursive_type_diag(at: Span) -> DiagnosticView {
    DiagnosticView::error("unsupported type"@, at, "this type contains itself"@)
}

pub open spec fn invalid_identifier_diag(at: Span) -> DiagnosticView {
    DiagnosticView::error("invalid identifier"@, at, "a field name cannot name a scope"@)
}

pub open spec fn session_full_diag(at: Span) -> DiagnosticView {
    DiagnosticView::error(
        "too many definitions"@,
        at,
        "the session has no handle left for this one"@,
    )
}

fn invalid_item(at: Span) -> (d: Diagnostic)
    ensures
        d@ == invalid_item_diag(at),
{
    Diagnostic::error("invalid rust_export item", at.label("only using declarations are allowed here"))
}

fn unknown_name(at: Span) -> (d: Diagnostic)
    ensures
        d@ == unknown_name_diag(at),
{
    Diagnostic::error("unknown name", at.label("this name does not resolve to a declaration"))
}

fn ambiguous_name(at: Span) -> (d: Diagnostic)
    ensures
        d@ == ambiguous_name_diag(at),
{
    Diagnostic::error("unknown name", at.label("this name resolves to more than one declaration"))
}

fn unsupported_item(kind_name: &str, at: Span) -> (d: Diagnostic)
    ensures
        d@ == unsupported_item_diag(kind_name@, at),
{
    let mut message = String::from_str("unsupported item type ");
    message.append(kind_name);
    Diagnostic::error(message.as_str(), at.label("only structs are supported"))
}

fn not_pod(at: Span) -> (d: Diagnostic)
    ensures
        d@ == not_pod_diag(at),
{
    Diagnostic::error("unsupported type", at.label("only POD structs are supported"))
}

fn incomplete(at: Span) -> (d: Diagnostic)
    ensures
        d@ == incomplete_diag(at),
{
    Diagnostic::error(
        "incomplete or dependent type",
        at.label("only complete types can be exported"),
    )
}

fn bitfield(at: Span) -> (d: Diagnostic)
    ensures
        d@ == bitfield_diag(at),
{
    Diagnostic::error(
        "bitfields are not supported",
        at.label("only fields at byte offsets are supported"),
    )
}

fn unsupported_type(at: Span) -> (d: Diagnostic)
    ensures
        d@ == unsupported_type_diag(at),
{
    Diagnostic::error("unsupported type", at.label("this type cannot be represented"))
}

fn recursive_type(at: Span) -> (d: Diagnostic)
    ensures
        d@ == recursive_type_diag(at),
{
    Diagnostic::error("unsupported type", at.label("this type contains itself"))
}

fn invalid_identifier(at: Span) -> (d: Diagnostic)
    ensures
        d@ == invalid_identifier_diag(at),
{
    Diagnostic::error("invalid identifier", at.label("a field name cannot name a scope"))
}

fn session_full(at: Span) -> (d: Diagnostic)
    ensures
        d@ == session_full_diag(at),
{
    Diagnostic::error("too many definitions", at.label("the session has no handle left for this one"))
}

/// The exports gathered so far, and what was found wrong with the rest.
pub struct Gathered {
    pub exports: Seq<NamedExportView>,
    pub errs: Seq<DiagnosticView>,
}

/// Whether an entity is a namespace that lists exports.
pub open spec fn is_export_namespace(e: Entity) -> bool {
    e.kind == EntityKind::Namespace && (e.name matches Some(name) && name@ == "rust_export"@)
}

/// What one declaration in an export namespace exports, or why it cannot.
pub open spec fn export_of(decl: Entity) -> Result<NamedExportView, DiagnosticView> {
    match decl.name {
        None => Err(invalid_item_diag(span_of(decl.range))),
        Some(name) => {
            let path = path_components(name@);
            match decl.kind {
                EntityKind::UsingDeclaration => match decl.reference {
                    Some(r) => Ok(NamedExportView { name: path, export: Export::Decl(r) }),
                    None => Err(unknown_name_diag(span_of(decl.range))),
                },
                EntityKind::TypeAliasDecl => match decl.underlying_ty {
                    Some(t) => Ok(NamedExportView { name: path, export: Export::Type(t) }),
                    None => Err(invalid_item_diag(span_of(decl.range))),
                },
                _ => Err(invalid_item_diag(span_of(decl.range))),
            }
        },
    }
}

impl Ast {
    /// The exports that the first `n` of the declarations `decls` of an
    /// export namespace add to those gathered before.
    pub open spec fn namespace_exports(&self, before: Gathered, decls: Seq<EntityId>, n: nat) -> Gathered
        decreases n,
    {
        if n == 0 {
            before
        } else {
            let prev = self.namespace_exports(before, decls, (n - 1) as nat);
            match self.decl_export(decls[n - 1]) {
                Ok(export) => Gathered { exports: prev.exports.push(export), ..prev },
                Err(diag) => Gathered { errs: prev.errs.push(diag), ..prev },
            }
        }
    }

    /// What the declaration at `id` exports. An alias that takes parameters
    /// exports itself.
    pub open spec fn decl_export(&self, id: EntityId) -> Result<NamedExportView, DiagnosticView> {
        let decl = self.entities@[id.0 as int];
        if decl.kind == EntityKind::TypeAliasTemplateDecl && decl.name is Some {
            Ok(
                NamedExportView {
                    name: path_components(decl.name->0@),
                    export: Export::TemplateType(id),
                },
            )
        } else {
            export_of(decl)
        }
    }

    /// The exports of the first `n` of the top-level entities `tops`, in
    /// the order in which they are declared.
    pub open spec fn exports_upto(&self, tops: Seq<EntityId>, n: nat) -> Gathered
        decreases n,
    {
        if n == 0 {
            Gathered { exports: Seq::empty(), errs: Seq::empty() }
        } else {
            let prev = self.exports_upto(tops, (n - 1) as nat);
            let ent = self.entities@[tops[n - 1].0 as int];
            if is_export_namespace(ent) {
                self.namespace_exports(prev, ent.children@, ent.children@.len())
            } else {
                prev
            }
        }
    }

    /// All exports of the translation unit.
    pub open spec fn exports(&self) -> Gathered {
        let root = self.entities@[self.root.0 as int];
        self.exports_upto(root.children@, root.children@.len())
    }
}

/// Adds the exports that one export namespace declares.
pub fn handle_rust_export(ast: &Ast, ns: &Entity, exports: &mut Vec<NamedExport>) -> (out: Outcome<()>)
    requires
        ast.wf(),
        ast.entity_ok(*ns),
    ensures
        ({
            let before = Gathered { exports: views_of(old(exports)@), errs: Seq::empty() };
            let after = ast.namespace_exports(before, ns.children@, ns.children@.len());
            views_of(final(exports)@) == after.exports && out.errs@ == after.errs
        }),
{
    let ghost before = Gathered { exports: views_of(exports@), errs: Seq::empty() };
    let mut diags = Diagnostics::new();
    let mut i: usize = 0;
    while i < ns.children.len()
        invariant
            ast.wf(),
            ast.entity_ok(*ns),
            i <= ns.children.len(),
            ast.namespace_exports(before, ns.children@, i as nat) == (Gathered {
                exports: views_of(exports@),
                errs: diags@,
            }),
        decreases ns.children.len() - i,
    {
        let id = ns.children[i];
        assert(ast.valid_entity(ns.children@[i as int]));
        let decl = ast.entity(id);
        let ghost prev_exports = views_of(exports@);
        let found: Result<NamedExport, Diagnostic> = match &decl.name {
            None => Err(invalid_item(span(decl))),
            Some(name) => {
                let path = Path::parse(name.as_str());
                match decl.kind {
                    EntityKind::UsingDeclaration => match decl.reference {
                        Some(r) => Ok(NamedExport { name: path, export: Export::Decl(r) }),
                        None => Err(unknown_name(span(decl))),
                    },
                    EntityKind::TypeAliasDecl => match decl.underlying_ty {
                        Some(t) => Ok(NamedExport { name: path, export: Export::Type(t) }),
                        None => Err(invalid_item(span(decl))),
                    },
                    EntityKind::TypeAliasTemplateDecl => Ok(
                        NamedExport { name: path, export: Export::TemplateType(id) },
                    ),
                    _ => Err(invalid_item(span(decl))),
                }
            },
        };
        match found {
            Ok(export) => {
                assert(ast.decl_export(id) == Ok::<NamedExportView, DiagnosticView>(export@));
                exports.push(export);
                assert(views_of(exports@) =~= prev_exports.push(export@));
            },
            Err(diag) => {
                assert(ast.decl_export(id) == Err::<NamedExportView, DiagnosticView>(diag@));
                diags.add(diag);
            },
        }
        i += 1;
    }
    Outcome::from_parts((), diags)
}

/// Gathers the exports of the translation unit: what the namespaces named
/// `rust_export` at the top level declare.
pub fn get_exports(ast: &Ast) -> (out: Outcome<Vec<NamedExport>>)
    requires
        ast.wf(),
    ensures
        views_of(out.val@) == ast.exports().exports,
        out.errs@ == ast.exports().errs,
{
    let root = ast.entity(ast.root);
    let mut errs = Diagnostics::new();
    let mut exports: Vec<NamedExport> = Vec::new();
    let wanted = String::from_str("rust_export");
    let mut i: usize = 0;
    assert(views_of(exports@) =~= Seq::empty());
    while i < root.children.len()
        invariant
            ast.wf(),
            ast.valid_entity(ast.root),
            *root == ast.entities@[ast.root.0 as int],
            wanted@ == "rust_export"@,
            i <= root.children.len(),
            ast.exports_upto(root.children@, i as nat) == (Gathered {
                exports: views_of(exports@),
                errs: errs@,
            }),
        decreases root.children.len() - i,
    {
        assert(ast.entity_ok(ast.entities@[ast.root.0 as int]));
        assert(ast.valid_entity(root.children@[i as int]));
        let ent = ast.entity(root.children[i]);
        let listed = match ent.kind {
            EntityKind::Namespace => match &ent.name {
                Some(name) => *name == wanted,
                None => false,
            },
            _ => false,
        };
        if listed {
            let ghost prev = ast.exports_upto(root.children@, i as nat);
            let ghost fresh = Gathered { exports: views_of(exports@), errs: Seq::empty() };
            let out = handle_rust_export(ast, ent, &mut exports);
            proof {
                lemma_namespace_exports_errs(ast, prev, fresh, ent.children@, ent.children@.len());
            }
            errs.append(out.errs());
        }
        i += 1;
    }
    Outcome::from_parts(exports, errs)
}

/// The diagnostics gathered before have no part in what a namespace adds.
proof fn lemma_namespace_exports_errs(
    ast: &Ast,
    before: Gathered,
    fresh: Gathered,
    decls: Seq<EntityId>,
    n: nat,
)
    requires
        fresh.exports == before.exports,
        fresh.errs == Seq::<DiagnosticView>::empty(),
    ensures
        ast.namespace_exports(before, decls, n).exports == ast.namespace_exports(
            fresh,
            decls,
            n,
        ).exports,
        ast.namespace_exports(before, decls, n).errs == before.errs + ast.namespace_exports(
            fresh,
            decls,
            n,
        ).errs,
    decreases n,
{
    if n == 0 {
        assert(before.errs + fresh.errs =~= before.errs);
    } else {
        lemma_namespace_exports_errs(ast, before, fresh, decls, (n - 1) as nat);
        let a = ast.namespace_exports(before, decls, (n - 1) as nat);
        let b = ast.namespace_exports(fresh, decls, (n - 1) as nat);
        match ast.decl_export(decls[n - 1]) {
            Ok(export) => {},
            Err(diag) => {
                assert(a.errs.push(diag) =~= before.errs + b.errs.push(diag));
            },
        }
    }
}

/// One step of lowering: the session's input after it, what it yields, and
/// what it reports.
pub struct Step<T> {
    pub src: Source,
    pub val: T,
    pub errs: Seq<DiagnosticView>,
}

/// The fields lowered so far. After a failure no further field is looked
/// at, and the struct is given up.
pub struct FieldsStep {
    pub src: Source,
    pub fields: Seq<cc::FieldView>,
    pub offsets: Seq<u16>,
    pub errs: Seq<DiagnosticView>,
    pub failed: bool,
}

/// The builtin type for a kind, if the kind is one of a builtin type.
pub open spec fn scalar_of(kind: TypeKind) -> Option<cc::Ty> {
    match kind {
        TypeKind::Void => Some(cc::Ty::Void),
        TypeKind::Bool => Some(cc::Ty::Bool),
        TypeKind::CharS => Some(cc::Ty::CharS),
        TypeKind::SChar => Some(cc::Ty::SChar),
        TypeKind::CharU => Some(cc::Ty::CharU),
        TypeKind::UChar => Some(cc::Ty::UChar),
        TypeKind::Short => Some(cc::Ty::Short),
        TypeKind::UShort => Some(cc::Ty::UShort),
        TypeKind::Int => Some(cc::Ty::Int),
        TypeKind::UInt => Some(cc::Ty::UInt),
        TypeKind::Long => Some(cc::Ty::Long),
        TypeKind::ULong => Some(cc::Ty::ULong),
        TypeKind::LongLong => Some(cc::Ty::LongLong),
        TypeKind::ULongLong => Some(cc::Ty::ULongLong),
        TypeKind::Float => Some(cc::Ty::Float),
        TypeKind::Double => Some(cc::Ty::Double),
        TypeKind::Record => None,
        TypeKind::Other => None,
    }
}

/// Whether a type can be interned: it is there, or a handle is left.
pub open spec fn type_room(src: Source, ty: cc::Ty) -> bool {
    src.types.contains(ty) || src.types.len() < INTERN_ID_MAX
}

/// The input after a type was interned.
pub open spec fn with_type(src: Source, ty: cc::Ty) -> Source {
    Source { types: interned(src.types, ty), ..src }
}

/// The reference to an interned type.
pub open spec fn type_ref_of(src: Source, ty: cc::Ty) -> TypeRef {
    TypeRef(TypeId(src.types.index_of(ty) as u32))
}

/// Whether a struct can be interned: it is there, or a handle is left.
pub open spec fn struct_room(src: Source, st: cc::StructView) -> bool {
    src.structs.contains(st) || src.structs.len() < INTERN_ID_MAX
}

/// The input after a struct was interned.
pub open spec fn with_struct(src: Source, st: cc::StructView) -> Source {
    Source { structs: interned(src.structs, st), ..src }
}

/// The handle of an interned struct.
pub open spec fn struct_id_of(src: Source, st: cc::StructView) -> cc::StructId {
    cc::StructId(src.structs.index_of(st) as u32)
}

impl Ast {
    /// Lowers a type met at `at`. A record is lowered with the struct that
    /// declares it, at most `depth` records deep.
    pub open spec fn lower_type(&self, src: Source, t: Type, at: Span, depth: nat) -> Step<cc::Ty>
        decreases depth, 0nat, 0nat,
    {
        match scalar_of(t.kind) {
            Some(scalar) => Step { src, val: scalar, errs: Seq::empty() },
            None => if t.kind == TypeKind::Record {
                match t.declaration {
                    Some(decl) => if depth == 0 {
                        Step { src, val: cc::Ty::Error, errs: seq![recursive_type_diag(at)] }
                    } else {
                        let st = self.lower_struct(
                            src,
                            path_components(t.display_name@),
                            self.entities@[decl.0 as int],
                            (depth - 1) as nat,
                        );
                        Step {
                            src: st.src,
                            val: match st.val {
                                Some(id) => cc::Ty::Struct(id),
                                None => cc::Ty::Error,
                            },
                            errs: st.errs,
                        }
                    },
                    None => Step { src, val: cc::Ty::Error, errs: seq![unsupported_type_diag(at)] },
                }
            } else {
                Step { src, val: cc::Ty::Error, errs: seq![unsupported_type_diag(at)] }
            },
        }
    }

    /// Lowers one field after those in `prev`. A field that is not public or
    /// has no name is passed over.
    pub open spec fn lower_field(&self, prev: FieldsStep, field: Entity, depth: nat) -> FieldsStep
        decreases depth, 1nat, 0nat,
    {
        let at = span_of(field.range);
        if field.accessibility matches Some(acc) && acc != Accessibility::Public {
            prev
        } else {
            match field.name {
                None => prev,
                Some(name) => {
                    let lowered = match field.ty {
                        Some(t) => self.lower_type(prev.src, self.types@[t.0 as int], at, depth),
                        None => Step {
                            src: prev.src,
                            val: cc::Ty::Error,
                            errs: seq![unsupported_type_diag(at)],
                        },
                    };
                    let errs = prev.errs + lowered.errs;
                    if !type_room(lowered.src, lowered.val) {
                        FieldsStep {
                            src: lowered.src,
                            errs: errs.push(session_full_diag(at)),
                            failed: true,
                            ..prev
                        }
                    } else {
                        let src = with_type(lowered.src, lowered.val);
                        if !is_identifier(name@) {
                            FieldsStep {
                                src,
                                errs: errs.push(invalid_identifier_diag(at)),
                                failed: true,
                                ..prev
                            }
                        } else {
                            match field.offset_of_field {
                                None => FieldsStep {
                                    src,
                                    errs: errs.push(incomplete_diag(at)),
                                    failed: true,
                                    ..prev
                                },
                                Some(bits) => if bits % 8 != 0 {
                                    FieldsStep {
                                        src,
                                        errs: errs.push(bitfield_diag(at)),
                                        failed: true,
                                        ..prev
                                    }
                                } else {
                                    FieldsStep {
                                        src,
                                        fields: prev.fields.push(
                                            cc::FieldView {
                                                name: name@,
                                                ty: type_ref_of(src, lowered.val),
                                                span: at,
                                            },
                                        ),
                                        offsets: prev.offsets.push((bits / 8) as u16),
                                        errs,
                                        failed: false,
                                    }
                                },
                            }
                        }
                    }
                },
            }
        }
    }

    /// Lowers the first `n` of a record's fields.
    pub open spec fn lower_fields(&self, src: Source, fields: Seq<EntityId>, n: nat, depth: nat) -> FieldsStep
        decreases depth, 2nat, n,
    {
        if n == 0 {
            FieldsStep {
                src,
                fields: Seq::empty(),
                offsets: Seq::empty(),
                errs: Seq::empty(),
                failed: false,
            }
        } else {
            let prev = self.lower_fields(src, fields, (n - 1) as nat, depth);
            if prev.failed {
                prev
            } else {
                self.lower_field(prev, self.entities@[fields[n - 1].0 as int], depth)
            }
        }
    }

    /// Lowers the struct that `ent` declares, under the name `name`, and
    /// interns it. Only a complete plain-old-data struct whose fields all
    /// lie at byte offsets yields a handle.
    pub open spec fn lower_struct(&self, src: Source, name: Seq<Seq<char>>, ent: Entity, depth: nat) -> Step<
        Option<cc::StructId>,
    >
        decreases depth, 3nat, 0nat,
    {
        let at = span_of(ent.range);
        if ent.kind != EntityKind::StructDecl {
            Step { src, val: None, errs: seq![unsupported_item_diag(ent.kind_name@, at)] }
        } else {
            match ent.ty {
                None => Step { src, val: None, errs: seq![incomplete_diag(at)] },
                Some(t) => {
                    let ty = self.types@[t.0 as int];
                    if !ty.pod {
                        Step { src, val: None, errs: seq![not_pod_diag(at)] }
                    } else {
                        match ty.layout {
                            Completeness::Incomplete { reason } => Step {
                                src,
                                val: None,
                                errs: seq![incomplete_diag(at).with_note(reason@)],
                            },
                            Completeness::Complete { size, align } => {
                                let fs = self.lower_fields(src, ty.fields@, ty.fields@.len(), depth);
                                let st = cc::StructView {
                                    name,
                                    fields: fs.fields,
                                    offsets: fs.offsets,
                                    methods: Seq::empty(),
                                    size,
                                    align,
                                    span: at,
                                };
                                if fs.failed {
                                    Step { src: fs.src, val: None, errs: fs.errs }
                                } else if !struct_room(fs.src, st) {
                                    Step {
                                        src: fs.src,
                                        val: None,
                                        errs: fs.errs.push(session_full_diag(at)),
                                    }
                                } else {
                                    Step {
                                        src: with_struct(fs.src, st),
                                        val: Some(struct_id_of(with_struct(fs.src, st), st)),
                                        errs: fs.errs,
                                    }
                                }
                            },
                        }
                    }
                },
            }
        }
    }
}

/// Once a field has failed, the fields after it change nothing.
pub proof fn lemma_failed_fields_stay(
    ast: &Ast,
    src: Source,
    fields: Seq<EntityId>,
    m: nat,
    n: nat,
    depth: nat,
)
    requires
        m <= n,
        ast.lower_fields(src, fields, m, depth).failed,
    ensures
        ast.lower_fields(src, fields, n, depth) == ast.lower_fields(src, fields, m, depth),
    decreases n,
{
    if m < n {
        lemma_failed_fields_stay(ast, src, fields, m, (n - 1) as nat, depth);
    }
}

/// Whether a field of a record counts: it is public or of unknown
/// accessibility, and it has a name.
pub open spec fn field_counts(field: Entity) -> bool {
    &&& !(field.accessibility matches Some(acc) && acc != Accessibility::Public)
    &&& field.name is Some
}

/// Whether a field lies at a byte offset.
pub open spec fn at_byte_offset(field: Entity) -> bool {
    field.offset_of_field matches Some(bits) && bits % 8 == 0
}

/// Where the fields of a record were all lowered, every field that counts
/// lies at a byte offset: a record with a bitfield among them is given up.
/// Where they were not, an error is reported, as the last diagnostic.
pub proof fn lemma_lowered_fields(ast: &Ast, src: Source, fields: Seq<EntityId>, n: nat, depth: nat)
    ensures
        !ast.lower_fields(src, fields, n, depth).failed ==> forall|k: int|
            0 <= k < n && field_counts(#[trigger] ast.entities@[fields[k].0 as int])
                ==> at_byte_offset(ast.entities@[fields[k].0 as int]),
        ast.lower_fields(src, fields, n, depth).failed ==> {
            let errs = ast.lower_fields(src, fields, n, depth).errs;
            errs.len() > 0 && errs.last().severity == Severity::Error && has_error(errs)
        },
        ast.lower_fields(src, fields, n, depth).fields.len() == ast.lower_fields(
            src,
            fields,
            n,
            depth,
        ).offsets.len(),
    decreases n,
{
    if n > 0 {
        lemma_lowered_fields(ast, src, fields, (n - 1) as nat, depth);
        let prev = ast.lower_fields(src, fields, (n - 1) as nat, depth);
        let now = ast.lower_fields(src, fields, n, depth);
        if !prev.failed {
            let field = ast.entities@[fields[n - 1].0 as int];
            assert(now == ast.lower_field(prev, field, depth));
            if now.failed {
                assert(now.errs[now.errs.len() - 1].severity == Severity::Error);
            } else {
                assert forall|k: int|
                    0 <= k < n && field_counts(
                        #[trigger] ast.entities@[fields[k].0 as int],
                    ) implies at_byte_offset(ast.entities@[fields[k].0 as int]) by {
                    if k < n - 1 {
                    } else {
                        assert(field_counts(field));
                    }
                }
            }
        }
    }
}

/// A struct with a field that counts and does not lie at a byte offset, a
/// bitfield for one, is not lowered: it gets no handle, and an error is
/// reported.
pub proof fn lemma_bitfield_refused(
    ast: &Ast,
    src: Source,
    name: Seq<Seq<char>>,
    ent: Entity,
    depth: nat,
    k: int,
)
    requires
        ent.ty matches Some(t) && 0 <= k < ast.types@[t.0 as int].fields@.len() && ({
            let field = ast.entities@[ast.types@[t.0 as int].fields@[k].0 as int];
            field_counts(field) && !at_byte_offset(field)
        }),
    ensures
        ast.lower_struct(src, name, ent, depth).val is None,
        has_error(ast.lower_struct(src, name, ent, depth).errs),
{
    let step = ast.lower_struct(src, name, ent, depth);
    let t = ent.ty->0;
    let ty = ast.types@[t.0 as int];
    if ent.kind != EntityKind::StructDecl {
        assert(step.errs[0].severity == Severity::Error);
    } else if !ty.pod {
        assert(step.errs[0].severity == Severity::Error);
    } else {
        match ty.layout {
            Completeness::Incomplete { reason } => {
                assert(step.errs[0].severity == Severity::Error);
            },
            Completeness::Complete { size, align } => {
                lemma_lowered_fields(ast, src, ty.fields@, ty.fields@.len(), depth);
                let fs = ast.lower_fields(src, ty.fields@, ty.fields@.len(), depth);
                if !fs.failed {
                    assert(field_counts(ast.entities@[ty.fields@[k].0 as int]));
                }
            },
        }
    }
}

/// A name that resolves to no declaration lowers to nothing, and is
/// reported as unknown.
pub proof fn lemma_unresolved_name(
    ast: &Ast,
    src: Source,
    name: Seq<Seq<char>>,
    decl_ref: Entity,
    depth: nat,
)
    requires
        decl_ref.overloads matches Some(found) ==> found@.len() == 0,
    ensures
        ast.lower_decl(src, name, decl_ref, depth) == (Step::<Option<cc::ItemKind>> {
            src,
            val: None,
            errs: seq![unknown_name_diag(span_of(decl_ref.range))],
        }),
        has_error(ast.lower_decl(src, name, decl_ref, depth).errs),
{
    let errs = ast.lower_decl(src, name, decl_ref, depth).errs;
    assert(errs[0].severity == Severity::Error);
}

/// What any one export reports is reported by the whole: an export that
/// fails with an error makes the lowering of the translation unit fail.
pub proof fn lemma_export_errors_kept(
    ast: &Ast,
    src: Source,
    exports: Seq<NamedExportView>,
    n: nat,
    depth: nat,
    i: int,
)
    requires
        0 <= i < n,
        has_error(
            ast.lower_export(
                ast.lower_exports(src, exports, i as nat, depth).src,
                ast.lower_exports(src, exports, i as nat, depth).val,
                exports[i],
                depth,
            ).errs,
        ),
    ensures
        has_error(ast.lower_exports(src, exports, n, depth).errs),
    decreases n,
{
    let prev = ast.lower_exports(src, exports, (n - 1) as nat, depth);
    let next = ast.lower_export(prev.src, prev.val, exports[n - 1], depth);
    lemma_has_error_concat(prev.errs, next.errs);
    if i < n - 1 {
        lemma_export_errors_kept(ast, src, exports, (n - 1) as nat, depth, i);
    }
}

/// What lowering may do to a session's input: add types and structs.
pub open spec fn grown(before: Source, after: Source) -> bool {
    &&& before.types.len() <= after.types.len()
    &&& before.structs.len() <= after.structs.len()
    &&& after.defs == before.defs
    &&& after.exports == before.exports
}

/// The builtin type for a kind.
fn scalar(kind: TypeKind) -> (ty: Option<cc::Ty>)
    ensures
        ty == scalar_of(kind),
{
    match kind {
        TypeKind::Void => Some(cc::Ty::Void),
        TypeKind::Bool => Some(cc::Ty::Bool),
        TypeKind::CharS => Some(cc::Ty::CharS),
        TypeKind::SChar => Some(cc::Ty::SChar),
        TypeKind::CharU => Some(cc::Ty::CharU),
        TypeKind::UChar => Some(cc::Ty::UChar),
        TypeKind::Short => Some(cc::Ty::Short),
        TypeKind::UShort => Some(cc::Ty::UShort),
        TypeKind::Int => Some(cc::Ty::Int),
        TypeKind::UInt => Some(cc::Ty::UInt),
        TypeKind::Long => Some(cc::Ty::Long),
        TypeKind::ULong => Some(cc::Ty::ULong),
        TypeKind::LongLong => Some(cc::Ty::LongLong),
        TypeKind::ULongLong => Some(cc::Ty::ULongLong),
        TypeKind::Float => Some(cc::Ty::Float),
        TypeKind::Double => Some(cc::Ty::Double),
        TypeKind::Record => None,
        TypeKind::Other => None,
    }
}

/// The state of one lowering run: the facts that it reads.
pub struct LowerCtx<'a> {
    pub ast: &'a Ast,
}

impl Type {
    /// Lowers the type, met at `at`, to a type of the C++ IR. A record is
    /// lowered with the struct that declares it.
    pub fn lower(&self, ctx: &LowerCtx, db: &mut Database, at: Span, depth: usize) -> (out: Outcome<
        cc::Ty,
    >)
        requires
            old(db).wf(),
            ctx.ast.wf(),
            ctx.ast.type_ok(*self),
        ensures
            final(db).wf(),
            grown(old(db)@, final(db)@),
            final(db)@.valid_ty(out.val),
            ({
                let step = ctx.ast.lower_type(old(db)@, *self, at, depth as nat);
                final(db)@ == step.src && out.val == step.val && out.errs@ == step.errs
            }),
        decreases depth, 0nat, 0nat,
    {
        match scalar(self.kind) {
            Some(ty) => ok(ty),
            None => {
                if self.kind == TypeKind::Record {
                    match self.declaration {
                        Some(decl) => {
                            if depth == 0 {
                                return err(cc::Ty::Error, recursive_type(at));
                            }
                            let name = Path::parse(self.display_name.as_str());
                            let (st, errs) = ctx.lower_struct(
                                db,
                                &name,
                                ctx.ast.entity(decl),
                                depth - 1,
                            ).split();
                            let ty = match st {
                                Some(id) => cc::Ty::Struct(id),
                                None => cc::Ty::Error,
                            };
                            Outcome::from_parts(ty, errs)
                        },
                        None => err(cc::Ty::Error, unsupported_type(at)),
                    }
                } else {
                    err(cc::Ty::Error, unsupported_type(at))
                }
            },
        }
    }
}

impl<'a> LowerCtx<'a> {
    pub fn new(ast: &'a Ast) -> (ctx: Self)
        ensures
            ctx.ast == ast,
    {
        LowerCtx { ast }
    }

    /// The span of an entity.
    pub fn span(&self, ent: &Entity) -> (s: Span)
        ensures
            s == span_of(ent.range),
    {
        span(ent)
    }

    /// Lowers the struct that `ent` declares and interns it.
    #[verifier::loop_isolation(false)]
    pub fn lower_struct(&self, db: &mut Database, name: &Path, ent: &Entity, depth: usize) -> (out:
        Outcome<Option<cc::StructId>>)
        requires
            old(db).wf(),
            self.ast.wf(),
            self.ast.entity_ok(*ent),
        ensures
            final(db).wf(),
            grown(old(db)@, final(db)@),
            out.val matches Some(id) ==> final(db)@.valid_struct(id),
            ({
                let step = self.ast.lower_struct(old(db)@, name@, *ent, depth as nat);
                final(db)@ == step.src && out.val == step.val && out.errs@ == step.errs
            }),
        decreases depth, 3nat, 0nat,
    {
        let at = self.span(ent);
        if ent.kind != EntityKind::StructDecl {
            return err(None, unsupported_item(ent.kind_name.as_str(), at));
        }
        let t = match ent.ty {
            Some(t) => t,
            None => {
                return err(None, incomplete(at));
            },
        };
        let ty = self.ast.ty(t);
        assert(self.ast.type_ok(self.ast.types@[t.0 as int]));
        if !ty.pod {
            return err(None, not_pod(at));
        }
        // Incomplete types are turned away in one place.
        // After that every field has an offset.

        let (size, align) = match &ty.layout {
            Completeness::Complete { size, align } => (*size, *align),
            Completeness::Incomplete { reason } => {
                return err(None, incomplete(at).with_note(reason.clone()));
            },
        };
        let ghost src0 = db@;
        let ghost ids = ty.fields@;
        let mut fields: Vec<cc::Field> = Vec::new();
        let mut offsets: Vec<u16> = Vec::new();
        let mut errs = Diagnostics::new();
        let mut i: usize = 0;
        assert(views_of(fields@) =~= Seq::empty());
        while i < ty.fields.len()
            invariant
                db.wf(),
                self.ast.wf(),
                self.ast.type_ok(*ty),
                ids == ty.fields@,
                grown(src0, db@),
                i <= ty.fields.len(),
                fields@.len() == offsets@.len(),
                forall|j: int| 0 <= j < fields@.len() ==> db@.valid_ref((#[trigger] fields@[j]).ty),
                self.ast.lower_fields(src0, ids, i as nat, depth as nat) == (FieldsStep {
                    src: db@,
                    fields: views_of(fields@),
                    offsets: offsets@,
                    errs: errs@,
                    failed: false,
                }),
            decreases ty.fields.len() - i,
        {
            let id = ty.fields[i];
            assert(self.ast.valid_entity(ids[i as int]));
            let field = self.ast.entity(id);
            assert(self.ast.entity_ok(self.ast.entities@[id.0 as int]));
            let ghost prev = self.ast.lower_fields(src0, ids, i as nat, depth as nat);
            i += 1;
            assert(self.ast.lower_fields(src0, ids, i as nat, depth as nat) == self.ast.lower_field(
                prev,
                *field,
                depth as nat,
            )) by {
                assert(ids[i - 1] == id);
                assert(!prev.failed);
            }
            if let Some(acc) = field.accessibility {
                if acc != Accessibility::Public {
                    continue ;
                }
            }
            let field_name = match &field.name {
                Some(name) => name,
                // Anonymous struct and union fields are not looked into.
                None => {
                    continue ;
                },
            };
            let field_at = self.span(field);
            let lowered = match field.ty {
                Some(t) => {
                    assert(self.ast.type_ok(self.ast.types@[t.0 as int]));
                    self.ast.ty(t).lower(self, db, field_at, depth)
                },
                None => err(cc::Ty::Error, unsupported_type(field_at)),
            };
            let (field_ty, field_ty_errs) = lowered.split();
            errs.append(field_ty_errs);
            let ghost src1 = db@;
            let ty_ref = match db.try_intern_cc_type(field_ty) {
                Some(r) => r,
                None => {
                    errs.add(session_full(field_at));
                    proof {
                        assert(db@ == src1);
                        lemma_failed_fields_stay(
                            self.ast,
                            src0,
                            ids,
                            i as nat,
                            ids.len(),
                            depth as nat,
                        );
                    }
                    return Outcome::from_parts(None, errs);
                },
            };
            proof {
                assert(db@ == with_type(src1, field_ty));
                crate::intern::lemma_interned(src1.types, field_ty);
                assert(ty_ref == type_ref_of(db@, field_ty)) by {
                    let k = db@.types.index_of(field_ty);
                    assert(db@.types[ty_ref.index()] == field_ty);
                    assert(db@.types.contains(field_ty));
                    assert(0 <= k < db@.types.len() && db@.types[k] == field_ty);
                    assert(k == ty_ref.index());
                }
            }
            let ident = match Ident::parse(field_name.as_str()) {
                Some(ident) => ident,
                None => {
                    errs.add(invalid_identifier(field_at));
                    proof {
                        lemma_failed_fields_stay(
                            self.ast,
                            src0,
                            ids,
                            i as nat,
                            ids.len(),
                            depth as nat,
                        );
                    }
                    return Outcome::from_parts(None, errs);
                },
            };
            let offset: u16 = match field.offset_of_field {
                Some(bits) => bits,
                None => {
                    errs.add(incomplete(field_at));
                    proof {
                        lemma_failed_fields_stay(
                            self.ast,
                            src0,
                            ids,
                            i as nat,
                            ids.len(),
                            depth as nat,
                        );
                    }
                    return Outcome::from_parts(None, errs);
                },
            };
            if offset % 8 != 0 {
                errs.add(bitfield(field_at));
                proof {
                    lemma_failed_fields_stay(self.ast, src0, ids, i as nat, ids.len(), depth as nat);
                }
                return Outcome::from_parts(None, errs);
            }
            let ghost before = views_of(fields@);
            let new_field = cc::Field { name: ident, ty: ty_ref, span: field_at };
            fields.push(new_field);
            offsets.push(offset / 8);
            assert(views_of(fields@) =~= before.push(new_field@));
        }
        let st = cc::Struct {
            name: name.duplicate(),
            fields,
            offsets,
            methods: Vec::new(),
            size,
            align,
            span: at,
        };
        let align_bytes: u16 = align.get();
        proof {
            assert(views_of(st.methods@) =~= Seq::<cc::FunctionView>::empty());
            assert(st.align.value() == align_bytes);
        }
        let ghost src2 = db@;
        let ghost stv = st@;
        assert(src2.struct_ok(stv, src2.structs.len() as int)) by {
            assert forall|j: int| 0 <= j < stv.fields.len() implies src2.ref_below(
                #[trigger] stv.fields[j].ty,
                src2.structs.len() as int,
            ) by {
                assert(stv.fields[j] == st.fields@[j]@);
                assert(src2.valid_ref(st.fields@[j].ty));
                assert(src2.valid_ty(src2.types[stv.fields[j].ty.index()]));
            }
        }
        match db.try_intern_cc_struct(st) {
            Some(id) => {
                proof {
                    crate::intern::lemma_interned(src2.structs, stv);
                    assert(id == struct_id_of(db@, stv)) by {
                        let k = db@.structs.index_of(stv);
                        assert(db@.structs[id.index()] == stv);
                        assert(db@.structs.contains(stv));
                        assert(0 <= k < db@.structs.len() && db@.structs[k] == stv);
                        assert(k == id.index());
                    }
                    assert(db@ == with_struct(src2, stv));
                }
                Outcome::from_parts(Some(id), errs)
            },
            None => {
                errs.add(session_full(at));
                assert(db@ == src2);
                Outcome::from_parts(None, errs)
            },
        }
    }
}

/// Whether an export names only entities and types of the facts.
pub open spec fn export_ok(ast: &Ast, export: Export) -> bool {
    match export {
        Export::Decl(r) => ast.valid_entity(r),
        Export::Type(t) => ast.valid_type(t),
        Export::TemplateType(e) => ast.valid_entity(e),
    }
}

/// Whether all of a list of exports name only entities and types of the
/// facts.
pub open spec fn exports_ok(ast: &Ast, exports: Seq<NamedExportView>) -> bool {
    forall|i: int| 0 <= i < exports.len() ==> export_ok(ast, (#[trigger] exports[i]).export)
}

impl Ast {
    /// Lowers the declaration that an exported name refers to. The name has
    /// to resolve to one declaration, that of a struct.
    pub open spec fn lower_decl(&self, src: Source, name: Seq<Seq<char>>, decl_ref: Entity, depth: nat) -> Step<
        Option<cc::ItemKind>,
    > {
        let at = span_of(decl_ref.range);
        match decl_ref.overloads {
            None => Step { src, val: None, errs: seq![unknown_name_diag(at)] },
            Some(found) => if found@.len() == 0 {
                Step { src, val: None, errs: seq![unknown_name_diag(at)] }
            } else if found@.len() > 1 {
                Step { src, val: None, errs: seq![ambiguous_name_diag(at)] }
            } else {
                let ent = self.entities@[found@[0].0 as int];
                if ent.kind == EntityKind::StructDecl {
                    let st = self.lower_struct(src, name, ent, depth);
                    Step {
                        src: st.src,
                        val: match st.val {
                            Some(id) => Some(cc::ItemKind::Struct(id)),
                            None => None,
                        },
                        errs: st.errs,
                    }
                } else {
                    Step {
                        src,
                        val: None,
                        errs: seq![unsupported_item_diag(ent.kind_name@, span_of(ent.range))],
                    }
                }
            },
        }
    }

    /// Lowers one export and adds what it defines to the module's exports.
    /// Aliases are recognized and export nothing.
    pub open spec fn lower_export(
        &self,
        src: Source,
        exported: Seq<DefKind>,
        export: NamedExportView,
        depth: nat,
    ) -> Step<Seq<DefKind>> {
        match export.export {
            Export::Decl(r) => {
                let decl = self.lower_decl(src, export.name, self.entities@[r.0 as int], depth);
                Step {
                    src: decl.src,
                    val: match decl.val {
                        Some(kind) => interned(exported, DefKind::CcDef(kind)),
                        None => exported,
                    },
                    errs: decl.errs,
                }
            },
            Export::Type(_) => Step { src, val: exported, errs: Seq::empty() },
            Export::TemplateType(_) => Step { src, val: exported, errs: Seq::empty() },
        }
    }

    /// Lowers the first `n` exports, in order.
    pub open spec fn lower_exports(&self, src: Source, exports: Seq<NamedExportView>, n: nat, depth: nat) -> Step<
        Seq<DefKind>,
    >
        decreases n,
    {
        if n == 0 {
            Step { src, val: Seq::empty(), errs: Seq::empty() }
        } else {
            let prev = self.lower_exports(src, exports, (n - 1) as nat, depth);
            let next = self.lower_export(prev.src, prev.val, exports[n - 1], depth);
            Step { src: next.src, val: next.val, errs: prev.errs + next.errs }
        }
    }

    /// Lowers the translation unit: gathers its exports and lowers each. The
    /// value is the list of exported definitions. What the front end
    /// reported comes first among the diagnostics.
    pub open spec fn lower_ast(&self, src: Source) -> Step<Seq<DefKind>> {
        let gathered = self.exports();
        let lowered = self.lower_exports(
            src,
            gathered.exports,
            gathered.exports.len(),
            self.types@.len(),
        );
        Step {
            src: lowered.src,
            val: lowered.val,
            errs: self.diagnostics@ + gathered.errs + lowered.errs,
        }
    }
}

/// The exports gathered from well-formed facts name only what the facts
/// hold.
pub proof fn lemma_exports_ok(ast: &Ast)
    requires
        ast.wf(),
    ensures
        exports_ok(ast, ast.exports().exports),
{
    let root = ast.entities@[ast.root.0 as int];
    assert(ast.entity_ok(root));
    lemma_exports_upto_ok(ast, root.children@, root.children@.len());
}

proof fn lemma_exports_upto_ok(ast: &Ast, tops: Seq<EntityId>, n: nat)
    requires
        ast.wf(),
        n <= tops.len(),
        crate::ast::entities_below(tops, ast.entities@.len()),
    ensures
        exports_ok(ast, ast.exports_upto(tops, n).exports),
    decreases n,
{
    if n > 0 {
        lemma_exports_upto_ok(ast, tops, (n - 1) as nat);
        let prev = ast.exports_upto(tops, (n - 1) as nat);
        assert(ast.valid_entity(tops[n - 1]));
        let ent = ast.entities@[tops[n - 1].0 as int];
        assert(ast.entity_ok(ent));
        if is_export_namespace(ent) {
            lemma_namespace_exports_ok(ast, prev, ent.children@, ent.children@.len());
        }
    }
}

proof fn lemma_namespace_exports_ok(ast: &Ast, before: Gathered, decls: Seq<EntityId>, n: nat)
    requires
        ast.wf(),
        n <= decls.len(),
        crate::ast::entities_below(decls, ast.entities@.len()),
        exports_ok(ast, before.exports),
    ensures
        exports_ok(ast, ast.namespace_exports(before, decls, n).exports),
    decreases n,
{
    if n > 0 {
        lemma_namespace_exports_ok(ast, before, decls, (n - 1) as nat);
        assert(ast.valid_entity(decls[n - 1]));
        assert(ast.entity_ok(ast.entities@[decls[n - 1].0 as int]));
    }
}

impl<'a> LowerCtx<'a> {
    /// Lowers the declaration that an exported name refers to.
    pub fn lower_decl(&self, db: &mut Database, name: &Path, decl_ref: &Entity, depth: usize) -> (out:
        Outcome<Option<cc::ItemKind>>)
        requires
            old(db).wf(),
            self.ast.wf(),
            self.ast.entity_ok(*decl_ref),
        ensures
            final(db).wf(),
            grown(old(db)@, final(db)@),
            out.val matches Some(kind) ==> final(db)@.valid_def(DefKind::CcDef(kind)),
            ({
                let step = self.ast.lower_decl(old(db)@, name@, *decl_ref, depth as nat);
                final(db)@ == step.src && out.val == step.val && out.errs@ == step.errs
            }),
    {
        let at = self.span(decl_ref);
        let overloads = match &decl_ref.overloads {
            Some(found) => found,
            None => {
                return err(None, unknown_name(at));
            },
        };
        if overloads.len() == 0 {
            return err(None, unknown_name(at));
        }
        if overloads.len() > 1 {
            return err(None, ambiguous_name(at));
        }
        assert(self.ast.valid_entity(overloads@[0]));
        let ent = self.ast.entity(overloads[0]);
        assert(self.ast.entity_ok(self.ast.entities@[overloads@[0].0 as int]));
        match ent.kind {
            EntityKind::StructDecl => {
                let (st, errs) = self.lower_struct(db, name, ent, depth).split();
                let item = match st {
                    Some(id) => Some(cc::ItemKind::Struct(id)),
                    None => None,
                };
                Outcome::from_parts(item, errs)
            },
            _ => err(None, unsupported_item(ent.kind_name.as_str(), self.span(ent))),
        }
    }

    /// Lowers one export and adds what it defines to the module's exports.
    pub fn lower_export(
        &self,
        db: &mut Database,
        name: &Path,
        export: &Export,
        mdl: &mut Module,
        depth: usize,
    ) -> (out: Outcome<()>)
        requires
            old(db).wf(),
            self.ast.wf(),
            export_ok(self.ast, *export),
            crate::ir::reach::all_valid(old(db)@, old(mdl).exports@),
        ensures
            final(db).wf(),
            grown(old(db)@, final(db)@),
            crate::ir::reach::all_valid(final(db)@, final(mdl).exports@),
            distinct(old(mdl).exports@) ==> distinct(final(mdl).exports@),
            ({
                let step = self.ast.lower_export(
                    old(db)@,
                    old(mdl).exports@,
                    NamedExportView { name: name@, export: *export },
                    depth as nat,
                );
                final(db)@ == step.src && final(mdl).exports@ == step.val && out.errs@ == step.errs
            }),
    {
        match export {
            Export::Decl(decl_ref) => {
                assert(self.ast.entity_ok(self.ast.entities@[decl_ref.0 as int]));
                let (item, errs) = self.lower_decl(
                    db,
                    name,
                    self.ast.entity(*decl_ref),
                    depth,
                ).split();
                proof {
                    assert forall|i: int| 0 <= i < mdl.exports@.len() implies db@.valid_def(
                        #[trigger] mdl.exports@[i],
                    ) by {
                        assert(old(db)@.valid_def(mdl.exports@[i]));
                    }
                }
                proof {
                    if let Some(kind) = item {
                        if distinct(mdl.exports@) {
                            crate::intern::lemma_interned(mdl.exports@, DefKind::CcDef(kind));
                        }
                    }
                }
                if let Some(kind) = item {
                    let def = DefKind::from(kind);
                    if !crate::ir::contains_def(&mdl.exports, def) {
                        mdl.exports.push(def);
                    }
                }
                Outcome::from_parts((), errs)
            },
            Export::Type(_) => ok(()),
            Export::TemplateType(_) => ok(()),
        }
    }

    /// Lowers the exports, in order, into a module.
    pub fn lower(&self, db: &mut Database, exports: &Vec<NamedExport>) -> (out: Outcome<Module>)
        requires
            old(db).wf(),
            self.ast.wf(),
            exports_ok(self.ast, views_of(exports@)),
        ensures
            final(db).wf(),
            grown(old(db)@, final(db)@),
            crate::ir::reach::all_valid(final(db)@, out.val.exports@),
            distinct(out.val.exports@),
            ({
                let step = self.ast.lower_exports(
                    old(db)@,
                    views_of(exports@),
                    exports@.len(),
                    self.ast.types@.len(),
                );
                final(db)@ == step.src && out.val.exports@ == step.val && out.errs@ == step.errs
            }),
    {
        let ghost src0 = db@;
        let depth: usize = self.ast.types.len();
        let mut errs = Diagnostics::new();
        let mut mdl = Module::new();
        let mut i: usize = 0;
        assert(mdl.exports@ =~= Seq::empty());
        while i < exports.len()
            invariant
                db.wf(),
                self.ast.wf(),
                exports_ok(self.ast, views_of(exports@)),
                depth == self.ast.types@.len(),
                grown(src0, db@),
                crate::ir::reach::all_valid(db@, mdl.exports@),
                distinct(mdl.exports@),
                i <= exports.len(),
                self.ast.lower_exports(src0, views_of(exports@), i as nat, depth as nat) == (Step {
                    src: db@,
                    val: mdl.exports@,
                    errs: errs@,
                }),
            decreases exports.len() - i,
        {
            let export = &exports[i];
            assert(views_of(exports@)[i as int] == export@);
            assert(export_ok(self.ast, views_of(exports@)[i as int].export));
            let out = self.lower_export(db, &export.name, &export.export, &mut mdl, depth);
            errs.append(out.errs());
            i += 1;
        }
        Outcome::from_parts(mdl, errs)
    }
}

/// Lowers the facts on a translation unit to the C++ IR: interns the structs
/// that are exported and what they are made of, and hands back the module
/// that exports them.
pub fn lower_ast(db: &mut Database, ast: &Ast) -> (out: Outcome<Module>)
    requires
        old(db).wf(),
        ast.wf(),
    ensures
        final(db).wf(),
        grown(old(db)@, final(db)@),
        crate::ir::reach::all_valid(final(db)@, out.val.exports@),
        distinct(out.val.exports@),
        ({
            let step = ast.lower_ast(old(db)@);
            final(db)@ == step.src && out.val.exports@ == step.val && out.errs@ == step.errs
        }),
{
    let mut errs = ast.diagnostics.duplicate();
    let (exports, gathered) = get_exports(ast).split();
    errs.append(gathered);
    proof {
        lemma_exports_ok(ast);
    }
    let ctx = LowerCtx::new(ast);
    let (module, more) = ctx.lower(db, &exports).split();
    errs.append(more);
    Outcome::from_parts(module, errs)
}

/// What `rs_ir` yields for a session input `src` after the facts were
/// lowered to it with the diagnostics `before`: the Rust module of what the
/// exports reach, and all diagnostics.
pub open spec fn is_rs_ir(
    src: Source,
    before: Seq<DiagnosticView>,
    items: Seq<rs::ItemKind>,
    exports: Seq<rs::ItemKind>,
    errs: Seq<DiagnosticView>,
) -> bool {
    let order = src.reachable(src.exports);
    &&& items == src.bindings_items(order, None, order.len())
    &&& exports == src.bindings_items(order, Some(src.exports), order.len())
    &&& errs == before + src.bindings_diags(order, order.len())
}

/// Takes the facts on a translation unit all the way: lowers them to the
/// C++ IR, makes the exports the session's module, and lowers what they
/// reach to Rust. All diagnostics are reported, those of the first stage
/// first.
pub fn rs_ir(db: &mut Database, ast: &Ast) -> (out: Outcome<rs::Module>)
    requires
        old(db).wf(),
        ast.wf(),
    ensures
        final(db).wf(),
        ({
            let low = ast.lower_ast(old(db)@);
            let src = Source { exports: low.val, ..low.src };
            final(db)@ == src && is_rs_ir(src, low.errs, out.val.items@, out.val.exports@, out.errs@)
        }),
        forall|i: int|
            0 <= i < out.val.items@.len() ==> final(db).is_lowered(
                cc::StructId((#[trigger] out.val.items@[i]).struct_id().0),
            ),
        forall|i: int|
            0 <= i < out.val.exports@.len() ==> final(db).is_lowered(
                cc::StructId((#[trigger] out.val.exports@[i]).struct_id().0),
            ),
        out.val.wf(),
{
    let (module, errs) = lower_ast(db, ast).split();
    let mut errs = errs;
    db.set_module(module);
    let (bindings, more) = db.rs_bindings().split();
    errs.append(more);
    Outcome::from_parts(bindings, errs)
}

/// A source file of the translation unit.
pub struct File;

impl File {
    /// The name and the text of a file. A file that could not be read has
    /// an empty text.
    pub fn get_name_and_contents(ast: &Ast, id: FileId) -> (res: (String, String))
        requires
            id.0 < ast.files@.len(),
        ensures
            res.0@ == ast.files@[id.0 as int].name@,
            res.1@ == (match ast.files@[id.0 as int].contents {
                Some(text) => text@,
                None => Seq::<char>::empty(),
            }),
    {
        let file = &ast.files[id.0 as usize];
        let contents = match &file.contents {
            Some(text) => text.clone(),
            None => String::new(),
        };
        (file.name.clone(), contents)
    }
}

} // verus!
