use cc_bindings::ast::lower::{
    get_exports, lower_ast, maybe_span_from_range, rs_ir, Export, File,
};
use cc_bindings::ast::{
    Accessibility, Ast, Completeness, Entity, EntityId, EntityKind, Location, Range, SourceFile,
    Type, TypeIndex, TypeKind,
};
use cc_bindings::diagnostics::{Diagnostic, Diagnostics, FileId, Severity, Span};
use cc_bindings::ir::db::Database;
use cc_bindings::ir::rs;

fn range(start: u32, end: u32) -> Option<Range> {
    Some(Range {
        start: Location { file: Some(FileId(0)), offset: start },
        end: Location { file: Some(FileId(0)), offset: end },
    })
}

fn entity(kind: EntityKind, kind_name: &str, name: Option<&str>) -> Entity {
    Entity {
        kind,
        kind_name: kind_name.to_string(),
        name: name.map(|n| n.to_string()),
        range: range(0, 1),
        children: vec![],
        reference: None,
        overloads: None,
        ty: None,
        underlying_ty: None,
        accessibility: None,
        offset_of_field: None,
    }
}

fn new_ast() -> Ast {
    Ast {
        root: EntityId(0),
        entities: vec![entity(EntityKind::Other, "TranslationUnit", None)],
        types: vec![],
        files: vec![SourceFile { name: "__test__/test.cc".to_string(), contents: None }],
        diagnostics: Diagnostics::new(),
    }
}

fn add_entity(ast: &mut Ast, e: Entity) -> EntityId {
    ast.entities.push(e);
    EntityId(ast.entities.len() - 1)
}

fn add_top(ast: &mut Ast, e: Entity) -> EntityId {
    let id = add_entity(ast, e);
    ast.entities[0].children.push(id);
    id
}

fn add_type(ast: &mut Ast, t: Type) -> TypeIndex {
    ast.types.push(t);
    TypeIndex(ast.types.len() - 1)
}

fn scalar(ast: &mut Ast, kind: TypeKind, name: &str, size: u16) -> TypeIndex {
    add_type(
        ast,
        Type {
            kind,
            display_name: name.to_string(),
            pod: true,
            layout: Completeness::Complete {
                size: rs::Size::new(size),
                align: rs::Align::new(size),
            },
            fields: vec![],
            declaration: None,
        },
    )
}

fn field(ast: &mut Ast, name: &str, ty: TypeIndex, bits: u16) -> EntityId {
    let mut e = entity(EntityKind::Other, "FieldDecl", Some(name));
    e.ty = Some(ty);
    e.accessibility = Some(Accessibility::Public);
    e.offset_of_field = Some(bits);
    e.range = range(10 + bits as u32, 11 + bits as u32);
    add_entity(ast, e)
}

/// Declares `struct name { fields }` at the top level and gives back the
/// declaration and its type.
fn record(
    ast: &mut Ast,
    name: &str,
    size: u16,
    align: u16,
    fields: Vec<EntityId>,
) -> (EntityId, TypeIndex) {
    let ty = add_type(
        ast,
        Type {
            kind: TypeKind::Record,
            display_name: name.to_string(),
            pod: true,
            layout: Completeness::Complete {
                size: rs::Size::new(size),
                align: rs::Align::new(align),
            },
            fields,
            declaration: None,
        },
    );
    let mut decl = entity(EntityKind::StructDecl, "StructDecl", Some(name));
    decl.ty = Some(ty);
    let decl = add_top(ast, decl);
    ast.types[ty.0].declaration = Some(decl);
    (decl, ty)
}

/// Declares `namespace rust_export { using ::name; ... }`. A name without a
/// declaration refers to nothing.
fn export(ast: &mut Ast, names: Vec<(&str, Option<EntityId>)>) {
    let mut children = vec![];
    for (name, target) in names {
        let mut using = entity(EntityKind::UsingDeclaration, "UsingDeclaration", Some(name));
        if let Some(target) = target {
            let mut reference = entity(EntityKind::Other, "OverloadedDeclRef", Some(name));
            reference.overloads = Some(vec![target]);
            using.reference = Some(add_entity(ast, reference));
        }
        children.push(add_entity(ast, using));
    }
    let mut ns = entity(EntityKind::Namespace, "Namespace", Some("rust_export"));
    ns.children = children;
    add_top(ast, ns);
}

fn pod(ast: &mut Ast, offsets: [u16; 6], size: u16, align: u16) -> EntityId {
    let int = scalar(ast, TypeKind::Int, "int", 4);
    let ch = scalar(ast, TypeKind::CharS, "char", 1);
    let dbl = scalar(ast, TypeKind::Double, "double", 8);
    let fields = vec![
        field(ast, "a", int, offsets[0] * 8),
        field(ast, "b", int, offsets[1] * 8),
        field(ast, "c", ch, offsets[2] * 8),
        field(ast, "d", ch, offsets[3] * 8),
        field(ast, "e", dbl, offsets[4] * 8),
        field(ast, "f", dbl, offsets[5] * 8),
    ];
    record(ast, "Pod", size, align, fields).0
}

fn messages(errs: &Diagnostics) -> Vec<String> {
    errs.messages()
}

/// Every text of a diagnostic: its message, its label and its notes.
fn texts(diag: &Diagnostic) -> Vec<String> {
    let mut all = vec![diag.message.clone(), diag.label.message.clone()];
    all.extend(diag.notes.iter().cloned());
    all
}

fn mentions(errs: &Diagnostics, phrase: &str) -> bool {
    errs.diags.iter().any(|d| texts(d).iter().any(|t| t.contains(phrase)))
}

#[test]
fn pod_layout() {
    let mut ast = new_ast();
    let decl = pod(&mut ast, [0, 4, 8, 9, 16, 24], 32, 8);
    export(&mut ast, vec![("Pod", Some(decl))]);
    assert!(ast.check());

    let mut db = Database::new();
    let (ir, errs) = rs_ir(&mut db, &ast).split();
    assert_eq!(messages(&errs), Vec::<String>::new());
    let st = ir.exported_structs()[0].lookup(&db);
    assert_eq!(
        st.fields
            .iter()
            .map(|f| f.name.as_str())
            .zip(st.offsets.iter().copied())
            .collect::<Vec<_>>(),
        vec![("a", 0), ("b", 4), ("c", 8), ("d", 9), ("e", 16), ("f", 24)],
    );
    assert_eq!(rs::Size::new(32), st.size);
    assert_eq!(rs::Align::new(8), st.align);
    assert_eq!(st.repr, rs::Repr::C);
    assert_eq!(st.vis, rs::Visibility::Public);
    assert_eq!(st.name.to_text(), "Pod");
}

#[test]
fn packed() {
    let mut ast = new_ast();
    let decl = pod(&mut ast, [0, 4, 8, 9, 10, 18], 26, 1);
    export(&mut ast, vec![("Pod", Some(decl))]);

    let mut db = Database::new();
    let (ir, errs) = rs_ir(&mut db, &ast).split();
    assert!(mentions(&errs, "packed structs not supported"));
    assert_eq!(messages(&errs), vec!["unexpected field offset"]);
    assert_eq!(
        errs.diags[0].notes,
        vec![
            "expected an offset of 16, but the offset is 10",
            "packed structs not supported"
        ]
    );
    assert!(errs.has_errors());
    assert!(ir.items.is_empty());
    assert!(ir.exported_structs().is_empty());
}

#[test]
fn bitfields() {
    let mut ast = new_ast();
    let int = scalar(&mut ast, TypeKind::Int, "int", 4);
    let fields = vec![field(&mut ast, "a", int, 0), field(&mut ast, "b", int, 3)];
    let (decl, _) = record(&mut ast, "Pod", 4, 4, fields);
    export(&mut ast, vec![("Pod", Some(decl))]);

    let mut db = Database::new();
    let (ir, errs) = rs_ir(&mut db, &ast).split();
    assert_eq!(messages(&errs), vec!["bitfields are not supported"]);
    assert!(ir.items.is_empty());
    assert_eq!(db.cc_ir_from_src().exports.len(), 0);
}

fn nested(foo_align: u16, bar_size: u16, bar_align: u16, foo_at: u16) -> Ast {
    let mut ast = new_ast();
    let int = scalar(&mut ast, TypeKind::Int, "int", 4);
    let ch = scalar(&mut ast, TypeKind::CharS, "char", 1);
    let foo_fields = vec![field(&mut ast, "a", int, 0), field(&mut ast, "b", int, 32)];
    let (_, foo) = record(&mut ast, "Foo", 8, foo_align, foo_fields);
    let bar_fields = vec![
        field(&mut ast, "c", ch, 0),
        field(&mut ast, "d", ch, 8),
        field(&mut ast, "foo", foo, foo_at * 8),
    ];
    let (bar, _) = record(&mut ast, "Bar", bar_size, bar_align, bar_fields);
    export(&mut ast, vec![("Bar", Some(bar))]);
    ast
}

#[test]
fn nested_struct() {
    let ast = nested(4, 12, 4, 4);
    let mut db = Database::new();
    let (ir, errs) = rs_ir(&mut db, &ast).split();
    assert!(errs.is_empty());
    let st = ir.exported_structs()[0].lookup(&db);
    assert_eq!(rs::Size::new(12), st.size);
    assert_eq!(rs::Align::new(4), st.align);
}

#[test]
fn nested_struct_alignas() {
    let mut ast = nested(8, 16, 8, 8);
    ast.diagnostics.add(Diagnostic::warning(
        "unknown attribute",
        Span::new(FileId(0), 7, 17).label("reported by the front end"),
    ));
    let mut db = Database::new();
    let (ir, errs) = rs_ir(&mut db, &ast).split();
    assert_eq!(messages(&errs), vec!["unknown attribute"]);
    assert_eq!(errs.diags[0].severity, Severity::Warning);
    assert!(!errs.has_errors());
    let st = ir.exported_structs()[0].lookup(&db);
    assert_eq!(rs::Size::new(16), st.size);
    assert_eq!(rs::Align::new(8), st.align);
}

#[test]
fn nested_struct_is_lowered_but_private() {
    let ast = nested(4, 12, 4, 4);
    let mut db = Database::new();
    let (ir, errs) = rs_ir(&mut db, &ast).split();
    assert!(errs.is_empty());
    // Bar is reached first, Foo through its field.
    assert_eq!(ir.items.len(), 2);
    assert_eq!(ir.exports.len(), 1);
    assert_eq!(ir.items[0], ir.exports[0]);
    let bar = ir.exported_structs()[0].lookup(&db);
    assert_eq!(bar.name.to_text(), "Bar");
    let vis: Vec<_> = bar.fields.iter().map(|f| f.vis).collect();
    assert_eq!(
        vis,
        vec![rs::Visibility::Public, rs::Visibility::Public, rs::Visibility::Private]
    );
    let rs::ItemKind::Struct(foo_id) = ir.items[1];
    let foo = foo_id.lookup(&db);
    assert_eq!(foo.name.to_text(), "Foo");
    assert_eq!(foo.vis, rs::Visibility::Private);
    assert_eq!(bar.fields[2].ty(&db), rs::Ty::Struct(foo_id));
    assert_eq!(bar.fields[0].ty(&db), rs::Ty::I8);
}

#[test]
fn nested_struct_with_wrong_alignment_fails_both_ways() {
    // Foo is said to be aligned to 8, but Bar places it as if it were 4.
    let ast = nested(8, 12, 4, 4);
    let mut db = Database::new();
    let (ir, errs) = rs_ir(&mut db, &ast).split();
    assert_eq!(messages(&errs), vec!["unexpected field offset"]);
    assert_eq!(
        errs.diags[0].notes,
        vec!["expected an offset of 8, but the offset is 4", "packed structs not supported"]
    );
    // Foo itself is sound and is still emitted.
    assert_eq!(ir.items.len(), 1);
    assert!(ir.exports.is_empty());
}

#[test]
#[should_panic]
fn bad_export() {
    let mut ast = new_ast();
    let int = scalar(&mut ast, TypeKind::Int, "int", 4);
    let fields = vec![field(&mut ast, "a", int, 0)];
    record(&mut ast, "Pod", 4, 4, fields);
    export(&mut ast, vec![("Missing", None)]);

    let mut db = Database::new();
    let out = rs_ir(&mut db, &ast);
    assert_eq!(messages(&out.errs), vec!["unknown name"]);
    // There is no module to take.
    out.val().unwrap();
}

#[test]
fn unknown_export_name() {
    let mut ast = new_ast();
    let int = scalar(&mut ast, TypeKind::Int, "int", 4);
    let fields = vec![field(&mut ast, "a", int, 0)];
    record(&mut ast, "Pod", 4, 4, fields);
    export(&mut ast, vec![("Missing", None)]);

    let mut db = Database::new();
    let out = rs_ir(&mut db, &ast);
    assert_eq!(messages(&out.errs), vec!["unknown name"]);
    assert!(out.val().is_err());
}

#[test]
fn export_of_a_name_without_declarations() {
    let mut ast = new_ast();
    let mut reference = entity(EntityKind::Other, "OverloadedDeclRef", Some("f"));
    reference.overloads = Some(vec![]);
    let reference = add_entity(&mut ast, reference);
    let mut using = entity(EntityKind::UsingDeclaration, "UsingDeclaration", Some("f"));
    using.reference = Some(reference);
    let using = add_entity(&mut ast, using);
    let mut ns = entity(EntityKind::Namespace, "Namespace", Some("rust_export"));
    ns.children = vec![using];
    add_top(&mut ast, ns);

    let mut db = Database::new();
    let out = lower_ast(&mut db, &ast);
    assert_eq!(messages(&out.errs), vec!["unknown name"]);
    assert!(out.val.exports.is_empty());
}

#[test]
fn export_of_an_overloaded_name() {
    let mut ast = new_ast();
    let f = add_top(&mut ast, entity(EntityKind::Other, "FunctionDecl", Some("f")));
    let g = add_top(&mut ast, entity(EntityKind::Other, "FunctionDecl", Some("f")));
    let mut reference = entity(EntityKind::Other, "OverloadedDeclRef", Some("f"));
    reference.overloads = Some(vec![f, g]);
    let reference = add_entity(&mut ast, reference);
    let mut using = entity(EntityKind::UsingDeclaration, "UsingDeclaration", Some("f"));
    using.reference = Some(reference);
    let using = add_entity(&mut ast, using);
    let mut ns = entity(EntityKind::Namespace, "Namespace", Some("rust_export"));
    ns.children = vec![using];
    add_top(&mut ast, ns);

    let mut db = Database::new();
    let out = lower_ast(&mut db, &ast);
    assert_eq!(messages(&out.errs), vec!["unknown name"]);
    assert_eq!(
        out.errs.diags[0].label.message,
        "this name resolves to more than one declaration"
    );
}

#[test]
fn export_of_a_function() {
    let mut ast = new_ast();
    let f = add_top(&mut ast, entity(EntityKind::Other, "FunctionDecl", Some("f")));
    export(&mut ast, vec![("f", Some(f))]);
    let mut db = Database::new();
    let out = lower_ast(&mut db, &ast);
    assert_eq!(messages(&out.errs), vec!["unsupported item type FunctionDecl"]);
    assert_eq!(out.errs.diags[0].label.message, "only structs are supported");
    assert!(out.val.exports.is_empty());
}

#[test]
fn independent_exports_do_not_block_each_other() {
    let mut ast = new_ast();
    let int = scalar(&mut ast, TypeKind::Int, "int", 4);
    let bad_fields = vec![field(&mut ast, "a", int, 0), field(&mut ast, "b", int, 3)];
    let (bad, _) = record(&mut ast, "Bits", 4, 4, bad_fields);
    let good_fields = vec![field(&mut ast, "x", int, 0)];
    let (good, _) = record(&mut ast, "Good", 4, 4, good_fields);
    export(&mut ast, vec![("Missing", None), ("Bits", Some(bad)), ("Good", Some(good))]);

    let mut db = Database::new();
    let (ir, errs) = rs_ir(&mut db, &ast).split();
    assert_eq!(messages(&errs), vec!["unknown name", "bitfields are not supported"]);
    assert_eq!(ir.items.len(), 1);
    assert_eq!(ir.exported_structs()[0].lookup(&db).name.to_text(), "Good");
}

#[test]
fn export_namespace_items() {
    let mut ast = new_ast();
    let int = scalar(&mut ast, TypeKind::Int, "int", 4);
    let mut alias = entity(EntityKind::TypeAliasDecl, "TypeAliasDecl", Some("Int"));
    alias.underlying_ty = Some(int);
    let alias = add_entity(&mut ast, alias);
    let template = add_entity(
        &mut ast,
        entity(EntityKind::TypeAliasTemplateDecl, "TypeAliasTemplateDecl", Some("Vec")),
    );
    let stray = add_entity(&mut ast, entity(EntityKind::Other, "VarDecl", Some("x")));
    let mut ns = entity(EntityKind::Namespace, "Namespace", Some("rust_export"));
    ns.children = vec![alias, template, stray];
    add_top(&mut ast, ns);
    let mut other = entity(EntityKind::Namespace, "Namespace", Some("detail"));
    other.children = vec![stray];
    add_top(&mut ast, other);

    let (exports, errs) = get_exports(&ast).split();
    assert_eq!(exports.len(), 2);
    assert_eq!(exports[0].name.to_text(), "Int");
    assert_eq!(exports[0].export, Export::Type(int));
    assert_eq!(exports[1].export, Export::TemplateType(template));
    assert_eq!(messages(&errs), vec!["invalid rust_export item"]);

    // Aliases are recognized but export nothing.
    let mut db = Database::new();
    let out = lower_ast(&mut db, &ast);
    assert_eq!(messages(&out.errs), vec!["invalid rust_export item"]);
    assert!(out.val.exports.is_empty());
}

#[test]
fn struct_that_is_not_pod() {
    let mut ast = new_ast();
    let (decl, ty) = record(&mut ast, "S", 1, 1, vec![]);
    ast.types[ty.0].pod = false;
    export(&mut ast, vec![("S", Some(decl))]);
    let mut db = Database::new();
    let out = lower_ast(&mut db, &ast);
    assert_eq!(messages(&out.errs), vec!["unsupported type"]);
    assert_eq!(out.errs.diags[0].label.message, "only POD structs are supported");
}

#[test]
fn incomplete_struct() {
    let mut ast = new_ast();
    let (decl, ty) = record(&mut ast, "S", 1, 1, vec![]);
    ast.types[ty.0].layout =
        Completeness::Incomplete { reason: "cannot be determined: incomplete".to_string() };
    export(&mut ast, vec![("S", Some(decl))]);
    let mut db = Database::new();
    let out = lower_ast(&mut db, &ast);
    assert_eq!(messages(&out.errs), vec!["incomplete or dependent type"]);
    assert_eq!(out.errs.diags[0].notes, vec!["cannot be determined: incomplete"]);
}

#[test]
fn private_and_anonymous_fields_are_skipped() {
    let mut ast = new_ast();
    let int = scalar(&mut ast, TypeKind::Int, "int", 4);
    let a = field(&mut ast, "a", int, 0);
    let hidden = field(&mut ast, "hidden", int, 32);
    ast.entities[hidden.0].accessibility = Some(Accessibility::Private);
    let anon = field(&mut ast, "anon", int, 64);
    ast.entities[anon.0].name = None;
    let (decl, _) = record(&mut ast, "S", 12, 4, vec![a, hidden, anon]);
    export(&mut ast, vec![("S", Some(decl))]);
    let mut db = Database::new();
    let out = lower_ast(&mut db, &ast);
    assert!(out.errs.is_empty());
    assert_eq!(out.val.exports.len(), 1);
    let cc_bindings::ir::DefKind::CcDef(cc_bindings::ir::cc::ItemKind::Struct(id)) =
        out.val.exports[0];
    let st = id.lookup(&db);
    assert_eq!(st.fields.len(), 1);
    assert_eq!(st.offsets, vec![0]);
}

#[test]
fn field_of_unsupported_type() {
    let mut ast = new_ast();
    let ptr = scalar(&mut ast, TypeKind::Other, "int *", 8);
    let p = field(&mut ast, "p", ptr, 0);
    let (decl, _) = record(&mut ast, "S", 8, 8, vec![p]);
    export(&mut ast, vec![("S", Some(decl))]);
    let mut db = Database::new();
    let out = rs_ir(&mut db, &ast);
    assert_eq!(out.errs.diags[0].message, "unsupported type");
    assert!(out.val().is_err());
}

#[test]
fn struct_that_contains_itself() {
    let mut ast = new_ast();
    let (decl, ty) = record(&mut ast, "Ouro", 4, 4, vec![]);
    let me = field(&mut ast, "me", ty, 0);
    ast.types[ty.0].fields = vec![me];
    export(&mut ast, vec![("Ouro", Some(decl))]);
    assert!(ast.check());
    let mut db = Database::new();
    let out = lower_ast(&mut db, &ast);
    assert_eq!(out.errs.diags[0].message, "unsupported type");
    assert_eq!(out.errs.diags[0].label.message, "this type contains itself");
}

#[test]
fn span_of_a_range_across_files_is_absent() {
    let within = Range {
        start: Location { file: Some(FileId(1)), offset: 3 },
        end: Location { file: Some(FileId(1)), offset: 9 },
    };
    assert_eq!(maybe_span_from_range(Some(within)), Some(Span::new(FileId(1), 3, 9)));
    let across = Range {
        start: Location { file: Some(FileId(1)), offset: 3 },
        end: Location { file: Some(FileId(2)), offset: 9 },
    };
    assert_eq!(maybe_span_from_range(Some(across)), None);
    let nowhere = Range {
        start: Location { file: None, offset: 3 },
        end: Location { file: Some(FileId(2)), offset: 9 },
    };
    assert_eq!(maybe_span_from_range(Some(nowhere)), None);
    assert_eq!(maybe_span_from_range(None), None);
}

#[test]
fn facts_with_a_dangling_position_are_refused() {
    let mut ast = new_ast();
    assert!(ast.check());
    ast.entities[0].children.push(EntityId(7));
    assert!(!ast.check());
}

#[test]
fn file_name_and_contents() {
    let mut ast = new_ast();
    ast.files.push(SourceFile { name: "a.h".to_string(), contents: Some("int x;".to_string()) });
    assert_eq!(
        File::get_name_and_contents(&ast, FileId(0)),
        ("__test__/test.cc".to_string(), String::new())
    );
    assert_eq!(
        File::get_name_and_contents(&ast, FileId(1)),
        ("a.h".to_string(), "int x;".to_string())
    );
}

#[test]
fn field_without_offset() {
    let mut ast = new_ast();
    let int = scalar(&mut ast, TypeKind::Int, "int", 4);
    let a = field(&mut ast, "a", int, 0);
    ast.entities[a.0].offset_of_field = None;
    let (decl, _) = record(&mut ast, "S", 4, 4, vec![a]);
    export(&mut ast, vec![("S", Some(decl))]);
    let mut db = Database::new();
    let out = lower_ast(&mut db, &ast);
    assert_eq!(messages(&out.errs), vec!["incomplete or dependent type"]);
    assert!(out.val.exports.is_empty());
}

#[test]
fn field_with_a_qualified_name() {
    let mut ast = new_ast();
    let int = scalar(&mut ast, TypeKind::Int, "int", 4);
    let a = field(&mut ast, "outer::a", int, 0);
    let (decl, _) = record(&mut ast, "S", 4, 4, vec![a]);
    export(&mut ast, vec![("S", Some(decl))]);
    let mut db = Database::new();
    let out = lower_ast(&mut db, &ast);
    assert_eq!(messages(&out.errs), vec!["invalid identifier"]);
    assert!(out.val.exports.is_empty());
}

#[test]
fn field_without_type() {
    let mut ast = new_ast();
    let int = scalar(&mut ast, TypeKind::Int, "int", 4);
    let a = field(&mut ast, "a", int, 0);
    ast.entities[a.0].ty = None;
    let (decl, _) = record(&mut ast, "S", 4, 4, vec![a]);
    export(&mut ast, vec![("S", Some(decl))]);
    let mut db = Database::new();
    let out = lower_ast(&mut db, &ast);
    assert_eq!(messages(&out.errs), vec!["unsupported type"]);
    assert_eq!(out.errs.diags[0].label.message, "this type cannot be represented");
    // The struct is kept, with the error type at the field's place.
    assert_eq!(out.val.exports.len(), 1);
    let cc_bindings::ir::DefKind::CcDef(cc_bindings::ir::cc::ItemKind::Struct(id)) =
        out.val.exports[0];
    let st = id.lookup(&db);
    assert_eq!(st.fields[0].ty.as_cc(&db).val, cc_bindings::ir::cc::Ty::Error);
}

#[test]
fn struct_declaration_without_type() {
    let mut ast = new_ast();
    let (decl, _) = record(&mut ast, "S", 4, 4, vec![]);
    ast.entities[decl.0].ty = None;
    export(&mut ast, vec![("S", Some(decl))]);
    let mut db = Database::new();
    let out = lower_ast(&mut db, &ast);
    assert_eq!(messages(&out.errs), vec!["incomplete or dependent type"]);
    assert!(out.errs.diags[0].notes.is_empty());
}

#[test]
fn field_of_a_class_type() {
    let mut ast = new_ast();
    let (inner_decl, inner) = record(&mut ast, "C", 4, 4, vec![]);
    ast.entities[inner_decl.0].kind = EntityKind::Other;
    ast.entities[inner_decl.0].kind_name = "ClassDecl".to_string();
    let c = field(&mut ast, "c", inner, 0);
    let (decl, _) = record(&mut ast, "S", 4, 4, vec![c]);
    export(&mut ast, vec![("S", Some(decl))]);
    let mut db = Database::new();
    let out = lower_ast(&mut db, &ast);
    assert_eq!(messages(&out.errs), vec!["unsupported item type ClassDecl"]);
}

#[test]
fn field_of_a_record_type_without_declaration() {
    let mut ast = new_ast();
    let (_, inner) = record(&mut ast, "C", 4, 4, vec![]);
    ast.types[inner.0].declaration = None;
    let c = field(&mut ast, "c", inner, 0);
    let (decl, _) = record(&mut ast, "S", 4, 4, vec![c]);
    export(&mut ast, vec![("S", Some(decl))]);
    let mut db = Database::new();
    let out = lower_ast(&mut db, &ast);
    assert_eq!(messages(&out.errs), vec!["unsupported type"]);
}

#[test]
fn all_scalar_kinds_are_lowered() {
    let kinds = [
        (TypeKind::Void, cc_bindings::ir::cc::Ty::Void),
        (TypeKind::Bool, cc_bindings::ir::cc::Ty::Bool),
        (TypeKind::CharS, cc_bindings::ir::cc::Ty::CharS),
        (TypeKind::SChar, cc_bindings::ir::cc::Ty::SChar),
        (TypeKind::CharU, cc_bindings::ir::cc::Ty::CharU),
        (TypeKind::UChar, cc_bindings::ir::cc::Ty::UChar),
        (TypeKind::Short, cc_bindings::ir::cc::Ty::Short),
        (TypeKind::UShort, cc_bindings::ir::cc::Ty::UShort),
        (TypeKind::Int, cc_bindings::ir::cc::Ty::Int),
        (TypeKind::UInt, cc_bindings::ir::cc::Ty::UInt),
        (TypeKind::Long, cc_bindings::ir::cc::Ty::Long),
        (TypeKind::ULong, cc_bindings::ir::cc::Ty::ULong),
        (TypeKind::LongLong, cc_bindings::ir::cc::Ty::LongLong),
        (TypeKind::ULongLong, cc_bindings::ir::cc::Ty::ULongLong),
        (TypeKind::Float, cc_bindings::ir::cc::Ty::Float),
        (TypeKind::Double, cc_bindings::ir::cc::Ty::Double),
    ];
    for (kind, expected) in kinds {
        let mut ast = new_ast();
        let ty = scalar(&mut ast, kind, "t", 1);
        let ctx = cc_bindings::ast::lower::LowerCtx::new(&ast);
        let mut db = Database::new();
        let out = ast.ty(ty).lower(&ctx, &mut db, Span::absent(), 0);
        assert_eq!(out.val, expected);
        assert!(out.errs.is_empty());
    }
}

#[test]
fn the_same_struct_reached_twice_is_interned_once() {
    let mut ast = new_ast();
    let int = scalar(&mut ast, TypeKind::Int, "int", 4);
    let foo_fields = vec![field(&mut ast, "a", int, 0)];
    let (foo_decl, foo) = record(&mut ast, "Foo", 4, 4, foo_fields);
    let bar_fields = vec![field(&mut ast, "x", foo, 0), field(&mut ast, "y", foo, 32)];
    let (bar_decl, _) = record(&mut ast, "Bar", 8, 4, bar_fields);
    export(&mut ast, vec![("Bar", Some(bar_decl)), ("Foo", Some(foo_decl))]);
    let mut db = Database::new();
    let (ir, errs) = rs_ir(&mut db, &ast).split();
    assert!(errs.is_empty());
    assert_eq!(ir.items.len(), 2);
    assert_eq!(ir.exports.len(), 2);
    let bar = ir.exported_structs()[0].lookup(&db);
    assert_eq!(bar.fields[0].ty, bar.fields[1].ty);
    // Foo is exported, so the fields of its type are public.
    assert_eq!(bar.fields[0].vis, rs::Visibility::Public);
}
