use cc_bindings::diagnostics::{FileId, Span};
use cc_bindings::ir::cc;
use cc_bindings::ir::common::{Align, Ident, Path, Size, TypeRef};
use cc_bindings::ir::db::Database;
use cc_bindings::ir::rs;
use cc_bindings::ir::{contains_def, Def, DefKind, Module};

fn at(offset: u32) -> Span {
    Span::new(FileId(0), offset, offset + 1)
}

fn cc_field(db: &mut Database, name: &str, ty: cc::Ty) -> cc::Field {
    cc::Field { name: Ident::new(name), ty: db.intern_cc_type(ty), span: at(1) }
}

fn cc_struct(
    db: &mut Database,
    name: &str,
    fields: Vec<(&str, cc::Ty, u16)>,
    size: u16,
    align: u16,
) -> cc::StructId {
    let mut lowered = vec![];
    let mut offsets = vec![];
    for (field, ty, offset) in fields {
        lowered.push(cc_field(db, field, ty));
        offsets.push(offset);
    }
    db.intern_cc_struct(cc::Struct {
        name: Path::parse(name),
        fields: lowered,
        offsets,
        methods: vec![],
        size: Size::new(size),
        align: Align::new(align),
        span: at(0),
    })
}

fn export(db: &mut Database, ids: Vec<cc::StructId>) -> Module {
    let exports: Vec<DefKind> = ids.iter().map(|id| DefKind::from_struct(*id)).collect();
    db.set_module(Module { exports: exports.clone() });
    Module { exports }
}

const SCALARS: [(cc::Ty, rs::Ty, u16); 19] = [
    (cc::Ty::Void, rs::Ty::Unit, 0),
    (cc::Ty::Short, rs::Ty::I16, 2),
    (cc::Ty::UShort, rs::Ty::U16, 2),
    (cc::Ty::Int, rs::Ty::I32, 4),
    (cc::Ty::UInt, rs::Ty::U32, 4),
    (cc::Ty::Long, rs::Ty::I64, 8),
    (cc::Ty::ULong, rs::Ty::U64, 8),
    (cc::Ty::LongLong, rs::Ty::I64, 8),
    (cc::Ty::ULongLong, rs::Ty::U64, 8),
    (cc::Ty::CharS, rs::Ty::I8, 1),
    (cc::Ty::SChar, rs::Ty::I8, 1),
    (cc::Ty::CharU, rs::Ty::U8, 1),
    (cc::Ty::UChar, rs::Ty::U8, 1),
    (cc::Ty::Size, rs::Ty::USize, 8),
    (cc::Ty::SSize, rs::Ty::ISize, 8),
    (cc::Ty::PtrDiff, rs::Ty::ISize, 8),
    (cc::Ty::Float, rs::Ty::F32, 4),
    (cc::Ty::Double, rs::Ty::F64, 8),
    (cc::Ty::Bool, rs::Ty::Bool, 1),
];

#[test]
fn every_scalar_maps_to_one_rust_scalar() {
    let mut db = Database::new();
    for (cc_ty, rs_ty, size) in SCALARS {
        let out = cc_ty.to_rust(&mut db);
        assert_eq!(out.val, rs_ty);
        assert!(out.errs.is_empty());
        // The same kind yields the same kind again.
        assert_eq!(cc_ty.to_rust(&mut db).val, rs_ty);
        assert_eq!(cc_ty.rust_type(), rs_ty);
        assert_eq!(rs_ty.size(&db), Size::new(size));
        assert_eq!(rs_ty.align(&db), Align::new(if size == 0 { 1 } else { size }));
        assert!(cc_ty.is_builtin());
        assert!(!cc_ty.is_error());
        assert!(cc_ty.is_visible(&db));
    }
    let out = cc::Ty::Error.to_rust(&mut db);
    assert_eq!(out.val, rs::Ty::Error);
    assert!(out.errs.is_empty());
    assert_eq!(rs::Ty::Error.size(&db), Size::new(0));
    assert_eq!(rs::Ty::Error.align(&db), Align::new(1));
}

#[test]
fn type_classes() {
    let integral = [
        cc::Ty::Short,
        cc::Ty::UShort,
        cc::Ty::Int,
        cc::Ty::UInt,
        cc::Ty::Long,
        cc::Ty::ULong,
        cc::Ty::LongLong,
        cc::Ty::ULongLong,
        cc::Ty::CharS,
        cc::Ty::CharU,
        cc::Ty::SChar,
        cc::Ty::UChar,
        cc::Ty::Size,
        cc::Ty::SSize,
        cc::Ty::PtrDiff,
    ];
    for ty in integral {
        assert!(ty.is_integral() && !ty.is_floating() && ty.is_builtin() && !ty.is_error());
    }
    for ty in [cc::Ty::Float, cc::Ty::Double] {
        assert!(!ty.is_integral() && ty.is_floating() && ty.is_builtin() && !ty.is_error());
    }
    for ty in [cc::Ty::Void, cc::Ty::Bool] {
        assert!(!ty.is_integral() && !ty.is_floating() && ty.is_builtin() && !ty.is_error());
    }
    let st = cc::Ty::Struct(cc::StructId(0));
    assert!(!st.is_integral() && !st.is_floating() && !st.is_builtin() && !st.is_error());
    let e = cc::Ty::Error;
    assert!(!e.is_integral() && !e.is_floating() && !e.is_builtin() && e.is_error());
    let db = Database::new();
    assert!(!e.is_visible(&db));
    assert!(!st.is_visible(&db));
}

#[test]
fn interning_in_the_session() {
    let mut db = Database::new();
    let int = db.intern_cc_type(cc::Ty::Int);
    let dbl = db.intern_cc_type(cc::Ty::Double);
    assert_eq!(db.intern_cc_type(cc::Ty::Int), int);
    assert_ne!(int, dbl);
    assert_eq!(db.cc_type(dbl), cc::Ty::Double);
    assert_eq!(int.as_cc(&db).val, cc::Ty::Int);
    assert!(int.as_cc(&db).errs.is_empty());
    assert_eq!(db.try_intern_cc_type(cc::Ty::Bool).map(|r| db.cc_type(r)), Some(cc::Ty::Bool));

    let a = cc_struct(&mut db, "A", vec![("x", cc::Ty::Int, 0)], 4, 4);
    let b = cc_struct(&mut db, "B", vec![("x", cc::Ty::Int, 0)], 4, 4);
    let again = cc_struct(&mut db, "A", vec![("x", cc::Ty::Int, 0)], 4, 4);
    assert_eq!(a, again);
    assert_ne!(a, b);
    assert_eq!(a.lookup(&db).name.to_text(), "A");
    assert_eq!(db.cc_struct(b).name.to_text(), "B");
    assert_eq!(db.lookup_intern_cc_struct(b).offsets, vec![0]);

    let def = db.intern_def(DefKind::from_struct(b));
    assert_eq!(def, Def(0));
    assert_eq!(db.intern_def(DefKind::from(cc::ItemKind::from(b))), def);
    assert_eq!(def.lookup(&db), DefKind::CcDef(cc::ItemKind::Struct(b)));
    assert_eq!(db.lookup_intern_def(def), DefKind::from_struct(b));
}

#[test]
fn padding_is_taken_into_account() {
    let mut db = Database::new();
    let id = cc_struct(
        &mut db,
        "S",
        vec![("a", cc::Ty::CharS, 0), ("b", cc::Ty::Int, 4), ("c", cc::Ty::Short, 8)],
        12,
        4,
    );
    let out = db.rs_struct_from_cc(id);
    assert!(out.errs.is_empty());
    assert_eq!(out.val, rs::StructId(id.0));
    let st = out.val.lookup(&db);
    assert_eq!(st.cc_id, id);
    assert_eq!(st.offsets, vec![0, 4, 8]);
    assert_eq!(st.vis, rs::Visibility::Private);
    assert_eq!(db.lookup_intern_struct(out.val).size, Size::new(12));
}

#[test]
fn field_placed_too_far_is_reported_without_mention_of_packing() {
    let mut db = Database::new();
    let id = cc_struct(&mut db, "S", vec![("a", cc::Ty::CharS, 0), ("b", cc::Ty::CharS, 2)], 3, 1);
    let out = db.rs_struct_from_cc(id);
    assert_eq!(out.errs.messages(), vec!["unexpected field offset"]);
    assert_eq!(out.errs.get(0).label.message, "this field was not at the expected offset");
    assert_eq!(out.errs.get(0).label.span, at(1));
    assert_eq!(out.errs.get(0).notes, vec!["expected an offset of 1, but the offset is 2"]);
}

#[test]
fn wrong_size_and_alignment_are_reported_together() {
    let mut db = Database::new();
    let id = cc_struct(&mut db, "S", vec![("a", cc::Ty::Int, 0), ("b", cc::Ty::CharS, 4)], 5, 1);
    let out = db.rs_struct_from_cc(id);
    assert_eq!(out.errs.messages(), vec!["unexpected struct layout"]);
    let diag = out.errs.get(0);
    assert_eq!(diag.label.message, "this struct does not have a standard C layout");
    assert_eq!(diag.label.span, at(0));
    assert_eq!(
        diag.notes,
        vec![
            "expected a size of 8, but the size is 5",
            "expected an alignment of 4, but the alignment is 1",
            "packed structs not supported"
        ]
    );

    let id = cc_struct(&mut db, "T", vec![("a", cc::Ty::Int, 0)], 8, 4);
    let out = db.rs_struct_from_cc(id);
    assert_eq!(out.errs.get(0).notes, vec!["expected a size of 4, but the size is 8"]);

    // A struct may ask for more alignment than its fields.
    let id = cc_struct(&mut db, "U", vec![("a", cc::Ty::Int, 0)], 8, 8);
    assert!(db.rs_struct_from_cc(id).errs.is_empty());
}

#[test]
fn check_offsets_on_its_own() {
    let mut db = Database::new();
    let id = cc_struct(&mut db, "S", vec![("a", cc::Ty::Int, 0), ("b", cc::Ty::Double, 8)], 16, 8);
    let st = id.lookup(&db);
    let fields: Vec<rs::Field> = st
        .fields
        .iter()
        .map(|f| rs::Field {
            name: Ident::new(f.name.as_str()),
            ty: f.ty,
            span: f.span,
            vis: rs::Visibility::Public,
        })
        .collect();
    assert!(st.check_offsets(&db, &fields).errs.is_empty());
    let (lowered, errs) = st.to_rust(&mut db, id).split();
    assert!(errs.is_empty());
    assert_eq!(lowered.repr, rs::Repr::C);
    assert_eq!(lowered.fields.len(), 2);
}

#[test]
fn lowering_is_cached_until_the_input_changes() {
    let mut db = Database::new();
    let id = cc_struct(&mut db, "S", vec![("a", cc::Ty::Int, 0)], 4, 2);
    assert!(db.cached(id).is_none());
    let first = db.rs_struct_from_cc(id).errs.messages();
    assert_eq!(first, vec!["unexpected struct layout"]);
    assert!(db.cached(id).is_some());
    assert_eq!(db.rs_struct_from_cc(id).errs.messages(), first);
    assert_eq!(db.cached(id).map(|l| l.st.vis), Some(rs::Visibility::Private));
    export(&mut db, vec![id]);
    assert!(db.cached(id).is_none());
    db.rs_struct_from_cc(id);
    assert_eq!(db.cached(id).map(|l| l.st.vis), Some(rs::Visibility::Public));
}

#[test]
fn errors_of_a_nested_struct_show_in_the_outer_one() {
    let mut db = Database::new();
    let inner = cc_struct(&mut db, "Inner", vec![("a", cc::Ty::Int, 0)], 4, 2);
    let outer = cc_struct(&mut db, "Outer", vec![("i", cc::Ty::Struct(inner), 0)], 4, 2);
    let module = export(&mut db, vec![outer]);
    let out = module.to_rs_bindings(&mut db);
    // Once as the type of the field of Outer, once as Inner itself.
    assert_eq!(out.errs.messages(), vec!["unexpected struct layout", "unexpected struct layout"]);
    assert!(out.val.items.is_empty());
    assert!(out.val().is_err());
}

#[test]
fn method_signatures_are_checked() {
    let mut db = Database::new();
    let bad = cc_struct(&mut db, "Bad", vec![("a", cc::Ty::Int, 0)], 4, 2);
    let good = cc_struct(&mut db, "Good", vec![("a", cc::Ty::Int, 0)], 4, 4);
    let bad_ty = db.intern_cc_type(cc::Ty::Struct(bad));
    let good_ty = db.intern_cc_type(cc::Ty::Struct(good));
    let int = db.intern_cc_type(cc::Ty::Int);
    let method = |ret: TypeRef, params: Vec<TypeRef>| cc::Function {
        name: Ident::new("f"),
        param_names: params.iter().map(|_| None).collect(),
        param_tys: params,
        return_ty: ret,
        is_method: true,
        is_const: false,
    };
    let user = db.intern_cc_struct(cc::Struct {
        name: Path::parse("User"),
        fields: vec![cc::Field { name: Ident::new("x"), ty: int, span: at(1) }],
        offsets: vec![0],
        methods: vec![method(int, vec![good_ty, bad_ty]), method(bad_ty, vec![])],
        size: Size::new(4),
        align: Align::new(4),
        span: at(0),
    });
    let out = db.rs_struct_from_cc(user);
    // The fields are sound; what is wrong with the methods is still reported.
    assert_eq!(out.errs.messages(), vec!["unexpected struct layout", "unexpected struct layout"]);
    let st = out.val.lookup(&db);
    assert_eq!(st.methods.len(), 2);
    assert_eq!(st.methods[0].func().name.as_str(), "f");
    assert_eq!(
        st.methods[0].param_tys(&db),
        vec![rs::Ty::Struct(rs::StructId(good.0)), rs::Ty::Struct(rs::StructId(bad.0))]
    );
    assert_eq!(st.methods[0].return_ty(&db), rs::Ty::I32);
    assert_eq!(st.methods[1].cc_func(&db).return_ty, bad_ty);
    let cc_st = user.lookup(&db);
    assert_eq!(
        cc_st.methods[0].param_tys(&db),
        vec![cc::Ty::Struct(good), cc::Ty::Struct(bad)]
    );
    assert_eq!(cc_st.methods[0].return_ty(&db), cc::Ty::Int);
    assert_eq!(bad_ty.as_rs(&mut db).errs.messages(), vec!["unexpected struct layout"]);
    assert_eq!(db.rs_type_of(good_ty).val, rs::Ty::Struct(rs::StructId(good.0)));
}

#[test]
fn reachable_items_are_visited_breadth_first_and_once() {
    let mut db = Database::new();
    let leaf = cc_struct(&mut db, "Leaf", vec![("x", cc::Ty::Int, 0)], 4, 4);
    let left = cc_struct(&mut db, "Left", vec![("l", cc::Ty::Struct(leaf), 0)], 4, 4);
    let right = cc_struct(
        &mut db,
        "Right",
        vec![("l", cc::Ty::Struct(leaf), 0), ("n", cc::Ty::Int, 4)],
        8,
        4,
    );
    let top = cc_struct(
        &mut db,
        "Top",
        vec![("r", cc::Ty::Struct(right), 0), ("l", cc::Ty::Struct(left), 8)],
        12,
        4,
    );
    let unused = cc_struct(&mut db, "Unused", vec![("x", cc::Ty::Double, 0)], 8, 8);

    let module = export(&mut db, vec![top, left, top]);
    let order = module.reachable_items(&db);
    let expected: Vec<DefKind> =
        [top, left, right, leaf].iter().map(|id| DefKind::from_struct(*id)).collect();
    assert_eq!(order, expected);
    assert!(!contains_def(&order, DefKind::from_struct(unused)));
    assert!(contains_def(&order, DefKind::from_struct(leaf)));

    let out = db.rs_bindings();
    assert!(out.errs.is_empty());
    let ids: Vec<u32> = out.val.items.iter().map(|rs::ItemKind::Struct(id)| id.0).collect();
    assert_eq!(ids, vec![top.0, left.0, right.0, leaf.0]);
    assert_eq!(out.val.exported_structs(), vec![rs::StructId(top.0), rs::StructId(left.0)]);
    let top_rs = rs::StructId(top.0).lookup(&db);
    assert_eq!(top_rs.fields[0].vis, rs::Visibility::Private);
    assert_eq!(top_rs.fields[1].vis, rs::Visibility::Public);
    assert_eq!(top_rs.vis, rs::Visibility::Public);
    assert_eq!(rs::StructId(right.0).lookup(&db).vis, rs::Visibility::Private);
    assert_eq!(db.cc_ir_from_src().exports.len(), 3);
    assert!(db.is_exported(top) && !db.is_exported(right));
}

#[test]
fn module_without_exports_reaches_nothing() {
    let mut db = Database::new();
    cc_struct(&mut db, "S", vec![("x", cc::Ty::Int, 0)], 4, 4);
    let module = Module::new();
    assert!(module.reachable_items(&db).is_empty());
    let out = module.to_rs_bindings(&mut db);
    assert!(out.val.items.is_empty() && out.val.exports.is_empty() && out.errs.is_empty());
}

#[test]
fn struct_that_names_the_error_type_is_not_emitted() {
    let mut db = Database::new();
    // The error type stands where a byte would: the layout alone looks sound.
    let id = cc_struct(
        &mut db,
        "S",
        vec![("c", cc::Ty::CharS, 0), ("e", cc::Ty::Error, 1), ("a", cc::Ty::Int, 4)],
        8,
        4,
    );
    let module = export(&mut db, vec![id]);
    let out = module.to_rs_bindings(&mut db);
    assert_eq!(out.errs.messages(), vec!["unsupported type"]);
    assert_eq!(out.errs.get(0).label.message, "the type named here could not be lowered");
    assert_eq!(out.errs.get(0).label.span, at(1));
    assert!(out.val.items.is_empty());
    // The field is there, and private.
    let st = rs::StructId(id.0).lookup(&db);
    assert_eq!(st.fields[1].ty(&db), rs::Ty::Error);
    assert_eq!(st.fields[1].vis, rs::Visibility::Private);
}
