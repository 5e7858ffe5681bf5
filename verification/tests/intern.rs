use cc_bindings::intern::{Intern, Interner, INTERN_ID_MAX};
use cc_bindings::ir::cc;
use cc_bindings::ir::common::{Ident, Path};

#[test]
fn equal_values_get_one_handle() {
    let mut table: Interner<Ident> = Interner::new();
    let a = table.intern(Ident::new("vector"));
    let b = table.intern(Ident::new("map"));
    let c = table.intern(Ident::new("vector"));
    assert_eq!(a, 0);
    assert_eq!(b, 1);
    assert_eq!(a, c);
    assert_ne!(a, b);
    assert_eq!(table.len(), 2);
}

#[test]
fn lookup_gives_back_what_was_interned() {
    let mut table: Interner<Path> = Interner::new();
    let std_vector = table.intern(Path::parse("std::vector"));
    let pod = table.intern(Path::parse("::Pod"));
    assert_eq!(table.lookup(std_vector).to_text(), "std::vector");
    assert_eq!(table.lookup(pod).to_text(), "Pod");
    assert_eq!(table.get(pod).to_text(), "Pod");
}

#[test]
fn find_does_not_intern() {
    let mut table: Interner<cc::Ty> = Interner::new();
    assert_eq!(table.find(&cc::Ty::Int), None);
    let int = table.intern(cc::Ty::Int);
    assert_eq!(table.find(&cc::Ty::Int), Some(int));
    assert_eq!(table.find(&cc::Ty::UInt), None);
    assert_eq!(table.len(), 1);
}

#[test]
fn try_intern_agrees_with_intern() {
    let mut table: Interner<cc::Ty> = Interner::new();
    assert_eq!(table.try_intern(cc::Ty::Double), Some(0));
    assert_eq!(table.try_intern(cc::Ty::Struct(cc::StructId(3))), Some(1));
    assert_eq!(table.try_intern(cc::Ty::Double), Some(0));
    assert_eq!(table.intern(cc::Ty::Struct(cc::StructId(3))), 1);
    assert_eq!(table.intern(cc::Ty::Struct(cc::StructId(4))), 2);
}

#[test]
fn raw_handles_stay_below_the_bound() {
    assert_eq!(INTERN_ID_MAX, 0xFFFF_FF00);
    assert_eq!(INTERN_ID_MAX, salsa::InternId::MAX);
    assert_eq!(salsa::InternId::from(7usize).as_u32(), 7);
    assert_eq!(salsa::InternId::from(7u32).as_usize(), 7);
    let mut table: Interner<cc::Ty> = Interner::new();
    let id = table.intern(cc::Ty::Bool);
    assert!(id < INTERN_ID_MAX);
    assert!(table.lookup(id).same(&cc::Ty::Bool));
}
