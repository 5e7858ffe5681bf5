use cc_bindings::diagnostics::decimal;
use cc_bindings::intern::Intern;
use cc_bindings::ir::common::{align_to, vec_duplicate, vec_same, Align, Ident, Path, Size};
use cc_bindings::ir::common::{TypeId, TypeRef};

#[test]
fn align_to_rounds_up_to_the_next_multiple() {
    assert_eq!(align_to(1, Align::new(8)), 8);
    assert_eq!(align_to(8, Align::new(8)), 8);
    assert_eq!(align_to(9, Align::new(8)), 16);
    assert_eq!(align_to(10, Align::new(3)), 12);
    assert_eq!(align_to(65535, Align::new(1)), 65535);
    assert_eq!(align_to(65000, Align::new(65535)), 65535);
}

#[test]
fn align_to_is_idempotent() {
    for off in 0..200u16 {
        for a in 1..20u16 {
            let once = align_to(off, Align::new(a));
            assert_eq!(align_to(once, Align::new(a)), once);
            assert_eq!(once % a, 0);
            assert!(off <= once && once < off + a);
        }
    }
}

#[test]
fn align_and_size_hold_their_number() {
    assert_eq!(Align::new(4).get(), 4);
    assert_eq!(Align::new(4), Align::new(4));
    assert_ne!(Align::new(4), Align::new(8));
    assert_eq!(Size::new(12).0, 12);
    assert_eq!(Size::new(12), Size(12));
}

#[test]
fn path_is_split_at_scope_separators() {
    let names = |p: &Path| p.iter().iter().map(|c| c.as_str().to_string()).collect::<Vec<_>>();
    assert_eq!(names(&Path::parse("std::vector")), vec!["std", "vector"]);
    assert_eq!(names(&Path::parse("::Pod")), vec!["Pod"]);
    assert_eq!(names(&Path::parse("Pod")), vec!["Pod"]);
    assert_eq!(names(&Path::parse("a::b::c")), vec!["a", "b", "c"]);
    assert_eq!(names(&Path::parse("")), vec![""]);
    assert_eq!(names(&Path::parse("::")), vec![""]);
    assert_eq!(names(&Path::parse("a::")), vec!["a", ""]);
    assert_eq!(names(&Path::parse("a:::b")), vec!["a", ":b"]);
    assert_eq!(names(&Path::parse("a:b")), vec!["a:b"]);
    assert_eq!(names(&Path::parse("::a::::b")), vec!["a", "", "b"]);
}

#[test]
fn path_is_written_with_scope_separators() {
    assert_eq!(Path::parse("std::vector").to_text(), "std::vector");
    assert_eq!(Path::parse("::std::vector").to_text(), "std::vector");
    let path = Path::from_components(vec![Ident::new("a"), Ident::new("b"), Ident::new("c")]);
    assert_eq!(path.to_text(), "a::b::c");
    assert_eq!(Path::from_components(vec![]).to_text(), "");
}

#[test]
fn ident_holds_no_scope_separator() {
    assert_eq!(Ident::parse("vector").map(|i| i.as_str().to_string()), Some("vector".to_string()));
    assert!(Ident::parse("std::vector").is_none());
    assert!(Ident::parse("::").is_none());
    assert!(Ident::parse("a:b").is_some());
    assert!(Ident::parse("").is_some());
    assert!(Ident::parse(":").is_some());
    assert_eq!(Ident::new("MyClass").as_str(), "MyClass");
}

#[test]
fn values_are_compared_by_what_they_hold() {
    assert!(Ident::new("a").same(&Ident::new("a")));
    assert!(!Ident::new("a").same(&Ident::new("b")));
    assert!(Path::parse("a::b").same(&Path::parse("::a::b")));
    assert!(!Path::parse("a::b").same(&Path::parse("a")));
    assert!(Path::parse("a::b").duplicate().same(&Path::parse("a::b")));
    assert!(vec_same(&vec![1u16, 2, 3], &vec![1u16, 2, 3]));
    assert!(!vec_same(&vec![1u16, 2, 3], &vec![1u16, 2]));
    assert!(!vec_same(&vec![1u16, 2, 3], &vec![1u16, 2, 4]));
    assert_eq!(vec_duplicate(&vec![7u16, 8]), vec![7u16, 8]);
    assert_eq!(TypeRef::new(TypeId(3)), TypeRef(TypeId(3)));
}

#[test]
fn numbers_are_written_in_decimal() {
    assert_eq!(decimal(0), "0");
    assert_eq!(decimal(7), "7");
    assert_eq!(decimal(10), "10");
    assert_eq!(decimal(16), "16");
    assert_eq!(decimal(65535), "65535");
    assert_eq!(decimal(4294967295), "4294967295");
    assert_eq!(decimal(1203), "1203");
}

#[test]
fn identifiers_and_alignments_are_written_as_text() {
    assert_eq!(Ident::new("vector").to_text(), "vector");
    assert_eq!(Align::new(8).to_text(), "8");
    assert_eq!(Align::new(4096).to_text(), "4096");
}
