use cc_bindings::diagnostics::{err, ok, Diagnostic, Diagnostics, FileId, Outcome, Severity, Span};

fn at(offset: u32) -> Span {
    Span::new(FileId(0), offset, offset + 1)
}

fn error(message: &str) -> Diagnostic {
    Diagnostic::error(message, at(0).label("here"))
}

#[test]
fn diagnostic_carries_message_label_and_notes() {
    let d = Diagnostic::error("unexpected field offset", at(3).label("this field"))
        .with_note("first".to_string())
        .with_note("second".to_string());
    assert_eq!(d.message(), "unexpected field offset");
    assert_eq!(d.severity, Severity::Error);
    assert!(d.is_error());
    assert_eq!(d.label.span, Span::Range { file: FileId(0), start: 3, end: 4 });
    assert_eq!(d.label.message, "this field");
    assert_eq!(d.notes, vec!["first", "second"]);

    let w = Diagnostic::warning("unknown attribute", Span::absent().label("somewhere"));
    assert_eq!(w.severity, Severity::Warning);
    assert!(!w.is_error());
    assert_eq!(w.label.span, Span::Absent);

    let copy = d.duplicate();
    assert_eq!(copy.message, d.message);
    assert_eq!(copy.notes, d.notes);
    assert_eq!(copy.label.message, d.label.message);
}

#[test]
fn diagnostics_keep_their_order() {
    let mut errs = Diagnostics::new();
    assert!(errs.is_empty());
    assert!(!errs.has_errors());
    errs.add(Diagnostic::warning("w", at(0).label("")));
    assert!(!errs.has_errors());
    errs.add(error("a"));
    let mut more = Diagnostics::new();
    more.add(error("b"));
    more.add(error("c"));
    errs.append(more);
    assert_eq!(errs.len(), 4);
    assert_eq!(errs.messages(), vec!["w", "a", "b", "c"]);
    assert_eq!(errs.get(2).message(), "b");
    assert!(errs.has_errors());
    assert_eq!(errs.duplicate().messages(), errs.messages());
}

#[test]
fn outcome_map_keeps_the_diagnostics() {
    let out = err(20u32, error("bad")).map(|v: u32| v + 1);
    assert_eq!(out.val, 21);
    assert_eq!(out.errs.messages(), vec!["bad"]);
    let out = ok(1u32).map(|v: u32| v * 2);
    assert_eq!(out.val, 2);
    assert!(out.errs.is_empty());
}

#[test]
fn outcome_and_then_concatenates_the_diagnostics() {
    let out = err(1u32, error("first")).and_then(|v: u32| err(v + 1, error("second")));
    assert_eq!(out.val, 2);
    assert_eq!(out.errs.messages(), vec!["first", "second"]);
    // A failure does not stop the next stage.
    let out = err(1u32, error("first")).and_then(|v: u32| ok(v + 1));
    assert_eq!(out.val, 2);
    assert_eq!(out.errs.messages(), vec!["first"]);
}

#[test]
fn outcome_val_fails_on_errors_only() {
    assert_eq!(ok(3u32).val().ok(), Some(3));
    let warned = Outcome::from_parts(3u32, {
        let mut errs = Diagnostics::new();
        errs.add(Diagnostic::warning("w", at(0).label("")));
        errs
    });
    assert!(warned.is_ok());
    assert_eq!(warned.val().ok(), Some(3));
    let failed = err(3u32, error("bad"));
    assert!(!failed.is_ok());
    assert_eq!(failed.val().err().map(|e| e.messages()), Some(vec!["bad".to_string()]));
}

#[test]
fn outcome_can_be_taken_apart() {
    let (val, errs) = err(5u32, error("bad")).split();
    assert_eq!(val, 5);
    assert_eq!(errs.len(), 1);
    assert_eq!(err(5u32, error("bad")).skip_errs(), 5);
    assert_eq!(err(5u32, error("bad")).errs().messages(), vec!["bad"]);
}

#[test]
fn collect_keeps_all_values_and_all_diagnostics() {
    let out = cc_bindings::diagnostics::collect(vec![
        err(1u32, error("first")),
        ok(2u32),
        err(3u32, error("third")).and_then(|v: u32| err(v, error("fourth"))),
    ]);
    assert_eq!(out.val, vec![1, 2, 3]);
    assert_eq!(out.errs.messages(), vec!["first", "third", "fourth"]);
    let none = cc_bindings::diagnostics::collect(Vec::<Outcome<u32>>::new());
    assert!(none.val.is_empty() && none.errs.is_empty());
}
