//! Diagnostics, and the outcome type that carries them through every stage.

use vstd::prelude::*;

verus! {

/// The text of one decimal digit.
pub open spec fn digit_text(d: nat) -> Seq<char> {
    if d == 0 {
        "0"@
    } else if d == 1 {
        "1"@
    } else if d == 2 {
        "2"@
    } else if d == 3 {
        "3"@
    } else if d == 4 {
        "4"@
    } else if d == 5 {
        "5"@
    } else if d == 6 {
        "6"@
    } else if d == 7 {
        "7"@
    } else if d == 8 {
        "8"@
    } else {
        "9"@
    }
}

/// The decimal numeral of `n`, without leading zeros.
pub open spec fn decimal_text(n: nat) -> Seq<char>
    decreases n,
{
    if n < 10 {
        digit_text(n)
    } else {
        decimal_text(n / 10) + digit_text(n % 10)
    }
}

fn digit(d: u32) -> (text: &'static str)
    requires
        d < 10,
    ensures
        text@ == digit_text(d as nat),
{
    if d == 0 {
        "0"
    } else if d == 1 {
        "1"
    } else if d == 2 {
        "2"
    } else if d == 3 {
        "3"
    } else if d == 4 {
        "4"
    } else if d == 5 {
        "5"
    } else if d == 6 {
        "6"
    } else if d == 7 {
        "7"
    } else if d == 8 {
        "8"
    } else {
        "9"
    }
}

/// Writes a number in decimal.
pub fn decimal(n: u32) -> (text: String)
    ensures
        text@ == decimal_text(n as nat),
    decreases n,
{
    if n < 10 {
        String::from_str(digit(n))
    } else {
        let mut text = decimal(n / 10);
        text.append(digit(n % 10));
        text
    }
}

/// Handle of a source file.
#[derive(Copy, Clone, Debug, PartialEq, Eq, Hash, Structural)]
pub struct FileId(pub u32);

/// A range of bytes in a single source file, or the absence of one.
#[derive(Copy, Clone, Debug, PartialEq, Eq, Hash, Structural)]
pub enum Span {
    Range { file: FileId, start: u32, end: u32 },
    /// No single file holds the range.
    Absent,
}

impl Span {
    pub fn new(file: FileId, start: u32, end: u32) -> (span: Span)
        ensures
            span == (Span::Range { file, start, end }),
    {
        Span::Range { file, start, end }
    }

    pub fn absent() -> (span: Span)
        ensures
            span == Span::Absent,
    {
        Span::Absent
    }

    /// Attaches a message to this span.
    pub fn label(&self, message: &str) -> (label: Label)
        ensures
            label@ == (LabelView { span: *self, message: message@ }),
    {
        Label { span: *self, message: String::from_str(message) }
    }
}

/// A message anchored to a place in the source.
#[derive(Debug)]
pub struct Label {
    pub span: Span,
    pub message: String,
}

pub struct LabelView {
    pub span: Span,
    pub message: Seq<char>,
}

impl View for Label {
    type V = LabelView;

    open spec fn view(&self) -> LabelView {
        LabelView { span: self.span, message: self.message@ }
    }
}

impl Label {
    pub fn duplicate(&self) -> (copy: Label)
        ensures
            copy@ == self@,
    {
        Label { span: self.span, message: self.message.clone() }
    }
}

#[derive(Copy, Clone, Debug, PartialEq, Eq, Hash, Structural)]
pub enum Severity {
    Error,
    Warning,
}

/// One finding: what is wrong, where, and any further remarks.
#[derive(Debug)]
pub struct Diagnostic {
    pub severity: Severity,
    pub message: String,
    pub label: Label,
    pub notes: Vec<String>,
}

pub struct DiagnosticView {
    pub severity: Severity,
    pub message: Seq<char>,
    pub label: LabelView,
    pub notes: Seq<Seq<char>>,
}

impl DiagnosticView {
    /// An error without notes.
    pub open spec fn error(message: Seq<char>, span: Span, label: Seq<char>) -> DiagnosticView {
        DiagnosticView {
            severity: Severity::Error,
            message,
            label: LabelView { span, message: label },
            notes: Seq::empty(),
        }
    }

    /// A warning without notes.
    pub open spec fn warning(message: Seq<char>, span: Span, label: Seq<char>) -> DiagnosticView {
        DiagnosticView {
            severity: Severity::Warning,
            message,
            label: LabelView { span, message: label },
            notes: Seq::empty(),
        }
    }

    /// The same diagnostic with one more note at the end.
    pub open spec fn with_note(self, note: Seq<char>) -> DiagnosticView {
        DiagnosticView { notes: self.notes.push(note), ..self }
    }
}

/// The texts of a list of notes.
pub open spec fn note_texts(notes: Seq<String>) -> Seq<Seq<char>> {
    notes.map_values(|n: String| n@)
}

impl View for Diagnostic {
    type V = DiagnosticView;

    open spec fn view(&self) -> DiagnosticView {
        DiagnosticView {
            severity: self.severity,
            message: self.message@,
            label: self.label@,
            notes: note_texts(self.notes@),
        }
    }
}

impl Diagnostic {
    pub fn error(message: &str, label: Label) -> (d: Diagnostic)
        ensures
            d@ == DiagnosticView::error(message@, label.span, label.message@),
    {
        let d = Diagnostic {
            severity: Severity::Error,
            message: String::from_str(message),
            label,
            notes: Vec::new(),
        };
        assert(note_texts(d.notes@) =~= Seq::empty());
        d
    }

    pub fn warning(message: &str, label: Label) -> (d: Diagnostic)
        ensures
            d@ == DiagnosticView::warning(message@, label.span, label.message@),
    {
        let d = Diagnostic {
            severity: Severity::Warning,
            message: String::from_str(message),
            label,
            notes: Vec::new(),
        };
        assert(note_texts(d.notes@) =~= Seq::empty());
        d
    }

    pub fn with_note(self, note: String) -> (d: Diagnostic)
        ensures
            d@ == self@.with_note(note@),
    {
        let mut d = self;
        d.notes.push(note);
        assert(note_texts(d.notes@) =~= note_texts(self.notes@).push(note@));
        d
    }

    pub fn message(&self) -> (m: &str)
        ensures
            m@ == self@.message,
    {
        self.message.as_str()
    }

    pub fn is_error(&self) -> (b: bool)
        ensures
            b == (self@.severity == Severity::Error),
    {
        self.severity == Severity::Error
    }

    pub fn duplicate(&self) -> (copy: Diagnostic)
        ensures
            copy@ == self@,
    {
        let mut notes: Vec<String> = Vec::new();
        let mut i: usize = 0;
        while i < self.notes.len()
            invariant
                i <= self.notes.len(),
                notes@.len() == i,
                forall|j: int| 0 <= j < i ==> (#[trigger] notes@[j])@ == self.notes@[j]@,
            decreases self.notes.len() - i,
        {
            notes.push(self.notes[i].clone());
            i += 1;
        }
        assert(note_texts(notes@) =~= note_texts(self.notes@));
        Diagnostic {
            severity: self.severity,
            message: self.message.clone(),
            label: self.label.duplicate(),
            notes,
        }
    }
}

/// The views of a list of diagnostics.
pub open spec fn diagnostic_views(diags: Seq<Diagnostic>) -> Seq<DiagnosticView> {
    diags.map_values(|d: Diagnostic| d@)
}

/// Whether a list of diagnostics holds an error.
pub open spec fn has_error(diags: Seq<DiagnosticView>) -> bool {
    exists|i: int| 0 <= i < diags.len() && (#[trigger] diags[i]).severity == Severity::Error
}

/// Diagnostics put together hold an error exactly if one of the parts does.
pub proof fn lemma_has_error_concat(a: Seq<DiagnosticView>, b: Seq<DiagnosticView>)
    ensures
        has_error(a + b) <==> has_error(a) || has_error(b),
{
    let all = a + b;
    if has_error(a) {
        let i = choose|i: int| 0 <= i < a.len() && (#[trigger] a[i]).severity == Severity::Error;
        assert(all[i] == a[i]);
    }
    if has_error(b) {
        let i = choose|i: int| 0 <= i < b.len() && (#[trigger] b[i]).severity == Severity::Error;
        assert(all[a.len() + i] == b[i]);
    }
    if has_error(all) {
        let i = choose|i: int| 0 <= i < all.len() && (#[trigger] all[i]).severity == Severity::Error;
        if i < a.len() {
            assert(a[i] == all[i]);
        } else {
            assert(b[i - a.len()] == all[i]);
        }
    }
}

/// An ordered collection of diagnostics.
#[derive(Debug)]
pub struct Diagnostics {
    pub diags: Vec<Diagnostic>,
}

impl View for Diagnostics {
    type V = Seq<DiagnosticView>;

    open spec fn view(&self) -> Seq<DiagnosticView> {
        diagnostic_views(self.diags@)
    }
}

impl Diagnostics {
    pub fn new() -> (errs: Diagnostics)
        ensures
            errs@ == Seq::<DiagnosticView>::empty(),
    {
        let errs = Diagnostics { diags: Vec::new() };
        assert(errs@ =~= Seq::empty());
        errs
    }

    pub fn len(&self) -> (n: usize)
        ensures
            n == self@.len(),
    {
        self.diags.len()
    }

    pub fn is_empty(&self) -> (b: bool)
        ensures
            b == (self@.len() == 0),
    {
        self.diags.len() == 0
    }

    pub fn get(&self, i: usize) -> (d: &Diagnostic)
        requires
            i < self@.len(),
        ensures
            d@ == self@[i as int],
    {
        &self.diags[i]
    }

    /// Adds a diagnostic at the end.
    pub fn add(&mut self, diag: Diagnostic)
        ensures
            final(self)@ == old(self)@.push(diag@),
    {
        self.diags.push(diag);
        assert(self@ =~= old(self)@.push(diag@));
    }

    /// Moves all of `other` to the end of this collection.
    pub fn append(&mut self, other: Diagnostics)
        ensures
            final(self)@ == old(self)@ + other@,
    {
        let mut other = other;
        let ghost moved = other@;
        self.diags.append(&mut other.diags);
        assert(self@ =~= old(self)@ + moved);
    }

    pub fn has_errors(&self) -> (b: bool)
        ensures
            b == has_error(self@),
    {
        let mut i: usize = 0;
        while i < self.diags.len()
            invariant
                i <= self.diags.len(),
                forall|j: int| 0 <= j < i ==> (#[trigger] self@[j]).severity != Severity::Error,
            decreases self.diags.len() - i,
        {
            if self.diags[i].is_error() {
                assert(self@[i as int].severity == Severity::Error);
                return true;
            }
            i += 1;
        }
        false
    }

    /// The primary messages, in order.
    pub fn messages(&self) -> (texts: Vec<String>)
        ensures
            note_texts(texts@) == self@.map_values(|d: DiagnosticView| d.message),
    {
        let mut texts: Vec<String> = Vec::new();
        let mut i: usize = 0;
        while i < self.diags.len()
            invariant
                i <= self.diags.len(),
                texts@.len() == i,
                forall|j: int| 0 <= j < i ==> (#[trigger] texts@[j])@ == self.diags@[j]@.message,
            decreases self.diags.len() - i,
        {
            texts.push(self.diags[i].message.clone());
            i += 1;
        }
        assert(note_texts(texts@) =~= self@.map_values(|d: DiagnosticView| d.message));
        texts
    }

    pub fn duplicate(&self) -> (copy: Diagnostics)
        ensures
            copy@ == self@,
    {
        let mut diags: Vec<Diagnostic> = Vec::new();
        let mut i: usize = 0;
        while i < self.diags.len()
            invariant
                i <= self.diags.len(),
                diags@.len() == i,
                forall|j: int| 0 <= j < i ==> (#[trigger] diags@[j])@ == self.diags@[j]@,
            decreases self.diags.len() - i,
        {
            diags.push(self.diags[i].duplicate());
            i += 1;
        }
        assert(diagnostic_views(diags@) =~= self@);
        Diagnostics { diags }
    }
}

/// A best-effort value together with what was found wrong on the way to it.
///
/// The value is there even after a failure, so that later stages can go on
/// and report what they find in the same pass.
#[derive(Debug)]
pub struct Outcome<T> {
    pub val: T,
    pub errs: Diagnostics,
}

/// An outcome without diagnostics.
pub fn ok<T>(val: T) -> (out: Outcome<T>)
    ensures
        out.val == val,
        out.errs@ == Seq::<DiagnosticView>::empty(),
{
    Outcome { val, errs: Diagnostics::new() }
}

/// An outcome with one diagnostic.
pub fn err<T>(val: T, diag: Diagnostic) -> (out: Outcome<T>)
    ensures
        out.val == val,
        out.errs@ == seq![diag@],
{
    let mut errs = Diagnostics::new();
    errs.add(diag);
    assert(errs@ =~= seq![diag@]);
    Outcome { val, errs }
}

/// All diagnostics of a list of outcomes, in order.
pub open spec fn all_errs<T>(outcomes: Seq<Outcome<T>>, n: nat) -> Seq<DiagnosticView>
    decreases n,
{
    if n == 0 {
        Seq::empty()
    } else {
        all_errs(outcomes, (n - 1) as nat) + outcomes[n - 1].errs@
    }
}

/// Puts the outcomes of independent computations together: all values, in
/// order, and all diagnostics, in order. No failure hides another.
pub fn collect<T>(outcomes: Vec<Outcome<T>>) -> (out: Outcome<Vec<T>>)
    ensures
        out.val@ == outcomes@.map_values(|o: Outcome<T>| o.val),
        out.errs@ == all_errs(outcomes@, outcomes@.len()),
{
    let ghost all = outcomes@;
    let mut rest = outcomes;
    let mut vals: Vec<T> = Vec::new();
    let mut errs = Diagnostics::new();
    while rest.len() > 0
        invariant
            vals@.len() + rest@.len() == all.len(),
            rest@ == all.skip(vals@.len() as int),
            forall|j: int| 0 <= j < vals@.len() ==> vals@[j] == all[j].val,
            errs@ == all_errs(all, vals@.len() as nat),
        decreases rest.len(),
    {
        let ghost i = vals@.len() as int;
        let outcome = rest.remove(0);
        assert(outcome == all[i]);
        let Outcome { val, errs: more } = outcome;
        vals.push(val);
        errs.append(more);
        assert(rest@ =~= all.skip(i + 1));
    }
    assert(vals@ =~= all.map_values(|o: Outcome<T>| o.val));
    Outcome { val: vals, errs }
}

impl<T> Outcome<T> {
    pub fn from_parts(val: T, errs: Diagnostics) -> (out: Outcome<T>)
        ensures
            out.val == val,
            out.errs == errs,
    {
        Outcome { val, errs }
    }

    /// Whether no error was recorded. Warnings do not count.
    pub fn is_ok(&self) -> (b: bool)
        ensures
            b == !has_error(self.errs@),
    {
        !self.errs.has_errors()
    }

    /// Transforms the value; the diagnostics pass through unchanged.
    pub fn map<U, F: FnOnce(T) -> U>(self, f: F) -> (out: Outcome<U>)
        requires
            f.requires((self.val,)),
        ensures
            f.ensures((self.val,), out.val),
            out.errs == self.errs,
    {
        Outcome { val: f(self.val), errs: self.errs }
    }

    /// Feeds the value to the next stage; the diagnostics of both stages are
    /// kept, those of this stage first.
    pub fn and_then<U, F: FnOnce(T) -> Outcome<U>>(self, f: F) -> (out: Outcome<U>)
        requires
            f.requires((self.val,)),
        ensures
            exists|next: Outcome<U>|
                f.ensures((self.val,), next) && out.val == next.val && out.errs@ == self.errs@
                    + next.errs@,
    {
        let Outcome { val, errs } = self;
        let mut errs = errs;
        let next = f(val);
        let Outcome { val: next_val, errs: next_errs } = next;
        errs.append(next_errs);
        Outcome { val: next_val, errs }
    }

    /// Takes the outcome apart.
    pub fn split(self) -> (parts: (T, Diagnostics))
        ensures
            parts.0 == self.val,
            parts.1 == self.errs,
    {
        (self.val, self.errs)
    }

    /// Drops the diagnostics and trusts the value. For call sites where the
    /// diagnostics have been collected by another route.
    pub fn skip_errs(self) -> (val: T)
        ensures
            val == self.val,
    {
        self.val
    }

    /// The diagnostics alone.
    pub fn errs(self) -> (errs: Diagnostics)
        ensures
            errs == self.errs,
    {
        self.errs
    }

    /// The value if no error was recorded, else all the diagnostics.
    pub fn val(self) -> (res: Result<T, Diagnostics>)
        ensures
            match res {
                Ok(val) => !has_error(self.errs@) && val == self.val,
                Err(errs) => has_error(self.errs@) && errs == self.errs,
            },
    {
        if self.errs.has_errors() {
            Err(self.errs)
        } else {
            Ok(self.val)
        }
    }
}

} // verus!
