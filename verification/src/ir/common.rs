//! Types and utilities used from both the Rust and C++ IRs.

use crate::diagnostics::{decimal, decimal_text, ok, Outcome};
use crate::intern::{views_of, Intern};
use crate::ir::cc;
use crate::ir::db::Database;
use crate::ir::rs;
use vstd::prelude::*;

verus! {

/// Whether two lists hold equal values at every place, by their views.
pub fn vec_same<T: Intern>(a: &Vec<T>, b: &Vec<T>) -> (r: bool)
    ensures
        r == (views_of(a@) == views_of(b@)),
{
    if a.len() != b.len() {
        assert(views_of(a@).len() != views_of(b@).len());
        return false;
    }
    let mut i: usize = 0;
    while i < a.len()
        invariant
            i <= a.len(),
            a.len() == b.len(),
            forall|j: int| 0 <= j < i ==> (#[trigger] a@[j])@ == b@[j]@,
        decreases a.len() - i,
    {
        if !a[i].same(&b[i]) {
            assert(views_of(a@)[i as int] != views_of(b@)[i as int]);
            return false;
        }
        i += 1;
    }
    assert(views_of(a@) =~= views_of(b@));
    true
}

/// A copy of a list, value by value.
pub fn vec_duplicate<T: Intern>(a: &Vec<T>) -> (copy: Vec<T>)
    ensures
        views_of(copy@) == views_of(a@),
{
    let mut copy: Vec<T> = Vec::new();
    let mut i: usize = 0;
    while i < a.len()
        invariant
            i <= a.len(),
            copy@.len() == i,
            forall|j: int| 0 <= j < i ==> (#[trigger] copy@[j])@ == a@[j]@,
        decreases a.len() - i,
    {
        copy.push(a[i].duplicate());
        i += 1;
    }
    assert(views_of(copy@) =~= views_of(a@));
    copy
}

impl Intern for u16 {
    fn same(&self, other: &Self) -> (b: bool) {
        *self == *other
    }

    fn duplicate(&self) -> (copy: Self) {
        *self
    }
}

/// A C++ unqualified identifier.
///
/// Examples: `std`, `vector`, or `MyClass`.
#[derive(Debug)]
pub struct Ident {
    s: String,
}

impl View for Ident {
    type V = Seq<char>;

    closed spec fn view(&self) -> Seq<char> {
        self.s@
    }
}

/// Whether `text` holds the scope separator `::` at position `at`.
pub open spec fn separator_at(text: Seq<char>, at: int) -> bool {
    0 <= at && at + 1 < text.len() && text[at] == ':' && text[at + 1] == ':'
}

/// Whether `text` can be an identifier: it holds no scope separator.
pub open spec fn is_identifier(text: Seq<char>) -> bool {
    forall|at: int| !separator_at(text, at)
}

impl Ident {
    /// Creates an identifier from a text without scope separator.
    pub fn new(id: &str) -> (ident: Ident)
        requires
            is_identifier(id@),
        ensures
            ident@ == id@,
    {
        Ident { s: String::from_str(id) }
    }

    /// Creates an identifier if the text can be one.
    pub fn parse(id: &str) -> (res: Option<Ident>)
        ensures
            match res {
                Some(ident) => is_identifier(id@) && ident@ == id@,
                None => !is_identifier(id@),
            },
    {
        let n: usize = id.unicode_len();
        let mut i: usize = 0;
        let mut after_colon = false;
        while i < n
            invariant
                n == id@.len(),
                i <= n,
                after_colon == (i > 0 && id@[i - 1] == ':'),
                forall|at: int| at + 1 < i ==> !separator_at(id@, at),
            decreases n - i,
        {
            let colon = id.get_char(i) == ':';
            if after_colon && colon {
                assert(separator_at(id@, i - 1));
                return None;
            }
            after_colon = colon;
            i += 1;
        }
        Some(Ident::new(id))
    }

    pub fn as_str(&self) -> (s: &str)
        ensures
            s@ == self@,
    {
        self.s.as_str()
    }

    /// Writes the identifier.
    pub fn to_text(&self) -> (text: String)
        ensures
            text@ == self@,
    {
        self.s.clone()
    }
}

impl Intern for Ident {
    fn same(&self, other: &Self) -> (b: bool) {
        self.s == other.s
    }

    fn duplicate(&self) -> (copy: Self) {
        Ident { s: self.s.clone() }
    }
}

/// A C++ fully-qualified name.
///
/// Example: `std::vector`.
#[derive(Debug)]
pub struct Path {
    components: Vec<Ident>,
}

impl View for Path {
    type V = Seq<Seq<char>>;

    closed spec fn view(&self) -> Seq<Seq<char>> {
        views_of(self.components@)
    }
}

impl Path {
    /// The path made of the given components, outermost first.
    pub fn from_components(components: Vec<Ident>) -> (path: Path)
        ensures
            path@ == views_of(components@),
    {
        Path { components }
    }

    /// The components, outermost first.
    pub fn iter(&self) -> (components: &Vec<Ident>)
        ensures
            views_of(components@) == self@,
    {
        &self.components
    }
}

/// The first position at or after `from` where `text` holds a scope
/// separator, or the length of `text` if there is none.
pub open spec fn next_separator(text: Seq<char>, from: int) -> int
    decreases text.len() - from,
{
    if from < 0 || from + 1 >= text.len() {
        text.len() as int
    } else if separator_at(text, from) {
        from
    } else {
        next_separator(text, from + 1)
    }
}

/// The parts of `text` from position `start` on that scope separators set
/// apart, from left to right.
pub open spec fn components_from(text: Seq<char>, start: int) -> Seq<Seq<char>>
    decreases text.len() - start,
{
    let at = next_separator(text, start);
    if 0 <= start <= at && at + 2 <= text.len() {
        seq![text.subrange(start, at)] + components_from(text, at + 2)
    } else {
        seq![text.subrange(start, text.len() as int)]
    }
}

/// The components of a qualified name. A scope separator at the very start
/// says that the name is absolute and begins no component.
pub open spec fn path_components(text: Seq<char>) -> Seq<Seq<char>> {
    if separator_at(text, 0) {
        components_from(text, 2)
    } else {
        components_from(text, 0)
    }
}

/// The next separator is one, and the first from where the search began.
pub proof fn lemma_next_separator(text: Seq<char>, from: int)
    requires
        0 <= from <= text.len(),
    ensures
        from <= next_separator(text, from) <= text.len(),
        next_separator(text, from) < text.len() ==> separator_at(
            text,
            next_separator(text, from),
        ),
        forall|at: int| from <= at < next_separator(text, from) ==> !separator_at(text, at),
        next_separator(text, from) == text.len() ==> forall|at: int|
            from <= at ==> !separator_at(text, at),
    decreases text.len() - from,
{
    if from + 1 >= text.len() {
    } else if separator_at(text, from) {
    } else {
        lemma_next_separator(text, from + 1);
    }
}

impl Path {
    /// Reads a qualified name such as `std::vector` or `::Pod`.
    pub fn parse(text: &str) -> (path: Path)
        ensures
            path@ == path_components(text@),
    {
        let n: usize = text.unicode_len();
        let mut components: Vec<Ident> = Vec::new();
        let mut start: usize = 0;
        if n >= 2 && text.get_char(0) == ':' && text.get_char(1) == ':' {
            start = 2;
        }
        let ghost begin = start as int;
        let mut i: usize = start;
        while i < n
            invariant
                n == text@.len(),
                0 <= begin <= start <= i <= n,
                forall|at: int| start <= at < i ==> !separator_at(text@, at),
                views_of(components@) + components_from(text@, start as int) == components_from(
                    text@,
                    begin,
                ),
            decreases n - i,
        {
            if i + 1 < n && text.get_char(i) == ':' && text.get_char(i + 1) == ':' {
                proof {
                    lemma_next_separator(text@, start as int);
                    assert(separator_at(text@, i as int));
                    assert(next_separator(text@, start as int) == i);
                }
                let ghost before = views_of(components@);
                let part = text.substring_char(start, i);
                components.push(Ident { s: String::from_str(part) });
                assert(views_of(components@) =~= before.push(text@.subrange(start as int, i as int)));
                assert(before.push(text@.subrange(start as int, i as int)) + components_from(
                    text@,
                    i + 2,
                ) =~= before + components_from(text@, start as int));
                i += 2;
                start = i;
            } else {
                assert(!separator_at(text@, i as int));
                i += 1;
            }
        }
        proof {
            lemma_next_separator(text@, start as int);
            if next_separator(text@, start as int) < n {
                assert(false);
            }
        }
        let ghost before = views_of(components@);
        let part = text.substring_char(start, n);
        components.push(Ident { s: String::from_str(part) });
        assert(views_of(components@) =~= before + components_from(text@, start as int));
        Path { components }
    }

    /// Writes the name with a scope separator between the components.
    pub fn to_text(&self) -> (text: String)
        ensures
            text@ == joined(self@, self@.len()),
    {
        let mut text = String::new();
        let mut i: usize = 0;
        assert(self.components@.len() == self@.len());
        while i < self.components.len()
            invariant
                i <= self.components.len(),
                self.components@.len() == self@.len(),
                text@ == joined(self@, i as nat),
            decreases self.components.len() - i,
        {
            if i > 0 {
                text.append("::");
            }
            assert(self@[i as int] == self.components@[i as int]@);
            text.append(self.components[i].as_str());
            i += 1;
        }
        text
    }
}

/// The first `n` components of a path, written with scope separators
/// between them.
pub open spec fn joined(components: Seq<Seq<char>>, n: nat) -> Seq<char>
    decreases n,
{
    if n == 0 {
        Seq::empty()
    } else if n == 1 {
        components[0]
    } else {
        joined(components, (n - 1) as nat) + "::"@ + components[n - 1]
    }
}

impl Intern for Path {
    fn same(&self, other: &Self) -> (b: bool) {
        vec_same(&self.components, &other.components)
    }

    fn duplicate(&self) -> (copy: Self) {
        Path { components: vec_duplicate(&self.components) }
    }
}

/// Handle of a source type known to the session.
#[derive(Copy, Clone, Debug, PartialEq, Eq, Hash, Structural)]
pub struct TypeId(pub u32);

/// A reference to a type, resolved through the session when it is needed.
#[derive(Copy, Clone, Debug, PartialEq, Eq, Hash, Structural)]
pub struct TypeRef(pub TypeId);

impl TypeRef {
    pub fn new(id: TypeId) -> (ty_ref: TypeRef)
        ensures
            ty_ref == TypeRef(id),
    {
        TypeRef(id)
    }

    /// The position of the type in the session's table.
    pub open spec fn index(self) -> int {
        self.0.0 as int
    }

    /// The C++ type that the reference resolves to.
    pub fn as_cc(&self, db: &Database) -> (out: Outcome<cc::Ty>)
        requires
            db.wf(),
            db@.valid_ref(*self),
        ensures
            out.val == db@.cc_ty(*self),
            db@.valid_ty(out.val),
            out.errs@.len() == 0,
    {
        ok(db.cc_type(*self))
    }

    /// The Rust type that the reference resolves to, with the diagnostics of
    /// lowering it.
    pub fn as_rs(&self, db: &mut Database) -> (out: Outcome<rs::Ty>)
        requires
            old(db).wf(),
            old(db)@.valid_ref(*self),
        ensures
            final(db).wf(),
            final(db).extends(old(db)),
            out.val == old(db)@.rs_ty(*self),
            out.errs@ == old(db)@.ty_diags(old(db)@.cc_ty(*self)),
            old(db)@.cc_ty(*self) matches cc::Ty::Struct(id) ==> final(db).is_lowered(id),
        decreases old(db)@.cc_ty(*self).rank(), 8nat,
    {
        db.rs_type_of(*self)
    }
}

impl View for TypeRef {
    type V = TypeRef;

    open spec fn view(&self) -> TypeRef {
        *self
    }
}

impl Intern for TypeRef {
    fn same(&self, other: &Self) -> (b: bool) {
        *self == *other
    }

    fn duplicate(&self) -> (copy: Self) {
        *self
    }
}

/// A byte offset inside a struct.
pub type Offset = u16;

/// The least multiple of `align` that is not below `off`, for a positive
/// `align` and a non-negative `off`.
pub open spec fn round_up(off: int, align: int) -> int {
    ((off + (align - 1)) / align) * align
}

/// `round_up` yields a multiple of the alignment, and the nearest one from
/// below: less than one alignment step lies between the input and the result.
pub proof fn lemma_round_up_is_next_multiple(off: int, align: int)
    requires
        0 <= off,
        0 < align,
    ensures
        round_up(off, align) % align == 0,
        off <= round_up(off, align) < off + align,
{
    let q = (off + (align - 1)) / align;
    assert(off + (align - 1) == align * q + (off + (align - 1)) % align
        && 0 <= (off + (align - 1)) % align < align) by (nonlinear_arith)
        requires
            0 < align,
            q == (off + (align - 1)) / align,
    ;
    assert(q * align == align * q) by (nonlinear_arith);
    assert((q * align) % align == 0) by (nonlinear_arith)
        requires
            0 < align,
    ;
}

/// An offset that already is a multiple of the alignment is left alone.
pub proof fn lemma_round_up_of_multiple(off: int, align: int)
    requires
        0 <= off,
        0 < align,
        off % align == 0,
    ensures
        round_up(off, align) == off,
{
    lemma_round_up_is_next_multiple(off, align);
    let r = round_up(off, align);
    assert(r == off) by (nonlinear_arith)
        requires
            0 < align,
            off % align == 0,
            r % align == 0,
            off <= r < off + align,
    ;
}

/// Rounding up twice is the same as rounding up once.
pub proof fn lemma_round_up_idempotent(off: int, align: int)
    requires
        0 <= off,
        0 < align,
    ensures
        round_up(round_up(off, align), align) == round_up(off, align),
{
    lemma_round_up_is_next_multiple(off, align);
    lemma_round_up_of_multiple(round_up(off, align), align);
}

/// Rounding up keeps the order of offsets.
pub proof fn lemma_round_up_monotonic(a: int, b: int, align: int)
    requires
        0 <= a <= b,
        0 < align,
    ensures
        round_up(a, align) <= round_up(b, align),
{
    lemma_round_up_is_next_multiple(a, align);
    lemma_round_up_is_next_multiple(b, align);
    let ra = round_up(a, align);
    let rb = round_up(b, align);
    assert(ra <= rb) by (nonlinear_arith)
        requires
            0 < align,
            a <= b,
            ra % align == 0,
            rb % align == 0,
            a <= ra < a + align,
            b <= rb < b + align,
    ;
}

/// The alignment requirement of a type, in bytes. Never zero.
#[derive(Copy, Clone, Debug, PartialEq, Eq, Hash, Structural)]
pub struct Align(u16);

impl Align {
    #[verifier::type_invariant]
    spec fn nonzero(self) -> bool {
        self.0 != 0
    }

    /// The alignment as a number of bytes.
    pub closed spec fn value(self) -> int {
        self.0 as int
    }

    pub fn new(align: u16) -> (a: Align)
        requires
            align != 0,
        ensures
            a.value() == align,
    {
        Align(align)
    }

    pub fn get(&self) -> (v: u16)
        ensures
            v == self.value(),
            v > 0,
    {
        proof {
            use_type_invariant(self);
        }
        self.0
    }

    /// Writes the alignment in decimal.
    pub fn to_text(&self) -> (text: String)
        ensures
            text@ == decimal_text(self.value() as nat),
    {
        decimal(self.get() as u32)
    }
}

/// The size of a type, in bytes.
#[derive(Copy, Clone, Debug, PartialEq, Eq, Hash, Structural)]
pub struct Size(pub u16);

impl Size {
    pub fn new(size: u16) -> (s: Size)
        ensures
            s.0 == size,
    {
        Size(size)
    }
}

/// Rounds up an offset that may already have left the range of `Offset`.
pub(crate) fn round_up_wide(off: u32, align: Align) -> (r: u32)
    requires
        off <= 0x2_0000,
    ensures
        r == round_up(off as int, align.value()),
{
    let a: u32 = align.get() as u32;
    proof {
        lemma_round_up_is_next_multiple(off as int, a as int);
    }
    ((off + (a - 1)) / a) * a
}

/// Rounds `off` up to the next multiple of `align`.
pub fn align_to(off: Offset, align: Align) -> (r: Offset)
    requires
        round_up(off as int, align.value()) <= u16::MAX,
    ensures
        r == round_up(off as int, align.value()),
{
    round_up_wide(off as u32, align) as u16
}

} // verus!
