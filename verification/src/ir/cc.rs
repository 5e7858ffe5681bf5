//! C++ intermediate representation.

use crate::diagnostics::{decimal, err, ok, Diagnostic, Diagnostics, Outcome, Span};
use crate::ir::common::round_up_wide;
use crate::ir::db::Database;
use crate::ir::source::{align_note, offset_note, size_note};
use crate::ir::source::{lemma_first_mismatch_stable, lemma_struct_ok_upward, unlowered_type_diag};
use crate::intern::{views_of, Intern};
use crate::ir::common::{vec_duplicate, vec_same};
use crate::ir::rs;
pub use crate::ir::common::{Align, Ident, Offset, Path, Size, TypeId, TypeRef};
use vstd::prelude::*;

verus! {

/// Handle of an interned function definition.
#[derive(Copy, Clone, Debug, PartialEq, Eq, Hash, Structural)]
pub struct FunctionId(pub u32);

/// Handle of an interned struct definition.
#[derive(Copy, Clone, Debug, PartialEq, Eq, Hash, Structural)]
pub struct StructId(pub u32);

impl StructId {
    /// The position of the struct in the session's table.
    pub open spec fn index(self) -> int {
        self.0 as int
    }
}

#[derive(Copy, Clone, Debug, PartialEq, Eq, Hash, Structural)]
pub enum ItemKind {
    Struct(StructId),
}

impl ItemKind {
    pub fn from(st: StructId) -> (item: ItemKind)
        ensures
            item == ItemKind::Struct(st),
    {
        ItemKind::Struct(st)
    }
}

#[derive(Copy, Clone, Debug, PartialEq, Eq, Hash, Structural)]
pub enum Ty {
    Error,
    Void,
    Short,
    UShort,
    Int,
    UInt,
    Long,
    ULong,
    LongLong,
    ULongLong,
    /// `char` when the default char type is signed.
    CharS,
    /// `char` when the default char type is unsigned.
    CharU,
    SChar,
    UChar,
    Size,
    SSize,
    PtrDiff,
    Float,
    Double,
    Bool,
    Struct(StructId),
}

impl View for Ty {
    type V = Ty;

    open spec fn view(&self) -> Ty {
        *self
    }
}

impl Intern for Ty {
    fn same(&self, other: &Self) -> (b: bool) {
        *self == *other
    }

    fn duplicate(&self) -> (copy: Self) {
        *self
    }
}

impl Ty {
    /// Whether the type is one of the integer kinds, characters included.
    pub open spec fn integral(self) -> bool {
        match self {
            Ty::Short | Ty::UShort | Ty::Int | Ty::UInt | Ty::Long | Ty::ULong | Ty::LongLong
            | Ty::ULongLong | Ty::CharS | Ty::CharU | Ty::SChar | Ty::UChar | Ty::Size | Ty::SSize
            | Ty::PtrDiff => true,
            _ => false,
        }
    }

    /// Whether the type is one of the two floating kinds.
    pub open spec fn floating(self) -> bool {
        self == Ty::Float || self == Ty::Double
    }

    /// Whether the language itself defines the type.
    pub open spec fn builtin(self) -> bool {
        self == Ty::Void || self == Ty::Bool || self.integral() || self.floating()
    }

    /// The Rust type that stands for this type: the fixed table for the
    /// builtin types, and for a struct the struct lowered from it.
    pub open spec fn rust_ty(self) -> rs::Ty {
        match self {
            Ty::Error => rs::Ty::Error,
            Ty::Void => rs::Ty::Unit,
            Ty::Short => rs::Ty::I16,
            Ty::UShort => rs::Ty::U16,
            Ty::Int => rs::Ty::I32,
            Ty::UInt => rs::Ty::U32,
            Ty::Long => rs::Ty::I64,
            Ty::ULong => rs::Ty::U64,
            Ty::LongLong => rs::Ty::I64,
            Ty::ULongLong => rs::Ty::U64,
            Ty::CharS | Ty::SChar => rs::Ty::I8,
            Ty::CharU | Ty::UChar => rs::Ty::U8,
            Ty::Size => rs::Ty::USize,
            Ty::SSize => rs::Ty::ISize,
            Ty::PtrDiff => rs::Ty::ISize,
            Ty::Float => rs::Ty::F32,
            Ty::Double => rs::Ty::F64,
            Ty::Bool => rs::Ty::Bool,
            Ty::Struct(id) => rs::Ty::Struct(rs::StructId(id.0)),
        }
    }

    /// A number that is larger for a struct than for any struct interned
    /// before it, and 0 for all other types.
    pub open spec fn rank(self) -> nat {
        match self {
            Ty::Struct(id) => (id.index() + 1) as nat,
            _ => 0,
        }
    }

    /// Lowers the type: the fixed table for the builtin types, and for a
    /// struct the lowering of that struct with its diagnostics.
    pub fn to_rust(&self, db: &mut Database) -> (out: Outcome<rs::Ty>)
        requires
            old(db).wf(),
            old(db)@.valid_ty(*self),
        ensures
            final(db).wf(),
            final(db).extends(old(db)),
            out.val == self.rust_ty(),
            out.errs@ == old(db)@.ty_diags(*self),
            *self matches Ty::Struct(id) ==> final(db).is_lowered(id),
        decreases self.rank(), 6nat,
    {
        match self {
            Ty::Struct(id) => {
                let (rs_id, errs) = db.rs_struct_from_cc(*id).split();
                Outcome::from_parts(rs::Ty::Struct(rs_id), errs)
            },
            _ => ok(self.rust_type()),
        }
    }

    /// The Rust type that stands for this type.
    pub fn rust_type(&self) -> (ty: rs::Ty)
        ensures
            ty == self.rust_ty(),
    {
        match self {
            Ty::Error => rs::Ty::Error,
            Ty::Void => rs::Ty::Unit,
            Ty::Short => rs::Ty::I16,
            Ty::UShort => rs::Ty::U16,
            Ty::Int => rs::Ty::I32,
            Ty::UInt => rs::Ty::U32,
            Ty::Long => rs::Ty::I64,
            Ty::ULong => rs::Ty::U64,
            Ty::LongLong => rs::Ty::I64,
            Ty::ULongLong => rs::Ty::U64,
            Ty::CharS | Ty::SChar => rs::Ty::I8,
            Ty::CharU | Ty::UChar => rs::Ty::U8,
            Ty::Size => rs::Ty::USize,
            Ty::SSize => rs::Ty::ISize,
            Ty::PtrDiff => rs::Ty::ISize,
            Ty::Float => rs::Ty::F32,
            Ty::Double => rs::Ty::F64,
            Ty::Bool => rs::Ty::Bool,
            Ty::Struct(id) => rs::Ty::Struct(rs::StructId(id.0)),
        }
    }

    /// Whether the type may show in a public place.
    pub fn is_visible(&self, db: &Database) -> (b: bool)
        ensures
            b == db@.visible(*self),
    {
        match self {
            Ty::Struct(id) => db.is_exported(*id),
            _ => self.is_builtin(),
        }
    }

    pub fn is_integral(&self) -> (b: bool)
        ensures
            b == self.integral(),
    {
        match self {
            Ty::Error => false,
            Ty::Void => false,
            Ty::Short
            | Ty::UShort
            | Ty::Int
            | Ty::UInt
            | Ty::Long
            | Ty::ULong
            | Ty::LongLong
            | Ty::ULongLong
            | Ty::CharS
            | Ty::CharU
            | Ty::SChar
            | Ty::UChar
            | Ty::Size
            | Ty::SSize
            | Ty::PtrDiff => true,
            Ty::Float | Ty::Double => false,
            Ty::Bool => false,
            Ty::Struct(_) => false,
        }
    }

    pub fn is_floating(&self) -> (b: bool)
        ensures
            b == self.floating(),
    {
        match self {
            Ty::Error => false,
            Ty::Void => false,
            Ty::Float | Ty::Double => true,
            Ty::Short
            | Ty::UShort
            | Ty::Int
            | Ty::UInt
            | Ty::Long
            | Ty::ULong
            | Ty::LongLong
            | Ty::ULongLong
            | Ty::CharS
            | Ty::CharU
            | Ty::SChar
            | Ty::UChar
            | Ty::Size
            | Ty::SSize
            | Ty::PtrDiff => false,
            Ty::Bool => false,
            Ty::Struct(_) => false,
        }
    }

    pub fn is_builtin(&self) -> (b: bool)
        ensures
            b == self.builtin(),
    {
        match self {
            Ty::Error => false,
            Ty::Void => true,
            Ty::Float | Ty::Double => true,
            Ty::Short
            | Ty::UShort
            | Ty::Int
            | Ty::UInt
            | Ty::Long
            | Ty::ULong
            | Ty::LongLong
            | Ty::ULongLong
            | Ty::CharS
            | Ty::CharU
            | Ty::SChar
            | Ty::UChar
            | Ty::Size
            | Ty::SSize
            | Ty::PtrDiff => true,
            Ty::Bool => true,
            Ty::Struct(_) => false,
        }
    }

    pub fn is_error(&self) -> (b: bool)
        ensures
            b == (*self == Ty::Error),
    {
        *self == Ty::Error
    }
}

/// The table that lowers types is total and keeps the classes apart: the
/// error placeholder and nothing else becomes the error placeholder, a
/// struct and nothing else becomes a struct, and that with its own handle;
/// every builtin type becomes a Rust scalar, an integral one an integer, a
/// floating one a float of the same width.
pub proof fn lemma_rust_ty_classes(ty: Ty)
    ensures
        ty == Ty::Error <==> ty.rust_ty() == rs::Ty::Error,
        ty is Struct <==> ty.rust_ty() is Struct,
        ty matches Ty::Struct(id) ==> ty.rust_ty() == rs::Ty::Struct(rs::StructId(id.0)),
        ty == Ty::Void <==> ty.rust_ty() == rs::Ty::Unit,
        ty == Ty::Bool <==> ty.rust_ty() == rs::Ty::Bool,
        ty.integral() <==> ty.rust_ty().integer(),
        ty.floating() <==> ty.rust_ty().float(),
        ty == Ty::Float <==> ty.rust_ty() == rs::Ty::F32,
        ty == Ty::Double <==> ty.rust_ty() == rs::Ty::F64,
{
}

/// Two structs lower to the same Rust type only if they are the same.
pub proof fn lemma_rust_ty_of_structs(a: StructId, b: StructId)
    ensures
        Ty::Struct(a).rust_ty() == Ty::Struct(b).rust_ty() <==> a == b,
{
}

/// Every type is of exactly one class: the error placeholder, a builtin type
/// or a struct; and no builtin type is both integral and floating.
pub proof fn lemma_type_classes(ty: Ty)
    ensures
        ty == Ty::Error || ty.builtin() || ty is Struct,
        !(ty == Ty::Error && ty.builtin()),
        !(ty.builtin() && ty is Struct),
        !(ty.integral() && ty.floating()),
{
}

#[derive(Debug)]
pub struct Field {
    pub name: Ident,
    pub ty: TypeRef,
    pub span: Span,
}

pub struct FieldView {
    pub name: Seq<char>,
    pub ty: TypeRef,
    pub span: Span,
}

impl View for Field {
    type V = FieldView;

    open spec fn view(&self) -> FieldView {
        FieldView { name: self.name@, ty: self.ty, span: self.span }
    }
}

impl Intern for Field {
    fn same(&self, other: &Self) -> (b: bool) {
        self.name.same(&other.name) && self.ty == other.ty && self.span == other.span
    }

    fn duplicate(&self) -> (copy: Self) {
        Field { name: self.name.duplicate(), ty: self.ty, span: self.span }
    }
}

#[derive(Debug)]
pub struct Function {
    pub name: Ident,
    pub param_tys: Vec<TypeRef>,
    pub param_names: Vec<Option<Ident>>,
    pub return_ty: TypeRef,
    /// Whether this function is a non-static method.
    ///
    /// Methods have an implicit `this` type as their first parameter.
    pub is_method: bool,
    /// For non-static methods, whether `this` is const.
    pub is_const: bool,
}

pub struct FunctionView {
    pub name: Seq<char>,
    pub param_tys: Seq<TypeRef>,
    pub param_names: Seq<Option<Seq<char>>>,
    pub return_ty: TypeRef,
    pub is_method: bool,
    pub is_const: bool,
}

/// The text of a name that may be missing.
pub open spec fn name_text(name: Option<Ident>) -> Option<Seq<char>> {
    match name {
        Some(id) => Some(id@),
        None => None,
    }
}

/// The texts of a list of names that may be missing.
pub open spec fn name_texts(names: Seq<Option<Ident>>) -> Seq<Option<Seq<char>>> {
    names.map_values(|n: Option<Ident>| name_text(n))
}

fn names_same(a: &Vec<Option<Ident>>, b: &Vec<Option<Ident>>) -> (r: bool)
    ensures
        r == (name_texts(a@) == name_texts(b@)),
{
    if a.len() != b.len() {
        assert(name_texts(a@).len() != name_texts(b@).len());
        return false;
    }
    let mut i: usize = 0;
    while i < a.len()
        invariant
            i <= a.len(),
            a.len() == b.len(),
            forall|j: int| 0 <= j < i ==> name_text(#[trigger] a@[j]) == name_text(b@[j]),
        decreases a.len() - i,
    {
        let equal = match (&a[i], &b[i]) {
            (Some(x), Some(y)) => x.same(y),
            (None, None) => true,
            _ => false,
        };
        if !equal {
            assert(name_texts(a@)[i as int] != name_texts(b@)[i as int]);
            return false;
        }
        i += 1;
    }
    assert(name_texts(a@) =~= name_texts(b@));
    true
}

fn names_duplicate(a: &Vec<Option<Ident>>) -> (copy: Vec<Option<Ident>>)
    ensures
        name_texts(copy@) == name_texts(a@),
{
    let mut copy: Vec<Option<Ident>> = Vec::new();
    let mut i: usize = 0;
    while i < a.len()
        invariant
            i <= a.len(),
            copy@.len() == i,
            forall|j: int| 0 <= j < i ==> name_text(#[trigger] copy@[j]) == name_text(a@[j]),
        decreases a.len() - i,
    {
        let name = match &a[i] {
            Some(x) => Some(x.duplicate()),
            None => None,
        };
        copy.push(name);
        i += 1;
    }
    assert(name_texts(copy@) =~= name_texts(a@));
    copy
}

impl View for Function {
    type V = FunctionView;

    open spec fn view(&self) -> FunctionView {
        FunctionView {
            name: self.name@,
            param_tys: self.param_tys@,
            param_names: name_texts(self.param_names@),
            return_ty: self.return_ty,
            is_method: self.is_method,
            is_const: self.is_const,
        }
    }
}

impl Intern for Function {
    fn same(&self, other: &Self) -> (b: bool) {
        let tys = vec_same(&self.param_tys, &other.param_tys);
        proof {
            assert(views_of(self.param_tys@) =~= self.param_tys@);
            assert(views_of(other.param_tys@) =~= other.param_tys@);
        }
        self.name.same(&other.name) && tys && names_same(&self.param_names, &other.param_names)
            && self.return_ty == other.return_ty && self.is_method == other.is_method
            && self.is_const == other.is_const
    }

    fn duplicate(&self) -> (copy: Self) {
        let param_tys = vec_duplicate(&self.param_tys);
        proof {
            assert(views_of(self.param_tys@) =~= self.param_tys@);
            assert(views_of(param_tys@) =~= param_tys@);
        }
        Function {
            name: self.name.duplicate(),
            param_tys,
            param_names: names_duplicate(&self.param_names),
            return_ty: self.return_ty,
            is_method: self.is_method,
            is_const: self.is_const,
        }
    }
}

#[derive(Debug)]
pub struct Struct {
    pub name: Path,
    pub fields: Vec<Field>,
    pub offsets: Vec<Offset>,
    pub methods: Vec<Function>,
    pub size: Size,
    pub align: Align,
    pub span: Span,
}

pub struct StructView {
    pub name: Seq<Seq<char>>,
    pub fields: Seq<FieldView>,
    pub offsets: Seq<Offset>,
    pub methods: Seq<FunctionView>,
    pub size: Size,
    pub align: Align,
    pub span: Span,
}

impl View for Struct {
    type V = StructView;

    open spec fn view(&self) -> StructView {
        StructView {
            name: self.name@,
            fields: views_of(self.fields@),
            offsets: self.offsets@,
            methods: views_of(self.methods@),
            size: self.size,
            align: self.align,
            span: self.span,
        }
    }
}

/// Writes the note on a field's offset.
fn offset_note_text(expected: u32, actual: u32) -> (text: String)
    ensures
        text@ == offset_note(expected as int, actual as int),
{
    let mut text = String::from_str("expected an offset of ");
    text.append(decimal(expected).as_str());
    text.append(", but the offset is ");
    text.append(decimal(actual).as_str());
    text
}

/// Writes the note on a struct's size.
fn size_note_text(expected: u32, actual: u32) -> (text: String)
    ensures
        text@ == size_note(expected as int, actual as int),
{
    let mut text = String::from_str("expected a size of ");
    text.append(decimal(expected).as_str());
    text.append(", but the size is ");
    text.append(decimal(actual).as_str());
    text
}

/// Writes the note on a struct's alignment.
fn align_note_text(expected: u32, actual: u32) -> (text: String)
    ensures
        text@ == align_note(expected as int, actual as int),
{
    let mut text = String::from_str("expected an alignment of ");
    text.append(decimal(expected).as_str());
    text.append(", but the alignment is ");
    text.append(decimal(actual).as_str());
    text
}

impl StructId {
    /// A copy of the struct behind the handle.
    pub fn lookup(&self, db: &Database) -> (st: Struct)
        requires
            db.wf(),
            db@.valid_struct(*self),
        ensures
            st@ == db@.structs[self.index()],
            db@.struct_ok(st@, self.index()),
    {
        db.lookup_intern_cc_struct(*self)
    }
}

impl Function {
    /// The types of the parameters.
    pub fn param_tys(&self, db: &Database) -> (tys: Vec<Ty>)
        requires
            db.wf(),
            forall|p: int| 0 <= p < self@.param_tys.len() ==> db@.valid_ref(#[trigger] self@.param_tys[p]),
        ensures
            tys@ == self@.param_tys.map_values(|r: TypeRef| db@.cc_ty(r)),
    {
        let mut tys: Vec<Ty> = Vec::new();
        let mut p: usize = 0;
        while p < self.param_tys.len()
            invariant
                db.wf(),
                forall|q: int|
                    0 <= q < self@.param_tys.len() ==> db@.valid_ref(#[trigger] self@.param_tys[q]),
                p <= self.param_tys.len(),
                tys@.len() == p,
                forall|q: int| 0 <= q < p ==> tys@[q] == db@.cc_ty(self@.param_tys[q]),
            decreases self.param_tys.len() - p,
        {
            assert(db@.valid_ref(self@.param_tys[p as int]));
            tys.push(self.param_tys[p].as_cc(db).skip_errs());
            p += 1;
        }
        assert(tys@ =~= self@.param_tys.map_values(|r: TypeRef| db@.cc_ty(r)));
        tys
    }

    /// The type of the result.
    pub fn return_ty(&self, db: &Database) -> (ty: Ty)
        requires
            db.wf(),
            db@.valid_ref(self@.return_ty),
        ensures
            ty == db@.cc_ty(self@.return_ty),
    {
        self.return_ty.as_cc(db).skip_errs()
    }

    /// Lowers the types of the signature, met at `at`, and hands back the
    /// diagnostics.
    fn check_signature(&self, db: &mut Database, id: StructId, at: Span) -> (errs: Diagnostics)
        requires
            old(db).wf(),
            old(db)@.function_ok(self@, id.index()),
        ensures
            final(db).wf(),
            final(db).extends(old(db)),
            errs@ == old(db)@.function_diags(self@, at, id.index() as nat),
        decreases id.index() + 1, 2nat,
    {
        let ghost src = db@;
        let ghost bound = id.index() as nat;
        let mut errs = Diagnostics::new();
        let mut p: usize = 0;
        while p < self.param_tys.len()
            invariant
                db.wf(),
                db@ == src,
                src == old(db)@,
                forall|x: StructId| old(db).is_lowered(x) ==> db.is_lowered(x),
                src.function_ok(self@, id.index()),
                bound == id.index(),
                p <= self.param_tys.len(),
                errs@ == src.refs_diags(self@.param_tys, at, bound, p as nat),
            decreases self.param_tys.len() - p,
        {
            let ty_ref = self.param_tys[p];
            assert(src.ref_below(self@.param_tys[p as int], id.index()));
            let more = check_type(db, ty_ref, at, id);
            errs.append(more);
            p += 1;
        }
        assert(src.ref_below(self@.return_ty, id.index()));
        let more = check_type(db, self.return_ty, at, id);
        errs.append(more);
        errs
    }
}

/// What is reported of the error type where a struct names it.
fn unlowered_type(at: Span) -> (d: Diagnostic)
    ensures
        d@ == unlowered_type_diag(at),
{
    Diagnostic::error("unsupported type", at.label("the type named here could not be lowered"))
}

/// Lowers a type that a struct with handle `id` names at `at` and hands
/// back the diagnostics. The error type is one.
fn check_type(db: &mut Database, ty_ref: TypeRef, at: Span, id: StructId) -> (errs: Diagnostics)
    requires
        old(db).wf(),
        old(db)@.ref_below(ty_ref, id.index()),
    ensures
        final(db).wf(),
        final(db).extends(old(db)),
        errs@ == old(db)@.ref_diags(ty_ref, at, id.index() as nat),
        old(db)@.cc_ty(ty_ref) matches Ty::Struct(nested) ==> final(db).is_lowered(nested),
    decreases id.index() + 1, 1nat,
{
    let (ty, errs) = ty_ref.as_rs(db).split();
    let mut errs = errs;
    if ty == rs::Ty::Error {
        errs.add(unlowered_type(at));
    }
    errs
}

impl Struct {
    /// Lowers the types of all methods' signatures and hands back the
    /// diagnostics.
    fn check_methods(&self, db: &mut Database, id: StructId) -> (errs: Diagnostics)
        requires
            old(db).wf(),
            old(db)@.struct_ok(self@, id.index()),
        ensures
            final(db).wf(),
            final(db).extends(old(db)),
            errs@ == old(db)@.methods_diags(
                self@.methods,
                self@.span,
                id.index() as nat,
                self@.methods.len(),
            ),
        decreases id.index() + 1, 3nat,
    {
        let ghost src = db@;
        let ghost bound = id.index() as nat;
        let mut errs = Diagnostics::new();
        let mut m: usize = 0;
        assert(self.methods@.len() == self@.methods.len());
        while m < self.methods.len()
            invariant
                db.wf(),
                db@ == src,
                src == old(db)@,
                forall|x: StructId| old(db).is_lowered(x) ==> db.is_lowered(x),
                src.struct_ok(self@, id.index()),
                bound == id.index(),
                m <= self.methods.len(),
                self.methods@.len() == self@.methods.len(),
                errs@ == src.methods_diags(self@.methods, self@.span, bound, m as nat),
            decreases self.methods.len() - m,
        {
            let method = &self.methods[m];
            assert(method@ == self@.methods[m as int]);
            assert(src.function_ok(self@.methods[m as int], id.index()));
            let more = method.check_signature(db, id, self.span);
            errs.append(more);
            m += 1;
        }
        errs
    }

    /// Lowers the fields: each gets the visibility of its type, and the
    /// diagnostics of lowering the types are collected.
    fn lower_fields(&self, db: &mut Database, id: StructId) -> (out: Outcome<Vec<rs::Field>>)
        requires
            old(db).wf(),
            old(db)@.struct_ok(self@, id.index()),
        ensures
            final(db).wf(),
            final(db).extends(old(db)),
            views_of(out.val@) == old(db)@.rs_fields(self@.fields),
            out.errs@ == old(db)@.fields_diags(
                self@.fields,
                id.index() as nat,
                self@.fields.len(),
            ),
        decreases id.index() + 1, 3nat,
    {
        let ghost src = db@;
        let ghost st = self@;
        let ghost bound = id.index() as nat;
        let mut errs = Diagnostics::new();
        let mut fields: Vec<rs::Field> = Vec::new();
        let mut i: usize = 0;
        assert(self.fields@.len() == st.fields.len());
        while i < self.fields.len()
            invariant
                db.wf(),
                db@ == src,
                src == old(db)@,
                st == self@,
                forall|x: StructId| old(db).is_lowered(x) ==> db.is_lowered(x),
                src.struct_ok(st, id.index()),
                bound == id.index(),
                i <= self.fields.len(),
                self.fields@.len() == st.fields.len(),
                fields@.len() == i,
                forall|j: int| 0 <= j < i ==> (#[trigger] fields@[j])@ == src.rs_field(st.fields[j]),
                errs@ == src.fields_diags(st.fields, bound, i as nat),
            decreases self.fields.len() - i,
        {
            let field = &self.fields[i];
            assert(field@ == st.fields[i as int]);
            assert(src.ref_below(st.fields[i as int].ty, id.index()));
            let cc_ty = field.ty.as_cc(db).skip_errs();
            let more = check_type(db, field.ty, field.span, id);
            errs.append(more);
            let vis = if cc_ty.is_visible(db) {
                rs::Visibility::Public
            } else {
                rs::Visibility::Private
            };
            fields.push(
                rs::Field { name: field.name.duplicate(), ty: field.ty, span: field.span, vis },
            );
            i += 1;
        }
        assert(views_of(fields@) =~= src.rs_fields(st.fields));
        Outcome::from_parts(fields, errs)
    }

    /// The methods, as methods of the Rust struct.
    fn lower_methods(&self) -> (methods: Vec<rs::Method>)
        ensures
            views_of(methods@) == self@.methods,
    {
        let mut methods: Vec<rs::Method> = Vec::new();
        let mut i: usize = 0;
        while i < self.methods.len()
            invariant
                i <= self.methods.len(),
                methods@.len() == i,
                forall|j: int| 0 <= j < i ==> (#[trigger] methods@[j])@ == self.methods@[j]@,
            decreases self.methods.len() - i,
        {
            methods.push(rs::Method(self.methods[i].duplicate()));
            i += 1;
        }
        assert(views_of(methods@) =~= self@.methods);
        methods
    }

    /// Lowers the struct interned under `id` to a Rust struct and proves its
    /// layout. All that is found wrong is reported together: with the
    /// methods' signatures, with the fields' types, with the layout.
    pub fn to_rust(&self, db: &mut Database, id: StructId) -> (out: Outcome<rs::Struct>)
        requires
            old(db).wf(),
            old(db)@.valid_struct(id),
            self@ == old(db)@.structs[id.index()],
        ensures
            final(db).wf(),
            final(db).extends(old(db)),
            out.val@ == old(db)@.rs_struct(id),
            out.errs@ == old(db)@.struct_diags(id.index() as nat),
        decreases id.index() + 1, 4nat,
    {
        let ghost src = db@;
        assert(src.struct_ok(self@, id.index()));
        let mut errs = self.check_methods(db, id);
        let (fields, field_errs) = self.lower_fields(db, id).split();
        errs.append(field_errs);
        proof {
            lemma_struct_ok_upward(src, self@, id.index(), src.structs.len() as int);
        }
        let layout = self.check_offsets(db, &fields);
        errs.append(layout.errs());
        let vis = if db.is_exported(id) {
            rs::Visibility::Public
        } else {
            rs::Visibility::Private
        };
        let offsets = vec_duplicate(&self.offsets);
        proof {
            assert(views_of(self.offsets@) =~= self.offsets@);
            assert(views_of(offsets@) =~= offsets@);
        }
        let st = rs::Struct {
            name: self.name.duplicate(),
            fields,
            offsets,
            methods: self.lower_methods(),
            vis,
            repr: rs::Repr::C,
            size: self.size,
            align: self.align,
            span: self.span,
            cc_id: id,
        };
        Outcome::from_parts(st, errs)
    }

    /// Computes the layout that the fields' types call for and holds the
    /// recorded offsets, size and alignment against it.
    pub fn check_offsets(&self, db: &Database, fields: &Vec<rs::Field>) -> (out: Outcome<()>)
        requires
            db.wf(),
            db@.struct_ok(self@, db@.structs.len() as int),
            views_of(fields@) == db@.rs_fields(self@.fields),
        ensures
            out.errs@ == db@.layout_diags(self@),
    {
        let ghost src = db@;
        let ghost st = self@;
        let mut offset: u32 = 0;
        let mut align: Align = self.align;
        let mut idx: usize = 0;
        assert(fields@.len() == views_of(fields@).len());
        assert(self.fields@.len() == st.fields.len());
        while idx < fields.len()
            invariant
                db.wf(),
                src == db@,
                st == self@,
                src.struct_ok(st, src.structs.len() as int),
                views_of(fields@) == src.rs_fields(st.fields),
                fields@.len() == st.fields.len(),
                st.fields.len() == self.offsets@.len(),
                idx <= fields.len(),
                src.first_mismatch(st, idx as nat) is None,
                offset == src.end_offset(st, idx as nat),
                offset <= 0x1_fffe,
                align.value() == src.running_align(st, idx as nat),
            decreases fields.len() - idx,
        {
            let field = &fields[idx];
            assert(field@ == views_of(fields@)[idx as int]);
            assert(field@ == src.rs_field(st.fields[idx as int]));
            assert(src.ref_below(st.fields[idx as int].ty, src.structs.len() as int));
            let field_ty = field.ty(db);
            let field_align = field_ty.align(db);
            let expected: u32 = round_up_wide(offset, field_align);
            if field_align.get() > align.get() {
                align = field_align;
            }
            let actual: u16 = self.offsets[idx];
            assert(expected == src.expected_offset(st, idx as nat));
            if expected != actual as u32 {
                proof {
                    assert(src.first_mismatch(st, (idx + 1) as nat) == Some(idx as nat));
                    lemma_first_mismatch_stable(src, st, (idx + 1) as nat, st.fields.len());
                }
                let diag = Diagnostic::error(
                    "unexpected field offset",
                    field.span.label("this field was not at the expected offset"),
                ).with_note(offset_note_text(expected, actual as u32));
                let diag = if (actual as u32) < expected {
                    diag.with_note(String::from_str("packed structs not supported"))
                } else {
                    diag
                };
                return err((), diag);
            }
            offset = expected + field_ty.size(db).0 as u32;
            idx += 1;
        }
        let size: u32 = round_up_wide(offset, align);
        let recorded_size: u32 = self.size.0 as u32;
        let recorded_align: u16 = self.align.get();
        if size != recorded_size || align.get() != recorded_align {
            let mut diag = Diagnostic::error(
                "unexpected struct layout",
                self.span.label("this struct does not have a standard C layout"),
            );
            if size != recorded_size {
                diag = diag.with_note(size_note_text(size, recorded_size));
            }
            if align.get() != recorded_align {
                diag = diag.with_note(align_note_text(align.get() as u32, recorded_align as u32));
            }
            if recorded_size < size || recorded_align < align.get() {
                diag = diag.with_note(String::from_str("packed structs not supported"));
            }
            return err((), diag);
        }
        ok(())
    }
}

impl Intern for Struct {
    fn same(&self, other: &Self) -> (b: bool) {
        let offsets = vec_same(&self.offsets, &other.offsets);
        proof {
            assert(views_of(self.offsets@) =~= self.offsets@);
            assert(views_of(other.offsets@) =~= other.offsets@);
        }
        self.name.same(&other.name) && vec_same(&self.fields, &other.fields) && offsets
            && vec_same(&self.methods, &other.methods) && self.size == other.size && self.align
            == other.align && self.span == other.span
    }

    fn duplicate(&self) -> (copy: Self) {
        let offsets = vec_duplicate(&self.offsets);
        proof {
            assert(views_of(self.offsets@) =~= self.offsets@);
            assert(views_of(offsets@) =~= offsets@);
        }
        Struct {
            name: self.name.duplicate(),
            fields: vec_duplicate(&self.fields),
            offsets,
            methods: vec_duplicate(&self.methods),
            size: self.size,
            align: self.align,
            span: self.span,
        }
    }
}

} // verus!
