//! Rust intermediate representation.

use crate::diagnostics::Span;
use crate::ir::db::Database;
use crate::intern::{distinct, views_of, Intern};
use crate::ir::cc;
pub use crate::ir::cc::{Function, FunctionId};
use crate::ir::common::vec_duplicate;
pub use crate::ir::common::{Align, Ident, Offset, Path, Size, TypeId, TypeRef};
use vstd::prelude::*;

verus! {

/// Handle of a lowered struct.
#[derive(Copy, Clone, Debug, PartialEq, Eq, Hash, Structural)]
pub struct StructId(pub u32);

impl StructId {
    /// The position of the struct in the session's table.
    pub open spec fn index(self) -> int {
        self.0 as int
    }
}

#[derive(Copy, Clone, Debug, PartialEq, Eq, Hash, Structural)]
pub enum ItemKind {
    Struct(StructId),
}

impl ItemKind {
    /// The struct that the item is.
    pub open spec fn struct_id(self) -> StructId {
        match self {
            ItemKind::Struct(id) => id,
        }
    }
}

impl StructId {
    /// A copy of the lowered struct behind the handle.
    pub fn lookup(&self, db: &Database) -> (st: Struct)
        requires
            db.wf(),
            db.is_lowered(cc::StructId(self.0)),
        ensures
            st@ == db@.rs_struct(cc::StructId(self.0)),
    {
        db.lookup_intern_struct(*self)
    }
}

/// The finished Rust side of a module: the items to generate, in the order
/// in which they were reached, and those among them that are exported.
#[derive(Debug)]
pub struct Module {
    pub items: Vec<ItemKind>,
    pub exports: Vec<ItemKind>,
}

impl Module {
    /// What holds of a module as a set of items with a subset of exports: no
    /// item and no export stands twice, and every export is an item.
    pub open spec fn wf(&self) -> bool {
        &&& distinct(self.items@)
        &&& distinct(self.exports@)
        &&& forall|i: int| 0 <= i < self.exports@.len() ==> self.items@.contains(#[trigger] self.exports@[i])
    }

    /// The exported structs.
    pub fn exported_structs(&self) -> (structs: Vec<StructId>)
        ensures
            structs@ == self.exports@.map_values(|item: ItemKind| item.struct_id()),
    {
        let mut structs: Vec<StructId> = Vec::new();
        let mut i: usize = 0;
        while i < self.exports.len()
            invariant
                i <= self.exports.len(),
                structs@.len() == i,
                forall|j: int| 0 <= j < i ==> structs@[j] == self.exports@[j].struct_id(),
            decreases self.exports.len() - i,
        {
            match self.exports[i] {
                ItemKind::Struct(id) => structs.push(id),
            }
            i += 1;
        }
        assert(structs@ =~= self.exports@.map_values(|item: ItemKind| item.struct_id()));
        structs
    }
}

/// Represents properties of a Rust type in a `#[repr(C)]` struct.
#[derive(Copy, Clone, Debug, PartialEq, Eq, Hash, Structural)]
pub enum Ty {
    Error,
    Unit,
    U8,
    I8,
    U16,
    I16,
    U32,
    I32,
    U64,
    I64,
    USize,
    ISize,
    F32,
    F64,
    Bool,
    Struct(StructId),
}

impl Ty {
    /// The size in bytes of a type other than a struct; 0 for a struct.
    pub open spec fn scalar_size(self) -> int {
        match self {
            Ty::Error => 0,
            Ty::Unit => 0,
            Ty::U8 | Ty::I8 => 1,
            Ty::U16 | Ty::I16 => 2,
            Ty::U32 | Ty::I32 => 4,
            Ty::U64 | Ty::I64 => 8,
            Ty::USize => 8,
            Ty::ISize => 8,
            Ty::F32 => 4,
            Ty::F64 => 8,
            Ty::Bool => 1,
            Ty::Struct(_) => 0,
        }
    }

    /// Whether the type is one of the integer types.
    pub open spec fn integer(self) -> bool {
        match self {
            Ty::U8
            | Ty::I8
            | Ty::U16
            | Ty::I16
            | Ty::U32
            | Ty::I32
            | Ty::U64
            | Ty::I64
            | Ty::USize
            | Ty::ISize => true,
            _ => false,
        }
    }

    /// Whether the type is one of the two floating types.
    pub open spec fn float(self) -> bool {
        self == Ty::F32 || self == Ty::F64
    }

    /// The alignment in bytes of a type other than a struct: its size, and 1
    /// where it has no size.
    pub open spec fn scalar_align(self) -> int {
        if self.scalar_size() == 0 {
            1
        } else {
            self.scalar_size()
        }
    }
}

impl Ty {
    /// The size of the type in bytes.
    pub fn size(&self, db: &Database) -> (size: Size)
        requires
            db.wf(),
            *self matches Ty::Struct(id) ==> db@.valid_struct(cc::StructId(id.0)),
        ensures
            size.0 == db@.size_of(*self),
    {
        let sz: u16 = match self {
            Ty::Error => 0,
            Ty::Unit => 0,
            Ty::U8 | Ty::I8 => 1,
            Ty::U16 | Ty::I16 => 2,
            Ty::U32 | Ty::I32 => 4,
            Ty::U64 | Ty::I64 => 8,
            Ty::USize => 8,
            Ty::ISize => 8,
            Ty::F32 => 4,
            Ty::F64 => 8,
            Ty::Bool => 1,
            Ty::Struct(id) => {
                return match db.cached(cc::StructId(id.0)) {
                    Some(lowered) => lowered.st.size,
                    None => db.cc_struct(cc::StructId(id.0)).size,
                };
            },
        };
        Size::new(sz)
    }

    /// The alignment of the type in bytes.
    pub fn align(&self, db: &Database) -> (align: Align)
        requires
            db.wf(),
            *self matches Ty::Struct(id) ==> db@.valid_struct(cc::StructId(id.0)),
        ensures
            align.value() == db@.align_of(*self),
    {
        match self {
            Ty::Struct(id) => match db.cached(cc::StructId(id.0)) {
                Some(lowered) => lowered.st.align,
                None => db.cc_struct(cc::StructId(id.0)).align,
            },
            _ => {
                let sz: u16 = self.size(db).0;
                if sz == 0 {
                    Align::new(1)
                } else {
                    Align::new(sz)
                }
            },
        }
    }
}

#[derive(Copy, Clone, Debug, PartialEq, Eq, Hash, Structural)]
pub enum Visibility {
    Public,
    Private,
}

#[derive(Debug)]
pub struct Field {
    pub name: Ident,
    pub ty: TypeRef,
    pub span: Span,
    pub vis: Visibility,
}

pub struct FieldView {
    pub name: Seq<char>,
    pub ty: TypeRef,
    pub span: Span,
    pub vis: Visibility,
}

impl View for Field {
    type V = FieldView;

    open spec fn view(&self) -> FieldView {
        FieldView { name: self.name@, ty: self.ty, span: self.span, vis: self.vis }
    }
}

impl Field {
    /// The type of the field.
    pub fn ty(&self, db: &Database) -> (ty: Ty)
        requires
            db.wf(),
            db@.valid_ref(self.ty),
        ensures
            ty == db@.rs_ty(self.ty),
            ty matches Ty::Struct(id) ==> db@.valid_struct(cc::StructId(id.0)),
    {
        db.cc_type(self.ty).rust_type()
    }
}

impl Intern for Field {
    fn same(&self, other: &Self) -> (b: bool) {
        self.name.same(&other.name) && self.ty == other.ty && self.span == other.span && self.vis
            == other.vis
    }

    fn duplicate(&self) -> (copy: Self) {
        Field { name: self.name.duplicate(), ty: self.ty, span: self.span, vis: self.vis }
    }
}

#[derive(Copy, Clone, Debug, PartialEq, Eq, Hash, Structural)]
pub enum Repr {
    C,
    Opaque,
}

/// A method of a lowered struct: the C++ function, unchanged.
#[derive(Debug)]
pub struct Method(pub Function);

impl View for Method {
    type V = cc::FunctionView;

    open spec fn view(&self) -> cc::FunctionView {
        self.0@
    }
}

impl Method {
    /// The C++ function behind the method.
    pub fn func(&self) -> (f: &Function)
        ensures
            f@ == self@,
    {
        &self.0
    }

    /// The types of the parameters.
    pub fn param_tys(&self, db: &Database) -> (tys: Vec<Ty>)
        requires
            db.wf(),
            forall|p: int| 0 <= p < self@.param_tys.len() ==> db@.valid_ref(#[trigger] self@.param_tys[p]),
        ensures
            tys@ == self@.param_tys.map_values(|r: TypeRef| db@.rs_ty(r)),
    {
        let mut tys: Vec<Ty> = Vec::new();
        let mut p: usize = 0;
        while p < self.0.param_tys.len()
            invariant
                db.wf(),
                forall|q: int|
                    0 <= q < self@.param_tys.len() ==> db@.valid_ref(#[trigger] self@.param_tys[q]),
                p <= self.0.param_tys.len(),
                tys@.len() == p,
                forall|q: int| 0 <= q < p ==> tys@[q] == db@.rs_ty(self@.param_tys[q]),
            decreases self.0.param_tys.len() - p,
        {
            assert(db@.valid_ref(self@.param_tys[p as int]));
            tys.push(db.cc_type(self.0.param_tys[p]).rust_type());
            p += 1;
        }
        assert(tys@ =~= self@.param_tys.map_values(|r: TypeRef| db@.rs_ty(r)));
        tys
    }

    /// The type of the result.
    pub fn return_ty(&self, db: &Database) -> (ty: Ty)
        requires
            db.wf(),
            db@.valid_ref(self@.return_ty),
        ensures
            ty == db@.rs_ty(self@.return_ty),
    {
        db.cc_type(self.0.return_ty).rust_type()
    }

    /// A copy of the C++ function behind the method.
    pub fn cc_func(&self, _db: &Database) -> (f: cc::Function)
        ensures
            f@ == self@,
    {
        self.0.duplicate()
    }
}

impl Intern for Method {
    fn same(&self, other: &Self) -> (b: bool) {
        self.0.same(&other.0)
    }

    fn duplicate(&self) -> (copy: Self) {
        Method(self.0.duplicate())
    }
}

#[derive(Debug)]
pub struct Struct {
    pub name: Path,
    pub fields: Vec<Field>,
    pub offsets: Vec<Offset>,
    pub methods: Vec<Method>,
    pub vis: Visibility,
    pub repr: Repr,
    pub size: Size,
    pub align: Align,
    pub span: Span,
    /// The C++ struct that this one was lowered from.
    pub cc_id: cc::StructId,
}

pub struct StructView {
    pub name: Seq<Seq<char>>,
    pub fields: Seq<FieldView>,
    pub offsets: Seq<Offset>,
    pub methods: Seq<cc::FunctionView>,
    pub vis: Visibility,
    pub repr: Repr,
    pub size: Size,
    pub align: Align,
    pub span: Span,
    pub cc_id: cc::StructId,
}

impl View for Struct {
    type V = StructView;

    open spec fn view(&self) -> StructView {
        StructView {
            name: self.name@,
            fields: views_of(self.fields@),
            offsets: self.offsets@,
            methods: views_of(self.methods@),
            vis: self.vis,
            repr: self.repr,
            size: self.size,
            align: self.align,
            span: self.span,
            cc_id: self.cc_id,
        }
    }
}

impl Struct {
    pub fn duplicate(&self) -> (copy: Self)
        ensures
            copy@ == self@,
    {
        let offsets = vec_duplicate(&self.offsets);
        proof {
            assert(views_of(self.offsets@) =~= self.offsets@);
            assert(views_of(offsets@) =~= offsets@);
        }
        Struct {
            name: self.name.duplicate(),
            fields: vec_duplicate(&self.fields),
            offsets,
            methods: vec_duplicate(&self.methods),
            vis: self.vis,
            repr: self.repr,
            size: self.size,
            align: self.align,
            span: self.span,
            cc_id: self.cc_id,
        }
    }
}

} // verus!
