//! What the front end hands over: the facts on the declarations of one
//! translation unit, as plain values.
//!
//! Entities and types stand in two tables and name each other by position,
//! the way a syntax tree's nodes name each other by reference. Nothing here
//! is computed; `lower` decides what the facts mean.

pub mod lower;

use crate::diagnostics::{Diagnostics, FileId};
use crate::ir::common::{Align, Size};
use vstd::prelude::*;

verus! {

/// Position of an entity in the table of entities.
#[derive(Copy, Clone, Debug, PartialEq, Eq, Hash, Structural)]
pub struct EntityId(pub usize);

/// Position of a type in the table of types.
#[derive(Copy, Clone, Debug, PartialEq, Eq, Hash, Structural)]
pub struct TypeIndex(pub usize);

/// The kinds of entity that lowering tells apart.
#[derive(Copy, Clone, Debug, PartialEq, Eq, Hash, Structural)]
pub enum EntityKind {
    Namespace,
    UsingDeclaration,
    TypeAliasDecl,
    TypeAliasTemplateDecl,
    StructDecl,
    Other,
}

/// The kinds of type that lowering tells apart.
#[derive(Copy, Clone, Debug, PartialEq, Eq, Hash, Structural)]
pub enum TypeKind {
    Void,
    Bool,
    CharS,
    SChar,
    CharU,
    UChar,
    Short,
    UShort,
    Int,
    UInt,
    Long,
    ULong,
    LongLong,
    ULongLong,
    Float,
    Double,
    Record,
    Other,
}

#[derive(Copy, Clone, Debug, PartialEq, Eq, Hash, Structural)]
pub enum Accessibility {
    Private,
    Protected,
    Public,
}

/// A place in a file, if the place lies in a file.
#[derive(Copy, Clone, Debug, PartialEq, Eq, Hash, Structural)]
pub struct Location {
    pub file: Option<FileId>,
    pub offset: u32,
}

/// The extent of an entity in the source.
#[derive(Copy, Clone, Debug, PartialEq, Eq, Hash, Structural)]
pub struct Range {
    pub start: Location,
    pub end: Location,
}

/// A source file: its name, and its text if it could be read.
#[derive(Debug)]
pub struct SourceFile {
    pub name: String,
    pub contents: Option<String>,
}

/// What is known of one entity.
#[derive(Debug)]
pub struct Entity {
    pub kind: EntityKind,
    /// The front end's own name for the kind, for messages.
    pub kind_name: String,
    pub name: Option<String>,
    pub range: Option<Range>,
    pub children: Vec<EntityId>,
    /// What a using-declaration refers to.
    pub reference: Option<EntityId>,
    /// The declarations that a reference to a name resolves to.
    pub overloads: Option<Vec<EntityId>>,
    pub ty: Option<TypeIndex>,
    /// The type that an alias stands for.
    pub underlying_ty: Option<TypeIndex>,
    pub accessibility: Option<Accessibility>,
    /// The offset of a field in its record, in bits.
    pub offset_of_field: Option<u16>,
}

/// Whether a type has a layout, and which.
#[derive(Debug)]
pub enum Completeness {
    Complete { size: Size, align: Align },
    /// The type is incomplete or dependent; `reason` says which.
    Incomplete { reason: String },
}

/// What is known of one type.
#[derive(Debug)]
pub struct Type {
    pub kind: TypeKind,
    pub display_name: String,
    /// Whether the type is plain old data.
    pub pod: bool,
    pub layout: Completeness,
    /// The fields of a record, in declaration order.
    pub fields: Vec<EntityId>,
    pub declaration: Option<EntityId>,
}

/// The facts on one translation unit.
#[derive(Debug)]
pub struct Ast {
    pub root: EntityId,
    pub entities: Vec<Entity>,
    pub types: Vec<Type>,
    pub files: Vec<SourceFile>,
    /// What the front end itself reported while it read the source.
    pub diagnostics: Diagnostics,
}

/// Whether every position in a list names an entity.
pub open spec fn entities_below(ids: Seq<EntityId>, len: nat) -> bool {
    forall|i: int| 0 <= i < ids.len() ==> (#[trigger] ids[i]).0 < len
}

impl Ast {
    pub open spec fn valid_entity(&self, id: EntityId) -> bool {
        id.0 < self.entities@.len()
    }

    pub open spec fn valid_type(&self, ty: TypeIndex) -> bool {
        ty.0 < self.types@.len()
    }

    /// Whether an entity names only entities and types of the tables.
    pub open spec fn entity_ok(&self, e: Entity) -> bool {
        &&& entities_below(e.children@, self.entities@.len())
        &&& e.reference matches Some(r) ==> self.valid_entity(r)
        &&& e.overloads matches Some(o) ==> entities_below(o@, self.entities@.len())
        &&& e.ty matches Some(t) ==> self.valid_type(t)
        &&& e.underlying_ty matches Some(t) ==> self.valid_type(t)
    }

    /// Whether a type names only entities of the table.
    pub open spec fn type_ok(&self, t: Type) -> bool {
        &&& entities_below(t.fields@, self.entities@.len())
        &&& t.declaration matches Some(d) ==> self.valid_entity(d)
    }

    /// Every position named anywhere in the facts lies in its table.
    pub open spec fn wf(&self) -> bool {
        &&& self.valid_entity(self.root)
        &&& forall|i: int| 0 <= i < self.entities@.len() ==> self.entity_ok(#[trigger] self.entities@[i])
        &&& forall|i: int| 0 <= i < self.types@.len() ==> self.type_ok(#[trigger] self.types@[i])
    }

    /// Whether the facts are well-formed.
    pub fn check(&self) -> (b: bool)
        ensures
            b == self.wf(),
    {
        if self.root.0 >= self.entities.len() {
            return false;
        }
        let mut i: usize = 0;
        while i < self.entities.len()
            invariant
                i <= self.entities.len(),
                forall|j: int| 0 <= j < i ==> self.entity_ok(#[trigger] self.entities@[j]),
            decreases self.entities.len() - i,
        {
            let e = &self.entities[i];
            let ok = all_below(&e.children, self.entities.len()) && (match e.reference {
                Some(r) => r.0 < self.entities.len(),
                None => true,
            }) && (match &e.overloads {
                Some(o) => all_below(o, self.entities.len()),
                None => true,
            }) && (match e.ty {
                Some(t) => t.0 < self.types.len(),
                None => true,
            }) && (match e.underlying_ty {
                Some(t) => t.0 < self.types.len(),
                None => true,
            });
            if !ok {
                assert(!self.entity_ok(self.entities@[i as int]));
                return false;
            }
            i += 1;
        }
        let mut k: usize = 0;
        while k < self.types.len()
            invariant
                k <= self.types.len(),
                forall|j: int| 0 <= j < self.entities@.len() ==> self.entity_ok(#[trigger] self.entities@[j]),
                forall|j: int| 0 <= j < k ==> self.type_ok(#[trigger] self.types@[j]),
            decreases self.types.len() - k,
        {
            let t = &self.types[k];
            let ok = all_below(&t.fields, self.entities.len()) && (match t.declaration {
                Some(d) => d.0 < self.entities.len(),
                None => true,
            });
            if !ok {
                assert(!self.type_ok(self.types@[k as int]));
                return false;
            }
            k += 1;
        }
        true
    }

    pub fn entity(&self, id: EntityId) -> (e: &Entity)
        requires
            self.valid_entity(id),
        ensures
            *e == self.entities@[id.0 as int],
    {
        &self.entities[id.0]
    }

    pub fn ty(&self, ty: TypeIndex) -> (t: &Type)
        requires
            self.valid_type(ty),
        ensures
            *t == self.types@[ty.0 as int],
    {
        &self.types[ty.0]
    }
}

/// Whether every position in a list is below `len`.
pub fn all_below(ids: &Vec<EntityId>, len: usize) -> (b: bool)
    ensures
        b == entities_below(ids@, len as nat),
{
    let mut i: usize = 0;
    while i < ids.len()
        invariant
            i <= ids.len(),
            forall|j: int| 0 <= j < i ==> (#[trigger] ids@[j]).0 < len,
        decreases ids.len() - i,
    {
        if ids[i].0 >= len {
            return false;
        }
        i += 1;
    }
    true
}

} // verus!
