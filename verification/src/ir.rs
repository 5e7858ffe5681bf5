//! Intermediate representations.
//!
//! There are two of them: `cc` models the C++ declarations that can be
//! represented, `rs` models the Rust items generated for them. Converting
//! from the first to the second checks that nothing is lost on the way, and
//! in particular that both sides agree on the layout of every struct.

pub mod cc;
pub mod common;
pub mod rs;
pub mod db;
pub mod reach;
pub mod source;

use crate::intern::Intern;
use vstd::prelude::*;

verus! {

/// A top-level definition of some kind.
///
/// A definition can be made in either C++ or Rust.
#[derive(Copy, Clone, Debug, PartialEq, Eq, Hash, Structural)]
pub enum DefKind {
    CcDef(cc::ItemKind),
}

impl DefKind {
    pub fn from(item: cc::ItemKind) -> (def: DefKind)
        ensures
            def == DefKind::CcDef(item),
    {
        DefKind::CcDef(item)
    }

    /// The definition of a C++ struct.
    pub open spec fn of_struct(id: cc::StructId) -> DefKind {
        DefKind::CcDef(cc::ItemKind::Struct(id))
    }

    /// The C++ struct that is defined.
    pub open spec fn struct_id(self) -> cc::StructId {
        match self {
            DefKind::CcDef(cc::ItemKind::Struct(id)) => id,
        }
    }

    pub fn from_struct(id: cc::StructId) -> (def: DefKind)
        ensures
            def == DefKind::of_struct(id),
    {
        DefKind::CcDef(cc::ItemKind::Struct(id))
    }
}

impl View for DefKind {
    type V = DefKind;

    open spec fn view(&self) -> DefKind {
        *self
    }
}

impl Intern for DefKind {
    fn same(&self, other: &Self) -> (b: bool) {
        *self == *other
    }

    fn duplicate(&self) -> (copy: Self) {
        *self
    }
}

/// The C++ side of a module: the definitions that it exports, in the order
/// in which they were declared.
#[derive(Debug, Default)]
pub struct Module {
    pub exports: Vec<DefKind>,
}

/// Whether `def` is among `defs`.
pub fn contains_def(defs: &Vec<DefKind>, def: DefKind) -> (found: bool)
    ensures
        found == defs@.contains(def),
{
    let mut i: usize = 0;
    while i < defs.len()
        invariant
            i <= defs.len(),
            forall|j: int| 0 <= j < i ==> defs@[j] != def,
        decreases defs.len() - i,
    {
        if defs[i] == def {
            return true;
        }
        i += 1;
    }
    false
}

/// Handle of an interned definition.
#[derive(Copy, Clone, Debug, PartialEq, Eq, Hash, Structural)]
pub struct Def(pub u32);

} // verus!
