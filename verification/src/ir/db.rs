//! The session: the interned C++ definitions, the module that exports some
//! of them, and the cache of what was lowered.

use crate::diagnostics::{DiagnosticView, Diagnostics, Outcome};
use crate::intern::Interner;
use crate::ir::cc;
use crate::ir::common::{TypeId, TypeRef};
use crate::ir::rs;
use crate::ir::source::Source;
use crate::ir::{contains_def, Def, DefKind, Module};
use vstd::prelude::*;

verus! {

/// A lowered struct as the cache keeps it, with the diagnostics of lowering
/// it.
pub struct Lowered {
    pub st: rs::Struct,
    pub errs: Diagnostics,
}

/// What a cache slot says: nothing, or a struct and its diagnostics.
pub open spec fn slot_view(slot: Option<Lowered>) -> Option<(rs::StructView, Seq<DiagnosticView>)> {
    match slot {
        Some(l) => Some((l.st@, l.errs@)),
        None => None,
    }
}

/// One session. Its input is what was interned and the module that was set;
/// lowerings of structs are cached until the input changes.
pub struct Database {
    types: Interner<cc::Ty>,
    structs: Interner<cc::Struct>,
    defs: Interner<DefKind>,
    module: Module,
    lowered: Vec<Option<Lowered>>,
}

impl View for Database {
    type V = Source;

    closed spec fn view(&self) -> Source {
        Source {
            types: self.types@,
            structs: self.structs@,
            defs: self.defs@,
            exports: self.module.exports@,
        }
    }
}

impl Database {
    /// The cache, one slot per struct handle, as far as it was filled.
    pub closed spec fn memo(&self) -> Seq<Option<(rs::StructView, Seq<DiagnosticView>)>> {
        self.lowered@.map_values(|slot: Option<Lowered>| slot_view(slot))
    }

    /// Whether the lowering of a struct is in the cache.
    pub open spec fn is_lowered(&self, id: cc::StructId) -> bool {
        id.index() < self.memo().len() && self.memo()[id.index()] is Some
    }

    /// The input is well-formed, and the cache holds only what lowering
    /// yields on this input.
    pub open spec fn wf(&self) -> bool {
        &&& self@.wf()
        &&& forall|k: int|
            0 <= k < self.memo().len() ==> (#[trigger] self.memo()[k] matches Some(l) ==> {
                &&& k < self@.structs.len()
                &&& l.0 == self@.rs_struct(cc::StructId(k as u32))
                &&& l.1 == self@.struct_diags(k as nat)
            })
    }

    /// What a query leaves of a session: the input as it was, and what was
    /// cached still cached.
    pub open spec fn extends(&self, before: &Database) -> bool {
        &&& self@ == before@
        &&& forall|id: cc::StructId| before.is_lowered(id) ==> self.is_lowered(id)
    }

    /// An empty session.
    pub fn new() -> (db: Database)
        ensures
            db.wf(),
            db@.types.len() == 0,
            db@.structs.len() == 0,
            db@.defs.len() == 0,
            db@.exports.len() == 0,
            forall|id: cc::StructId| !db.is_lowered(id),
    {
        Database {
            types: Interner::new(),
            structs: Interner::new(),
            defs: Interner::new(),
            module: Module { exports: Vec::new() },
            lowered: Vec::new(),
        }
    }

    /// The type behind a reference.
    pub fn cc_type(&self, ty: TypeRef) -> (res: cc::Ty)
        requires
            self.wf(),
            self@.valid_ref(ty),
        ensures
            res == self@.cc_ty(ty),
            self@.valid_ty(res),
    {
        *self.types.get(ty.0.0)
    }

    /// The struct behind a handle.
    pub fn cc_struct(&self, id: cc::StructId) -> (st: &cc::Struct)
        requires
            self.wf(),
            self@.valid_struct(id),
        ensures
            st@ == self@.structs[id.index()],
            self@.struct_ok(st@, id.index()),
    {
        self.structs.get(id.0)
    }

    /// A copy of the struct behind a handle.
    pub fn lookup_intern_cc_struct(&self, id: cc::StructId) -> (st: cc::Struct)
        requires
            self.wf(),
            self@.valid_struct(id),
        ensures
            st@ == self@.structs[id.index()],
            self@.struct_ok(st@, id.index()),
    {
        self.structs.lookup(id.0)
    }

    /// The definition behind a handle.
    pub fn lookup_intern_def(&self, def: Def) -> (kind: DefKind)
        requires
            self.wf(),
            def.0 < self@.defs.len(),
        ensures
            kind == self@.defs[def.0 as int],
            self@.valid_def(kind),
    {
        *self.defs.get(def.0)
    }

    /// The module whose exports decide what is visible.
    pub fn cc_ir_from_src(&self) -> (module: &Module)
        ensures
            module.exports@ == self@.exports,
    {
        &self.module
    }

    /// Whether the module exports a struct.
    pub fn is_exported(&self, id: cc::StructId) -> (b: bool)
        ensures
            b == self@.exported(id),
    {
        contains_def(&self.module.exports, DefKind::from_struct(id))
    }

    /// Interns a type, if a handle is left for it. The cache is dropped.
    pub fn try_intern_cc_type(&mut self, ty: cc::Ty) -> (res: Option<TypeRef>)
        requires
            old(self).wf(),
            old(self)@.valid_ty(ty),
        ensures
            final(self).wf(),
            final(self)@.structs == old(self)@.structs,
            final(self)@.defs == old(self)@.defs,
            final(self)@.exports == old(self)@.exports,
            forall|id: cc::StructId| !final(self).is_lowered(id),
            match res {
                Some(r) => {
                    &&& final(self)@.types == crate::intern::interned(old(self)@.types, ty)
                    &&& final(self)@.valid_ref(r)
                    &&& final(self)@.cc_ty(r) == ty
                    &&& forall|i: int|
                        0 <= i < old(self)@.types.len() ==> final(self)@.types[i]
                            == #[trigger] old(self)@.types[i]
                    &&& forall|i: int|
                        0 <= i < old(self)@.types.len() && #[trigger] old(self)@.types[i] == ty
                            ==> r.index() == i
                },
                None => {
                    &&& final(self)@.types == old(self)@.types
                    &&& !old(self)@.types.contains(ty)
                    &&& old(self)@.types.len() >= crate::intern::INTERN_ID_MAX
                },
            },
    {
        proof {
            crate::intern::lemma_interned(self@.types, ty);
        }
        let res = self.types.try_intern(ty);
        self.lowered = Vec::new();
        proof {
            let after = self@;
            let before = old(self)@;
            assert forall|k: int| 0 <= k < after.structs.len() implies after.struct_ok(
                #[trigger] after.structs[k],
                k,
            ) by {
                let st = after.structs[k];
                assert(before.struct_ok(before.structs[k], k));
                assert forall|m: int| 0 <= m < st.methods.len() implies after.function_ok(
                    #[trigger] st.methods[m],
                    k,
                ) by {
                    assert(before.function_ok(st.methods[m], k));
                }
            }
        }
        match res {
            Some(raw) => Some(TypeRef(TypeId(raw))),
            None => None,
        }
    }

    /// Interns a type. The cache is dropped.
    pub fn intern_cc_type(&mut self, ty: cc::Ty) -> (r: TypeRef)
        requires
            old(self).wf(),
            old(self)@.valid_ty(ty),
            old(self)@.types.contains(ty) || old(self)@.types.len() < crate::intern::INTERN_ID_MAX,
        ensures
            final(self).wf(),
            final(self)@.structs == old(self)@.structs,
            final(self)@.defs == old(self)@.defs,
            final(self)@.exports == old(self)@.exports,
            final(self)@.types == crate::intern::interned(old(self)@.types, ty),
            final(self)@.valid_ref(r),
            final(self)@.cc_ty(r) == ty,
            forall|i: int|
                0 <= i < old(self)@.types.len() ==> final(self)@.types[i]
                    == #[trigger] old(self)@.types[i],
            forall|i: int|
                0 <= i < old(self)@.types.len() && #[trigger] old(self)@.types[i] == ty
                    ==> r.index() == i,
            forall|id: cc::StructId| !final(self).is_lowered(id),
    {
        match self.try_intern_cc_type(ty) {
            Some(r) => r,
            None => {
                proof {
                    assert(false);
                }
                TypeRef(TypeId(0))
            },
        }
    }

    /// Interns a struct, if a handle is left for it. The cache is dropped.
    pub fn try_intern_cc_struct(&mut self, st: cc::Struct) -> (res: Option<cc::StructId>)
        requires
            old(self).wf(),
            old(self)@.struct_ok(st@, old(self)@.structs.len() as int),
        ensures
            final(self).wf(),
            final(self)@.types == old(self)@.types,
            final(self)@.defs == old(self)@.defs,
            final(self)@.exports == old(self)@.exports,
            forall|other: cc::StructId| !final(self).is_lowered(other),
            match res {
                Some(id) => {
                    &&& final(self)@.structs == crate::intern::interned(old(self)@.structs, st@)
                    &&& final(self)@.valid_struct(id)
                    &&& final(self)@.structs[id.index()] == st@
                    &&& forall|i: int|
                        0 <= i < old(self)@.structs.len() ==> final(self)@.structs[i]
                            == #[trigger] old(self)@.structs[i]
                    &&& forall|i: int|
                        0 <= i < old(self)@.structs.len() && #[trigger] old(self)@.structs[i] == st@
                            ==> id.index() == i
                },
                None => {
                    &&& final(self)@.structs == old(self)@.structs
                    &&& !old(self)@.structs.contains(st@)
                    &&& old(self)@.structs.len() >= crate::intern::INTERN_ID_MAX
                },
            },
    {
        proof {
            crate::intern::lemma_interned(self@.structs, st@);
        }
        let ghost stv = st@;
        let res = self.structs.try_intern(st);
        self.lowered = Vec::new();
        proof {
            let after = self@;
            let before = old(self)@;
            assert forall|k: int| 0 <= k < after.structs.len() implies after.struct_ok(
                #[trigger] after.structs[k],
                k,
            ) by {
                let s = after.structs[k];
                if k < before.structs.len() {
                    assert(before.struct_ok(before.structs[k], k));
                    assert forall|m: int| 0 <= m < s.methods.len() implies after.function_ok(
                        #[trigger] s.methods[m],
                        k,
                    ) by {
                        assert(before.function_ok(s.methods[m], k));
                    }
                } else {
                    assert(s == stv);
                    assert forall|m: int| 0 <= m < s.methods.len() implies after.function_ok(
                        #[trigger] s.methods[m],
                        k,
                    ) by {
                        assert(before.function_ok(s.methods[m], k));
                    }
                }
            }
            assert forall|t: int| 0 <= t < after.types.len() implies after.valid_ty(
                #[trigger] after.types[t],
            ) by {
                assert(before.valid_ty(before.types[t]));
            }
            assert forall|d: int| 0 <= d < after.defs.len() implies after.valid_def(
                #[trigger] after.defs[d],
            ) by {
                assert(before.valid_def(before.defs[d]));
            }
            assert forall|e: int| 0 <= e < after.exports.len() implies after.valid_def(
                #[trigger] after.exports[e],
            ) by {
                assert(before.valid_def(before.exports[e]));
            }
        }
        match res {
            Some(raw) => Some(cc::StructId(raw)),
            None => None,
        }
    }

    /// Interns a struct. The cache is dropped.
    pub fn intern_cc_struct(&mut self, st: cc::Struct) -> (id: cc::StructId)
        requires
            old(self).wf(),
            old(self)@.struct_ok(st@, old(self)@.structs.len() as int),
            old(self)@.structs.contains(st@) || old(self)@.structs.len()
                < crate::intern::INTERN_ID_MAX,
        ensures
            final(self).wf(),
            final(self)@.types == old(self)@.types,
            final(self)@.defs == old(self)@.defs,
            final(self)@.exports == old(self)@.exports,
            final(self)@.structs == crate::intern::interned(old(self)@.structs, st@),
            final(self)@.valid_struct(id),
            final(self)@.structs[id.index()] == st@,
            forall|i: int|
                0 <= i < old(self)@.structs.len() ==> final(self)@.structs[i]
                    == #[trigger] old(self)@.structs[i],
            forall|i: int|
                0 <= i < old(self)@.structs.len() && #[trigger] old(self)@.structs[i] == st@
                    ==> id.index() == i,
            forall|other: cc::StructId| !final(self).is_lowered(other),
    {
        match self.try_intern_cc_struct(st) {
            Some(id) => id,
            None => {
                proof {
                    assert(false);
                }
                cc::StructId(0)
            },
        }
    }

    /// Interns a definition. The cache is dropped.
    pub fn intern_def(&mut self, def: DefKind) -> (handle: Def)
        requires
            old(self).wf(),
            old(self)@.valid_def(def),
            old(self)@.defs.contains(def) || old(self)@.defs.len() < crate::intern::INTERN_ID_MAX,
        ensures
            final(self).wf(),
            final(self)@.types == old(self)@.types,
            final(self)@.structs == old(self)@.structs,
            final(self)@.exports == old(self)@.exports,
            final(self)@.defs == crate::intern::interned(old(self)@.defs, def),
            handle.0 < final(self)@.defs.len(),
            final(self)@.defs[handle.0 as int] == def,
            forall|i: int|
                0 <= i < old(self)@.defs.len() ==> final(self)@.defs[i]
                    == #[trigger] old(self)@.defs[i],
            forall|i: int|
                0 <= i < old(self)@.defs.len() && #[trigger] old(self)@.defs[i] == def
                    ==> handle.0 == i,
            forall|id: cc::StructId| !final(self).is_lowered(id),
    {
        proof {
            crate::intern::lemma_interned(self@.defs, def);
        }
        let raw = self.defs.intern(def);
        self.lowered = Vec::new();
        proof {
            let after = self@;
            let before = old(self)@;
            assert forall|k: int| 0 <= k < after.structs.len() implies after.struct_ok(
                #[trigger] after.structs[k],
                k,
            ) by {
                let s = after.structs[k];
                assert(before.struct_ok(before.structs[k], k));
                assert forall|m: int| 0 <= m < s.methods.len() implies after.function_ok(
                    #[trigger] s.methods[m],
                    k,
                ) by {
                    assert(before.function_ok(s.methods[m], k));
                }
            }
            assert forall|d: int| 0 <= d < after.defs.len() implies after.valid_def(
                #[trigger] after.defs[d],
            ) by {
                if d < before.defs.len() {
                    assert(before.valid_def(before.defs[d]));
                }
            }
        }
        Def(raw)
    }

    /// Sets the module whose exports decide what is visible. The cache is
    /// dropped.
    pub fn set_module(&mut self, module: Module)
        requires
            old(self).wf(),
            forall|e: int| 0 <= e < module.exports@.len() ==> old(self)@.valid_def(#[trigger] module.exports@[e]),
        ensures
            final(self).wf(),
            final(self)@.types == old(self)@.types,
            final(self)@.structs == old(self)@.structs,
            final(self)@.defs == old(self)@.defs,
            final(self)@.exports == module.exports@,
            forall|id: cc::StructId| !final(self).is_lowered(id),
    {
        self.module = module;
        self.lowered = Vec::new();
        proof {
            let after = self@;
            let before = old(self)@;
            assert forall|k: int| 0 <= k < after.structs.len() implies after.struct_ok(
                #[trigger] after.structs[k],
                k,
            ) by {
                let s = after.structs[k];
                assert(before.struct_ok(before.structs[k], k));
                assert forall|m: int| 0 <= m < s.methods.len() implies after.function_ok(
                    #[trigger] s.methods[m],
                    k,
                ) by {
                    assert(before.function_ok(s.methods[m], k));
                }
            }
        }
    }

    /// The Rust type behind a reference, with the diagnostics of lowering it.
    pub fn rs_type_of(&mut self, ty: TypeRef) -> (out: Outcome<rs::Ty>)
        requires
            old(self).wf(),
            old(self)@.valid_ref(ty),
        ensures
            final(self).wf(),
            final(self).extends(old(self)),
            out.val == old(self)@.rs_ty(ty),
            out.errs@ == old(self)@.ty_diags(old(self)@.cc_ty(ty)),
            old(self)@.cc_ty(ty) matches cc::Ty::Struct(id) ==> final(self).is_lowered(id),
        decreases old(self)@.cc_ty(ty).rank(), 7nat,
    {
        let (cc_ty, errs) = ty.as_cc(self).split();
        let mut errs = errs;
        let (rs_ty, more) = cc_ty.to_rust(self).split();
        errs.append(more);
        assert(errs@ =~= more@);
        Outcome::from_parts(rs_ty, errs)
    }

    /// Lowers a struct, or takes its lowering from the cache. The handle of
    /// the Rust struct is that of the C++ struct.
    pub fn rs_struct_from_cc(&mut self, id: cc::StructId) -> (out: Outcome<rs::StructId>)
        requires
            old(self).wf(),
            old(self)@.valid_struct(id),
        ensures
            final(self).wf(),
            final(self).extends(old(self)),
            final(self).is_lowered(id),
            out.val == rs::StructId(id.0),
            out.errs@ == old(self)@.struct_diags(id.index() as nat),
        decreases id.index() + 1, 5nat,
    {
        match self.cached(id) {
            Some(lowered) => {
                return Outcome::from_parts(rs::StructId(id.0), lowered.errs.duplicate());
            },
            None => {},
        }
        let st = self.lookup_intern_cc_struct(id);
        let (rs_st, errs) = st.to_rust(self, id).split();
        let rs_id = self.intern_struct(rs_st, errs.duplicate());
        Outcome::from_parts(rs_id, errs)
    }

    /// The Rust side of the session's module.
    pub fn rs_bindings(&mut self) -> (out: Outcome<rs::Module>)
        requires
            old(self).wf(),
        ensures
            final(self).wf(),
            final(self).extends(old(self)),
            ({
                let order = old(self)@.reachable(old(self)@.exports);
                &&& out.val.items@ == old(self)@.bindings_items(order, None, order.len())
                &&& out.val.exports@ == old(self)@.bindings_items(
                    order,
                    Some(old(self)@.exports),
                    order.len(),
                )
                &&& out.errs@ == old(self)@.bindings_diags(order, order.len())
            }),
            forall|i: int|
                0 <= i < out.val.items@.len() ==> final(self).is_lowered(
                    cc::StructId((#[trigger] out.val.items@[i]).struct_id().0),
                ),
            forall|i: int|
                0 <= i < out.val.exports@.len() ==> final(self).is_lowered(
                    cc::StructId((#[trigger] out.val.exports@[i]).struct_id().0),
                ),
            out.val.wf(),
    {
        let mut exports: Vec<DefKind> = Vec::new();
        let mut e: usize = 0;
        while e < self.module.exports.len()
            invariant
                e <= self.module.exports.len(),
                exports@ == self.module.exports@.take(e as int),
            decreases self.module.exports.len() - e,
        {
            exports.push(self.module.exports[e]);
            e += 1;
            assert(exports@ =~= self.module.exports@.take(e as int));
        }
        assert(self.module.exports@.take(e as int) =~= self.module.exports@);
        let module = Module { exports };
        module.to_rs_bindings(self)
    }

    /// The lowered struct behind a handle.
    pub fn lookup_intern_struct(&self, id: rs::StructId) -> (st: rs::Struct)
        requires
            self.wf(),
            self.is_lowered(cc::StructId(id.0)),
        ensures
            st@ == self@.rs_struct(cc::StructId(id.0)),
    {
        let idx: usize = id.0 as usize;
        assert(self.memo()[idx as int] == slot_view(self.lowered@[idx as int]));
        self.lowered[idx].as_ref().unwrap().st.duplicate()
    }

    /// What the cache holds for a struct.
    pub fn cached(&self, id: cc::StructId) -> (res: Option<&Lowered>)
        requires
            self.wf(),
        ensures
            match res {
                Some(l) => {
                    &&& self.is_lowered(id)
                    &&& self@.valid_struct(id)
                    &&& l.st@ == self@.rs_struct(id)
                    &&& l.errs@ == self@.struct_diags(id.index() as nat)
                },
                None => !self.is_lowered(id),
            },
    {
        let idx: usize = id.0 as usize;
        if idx < self.lowered.len() {
            assert(self.memo()[idx as int] == slot_view(self.lowered@[idx as int]));
            match &self.lowered[idx] {
                Some(l) => Some(l),
                None => None,
            }
        } else {
            None
        }
    }

    /// Puts a lowered struct into the cache, with the diagnostics of
    /// lowering it, and hands out its handle: that of the C++ struct that it
    /// was lowered from.
    pub fn intern_struct(&mut self, st: rs::Struct, errs: Diagnostics) -> (id: rs::StructId)
        requires
            old(self).wf(),
            old(self)@.valid_struct(st.cc_id),
            st@ == old(self)@.rs_struct(st.cc_id),
            errs@ == old(self)@.struct_diags(st.cc_id.index() as nat),
        ensures
            final(self).wf(),
            final(self).extends(old(self)),
            final(self).is_lowered(st.cc_id),
            id == rs::StructId(st.cc_id.0),
    {
        let id = rs::StructId(st.cc_id.0);
        let idx: usize = st.cc_id.0 as usize;
        while self.lowered.len() <= idx
            invariant
                self.wf(),
                self@ == old(self)@,
                forall|other: cc::StructId| old(self).is_lowered(other) ==> self.is_lowered(other),
            decreases idx + 1 - self.lowered.len(),
        {
            let ghost before = self.memo();
            self.lowered.push(None);
            assert(self.memo() =~= before.push(None));
        }
        let ghost before = self.memo();
        let ghost entry = Some((st@, errs@));
        self.lowered.set(idx, Some(Lowered { st, errs }));
        assert(self.memo() =~= before.update(idx as int, entry));
        id
    }
}

} // verus!
