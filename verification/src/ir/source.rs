//! The mathematical model of a session's input, and what lowering makes of
//! it: the Rust struct for each C++ struct, the layout that its fields call
//! for, and the diagnostics owed where the two sides disagree.

use crate::diagnostics::{decimal_text, has_error, lemma_has_error_concat};
use crate::diagnostics::{DiagnosticView, Severity, Span};
use crate::intern::{distinct, INTERN_ID_MAX};
use crate::ir::cc;
use crate::ir::common::{lemma_round_up_is_next_multiple, round_up, TypeRef};
use crate::ir::rs;
use crate::ir::DefKind;
use vstd::prelude::*;

verus! {

/// What a session knows of the C++ side: the interned types, structs and
/// definitions, each at the position that its handle names, and the
/// definitions that the module exports.
pub struct Source {
    pub types: Seq<cc::Ty>,
    pub structs: Seq<cc::StructView>,
    pub defs: Seq<DefKind>,
    pub exports: Seq<DefKind>,
}

pub open spec fn offset_note(expected: int, actual: int) -> Seq<char> {
    "expected an offset of "@ + decimal_text(expected as nat) + ", but the offset is "@
        + decimal_text(actual as nat)
}

pub open spec fn size_note(expected: int, actual: int) -> Seq<char> {
    "expected a size of "@ + decimal_text(expected as nat) + ", but the size is "@ + decimal_text(
        actual as nat,
    )
}

pub open spec fn align_note(expected: int, actual: int) -> Seq<char> {
    "expected an alignment of "@ + decimal_text(expected as nat) + ", but the alignment is "@
        + decimal_text(actual as nat)
}

pub open spec fn packed_note() -> Seq<char> {
    "packed structs not supported"@
}

/// What is reported of the error type where a struct names it.
pub open spec fn unlowered_type_diag(at: Span) -> DiagnosticView {
    DiagnosticView::error("unsupported type"@, at, "the type named here could not be lowered"@)
}

pub open spec fn max(a: int, b: int) -> int {
    if a >= b {
        a
    } else {
        b
    }
}

impl Source {
    /// Whether a type names only a struct that is interned.
    pub open spec fn valid_ty(self, ty: cc::Ty) -> bool {
        ty matches cc::Ty::Struct(id) ==> id.index() < self.structs.len()
    }

    pub open spec fn valid_struct(self, id: cc::StructId) -> bool {
        id.index() < self.structs.len()
    }

    pub open spec fn valid_ref(self, r: TypeRef) -> bool {
        r.index() < self.types.len()
    }

    pub open spec fn valid_def(self, def: DefKind) -> bool {
        self.valid_struct(def.struct_id())
    }

    /// The type that a reference resolves to.
    pub open spec fn cc_ty(self, r: TypeRef) -> cc::Ty {
        self.types[r.index()]
    }

    /// Whether a reference resolves, and to a struct only if that struct's
    /// handle is below `bound`.
    pub open spec fn ref_below(self, r: TypeRef, bound: int) -> bool {
        &&& self.valid_ref(r)
        &&& self.cc_ty(r) matches cc::Ty::Struct(id) ==> id.index() < bound
    }

    /// Whether a struct can stand at position `bound`: it has one offset for
    /// each field, a positive alignment, and every type it mentions resolves,
    /// to a struct only if that one was interned before.
    pub open spec fn struct_ok(self, st: cc::StructView, bound: int) -> bool {
        &&& st.fields.len() == st.offsets.len()
        &&& st.align.value() > 0
        &&& forall|i: int| 0 <= i < st.fields.len() ==> self.ref_below(#[trigger] st.fields[i].ty, bound)
        &&& forall|m: int|
            0 <= m < st.methods.len() ==> self.function_ok(#[trigger] st.methods[m], bound)
    }

    pub open spec fn function_ok(self, f: cc::FunctionView, bound: int) -> bool {
        &&& self.ref_below(f.return_ty, bound)
        &&& forall|p: int| 0 <= p < f.param_tys.len() ==> self.ref_below(#[trigger] f.param_tys[p], bound)
    }

    /// The invariant of a session's input. Handles in interned values were
    /// valid when the value was interned, so a struct mentions only structs
    /// with a smaller handle.
    pub open spec fn wf(self) -> bool {
        &&& distinct(self.types)
        &&& distinct(self.structs)
        &&& distinct(self.defs)
        &&& self.types.len() <= INTERN_ID_MAX
        &&& self.structs.len() <= INTERN_ID_MAX
        &&& self.defs.len() <= INTERN_ID_MAX
        &&& forall|t: int| 0 <= t < self.types.len() ==> self.valid_ty(#[trigger] self.types[t])
        &&& forall|k: int| 0 <= k < self.structs.len() ==> self.struct_ok(#[trigger] self.structs[k], k)
        &&& forall|d: int| 0 <= d < self.defs.len() ==> self.valid_def(#[trigger] self.defs[d])
        &&& forall|e: int| 0 <= e < self.exports.len() ==> self.valid_def(#[trigger] self.exports[e])
    }

    /// Whether the module exports the struct.
    pub open spec fn exported(self, id: cc::StructId) -> bool {
        self.exports.contains(DefKind::of_struct(id))
    }

    /// Whether a type may show in a public place: a builtin type always, a
    /// struct if it is exported, the error placeholder never.
    pub open spec fn visible(self, ty: cc::Ty) -> bool {
        match ty {
            cc::Ty::Struct(id) => self.exported(id),
            _ => ty.builtin(),
        }
    }

    pub open spec fn visibility(self, ty: cc::Ty) -> rs::Visibility {
        if self.visible(ty) {
            rs::Visibility::Public
        } else {
            rs::Visibility::Private
        }
    }

    /// The Rust type that a reference resolves to.
    pub open spec fn rs_ty(self, r: TypeRef) -> rs::Ty {
        self.cc_ty(r).rust_ty()
    }

    /// The size of a Rust type in bytes. That of a struct is the size
    /// recorded for the C++ struct that it was lowered from.
    pub open spec fn size_of(self, ty: rs::Ty) -> int {
        match ty {
            rs::Ty::Struct(id) => self.structs[id.index()].size.0 as int,
            _ => ty.scalar_size(),
        }
    }

    /// The alignment of a Rust type in bytes.
    pub open spec fn align_of(self, ty: rs::Ty) -> int {
        match ty {
            rs::Ty::Struct(id) => self.structs[id.index()].align.value(),
            _ => ty.scalar_align(),
        }
    }

    /// The Rust field for a C++ field.
    pub open spec fn rs_field(self, f: cc::FieldView) -> rs::FieldView {
        rs::FieldView {
            name: f.name,
            ty: f.ty,
            span: f.span,
            vis: self.visibility(self.cc_ty(f.ty)),
        }
    }

    pub open spec fn rs_fields(self, fields: Seq<cc::FieldView>) -> Seq<rs::FieldView> {
        fields.map_values(|f: cc::FieldView| self.rs_field(f))
    }

    /// The Rust struct for a C++ struct with handle `id`.
    pub open spec fn rs_struct_of(self, st: cc::StructView, id: cc::StructId) -> rs::StructView {
        rs::StructView {
            name: st.name,
            fields: self.rs_fields(st.fields),
            offsets: st.offsets,
            methods: st.methods,
            vis: if self.exported(id) {
                rs::Visibility::Public
            } else {
                rs::Visibility::Private
            },
            repr: rs::Repr::C,
            size: st.size,
            align: st.align,
            span: st.span,
            cc_id: id,
        }
    }

    /// The Rust struct for the interned C++ struct `id`.
    pub open spec fn rs_struct(self, id: cc::StructId) -> rs::StructView {
        self.rs_struct_of(self.structs[id.index()], id)
    }

    pub open spec fn field_size(self, st: cc::StructView, i: int) -> int {
        self.size_of(self.rs_ty(st.fields[i].ty))
    }

    pub open spec fn field_align(self, st: cc::StructView, i: int) -> int {
        self.align_of(self.rs_ty(st.fields[i].ty))
    }

    /// Where the first `n` fields end when each is placed at the first
    /// offset that its alignment allows.
    pub open spec fn end_offset(self, st: cc::StructView, n: nat) -> int
        decreases n, 0nat,
    {
        if n == 0 {
            0
        } else {
            self.expected_offset(st, (n - 1) as nat) + self.field_size(st, n - 1)
        }
    }

    /// The offset that the layout rules give field `i`.
    pub open spec fn expected_offset(self, st: cc::StructView, i: nat) -> int
        decreases i, 1nat,
    {
        round_up(self.end_offset(st, i), self.field_align(st, i as int))
    }

    /// The largest alignment among that recorded for the struct and those of
    /// its first `n` fields.
    pub open spec fn running_align(self, st: cc::StructView, n: nat) -> int
        decreases n,
    {
        if n == 0 {
            st.align.value()
        } else {
            max(self.running_align(st, (n - 1) as nat), self.field_align(st, n - 1))
        }
    }

    /// The size that the layout rules give the struct.
    pub open spec fn expected_size(self, st: cc::StructView) -> int {
        round_up(self.end_offset(st, st.fields.len()), self.expected_align(st))
    }

    /// The alignment that the layout rules give the struct.
    pub open spec fn expected_align(self, st: cc::StructView) -> int {
        self.running_align(st, st.fields.len())
    }

    /// The first among the first `n` fields whose recorded offset is not the
    /// expected one.
    pub open spec fn first_mismatch(self, st: cc::StructView, n: nat) -> Option<nat>
        decreases n,
    {
        if n == 0 {
            None
        } else {
            match self.first_mismatch(st, (n - 1) as nat) {
                Some(i) => Some(i),
                None => if self.expected_offset(st, (n - 1) as nat) != st.offsets[n - 1] {
                    Some((n - 1) as nat)
                } else {
                    None
                },
            }
        }
    }

    /// What is reported of a field that is not at its expected offset. An
    /// offset below the expected one is how a packed struct shows.
    pub open spec fn offset_diag(self, st: cc::StructView, i: nat) -> DiagnosticView {
        let expected = self.expected_offset(st, i);
        let actual = st.offsets[i as int] as int;
        let diag = DiagnosticView::error(
            "unexpected field offset"@,
            st.fields[i as int].span,
            "this field was not at the expected offset"@,
        ).with_note(offset_note(expected, actual));
        if actual < expected {
            diag.with_note(packed_note())
        } else {
            diag
        }
    }

    /// What is reported of a struct whose size or alignment is not the
    /// expected one.
    pub open spec fn struct_diag(self, st: cc::StructView) -> DiagnosticView {
        let size = self.expected_size(st);
        let align = self.expected_align(st);
        let d0 = DiagnosticView::error(
            "unexpected struct layout"@,
            st.span,
            "this struct does not have a standard C layout"@,
        );
        let d1 = if size != st.size.0 {
            d0.with_note(size_note(size, st.size.0 as int))
        } else {
            d0
        };
        let d2 = if align != st.align.value() {
            d1.with_note(align_note(align, st.align.value()))
        } else {
            d1
        };
        if st.size.0 < size || st.align.value() < align {
            d2.with_note(packed_note())
        } else {
            d2
        }
    }

    /// Whether the recorded layout is the one that the rules give.
    pub open spec fn layout_agrees(self, st: cc::StructView) -> bool {
        &&& forall|i: nat| i < st.fields.len() ==> self.expected_offset(st, i) == st.offsets[i as int]
        &&& self.expected_size(st) == st.size.0
        &&& self.expected_align(st) == st.align.value()
    }

    /// The diagnostics of the layout check: none where the recorded layout
    /// agrees with the expected one, else one, for the first field that is
    /// out of place or, where all fields are in place, for the struct.
    pub open spec fn layout_diags(self, st: cc::StructView) -> Seq<DiagnosticView> {
        match self.first_mismatch(st, st.fields.len()) {
            Some(i) => seq![self.offset_diag(st, i)],
            None => if self.expected_size(st) != st.size.0 || self.expected_align(st)
                != st.align.value() {
                seq![self.struct_diag(st)]
            } else {
                Seq::empty()
            },
        }
    }

    /// The diagnostics of lowering a type: those of the struct that it names.
    pub open spec fn ty_diags(self, ty: cc::Ty) -> Seq<DiagnosticView> {
        match ty {
            cc::Ty::Struct(id) => self.struct_diags(id.index() as nat),
            _ => Seq::empty(),
        }
    }

    /// The diagnostics of lowering the type behind a reference met at `at` in
    /// a struct with handle `bound`: those of the struct that it names; and
    /// an error where it is the error type, which has no place in a struct.
    pub open spec fn ref_diags(self, r: TypeRef, at: Span, bound: nat) -> Seq<DiagnosticView>
        decreases bound, 0nat, 0nat,
    {
        match self.cc_ty(r) {
            cc::Ty::Struct(id) => if id.index() < bound {
                self.struct_diags(id.index() as nat)
            } else {
                Seq::empty()
            },
            cc::Ty::Error => seq![unlowered_type_diag(at)],
            _ => Seq::empty(),
        }
    }

    /// The diagnostics of the first `n` of a list of references, all met at
    /// `at`, in order.
    pub open spec fn refs_diags(self, refs: Seq<TypeRef>, at: Span, bound: nat, n: nat) -> Seq<
        DiagnosticView,
    >
        decreases bound, 1nat, n,
    {
        if n == 0 {
            Seq::empty()
        } else {
            self.refs_diags(refs, at, bound, (n - 1) as nat) + self.ref_diags(refs[n - 1], at, bound)
        }
    }

    /// The diagnostics of the types of the first `n` fields, in order.
    pub open spec fn fields_diags(self, fields: Seq<cc::FieldView>, bound: nat, n: nat) -> Seq<
        DiagnosticView,
    >
        decreases bound, 1nat, n,
    {
        if n == 0 {
            Seq::empty()
        } else {
            self.fields_diags(fields, bound, (n - 1) as nat) + self.ref_diags(
                fields[n - 1].ty,
                fields[n - 1].span,
                bound,
            )
        }
    }

    /// The diagnostics of a method's signature, met at `at`: parameters,
    /// then result.
    pub open spec fn function_diags(self, f: cc::FunctionView, at: Span, bound: nat) -> Seq<
        DiagnosticView,
    >
        decreases bound, 2nat, 0nat,
    {
        self.refs_diags(f.param_tys, at, bound, f.param_tys.len()) + self.ref_diags(
            f.return_ty,
            at,
            bound,
        )
    }

    /// The diagnostics of the first `n` methods.
    pub open spec fn methods_diags(
        self,
        methods: Seq<cc::FunctionView>,
        at: Span,
        bound: nat,
        n: nat,
    ) -> Seq<DiagnosticView>
        decreases bound, 3nat, n,
    {
        if n == 0 {
            Seq::empty()
        } else {
            self.methods_diags(methods, at, bound, (n - 1) as nat) + self.function_diags(
                methods[n - 1],
                at,
                bound,
            )
        }
    }

    /// The diagnostics of lowering a struct that stands, or could stand, at
    /// position `bound`: those of its methods' signatures, of its fields'
    /// types, and of its layout.
    pub open spec fn lowering_diags(self, st: cc::StructView, bound: nat) -> Seq<DiagnosticView>
        decreases bound, 4nat, 0nat,
    {
        self.methods_diags(st.methods, st.span, bound, st.methods.len()) + self.fields_diags(
            st.fields,
            bound,
            st.fields.len(),
        ) + self.layout_diags(st)
    }

    /// The diagnostics of lowering the interned struct at position `id`.
    pub open spec fn struct_diags(self, id: nat) -> Seq<DiagnosticView>
        decreases id, 5nat, 0nat,
    {
        self.lowering_diags(self.structs[id as int], id)
    }
}

/// A struct that can stand at one position can stand at any later one.
pub proof fn lemma_struct_ok_upward(src: Source, st: cc::StructView, low: int, high: int)
    requires
        src.struct_ok(st, low),
        low <= high,
    ensures
        src.struct_ok(st, high),
{
    assert forall|i: int| 0 <= i < st.fields.len() implies src.ref_below(
        #[trigger] st.fields[i].ty,
        high,
    ) by {
        assert(src.ref_below(st.fields[i].ty, low));
    }
    assert forall|m: int| 0 <= m < st.methods.len() implies src.function_ok(
        #[trigger] st.methods[m],
        high,
    ) by {
        let f = st.methods[m];
        assert(src.function_ok(f, low));
        assert forall|p: int| 0 <= p < f.param_tys.len() implies src.ref_below(
            #[trigger] f.param_tys[p],
            high,
        ) by {
            assert(src.ref_below(f.param_tys[p], low));
        }
    }
}

/// Once a field is found out of place, it stays the first such field however
/// many more fields are looked at.
pub proof fn lemma_first_mismatch_stable(src: Source, st: cc::StructView, m: nat, n: nat)
    requires
        m <= n,
        src.first_mismatch(st, m) is Some,
    ensures
        src.first_mismatch(st, n) == src.first_mismatch(st, m),
    decreases n,
{
    if m < n {
        lemma_first_mismatch_stable(src, st, m, (n - 1) as nat);
    }
}

/// No field among the first `n` is out of place exactly if each of them is
/// at its expected offset.
pub proof fn lemma_first_mismatch_none(src: Source, st: cc::StructView, n: nat)
    ensures
        src.first_mismatch(st, n) is None <==> (forall|i: nat|
            i < n ==> src.expected_offset(st, i) == st.offsets[i as int]),
        src.first_mismatch(st, n) matches Some(i) ==> i < n && src.expected_offset(st, i)
            != st.offsets[i as int],
    decreases n,
{
    if n > 0 {
        lemma_first_mismatch_none(src, st, (n - 1) as nat);
        if src.first_mismatch(st, (n - 1) as nat) is None {
            if src.expected_offset(st, (n - 1) as nat) != st.offsets[n - 1] {
                assert(((n - 1) as nat) < n);
            } else {
                assert forall|i: nat| i < n implies src.expected_offset(st, i)
                    == st.offsets[i as int] by {
                    if i < n - 1 {
                    } else {
                        assert(i == (n - 1) as nat);
                    }
                }
            }
        } else {
            let i = src.first_mismatch(st, (n - 1) as nat)->0;
            assert(i < n);
        }
    }
}

/// The alignment that the rules give a struct is not below the recorded one,
/// nor below that of any of the fields looked at.
pub proof fn lemma_running_align_bounds(src: Source, st: cc::StructView, n: nat)
    ensures
        src.running_align(st, n) >= st.align.value(),
        forall|i: int| 0 <= i < n ==> src.running_align(st, n) >= src.field_align(st, i),
    decreases n,
{
    if n > 0 {
        lemma_running_align_bounds(src, st, (n - 1) as nat);
    }
}

impl Source {
    /// The largest alignment among those of the first `n` fields, and 1 for
    /// a struct without fields: the alignment of a struct that asks for no
    /// more than its fields do.
    pub open spec fn natural_align(self, st: cc::StructView, n: nat) -> int
        decreases n,
    {
        if n == 0 {
            1
        } else {
            max(self.natural_align(st, (n - 1) as nat), self.field_align(st, n - 1))
        }
    }

    /// Whether a struct is laid out with natural alignment and without
    /// packing: each field at the first offset that its alignment allows,
    /// the struct aligned as its most demanding field and sized to a
    /// multiple of that.
    pub open spec fn natural_layout(self, st: cc::StructView) -> bool {
        &&& forall|i: nat| i < st.fields.len() ==> st.offsets[i as int] == self.expected_offset(st, i)
        &&& st.align.value() == self.natural_align(st, st.fields.len())
        &&& st.size.0 == round_up(self.end_offset(st, st.fields.len()), st.align.value())
    }

    /// Whether the types of all fields of a struct have a size that is not
    /// negative and an alignment that is positive.
    pub open spec fn fields_sized(self, st: cc::StructView) -> bool {
        forall|i: int|
            0 <= i < st.fields.len() ==> #[trigger] self.field_size(st, i) >= 0 && self.field_align(
                st,
                i,
            ) > 0
    }
}

/// The alignment that the rules give a struct is the larger of the recorded
/// one and the natural one.
pub proof fn lemma_running_align_is_max(src: Source, st: cc::StructView, n: nat)
    requires
        st.align.value() > 0,
    ensures
        src.running_align(st, n) == max(st.align.value(), src.natural_align(st, n)),
    decreases n,
{
    if n > 0 {
        lemma_running_align_is_max(src, st, (n - 1) as nat);
    }
}

/// The layout check reports nothing exactly if the recorded layout is the
/// one that the rules give, and an error otherwise.
pub proof fn lemma_layout_diags_empty_iff(src: Source, st: cc::StructView)
    ensures
        src.layout_diags(st).len() == 0 <==> src.layout_agrees(st),
        !src.layout_agrees(st) ==> src.layout_diags(st).len() == 1 && src.layout_diags(
            st,
        )[0].severity == Severity::Error,
        !src.layout_agrees(st) ==> has_error(src.layout_diags(st)),
{
    lemma_first_mismatch_none(src, st, st.fields.len());
    if !src.layout_agrees(st) {
        assert(src.layout_diags(st)[0].severity == Severity::Error);
    }
}

/// A struct laid out with natural alignment and without packing passes the
/// layout check: the offsets computed from the fields' types are the
/// recorded ones, and so are size and alignment.
pub proof fn lemma_natural_layout_accepted(src: Source, st: cc::StructView)
    requires
        src.natural_layout(st),
    ensures
        src.layout_agrees(st),
        src.layout_diags(st) == Seq::<DiagnosticView>::empty(),
{
    lemma_natural_align_positive(src, st, st.fields.len());
    lemma_running_align_is_max(src, st, st.fields.len());
    lemma_layout_diags_empty_iff(src, st);
    assert(src.layout_diags(st) =~= Seq::<DiagnosticView>::empty());
}

proof fn lemma_natural_align_positive(src: Source, st: cc::StructView, n: nat)
    ensures
        src.natural_align(st, n) >= 1,
    decreases n,
{
    if n > 0 {
        lemma_natural_align_positive(src, st, (n - 1) as nat);
    }
}

/// A struct with a field below the offset that its alignment calls for, as
/// in a packed struct, fails the layout check: the first such field is
/// reported as an error that says that packed structs are not supported.
pub proof fn lemma_packed_layout_rejected(src: Source, st: cc::StructView, i: nat)
    requires
        i < st.fields.len(),
        forall|k: nat| k < i ==> src.expected_offset(st, k) == st.offsets[k as int],
        st.offsets[i as int] < src.expected_offset(st, i),
    ensures
        src.layout_diags(st) == seq![src.offset_diag(st, i)],
        src.offset_diag(st, i).severity == Severity::Error,
        src.offset_diag(st, i).notes == seq![
            offset_note(src.expected_offset(st, i), st.offsets[i as int] as int),
            packed_note(),
        ],
        has_error(src.layout_diags(st)),
{
    lemma_first_mismatch_none(src, st, i);
    assert(src.first_mismatch(st, (i + 1) as nat) == Some(i));
    lemma_first_mismatch_stable(src, st, (i + 1) as nat, st.fields.len());
    assert(src.layout_diags(st)[0].severity == Severity::Error);
    assert(src.offset_diag(st, i).notes =~= seq![
        offset_note(src.expected_offset(st, i), st.offsets[i as int] as int),
        packed_note(),
    ]);
}

/// What holds of every struct that passed the layout check: its offsets do
/// not decrease, each field lies at a multiple of its own alignment, the
/// struct is aligned at least as strictly as each of its fields, and its
/// size is the end of the last field rounded up to its alignment.
pub proof fn lemma_verified_layout(src: Source, st: cc::StructView)
    requires
        src.layout_agrees(st),
        src.fields_sized(st),
        st.fields.len() == st.offsets.len(),
        st.align.value() > 0,
    ensures
        forall|i: int, j: int|
            0 <= i <= j < st.fields.len() ==> st.offsets[i] <= st.offsets[j],
        forall|i: int|
            0 <= i < st.fields.len() ==> #[trigger] st.offsets[i] as int % src.field_align(st, i)
                == 0,
        forall|i: int| 0 <= i < st.fields.len() ==> st.align.value() >= src.field_align(st, i),
        st.size.0 == round_up(src.end_offset(st, st.fields.len()), st.align.value()),
        st.size.0 as int % st.align.value() == 0,
        forall|i: int|
            0 <= i < st.fields.len() ==> #[trigger] st.offsets[i] + src.field_size(st, i)
                <= st.size.0,
{
    lemma_running_align_bounds(src, st, st.fields.len());
    lemma_offsets_ordered(src, st, st.fields.len());
    lemma_round_up_is_next_multiple(src.end_offset(st, st.fields.len()), st.align.value());
    assert forall|i: int| 0 <= i < st.fields.len() implies #[trigger] st.offsets[i] as int
        % src.field_align(st, i) == 0 by {
        assert(src.field_size(st, i) >= 0 && src.field_align(st, i) > 0);
        assert(src.expected_offset(st, i as nat) == st.offsets[i]);
        lemma_round_up_is_next_multiple(src.end_offset(st, i as nat), src.field_align(st, i));
    }
    assert forall|i: int, j: int| 0 <= i <= j < st.fields.len() implies st.offsets[i]
        <= st.offsets[j] by {
        assert(src.expected_offset(st, i as nat) == st.offsets[i]);
        assert(src.expected_offset(st, j as nat) == st.offsets[j]);
    }
    assert forall|i: int| 0 <= i < st.fields.len() implies #[trigger] st.offsets[i]
        + src.field_size(st, i) <= st.size.0 by {
        assert(src.expected_offset(st, i as nat) == st.offsets[i]);
        assert(src.end_offset(st, (i + 1) as nat) == src.expected_offset(st, i as nat)
            + src.field_size(st, i));
    }
}

/// Expected offsets do not decrease from field to field, and no field ends
/// after the end of those that follow it.
proof fn lemma_offsets_ordered(src: Source, st: cc::StructView, n: nat)
    requires
        src.fields_sized(st),
        n <= st.fields.len(),
    ensures
        forall|i: nat| i <= n ==> 0 <= #[trigger] src.end_offset(st, i) <= src.end_offset(st, n),
        forall|i: nat, j: nat|
            i <= j < n ==> #[trigger] src.expected_offset(st, i) <= #[trigger] src.expected_offset(
                st,
                j,
            ),
        forall|i: nat| i < n ==> src.end_offset(st, i) <= #[trigger] src.expected_offset(st, i),
    decreases n,
{
    if n > 0 {
        let m = (n - 1) as nat;
        lemma_offsets_ordered(src, st, m);
        assert(src.field_size(st, m as int) >= 0 && src.field_align(st, m as int) > 0);
        lemma_round_up_is_next_multiple(src.end_offset(st, m), src.field_align(st, m as int));
        assert forall|i: nat, j: nat| i <= j < n implies #[trigger] src.expected_offset(st, i)
            <= #[trigger] src.expected_offset(st, j) by {
            if j == m && i < m {
                assert(src.end_offset(st, (i + 1) as nat) <= src.end_offset(st, m));
                assert(src.field_size(st, i as int) >= 0 && src.field_align(st, i as int) > 0);
            }
        }
    }
}

/// In a well-formed input every field's type has a size that is not
/// negative and a positive alignment.
pub proof fn lemma_fields_sized(src: Source, st: cc::StructView, bound: int)
    requires
        src.wf(),
        src.struct_ok(st, bound),
        bound <= src.structs.len(),
    ensures
        src.fields_sized(st),
{
    assert forall|i: int| 0 <= i < st.fields.len() implies #[trigger] src.field_size(st, i) >= 0
        && src.field_align(st, i) > 0 by {
        assert(src.ref_below(st.fields[i].ty, bound));
        match src.cc_ty(st.fields[i].ty) {
            cc::Ty::Struct(id) => {
                assert(src.struct_ok(src.structs[id.index()], id.index()));
            },
            _ => {},
        }
    }
}

impl Source {
    /// Whether no field and no method of a struct names the error type.
    pub open spec fn fully_typed(self, st: cc::StructView) -> bool {
        &&& forall|i: int| 0 <= i < st.fields.len() ==> self.cc_ty(#[trigger] st.fields[i].ty) != cc::Ty::Error
        &&& forall|m: int|
            0 <= m < st.methods.len() ==> self.cc_ty((#[trigger] st.methods[m]).return_ty)
                != cc::Ty::Error
        &&& forall|m: int, p: int|
            0 <= m < st.methods.len() && 0 <= p < st.methods[m].param_tys.len() ==> self.cc_ty(
                #[trigger] st.methods[m].param_tys[p],
            ) != cc::Ty::Error
    }
}

/// Lowering a struct reports nothing if, for it and every struct interned
/// before it, all types are known and the layout is the one that the rules
/// give.
pub proof fn lemma_lowering_succeeds(src: Source, id: nat)
    requires
        src.wf(),
        id < src.structs.len(),
        forall|j: int|
            0 <= j <= id ==> src.layout_agrees(#[trigger] src.structs[j]) && src.fully_typed(
                src.structs[j],
            ),
    ensures
        src.struct_diags(id) == Seq::<DiagnosticView>::empty(),
    decreases id,
{
    let st = src.structs[id as int];
    assert(src.struct_ok(st, id as int));
    assert(src.layout_agrees(st) && src.fully_typed(st));
    assert forall|j: nat| j < id implies src.struct_diags(j) == Seq::<DiagnosticView>::empty() by {
        lemma_lowering_succeeds(src, j);
    }
    lemma_methods_clean(src, st, id, st.methods.len());
    lemma_fields_clean(src, st, id, st.fields.len());
    lemma_layout_diags_empty_iff(src, st);
    assert(src.struct_diags(id) =~= Seq::<DiagnosticView>::empty());
}

/// Lowering a struct reports nothing if it and every struct interned before
/// it name no error type and are laid out with natural alignment and
/// without packing.
pub proof fn lemma_natural_structs_lower(src: Source, id: nat)
    requires
        src.wf(),
        id < src.structs.len(),
        forall|j: int|
            0 <= j <= id ==> src.natural_layout(#[trigger] src.structs[j]) && src.fully_typed(
                src.structs[j],
            ),
    ensures
        src.struct_diags(id) == Seq::<DiagnosticView>::empty(),
{
    assert forall|j: int| 0 <= j <= id implies src.layout_agrees(#[trigger] src.structs[j])
        && src.fully_typed(src.structs[j]) by {
        lemma_natural_layout_accepted(src, src.structs[j]);
    }
    lemma_lowering_succeeds(src, id);
}

proof fn lemma_ref_clean(src: Source, r: TypeRef, at: Span, bound: nat)
    requires
        forall|j: nat| j < bound ==> src.struct_diags(j) == Seq::<DiagnosticView>::empty(),
        src.cc_ty(r) != cc::Ty::Error,
    ensures
        src.ref_diags(r, at, bound) == Seq::<DiagnosticView>::empty(),
{
    match src.cc_ty(r) {
        cc::Ty::Struct(id) => {
            if id.index() < bound {
                let j = id.index() as nat;
                assert(src.struct_diags(j) == Seq::<DiagnosticView>::empty());
            }
        },
        _ => {},
    }
}

proof fn lemma_fields_clean(src: Source, st: cc::StructView, bound: nat, n: nat)
    requires
        forall|j: nat| j < bound ==> src.struct_diags(j) == Seq::<DiagnosticView>::empty(),
        src.fully_typed(st),
        n <= st.fields.len(),
    ensures
        src.fields_diags(st.fields, bound, n) == Seq::<DiagnosticView>::empty(),
    decreases n,
{
    if n > 0 {
        lemma_fields_clean(src, st, bound, (n - 1) as nat);
        assert(src.cc_ty(st.fields[n - 1].ty) != cc::Ty::Error);
        lemma_ref_clean(src, st.fields[n - 1].ty, st.fields[n - 1].span, bound);
        assert(src.fields_diags(st.fields, bound, n) =~= Seq::<DiagnosticView>::empty());
    }
}

proof fn lemma_params_clean(src: Source, st: cc::StructView, m: int, bound: nat, n: nat)
    requires
        forall|j: nat| j < bound ==> src.struct_diags(j) == Seq::<DiagnosticView>::empty(),
        src.fully_typed(st),
        0 <= m < st.methods.len(),
        n <= st.methods[m].param_tys.len(),
    ensures
        src.refs_diags(st.methods[m].param_tys, st.span, bound, n) == Seq::<DiagnosticView>::empty(),
    decreases n,
{
    if n > 0 {
        lemma_params_clean(src, st, m, bound, (n - 1) as nat);
        assert(src.cc_ty(st.methods[m].param_tys[n - 1]) != cc::Ty::Error);
        lemma_ref_clean(src, st.methods[m].param_tys[n - 1], st.span, bound);
        assert(src.refs_diags(st.methods[m].param_tys, st.span, bound, n) =~= Seq::<
            DiagnosticView,
        >::empty());
    }
}

proof fn lemma_methods_clean(src: Source, st: cc::StructView, bound: nat, n: nat)
    requires
        forall|j: nat| j < bound ==> src.struct_diags(j) == Seq::<DiagnosticView>::empty(),
        src.fully_typed(st),
        n <= st.methods.len(),
    ensures
        src.methods_diags(st.methods, st.span, bound, n) == Seq::<DiagnosticView>::empty(),
    decreases n,
{
    if n > 0 {
        lemma_methods_clean(src, st, bound, (n - 1) as nat);
        let f = st.methods[n - 1];
        lemma_params_clean(src, st, n - 1, bound, f.param_tys.len());
        assert(src.cc_ty(f.return_ty) != cc::Ty::Error);
        lemma_ref_clean(src, f.return_ty, st.span, bound);
        assert(src.function_diags(f, st.span, bound) =~= Seq::<DiagnosticView>::empty());
        assert(src.methods_diags(st.methods, st.span, bound, n) =~= Seq::<DiagnosticView>::empty());
    }
}

/// A struct with a field of the error type does not lower without error,
/// whatever its layout.
pub proof fn lemma_error_type_fails(src: Source, id: nat, i: int)
    requires
        0 <= i < src.structs[id as int].fields.len(),
        src.cc_ty(src.structs[id as int].fields[i].ty) == cc::Ty::Error,
    ensures
        has_error(src.struct_diags(id)),
{
    let st = src.structs[id as int];
    lemma_field_error_kept(src, st.fields, id, st.fields.len(), i);
    let methods = src.methods_diags(st.methods, st.span, id, st.methods.len());
    let fields = src.fields_diags(st.fields, id, st.fields.len());
    lemma_has_error_concat(methods, fields);
    lemma_has_error_concat(methods + fields, src.layout_diags(st));
}

proof fn lemma_field_error_kept(src: Source, fields: Seq<cc::FieldView>, bound: nat, n: nat, i: int)
    requires
        0 <= i < n <= fields.len(),
        src.cc_ty(fields[i].ty) == cc::Ty::Error,
    ensures
        has_error(src.fields_diags(fields, bound, n)),
    decreases n,
{
    let before = src.fields_diags(fields, bound, (n - 1) as nat);
    let last = src.ref_diags(fields[n - 1].ty, fields[n - 1].span, bound);
    lemma_has_error_concat(before, last);
    if i < n - 1 {
        lemma_field_error_kept(src, fields, bound, (n - 1) as nat, i);
    } else {
        assert(last[0].severity == Severity::Error);
    }
}

/// A struct whose layout is not the one that the rules give does not lower
/// without error.
pub proof fn lemma_layout_mismatch_fails(src: Source, id: nat)
    requires
        !src.layout_agrees(src.structs[id as int]),
    ensures
        has_error(src.struct_diags(id)),
{
    let st = src.structs[id as int];
    lemma_layout_diags_empty_iff(src, st);
    let before = src.methods_diags(st.methods, st.span, id, st.methods.len()) + src.fields_diags(
        st.fields,
        id,
        st.fields.len(),
    );
    lemma_has_error_concat(before, src.layout_diags(st));
}

} // verus!
