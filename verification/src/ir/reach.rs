//! Which definitions are reachable from a module's exports, and in what
//! order they are visited.

use crate::diagnostics::{has_error, DiagnosticView, Diagnostics, Outcome};
use crate::intern::{distinct, interned, lemma_interned};
use crate::ir::rs;
use crate::ir::cc;
use crate::ir::db::Database;
use crate::ir::source::Source;
use crate::ir::{contains_def, Def, DefKind, Module};
use vstd::prelude::*;
use vstd::set_lib::{lemma_int_range, lemma_len_subset, set_int_range};

verus! {

/// What a list of visited definitions becomes when `more` are visited one
/// after the other: each is added at the end unless it is there already.
pub open spec fn visit_all(seen: Seq<DefKind>, more: Seq<DefKind>) -> Seq<DefKind>
    decreases more.len(),
{
    if more.len() == 0 {
        seen
    } else {
        interned(visit_all(seen, more.drop_last()), more.last())
    }
}

impl Source {
    /// The structs that the first `n` of a list of fields have as their
    /// type, in the order of the fields.
    pub open spec fn field_defs(self, fields: Seq<cc::FieldView>, n: nat) -> Seq<DefKind>
        decreases n,
    {
        if n == 0 {
            Seq::empty()
        } else {
            let before = self.field_defs(fields, (n - 1) as nat);
            match self.cc_ty(fields[n - 1].ty) {
                cc::Ty::Struct(id) => before.push(DefKind::of_struct(id)),
                _ => before,
            }
        }
    }

    /// The definitions that a definition leads to: the structs that are the
    /// type of one of its fields.
    pub open spec fn children(self, def: DefKind) -> Seq<DefKind> {
        let st = self.structs[def.struct_id().index()];
        self.field_defs(st.fields, st.fields.len())
    }

    /// All that is looked at after the first `n` definitions of `order` were
    /// expanded: the exports, then the children of each of them in turn.
    pub open spec fn candidates(self, exports: Seq<DefKind>, order: Seq<DefKind>, n: nat) -> Seq<
        DefKind,
    >
        decreases n,
    {
        if n == 0 {
            exports
        } else {
            self.candidates(exports, order, (n - 1) as nat) + self.children(order[n - 1])
        }
    }

    /// Whether lowering a definition reports no error.
    pub open spec fn lowers_cleanly(self, def: DefKind) -> bool {
        !has_error(self.struct_diags(def.struct_id().index() as nat))
    }

    /// What the lowering of the first `n` definitions of `order` reports, in
    /// that order.
    pub open spec fn bindings_diags(self, order: Seq<DefKind>, n: nat) -> Seq<DiagnosticView>
        decreases n,
    {
        if n == 0 {
            Seq::empty()
        } else {
            self.bindings_diags(order, (n - 1) as nat) + self.struct_diags(
                order[n - 1].struct_id().index() as nat,
            )
        }
    }

    /// The Rust items for those of the first `n` definitions of `order`
    /// that lower without error and, if `within` is given, are among it.
    pub open spec fn bindings_items(
        self,
        order: Seq<DefKind>,
        within: Option<Seq<DefKind>>,
        n: nat,
    ) -> Seq<rs::ItemKind>
        decreases n,
    {
        if n == 0 {
            Seq::empty()
        } else {
            let before = self.bindings_items(order, within, (n - 1) as nat);
            let def = order[n - 1];
            let wanted = match within {
                Some(defs) => defs.contains(def),
                None => true,
            };
            if self.lowers_cleanly(def) && wanted {
                before.push(rs_item(def))
            } else {
                before
            }
        }
    }

    /// The walk from where `head` definitions of `queue` were expanded, for
    /// at most `steps` more expansions.
    pub open spec fn walk(self, queue: Seq<DefKind>, head: nat, steps: nat) -> Seq<DefKind>
        decreases steps,
    {
        if steps == 0 || head >= queue.len() {
            queue
        } else {
            self.walk(
                visit_all(queue, self.children(queue[head as int])),
                head + 1,
                (steps - 1) as nat,
            )
        }
    }

    /// The definitions that `exports` reach, in the order of a
    /// breadth-first walk. No walk takes more steps than there are structs.
    pub open spec fn reachable(self, exports: Seq<DefKind>) -> Seq<DefKind> {
        self.walk(visit_all(Seq::empty(), exports), 0, self.structs.len())
    }

    /// Whether `order` is the breadth-first order of what `exports` reach:
    /// the exports first, then what each visited definition leads to, each
    /// definition at the place where it was first met and nowhere else.
    pub open spec fn is_reachable_order(self, exports: Seq<DefKind>, order: Seq<DefKind>) -> bool {
        order == visit_all(Seq::empty(), self.candidates(exports, order, order.len()))
    }
}

/// The Rust item for a definition. It has the handle of the definition.
pub open spec fn rs_item(def: DefKind) -> rs::ItemKind {
    rs::ItemKind::Struct(rs::StructId(def.struct_id().0))
}

/// Visiting keeps what was seen, in its place and distinct, and every
/// definition that is visited is seen afterwards.
pub proof fn lemma_visit_all(seen: Seq<DefKind>, more: Seq<DefKind>)
    requires
        distinct(seen),
    ensures
        distinct(visit_all(seen, more)),
        seen.len() <= visit_all(seen, more).len(),
        forall|i: int| 0 <= i < seen.len() ==> visit_all(seen, more)[i] == seen[i],
        forall|j: int| 0 <= j < more.len() ==> visit_all(seen, more).contains(#[trigger] more[j]),
        forall|d: DefKind| #[trigger]
            visit_all(seen, more).contains(d) ==> seen.contains(d) || more.contains(d),
    decreases more.len(),
{
    if more.len() > 0 {
        let before = visit_all(seen, more.drop_last());
        let after = visit_all(seen, more);
        lemma_visit_all(seen, more.drop_last());
        lemma_interned(before, more.last());
        assert forall|j: int| 0 <= j < more.len() implies after.contains(#[trigger] more[j]) by {
            if j < more.len() - 1 {
                assert(more.drop_last()[j] == more[j]);
                let k = choose|k: int| 0 <= k < before.len() && before[k] == more[j];
                assert(after[k] == more[j]);
            }
        }
        assert forall|d: DefKind| #[trigger] after.contains(d) implies seen.contains(d)
            || more.contains(d) by {
            let k = choose|k: int| 0 <= k < after.len() && after[k] == d;
            if k < before.len() {
                assert(before.contains(d));
                if !seen.contains(d) {
                    let j = choose|j: int| 0 <= j < more.drop_last().len() && more.drop_last()[j] == d;
                    assert(more[j] == d);
                }
            } else {
                assert(d == more.last());
                assert(more[more.len() - 1] == d);
            }
        }
    }
}

/// Visiting two lists in turn is visiting their concatenation.
pub proof fn lemma_visit_all_concat(seen: Seq<DefKind>, a: Seq<DefKind>, b: Seq<DefKind>)
    ensures
        visit_all(seen, a + b) == visit_all(visit_all(seen, a), b),
    decreases b.len(),
{
    if b.len() == 0 {
        assert(a + b =~= a);
    } else {
        assert((a + b).drop_last() =~= a + b.drop_last());
        assert((a + b).last() == b.last());
        lemma_visit_all_concat(seen, a, b.drop_last());
    }
}

/// What is looked at after `n` expansions depends on the first `n`
/// definitions of the order alone.
pub proof fn lemma_candidates_of_prefix(
    src: Source,
    exports: Seq<DefKind>,
    a: Seq<DefKind>,
    b: Seq<DefKind>,
    n: nat,
)
    requires
        n <= a.len() <= b.len(),
        forall|i: int| 0 <= i < n ==> a[i] == b[i],
    ensures
        src.candidates(exports, a, n) == src.candidates(exports, b, n),
    decreases n,
{
    if n > 0 {
        lemma_candidates_of_prefix(src, exports, a, b, (n - 1) as nat);
    }
}

/// The children of the definitions expanded first are among all that is
/// looked at, and so are the exports.
pub proof fn lemma_candidates_hold(src: Source, exports: Seq<DefKind>, order: Seq<DefKind>, n: nat)
    requires
        n <= order.len(),
    ensures
        forall|e: int| 0 <= e < exports.len() ==> src.candidates(exports, order, n).contains(#[trigger] exports[e]),
        forall|i: int, c: int|
            0 <= i < n && 0 <= c < src.children(order[i]).len() ==> src.candidates(
                exports,
                order,
                n,
            ).contains(#[trigger] src.children(order[i])[c]),
        forall|d: DefKind| #[trigger]
            src.candidates(exports, order, n).contains(d) ==> exports.contains(d) || exists|i: int|
                0 <= i < n && #[trigger] src.children(order[i]).contains(d),
    decreases n,
{
    let all = src.candidates(exports, order, n);
    if n == 0 {
        assert forall|e: int| 0 <= e < exports.len() implies all.contains(#[trigger] exports[e]) by {
            assert(all[e] == exports[e]);
        }
    } else {
        let before = src.candidates(exports, order, (n - 1) as nat);
        let last = src.children(order[n - 1]);
        lemma_candidates_hold(src, exports, order, (n - 1) as nat);
        assert forall|e: int| 0 <= e < exports.len() implies all.contains(#[trigger] exports[e]) by {
            let k = choose|k: int| 0 <= k < before.len() && before[k] == exports[e];
            assert(all[k] == exports[e]);
        }
        assert forall|i: int, c: int|
            0 <= i < n && 0 <= c < src.children(order[i]).len() implies all.contains(
            #[trigger] src.children(order[i])[c],
        ) by {
            if i < n - 1 {
                let d = src.children(order[i])[c];
                assert(before.contains(d));
                let k = choose|k: int| 0 <= k < before.len() && before[k] == d;
                assert(all[k] == d);
            } else {
                assert(all[before.len() + c] == last[c]);
            }
        }
        assert forall|d: DefKind| #[trigger] all.contains(d) implies exports.contains(d)
            || exists|i: int| 0 <= i < n && #[trigger] src.children(order[i]).contains(d) by {
            let k = choose|k: int| 0 <= k < all.len() && all[k] == d;
            if k < before.len() {
                assert(before[k] == d);
                assert(before.contains(d));
                if !exports.contains(d) {
                    let i = choose|i: int|
                        0 <= i < n - 1 && #[trigger] src.children(order[i]).contains(d);
                    assert(0 <= i < n && src.children(order[i]).contains(d));
                }
            } else {
                assert(last[k - before.len()] == d);
                assert(src.children(order[n - 1]).contains(d));
            }
        }
    }
}

/// A walk that has steps enough left ends in the breadth-first order of
/// what the exports reach.
pub proof fn lemma_walk(src: Source, exports: Seq<DefKind>, queue: Seq<DefKind>, head: nat, steps: nat)
    requires
        src.wf(),
        head <= queue.len(),
        queue == visit_all(Seq::empty(), src.candidates(exports, queue, head)),
        distinct(queue),
        all_valid(src, queue),
        head + steps >= src.structs.len(),
    ensures
        src.is_reachable_order(exports, src.walk(queue, head, steps)),
        all_valid(src, src.walk(queue, head, steps)),
    decreases steps,
{
    lemma_distinct_defs_bounded(src, queue);
    if steps == 0 || head >= queue.len() {
        assert(head == queue.len());
    } else {
        let item = queue[head as int];
        let children = src.children(item);
        let next = visit_all(queue, children);
        lemma_visit_all(queue, children);
        lemma_children_valid(src, item);
        lemma_visit_all_valid(src, queue, children);
        lemma_visit_all_concat(Seq::empty(), src.candidates(exports, queue, head), children);
        lemma_candidates_of_prefix(src, exports, queue, next, head);
        assert(next[head as int] == item);
        lemma_walk(src, exports, next, head + 1, (steps - 1) as nat);
    }
}

/// What the exports of a module reach is the breadth-first order of it: the
/// walk visits no definition twice, visits every export, and visits with a
/// definition every struct that is the type of one of its fields.
pub proof fn lemma_reachable(src: Source, exports: Seq<DefKind>)
    requires
        src.wf(),
        all_valid(src, exports),
    ensures
        src.is_reachable_order(exports, src.reachable(exports)),
        all_valid(src, src.reachable(exports)),
        distinct(src.reachable(exports)),
        forall|e: int| 0 <= e < exports.len() ==> src.reachable(exports).contains(#[trigger] exports[e]),
        forall|i: int, c: int|
            0 <= i < src.reachable(exports).len() && 0 <= c < src.children(
                src.reachable(exports)[i],
            ).len() ==> src.reachable(exports).contains(
                #[trigger] src.children(src.reachable(exports)[i])[c],
            ),
{
    let start = visit_all(Seq::empty(), exports);
    lemma_visit_all(Seq::empty(), exports);
    lemma_visit_all_valid(src, Seq::empty(), exports);
    lemma_walk(src, exports, start, 0, src.structs.len());
    lemma_reachable_order_distinct(src, exports, src.reachable(exports));
    lemma_reachable_order_closed(src, exports, src.reachable(exports));
}

/// No definition is visited twice.
pub proof fn lemma_reachable_order_distinct(src: Source, exports: Seq<DefKind>, order: Seq<DefKind>)
    requires
        src.is_reachable_order(exports, order),
    ensures
        distinct(order),
{
    lemma_visit_all(Seq::empty(), src.candidates(exports, order, order.len()));
}

/// Every export is visited, and with a definition every struct that is the
/// type of one of its fields.
pub proof fn lemma_reachable_order_closed(src: Source, exports: Seq<DefKind>, order: Seq<DefKind>)
    requires
        src.is_reachable_order(exports, order),
    ensures
        forall|e: int| 0 <= e < exports.len() ==> order.contains(#[trigger] exports[e]),
        forall|i: int, c: int|
            0 <= i < order.len() && 0 <= c < src.children(order[i]).len() ==> order.contains(
                #[trigger] src.children(order[i])[c],
            ),
{
    let all = src.candidates(exports, order, order.len());
    lemma_visit_all(Seq::empty(), all);
    lemma_candidates_hold(src, exports, order, order.len());
    assert forall|e: int| 0 <= e < exports.len() implies order.contains(#[trigger] exports[e]) by {
        let k = choose|k: int| 0 <= k < all.len() && all[k] == exports[e];
        assert(order.contains(all[k]));
    }
    assert forall|i: int, c: int|
        0 <= i < order.len() && 0 <= c < src.children(order[i]).len() implies order.contains(
        #[trigger] src.children(order[i])[c],
    ) by {
        let d = src.children(order[i])[c];
        assert(all.contains(d));
        let k = choose|k: int| 0 <= k < all.len() && all[k] == d;
        assert(order.contains(all[k]));
    }
}

/// Nothing is visited without a reason: every visited definition is an
/// export or the type of a field of a visited definition.
pub proof fn lemma_reachable_order_minimal(src: Source, exports: Seq<DefKind>, order: Seq<DefKind>)
    requires
        src.is_reachable_order(exports, order),
    ensures
        forall|d: DefKind| #[trigger]
            order.contains(d) ==> exports.contains(d) || exists|i: int|
                0 <= i < order.len() && #[trigger] src.children(order[i]).contains(d),
{
    let all = src.candidates(exports, order, order.len());
    lemma_visit_all(Seq::empty(), all);
    lemma_candidates_hold(src, exports, order, order.len());
    assert forall|d: DefKind| #[trigger] order.contains(d) implies exports.contains(d)
        || exists|i: int| 0 <= i < order.len() && #[trigger] src.children(order[i]).contains(d) by {
        assert(visit_all(Seq::empty(), all).contains(d));
        assert(!Seq::<DefKind>::empty().contains(d));
        assert(all.contains(d));
    }
}

/// Every item of the Rust module stands for a definition that was reached
/// and lowered without error, and a definition whose lowering reports an
/// error has no item.
pub proof fn lemma_bindings_items(
    src: Source,
    order: Seq<DefKind>,
    within: Option<Seq<DefKind>>,
    n: nat,
)
    requires
        n <= order.len(),
    ensures
        forall|item: rs::ItemKind| #[trigger]
            src.bindings_items(order, within, n).contains(item) ==> exists|k: int|
                0 <= k < n && item == rs_item(#[trigger] order[k]) && src.lowers_cleanly(order[k]),
        forall|def: DefKind|
            !src.lowers_cleanly(def) ==> !src.bindings_items(order, within, n).contains(
                #[trigger] rs_item(def),
            ),
        forall|k: int|
            0 <= k < n && src.lowers_cleanly(#[trigger] order[k]) && within is None
                ==> src.bindings_items(order, within, n).contains(rs_item(order[k])),
    decreases n,
{
    let items = src.bindings_items(order, within, n);
    if n > 0 {
        let before = src.bindings_items(order, within, (n - 1) as nat);
        lemma_bindings_items(src, order, within, (n - 1) as nat);
        assert forall|item: rs::ItemKind| #[trigger] items.contains(item) implies exists|k: int|
            0 <= k < n && item == rs_item(#[trigger] order[k]) && src.lowers_cleanly(order[k]) by {
            let i = choose|i: int| 0 <= i < items.len() && items[i] == item;
            if i < before.len() {
                assert(before[i] == item);
                assert(before.contains(item));
                let k = choose|k: int|
                    0 <= k < n - 1 && item == rs_item(#[trigger] order[k]) && src.lowers_cleanly(
                        order[k],
                    );
                assert(0 <= k < n);
            } else {
                assert(item == rs_item(order[n - 1]));
            }
        }
        assert forall|def: DefKind| !src.lowers_cleanly(def) implies !items.contains(
            #[trigger] rs_item(def),
        ) by {
            if items.contains(rs_item(def)) {
                let k = choose|k: int|
                    0 <= k < n && rs_item(def) == rs_item(#[trigger] order[k])
                        && src.lowers_cleanly(order[k]);
                assert(def.struct_id() == order[k].struct_id());
                assert(def == DefKind::of_struct(def.struct_id()));
                assert(order[k] == DefKind::of_struct(order[k].struct_id()));
            }
        }
        assert forall|k: int|
            0 <= k < n && src.lowers_cleanly(#[trigger] order[k]) && within is None implies items.contains(
            rs_item(order[k]),
        ) by {
            if k < n - 1 {
                assert(before.contains(rs_item(order[k])));
                let i = choose|i: int| 0 <= i < before.len() && before[i] == rs_item(order[k]);
                assert(items[i] == rs_item(order[k]));
            } else {
                assert(items[before.len() as int] == rs_item(order[k]));
            }
        }
    }
}

/// No item stands twice in the Rust module, and what it exports is among
/// its items.
pub proof fn lemma_bindings_distinct(
    src: Source,
    order: Seq<DefKind>,
    within: Option<Seq<DefKind>>,
    n: nat,
)
    requires
        n <= order.len(),
        distinct(order),
    ensures
        distinct(src.bindings_items(order, within, n)),
        forall|i: int|
            0 <= i < src.bindings_items(order, within, n).len() ==> src.bindings_items(
                order,
                None,
                n,
            ).contains(#[trigger] src.bindings_items(order, within, n)[i]),
    decreases n,
{
    let items = src.bindings_items(order, within, n);
    let all = src.bindings_items(order, None, n);
    if n > 0 {
        let before = src.bindings_items(order, within, (n - 1) as nat);
        let all_before = src.bindings_items(order, None, (n - 1) as nat);
        let def = order[n - 1];
        lemma_bindings_distinct(src, order, within, (n - 1) as nat);
        lemma_bindings_items(src, order, within, (n - 1) as nat);
        if items.len() > before.len() {
            assert(items == before.push(rs_item(def)));
            assert(all == all_before.push(rs_item(def)));
            if before.contains(rs_item(def)) {
                let k = choose|k: int|
                    0 <= k < n - 1 && rs_item(def) == rs_item(#[trigger] order[k])
                        && src.lowers_cleanly(order[k]);
                assert(def.struct_id() == order[k].struct_id());
                assert(def == DefKind::of_struct(def.struct_id()));
                assert(order[k] == DefKind::of_struct(order[k].struct_id()));
                assert(order[k] == order[n - 1]);
            }
            assert forall|i: int, j: int|
                0 <= i < items.len() && 0 <= j < items.len() && #[trigger] items[i]
                    == #[trigger] items[j] implies i == j by {
                if i < before.len() && j < before.len() {
                    assert(before[i] == before[j]);
                } else if i < before.len() {
                    assert(before[i] == rs_item(def));
                } else if j < before.len() {
                    assert(before[j] == rs_item(def));
                }
            }
            assert forall|i: int| 0 <= i < items.len() implies all.contains(#[trigger] items[i]) by {
                if i < before.len() {
                    assert(all_before.contains(before[i]));
                    let k = choose|k: int| 0 <= k < all_before.len() && all_before[k] == before[i];
                    assert(all[k] == items[i]);
                } else {
                    assert(all[all_before.len() as int] == items[i]);
                }
            }
        } else {
            assert(items == before);
            assert forall|i: int| 0 <= i < items.len() implies all.contains(#[trigger] items[i]) by {
                assert(all_before.contains(before[i]));
                let k = choose|k: int| 0 <= k < all_before.len() && all_before[k] == before[i];
                assert(all[k] == items[i]);
            }
        }
    }
}

/// There are no more distinct definitions than structs to define.
pub proof fn lemma_distinct_defs_bounded(src: Source, defs: Seq<DefKind>)
    requires
        distinct(defs),
        forall|i: int| 0 <= i < defs.len() ==> src.valid_def(#[trigger] defs[i]),
    ensures
        defs.len() <= src.structs.len(),
{
    let ids = defs.map_values(|d: DefKind| d.struct_id().index());
    assert forall|i: int, j: int| 0 <= i < ids.len() && 0 <= j < ids.len() && i != j implies ids[i]
        != ids[j] by {
        if ids[i] == ids[j] {
            assert(defs[i].struct_id().index() == defs[j].struct_id().index());
            assert(defs[i].struct_id() == defs[j].struct_id());
            assert(defs[i] == DefKind::of_struct(defs[i].struct_id()));
            assert(defs[j] == DefKind::of_struct(defs[j].struct_id()));
            assert(defs[i] == defs[j]);
        }
    }
    ids.unique_seq_to_set();
    let range = set_int_range(0, src.structs.len() as int);
    lemma_int_range(0, src.structs.len() as int);
    assert forall|x: int| ids.to_set().contains(x) implies range.contains(x) by {
        let i = choose|i: int| 0 <= i < ids.len() && ids[i] == x;
        assert(src.valid_def(defs[i]));
    }
    lemma_len_subset(ids.to_set(), range);
}

/// Whether every definition in a list names an interned struct.
pub open spec fn all_valid(src: Source, defs: Seq<DefKind>) -> bool {
    forall|i: int| 0 <= i < defs.len() ==> src.valid_def(#[trigger] defs[i])
}

/// The hook of the walk: records a definition that the walk came by, unless
/// it was recorded before.
fn visit_item(queue: &mut Vec<DefKind>, item: DefKind)
    ensures
        final(queue)@ == interned(old(queue)@, item),
{
    if !contains_def(queue, item) {
        queue.push(item);
    }
}

fn super_visit_cc_type(queue: &mut Vec<DefKind>, ty: &cc::Ty)
    ensures
        final(queue)@ == (match *ty {
            cc::Ty::Struct(id) => interned(old(queue)@, DefKind::of_struct(id)),
            _ => old(queue)@,
        }),
{
    match ty {
        cc::Ty::Error => (),
        cc::Ty::Void => (),
        cc::Ty::Float | cc::Ty::Double => (),
        cc::Ty::Short
        | cc::Ty::UShort
        | cc::Ty::Int
        | cc::Ty::UInt
        | cc::Ty::Long
        | cc::Ty::ULong
        | cc::Ty::LongLong
        | cc::Ty::ULongLong
        | cc::Ty::CharS
        | cc::Ty::CharU
        | cc::Ty::SChar
        | cc::Ty::UChar
        | cc::Ty::Size
        | cc::Ty::SSize
        | cc::Ty::PtrDiff => (),
        cc::Ty::Bool => (),
        cc::Ty::Struct(id) => visit_item(queue, DefKind::from_struct(*id)),
    }
}

fn super_visit_cc_type_ref(db: &Database, queue: &mut Vec<DefKind>, ty_ref: cc::TypeRef)
    requires
        db.wf(),
        db@.valid_ref(ty_ref),
    ensures
        final(queue)@ == (match db@.cc_ty(ty_ref) {
            cc::Ty::Struct(id) => interned(old(queue)@, DefKind::of_struct(id)),
            _ => old(queue)@,
        }),
{
    super_visit_cc_type(queue, &ty_ref.as_cc(db).skip_errs());
}

fn super_visit_cc_struct(db: &Database, queue: &mut Vec<DefKind>, st: &cc::Struct)
    requires
        db.wf(),
        db@.struct_ok(st@, db@.structs.len() as int),
    ensures
        final(queue)@ == visit_all(old(queue)@, db@.field_defs(st@.fields, st@.fields.len())),
{
    let ghost src = db@;
    let mut i: usize = 0;
    assert(st.fields@.len() == st@.fields.len());
    while i < st.fields.len()
        invariant
            db.wf(),
            src == db@,
            src.struct_ok(st@, src.structs.len() as int),
            i <= st.fields.len(),
            st.fields@.len() == st@.fields.len(),
            queue@ == visit_all(old(queue)@, src.field_defs(st@.fields, i as nat)),
        decreases st.fields.len() - i,
    {
        let field = &st.fields[i];
        assert(field@ == st@.fields[i as int]);
        assert(src.ref_below(st@.fields[i as int].ty, src.structs.len() as int));
        let ghost before = src.field_defs(st@.fields, i as nat);
        super_visit_cc_type_ref(db, queue, field.ty);
        i += 1;
        proof {
            let after = src.field_defs(st@.fields, i as nat);
            match src.cc_ty(field.ty) {
                cc::Ty::Struct(id) => {
                    assert(after == before.push(DefKind::of_struct(id)));
                    assert(after.drop_last() =~= before);
                },
                _ => {
                    assert(after == before);
                },
            }
        }
    }
}

fn visit_cc_struct(db: &Database, queue: &mut Vec<DefKind>, id: cc::StructId)
    requires
        db.wf(),
        db@.valid_struct(id),
    ensures
        final(queue)@ == visit_all(old(queue)@, db@.children(DefKind::of_struct(id))),
{
    let st = db.cc_struct(id);
    proof {
        crate::ir::source::lemma_struct_ok_upward(db@, st@, id.index(), db@.structs.len() as int);
    }
    super_visit_cc_struct(db, queue, st);
}

fn super_visit_cc_item(db: &Database, queue: &mut Vec<DefKind>, item: &cc::ItemKind)
    requires
        db.wf(),
        db@.valid_def(DefKind::CcDef(*item)),
    ensures
        final(queue)@ == visit_all(old(queue)@, db@.children(DefKind::CcDef(*item))),
{
    match item {
        cc::ItemKind::Struct(id) => visit_cc_struct(db, queue, *id),
    }
}

/// The default of the walk: goes into a definition and visits what it leads
/// to.
fn super_visit_item(db: &Database, queue: &mut Vec<DefKind>, item: &DefKind)
    requires
        db.wf(),
        db@.valid_def(*item),
    ensures
        final(queue)@ == visit_all(old(queue)@, db@.children(*item)),
{
    match item {
        DefKind::CcDef(cc_item) => super_visit_cc_item(db, queue, cc_item),
    }
}

/// The children of a definition are interned structs.
pub proof fn lemma_children_valid(src: Source, def: DefKind)
    requires
        src.wf(),
        src.valid_def(def),
    ensures
        all_valid(src, src.children(def)),
{
    let st = src.structs[def.struct_id().index()];
    assert(src.struct_ok(st, def.struct_id().index()));
    lemma_field_defs_valid(src, st.fields, st.fields.len());
}

proof fn lemma_field_defs_valid(src: Source, fields: Seq<cc::FieldView>, n: nat)
    requires
        src.wf(),
        n <= fields.len(),
        forall|i: int| 0 <= i < fields.len() ==> src.valid_ref(#[trigger] fields[i].ty),
    ensures
        all_valid(src, src.field_defs(fields, n)),
    decreases n,
{
    if n > 0 {
        lemma_field_defs_valid(src, fields, (n - 1) as nat);
        assert(src.valid_ref(fields[n - 1].ty));
        assert(src.valid_ty(src.types[fields[n - 1].ty.index()]));
    }
}

/// Visiting interned structs leaves a list of interned structs.
pub proof fn lemma_visit_all_valid(src: Source, seen: Seq<DefKind>, more: Seq<DefKind>)
    requires
        all_valid(src, seen),
        all_valid(src, more),
    ensures
        all_valid(src, visit_all(seen, more)),
    decreases more.len(),
{
    if more.len() > 0 {
        lemma_visit_all_valid(src, seen, more.drop_last());
        assert(src.valid_def(more[more.len() - 1]));
    }
}

impl Def {
    /// The definition behind the handle.
    pub fn lookup(&self, db: &Database) -> (kind: DefKind)
        requires
            db.wf(),
            self.0 < db@.defs.len(),
        ensures
            kind == db@.defs[self.0 as int],
            db@.valid_def(kind),
    {
        db.lookup_intern_def(*self)
    }
}

impl Module {
    /// A module without exports.
    pub fn new() -> (module: Module)
        ensures
            module.exports@.len() == 0,
    {
        Module { exports: Vec::new() }
    }

    /// Lowers every definition that the exports reach. The Rust module
    /// lists those that lowered without error, in the order in which they
    /// were reached, and exports those of them that this module exports. The
    /// diagnostics of all definitions are reported, in the same order.
    pub fn to_rs_bindings(&self, db: &mut Database) -> (out: Outcome<rs::Module>)
        requires
            old(db).wf(),
            all_valid(old(db)@, self.exports@),
        ensures
            final(db).wf(),
            final(db).extends(old(db)),
            ({
                let order = old(db)@.reachable(self.exports@);
                &&& out.val.items@ == old(db)@.bindings_items(order, None, order.len())
                &&& out.val.exports@ == old(db)@.bindings_items(
                    order,
                    Some(self.exports@),
                    order.len(),
                )
                &&& out.errs@ == old(db)@.bindings_diags(order, order.len())
            }),
            forall|i: int|
                0 <= i < out.val.items@.len() ==> final(db).is_lowered(
                    cc::StructId((#[trigger] out.val.items@[i]).struct_id().0),
                ),
            forall|i: int|
                0 <= i < out.val.exports@.len() ==> final(db).is_lowered(
                    cc::StructId((#[trigger] out.val.exports@[i]).struct_id().0),
                ),
            out.val.wf(),
    {
        let ghost src = db@;
        let ghost exports = self.exports@;
        let order = self.reachable_items(db);
        proof {
            lemma_bindings_distinct(src, order@, None, order@.len());
            lemma_bindings_distinct(src, order@, Some(exports), order@.len());
        }
        let mut items: Vec<rs::ItemKind> = Vec::new();
        let mut exported: Vec<rs::ItemKind> = Vec::new();
        let mut errs = Diagnostics::new();
        let mut i: usize = 0;
        while i < order.len()
            invariant
                db.wf(),
                db@ == src,
                src == old(db)@,
                exports == self.exports@,
                forall|x: cc::StructId| old(db).is_lowered(x) ==> db.is_lowered(x),
                all_valid(src, order@),
                i <= order.len(),
                items@ == src.bindings_items(order@, None, i as nat),
                exported@ == src.bindings_items(order@, Some(exports), i as nat),
                errs@ == src.bindings_diags(order@, i as nat),
                forall|j: int|
                    0 <= j < items@.len() ==> db.is_lowered(
                        cc::StructId((#[trigger] items@[j]).struct_id().0),
                    ),
                forall|j: int|
                    0 <= j < exported@.len() ==> db.is_lowered(
                        cc::StructId((#[trigger] exported@[j]).struct_id().0),
                    ),
            decreases order.len() - i,
        {
            let def = order[i];
            assert(src.valid_def(order@[i as int]));
            let item = match def {
                DefKind::CcDef(cc::ItemKind::Struct(st)) => {
                    let (rs_id, more) = db.rs_struct_from_cc(st).split();
                    let clean = !more.has_errors();
                    errs.append(more);
                    if clean {
                        Some(rs::ItemKind::Struct(rs_id))
                    } else {
                        None
                    }
                },
            };
            match item {
                Some(item) => {
                    items.push(item);
                    if contains_def(&self.exports, def) {
                        exported.push(item);
                    }
                },
                None => {},
            }
            i += 1;
        }
        Outcome::from_parts(rs::Module { items, exports: exported }, errs)
    }

    /// Every definition that the exports reach through the types of fields,
    /// each once, breadth first: the exports in their order, then what the
    /// first of them leads to, and so on.
    pub fn reachable_items(&self, db: &Database) -> (items: Vec<DefKind>)
        requires
            db.wf(),
            all_valid(db@, self.exports@),
        ensures
            items@ == db@.reachable(self.exports@),
            db@.is_reachable_order(self.exports@, items@),
            all_valid(db@, items@),
            distinct(items@),
    {
        let ghost src = db@;
        let ghost exports = self.exports@;
        let mut queue: Vec<DefKind> = Vec::new();
        let mut e: usize = 0;
        while e < self.exports.len()
            invariant
                e <= self.exports.len(),
                exports == self.exports@,
                queue@ == visit_all(Seq::empty(), exports.take(e as int)),
            decreases self.exports.len() - e,
        {
            visit_item(&mut queue, self.exports[e]);
            e += 1;
            assert(exports.take(e as int).drop_last() =~= exports.take(e - 1));
        }
        assert(exports.take(e as int) =~= exports);
        let mut head: usize = 0;
        proof {
            lemma_visit_all(Seq::empty(), exports);
            lemma_visit_all_valid(src, Seq::empty(), exports);
            lemma_distinct_defs_bounded(src, queue@);
        }
        while head < queue.len()
            invariant
                db.wf(),
                src == db@,
                head <= queue.len(),
                queue@ == visit_all(Seq::empty(), src.candidates(exports, queue@, head as nat)),
                distinct(queue@),
                all_valid(src, queue@),
                queue.len() <= src.structs.len(),
                src.walk(queue@, head as nat, (src.structs.len() - head) as nat) == src.reachable(
                    exports,
                ),
            decreases src.structs.len() - head,
        {
            let item = queue[head];
            let ghost before = queue@;
            let ghost looked_at = src.candidates(exports, before, head as nat);
            super_visit_item(db, &mut queue, &item);
            head += 1;
            proof {
                let children = src.children(item);
                lemma_visit_all(before, children);
                lemma_children_valid(src, item);
                lemma_visit_all_valid(src, before, children);
                lemma_visit_all_concat(Seq::empty(), looked_at, children);
                lemma_candidates_of_prefix(src, exports, before, queue@, (head - 1) as nat);
                assert(queue@[head - 1] == item);
                lemma_distinct_defs_bounded(src, queue@);
            }
        }
        queue
    }
}

} // verus!
