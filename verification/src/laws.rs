//! Laws of the library: properties that relate several operations, or that
//! hold of every model, proved over the views that the operations'
//! contracts are stated with.

use vstd::prelude::*;
use crate::coverage::{
    AxisCoverageView, OrphanView, axis_coverage, coverage_of, covered_pred, dimension_orphans,
    dimension_orphans_of, from_ends, member_id_of, member_used, names_at, orphan_of, orphan_pred,
    orphans_of, relation_coverage, relation_coverage_of, to_ends, uncovered_pred,
};
use crate::findings::{findings_of, orphan_finding, orphan_finding_of, stale_finding_of, entry_findings_of};
use crate::describe::{description_of, slice_keeps, slice_of, slice_pred};
use crate::engine::{distinct_count, is_first_holder, roster};
use crate::analysis::{resolved_weight_of, weight_resolves};
use crate::lookup::{first_of, last_of, lemma_first_of_iff_contains};
use crate::merge::{
    ConfigurationView, CrossMatrixConfiguration, CrossMatrixDimensions, CrossMatrixState, StateView,
    cell_in_pred, declared_ids, engine_cell, engine_relation, is_first_stray, is_first_unplaced,
    merge_of, reference_mismatch,
};
use crate::requests::{AdmissionView, admission_of};
use crate::stale::{content_hash_text, is_content_hashed, stale_among, staleness};
use crate::model::{DimensionView, ScaleView, SourceRefView};
use crate::validate::{
    cell_dangles, cell_unevidenced, cell_unevidenced_of, cell_unknown, cell_unknown_of,
    chain_repeats, contraction_verdict, dangling_cells, dangling_label_of, dangling_pred,
    dimension_ids, has_member, level_tokens, member_ids, relation_ids, scale_ids, is_first_mismatch, is_first_rejected, is_unevidenced, is_valid,
    load_verdict, pair_mismatch, ValidationErrorView, relation_dangling, relation_dangling_of, relation_unevidenced,
    relation_unevidenced_of, relation_unknown, relation_unknown_of, token_known,
    unevidenced, unevidenced_entry_of, unevidenced_pred, unknown_entry_of, unknown_pred,
    unknown_tokens,
};
use crate::model::{CellView, CoveragePolicy, MemberView, ModelView, ObservationView, ProvenanceClass, RelationView};
use crate::analysis::{deprecated_id, force_pred, forces_of, relation_forces, relation_forces_of};
use crate::seqs::{lemma_filter_contains_iff, lemma_flatten_contains, lemma_flatten_map_filter};
use crate::trace::{
    TraceDirection, TraceHopView, cell_hops, cell_hops_of, hop_in, hop_out, is_trace_of, key_class,
    relation_hops, relation_hops_of, stably_sorted, unordered_hops,
};
use crate::valence::{relation_type_text, from_required, member_is_active, relation_is_active, to_required};

verus! {

broadcast use vstd::seq_lib::group_seq_properties;

// ── traceability ──

/// A stable sort keeps exactly the hops it was given.
proof fn lemma_sorted_same_elements(out: Seq<TraceHopView>, input: Seq<TraceHopView>, x: TraceHopView)
    requires
        stably_sorted(out, input),
    ensures
        out.contains(x) <==> input.contains(x),
{
    assert(out.filter(key_class(x)) == input.filter(key_class(x)));
    lemma_filter_contains_iff(out, key_class(x), x);
    lemma_filter_contains_iff(input, key_class(x), x);
}

/// `h` is the hop that cell `q` of relation `p` contributes to the trace of `a`.
pub open spec fn hop_at(m: ModelView, a: Seq<char>, p: int, q: int, h: TraceHopView) -> bool {
    &&& 0 <= p < m.relations.len()
    &&& relation_is_active(m.relations[p])
    &&& 0 <= q < m.relations[p].cells.len()
    &&& {
        ||| m.relations[p].cells[q].from == a && h == hop_out(m.relations[p], m.relations[p].cells[q])
        ||| m.relations[p].cells[q].to == a && h == hop_in(m.relations[p], m.relations[p].cells[q])
    }
}

proof fn lemma_unordered_hops_contains(m: ModelView, a: Seq<char>, h: TraceHopView)
    ensures
        unordered_hops(m, a).contains(h) <==> exists|p: int, q: int| hop_at(m, a, p, q, h),
{
    let ss = m.relations.map_values(relation_hops_of(a));
    lemma_flatten_contains(ss, h);
    if unordered_hops(m, a).contains(h) {
        let (p, j) = choose|p: int, j: int| 0 <= p < ss.len() && 0 <= j < ss[p].len() && #[trigger] ss[p][j] == h;
        let r = m.relations[p];
        assert(ss[p] == relation_hops(r, a));
        let cs = r.cells.map_values(cell_hops_of(r, a));
        assert(relation_is_active(r));
        assert(cs.flatten()[j] == h);
        lemma_flatten_contains(cs, h);
        let (q, k) = choose|q: int, k: int| 0 <= q < cs.len() && 0 <= k < cs[q].len() && #[trigger] cs[q][k] == h;
        assert(cs[q] == cell_hops(r, r.cells[q], a));
        assert(hop_at(m, a, p, q, h));
    }
    if exists|p: int, q: int| hop_at(m, a, p, q, h) {
        let (p, q) = choose|p: int, q: int| hop_at(m, a, p, q, h);
        let r = m.relations[p];
        let c = r.cells[q];
        let cs = r.cells.map_values(cell_hops_of(r, a));
        assert(cs[q] == cell_hops(r, c, a));
        let k: int = if c.from == a && h == hop_out(r, c) {
            0
        } else if c.from == a {
            1
        } else {
            0
        };
        assert(cs[q][k] == h);
        lemma_flatten_contains(cs, h);
        let j = choose|j: int| 0 <= j < cs.flatten().len() && cs.flatten()[j] == h;
        assert(ss[p] == relation_hops(r, a));
        assert(ss[p][j] == h);
    }
}

proof fn lemma_trace_contains(m: ModelView, a: Seq<char>, hops: Seq<TraceHopView>, h: TraceHopView)
    requires
        is_trace_of(m, a, hops),
    ensures
        hops.contains(h) <==> exists|p: int, q: int| hop_at(m, a, p, q, h),
{
    lemma_sorted_same_elements(hops, unordered_hops(m, a), h);
    lemma_unordered_hops_contains(m, a, h);
}

/// A non-deprecated relation with id `rid` holds a cell from `a` to `b`.
pub open spec fn linked(m: ModelView, a: Seq<char>, b: Seq<char>, rid: Seq<char>) -> bool {
    exists|p: int, q: int|
        #![trigger m.relations[p].cells[q]]
        0 <= p < m.relations.len() && relation_is_active(m.relations[p]) && m.relations[p].id == rid
            && 0 <= q < m.relations[p].cells.len() && m.relations[p].cells[q].from == a
            && m.relations[p].cells[q].to == b
}

/// Some hop of `hops` goes in direction `dir` through relation `rid` to `member`.
pub open spec fn has_hop(hops: Seq<TraceHopView>, dir: TraceDirection, rid: Seq<char>, member: Seq<char>) -> bool {
    exists|i: int|
        0 <= i < hops.len() && #[trigger] hops[i].direction == dir && hops[i].relation == rid
            && hops[i].member == member
}

/// Tracing `a` lists an outbound hop to `b` through relation `rid` exactly
/// when a non-deprecated relation with id `rid` holds a cell from `a` to `b`.
pub proof fn lemma_trace_outbound(
    m: ModelView,
    a: Seq<char>,
    b: Seq<char>,
    rid: Seq<char>,
    hops: Seq<TraceHopView>,
)
    requires
        is_trace_of(m, a, hops),
    ensures
        has_hop(hops, TraceDirection::Out, rid, b) <==> linked(m, a, b, rid),
{
    if has_hop(hops, TraceDirection::Out, rid, b) {
        let i = choose|i: int|
            0 <= i < hops.len() && #[trigger] hops[i].direction == TraceDirection::Out && hops[i].relation
                == rid && hops[i].member == b;
        lemma_trace_contains(m, a, hops, hops[i]);
        let (p, q) = choose|p: int, q: int| hop_at(m, a, p, q, hops[i]);
        assert(m.relations[p].cells[q].from == a);
    }
    if linked(m, a, b, rid) {
        let (p, q) = choose|p: int, q: int|
            #![trigger m.relations[p].cells[q]]
            0 <= p < m.relations.len() && relation_is_active(m.relations[p]) && m.relations[p].id == rid
                && 0 <= q < m.relations[p].cells.len() && m.relations[p].cells[q].from == a
                && m.relations[p].cells[q].to == b;
        let h = hop_out(m.relations[p], m.relations[p].cells[q]);
        assert(hop_at(m, a, p, q, h));
        lemma_trace_contains(m, a, hops, h);
        let i = choose|i: int| 0 <= i < hops.len() && hops[i] == h;
        assert(hops[i].direction == TraceDirection::Out);
    }
}

/// Tracing `b` lists an inbound hop from `a` through relation `rid` exactly
/// when a non-deprecated relation with id `rid` holds a cell from `a` to `b`.
pub proof fn lemma_trace_inbound(
    m: ModelView,
    a: Seq<char>,
    b: Seq<char>,
    rid: Seq<char>,
    hops: Seq<TraceHopView>,
)
    requires
        is_trace_of(m, b, hops),
    ensures
        has_hop(hops, TraceDirection::In, rid, a) <==> linked(m, a, b, rid),
{
    if has_hop(hops, TraceDirection::In, rid, a) {
        let i = choose|i: int|
            0 <= i < hops.len() && #[trigger] hops[i].direction == TraceDirection::In && hops[i].relation
                == rid && hops[i].member == a;
        lemma_trace_contains(m, b, hops, hops[i]);
        let (p, q) = choose|p: int, q: int| hop_at(m, b, p, q, hops[i]);
        assert(m.relations[p].cells[q].to == b);
    }
    if linked(m, a, b, rid) {
        let (p, q) = choose|p: int, q: int|
            #![trigger m.relations[p].cells[q]]
            0 <= p < m.relations.len() && relation_is_active(m.relations[p]) && m.relations[p].id == rid
                && 0 <= q < m.relations[p].cells.len() && m.relations[p].cells[q].from == a
                && m.relations[p].cells[q].to == b;
        let h = hop_in(m.relations[p], m.relations[p].cells[q]);
        assert(hop_at(m, b, p, q, h));
        lemma_trace_contains(m, b, hops, h);
        let i = choose|i: int| 0 <= i < hops.len() && hops[i] == h;
        assert(hops[i].direction == TraceDirection::In);
    }
}

/// Traceability runs both ways: the trace of `a` reaches `b` outbound
/// through a relation exactly when the trace of `b` reaches `a` inbound
/// through the same relation.
pub proof fn lemma_trace_symmetric(
    m: ModelView,
    a: Seq<char>,
    b: Seq<char>,
    rid: Seq<char>,
    from_a: Seq<TraceHopView>,
    from_b: Seq<TraceHopView>,
)
    requires
        is_trace_of(m, a, from_a),
        is_trace_of(m, b, from_b),
    ensures
        has_hop(from_a, TraceDirection::Out, rid, b) <==> has_hop(from_b, TraceDirection::In, rid, a),
{
    lemma_trace_outbound(m, a, b, rid, from_a);
    lemma_trace_inbound(m, a, b, rid, from_b);
}

/// A member's trace is empty exactly when no cell of a non-deprecated
/// relation names it.
pub proof fn lemma_untraced_iff_unused(m: ModelView, x: Seq<char>, hops: Seq<TraceHopView>)
    requires
        is_trace_of(m, x, hops),
    ensures
        hops.len() == 0 <==> !member_used(m, x),
{
    if hops.len() > 0 {
        lemma_trace_contains(m, x, hops, hops[0]);
        let (p, q) = choose|p: int, q: int| hop_at(m, x, p, q, hops[0]);
        assert(names_at(m, p, q, x));
    }
    if member_used(m, x) {
        let (p, q) = choose|p: int, q: int| names_at(m, p, q, x);
        let r = m.relations[p];
        let c = r.cells[q];
        let h = if c.from == x { hop_out(r, c) } else { hop_in(r, c) };
        assert(hop_at(m, x, p, q, h));
        lemma_trace_contains(m, x, hops, h);
    }
}

/// An active member of a dimension is reported as an orphan of that
/// dimension exactly when tracing it yields no hop.
pub proof fn lemma_orphan_iff_untraced(m: ModelView, d: int, k: int, hops: Seq<TraceHopView>)
    requires
        0 <= d < m.dimensions.len(),
        0 <= k < m.dimensions[d].members.len(),
        member_is_active(m.dimensions[d].members[k]),
        is_trace_of(m, m.dimensions[d].members[k].id, hops),
    ensures
        orphans_of(m).contains(OrphanView { dimension: m.dimensions[d].id, member: m.dimensions[d].members[k].id })
            <==> hops.len() == 0,
{
    let dim = m.dimensions[d];
    let mm = dim.members[k];
    let o = OrphanView { dimension: dim.id, member: mm.id };
    let ss = m.dimensions.map_values(dimension_orphans_of(m));
    lemma_untraced_iff_unused(m, mm.id, hops);
    lemma_flatten_contains(ss, o);
    if hops.len() == 0 {
        assert(orphan_pred(m)(mm));
        lemma_filter_contains_iff(dim.members, orphan_pred(m), mm);
        let f = dim.members.filter(orphan_pred(m));
        let j = choose|j: int| 0 <= j < f.len() && f[j] == mm;
        assert(ss[d] == dimension_orphans(m, dim));
        assert(ss[d][j] == orphan_of(dim)(mm));
        assert(ss[d][j] == o);
    }
    if orphans_of(m).contains(o) {
        lemma_orphan_unused(m, o);
    }
}

/// A reported orphan is named by no cell of a non-deprecated relation.
proof fn lemma_orphan_unused(m: ModelView, o: OrphanView)
    requires
        orphans_of(m).contains(o),
    ensures
        !member_used(m, o.member),
{
    let ss = m.dimensions.map_values(dimension_orphans_of(m));
    lemma_flatten_contains(ss, o);
    let (i, j) = choose|i: int, j: int| 0 <= i < ss.len() && 0 <= j < ss[i].len() && #[trigger] ss[i][j] == o;
    let di = m.dimensions[i];
    let f = di.members.filter(orphan_pred(m));
    assert(ss[i] == dimension_orphans(m, di));
    di.members.lemma_filter_pred(orphan_pred(m), j);
    assert(ss[i][j] == orphan_of(di)(f[j]));
}

// ── coverage ──

/// The coverage entry `e` is the entry of axis `from_axis` of relation `p`,
/// evaluated over the members of dimension `i` against the cell ends `used`.
spec fn entry_at(m: ModelView, e: AxisCoverageView, p: int, i: int, used: Seq<Seq<char>>) -> bool {
    &&& 0 <= p < m.relations.len()
    &&& relation_is_active(m.relations[p])
    &&& 0 <= i < m.dimensions.len()
    &&& e.relation == m.relations[p].id
    &&& {
        ||| e.axis == "from"@ && used == from_ends(m.relations[p]) && e.required == from_required(
            m.relations[p].coverage_policy,
        )
        ||| e.axis == "to"@ && used == to_ends(m.relations[p]) && e.required == to_required(
            m.relations[p].coverage_policy,
        )
    }
    &&& e.covered == m.dimensions[i].members.filter(covered_pred(used)).map_values(member_id_of())
    &&& e.uncovered == m.dimensions[i].members.filter(uncovered_pred(used)).map_values(member_id_of())
}

proof fn lemma_coverage_entry(m: ModelView, e: AxisCoverageView)
    requires
        coverage_of(m).contains(e),
    ensures
        exists|p: int, i: int, used: Seq<Seq<char>>| entry_at(m, e, p, i, used),
{
    let ss = m.relations.map_values(relation_coverage_of(m.dimensions));
    lemma_flatten_contains(ss, e);
    let (p, j) = choose|p: int, j: int| 0 <= p < ss.len() && 0 <= j < ss[p].len() && #[trigger] ss[p][j] == e;
    let r = m.relations[p];
    let dims = m.dimensions;
    assert(ss[p] == relation_coverage(dims, r));
    let fa = axis_coverage(dims, r, "from"@, r.from, from_ends(r), from_required(r.coverage_policy));
    let ta = axis_coverage(dims, r, "to"@, r.to, to_ends(r), to_required(r.coverage_policy));
    assert(ss[p] == fa + ta);
    if j < fa.len() {
        let i = first_of(dimension_ids(dims), r.from).unwrap();
        assert(e == fa[j]);
        assert(entry_at(m, e, p, i, from_ends(r)));
    } else {
        let i = first_of(dimension_ids(dims), r.to).unwrap();
        assert(e == ta[j - fa.len()]);
        assert(entry_at(m, e, p, i, to_ends(r)));
    }
}

/// A member listed as covered on some axis of the coverage report is named
/// by a cell of a non-deprecated relation.
pub proof fn lemma_covered_member_is_used(m: ModelView, e: AxisCoverageView, x: Seq<char>)
    requires
        coverage_of(m).contains(e),
        e.covered.contains(x),
    ensures
        member_used(m, x),
{
    lemma_coverage_entry(m, e);
    let (p, i, used) = choose|p: int, i: int, used: Seq<Seq<char>>| entry_at(m, e, p, i, used);
    let members = m.dimensions[i].members;
    let f = members.filter(covered_pred(used));
    let t = choose|t: int| 0 <= t < e.covered.len() && e.covered[t] == x;
    members.lemma_filter_pred(covered_pred(used), t);
    assert(f[t].id == x);
    assert(used.contains(x));
    let q = choose|q: int| 0 <= q < used.len() && used[q] == x;
    assert(names_at(m, p, q, x));
}

/// No member is reported both as covered on an axis and as an orphan.
pub proof fn lemma_covered_member_is_no_orphan(m: ModelView, e: AxisCoverageView, x: Seq<char>, dim: Seq<char>)
    requires
        coverage_of(m).contains(e),
        e.covered.contains(x),
    ensures
        !orphans_of(m).contains(OrphanView { dimension: dim, member: x }),
{
    lemma_covered_member_is_used(m, e, x);
    if orphans_of(m).contains(OrphanView { dimension: dim, member: x }) {
        lemma_orphan_unused(m, OrphanView { dimension: dim, member: x });
    }
}

/// On every axis of the coverage report, no member is listed both as
/// covered and as uncovered.
pub proof fn lemma_coverage_disjoint(m: ModelView, e: AxisCoverageView, x: Seq<char>)
    requires
        coverage_of(m).contains(e),
    ensures
        !(e.covered.contains(x) && e.uncovered.contains(x)),
{
    lemma_coverage_entry(m, e);
    let (p, i, used) = choose|p: int, i: int, used: Seq<Seq<char>>| entry_at(m, e, p, i, used);
    if e.covered.contains(x) && e.uncovered.contains(x) {
        let members = m.dimensions[i].members;
        let t = choose|t: int| 0 <= t < e.covered.len() && e.covered[t] == x;
        members.lemma_filter_pred(covered_pred(used), t);
        let u = choose|u: int| 0 <= u < e.uncovered.len() && e.uncovered[u] == x;
        members.lemma_filter_pred(uncovered_pred(used), u);
    }
}

// ── lifecycle ──

pub open spec fn active_relation_pred() -> spec_fn(RelationView) -> bool {
    |r: RelationView| relation_is_active(r)
}

/// The model with its deprecated relations removed.
pub open spec fn without_deprecated_relations(m: ModelView) -> ModelView {
    ModelView {
        schema_version: m.schema_version,
        model_id: m.model_id,
        dimensions: m.dimensions,
        scales: m.scales,
        relations: m.relations.filter(active_relation_pred()),
        contractions: m.contractions,
    }
}

proof fn lemma_member_used_without_deprecated(m: ModelView, x: Seq<char>)
    ensures
        member_used(without_deprecated_relations(m), x) == member_used(m, x),
{
    let w = without_deprecated_relations(m);
    let p = active_relation_pred();
    if member_used(w, x) {
        let (a, b) = choose|a: int, b: int| names_at(w, a, b, x);
        lemma_filter_contains_iff(m.relations, p, w.relations[a]);
        let a0 = choose|a0: int| 0 <= a0 < m.relations.len() && m.relations[a0] == w.relations[a];
        assert(names_at(m, a0, b, x));
    }
    if member_used(m, x) {
        let (a, b) = choose|a: int, b: int| names_at(m, a, b, x);
        lemma_filter_contains_iff(m.relations, p, m.relations[a]);
        let a1 = choose|a1: int| 0 <= a1 < w.relations.len() && w.relations[a1] == m.relations[a];
        assert(names_at(w, a1, b, x));
    }
}

/// Deprecated relations take no part in the traceability analyses or in
/// tension analysis: without them, every trace, the coverage report, the
/// orphans and the forces are the same.
pub proof fn lemma_deprecated_relations_are_inert(m: ModelView, x: Seq<char>, hops: Seq<TraceHopView>)
    ensures
        is_trace_of(without_deprecated_relations(m), x, hops) <==> is_trace_of(m, x, hops),
        coverage_of(without_deprecated_relations(m)) == coverage_of(m),
        orphans_of(without_deprecated_relations(m)) == orphans_of(m),
        forces_of(without_deprecated_relations(m)) == forces_of(m),
{
    let w = without_deprecated_relations(m);
    let p = active_relation_pred();
    assert forall|r: RelationView| !p(r) implies #[trigger] relation_hops_of(x)(r) == Seq::<TraceHopView>::empty() by {}
    lemma_flatten_map_filter(m.relations, p, relation_hops_of(x));
    assert(unordered_hops(w, x) == unordered_hops(m, x));
    assert forall|r: RelationView| !p(r) implies #[trigger] relation_coverage_of(m.dimensions)(r)
        == Seq::<AxisCoverageView>::empty() by {}
    lemma_flatten_map_filter(m.relations, p, relation_coverage_of(m.dimensions));
    assert forall|y: Seq<char>| #[trigger] member_used(w, y) == member_used(m, y) by {
        lemma_member_used_without_deprecated(m, y);
    }
    assert(orphan_pred(w) =~= orphan_pred(m));
    assert(dimension_orphans_of(w) =~= dimension_orphans_of(m));
    assert(w.dimensions == m.dimensions);
    assert forall|y: Seq<char>| #[trigger] deprecated_id(w, y) == deprecated_id(m, y) by {}
    assert(force_pred(w) =~= force_pred(m));
    assert forall|r: RelationView| #[trigger] relation_forces_of(w)(r) == relation_forces_of(m)(r) by {
        assert(relation_forces(w, r) == relation_forces(m, r));
    }
    assert(relation_forces_of(w) =~= relation_forces_of(m));
    assert forall|r: RelationView| !p(r) implies #[trigger] relation_forces_of(m)(r)
        == Seq::<crate::analysis::ForceView>::empty() by {}
    lemma_flatten_map_filter(m.relations, p, relation_forces_of(m));
}

// ── what loading guarantees ──

/// A predicate that holds somewhere holds at a least position.
proof fn lemma_least(pred: spec_fn(int) -> bool, k: int)
    requires
        0 <= k,
        pred(k),
    ensures
        exists|i: int| 0 <= i <= k && #[trigger] pred(i) && forall|j: int| 0 <= j < i ==> !#[trigger] pred(j),
    decreases k,
{
    if exists|j: int| 0 <= j < k && #[trigger] pred(j) {
        let j = choose|j: int| 0 <= j < k && #[trigger] pred(j);
        lemma_least(pred, j);
    } else {
        assert(forall|j: int| 0 <= j < k ==> !#[trigger] pred(j));
    }
}

/// Every cell of a loaded model resolves: its `from` is on the roster of the
/// relation's `from` dimension and its `to` on that of its `to` dimension;
/// each observation token is a level of the relation's scale (so that scale
/// is declared wherever a cell observes something), and each inferred
/// observation carries evidence.
pub proof fn lemma_loaded_cells_resolve(m: ModelView, p: int, q: int)
    requires
        is_valid(m),
        0 <= p < m.relations.len(),
        0 <= q < m.relations[p].cells.len(),
    ensures
        has_member(m.dimensions, m.relations[p].from, m.relations[p].cells[q].from),
        has_member(m.dimensions, m.relations[p].to, m.relations[p].cells[q].to),
        forall|t: int|
            0 <= t < m.relations[p].cells[q].observations.len() ==> {
                &&& token_known(
                    m.scales,
                    m.relations[p].scale,
                    #[trigger] m.relations[p].cells[q].observations[t].observation,
                )
                &&& !is_unevidenced(m.relations[p].cells[q].observations[t])
            },
{
    let r = m.relations[p];
    let c = r.cells[q];
    assert(!exists|k: int| is_first_rejected(m, k));
    assert(dangling_cells(m).len() == 0);
    assert(unknown_tokens(m).len() == 0);
    assert(unevidenced(m).len() == 0);
    if cell_dangles(m.dimensions, r, c) {
        lemma_filter_contains_iff(r.cells, dangling_pred(m.dimensions, r), c);
        let f = r.cells.filter(dangling_pred(m.dimensions, r));
        let j = choose|j: int| 0 <= j < f.len() && f[j] == c;
        let ss = m.relations.map_values(relation_dangling_of(m.dimensions));
        assert(ss[p] == relation_dangling(m.dimensions, r));
        assert(ss[p][j] == dangling_label_of(r)(c));
        lemma_flatten_contains(ss, ss[p][j]);
    }
    {
        assert forall|t: int| 0 <= t < c.observations.len() implies {
            &&& token_known(m.scales, r.scale, #[trigger] c.observations[t].observation)
            &&& !is_unevidenced(c.observations[t])
        } by {
            let o = c.observations[t];
            if !token_known(m.scales, r.scale, o.observation) {
                lemma_filter_contains_iff(c.observations, unknown_pred(m.scales, r), o);
                let f = c.observations.filter(unknown_pred(m.scales, r));
                let j = choose|j: int| 0 <= j < f.len() && f[j] == o;
                let cs = r.cells.map_values(cell_unknown_of(m.scales, r));
                assert(cs[q] == cell_unknown(m.scales, r, c));
                assert(cs[q][j] == unknown_entry_of(r)(o));
                lemma_flatten_contains(cs, cs[q][j]);
                let k = choose|k: int| 0 <= k < cs.flatten().len() && cs.flatten()[k] == cs[q][j];
                let ss = m.relations.map_values(relation_unknown_of(m.scales));
                assert(ss[p] == relation_unknown(m.scales, r));
                assert(ss[p][k] == cs[q][j]);
                lemma_flatten_contains(ss, ss[p][k]);
            }
            if is_unevidenced(o) {
                lemma_filter_contains_iff(c.observations, unevidenced_pred(), o);
                let f = c.observations.filter(unevidenced_pred());
                let j = choose|j: int| 0 <= j < f.len() && f[j] == o;
                let cs = r.cells.map_values(cell_unevidenced_of(r));
                assert(cs[q] == cell_unevidenced(r, c));
                assert(cs[q][j] == unevidenced_entry_of(r, c)(o));
                lemma_flatten_contains(cs, cs[q][j]);
                let k = choose|k: int| 0 <= k < cs.flatten().len() && cs.flatten()[k] == cs[q][j];
                let ss = m.relations.map_values(relation_unevidenced_of(m.scales));
                assert(ss[p] == relation_unevidenced(m.scales, r));
                assert(ss[p][k] == cs[q][j]);
                lemma_flatten_contains(ss, ss[p][k]);
            }
        }
    }
}

/// Every contraction chain of a loaded model is acyclic (names no relation
/// twice), and each two consecutive relations it names compose: the first
/// one's `to` dimension is the second one's `from` dimension, and both are
/// on the same scale.
pub proof fn lemma_loaded_chains_compose(m: ModelView, k: int)
    requires
        is_valid(m),
        0 <= k < m.contractions.len(),
    ensures
        !chain_repeats(m.contractions[k].chain),
        forall|j: int| !pair_mismatch(m.relations, m.contractions[k].chain, j),
{
    let rejected = |i: int| 0 <= i < m.contractions.len() && contraction_verdict(m.relations, m.contractions[i]) is Some;
    if contraction_verdict(m.relations, m.contractions[k]) is Some {
        lemma_least(rejected, k);
        let i = choose|i: int| 0 <= i <= k && #[trigger] rejected(i) && forall|j: int| 0 <= j < i ==> !#[trigger] rejected(j);
        assert forall|j: int| 0 <= j < i implies contraction_verdict(m.relations, m.contractions[j]) is None by {
            assert(!rejected(j));
        }
        assert(is_first_rejected(m, i));
    }
    let chain = m.contractions[k].chain;
    if exists|j: int| pair_mismatch(m.relations, chain, j) {
        let j = choose|j: int| pair_mismatch(m.relations, chain, j);
        let mismatched = |i: int| pair_mismatch(m.relations, chain, i);
        lemma_least(mismatched, j);
        let i = choose|i: int| 0 <= i <= j && #[trigger] mismatched(i) && forall|l: int| 0 <= l < i ==> !#[trigger] mismatched(l);
        assert forall|l: int| 0 <= l < i implies !pair_mismatch(m.relations, chain, l) by {
            assert(!mismatched(l));
        }
        assert(is_first_mismatch(m.relations, chain, i));
    }
}

// ── structural queries ──

/// A roster with at least one member counts at least one distinct member.
proof fn lemma_distinct_count_positive(s: Seq<Seq<char>>)
    requires
        s.len() > 0,
    ensures
        distinct_count(s) >= 1,
    decreases s.len(),
{
    if s.drop_last().len() > 0 {
        lemma_distinct_count_positive(s.drop_last());
    }
}

/// The dimension that `dimension_of` reports for a member counts at least
/// one member.
pub proof fn lemma_owning_dimension_is_populated(dims: Seq<DimensionView>, member: Seq<char>, i: int)
    requires
        is_first_holder(dims, member, i),
    ensures
        distinct_count(roster(dims, dims[i].id)) >= 1,
{
    let l = last_of(dimension_ids(dims), dims[i].id).unwrap();
    assert(member_ids(dims[l].members).contains(member));
    lemma_distinct_count_positive(roster(dims, dims[i].id));
}

/// A filter that keeps every element is the identity.
proof fn lemma_filter_keeps_all<A>(s: Seq<A>, p: spec_fn(A) -> bool)
    requires
        forall|x: A| #[trigger] p(x),
    ensures
        s.filter(p) == s,
    decreases s.len(),
{
    if s.len() > 0 {
        lemma_filter_keeps_all(s.drop_last(), p);
        s.drop_last().lemma_filter_push(s.last(), p);
        assert(s.drop_last().push(s.last()) =~= s);
    }
}

/// The unfiltered slice of a relation holds all of its cells, as many as
/// the description of the model counts for it.
pub proof fn lemma_unfiltered_slice_is_whole(m: ModelView, rid: Seq<char>, i: int)
    requires
        first_of(relation_ids(m.relations), rid) == Some(i),
    ensures
        slice_of(m, rid, None, None) == Some(m.relations[i].cells),
        m.relations[i].cells.len() == description_of(m).relations[i].cells,
{
    assert(forall|c: CellView| #[trigger] slice_pred(None, None)(c) == slice_keeps(None, None, c));
    lemma_filter_keeps_all(m.relations[i].cells, slice_pred(None, None));
}

/// A slice keeps exactly the cells of the relation whose ends match the
/// given filters.
pub proof fn lemma_slice_membership(
    m: ModelView,
    rid: Seq<char>,
    i: int,
    from: Option<Seq<char>>,
    to: Option<Seq<char>>,
    c: CellView,
)
    requires
        first_of(relation_ids(m.relations), rid) == Some(i),
    ensures
        slice_of(m, rid, from, to)->0.contains(c) <==> m.relations[i].cells.contains(c) && slice_keeps(from, to, c),
{
    lemma_filter_contains_iff(m.relations[i].cells, slice_pred(from, to), c);
}

/// A member passes the weight precondition of a weighted analysis exactly
/// when its importance weight resolves to a value.
pub proof fn lemma_weight_check_matches_resolution(scales: Seq<ScaleView>, d: DimensionView, mm: MemberView)
    ensures
        weight_resolves(scales, d, mm) <==> resolved_weight_of(scales, d, mm) is Some,
{
    if mm.weight_bits is None {
        if let (Some(wo), Some(ws)) = (mm.weight_observation, d.weight_scale) {
            if let Some(s) = first_of(scale_ids(scales), ws) {
                lemma_first_of_iff_contains(level_tokens(scales[s].levels), wo);
            }
        }
    }
}

// ── staleness ──

/// A reference that records no content hash is never reported stale.
pub proof fn lemma_unhashed_reference_is_never_stale(sr: SourceRefView, content: Option<Seq<char>>)
    requires
        !is_content_hashed(sr),
    ensures
        staleness(sr, content) is None,
{
}

/// A reference whose recorded hash is the hash of its current content is
/// not stale.
pub proof fn lemma_rehashed_reference_is_fresh(sr: SourceRefView, content: Seq<char>)
    requires
        sr.source_ref is Some,
        sr.content_hash == Some(content_hash_text(content)),
    ensures
        staleness(sr, Some(content)) is None,
{
    reveal_strlit("sip13:");
    assert(content_hash_text(content).len() > 0);
}

/// A reference that records a content hash is stale when its content
/// cannot be read.
pub proof fn lemma_unreadable_reference_is_stale(sr: SourceRefView)
    requires
        is_content_hashed(sr),
    ensures
        staleness(sr, None) is Some,
{
}

/// The staleness findings are empty exactly when every reference is fresh
/// against the content read for it.
pub proof fn lemma_no_findings_iff_all_fresh(refs: Seq<SourceRefView>, contents: Seq<Option<Seq<char>>>)
    requires
        refs.len() <= contents.len(),
    ensures
        stale_among(refs, contents).len() == 0 <==> forall|i: int|
            0 <= i < refs.len() ==> #[trigger] staleness(refs[i], contents[i]) is None,
    decreases refs.len(),
{
    if refs.len() > 0 {
        let init = refs.drop_last();
        lemma_no_findings_iff_all_fresh(init, contents);
        let n = refs.len() - 1;
        if stale_among(refs, contents).len() == 0 {
            assert forall|i: int| 0 <= i < refs.len() implies #[trigger] staleness(refs[i], contents[i]) is None by {
                if i < n {
                    assert(refs[i] == init[i]);
                    assert(staleness(init[i], contents[i]) is None);
                }
            }
        }
        if forall|i: int| 0 <= i < refs.len() ==> #[trigger] staleness(refs[i], contents[i]) is None {
            assert(staleness(refs[n], contents[n]) is None);
            assert forall|i: int| 0 <= i < init.len() implies #[trigger] staleness(init[i], contents[i]) is None by {
                assert(refs[i] == init[i]);
                assert(staleness(refs[i], contents[i]) is None);
            }
        }
    }
}

// ── commands ──

/// Once a result is recorded under a request id, any later command with
/// that id is answered with that result, whatever else it carries.
pub proof fn lemma_recorded_request_replays<V>(
    results: Map<Seq<char>, V>,
    id: Seq<char>,
    result: V,
    has_numeric_weight: bool,
    has_source_system: bool,
)
    ensures
        admission_of(results.insert(id, result), Some(id), has_numeric_weight, has_source_system)
            == AdmissionView::Replay(result),
{
}

/// A command that carries a numeric weight without a source system is
/// never executed: it is rejected, or an earlier result is replayed.
pub proof fn lemma_untraced_number_never_executes<V>(results: Map<Seq<char>, V>, id: Option<Seq<char>>)
    ensures
        admission_of(results, id, true, false) != AdmissionView::<V>::Execute,
{
}

// ── merging the layers ──

/// A State pinned to another Configuration version never merges.
pub proof fn lemma_version_mismatch_never_merges(c: ConfigurationView, dims: Seq<DimensionView>, s: StateView)
    requires
        s.config_version != c.version,
    ensures
        merge_of(c, dims, s) is Err,
{
}

/// A successful merge places every State cell: the relation it names is
/// declared, and every relation declared with that id holds the cell.
pub proof fn lemma_merge_places_every_cell(
    c: ConfigurationView,
    dims: Seq<DimensionView>,
    s: StateView,
    mv: ModelView,
    i: int,
    p: int,
)
    requires
        merge_of(c, dims, s) == Ok::<ModelView, Seq<char>>(mv),
        0 <= i < s.cells.len(),
    ensures
        declared_ids(c).contains(s.cells[i].relation_id),
        0 <= p < c.relations.len() && c.relations[p].id == s.cells[i].relation_id
            ==> mv.relations[p].cells.contains(engine_cell()(s.cells[i])),
{
    let stray = |j: int| 0 <= j < s.cells.len() && !declared_ids(c).contains(s.cells[j].relation_id);
    if !declared_ids(c).contains(s.cells[i].relation_id) {
        lemma_least(stray, i);
        let j = choose|j: int| 0 <= j <= i && #[trigger] stray(j) && forall|l: int| 0 <= l < j ==> !#[trigger] stray(l);
        assert forall|l: int| 0 <= l < j implies declared_ids(c).contains(s.cells[l].relation_id) by {
            assert(!stray(l));
        }
        assert(is_first_stray(c, s, j));
    }
    if 0 <= p < c.relations.len() && c.relations[p].id == s.cells[i].relation_id {
        let d = c.relations[p];
        assert(mv.relations[p] == engine_relation(d, s.cells));
        lemma_filter_contains_iff(s.cells, cell_in_pred(d.id), s.cells[i]);
        let f = s.cells.filter(cell_in_pred(d.id));
        let k = choose|k: int| 0 <= k < f.len() && f[k] == s.cells[i];
        assert(mv.relations[p].cells[k] == engine_cell()(s.cells[i]));
    }
}

/// Every relation of a model opened from its layers joins two dimensions
/// that the model declares.
pub proof fn lemma_opened_relations_join_declared_dimensions(
    config: CrossMatrixConfiguration,
    dimensions: CrossMatrixDimensions,
    state: CrossMatrixState,
    mv: ModelView,
    p: int,
)
    requires
        merge_of(config@, crate::model::views(dimensions.dimensions@), state@) == Ok::<ModelView, Seq<char>>(mv),
        reference_mismatch(config, dimensions, state) is None,
        0 <= p < mv.relations.len(),
    ensures
        dimension_ids(mv.dimensions).contains(mv.relations[p].from),
        dimension_ids(mv.dimensions).contains(mv.relations[p].to),
{
    let rels = config@.relations;
    let dims = crate::model::views(dimensions.dimensions@);
    assert(mv.relations[p] == engine_relation(rels[p], state@.cells));
    let unplaced = |k: int| 0 <= k < rels.len() && !(dimension_ids(dims).contains(rels[k].from)
        && dimension_ids(dims).contains(rels[k].to));
    if unplaced(p) {
        lemma_least(unplaced, p);
        let i = choose|i: int| 0 <= i <= p && #[trigger] unplaced(i) && forall|j: int| 0 <= j < i ==> !#[trigger] unplaced(j);
        assert forall|j: int| 0 <= j < i implies dimension_ids(dims).contains(rels[j].from) && dimension_ids(
            dims,
        ).contains(rels[j].to) by {
            assert(!unplaced(j));
        }
        assert(is_first_unplaced(rels, dims, i));
    }
}

/// Every orphan is reported among the findings.
pub proof fn lemma_orphans_are_findings(m: ModelView, contents: Seq<Option<Seq<char>>>, o: OrphanView)
    requires
        orphans_of(m).contains(o),
    ensures
        findings_of(m, contents).contains(
            crate::findings::FindingView {
                kind: crate::findings::FindingKind::Orphan,
                severity: crate::findings::Severity::Warn,
                members: seq![o.member],
                path: Seq::empty(),
                relation: None,
                explanation: "member '"@ + o.member + "' of dimension '"@ + o.dimension + "' appears in no cell"@,
            },
        ),
{
    let a = stale_among(crate::stale::source_refs_of(m), contents).map_values(stale_finding_of());
    let b = orphans_of(m).map_values(orphan_finding_of());
    let c = crate::coverage::coverage_of(m).map_values(entry_findings_of()).flatten();
    let k = choose|k: int| 0 <= k < orphans_of(m).len() && orphans_of(m)[k] == o;
    assert(b[k] == orphan_finding(o));
    assert(findings_of(m, contents) == a + b + c);
    assert((a + b + c)[a.len() + k] == orphan_finding(o));
}

/// An active member whose trace is empty is reported among the findings as
/// an orphan of its dimension.
pub proof fn lemma_untraced_member_is_reported(
    m: ModelView,
    d: int,
    k: int,
    hops: Seq<TraceHopView>,
    contents: Seq<Option<Seq<char>>>,
)
    requires
        0 <= d < m.dimensions.len(),
        0 <= k < m.dimensions[d].members.len(),
        member_is_active(m.dimensions[d].members[k]),
        is_trace_of(m, m.dimensions[d].members[k].id, hops),
        hops.len() == 0,
    ensures
        findings_of(m, contents).contains(
            orphan_finding(OrphanView { dimension: m.dimensions[d].id, member: m.dimensions[d].members[k].id }),
        ),
{
    lemma_orphan_iff_untraced(m, d, k, hops);
    lemma_orphans_are_findings(
        m,
        contents,
        OrphanView { dimension: m.dimensions[d].id, member: m.dimensions[d].members[k].id },
    );
}

// ── what each operation answers, in terms of the document ──

/// A document is refused for missing evidence only because of an inferred
/// observation that cites no evidence: the relation, `from` and `to` the
/// refusal names belong to a cell holding such an observation.
pub proof fn lemma_evidence_refusal_names_an_uncited_inference(m: ModelView)
    ensures
        load_verdict(m) matches Some(ValidationErrorView::UnevidencedInferred { relation_id, from, to }) ==> exists|
            p: int,
            q: int,
            t: int,
        |
            #![trigger m.relations[p].cells[q].observations[t]]
            0 <= p < m.relations.len() && m.relations[p].id == relation_id && 0 <= q
                < m.relations[p].cells.len() && m.relations[p].cells[q].from == from
                && m.relations[p].cells[q].to == to && 0 <= t
                < m.relations[p].cells[q].observations.len()
                && m.relations[p].cells[q].observations[t].provenance_class == Some(ProvenanceClass::Inferred)
                && m.relations[p].cells[q].observations[t].evidence.len() == 0,
{
    if let Some(ValidationErrorView::UnevidencedInferred { relation_id, from, to }) = load_verdict(m) {
        assert(!exists|k: int| is_first_rejected(m, k));
        assert(unevidenced(m).len() > 0);
        let entry = unevidenced(m)[0];
        let ss = m.relations.map_values(relation_unevidenced_of(m.scales));
        lemma_flatten_contains(ss, entry);
        let (p, j) = choose|p: int, j: int| 0 <= p < ss.len() && 0 <= j < ss[p].len() && #[trigger] ss[p][j] == entry;
        let r = m.relations[p];
        assert(ss[p] == relation_unevidenced(m.scales, r));
        let cs = r.cells.map_values(cell_unevidenced_of(r));
        lemma_flatten_contains(cs, entry);
        let (q, k) = choose|q: int, k: int| 0 <= q < cs.len() && 0 <= k < cs[q].len() && #[trigger] cs[q][k] == entry;
        let c = r.cells[q];
        assert(cs[q] == cell_unevidenced(r, c));
        let f = c.observations.filter(unevidenced_pred());
        c.observations.lemma_filter_pred(unevidenced_pred(), k);
        c.observations.lemma_filter_contains_rev(unevidenced_pred(), f[k]);
        let t = choose|t: int| 0 <= t < c.observations.len() && c.observations[t] == f[k];
        assert(cs[q][k] == unevidenced_entry_of(r, c)(f[k]));
        assert(m.relations[p].cells[q].observations[t].provenance_class == Some(ProvenanceClass::Inferred));
    }
}

/// A loaded model holds no inferred observation without evidence.
pub proof fn lemma_loaded_inferences_cite_evidence(m: ModelView, p: int, q: int, t: int)
    requires
        is_valid(m),
        0 <= p < m.relations.len(),
        0 <= q < m.relations[p].cells.len(),
        0 <= t < m.relations[p].cells[q].observations.len(),
    ensures
        m.relations[p].cells[q].observations[t].provenance_class == Some(ProvenanceClass::Inferred)
            ==> m.relations[p].cells[q].observations[t].evidence.len() > 0,
{
    lemma_loaded_cells_resolve(m, p, q);
    let _token = m.relations[p].cells[q].observations[t].observation;
    assert(!is_unevidenced(m.relations[p].cells[q].observations[t]));
}

/// Merging keeps every declared relation, in declaration order, with every
/// declared field: its id, ends, type, scale, coverage policy, lifecycle
/// status and successor.
pub proof fn lemma_merge_keeps_declarations(
    c: ConfigurationView,
    dims: Seq<DimensionView>,
    s: StateView,
    mv: ModelView,
    p: int,
)
    requires
        merge_of(c, dims, s) == Ok::<ModelView, Seq<char>>(mv),
        0 <= p < c.relations.len(),
    ensures
        mv.relations.len() == c.relations.len(),
        mv.relations[p].id == c.relations[p].id,
        mv.relations[p].from == c.relations[p].from,
        mv.relations[p].to == c.relations[p].to,
        mv.relations[p].relation_type == c.relations[p].relation_type,
        mv.relations[p].scale == c.relations[p].scale,
        mv.relations[p].coverage_policy == c.relations[p].coverage_policy,
        mv.relations[p].status == c.relations[p].status,
        mv.relations[p].superseded_by == c.relations[p].superseded_by,
        mv.dimensions == dims,
        mv.scales == c.scales,
        mv.contractions == c.contractions,
{
}

/// A merged relation holds only cells that the State records for it: each
/// of its cells has the ends and observations of a State cell naming the
/// relation's id.
pub proof fn lemma_merge_cells_come_from_the_state(
    c: ConfigurationView,
    dims: Seq<DimensionView>,
    s: StateView,
    mv: ModelView,
    p: int,
    k: int,
)
    requires
        merge_of(c, dims, s) == Ok::<ModelView, Seq<char>>(mv),
        0 <= p < c.relations.len(),
        0 <= k < mv.relations[p].cells.len(),
    ensures
        exists|i: int|
            #![trigger s.cells[i]]
            0 <= i < s.cells.len() && s.cells[i].relation_id == c.relations[p].id && s.cells[i].from
                == mv.relations[p].cells[k].from && s.cells[i].to == mv.relations[p].cells[k].to
                && s.cells[i].observations == mv.relations[p].cells[k].observations,
{
    let d = c.relations[p];
    assert(mv.relations[p] == engine_relation(d, s.cells));
    let f = s.cells.filter(cell_in_pred(d.id));
    s.cells.lemma_filter_pred(cell_in_pred(d.id), k);
    s.cells.lemma_filter_contains_rev(cell_in_pred(d.id), f[k]);
    let i = choose|i: int| 0 <= i < s.cells.len() && s.cells[i] == f[k];
    assert(mv.relations[p].cells[k] == engine_cell()(f[k]));
    assert(s.cells[i].relation_id == d.id);
}

/// `h` is a hop through cell `q` of non-deprecated relation `p` for the
/// traced member `x`: outbound to the cell's `to` (in the relation's `to`
/// dimension) when `x` is its `from`, inbound from the cell's `from` (in the
/// `from` dimension) when `x` is its `to`; it names the relation and its
/// type, and carries the cell's observation tokens in order.
pub open spec fn hop_through(m: ModelView, x: Seq<char>, h: TraceHopView, p: int, q: int) -> bool {
    &&& 0 <= p < m.relations.len()
    &&& relation_is_active(m.relations[p])
    &&& 0 <= q < m.relations[p].cells.len()
    &&& h.relation == m.relations[p].id
    &&& h.relation_type == relation_type_text(m.relations[p].relation_type)
    &&& h.observations.len() == m.relations[p].cells[q].observations.len()
    &&& forall|t: int|
        0 <= t < h.observations.len() ==> #[trigger] h.observations[t]
            == m.relations[p].cells[q].observations[t].observation
    &&& {
        ||| h.direction == TraceDirection::Out && m.relations[p].cells[q].from == x && h.member
            == m.relations[p].cells[q].to && h.dimension == m.relations[p].to
        ||| h.direction == TraceDirection::In && m.relations[p].cells[q].to == x && h.member
            == m.relations[p].cells[q].from && h.dimension == m.relations[p].from
    }
}

/// Every hop of a trace goes through a cell of a non-deprecated relation
/// that names the traced member, and carries that cell's observation tokens.
pub proof fn lemma_trace_hops_come_from_cells(m: ModelView, x: Seq<char>, hops: Seq<TraceHopView>, i: int)
    requires
        is_trace_of(m, x, hops),
        0 <= i < hops.len(),
    ensures
        exists|p: int, q: int| hop_through(m, x, hops[i], p, q),
{
    lemma_trace_contains(m, x, hops, hops[i]);
    let (p, q) = choose|p: int, q: int| hop_at(m, x, p, q, hops[i]);
    assert(hop_through(m, x, hops[i], p, q));
}

/// Every cell of a non-deprecated relation that names the traced member
/// yields a hop through it: outbound where the member is the cell's `from`,
/// inbound where it is the cell's `to`, each carrying the cell's tokens.
pub proof fn lemma_cells_yield_trace_hops(m: ModelView, x: Seq<char>, hops: Seq<TraceHopView>, p: int, q: int)
    requires
        is_trace_of(m, x, hops),
        0 <= p < m.relations.len(),
        relation_is_active(m.relations[p]),
        0 <= q < m.relations[p].cells.len(),
    ensures
        m.relations[p].cells[q].from == x ==> exists|i: int|
            0 <= i < hops.len() && #[trigger] hops[i].direction == TraceDirection::Out && hop_through(m, x, hops[i], p, q),
        m.relations[p].cells[q].to == x ==> exists|i: int|
            0 <= i < hops.len() && #[trigger] hops[i].direction == TraceDirection::In && hop_through(m, x, hops[i], p, q),
{
    let r = m.relations[p];
    let c = r.cells[q];
    if c.from == x {
        let h = hop_out(r, c);
        assert(hop_at(m, x, p, q, h));
        lemma_trace_contains(m, x, hops, h);
        let i = choose|i: int| 0 <= i < hops.len() && hops[i] == h;
        assert(hop_through(m, x, hops[i], p, q));
    }
    if c.to == x {
        let h = hop_in(r, c);
        assert(hop_at(m, x, p, q, h));
        lemma_trace_contains(m, x, hops, h);
        let i = choose|i: int| 0 <= i < hops.len() && hops[i] == h;
        assert(hop_through(m, x, hops[i], p, q));
    }
}

/// The coverage report marks an axis as required exactly when the
/// relation's coverage policy demands it: the `from` axis under
/// `every_from` or `both`, the `to` axis under `every_to` or `both`.
pub proof fn lemma_coverage_required_follows_policy(m: ModelView, e: AxisCoverageView)
    requires
        coverage_of(m).contains(e),
    ensures
        exists|p: int|
            #![trigger m.relations[p]]
            0 <= p < m.relations.len() && relation_is_active(m.relations[p]) && m.relations[p].id == e.relation
                && {
                ||| e.axis == "from"@ && (e.required <==> (m.relations[p].coverage_policy
                    == CoveragePolicy::EveryFrom || m.relations[p].coverage_policy == CoveragePolicy::Both))
                ||| e.axis == "to"@ && (e.required <==> (m.relations[p].coverage_policy
                    == CoveragePolicy::EveryTo || m.relations[p].coverage_policy == CoveragePolicy::Both))
            },
{
    lemma_coverage_entry(m, e);
    let (p, i, used) = choose|p: int, i: int, used: Seq<Seq<char>>| entry_at(m, e, p, i, used);
    assert(m.relations[p].id == e.relation);
}

/// A sequence `ss[a]` that holds `x` puts `x` into the flattening.
proof fn lemma_in_flatten<A>(ss: Seq<Seq<A>>, a: int, b: int)
    requires
        0 <= a < ss.len(),
        0 <= b < ss[a].len(),
    ensures
        ss.flatten().contains(ss[a][b]),
{
    lemma_flatten_contains(ss, ss[a][b]);
}

/// Every source reference recorded in an observation of a non-deprecated
/// relation is re-checked: the observation's own reference and the
/// reference of each of its evidence items are among the model's source
/// references.
pub proof fn lemma_observation_references_are_checked(m: ModelView, p: int, q: int, t: int)
    requires
        0 <= p < m.relations.len(),
        relation_is_active(m.relations[p]),
        0 <= q < m.relations[p].cells.len(),
        0 <= t < m.relations[p].cells[q].observations.len(),
    ensures
        m.relations[p].cells[q].observations[t].source_ref matches Some(sr) ==> crate::stale::source_refs_of(
            m,
        ).contains(sr),
        forall|e: int|
            0 <= e < m.relations[p].cells[q].observations[t].evidence.len() ==> crate::stale::source_refs_of(
                m,
            ).contains(#[trigger] m.relations[p].cells[q].observations[t].evidence[e].source_ref),
{
    let r = m.relations[p];
    let c = r.cells[q];
    let o = c.observations[t];
    let own = if o.source_ref is Some { seq![o.source_ref.unwrap()] } else { Seq::<SourceRefView>::empty() };
    let ev = o.evidence.map_values(crate::stale::evidence_source());
    assert(crate::stale::observation_refs(o) == own + ev);
    let os = c.observations.map_values(crate::stale::observation_refs_of());
    let cs = r.cells.map_values(crate::stale::cell_refs_of());
    let rs = m.relations.map_values(crate::stale::relation_refs_of());
    let ds = m.dimensions.map_values(crate::stale::dimension_refs_of());
    assert(os[t] == own + ev);
    assert(cs[q] == os.flatten());
    assert(rs[p] == cs.flatten());
    assert(crate::stale::source_refs_of(m) == ds.flatten() + rs.flatten());
    // From a position `b` of `os[t]`, up to the model's references.
    assert forall|b: int| 0 <= b < os[t].len() implies crate::stale::source_refs_of(m).contains(#[trigger] os[t][b]) by {
        lemma_in_flatten(os, t, b);
        let k1 = choose|k: int| 0 <= k < os.flatten().len() && os.flatten()[k] == os[t][b];
        assert(cs[q][k1] == os[t][b]);
        lemma_in_flatten(cs, q, k1);
        let k2 = choose|k: int| 0 <= k < cs.flatten().len() && cs.flatten()[k] == os[t][b];
        assert(rs[p][k2] == os[t][b]);
        lemma_in_flatten(rs, p, k2);
        let k3 = choose|k: int| 0 <= k < rs.flatten().len() && rs.flatten()[k] == os[t][b];
        assert(crate::stale::source_refs_of(m)[ds.flatten().len() + k3] == os[t][b]);
    }
    if o.source_ref is Some {
        assert(os[t][0] == o.source_ref.unwrap());
    }
    assert forall|e: int| 0 <= e < o.evidence.len() implies crate::stale::source_refs_of(m).contains(
        #[trigger] o.evidence[e].source_ref,
    ) by {
        assert(os[t][own.len() + e] == o.evidence[e].source_ref);
    }
}

/// Each reference's staleness, where it is stale, is among the stale
/// references.
proof fn lemma_stale_among_contains(refs: Seq<SourceRefView>, contents: Seq<Option<Seq<char>>>, i: int)
    requires
        0 <= i < refs.len(),
        staleness(refs[i], contents[i]) is Some,
    ensures
        stale_among(refs, contents).contains(staleness(refs[i], contents[i]).unwrap()),
    decreases refs.len(),
{
    let n = refs.len() - 1;
    let prev = stale_among(refs.drop_last(), contents);
    if i < n {
        assert(refs.drop_last()[i] == refs[i]);
        lemma_stale_among_contains(refs.drop_last(), contents, i);
        let k = choose|k: int| 0 <= k < prev.len() && prev[k] == staleness(refs[i], contents[i]).unwrap();
        assert(stale_among(refs, contents)[k] == prev[k]);
    } else {
        assert(stale_among(refs, contents) == prev.push(staleness(refs[i], contents[i]).unwrap()));
        assert(stale_among(refs, contents)[prev.len() as int] == staleness(refs[i], contents[i]).unwrap());
    }
}

/// A reference among the model's source references that records a content
/// hash and names a path whose content could not be read is reported as a
/// stale reference to that path.
pub proof fn lemma_unreadable_reference_is_reported(
    m: ModelView,
    contents: Seq<Option<Seq<char>>>,
    i: int,
    path: Seq<char>,
)
    requires
        0 <= i < crate::stale::source_refs_of(m).len(),
        i < contents.len(),
        contents[i] is None,
        crate::stale::source_refs_of(m)[i].source_ref == Some(path),
        crate::stale::source_refs_of(m)[i].content_hash matches Some(h) && h.len() > 0,
    ensures
        findings_of(m, contents).contains(
            crate::findings::FindingView {
                kind: crate::findings::FindingKind::StaleReference,
                severity: crate::findings::Severity::Warn,
                members: Seq::empty(),
                path: seq![path],
                relation: None,
                explanation: "cannot read referenced content: "@ + path,
            },
        ),
{
    let refs = crate::stale::source_refs_of(m);
    lemma_stale_among_contains(refs, contents, i);
    let sa = stale_among(refs, contents);
    let sv = staleness(refs[i], contents[i]).unwrap();
    let k = choose|k: int| 0 <= k < sa.len() && sa[k] == sv;
    let a = sa.map_values(stale_finding_of());
    let b = orphans_of(m).map_values(orphan_finding_of());
    let c = crate::coverage::coverage_of(m).map_values(entry_findings_of()).flatten();
    assert(findings_of(m, contents) == a + b + c);
    assert(a[k] == crate::findings::stale_finding(sv));
    assert((a + b + c)[k] == a[k]);
}

/// A content-hashed evidence reference of an observation of a non-deprecated
/// relation, whose content cannot be read, is reported as a stale reference
/// to its path when nothing could be read.
pub proof fn lemma_unreadable_evidence_is_reported(
    m: ModelView,
    contents: Seq<Option<Seq<char>>>,
    p: int,
    q: int,
    t: int,
    e: int,
    path: Seq<char>,
)
    requires
        0 <= p < m.relations.len(),
        relation_is_active(m.relations[p]),
        0 <= q < m.relations[p].cells.len(),
        0 <= t < m.relations[p].cells[q].observations.len(),
        0 <= e < m.relations[p].cells[q].observations[t].evidence.len(),
        m.relations[p].cells[q].observations[t].evidence[e].source_ref.source_ref == Some(path),
        m.relations[p].cells[q].observations[t].evidence[e].source_ref.content_hash matches Some(h) && h.len() > 0,
        contents.len() == crate::stale::source_refs_of(m).len(),
        forall|j: int| 0 <= j < contents.len() ==> #[trigger] contents[j] is None,
    ensures
        findings_of(m, contents).contains(
            crate::findings::FindingView {
                kind: crate::findings::FindingKind::StaleReference,
                severity: crate::findings::Severity::Warn,
                members: Seq::empty(),
                path: seq![path],
                relation: None,
                explanation: "cannot read referenced content: "@ + path,
            },
        ),
{
    let sr = m.relations[p].cells[q].observations[t].evidence[e].source_ref;
    lemma_observation_references_are_checked(m, p, q, t);
    let refs = crate::stale::source_refs_of(m);
    assert(refs.contains(sr));
    let i = choose|i: int| 0 <= i < refs.len() && refs[i] == sr;
    assert(contents[i] is None);
    lemma_unreadable_reference_is_reported(m, contents, i, path);
}

/// The source reference of every non-deprecated member is re-checked.
pub proof fn lemma_member_references_are_checked(m: ModelView, d: int, k: int)
    requires
        0 <= d < m.dimensions.len(),
        0 <= k < m.dimensions[d].members.len(),
        member_is_active(m.dimensions[d].members[k]),
    ensures
        m.dimensions[d].members[k].source_ref matches Some(sr) ==> crate::stale::source_refs_of(m).contains(sr),
{
    let mm = m.dimensions[d].members[k];
    if let Some(sr) = mm.source_ref {
        let dim = m.dimensions[d];
        let ds = m.dimensions.map_values(crate::stale::dimension_refs_of());
        let rs = m.relations.map_values(crate::stale::relation_refs_of());
        lemma_filter_contains_iff(dim.members, crate::stale::has_source_pred(), mm);
        let f = dim.members.filter(crate::stale::has_source_pred());
        let j = choose|j: int| 0 <= j < f.len() && f[j] == mm;
        assert(ds[d] == crate::stale::dimension_refs(dim));
        assert(ds[d][j] == sr);
        lemma_in_flatten(ds, d, j);
        let k1 = choose|i: int| 0 <= i < ds.flatten().len() && ds.flatten()[i] == sr;
        assert(crate::stale::source_refs_of(m) == ds.flatten() + rs.flatten());
        assert(crate::stale::source_refs_of(m)[k1] == sr);
    }
}

/// On every axis of the coverage report, the covered members are exactly
/// those named on that side of some cell of the reported relation, and the
/// uncovered ones are named on that side of none of its cells; both lists
/// hold only non-deprecated members of a dimension with the reported id.
pub proof fn lemma_coverage_lists_follow_cells(m: ModelView, e: AxisCoverageView, x: Seq<char>)
    requires
        coverage_of(m).contains(e),
    ensures
        exists|p: int|
            #![trigger m.relations[p]]
            0 <= p < m.relations.len() && relation_is_active(m.relations[p]) && m.relations[p].id == e.relation
                && (e.axis == "from"@ || e.axis == "to"@)
                && (e.covered.contains(x) ==> exists|q: int|
                #![trigger m.relations[p].cells[q]]
                0 <= q < m.relations[p].cells.len() && (if e.axis == "from"@ {
                    m.relations[p].cells[q].from
                } else {
                    m.relations[p].cells[q].to
                }) == x) && (e.uncovered.contains(x) ==> forall|q: int|
                0 <= q < m.relations[p].cells.len() ==> (if e.axis == "from"@ {
                    #[trigger] m.relations[p].cells[q].from
                } else {
                    m.relations[p].cells[q].to
                }) != x),
        e.covered.contains(x) || e.uncovered.contains(x) ==> exists|i: int, k: int|
            #![trigger m.dimensions[i].members[k]]
            0 <= i < m.dimensions.len() && m.dimensions[i].id == e.dimension && 0 <= k
                < m.dimensions[i].members.len() && m.dimensions[i].members[k].id == x
                && member_is_active(m.dimensions[i].members[k]),
{
    reveal_strlit("from");
    reveal_strlit("to");
    let ss = m.relations.map_values(relation_coverage_of(m.dimensions));
    lemma_flatten_contains(ss, e);
    let (p, j) = choose|p: int, j: int| 0 <= p < ss.len() && 0 <= j < ss[p].len() && #[trigger] ss[p][j] == e;
    let r = m.relations[p];
    let dims = m.dimensions;
    assert(ss[p] == relation_coverage(dims, r));
    let fa = axis_coverage(dims, r, "from"@, r.from, from_ends(r), from_required(r.coverage_policy));
    let ta = axis_coverage(dims, r, "to"@, r.to, to_ends(r), to_required(r.coverage_policy));
    assert(ss[p] == fa + ta);
    let is_from = j < fa.len();
    let dim = if is_from { r.from } else { r.to };
    let used = if is_from { from_ends(r) } else { to_ends(r) };
    let i = first_of(dimension_ids(dims), dim).unwrap();
    lemma_first_of_iff_contains(dimension_ids(dims), dim);
    if is_from {
        assert(e == fa[j]);
    } else {
        assert(e == ta[j - fa.len()]);
    }
    assert("from"@ != "to"@) by {
        assert("from"@.len() != "to"@.len());
    }
    let members = dims[i].members;
    assert(e.covered == members.filter(covered_pred(used)).map_values(member_id_of()));
    assert(e.uncovered == members.filter(uncovered_pred(used)).map_values(member_id_of()));
    assert(e.dimension == dims[i].id);
    assert(relation_is_active(r));
    assert(e.relation == r.id);
    assert(e.axis == "from"@ || e.axis == "to"@);
    if e.covered.contains(x) {
        let t = choose|t: int| 0 <= t < e.covered.len() && e.covered[t] == x;
        let f = members.filter(covered_pred(used));
        members.lemma_filter_pred(covered_pred(used), t);
        members.lemma_filter_contains_rev(covered_pred(used), f[t]);
        let k = choose|k: int| 0 <= k < members.len() && members[k] == f[t];
        assert(m.dimensions[i].members[k].id == x);
        let q = choose|q: int| 0 <= q < used.len() && used[q] == x;
        assert(if e.axis == "from"@ { m.relations[p].cells[q].from } else { m.relations[p].cells[q].to } == x);
    }
    if e.uncovered.contains(x) {
        let t = choose|t: int| 0 <= t < e.uncovered.len() && e.uncovered[t] == x;
        let f = members.filter(uncovered_pred(used));
        members.lemma_filter_pred(uncovered_pred(used), t);
        members.lemma_filter_contains_rev(uncovered_pred(used), f[t]);
        let k = choose|k: int| 0 <= k < members.len() && members[k] == f[t];
        assert(m.dimensions[i].members[k].id == x);
        assert forall|q: int| #![trigger m.relations[p].cells[q]] 0 <= q < m.relations[p].cells.len() implies (if e.axis == "from"@ {
            m.relations[p].cells[q].from
        } else {
            m.relations[p].cells[q].to
        }) != x by {
            assert(used[q] == (if e.axis == "from"@ { m.relations[p].cells[q].from } else { m.relations[p].cells[q].to }));
        }
    }
}

/// In a loaded model, each two consecutive relations of a contraction
/// chain (each the last declared with its id) join end to start and are on
/// the same scale.
pub proof fn lemma_loaded_chain_links_match(m: ModelView, k: int, j: int, a: int, b: int)
    requires
        is_valid(m),
        0 <= k < m.contractions.len(),
        0 <= j,
        j + 1 < m.contractions[k].chain.len(),
        last_of(relation_ids(m.relations), m.contractions[k].chain[j]) == Some(a),
        last_of(relation_ids(m.relations), m.contractions[k].chain[j + 1]) == Some(b),
    ensures
        m.relations[a].to == m.relations[b].from,
        m.relations[a].scale == m.relations[b].scale,
{
    lemma_loaded_chains_compose(m, k);
    assert(!pair_mismatch(m.relations, m.contractions[k].chain, j));
}

/// In a loaded model, every observation token is the token of a level of
/// its relation's scale (the last scale declared with that id), so a
/// relation that observes anything names a declared scale.
pub proof fn lemma_loaded_tokens_are_levels(m: ModelView, p: int, q: int, t: int)
    requires
        is_valid(m),
        0 <= p < m.relations.len(),
        0 <= q < m.relations[p].cells.len(),
        0 <= t < m.relations[p].cells[q].observations.len(),
    ensures
        exists|si: int, l: int|
            #![trigger m.scales[si].levels[l]]
            last_of(scale_ids(m.scales), m.relations[p].scale) == Some(si) && 0 <= si < m.scales.len() && 0 <= l
                < m.scales[si].levels.len() && m.scales[si].levels[l].observation
                == m.relations[p].cells[q].observations[t].observation,
{
    lemma_loaded_cells_resolve(m, p, q);
    let tok = m.relations[p].cells[q].observations[t].observation;
    assert(token_known(m.scales, m.relations[p].scale, tok));
    let si = last_of(scale_ids(m.scales), m.relations[p].scale).unwrap();
    crate::lookup::lemma_last_of_bounds(scale_ids(m.scales), m.relations[p].scale);
    let l = choose|l: int| 0 <= l < level_tokens(m.scales[si].levels).len() && level_tokens(m.scales[si].levels)[l] == tok;
    assert(m.scales[si].levels[l].observation == tok);
}

} // verus!
