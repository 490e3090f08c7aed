//! Per-relation, per-axis coverage and the orphans of a model.

use vstd::prelude::*;
use crate::engine::Model;
use crate::lookup::{find_first, first_of, keys, contains_key};
use crate::model::{
    CellView, Dimension, DimensionView, Member, MemberView, ModelView, Relation, RelationView,
    views,
};
use crate::seqs::{lemma_filter_map_step, lemma_flatten_map_step, lemma_take_full};
use crate::validate::{dimension_ids, lemma_keys_dimensions};
use crate::valence::{
    from_required, member_active, member_is_active, relation_active, relation_is_active,
    to_required,
};

verus! {

broadcast use vstd::seq_lib::group_seq_properties;

/// Coverage of one axis of one relation: which active members of the axis
/// dimension have at least one cell on that axis, and which have none.
pub struct AxisCoverage {
    pub relation: String,
    /// `"from"` or `"to"`.
    pub axis: String,
    pub dimension: String,
    /// Whether the relation's coverage policy makes uncovered members a violation.
    pub required: bool,
    pub covered: Vec<String>,
    pub uncovered: Vec<String>,
}

pub struct AxisCoverageView {
    pub relation: Seq<char>,
    pub axis: Seq<char>,
    pub dimension: Seq<char>,
    pub required: bool,
    pub covered: Seq<Seq<char>>,
    pub uncovered: Seq<Seq<char>>,
}

impl View for AxisCoverage {
    type V = AxisCoverageView;

    open spec fn view(&self) -> AxisCoverageView {
        AxisCoverageView {
            relation: self.relation@,
            axis: self.axis@,
            dimension: self.dimension@,
            required: self.required,
            covered: views(self.covered@),
            uncovered: views(self.uncovered@),
        }
    }
}

/// The members named on the `from` side of the relation's cells.
pub open spec fn from_ends(r: RelationView) -> Seq<Seq<char>> {
    r.cells.map_values(|c: CellView| c.from)
}

/// The members named on the `to` side of the relation's cells.
pub open spec fn to_ends(r: RelationView) -> Seq<Seq<char>> {
    r.cells.map_values(|c: CellView| c.to)
}

pub open spec fn member_id_of() -> spec_fn(MemberView) -> Seq<char> {
    |m: MemberView| m.id
}

pub open spec fn covered_pred(used: Seq<Seq<char>>) -> spec_fn(MemberView) -> bool {
    |m: MemberView| member_is_active(m) && used.contains(m.id)
}

pub open spec fn uncovered_pred(used: Seq<Seq<char>>) -> spec_fn(MemberView) -> bool {
    |m: MemberView| member_is_active(m) && !used.contains(m.id)
}

/// The coverage entry of one axis; none when the axis dimension is not
/// declared (the first dimension declared with the id is the one evaluated).
pub open spec fn axis_coverage(
    dims: Seq<DimensionView>,
    r: RelationView,
    axis: Seq<char>,
    dim: Seq<char>,
    used: Seq<Seq<char>>,
    required: bool,
) -> Seq<AxisCoverageView> {
    match first_of(dimension_ids(dims), dim) {
        Some(i) => seq![
            AxisCoverageView {
                relation: r.id,
                axis,
                dimension: dims[i].id,
                required,
                covered: dims[i].members.filter(covered_pred(used)).map_values(member_id_of()),
                uncovered: dims[i].members.filter(uncovered_pred(used)).map_values(member_id_of()),
            },
        ],
        None => Seq::empty(),
    }
}

/// The coverage entries of a relation: its `from` axis, then its `to` axis;
/// none for a deprecated relation.
pub open spec fn relation_coverage(dims: Seq<DimensionView>, r: RelationView) -> Seq<AxisCoverageView> {
    if relation_is_active(r) {
        axis_coverage(dims, r, "from"@, r.from, from_ends(r), from_required(r.coverage_policy))
            + axis_coverage(dims, r, "to"@, r.to, to_ends(r), to_required(r.coverage_policy))
    } else {
        Seq::empty()
    }
}

pub open spec fn relation_coverage_of(dims: Seq<DimensionView>) -> spec_fn(RelationView) -> Seq<AxisCoverageView> {
    |r: RelationView| relation_coverage(dims, r)
}

/// The coverage report of a model, relation by relation.
pub open spec fn coverage_of(m: ModelView) -> Seq<AxisCoverageView> {
    m.relations.map_values(relation_coverage_of(m.dimensions)).flatten()
}

fn cell_ends(r: &Relation, from_side: bool) -> (v: Vec<String>)
    ensures
        views(v@) == if from_side { from_ends(r@) } else { to_ends(r@) },
{
    let mut v: Vec<String> = Vec::new();
    let mut j: usize = 0;
    while j < r.cells.len()
        invariant
            j <= r.cells.len(),
            v@.len() == j,
            forall|a: int|
                0 <= a < j ==> #[trigger] v@[a]@ == if from_side {
                    r.cells@[a].from@
                } else {
                    r.cells@[a].to@
                },
        decreases r.cells.len() - j,
    {
        if from_side {
            v.push(r.cells[j].from.clone());
        } else {
            v.push(r.cells[j].to.clone());
        }
        j = j + 1;
    }
    proof {
        if from_side {
            assert(views(v@) =~= from_ends(r@));
        } else {
            assert(views(v@) =~= to_ends(r@));
        }
    }
    v
}

fn axis_coverage_into(
    dims: &Vec<Dimension>,
    r: &Relation,
    axis: &str,
    dim: &String,
    used: &Vec<String>,
    required: bool,
    out: &mut Vec<AxisCoverage>,
)
    ensures
        views(final(out)@) == views(old(out)@) + axis_coverage(
            views(dims@),
            r@,
            axis@,
            dim@,
            views(used@),
            required,
        ),
{
    let ghost dv = views(dims@);
    proof {
        lemma_keys_dimensions(dims@);
        assert(keys(used@) =~= views(used@));
    }
    let i = match find_first(dims, dim) {
        Some(i) => i,
        None => {
            assert(views(out@) =~= views(out@) + Seq::<AxisCoverageView>::empty());
            return;
        },
    };
    let d = &dims[i];
    let ghost md = d@.members;
    let ghost u = views(used@);
    let mut covered: Vec<String> = Vec::new();
    let mut uncovered: Vec<String> = Vec::new();
    let mut j: usize = 0;
    while j < d.members.len()
        invariant
            j <= d.members.len(),
            md == d@.members,
            u == views(used@),
            keys(used@) == u,
            views(covered@) == md.take(j as int).filter(covered_pred(u)).map_values(member_id_of()),
            views(uncovered@) == md.take(j as int).filter(uncovered_pred(u)).map_values(member_id_of()),
        decreases d.members.len() - j,
    {
        let mm = &d.members[j];
        proof {
            assert(md[j as int] == mm@);
            lemma_filter_map_step(md, j as int, covered_pred(u), member_id_of());
            lemma_filter_map_step(md, j as int, uncovered_pred(u), member_id_of());
        }
        if member_active(mm) {
            if contains_key(used, &mm.id) {
                let ghost prev = views(covered@);
                covered.push(mm.id.clone());
                assert(views(covered@) =~= prev.push(mm.id@));
            } else {
                let ghost prev = views(uncovered@);
                uncovered.push(mm.id.clone());
                assert(views(uncovered@) =~= prev.push(mm.id@));
            }
        }
        j = j + 1;
    }
    proof {
        lemma_take_full(md);
    }
    let entry = AxisCoverage {
        relation: r.id.clone(),
        axis: String::from_str(axis),
        dimension: d.id.clone(),
        required,
        covered,
        uncovered,
    };
    let ghost prev = views(out@);
    out.push(entry);
    assert(views(out@) =~= prev + axis_coverage(dv, r@, axis@, dim@, u, required));
}

/// A member with no relationship at all: a traceability gap.
pub struct Orphan {
    pub dimension: String,
    pub member: String,
}

pub struct OrphanView {
    pub dimension: Seq<char>,
    pub member: Seq<char>,
}

impl View for Orphan {
    type V = OrphanView;

    open spec fn view(&self) -> OrphanView {
        OrphanView { dimension: self.dimension@, member: self.member@ }
    }
}

/// Cell `b` of relation `a` is a cell of a non-deprecated relation that
/// names `x` on either side.
pub open spec fn names_at(m: ModelView, a: int, b: int, x: Seq<char>) -> bool {
    &&& 0 <= a < m.relations.len()
    &&& relation_is_active(m.relations[a])
    &&& 0 <= b < m.relations[a].cells.len()
    &&& (m.relations[a].cells[b].from == x || m.relations[a].cells[b].to == x)
}

/// `x` appears in some cell of some non-deprecated relation.
pub open spec fn member_used(m: ModelView, x: Seq<char>) -> bool {
    exists|a: int, b: int| names_at(m, a, b, x)
}

pub open spec fn orphan_pred(m: ModelView) -> spec_fn(MemberView) -> bool {
    |mm: MemberView| member_is_active(mm) && !member_used(m, mm.id)
}

pub open spec fn orphan_of(d: DimensionView) -> spec_fn(MemberView) -> OrphanView {
    |mm: MemberView| OrphanView { dimension: d.id, member: mm.id }
}

/// The orphans of one dimension, in roster order.
pub open spec fn dimension_orphans(m: ModelView, d: DimensionView) -> Seq<OrphanView> {
    d.members.filter(orphan_pred(m)).map_values(orphan_of(d))
}

pub open spec fn dimension_orphans_of(m: ModelView) -> spec_fn(DimensionView) -> Seq<OrphanView> {
    |d: DimensionView| dimension_orphans(m, d)
}

/// The orphans of a model: the active members that appear in no cell of any
/// non-deprecated relation, in declared dimension and member order.
pub open spec fn orphans_of(m: ModelView) -> Seq<OrphanView> {
    m.dimensions.map_values(dimension_orphans_of(m)).flatten()
}

/// Every member named by a cell of a non-deprecated relation.
fn used_members(doc: &crate::model::CrossMatrixModel) -> (used: Vec<String>)
    ensures
        forall|x: Seq<char>| #[trigger] views(used@).contains(x) <==> member_used(doc@, x),
{
    let ghost m = doc@;
    let mut used: Vec<String> = Vec::new();
    let mut i: usize = 0;
    while i < doc.relations.len()
        invariant
            i <= doc.relations.len(),
            m == doc@,
            forall|x: Seq<char>|
                #[trigger] views(used@).contains(x) <==> exists|a: int, b: int|
                    a < i && names_at(m, a, b, x),
        decreases doc.relations.len() - i,
    {
        let r = &doc.relations[i];
        proof {
            assert(m.relations[i as int] == r@);
        }
        if relation_active(r) {
            let mut j: usize = 0;
            while j < r.cells.len()
                invariant
                    i < doc.relations.len(),
                    j <= r.cells.len(),
                    m == doc@,
                    m.relations[i as int] == r@,
                    relation_is_active(r@),
                    forall|x: Seq<char>|
                        #[trigger] views(used@).contains(x) <==> (exists|a: int, b: int|
                            a < i && names_at(m, a, b, x)) || (exists|b: int|
                            b < j && names_at(m, i as int, b, x)),
                decreases r.cells.len() - j,
            {
                let c = &r.cells[j];
                let ghost prev = views(used@);
                used.push(c.from.clone());
                used.push(c.to.clone());
                proof {
                    assert(m.relations[i as int].cells[j as int] == c@);
                    assert(views(used@) =~= prev.push(c.from@).push(c.to@));
                    assert forall|x: Seq<char>| #[trigger] views(used@).contains(x) <==> (exists|a: int, b: int|
                        a < i && names_at(m, a, b, x)) || (exists|b: int|
                        b < j + 1 && names_at(m, i as int, b, x)) by {
                        if views(used@).contains(x) {
                            if prev.contains(x) {
                            } else {
                                let k = choose|k: int| 0 <= k < views(used@).len() && views(used@)[k] == x;
                                assert(k >= prev.len());
                                assert(names_at(m, i as int, j as int, x));
                            }
                        }
                        if exists|b: int| b < j + 1 && names_at(m, i as int, b, x) {
                            let b = choose|b: int| b < j + 1 && names_at(m, i as int, b, x);
                            if b == j {
                                if c.from@ == x {
                                    assert(views(used@)[prev.len() as int] == x);
                                } else {
                                    assert(views(used@)[prev.len() as int + 1] == x);
                                }
                            } else {
                                assert(prev.contains(x));
                                let k = choose|k: int| 0 <= k < prev.len() && prev[k] == x;
                                assert(views(used@)[k] == x);
                            }
                        }
                        if exists|a: int, b: int| a < i && names_at(m, a, b, x) {
                            assert(prev.contains(x));
                            let k = choose|k: int| 0 <= k < prev.len() && prev[k] == x;
                            assert(views(used@)[k] == x);
                        }
                    }
                }
                j = j + 1;
            }
            proof {
                assert forall|x: Seq<char>| #[trigger] views(used@).contains(x) <==> exists|a: int, b: int|
                    a < i + 1 && names_at(m, a, b, x) by {
                    if exists|a: int, b: int| a < i + 1 && names_at(m, a, b, x) {
                        let (a, b) = choose|a: int, b: int| a < i + 1 && names_at(m, a, b, x);
                        if a == i {
                            assert(exists|b: int| b < j && names_at(m, i as int, b, x));
                        } else {
                            assert(exists|a: int, b: int| a < i && names_at(m, a, b, x));
                        }
                    }
                    if exists|b: int| b < j && names_at(m, i as int, b, x) {
                        let b = choose|b: int| b < j && names_at(m, i as int, b, x);
                        assert(names_at(m, i as int, b, x));
                    }
                }
            }
        } else {
            proof {
                assert forall|x: Seq<char>| #[trigger] views(used@).contains(x) <==> exists|a: int, b: int|
                    a < i + 1 && names_at(m, a, b, x) by {
                    if exists|a: int, b: int| a < i + 1 && names_at(m, a, b, x) {
                        let (a, b) = choose|a: int, b: int| a < i + 1 && names_at(m, a, b, x);
                        assert(a != i);
                    }
                }
            }
        }
        i = i + 1;
    }
    used
}

impl Model {
    /// The traceability gaps: the active members that appear in no cell of
    /// any non-deprecated relation, in declared dimension and member order.
    pub fn orphans(&self) -> (out: Vec<Orphan>)
        ensures
            views(out@) == orphans_of(self@),
    {
        let ghost m = self@;
        let doc = self.document();
        let used = used_members(doc);
        proof {
            assert(keys(used@) =~= views(used@));
        }
        let mut out: Vec<Orphan> = Vec::new();
        let mut i: usize = 0;
        while i < doc.dimensions.len()
            invariant
                i <= doc.dimensions.len(),
                m == doc@,
                keys(used@) == views(used@),
                forall|x: Seq<char>| #[trigger] views(used@).contains(x) <==> member_used(m, x),
                views(out@) == m.dimensions.take(i as int).map_values(dimension_orphans_of(m)).flatten(),
            decreases doc.dimensions.len() - i,
        {
            let d = &doc.dimensions[i];
            let ghost dv = d@;
            proof {
                assert(m.dimensions[i as int] == dv);
                lemma_flatten_map_step(m.dimensions, i as int, dimension_orphans_of(m));
            }
            let ghost start = views(out@);
            let mut j: usize = 0;
            while j < d.members.len()
                invariant
                    j <= d.members.len(),
                    m == doc@,
                    dv == d@,
                    keys(used@) == views(used@),
                    forall|x: Seq<char>| #[trigger] views(used@).contains(x) <==> member_used(m, x),
                    views(out@) == start + dv.members.take(j as int).filter(orphan_pred(m)).map_values(orphan_of(dv)),
                decreases d.members.len() - j,
            {
                let mm = &d.members[j];
                proof {
                    assert(dv.members[j as int] == mm@);
                    lemma_filter_map_step(dv.members, j as int, orphan_pred(m), orphan_of(dv));
                }
                if member_active(mm) && !contains_key(&used, &mm.id) {
                    let ghost prev = views(out@);
                    out.push(Orphan { dimension: d.id.clone(), member: mm.id.clone() });
                    assert(views(out@) =~= prev.push(OrphanView { dimension: dv.id, member: mm.id@ }));
                }
                j = j + 1;
            }
            proof {
                lemma_take_full(dv.members);
            }
            i = i + 1;
        }
        proof {
            lemma_take_full(m.dimensions);
        }
        out
    }

    /// Per relation (deprecated ones excluded), per axis (`from`, then
    /// `to`): the active members of the axis dimension that have a cell on
    /// that axis (`covered`) and those that have none (`uncovered`), in
    /// roster order, with `required` set by the relation's coverage policy.
    pub fn coverage(&self) -> (out: Vec<AxisCoverage>)
        ensures
            views(out@) == coverage_of(self@),
    {
        let ghost m = self@;
        let doc = self.document();
        let mut out: Vec<AxisCoverage> = Vec::new();
        let mut i: usize = 0;
        while i < doc.relations.len()
            invariant
                i <= doc.relations.len(),
                m == doc@,
                views(out@) == m.relations.take(i as int).map_values(relation_coverage_of(m.dimensions)).flatten(),
            decreases doc.relations.len() - i,
        {
            let r = &doc.relations[i];
            proof {
                assert(m.relations[i as int] == r@);
                lemma_flatten_map_step(m.relations, i as int, relation_coverage_of(m.dimensions));
            }
            let ghost before = views(out@);
            if relation_active(r) {
                let from_used = cell_ends(r, true);
                let to_used = cell_ends(r, false);
                let from_req = match r.coverage_policy {
                    crate::model::CoveragePolicy::EveryFrom => true,
                    crate::model::CoveragePolicy::Both => true,
                    _ => false,
                };
                let to_req = match r.coverage_policy {
                    crate::model::CoveragePolicy::EveryTo => true,
                    crate::model::CoveragePolicy::Both => true,
                    _ => false,
                };
                axis_coverage_into(&doc.dimensions, r, "from", &r.from, &from_used, from_req, &mut out);
                axis_coverage_into(&doc.dimensions, r, "to", &r.to, &to_used, to_req, &mut out);
                assert(views(out@) =~= before + relation_coverage(m.dimensions, r@));
            } else {
                assert(views(out@) =~= before + relation_coverage(m.dimensions, r@));
            }
            i = i + 1;
        }
        proof {
            lemma_take_full(m.relations);
        }
        out
    }
}

} // verus!
