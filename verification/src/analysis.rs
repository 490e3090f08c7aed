//! The decisions that precede the numeric analyses (weighted rollup,
//! contraction cascade, tension analysis): which relation, which chain,
//! which cells take part, and when a weighted analysis must be refused.

use vstd::prelude::*;
use crate::engine::Model;
use crate::lookup::{find_first, find_last, first_of, last_of, keys, contains_key};
use crate::model::{
    Cell, CellView, Contraction, ContractionView, Dimension, DimensionView, Member, MemberView,
    ModelView, Relation, RelationView, ScaleView, views,
};
use crate::seqs::{lemma_filter_map_step, lemma_flatten_map_step, lemma_take_full};
use crate::validate::{
    ValidationError, ValidationErrorView, dimension_ids, lemma_keys_dimensions,
    lemma_keys_levels, lemma_keys_relations, lemma_keys_scales, level_tokens, relation_ids,
    scale_ids,
};
use crate::valence::{member_active, member_is_active, relation_active, relation_is_active, relation_opposes, valence};

verus! {

broadcast use vstd::seq_lib::group_seq_properties;

/// Which axis of a relation to roll up.
#[derive(Clone, Copy, Debug, PartialEq, Eq, Structural)]
pub enum Axis {
    From,
    To,
}

/// The dimension that a rollup over `axis` sums away.
pub open spec fn rolled_dimension(r: RelationView, axis: Axis) -> Seq<char> {
    match axis {
        Axis::From => r.from,
        Axis::To => r.to,
    }
}

/// A member's importance weight resolves: it is given as a number, or as a
/// token of the weight scale of its dimension (the first scale declared with
/// that id).
pub open spec fn weight_resolves(scales: Seq<ScaleView>, d: DimensionView, mm: MemberView) -> bool {
    mm.weight_bits is Some || match (mm.weight_observation, d.weight_scale) {
        (Some(wo), Some(ws)) => match first_of(scale_ids(scales), ws) {
            Some(s) => level_tokens(scales[s].levels).contains(wo),
            None => false,
        },
        _ => false,
    }
}

/// A member's resolved importance weight, as its bit pattern: its own
/// weight, else the value of the first level whose token is the member's
/// weight observation, in the weight scale of its dimension (the first
/// scale declared with that id).
pub open spec fn resolved_weight_of(scales: Seq<ScaleView>, d: DimensionView, mm: MemberView) -> Option<u64> {
    match mm.weight_bits {
        Some(w) => Some(w),
        None => match (d.weight_scale, mm.weight_observation) {
            (Some(ws), Some(wo)) => match first_of(scale_ids(scales), ws) {
                Some(s) => match first_of(level_tokens(scales[s].levels), wo) {
                    Some(k) => Some(scales[s].levels[k].value_bits),
                    None => None,
                },
                None => None,
            },
            _ => None,
        },
    }
}

pub open spec fn unweighted_pred(scales: Seq<ScaleView>, d: DimensionView) -> spec_fn(MemberView) -> bool {
    |mm: MemberView| !weight_resolves(scales, d, mm)
}

pub open spec fn member_id_fn() -> spec_fn(MemberView) -> Seq<char> {
    |mm: MemberView| mm.id
}

/// The members of the rolled dimension (the first declared with its id)
/// whose weight does not resolve, in roster order.
pub open spec fn unweighted_members(m: ModelView, r: RelationView, axis: Axis) -> Seq<Seq<char>> {
    match first_of(dimension_ids(m.dimensions), rolled_dimension(r, axis)) {
        Some(i) => m.dimensions[i].members.filter(unweighted_pred(m.scales, m.dimensions[i])).map_values(member_id_fn()),
        None => Seq::empty(),
    }
}

/// Why a weighted rollup of `relation` over `axis` is refused, if it is:
/// an unknown relation (with no member named), or members of the rolled
/// dimension without a resolvable weight.
pub open spec fn weighted_verdict(m: ModelView, relation: Seq<char>, axis: Axis) -> Option<ValidationErrorView> {
    match first_of(relation_ids(m.relations), relation) {
        None => Some(ValidationErrorView::UnweightedMemberForWeightedAnalysis { relation_id: relation, members: Seq::empty() }),
        Some(i) => {
            let u = unweighted_members(m, m.relations[i], axis);
            if u.len() > 0 {
                Some(ValidationErrorView::UnweightedMemberForWeightedAnalysis { relation_id: relation, members: u })
            } else {
                None
            }
        },
    }
}

/// Whether the member's weight resolves.
fn resolves_weight(scales: &Vec<crate::model::ScaleDef>, d: &Dimension, mm: &Member) -> (r: bool)
    ensures
        r == weight_resolves(views(scales@), d@, mm@),
{
    if mm.weight_bits.is_some() {
        return true;
    }
    match (&mm.weight_observation, &d.weight_scale) {
        (Some(wo), Some(ws)) => {
            proof {
                lemma_keys_scales(scales@);
            }
            match find_first(scales, ws) {
                Some(s) => {
                    proof {
                        lemma_keys_levels(scales@[s as int].levels@);
                    }
                    contains_key(&scales[s].levels, wo)
                },
                None => false,
            }
        },
        _ => false,
    }
}

/// The executable plan of a contraction: the chain and its relations.
pub struct ContractionPlan<'a> {
    pub contraction: &'a Contraction,
    /// The relation each chain id names (the last declared with that id).
    pub relations: Vec<&'a Relation>,
}

/// The relations a chain names, each the last relation declared with its id;
/// `None` when some id names no relation.
pub open spec fn chain_relations(rels: Seq<RelationView>, chain: Seq<Seq<char>>) -> Option<Seq<RelationView>> {
    if forall|k: int| 0 <= k < chain.len() ==> #[trigger] last_of(relation_ids(rels), chain[k]) is Some {
        Some(Seq::new(chain.len(), |k: int| rels[last_of(relation_ids(rels), chain[k]).unwrap()]))
    } else {
        None
    }
}

/// The first contraction declared with `id` and the relations of its chain;
/// `None` when the id is unknown, the chain is empty, or the chain names an
/// undeclared relation.
pub open spec fn contraction_ids_of(cs: Seq<ContractionView>) -> Seq<Seq<char>> {
    cs.map_values(|c: ContractionView| c.id)
}

pub open spec fn contraction_plan(m: ModelView, id: Seq<char>) -> Option<(ContractionView, Seq<RelationView>)> {
    match first_of(contraction_ids_of(m.contractions), id) {
        Some(k) => {
            let c = m.contractions[k];
            if c.chain.len() == 0 {
                None
            } else {
                match chain_relations(m.relations, c.chain) {
                    Some(rs) => Some((c, rs)),
                    None => None,
                }
            }
        },
        None => None,
    }
}

/// A cell that exerts a force in tension analysis.
pub struct Force<'a> {
    pub relation: &'a Relation,
    pub cell: &'a Cell,
    /// Whether the relation opposes (rather than supports) its `to` member.
    pub opposes: bool,
}

pub struct ForceView {
    pub relation: RelationView,
    pub cell: CellView,
    pub opposes: bool,
}

impl<'a> View for Force<'a> {
    type V = ForceView;

    open spec fn view(&self) -> ForceView {
        ForceView { relation: self.relation@, cell: self.cell@, opposes: self.opposes }
    }
}

/// Some deprecated member carries the id `x`.
pub open spec fn deprecated_id(m: ModelView, x: Seq<char>) -> bool {
    exists|a: int, b: int|
        0 <= a < m.dimensions.len() && 0 <= b < m.dimensions[a].members.len()
            && m.dimensions[a].members[b].id == x && !member_is_active(m.dimensions[a].members[b])
}

pub open spec fn force_pred(m: ModelView) -> spec_fn(CellView) -> bool {
    |c: CellView| !deprecated_id(m, c.from) && !deprecated_id(m, c.to)
}

pub open spec fn force_of(r: RelationView, opposes: bool) -> spec_fn(CellView) -> ForceView {
    |c: CellView| ForceView { relation: r, cell: c, opposes }
}

/// The forces of one relation: none for a deprecated or structural
/// relation; otherwise its cells whose two members are not deprecated.
pub open spec fn relation_forces(m: ModelView, r: RelationView) -> Seq<ForceView> {
    if relation_is_active(r) && valence(r.relation_type) is Some {
        r.cells.filter(force_pred(m)).map_values(force_of(r, valence(r.relation_type).unwrap()))
    } else {
        Seq::empty()
    }
}

pub open spec fn relation_forces_of(m: ModelView) -> spec_fn(RelationView) -> Seq<ForceView> {
    |r: RelationView| relation_forces(m, r)
}

/// Every force of the model, relation by relation.
pub open spec fn forces_of(m: ModelView) -> Seq<ForceView> {
    m.relations.map_values(relation_forces_of(m)).flatten()
}

/// The ids of the deprecated members.
fn deprecated_members(doc: &crate::model::CrossMatrixModel) -> (v: Vec<String>)
    ensures
        forall|x: Seq<char>| #[trigger] views(v@).contains(x) <==> deprecated_id(doc@, x),
{
    let ghost m = doc@;
    let mut v: Vec<String> = Vec::new();
    let mut a: usize = 0;
    while a < doc.dimensions.len()
        invariant
            a <= doc.dimensions.len(),
            m == doc@,
            forall|x: Seq<char>| #[trigger] views(v@).contains(x) <==> exists|i: int, j: int|
                0 <= i < a && 0 <= j < m.dimensions[i].members.len()
                    && m.dimensions[i].members[j].id == x && !member_is_active(m.dimensions[i].members[j]),
        decreases doc.dimensions.len() - a,
    {
        let d = &doc.dimensions[a];
        assert(m.dimensions[a as int] == d@);
        let mut b: usize = 0;
        while b < d.members.len()
            invariant
                a < doc.dimensions.len(),
                b <= d.members.len(),
                m == doc@,
                m.dimensions[a as int] == d@,
                forall|x: Seq<char>| #[trigger] views(v@).contains(x) <==> (exists|i: int, j: int|
                    0 <= i < a && 0 <= j < m.dimensions[i].members.len()
                        && m.dimensions[i].members[j].id == x && !member_is_active(m.dimensions[i].members[j]))
                    || (exists|j: int| 0 <= j < b && m.dimensions[a as int].members[j].id == x
                        && !member_is_active(m.dimensions[a as int].members[j])),
            decreases d.members.len() - b,
        {
            let mm = &d.members[b];
            assert(m.dimensions[a as int].members[b as int] == mm@);
            if !member_active(mm) {
                let ghost prev = views(v@);
                v.push(mm.id.clone());
                proof {
                    assert(views(v@) =~= prev.push(mm.id@));
                    assert forall|x: Seq<char>| #[trigger] views(v@).contains(x) <==> (exists|i: int, j: int|
                        0 <= i < a && 0 <= j < m.dimensions[i].members.len()
                            && m.dimensions[i].members[j].id == x && !member_is_active(m.dimensions[i].members[j]))
                        || (exists|j: int| 0 <= j < b + 1 && m.dimensions[a as int].members[j].id == x
                            && !member_is_active(m.dimensions[a as int].members[j])) by {
                        if views(v@).contains(x) && !prev.contains(x) {
                            assert(x == mm.id@);
                        }
                        if prev.contains(x) {
                            let k = choose|k: int| 0 <= k < prev.len() && prev[k] == x;
                            assert(views(v@)[k] == x);
                        }
                        if x == mm.id@ {
                            assert(views(v@)[prev.len() as int] == x);
                        }
                        if exists|j: int| 0 <= j < b + 1 && m.dimensions[a as int].members[j].id == x
                            && !member_is_active(m.dimensions[a as int].members[j]) {
                            let j = choose|j: int| 0 <= j < b + 1 && m.dimensions[a as int].members[j].id == x
                                && !member_is_active(m.dimensions[a as int].members[j]);
                            if j < b {
                                assert(prev.contains(x));
                            }
                        }
                    }
                }
            } else {
                proof {
                    assert forall|x: Seq<char>| #[trigger] views(v@).contains(x) <==> (exists|i: int, j: int|
                        0 <= i < a && 0 <= j < m.dimensions[i].members.len()
                            && m.dimensions[i].members[j].id == x && !member_is_active(m.dimensions[i].members[j]))
                        || (exists|j: int| 0 <= j < b + 1 && m.dimensions[a as int].members[j].id == x
                            && !member_is_active(m.dimensions[a as int].members[j])) by {
                        if exists|j: int| 0 <= j < b + 1 && m.dimensions[a as int].members[j].id == x
                            && !member_is_active(m.dimensions[a as int].members[j]) {
                            let j = choose|j: int| 0 <= j < b + 1 && m.dimensions[a as int].members[j].id == x
                                && !member_is_active(m.dimensions[a as int].members[j]);
                            assert(j < b);
                        }
                    }
                }
            }
            b = b + 1;
        }
        proof {
            assert forall|x: Seq<char>| #[trigger] views(v@).contains(x) <==> exists|i: int, j: int|
                0 <= i < a + 1 && 0 <= j < m.dimensions[i].members.len()
                    && m.dimensions[i].members[j].id == x && !member_is_active(m.dimensions[i].members[j]) by {
                if exists|i: int, j: int|
                    0 <= i < a + 1 && 0 <= j < m.dimensions[i].members.len()
                        && m.dimensions[i].members[j].id == x && !member_is_active(m.dimensions[i].members[j]) {
                    let (i, j) = choose|i: int, j: int|
                        0 <= i < a + 1 && 0 <= j < m.dimensions[i].members.len()
                            && m.dimensions[i].members[j].id == x && !member_is_active(m.dimensions[i].members[j]);
                    if i == a {
                        assert(exists|j: int| 0 <= j < b && m.dimensions[a as int].members[j].id == x
                            && !member_is_active(m.dimensions[a as int].members[j]));
                    }
                }
            }
        }
        a = a + 1;
    }
    v
}

impl Model {
    /// A member's resolved importance weight (see [`resolved_weight_of`]),
    /// as the bit pattern of the number.
    pub fn resolved_weight(&self, dim: &Dimension, member: &Member) -> (r: Option<u64>)
        ensures
            r == resolved_weight_of(self@.scales, dim@, member@),
    {
        if let Some(w) = member.weight_bits {
            return Some(w);
        }
        let doc = self.document();
        match (&dim.weight_scale, &member.weight_observation) {
            (Some(ws), Some(wo)) => {
                proof {
                    lemma_keys_scales(doc.scales@);
                }
                match find_first(&doc.scales, ws) {
                    Some(s) => {
                        proof {
                            lemma_keys_levels(doc.scales@[s as int].levels@);
                        }
                        match find_first(&doc.scales[s].levels, wo) {
                            Some(k) => Some(doc.scales[s].levels[k].value_bits),
                            None => None,
                        }
                    },
                    None => None,
                }
            },
            _ => None,
        }
    }

    /// Checks the precondition of a weighted rollup of `relation_id` over
    /// `axis`: the relation exists, and every member of the rolled dimension
    /// (the first declared with its id) has a weight, given as a number or as
    /// a token of the dimension's weight scale.
    pub fn check_weighted_axis(&self, relation_id: &str, axis: Axis) -> (r: Result<(), ValidationError>)
        ensures
            match r {
                Ok(()) => weighted_verdict(self@, relation_id@, axis) is None,
                Err(e) => weighted_verdict(self@, relation_id@, axis) == Some(e@),
            },
    {
        let ghost m = self@;
        let doc = self.document();
        let rid = String::from_str(relation_id);
        proof {
            lemma_keys_relations(doc.relations@);
            lemma_keys_dimensions(doc.dimensions@);
        }
        let ri = match find_first(&doc.relations, &rid) {
            Some(ri) => ri,
            None => {
                let members: Vec<String> = Vec::new();
                assert(views(members@) =~= Seq::<Seq<char>>::empty());
                let e = ValidationError::UnweightedMemberForWeightedAnalysis { relation_id: rid, members };
                return Err(e);
            },
        };
        let rel = &doc.relations[ri];
        assert(m.relations[ri as int] == rel@);
        let rolled = match axis {
            Axis::From => &rel.from,
            Axis::To => &rel.to,
        };
        let mut unweighted: Vec<String> = Vec::new();
        match find_first(&doc.dimensions, rolled) {
            Some(di) => {
                let d = &doc.dimensions[di];
                let ghost dv = d@;
                assert(m.dimensions[di as int] == dv);
                let mut j: usize = 0;
                while j < d.members.len()
                    invariant
                        j <= d.members.len(),
                        m == doc@,
                        dv == d@,
                        views(unweighted@) == dv.members.take(j as int).filter(unweighted_pred(m.scales, dv)).map_values(member_id_fn()),
                    decreases d.members.len() - j,
                {
                    let mm = &d.members[j];
                    proof {
                        assert(dv.members[j as int] == mm@);
                        lemma_filter_map_step(dv.members, j as int, unweighted_pred(m.scales, dv), member_id_fn());
                    }
                    if !resolves_weight(&doc.scales, d, mm) {
                        let ghost prev = views(unweighted@);
                        unweighted.push(mm.id.clone());
                        assert(views(unweighted@) =~= prev.push(mm.id@));
                    }
                    j = j + 1;
                }
                proof {
                    lemma_take_full(dv.members);
                }
            },
            None => {
                assert(views(unweighted@) =~= Seq::<Seq<char>>::empty());
            },
        }
        assert(views(unweighted@) == unweighted_members(m, m.relations[ri as int], axis));
        if unweighted.len() > 0 {
            Err(ValidationError::UnweightedMemberForWeightedAnalysis { relation_id: rid, members: unweighted })
        } else {
            Ok(())
        }
    }

    /// The first contraction declared with `contraction_id` and the
    /// relations of its chain, each the last relation declared with its id;
    /// `None` for an unknown id, an empty chain, or a chain naming an
    /// undeclared relation (a contraction over it yields nothing).
    pub fn contraction_plan(&self, contraction_id: &str) -> (r: Option<ContractionPlan<'_>>)
        ensures
            match r {
                Some(p) => contraction_plan(self@, contraction_id@) == Some((p.contraction@, views(p.relations@))),
                None => contraction_plan(self@, contraction_id@) is None,
            },
    {
        let ghost m = self@;
        let doc = self.document();
        let cid = String::from_str(contraction_id);
        proof {
            assert(keys(doc.contractions@) =~= contraction_ids_of(m.contractions));
            lemma_keys_relations(doc.relations@);
        }
        let k = match find_first(&doc.contractions, &cid) {
            Some(k) => k,
            None => return None,
        };
        let c = &doc.contractions[k];
        assert(m.contractions[k as int] == c@);
        if c.chain.len() == 0 {
            return None;
        }
        let ghost chain = c@.chain;
        let mut rels: Vec<&Relation> = Vec::new();
        let mut j: usize = 0;
        while j < c.chain.len()
            invariant
                j <= c.chain.len(),
                m == doc@,
                chain == c@.chain,
                m == self@,
                k < doc.contractions.len(),
                m.contractions[k as int] == c@,
                chain.len() > 0,
                first_of(contraction_ids_of(m.contractions), contraction_id@) == Some(k as int),
                keys(doc.relations@) == relation_ids(m.relations),
                rels@.len() == j,
                forall|a: int| 0 <= a < j ==> #[trigger] last_of(relation_ids(m.relations), chain[a]) is Some
                    && rels@[a]@ == m.relations[last_of(relation_ids(m.relations), chain[a]).unwrap()],
            decreases c.chain.len() - j,
        {
            assert(chain[j as int] == c.chain@[j as int]@);
            match find_last(&doc.relations, &c.chain[j]) {
                Some(ri) => {
                    assert(m.relations[ri as int] == doc.relations@[ri as int]@);
                    rels.push(&doc.relations[ri]);
                },
                None => {
                    assert(last_of(relation_ids(m.relations), chain[j as int]) is None);
                    assert(!(forall|a: int| 0 <= a < chain.len() ==> #[trigger] last_of(relation_ids(m.relations), chain[a]) is Some));
                    assert(chain_relations(m.relations, chain) is None);
                    assert(contraction_plan(m, contraction_id@) is None);
                    return None;
                },
            }
            j = j + 1;
        }
        assert(views(rels@) =~= chain_relations(m.relations, chain).unwrap());
        Some(ContractionPlan { contraction: c, relations: rels })
    }

    /// The cells that act as forces in tension analysis, relation by
    /// relation: those of non-deprecated relations carrying a valence, whose
    /// two members are not deprecated, each with the relation's valence.
    pub fn forces(&self) -> (out: Vec<Force<'_>>)
        ensures
            views(out@) == forces_of(self@),
    {
        let ghost m = self@;
        let doc = self.document();
        let deprecated = deprecated_members(doc);
        proof {
            assert(keys(deprecated@) =~= views(deprecated@));
        }
        let mut out: Vec<Force<'_>> = Vec::new();
        let mut i: usize = 0;
        while i < doc.relations.len()
            invariant
                i <= doc.relations.len(),
                m == doc@,
                keys(deprecated@) == views(deprecated@),
                forall|x: Seq<char>| #[trigger] views(deprecated@).contains(x) <==> deprecated_id(m, x),
                views(out@) == m.relations.take(i as int).map_values(relation_forces_of(m)).flatten(),
            decreases doc.relations.len() - i,
        {
            let r = &doc.relations[i];
            let ghost rv = r@;
            proof {
                assert(m.relations[i as int] == rv);
                lemma_flatten_map_step(m.relations, i as int, relation_forces_of(m));
            }
            let ghost start = views(out@);
            let v = relation_opposes(&r.relation_type);
            if relation_active(r) && v.is_some() {
                let opposes = v.unwrap();
                let mut j: usize = 0;
                while j < r.cells.len()
                    invariant
                        j <= r.cells.len(),
                        rv == r@,
                        m == doc@,
                        opposes == valence(rv.relation_type).unwrap(),
                        keys(deprecated@) == views(deprecated@),
                        forall|x: Seq<char>| #[trigger] views(deprecated@).contains(x) <==> deprecated_id(m, x),
                        views(out@) == start + rv.cells.take(j as int).filter(force_pred(m)).map_values(force_of(rv, opposes)),
                    decreases r.cells.len() - j,
                {
                    let c = &r.cells[j];
                    proof {
                        assert(rv.cells[j as int] == c@);
                        lemma_filter_map_step(rv.cells, j as int, force_pred(m), force_of(rv, opposes));
                    }
                    if !contains_key(&deprecated, &c.from) && !contains_key(&deprecated, &c.to) {
                        let ghost prev = views(out@);
                        out.push(Force { relation: r, cell: c, opposes });
                        assert(views(out@) =~= prev.push(ForceView { relation: rv, cell: c@, opposes }));
                    }
                    j = j + 1;
                }
                proof {
                    lemma_take_full(rv.cells);
                }
            } else {
                assert(views(out@) =~= start + relation_forces(m, rv));
            }
            i = i + 1;
        }
        proof {
            lemma_take_full(m.relations);
        }
        out
    }
}

} // verus!
