//! The validated model and its structural queries.

use vstd::prelude::*;
use crate::lookup::{find_last, keys, last_of};
use crate::model::{CrossMatrixModel, Dimension, DimensionView, ModelView, Relation, views};
use crate::seqs::{lemma_flatten_map_step, lemma_take_full};
use crate::validate::{
    ValidationError, check_contraction, collect_dangling, collect_tokens, contraction_verdict,
    dangling_cells, has_member, is_first_rejected, is_valid, lemma_keys_dimensions,
    lemma_keys_members, load_verdict, member_ids, relation_dangling_of, relation_unevidenced_of,
    relation_unknown_of, roster_contains, unevidenced, unknown_tokens, dimension_ids,
};

verus! {

/// A validated cross-matrix model. Constructed only by [`Model::load`].
pub struct Model {
    doc: CrossMatrixModel,
}

impl View for Model {
    type V = ModelView;

    closed spec fn view(&self) -> ModelView {
        self.doc@
    }
}

/// The number of distinct values in `s`.
pub open spec fn distinct_count(s: Seq<Seq<char>>) -> nat
    decreases s.len(),
{
    if s.len() == 0 {
        0
    } else {
        distinct_count(s.drop_last()) + if s.drop_last().contains(s.last()) {
            0nat
        } else {
            1nat
        }
    }
}

/// The members on the roster of dimension `dim` (the last dimension
/// declared with that id), or none when no dimension has that id.
pub open spec fn roster(dims: Seq<DimensionView>, dim: Seq<char>) -> Seq<Seq<char>> {
    match last_of(dimension_ids(dims), dim) {
        Some(i) => member_ids(dims[i].members),
        None => Seq::empty(),
    }
}

/// `dims[i]` is the first declared dimension whose roster holds `member`.
pub open spec fn is_first_holder(dims: Seq<DimensionView>, member: Seq<char>, i: int) -> bool {
    &&& 0 <= i < dims.len()
    &&& has_member(dims, dims[i].id, member)
    &&& forall|j: int| 0 <= j < i ==> !has_member(dims, dims[j].id, member)
}

fn count_distinct(v: &Vec<crate::model::Member>) -> (n: usize)
    ensures
        n == distinct_count(keys(v@)),
{
    let ghost ks = keys(v@);
    let mut n: usize = 0;
    let mut i: usize = 0;
    while i < v.len()
        invariant
            i <= v.len(),
            ks == keys(v@),
            n == distinct_count(ks.take(i as int)),
            n <= i,
        decreases v.len() - i,
    {
        let mut seen = false;
        let mut j: usize = 0;
        while j < i
            invariant
                j <= i < v.len(),
                ks == keys(v@),
                seen == exists|a: int| 0 <= a < j && ks[a] == ks[i as int],
            decreases i - j,
        {
            if v[j].id == v[i].id {
                assert(ks[j as int] == ks[i as int]);
                seen = true;
            }
            j = j + 1;
        }
        proof {
            let t = ks.take(i + 1);
            assert(t.drop_last() =~= ks.take(i as int));
            assert(t.last() == ks[i as int]);
            if seen {
                let a = choose|a: int| 0 <= a < i && ks[a] == ks[i as int];
                assert(ks.take(i as int)[a] == ks[i as int]);
            } else {
                assert forall|a: int| 0 <= a < ks.take(i as int).len() implies ks.take(
                    i as int,
                )[a] != ks[i as int] by {
                    assert(ks.take(i as int)[a] == ks[a]);
                }
            }
        }
        if !seen {
            n = n + 1;
        }
        i = i + 1;
    }
    proof {
        lemma_take_full(ks);
    }
    n
}

impl Model {
    /// Validates a document and wraps it as a model.
    ///
    /// Rejects, in this order: a contraction chain that names a relation
    /// twice, or whose consecutive relations do not share an axis or are on
    /// different scales; cells that reference members outside their
    /// relation's dimensions; observation tokens that are not levels of the
    /// relation's scale (every token, where that scale is not declared);
    /// inferred observations without evidence.
    pub fn load(doc: CrossMatrixModel) -> (r: Result<Model, ValidationError>)
        ensures
            match r {
                Ok(model) => model@ == doc@ && is_valid(doc@),
                Err(e) => load_verdict(doc@) == Some(e@),
            },
    {
        let ghost m = doc@;
        let mut k: usize = 0;
        while k < doc.contractions.len()
            invariant
                k <= doc.contractions.len(),
                m == doc@,
                forall|j: int| 0 <= j < k ==> contraction_verdict(m.relations, m.contractions[j]) is None,
            decreases doc.contractions.len() - k,
        {
            match check_contraction(&doc.relations, &doc.contractions[k]) {
                Some(e) => {
                    proof {
                        assert(m.contractions[k as int] == doc.contractions@[k as int]@);
                        assert(is_first_rejected(m, k as int));
                        let kk = choose|kk: int| is_first_rejected(m, kk);
                        if kk < k {
                        }
                        if k < kk {
                        }
                        assert(kk == k);
                    }
                    return Err(e);
                },
                None => {
                    assert(m.contractions[k as int] == doc.contractions@[k as int]@);
                },
            }
            k = k + 1;
        }
        assert(!exists|kk: int| is_first_rejected(m, kk));
        let mut dangling: Vec<String> = Vec::new();
        let mut unknown: Vec<(String, String)> = Vec::new();
        let mut unevid: Vec<(String, String, String)> = Vec::new();
        let mut i: usize = 0;
        while i < doc.relations.len()
            invariant
                i <= doc.relations.len(),
                m == doc@,
                views(dangling@) == m.relations.take(i as int).map_values(
                    relation_dangling_of(m.dimensions),
                ).flatten(),
                views(unknown@) == m.relations.take(i as int).map_values(
                    relation_unknown_of(m.scales),
                ).flatten(),
                views(unevid@) == m.relations.take(i as int).map_values(
                    relation_unevidenced_of(m.scales),
                ).flatten(),
            decreases doc.relations.len() - i,
        {
            let r = &doc.relations[i];
            proof {
                assert(m.relations[i as int] == r@);
                lemma_flatten_map_step(m.relations, i as int, relation_dangling_of(m.dimensions));
                lemma_flatten_map_step(m.relations, i as int, relation_unknown_of(m.scales));
                lemma_flatten_map_step(m.relations, i as int, relation_unevidenced_of(m.scales));
            }
            collect_dangling(&doc.dimensions, r, &mut dangling);
            collect_tokens(&doc.scales, r, &mut unknown, &mut unevid);
            i = i + 1;
        }
        proof {
            lemma_take_full(m.relations);
        }
        assert(views(dangling@) == dangling_cells(m));
        assert(views(unknown@) == unknown_tokens(m));
        assert(views(unevid@) == unevidenced(m));
        if dangling.len() > 0 {
            return Err(ValidationError::DanglingCell(dangling));
        }
        if unknown.len() > 0 {
            let ghost u = views(unknown@);
            let relation_id = unknown[0].0.clone();
            let mut tokens: Vec<String> = Vec::new();
            let mut t: usize = 0;
            while t < unknown.len()
                invariant
                    t <= unknown.len(),
                    u == views(unknown@),
                    tokens@.len() == t,
                    forall|a: int| 0 <= a < t ==> #[trigger] tokens@[a]@ == u[a].1,
                decreases unknown.len() - t,
            {
                tokens.push(unknown[t].1.clone());
                t = t + 1;
            }
            assert(views(tokens@) =~= u.map_values(|p: (Seq<char>, Seq<char>)| p.1));
            return Err(ValidationError::UnknownObservationToken { relation_id, tokens });
        }
        if unevid.len() > 0 {
            let relation_id = unevid[0].0.clone();
            let from = unevid[0].1.clone();
            let to = unevid[0].2.clone();
            return Err(ValidationError::UnevidencedInferred { relation_id, from, to });
        }
        Ok(Model { doc })
    }

    /// The validated document.
    pub fn document(&self) -> (r: &CrossMatrixModel)
        ensures
            r@ == self@,
    {
        &self.doc
    }

    /// The declared dimensions, in order.
    pub fn dimensions(&self) -> (r: &[Dimension])
        ensures
            views(r@) == self@.dimensions,
    {
        self.doc.dimensions.as_slice()
    }

    /// The declared relations, in order.
    pub fn relations(&self) -> (r: &[Relation])
        ensures
            views(r@) == self@.relations,
    {
        self.doc.relations.as_slice()
    }

    /// The ids of the declared contraction chains, in order.
    pub fn contraction_ids(&self) -> (r: Vec<&str>)
        ensures
            views(r@) == self@.contractions.map_values(|c: crate::model::ContractionView| c.id),
    {
        let ghost cs = self@.contractions;
        let mut r: Vec<&str> = Vec::new();
        let mut i: usize = 0;
        while i < self.doc.contractions.len()
            invariant
                i <= self.doc.contractions.len(),
                cs == self@.contractions,
                cs == views(self.doc.contractions@),
                r@.len() == i,
                forall|j: int| 0 <= j < i ==> #[trigger] r@[j]@ == cs[j].id,
            decreases self.doc.contractions.len() - i,
        {
            r.push(self.doc.contractions[i].id.as_str());
            i = i + 1;
        }
        assert(views(r@) =~= cs.map_values(|c: crate::model::ContractionView| c.id));
        r
    }

    /// The number of distinct members on the roster of a dimension; 0 for an
    /// unknown dimension.
    pub fn member_count(&self, dimension_id: &str) -> (n: usize)
        ensures
            n == distinct_count(roster(self@.dimensions, dimension_id@)),
    {
        let id = String::from_str(dimension_id);
        proof {
            lemma_keys_dimensions(self.doc.dimensions@);
        }
        match find_last(&self.doc.dimensions, &id) {
            Some(i) => {
                proof {
                    lemma_keys_members(self.doc.dimensions@[i as int].members@);
                }
                count_distinct(&self.doc.dimensions[i].members)
            },
            None => 0,
        }
    }

    /// A dimension whose roster holds the member: the first such in
    /// declaration order; `None` when no roster holds it.
    pub fn dimension_of(&self, member_id: &str) -> (r: Option<&str>)
        ensures
            match r {
                Some(d) => exists|i: int|
                    is_first_holder(self@.dimensions, member_id@, i) && self@.dimensions[i].id == d@,
                None => forall|i: int|
                    0 <= i < self@.dimensions.len() ==> !has_member(
                        self@.dimensions,
                        #[trigger] self@.dimensions[i].id,
                        member_id@,
                    ),
            },
    {
        let ghost dims = self@.dimensions;
        let member = String::from_str(member_id);
        let mut i: usize = 0;
        while i < self.doc.dimensions.len()
            invariant
                i <= self.doc.dimensions.len(),
                dims == self@.dimensions,
                dims == views(self.doc.dimensions@),
                member@ == member_id@,
                forall|j: int| 0 <= j < i ==> !has_member(dims, #[trigger] dims[j].id, member_id@),
            decreases self.doc.dimensions.len() - i,
        {
            let d = &self.doc.dimensions[i];
            if roster_contains(&self.doc.dimensions, &d.id, &member) {
                assert(is_first_holder(dims, member_id@, i as int));
                return Some(d.id.as_str());
            }
            i = i + 1;
        }
        None
    }
}

} // verus!
