//! Structural summary and slicing of a model.

use vstd::prelude::*;
use crate::engine::Model;
use crate::lookup::{find_first, first_of};
use crate::model::{
    Cell, CellView, ContractionView, DimensionView, ModelView, RelationView, ScaleView,
    copy_opt_string, opt_text, views,
};
use crate::seqs::{lemma_filter_map_step, lemma_take_full};
use crate::validate::{lemma_keys_relations, relation_ids};
use crate::valence::{
    coverage_policy_name, coverage_policy_text, relation_type_name, relation_type_text,
};

verus! {

pub struct DimensionSummary {
    pub id: String,
    pub label: Option<String>,
    pub kind: Option<String>,
    /// Member count.
    pub members: usize,
}

pub struct DimensionSummaryView {
    pub id: Seq<char>,
    pub label: Option<Seq<char>>,
    pub kind: Option<Seq<char>>,
    pub members: nat,
}

impl View for DimensionSummary {
    type V = DimensionSummaryView;

    open spec fn view(&self) -> DimensionSummaryView {
        DimensionSummaryView {
            id: self.id@,
            label: opt_text(self.label),
            kind: opt_text(self.kind),
            members: self.members as nat,
        }
    }
}

pub struct RelationSummary {
    pub id: String,
    pub from: String,
    pub to: String,
    pub relation_type: String,
    pub scale: String,
    pub coverage_policy: String,
    /// Cell count.
    pub cells: usize,
}

pub struct RelationSummaryView {
    pub id: Seq<char>,
    pub from: Seq<char>,
    pub to: Seq<char>,
    pub relation_type: Seq<char>,
    pub scale: Seq<char>,
    pub coverage_policy: Seq<char>,
    pub cells: nat,
}

impl View for RelationSummary {
    type V = RelationSummaryView;

    open spec fn view(&self) -> RelationSummaryView {
        RelationSummaryView {
            id: self.id@,
            from: self.from@,
            to: self.to@,
            relation_type: self.relation_type@,
            scale: self.scale@,
            coverage_policy: self.coverage_policy@,
            cells: self.cells as nat,
        }
    }
}

/// Structural summary of a model (see [`Model::describe`]).
pub struct ModelDescription {
    pub model_id: String,
    pub dimensions: Vec<DimensionSummary>,
    pub relations: Vec<RelationSummary>,
    pub scales: Vec<String>,
    pub contractions: Vec<String>,
}

pub struct ModelDescriptionView {
    pub model_id: Seq<char>,
    pub dimensions: Seq<DimensionSummaryView>,
    pub relations: Seq<RelationSummaryView>,
    pub scales: Seq<Seq<char>>,
    pub contractions: Seq<Seq<char>>,
}

impl View for ModelDescription {
    type V = ModelDescriptionView;

    open spec fn view(&self) -> ModelDescriptionView {
        ModelDescriptionView {
            model_id: self.model_id@,
            dimensions: views(self.dimensions@),
            relations: views(self.relations@),
            scales: views(self.scales@),
            contractions: views(self.contractions@),
        }
    }
}

pub open spec fn dimension_summary(d: DimensionView) -> DimensionSummaryView {
    DimensionSummaryView { id: d.id, label: d.label, kind: d.kind, members: d.members.len() }
}

pub open spec fn relation_summary(r: RelationView) -> RelationSummaryView {
    RelationSummaryView {
        id: r.id,
        from: r.from,
        to: r.to,
        relation_type: relation_type_text(r.relation_type),
        scale: r.scale,
        coverage_policy: coverage_policy_text(r.coverage_policy),
        cells: r.cells.len(),
    }
}

/// The summary of a model: every dimension with its member count, every
/// relation with its cell count, and the ids of its scales and contractions.
pub open spec fn description_of(m: ModelView) -> ModelDescriptionView {
    ModelDescriptionView {
        model_id: m.model_id,
        dimensions: m.dimensions.map_values(|d: DimensionView| dimension_summary(d)),
        relations: m.relations.map_values(|r: RelationView| relation_summary(r)),
        scales: m.scales.map_values(|s: ScaleView| s.id),
        contractions: m.contractions.map_values(|c: ContractionView| c.id),
    }
}

/// `c` is kept by a slice filtered on `from` and `to`.
pub open spec fn slice_keeps(from: Option<Seq<char>>, to: Option<Seq<char>>, c: CellView) -> bool {
    (from is None || from == Some(c.from)) && (to is None || to == Some(c.to))
}

pub open spec fn slice_pred(from: Option<Seq<char>>, to: Option<Seq<char>>) -> spec_fn(CellView) -> bool {
    |c: CellView| slice_keeps(from, to, c)
}

pub open spec fn opt_str(o: Option<&str>) -> Option<Seq<char>> {
    match o {
        Some(s) => Some(s@),
        None => None,
    }
}

/// The cells of the first relation declared with `relation`, kept by the
/// filters; `None` when no relation has that id.
pub open spec fn slice_of(m: ModelView, relation: Seq<char>, from: Option<Seq<char>>, to: Option<Seq<char>>) -> Option<Seq<CellView>> {
    match first_of(relation_ids(m.relations), relation) {
        Some(i) => Some(m.relations[i].cells.filter(slice_pred(from, to))),
        None => None,
    }
}

fn opt_string(o: Option<&str>) -> (r: Option<String>)
    ensures
        opt_text(r) == opt_str(o),
{
    match o {
        Some(s) => Some(String::from_str(s)),
        None => None,
    }
}

impl Model {
    /// Structural summary: dimensions (with member counts), relations (with
    /// cell counts and coverage policy), scales and contraction chains.
    pub fn describe(&self) -> (d: ModelDescription)
        ensures
            d@ == description_of(self@),
    {
        let ghost m = self@;
        let doc = self.document();
        let mut dims: Vec<DimensionSummary> = Vec::new();
        let mut i: usize = 0;
        while i < doc.dimensions.len()
            invariant
                i <= doc.dimensions.len(),
                m == doc@,
                dims@.len() == i,
                forall|j: int| 0 <= j < i ==> #[trigger] dims@[j]@ == dimension_summary(m.dimensions[j]),
            decreases doc.dimensions.len() - i,
        {
            let d = &doc.dimensions[i];
            assert(m.dimensions[i as int] == d@);
            dims.push(
                DimensionSummary {
                    id: d.id.clone(),
                    label: copy_opt_string(&d.label),
                    kind: copy_opt_string(&d.kind),
                    members: d.members.len(),
                },
            );
            i = i + 1;
        }
        let mut rels: Vec<RelationSummary> = Vec::new();
        let mut i: usize = 0;
        while i < doc.relations.len()
            invariant
                i <= doc.relations.len(),
                m == doc@,
                rels@.len() == i,
                forall|j: int| 0 <= j < i ==> #[trigger] rels@[j]@ == relation_summary(m.relations[j]),
            decreases doc.relations.len() - i,
        {
            let r = &doc.relations[i];
            assert(m.relations[i as int] == r@);
            rels.push(
                RelationSummary {
                    id: r.id.clone(),
                    from: r.from.clone(),
                    to: r.to.clone(),
                    relation_type: relation_type_name(r.relation_type),
                    scale: r.scale.clone(),
                    coverage_policy: coverage_policy_name(r.coverage_policy),
                    cells: r.cells.len(),
                },
            );
            i = i + 1;
        }
        let mut scales: Vec<String> = Vec::new();
        let mut i: usize = 0;
        while i < doc.scales.len()
            invariant
                i <= doc.scales.len(),
                m == doc@,
                scales@.len() == i,
                forall|j: int| 0 <= j < i ==> #[trigger] scales@[j]@ == m.scales[j].id,
            decreases doc.scales.len() - i,
        {
            assert(m.scales[i as int] == doc.scales@[i as int]@);
            scales.push(doc.scales[i].id.clone());
            i = i + 1;
        }
        let mut contractions: Vec<String> = Vec::new();
        let mut i: usize = 0;
        while i < doc.contractions.len()
            invariant
                i <= doc.contractions.len(),
                m == doc@,
                contractions@.len() == i,
                forall|j: int| 0 <= j < i ==> #[trigger] contractions@[j]@ == m.contractions[j].id,
            decreases doc.contractions.len() - i,
        {
            assert(m.contractions[i as int] == doc.contractions@[i as int]@);
            contractions.push(doc.contractions[i].id.clone());
            i = i + 1;
        }
        let d = ModelDescription {
            model_id: doc.model_id.clone(),
            dimensions: dims,
            relations: rels,
            scales,
            contractions,
        };
        assert(d@.dimensions =~= description_of(m).dimensions);
        assert(d@.relations =~= description_of(m).relations);
        assert(d@.scales =~= description_of(m).scales);
        assert(d@.contractions =~= description_of(m).contractions);
        d
    }

    /// The cells of one relation (the first declared with the id), optionally
    /// filtered by `from` and/or `to` member; `None` when the relation id is
    /// unknown.
    pub fn slice(&self, relation_id: &str, from: Option<&str>, to: Option<&str>) -> (r: Option<Vec<&Cell>>)
        ensures
            match r {
                Some(cells) => slice_of(self@, relation_id@, opt_str(from), opt_str(to)) == Some(views(cells@)),
                None => slice_of(self@, relation_id@, opt_str(from), opt_str(to)) is None,
            },
    {
        let ghost m = self@;
        let doc = self.document();
        let rid = String::from_str(relation_id);
        proof {
            lemma_keys_relations(doc.relations@);
        }
        let i = match find_first(&doc.relations, &rid) {
            Some(i) => i,
            None => return None,
        };
        let r = &doc.relations[i];
        let ghost rv = r@;
        let ghost f = opt_str(from);
        let ghost t = opt_str(to);
        assert(m.relations[i as int] == rv);
        let fs = opt_string(from);
        let ts = opt_string(to);
        let mut out: Vec<&Cell> = Vec::new();
        let mut j: usize = 0;
        while j < r.cells.len()
            invariant
                j <= r.cells.len(),
                rv == r@,
                opt_text(fs) == f,
                opt_text(ts) == t,
                views(out@) == rv.cells.take(j as int).filter(slice_pred(f, t)),
            decreases r.cells.len() - j,
        {
            let c = &r.cells[j];
            proof {
                assert(rv.cells[j as int] == c@);
                lemma_filter_map_step(rv.cells, j as int, slice_pred(f, t), |x: CellView| x);
                assert(rv.cells.take(j as int).filter(slice_pred(f, t)).map_values(|x: CellView| x) =~= rv.cells.take(j as int).filter(slice_pred(f, t)));
                assert(rv.cells.take(j + 1).filter(slice_pred(f, t)).map_values(|x: CellView| x) =~= rv.cells.take(j + 1).filter(slice_pred(f, t)));
            }
            let from_ok = match &fs {
                Some(x) => c.from == *x,
                None => true,
            };
            let to_ok = match &ts {
                Some(x) => c.to == *x,
                None => true,
            };
            if from_ok && to_ok {
                let ghost prev = views(out@);
                out.push(c);
                assert(views(out@) =~= prev.push(c@));
            }
            j = j + 1;
        }
        proof {
            lemma_take_full(rv.cells);
        }
        Some(out)
    }
}

} // verus!
