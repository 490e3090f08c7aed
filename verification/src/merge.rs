//! Assembly of the three separately versioned layers — Configuration
//! (methodology), Dimensions (rosters) and State (observations) — into the
//! document the engine loads.

use vstd::prelude::*;
use crate::lookup::{contains_key, keys};
use crate::model::{
    Cell, CellView, Contraction, ContractionView, CoveragePolicy, CrossMatrixModel, Dimension,
    DimensionView, Duplicate, LifecycleStatus, ModelView, Observation, ObservationView,
    RelationType, RelationView, Relation, ScaleDef, ScaleView, copy_opt_string, copy_vec,
    opt_text, views,
};
use crate::engine::Model;
use crate::seqs::{lemma_filter_map_step, lemma_take_full};
use crate::validate::{ValidationError, dimension_ids, is_valid, lemma_keys_dimensions, load_verdict};

verus! {

broadcast use vstd::seq_lib::group_seq_properties;

/// The roster a Configuration is written against.
pub struct DimensionSetRef {
    pub dimension_set_id: String,
    pub version: String,
}

/// The Configuration a State is recorded against.
pub struct ConfigRef {
    pub config_id: String,
    pub version: String,
}

/// A relation as a Configuration declares it (no cells).
pub struct RelationDeclaration {
    pub id: String,
    pub from: String,
    pub to: String,
    pub relation_type: RelationType,
    pub scale: String,
    pub coverage_policy: CoveragePolicy,
    pub status: Option<LifecycleStatus>,
    pub superseded_by: Option<String>,
}

pub struct RelationDeclarationView {
    pub id: Seq<char>,
    pub from: Seq<char>,
    pub to: Seq<char>,
    pub relation_type: RelationType,
    pub scale: Seq<char>,
    pub coverage_policy: CoveragePolicy,
    pub status: Option<LifecycleStatus>,
    pub superseded_by: Option<Seq<char>>,
}

impl View for RelationDeclaration {
    type V = RelationDeclarationView;

    open spec fn view(&self) -> RelationDeclarationView {
        RelationDeclarationView {
            id: self.id@,
            from: self.from@,
            to: self.to@,
            relation_type: self.relation_type,
            scale: self.scale@,
            coverage_policy: self.coverage_policy,
            status: self.status,
            superseded_by: opt_text(self.superseded_by),
        }
    }
}

/// The methodology layer: scales, relation declarations, contractions.
pub struct CrossMatrixConfiguration {
    pub schema_version: String,
    pub config_id: String,
    pub version: String,
    pub aspect: Option<String>,
    pub dimension_set_ref: DimensionSetRef,
    pub scales: Vec<ScaleDef>,
    pub relations: Vec<RelationDeclaration>,
    pub contractions: Vec<Contraction>,
}

pub struct ConfigurationView {
    pub schema_version: Seq<char>,
    pub config_id: Seq<char>,
    pub version: Seq<char>,
    pub scales: Seq<ScaleView>,
    pub relations: Seq<RelationDeclarationView>,
    pub contractions: Seq<ContractionView>,
}

impl View for CrossMatrixConfiguration {
    type V = ConfigurationView;

    open spec fn view(&self) -> ConfigurationView {
        ConfigurationView {
            schema_version: self.schema_version@,
            config_id: self.config_id@,
            version: self.version@,
            scales: views(self.scales@),
            relations: views(self.relations@),
            contractions: views(self.contractions@),
        }
    }
}

/// The roster layer: dimensions and their members.
pub struct CrossMatrixDimensions {
    pub schema_version: String,
    pub dimension_set_id: String,
    pub version: String,
    pub dimensions: Vec<Dimension>,
}

/// A cell as a State records it: the relation it belongs to and its members.
pub struct StateCell {
    pub relation_id: String,
    pub from: String,
    pub to: String,
    pub observations: Vec<Observation>,
}

pub struct StateCellView {
    pub relation_id: Seq<char>,
    pub from: Seq<char>,
    pub to: Seq<char>,
    pub observations: Seq<ObservationView>,
}

impl View for StateCell {
    type V = StateCellView;

    open spec fn view(&self) -> StateCellView {
        StateCellView {
            relation_id: self.relation_id@,
            from: self.from@,
            to: self.to@,
            observations: views(self.observations@),
        }
    }
}

/// The observation layer: the cells of one project.
pub struct CrossMatrixState {
    pub schema_version: String,
    pub state_id: String,
    pub version: Option<String>,
    pub config_ref: ConfigRef,
    pub cells: Vec<StateCell>,
}

pub struct StateView {
    pub state_id: Seq<char>,
    pub config_version: Seq<char>,
    pub cells: Seq<StateCellView>,
}

impl View for CrossMatrixState {
    type V = StateView;

    open spec fn view(&self) -> StateView {
        StateView {
            state_id: self.state_id@,
            config_version: self.config_ref.version@,
            cells: views(self.cells@),
        }
    }
}

pub open spec fn cell_in_pred(relation: Seq<char>) -> spec_fn(StateCellView) -> bool {
    |c: StateCellView| c.relation_id == relation
}

pub open spec fn engine_cell() -> spec_fn(StateCellView) -> CellView {
    |c: StateCellView| CellView { from: c.from, to: c.to, observations: c.observations }
}

/// A declared relation with the State's cells that name it, in State order.
pub open spec fn engine_relation(d: RelationDeclarationView, cells: Seq<StateCellView>) -> RelationView {
    RelationView {
        id: d.id,
        from: d.from,
        to: d.to,
        relation_type: d.relation_type,
        scale: d.scale,
        coverage_policy: d.coverage_policy,
        status: d.status,
        superseded_by: d.superseded_by,
        cells: cells.filter(cell_in_pred(d.id)).map_values(engine_cell()),
    }
}

pub open spec fn engine_relation_of(cells: Seq<StateCellView>) -> spec_fn(RelationDeclarationView) -> RelationView {
    |d: RelationDeclarationView| engine_relation(d, cells)
}

pub open spec fn declared_ids(c: ConfigurationView) -> Seq<Seq<char>> {
    c.relations.map_values(|d: RelationDeclarationView| d.id)
}

/// State cell `i` is the first naming a relation the Configuration does not
/// declare.
pub open spec fn is_first_stray(c: ConfigurationView, s: StateView, i: int) -> bool {
    &&& 0 <= i < s.cells.len()
    &&& !declared_ids(c).contains(s.cells[i].relation_id)
    &&& forall|j: int| 0 <= j < i ==> declared_ids(c).contains(s.cells[j].relation_id)
}

/// The merge of the three layers, or why it fails: a State pinned to another
/// Configuration version, then the first State cell naming an undeclared
/// relation.
pub open spec fn merge_of(c: ConfigurationView, dims: Seq<DimensionView>, s: StateView) -> Result<ModelView, Seq<char>> {
    if s.config_version != c.version {
        Err("configRef version mismatch: state expects '"@ + s.config_version + "', configuration is '"@ + c.version + "'"@)
    } else if exists|i: int| is_first_stray(c, s, i) {
        let i = choose|i: int| is_first_stray(c, s, i);
        Err("state cell references unknown relationId '"@ + s.cells[i].relation_id + "'"@)
    } else {
        Ok(ModelView {
            schema_version: c.schema_version,
            model_id: s.state_id,
            dimensions: dims,
            scales: c.scales,
            relations: c.relations.map_values(engine_relation_of(s.cells)),
            contractions: c.contractions,
        })
    }
}

fn engine_relation_from(d: &RelationDeclaration, cells: &Vec<StateCell>) -> (r: Relation)
    ensures
        r@ == engine_relation(d@, views(cells@)),
{
    let ghost sc = views(cells@);
    let mut out: Vec<Cell> = Vec::new();
    let mut j: usize = 0;
    while j < cells.len()
        invariant
            j <= cells.len(),
            sc == views(cells@),
            views(out@) == sc.take(j as int).filter(cell_in_pred(d@.id)).map_values(engine_cell()),
        decreases cells.len() - j,
    {
        let c = &cells[j];
        proof {
            assert(sc[j as int] == c@);
            lemma_filter_map_step(sc, j as int, cell_in_pred(d@.id), engine_cell());
        }
        if c.relation_id == d.id {
            let cell = Cell { from: c.from.clone(), to: c.to.clone(), observations: copy_vec(&c.observations) };
            let ghost prev = views(out@);
            out.push(cell);
            assert(views(out@) =~= prev.push(engine_cell()(c@)));
        }
        j = j + 1;
    }
    proof {
        lemma_take_full(sc);
    }
    Relation {
        id: d.id.clone(),
        from: d.from.clone(),
        to: d.to.clone(),
        relation_type: d.relation_type,
        scale: d.scale.clone(),
        coverage_policy: d.coverage_policy,
        status: d.status,
        superseded_by: copy_opt_string(&d.superseded_by),
        cells: out,
    }
}

/// Merges a Configuration, its Dimensions and a State into one engine
/// document. Fails when the State's `configRef` version differs from the
/// Configuration's version, or when a State cell names a relation the
/// Configuration does not declare (the first such cell is reported).
pub fn merge(
    config: &CrossMatrixConfiguration,
    dimensions: &CrossMatrixDimensions,
    state: &CrossMatrixState,
) -> (r: Result<CrossMatrixModel, String>)
    ensures
        match r {
            Ok(doc) => merge_of(config@, views(dimensions.dimensions@), state@) == Ok::<ModelView, Seq<char>>(doc@),
            Err(e) => merge_of(config@, views(dimensions.dimensions@), state@) == Err::<ModelView, Seq<char>>(e@),
        },
{
    let ghost c = config@;
    let ghost s = state@;
    if state.config_ref.version != config.version {
        let mut e = String::from_str("configRef version mismatch: state expects '");
        e.append(state.config_ref.version.as_str());
        e.append("', configuration is '");
        e.append(config.version.as_str());
        e.append("'");
        return Err(e);
    }
    let mut ids: Vec<String> = Vec::new();
    let mut i: usize = 0;
    while i < config.relations.len()
        invariant
            i <= config.relations.len(),
            c == config@,
            ids@.len() == i,
            forall|j: int| 0 <= j < i ==> #[trigger] ids@[j]@ == c.relations[j].id,
        decreases config.relations.len() - i,
    {
        assert(c.relations[i as int] == config.relations@[i as int]@);
        ids.push(config.relations[i].id.clone());
        i = i + 1;
    }
    assert(keys(ids@) =~= declared_ids(c));
    let mut i: usize = 0;
    while i < state.cells.len()
        invariant
            i <= state.cells.len(),
            c == config@,
            s == state@,
            s.config_version == c.version,
            keys(ids@) == declared_ids(c),
            forall|j: int| 0 <= j < i ==> declared_ids(c).contains(s.cells[j].relation_id),
        decreases state.cells.len() - i,
    {
        assert(s.cells[i as int] == state.cells@[i as int]@);
        if !contains_key(&ids, &state.cells[i].relation_id) {
            proof {
                assert(is_first_stray(c, s, i as int));
                let k = choose|k: int| is_first_stray(c, s, k);
                if k < i {
                }
                if i < k {
                }
                assert(k == i);
            }
            let mut e = String::from_str("state cell references unknown relationId '");
            e.append(state.cells[i].relation_id.as_str());
            e.append("'");
            return Err(e);
        }
        i = i + 1;
    }
    assert(!exists|k: int| is_first_stray(c, s, k));
    let mut relations: Vec<Relation> = Vec::new();
    let mut i: usize = 0;
    while i < config.relations.len()
        invariant
            i <= config.relations.len(),
            c == config@,
            s == state@,
            relations@.len() == i,
            forall|j: int| 0 <= j < i ==> #[trigger] relations@[j]@ == engine_relation(c.relations[j], s.cells),
        decreases config.relations.len() - i,
    {
        assert(c.relations[i as int] == config.relations@[i as int]@);
        relations.push(engine_relation_from(&config.relations[i], &state.cells));
        i = i + 1;
    }
    let doc = CrossMatrixModel {
        schema_version: config.schema_version.clone(),
        model_id: state.state_id.clone(),
        dimensions: copy_vec(&dimensions.dimensions),
        scales: copy_vec(&config.scales),
        relations,
        contractions: copy_vec(&config.contractions),
    };
    assert(views(doc.relations@) =~= c.relations.map_values(engine_relation_of(s.cells)));
    Ok(doc)
}

/// Why a model could not be opened from its three layers.
pub enum OpenError {
    /// The layers do not merge (see [`merge`]).
    Merge(String),
    /// A layer is not the one its referrer names, or a relation names a
    /// dimension that the Dimensions layer does not hold.
    Unresolved(String),
    /// The merged document fails validation (see [`Model::load`]).
    Invalid(ValidationError),
}

/// Relation `k` of the Configuration is the first naming a dimension that
/// the Dimensions layer does not hold.
pub open spec fn is_first_unplaced(rels: Seq<RelationDeclarationView>, dims: Seq<DimensionView>, k: int) -> bool {
    &&& 0 <= k < rels.len()
    &&& !(dimension_ids(dims).contains(rels[k].from) && dimension_ids(dims).contains(rels[k].to))
    &&& forall|j: int| 0 <= j < k ==> dimension_ids(dims).contains(rels[j].from) && dimension_ids(dims).contains(
        rels[j].to,
    )
}

/// Why the layers do not resolve to each other, if they do not: the State
/// names another Configuration; the Configuration names another Dimensions
/// document (id or version); a Configuration relation names a dimension
/// the Dimensions layer does not hold (the first such, at its `from` end if
/// that is the absent one).
pub open spec fn reference_mismatch(
    config: CrossMatrixConfiguration,
    dimensions: CrossMatrixDimensions,
    state: CrossMatrixState,
) -> Option<Seq<char>> {
    let dims = views(dimensions.dimensions@);
    let rels = config@.relations;
    let set_ref = config.dimension_set_ref;
    if state.config_ref.config_id@ != config.config_id@ {
        Some("configRef mismatch: state expects '"@ + state.config_ref.config_id@ + "', configuration is '"@
            + config.config_id@ + "'"@)
    } else if set_ref.dimension_set_id@ != dimensions.dimension_set_id@ || set_ref.version@ != dimensions.version@ {
        Some("dimensionSetRef mismatch: configuration expects '"@ + set_ref.dimension_set_id@ + "@"@
            + set_ref.version@ + "', dimensions are '"@ + dimensions.dimension_set_id@ + "@"@
            + dimensions.version@ + "'"@)
    } else if exists|k: int| is_first_unplaced(rels, dims, k) {
        let k = choose|k: int| is_first_unplaced(rels, dims, k);
        let absent = if !dimension_ids(dims).contains(rels[k].from) { rels[k].from } else { rels[k].to };
        Some("relation '"@ + rels[k].id + "' names dimension '"@ + absent + "' absent from the dimensions document"@)
    } else {
        None
    }
}

proof fn lemma_unplaced_verdict(
    config: CrossMatrixConfiguration,
    dimensions: CrossMatrixDimensions,
    state: CrossMatrixState,
    k: int,
)
    requires
        state.config_ref.config_id@ == config.config_id@,
        config.dimension_set_ref.dimension_set_id@ == dimensions.dimension_set_id@,
        config.dimension_set_ref.version@ == dimensions.version@,
        is_first_unplaced(config@.relations, views(dimensions.dimensions@), k),
    ensures
        reference_mismatch(config, dimensions, state) == Some(
            "relation '"@ + config@.relations[k].id + "' names dimension '"@ + (if !dimension_ids(
                views(dimensions.dimensions@),
            ).contains(config@.relations[k].from) {
                config@.relations[k].from
            } else {
                config@.relations[k].to
            }) + "' absent from the dimensions document"@,
        ),
{
    let rels = config@.relations;
    let dims = views(dimensions.dimensions@);
    let kk = choose|kk: int| is_first_unplaced(rels, dims, kk);
    if kk < k {
    }
    if k < kk {
    }
    assert(kk == k);
}

fn check_references(
    config: &CrossMatrixConfiguration,
    dimensions: &CrossMatrixDimensions,
    state: &CrossMatrixState,
) -> (r: Option<String>)
    ensures
        match r {
            Some(e) => reference_mismatch(*config, *dimensions, *state) == Some(e@),
            None => reference_mismatch(*config, *dimensions, *state) is None,
        },
{
    if state.config_ref.config_id != config.config_id {
        let mut e = String::from_str("configRef mismatch: state expects '");
        e.append(state.config_ref.config_id.as_str());
        e.append("', configuration is '");
        e.append(config.config_id.as_str());
        e.append("'");
        return Some(e);
    }
    let set_ref = &config.dimension_set_ref;
    if set_ref.dimension_set_id != dimensions.dimension_set_id || set_ref.version != dimensions.version {
        let mut e = String::from_str("dimensionSetRef mismatch: configuration expects '");
        e.append(set_ref.dimension_set_id.as_str());
        e.append("@");
        e.append(set_ref.version.as_str());
        e.append("', dimensions are '");
        e.append(dimensions.dimension_set_id.as_str());
        e.append("@");
        e.append(dimensions.version.as_str());
        e.append("'");
        return Some(e);
    }
    assert(state.config_ref.config_id@ == config.config_id@);
    assert(set_ref.dimension_set_id@ == dimensions.dimension_set_id@ && set_ref.version@ == dimensions.version@);
    let ghost dims = views(dimensions.dimensions@);
    let ghost rels = config@.relations;
    proof {
        lemma_keys_dimensions(dimensions.dimensions@);
    }
    let mut k: usize = 0;
    while k < config.relations.len()
        invariant
            k <= config.relations.len(),
            dims == views(dimensions.dimensions@),
            rels == config@.relations,
            keys(dimensions.dimensions@) == dimension_ids(dims),
            state.config_ref.config_id@ == config.config_id@,
            config.dimension_set_ref.dimension_set_id@ == dimensions.dimension_set_id@,
            config.dimension_set_ref.version@ == dimensions.version@,
            forall|j: int| 0 <= j < k ==> dimension_ids(dims).contains(rels[j].from) && dimension_ids(dims).contains(
                rels[j].to,
            ),
        decreases config.relations.len() - k,
    {
        let rel = &config.relations[k];
        assert(rels[k as int] == rel@);
        let from_ok = contains_key(&dimensions.dimensions, &rel.from);
        let to_ok = contains_key(&dimensions.dimensions, &rel.to);
        if !(from_ok && to_ok) {
            assert(is_first_unplaced(rels, dims, k as int));
            let absent: &String = if !from_ok { &rel.from } else { &rel.to };
            assert(absent@ == (if !dimension_ids(dims).contains(rels[k as int].from) {
                rels[k as int].from
            } else {
                rels[k as int].to
            }));
            proof {
                lemma_unplaced_verdict(*config, *dimensions, *state, k as int);
            }
            let mut e = String::from_str("relation '");
            e.append(rel.id.as_str());
            e.append("' names dimension '");
            e.append(absent.as_str());
            e.append("' absent from the dimensions document");
            return Some(e);
        }
        k = k + 1;
    }
    assert(!exists|kk: int| is_first_unplaced(rels, dims, kk));
    None
}

/// Opens a model from a Configuration, its Dimensions and a State: the
/// layers are merged (see [`merge`]), their references are checked (see
/// [`reference_mismatch`]), and the merged document is loaded.
pub fn open(
    config: &CrossMatrixConfiguration,
    dimensions: &CrossMatrixDimensions,
    state: &CrossMatrixState,
) -> (r: Result<Model, OpenError>)
    ensures
        match r {
            Ok(model) => {
                &&& merge_of(config@, views(dimensions.dimensions@), state@) == Ok::<ModelView, Seq<char>>(model@)
                &&& reference_mismatch(*config, *dimensions, *state) is None
                &&& is_valid(model@)
            },
            Err(OpenError::Merge(e)) => merge_of(config@, views(dimensions.dimensions@), state@) == Err::<
                ModelView,
                Seq<char>,
            >(e@),
            Err(OpenError::Unresolved(e)) => {
                &&& merge_of(config@, views(dimensions.dimensions@), state@) is Ok
                &&& reference_mismatch(*config, *dimensions, *state) == Some(e@)
            },
            Err(OpenError::Invalid(e)) => {
                &&& reference_mismatch(*config, *dimensions, *state) is None
                &&& match merge_of(config@, views(dimensions.dimensions@), state@) {
                    Ok(mv) => load_verdict(mv) == Some(e@),
                    Err(_) => false,
                }
            },
        },
{
    let doc = match merge(config, dimensions, state) {
        Ok(doc) => doc,
        Err(e) => return Err(OpenError::Merge(e)),
    };
    if let Some(e) = check_references(config, dimensions, state) {
        return Err(OpenError::Unresolved(e));
    }
    match Model::load(doc) {
        Ok(model) => Ok(model),
        Err(e) => Err(OpenError::Invalid(e)),
    }
}

} // verus!
