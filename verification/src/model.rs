//! The cross-matrix document: dimensions, scales, relations, contractions.
//!
//! Every type has a mathematical view (`@`) made of sequences and plain
//! values; the contracts of the library are stated over those views.
//! Numeric quantities (scale level values, member weights) are carried as
//! their IEEE-754 bit patterns: this library never computes with them.

use vstd::prelude::*;

verus! {

/// The kind of a relation; it fixes the relation's valence.
#[derive(Clone, Copy, Debug, PartialEq, Eq, Structural)]
pub enum RelationType {
    Satisfies,
    Supports,
    Implements,
    Verifies,
    Covers,
    Mitigates,
    Undermines,
    Opposes,
    Blocks,
    Exposes,
    DerivesFrom,
    Constrains,
    DependsOn,
}

/// Which axes of a relation must be fully covered by cells.
#[derive(Clone, Copy, Debug, PartialEq, Eq, Structural)]
pub enum CoveragePolicy {
    NotRequired,
    EveryFrom,
    EveryTo,
    Both,
}

/// Lifecycle of a member or relation; deprecated elements are excluded
/// from analyses.
#[derive(Clone, Copy, Debug, PartialEq, Eq, Structural)]
pub enum LifecycleStatus {
    Active,
    Deprecated,
}

/// How an observation came to be.
#[derive(Clone, Copy, Debug, PartialEq, Eq, Structural)]
pub enum ProvenanceClass {
    Normative,
    Observed,
    Inferred,
}

/// How the hops of a contraction chain are combined.
#[derive(Clone, Copy, Debug, PartialEq, Eq, Structural)]
pub enum WeightCombination {
    Product,
    Min,
}

/// The view of an optional string.
pub open spec fn opt_text(o: Option<String>) -> Option<Seq<char>> {
    match o {
        Some(s) => Some(s@),
        None => None,
    }
}

/// The views of a sequence of values.
pub open spec fn views<T: View>(s: Seq<T>) -> Seq<T::V> {
    s.map_values(|x: T| x@)
}

/// Values with a copy operation whose result has the same view.
pub trait Duplicate: View + Sized {
    fn duplicate(&self) -> (r: Self)
        ensures
            r@ == self@,
    ;
}

impl Duplicate for String {
    fn duplicate(&self) -> (r: String) {
        self.clone()
    }
}

/// Copies every element of a vector.
pub fn copy_vec<T: Duplicate>(v: &Vec<T>) -> (r: Vec<T>)
    ensures
        views(r@) == views(v@),
{
    let mut r: Vec<T> = Vec::new();
    let mut i: usize = 0;
    while i < v.len()
        invariant
            i <= v.len(),
            r@.len() == i,
            forall|j: int| 0 <= j < i ==> #[trigger] r@[j]@ == v@[j]@,
        decreases v.len() - i,
    {
        r.push(v[i].duplicate());
        i = i + 1;
    }
    assert(views(r@) =~= views(v@));
    r
}

pub fn copy_opt_string(o: &Option<String>) -> (r: Option<String>)
    ensures
        opt_text(r) == opt_text(*o),
{
    match o {
        Some(s) => Some(s.clone()),
        None => None,
    }
}

/// A pointer to the source an element or observation was taken from.
pub struct SourceRef {
    pub system: Option<String>,
    /// The path of the referenced content.
    pub source_ref: Option<String>,
    /// The hash the referenced content had when it was recorded.
    pub content_hash: Option<String>,
}

pub struct SourceRefView {
    pub system: Option<Seq<char>>,
    pub source_ref: Option<Seq<char>>,
    pub content_hash: Option<Seq<char>>,
}

impl View for SourceRef {
    type V = SourceRefView;

    open spec fn view(&self) -> SourceRefView {
        SourceRefView {
            system: opt_text(self.system),
            source_ref: opt_text(self.source_ref),
            content_hash: opt_text(self.content_hash),
        }
    }
}

impl Duplicate for SourceRef {
    fn duplicate(&self) -> (r: SourceRef) {
        SourceRef {
            system: copy_opt_string(&self.system),
            source_ref: copy_opt_string(&self.source_ref),
            content_hash: copy_opt_string(&self.content_hash),
        }
    }
}

pub open spec fn opt_source(o: Option<SourceRef>) -> Option<SourceRefView> {
    match o {
        Some(s) => Some(s@),
        None => None,
    }
}

pub fn copy_opt_source(o: &Option<SourceRef>) -> (r: Option<SourceRef>)
    ensures
        opt_source(r) == opt_source(*o),
{
    match o {
        Some(s) => Some(s.duplicate()),
        None => None,
    }
}

/// An evidence item backing an observation.
pub struct Evidence {
    pub source_ref: SourceRef,
    pub note: Option<String>,
}

pub struct EvidenceView {
    pub source_ref: SourceRefView,
    pub note: Option<Seq<char>>,
}

impl View for Evidence {
    type V = EvidenceView;

    open spec fn view(&self) -> EvidenceView {
        EvidenceView { source_ref: self.source_ref@, note: opt_text(self.note) }
    }
}

impl Duplicate for Evidence {
    fn duplicate(&self) -> (r: Evidence) {
        Evidence { source_ref: self.source_ref.duplicate(), note: copy_opt_string(&self.note) }
    }
}

/// One categorical observation recorded on a cell.
pub struct Observation {
    /// The observation token; it must be a level of the relation's scale.
    pub observation: String,
    pub provenance_class: Option<ProvenanceClass>,
    pub evidence: Vec<Evidence>,
    pub source_ref: Option<SourceRef>,
}

pub struct ObservationView {
    pub observation: Seq<char>,
    pub provenance_class: Option<ProvenanceClass>,
    pub evidence: Seq<EvidenceView>,
    pub source_ref: Option<SourceRefView>,
}

impl View for Observation {
    type V = ObservationView;

    open spec fn view(&self) -> ObservationView {
        ObservationView {
            observation: self.observation@,
            provenance_class: self.provenance_class,
            evidence: views(self.evidence@),
            source_ref: opt_source(self.source_ref),
        }
    }
}

impl Duplicate for Observation {
    fn duplicate(&self) -> (r: Observation) {
        Observation {
            observation: self.observation.clone(),
            provenance_class: self.provenance_class,
            evidence: copy_vec(&self.evidence),
            source_ref: copy_opt_source(&self.source_ref),
        }
    }
}

/// A sparse cell of a relation: the observations linking two members.
pub struct Cell {
    pub from: String,
    pub to: String,
    pub observations: Vec<Observation>,
}

pub struct CellView {
    pub from: Seq<char>,
    pub to: Seq<char>,
    pub observations: Seq<ObservationView>,
}

impl View for Cell {
    type V = CellView;

    open spec fn view(&self) -> CellView {
        CellView { from: self.from@, to: self.to@, observations: views(self.observations@) }
    }
}

impl Duplicate for Cell {
    fn duplicate(&self) -> (r: Cell) {
        Cell {
            from: self.from.clone(),
            to: self.to.clone(),
            observations: copy_vec(&self.observations),
        }
    }
}

/// A pairwise relation between a `from` and a `to` dimension.
pub struct Relation {
    pub id: String,
    pub from: String,
    pub to: String,
    pub relation_type: RelationType,
    /// The id of the scale its observation tokens come from.
    pub scale: String,
    pub coverage_policy: CoveragePolicy,
    pub status: Option<LifecycleStatus>,
    pub superseded_by: Option<String>,
    pub cells: Vec<Cell>,
}

pub struct RelationView {
    pub id: Seq<char>,
    pub from: Seq<char>,
    pub to: Seq<char>,
    pub relation_type: RelationType,
    pub scale: Seq<char>,
    pub coverage_policy: CoveragePolicy,
    pub status: Option<LifecycleStatus>,
    pub superseded_by: Option<Seq<char>>,
    pub cells: Seq<CellView>,
}

impl View for Relation {
    type V = RelationView;

    open spec fn view(&self) -> RelationView {
        RelationView {
            id: self.id@,
            from: self.from@,
            to: self.to@,
            relation_type: self.relation_type,
            scale: self.scale@,
            coverage_policy: self.coverage_policy,
            status: self.status,
            superseded_by: opt_text(self.superseded_by),
            cells: views(self.cells@),
        }
    }
}

impl Duplicate for Relation {
    fn duplicate(&self) -> (r: Relation) {
        Relation {
            id: self.id.clone(),
            from: self.from.clone(),
            to: self.to.clone(),
            relation_type: self.relation_type,
            scale: self.scale.clone(),
            coverage_policy: self.coverage_policy,
            status: self.status,
            superseded_by: copy_opt_string(&self.superseded_by),
            cells: copy_vec(&self.cells),
        }
    }
}

/// One level of a scale: an observation token and the number it stands for.
pub struct Level {
    pub observation: String,
    /// The IEEE-754 bit pattern of the level's value.
    pub value_bits: u64,
    pub order: i64,
    pub description: Option<String>,
}

pub struct LevelView {
    pub observation: Seq<char>,
    pub value_bits: u64,
    pub order: i64,
    pub description: Option<Seq<char>>,
}

impl View for Level {
    type V = LevelView;

    open spec fn view(&self) -> LevelView {
        LevelView {
            observation: self.observation@,
            value_bits: self.value_bits,
            order: self.order,
            description: opt_text(self.description),
        }
    }
}

impl Duplicate for Level {
    fn duplicate(&self) -> (r: Level) {
        Level {
            observation: self.observation.clone(),
            value_bits: self.value_bits,
            order: self.order,
            description: copy_opt_string(&self.description),
        }
    }
}

/// A declared observation vocabulary with its deterministic values.
pub struct ScaleDef {
    pub id: String,
    pub levels: Vec<Level>,
}

pub struct ScaleView {
    pub id: Seq<char>,
    pub levels: Seq<LevelView>,
}

impl View for ScaleDef {
    type V = ScaleView;

    open spec fn view(&self) -> ScaleView {
        ScaleView { id: self.id@, levels: views(self.levels@) }
    }
}

impl Duplicate for ScaleDef {
    fn duplicate(&self) -> (r: ScaleDef) {
        ScaleDef { id: self.id.clone(), levels: copy_vec(&self.levels) }
    }
}

/// A member of a dimension (an entity on an axis).
pub struct Member {
    pub id: String,
    pub label: Option<String>,
    /// The IEEE-754 bit pattern of an imported numeric weight.
    pub weight_bits: Option<u64>,
    /// A weight given as a token of the dimension's weight scale.
    pub weight_observation: Option<String>,
    pub source_ref: Option<SourceRef>,
    pub status: Option<LifecycleStatus>,
    pub superseded_by: Option<String>,
}

pub struct MemberView {
    pub id: Seq<char>,
    pub label: Option<Seq<char>>,
    pub weight_bits: Option<u64>,
    pub weight_observation: Option<Seq<char>>,
    pub source_ref: Option<SourceRefView>,
    pub status: Option<LifecycleStatus>,
    pub superseded_by: Option<Seq<char>>,
}

impl View for Member {
    type V = MemberView;

    open spec fn view(&self) -> MemberView {
        MemberView {
            id: self.id@,
            label: opt_text(self.label),
            weight_bits: self.weight_bits,
            weight_observation: opt_text(self.weight_observation),
            source_ref: opt_source(self.source_ref),
            status: self.status,
            superseded_by: opt_text(self.superseded_by),
        }
    }
}

impl Duplicate for Member {
    fn duplicate(&self) -> (r: Member) {
        Member {
            id: self.id.clone(),
            label: copy_opt_string(&self.label),
            weight_bits: self.weight_bits,
            weight_observation: copy_opt_string(&self.weight_observation),
            source_ref: copy_opt_source(&self.source_ref),
            status: self.status,
            superseded_by: copy_opt_string(&self.superseded_by),
        }
    }
}

/// An axis of the model and its roster of members.
pub struct Dimension {
    pub id: String,
    pub label: Option<String>,
    pub kind: Option<String>,
    pub order: i64,
    /// The scale that resolves the members' weight observations.
    pub weight_scale: Option<String>,
    pub members: Vec<Member>,
}

pub struct DimensionView {
    pub id: Seq<char>,
    pub label: Option<Seq<char>>,
    pub kind: Option<Seq<char>>,
    pub order: i64,
    pub weight_scale: Option<Seq<char>>,
    pub members: Seq<MemberView>,
}

impl View for Dimension {
    type V = DimensionView;

    open spec fn view(&self) -> DimensionView {
        DimensionView {
            id: self.id@,
            label: opt_text(self.label),
            kind: opt_text(self.kind),
            order: self.order,
            weight_scale: opt_text(self.weight_scale),
            members: views(self.members@),
        }
    }
}

impl Duplicate for Dimension {
    fn duplicate(&self) -> (r: Dimension) {
        Dimension {
            id: self.id.clone(),
            label: copy_opt_string(&self.label),
            kind: copy_opt_string(&self.kind),
            order: self.order,
            weight_scale: copy_opt_string(&self.weight_scale),
            members: copy_vec(&self.members),
        }
    }
}

/// A declared cascade of relations (`A ⊗ B ⊗ ...`).
pub struct Contraction {
    pub id: String,
    /// Relation ids, in cascade order.
    pub chain: Vec<String>,
    pub weight_combination: WeightCombination,
    pub weight_by_source_members: bool,
}

pub struct ContractionView {
    pub id: Seq<char>,
    pub chain: Seq<Seq<char>>,
    pub weight_combination: WeightCombination,
    pub weight_by_source_members: bool,
}

impl View for Contraction {
    type V = ContractionView;

    open spec fn view(&self) -> ContractionView {
        ContractionView {
            id: self.id@,
            chain: views(self.chain@),
            weight_combination: self.weight_combination,
            weight_by_source_members: self.weight_by_source_members,
        }
    }
}

impl Duplicate for Contraction {
    fn duplicate(&self) -> (r: Contraction) {
        Contraction {
            id: self.id.clone(),
            chain: copy_vec(&self.chain),
            weight_combination: self.weight_combination,
            weight_by_source_members: self.weight_by_source_members,
        }
    }
}

/// A whole cross-matrix document, as handed to [`crate::Model::load`].
pub struct CrossMatrixModel {
    pub schema_version: String,
    pub model_id: String,
    pub dimensions: Vec<Dimension>,
    pub scales: Vec<ScaleDef>,
    pub relations: Vec<Relation>,
    pub contractions: Vec<Contraction>,
}

pub struct ModelView {
    pub schema_version: Seq<char>,
    pub model_id: Seq<char>,
    pub dimensions: Seq<DimensionView>,
    pub scales: Seq<ScaleView>,
    pub relations: Seq<RelationView>,
    pub contractions: Seq<ContractionView>,
}

impl View for CrossMatrixModel {
    type V = ModelView;

    open spec fn view(&self) -> ModelView {
        ModelView {
            schema_version: self.schema_version@,
            model_id: self.model_id@,
            dimensions: views(self.dimensions@),
            scales: views(self.scales@),
            relations: views(self.relations@),
            contractions: views(self.contractions@),
        }
    }
}

impl Duplicate for CrossMatrixModel {
    fn duplicate(&self) -> (r: CrossMatrixModel) {
        CrossMatrixModel {
            schema_version: self.schema_version.clone(),
            model_id: self.model_id.clone(),
            dimensions: copy_vec(&self.dimensions),
            scales: copy_vec(&self.scales),
            relations: copy_vec(&self.relations),
            contractions: copy_vec(&self.contractions),
        }
    }
}

} // verus!
