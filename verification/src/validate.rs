//! The integrity rules a document must satisfy to be loaded.

use vstd::prelude::*;
use crate::lookup::{find_last, contains_key, keys, last_of};
use crate::model::{
    CellView, Dimension, DimensionView, Level, LevelView, Member, MemberView, ModelView,
    ObservationView, ProvenanceClass, Relation, RelationView, ScaleDef, ScaleView, views,
};
use crate::seqs::{lemma_filter_map_step, lemma_flatten_map_step, lemma_take_full};

verus! {

/// Why a document, or a weighted analysis of it, was rejected.
#[derive(Debug)]
pub enum ValidationError {
    /// Cells whose `from`/`to` is not a member of the relation's dimension,
    /// each written `relation:from->to`.
    DanglingCell(Vec<String>),
    /// Observation tokens that are no level of their relation's scale.
    UnknownObservationToken { relation_id: String, tokens: Vec<String> },
    /// An inferred observation without evidence.
    UnevidencedInferred { relation_id: String, from: String, to: String },
    /// A contraction chain that names a relation twice.
    CyclicContraction { chain_id: String },
    /// Consecutive chain relations that do not share their axis, or that
    /// are on different scales.
    ScaleMismatch { chain_id: String, detail: String },
    /// Members without a resolvable weight on the axis of a weighted analysis.
    UnweightedMemberForWeightedAnalysis { relation_id: String, members: Vec<String> },
}

pub enum ValidationErrorView {
    DanglingCell(Seq<Seq<char>>),
    UnknownObservationToken { relation_id: Seq<char>, tokens: Seq<Seq<char>> },
    UnevidencedInferred { relation_id: Seq<char>, from: Seq<char>, to: Seq<char> },
    CyclicContraction { chain_id: Seq<char> },
    ScaleMismatch { chain_id: Seq<char>, detail: Seq<char> },
    UnweightedMemberForWeightedAnalysis { relation_id: Seq<char>, members: Seq<Seq<char>> },
}

impl View for ValidationError {
    type V = ValidationErrorView;

    open spec fn view(&self) -> ValidationErrorView {
        match self {
            ValidationError::DanglingCell(v) => ValidationErrorView::DanglingCell(views(v@)),
            ValidationError::UnknownObservationToken { relation_id, tokens } =>
                ValidationErrorView::UnknownObservationToken {
                relation_id: relation_id@,
                tokens: views(tokens@),
            },
            ValidationError::UnevidencedInferred { relation_id, from, to } =>
                ValidationErrorView::UnevidencedInferred {
                relation_id: relation_id@,
                from: from@,
                to: to@,
            },
            ValidationError::CyclicContraction { chain_id } =>
                ValidationErrorView::CyclicContraction { chain_id: chain_id@ },
            ValidationError::ScaleMismatch { chain_id, detail } =>
                ValidationErrorView::ScaleMismatch { chain_id: chain_id@, detail: detail@ },
            ValidationError::UnweightedMemberForWeightedAnalysis { relation_id, members } =>
                ValidationErrorView::UnweightedMemberForWeightedAnalysis {
                relation_id: relation_id@,
                members: views(members@),
            },
        }
    }
}

// ── ids ──

pub open spec fn dimension_ids(dims: Seq<DimensionView>) -> Seq<Seq<char>> {
    dims.map_values(|d: DimensionView| d.id)
}

pub open spec fn member_ids(members: Seq<MemberView>) -> Seq<Seq<char>> {
    members.map_values(|m: MemberView| m.id)
}

pub open spec fn relation_ids(rels: Seq<RelationView>) -> Seq<Seq<char>> {
    rels.map_values(|r: RelationView| r.id)
}

pub open spec fn scale_ids(scales: Seq<ScaleView>) -> Seq<Seq<char>> {
    scales.map_values(|s: ScaleView| s.id)
}

pub open spec fn level_tokens(levels: Seq<LevelView>) -> Seq<Seq<char>> {
    levels.map_values(|l: LevelView| l.observation)
}

pub proof fn lemma_keys_dimensions(v: Seq<Dimension>)
    ensures
        keys(v) == dimension_ids(views(v)),
{
    assert(keys(v) =~= dimension_ids(views(v)));
}

pub proof fn lemma_keys_members(v: Seq<Member>)
    ensures
        keys(v) == member_ids(views(v)),
{
    assert(keys(v) =~= member_ids(views(v)));
}

pub proof fn lemma_keys_relations(v: Seq<Relation>)
    ensures
        keys(v) == relation_ids(views(v)),
{
    assert(keys(v) =~= relation_ids(views(v)));
}

pub proof fn lemma_keys_scales(v: Seq<ScaleDef>)
    ensures
        keys(v) == scale_ids(views(v)),
{
    assert(keys(v) =~= scale_ids(views(v)));
}

pub proof fn lemma_keys_levels(v: Seq<Level>)
    ensures
        keys(v) == level_tokens(views(v)),
{
    assert(keys(v) =~= level_tokens(views(v)));
}

// ── member resolution ──

/// `member` is on the roster of dimension `dim`; when several dimensions
/// share an id, the one declared last holds the roster.
pub open spec fn has_member(dims: Seq<DimensionView>, dim: Seq<char>, member: Seq<char>) -> bool {
    match last_of(dimension_ids(dims), dim) {
        Some(i) => member_ids(dims[i].members).contains(member),
        None => false,
    }
}

/// Whether `member` is on the roster of dimension `dim`.
pub fn roster_contains(dims: &Vec<Dimension>, dim: &String, member: &String) -> (r: bool)
    ensures
        r == has_member(views(dims@), dim@, member@),
{
    proof {
        lemma_keys_dimensions(dims@);
    }
    match find_last(dims, dim) {
        Some(i) => {
            proof {
                lemma_keys_members(dims@[i as int].members@);
            }
            contains_key(&dims[i].members, member)
        },
        None => false,
    }
}

// ── scale resolution ──

/// `token` is a level of the scale `scale`.
pub open spec fn token_known(scales: Seq<ScaleView>, scale: Seq<char>, token: Seq<char>) -> bool {
    match last_of(scale_ids(scales), scale) {
        Some(i) => level_tokens(scales[i].levels).contains(token),
        None => false,
    }
}

/// The position of the scale that resolves tokens for `scale`.
pub fn resolve_scale(scales: &Vec<ScaleDef>, scale: &String) -> (r: Option<usize>)
    ensures
        r matches Some(i) ==> last_of(scale_ids(views(scales@)), scale@) == Some(i as int),
        r is None ==> last_of(scale_ids(views(scales@)), scale@) is None,
{
    proof {
        lemma_keys_scales(scales@);
    }
    find_last(scales, scale)
}

// ── dangling cells ──

pub open spec fn cell_dangles(dims: Seq<DimensionView>, r: RelationView, c: CellView) -> bool {
    !has_member(dims, r.from, c.from) || !has_member(dims, r.to, c.to)
}

pub open spec fn dangling_pred(dims: Seq<DimensionView>, r: RelationView) -> spec_fn(CellView) -> bool {
    |c: CellView| cell_dangles(dims, r, c)
}

/// How a dangling cell is reported: `relation:from->to`.
pub open spec fn dangling_label(r: RelationView, c: CellView) -> Seq<char> {
    r.id + ":"@ + c.from + "->"@ + c.to
}

pub open spec fn dangling_label_of(r: RelationView) -> spec_fn(CellView) -> Seq<char> {
    |c: CellView| dangling_label(r, c)
}

/// The dangling cells of one relation, in cell order.
pub open spec fn relation_dangling(dims: Seq<DimensionView>, r: RelationView) -> Seq<Seq<char>> {
    r.cells.filter(dangling_pred(dims, r)).map_values(dangling_label_of(r))
}

pub open spec fn relation_dangling_of(dims: Seq<DimensionView>) -> spec_fn(RelationView) -> Seq<Seq<char>> {
    |r: RelationView| relation_dangling(dims, r)
}

/// Every dangling cell of the document, relation by relation.
pub open spec fn dangling_cells(m: ModelView) -> Seq<Seq<char>> {
    m.relations.map_values(relation_dangling_of(m.dimensions)).flatten()
}

fn dangling_text(r: &Relation, from: &String, to: &String) -> (s: String)
    ensures
        s@ == r.id@ + ":"@ + from@ + "->"@ + to@,
{
    let mut s = r.id.clone();
    s.append(":");
    s.append(from.as_str());
    s.append("->");
    s.append(to.as_str());
    s
}

/// Appends the dangling cells of `r` to `out`.
pub(crate) fn collect_dangling(dims: &Vec<Dimension>, r: &Relation, out: &mut Vec<String>)
    ensures
        views(final(out)@) == views(old(out)@) + relation_dangling(views(dims@), r@),
{
    let ghost rv = r@;
    let ghost d = views(dims@);
    let ghost start = views(out@);
    let mut j: usize = 0;
    while j < r.cells.len()
        invariant
            j <= r.cells.len(),
            rv == r@,
            d == views(dims@),
            views(out@) == start + rv.cells.take(j as int).filter(dangling_pred(d, rv)).map_values(
                dangling_label_of(rv),
            ),
        decreases r.cells.len() - j,
    {
        let c = &r.cells[j];
        proof {
            assert(rv.cells[j as int] == c@);
            lemma_filter_map_step(rv.cells, j as int, dangling_pred(d, rv), dangling_label_of(rv));
        }
        let from_ok = roster_contains(dims, &r.from, &c.from);
        let to_ok = roster_contains(dims, &r.to, &c.to);
        if !from_ok || !to_ok {
            let label = dangling_text(r, &c.from, &c.to);
            let ghost prev = out@;
            out.push(label);
            proof {
                assert(views(out@) =~= views(prev).push(label@));
            }
        }
        j = j + 1;
    }
    proof {
        lemma_take_full(rv.cells);
    }
}

// ── observation tokens ──

pub open spec fn unknown_pred(scales: Seq<ScaleView>, r: RelationView) -> spec_fn(ObservationView) -> bool {
    |o: ObservationView| !token_known(scales, r.scale, o.observation)
}

pub open spec fn unknown_entry_of(r: RelationView) -> spec_fn(ObservationView) -> (Seq<char>, Seq<char>) {
    |o: ObservationView| (r.id, o.observation)
}

/// The unknown tokens of one cell, each with its relation's id.
pub open spec fn cell_unknown(scales: Seq<ScaleView>, r: RelationView, c: CellView) -> Seq<(Seq<char>, Seq<char>)> {
    c.observations.filter(unknown_pred(scales, r)).map_values(unknown_entry_of(r))
}

pub open spec fn cell_unknown_of(scales: Seq<ScaleView>, r: RelationView) -> spec_fn(CellView) -> Seq<(Seq<char>, Seq<char>)> {
    |c: CellView| cell_unknown(scales, r, c)
}

/// The unknown tokens of one relation; where the relation's scale is not
/// declared, every token is unknown.
pub open spec fn relation_unknown(scales: Seq<ScaleView>, r: RelationView) -> Seq<(Seq<char>, Seq<char>)> {
    r.cells.map_values(cell_unknown_of(scales, r)).flatten()
}

pub open spec fn relation_unknown_of(scales: Seq<ScaleView>) -> spec_fn(RelationView) -> Seq<(Seq<char>, Seq<char>)> {
    |r: RelationView| relation_unknown(scales, r)
}

/// Every unknown token of the document, with its relation's id.
pub open spec fn unknown_tokens(m: ModelView) -> Seq<(Seq<char>, Seq<char>)> {
    m.relations.map_values(relation_unknown_of(m.scales)).flatten()
}

/// An inferred observation with no evidence.
pub open spec fn is_unevidenced(o: ObservationView) -> bool {
    o.provenance_class == Some(ProvenanceClass::Inferred) && o.evidence.len() == 0
}

pub open spec fn unevidenced_pred() -> spec_fn(ObservationView) -> bool {
    |o: ObservationView| is_unevidenced(o)
}

pub open spec fn unevidenced_entry_of(r: RelationView, c: CellView) -> spec_fn(ObservationView) -> (Seq<char>, Seq<char>, Seq<char>) {
    |o: ObservationView| (r.id, c.from, c.to)
}

pub open spec fn cell_unevidenced(r: RelationView, c: CellView) -> Seq<(Seq<char>, Seq<char>, Seq<char>)> {
    c.observations.filter(unevidenced_pred()).map_values(unevidenced_entry_of(r, c))
}

pub open spec fn cell_unevidenced_of(r: RelationView) -> spec_fn(CellView) -> Seq<(Seq<char>, Seq<char>, Seq<char>)> {
    |c: CellView| cell_unevidenced(r, c)
}

/// The unevidenced inferred observations of one relation.
pub open spec fn relation_unevidenced(scales: Seq<ScaleView>, r: RelationView) -> Seq<(Seq<char>, Seq<char>, Seq<char>)> {
    r.cells.map_values(cell_unevidenced_of(r)).flatten()
}

pub open spec fn relation_unevidenced_of(scales: Seq<ScaleView>) -> spec_fn(RelationView) -> Seq<(Seq<char>, Seq<char>, Seq<char>)> {
    |r: RelationView| relation_unevidenced(scales, r)
}

pub open spec fn unevidenced(m: ModelView) -> Seq<(Seq<char>, Seq<char>, Seq<char>)> {
    m.relations.map_values(relation_unevidenced_of(m.scales)).flatten()
}

/// Appends the token findings of one cell.
fn collect_cell_tokens(
    scales: &Vec<ScaleDef>,
    si: Option<usize>,
    r: &Relation,
    c: &crate::model::Cell,
    unknown: &mut Vec<(String, String)>,
    unevid: &mut Vec<(String, String, String)>,
)
    requires
        last_of(scale_ids(views(scales@)), r.scale@) == match si {
            Some(i) => Some(i as int),
            None => None,
        },
    ensures
        views(final(unknown)@) == views(old(unknown)@) + cell_unknown(views(scales@), r@, c@),
        views(final(unevid)@) == views(old(unevid)@) + cell_unevidenced(r@, c@),
{
    let ghost sv = views(scales@);
    let ghost cv = c@;
    let ghost rv = r@;
    let ghost start_u = views(unknown@);
    let ghost start_e = views(unevid@);
    proof {
        if let Some(i) = si {
            lemma_keys_levels(scales@[i as int].levels@);
        }
    }
    let mut k: usize = 0;
    while k < c.observations.len()
        invariant
            k <= c.observations.len(),
            sv == views(scales@),
            cv == c@,
            rv == r@,
            last_of(scale_ids(sv), rv.scale) == match si {
                Some(i) => Some(i as int),
                None => None,
            },
            si matches Some(i) ==> i < scales@.len() && keys(scales@[i as int].levels@) == level_tokens(
                views(scales@[i as int].levels@),
            ),
            views(unknown@) == start_u + cv.observations.take(k as int).filter(
                unknown_pred(sv, rv),
            ).map_values(unknown_entry_of(rv)),
            views(unevid@) == start_e + cv.observations.take(k as int).filter(
                unevidenced_pred(),
            ).map_values(unevidenced_entry_of(rv, cv)),
        decreases c.observations.len() - k,
    {
        let o = &c.observations[k];
        proof {
            assert(cv.observations[k as int] == o@);
            lemma_filter_map_step(cv.observations, k as int, unknown_pred(sv, rv), unknown_entry_of(rv));
            lemma_filter_map_step(
                cv.observations,
                k as int,
                unevidenced_pred(),
                unevidenced_entry_of(rv, cv),
            );
            if let Some(i) = si {
                assert(sv[i as int] == scales@[i as int]@);
            }
        }
        let known = match si {
            Some(i) => contains_key(&scales[i].levels, &o.observation),
            None => false,
        };
        if !known {
            let ghost prev = unknown@;
            unknown.push((r.id.clone(), o.observation.clone()));
            proof {
                assert(views(unknown@) =~= views(prev).push((r.id@, o.observation@)));
            }
        }
        let inferred = match o.provenance_class {
            Some(ProvenanceClass::Inferred) => true,
            _ => false,
        };
        if inferred && o.evidence.len() == 0 {
            let ghost prev = unevid@;
            unevid.push((r.id.clone(), c.from.clone(), c.to.clone()));
            proof {
                assert(views(unevid@) =~= views(prev).push((r.id@, c.from@, c.to@)));
            }
        }
        k = k + 1;
    }
    proof {
        lemma_take_full(cv.observations);
    }
}

/// Appends the token findings of one relation.
pub(crate) fn collect_tokens(
    scales: &Vec<ScaleDef>,
    r: &Relation,
    unknown: &mut Vec<(String, String)>,
    unevid: &mut Vec<(String, String, String)>,
)
    ensures
        views(final(unknown)@) == views(old(unknown)@) + relation_unknown(views(scales@), r@),
        views(final(unevid)@) == views(old(unevid)@) + relation_unevidenced(views(scales@), r@),
{
    let ghost sv = views(scales@);
    let ghost rv = r@;
    let si = resolve_scale(scales, &r.scale);
    let ghost start_u = views(unknown@);
    let ghost start_e = views(unevid@);
    let mut j: usize = 0;
    while j < r.cells.len()
        invariant
            j <= r.cells.len(),
            sv == views(scales@),
            rv == r@,
            last_of(scale_ids(sv), rv.scale) == match si {
                Some(i) => Some(i as int),
                None => None,
            },
            views(unknown@) == start_u + rv.cells.take(j as int).map_values(
                cell_unknown_of(sv, rv),
            ).flatten(),
            views(unevid@) == start_e + rv.cells.take(j as int).map_values(
                cell_unevidenced_of(rv),
            ).flatten(),
        decreases r.cells.len() - j,
    {
        let c = &r.cells[j];
        proof {
            assert(rv.cells[j as int] == c@);
            lemma_flatten_map_step(rv.cells, j as int, cell_unknown_of(sv, rv));
            lemma_flatten_map_step(rv.cells, j as int, cell_unevidenced_of(rv));
        }
        let ghost before_u = views(unknown@);
        let ghost before_e = views(unevid@);
        collect_cell_tokens(scales, si, r, c, unknown, unevid);
        proof {
            assert(views(unknown@) =~= start_u + rv.cells.take(j + 1).map_values(
                cell_unknown_of(sv, rv),
            ).flatten());
            assert(views(unevid@) =~= start_e + rv.cells.take(j + 1).map_values(
                cell_unevidenced_of(rv),
            ).flatten());
        }
        j = j + 1;
    }
    proof {
        lemma_take_full(rv.cells);
    }
}

// ── contraction chains ──

/// The chain names some relation more than once.
pub open spec fn chain_repeats(chain: Seq<Seq<char>>) -> bool {
    exists|i: int, j: int| 0 <= i < j < chain.len() && chain[i] == chain[j]
}

/// Two consecutive chain relations do not compose: the `to` of the first
/// is not the `from` of the second, or they are on different scales.
pub open spec fn relations_mismatch(a: RelationView, b: RelationView) -> bool {
    a.to != b.from || a.scale != b.scale
}

/// Chain positions `k` and `k + 1` name declared relations that do not
/// compose (see [`relations_mismatch`]).
pub open spec fn pair_mismatch(rels: Seq<RelationView>, chain: Seq<Seq<char>>, k: int) -> bool {
    &&& 0 <= k
    &&& k + 1 < chain.len()
    &&& match (last_of(relation_ids(rels), chain[k]), last_of(relation_ids(rels), chain[k + 1])) {
        (Some(a), Some(b)) => relations_mismatch(rels[a], rels[b]),
        _ => false,
    }
}

pub open spec fn is_first_mismatch(rels: Seq<RelationView>, chain: Seq<Seq<char>>, k: int) -> bool {
    pair_mismatch(rels, chain, k) && forall|j: int| 0 <= j < k ==> !pair_mismatch(rels, chain, j)
}

/// The report of a mismatch between two chain relations: the shared axis
/// when it differs, else the scales.
pub open spec fn mismatch_detail(a: RelationView, b: RelationView) -> Seq<char> {
    if a.to != b.from {
        "relation '"@ + a.id + "' to='"@ + a.to + "' but next relation '"@ + b.id + "' from='"@
            + b.from + "' — shared axis must match"@
    } else {
        "relation '"@ + a.id + "' scale='"@ + a.scale + "' but next relation '"@ + b.id + "' scale='"@
            + b.scale + "' — scales must match"@
    }
}

/// Why a contraction is rejected, if it is: a repeated relation makes it
/// cyclic; otherwise the first mismatching pair of relations is reported.
pub open spec fn contraction_verdict(rels: Seq<RelationView>, c: crate::model::ContractionView) -> Option<ValidationErrorView> {
    if chain_repeats(c.chain) {
        Some(ValidationErrorView::CyclicContraction { chain_id: c.id })
    } else if exists|k: int| is_first_mismatch(rels, c.chain, k) {
        let k = choose|k: int| is_first_mismatch(rels, c.chain, k);
        let a = last_of(relation_ids(rels), c.chain[k]).unwrap();
        let b = last_of(relation_ids(rels), c.chain[k + 1]).unwrap();
        Some(
            ValidationErrorView::ScaleMismatch {
                chain_id: c.id,
                detail: mismatch_detail(rels[a], rels[b]),
            },
        )
    } else {
        None
    }
}

pub open spec fn is_first_rejected(m: ModelView, k: int) -> bool {
    &&& 0 <= k < m.contractions.len()
    &&& contraction_verdict(m.relations, m.contractions[k]) is Some
    &&& forall|j: int| 0 <= j < k ==> contraction_verdict(m.relations, m.contractions[j]) is None
}

/// The first reason, in checking order, why a document cannot be loaded:
/// contraction chains first (in declaration order), then dangling cells,
/// then unknown observation tokens, then unevidenced inferred observations.
pub open spec fn load_verdict(m: ModelView) -> Option<ValidationErrorView> {
    if exists|k: int| is_first_rejected(m, k) {
        let k = choose|k: int| is_first_rejected(m, k);
        contraction_verdict(m.relations, m.contractions[k])
    } else if dangling_cells(m).len() > 0 {
        Some(ValidationErrorView::DanglingCell(dangling_cells(m)))
    } else if unknown_tokens(m).len() > 0 {
        Some(
            ValidationErrorView::UnknownObservationToken {
                relation_id: unknown_tokens(m)[0].0,
                tokens: unknown_tokens(m).map_values(|p: (Seq<char>, Seq<char>)| p.1),
            },
        )
    } else if unevidenced(m).len() > 0 {
        Some(
            ValidationErrorView::UnevidencedInferred {
                relation_id: unevidenced(m)[0].0,
                from: unevidenced(m)[0].1,
                to: unevidenced(m)[0].2,
            },
        )
    } else {
        None
    }
}

/// A document that satisfies every integrity rule.
pub open spec fn is_valid(m: ModelView) -> bool {
    load_verdict(m) is None
}

/// Whether the chain names a relation twice.
fn chain_has_repeat(chain: &Vec<String>) -> (r: bool)
    ensures
        r == chain_repeats(views(chain@)),
{
    let ghost cv = views(chain@);
    let mut j: usize = 0;
    while j < chain.len()
        invariant
            j <= chain.len(),
            cv == views(chain@),
            forall|a: int, b: int| 0 <= a < b < j ==> cv[a] != cv[b],
        decreases chain.len() - j,
    {
        let mut i: usize = 0;
        while i < j
            invariant
                i <= j < chain.len(),
                cv == views(chain@),
                forall|a: int, b: int| 0 <= a < b < j ==> cv[a] != cv[b],
                forall|a: int| 0 <= a < i ==> cv[a] != cv[j as int],
            decreases j - i,
        {
            if chain[i] == chain[j] {
                assert(cv[i as int] == cv[j as int]);
                return true;
            }
            i = i + 1;
        }
        j = j + 1;
    }
    false
}

/// The first pair of consecutive chain relations that do not share an axis.
fn first_pair_mismatch(rels: &Vec<Relation>, chain: &Vec<String>) -> (r: Option<(usize, usize, usize)>)
    ensures
        match r {
            Some((k, a, b)) => {
                &&& is_first_mismatch(views(rels@), views(chain@), k as int)
                &&& last_of(relation_ids(views(rels@)), views(chain@)[k as int]) == Some(a as int)
                &&& last_of(relation_ids(views(rels@)), views(chain@)[k + 1]) == Some(b as int)
            },
            None => forall|k: int| !pair_mismatch(views(rels@), views(chain@), k),
        },
{
    let ghost rv = views(rels@);
    let ghost cv = views(chain@);
    proof {
        lemma_keys_relations(rels@);
    }
    let n = chain.len();
    let last: usize = if n == 0 { 0 } else { n - 1 };
    let mut k: usize = 0;
    while k < last
        invariant
            n == chain.len(),
            last == (if n == 0 { 0 } else { n - 1 }),
            rv == views(rels@),
            cv == views(chain@),
            keys(rels@) == relation_ids(rv),
            k <= chain.len(),
            forall|j: int| 0 <= j < k ==> !pair_mismatch(rv, cv, j),
        decreases chain.len() - k,
    {
        let first = find_last(rels, &chain[k]);
        let second = find_last(rels, &chain[k + 1]);
        match (first, second) {
            (Some(a), Some(b)) => {
                if rels[a].to != rels[b].from || rels[a].scale != rels[b].scale {
                    assert(pair_mismatch(rv, cv, k as int));
                    return Some((k, a, b));
                }
            },
            _ => {},
        }
        assert(!pair_mismatch(rv, cv, k as int));
        k = k + 1;
    }
    assert forall|j: int| !pair_mismatch(rv, cv, j) by {
        if 0 <= j < k {
        }
    }
    None
}

fn mismatch_text(a: &Relation, b: &Relation) -> (s: String)
    ensures
        s@ == mismatch_detail(a@, b@),
{
    let mut s = String::from_str("relation '");
    s.append(a.id.as_str());
    if a.to != b.from {
        s.append("' to='");
        s.append(a.to.as_str());
        s.append("' but next relation '");
        s.append(b.id.as_str());
        s.append("' from='");
        s.append(b.from.as_str());
        s.append("' — shared axis must match");
    } else {
        s.append("' scale='");
        s.append(a.scale.as_str());
        s.append("' but next relation '");
        s.append(b.id.as_str());
        s.append("' scale='");
        s.append(b.scale.as_str());
        s.append("' — scales must match");
    }
    s
}

/// Why the contraction is rejected, if it is.
pub(crate) fn check_contraction(rels: &Vec<Relation>, c: &crate::model::Contraction) -> (r: Option<ValidationError>)
    ensures
        match r {
            Some(e) => contraction_verdict(views(rels@), c@) == Some(e@),
            None => contraction_verdict(views(rels@), c@) is None,
        },
{
    if chain_has_repeat(&c.chain) {
        return Some(ValidationError::CyclicContraction { chain_id: c.id.clone() });
    }
    match first_pair_mismatch(rels, &c.chain) {
        Some((k, a, b)) => {
            let detail = mismatch_text(&rels[a], &rels[b]);
            proof {
                let ghost rv = views(rels@);
                let ghost cv = c@.chain;
                assert(is_first_mismatch(rv, cv, k as int));
                let kk = choose|kk: int| is_first_mismatch(rv, cv, kk);
                if kk < k {
                    assert(!pair_mismatch(rv, cv, kk));
                }
                if k < kk {
                    assert(!pair_mismatch(rv, cv, k as int));
                }
                assert(kk == k);
            }
            Some(ValidationError::ScaleMismatch { chain_id: c.id.clone(), detail })
        },
        None => None,
    }
}

} // verus!
