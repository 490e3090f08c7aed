use crossmatrix::analysis::Axis;
use crossmatrix::findings::{FindingKind, Severity};
use crossmatrix::valence::relation_opposes;
use crossmatrix::{
    Cell, Contraction, CoveragePolicy, CrossMatrixModel, Dimension, Evidence, Level,
    LifecycleStatus, Member, Model, Observation, ProvenanceClass, Relation, RelationType, ScaleDef,
    SourceRef, TraceDirection, ValidationError, WeightCombination,
};

fn s(t: &str) -> String {
    t.to_string()
}

fn member(id: &str) -> Member {
    Member {
        id: s(id),
        label: None,
        weight_bits: None,
        weight_observation: None,
        source_ref: None,
        status: None,
        superseded_by: None,
    }
}

fn weighted(id: &str, observation: &str) -> Member {
    Member { weight_observation: Some(s(observation)), ..member(id) }
}

fn deprecated(id: &str) -> Member {
    Member { status: Some(LifecycleStatus::Deprecated), ..member(id) }
}

fn dimension(id: &str, order: i64, members: Vec<Member>) -> Dimension {
    Dimension { id: s(id), label: None, kind: None, order, weight_scale: None, members }
}

fn level(observation: &str, value: f64, order: i64) -> Level {
    Level { observation: s(observation), value_bits: value.to_bits(), order, description: None }
}

fn scale(id: &str, levels: Vec<Level>) -> ScaleDef {
    ScaleDef { id: s(id), levels }
}

fn qfd() -> ScaleDef {
    scale("qfd", vec![level("none", 0.0, 0), level("strong", 9.0, 3)])
}

fn obs(token: &str) -> Observation {
    Observation { observation: s(token), provenance_class: None, evidence: vec![], source_ref: None }
}

fn cell(from: &str, to: &str, token: &str) -> Cell {
    Cell { from: s(from), to: s(to), observations: vec![obs(token)] }
}

fn relation(id: &str, from: &str, to: &str, relation_type: RelationType, scale: &str, cells: Vec<Cell>) -> Relation {
    Relation {
        id: s(id),
        from: s(from),
        to: s(to),
        relation_type,
        scale: s(scale),
        coverage_policy: CoveragePolicy::NotRequired,
        status: None,
        superseded_by: None,
        cells,
    }
}

fn document(
    model_id: &str,
    dimensions: Vec<Dimension>,
    scales: Vec<ScaleDef>,
    relations: Vec<Relation>,
    contractions: Vec<Contraction>,
) -> CrossMatrixModel {
    CrossMatrixModel { schema_version: s("0.2.0"), model_id: s(model_id), dimensions, scales, relations, contractions }
}

fn sourced(id: &str, path: &str) -> Member {
    Member {
        weight_bits: Some(9.0f64.to_bits()),
        source_ref: Some(SourceRef {
            system: Some(s("fmeca")),
            source_ref: Some(s(path)),
            content_hash: Some(s("sip13:1234567890")),
        }),
        ..member(id)
    }
}

/// The worked example: requirements × characteristics × failure modes.
fn example_document() -> CrossMatrixModel {
    let req = Dimension {
        weight_scale: Some(s("importance")),
        ..dimension(
            "dim_req",
            0,
            vec![
                weighted("req_fast_checkout", "high"),
                weighted("req_secure_payment", "high"),
                weighted("req_easy_returns", "medium"),
            ],
        )
    };
    let chars = dimension(
        "dim_char",
        1,
        vec![
            member("char_response_latency"),
            member("char_encryption"),
            member("char_idempotent_api"),
            member("char_return_workflow"),
        ],
    );
    let fail = dimension(
        "dim_fail",
        2,
        vec![
            sourced("fail_data_breach", "fmeca/criticality.csv#fail_data_breach"),
            sourced("fail_double_charge", "fmeca/criticality.csv#fail_double_charge"),
            sourced("fail_latency_spike", "fmeca/criticality.csv#fail_latency_spike"),
        ],
    );
    let qfd = scale(
        "qfd",
        vec![level("none", 0.0, 0), level("weak", 1.0, 1), level("moderate", 3.0, 2), level("strong", 9.0, 3)],
    );
    let importance = scale("importance", vec![level("low", 1.0, 0), level("medium", 3.0, 1), level("high", 9.0, 2)]);
    let req_char = relation(
        "rel_req_char",
        "dim_req",
        "dim_char",
        RelationType::Supports,
        "qfd",
        vec![
            cell("req_fast_checkout", "char_response_latency", "strong"),
            cell("req_secure_payment", "char_encryption", "strong"),
            cell("req_secure_payment", "char_idempotent_api", "moderate"),
            cell("req_easy_returns", "char_return_workflow", "strong"),
        ],
    );
    let exposes = relation(
        "rel_char_exposes_fail",
        "dim_char",
        "dim_fail",
        RelationType::Exposes,
        "qfd",
        vec![
            cell("char_encryption", "fail_data_breach", "strong"),
            cell("char_idempotent_api", "fail_double_charge", "strong"),
            cell("char_response_latency", "fail_latency_spike", "strong"),
        ],
    );
    let tradeoff = relation(
        "rel_char_tradeoff",
        "dim_char",
        "dim_char",
        RelationType::Opposes,
        "qfd",
        vec![cell("char_encryption", "char_response_latency", "moderate")],
    );
    let contraction = Contraction {
        id: s("ctr_req_failure_exposure"),
        chain: vec![s("rel_req_char"), s("rel_char_exposes_fail")],
        weight_combination: WeightCombination::Product,
        weight_by_source_members: true,
    };
    document(
        "qfd-fmeca-3axis",
        vec![req, chars, fail],
        vec![qfd, importance],
        vec![req_char, exposes, tradeoff],
        vec![contraction],
    )
}

fn load_example() -> Model {
    match Model::load(example_document()) {
        Ok(m) => m,
        Err(_) => panic!("example must load + pass integrity"),
    }
}

/// Minimal 2-axis fixture: d1{a,b} × d2{x}; `b` is the orphan when only a→x is given.
fn tiny(cells: Vec<Cell>) -> Model {
    let d1 = Dimension {
        weight_scale: Some(s("importance")),
        ..dimension("d1", 0, vec![weighted("a", "low"), weighted("b", "high")])
    };
    let d2 = dimension("d2", 1, vec![member("x")]);
    let importance = scale("importance", vec![level("low", 1.0, 0), level("high", 9.0, 1)]);
    let r1 = Relation {
        coverage_policy: CoveragePolicy::EveryFrom,
        ..relation("r1", "d1", "d2", RelationType::Supports, "qfd", cells)
    };
    match Model::load(document("tiny", vec![d1, d2], vec![qfd(), importance], vec![r1], vec![])) {
        Ok(m) => m,
        Err(_) => panic!("tiny fixture must load"),
    }
}

fn two_axes() -> Vec<Dimension> {
    vec![dimension("d1", 0, vec![member("a")]), dimension("d2", 1, vec![member("x")])]
}

// ── core scenarios ──

#[test]
fn example_has_at_least_three_dimensions() {
    assert!(load_example().dimensions().len() >= 3);
}

#[test]
fn example_has_at_least_three_relations() {
    assert!(load_example().relations().len() >= 3);
}

#[test]
fn example_req_dimension_has_at_least_three_members() {
    assert!(load_example().member_count("dim_req") >= 3);
}

#[test]
fn rejects_a_dangling_cell() {
    let doc = document(
        "t",
        two_axes(),
        vec![],
        vec![relation("r", "d1", "d2", RelationType::Supports, "qfd", vec![cell("a", "NOPE", "strong")])],
        vec![],
    );
    assert!(matches!(Model::load(doc), Err(ValidationError::DanglingCell(_))));
}

#[test]
fn rejects_inferred_observation_without_evidence() {
    let inferred = Observation { provenance_class: Some(ProvenanceClass::Inferred), ..obs("strong") };
    let c = Cell { from: s("a"), to: s("x"), observations: vec![inferred] };
    let doc = document(
        "t",
        two_axes(),
        vec![qfd()],
        vec![relation("r", "d1", "d2", RelationType::Supports, "qfd", vec![c])],
        vec![],
    );
    assert!(matches!(Model::load(doc), Err(ValidationError::UnevidencedInferred { .. })));
}

#[test]
fn rejects_unknown_observation_token() {
    let doc = document(
        "t",
        two_axes(),
        vec![qfd()],
        vec![relation("r", "d1", "d2", RelationType::Supports, "qfd", vec![cell("a", "x", "imaginary")])],
        vec![],
    );
    assert!(matches!(Model::load(doc), Err(ValidationError::UnknownObservationToken { .. })));
}

#[test]
fn rejects_cyclic_contraction_chain() {
    let doc = document(
        "t",
        two_axes(),
        vec![qfd()],
        vec![
            relation("r1", "d1", "d2", RelationType::Supports, "qfd", vec![]),
            relation("r2", "d2", "d1", RelationType::Supports, "qfd", vec![]),
        ],
        vec![Contraction {
            id: s("c1"),
            chain: vec![s("r1"), s("r2"), s("r1")],
            weight_combination: WeightCombination::Product,
            weight_by_source_members: false,
        }],
    );
    assert!(matches!(Model::load(doc), Err(ValidationError::CyclicContraction { .. })));
}

#[test]
fn rejects_marginalize_on_axis_with_unweighted_member() {
    let d1 = dimension("d1", 0, vec![weighted("a", "high")]);
    let d2 = dimension("d2", 1, vec![member("x")]);
    let importance = scale("importance", vec![level("high", 9.0, 2)]);
    let doc = document(
        "t",
        vec![d1, d2],
        vec![qfd(), importance],
        vec![relation("r1", "d1", "d2", RelationType::Supports, "qfd", vec![cell("a", "x", "strong")])],
        vec![],
    );
    let model = match Model::load(doc) {
        Ok(m) => m,
        Err(_) => panic!("load"),
    };
    let result = model.check_weighted_axis("r1", Axis::To);
    assert!(matches!(result, Err(ValidationError::UnweightedMemberForWeightedAnalysis { .. })));
}

#[test]
fn trace_returns_related_members_on_the_other_axis() {
    let hops = load_example().trace("req_secure_payment");
    let related: Vec<&str> = hops.iter().map(|h| h.member.as_str()).collect();
    assert_eq!(related, vec!["char_encryption", "char_idempotent_api"]);
}

#[test]
fn trace_reports_inbound_direction_for_target_members() {
    let hops = load_example().trace("fail_data_breach");
    assert!(
        !hops.is_empty() && hops.iter().all(|h| h.direction == TraceDirection::In),
        "a pure target member must trace as inbound hops"
    );
}

#[test]
fn coverage_flags_uncovered_member() {
    let model = tiny(vec![cell("a", "x", "strong")]);
    let axis = model.coverage().into_iter().find(|c| c.axis == "from").expect("from-axis coverage must exist");
    assert_eq!(axis.uncovered, vec!["b".to_string()]);
}

#[test]
fn coverage_required_follows_coverage_policy() {
    let model = tiny(vec![cell("a", "x", "strong")]);
    let required: Vec<bool> = model.coverage().iter().map(|c| c.required).collect();
    assert_eq!(required, vec![true, false]);
}

#[test]
fn orphans_returns_exactly_the_unrelated_members() {
    let model = tiny(vec![cell("a", "x", "strong")]);
    let orphans: Vec<(String, String)> =
        model.orphans().into_iter().map(|o| (o.dimension, o.member)).collect();
    assert_eq!(orphans, vec![("d1".to_string(), "b".to_string())]);
}

#[test]
fn fully_covered_matrix_has_empty_orphans() {
    let model = tiny(vec![cell("a", "x", "strong"), cell("b", "x", "strong")]);
    assert!(model.orphans().is_empty());
}

#[test]
fn describe_summarizes_dimensions_relations_and_counts() {
    let d = load_example().describe();
    assert!(
        d.dimensions.len() == 3 && d.relations.iter().any(|r| r.id == "rel_req_char" && r.cells == 4),
        "describe must report 3 dimensions and rel_req_char with 4 cells"
    );
}

#[test]
fn slice_filters_cells_by_from_member() {
    let model = load_example();
    let cells = model.slice("rel_req_char", Some("req_secure_payment"), None).expect("relation must exist");
    assert_eq!(cells.len(), 2);
}

#[test]
fn slice_on_unknown_relation_is_none() {
    assert!(load_example().slice("rel_nope", None, None).is_none());
}

#[test]
fn stale_reference_is_reported_in_findings() {
    let model = load_example();
    // The referenced FMECA export is not present: nothing could be read.
    let contents: Vec<Option<String>> = model.source_refs().iter().map(|_| None).collect();
    let findings = model.findings(&contents);
    assert!(
        findings.iter().any(|f| f.kind == FindingKind::StaleReference),
        "expected at least one stale_reference finding from sources with contentHashes"
    );
}

#[test]
fn structural_relations_carry_no_valence() {
    assert_eq!(relation_opposes(&RelationType::DependsOn), None);
}

// ── further scenarios ──

#[test]
fn load_keeps_the_document() {
    let model = load_example();
    assert_eq!(model.document().model_id, "qfd-fmeca-3axis");
    assert_eq!(model.contraction_ids(), vec!["ctr_req_failure_exposure"]);
}

#[test]
fn dangling_cells_are_listed_as_relation_from_to() {
    let doc = document(
        "t",
        two_axes(),
        vec![],
        vec![relation(
            "r",
            "d1",
            "d2",
            RelationType::Supports,
            "qfd",
            vec![cell("a", "NOPE", "strong"), cell("a", "x", "strong"), cell("ghost", "x", "strong")],
        )],
        vec![],
    );
    match Model::load(doc) {
        Err(ValidationError::DanglingCell(v)) => assert_eq!(v, vec!["r:a->NOPE".to_string(), "r:ghost->x".to_string()]),
        _ => panic!("expected dangling cells"),
    }
}

#[test]
fn unknown_tokens_are_all_listed_under_the_first_relation() {
    let c = Cell { from: s("a"), to: s("x"), observations: vec![obs("huge"), obs("strong"), obs("tiny")] };
    let doc = document(
        "t",
        two_axes(),
        vec![qfd()],
        vec![relation("r", "d1", "d2", RelationType::Supports, "qfd", vec![c])],
        vec![],
    );
    match Model::load(doc) {
        Err(ValidationError::UnknownObservationToken { relation_id, tokens }) => {
            assert_eq!(relation_id, "r");
            assert_eq!(tokens, vec!["huge".to_string(), "tiny".to_string()]);
        },
        _ => panic!("expected unknown tokens"),
    }
}

#[test]
fn inferred_observation_with_evidence_loads() {
    let evidence = Evidence {
        source_ref: SourceRef { system: Some(s("tests")), source_ref: Some(s("notes.md")), content_hash: None },
        note: None,
    };
    let inferred = Observation {
        provenance_class: Some(ProvenanceClass::Inferred),
        evidence: vec![evidence],
        ..obs("strong")
    };
    let c = Cell { from: s("a"), to: s("x"), observations: vec![inferred] };
    let doc = document(
        "t",
        two_axes(),
        vec![qfd()],
        vec![relation("r", "d1", "d2", RelationType::Supports, "qfd", vec![c])],
        vec![],
    );
    assert!(Model::load(doc).is_ok());
}

#[test]
fn unevidenced_inference_reports_its_cell() {
    let inferred = Observation { provenance_class: Some(ProvenanceClass::Inferred), ..obs("strong") };
    let c = Cell { from: s("a"), to: s("x"), observations: vec![inferred] };
    let doc = document(
        "t",
        two_axes(),
        vec![qfd()],
        vec![relation("r", "d1", "d2", RelationType::Supports, "qfd", vec![c])],
        vec![],
    );
    match Model::load(doc) {
        Err(ValidationError::UnevidencedInferred { relation_id, from, to }) => {
            assert_eq!((relation_id.as_str(), from.as_str(), to.as_str()), ("r", "a", "x"));
        },
        _ => panic!("expected an unevidenced inference"),
    }
}

#[test]
fn tokens_of_an_undeclared_scale_are_all_unknown() {
    let doc = document(
        "t",
        two_axes(),
        vec![],
        vec![relation("r", "d1", "d2", RelationType::Supports, "qfd", vec![cell("a", "x", "imaginary")])],
        vec![],
    );
    match Model::load(doc) {
        Err(ValidationError::UnknownObservationToken { relation_id, tokens }) => {
            assert_eq!(relation_id, "r");
            assert_eq!(tokens, vec!["imaginary".to_string()]);
        },
        _ => panic!("a token on an undeclared scale is in no declared vocabulary"),
    }
}

#[test]
fn chain_over_different_scales_is_a_scale_mismatch() {
    let dims = vec![
        dimension("d1", 0, vec![member("a")]),
        dimension("d2", 1, vec![member("m")]),
        dimension("d3", 2, vec![member("z")]),
    ];
    let s9 = scale("s9", vec![level("strong", 9.0, 0)]);
    let s100 = scale("s100", vec![level("strong", 100.0, 0)]);
    let doc = document(
        "t",
        dims,
        vec![s9, s100],
        vec![
            relation("r1", "d1", "d2", RelationType::Supports, "s9", vec![]),
            relation("r2", "d2", "d3", RelationType::Supports, "s100", vec![]),
        ],
        vec![Contraction {
            id: s("c1"),
            chain: vec![s("r1"), s("r2")],
            weight_combination: WeightCombination::Product,
            weight_by_source_members: false,
        }],
    );
    match Model::load(doc) {
        Err(ValidationError::ScaleMismatch { chain_id, detail }) => {
            assert_eq!(chain_id, "c1");
            assert_eq!(detail, "relation 'r1' scale='s9' but next relation 'r2' scale='s100' — scales must match");
        },
        _ => panic!("a chain over different scales must be rejected"),
    }
}

#[test]
fn chain_with_unshared_axis_is_a_scale_mismatch() {
    let doc = document(
        "t",
        two_axes(),
        vec![qfd()],
        vec![
            relation("r1", "d1", "d2", RelationType::Supports, "qfd", vec![]),
            relation("r2", "d1", "d2", RelationType::Supports, "qfd", vec![]),
        ],
        vec![Contraction {
            id: s("c1"),
            chain: vec![s("r1"), s("r2")],
            weight_combination: WeightCombination::Min,
            weight_by_source_members: false,
        }],
    );
    match Model::load(doc) {
        Err(ValidationError::ScaleMismatch { chain_id, detail }) => {
            assert_eq!(chain_id, "c1");
            assert_eq!(
                detail,
                "relation 'r1' to='d2' but next relation 'r2' from='d1' — shared axis must match"
            );
        },
        _ => panic!("expected a scale mismatch"),
    }
}

#[test]
fn contraction_checks_come_before_cell_checks() {
    let doc = document(
        "t",
        two_axes(),
        vec![qfd()],
        vec![relation("r1", "d1", "d2", RelationType::Supports, "qfd", vec![cell("a", "NOPE", "strong")])],
        vec![Contraction {
            id: s("c1"),
            chain: vec![s("r1"), s("r1")],
            weight_combination: WeightCombination::Product,
            weight_by_source_members: false,
        }],
    );
    assert!(matches!(Model::load(doc), Err(ValidationError::CyclicContraction { .. })));
}

#[test]
fn member_count_counts_distinct_ids_and_zero_for_unknown() {
    let d = dimension("d", 0, vec![member("a"), member("b"), member("a")]);
    let model = Model::load(document("t", vec![d], vec![], vec![], vec![])).ok().expect("loads");
    assert_eq!(model.member_count("d"), 2);
    assert_eq!(model.member_count("nope"), 0);
}

#[test]
fn dimension_of_finds_the_owning_dimension() {
    let model = load_example();
    assert_eq!(model.dimension_of("char_encryption"), Some("dim_char"));
    assert_eq!(model.dimension_of("nobody"), None);
}

#[test]
fn trace_is_symmetric_on_the_example() {
    let model = load_example();
    let out_hops = model.trace("char_encryption");
    assert!(out_hops.iter().any(|h| h.direction == TraceDirection::Out
        && h.relation == "rel_char_exposes_fail"
        && h.member == "fail_data_breach"
        && h.dimension == "dim_fail"
        && h.relation_type == "exposes"));
    let in_hops = model.trace("fail_data_breach");
    assert!(in_hops.iter().any(|h| h.direction == TraceDirection::In
        && h.relation == "rel_char_exposes_fail"
        && h.member == "char_encryption"
        && h.dimension == "dim_char"));
}

#[test]
fn trace_orders_by_relation_then_member() {
    let hops = load_example().trace("char_encryption");
    let keys: Vec<(String, String)> = hops.iter().map(|h| (h.relation.clone(), h.member.clone())).collect();
    assert_eq!(
        keys,
        vec![
            ("rel_char_exposes_fail".to_string(), "fail_data_breach".to_string()),
            ("rel_char_tradeoff".to_string(), "char_response_latency".to_string()),
            ("rel_req_char".to_string(), "req_secure_payment".to_string()),
        ]
    );
    assert_eq!(hops[0].observations, vec!["strong".to_string()]);
}

#[test]
fn self_relation_traces_both_ways() {
    let model = tiny_self();
    let hops = model.trace("a");
    let dirs: Vec<TraceDirection> = hops.iter().map(|h| h.direction).collect();
    assert_eq!(dirs, vec![TraceDirection::Out, TraceDirection::In]);
}

fn tiny_self() -> Model {
    let d = dimension("d", 0, vec![member("a")]);
    let r = relation("loop", "d", "d", RelationType::Supports, "qfd", vec![cell("a", "a", "strong")]);
    Model::load(document("t", vec![d], vec![qfd()], vec![r], vec![])).ok().expect("loads")
}

#[test]
fn orphan_iff_untraced_on_concrete_values() {
    let model = tiny(vec![cell("a", "x", "strong")]);
    assert!(model.trace("b").is_empty());
    assert!(!model.trace("a").is_empty());
    assert!(model.orphans().iter().all(|o| o.member != "a"));
}

#[test]
fn deprecated_relations_and_members_are_excluded() {
    let d1 = dimension("d1", 0, vec![member("a"), deprecated("old")]);
    let d2 = dimension("d2", 1, vec![member("x")]);
    let gone = Relation {
        status: Some(LifecycleStatus::Deprecated),
        ..relation("gone", "d1", "d2", RelationType::Supports, "qfd", vec![cell("a", "x", "strong")])
    };
    let model = Model::load(document("t", vec![d1, d2], vec![qfd()], vec![gone], vec![])).ok().expect("loads");
    assert!(model.trace("a").is_empty());
    assert!(model.coverage().is_empty());
    let orphans: Vec<String> = model.orphans().into_iter().map(|o| o.member).collect();
    assert_eq!(orphans, vec!["a".to_string(), "x".to_string()]);
}

#[test]
fn coverage_lists_both_axes_in_order() {
    let model = tiny(vec![cell("a", "x", "strong")]);
    let cov = model.coverage();
    assert_eq!(cov.len(), 2);
    assert_eq!((cov[0].relation.as_str(), cov[0].axis.as_str(), cov[0].dimension.as_str()), ("r1", "from", "d1"));
    assert_eq!(cov[0].covered, vec!["a".to_string()]);
    assert_eq!((cov[1].axis.as_str(), cov[1].dimension.as_str()), ("to", "d2"));
    assert_eq!(cov[1].covered, vec!["x".to_string()]);
    assert!(cov[1].uncovered.is_empty());
}

#[test]
fn describe_renders_types_and_policies() {
    let d = tiny(vec![]).describe();
    assert_eq!(d.model_id, "tiny");
    assert_eq!(d.relations[0].relation_type, "supports");
    assert_eq!(d.relations[0].coverage_policy, "every_from");
    assert_eq!(d.dimensions[0].members, 2);
    assert_eq!(d.scales, vec!["qfd".to_string(), "importance".to_string()]);
    assert!(d.contractions.is_empty());
}

#[test]
fn slice_filters_on_both_ends() {
    let model = load_example();
    assert_eq!(model.slice("rel_req_char", None, None).expect("exists").len(), 4);
    let cells = model
        .slice("rel_req_char", Some("req_secure_payment"), Some("char_encryption"))
        .expect("exists");
    assert_eq!(cells.len(), 1);
    assert_eq!(cells[0].to, "char_encryption");
    assert_eq!(model.slice("rel_req_char", None, Some("nobody")).expect("exists").len(), 0);
}

#[test]
fn weighted_axis_accepts_resolvable_weights() {
    let model = load_example();
    assert!(model.check_weighted_axis("rel_req_char", Axis::From).is_ok());
    assert!(model.check_weighted_axis("rel_char_exposes_fail", Axis::To).is_ok());
    match model.check_weighted_axis("rel_req_char", Axis::To) {
        Err(ValidationError::UnweightedMemberForWeightedAnalysis { relation_id, members }) => {
            assert_eq!(relation_id, "rel_req_char");
            assert_eq!(members.len(), 4);
        },
        _ => panic!("characteristics carry no weights"),
    }
    match model.check_weighted_axis("rel_nope", Axis::From) {
        Err(ValidationError::UnweightedMemberForWeightedAnalysis { members, .. }) => assert!(members.is_empty()),
        _ => panic!("unknown relation"),
    }
}

#[test]
fn weights_resolve_from_numbers_or_weight_scale_tokens() {
    let model = load_example();
    let dims = model.dimensions();
    let req = &dims[0];
    assert_eq!(model.resolved_weight(req, &req.members[0]), Some(9.0f64.to_bits()));
    assert_eq!(model.resolved_weight(req, &req.members[2]), Some(3.0f64.to_bits()));
    let fail = &dims[2];
    assert_eq!(model.resolved_weight(fail, &fail.members[0]), Some(9.0f64.to_bits()));
    let chars = &dims[1];
    assert_eq!(model.resolved_weight(chars, &chars.members[0]), None);
    // A token that is no level of the weight scale does not resolve.
    assert_eq!(model.resolved_weight(req, &weighted("r", "extreme")), None);
}

#[test]
fn contraction_plan_resolves_the_chain() {
    let model = load_example();
    let plan = model.contraction_plan("ctr_req_failure_exposure").expect("declared");
    let ids: Vec<&str> = plan.relations.iter().map(|r| r.id.as_str()).collect();
    assert_eq!(ids, vec!["rel_req_char", "rel_char_exposes_fail"]);
    assert!(model.contraction_plan("nope").is_none());
}

#[test]
fn forces_carry_the_valence_of_their_relation() {
    let model = load_example();
    let forces = model.forces();
    // rel_req_char supports (4 cells), exposes opposes (3), the trade-off opposes (1).
    assert_eq!(forces.len(), 8);
    assert!(!forces[0].opposes);
    assert!(forces[4].opposes);
    assert_eq!(forces[7].relation.id, "rel_char_tradeoff");
}

#[test]
fn structural_relations_exert_no_force() {
    let d = dimension("d", 0, vec![member("a"), member("b")]);
    let r = relation("dep", "d", "d", RelationType::DependsOn, "qfd", vec![cell("a", "b", "strong")]);
    let model = Model::load(document("t", vec![d], vec![qfd()], vec![r], vec![])).ok().expect("loads");
    assert!(model.forces().is_empty());
}

#[test]
fn valence_of_every_relation_type() {
    for rt in [
        RelationType::Satisfies,
        RelationType::Supports,
        RelationType::Implements,
        RelationType::Verifies,
        RelationType::Covers,
        RelationType::Mitigates,
    ] {
        assert_eq!(relation_opposes(&rt), Some(false));
    }
    for rt in [RelationType::Undermines, RelationType::Opposes, RelationType::Blocks, RelationType::Exposes] {
        assert_eq!(relation_opposes(&rt), Some(true));
    }
    for rt in [RelationType::DerivesFrom, RelationType::Constrains] {
        assert_eq!(relation_opposes(&rt), None);
    }
}

#[test]
fn source_refs_are_listed_in_report_order() {
    let model = load_example();
    let paths: Vec<String> = model.source_refs().iter().map(|r| r.source_ref.clone().unwrap_or_default()).collect();
    assert_eq!(
        paths,
        vec![
            "fmeca/criticality.csv#fail_data_breach".to_string(),
            "fmeca/criticality.csv#fail_double_charge".to_string(),
            "fmeca/criticality.csv#fail_latency_spike".to_string(),
        ]
    );
}

#[test]
fn travel_mug_sample_has_three_dimensions() {
    let needs = dimension("dim_need", 0, vec![member("need_keeps_hot"), member("need_no_spill"), member("need_easy_clean")]);
    let parts = dimension("dim_part", 1, vec![member("part_vacuum_wall"), member("part_lid_seal"), member("part_wide_mouth")]);
    let fails = dimension("dim_fail", 2, vec![member("fail_seal_leak"), member("fail_heat_loss")]);
    let need_part = relation(
        "rel_need_part",
        "dim_need",
        "dim_part",
        RelationType::Supports,
        "qfd",
        vec![
            cell("need_keeps_hot", "part_vacuum_wall", "strong"),
            cell("need_no_spill", "part_lid_seal", "strong"),
            cell("need_easy_clean", "part_wide_mouth", "strong"),
        ],
    );
    let part_fail = relation(
        "rel_part_exposes_fail",
        "dim_part",
        "dim_fail",
        RelationType::Exposes,
        "qfd",
        vec![cell("part_lid_seal", "fail_seal_leak", "strong"), cell("part_vacuum_wall", "fail_heat_loss", "strong")],
    );
    let ctr = Contraction {
        id: s("ctr_need_failure_exposure"),
        chain: vec![s("rel_need_part"), s("rel_part_exposes_fail")],
        weight_combination: WeightCombination::Product,
        weight_by_source_members: false,
    };
    let doc = document("travel-mug", vec![needs, parts, fails], vec![qfd()], vec![need_part, part_fail], vec![ctr]);
    let model = Model::load(doc).ok().expect("travel-mug sample model must load");
    assert_eq!(model.dimensions().len(), 3);
}

#[test]
fn covered_members_are_never_orphans() {
    let model = tiny(vec![cell("a", "x", "strong")]);
    let orphans: Vec<String> = model.orphans().into_iter().map(|o| o.member).collect();
    for axis in model.coverage() {
        for m in &axis.covered {
            assert!(!orphans.contains(m));
            assert!(!axis.uncovered.contains(m));
        }
    }
}

#[test]
fn the_weight_check_and_the_weight_resolution_agree() {
    let d1 = Dimension {
        weight_scale: Some(s("importance")),
        ..dimension("d1", 0, vec![weighted("a", "high"), weighted("b", "extreme")])
    };
    let d2 = dimension("d2", 1, vec![member("x")]);
    let importance = scale("importance", vec![level("high", 9.0, 0)]);
    let r1 = relation("r1", "d1", "d2", RelationType::Supports, "qfd", vec![cell("a", "x", "strong")]);
    let model = Model::load(document("t", vec![d1, d2], vec![qfd(), importance], vec![r1], vec![])).ok().expect("loads");
    let d = &model.dimensions()[0];
    assert!(model.resolved_weight(d, &d.members[0]).is_some());
    assert!(model.resolved_weight(d, &d.members[1]).is_none());
    match model.check_weighted_axis("r1", Axis::From) {
        Err(ValidationError::UnweightedMemberForWeightedAnalysis { members, .. }) => assert_eq!(members, vec!["b".to_string()]),
        _ => panic!("b carries an unknown weight token"),
    }
}

#[test]
fn every_cell_of_a_loaded_model_resolves() {
    let model = load_example();
    for r in model.relations() {
        for c in &r.cells {
            assert!(model.dimension_of(&c.from).is_some());
            assert!(model.dimension_of(&c.to).is_some());
        }
    }
}

#[test]
fn orphans_are_reported_through_findings() {
    let model = tiny(vec![cell("a", "x", "strong")]);
    let findings = model.findings(&vec![]);
    let orphan = findings.iter().find(|f| f.kind == FindingKind::Orphan).expect("b is an orphan");
    assert_eq!(orphan.members, vec!["b".to_string()]);
    assert_eq!(orphan.severity, Severity::Warn);
    assert_eq!(orphan.explanation, "member 'b' of dimension 'd1' appears in no cell");
}

#[test]
fn uncovered_members_on_a_required_axis_are_violations() {
    // every_from: b has no cell on the from axis; the to axis is not required.
    let model = tiny(vec![cell("a", "x", "strong")]);
    let findings = model.findings(&vec![]);
    let kinds: Vec<FindingKind> = findings.iter().map(|f| f.kind).collect();
    assert_eq!(kinds, vec![FindingKind::Orphan, FindingKind::Uncovered]);
    let u = &findings[1];
    assert_eq!(u.severity, Severity::Block);
    assert_eq!(u.relation.as_deref(), Some("r1"));
    assert_eq!(
        u.explanation,
        "member 'b' of dimension 'd1' has no cell on the from axis of relation 'r1', which its coverage policy requires"
    );
}

#[test]
fn a_fully_related_model_has_no_findings() {
    let model = tiny(vec![cell("a", "x", "strong"), cell("b", "x", "strong")]);
    assert!(model.findings(&vec![]).is_empty());
}

#[test]
fn deprecated_elements_are_left_out_of_findings() {
    let hashed = || SourceRef { system: Some(s("fmeca")), source_ref: Some(s("gone.csv")), content_hash: Some(s("sip13:1")) };
    let old = Member { status: Some(LifecycleStatus::Deprecated), source_ref: Some(hashed()), ..member("old") };
    let live = Member { source_ref: Some(hashed()), ..member("a") };
    let d1 = dimension("d1", 0, vec![live, old]);
    let d2 = dimension("d2", 1, vec![member("x")]);
    let cited = Observation { source_ref: Some(hashed()), ..obs("strong") };
    let gone = Relation {
        status: Some(LifecycleStatus::Deprecated),
        ..relation("gone", "d1", "d2", RelationType::Supports, "qfd", vec![Cell { from: s("a"), to: s("x"), observations: vec![cited] }])
    };
    let live_rel = relation("r", "d1", "d2", RelationType::Supports, "qfd", vec![cell("a", "x", "strong")]);
    let model = Model::load(document("t", vec![d1, d2], vec![qfd()], vec![gone, live_rel], vec![])).ok().expect("loads");
    // Only the live member's reference is re-checked; the deprecated member is no orphan.
    assert_eq!(model.source_refs().len(), 1);
    let findings = model.findings(&vec![None]);
    assert_eq!(findings.len(), 1);
    assert_eq!(findings[0].kind, FindingKind::StaleReference);
    assert_eq!(findings[0].path, vec!["gone.csv".to_string()]);
}
