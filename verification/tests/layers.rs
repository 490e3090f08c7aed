use crossmatrix::merge::{
    open, merge, ConfigRef, CrossMatrixConfiguration, CrossMatrixDimensions, CrossMatrixState,
    DimensionSetRef, OpenError, RelationDeclaration, StateCell,
};
use crossmatrix::store::{join_path, ConfigStore, DimensionsStore, StateStore};
use crossmatrix::{
    Contraction, CoveragePolicy, Dimension, Level, Member, Model, Observation, ProvenanceClass,
    RelationType, ScaleDef, ValidationError, WeightCombination,
};

fn s(t: &str) -> String {
    t.to_string()
}

fn member(id: &str) -> Member {
    Member {
        id: s(id),
        label: None,
        weight_bits: None,
        weight_observation: None,
        source_ref: None,
        status: None,
        superseded_by: None,
    }
}

fn level(observation: &str, value: f64, order: i64) -> Level {
    Level { observation: s(observation), value_bits: value.to_bits(), order, description: None }
}

fn declaration(id: &str, from: &str, to: &str, relation_type: RelationType) -> RelationDeclaration {
    RelationDeclaration {
        id: s(id),
        from: s(from),
        to: s(to),
        relation_type,
        scale: s("qfd"),
        coverage_policy: CoveragePolicy::NotRequired,
        status: None,
        superseded_by: None,
    }
}

/// The methodology layer of the e-commerce House of Quality.
fn hoq_config() -> CrossMatrixConfiguration {
    CrossMatrixConfiguration {
        schema_version: s("0.2.0"),
        config_id: s("cfg_hoq_qfd_fmeca"),
        version: s("1.0.0"),
        aspect: Some(s("hoq")),
        dimension_set_ref: DimensionSetRef { dimension_set_id: s("dims_qfd_fmeca"), version: s("1.0.0") },
        scales: vec![
            ScaleDef {
                id: s("qfd"),
                levels: vec![level("none", 0.0, 0), level("weak", 1.0, 1), level("moderate", 3.0, 2), level("strong", 9.0, 3)],
            },
            ScaleDef { id: s("importance"), levels: vec![level("low", 1.0, 0), level("medium", 3.0, 1), level("high", 9.0, 2)] },
        ],
        relations: vec![
            declaration("rel_req_char", "dim_req", "dim_char", RelationType::Supports),
            declaration("rel_char_exposes_fail", "dim_char", "dim_fail", RelationType::Exposes),
            declaration("rel_char_tradeoff", "dim_char", "dim_char", RelationType::Opposes),
        ],
        contractions: vec![Contraction {
            id: s("ctr_req_failure_exposure"),
            chain: vec![s("rel_req_char"), s("rel_char_exposes_fail")],
            weight_combination: WeightCombination::Product,
            weight_by_source_members: true,
        }],
    }
}

/// The roster layer: requirements, characteristics, failure modes.
fn qfd_fmeca_dimensions() -> CrossMatrixDimensions {
    let dim = |id: &str, order: i64, members: &[&str]| Dimension {
        id: s(id),
        label: None,
        kind: None,
        order,
        weight_scale: None,
        members: members.iter().map(|m| member(m)).collect(),
    };
    CrossMatrixDimensions {
        schema_version: s("0.2.0"),
        dimension_set_id: s("dims_qfd_fmeca"),
        version: s("1.0.0"),
        dimensions: vec![
            dim("dim_req", 0, &["req_fast_checkout", "req_secure_payment", "req_easy_returns"]),
            dim("dim_char", 1, &["char_response_latency", "char_encryption", "char_idempotent_api", "char_return_workflow"]),
            dim("dim_fail", 2, &["fail_data_breach", "fail_double_charge", "fail_latency_spike"]),
        ],
    }
}

fn state_cell(relation_id: &str, from: &str, to: &str, token: &str) -> StateCell {
    StateCell {
        relation_id: s(relation_id),
        from: s(from),
        to: s(to),
        observations: vec![Observation {
            observation: s(token),
            provenance_class: Some(ProvenanceClass::Normative),
            evidence: vec![],
            source_ref: None,
        }],
    }
}

/// The observation layer of the demo project.
fn demo_state() -> CrossMatrixState {
    CrossMatrixState {
        schema_version: s("0.2.0"),
        state_id: s("state_demo"),
        version: Some(s("1.0.0")),
        config_ref: ConfigRef { config_id: s("cfg_hoq_qfd_fmeca"), version: s("1.0.0") },
        cells: vec![
            state_cell("rel_req_char", "req_fast_checkout", "char_response_latency", "strong"),
            state_cell("rel_req_char", "req_secure_payment", "char_encryption", "strong"),
            state_cell("rel_char_exposes_fail", "char_encryption", "fail_data_breach", "strong"),
            state_cell("rel_req_char", "req_secure_payment", "char_idempotent_api", "moderate"),
            state_cell("rel_req_char", "req_easy_returns", "char_return_workflow", "strong"),
            state_cell("rel_char_exposes_fail", "char_idempotent_api", "fail_double_charge", "strong"),
            state_cell("rel_char_exposes_fail", "char_response_latency", "fail_latency_spike", "strong"),
            state_cell("rel_char_tradeoff", "char_encryption", "char_response_latency", "moderate"),
        ],
    }
}

// ── core scenarios ──

#[test]
fn merge_split_examples_yields_loadable_model() {
    let merged = merge(&hoq_config(), &qfd_fmeca_dimensions(), &demo_state()).expect("merge must succeed");
    let model_result = Model::load(merged);
    assert!(model_result.is_ok(), "merged model must load via core");
}

#[test]
fn merge_rejects_config_version_mismatch() {
    let state = CrossMatrixState {
        schema_version: s("0.2.0"),
        state_id: s("state_demo"),
        version: None,
        config_ref: ConfigRef { config_id: s("cfg_hoq_qfd_fmeca"), version: s("2.0.0") },
        cells: vec![],
    };
    let result = merge(&hoq_config(), &qfd_fmeca_dimensions(), &state);
    assert!(result.is_err(), "merge must reject config version mismatch");
}

#[test]
fn merge_rejects_cell_with_unknown_relation_id() {
    let state = CrossMatrixState {
        schema_version: s("0.2.0"),
        state_id: s("state_demo"),
        version: Some(s("1.0.0")),
        config_ref: ConfigRef { config_id: s("cfg_hoq_qfd_fmeca"), version: s("1.0.0") },
        cells: vec![state_cell("rel_nonexistent", "req_fast_checkout", "char_response_latency", "strong")],
    };
    let result = merge(&hoq_config(), &qfd_fmeca_dimensions(), &state);
    assert!(result.is_err(), "merge must reject a cell with an unknown relationId");
}

#[test]
fn open_from_split_examples_yields_expected_dimensions_count() {
    let model = open(&hoq_config(), &qfd_fmeca_dimensions(), &demo_state()).ok().expect("open must succeed");
    assert_eq!(model.dimensions().len(), 3, "opened model must have 3 dimensions from the qfd-fmeca example");
}

// ── further scenarios ──

#[test]
fn merge_reports_the_versions_that_differ() {
    let mut state = demo_state();
    state.config_ref.version = s("2.0.0");
    match merge(&hoq_config(), &qfd_fmeca_dimensions(), &state) {
        Err(e) => assert_eq!(e, "configRef version mismatch: state expects '2.0.0', configuration is '1.0.0'"),
        Ok(_) => panic!("version mismatch must fail"),
    }
}

#[test]
fn merge_reports_the_first_stray_cell() {
    let mut state = demo_state();
    state.cells.push(state_cell("rel_first_stray", "a", "b", "strong"));
    state.cells.push(state_cell("rel_second_stray", "a", "b", "strong"));
    match merge(&hoq_config(), &qfd_fmeca_dimensions(), &state) {
        Err(e) => assert_eq!(e, "state cell references unknown relationId 'rel_first_stray'"),
        Ok(_) => panic!("stray cells must fail"),
    }
}

#[test]
fn merge_places_every_cell_in_its_relation() {
    let doc = merge(&hoq_config(), &qfd_fmeca_dimensions(), &demo_state()).expect("merges");
    assert_eq!(doc.model_id, "state_demo");
    assert_eq!(doc.schema_version, "0.2.0");
    let counts: Vec<(String, usize)> = doc.relations.iter().map(|r| (r.id.clone(), r.cells.len())).collect();
    assert_eq!(
        counts,
        vec![
            ("rel_req_char".to_string(), 4),
            ("rel_char_exposes_fail".to_string(), 3),
            ("rel_char_tradeoff".to_string(), 1),
        ]
    );
    // State order is kept within each relation.
    assert_eq!(doc.relations[0].cells[2].to, "char_idempotent_api");
    assert_eq!(doc.dimensions.len(), 3);
    assert_eq!(doc.scales.len(), 2);
    assert_eq!(doc.contractions[0].id, "ctr_req_failure_exposure");
}

#[test]
fn open_reports_a_merge_failure() {
    let mut state = demo_state();
    state.config_ref.version = s("9.9.9");
    assert!(matches!(open(&hoq_config(), &qfd_fmeca_dimensions(), &state), Err(OpenError::Merge(_))));
}

#[test]
fn open_reports_an_invalid_merge() {
    let mut state = demo_state();
    state.cells.push(state_cell("rel_req_char", "req_fast_checkout", "nobody", "strong"));
    match open(&hoq_config(), &qfd_fmeca_dimensions(), &state) {
        Err(OpenError::Invalid(ValidationError::DanglingCell(v))) => {
            assert_eq!(v, vec!["rel_req_char:req_fast_checkout->nobody".to_string()])
        },
        _ => panic!("a dangling cell must fail validation"),
    }
}

#[test]
fn stores_lay_documents_out_by_id_and_version() {
    let configs = ConfigStore::new(s("/data/cm"));
    assert_eq!(configs.config_dir(), "/data/cm/config");
    assert_eq!(configs.config_path("cfg_hoq_qfd_fmeca", "1.0.0"), "/data/cm/config/cfg_hoq_qfd_fmeca@1.0.0.json");
    let dims = DimensionsStore::new(s("/data/cm/"));
    assert_eq!(dims.dims_path("dims_qfd_fmeca", "1.0.0"), "/data/cm/dimensions/dims_qfd_fmeca@1.0.0.json");
    let states = StateStore::new(s("store"));
    assert_eq!(states.state_dir(), "store/state");
    assert_eq!(states.state_path("state_demo", ""), "store/state/state_demo@.json");
}

#[test]
fn joining_an_absolute_segment_replaces_the_base() {
    assert_eq!(join_path("/a/b", "/etc"), "/etc");
    assert_eq!(join_path("", "x"), "x");
    assert_eq!(join_path("a", "x"), "a/x");
}

#[test]
fn open_rejects_a_dimension_set_of_another_version() {
    let mut dims = qfd_fmeca_dimensions();
    dims.version = s("2.0.0");
    match open(&hoq_config(), &dims, &demo_state()) {
        Err(OpenError::Unresolved(e)) => assert_eq!(
            e,
            "dimensionSetRef mismatch: configuration expects 'dims_qfd_fmeca@1.0.0', dimensions are 'dims_qfd_fmeca@2.0.0'"
        ),
        _ => panic!("a dimension set of another version must not resolve"),
    }
}

#[test]
fn open_rejects_a_state_of_another_configuration() {
    let mut state = demo_state();
    state.config_ref.config_id = s("cfg_other");
    match open(&hoq_config(), &qfd_fmeca_dimensions(), &state) {
        Err(OpenError::Unresolved(e)) => {
            assert_eq!(e, "configRef mismatch: state expects 'cfg_other', configuration is 'cfg_hoq_qfd_fmeca'")
        },
        _ => panic!("a state of another configuration must not resolve"),
    }
}

#[test]
fn open_rejects_a_relation_onto_an_absent_dimension() {
    let mut config = hoq_config();
    config.relations.push(declaration("rel_req_jtbd", "dim_req", "dim_jtbd", RelationType::Supports));
    match open(&config, &qfd_fmeca_dimensions(), &demo_state()) {
        Err(OpenError::Unresolved(e)) => {
            assert_eq!(e, "relation 'rel_req_jtbd' names dimension 'dim_jtbd' absent from the dimensions document")
        },
        _ => panic!("a relation onto an absent dimension must not resolve"),
    }
}
