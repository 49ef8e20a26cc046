use cleromancy::context::{Candidate, ContextSnapshot, Field, CONTEXTUAL_WEIGHT_RULE, UNIFORM_RULE};
use cleromancy::reading::{
    check, receipt_algorithm, receipt_schema, require_calculable, DerivedSelection, Reading,
    ReadingError, Receipt, SelectionMode, SelectionProof, DERIVED_SELECTION_ALGORITHM,
    DERIVED_SELECTION_SCHEMA,
};
use cleromancy::session::{ReadingPlacement, ReadingSession};
use cleromancy::summary::summarize;

fn hex(text: &str) -> String {
    blake3::hash(text.as_bytes()).to_hex().to_string()
}

fn reading(id: &str, title: &str, mode: SelectionMode) -> Reading {
    Reading {
        schema: "cleromancy.reading/v1".to_string(),
        id: id.to_string(),
        system: "tarot".to_string(),
        candidate_id: format!("c-{id}"),
        title: title.to_string(),
        interpretation: "i".to_string(),
        receipt: Receipt {
            schema: "cleromancy.receipt/v1".to_string(),
            mode,
            algorithm: "a".to_string(),
            context_digest: "c".to_string(),
            field_digest: "f".to_string(),
            enrichment: None,
            derivation: None,
            derivation_digest: None,
            qualified_weights: vec![1],
            total_weight: 1,
            sample: None,
            event_nonce: None,
            selected_index: 0,
            selected_candidate: format!("c-{id}"),
        },
    }
}

#[test]
fn context_facts_are_a_sorted_map_and_tags_a_sorted_set() {
    let ctx = ContextSnapshot::new("Label", "schema")
        .with_fact("b", "2")
        .with_fact("a", "1")
        .with_fact("b", "3")
        .with_tags(vec!["z".to_string(), "m".to_string(), "z".to_string()]);
    let facts: Vec<(&str, &str)> = ctx.facts.iter().map(|(n, v)| (n.as_str(), v.as_str())).collect();
    assert_eq!(facts, vec![("a", "1"), ("b", "3")]);
    assert_eq!(ctx.tags, vec!["m".to_string(), "z".to_string()]);
    assert_eq!(ctx.fact("b"), Some("3".to_string()));
    assert_eq!(ctx.fact("c"), None);
}

#[test]
fn context_digest_is_blake3_of_canonical_json() {
    let ctx = ContextSnapshot::new("Morning \"tea\"", "manual")
        .with_fact("question", "Why?\n")
        .with_tags(vec!["calm".to_string()]);
    let text = "{\"label\":\"Morning \\\"tea\\\"\",\"schema\":\"manual\",\"facts\":{\"question\":\"Why?\\n\"},\"tags\":[\"calm\"]}";
    assert_eq!(ctx.digest(), hex(text));
    let empty = ContextSnapshot::new("", "");
    assert_eq!(empty.digest(), hex("{\"label\":\"\",\"schema\":\"\",\"facts\":{},\"tags\":[]}"));
}

#[test]
fn field_digest_is_blake3_of_canonical_json() {
    let field = Field::new(
        "tarot",
        CONTEXTUAL_WEIGHT_RULE,
        vec![
            Candidate::new("star", "The Star", "Hope.").with_tags(vec!["hope".to_string()]).with_base_weight(3),
            Candidate::new("moon", "The Moon", "Doubt."),
        ],
    );
    let text = [
        "{\"system\":\"tarot\",\"rules\":\"contextual-weight\",\"candidates\":[",
        "{\"id\":\"star\",\"title\":\"The Star\",\"interpretation\":\"Hope.\",\"tags\":[\"hope\"],\"base_weight\":3},",
        "{\"id\":\"moon\",\"title\":\"The Moon\",\"interpretation\":\"Doubt.\",\"tags\":[],\"base_weight\":1}]}"
    ].concat();
    assert_eq!(field.digest(), hex(&text));
}

#[test]
fn derived_selections_bound_their_seed_and_domain() {
    let s = DerivedSelection::new("seed", "domain").unwrap();
    assert_eq!(s.schema, DERIVED_SELECTION_SCHEMA);
    assert_eq!(s.algorithm, DERIVED_SELECTION_ALGORITHM);
    let invalid = |m: &str| Err(ReadingError::InvalidDerivation(m.to_string()));
    assert_eq!(DerivedSelection::new(" ", "d"), invalid("seed must contain 1 to 4096 bytes"));
    assert_eq!(DerivedSelection::new(&"s".repeat(4097), "d"), invalid("seed must contain 1 to 4096 bytes"));
    assert_eq!(DerivedSelection::new("s", ""), invalid("domain must contain 1 to 256 bytes"));
    assert_eq!(DerivedSelection::new("s", &"d".repeat(257)), invalid("domain must contain 1 to 256 bytes"));
    let mut t = s.clone();
    t.schema = "x".to_string();
    assert_eq!(t.validate(), Err(ReadingError::InvalidDerivation("selection schema does not match the contract".to_string())));
    let mut t = s.clone();
    t.algorithm = "x".to_string();
    assert_eq!(t.validate(), Err(ReadingError::InvalidDerivation("selection algorithm does not match the contract".to_string())));
}

#[test]
fn receipt_schema_and_algorithm_tables() {
    assert_eq!(receipt_schema(false, false), "cleromancy.receipt/v1");
    assert_eq!(receipt_schema(true, false), "cleromancy.receipt/v2");
    assert_eq!(receipt_schema(false, true), "cleromancy.receipt/v3");
    assert_eq!(receipt_schema(true, true), "cleromancy.receipt/v4");
    assert_eq!(receipt_algorithm(CONTEXTUAL_WEIGHT_RULE, SelectionMode::Calculated, false), "contextual-weight/max/v1");
    assert_eq!(receipt_algorithm(UNIFORM_RULE, SelectionMode::Derived, false), "derived-blake3/rejection-u64+uniform/v1");
    assert_eq!(
        receipt_algorithm("contextual-weight+external-term-share", SelectionMode::Cast, true),
        "os-csprng/rejection-u64+contextual-weight+external-term-share/v1"
    );
}

#[test]
fn cast_only_rules_refuse_calculation() {
    assert_eq!(require_calculable(UNIFORM_RULE), Err(ReadingError::QualificationRequiresCast("uniform".to_string())));
    assert_eq!(require_calculable("uniform-die"), Err(ReadingError::QualificationRequiresCast("uniform-die".to_string())));
    assert_eq!(require_calculable(CONTEXTUAL_WEIGHT_RULE), Ok(()));
    assert_eq!(check(true, "x"), Ok(()));
    assert_eq!(check(false, "total"), Err(ReadingError::ReceiptMismatch("total".to_string())));
}

#[test]
fn selection_proofs_disclose_their_mode() {
    let c = SelectionProof::calculated();
    assert_eq!(c.mode, SelectionMode::Calculated);
    assert!(c.sample.is_none() && c.event_nonce.is_none());
    let cast = SelectionProof::cast(7, "nonce".to_string());
    assert_eq!(cast.sample, Some(7));
    assert_eq!(cast.event_nonce.as_deref(), Some("nonce"));
    let d = SelectionProof::derived(3, "dig".to_string(), DerivedSelection::new("s", "d").unwrap());
    assert_eq!(d.mode, SelectionMode::Derived);
    assert_eq!(d.derivation_digest.as_deref(), Some("dig"));
}

#[test]
fn summaries_follow_placements_and_skip_missing_readings() {
    let ctx = ContextSnapshot::new("Evening", "manual")
        .with_fact("question", "What next?")
        .with_tags(vec!["work".to_string()]);
    let session = ReadingSession {
        id: "s".to_string(),
        created_at_ms: 42,
        context_digest: "cd".to_string(),
        field_digest: "fd".to_string(),
        placements: vec![
            ReadingPlacement { position: "foundation".to_string(), reading_id: "r2".to_string() },
            ReadingPlacement { position: "tension".to_string(), reading_id: "gone".to_string() },
            ReadingPlacement { position: "next_step".to_string(), reading_id: "r1".to_string() },
        ],
    };
    let readings = vec![reading("r1", "One", SelectionMode::Derived), reading("r2", "Two", SelectionMode::Cast)];
    let s = summarize(&session, &ctx, &readings);
    assert_eq!(s.session_id, "s");
    assert_eq!(s.created_at_ms, 42);
    assert_eq!(s.context_label, "Evening");
    assert_eq!(s.question.as_deref(), Some("What next?"));
    assert_eq!(s.tags, vec!["work".to_string()]);
    let rows: Vec<(&str, &str)> = s.placements.iter().map(|p| (p.position.as_str(), p.title.as_str())).collect();
    assert_eq!(rows, vec![("foundation", "Two"), ("next_step", "One")]);
    assert_eq!(s.placement_count(), 2);
    assert_eq!(s.modes(), vec![SelectionMode::Cast, SelectionMode::Derived]);
}
