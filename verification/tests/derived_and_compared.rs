use cleromancy::consultation::{compare_details, ConsultationDetail};
use cleromancy::context::{ContextSnapshot, Field, CONTEXTUAL_WEIGHT_RULE};
use cleromancy::fixtures::{a0_fixture, a1_fixture, a2_fixture};
use cleromancy::reading::{
    derived_draw, make_receipt, receipts_equal, DerivedSelection, QualifiedField, Reading,
    ReadingError, SelectionMode, SelectionProof, DERIVED_SELECTION_ALGORITHM,
};
use cleromancy::session::{ReadingPlacement, ReadingSession};

fn component(hasher: &mut blake3::Hasher, bytes: &[u8]) {
    hasher.update(&(bytes.len() as u64).to_le_bytes());
    hasher.update(bytes);
}

/// The draw computed independently with the incremental hasher.
fn expected_draw(context: &ContextSnapshot, field: &Field, q: &QualifiedField, s: &DerivedSelection) -> (u64, String) {
    let limit = u64::MAX - (u64::MAX % q.total);
    for attempt in 0..u64::MAX {
        let mut h = blake3::Hasher::new();
        h.update(DERIVED_SELECTION_ALGORITHM.as_bytes());
        component(&mut h, s.seed.as_bytes());
        component(&mut h, s.domain.as_bytes());
        component(&mut h, context.digest().as_bytes());
        component(&mut h, field.digest().as_bytes());
        component(&mut h, &(q.weights.len() as u64).to_le_bytes());
        for w in &q.weights {
            component(&mut h, &w.to_le_bytes());
        }
        component(&mut h, &q.total.to_le_bytes());
        component(&mut h, &attempt.to_le_bytes());
        let hash = h.finalize();
        let raw = u64::from_le_bytes(hash.as_bytes()[..8].try_into().unwrap());
        if raw < limit {
            return (raw % q.total, hash.to_hex().to_string());
        }
    }
    unreachable!()
}

#[test]
fn derived_draws_match_the_incremental_hash() {
    let (context, field) = a0_fixture();
    let selection = DerivedSelection::new("2026-08-13", "daily").unwrap();
    for total in [1u64, 3, 7, 1 << 40, u64::MAX] {
        let q = QualifiedField { weights: vec![total], total };
        let draw = derived_draw(&context, &field, &q, &selection).unwrap();
        let (sample, digest) = expected_draw(&context, &field, &q, &selection);
        assert_eq!(draw.sample, sample);
        assert_eq!(draw.digest, digest);
        assert!(draw.sample < total);
    }
    let q = QualifiedField { weights: vec![2, 1, 1], total: 4 };
    let a = derived_draw(&context, &field, &q, &selection).unwrap();
    let b = derived_draw(&context, &field, &q, &selection).unwrap();
    assert_eq!(a, b);
}

#[test]
fn a_derived_draw_needs_weight() {
    let (context, field) = a0_fixture();
    let selection = DerivedSelection::new("s", "d").unwrap();
    let q = QualifiedField { weights: vec![0, 0], total: 0 };
    assert_eq!(derived_draw(&context, &field, &q, &selection), Err(ReadingError::EmptyWeight));
}

#[test]
fn receipts_disclose_the_selection() {
    let (context, field) = a0_fixture();
    let q = QualifiedField { weights: vec![6, 2, 2], total: 10 };
    let r = make_receipt(&context, &field, &q, 0, SelectionProof::calculated(), None);
    assert_eq!(r.schema, "cleromancy.receipt/v1");
    assert_eq!(r.algorithm, "contextual-weight/max/v1");
    assert_eq!(r.context_digest, context.digest());
    assert_eq!(r.field_digest, field.digest());
    assert_eq!(r.qualified_weights, vec![6, 2, 2]);
    assert_eq!(r.total_weight, 10);
    assert_eq!(r.selected_candidate, "threshold");
    let selection = DerivedSelection::new("s", "d").unwrap();
    let d = make_receipt(&context, &field, &q, 2, SelectionProof::derived(4, "x".to_string(), selection), None);
    assert_eq!(d.schema, "cleromancy.receipt/v3");
    assert_eq!(d.algorithm, "derived-blake3/rejection-u64+contextual-weight/v1");
    assert_eq!(d.selected_candidate, "wander");
    assert!(receipts_equal(&r, &r.clone()));
    assert!(!receipts_equal(&r, &d));
    let mut e = r.clone();
    e.qualified_weights[2] = 3;
    assert!(!receipts_equal(&r, &e));
}

#[test]
fn fixtures_hold_their_disclosed_values() {
    let (c0, f0) = a0_fixture();
    assert_eq!(c0.tags, vec!["change", "reflection", "structure"]);
    assert_eq!(c0.fact("season").as_deref(), Some("late summer"));
    assert_eq!(f0.rules, CONTEXTUAL_WEIGHT_RULE);
    assert_eq!(f0.candidates[0].base_weight, 2);
    let (c1, _) = a1_fixture();
    let names: Vec<&str> = c1.facts.iter().map(|(n, _)| n.as_str()).collect();
    assert_eq!(names, vec!["question", "recent_graph", "season"]);
    let (_, f2) = a2_fixture();
    assert_eq!(f2.rules, "contextual-weight+external-term-share");
    assert_eq!(f2.candidates[1].tags, vec!["structure", "reflection", "field", "harmony", "notes", "radio"]);
    assert_eq!(f2.candidates[0].tags, vec!["change", "reflection"]);
}

fn reading(id: &str, candidate: &str, mode: SelectionMode, context: &ContextSnapshot, field: &Field, index: usize) -> Reading {
    let q = QualifiedField { weights: vec![1, 1, 1], total: 3 };
    let proof = match mode {
        SelectionMode::Calculated => SelectionProof::calculated(),
        _ => SelectionProof::cast(index as u64, "n".to_string()),
    };
    Reading {
        schema: "cleromancy.reading/v1".to_string(),
        id: id.to_string(),
        system: field.system.clone(),
        candidate_id: candidate.to_string(),
        title: candidate.to_string(),
        interpretation: String::new(),
        receipt: make_receipt(context, field, &q, index, proof, None),
    }
}

fn detail(id: &str, positions: &[(&str, &str)], readings: Vec<Reading>, context: &ContextSnapshot, field: &Field) -> ConsultationDetail {
    ConsultationDetail {
        session: ReadingSession {
            id: id.to_string(),
            created_at_ms: 0,
            context_digest: context.digest(),
            field_digest: field.digest(),
            placements: positions
                .iter()
                .map(|(p, r)| ReadingPlacement { position: p.to_string(), reading_id: r.to_string() })
                .collect(),
        },
        context: context.clone(),
        field: field.clone(),
        readings,
    }
}

#[test]
fn receipt_comparisons_pair_positions_by_name() {
    let (context, field) = a0_fixture();
    let left = detail(
        "L",
        &[("focus", "r1"), ("tension", "r2")],
        vec![
            reading("r1", "threshold", SelectionMode::Calculated, &context, &field, 0),
            reading("r2", "measure", SelectionMode::Cast, &context, &field, 1),
        ],
        &context,
        &field,
    );
    let right = detail(
        "R",
        &[("focus", "r3"), ("advice", "r4"), ("orphan", "r5")],
        vec![
            reading("r3", "threshold", SelectionMode::Calculated, &context, &field, 0),
            reading("r4", "wander", SelectionMode::Cast, &context, &field, 2),
        ],
        &context,
        &field,
    );
    let c = compare_details(&left, &right);
    assert_eq!(c.left_session_id, "L");
    assert_eq!(c.right_session_id, "R");
    assert!(c.same_context && c.same_field);
    assert!(!c.same_position_names);
    let positions: Vec<&str> = c.entries.iter().map(|e| e.position.as_str()).collect();
    assert_eq!(positions, vec!["advice", "focus", "tension"]);
    let advice = &c.entries[0];
    assert_eq!(advice.left_candidate, None);
    assert_eq!(advice.right_candidate.as_deref(), Some("wander"));
    assert_eq!(advice.same_candidate, None);
    let focus = &c.entries[1];
    assert_eq!(focus.same_candidate, Some(true));
    assert_eq!(focus.same_mode, Some(true));
    assert_eq!(focus.same_receipt, Some(true));
    assert_eq!(focus.left_algorithm.as_deref(), Some("contextual-weight/max/v1"));
    let tension = &c.entries[2];
    assert_eq!(tension.left_mode, Some(SelectionMode::Cast));
    assert_eq!(tension.right_mode, None);
    assert_eq!(tension.same_receipt, None);
    let same = compare_details(&left, &left);
    assert!(same.same_position_names);
    assert!(same.entries.iter().all(|e| e.same_receipt == Some(true)));
}
