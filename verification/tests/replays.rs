use cleromancy::fixtures::a0_fixture;
use cleromancy::enrichment::SealedEnrichment;
use cleromancy::reading::{
    derived_draw, make_receipt, DerivedSelection, EnrichedTerms, EnrichmentQualification,
    QualifiedField, ReadingEngine, ReadingError, SelectionProof, ENRICHMENT_QUALIFICATION_SCHEMA,
    EXTERNAL_QUALIFICATION_ALGORITHM,
};

fn none() -> EnrichedTerms {
    EnrichedTerms { candidate_terms: vec![], weight_additions: vec![] }
}

fn mismatch(field: &str) -> Result<(), ReadingError> {
    Err(ReadingError::ReceiptMismatch(field.to_string()))
}

#[test]
fn a_made_receipt_replays_in_every_mode() {
    let (context, field) = a0_fixture();
    let n = field.candidates.len();
    let q = QualifiedField { weights: vec![1; n], total: n as u64 };
    let calculated = make_receipt(&context, &field, &q, 0, SelectionProof::calculated(), None);
    assert_eq!(ReadingEngine::replay(&context, &field, &q, &none(), 0, &calculated), Ok(()));
    let cast = make_receipt(&context, &field, &q, 1, SelectionProof::cast(1, "nonce".to_string()), None);
    assert_eq!(ReadingEngine::replay(&context, &field, &q, &none(), 1, &cast), Ok(()));
    let selection = DerivedSelection::new("2026-08-13", "daily").unwrap();
    let draw = derived_draw(&context, &field, &q, &selection).unwrap();
    let index = draw.sample as usize;
    let derived = make_receipt(
        &context,
        &field,
        &q,
        index,
        SelectionProof::derived(draw.sample, draw.digest.clone(), selection),
        None,
    );
    assert_eq!(ReadingEngine::replay(&context, &field, &q, &none(), index, &derived), Ok(()));
}

#[test]
fn a_tampered_receipt_names_what_does_not_replay() {
    let (context, field) = a0_fixture();
    let n = field.candidates.len();
    let q = QualifiedField { weights: vec![1; n], total: n as u64 };
    let cast = make_receipt(&context, &field, &q, 1, SelectionProof::cast(1, "nonce".to_string()), None);
    let mut no_nonce = cast.clone();
    no_nonce.event_nonce = None;
    assert_eq!(ReadingEngine::replay(&context, &field, &q, &none(), 1, &no_nonce), mismatch("cast nonce"));
    assert_eq!(ReadingEngine::replay(&context, &field, &q, &none(), 0, &cast), mismatch("selected index"));
    let mut other_context = cast.clone();
    other_context.context_digest = "0".repeat(64);
    assert_eq!(ReadingEngine::replay(&context, &field, &q, &none(), 1, &other_context), mismatch("context digest"));
    let mut renamed = cast.clone();
    renamed.algorithm = "other".to_string();
    assert_eq!(ReadingEngine::replay(&context, &field, &q, &none(), 1, &renamed), mismatch("algorithm or schema"));
    let heavier = QualifiedField { weights: vec![2; n], total: 2 * n as u64 };
    assert_eq!(ReadingEngine::replay(&context, &field, &heavier, &none(), 1, &cast), mismatch("qualified weights"));
    let selection = DerivedSelection::new("2026-08-13", "daily").unwrap();
    let draw = derived_draw(&context, &field, &q, &selection).unwrap();
    let index = draw.sample as usize;
    let mut derived = make_receipt(
        &context,
        &field,
        &q,
        index,
        SelectionProof::derived(draw.sample, draw.digest.clone(), selection),
        None,
    );
    derived.derivation_digest = Some("0".repeat(64));
    assert_eq!(ReadingEngine::replay(&context, &field, &q, &none(), index, &derived), mismatch("derived digest"));
}

#[test]
fn an_enriched_receipt_replays_its_qualification() {
    let (context, field) = a0_fixture();
    let n = field.candidates.len();
    let q = QualifiedField { weights: vec![1; n], total: n as u64 };
    let mut receipt = make_receipt(&context, &field, &q, 0, SelectionProof::cast(0, "nonce".to_string()), None);
    let mut qualification = EnrichmentQualification {
        schema: "other".to_string(),
        algorithm: EXTERNAL_QUALIFICATION_ALGORITHM.to_string(),
        evidence: SealedEnrichment {
            schema: "forged".to_string(),
            algorithm: "a".to_string(),
            context_digest: context.digest(),
            endpoint_label: "e".to_string(),
            projection_label: "p".to_string(),
            session: "s".to_string(),
            evidence_digest: "d".to_string(),
            sources: vec![],
        },
        report_digest: "r".to_string(),
        candidate_terms: vec![],
        weight_additions: vec![],
    };
    receipt.enrichment = Some(qualification.clone());
    assert_eq!(
        ReadingEngine::replay(&context, &field, &q, &none(), 0, &receipt),
        mismatch("enrichment qualification schema")
    );
    qualification.schema = ENRICHMENT_QUALIFICATION_SCHEMA.to_string();
    qualification.algorithm = "other".to_string();
    receipt.enrichment = Some(qualification.clone());
    assert_eq!(
        ReadingEngine::replay(&context, &field, &q, &none(), 0, &receipt),
        mismatch("enrichment qualification algorithm")
    );
    qualification.algorithm = EXTERNAL_QUALIFICATION_ALGORITHM.to_string();
    receipt.enrichment = Some(qualification);
    assert_eq!(
        ReadingEngine::replay(&context, &field, &q, &none(), 0, &receipt),
        Err(ReadingError::InvalidEnrichment(
            "sealed external evidence is invalid: schema does not match its contents".to_string()
        ))
    );
}

#[test]
fn a_receipt_for_another_context_is_refused_first() {
    let (context, field) = a0_fixture();
    let q = QualifiedField { weights: vec![], total: 0 };
    let mut receipt = make_receipt(&context, &field, &q, 0, SelectionProof::calculated(), None);
    receipt.context_digest = "0".repeat(64);
    assert_eq!(ReadingEngine::replay(&context, &field, &q, &none(), 99, &receipt), mismatch("context digest"));
}
