use cleromancy::context::ContextSnapshot;
use cleromancy::enrichment::{
    tokens, CardPresentation, EnrichmentError, EnrichmentValue, ExternalProjection, PortableCard,
    CORRELATION_ALGORITHM, EVIDENCE_SCHEMA, REPORT_SCHEMA,
};

fn hex(text: &str) -> String {
    blake3::hash(text.as_bytes()).to_hex().to_string()
}

fn card(label: &str, title: &str, badges: &[&str], values: &[(&str, &str)]) -> CardPresentation {
    CardPresentation {
        label: label.to_string(),
        card: Some(PortableCard {
            title: title.to_string(),
            badges: badges.iter().map(|b| b.to_string()).collect(),
            values: values
                .iter()
                .map(|(l, v)| EnrichmentValue { label: l.to_string(), value: v.to_string() })
                .collect(),
        }),
    }
}

fn context() -> ContextSnapshot {
    ContextSnapshot::new("Garden planning", "manual")
        .with_fact("question", "When should roses be pruned?")
        .with_tags(vec!["spring".to_string()])
}

fn projection() -> ExternalProjection {
    ExternalProjection {
        endpoint_label: "Turnstone".to_string(),
        projection_label: "Notes".to_string(),
        session: "s-1".to_string(),
        presentations: vec![
            card("Roses", "Pruning roses", &["spring"], &[("Month", "March")]),
            card("Bread", "Sourdough", &[], &[]),
            card("Almanac", "Garden almanac", &["weather"], &[("when", "early spring")]),
        ],
    }
}

#[test]
fn terms_are_lowercased_alphanumeric_runs_of_three_or_more() {
    assert_eq!(tokens("Hello, wide-world! ab HELLO"), vec!["hello", "wide", "world"]);
    assert_eq!(tokens(""), Vec::<String>::new());
    assert_eq!(tokens("Ünïcode 東京都 x1y"), vec!["x1y", "ünïcode", "東京都"]);
}

#[test]
fn sealed_evidence_verifies_and_reports_shared_terms() {
    let ctx = context();
    let evidence = projection().seal(&ctx).unwrap();
    assert_eq!(evidence.schema, EVIDENCE_SCHEMA);
    assert_eq!(evidence.algorithm, CORRELATION_ALGORITHM);
    assert_eq!(evidence.context_digest, ctx.digest());
    assert_eq!(evidence.sources.len(), 3);
    assert!(evidence.sources.windows(2).all(|w| w[0].digest <= w[1].digest));
    let report = evidence.verify(&ctx).unwrap();
    assert_eq!(report.schema, REPORT_SCHEMA);
    assert_eq!(report.source_cards, 3);
    assert_eq!(report.endpoint_label, "Turnstone");
    assert_eq!(
        report.query_terms,
        vec!["garden", "planning", "pruned", "question", "roses", "should", "spring", "when"]
    );
    let presentations: Vec<&str> = report.matches.iter().map(|m| m.presentation.as_str()).collect();
    assert_eq!(presentations, vec!["Almanac", "Roses"]);
    assert_eq!(report.matches[0].terms, vec!["garden", "spring", "when"]);
    assert_eq!(report.matches[1].terms, vec!["roses", "spring"]);
    assert_eq!(projection().correlate(&ctx).unwrap(), report);
}

#[test]
fn source_digest_binds_the_card_fields() {
    let evidence = ExternalProjection {
        endpoint_label: "e".to_string(),
        projection_label: "p".to_string(),
        session: "s".to_string(),
        presentations: vec![card("P", "T", &["b"], &[("l", "v")])],
    }
    .seal(&context())
    .unwrap();
    let expected = hex("[\"P\",\"T\",[\"b\"],[{\"label\":\"l\",\"value\":\"v\"}]]");
    assert_eq!(evidence.sources[0].digest, expected);
}

#[test]
fn tampered_evidence_is_refused_by_part() {
    let ctx = context();
    let sealed = projection().seal(&ctx).unwrap();
    let message = |e: EnrichmentError| match e {
        EnrichmentError::InvalidEvidence(m) => m,
        other => panic!("unexpected {other:?}"),
    };
    let mut e = sealed.clone();
    e.schema = "x".to_string();
    assert_eq!(message(e.verify(&ctx).unwrap_err()), "schema does not match its contents");
    let mut e = sealed.clone();
    e.algorithm = "x".to_string();
    assert_eq!(message(e.verify(&ctx).unwrap_err()), "algorithm does not match its contents");
    let other = ContextSnapshot::new("Other", "manual");
    assert_eq!(message(sealed.verify(&other).unwrap_err()), "context digest does not match its contents");
    let mut e = sealed.clone();
    e.sources[1].title.push('!');
    assert_eq!(message(e.verify(&ctx).unwrap_err()), "source digest does not match its contents");
    let mut e = sealed.clone();
    e.session = "s-2".to_string();
    assert_eq!(message(e.verify(&ctx).unwrap_err()), "evidence digest does not match its contents");
}

#[test]
fn a_presentation_that_is_not_a_card_cannot_be_sealed() {
    let mut p = projection();
    p.presentations.push(CardPresentation { label: "Picture".to_string(), card: None });
    let error = p.seal(&context()).unwrap_err();
    assert_eq!(
        error,
        EnrichmentError::InvalidEvidence("the mounted representation is not a portable card".to_string())
    );
    assert!(p.correlate(&context()).is_err());
}

#[test]
fn report_digest_is_blake3_of_its_json() {
    let ctx = ContextSnapshot::new("zz", "manual");
    let report = ExternalProjection {
        endpoint_label: "e".to_string(),
        projection_label: "p".to_string(),
        session: "s".to_string(),
        presentations: vec![],
    }
    .correlate(&ctx)
    .unwrap();
    let text = format!(
        "{{\"schema\":\"{REPORT_SCHEMA}\",\"algorithm\":\"{CORRELATION_ALGORITHM}\",\"context_digest\":\"{}\",\"endpoint_label\":\"e\",\"projection_label\":\"p\",\"session\":\"s\",\"query_terms\":[],\"source_cards\":0,\"matches\":[]}}",
        ctx.digest()
    );
    assert_eq!(report.digest(), hex(&text));
}

#[test]
fn a_mount_takes_the_projection_asked_for() {
    assert_eq!(cleromancy::enrichment::choose_projection(0, 0), Err(EnrichmentError::NoProjection));
    assert_eq!(cleromancy::enrichment::choose_projection(2, 1), Ok(1));
    assert_eq!(cleromancy::enrichment::choose_projection(2, 2), Err(EnrichmentError::UnknownProjection(2)));
}
