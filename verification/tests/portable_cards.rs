use cleromancy::cards::{card_values, CardAspect, CardFactPlacement, CardMember, CardRecord};
use cleromancy::consultation::AstrologyPosition;
use cleromancy::context::{Candidate, ContextSnapshot, Field};
use cleromancy::enrichment::{EnrichmentSource, SealedEnrichment};
use cleromancy::reading::{EnrichmentQualification, Reading, Receipt, SelectionMode};
use cleromancy::session::{ReadingPlacement, ReadingSession};

fn pairs(record: &CardRecord) -> Vec<(String, String)> {
    let tags = vec!["b".to_string(), "a".to_string(), "b".to_string()];
    let card = card_values("Title", "cleromancy://x/1", &tags, record);
    assert_eq!(card.title, "Title");
    assert_eq!(card.badges, vec!["a", "b", "b"]);
    card.values.into_iter().map(|v| (v.label, v.value)).collect()
}

fn p(label: &str, value: &str) -> (String, String) {
    (label.to_string(), value.to_string())
}

fn source(presentation: &str) -> EnrichmentSource {
    EnrichmentSource {
        digest: "d".to_string(),
        presentation: presentation.to_string(),
        title: "t".to_string(),
        badges: vec![],
        values: vec![],
    }
}

fn reading(enrichment: Option<EnrichmentQualification>) -> Reading {
    Reading {
        schema: "cleromancy.reading/v1".to_string(),
        id: "r".to_string(),
        system: "tarot".to_string(),
        candidate_id: "c".to_string(),
        title: "The Tower".to_string(),
        interpretation: "Sudden change.".to_string(),
        receipt: Receipt {
            schema: "cleromancy.receipt/v1".to_string(),
            mode: SelectionMode::Cast,
            algorithm: "a".to_string(),
            context_digest: "c".to_string(),
            field_digest: "f".to_string(),
            enrichment,
            derivation: None,
            derivation_digest: None,
            qualified_weights: vec![3, 0, 12],
            total_weight: 15,
            sample: Some(7),
            event_nonce: Some("n".to_string()),
            selected_index: 2,
            selected_candidate: "c".to_string(),
        },
    }
}

#[test]
fn a_reading_card_shows_its_selection_and_evidence() {
    assert_eq!(
        pairs(&CardRecord::Reading(reading(None))),
        vec![
            p("Address", "cleromancy://x/1"),
            p("Mode", "cast"),
            p("System", "tarot"),
            p("Interpretation", "Sudden change."),
            p("Weights", "[3, 0, 12]"),
            p("Sample", "7"),
        ]
    );
    let terms = vec![vec!["fire".to_string(), "say \"hi\"\n".to_string()], vec![]];
    let qualification = EnrichmentQualification {
        schema: "s".to_string(),
        algorithm: "a".to_string(),
        evidence: SealedEnrichment {
            schema: "s".to_string(),
            algorithm: "a".to_string(),
            context_digest: "c".to_string(),
            endpoint_label: "Library".to_string(),
            projection_label: "Shelf".to_string(),
            session: "x".to_string(),
            evidence_digest: "e".to_string(),
            sources: vec![source("One"), source("Two")],
        },
        report_digest: "r".to_string(),
        candidate_terms: terms.clone(),
        weight_additions: vec![],
    };
    let mut unsampled = reading(Some(qualification));
    unsampled.receipt.sample = None;
    let values = pairs(&CardRecord::Reading(unsampled));
    assert_eq!(values[5], p("Sample", "not used"));
    assert_eq!(values[6], p("External source", "Library / Shelf"));
    assert_eq!(values[7], p("Evidence digest", "e"));
    assert_eq!(values[8], p("Evidence cards", "One; Two"));
    assert_eq!(values[9], p("External matches", &format!("{:?}", terms)));
    assert_eq!(values[10], p("External additions", "[]"));
}

#[test]
fn session_and_record_cards_show_their_own_values() {
    let session = ReadingSession {
        id: "s".to_string(),
        created_at_ms: 1700,
        context_digest: "c".to_string(),
        field_digest: "f".to_string(),
        placements: vec![
            ReadingPlacement { position: "past".to_string(), reading_id: "r1".to_string() },
            ReadingPlacement { position: "now".to_string(), reading_id: "r2".to_string() },
        ],
    };
    assert_eq!(
        pairs(&CardRecord::Session { session, client_token: None }),
        vec![
            p("Address", "cleromancy://x/1"),
            p("Recorded at", "1700 ms since Unix epoch"),
            p("Placements", "past: r1; now: r2"),
            p("Client token", "not supplied"),
        ]
    );
    let concurrence = CardRecord::Concurrence {
        label: "Together".to_string(),
        created_at_ms: 0,
        members: vec![CardMember { role: "facts".to_string(), address: "a://1".to_string() }],
    };
    assert_eq!(pairs(&concurrence)[3], p("Members", "facts: a://1"));
    assert_eq!(
        pairs(&concurrence)[4],
        p("Claim", "Consulted together; no causal or interpretive relation asserted")
    );
    assert_eq!(pairs(&CardRecord::Other), vec![p("Address", "cleromancy://x/1")]);
}

#[test]
fn astrology_cards_show_positions_placements_and_aspects() {
    let chart = CardRecord::AstrologyChart {
        digest: "d".to_string(),
        algorithm: "alg".to_string(),
        engine: "eng".to_string(),
        ephemeris: "eph".to_string(),
        moment: "2026-01-01T00:00:00Z".to_string(),
        positions: vec![
            AstrologyPosition { body: "Sun".to_string(), longitude_millidegrees: 280000, latitude_millidegrees: -5, retrograde: None },
            AstrologyPosition { body: "Mercury".to_string(), longitude_millidegrees: 1, latitude_millidegrees: 2, retrograde: Some(true) },
        ],
    };
    assert_eq!(
        pairs(&chart)[6],
        p(
            "Positions",
            "Sun: 280000 mdeg longitude, -5 mdeg latitude; Mercury: 1 mdeg longitude, 2 mdeg latitude, retrograde=true"
        )
    );
    let facts = CardRecord::AstrologyFacts {
        digest: "d".to_string(),
        chart_digest: "c".to_string(),
        algorithm: "a".to_string(),
        orb_millidegrees: 6000,
        placements: vec![CardFactPlacement { body: "Sun".to_string(), sign: "Capricorn".to_string(), degree_millidegrees: 10000 }],
        aspects: vec![CardAspect {
            first: "Sun".to_string(),
            second: "Moon".to_string(),
            kind: "Trine".to_string(),
            separation_millidegrees: 120500,
            orb_millidegrees: 500,
        }],
    };
    let values = pairs(&facts);
    assert_eq!(values[4], p("Orb", "6000 millidegrees"));
    assert_eq!(values[5], p("Placements", "Sun: Capricorn +10000 mdeg"));
    assert_eq!(values[6], p("Aspects", "Sun / Moon: Trine (120500 mdeg, orb 500)"));
}

#[test]
fn field_and_context_cards_show_their_content() {
    let field = Field {
        system: "tarot".to_string(),
        rules: "uniform".to_string(),
        candidates: vec![Candidate {
            id: "c".to_string(),
            title: "Fool".to_string(),
            interpretation: "i".to_string(),
            tags: vec![],
            base_weight: 4,
        }],
    };
    let values = pairs(&CardRecord::Field(field.clone()));
    assert_eq!(values[1], p("Digest", &field.digest()));
    assert_eq!(values[4], p("Candidates", "Fool (4)"));
    let context = ContextSnapshot::new("Label", "schema").with_fact("b", "2").with_fact("a", "1");
    assert_eq!(
        pairs(&CardRecord::Context(context)),
        vec![p("Address", "cleromancy://x/1"), p("Schema", "schema"), p("Facts", "a: 1; b: 2")]
    );
}
