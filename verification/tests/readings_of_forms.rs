use cleromancy::consultation::{AstrologyChartDraft, ConsultationError};
use cleromancy::context::ContextSnapshot;
use cleromancy::reading::{Reading, Receipt, SelectionMode};
use cleromancy::session::{ReadingPlacement, ReadingSession};
use cleromancy::sky::{interpret_sky_day, SkyError, SkyFactKind, SkyRule, SkyRulePack, SKY_INTERPRETATION_SCHEMA};
use cleromancy::summary::summarize;

fn hex(text: &str) -> String {
    blake3::hash(text.as_bytes()).to_hex().to_string()
}

fn rule(id: &str, kind: SkyFactKind, prompt: &str) -> SkyRule {
    SkyRule { id: id.to_string(), fact_kind: kind, prompt: prompt.to_string() }
}

#[test]
fn a_sky_day_is_read_fact_by_fact_under_its_pack() {
    let pack = SkyRulePack::new(
        "pack",
        "author",
        "1",
        vec![rule("dusk-rule", SkyFactKind::Dusk, "Evening."), rule("dawn-rule", SkyFactKind::Dawn, "Morning.")],
    )
    .unwrap();
    let kinds = vec![SkyFactKind::Dawn, SkyFactKind::NewMoon, SkyFactKind::Dusk];
    let read = interpret_sky_day(&kinds, "facts-digest", &pack).unwrap();
    assert_eq!(read.len(), 2);
    assert_eq!(read[0].fact_index, 0);
    assert_eq!(read[0].fact_kind, SkyFactKind::Dawn);
    assert_eq!(read[0].rule_id, "dawn-rule");
    assert_eq!(read[0].prompt, "Morning.");
    assert_eq!(read[1].fact_index, 2);
    assert_eq!(read[1].rule_id, "dusk-rule");
    assert_eq!(read[1].schema, SKY_INTERPRETATION_SCHEMA);
    assert_eq!(read[1].sky_facts_digest, "facts-digest");
    assert_eq!(read[1].pack_digest, pack.digest());
    assert_eq!(read[1].pack_id, "pack");
    let mut broken = pack.clone();
    broken.id = " ".to_string();
    assert_eq!(interpret_sky_day(&kinds, "facts-digest", &broken), Err(SkyError::Empty("pack.id")));
}

fn chart(positions: &str) -> AstrologyChartDraft {
    AstrologyChartDraft {
        algorithm: " swiss ".to_string(),
        engine: "e".to_string(),
        ephemeris: "de440".to_string(),
        instant_utc: "2026-01-01T00:00:00Z".to_string(),
        latitude_microdegrees: String::new(),
        longitude_microdegrees: String::new(),
        orb_millidegrees: "6000".to_string(),
        positions: positions.to_string(),
    }
}

#[test]
fn a_chart_form_reads_one_position_per_line() {
    let (input, orb) = chart("Sun | 280000 | -5 | \n\n  Moon|12| 0 |true\r\nMercury | 1 | 2 | false")
        .into_chart_and_orb()
        .unwrap();
    assert_eq!(orb, 6000);
    assert_eq!(input.algorithm, "swiss");
    assert_eq!(input.moment.latitude_microdegrees, None);
    let bodies: Vec<(&str, i32, i32, Option<bool>)> = input
        .positions
        .iter()
        .map(|p| (p.body.as_str(), p.longitude_millidegrees, p.latitude_millidegrees, p.retrograde))
        .collect();
    assert_eq!(
        bodies,
        vec![("Sun", 280000, -5, None), ("Moon", 12, 0, Some(true)), ("Mercury", 1, 2, Some(false))]
    );
}

#[test]
fn a_chart_form_names_its_first_bad_line() {
    let bad = |text: &str| chart(text).into_chart_and_orb().unwrap_err();
    assert_eq!(
        bad("Sun | 1 | 2"),
        ConsultationError::InvalidAstrology("each position must use body | longitude | latitude | retrograde")
    );
    assert_eq!(bad("Sun | x | 2 |"), ConsultationError::InvalidAstrology("longitude millidegrees must be a number"));
    assert_eq!(bad("Sun | 1 | y |"), ConsultationError::InvalidAstrology("latitude millidegrees must be a number"));
    assert_eq!(bad("Sun | 1 | 2 | yes"), ConsultationError::InvalidAstrology("retrograde is true, false, or empty"));
    let mut no_orb = chart("");
    no_orb.orb_millidegrees = "wide".to_string();
    assert_eq!(
        no_orb.into_chart_and_orb().unwrap_err(),
        ConsultationError::InvalidAstrology("orb millidegrees must be a number")
    );
}

fn reading(id: &str, title: &str) -> Reading {
    Reading {
        schema: "cleromancy.reading/v1".to_string(),
        id: id.to_string(),
        system: "tarot".to_string(),
        candidate_id: format!("c-{id}"),
        title: title.to_string(),
        interpretation: "i".to_string(),
        receipt: Receipt {
            schema: "cleromancy.receipt/v1".to_string(),
            mode: SelectionMode::Calculated,
            algorithm: "a".to_string(),
            context_digest: "c".to_string(),
            field_digest: "f".to_string(),
            enrichment: None,
            derivation: None,
            derivation_digest: None,
            qualified_weights: vec![1],
            total_weight: 1,
            sample: None,
            event_nonce: None,
            selected_index: 0,
            selected_candidate: format!("c-{id}"),
        },
    }
}

#[test]
fn a_summary_does_not_depend_on_the_order_of_its_readings() {
    let session = ReadingSession {
        id: hex("s"),
        created_at_ms: 1,
        context_digest: "c".to_string(),
        field_digest: "f".to_string(),
        placements: vec![
            ReadingPlacement { position: "first".to_string(), reading_id: "r1".to_string() },
            ReadingPlacement { position: "second".to_string(), reading_id: "r2".to_string() },
        ],
    };
    let context = ContextSnapshot::new("Label", "schema");
    let forward = summarize(&session, &context, &[reading("r1", "One"), reading("r2", "Two")]);
    let backward = summarize(&session, &context, &[reading("r2", "Two"), reading("r1", "One")]);
    assert_eq!(forward, backward);
    assert_eq!(forward.placements[1].title, "Two");
}
