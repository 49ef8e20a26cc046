use cleromancy::consultation::{
    AstrologyCalculationDraft, ConsultationError, ContextDraft, SpreadTemplateDraft,
    MANUAL_CONTEXT_SCHEMA,
};
use cleromancy::spread::{SpreadRelationKind, SPREAD_TEMPLATE_SCHEMA};

fn calc(instant: &str, lat: &str, lon: &str, orb: &str) -> AstrologyCalculationDraft {
    AstrologyCalculationDraft {
        instant_utc: instant.to_string(),
        latitude_microdegrees: lat.to_string(),
        longitude_microdegrees: lon.to_string(),
        orb_millidegrees: orb.to_string(),
    }
}

#[test]
fn a_layout_form_becomes_a_template() {
    let draft = SpreadTemplateDraft::new(
        "  Crossing  ",
        "past | The past\r\n\n  Present_Focus |  The present \n",
    )
    .with_relations("present_focus | Next-Step | PAST | leads back\n\n");
    let template = draft.into_template().unwrap();
    assert_eq!(template.schema, SPREAD_TEMPLATE_SCHEMA);
    assert_eq!(template.label, "Crossing");
    let names: Vec<&str> = template.positions.iter().map(|p| p.name.as_str()).collect();
    assert_eq!(names, vec!["past", "present_focus"]);
    assert_eq!(template.positions[1].label, "The present");
    assert_eq!(template.relations.len(), 1);
    assert_eq!(template.relations[0].from, "present_focus");
    assert_eq!(template.relations[0].to, "past");
    assert_eq!(template.relations[0].kind, SpreadRelationKind::NextStep);
    assert_eq!(template.relations[0].label, "leads back");
    assert_eq!(template.id.len(), 64);
}

#[test]
fn layout_form_errors_name_the_problem() {
    let no_bar = SpreadTemplateDraft::new("x", "past").into_template();
    assert_eq!(no_bar, Err(ConsultationError::InvalidSpread("each position must use name | label")));
    let parts = SpreadTemplateDraft::new("x", "a | A\nb | B").with_relations("a | supports | b");
    assert_eq!(
        parts.into_template(),
        Err(ConsultationError::InvalidSpread(
            "each relationship must use from | relationship | to | label"
        ))
    );
    let kind = SpreadTemplateDraft::new("x", "a | A\nb | B").with_relations("a | loves | b | l");
    assert_eq!(
        kind.into_template(),
        Err(ConsultationError::InvalidSpread(
            "relationship is supports, contradicts, questions, next_step, or elaborates"
        ))
    );
    let bad_name = SpreadTemplateDraft::new("x", "9lives | Cat");
    assert_eq!(bad_name.into_template(), Err(ConsultationError::InvalidSpread("the layout is not valid")));
    let empty = SpreadTemplateDraft::new("x", "   \n");
    assert_eq!(empty.into_template(), Err(ConsultationError::InvalidSpread("the layout is not valid")));
}

#[test]
fn relations_are_put_in_their_derived_order() {
    let draft = SpreadTemplateDraft::new("x", "a | A\nb | B\nc | C").with_relations(
        "c | questions | a | third\nb | supports | c | second\na | elaborates | b | first",
    );
    let template = draft.into_template().unwrap();
    let froms: Vec<&str> = template.relations.iter().map(|r| r.from.as_str()).collect();
    assert_eq!(froms, vec!["a", "b", "c"]);
}

#[test]
fn a_context_form_becomes_a_manual_snapshot() {
    let draft = ContextDraft::new("  Morning  ", " What now? ", "Love, WORK , love,, ")
        .with_additional_facts("Place: home\n\n mood :  calm \n");
    let snapshot = draft.into_snapshot().unwrap();
    assert_eq!(snapshot.label, "Morning");
    assert_eq!(snapshot.schema, MANUAL_CONTEXT_SCHEMA);
    assert_eq!(snapshot.tags, vec!["love".to_string(), "work".to_string()]);
    let facts: Vec<(&str, &str)> =
        snapshot.facts.iter().map(|(n, v)| (n.as_str(), v.as_str())).collect();
    assert_eq!(facts, vec![("mood", "calm"), ("place", "home"), ("question", "What now?")]);
}

#[test]
fn context_tags_are_lowercased_beyond_ascii() {
    let snapshot = ContextDraft::new("l", "q", "ÉTÉ").into_snapshot().unwrap();
    assert_eq!(snapshot.tags, vec!["été".to_string()]);
}

#[test]
fn context_form_errors_name_the_problem() {
    let e = |d: ContextDraft| d.into_snapshot().unwrap_err();
    assert_eq!(e(ContextDraft::new("  ", "q", "")), ConsultationError::InvalidContext("label must contain 1 to 256 bytes"));
    assert_eq!(e(ContextDraft::new(&"l".repeat(257), "q", "")), ConsultationError::InvalidContext("label must contain 1 to 256 bytes"));
    assert_eq!(e(ContextDraft::new("l", " ", "")), ConsultationError::InvalidContext("question must contain 1 to 4096 bytes"));
    assert_eq!(e(ContextDraft::new("l", "q", &"t".repeat(65))), ConsultationError::InvalidContext("each tag must contain at most 64 bytes"));
    let many: Vec<String> = (0..65).map(|i| format!("t{i}")).collect();
    assert_eq!(e(ContextDraft::new("l", "q", &many.join(","))), ConsultationError::InvalidContext("a context may contain at most 64 tags"));
    let f = |facts: &str| e(ContextDraft::new("l", "q", "").with_additional_facts(facts));
    assert_eq!(f("mood calm"), ConsultationError::InvalidContext("each additional fact must use name: value"));
    assert_eq!(f("my mood: calm"), ConsultationError::InvalidContext("additional fact names use lowercase letters, digits, and underscores"));
    assert_eq!(f("question: why"), ConsultationError::InvalidContext("question belongs in the question field"));
    assert_eq!(f("mood:  "), ConsultationError::InvalidContext("each additional fact value must contain 1 to 4096 bytes"));
    assert_eq!(f("mood: a\nMOOD: b"), ConsultationError::InvalidContext("additional fact names must be unique"));
    let lots: Vec<String> = (0..65).map(|i| format!("f{i}: v")).collect();
    assert_eq!(f(&lots.join("\n")), ConsultationError::InvalidContext("a context may contain at most 64 additional facts"));
}

#[test]
fn a_calculation_form_becomes_a_moment_and_orb() {
    let (moment, orb) = calc(" 2026-08-13T12:00:00Z ", "", " ", "+6000").into_moment_and_orb().unwrap();
    assert_eq!(moment.instant_utc, "2026-08-13T12:00:00Z");
    assert_eq!(moment.latitude_microdegrees, None);
    assert_eq!(moment.longitude_microdegrees, None);
    assert_eq!(orb, 6_000);
    let (placed, _) = calc("now", "-33865000", "151209000", "180000").into_moment_and_orb().unwrap();
    assert_eq!(placed.latitude_microdegrees, Some(-33_865_000));
    assert_eq!(placed.longitude_microdegrees, Some(151_209_000));
}

#[test]
fn calculation_form_errors_name_the_problem() {
    let e = |d: AstrologyCalculationDraft| d.into_moment_and_orb().unwrap_err();
    assert_eq!(e(calc("  ", "", "", "1")), ConsultationError::InvalidAstrology("UTC instant is required"));
    assert_eq!(e(calc("t", "north", "", "1")), ConsultationError::InvalidAstrology("latitude microdegrees"));
    assert_eq!(e(calc("t", "1", "9999999999", "1")), ConsultationError::InvalidAstrology("longitude microdegrees"));
    assert_eq!(
        e(calc("t", "1", "", "1")),
        ConsultationError::InvalidAstrology("latitude and longitude are both required when either is given")
    );
    assert_eq!(e(calc("t", "", "", "-1")), ConsultationError::InvalidAstrology("orb millidegrees must be a number"));
    assert_eq!(e(calc("t", "", "", "180001")), ConsultationError::InvalidAstrology("orb millidegrees must be at most 180000"));
}
