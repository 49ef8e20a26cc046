use cleromancy::context::{Candidate, Field, UNIFORM_DIE_RULE};
use cleromancy::intents::{
    die_field, scope_for, AstrologyReadingConcurrenceIntentPayload, CompositionLayout,
    FieldSelection, IntentLimits, ReadingCompositionIntentPayload, ReadingIntentPayload,
    RollIntentPayload, ThreeCardSpreadIntentPayload, COMPOSE_READING_INTENT,
    COMPOSE_READING_SCHEMA, COMPOSE_READING_SCOPE, CREATE_CONCURRENCE_INTENT,
    CREATE_CONCURRENCE_SCHEMA, CREATE_CONCURRENCE_SCOPE, READ_INTENT, READ_SCHEMA, READ_SCOPE,
    ROLL_INTENT, ROLL_SCOPE, SELECT_INTENT, SELECT_SCHEMA, SELECT_SCOPE, THREE_CARD_SPREAD_INTENT,
    THREE_CARD_SPREAD_INTENT_SCHEMA, THREE_CARD_SPREAD_SCOPE,
};
use cleromancy::reading::SelectionMode;

fn small_field() -> Field {
    Field::new("tarot", "uniform", vec![Candidate::new("star", "The Star", "Hope.")])
}

#[test]
fn intent_limits_default_values() {
    let limits = IntentLimits::default();
    assert_eq!(limits.max_payload_bytes, 65_536);
    assert_eq!(limits.max_candidates, 512);
    assert_eq!(limits.max_die_sides, 1_000);
    assert_eq!(limits.max_client_token_bytes, 256);
}

#[test]
fn every_intent_has_its_scope() {
    assert_eq!(scope_for(READ_INTENT), Some(READ_SCOPE));
    assert_eq!(scope_for(SELECT_INTENT), Some(SELECT_SCOPE));
    assert_eq!(scope_for(ROLL_INTENT), Some(ROLL_SCOPE));
    assert_eq!(scope_for(THREE_CARD_SPREAD_INTENT), Some(THREE_CARD_SPREAD_SCOPE));
    assert_eq!(scope_for(COMPOSE_READING_INTENT), Some(COMPOSE_READING_SCOPE));
    assert_eq!(scope_for(CREATE_CONCURRENCE_INTENT), Some(CREATE_CONCURRENCE_SCOPE));
    assert_eq!(scope_for("cleromancy.unknown"), None);
    assert_eq!(scope_for("cleromancy/intents/read"), None);
}

#[test]
fn a_die_field_has_one_uniform_face_per_side() {
    let field = die_field(6, None);
    assert_eq!(field.system, "cleromancy.die/d6");
    assert_eq!(field.rules, UNIFORM_DIE_RULE);
    assert_eq!(field.candidates.len(), 6);
    assert_eq!(field.candidates[0].id, "1");
    assert_eq!(field.candidates[0].title, "d6: 1");
    assert_eq!(field.candidates[5].id, "6");
    assert_eq!(field.candidates[5].interpretation, "A uniformly cast face of d6.");
    assert!(field.candidates.iter().all(|c| c.base_weight == 1 && c.tags.is_empty()));
}

#[test]
fn a_blank_die_label_falls_back_to_the_side_count() {
    let blank = die_field(20, Some("   "));
    assert_eq!(blank.candidates[19].title, "d20: 20");
    let named = die_field(2, Some("Coin"));
    assert_eq!(named.system, "cleromancy.die/d2");
    assert_eq!(named.candidates[1].title, "Coin: 2");
    assert_eq!(named.candidates[1].interpretation, "A uniformly cast face of Coin.");
    assert!(die_field(0, None).candidates.is_empty());
}

#[test]
fn roll_payloads_carry_their_die() {
    let roll = RollIntentPayload::new(12).with_label("Dodecahedron").with_client_token("t-1");
    assert_eq!(roll.schema, "cleromancy.intent.roll/v1");
    assert_eq!(roll.label.as_deref(), Some("Dodecahedron"));
    assert_eq!(roll.client_token.as_deref(), Some("t-1"));
    let field = roll.field();
    assert_eq!(field.candidates.len(), 12);
    assert_eq!(field.candidates[11].title, "Dodecahedron: 12");
    assert_eq!(RollIntentPayload::new(3).field().candidates[2].title, "d3: 3");
}

#[test]
fn reading_payload_builders() {
    let read = ReadingIntentPayload::read(small_field()).with_client_token("abc");
    assert_eq!(read.schema, READ_SCHEMA);
    assert_eq!(read.field, small_field());
    assert_eq!(read.client_token.as_deref(), Some("abc"));
    assert!(read.enrichment.is_none());
    let select = ReadingIntentPayload::select(small_field());
    assert_eq!(select.schema, SELECT_SCHEMA);
    let spread = ThreeCardSpreadIntentPayload::new(small_field()).with_client_token("z");
    assert_eq!(spread.schema, THREE_CARD_SPREAD_INTENT_SCHEMA);
    assert_eq!(spread.client_token.as_deref(), Some("z"));
}

#[test]
fn composition_payload_builders() {
    let single = ReadingCompositionIntentPayload::single_calculated(small_field());
    assert_eq!(single.schema, COMPOSE_READING_SCHEMA);
    assert_eq!(single.layout, CompositionLayout::Single);
    assert_eq!(single.mode, SelectionMode::Calculated);
    assert_eq!(single.field, FieldSelection::Inline { field: small_field() });
    let cast = ReadingCompositionIntentPayload::single_cast(small_field());
    assert_eq!(cast.mode, SelectionMode::Cast);
    let three = ReadingCompositionIntentPayload::three_card(small_field()).with_client_token("k");
    assert_eq!(three.layout, CompositionLayout::ThreeCard);
    assert_eq!(three.mode, SelectionMode::Cast);
    assert_eq!(three.client_token.as_deref(), Some("k"));
    let stored =
        ReadingCompositionIntentPayload::stored("d".repeat(64).as_str(), CompositionLayout::Single, SelectionMode::Derived);
    assert_eq!(stored.field, FieldSelection::stored(&"d".repeat(64)));
    assert_eq!(FieldSelection::inline(small_field()), FieldSelection::Inline { field: small_field() });
}

#[test]
fn concurrence_payload_names_both_members() {
    let p = AstrologyReadingConcurrenceIntentPayload::new("facts", "session");
    assert_eq!(p.schema, CREATE_CONCURRENCE_SCHEMA);
    assert_eq!(p.astrology_facts_digest, "facts");
    assert_eq!(p.reading_session_id, "session");
}
