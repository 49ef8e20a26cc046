use cleromancy::admission::{
    admit_intent, check_composition, check_composition_header, check_concurrence_payload,
    check_reading_payload, check_roll_payload, check_three_card_payload, invalid_client_token,
    invalid_digest, engine_call, Admission, EngineCall,
};
use cleromancy::context::{Candidate, Field};
use cleromancy::intents::{
    AstrologyReadingConcurrenceIntentPayload, CompositionLayout, IntentLimits,
    ReadingIntentPayload, RollIntentPayload, ThreeCardSpreadIntentPayload, COMPOSE_READING_SCHEMA,
    COMPOSE_READING_INTENT, READ_INTENT, READ_SCOPE, ROLL_INTENT, SELECT_INTENT,
};
use cleromancy::reading::SelectionMode;

fn field(n: usize) -> Field {
    Field::new("s", "uniform", (0..n).map(|i| Candidate::new(&format!("c{i}"), "t", "i")).collect())
}

#[test]
fn client_tokens_and_digests_are_bounded() {
    assert!(!invalid_client_token(None, 4));
    assert!(invalid_client_token(Some(""), 4));
    assert!(!invalid_client_token(Some("abcd"), 4));
    assert!(invalid_client_token(Some("abcde"), 4));
    assert!(invalid_client_token(Some("éé€"), 6));
    assert!(!invalid_digest(&"0a".repeat(32)));
    assert!(invalid_digest(&"0A".repeat(32)));
    assert!(invalid_digest("abc"));
}

#[test]
fn invocations_are_admitted_in_order() {
    let limits = IntentLimits::default();
    let go = |same, active, observed, advertised, bytes, subject, intent| {
        admit_intent(same, active, observed, advertised, bytes, &limits, subject, intent)
    };
    assert_eq!(go(false, None, (0, 0), false, 0, false, READ_INTENT), Admission::Fail("intent names another projection session"));
    assert_eq!(go(true, None, (0, 0), true, 0, true, READ_INTENT), Admission::Fail("intent arrived before a projection snapshot"));
    assert_eq!(
        go(true, Some((2, 5)), (2, 4), true, 0, true, READ_INTENT),
        Admission::Stale { current_epoch: 2, current_revision: 5 }
    );
    assert_eq!(
        go(true, Some((2, 5)), (2, 5), false, 0, true, READ_INTENT),
        Admission::Reject("target or intent was not advertised by this snapshot")
    );
    assert_eq!(
        go(true, Some((2, 5)), (2, 5), true, 65_537, true, READ_INTENT),
        Admission::Reject("payload exceeds the configured byte limit")
    );
    assert_eq!(
        go(true, Some((2, 5)), (2, 5), true, 65_536, false, READ_INTENT),
        Admission::Reject("the containing transport did not bind an authenticated subject")
    );
    assert_eq!(go(true, Some((2, 5)), (2, 5), true, 10, true, "other"), Admission::Fail("advertised intent has no scope"));
    assert_eq!(go(true, Some((2, 5)), (2, 5), true, 10, true, READ_INTENT), Admission::Proceed(READ_SCOPE));
}

#[test]
fn payload_checks_name_their_refusal() {
    let limits = IntentLimits { max_payload_bytes: 100, max_candidates: 2, max_die_sides: 6, max_client_token_bytes: 3 };
    let read = ReadingIntentPayload::read(field(2));
    assert_eq!(check_reading_payload(READ_INTENT, &read, &limits), Ok(()));
    assert_eq!(check_reading_payload(SELECT_INTENT, &read, &limits), Err("reading payload schema does not match the intent"));
    let wide = ReadingIntentPayload::select(field(3));
    assert_eq!(check_reading_payload(SELECT_INTENT, &wide, &limits), Err("candidate count is outside the configured intent limits"));
    let token = ReadingIntentPayload::select(field(1)).with_client_token("toolong");
    assert_eq!(check_reading_payload(SELECT_INTENT, &token, &limits), Err("client token is outside the configured intent limits"));
    assert_eq!(check_roll_payload(&RollIntentPayload::new(6), &limits), Ok(()));
    assert_eq!(check_roll_payload(&RollIntentPayload::new(1), &limits), Err("die sides are outside the configured intent limits"));
    assert_eq!(check_roll_payload(&RollIntentPayload::new(7), &limits), Err("die sides are outside the configured intent limits"));
    let mut roll = RollIntentPayload::new(6);
    roll.schema = ROLL_INTENT.to_string();
    assert_eq!(check_roll_payload(&roll, &limits), Err("roll payload schema does not match the intent"));
    assert_eq!(
        check_three_card_payload(&ThreeCardSpreadIntentPayload::new(field(0)), &limits),
        Err("candidate count is outside the configured intent limits")
    );
    let good = AstrologyReadingConcurrenceIntentPayload::new(&"a".repeat(64), &"b".repeat(64));
    assert_eq!(check_concurrence_payload(&good), Ok(()));
    let bad = AstrologyReadingConcurrenceIntentPayload::new("x", &"b".repeat(64));
    assert_eq!(check_concurrence_payload(&bad), Err("selected facts digest or reading session ID is invalid"));
}

#[test]
fn compositions_are_checked_in_two_steps() {
    let limits = IntentLimits::default();
    assert_eq!(check_composition_header(COMPOSE_READING_SCHEMA, None), Ok(()));
    assert_eq!(check_composition_header("x", None), Err("composition payload schema does not match the intent"));
    assert_eq!(
        check_composition_header(COMPOSE_READING_SCHEMA, Some("  ")),
        Err("stored field digest is outside the configured intent limits")
    );
    assert_eq!(
        check_composition_header(COMPOSE_READING_SCHEMA, Some(&"d".repeat(129))),
        Err("stored field digest is outside the configured intent limits")
    );
    let f = field(3);
    assert_eq!(check_composition(&f, &None, SelectionMode::Calculated, CompositionLayout::Single, &None, &limits), Ok(()));
    assert_eq!(
        check_composition(&f, &None, SelectionMode::Derived, CompositionLayout::Single, &None, &limits),
        Err("derived selection needs a disclosed seed and domain and is not available through this intent")
    );
    assert_eq!(
        check_composition(&f, &None, SelectionMode::Calculated, CompositionLayout::ThreeCard, &None, &limits),
        Err("the three-card layout requires cast selection mode")
    );
    assert_eq!(check_composition(&f, &Some(String::new()), SelectionMode::Cast, CompositionLayout::ThreeCard, &None, &limits), Err("client token is outside the configured intent limits"));
    assert_eq!(check_composition(&f, &None, SelectionMode::Cast, CompositionLayout::ThreeCard, &None, &limits), Ok(()));
}

#[test]
fn each_admitted_intent_makes_its_own_selection() {
    let single = CompositionLayout::Single;
    assert_eq!(engine_call(READ_INTENT, SelectionMode::Cast, single, false), Some(EngineCall::Calculate));
    assert_eq!(engine_call(READ_INTENT, SelectionMode::Cast, single, true), Some(EngineCall::CalculateEnriched));
    assert_eq!(engine_call(SELECT_INTENT, SelectionMode::Calculated, single, true), Some(EngineCall::CastEnriched));
    assert_eq!(engine_call(ROLL_INTENT, SelectionMode::Calculated, single, false), Some(EngineCall::Cast));
    assert_eq!(engine_call(COMPOSE_READING_INTENT, SelectionMode::Calculated, single, false), Some(EngineCall::Calculate));
    assert_eq!(engine_call(COMPOSE_READING_INTENT, SelectionMode::Derived, single, false), None);
    assert_eq!(
        engine_call(COMPOSE_READING_INTENT, SelectionMode::Cast, CompositionLayout::ThreeCard, false),
        Some(EngineCall::ThreeCard)
    );
    assert_eq!(engine_call("cleromancy.unknown", SelectionMode::Cast, single, false), None);
}

#[test]
fn contexts_advertise_readings_and_saved_records_advertise_occasions() {
    let context = cleromancy::admission::advertised_intents(true, true, false, 0, 0);
    assert_eq!(
        context,
        vec![
            "cleromancy.read",
            "cleromancy.select",
            "cleromancy.roll",
            "cleromancy.three-card-spread",
            "cleromancy.compose-reading"
        ]
    );
    assert_eq!(
        cleromancy::admission::advertised_intents(true, false, true, 1, 2),
        vec!["cleromancy.create-concurrence"]
    );
    assert!(cleromancy::admission::advertised_intents(true, false, true, 0, 2).is_empty());
    assert!(cleromancy::admission::advertised_intents(false, true, false, 0, 0).is_empty());
}
