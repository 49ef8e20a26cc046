//! The decisions an application makes about an outward intent before it acts
//! on one: whether the invocation is current and admitted, and whether each
//! kind of payload is within the configured limits.

use vstd::prelude::*;

use crate::enrichment::SealedEnrichment;
use crate::context::Field;
use crate::intents::{
    intent_scope, scope_for, AstrologyReadingConcurrenceIntentPayload, CompositionLayout,
    IntentLimits, ReadingIntentPayload, RollIntentPayload, ThreeCardSpreadIntentPayload,
    COMPOSE_READING_INTENT, COMPOSE_READING_SCHEMA, CREATE_CONCURRENCE_SCHEMA, READ_INTENT,
    READ_SCHEMA, ROLL_INTENT, ROLL_SCHEMA, SELECT_INTENT, SELECT_SCHEMA,
    THREE_CARD_SPREAD_INTENT, THREE_CARD_SPREAD_INTENT_SCHEMA, CREATE_CONCURRENCE_INTENT,
};
use crate::reading::SelectionMode;
use crate::text::{byte_len, is_digest, is_digest_seq, str_byte_len, str_eq, trim, trim_str};

verus! {

/// A client token is refused when it is given but empty or longer than the
/// limit.
pub open spec fn bad_client_token(token: Option<Seq<char>>, max_bytes: usize) -> bool {
    match token {
        Some(t) => t.len() == 0 || byte_len(t) > max_bytes,
        None => false,
    }
}

pub fn invalid_client_token(client_token: Option<&str>, max_bytes: usize) -> (r: bool)
    ensures
        r == bad_client_token(
            match client_token {
                Some(t) => Some(t@),
                None => None,
            },
            max_bytes,
        ),
{
    match client_token {
        Some(token) => token.is_empty() || str_byte_len(token) > max_bytes,
        None => false,
    }
}

/// A digest or session identity is refused unless it is 64 lowercase
/// hexadecimal characters.
pub fn invalid_digest(value: &str) -> (r: bool)
    ensures
        r == !is_digest_seq(value@),
{
    !is_digest(value)
}

/// What becomes of an invocation before its payload is read.
#[derive(Clone, Copy, Debug, PartialEq, Eq)]
pub enum Admission {
    /// The invocation cannot be handled at all.
    Fail(&'static str),
    /// The caller acted on an older snapshot.
    Stale { current_epoch: u64, current_revision: u64 },
    /// The invocation is refused, with the reason shown to the caller.
    Reject(&'static str),
    /// The invocation may proceed under the intent's scope.
    Proceed(&'static str),
}

/// The checks an invocation passes, in order: its session, a current
/// snapshot, the revision it observed, the advertisement, the payload size,
/// an authenticated subject, and the intent's scope.
pub open spec fn admission_of(
    same_session: bool,
    active: Option<(u64, u64)>,
    observed: (u64, u64),
    advertised: bool,
    payload_bytes: usize,
    limits: IntentLimits,
    has_subject: bool,
    intent: Seq<char>,
) -> Admission {
    if !same_session {
        Admission::Fail("intent names another projection session")
    } else if active is None {
        Admission::Fail("intent arrived before a projection snapshot")
    } else if observed != active.unwrap() {
        Admission::Stale {
            current_epoch: active.unwrap().0,
            current_revision: active.unwrap().1,
        }
    } else if !advertised {
        Admission::Reject("target or intent was not advertised by this snapshot")
    } else if payload_bytes > limits.max_payload_bytes {
        Admission::Reject("payload exceeds the configured byte limit")
    } else if !has_subject {
        Admission::Reject("the containing transport did not bind an authenticated subject")
    } else if intent_scope(intent) is None {
        Admission::Fail("advertised intent has no scope")
    } else {
        Admission::Proceed("")
    }
}

/// Whether two admissions agree, a scope compared by its text.
pub open spec fn same_admission(a: Admission, b: Admission) -> bool {
    match (a, b) {
        (Admission::Fail(x), Admission::Fail(y)) => x@ == y@,
        (Admission::Reject(x), Admission::Reject(y)) => x@ == y@,
        (Admission::Stale { current_epoch: e, current_revision: r }, Admission::Stale { current_epoch: f, current_revision: s }) => e == f && r == s,
        (Admission::Proceed(_), Admission::Proceed(_)) => true,
        _ => false,
    }
}

pub fn admit_intent(
    same_session: bool,
    active: Option<(u64, u64)>,
    observed: (u64, u64),
    advertised: bool,
    payload_bytes: usize,
    limits: &IntentLimits,
    has_subject: bool,
    intent: &str,
) -> (r: Admission)
    ensures
        same_admission(
            r,
            admission_of(same_session, active, observed, advertised, payload_bytes, *limits, has_subject, intent@),
        ),
        r matches Admission::Proceed(scope) ==> intent_scope(intent@) == Some(scope@),
{
    if !same_session {
        return Admission::Fail("intent names another projection session");
    }
    let (epoch, revision) = match active {
        Some(current) => current,
        None => {
            return Admission::Fail("intent arrived before a projection snapshot");
        },
    };
    if observed.0 != epoch || observed.1 != revision {
        return Admission::Stale { current_epoch: epoch, current_revision: revision };
    }
    if !advertised {
        return Admission::Reject("target or intent was not advertised by this snapshot");
    }
    if payload_bytes > limits.max_payload_bytes {
        return Admission::Reject("payload exceeds the configured byte limit");
    }
    if !has_subject {
        return Admission::Reject("the containing transport did not bind an authenticated subject");
    }
    match scope_for(intent) {
        Some(scope) => Admission::Proceed(scope),
        None => Admission::Fail("advertised intent has no scope"),
    }
}

/// Whether a refusal carries exactly the given reason.
pub open spec fn refused(r: Result<(), &'static str>, reason: Seq<char>) -> bool {
    r matches Err(m) && m@ == reason
}

/// Whether a field's candidate count is within the limits.
pub open spec fn candidates_in_limits(f: Field, limits: IntentLimits) -> bool {
    f.candidates@.len() > 0 && f.candidates@.len() <= limits.max_candidates
}

pub open spec fn opt_view(o: Option<String>) -> Option<Seq<char>> {
    match o {
        Some(x) => Some(x@),
        None => None,
    }
}

fn check_token(token: &Option<String>, limits: &IntentLimits) -> (r: bool)
    ensures
        r == !bad_client_token(opt_view(*token), limits.max_client_token_bytes),
{
    match token {
        Some(t) => !invalid_client_token(Some(t.as_str()), limits.max_client_token_bytes),
        None => true,
    }
}

/// A read or select payload: the schema its intent expects, a field within
/// the candidate limits, and a client token within bounds.
pub fn check_reading_payload(intent: &str, payload: &ReadingIntentPayload, limits: &IntentLimits) -> (r: Result<(), &'static str>)
    ensures
        ({
            let expected = if intent@ == READ_INTENT@ {
                READ_SCHEMA@
            } else {
                SELECT_SCHEMA@
            };
            if payload.schema@ != expected {
                refused(r, "reading payload schema does not match the intent"@)
            } else if !candidates_in_limits(payload.field, *limits) {
                refused(r, "candidate count is outside the configured intent limits"@)
            } else if bad_client_token(opt_view(payload.client_token), limits.max_client_token_bytes) {
                refused(r, "client token is outside the configured intent limits"@)
            } else {
                r is Ok
            }
        }),
{
    let expected = if str_eq(intent, READ_INTENT) {
        READ_SCHEMA
    } else {
        SELECT_SCHEMA
    };
    if !str_eq(payload.schema.as_str(), expected) {
        return Err("reading payload schema does not match the intent");
    }
    if payload.field.candidates.len() == 0 || payload.field.candidates.len() > limits.max_candidates {
        return Err("candidate count is outside the configured intent limits");
    }
    if !check_token(&payload.client_token, limits) {
        return Err("client token is outside the configured intent limits");
    }
    Ok(())
}

/// A roll payload: the roll schema, between two and the limit of sides, and
/// a client token within bounds.
pub fn check_roll_payload(payload: &RollIntentPayload, limits: &IntentLimits) -> (r: Result<(), &'static str>)
    ensures
        if payload.schema@ != ROLL_SCHEMA@ {
            refused(r, "roll payload schema does not match the intent"@)
        } else if payload.sides < 2 || payload.sides > limits.max_die_sides {
            refused(r, "die sides are outside the configured intent limits"@)
        } else if bad_client_token(opt_view(payload.client_token), limits.max_client_token_bytes) {
            refused(r, "client token is outside the configured intent limits"@)
        } else {
            r is Ok
        },
{
    if !str_eq(payload.schema.as_str(), ROLL_SCHEMA) {
        return Err("roll payload schema does not match the intent");
    }
    if payload.sides < 2 || payload.sides > limits.max_die_sides {
        return Err("die sides are outside the configured intent limits");
    }
    if !check_token(&payload.client_token, limits) {
        return Err("client token is outside the configured intent limits");
    }
    Ok(())
}

/// A three-card payload: its schema, a field within the candidate limits,
/// and a client token within bounds.
pub fn check_three_card_payload(payload: &ThreeCardSpreadIntentPayload, limits: &IntentLimits) -> (r: Result<(), &'static str>)
    ensures
        if payload.schema@ != THREE_CARD_SPREAD_INTENT_SCHEMA@ {
            refused(r, "spread payload schema does not match the intent"@)
        } else if !candidates_in_limits(payload.field, *limits) {
            refused(r, "candidate count is outside the configured intent limits"@)
        } else if bad_client_token(opt_view(payload.client_token), limits.max_client_token_bytes) {
            refused(r, "client token is outside the configured intent limits"@)
        } else {
            r is Ok
        },
{
    if !str_eq(payload.schema.as_str(), THREE_CARD_SPREAD_INTENT_SCHEMA) {
        return Err("spread payload schema does not match the intent");
    }
    if payload.field.candidates.len() == 0 || payload.field.candidates.len() > limits.max_candidates {
        return Err("candidate count is outside the configured intent limits");
    }
    if !check_token(&payload.client_token, limits) {
        return Err("client token is outside the configured intent limits");
    }
    Ok(())
}

/// A pattern-occasion payload: its schema and two well-formed identities.
pub fn check_concurrence_payload(payload: &AstrologyReadingConcurrenceIntentPayload) -> (r: Result<(), &'static str>)
    ensures
        if payload.schema@ != CREATE_CONCURRENCE_SCHEMA@ {
            refused(r, "concurrence payload schema does not match the intent"@)
        } else if !is_digest_seq(payload.astrology_facts_digest@) || !is_digest_seq(payload.reading_session_id@) {
            refused(r, "selected facts digest or reading session ID is invalid"@)
        } else {
            r is Ok
        },
{
    if !str_eq(payload.schema.as_str(), CREATE_CONCURRENCE_SCHEMA) {
        return Err("concurrence payload schema does not match the intent");
    }
    if invalid_digest(payload.astrology_facts_digest.as_str()) || invalid_digest(payload.reading_session_id.as_str()) {
        return Err("selected facts digest or reading session ID is invalid");
    }
    Ok(())
}

/// The composition header: its schema and, for a stored field, a digest
/// that is not blank and at most 128 bytes.
pub fn check_composition_header(schema: &str, stored_digest: Option<&str>) -> (r: Result<(), &'static str>)
    ensures
        if schema@ != COMPOSE_READING_SCHEMA@ {
            refused(r, "composition payload schema does not match the intent"@)
        } else if stored_digest matches Some(d) && (trim(d@).len() == 0 || byte_len(d@) > 128) {
            refused(r, "stored field digest is outside the configured intent limits"@)
        } else {
            r is Ok
        },
{
    if !str_eq(schema, COMPOSE_READING_SCHEMA) {
        return Err("composition payload schema does not match the intent");
    }
    match stored_digest {
        Some(d) => {
            let t = trim_str(d);
            if t.as_str().is_empty() || str_byte_len(d) > 128 {
                return Err("stored field digest is outside the configured intent limits");
            }
        },
        None => {},
    }
    Ok(())
}

/// The composed request once its field is known: candidate limits, client
/// token, no derived mode, and a cast without enrichment for three cards.
pub fn check_composition(
    field: &Field,
    client_token: &Option<String>,
    mode: SelectionMode,
    layout: CompositionLayout,
    enrichment: &Option<SealedEnrichment>,
    limits: &IntentLimits,
) -> (r: Result<(), &'static str>)
    ensures
        if !candidates_in_limits(*field, *limits) {
            refused(r, "candidate count is outside the configured intent limits"@)
        } else if bad_client_token(opt_view(*client_token), limits.max_client_token_bytes) {
            refused(r, "client token is outside the configured intent limits"@)
        } else if mode == SelectionMode::Derived {
            refused(
                r,
                "derived selection needs a disclosed seed and domain and is not available through this intent"@,
            )
        } else if layout == CompositionLayout::ThreeCard && mode != SelectionMode::Cast {
            refused(r, "the three-card layout requires cast selection mode"@)
        } else if layout == CompositionLayout::ThreeCard && enrichment is Some {
            refused(r, "the three-card layout does not accept enrichment"@)
        } else {
            r is Ok
        },
{
    if field.candidates.len() == 0 || field.candidates.len() > limits.max_candidates {
        return Err("candidate count is outside the configured intent limits");
    }
    if !check_token(client_token, limits) {
        return Err("client token is outside the configured intent limits");
    }
    if mode == SelectionMode::Derived {
        return Err(
            "derived selection needs a disclosed seed and domain and is not available through this intent",
        );
    }
    if layout == CompositionLayout::ThreeCard && mode != SelectionMode::Cast {
        return Err("the three-card layout requires cast selection mode");
    }
    if layout == CompositionLayout::ThreeCard && enrichment.is_some() {
        return Err("the three-card layout does not accept enrichment");
    }
    Ok(())
}

/// The selection an admitted reading intent asks of the engine.
#[derive(Clone, Copy, Debug, PartialEq, Eq, Structural)]
pub enum EngineCall {
    /// Follow the qualifier to its maximum.
    Calculate,
    /// Follow the qualifier, with sealed evidence, to its maximum.
    CalculateEnriched,
    /// Cast within the qualified field from the supplied entropy.
    Cast,
    /// Cast within the field qualified with sealed evidence.
    CastEnriched,
    /// Cast the three positions of a three-card spread.
    ThreeCard,
}

/// Which selection an admitted intent makes: reading calculates and
/// selecting casts, with or without evidence; a roll casts a die; a
/// three-card spread, or a composition laid out as one, casts three
/// positions; a single composition follows its selection mode. Anything
/// else, a derived composition included, makes no selection.
pub open spec fn engine_call_of(
    intent: Seq<char>,
    mode: SelectionMode,
    layout: CompositionLayout,
    enriched: bool,
) -> Option<EngineCall> {
    if intent == READ_INTENT@ {
        Some(if enriched { EngineCall::CalculateEnriched } else { EngineCall::Calculate })
    } else if intent == SELECT_INTENT@ {
        Some(if enriched { EngineCall::CastEnriched } else { EngineCall::Cast })
    } else if intent == ROLL_INTENT@ {
        Some(EngineCall::Cast)
    } else if intent == THREE_CARD_SPREAD_INTENT@ {
        Some(EngineCall::ThreeCard)
    } else if intent == COMPOSE_READING_INTENT@ {
        if layout == CompositionLayout::ThreeCard {
            Some(EngineCall::ThreeCard)
        } else {
            match mode {
                SelectionMode::Calculated => Some(
                    if enriched {
                        EngineCall::CalculateEnriched
                    } else {
                        EngineCall::Calculate
                    },
                ),
                SelectionMode::Cast => Some(
                    if enriched {
                        EngineCall::CastEnriched
                    } else {
                        EngineCall::Cast
                    },
                ),
                SelectionMode::Derived => None,
            }
        }
    } else {
        None
    }
}

/// The selection an admitted intent makes, if any. `mode` and `layout`
/// matter only to a composition; `enriched` says whether sealed evidence
/// came with the payload.
pub fn engine_call(intent: &str, mode: SelectionMode, layout: CompositionLayout, enriched: bool) -> (r:
    Option<EngineCall>)
    ensures
        r == engine_call_of(intent@, mode, layout, enriched),
{
    if str_eq(intent, READ_INTENT) {
        Some(if enriched { EngineCall::CalculateEnriched } else { EngineCall::Calculate })
    } else if str_eq(intent, SELECT_INTENT) {
        Some(if enriched { EngineCall::CastEnriched } else { EngineCall::Cast })
    } else if str_eq(intent, ROLL_INTENT) {
        Some(EngineCall::Cast)
    } else if str_eq(intent, THREE_CARD_SPREAD_INTENT) {
        Some(EngineCall::ThreeCard)
    } else if str_eq(intent, COMPOSE_READING_INTENT) {
        if layout == CompositionLayout::ThreeCard {
            Some(EngineCall::ThreeCard)
        } else {
            match mode {
                SelectionMode::Calculated => Some(
                    if enriched {
                        EngineCall::CalculateEnriched
                    } else {
                        EngineCall::Calculate
                    },
                ),
                SelectionMode::Cast => Some(
                    if enriched {
                        EngineCall::CastEnriched
                    } else {
                        EngineCall::Cast
                    },
                ),
                SelectionMode::Derived => None,
            }
        }
    } else {
        None
    }
}

/// Each admitted intent asks the engine for its own selection, whatever the
/// mode, layout and enrichment: reading calculates and selecting casts (each
/// with the enriched weights when there are any), rolling casts, the
/// three-card spread and a composition laid out as three cards make the
/// three-card selection, a single composition follows its mode (a derived one
/// makes none), and creating a concurrence makes no selection.
pub proof fn law_each_intent_asks_its_own_selection(
    mode: SelectionMode,
    layout: CompositionLayout,
    enriched: bool,
)
    ensures
        engine_call_of(READ_INTENT@, mode, layout, enriched) == Some(
            if enriched {
                EngineCall::CalculateEnriched
            } else {
                EngineCall::Calculate
            },
        ),
        engine_call_of(SELECT_INTENT@, mode, layout, enriched) == Some(
            if enriched {
                EngineCall::CastEnriched
            } else {
                EngineCall::Cast
            },
        ),
        engine_call_of(ROLL_INTENT@, mode, layout, enriched) == Some(EngineCall::Cast),
        engine_call_of(THREE_CARD_SPREAD_INTENT@, mode, layout, enriched) == Some(EngineCall::ThreeCard),
        engine_call_of(COMPOSE_READING_INTENT@, mode, CompositionLayout::ThreeCard, enriched) == Some(
            EngineCall::ThreeCard,
        ),
        engine_call_of(COMPOSE_READING_INTENT@, SelectionMode::Calculated, CompositionLayout::Single, enriched)
            == Some(
            if enriched {
                EngineCall::CalculateEnriched
            } else {
                EngineCall::Calculate
            },
        ),
        engine_call_of(COMPOSE_READING_INTENT@, SelectionMode::Cast, CompositionLayout::Single, enriched)
            == Some(
            if enriched {
                EngineCall::CastEnriched
            } else {
                EngineCall::Cast
            },
        ),
        engine_call_of(COMPOSE_READING_INTENT@, SelectionMode::Derived, CompositionLayout::Single, enriched)
            is None,
        engine_call_of(CREATE_CONCURRENCE_INTENT@, mode, layout, enriched) is None,
{
    reveal_strlit("cleromancy.read");
    reveal_strlit("cleromancy.select");
    reveal_strlit("cleromancy.roll");
    reveal_strlit("cleromancy.three-card-spread");
    reveal_strlit("cleromancy.compose-reading");
    reveal_strlit("cleromancy.create-concurrence");
    assert(READ_INTENT@ == "cleromancy.read"@);
    assert(SELECT_INTENT@ == "cleromancy.select"@);
    assert(ROLL_INTENT@ == "cleromancy.roll"@);
    assert(THREE_CARD_SPREAD_INTENT@ == "cleromancy.three-card-spread"@);
    assert(COMPOSE_READING_INTENT@ == "cleromancy.compose-reading"@);
    assert(CREATE_CONCURRENCE_INTENT@ == "cleromancy.create-concurrence"@);
    assert(READ_INTENT@[11] != SELECT_INTENT@[11]);
    assert(READ_INTENT@[12] != ROLL_INTENT@[12]);
    assert(READ_INTENT@[11] != THREE_CARD_SPREAD_INTENT@[11]);
    assert(READ_INTENT@[11] != COMPOSE_READING_INTENT@[11]);
    assert(READ_INTENT@[11] != CREATE_CONCURRENCE_INTENT@[11]);
    assert(SELECT_INTENT@[11] != ROLL_INTENT@[11]);
    assert(SELECT_INTENT@[11] != THREE_CARD_SPREAD_INTENT@[11]);
    assert(SELECT_INTENT@[11] != COMPOSE_READING_INTENT@[11]);
    assert(SELECT_INTENT@[11] != CREATE_CONCURRENCE_INTENT@[11]);
    assert(ROLL_INTENT@[11] != THREE_CARD_SPREAD_INTENT@[11]);
    assert(ROLL_INTENT@[11] != COMPOSE_READING_INTENT@[11]);
    assert(ROLL_INTENT@[11] != CREATE_CONCURRENCE_INTENT@[11]);
    assert(THREE_CARD_SPREAD_INTENT@[11] != COMPOSE_READING_INTENT@[11]);
    assert(THREE_CARD_SPREAD_INTENT@[11] != CREATE_CONCURRENCE_INTENT@[11]);
    assert(COMPOSE_READING_INTENT@[12] != CREATE_CONCURRENCE_INTENT@[12]);
}

/// The intents a node's card advertises, by name. Nothing is advertised
/// unless intents are; a context advertises reading, selecting, rolling, the
/// three-card spread and composing, in that order; saved astrology facts and
/// saved sessions advertise a pattern occasion, when there is at least one
/// choice of each to pair; any other node advertises nothing.
pub open spec fn advertised_intents_of(
    advertise: bool,
    is_context: bool,
    is_facts_or_session: bool,
    facts_choices: nat,
    session_choices: nat,
) -> Seq<Seq<char>> {
    if !advertise {
        seq![]
    } else if is_context {
        seq![READ_INTENT@, SELECT_INTENT@, ROLL_INTENT@, THREE_CARD_SPREAD_INTENT@, COMPOSE_READING_INTENT@]
    } else if is_facts_or_session && facts_choices > 0 && session_choices > 0 {
        seq![CREATE_CONCURRENCE_INTENT@]
    } else {
        seq![]
    }
}

pub fn advertised_intents(
    advertise: bool,
    is_context: bool,
    is_facts_or_session: bool,
    facts_choices: usize,
    session_choices: usize,
) -> (r: Vec<&'static str>)
    ensures
        r@.map_values(|x: &'static str| x@) == advertised_intents_of(
            advertise,
            is_context,
            is_facts_or_session,
            facts_choices as nat,
            session_choices as nat,
        ),
{
    let mut out: Vec<&'static str> = Vec::new();
    if !advertise {
    } else if is_context {
        out.push(READ_INTENT);
        out.push(SELECT_INTENT);
        out.push(ROLL_INTENT);
        out.push(THREE_CARD_SPREAD_INTENT);
        out.push(COMPOSE_READING_INTENT);
    } else if is_facts_or_session && facts_choices > 0 && session_choices > 0 {
        out.push(CREATE_CONCURRENCE_INTENT);
    }
    assert(out@.map_values(|x: &'static str| x@) =~= advertised_intents_of(
        advertise,
        is_context,
        is_facts_or_session,
        facts_choices as nat,
        session_choices as nat,
    ));
    out
}

} // verus!
