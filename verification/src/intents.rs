//! Outward reading intents: their names, schemas and scopes, the payloads a
//! caller sends, and the uniform die field a roll reads from.

use vstd::prelude::*;

use crate::context::{Candidate, Field, UNIFORM_DIE_RULE};
use crate::enrichment::SealedEnrichment;
use crate::reading::SelectionMode;
use crate::text::{copy_str, decimal, push_str, str_eq, trim, trim_str};
use crate::digest::push_decimal;

verus! {

pub const READ_INTENT: &'static str = "cleromancy.read";

pub const SELECT_INTENT: &'static str = "cleromancy.select";

pub const ROLL_INTENT: &'static str = "cleromancy.roll";

pub const THREE_CARD_SPREAD_INTENT: &'static str = "cleromancy.three-card-spread";

pub const COMPOSE_READING_INTENT: &'static str = "cleromancy.compose-reading";

pub const CREATE_CONCURRENCE_INTENT: &'static str = "cleromancy.create-concurrence";

pub const READ_SCHEMA: &'static str = "cleromancy.intent.read/v1";

pub const SELECT_SCHEMA: &'static str = "cleromancy.intent.select/v1";

pub const ROLL_SCHEMA: &'static str = "cleromancy.intent.roll/v1";

pub const THREE_CARD_SPREAD_INTENT_SCHEMA: &'static str = "cleromancy.intent.three-card-spread/v1";

pub const COMPOSE_READING_SCHEMA: &'static str = "cleromancy.intent.compose-reading/v2";

pub const CREATE_CONCURRENCE_SCHEMA: &'static str = "cleromancy.intent.create-concurrence/v1";

pub const READ_SCOPE: &'static str = "cleromancy/intents/read";

pub const SELECT_SCOPE: &'static str = "cleromancy/intents/select";

pub const ROLL_SCOPE: &'static str = "cleromancy/intents/roll";

pub const THREE_CARD_SPREAD_SCOPE: &'static str = "cleromancy/intents/three-card-spread";

pub const COMPOSE_READING_SCOPE: &'static str = "cleromancy/intents/compose-reading";

pub const CREATE_CONCURRENCE_SCOPE: &'static str = "cleromancy/intents/create-concurrence";

/// Bounds on what an intent may carry.
#[derive(Clone, Copy, Debug, PartialEq, Eq, Structural)]
pub struct IntentLimits {
    pub max_payload_bytes: usize,
    pub max_candidates: usize,
    pub max_die_sides: u32,
    pub max_client_token_bytes: usize,
}

impl Default for IntentLimits {
    fn default() -> (r: Self)
        ensures
            r.max_payload_bytes == 64 * 1024,
            r.max_candidates == 512,
            r.max_die_sides == 1_000,
            r.max_client_token_bytes == 256,
    {
        IntentLimits {
            max_payload_bytes: 64 * 1024,
            max_candidates: 512,
            max_die_sides: 1_000,
            max_client_token_bytes: 256,
        }
    }
}

/// A read or select intent over an explicit field.
#[derive(Clone, Debug, PartialEq, Eq)]
pub struct ReadingIntentPayload {
    pub schema: String,
    pub field: Field,
    pub enrichment: Option<SealedEnrichment>,
    /// Opaque caller correlation carried onto the saved session.
    pub client_token: Option<String>,
}

impl ReadingIntentPayload {
    /// A deterministic read of the field.
    pub fn read(field: Field) -> (r: Self)
        ensures
            r.schema@ == READ_SCHEMA@,
            r.field == field,
            r.enrichment is None,
            r.client_token is None,
    {
        ReadingIntentPayload { schema: copy_str(READ_SCHEMA), field, enrichment: None, client_token: None }
    }

    /// A cast across the field.
    pub fn select(field: Field) -> (r: Self)
        ensures
            r.schema@ == SELECT_SCHEMA@,
            r.field == field,
            r.enrichment is None,
            r.client_token is None,
    {
        ReadingIntentPayload { schema: copy_str(SELECT_SCHEMA), field, enrichment: None, client_token: None }
    }

    /// The payload with sealed evidence attached.
    pub fn with_enrichment(self, evidence: SealedEnrichment) -> (r: Self)
        ensures
            r.schema == self.schema,
            r.field == self.field,
            r.enrichment == Some(evidence),
            r.client_token == self.client_token,
    {
        let mut r = self;
        r.enrichment = Some(evidence);
        r
    }

    /// The payload with a caller correlation token.
    pub fn with_client_token(self, client_token: &str) -> (r: Self)
        ensures
            r.schema == self.schema,
            r.field == self.field,
            r.enrichment == self.enrichment,
            r.client_token matches Some(t) && t@ == client_token@,
    {
        let mut r = self;
        r.client_token = Some(copy_str(client_token));
        r
    }
}

/// A roll of one uniformly weighted die.
#[derive(Clone, Debug, PartialEq, Eq)]
pub struct RollIntentPayload {
    pub schema: String,
    pub sides: u32,
    pub label: Option<String>,
    pub client_token: Option<String>,
}

impl RollIntentPayload {
    pub fn new(sides: u32) -> (r: Self)
        ensures
            r.schema@ == ROLL_SCHEMA@,
            r.sides == sides,
            r.label is None,
            r.client_token is None,
    {
        RollIntentPayload { schema: copy_str(ROLL_SCHEMA), sides, label: None, client_token: None }
    }

    pub fn with_label(self, label: &str) -> (r: Self)
        ensures
            r.schema == self.schema,
            r.sides == self.sides,
            r.label matches Some(l) && l@ == label@,
            r.client_token == self.client_token,
    {
        let mut r = self;
        r.label = Some(copy_str(label));
        r
    }

    pub fn with_client_token(self, client_token: &str) -> (r: Self)
        ensures
            r.schema == self.schema,
            r.sides == self.sides,
            r.label == self.label,
            r.client_token matches Some(t) && t@ == client_token@,
    {
        let mut r = self;
        r.client_token = Some(copy_str(client_token));
        r
    }

    /// The die field this roll reads from.
    pub fn field(&self) -> (f: Field)
        ensures
            is_die_field(
                f,
                self.sides as nat,
                match self.label {
                    Some(l) => Some(l@),
                    None => None,
                },
            ),
    {
        match &self.label {
            Some(l) => die_field(self.sides, Some(l.as_str())),
            None => die_field(self.sides, None),
        }
    }
}

/// A cast of the authored three-card spread.
#[derive(Clone, Debug, PartialEq, Eq)]
pub struct ThreeCardSpreadIntentPayload {
    pub schema: String,
    pub field: Field,
    pub client_token: Option<String>,
}

impl ThreeCardSpreadIntentPayload {
    pub fn new(field: Field) -> (r: Self)
        ensures
            r.schema@ == THREE_CARD_SPREAD_INTENT_SCHEMA@,
            r.field == field,
            r.client_token is None,
    {
        ThreeCardSpreadIntentPayload {
            schema: copy_str(THREE_CARD_SPREAD_INTENT_SCHEMA),
            field,
            client_token: None,
        }
    }

    pub fn with_client_token(self, client_token: &str) -> (r: Self)
        ensures
            r.schema == self.schema,
            r.field == self.field,
            r.client_token matches Some(t) && t@ == client_token@,
    {
        let mut r = self;
        r.client_token = Some(copy_str(client_token));
        r
    }
}

/// The layout a composed reading fills.
#[derive(Clone, Copy, Debug, PartialEq, Eq, Structural)]
pub enum CompositionLayout {
    Single,
    ThreeCard,
}

/// A field given inline, or named by the digest of a stored field.
#[derive(Clone, Debug, PartialEq, Eq)]
pub enum FieldSelection {
    Inline { field: Field },
    Stored { digest: String },
}

impl FieldSelection {
    pub fn inline(field: Field) -> (r: Self)
        ensures
            r == (FieldSelection::Inline { field }),
    {
        FieldSelection::Inline { field }
    }

    pub fn stored(digest: &str) -> (r: Self)
        ensures
            r matches FieldSelection::Stored { digest: d } && d@ == digest@,
    {
        FieldSelection::Stored { digest: copy_str(digest) }
    }
}

/// A reading composed from an explicit field, a layout and a selection mode.
#[derive(Clone, Debug, PartialEq, Eq)]
pub struct ReadingCompositionIntentPayload {
    pub schema: String,
    pub field: FieldSelection,
    pub layout: CompositionLayout,
    pub mode: SelectionMode,
    pub enrichment: Option<SealedEnrichment>,
    pub client_token: Option<String>,
}

/// One explicit pairing of saved astrology facts with a reading session.
#[derive(Clone, Debug, PartialEq, Eq)]
pub struct AstrologyReadingConcurrenceIntentPayload {
    pub schema: String,
    pub astrology_facts_digest: String,
    pub reading_session_id: String,
}

impl AstrologyReadingConcurrenceIntentPayload {
    pub fn new(astrology_facts_digest: &str, reading_session_id: &str) -> (r: Self)
        ensures
            r.schema@ == CREATE_CONCURRENCE_SCHEMA@,
            r.astrology_facts_digest@ == astrology_facts_digest@,
            r.reading_session_id@ == reading_session_id@,
    {
        AstrologyReadingConcurrenceIntentPayload {
            schema: copy_str(CREATE_CONCURRENCE_SCHEMA),
            astrology_facts_digest: copy_str(astrology_facts_digest),
            reading_session_id: copy_str(reading_session_id),
        }
    }
}

impl ReadingCompositionIntentPayload {
    /// A composition over an inline field.
    pub fn new(field: Field, layout: CompositionLayout, mode: SelectionMode) -> (r: Self)
        ensures
            r.schema@ == COMPOSE_READING_SCHEMA@,
            r.field == (FieldSelection::Inline { field }),
            r.layout == layout,
            r.mode == mode,
            r.enrichment is None,
            r.client_token is None,
    {
        ReadingCompositionIntentPayload {
            schema: copy_str(COMPOSE_READING_SCHEMA),
            field: FieldSelection::inline(field),
            layout,
            mode,
            enrichment: None,
            client_token: None,
        }
    }

    /// A composition over a stored field named by its digest.
    pub fn stored(digest: &str, layout: CompositionLayout, mode: SelectionMode) -> (r: Self)
        ensures
            r.schema@ == COMPOSE_READING_SCHEMA@,
            r.field matches FieldSelection::Stored { digest: d } && d@ == digest@,
            r.layout == layout,
            r.mode == mode,
            r.enrichment is None,
            r.client_token is None,
    {
        ReadingCompositionIntentPayload {
            schema: copy_str(COMPOSE_READING_SCHEMA),
            field: FieldSelection::stored(digest),
            layout,
            mode,
            enrichment: None,
            client_token: None,
        }
    }

    pub fn single_calculated(field: Field) -> (r: Self)
        ensures
            r.schema@ == COMPOSE_READING_SCHEMA@,
            r.field == (FieldSelection::Inline { field }),
            r.layout == CompositionLayout::Single,
            r.mode == SelectionMode::Calculated,
            r.enrichment is None,
            r.client_token is None,
    {
        Self::new(field, CompositionLayout::Single, SelectionMode::Calculated)
    }

    pub fn single_cast(field: Field) -> (r: Self)
        ensures
            r.schema@ == COMPOSE_READING_SCHEMA@,
            r.field == (FieldSelection::Inline { field }),
            r.layout == CompositionLayout::Single,
            r.mode == SelectionMode::Cast,
            r.enrichment is None,
            r.client_token is None,
    {
        Self::new(field, CompositionLayout::Single, SelectionMode::Cast)
    }

    pub fn three_card(field: Field) -> (r: Self)
        ensures
            r.schema@ == COMPOSE_READING_SCHEMA@,
            r.field == (FieldSelection::Inline { field }),
            r.layout == CompositionLayout::ThreeCard,
            r.mode == SelectionMode::Cast,
            r.enrichment is None,
            r.client_token is None,
    {
        Self::new(field, CompositionLayout::ThreeCard, SelectionMode::Cast)
    }

    pub fn with_enrichment(self, evidence: SealedEnrichment) -> (r: Self)
        ensures
            r.schema == self.schema,
            r.field == self.field,
            r.layout == self.layout,
            r.mode == self.mode,
            r.enrichment == Some(evidence),
            r.client_token == self.client_token,
    {
        let mut r = self;
        r.enrichment = Some(evidence);
        r
    }

    pub fn with_client_token(self, client_token: &str) -> (r: Self)
        ensures
            r.schema == self.schema,
            r.field == self.field,
            r.layout == self.layout,
            r.mode == self.mode,
            r.enrichment == self.enrichment,
            r.client_token matches Some(t) && t@ == client_token@,
    {
        let mut r = self;
        r.client_token = Some(copy_str(client_token));
        r
    }
}

/// The capability scope that admits an intent, if it is one of this
/// application's intents.
pub open spec fn intent_scope(intent: Seq<char>) -> Option<Seq<char>> {
    if intent == READ_INTENT@ {
        Some(READ_SCOPE@)
    } else if intent == SELECT_INTENT@ {
        Some(SELECT_SCOPE@)
    } else if intent == ROLL_INTENT@ {
        Some(ROLL_SCOPE@)
    } else if intent == THREE_CARD_SPREAD_INTENT@ {
        Some(THREE_CARD_SPREAD_SCOPE@)
    } else if intent == COMPOSE_READING_INTENT@ {
        Some(COMPOSE_READING_SCOPE@)
    } else if intent == CREATE_CONCURRENCE_INTENT@ {
        Some(CREATE_CONCURRENCE_SCOPE@)
    } else {
        None
    }
}

pub fn scope_for(intent: &str) -> (r: Option<&'static str>)
    ensures
        match intent_scope(intent@) {
            Some(s) => r matches Some(x) && x@ == s,
            None => r is None,
        },
{
    if str_eq(intent, READ_INTENT) {
        Some(READ_SCOPE)
    } else if str_eq(intent, SELECT_INTENT) {
        Some(SELECT_SCOPE)
    } else if str_eq(intent, ROLL_INTENT) {
        Some(ROLL_SCOPE)
    } else if str_eq(intent, THREE_CARD_SPREAD_INTENT) {
        Some(THREE_CARD_SPREAD_SCOPE)
    } else if str_eq(intent, COMPOSE_READING_INTENT) {
        Some(COMPOSE_READING_SCOPE)
    } else if str_eq(intent, CREATE_CONCURRENCE_INTENT) {
        Some(CREATE_CONCURRENCE_SCOPE)
    } else {
        None
    }
}

/// The label a die is shown with: the given label unless it is blank, else
/// `d` and the number of sides.
pub open spec fn die_label(sides: nat, label: Option<Seq<char>>) -> Seq<char> {
    match label {
        Some(l) => if trim(l).len() > 0 {
            l
        } else {
            "d"@ + decimal(sides)
        },
        None => "d"@ + decimal(sides),
    }
}

/// The candidate for one face of a labelled die.
pub open spec fn is_die_face(c: Candidate, label: Seq<char>, face: nat) -> bool {
    &&& c.id@ == decimal(face)
    &&& c.title@ == label + ": "@ + decimal(face)
    &&& c.interpretation@ == "A uniformly cast face of "@ + label + "."@
    &&& c.tags@.len() == 0
    &&& c.base_weight == 1
}

/// The uniform field of a die: one candidate per face, from one up to the
/// number of sides.
pub open spec fn is_die_field(f: Field, sides: nat, label: Option<Seq<char>>) -> bool {
    &&& f.system@ == "cleromancy.die/d"@ + decimal(sides)
    &&& f.rules@ == UNIFORM_DIE_RULE@
    &&& f.candidates@.len() == sides
    &&& forall|i: int|
        0 <= i < sides ==> is_die_face(#[trigger] f.candidates@[i], die_label(sides, label), (i + 1) as nat)
}

pub fn die_field(sides: u32, label: Option<&str>) -> (f: Field)
    ensures
        is_die_field(
            f,
            sides as nat,
            match label {
                Some(l) => Some(l@),
                None => None,
            },
        ),
{
    let ghost lv: Option<Seq<char>> = match label {
        Some(l) => Some(l@),
        None => None,
    };
    let mut name = String::new();
    let given = match label {
        Some(l) => {
            let t = trim_str(l);
            if t.as_str().is_empty() {
                None
            } else {
                Some(l)
            }
        },
        None => None,
    };
    match given {
        Some(l) => push_str(&mut name, l),
        None => {
            push_str(&mut name, "d");
            push_decimal(&mut name, sides as u64);
        },
    }
    assert(name@ == die_label(sides as nat, lv));
    let mut system = String::new();
    push_str(&mut system, "cleromancy.die/d");
    push_decimal(&mut system, sides as u64);
    let mut interpretation = String::new();
    push_str(&mut interpretation, "A uniformly cast face of ");
    push_str(&mut interpretation, name.as_str());
    push_str(&mut interpretation, ".");
    let mut candidates: Vec<Candidate> = Vec::new();
    let mut face: u64 = 1;
    while face <= sides as u64
        invariant
            1 <= face <= sides as u64 + 1,
            candidates@.len() == face - 1,
            name@ == die_label(sides as nat, lv),
            interpretation@ == "A uniformly cast face of "@ + name@ + "."@,
            forall|i: int|
                0 <= i < candidates@.len() ==> is_die_face(
                    #[trigger] candidates@[i],
                    name@,
                    (i + 1) as nat,
                ),
        decreases sides as u64 + 1 - face,
    {
        let mut id = String::new();
        push_decimal(&mut id, face);
        let mut title = String::new();
        push_str(&mut title, name.as_str());
        push_str(&mut title, ": ");
        push_decimal(&mut title, face);
        let c = Candidate::new(id.as_str(), title.as_str(), interpretation.as_str());
        candidates.push(c);
        face += 1;
    }
    Field::new(system.as_str(), UNIFORM_DIE_RULE, candidates)
}

} // verus!
