//! Authored spreads: the fixed three-card frame, reusable spread templates,
//! and the attachment of a template to a saved occasion.

use vstd::prelude::*;

use crate::digest::{digest_of, digest_text, json_string, push_json_string};
use crate::order::{compare_str, lex_lt, lemma_lex_asymmetric, lemma_lex_irreflexive, lemma_lex_total, lemma_lex_transitive, Order};
use crate::session::{ReadingPlacement, ReadingSession};
use crate::text::{byte_len, copy_str, is_ascii_digit, is_ascii_lower, is_digest, is_digest_seq, push_str, str_byte_len, str_eq, trim, trim_str, chars_of};

verus! {

pub const THREE_CARD_SPREAD_SCHEMA: &'static str = "cleromancy.three-card-spread/v1";

pub const SPREAD_TEMPLATE_SCHEMA: &'static str = "cleromancy.spread-template/v1";

pub const SPREAD_SCHEMA: &'static str = "cleromancy.spread/v1";

pub const MAX_SPREAD_POSITIONS: usize = 12;

pub const MAX_SPREAD_RELATIONS: usize = 24;

pub const MAX_POSITION_NAME_BYTES: usize = 64;

pub const MAX_LABEL_BYTES: usize = 256;

// ---------------------------------------------------------------------------
// The three-card frame
// ---------------------------------------------------------------------------

/// The one authored three-card layout.
#[derive(Clone, Copy, Debug, PartialEq, Eq, Structural)]
pub enum ThreeCardPosition {
    Foundation,
    Tension,
    NextStep,
}

impl ThreeCardPosition {
    pub open spec fn name(self) -> Seq<char> {
        match self {
            ThreeCardPosition::Foundation => "foundation"@,
            ThreeCardPosition::Tension => "tension"@,
            ThreeCardPosition::NextStep => "next_step"@,
        }
    }

    pub fn as_str(self) -> (r: &'static str)
        ensures
            r@ == self.name(),
    {
        match self {
            ThreeCardPosition::Foundation => "foundation",
            ThreeCardPosition::Tension => "tension",
            ThreeCardPosition::NextStep => "next_step",
        }
    }
}

/// The three positions in layout order.
pub open spec fn all_positions() -> Seq<ThreeCardPosition> {
    seq![ThreeCardPosition::Foundation, ThreeCardPosition::Tension, ThreeCardPosition::NextStep]
}

#[derive(Clone, Copy, Debug, PartialEq, Eq, Structural)]
pub enum ThreeCardRelationKind {
    Questions,
    NextStep,
}

impl ThreeCardRelationKind {
    pub open spec fn name(self) -> Seq<char> {
        match self {
            ThreeCardRelationKind::Questions => "questions"@,
            ThreeCardRelationKind::NextStep => "next_step"@,
        }
    }
}

#[derive(Clone, Debug, PartialEq, Eq)]
pub struct ThreeCardPlacement {
    pub position: ThreeCardPosition,
    pub reading_id: String,
}

#[derive(Clone, Debug, PartialEq, Eq)]
pub struct ThreeCardRelation {
    pub from: ThreeCardPosition,
    pub to: ThreeCardPosition,
    pub kind: ThreeCardRelationKind,
    pub label: String,
}

/// An authored three-card frame attached to a saved session.
#[derive(Clone, Debug, PartialEq, Eq)]
pub struct ThreeCardSpread {
    pub schema: String,
    pub id: String,
    pub session_id: String,
    pub placements: Vec<ThreeCardPlacement>,
    pub relations: Vec<ThreeCardRelation>,
}

#[derive(Clone, Debug, PartialEq, Eq)]
pub enum SpreadError {
    InvalidSpread(String),
}

/// An error carrying exactly the given explanation.
pub open spec fn spread_error(e: SpreadError, message: Seq<char>) -> bool {
    e matches SpreadError::InvalidSpread(m) && m@ == message
}

fn invalid(message: &str) -> (e: SpreadError)
    ensures
        spread_error(e, message@),
{
    SpreadError::InvalidSpread(copy_str(message))
}

pub type PlacementView = (ThreeCardPosition, Seq<char>);

pub type RelationView = (ThreeCardPosition, ThreeCardPosition, ThreeCardRelationKind, Seq<char>);

pub open spec fn placement_views(ps: Seq<ThreeCardPlacement>) -> Seq<PlacementView> {
    ps.map_values(|p: ThreeCardPlacement| (p.position, p.reading_id@))
}

pub open spec fn relation_views(rs: Seq<ThreeCardRelation>) -> Seq<RelationView> {
    rs.map_values(|r: ThreeCardRelation| (r.from, r.to, r.kind, r.label@))
}

/// The two authored relationships: tension tests the foundation, and the
/// next step answers the tension.
pub open spec fn authored_relations() -> Seq<RelationView> {
    seq![
        (ThreeCardPosition::Tension, ThreeCardPosition::Foundation, ThreeCardRelationKind::Questions, "tests the foundation"@),
        (ThreeCardPosition::NextStep, ThreeCardPosition::Tension, ThreeCardRelationKind::NextStep, "answers the tension"@),
    ]
}

fn make_authored_relations() -> (r: Vec<ThreeCardRelation>)
    ensures
        relation_views(r@) == authored_relations(),
{
    let mut r: Vec<ThreeCardRelation> = Vec::new();
    r.push(
        ThreeCardRelation {
            from: ThreeCardPosition::Tension,
            to: ThreeCardPosition::Foundation,
            kind: ThreeCardRelationKind::Questions,
            label: copy_str("tests the foundation"),
        },
    );
    r.push(
        ThreeCardRelation {
            from: ThreeCardPosition::NextStep,
            to: ThreeCardPosition::Tension,
            kind: ThreeCardRelationKind::NextStep,
            label: copy_str("answers the tension"),
        },
    );
    assert(relation_views(r@) =~= authored_relations());
    r
}

pub open spec fn json_placement(p: PlacementView) -> Seq<char> {
    "{\"position\":"@ + json_string(p.0.name()) + ",\"reading_id\":"@ + json_string(p.1) + "}"@
}

pub open spec fn json_placement_items(ps: Seq<PlacementView>) -> Seq<char>
    decreases ps.len(),
{
    if ps.len() == 0 {
        seq![]
    } else if ps.len() == 1 {
        json_placement(ps[0])
    } else {
        json_placement_items(ps.drop_last()) + seq![','] + json_placement(ps.last())
    }
}

pub open spec fn json_three_card_relation(r: RelationView) -> Seq<char> {
    "{\"from\":"@ + json_string(r.0.name()) + ",\"to\":"@ + json_string(r.1.name())
        + ",\"kind\":"@ + json_string(r.2.name()) + ",\"label\":"@ + json_string(r.3) + "}"@
}

pub open spec fn json_three_card_relation_items(rs: Seq<RelationView>) -> Seq<char>
    decreases rs.len(),
{
    if rs.len() == 0 {
        seq![]
    } else if rs.len() == 1 {
        json_three_card_relation(rs[0])
    } else {
        json_three_card_relation_items(rs.drop_last()) + seq![','] + json_three_card_relation(
            rs.last(),
        )
    }
}

/// The identity text of a three-card frame.
pub open spec fn three_card_identity(
    session_id: Seq<char>,
    placements: Seq<PlacementView>,
    relations: Seq<RelationView>,
) -> Seq<char> {
    "{\"schema\":"@ + json_string(THREE_CARD_SPREAD_SCHEMA@) + ",\"session_id\":"@ + json_string(
        session_id,
    ) + ",\"placements\":["@ + json_placement_items(placements) + "],\"relations\":["@
        + json_three_card_relation_items(relations) + "]}"@
}

fn push_placement(out: &mut String, p: &ThreeCardPlacement)
    ensures
        final(out)@ == old(out)@ + json_placement((p.position, p.reading_id@)),
{
    push_str(out, "{\"position\":");
    push_json_string(out, p.position.as_str());
    push_str(out, ",\"reading_id\":");
    push_json_string(out, p.reading_id.as_str());
    push_str(out, "}");
    assert(out@ =~= old(out)@ + json_placement((p.position, p.reading_id@)));
}

fn push_three_card_relation(out: &mut String, r: &ThreeCardRelation)
    ensures
        final(out)@ == old(out)@ + json_three_card_relation((r.from, r.to, r.kind, r.label@)),
{
    push_str(out, "{\"from\":");
    push_json_string(out, r.from.as_str());
    push_str(out, ",\"to\":");
    push_json_string(out, r.to.as_str());
    push_str(out, ",\"kind\":");
    let kind = match r.kind {
        ThreeCardRelationKind::Questions => "questions",
        ThreeCardRelationKind::NextStep => "next_step",
    };
    push_json_string(out, kind);
    push_str(out, ",\"label\":");
    push_json_string(out, r.label.as_str());
    push_str(out, "}");
    assert(out@ =~= old(out)@ + json_three_card_relation((r.from, r.to, r.kind, r.label@)));
}

/// The identity digest of a three-card frame.
pub fn three_card_spread_id(
    session_id: &str,
    placements: &Vec<ThreeCardPlacement>,
    relations: &Vec<ThreeCardRelation>,
) -> (d: String)
    ensures
        d@ == digest_of(
            three_card_identity(session_id@, placement_views(placements@), relation_views(relations@)),
        ),
        is_digest_seq(d@),
{
    let mut out = String::new();
    push_str(&mut out, "{\"schema\":");
    push_json_string(&mut out, THREE_CARD_SPREAD_SCHEMA);
    push_str(&mut out, ",\"session_id\":");
    push_json_string(&mut out, session_id);
    push_str(&mut out, ",\"placements\":[");
    let ghost pv = placement_views(placements@);
    let ghost start = out@;
    let mut i: usize = 0;
    assert(pv.take(0) =~= Seq::<PlacementView>::empty());
    while i < placements.len()
        invariant
            i <= placements@.len(),
            pv == placement_views(placements@),
            out@ == start + json_placement_items(pv.take(i as int)),
        decreases placements@.len() - i,
    {
        if i > 0 {
            crate::text::push_char(&mut out, ',');
        }
        push_placement(&mut out, &placements[i]);
        proof {
            let t = pv.take(i as int + 1);
            assert(t.drop_last() =~= pv.take(i as int));
            if i == 0 {
                assert(json_placement_items(t) == json_placement(t[0]));
            }
        }
        i += 1;
    }
    assert(pv.take(placements@.len() as int) =~= pv);
    push_str(&mut out, "],\"relations\":[");
    let ghost rv = relation_views(relations@);
    let ghost start2 = out@;
    let mut j: usize = 0;
    assert(rv.take(0) =~= Seq::<RelationView>::empty());
    while j < relations.len()
        invariant
            j <= relations@.len(),
            rv == relation_views(relations@),
            out@ == start2 + json_three_card_relation_items(rv.take(j as int)),
        decreases relations@.len() - j,
    {
        if j > 0 {
            crate::text::push_char(&mut out, ',');
        }
        push_three_card_relation(&mut out, &relations[j]);
        proof {
            let t = rv.take(j as int + 1);
            assert(t.drop_last() =~= rv.take(j as int));
            if j == 0 {
                assert(json_three_card_relation_items(t) == json_three_card_relation(t[0]));
            }
        }
        j += 1;
    }
    assert(rv.take(relations@.len() as int) =~= rv);
    push_str(&mut out, "]}");
    assert(out@ =~= three_card_identity(session_id@, pv, rv));
    digest_text(&out)
}

/// The reading bound to a position: that of the first session placement
/// with the position's name.
pub open spec fn reading_at(ps: Seq<ReadingPlacement>, name: Seq<char>) -> Option<Seq<char>>
    decreases ps.len(),
{
    if ps.len() == 0 {
        None
    } else if ps[0].position@ == name {
        Some(ps[0].reading_id@)
    } else {
        reading_at(ps.drop_first(), name)
    }
}

pub(crate) fn find_reading_at(ps: &[ReadingPlacement], name: &str) -> (r: Option<String>)
    ensures
        match reading_at(ps@, name@) {
            Some(id) => r matches Some(x) && x@ == id,
            None => r is None,
        },
{
    let mut i: usize = 0;
    assert(ps@.skip(0) =~= ps@);
    while i < ps.len()
        invariant
            i <= ps@.len(),
            reading_at(ps@, name@) == reading_at(ps@.skip(i as int), name@),
        decreases ps@.len() - i,
    {
        let ghost rest = ps@.skip(i as int);
        assert(rest[0] == ps@[i as int]);
        assert(rest.drop_first() =~= ps@.skip(i + 1));
        if str_eq(ps[i].position.as_str(), name) {
            return Some(ps[i].reading_id.clone());
        }
        i += 1;
    }
    None
}

/// What a three-card frame over a session's placements is, when the session
/// binds every position: the placements in layout order and the authored
/// relations.
pub open spec fn frame_placements(ps: Seq<ReadingPlacement>) -> Seq<PlacementView> {
    seq![
        (ThreeCardPosition::Foundation, reading_at(ps, "foundation"@)->0),
        (ThreeCardPosition::Tension, reading_at(ps, "tension"@)->0),
        (ThreeCardPosition::NextStep, reading_at(ps, "next_step"@)->0),
    ]
}

pub open spec fn binds_all_positions(ps: Seq<ReadingPlacement>) -> bool {
    reading_at(ps, "foundation"@) is Some && reading_at(ps, "tension"@) is Some && reading_at(
        ps,
        "next_step"@,
    ) is Some
}

/// The first problem `ThreeCardSpread::validate` reports, if any.
pub open spec fn three_card_problem(s: ThreeCardSpread) -> Option<Seq<char>> {
    let pv = placement_views(s.placements@);
    if s.schema@ != THREE_CARD_SPREAD_SCHEMA@ {
        Some("schema"@)
    } else if !is_digest_seq(s.session_id@) {
        Some("session id"@)
    } else if pv.len() != 3 || pv.map_values(|p: PlacementView| p.0) != all_positions() {
        Some("placements"@)
    } else if exists|i: int| 0 <= i < 3 && !is_digest_seq(#[trigger] pv[i].1) {
        Some("placement reading id"@)
    } else if relation_views(s.relations@) != authored_relations() {
        Some("authored relations"@)
    } else if s.id@ != digest_of(three_card_identity(s.session_id@, pv, relation_views(s.relations@))) {
        Some("identity"@)
    } else {
        None
    }
}

fn relations_are_authored(rs: &Vec<ThreeCardRelation>) -> (b: bool)
    ensures
        b == (relation_views(rs@) == authored_relations()),
{
    if rs.len() != 2 {
        assert(relation_views(rs@).len() != authored_relations().len());
        return false;
    }
    let a = &rs[0];
    let b = &rs[1];
    let ok = a.from == ThreeCardPosition::Tension && a.to == ThreeCardPosition::Foundation && a.kind
        == ThreeCardRelationKind::Questions && str_eq(a.label.as_str(), "tests the foundation")
        && b.from == ThreeCardPosition::NextStep && b.to == ThreeCardPosition::Tension && b.kind
        == ThreeCardRelationKind::NextStep && str_eq(b.label.as_str(), "answers the tension");
    if ok {
        assert(relation_views(rs@) =~= authored_relations());
    } else {
        assert(relation_views(rs@)[0] != authored_relations()[0] || relation_views(rs@)[1]
            != authored_relations()[1]);
    }
    ok
}

impl ThreeCardSpread {
    /// The frame over a session's placements. Each position takes the
    /// reading of the first placement with its name.
    pub fn new(session_id: &str, session_placements: &[ReadingPlacement]) -> (r: Result<
        Self,
        SpreadError,
    >)
        ensures
            !binds_all_positions(session_placements@) ==> (r matches Err(e) && spread_error(
                e,
                "session positions"@,
            )),
            binds_all_positions(session_placements@) && !is_digest_seq(session_id@) ==> (r matches Err(e)
                && spread_error(e, "session id"@)),
            binds_all_positions(session_placements@) && is_digest_seq(session_id@) && (exists|i: int|
                0 <= i < 3 && !is_digest_seq(#[trigger] frame_placements(session_placements@)[i].1)) ==> (r matches Err(e)
                && spread_error(e, "placement reading id"@)),
            binds_all_positions(session_placements@) && is_digest_seq(session_id@) && (forall|i: int|
                0 <= i < 3 ==> is_digest_seq(#[trigger] frame_placements(session_placements@)[i].1)) ==> (r matches Ok(s)
                && s.schema@ == THREE_CARD_SPREAD_SCHEMA@ && s.session_id@ == session_id@
                && placement_views(s.placements@) == frame_placements(session_placements@)
                && relation_views(s.relations@) == authored_relations() && s.id@ == digest_of(
                three_card_identity(session_id@, frame_placements(session_placements@), authored_relations()),
            )),
            r matches Ok(s) ==> three_card_problem(s) is None,
    {
        let foundation = match find_reading_at(session_placements, "foundation") {
            Some(id) => id,
            None => {
                return Err(invalid("session positions"));
            },
        };
        let tension = match find_reading_at(session_placements, "tension") {
            Some(id) => id,
            None => {
                return Err(invalid("session positions"));
            },
        };
        let next_step = match find_reading_at(session_placements, "next_step") {
            Some(id) => id,
            None => {
                return Err(invalid("session positions"));
            },
        };
        let mut placements: Vec<ThreeCardPlacement> = Vec::new();
        placements.push(ThreeCardPlacement { position: ThreeCardPosition::Foundation, reading_id: foundation });
        placements.push(ThreeCardPlacement { position: ThreeCardPosition::Tension, reading_id: tension });
        placements.push(ThreeCardPlacement { position: ThreeCardPosition::NextStep, reading_id: next_step });
        assert(placement_views(placements@) =~= frame_placements(session_placements@));
        let relations = make_authored_relations();
        let id = three_card_spread_id(session_id, &placements, &relations);
        let spread = ThreeCardSpread {
            schema: copy_str(THREE_CARD_SPREAD_SCHEMA),
            id,
            session_id: copy_str(session_id),
            placements,
            relations,
        };
        proof {
            let pv = placement_views(spread.placements@);
            assert(pv == frame_placements(session_placements@));
            assert(pv.map_values(|p: PlacementView| p.0) =~= all_positions());
            if exists|i: int| 0 <= i < 3 && !is_digest_seq(#[trigger] frame_placements(session_placements@)[i].1) {
                let i = choose|i: int| 0 <= i < 3 && !is_digest_seq(#[trigger] frame_placements(session_placements@)[i].1);
                assert(!is_digest_seq(pv[i].1));
            }
        }
        match spread.validate() {
            Ok(()) => Ok(spread),
            Err(e) => Err(e),
        }
    }

    /// Checks the schema, the session and reading identities, the fixed
    /// layout and relations, and the frame's own identity.
    pub fn validate(&self) -> (r: Result<(), SpreadError>)
        ensures
            match three_card_problem(*self) {
                None => r is Ok,
                Some(m) => r matches Err(e) && spread_error(e, m),
            },
    {
        let ghost pv = placement_views(self.placements@);
        if !str_eq(self.schema.as_str(), THREE_CARD_SPREAD_SCHEMA) {
            return Err(invalid("schema"));
        }
        if !is_digest(self.session_id.as_str()) {
            return Err(invalid("session id"));
        }
        if self.placements.len() != 3 || self.placements[0].position != ThreeCardPosition::Foundation
            || self.placements[1].position != ThreeCardPosition::Tension
            || self.placements[2].position != ThreeCardPosition::NextStep {
            proof {
                if pv.len() == 3 {
                    assert(pv.map_values(|p: PlacementView| p.0)[0] == self.placements@[0].position);
                    assert(pv.map_values(|p: PlacementView| p.0)[1] == self.placements@[1].position);
                    assert(pv.map_values(|p: PlacementView| p.0)[2] == self.placements@[2].position);
                    assert(pv.map_values(|p: PlacementView| p.0) != all_positions());
                }
            }
            return Err(invalid("placements"));
        }
        assert(pv.map_values(|p: PlacementView| p.0) =~= all_positions());
        let mut i: usize = 0;
        while i < 3
            invariant
                i <= 3,
                self.placements@.len() == 3,
                pv == placement_views(self.placements@),
                self.schema@ == THREE_CARD_SPREAD_SCHEMA@,
                is_digest_seq(self.session_id@),
                pv.map_values(|p: PlacementView| p.0) == all_positions(),
                forall|j: int| 0 <= j < i ==> is_digest_seq(#[trigger] pv[j].1),
            decreases 3 - i,
        {
            if !is_digest(self.placements[i].reading_id.as_str()) {
                assert(!is_digest_seq(pv[i as int].1));
                return Err(invalid("placement reading id"));
            }
            i += 1;
        }
        if !relations_are_authored(&self.relations) {
            return Err(invalid("authored relations"));
        }
        let expected = three_card_spread_id(
            self.session_id.as_str(),
            &self.placements,
            &self.relations,
        );
        if !str_eq(self.id.as_str(), expected.as_str()) {
            return Err(invalid("identity"));
        }
        Ok(())
    }
}

// ---------------------------------------------------------------------------
// Spread templates
// ---------------------------------------------------------------------------

/// One named, ordered place in a reusable authored spread layout.
#[derive(Clone, Debug, PartialEq, Eq)]
pub struct SpreadPosition {
    pub name: String,
    pub label: String,
}

/// The finite relationship kinds a spread author may state between positions.
#[derive(Clone, Copy, Debug, PartialEq, Eq, Structural)]
pub enum SpreadRelationKind {
    Supports,
    Contradicts,
    Questions,
    NextStep,
    Elaborates,
}

impl SpreadRelationKind {
    /// The kind's place in declaration order, which orders relations.
    pub open spec fn rank(self) -> int {
        match self {
            SpreadRelationKind::Supports => 0,
            SpreadRelationKind::Contradicts => 1,
            SpreadRelationKind::Questions => 2,
            SpreadRelationKind::NextStep => 3,
            SpreadRelationKind::Elaborates => 4,
        }
    }

    pub open spec fn name(self) -> Seq<char> {
        match self {
            SpreadRelationKind::Supports => "supports"@,
            SpreadRelationKind::Contradicts => "contradicts"@,
            SpreadRelationKind::Questions => "questions"@,
            SpreadRelationKind::NextStep => "next_step"@,
            SpreadRelationKind::Elaborates => "elaborates"@,
        }
    }

    pub fn rank_of(self) -> (r: u8)
        ensures
            r as int == self.rank(),
    {
        match self {
            SpreadRelationKind::Supports => 0,
            SpreadRelationKind::Contradicts => 1,
            SpreadRelationKind::Questions => 2,
            SpreadRelationKind::NextStep => 3,
            SpreadRelationKind::Elaborates => 4,
        }
    }

    pub fn as_str(self) -> (r: &'static str)
        ensures
            r@ == self.name(),
    {
        match self {
            SpreadRelationKind::Supports => "supports",
            SpreadRelationKind::Contradicts => "contradicts",
            SpreadRelationKind::Questions => "questions",
            SpreadRelationKind::NextStep => "next_step",
            SpreadRelationKind::Elaborates => "elaborates",
        }
    }
}

/// One authored relationship between two named positions in a layout.
#[derive(Clone, Debug, PartialEq, Eq)]
pub struct SpreadRelation {
    pub from: String,
    pub to: String,
    pub kind: SpreadRelationKind,
    pub label: String,
}

/// A reusable, content-addressed layout.
#[derive(Clone, Debug, PartialEq, Eq)]
pub struct SpreadTemplate {
    pub schema: String,
    pub id: String,
    pub label: String,
    pub positions: Vec<SpreadPosition>,
    pub relations: Vec<SpreadRelation>,
}

/// The attachment of one authored template to one saved session.
#[derive(Clone, Debug, PartialEq, Eq)]
pub struct Spread {
    pub schema: String,
    pub id: String,
    pub template_id: String,
    pub session_id: String,
}

impl SpreadPosition {
    pub fn new(name: &str, label: &str) -> (r: Self)
        ensures
            r.name@ == name@,
            r.label@ == label@,
    {
        SpreadPosition { name: copy_str(name), label: copy_str(label) }
    }
}

impl SpreadRelation {
    pub fn new(from: &str, kind: SpreadRelationKind, to: &str, label: &str) -> (r: Self)
        ensures
            r.from@ == from@,
            r.to@ == to@,
            r.kind == kind,
            r.label@ == label@,
    {
        SpreadRelation { from: copy_str(from), to: copy_str(to), kind, label: copy_str(label) }
    }
}

pub type PositionView = (Seq<char>, Seq<char>);

pub type SpreadRelationView = (Seq<char>, Seq<char>, SpreadRelationKind, Seq<char>);

pub open spec fn position_views(ps: Seq<SpreadPosition>) -> Seq<PositionView> {
    ps.map_values(|p: SpreadPosition| (p.name@, p.label@))
}

pub open spec fn spread_relation_view(r: SpreadRelation) -> SpreadRelationView {
    (r.from@, r.to@, r.kind, r.label@)
}

pub open spec fn spread_relation_views(rs: Seq<SpreadRelation>) -> Seq<SpreadRelationView> {
    rs.map_values(|r: SpreadRelation| spread_relation_view(r))
}

/// The derived order of relations: by source, target, kind, then label.
pub open spec fn rel_lt(a: SpreadRelationView, b: SpreadRelationView) -> bool {
    lex_lt(a.0, b.0) || (a.0 == b.0 && (lex_lt(a.1, b.1) || (a.1 == b.1 && (a.2.rank() < b.2.rank()
        || (a.2 == b.2 && lex_lt(a.3, b.3))))))
}

pub open spec fn rel_le(a: SpreadRelationView, b: SpreadRelationView) -> bool {
    a == b || rel_lt(a, b)
}

/// Every relation is no greater than the next.
pub open spec fn rel_sorted(rs: Seq<SpreadRelationView>) -> bool {
    forall|i: int, j: int| 0 <= i < j < rs.len() ==> rel_le(#[trigger] rs[i], #[trigger] rs[j])
}

pub proof fn lemma_rel_order(a: SpreadRelationView, b: SpreadRelationView, c: SpreadRelationView)
    ensures
        !rel_lt(a, a),
        rel_lt(a, b) ==> !rel_lt(b, a),
        a == b || rel_lt(a, b) || rel_lt(b, a),
        rel_lt(a, b) && rel_lt(b, c) ==> rel_lt(a, c),
{
    lemma_lex_irreflexive(a.0);
    lemma_lex_irreflexive(a.1);
    lemma_lex_irreflexive(a.3);
    lemma_lex_asymmetric(a.0, b.0);
    lemma_lex_asymmetric(a.1, b.1);
    lemma_lex_asymmetric(a.3, b.3);
    lemma_lex_total(a.0, b.0);
    lemma_lex_total(a.1, b.1);
    lemma_lex_total(a.3, b.3);
    if a.0 == b.0 && a.1 == b.1 && a.2.rank() == b.2.rank() && a.3 == b.3 {
        assert(a.2 == b.2);
    }
    if rel_lt(a, b) && rel_lt(b, c) {
        if lex_lt(a.0, b.0) && lex_lt(b.0, c.0) {
            lemma_lex_transitive(a.0, b.0, c.0);
        }
        if lex_lt(a.1, b.1) && lex_lt(b.1, c.1) {
            lemma_lex_transitive(a.1, b.1, c.1);
        }
        if lex_lt(a.3, b.3) && lex_lt(b.3, c.3) {
            lemma_lex_transitive(a.3, b.3, c.3);
        }
    }
}

/// Compares two relations in their derived order.
pub fn compare_relation(a: &SpreadRelation, b: &SpreadRelation) -> (r: Order)
    ensures
        r == Order::Less <==> rel_lt(spread_relation_view(*a), spread_relation_view(*b)),
        r == Order::Equal <==> spread_relation_view(*a) == spread_relation_view(*b),
        r == Order::Greater <==> rel_lt(spread_relation_view(*b), spread_relation_view(*a)),
{
    proof {
        lemma_rel_order(spread_relation_view(*a), spread_relation_view(*b), spread_relation_view(*a));
        lemma_rel_order(spread_relation_view(*b), spread_relation_view(*a), spread_relation_view(*b));
    }
    match compare_str(a.from.as_str(), b.from.as_str()) {
        Order::Equal => {},
        other => {
            return other;
        },
    }
    match compare_str(a.to.as_str(), b.to.as_str()) {
        Order::Equal => {},
        other => {
            return other;
        },
    }
    let ra = a.kind.rank_of();
    let rb = b.kind.rank_of();
    if ra < rb {
        return Order::Less;
    }
    if ra > rb {
        return Order::Greater;
    }
    compare_str(a.label.as_str(), b.label.as_str())
}

/// Sorts relations into their derived order, keeping equal relations in
/// their given order.
pub fn sort_relations(relations: Vec<SpreadRelation>) -> (r: Vec<SpreadRelation>)
    ensures
        rel_sorted(spread_relation_views(r@)),
        spread_relation_views(r@).to_multiset() == spread_relation_views(relations@).to_multiset(),
{
    let mut out: Vec<SpreadRelation> = Vec::new();
    let mut i: usize = 0;
    broadcast use vstd::seq_lib::group_to_multiset_ensures;
    while i < relations.len()
        invariant
            i <= relations@.len(),
            rel_sorted(spread_relation_views(out@)),
            spread_relation_views(out@).to_multiset() == spread_relation_views(relations@.take(
                i as int,
            )).to_multiset(),
        decreases relations@.len() - i,
    {
        let ghost xv = spread_relation_view(relations@[i as int]);
        let x = SpreadRelation {
            from: relations[i].from.clone(),
            to: relations[i].to.clone(),
            kind: relations[i].kind,
            label: relations[i].label.clone(),
        };
        assert(spread_relation_view(x) == xv);
        let ghost ov = spread_relation_views(out@);
        let k = insertion_point(&out, &x);
        proof {
            assert forall|a: int, b: int| 0 <= a < b < ov.insert(k as int, xv).len() implies rel_le(
                #[trigger] ov.insert(k as int, xv)[a],
                #[trigger] ov.insert(k as int, xv)[b],
            ) by {
                let nv = ov.insert(k as int, xv);
                if b < k {
                    assert(nv[a] == ov[a] && nv[b] == ov[b]);
                } else if b == k {
                    assert(nv[a] == ov[a]);
                } else if a < k {
                    assert(nv[a] == ov[a] && nv[b] == ov[b - 1]);
                    assert(rel_lt(xv, ov[k as int]) || k as int == ov.len());
                    if b - 1 > k {
                        assert(rel_le(ov[k as int], ov[b - 1]));
                        lemma_rel_order(xv, ov[k as int], ov[b - 1]);
                    }
                    lemma_rel_order(ov[a], xv, ov[b - 1]);
                } else if a == k {
                    assert(nv[b] == ov[b - 1]);
                    if b - 1 > k {
                        assert(rel_le(ov[k as int], ov[b - 1]));
                        lemma_rel_order(xv, ov[k as int], ov[b - 1]);
                    }
                } else {
                    assert(nv[a] == ov[a - 1] && nv[b] == ov[b - 1]);
                }
            }
            assert(relations@.take(i as int + 1) =~= relations@.take(i as int).push(relations@[i as int]));
            assert(spread_relation_views(relations@.take(i as int + 1)) =~= spread_relation_views(
                relations@.take(i as int),
            ).push(xv));
        }
        out.insert(k, x);
        assert(spread_relation_views(out@) =~= ov.insert(k as int, xv));
        proof {
            vstd::seq_lib::to_multiset_insert(ov, k as int, xv);
            vstd::seq_lib::to_multiset_build(spread_relation_views(relations@.take(i as int)), xv);
        }
        i += 1;
    }
    assert(relations@.take(relations@.len() as int) =~= relations@);
    out
}

/// The first position whose relation is greater than `x`.
fn insertion_point(v: &Vec<SpreadRelation>, x: &SpreadRelation) -> (k: usize)
    requires
        rel_sorted(spread_relation_views(v@)),
    ensures
        k <= v@.len(),
        forall|j: int| 0 <= j < k ==> rel_le(#[trigger] spread_relation_views(v@)[j], spread_relation_view(*x)),
        k < v@.len() ==> rel_lt(spread_relation_view(*x), spread_relation_views(v@)[k as int]),
{
    let mut k: usize = 0;
    while k < v.len()
        invariant
            k <= v@.len(),
            forall|j: int| 0 <= j < k ==> rel_le(#[trigger] spread_relation_views(v@)[j], spread_relation_view(*x)),
        decreases v@.len() - k,
    {
        match compare_relation(&v[k], x) {
            Order::Greater => {
                return k;
            },
            _ => {},
        }
        k += 1;
    }
    k
}


/// The relations in their derived order: the sorted arrangement of the
/// same relations.
pub open spec fn sorted_relations(rs: Seq<SpreadRelationView>) -> Seq<SpreadRelationView> {
    choose|s: Seq<SpreadRelationView>| rel_sorted(s) && s.to_multiset() == rs.to_multiset()
}

/// Two sorted arrangements of the same relations are equal.
pub proof fn lemma_sorted_unique(a: Seq<SpreadRelationView>, b: Seq<SpreadRelationView>)
    requires
        rel_sorted(a),
        rel_sorted(b),
        a.to_multiset() == b.to_multiset(),
    ensures
        a == b,
    decreases a.len(),
{
    broadcast use vstd::seq_lib::group_to_multiset_ensures;

    vstd::seq_lib::to_multiset_len(a);
    vstd::seq_lib::to_multiset_len(b);
    if a.len() == 0 {
        assert(a =~= b);
    } else {
        let x = a[0];
        let y = b[0];
        vstd::seq_lib::to_multiset_contains(a, x);
        vstd::seq_lib::to_multiset_contains(b, y);
        assert(a.to_multiset().count(x) > 0);
        assert(b.contains(x));
        assert(a.contains(y));
        let j = choose|j: int| 0 <= j < b.len() && b[j] == x;
        let k = choose|k: int| 0 <= k < a.len() && a[k] == y;
        if j > 0 {
            assert(rel_le(b[0], b[j]));
        }
        if k > 0 {
            assert(rel_le(a[0], a[k]));
        }
        lemma_rel_order(x, y, x);
        assert(x == y);
        vstd::seq_lib::to_multiset_remove(a, 0);
        vstd::seq_lib::to_multiset_remove(b, 0);
        assert(a.remove(0) =~= a.drop_first());
        assert(b.remove(0) =~= b.drop_first());
        assert forall|i: int, j2: int| 0 <= i < j2 < a.drop_first().len() implies rel_le(
            #[trigger] a.drop_first()[i],
            #[trigger] a.drop_first()[j2],
        ) by {
            assert(a.drop_first()[i] == a[i + 1] && a.drop_first()[j2] == a[j2 + 1]);
        }
        assert forall|i: int, j2: int| 0 <= i < j2 < b.drop_first().len() implies rel_le(
            #[trigger] b.drop_first()[i],
            #[trigger] b.drop_first()[j2],
        ) by {
            assert(b.drop_first()[i] == b[i + 1] && b.drop_first()[j2] == b[j2 + 1]);
        }
        lemma_sorted_unique(a.drop_first(), b.drop_first());
        assert(a =~= seq![x] + a.drop_first());
        assert(b =~= seq![y] + b.drop_first());
    }
}

/// `value` has the shape of a reusable position name: one to 64 bytes of
/// lowercase ASCII letters, digits and underscores, starting with a letter.
pub open spec fn name_ok(s: Seq<char>) -> bool {
    &&& s.len() > 0
    &&& byte_len(s) <= MAX_POSITION_NAME_BYTES
    &&& forall|i: int|
        0 <= i < s.len() ==> (is_ascii_lower(#[trigger] s[i]) || is_ascii_digit(s[i]) || s[i]
            == '_') && (i > 0 || is_ascii_lower(s[i]))
}

/// A visible label: not blank, at most 256 bytes.
pub open spec fn label_ok(s: Seq<char>) -> bool {
    trim(s).len() > 0 && byte_len(s) <= MAX_LABEL_BYTES
}

pub fn valid_position_name(value: &str) -> (r: bool)
    ensures
        r == name_ok(value@),
{
    let v = chars_of(value);
    if v.len() == 0 || str_byte_len(value) > MAX_POSITION_NAME_BYTES {
        return false;
    }
    let mut i: usize = 0;
    while i < v.len()
        invariant
            i <= v@.len(),
            v@ == value@,
            forall|j: int|
                0 <= j < i ==> (is_ascii_lower(#[trigger] v@[j]) || is_ascii_digit(v@[j]) || v@[j]
                    == '_') && (j > 0 || is_ascii_lower(v@[j])),
        decreases v@.len() - i,
    {
        let c = v[i];
        let lower = 'a' <= c && c <= 'z';
        if !((lower || ('0' <= c && c <= '9') || c == '_') && (i > 0 || lower)) {
            return false;
        }
        i += 1;
    }
    true
}

fn label_is_ok(s: &str) -> (r: bool)
    ensures
        r == label_ok(s@),
{
    let t = trim_str(s);
    !t.as_str().is_empty() && str_byte_len(s) <= MAX_LABEL_BYTES
}

pub open spec fn names(ps: Seq<PositionView>) -> Seq<Seq<char>> {
    ps.map_values(|p: PositionView| p.0)
}

/// The first problem with a template's positions, checked in order.
pub open spec fn position_problem(ps: Seq<PositionView>) -> Option<Seq<char>>
    decreases ps.len(),
{
    if ps.len() == 0 {
        None
    } else {
        match position_problem(ps.drop_last()) {
            Some(m) => Some(m),
            None => {
                let p = ps.last();
                if !name_ok(p.0) {
                    Some("position name"@)
                } else if !label_ok(p.1) {
                    Some("position label"@)
                } else if names(ps.drop_last()).contains(p.0) {
                    Some("duplicate position name"@)
                } else {
                    None
                }
            },
        }
    }
}

/// The first problem with a template's relations, checked in order.
pub open spec fn relation_problem(known: Seq<Seq<char>>, rs: Seq<SpreadRelationView>) -> Option<
    Seq<char>,
>
    decreases rs.len(),
{
    if rs.len() == 0 {
        None
    } else {
        match relation_problem(known, rs.drop_last()) {
            Some(m) => Some(m),
            None => {
                let r = rs.last();
                if !known.contains(r.0) || !known.contains(r.1) || r.0 == r.1 {
                    Some("relation positions"@)
                } else if !label_ok(r.3) {
                    Some("relation label"@)
                } else if rs.drop_last().contains(r) {
                    Some("duplicate relation"@)
                } else {
                    None
                }
            },
        }
    }
}

pub open spec fn json_position(p: PositionView) -> Seq<char> {
    "{\"name\":"@ + json_string(p.0) + ",\"label\":"@ + json_string(p.1) + "}"@
}

pub open spec fn json_position_items(ps: Seq<PositionView>) -> Seq<char>
    decreases ps.len(),
{
    if ps.len() == 0 {
        seq![]
    } else if ps.len() == 1 {
        json_position(ps[0])
    } else {
        json_position_items(ps.drop_last()) + seq![','] + json_position(ps.last())
    }
}

pub open spec fn json_spread_relation(r: SpreadRelationView) -> Seq<char> {
    "{\"from\":"@ + json_string(r.0) + ",\"to\":"@ + json_string(r.1) + ",\"kind\":"@
        + json_string(r.2.name()) + ",\"label\":"@ + json_string(r.3) + "}"@
}

pub open spec fn json_spread_relation_items(rs: Seq<SpreadRelationView>) -> Seq<char>
    decreases rs.len(),
{
    if rs.len() == 0 {
        seq![]
    } else if rs.len() == 1 {
        json_spread_relation(rs[0])
    } else {
        json_spread_relation_items(rs.drop_last()) + seq![','] + json_spread_relation(rs.last())
    }
}

/// The identity text of a spread template.
pub open spec fn template_identity(
    label: Seq<char>,
    positions: Seq<PositionView>,
    relations: Seq<SpreadRelationView>,
) -> Seq<char> {
    "{\"schema\":"@ + json_string(SPREAD_TEMPLATE_SCHEMA@) + ",\"label\":"@ + json_string(label)
        + ",\"positions\":["@ + json_position_items(positions) + "],\"relations\":["@
        + json_spread_relation_items(relations) + "]}"@
}

/// The first problem `SpreadTemplate::validate` reports, if any.
pub open spec fn template_problem(t: SpreadTemplate) -> Option<Seq<char>> {
    template_problem_views(
        t.schema@,
        t.id@,
        t.label@,
        position_views(t.positions@),
        spread_relation_views(t.relations@),
    )
}

/// The first problem with a template given by its views, if any.
pub open spec fn template_problem_views(
    schema: Seq<char>,
    id: Seq<char>,
    label: Seq<char>,
    pv: Seq<PositionView>,
    rv: Seq<SpreadRelationView>,
) -> Option<Seq<char>> {
    if schema != SPREAD_TEMPLATE_SCHEMA@ {
        Some("template schema"@)
    } else if !label_ok(label) {
        Some("template label"@)
    } else if pv.len() == 0 || pv.len() > MAX_SPREAD_POSITIONS {
        Some("template positions"@)
    } else if position_problem(pv) is Some {
        position_problem(pv)
    } else if rv.len() > MAX_SPREAD_RELATIONS {
        Some("template relations"@)
    } else if relation_problem(names(pv), rv) is Some {
        relation_problem(names(pv), rv)
    } else if exists|i: int| 0 <= i < rv.len() - 1 && rel_lt(rv[i + 1], #[trigger] rv[i]) {
        Some("relation order is not canonical"@)
    } else if id != digest_of(template_identity(label, pv, rv)) {
        Some("template identity"@)
    } else {
        None
    }
}

fn push_position(out: &mut String, p: &SpreadPosition)
    ensures
        final(out)@ == old(out)@ + json_position((p.name@, p.label@)),
{
    push_str(out, "{\"name\":");
    push_json_string(out, p.name.as_str());
    push_str(out, ",\"label\":");
    push_json_string(out, p.label.as_str());
    push_str(out, "}");
    assert(out@ =~= old(out)@ + json_position((p.name@, p.label@)));
}

fn push_spread_relation(out: &mut String, r: &SpreadRelation)
    ensures
        final(out)@ == old(out)@ + json_spread_relation(spread_relation_view(*r)),
{
    push_str(out, "{\"from\":");
    push_json_string(out, r.from.as_str());
    push_str(out, ",\"to\":");
    push_json_string(out, r.to.as_str());
    push_str(out, ",\"kind\":");
    push_json_string(out, r.kind.as_str());
    push_str(out, ",\"label\":");
    push_json_string(out, r.label.as_str());
    push_str(out, "}");
    assert(out@ =~= old(out)@ + json_spread_relation(spread_relation_view(*r)));
}

/// The identity digest of a spread template.
pub fn spread_template_id(label: &str, positions: &Vec<SpreadPosition>, relations: &Vec<SpreadRelation>) -> (d: String)
    ensures
        d@ == digest_of(template_identity(label@, position_views(positions@), spread_relation_views(relations@))),
        is_digest_seq(d@),
{
    let mut out = String::new();
    push_str(&mut out, "{\"schema\":");
    push_json_string(&mut out, SPREAD_TEMPLATE_SCHEMA);
    push_str(&mut out, ",\"label\":");
    push_json_string(&mut out, label);
    push_str(&mut out, ",\"positions\":[");
    let ghost pv = position_views(positions@);
    let ghost start = out@;
    let mut i: usize = 0;
    assert(pv.take(0) =~= Seq::<PositionView>::empty());
    while i < positions.len()
        invariant
            i <= positions@.len(),
            pv == position_views(positions@),
            out@ == start + json_position_items(pv.take(i as int)),
        decreases positions@.len() - i,
    {
        if i > 0 {
            crate::text::push_char(&mut out, ',');
        }
        push_position(&mut out, &positions[i]);
        proof {
            let t = pv.take(i as int + 1);
            assert(t.drop_last() =~= pv.take(i as int));
            if i == 0 {
                assert(json_position_items(t) == json_position(t[0]));
            }
        }
        i += 1;
    }
    assert(pv.take(positions@.len() as int) =~= pv);
    push_str(&mut out, "],\"relations\":[");
    let ghost rv = spread_relation_views(relations@);
    let ghost start2 = out@;
    let mut j: usize = 0;
    assert(rv.take(0) =~= Seq::<SpreadRelationView>::empty());
    while j < relations.len()
        invariant
            j <= relations@.len(),
            rv == spread_relation_views(relations@),
            out@ == start2 + json_spread_relation_items(rv.take(j as int)),
        decreases relations@.len() - j,
    {
        if j > 0 {
            crate::text::push_char(&mut out, ',');
        }
        push_spread_relation(&mut out, &relations[j]);
        proof {
            let t = rv.take(j as int + 1);
            assert(t.drop_last() =~= rv.take(j as int));
            if j == 0 {
                assert(json_spread_relation_items(t) == json_spread_relation(t[0]));
            }
        }
        j += 1;
    }
    assert(rv.take(relations@.len() as int) =~= rv);
    push_str(&mut out, "]}");
    assert(out@ =~= template_identity(label@, pv, rv));
    digest_text(&out)
}

fn contains_name(ps: &Vec<SpreadPosition>, upto: usize, name: &str) -> (r: bool)
    requires
        upto <= ps@.len(),
    ensures
        r == names(position_views(ps@).take(upto as int)).contains(name@),
{
    let ghost ns = names(position_views(ps@).take(upto as int));
    let mut i: usize = 0;
    while i < upto
        invariant
            i <= upto <= ps@.len(),
            ns == names(position_views(ps@).take(upto as int)),
            forall|j: int| 0 <= j < i ==> ns[j] != name@,
        decreases upto - i,
    {
        if str_eq(ps[i].name.as_str(), name) {
            assert(ns[i as int] == name@);
            return true;
        }
        i += 1;
    }
    false
}

fn same_relation(a: &SpreadRelation, b: &SpreadRelation) -> (r: bool)
    ensures
        r == (spread_relation_view(*a) == spread_relation_view(*b)),
{
    match compare_relation(a, b) {
        Order::Equal => true,
        _ => false,
    }
}

fn contains_relation(rs: &Vec<SpreadRelation>, upto: usize, r: &SpreadRelation) -> (found: bool)
    requires
        upto <= rs@.len(),
    ensures
        found == spread_relation_views(rs@).take(upto as int).contains(spread_relation_view(*r)),
{
    let ghost vs = spread_relation_views(rs@).take(upto as int);
    let mut i: usize = 0;
    while i < upto
        invariant
            i <= upto <= rs@.len(),
            vs == spread_relation_views(rs@).take(upto as int),
            forall|j: int| 0 <= j < i ==> vs[j] != spread_relation_view(*r),
        decreases upto - i,
    {
        if same_relation(&rs[i], r) {
            assert(vs[i as int] == spread_relation_view(*r));
            return true;
        }
        i += 1;
    }
    false
}

fn check_positions(ps: &Vec<SpreadPosition>) -> (r: Result<(), SpreadError>)
    ensures
        match position_problem(position_views(ps@)) {
            None => r is Ok,
            Some(m) => r matches Err(e) && spread_error(e, m),
        },
{
    let ghost pv = position_views(ps@);
    let mut i: usize = 0;
    assert(pv.take(0) =~= Seq::<PositionView>::empty());
    while i < ps.len()
        invariant
            i <= ps@.len(),
            pv == position_views(ps@),
            position_problem(pv.take(i as int)) is None,
        decreases ps@.len() - i,
    {
        let p = &ps[i];
        let ghost t = pv.take(i as int + 1);
        assert(t.drop_last() =~= pv.take(i as int));
        assert(t.last() == (p.name@, p.label@));
        if !valid_position_name(p.name.as_str()) {
            assert(position_problem(t) == Some("position name"@));
            proof { lemma_problem_persists(pv, i as int + 1); }
            return Err(invalid("position name"));
        }
        if !label_is_ok(p.label.as_str()) {
            assert(position_problem(t) == Some("position label"@));
            proof { lemma_problem_persists(pv, i as int + 1); }
            return Err(invalid("position label"));
        }
        if contains_name(ps, i, p.name.as_str()) {
            assert(position_problem(t) == Some("duplicate position name"@));
            proof { lemma_problem_persists(pv, i as int + 1); }
            return Err(invalid("duplicate position name"));
        }
        i += 1;
    }
    assert(pv.take(ps@.len() as int) =~= pv);
    Ok(())
}

/// Once a prefix has a problem, every longer prefix reports the same one.
pub proof fn lemma_problem_persists(ps: Seq<PositionView>, k: int)
    requires
        0 <= k <= ps.len(),
        position_problem(ps.take(k)) is Some,
    ensures
        position_problem(ps) == position_problem(ps.take(k)),
    decreases ps.len() - k,
{
    if k < ps.len() {
        assert(ps.take(k + 1).drop_last() =~= ps.take(k));
        lemma_problem_persists(ps, k + 1);
    } else {
        assert(ps.take(k) =~= ps);
    }
}

pub proof fn lemma_relation_problem_persists(known: Seq<Seq<char>>, rs: Seq<SpreadRelationView>, k: int)
    requires
        0 <= k <= rs.len(),
        relation_problem(known, rs.take(k)) is Some,
    ensures
        relation_problem(known, rs) == relation_problem(known, rs.take(k)),
    decreases rs.len() - k,
{
    if k < rs.len() {
        assert(rs.take(k + 1).drop_last() =~= rs.take(k));
        lemma_relation_problem_persists(known, rs, k + 1);
    } else {
        assert(rs.take(k) =~= rs);
    }
}

fn check_relations(ps: &Vec<SpreadPosition>, rs: &Vec<SpreadRelation>) -> (r: Result<(), SpreadError>)
    ensures
        match relation_problem(names(position_views(ps@)), spread_relation_views(rs@)) {
            None => r is Ok,
            Some(m) => r matches Err(e) && spread_error(e, m),
        },
{
    let ghost known = names(position_views(ps@));
    let ghost rv = spread_relation_views(rs@);
    assert(position_views(ps@).take(ps@.len() as int) =~= position_views(ps@));
    let mut i: usize = 0;
    assert(rv.take(0) =~= Seq::<SpreadRelationView>::empty());
    while i < rs.len()
        invariant
            i <= rs@.len(),
            known == names(position_views(ps@)),
            position_views(ps@).take(ps@.len() as int) == position_views(ps@),
            rv == spread_relation_views(rs@),
            relation_problem(known, rv.take(i as int)) is None,
        decreases rs@.len() - i,
    {
        let r = &rs[i];
        let ghost t = rv.take(i as int + 1);
        assert(t.drop_last() =~= rv.take(i as int));
        assert(t.last() == spread_relation_view(*r));
        if !contains_name(ps, ps.len(), r.from.as_str()) || !contains_name(ps, ps.len(), r.to.as_str())
            || str_eq(r.from.as_str(), r.to.as_str()) {
            assert(relation_problem(known, t) == Some("relation positions"@));
            proof { lemma_relation_problem_persists(known, rv, i as int + 1); }
            return Err(invalid("relation positions"));
        }
        if !label_is_ok(r.label.as_str()) {
            assert(relation_problem(known, t) == Some("relation label"@));
            proof { lemma_relation_problem_persists(known, rv, i as int + 1); }
            return Err(invalid("relation label"));
        }
        if contains_relation(rs, i, r) {
            assert(relation_problem(known, t) == Some("duplicate relation"@));
            proof { lemma_relation_problem_persists(known, rv, i as int + 1); }
            return Err(invalid("duplicate relation"));
        }
        i += 1;
    }
    assert(rv.take(rs@.len() as int) =~= rv);
    Ok(())
}

fn relations_in_order(rs: &Vec<SpreadRelation>) -> (r: bool)
    ensures
        r == !(exists|i: int| 0 <= i < spread_relation_views(rs@).len() - 1 && rel_lt(
            spread_relation_views(rs@)[i + 1],
            #[trigger] spread_relation_views(rs@)[i],
        )),
{
    let ghost rv = spread_relation_views(rs@);
    if rs.len() < 2 {
        return true;
    }
    let mut i: usize = 0;
    while i < rs.len() - 1
        invariant
            rs@.len() >= 2,
            i + 1 <= rs@.len(),
            rv == spread_relation_views(rs@),
            forall|j: int| 0 <= j < i ==> !rel_lt(rv[j + 1], #[trigger] rv[j]),
        decreases rs@.len() - i,
    {
        match compare_relation(&rs[i], &rs[i + 1]) {
            Order::Greater => {
                assert(rel_lt(rv[i + 1], rv[i as int]));
                return false;
            },
            _ => {},
        }
        i += 1;
    }
    true
}

impl SpreadTemplate {
    /// A template over the given positions; its relations are put in their
    /// derived order before it is identified and validated.
    pub fn new(label: &str, positions: Vec<SpreadPosition>, relations: Vec<SpreadRelation>) -> (r: Result<Self, SpreadError>)
        ensures
            ({
                let pv = position_views(positions@);
                let rv = sorted_relations(spread_relation_views(relations@));
                let id = digest_of(template_identity(label@, pv, rv));
                match template_problem_views(SPREAD_TEMPLATE_SCHEMA@, id, label@, pv, rv) {
                    None => r matches Ok(t) && t.schema@ == SPREAD_TEMPLATE_SCHEMA@ && t.id@ == id
                        && t.label@ == label@ && position_views(t.positions@) == pv
                        && spread_relation_views(t.relations@) == rv,
                    Some(m) => r matches Err(e) && spread_error(e, m),
                }
            }),
            r matches Ok(t) ==> template_problem(t) is None,
    {
        let ghost input = spread_relation_views(relations@);
        let relations = sort_relations(relations);
        proof {
            let rv = spread_relation_views(relations@);
            assert(rel_sorted(rv) && rv.to_multiset() == input.to_multiset());
            lemma_sorted_unique(rv, sorted_relations(input));
        }
        let id = spread_template_id(label, &positions, &relations);
        let template = SpreadTemplate {
            schema: copy_str(SPREAD_TEMPLATE_SCHEMA),
            id,
            label: copy_str(label),
            positions,
            relations,
        };
        match template.validate() {
            Ok(()) => Ok(template),
            Err(e) => Err(e),
        }
    }

    /// Checks the schema, label, positions and relations, their canonical
    /// order, and the template's identity.
    pub fn validate(&self) -> (r: Result<(), SpreadError>)
        ensures
            match template_problem(*self) {
                None => r is Ok && is_digest_seq(self.id@),
                Some(m) => r matches Err(e) && spread_error(e, m),
            },
    {
        if !str_eq(self.schema.as_str(), SPREAD_TEMPLATE_SCHEMA) {
            return Err(invalid("template schema"));
        }
        if !label_is_ok(self.label.as_str()) {
            return Err(invalid("template label"));
        }
        if self.positions.len() == 0 || self.positions.len() > MAX_SPREAD_POSITIONS {
            return Err(invalid("template positions"));
        }
        match check_positions(&self.positions) {
            Ok(()) => {},
            Err(e) => {
                return Err(e);
            },
        }
        if self.relations.len() > MAX_SPREAD_RELATIONS {
            return Err(invalid("template relations"));
        }
        match check_relations(&self.positions, &self.relations) {
            Ok(()) => {},
            Err(e) => {
                return Err(e);
            },
        }
        if !relations_in_order(&self.relations) {
            return Err(invalid("relation order is not canonical"));
        }
        let expected = spread_template_id(self.label.as_str(), &self.positions, &self.relations);
        if !str_eq(self.id.as_str(), expected.as_str()) {
            return Err(invalid("template identity"));
        }
        Ok(())
    }
}

/// The identity text of a template's attachment to a session.
pub open spec fn spread_identity(template_id: Seq<char>, session_id: Seq<char>) -> Seq<char> {
    "{\"schema\":"@ + json_string(SPREAD_SCHEMA@) + ",\"template_id\":"@ + json_string(template_id)
        + ",\"session_id\":"@ + json_string(session_id) + "}"@
}

/// The identity digest of a template's attachment to a session.
pub fn spread_id(template_id: &str, session_id: &str) -> (d: String)
    ensures
        d@ == digest_of(spread_identity(template_id@, session_id@)),
        is_digest_seq(d@),
{
    let mut out = String::new();
    push_str(&mut out, "{\"schema\":");
    push_json_string(&mut out, SPREAD_SCHEMA);
    push_str(&mut out, ",\"template_id\":");
    push_json_string(&mut out, template_id);
    push_str(&mut out, ",\"session_id\":");
    push_json_string(&mut out, session_id);
    push_str(&mut out, "}");
    assert(out@ =~= spread_identity(template_id@, session_id@));
    digest_text(&out)
}

/// The first problem `Spread::validate` reports, if any.
pub open spec fn spread_problem(s: Spread) -> Option<Seq<char>> {
    if s.schema@ != SPREAD_SCHEMA@ {
        Some("spread schema"@)
    } else if !is_digest_seq(s.template_id@) || !is_digest_seq(s.session_id@) {
        Some("spread dependency id"@)
    } else if s.id@ != digest_of(spread_identity(s.template_id@, s.session_id@)) {
        Some("spread identity"@)
    } else {
        None
    }
}

/// The position names a session declares, in order.
pub open spec fn session_position_names(ps: Seq<ReadingPlacement>) -> Seq<Seq<char>> {
    ps.map_values(|p: ReadingPlacement| p.position@)
}

pub(crate) fn same_position_names(template: &SpreadTemplate, session: &ReadingSession) -> (r: bool)
    ensures
        r == (names(position_views(template.positions@)) == session_position_names(session.placements@)),
{
    let ghost a = names(position_views(template.positions@));
    let ghost b = session_position_names(session.placements@);
    if template.positions.len() != session.placements.len() {
        assert(a.len() != b.len());
        return false;
    }
    let mut i: usize = 0;
    while i < template.positions.len()
        invariant
            i <= template.positions@.len() == session.placements@.len(),
            a == names(position_views(template.positions@)),
            b == session_position_names(session.placements@),
            forall|j: int| 0 <= j < i ==> a[j] == b[j],
        decreases template.positions@.len() - i,
    {
        if !str_eq(template.positions[i].name.as_str(), session.placements[i].position.as_str()) {
            assert(a[i as int] != b[i as int]);
            return false;
        }
        i += 1;
    }
    assert(a =~= b);
    true
}

impl Spread {
    /// Attaches a valid template to a session whose placements name exactly
    /// the template's positions, in order.
    pub fn new(template: &SpreadTemplate, session: &ReadingSession) -> (r: Result<Self, SpreadError>)
        ensures
            template_problem(*template) matches Some(m) ==> (r matches Err(e) && spread_error(e, m)),
            template_problem(*template) is None && names(position_views(template.positions@))
                != session_position_names(session.placements@) ==> (r matches Err(e) && spread_error(
                e,
                "session positions do not match template"@,
            )),
            template_problem(*template) is None && names(position_views(template.positions@))
                == session_position_names(session.placements@) && !is_digest_seq(session.id@) ==> (r matches Err(e)
                && spread_error(e, "spread dependency id"@)),
            template_problem(*template) is None && names(position_views(template.positions@))
                == session_position_names(session.placements@) && is_digest_seq(session.id@) ==> (r matches Ok(s)
                && s.schema@ == SPREAD_SCHEMA@ && s.template_id == template.id && s.session_id
                == session.id && s.id@ == digest_of(spread_identity(template.id@, session.id@))),
            r matches Ok(s) ==> spread_problem(s) is None,
    {
        match template.validate() {
            Ok(()) => {},
            Err(e) => {
                return Err(e);
            },
        }
        if !same_position_names(template, session) {
            return Err(invalid("session positions do not match template"));
        }
        let id = spread_id(template.id.as_str(), session.id.as_str());
        let spread = Spread {
            schema: copy_str(SPREAD_SCHEMA),
            id,
            template_id: template.id.clone(),
            session_id: session.id.clone(),
        };
        match spread.validate() {
            Ok(()) => Ok(spread),
            Err(e) => Err(e),
        }
    }

    /// Checks the schema, the dependency identities, and the spread's own
    /// identity.
    pub fn validate(&self) -> (r: Result<(), SpreadError>)
        ensures
            match spread_problem(*self) {
                None => r is Ok,
                Some(m) => r matches Err(e) && spread_error(e, m),
            },
    {
        if !str_eq(self.schema.as_str(), SPREAD_SCHEMA) {
            return Err(invalid("spread schema"));
        }
        if !is_digest(self.template_id.as_str()) || !is_digest(self.session_id.as_str()) {
            return Err(invalid("spread dependency id"));
        }
        let expected = spread_id(self.template_id.as_str(), self.session_id.as_str());
        if !str_eq(self.id.as_str(), expected.as_str()) {
            return Err(invalid("spread identity"));
        }
        Ok(())
    }
}

/// The derived order of relations, as a relation usable for sorting.
pub open spec fn rel_le_fn() -> spec_fn(SpreadRelationView, SpreadRelationView) -> bool {
    |a: SpreadRelationView, b: SpreadRelationView| rel_le(a, b)
}

proof fn lemma_rel_le_total()
    ensures
        vstd::relations::total_ordering(rel_le_fn()),
{
    let f = rel_le_fn();
    assert forall|x: SpreadRelationView| #[trigger] f(x, x) by {}
    assert forall|x: SpreadRelationView, y: SpreadRelationView| #[trigger] f(x, y) && #[trigger] f(y, x) implies x == y by {
        lemma_rel_order(x, y, x);
    }
    assert forall|x: SpreadRelationView, y: SpreadRelationView, z: SpreadRelationView|
        #[trigger] f(x, y) && #[trigger] f(y, z) implies f(x, z) by {
        lemma_rel_order(x, y, z);
    }
    assert forall|x: SpreadRelationView, y: SpreadRelationView| #[trigger] f(x, y) || #[trigger] f(y, x) by {
        lemma_rel_order(x, y, x);
    }
}

/// Every arrangement of relations has a sorted rearrangement.
proof fn lemma_sorted_relations(rs: Seq<SpreadRelationView>)
    ensures
        rel_sorted(sorted_relations(rs)),
        sorted_relations(rs).to_multiset() == rs.to_multiset(),
{
    lemma_rel_le_total();
    rs.lemma_sort_by_ensures(rel_le_fn());
    let w = rs.sort_by(rel_le_fn());
    assert forall|i: int, j: int| 0 <= i < j < w.len() implies rel_le(#[trigger] w[i], #[trigger] w[j]) by {
        assert(rel_le_fn()(w[i], w[j]));
    }
    assert(rel_sorted(w) && w.to_multiset() == rs.to_multiset());
}

/// The relations a template is made with may be given in any order:
/// `SpreadTemplate::new` keeps them in their derived order, as a
/// rearrangement of those given, so any reordering of the same relations
/// makes the same template.
pub proof fn law_template_relations_canonical(
    label: Seq<char>,
    positions: Seq<PositionView>,
    a: Seq<SpreadRelationView>,
    b: Seq<SpreadRelationView>,
)
    requires
        a.to_multiset() == b.to_multiset(),
    ensures
        sorted_relations(a) == sorted_relations(b),
        rel_sorted(sorted_relations(a)),
        sorted_relations(a).to_multiset() == a.to_multiset(),
        digest_of(template_identity(label, positions, sorted_relations(a))) == digest_of(
            template_identity(label, positions, sorted_relations(b)),
        ),
        template_problem_views(
            SPREAD_TEMPLATE_SCHEMA@,
            digest_of(template_identity(label, positions, sorted_relations(a))),
            label,
            positions,
            sorted_relations(a),
        ) == template_problem_views(
            SPREAD_TEMPLATE_SCHEMA@,
            digest_of(template_identity(label, positions, sorted_relations(b))),
            label,
            positions,
            sorted_relations(b),
        ),
{
    lemma_sorted_relations(a);
}

proof fn lemma_positions_ok(ps: Seq<PositionView>)
    requires
        position_problem(ps) is None,
    ensures
        forall|i: int| 0 <= i < ps.len() ==> name_ok(#[trigger] ps[i].0) && label_ok(ps[i].1),
        forall|i: int, j: int| 0 <= i < j < ps.len() ==> #[trigger] ps[i].0 != #[trigger] ps[j].0,
    decreases ps.len(),
{
    if ps.len() > 0 {
        let d = ps.drop_last();
        lemma_positions_ok(d);
        assert forall|i: int, j: int| 0 <= i < j < ps.len() implies #[trigger] ps[i].0 != #[trigger] ps[j].0 by {
            if j < ps.len() - 1 {
                assert(d[i] == ps[i] && d[j] == ps[j]);
            } else {
                assert(names(d)[i] == ps[i].0);
                assert(!names(d).contains(ps.last().0));
            }
        }
        assert forall|i: int| 0 <= i < ps.len() implies name_ok(#[trigger] ps[i].0) && label_ok(ps[i].1) by {
            if i < ps.len() - 1 {
                assert(d[i] == ps[i]);
            }
        }
    }
}

proof fn lemma_relations_ok(known: Seq<Seq<char>>, rs: Seq<SpreadRelationView>)
    requires
        relation_problem(known, rs) is None,
    ensures
        forall|i: int|
            0 <= i < rs.len() ==> known.contains(#[trigger] rs[i].0) && known.contains(rs[i].1)
                && rs[i].0 != rs[i].1 && label_ok(rs[i].3),
        forall|i: int, j: int| 0 <= i < j < rs.len() ==> #[trigger] rs[i] != #[trigger] rs[j],
    decreases rs.len(),
{
    if rs.len() > 0 {
        let d = rs.drop_last();
        lemma_relations_ok(known, d);
        assert forall|i: int, j: int| 0 <= i < j < rs.len() implies #[trigger] rs[i] != #[trigger] rs[j] by {
            if j < rs.len() - 1 {
                assert(d[i] == rs[i] && d[j] == rs[j]);
            } else {
                assert(d[i] == rs[i]);
                assert(!d.contains(rs.last()));
            }
        }
        assert forall|i: int|
            0 <= i < rs.len() implies known.contains(#[trigger] rs[i].0) && known.contains(rs[i].1)
                && rs[i].0 != rs[i].1 && label_ok(rs[i].3) by {
            if i < rs.len() - 1 {
                assert(d[i] == rs[i]);
            }
        }
    }
}

proof fn lemma_chain_ascending(rs: Seq<SpreadRelationView>)
    requires
        forall|i: int| 0 <= i < rs.len() - 1 ==> rel_lt(#[trigger] rs[i], rs[i + 1]),
    ensures
        forall|i: int, j: int| 0 <= i < j < rs.len() ==> rel_lt(#[trigger] rs[i], #[trigger] rs[j]),
    decreases rs.len(),
{
    if rs.len() > 0 {
        let d = rs.drop_last();
        assert forall|i: int| 0 <= i < d.len() - 1 implies rel_lt(#[trigger] d[i], d[i + 1]) by {
            assert(d[i] == rs[i] && d[i + 1] == rs[i + 1]);
        }
        lemma_chain_ascending(d);
        assert forall|i: int, j: int| 0 <= i < j < rs.len() implies rel_lt(#[trigger] rs[i], #[trigger] rs[j]) by {
            if j < rs.len() - 1 {
                assert(d[i] == rs[i] && d[j] == rs[j]);
            } else if i < j - 1 {
                assert(d[i] == rs[i] && d[j - 1] == rs[j - 1]);
                assert(rel_lt(rs[j - 1], rs[j]));
                lemma_rel_order(rs[i], rs[j - 1], rs[j]);
            }
        }
    }
}

/// What a valid template is: its schema and a visible label; one to twelve
/// positions, each a well-formed name with a visible label, no name twice;
/// at most twenty-four relations, each between two distinct named positions
/// with a visible label, strictly ascending in their derived order; and an
/// identity that is the digest of its content.
pub proof fn law_valid_template_shape(t: SpreadTemplate)
    requires
        template_problem(t) is None,
    ensures
        ({
            let pv = position_views(t.positions@);
            let rv = spread_relation_views(t.relations@);
            &&& t.schema@ == SPREAD_TEMPLATE_SCHEMA@
            &&& label_ok(t.label@)
            &&& 1 <= pv.len() <= MAX_SPREAD_POSITIONS
            &&& forall|i: int| 0 <= i < pv.len() ==> name_ok(#[trigger] pv[i].0) && label_ok(pv[i].1)
            &&& forall|i: int, j: int| 0 <= i < j < pv.len() ==> #[trigger] pv[i].0 != #[trigger] pv[j].0
            &&& rv.len() <= MAX_SPREAD_RELATIONS
            &&& forall|i: int|
                0 <= i < rv.len() ==> names(pv).contains(#[trigger] rv[i].0) && names(pv).contains(
                    rv[i].1,
                ) && rv[i].0 != rv[i].1 && label_ok(rv[i].3)
            &&& forall|i: int, j: int| 0 <= i < j < rv.len() ==> rel_lt(#[trigger] rv[i], #[trigger] rv[j])
            &&& t.id@ == digest_of(template_identity(t.label@, pv, rv))
        }),
{
    let pv = position_views(t.positions@);
    let rv = spread_relation_views(t.relations@);
    lemma_positions_ok(pv);
    lemma_relations_ok(names(pv), rv);
    assert forall|i: int| 0 <= i < rv.len() - 1 implies rel_lt(#[trigger] rv[i], rv[i + 1]) by {
        assert(!rel_lt(rv[i + 1], rv[i]));
        assert(rv[i] != rv[i + 1]);
        lemma_rel_order(rv[i], rv[i + 1], rv[i]);
    }
    lemma_chain_ascending(rv);
}

} // verus!
