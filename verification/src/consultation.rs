//! The headed product forms: bounded, line-oriented drafts parsed into
//! immutable domain values, and the errors a consultation reports.

use vstd::prelude::*;

use crate::context::ContextSnapshot;
use crate::order::{kv_get, kv_insert, kv_put, keys, pair_views, set_insert, sorted_insert, strictly_sorted, views};
use crate::reading::{opt_text, receipts_equal, same_receipt, Reading, ReadingError, SelectionMode};
use crate::session::{ReadingPlacement, ReadingSession};
use crate::context::Field;
use crate::order::{lemma_set_insert_contents, lemma_sorted_of, sorted_of};
use crate::spread::{
    position_views, sorted_relations, spread_relation_views, template_identity,
    template_problem_views, PositionView, SpreadPosition, SpreadRelation, SpreadRelationKind,
    SpreadRelationView, SpreadTemplate, SPREAD_TEMPLATE_SCHEMA,
};
use crate::digest::digest_of;
use crate::text::{
    ascii_lower_seq, ascii_lowercase, byte_len, copy_str, is_ascii_digit,
    is_ascii_lower, lines, lines_of, parse_i32, parse_u32, replace_all_char, replace_char,
    spec_parse_i32, spec_parse_u32, split, split_char, split_once, split_once_char, str_byte_len,
    str_eq, to_lowercase, trim, trim_str, unicode_lowercase,
};

verus! {

pub const MANUAL_CONTEXT_SCHEMA: &'static str = "cleromancy.context/manual/v1";

pub const MAX_CONTEXT_LABEL_BYTES: usize = 256;

pub const MAX_QUESTION_BYTES: usize = 4096;

pub const MAX_TAGS: usize = 64;

pub const MAX_TAG_BYTES: usize = 64;

pub const MAX_ADDITIONAL_FACTS: usize = 64;

pub const MAX_FACT_NAME_BYTES: usize = 64;

pub const MAX_FACT_VALUE_BYTES: usize = 4096;

/// What a consultation can refuse.
#[derive(Clone, Debug, PartialEq, Eq)]
pub enum ConsultationError {
    Reading(ReadingError),
    InvalidContext(&'static str),
    InvalidSpread(&'static str),
    InvalidAstrology(&'static str),
    Ephemeris(String),
    DerivedSelectionRequired,
    UnexpectedDerivation,
    Faulted,
    Clock,
}

pub open spec fn invalid_spread(e: ConsultationError, message: Seq<char>) -> bool {
    e matches ConsultationError::InvalidSpread(m) && m@ == message
}

pub open spec fn invalid_context(e: ConsultationError, message: Seq<char>) -> bool {
    e matches ConsultationError::InvalidContext(m) && m@ == message
}

pub open spec fn invalid_astrology(e: ConsultationError, message: Seq<char>) -> bool {
    e matches ConsultationError::InvalidAstrology(m) && m@ == message
}

/// The non-blank lines of a text.
pub open spec fn is_blank(line: Seq<char>) -> bool {
    trim(line).len() == 0
}

// ---------------------------------------------------------------------------
// Authored spread layouts
// ---------------------------------------------------------------------------

/// A small, line-oriented authored-layout form: reusable named positions,
/// not a programmable spread language.
#[derive(Clone, Debug, PartialEq, Eq)]
pub struct SpreadTemplateDraft {
    pub label: String,
    /// `position_name | Visible position label`, one position per line.
    pub positions: String,
    /// `from | relationship | to | Visible relationship label`, one per line.
    pub relations: String,
}

/// The positions of a layout form: each non-blank line split at its first
/// `|` into a lowercased name and a label, both trimmed; none when a line has
/// no `|`.
pub open spec fn draft_positions(ls: Seq<Seq<char>>) -> Option<Seq<PositionView>>
    decreases ls.len(),
{
    if ls.len() == 0 {
        Some(seq![])
    } else {
        match draft_positions(ls.drop_last()) {
            None => None,
            Some(ps) => {
                let l = ls.last();
                if is_blank(l) {
                    Some(ps)
                } else {
                    match split_once(l, '|') {
                        None => None,
                        Some((n, lab)) => Some(ps.push((ascii_lower_seq(trim(n)), trim(lab)))),
                    }
                }
            },
        }
    }
}

/// The relationship kind a form names.
pub open spec fn relation_kind_named(name: Seq<char>) -> Option<SpreadRelationKind> {
    if name == "supports"@ {
        Some(SpreadRelationKind::Supports)
    } else if name == "contradicts"@ {
        Some(SpreadRelationKind::Contradicts)
    } else if name == "questions"@ {
        Some(SpreadRelationKind::Questions)
    } else if name == "next_step"@ {
        Some(SpreadRelationKind::NextStep)
    } else if name == "elaborates"@ {
        Some(SpreadRelationKind::Elaborates)
    } else {
        None
    }
}

/// Each relationship kind is read back from its own name, and a name is read
/// as a kind only when it is that kind's name: no two kinds share a name.
pub proof fn law_relation_kind_names_round_trip(k: SpreadRelationKind, name: Seq<char>)
    ensures
        relation_kind_named(k.name()) == Some(k),
        relation_kind_named(name) == Some(k) ==> name == k.name(),
{
    reveal_strlit("supports");
    reveal_strlit("contradicts");
    reveal_strlit("questions");
    reveal_strlit("next_step");
    reveal_strlit("elaborates");
    assert("supports"@[0] != "contradicts"@[0]);
    assert("supports"@[0] != "questions"@[0]);
    assert("supports"@[0] != "next_step"@[0]);
    assert("supports"@[0] != "elaborates"@[0]);
    assert("contradicts"@[0] != "questions"@[0]);
    assert("contradicts"@[0] != "next_step"@[0]);
    assert("contradicts"@[0] != "elaborates"@[0]);
    assert("questions"@[0] != "next_step"@[0]);
    assert("questions"@[0] != "elaborates"@[0]);
    assert("next_step"@[0] != "elaborates"@[0]);
}

/// One relationship line: four `|`-separated parts, trimmed; the kind is
/// matched after lowercasing and writing `-` as `_`.
pub open spec fn draft_relation(l: Seq<char>) -> Result<SpreadRelationView, Seq<char>> {
    let parts = split(l, '|');
    if parts.len() != 4 {
        Err("each relationship must use from | relationship | to | label"@)
    } else {
        match relation_kind_named(replace_char(ascii_lower_seq(trim(parts[1])), '-', '_')) {
            None => Err(
                "relationship is supports, contradicts, questions, next_step, or elaborates"@,
            ),
            Some(k) => Ok(
                (ascii_lower_seq(trim(parts[0])), ascii_lower_seq(trim(parts[2])), k, trim(parts[3])),
            ),
        }
    }
}

/// The relationships of a layout form, or the complaint about its first
/// malformed non-blank line.
pub open spec fn draft_relations(ls: Seq<Seq<char>>) -> Result<Seq<SpreadRelationView>, Seq<char>>
    decreases ls.len(),
{
    if ls.len() == 0 {
        Ok(seq![])
    } else {
        match draft_relations(ls.drop_last()) {
            Err(m) => Err(m),
            Ok(rs) => {
                let l = ls.last();
                if is_blank(l) {
                    Ok(rs)
                } else {
                    match draft_relation(l) {
                        Err(m) => Err(m),
                        Ok(r) => Ok(rs.push(r)),
                    }
                }
            },
        }
    }
}

pub proof fn lemma_draft_positions_prefix(ls: Seq<Seq<char>>, n: int)
    requires
        0 <= n <= ls.len(),
        draft_positions(ls.take(n)) is None,
    ensures
        draft_positions(ls) is None,
    decreases ls.len(),
{
    if n < ls.len() {
        assert(ls.drop_last().take(n) =~= ls.take(n));
        lemma_draft_positions_prefix(ls.drop_last(), n);
    } else {
        assert(ls.take(n) =~= ls);
    }
}

pub proof fn lemma_draft_relations_prefix(ls: Seq<Seq<char>>, n: int)
    requires
        0 <= n <= ls.len(),
        draft_relations(ls.take(n)) is Err,
    ensures
        draft_relations(ls) == draft_relations(ls.take(n)),
    decreases ls.len(),
{
    if n < ls.len() {
        assert(ls.drop_last().take(n) =~= ls.take(n));
        lemma_draft_relations_prefix(ls.drop_last(), n);
    } else {
        assert(ls.take(n) =~= ls);
    }
}

fn kind_named(name: &str) -> (r: Option<SpreadRelationKind>)
    ensures
        r == relation_kind_named(name@),
{
    if str_eq(name, "supports") {
        Some(SpreadRelationKind::Supports)
    } else if str_eq(name, "contradicts") {
        Some(SpreadRelationKind::Contradicts)
    } else if str_eq(name, "questions") {
        Some(SpreadRelationKind::Questions)
    } else if str_eq(name, "next_step") {
        Some(SpreadRelationKind::NextStep)
    } else if str_eq(name, "elaborates") {
        Some(SpreadRelationKind::Elaborates)
    } else {
        None
    }
}

fn parse_spread_relation(line: &str) -> (r: Result<SpreadRelation, ConsultationError>)
    ensures
        match draft_relation(line@) {
            Ok(v) => r matches Ok(x) && (x.from@, x.to@, x.kind, x.label@) == v,
            Err(m) => r matches Err(e) && invalid_spread(e, m),
        },
{
    let parts = split_char(line, '|');
    if parts.len() != 4 {
        return Err(
            ConsultationError::InvalidSpread(
                "each relationship must use from | relationship | to | label",
            ),
        );
    }
    let from = trim_str(parts[0].as_str());
    let kind_text = trim_str(parts[1].as_str());
    let to = trim_str(parts[2].as_str());
    let label = trim_str(parts[3].as_str());
    let lowered = ascii_lowercase(kind_text.as_str());
    let kind_name = replace_all_char(lowered.as_str(), '-', '_');
    let kind = match kind_named(kind_name.as_str()) {
        Some(k) => k,
        None => {
            return Err(
                ConsultationError::InvalidSpread(
                    "relationship is supports, contradicts, questions, next_step, or elaborates",
                ),
            );
        },
    };
    let from = ascii_lowercase(from.as_str());
    let to = ascii_lowercase(to.as_str());
    Ok(SpreadRelation::new(from.as_str(), kind, to.as_str(), label.as_str()))
}

fn draft_position_list(text: &str) -> (r: Option<Vec<SpreadPosition>>)
    ensures
        match draft_positions(lines(text@)) {
            None => r is None,
            Some(pv) => r matches Some(ps) && position_views(ps@) == pv,
        },
{
    let ls = lines_of(text);
    let ghost lv = lines(text@);
    assert(views(ls@) =~= lv);
    let mut out: Vec<SpreadPosition> = Vec::new();
    let mut i: usize = 0;
    assert(lv.take(0) =~= Seq::<Seq<char>>::empty());
    assert(position_views(out@) =~= Seq::<PositionView>::empty());
    while i < ls.len()
        invariant
            i <= ls@.len() == lv.len(),
            lv == lines(text@),
            views(ls@) == lv,
            draft_positions(lv.take(i as int)) == Some(position_views(out@)),
        decreases ls@.len() - i,
    {
        let ghost t = lv.take(i as int + 1);
        proof {
            assert(t.drop_last() =~= lv.take(i as int));
            assert(t.last() == ls@[i as int]@);
        }
        let line = ls[i].as_str();
        let trimmed = trim_str(line);
        if !trimmed.as_str().is_empty() {
            match split_once_char(line, '|') {
                None => {
                    proof {
                        assert(!is_blank(t.last()));
                        assert(split_once(t.last(), '|') is None);
                        assert(draft_positions(t) is None);
                        lemma_draft_positions_prefix(lv, i as int + 1);
                    }
                    return None;
                },
                Some((n, lab)) => {
                    let nt = trim_str(n.as_str());
                    let name = ascii_lowercase(nt.as_str());
                    let label = trim_str(lab.as_str());
                    let ghost before = position_views(out@);
                    out.push(SpreadPosition::new(name.as_str(), label.as_str()));
                    assert(position_views(out@) =~= before.push((name@, label@)));
                },
            }
        }
        i += 1;
    }
    assert(lv.take(ls@.len() as int) =~= lv);
    Some(out)
}

fn draft_relation_list(text: &str) -> (r: Result<Vec<SpreadRelation>, ConsultationError>)
    ensures
        match draft_relations(lines(text@)) {
            Err(m) => r matches Err(e) && invalid_spread(e, m),
            Ok(rv) => r matches Ok(rs) && spread_relation_views(rs@) == rv,
        },
{
    let ls = lines_of(text);
    let ghost lv = lines(text@);
    assert(views(ls@) =~= lv);
    let mut out: Vec<SpreadRelation> = Vec::new();
    let mut i: usize = 0;
    assert(lv.take(0) =~= Seq::<Seq<char>>::empty());
    assert(spread_relation_views(out@) =~= Seq::<SpreadRelationView>::empty());
    while i < ls.len()
        invariant
            i <= ls@.len() == lv.len(),
            lv == lines(text@),
            views(ls@) == lv,
            draft_relations(lv.take(i as int)) == Ok::<Seq<SpreadRelationView>, Seq<char>>(
                spread_relation_views(out@),
            ),
        decreases ls@.len() - i,
    {
        let ghost t = lv.take(i as int + 1);
        proof {
            assert(t.drop_last() =~= lv.take(i as int));
            assert(t.last() == ls@[i as int]@);
        }
        let line = ls[i].as_str();
        let trimmed = trim_str(line);
        if !trimmed.as_str().is_empty() {
            match parse_spread_relation(line) {
                Err(e) => {
                    proof {
                        assert(!is_blank(t.last()));
                        assert(draft_relation(t.last()) is Err);
                        assert(draft_relations(t) == Err::<Seq<SpreadRelationView>, Seq<char>>(
                            draft_relation(t.last())->Err_0,
                        ));
                        lemma_draft_relations_prefix(lv, i as int + 1);
                    }
                    return Err(e);
                },
                Ok(rel) => {
                    let ghost before = spread_relation_views(out@);
                    out.push(rel);
                    assert(spread_relation_views(out@) =~= before.push(
                        (rel.from@, rel.to@, rel.kind, rel.label@),
                    ));
                },
            }
        }
        i += 1;
    }
    assert(lv.take(ls@.len() as int) =~= lv);
    Ok(out)
}

impl SpreadTemplateDraft {
    pub fn new(label: &str, positions: &str) -> (r: Self)
        ensures
            r.label@ == label@,
            r.positions@ == positions@,
            r.relations@.len() == 0,
    {
        SpreadTemplateDraft {
            label: copy_str(label),
            positions: copy_str(positions),
            relations: String::new(),
        }
    }

    pub fn with_relations(self, relations: &str) -> (r: Self)
        ensures
            r.label == self.label,
            r.positions == self.positions,
            r.relations@ == relations@,
    {
        let mut r = self;
        r.relations = copy_str(relations);
        r
    }

    /// The template the form describes: its positions in line order, its
    /// relationships in their derived order, under the trimmed label.
    pub fn into_template(self) -> (r: Result<SpreadTemplate, ConsultationError>)
        ensures
            match draft_positions(lines(self.positions@)) {
                None => r matches Err(e) && invalid_spread(e, "each position must use name | label"@),
                Some(pv) => match draft_relations(lines(self.relations@)) {
                    Err(m) => r matches Err(e) && invalid_spread(e, m),
                    Ok(rv) => {
                        let label = trim(self.label@);
                        let srv = sorted_relations(rv);
                        let id = digest_of(template_identity(label, pv, srv));
                        match template_problem_views(SPREAD_TEMPLATE_SCHEMA@, id, label, pv, srv) {
                            None => r matches Ok(t) && t.schema@ == SPREAD_TEMPLATE_SCHEMA@ && t.id@
                                == id && t.label@ == label && position_views(t.positions@) == pv
                                && spread_relation_views(t.relations@) == srv,
                            Some(_) => r matches Err(e) && invalid_spread(e, "the layout is not valid"@),
                        }
                    },
                },
            },
    {
        let positions = match draft_position_list(self.positions.as_str()) {
            Some(ps) => ps,
            None => {
                return Err(ConsultationError::InvalidSpread("each position must use name | label"));
            },
        };
        let relations = match draft_relation_list(self.relations.as_str()) {
            Ok(rs) => rs,
            Err(e) => {
                return Err(e);
            },
        };
        let label = trim_str(self.label.as_str());
        match SpreadTemplate::new(label.as_str(), positions, relations) {
            Ok(t) => Ok(t),
            Err(_) => Err(ConsultationError::InvalidSpread("the layout is not valid")),
        }
    }
}

// ---------------------------------------------------------------------------
// Calculation inputs
// ---------------------------------------------------------------------------

/// The instant, and optionally the place, a chart is calculated for.
#[derive(Clone, Debug, PartialEq, Eq)]
pub struct AstrologyMoment {
    pub instant_utc: String,
    pub latitude_microdegrees: Option<i32>,
    pub longitude_microdegrees: Option<i32>,
}

impl AstrologyMoment {
    /// A moment with no observer location.
    pub fn global(instant_utc: &str) -> (r: Self)
        ensures
            r.instant_utc@ == instant_utc@,
            r.latitude_microdegrees is None,
            r.longitude_microdegrees is None,
    {
        AstrologyMoment {
            instant_utc: copy_str(instant_utc),
            latitude_microdegrees: None,
            longitude_microdegrees: None,
        }
    }

    /// A moment at an observer location.
    pub fn at(instant_utc: &str, latitude_microdegrees: i32, longitude_microdegrees: i32) -> (r: Self)
        ensures
            r.instant_utc@ == instant_utc@,
            r.latitude_microdegrees == Some(latitude_microdegrees),
            r.longitude_microdegrees == Some(longitude_microdegrees),
    {
        AstrologyMoment {
            instant_utc: copy_str(instant_utc),
            latitude_microdegrees: Some(latitude_microdegrees),
            longitude_microdegrees: Some(longitude_microdegrees),
        }
    }
}

/// Inputs for the local ephemeris calculator.
#[derive(Clone, Debug, PartialEq, Eq)]
pub struct AstrologyCalculationDraft {
    pub instant_utc: String,
    pub latitude_microdegrees: String,
    pub longitude_microdegrees: String,
    pub orb_millidegrees: String,
}

/// An optional whole number: nothing for a blank field, a number for a
/// field that parses, none at all (a refusal) otherwise.
pub open spec fn optional_number_of(text: Seq<char>) -> Option<Option<i32>> {
    if trim(text).len() == 0 {
        Some(None)
    } else {
        match spec_parse_i32(trim(text)) {
            Some(v) => Some(Some(v)),
            None => None,
        }
    }
}

/// The moment and orb a calculation form describes, as the instant, the
/// optional location and the orb, or the complaint about it.
pub open spec fn moment_and_orb_of(
    instant: Seq<char>,
    latitude: Seq<char>,
    longitude: Seq<char>,
    orb: Seq<char>,
) -> Result<(Seq<char>, Option<(i32, i32)>, u32), Seq<char>> {
    if trim(instant).len() == 0 {
        Err("UTC instant is required"@)
    } else if optional_number_of(latitude) is None {
        Err("latitude microdegrees"@)
    } else if optional_number_of(longitude) is None {
        Err("longitude microdegrees"@)
    } else {
        let lat = optional_number_of(latitude)->0;
        let lon = optional_number_of(longitude)->0;
        if lat is Some != lon is Some {
            Err("latitude and longitude are both required when either is given"@)
        } else {
            let place = if lat is Some {
                Some((lat->0, lon->0))
            } else {
                None
            };
            match spec_parse_u32(trim(orb)) {
                None => Err("orb millidegrees must be a number"@),
                Some(o) => if o > 180_000 {
                    Err("orb millidegrees must be at most 180000"@)
                } else {
                    Ok((trim(instant), place, o))
                },
            }
        }
    }
}

fn optional_number(text: &str, name: &'static str) -> (r: Result<Option<i32>, ConsultationError>)
    ensures
        match optional_number_of(text@) {
            Some(v) => r == Ok::<Option<i32>, ConsultationError>(v),
            None => r matches Err(e) && invalid_astrology(e, name@),
        },
{
    let t = trim_str(text);
    if t.as_str().is_empty() {
        return Ok(None);
    }
    match parse_i32(t.as_str()) {
        Some(v) => Ok(Some(v)),
        None => Err(ConsultationError::InvalidAstrology(name)),
    }
}

fn moment_and_orb(instant_utc: &str, latitude_microdegrees: &str, longitude_microdegrees: &str, orb_millidegrees: &str) -> (r: Result<(AstrologyMoment, u32), ConsultationError>)
    ensures
        match moment_and_orb_of(instant_utc@, latitude_microdegrees@, longitude_microdegrees@, orb_millidegrees@) {
            Ok((i, place, o)) => r matches Ok((m, x)) && m.instant_utc@ == i && x == o && match place {
                Some((a, b)) => m.latitude_microdegrees == Some(a) && m.longitude_microdegrees == Some(b),
                None => m.latitude_microdegrees is None && m.longitude_microdegrees is None,
            },
            Err(msg) => r matches Err(e) && invalid_astrology(e, msg),
        },
{
    let instant = trim_str(instant_utc);
    if instant.as_str().is_empty() {
        return Err(ConsultationError::InvalidAstrology("UTC instant is required"));
    }
    let latitude = match optional_number(latitude_microdegrees, "latitude microdegrees") {
        Ok(v) => v,
        Err(e) => {
            return Err(e);
        },
    };
    let longitude = match optional_number(longitude_microdegrees, "longitude microdegrees") {
        Ok(v) => v,
        Err(e) => {
            return Err(e);
        },
    };
    let moment = match (latitude, longitude) {
        (None, None) => AstrologyMoment::global(instant.as_str()),
        (Some(lat), Some(lon)) => AstrologyMoment::at(instant.as_str(), lat, lon),
        _ => {
            return Err(
                ConsultationError::InvalidAstrology(
                    "latitude and longitude are both required when either is given",
                ),
            );
        },
    };
    let orb_text = trim_str(orb_millidegrees);
    let orb = match parse_u32(orb_text.as_str()) {
        Some(o) => o,
        None => {
            return Err(ConsultationError::InvalidAstrology("orb millidegrees must be a number"));
        },
    };
    if orb > 180_000 {
        return Err(ConsultationError::InvalidAstrology("orb millidegrees must be at most 180000"));
    }
    Ok((moment, orb))
}

impl AstrologyCalculationDraft {
    pub fn into_moment_and_orb(self) -> (r: Result<(AstrologyMoment, u32), ConsultationError>)
        ensures
            match moment_and_orb_of(
                self.instant_utc@,
                self.latitude_microdegrees@,
                self.longitude_microdegrees@,
                self.orb_millidegrees@,
            ) {
                Ok((i, place, o)) => r matches Ok((m, x)) && m.instant_utc@ == i && x == o && match place {
                    Some((a, b)) => m.latitude_microdegrees == Some(a) && m.longitude_microdegrees
                        == Some(b),
                    None => m.latitude_microdegrees is None && m.longitude_microdegrees is None,
                },
                Err(msg) => r matches Err(e) && invalid_astrology(e, msg),
            },
    {
        moment_and_orb(
            self.instant_utc.as_str(),
            self.latitude_microdegrees.as_str(),
            self.longitude_microdegrees.as_str(),
            self.orb_millidegrees.as_str(),
        )
    }
}

/// One body's position as a chart form gives it, before a chart is built:
/// the body, its longitude and latitude in millidegrees, and whether it is
/// retrograde, when the form says.
#[derive(Clone, Debug, PartialEq, Eq)]
pub struct AstrologyPosition {
    pub body: String,
    pub longitude_millidegrees: i32,
    pub latitude_millidegrees: i32,
    pub retrograde: Option<bool>,
}

pub type AstroPositionView = (Seq<char>, i32, i32, Option<bool>);

pub open spec fn astro_position_view(p: AstrologyPosition) -> AstroPositionView {
    (p.body@, p.longitude_millidegrees, p.latitude_millidegrees, p.retrograde)
}

pub open spec fn astro_position_views(ps: Seq<AstrologyPosition>) -> Seq<AstroPositionView> {
    ps.map_values(|p: AstrologyPosition| astro_position_view(p))
}

/// One line of the positions field: `body | longitude | latitude |
/// retrograde`, each part trimmed; retrograde is `true`, `false` or empty.
pub open spec fn position_of_line(l: Seq<char>) -> Result<AstroPositionView, Seq<char>> {
    let parts = split(l, '|');
    if parts.len() != 4 {
        Err("each position must use body | longitude | latitude | retrograde"@)
    } else {
        match spec_parse_i32(trim(parts[1])) {
            None => Err("longitude millidegrees must be a number"@),
            Some(lon) => match spec_parse_i32(trim(parts[2])) {
                None => Err("latitude millidegrees must be a number"@),
                Some(lat) => {
                    let r = trim(parts[3]);
                    if r.len() == 0 {
                        Ok((trim(parts[0]), lon, lat, None))
                    } else if r == "true"@ {
                        Ok((trim(parts[0]), lon, lat, Some(true)))
                    } else if r == "false"@ {
                        Ok((trim(parts[0]), lon, lat, Some(false)))
                    } else {
                        Err("retrograde is true, false, or empty"@)
                    }
                },
            },
        }
    }
}

/// The positions of the non-blank lines, in order, or the complaint about the
/// first line that does not parse.
pub open spec fn positions_of(ls: Seq<Seq<char>>) -> Result<Seq<AstroPositionView>, Seq<char>>
    decreases ls.len(),
{
    if ls.len() == 0 {
        Ok(seq![])
    } else {
        match positions_of(ls.drop_last()) {
            Err(m) => Err(m),
            Ok(ps) => if is_blank(ls.last()) {
                Ok(ps)
            } else {
                match position_of_line(ls.last()) {
                    Err(m) => Err(m),
                    Ok(p) => Ok(ps.push(p)),
                }
            },
        }
    }
}

proof fn lemma_positions_prefix(ls: Seq<Seq<char>>, n: int)
    requires
        0 <= n <= ls.len(),
        positions_of(ls.take(n)) is Err,
    ensures
        positions_of(ls) == positions_of(ls.take(n)),
    decreases ls.len(),
{
    if n < ls.len() {
        assert(ls.drop_last().take(n) =~= ls.take(n));
        lemma_positions_prefix(ls.drop_last(), n);
    } else {
        assert(ls.take(n) =~= ls);
    }
}

fn parse_position(line: &str) -> (r: Result<AstrologyPosition, ConsultationError>)
    ensures
        match position_of_line(line@) {
            Ok(p) => r matches Ok(x) && astro_position_view(x) == p,
            Err(m) => r matches Err(e) && invalid_astrology(e, m),
        },
{
    let parts = split_char(line, '|');
    if parts.len() != 4 {
        return Err(
            ConsultationError::InvalidAstrology(
                "each position must use body | longitude | latitude | retrograde",
            ),
        );
    }
    let lon_text = trim_str(parts[1].as_str());
    let longitude = match parse_i32(lon_text.as_str()) {
        Some(v) => v,
        None => {
            return Err(ConsultationError::InvalidAstrology("longitude millidegrees must be a number"));
        },
    };
    let lat_text = trim_str(parts[2].as_str());
    let latitude = match parse_i32(lat_text.as_str()) {
        Some(v) => v,
        None => {
            return Err(ConsultationError::InvalidAstrology("latitude millidegrees must be a number"));
        },
    };
    let retro = trim_str(parts[3].as_str());
    let retrograde = if retro.as_str().is_empty() {
        None
    } else if str_eq(retro.as_str(), "true") {
        proof {
            reveal_strlit("true");
        }
        Some(true)
    } else if str_eq(retro.as_str(), "false") {
        proof {
            reveal_strlit("true");
            reveal_strlit("false");
        }
        Some(false)
    } else {
        return Err(ConsultationError::InvalidAstrology("retrograde is true, false, or empty"));
    };
    let body = trim_str(parts[0].as_str());
    Ok(AstrologyPosition {
        body,
        longitude_millidegrees: longitude,
        latitude_millidegrees: latitude,
        retrograde,
    })
}

fn parse_positions(text: &str) -> (r: Result<Vec<AstrologyPosition>, ConsultationError>)
    ensures
        match positions_of(lines(text@)) {
            Ok(ps) => r matches Ok(v) && astro_position_views(v@) == ps,
            Err(m) => r matches Err(e) && invalid_astrology(e, m),
        },
{
    let ls = lines_of(text);
    let ghost lv = lines(text@);
    assert(views(ls@) =~= lv);
    let mut out: Vec<AstrologyPosition> = Vec::new();
    let mut i: usize = 0;
    assert(lv.take(0) =~= Seq::<Seq<char>>::empty());
    assert(astro_position_views(out@) =~= Seq::<AstroPositionView>::empty());
    while i < ls.len()
        invariant
            i <= ls@.len() == lv.len(),
            lv == lines(text@),
            views(ls@) == lv,
            positions_of(lv.take(i as int)) == Ok::<Seq<AstroPositionView>, Seq<char>>(
                astro_position_views(out@),
            ),
        decreases ls@.len() - i,
    {
        let ghost t = lv.take(i as int + 1);
        proof {
            assert(t.drop_last() =~= lv.take(i as int));
            assert(t.last() == ls@[i as int]@);
        }
        let line = ls[i].as_str();
        let trimmed = trim_str(line);
        if !trimmed.as_str().is_empty() {
            match parse_position(line) {
                Ok(p) => {
                    let ghost before = astro_position_views(out@);
                    out.push(p);
                    assert(astro_position_views(out@) =~= before.push(astro_position_view(p)));
                },
                Err(e) => {
                    proof {
                        lemma_positions_prefix(lv, i as int + 1);
                    }
                    return Err(e);
                },
            }
        }
        i += 1;
    }
    assert(lv.take(ls@.len() as int) =~= lv);
    Ok(out)
}

/// A source-qualified manual chart import form. Positions are copied from an
/// identified calculation source when a local ephemeris is not used.
#[derive(Clone, Debug, PartialEq, Eq)]
pub struct AstrologyChartDraft {
    pub algorithm: String,
    pub engine: String,
    pub ephemeris: String,
    pub instant_utc: String,
    pub latitude_microdegrees: String,
    pub longitude_microdegrees: String,
    pub orb_millidegrees: String,
    /// `body | longitude millidegrees | latitude millidegrees | retrograde`,
    /// one body per line. Retrograde is `true`, `false`, or empty.
    pub positions: String,
}

/// What a chart form yields for the chart it describes: the trimmed
/// algorithm, engine and ephemeris names, the moment, and the positions.
#[derive(Clone, Debug, PartialEq, Eq)]
pub struct AstrologyChartInput {
    pub algorithm: String,
    pub engine: String,
    pub ephemeris: String,
    pub moment: AstrologyMoment,
    pub positions: Vec<AstrologyPosition>,
}

impl AstrologyChartDraft {
    /// Reads the form: its moment and orb as a calculation form reads them,
    /// then each non-blank line of its positions. The chart itself is built,
    /// and its facts checked at the orb, from what this returns.
    pub fn into_chart_and_orb(self) -> (r: Result<(AstrologyChartInput, u32), ConsultationError>)
        ensures
            match moment_and_orb_of(
                self.instant_utc@,
                self.latitude_microdegrees@,
                self.longitude_microdegrees@,
                self.orb_millidegrees@,
            ) {
                Err(msg) => r matches Err(e) && invalid_astrology(e, msg),
                Ok((i, place, o)) => match positions_of(lines(self.positions@)) {
                    Err(msg) => r matches Err(e) && invalid_astrology(e, msg),
                    Ok(ps) => r matches Ok((c, x)) && x == o && c.moment.instant_utc@ == i && match place {
                        Some((a, b)) => c.moment.latitude_microdegrees == Some(a)
                            && c.moment.longitude_microdegrees == Some(b),
                        None => c.moment.latitude_microdegrees is None
                            && c.moment.longitude_microdegrees is None,
                    } && c.algorithm@ == trim(self.algorithm@) && c.engine@ == trim(self.engine@)
                        && c.ephemeris@ == trim(self.ephemeris@) && astro_position_views(c.positions@)
                        == ps,
                },
            },
    {
        let (moment, orb) = match moment_and_orb(
            self.instant_utc.as_str(),
            self.latitude_microdegrees.as_str(),
            self.longitude_microdegrees.as_str(),
            self.orb_millidegrees.as_str(),
        ) {
            Ok(v) => v,
            Err(e) => {
                return Err(e);
            },
        };
        let positions = match parse_positions(self.positions.as_str()) {
            Ok(v) => v,
            Err(e) => {
                return Err(e);
            },
        };
        let input = AstrologyChartInput {
            algorithm: trim_str(self.algorithm.as_str()),
            engine: trim_str(self.engine.as_str()),
            ephemeris: trim_str(self.ephemeris.as_str()),
            moment,
            positions,
        };
        Ok((input, orb))
    }
}

// ---------------------------------------------------------------------------
// Manual contexts
// ---------------------------------------------------------------------------

/// A headed context form. `additional_facts` is a small, line-oriented editor
/// for disclosed values rather than a mutable store.
#[derive(Clone, Debug, PartialEq, Eq)]
pub struct ContextDraft {
    pub label: String,
    pub question: String,
    pub tags: String,
    pub additional_facts: String,
}

/// Each pair set in turn, a later value replacing an earlier one.
pub open spec fn kv_insert_all(
    s: Seq<(Seq<char>, Seq<char>)>,
    items: Seq<(Seq<char>, Seq<char>)>,
) -> Seq<(Seq<char>, Seq<char>)>
    decreases items.len(),
{
    if items.len() == 0 {
        s
    } else {
        let before = kv_insert_all(s, items.drop_last());
        kv_insert(before, items.last().0, items.last().1)
    }
}

/// A fact name: one to 64 bytes of lowercase ASCII letters, digits and
/// underscores.
pub open spec fn fact_name_ok(n: Seq<char>) -> bool {
    &&& n.len() > 0
    &&& byte_len(n) <= MAX_FACT_NAME_BYTES
    &&& forall|i: int|
        0 <= i < n.len() ==> is_ascii_lower(#[trigger] n[i]) || is_ascii_digit(n[i]) || n[i] == '_'
}

/// The additional facts of a context form, as pairs sorted by name, or the
/// complaint about its first bad line.
pub open spec fn additional_facts_of(ls: Seq<Seq<char>>) -> Result<Seq<(Seq<char>, Seq<char>)>, Seq<char>>
    decreases ls.len(),
{
    if ls.len() == 0 {
        Ok(seq![])
    } else {
        match additional_facts_of(ls.drop_last()) {
            Err(m) => Err(m),
            Ok(fs) => {
                let l = ls.last();
                if is_blank(l) {
                    Ok(fs)
                } else {
                    match split_once(l, ':') {
                        None => Err("each additional fact must use name: value"@),
                        Some((n, v)) => {
                            let name = ascii_lower_seq(trim(n));
                            let value = trim(v);
                            if !fact_name_ok(name) {
                                Err(
                                    "additional fact names use lowercase letters, digits, and underscores"@,
                                )
                            } else if name == "question"@ {
                                Err("question belongs in the question field"@)
                            } else if value.len() == 0 || byte_len(value) > MAX_FACT_VALUE_BYTES {
                                Err("each additional fact value must contain 1 to 4096 bytes"@)
                            } else if kv_get(fs, name) is Some {
                                Err("additional fact names must be unique"@)
                            } else if kv_insert(fs, name, value).len() > MAX_ADDITIONAL_FACTS {
                                Err("a context may contain at most 64 additional facts"@)
                            } else {
                                Ok(kv_insert(fs, name, value))
                            }
                        },
                    }
                }
            },
        }
    }
}

/// The tag set of a context form: the comma-separated pieces, trimmed and
/// lowercased, the empty ones dropped; none when a tag is longer than 64
/// bytes.
pub open spec fn tag_set_of(pieces: Seq<Seq<char>>) -> Option<Seq<Seq<char>>>
    decreases pieces.len(),
{
    if pieces.len() == 0 {
        Some(seq![])
    } else {
        match tag_set_of(pieces.drop_last()) {
            None => None,
            Some(ts) => {
                let t = unicode_lowercase(trim(pieces.last()));
                if t.len() == 0 {
                    Some(ts)
                } else if byte_len(t) > MAX_TAG_BYTES {
                    None
                } else {
                    Some(set_insert(ts, t))
                }
            },
        }
    }
}

pub proof fn lemma_additional_facts_prefix(ls: Seq<Seq<char>>, n: int)
    requires
        0 <= n <= ls.len(),
        additional_facts_of(ls.take(n)) is Err,
    ensures
        additional_facts_of(ls) == additional_facts_of(ls.take(n)),
    decreases ls.len(),
{
    if n < ls.len() {
        assert(ls.drop_last().take(n) =~= ls.take(n));
        lemma_additional_facts_prefix(ls.drop_last(), n);
    } else {
        assert(ls.take(n) =~= ls);
    }
}

pub proof fn lemma_tag_set_prefix(pieces: Seq<Seq<char>>, n: int)
    requires
        0 <= n <= pieces.len(),
        tag_set_of(pieces.take(n)) is None,
    ensures
        tag_set_of(pieces) is None,
    decreases pieces.len(),
{
    if n < pieces.len() {
        assert(pieces.drop_last().take(n) =~= pieces.take(n));
        lemma_tag_set_prefix(pieces.drop_last(), n);
    } else {
        assert(pieces.take(n) =~= pieces);
    }
}

fn fact_name_valid(name: &str) -> (r: bool)
    ensures
        r == fact_name_ok(name@),
{
    if name.is_empty() || str_byte_len(name) > MAX_FACT_NAME_BYTES {
        return false;
    }
    let v = crate::text::chars_of(name);
    let mut i: usize = 0;
    while i < v.len()
        invariant
            i <= v@.len(),
            v@ == name@,
            forall|j: int|
                0 <= j < i ==> is_ascii_lower(#[trigger] v@[j]) || is_ascii_digit(v@[j]) || v@[j]
                    == '_',
        decreases v@.len() - i,
    {
        let c = v[i];
        if !(('a' <= c && c <= 'z') || ('0' <= c && c <= '9') || c == '_') {
            return false;
        }
        i += 1;
    }
    true
}

fn additional_facts(text: &str) -> (r: Result<Vec<(String, String)>, ConsultationError>)
    ensures
        match additional_facts_of(lines(text@)) {
            Err(m) => r matches Err(e) && invalid_context(e, m),
            Ok(fs) => r matches Ok(v) && pair_views(v@) == fs && strictly_sorted(keys(fs)),
        },
{
    let ls = lines_of(text);
    let ghost lv = lines(text@);
    assert(views(ls@) =~= lv);
    let mut facts: Vec<(String, String)> = Vec::new();
    let mut i: usize = 0;
    assert(lv.take(0) =~= Seq::<Seq<char>>::empty());
    assert(pair_views(facts@) =~= Seq::<(Seq<char>, Seq<char>)>::empty());
    assert(keys(pair_views(facts@)) =~= Seq::<Seq<char>>::empty());
    while i < ls.len()
        invariant
            i <= ls@.len() == lv.len(),
            lv == lines(text@),
            views(ls@) == lv,
            strictly_sorted(keys(pair_views(facts@))),
            additional_facts_of(lv.take(i as int)) == Ok::<Seq<(Seq<char>, Seq<char>)>, Seq<char>>(
                pair_views(facts@),
            ),
        decreases ls@.len() - i,
    {
        let ghost t = lv.take(i as int + 1);
        let ghost before = pair_views(facts@);
        proof {
            assert(t.drop_last() =~= lv.take(i as int));
            assert(t.last() == ls@[i as int]@);
        }
        let line = ls[i].as_str();
        let trimmed = trim_str(line);
        if !trimmed.as_str().is_empty() {
            let (n, v) = match split_once_char(line, ':') {
                Some(pair) => pair,
                None => {
                    proof {
                        lemma_additional_facts_prefix(lv, i as int + 1);
                    }
                    return Err(
                        ConsultationError::InvalidContext("each additional fact must use name: value"),
                    );
                },
            };
            let nt = trim_str(n.as_str());
            let name = ascii_lowercase(nt.as_str());
            let value = trim_str(v.as_str());
            if !fact_name_valid(name.as_str()) {
                proof {
                    lemma_additional_facts_prefix(lv, i as int + 1);
                }
                return Err(
                    ConsultationError::InvalidContext(
                        "additional fact names use lowercase letters, digits, and underscores",
                    ),
                );
            }
            if str_eq(name.as_str(), "question") {
                proof {
                    lemma_additional_facts_prefix(lv, i as int + 1);
                }
                return Err(ConsultationError::InvalidContext("question belongs in the question field"));
            }
            if value.as_str().is_empty() || str_byte_len(value.as_str()) > MAX_FACT_VALUE_BYTES {
                proof {
                    lemma_additional_facts_prefix(lv, i as int + 1);
                }
                return Err(
                    ConsultationError::InvalidContext(
                        "each additional fact value must contain 1 to 4096 bytes",
                    ),
                );
            }
            let ghost nv = name@;
            let ghost vv = value@;
            match kv_put(&mut facts, name, value) {
                Some(_) => {
                    proof {
                        lemma_additional_facts_prefix(lv, i as int + 1);
                    }
                    return Err(ConsultationError::InvalidContext("additional fact names must be unique"));
                },
                None => {},
            }
            if facts.len() > MAX_ADDITIONAL_FACTS {
                proof {
                    assert(pair_views(facts@).len() == facts@.len());
                    lemma_additional_facts_prefix(lv, i as int + 1);
                }
                return Err(
                    ConsultationError::InvalidContext(
                        "a context may contain at most 64 additional facts",
                    ),
                );
            }
            assert(pair_views(facts@) == kv_insert(before, nv, vv));
        }
        i += 1;
    }
    assert(lv.take(ls@.len() as int) =~= lv);
    Ok(facts)
}

fn context_tags(text: &str) -> (r: Option<Vec<String>>)
    ensures
        match tag_set_of(split(text@, ',')) {
            None => r is None,
            Some(ts) => r matches Some(v) && views(v@) == ts && strictly_sorted(ts),
        },
{
    let pieces = split_char(text, ',');
    let ghost pv = split(text@, ',');
    assert(views(pieces@) =~= pv);
    let mut tags: Vec<String> = Vec::new();
    let mut i: usize = 0;
    assert(pv.take(0) =~= Seq::<Seq<char>>::empty());
    assert(views(tags@) =~= Seq::<Seq<char>>::empty());
    while i < pieces.len()
        invariant
            i <= pieces@.len() == pv.len(),
            pv == split(text@, ','),
            views(pieces@) == pv,
            strictly_sorted(views(tags@)),
            tag_set_of(pv.take(i as int)) == Some(views(tags@)),
        decreases pieces@.len() - i,
    {
        let ghost t = pv.take(i as int + 1);
        proof {
            assert(t.drop_last() =~= pv.take(i as int));
            assert(t.last() == pieces@[i as int]@);
        }
        let trimmed = trim_str(pieces[i].as_str());
        let tag = to_lowercase(trimmed.as_str());
        if !tag.as_str().is_empty() {
            if str_byte_len(tag.as_str()) > MAX_TAG_BYTES {
                proof {
                    lemma_tag_set_prefix(pv, i as int + 1);
                }
                return None;
            }
            sorted_insert(&mut tags, tag);
        }
        i += 1;
    }
    assert(pv.take(pieces@.len() as int) =~= pv);
    Some(tags)
}

impl ContextDraft {
    pub fn new(label: &str, question: &str, tags: &str) -> (r: Self)
        ensures
            r.label@ == label@,
            r.question@ == question@,
            r.tags@ == tags@,
            r.additional_facts@.len() == 0,
    {
        ContextDraft {
            label: copy_str(label),
            question: copy_str(question),
            tags: copy_str(tags),
            additional_facts: String::new(),
        }
    }

    pub fn with_additional_facts(self, facts: &str) -> (r: Self)
        ensures
            r.label == self.label,
            r.question == self.question,
            r.tags == self.tags,
            r.additional_facts@ == facts@,
    {
        let mut r = self;
        r.additional_facts = copy_str(facts);
        r
    }

    /// The manual context the form describes: its trimmed label, the
    /// question as a fact beside the additional facts, and the tag set.
    pub fn into_snapshot(self) -> (r: Result<ContextSnapshot, ConsultationError>)
        ensures
            ({
                let label = trim(self.label@);
                let question = trim(self.question@);
                if label.len() == 0 || byte_len(label) > MAX_CONTEXT_LABEL_BYTES {
                    r matches Err(e) && invalid_context(e, "label must contain 1 to 256 bytes"@)
                } else if question.len() == 0 || byte_len(question) > MAX_QUESTION_BYTES {
                    r matches Err(e) && invalid_context(e, "question must contain 1 to 4096 bytes"@)
                } else {
                    match tag_set_of(split(self.tags@, ',')) {
                        None => r matches Err(e) && invalid_context(
                            e,
                            "each tag must contain at most 64 bytes"@,
                        ),
                        Some(ts) => if ts.len() > MAX_TAGS {
                            r matches Err(e) && invalid_context(
                                e,
                                "a context may contain at most 64 tags"@,
                            )
                        } else {
                            match additional_facts_of(lines(self.additional_facts@)) {
                                Err(m) => r matches Err(e) && invalid_context(e, m),
                                Ok(fs) => r matches Ok(s) && s.wf() && s.label@ == label
                                    && s.schema@ == MANUAL_CONTEXT_SCHEMA@ && s.tags_view() == ts
                                    && s.facts_view() == kv_insert_all(
                                    seq![("question"@, question)],
                                    fs,
                                ),
                            }
                        },
                    }
                }
            }),
    {
        let label = trim_str(self.label.as_str());
        if label.as_str().is_empty() || str_byte_len(label.as_str()) > MAX_CONTEXT_LABEL_BYTES {
            return Err(ConsultationError::InvalidContext("label must contain 1 to 256 bytes"));
        }
        let question = trim_str(self.question.as_str());
        if question.as_str().is_empty() || str_byte_len(question.as_str()) > MAX_QUESTION_BYTES {
            return Err(ConsultationError::InvalidContext("question must contain 1 to 4096 bytes"));
        }
        let tags = match context_tags(self.tags.as_str()) {
            Some(t) => t,
            None => {
                return Err(ConsultationError::InvalidContext("each tag must contain at most 64 bytes"));
            },
        };
        if tags.len() > MAX_TAGS {
            return Err(ConsultationError::InvalidContext("a context may contain at most 64 tags"));
        }
        let facts = match additional_facts(self.additional_facts.as_str()) {
            Ok(f) => f,
            Err(e) => {
                return Err(e);
            },
        };
        let mut snapshot = ContextSnapshot::new(label.as_str(), MANUAL_CONTEXT_SCHEMA).with_fact(
            "question",
            question.as_str(),
        );
        assert(snapshot.facts_view() =~= seq![("question"@, question@)]);
        snapshot.tags = tags;
        let ghost fs = pair_views(facts@);
        let ghost start = snapshot.facts_view();
        let mut j: usize = 0;
        assert(fs.take(0) =~= Seq::<(Seq<char>, Seq<char>)>::empty());
        while j < facts.len()
            invariant
                j <= facts@.len(),
                fs == pair_views(facts@),
                snapshot.wf(),
                snapshot.label@ == label@,
                snapshot.schema@ == MANUAL_CONTEXT_SCHEMA@,
                snapshot.tags_view() == views(tags@),
                snapshot.facts_view() == kv_insert_all(start, fs.take(j as int)),
            decreases facts@.len() - j,
        {
            let name = facts[j].0.clone();
            let value = facts[j].1.clone();
            let _ = kv_put(&mut snapshot.facts, name, value);
            assert(fs.take(j as int + 1).drop_last() =~= fs.take(j as int));
            j += 1;
        }
        assert(fs.take(facts@.len() as int) =~= fs);
        Ok(snapshot)
    }
}

// ---------------------------------------------------------------------------
// Receipt comparison
// ---------------------------------------------------------------------------

/// One saved occasion with the values the reading and journal surfaces use.
#[derive(Clone, Debug, PartialEq, Eq)]
pub struct ConsultationDetail {
    pub session: ReadingSession,
    pub context: ContextSnapshot,
    pub field: Field,
    pub readings: Vec<Reading>,
}

/// A comparison of two sealed session receipts. It is silent about a card's
/// interpretation.
#[derive(Clone, Debug, PartialEq, Eq)]
pub struct ReceiptComparison {
    pub left_session_id: String,
    pub right_session_id: String,
    pub same_context: bool,
    pub same_field: bool,
    pub same_position_names: bool,
    pub entries: Vec<ReceiptComparisonEntry>,
}

/// Comparison values for one named placement.
#[derive(Clone, Debug, PartialEq, Eq)]
pub struct ReceiptComparisonEntry {
    pub position: String,
    pub left_candidate: Option<String>,
    pub right_candidate: Option<String>,
    pub same_candidate: Option<bool>,
    pub left_mode: Option<SelectionMode>,
    pub right_mode: Option<SelectionMode>,
    pub same_mode: Option<bool>,
    pub left_algorithm: Option<String>,
    pub right_algorithm: Option<String>,
    pub same_receipt: Option<bool>,
}

/// How many placements are paired with a reading.
pub open spec fn paired(d: ConsultationDetail) -> int {
    if d.session.placements@.len() <= d.readings@.len() {
        d.session.placements@.len() as int
    } else {
        d.readings@.len() as int
    }
}

/// The last of the first `n` placements at a position.
pub open spec fn last_at(ps: Seq<ReadingPlacement>, n: int, position: Seq<char>) -> Option<int>
    decreases n,
{
    if n <= 0 {
        None
    } else if ps[n - 1].position@ == position {
        Some(n - 1)
    } else {
        last_at(ps, n - 1, position)
    }
}

/// The reading paired with a position; a later placement at the same
/// position replaces an earlier one.
pub open spec fn reading_at(d: ConsultationDetail, position: Seq<char>) -> Option<Reading> {
    match last_at(d.session.placements@, paired(d), position) {
        Some(i) => Some(d.readings@[i]),
        None => None,
    }
}

/// The positions paired with a reading.
pub open spec fn paired_positions(d: ConsultationDetail) -> Set<Seq<char>> {
    Set::new(
        |p: Seq<char>|
            exists|i: int| 0 <= i < paired(d) && (#[trigger] d.session.placements@[i]).position@ == p,
    )
}

pub open spec fn position_names(ps: Seq<ReadingPlacement>) -> Seq<Seq<char>> {
    ps.map_values(|p: ReadingPlacement| p.position@)
}

/// The comparison entry of one position from the readings on each side.
pub open spec fn is_entry_for(
    e: ReceiptComparisonEntry,
    position: Seq<char>,
    l: Option<Reading>,
    r: Option<Reading>,
) -> bool {
    &&& e.position@ == position
    &&& opt_text(e.left_candidate) == (match l {
        Some(x) => Some(x.candidate_id@),
        None => None,
    })
    &&& opt_text(e.right_candidate) == (match r {
        Some(x) => Some(x.candidate_id@),
        None => None,
    })
    &&& e.left_mode == (match l {
        Some(x) => Some(x.receipt.mode),
        None => None,
    })
    &&& e.right_mode == (match r {
        Some(x) => Some(x.receipt.mode),
        None => None,
    })
    &&& opt_text(e.left_algorithm) == (match l {
        Some(x) => Some(x.receipt.algorithm@),
        None => None,
    })
    &&& opt_text(e.right_algorithm) == (match r {
        Some(x) => Some(x.receipt.algorithm@),
        None => None,
    })
    &&& match (l, r) {
        (Some(x), Some(y)) => {
            &&& e.same_candidate == Some(x.candidate_id@ == y.candidate_id@)
            &&& e.same_mode == Some(x.receipt.mode == y.receipt.mode)
            &&& e.same_receipt == Some(same_receipt(x.receipt, y.receipt))
        },
        _ => e.same_candidate is None && e.same_mode is None && e.same_receipt is None,
    }
}

fn find_paired(d: &ConsultationDetail, position: &str) -> (r: Option<usize>)
    ensures
        match r {
            Some(k) => last_at(d.session.placements@, paired(*d), position@) == Some(k as int),
            None => last_at(d.session.placements@, paired(*d), position@) is None,
        },
        r matches Some(i) ==> i < d.readings@.len() && i < d.session.placements@.len(),
{
    let n = if d.session.placements.len() <= d.readings.len() {
        d.session.placements.len()
    } else {
        d.readings.len()
    };
    let mut k = n;
    while k > 0
        invariant
            k <= n,
            n == paired(*d),
            n <= d.readings@.len(),
            n <= d.session.placements@.len(),
            last_at(d.session.placements@, n as int, position@) == last_at(
                d.session.placements@,
                k as int,
                position@,
            ),
        decreases k,
    {
        if str_eq(d.session.placements[k - 1].position.as_str(), position) {
            return Some(k - 1);
        }
        k -= 1;
    }
    None
}

fn paired_position_set(d: &ConsultationDetail, keys: &mut Vec<String>)
    requires
        strictly_sorted(views(old(keys)@)),
    ensures
        strictly_sorted(views(final(keys)@)),
        views(final(keys)@).to_set() == views(old(keys)@).to_set() + paired_positions(*d),
{
    let n = if d.session.placements.len() <= d.readings.len() {
        d.session.placements.len()
    } else {
        d.readings.len()
    };
    let ghost start = views(keys@).to_set();
    let ghost ps = d.session.placements@;
    let mut i: usize = 0;
    assert(start + Set::new(|p: Seq<char>| exists|j: int| 0 <= j < 0 && (#[trigger] ps[j]).position@ == p) =~= start);
    while i < n
        invariant
            i <= n,
            n == paired(*d),
            n <= ps.len(),
            ps == d.session.placements@,
            strictly_sorted(views(keys@)),
            views(keys@).to_set() == start + Set::new(
                |p: Seq<char>| exists|j: int| 0 <= j < i && (#[trigger] ps[j]).position@ == p,
            ),
        decreases n - i,
    {
        let ghost before = views(keys@);
        let name = d.session.placements[i].position.clone();
        sorted_insert(keys, name);
        proof {
            lemma_set_insert_contents(before, ps[i as int].position@);
            let a = Set::new(|p: Seq<char>| exists|j: int| 0 <= j < i && (#[trigger] ps[j]).position@ == p);
            let b = Set::new(|p: Seq<char>| exists|j: int| 0 <= j < i + 1 && (#[trigger] ps[j]).position@ == p);
            assert(b =~= a.insert(ps[i as int].position@)) by {
                assert forall|p: Seq<char>| b.contains(p) implies a.insert(ps[i as int].position@).contains(p) by {
                    let j = choose|j: int| 0 <= j < i + 1 && (#[trigger] ps[j]).position@ == p;
                    if j < i {
                        assert(a.contains(p));
                    }
                }
                assert forall|p: Seq<char>| a.insert(ps[i as int].position@).contains(p) implies b.contains(p) by {
                    if p != ps[i as int].position@ {
                        let j = choose|j: int| 0 <= j < i && (#[trigger] ps[j]).position@ == p;
                        assert(0 <= j < i + 1 && ps[j].position@ == p);
                    } else {
                        assert(0 <= i < i + 1 && ps[i as int].position@ == p);
                    }
                }
            }
            assert(views(keys@).to_set() =~= start + b);
        }
        i += 1;
    }
    assert(Set::new(|p: Seq<char>| exists|j: int| 0 <= j < n && (#[trigger] ps[j]).position@ == p) =~= paired_positions(*d));
}

fn same_names(a: &Vec<ReadingPlacement>, b: &Vec<ReadingPlacement>) -> (r: bool)
    ensures
        r == (position_names(a@) == position_names(b@)),
{
    if a.len() != b.len() {
        assert(position_names(a@).len() != position_names(b@).len());
        return false;
    }
    let mut i: usize = 0;
    while i < a.len()
        invariant
            i <= a@.len() == b@.len(),
            forall|j: int| 0 <= j < i ==> position_names(a@)[j] == position_names(b@)[j],
        decreases a@.len() - i,
    {
        if !str_eq(a[i].position.as_str(), b[i].position.as_str()) {
            assert(position_names(a@)[i as int] != position_names(b@)[i as int]);
            return false;
        }
        i += 1;
    }
    assert(position_names(a@) =~= position_names(b@));
    true
}

fn entry_for(position: &String, l: Option<&Reading>, r: Option<&Reading>) -> (e: ReceiptComparisonEntry)
    ensures
        is_entry_for(
            e,
            position@,
            match l {
                Some(x) => Some(*x),
                None => None,
            },
            match r {
                Some(x) => Some(*x),
                None => None,
            },
        ),
{
    let (same_candidate, same_mode, same_receipt_value) = match (l, r) {
        (Some(x), Some(y)) => (
            Some(str_eq(x.candidate_id.as_str(), y.candidate_id.as_str())),
            Some(x.receipt.mode == y.receipt.mode),
            Some(receipts_equal(&x.receipt, &y.receipt)),
        ),
        _ => (None, None, None),
    };
    ReceiptComparisonEntry {
        position: position.clone(),
        left_candidate: match l {
            Some(x) => Some(x.candidate_id.clone()),
            None => None,
        },
        right_candidate: match r {
            Some(x) => Some(x.candidate_id.clone()),
            None => None,
        },
        same_candidate,
        left_mode: match l {
            Some(x) => Some(x.receipt.mode),
            None => None,
        },
        right_mode: match r {
            Some(x) => Some(x.receipt.mode),
            None => None,
        },
        same_mode,
        left_algorithm: match l {
            Some(x) => Some(x.receipt.algorithm.clone()),
            None => None,
        },
        right_algorithm: match r {
            Some(x) => Some(x.receipt.algorithm.clone()),
            None => None,
        },
        same_receipt: same_receipt_value,
    }
}

/// Compares two saved occasions position by position: every position paired
/// with a reading on either side, in order, with what each side selected and
/// whether the two receipts agree.
pub fn compare_details(left: &ConsultationDetail, right: &ConsultationDetail) -> (r: ReceiptComparison)
    ensures
        r.left_session_id@ == left.session.id@,
        r.right_session_id@ == right.session.id@,
        r.same_context == (left.session.context_digest@ == right.session.context_digest@),
        r.same_field == (left.session.field_digest@ == right.session.field_digest@),
        r.same_position_names == (position_names(left.session.placements@) == position_names(
            right.session.placements@,
        )),
        ({
            let positions = sorted_of(paired_positions(*left) + paired_positions(*right));
            &&& r.entries@.len() == positions.len()
            &&& forall|i: int|
                0 <= i < positions.len() ==> #[trigger] is_entry_for(
                    r.entries@[i],
                    positions[i],
                    reading_at(*left, positions[i]),
                    reading_at(*right, positions[i]),
                )
        }),
{
    let mut keys: Vec<String> = Vec::new();
    assert(views(keys@).to_set() =~= Set::<Seq<char>>::empty());
    paired_position_set(left, &mut keys);
    paired_position_set(right, &mut keys);
    proof {
        assert(Set::<Seq<char>>::empty() + paired_positions(*left) =~= paired_positions(*left));
        lemma_sorted_of(views(keys@));
    }
    let ghost positions = views(keys@);
    let mut entries: Vec<ReceiptComparisonEntry> = Vec::new();
    let mut i: usize = 0;
    while i < keys.len()
        invariant
            i <= keys@.len(),
            positions == views(keys@),
            entries@.len() == i,
            forall|j: int|
                0 <= j < i ==> #[trigger] is_entry_for(
                    entries@[j],
                    positions[j],
                    reading_at(*left, positions[j]),
                    reading_at(*right, positions[j]),
                ),
        decreases keys@.len() - i,
    {
        let key = &keys[i];
        let lk = find_paired(left, key.as_str());
        let rk = find_paired(right, key.as_str());
        let l = match lk {
            Some(k) => Some(&left.readings[k]),
            None => None,
        };
        let r = match rk {
            Some(k) => Some(&right.readings[k]),
            None => None,
        };
        proof {
            match lk {
                Some(k) => {
                    assert(last_at(left.session.placements@, paired(*left), key@) == Some(k as int));
                },
                None => {
                    assert(last_at(left.session.placements@, paired(*left), key@) is None);
                },
            }
            match rk {
                Some(k) => {
                    assert(last_at(right.session.placements@, paired(*right), key@) == Some(k as int));
                },
                None => {
                    assert(last_at(right.session.placements@, paired(*right), key@) is None);
                },
            }
        }
        let e = entry_for(key, l, r);
        proof {
            assert(positions[i as int] == key@);
            assert(reading_at(*left, positions[i as int]) == match l {
                Some(x) => Some(*x),
                None => None::<Reading>,
            });
            assert(reading_at(*right, positions[i as int]) == match r {
                Some(x) => Some(*x),
                None => None::<Reading>,
            });
        }
        let ghost before = entries@;
        entries.push(e);
        proof {
            assert forall|j: int| 0 <= j < i + 1 implies #[trigger] is_entry_for(
                entries@[j],
                positions[j],
                reading_at(*left, positions[j]),
                reading_at(*right, positions[j]),
            ) by {
                if j < i {
                    assert(entries@[j] == before[j]);
                }
            }
        }
        i += 1;
    }
    ReceiptComparison {
        left_session_id: left.session.id.clone(),
        right_session_id: right.session.id.clone(),
        same_context: str_eq(left.session.context_digest.as_str(), right.session.context_digest.as_str()),
        same_field: str_eq(left.session.field_digest.as_str(), right.session.field_digest.as_str()),
        same_position_names: same_names(&left.session.placements, &right.session.placements),
        entries,
    }
}

/// Where both sides hold a reading, a compared position calls the receipts
/// the same only when every stored field of the two receipts agrees: mode,
/// schema, algorithm, context and field digests, enrichment qualification,
/// derivation and its digest, weights and total, sample, event nonce and the
/// selected index and candidate. So
/// two receipts that differ in sample or in event nonce are never the same,
/// while a receipt is always the same as itself.
pub proof fn law_same_receipt_means_every_field_agrees(
    position: Seq<char>,
    x: Reading,
    y: Reading,
    e: ReceiptComparisonEntry,
)
    requires
        is_entry_for(e, position, Some(x), Some(y)),
    ensures
        e.same_receipt is Some,
        e.same_receipt == Some(true) ==> {
            &&& x.receipt.mode == y.receipt.mode
            &&& x.receipt.schema@ == y.receipt.schema@
            &&& x.receipt.algorithm@ == y.receipt.algorithm@
            &&& x.receipt.context_digest@ == y.receipt.context_digest@
            &&& x.receipt.field_digest@ == y.receipt.field_digest@
            &&& x.receipt.enrichment is Some == y.receipt.enrichment is Some
            &&& (x.receipt.enrichment is Some && y.receipt.enrichment is Some) ==> {
                let (p, q) = (x.receipt.enrichment->0, y.receipt.enrichment->0);
                &&& p.schema@ == q.schema@
                &&& p.algorithm@ == q.algorithm@
                &&& p.report_digest@ == q.report_digest@
                &&& p.weight_additions@ == q.weight_additions@
                &&& p.evidence.evidence_digest@ == q.evidence.evidence_digest@
            }
            &&& x.receipt.derivation is Some == y.receipt.derivation is Some
            &&& (x.receipt.derivation is Some && y.receipt.derivation is Some) ==> {
                let (p, q) = (x.receipt.derivation->0, y.receipt.derivation->0);
                &&& p.schema@ == q.schema@
                &&& p.algorithm@ == q.algorithm@
                &&& p.seed@ == q.seed@
                &&& p.domain@ == q.domain@
            }
            &&& opt_text(x.receipt.derivation_digest) == opt_text(y.receipt.derivation_digest)
            &&& x.receipt.qualified_weights@ == y.receipt.qualified_weights@
            &&& x.receipt.total_weight == y.receipt.total_weight
            &&& x.receipt.sample == y.receipt.sample
            &&& opt_text(x.receipt.event_nonce) == opt_text(y.receipt.event_nonce)
            &&& x.receipt.selected_index == y.receipt.selected_index
            &&& x.receipt.selected_candidate@ == y.receipt.selected_candidate@
        },
        x.receipt.sample != y.receipt.sample ==> e.same_receipt == Some(false),
        opt_text(x.receipt.event_nonce) != opt_text(y.receipt.event_nonce) ==> e.same_receipt == Some(
            false,
        ),
        x.receipt == y.receipt ==> e.same_receipt == Some(true),
{
}

/// A comparison is symmetric: with its two occasions exchanged, it lists
/// the same positions, agrees on context, field and position names, and for
/// each position gives each side's candidate, mode and algorithm on the
/// opposite side, with equal answers on candidate, mode and receipt.
pub proof fn law_comparison_is_symmetric(
    left: ConsultationDetail,
    right: ConsultationDetail,
    position: Seq<char>,
    e: ReceiptComparisonEntry,
    f: ReceiptComparisonEntry,
)
    requires
        is_entry_for(e, position, reading_at(left, position), reading_at(right, position)),
        is_entry_for(f, position, reading_at(right, position), reading_at(left, position)),
    ensures
        sorted_of(paired_positions(left) + paired_positions(right)) == sorted_of(
            paired_positions(right) + paired_positions(left),
        ),
        (left.session.context_digest@ == right.session.context_digest@)
            == (right.session.context_digest@ == left.session.context_digest@),
        (left.session.field_digest@ == right.session.field_digest@)
            == (right.session.field_digest@ == left.session.field_digest@),
        (position_names(left.session.placements@) == position_names(right.session.placements@))
            == (position_names(right.session.placements@) == position_names(left.session.placements@)),
        e.position@ == f.position@,
        opt_text(e.left_candidate) == opt_text(f.right_candidate),
        opt_text(e.right_candidate) == opt_text(f.left_candidate),
        e.left_mode == f.right_mode,
        e.right_mode == f.left_mode,
        opt_text(e.left_algorithm) == opt_text(f.right_algorithm),
        opt_text(e.right_algorithm) == opt_text(f.left_algorithm),
        e.same_candidate == f.same_candidate,
        e.same_mode == f.same_mode,
        e.same_receipt == f.same_receipt,
{
    assert(paired_positions(left) + paired_positions(right) =~= paired_positions(right)
        + paired_positions(left));
}

} // verus!
