//! Source-qualified sky facts and authored interpretation rules: the checked
//! calendar day, observer and numerical controls, and rule packs.

use vstd::prelude::*;

use crate::digest::{digest_of, digest_text, json_string, push_json_string};
use crate::order::{compare_str, lex_lt, lemma_lex_asymmetric, lemma_lex_irreflexive, lemma_lex_total, lemma_lex_transitive, Order};
use crate::text::{copy_str, push_char, push_str, str_eq, trim, trim_str};

verus! {

pub const SKY_DAY_FACTS_SCHEMA: &'static str = "cleromancy.sky-day-facts/v1";

pub const SKY_RULE_PACK_SCHEMA: &'static str = "cleromancy.sky-rule-pack/v1";

pub const SKY_INTERPRETATION_SCHEMA: &'static str = "cleromancy.sky-interpretation/v1";

#[derive(Clone, Debug, PartialEq, Eq)]
pub enum SkyError {
    Empty(&'static str),
    InvalidCivilDay,
    InvalidLatitude(i32),
    InvalidLongitude(i32),
    InvalidSearch(&'static str),
    InvalidTwilightAltitude(i32),
    InvalidInterval,
    InvalidFactsSchema,
    InvalidPackSchema,
    InvalidInterpretationSchema,
    NonCanonicalFacts,
    NonCanonicalRules,
    Duplicate(String),
    FactsMismatch(&'static str),
    PackMismatch(&'static str),
}

/// What went wrong, as a value a contract can state.
pub enum SkyProblem {
    Empty(Seq<char>),
    InvalidCivilDay,
    InvalidLatitude(i32),
    InvalidLongitude(i32),
    InvalidSearch(Seq<char>),
    InvalidTwilightAltitude(i32),
    InvalidPackSchema,
    NonCanonicalRules,
    Duplicate(Seq<char>),
}

/// Whether an error reports exactly the given problem.
pub open spec fn reports(e: SkyError, p: SkyProblem) -> bool {
    match p {
        SkyProblem::Empty(f) => e matches SkyError::Empty(x) && x@ == f,
        SkyProblem::InvalidCivilDay => e is InvalidCivilDay,
        SkyProblem::InvalidLatitude(v) => e == SkyError::InvalidLatitude(v),
        SkyProblem::InvalidLongitude(v) => e == SkyError::InvalidLongitude(v),
        SkyProblem::InvalidSearch(f) => e matches SkyError::InvalidSearch(x) && x@ == f,
        SkyProblem::InvalidTwilightAltitude(v) => e == SkyError::InvalidTwilightAltitude(v),
        SkyProblem::InvalidPackSchema => e is InvalidPackSchema,
        SkyProblem::NonCanonicalRules => e is NonCanonicalRules,
        SkyProblem::Duplicate(d) => e matches SkyError::Duplicate(x) && x@ == d,
    }
}

/// The Gregorian leap-year rule.
pub open spec fn leap(year: int) -> bool {
    year % 4 == 0 && (year % 100 != 0 || year % 400 == 0)
}

pub fn is_leap_year(year: i32) -> (r: bool)
    ensures
        r == leap(year as int),
{
    let r4 = year.checked_rem_euclid(4).unwrap();
    let r100 = year.checked_rem_euclid(100).unwrap();
    let r400 = year.checked_rem_euclid(400).unwrap();
    r4 == 0 && (r100 != 0 || r400 == 0)
}

/// The number of days in a month, or none for a month outside 1..=12.
pub open spec fn days_in_month(year: int, month: int) -> Option<int> {
    if month == 1 || month == 3 || month == 5 || month == 7 || month == 8 || month == 10 || month
        == 12 {
        Some(31)
    } else if month == 4 || month == 6 || month == 9 || month == 11 {
        Some(30)
    } else if month == 2 {
        if leap(year) {
            Some(29)
        } else {
            Some(28)
        }
    } else {
        None
    }
}

/// A proleptic Gregorian calendar date.
pub open spec fn valid_day(year: int, month: int, day: int) -> bool {
    days_in_month(year, month) matches Some(n) && 1 <= day <= n
}

fn month_days(year: i32, month: u8) -> (r: Option<u8>)
    ensures
        match days_in_month(year as int, month as int) {
            Some(n) => r == Some(n as u8),
            None => r is None,
        },
{
    match month {
        1 | 3 | 5 | 7 | 8 | 10 | 12 => Some(31),
        4 | 6 | 9 | 11 => Some(30),
        2 => if is_leap_year(year) {
            Some(29)
        } else {
            Some(28)
        },
        _ => None,
    }
}

/// A calendar day explicitly identified as UTC.
#[derive(Clone, Copy, Debug, PartialEq, Eq, Structural)]
pub struct UtcCivilDay {
    pub year: i32,
    pub month: u8,
    pub day: u8,
}

impl UtcCivilDay {
    pub fn new(year: i32, month: u8, day: u8) -> (r: Result<Self, SkyError>)
        ensures
            valid_day(year as int, month as int, day as int) ==> r == Ok::<Self, SkyError>(
                UtcCivilDay { year, month, day },
            ),
            !valid_day(year as int, month as int, day as int) ==> r == Err::<Self, SkyError>(
                SkyError::InvalidCivilDay,
            ),
    {
        let value = UtcCivilDay { year, month, day };
        match value.validate() {
            Ok(()) => Ok(value),
            Err(e) => Err(e),
        }
    }

    pub fn validate(&self) -> (r: Result<(), SkyError>)
        ensures
            valid_day(self.year as int, self.month as int, self.day as int) ==> r is Ok,
            !valid_day(self.year as int, self.month as int, self.day as int) ==> r == Err::<
                (),
                SkyError,
            >(SkyError::InvalidCivilDay),
    {
        match month_days(self.year, self.month) {
            None => Err(SkyError::InvalidCivilDay),
            Some(days) => {
                if self.day == 0 || self.day > days {
                    Err(SkyError::InvalidCivilDay)
                } else {
                    Ok(())
                }
            },
        }
    }
}

/// The day after a valid day: the next day of the month, the first of the
/// next month, or the first of January of the next year.
pub open spec fn following_day(d: UtcCivilDay) -> (int, int, int) {
    let n = days_in_month(d.year as int, d.month as int)->0;
    if (d.day as int) < n {
        (d.year as int, d.month as int, d.day + 1)
    } else if d.month < 12 {
        (d.year as int, d.month + 1, 1)
    } else {
        (d.year + 1, 1, 1)
    }
}

/// The calendar day after `day`.
pub fn next_day(day: UtcCivilDay) -> (r: Result<UtcCivilDay, SkyError>)
    requires
        day.month == 12 && day.day >= 31 ==> day.year < i32::MAX,
    ensures
        days_in_month(day.year as int, day.month as int) is None ==> r == Err::<UtcCivilDay, SkyError>(
            SkyError::InvalidCivilDay,
        ),
        days_in_month(day.year as int, day.month as int) is Some ==> match r {
            Ok(n) => valid_day(following_day(day).0, following_day(day).1, following_day(day).2)
                && (n.year as int, n.month as int, n.day as int) == following_day(day),
            Err(e) => e == SkyError::InvalidCivilDay && !valid_day(
                following_day(day).0,
                following_day(day).1,
                following_day(day).2,
            ),
        },
{
    let days = match month_days(day.year, day.month) {
        Some(n) => n,
        None => {
            return Err(SkyError::InvalidCivilDay);
        },
    };
    if day.day < days {
        UtcCivilDay::new(day.year, day.month, day.day + 1)
    } else if day.month < 12 {
        UtcCivilDay::new(day.year, day.month + 1, 1)
    } else {
        UtcCivilDay::new(day.year + 1, 1, 1)
    }
}

/// Advancing a valid day always yields a valid day.
pub proof fn law_next_day_is_valid(d: UtcCivilDay)
    requires
        valid_day(d.year as int, d.month as int, d.day as int),
    ensures
        valid_day(following_day(d).0, following_day(d).1, following_day(d).2),
{
}

/// A WGS84 geodetic observer; longitude is east-positive.
#[derive(Clone, Copy, Debug, PartialEq, Eq, Structural)]
pub struct Wgs84Observer {
    pub latitude_microdegrees: i32,
    pub longitude_microdegrees: i32,
    pub height_millimeters: i32,
}

pub open spec fn observer_problem(o: Wgs84Observer) -> Option<SkyProblem> {
    if !(-90_000_000 <= o.latitude_microdegrees <= 90_000_000) {
        Some(SkyProblem::InvalidLatitude(o.latitude_microdegrees))
    } else if !(-180_000_000 <= o.longitude_microdegrees <= 180_000_000) {
        Some(SkyProblem::InvalidLongitude(o.longitude_microdegrees))
    } else {
        None
    }
}

impl Wgs84Observer {
    pub fn new(latitude_microdegrees: i32, longitude_microdegrees: i32, height_millimeters: i32) -> (r:
        Result<Self, SkyError>)
        ensures
            ({
                let o = Wgs84Observer {
                    latitude_microdegrees,
                    longitude_microdegrees,
                    height_millimeters,
                };
                match observer_problem(o) {
                    None => r == Ok::<Self, SkyError>(o),
                    Some(p) => r matches Err(e) && reports(e, p),
                }
            }),
    {
        let value = Wgs84Observer { latitude_microdegrees, longitude_microdegrees, height_millimeters };
        match value.validate() {
            Ok(()) => Ok(value),
            Err(e) => Err(e),
        }
    }

    pub fn validate(&self) -> (r: Result<(), SkyError>)
        ensures
            match observer_problem(*self) {
                None => r is Ok,
                Some(p) => r matches Err(e) && reports(e, p),
            },
    {
        if !(-90_000_000 <= self.latitude_microdegrees && self.latitude_microdegrees <= 90_000_000) {
            return Err(SkyError::InvalidLatitude(self.latitude_microdegrees));
        }
        if !(-180_000_000 <= self.longitude_microdegrees && self.longitude_microdegrees
            <= 180_000_000) {
            return Err(SkyError::InvalidLongitude(self.longitude_microdegrees));
        }
        Ok(())
    }
}

/// Validated sampling controls.
#[derive(Clone, Copy, Debug, PartialEq, Eq, Structural)]
pub struct SkySearchControls {
    pub step_seconds: u32,
    pub tolerance_milliseconds: u32,
}

pub open spec fn search_problem(c: SkySearchControls) -> Option<SkyProblem> {
    if c.step_seconds == 0 || c.step_seconds > 86_400 {
        Some(SkyProblem::InvalidSearch("step_seconds"@))
    } else if c.tolerance_milliseconds == 0 || c.tolerance_milliseconds > c.step_seconds * 1_000 {
        Some(SkyProblem::InvalidSearch("tolerance_milliseconds"@))
    } else {
        None
    }
}

impl SkySearchControls {
    pub fn new(step_seconds: u32, tolerance_milliseconds: u32) -> (r: Result<Self, SkyError>)
        ensures
            ({
                let c = SkySearchControls { step_seconds, tolerance_milliseconds };
                match search_problem(c) {
                    None => r == Ok::<Self, SkyError>(c),
                    Some(p) => r matches Err(e) && reports(e, p),
                }
            }),
    {
        let value = SkySearchControls { step_seconds, tolerance_milliseconds };
        match value.validate() {
            Ok(()) => Ok(value),
            Err(e) => Err(e),
        }
    }

    pub fn validate(&self) -> (r: Result<(), SkyError>)
        ensures
            match search_problem(*self) {
                None => r is Ok,
                Some(p) => r matches Err(e) && reports(e, p),
            },
    {
        if self.step_seconds == 0 || self.step_seconds > 86_400 {
            return Err(SkyError::InvalidSearch("step_seconds"));
        }
        if self.tolerance_milliseconds == 0 || self.tolerance_milliseconds > self.step_seconds
            * 1_000 {
            return Err(SkyError::InvalidSearch("tolerance_milliseconds"));
        }
        Ok(())
    }
}

/// The only twilight measurement this model recognizes.
#[derive(Clone, Copy, Debug, PartialEq, Eq, Structural)]
pub enum SkyTwilightMeasurement {
    AirlessSolarCenter,
}

/// Caller-selected controls for the twilight solver.
#[derive(Clone, Copy, Debug, PartialEq, Eq, Structural)]
pub struct SkyTwilightPolicy {
    pub measurement: SkyTwilightMeasurement,
    pub altitude_millidegrees: i32,
    pub search: SkySearchControls,
}

pub open spec fn twilight_problem(t: SkyTwilightPolicy) -> Option<SkyProblem> {
    if !(-90_000 <= t.altitude_millidegrees <= 90_000) {
        Some(SkyProblem::InvalidTwilightAltitude(t.altitude_millidegrees))
    } else if search_problem(t.search) is Some {
        search_problem(t.search)
    } else if t.search.step_seconds > 3_600 {
        Some(SkyProblem::InvalidSearch("twilight step_seconds"@))
    } else {
        None
    }
}

impl SkyTwilightPolicy {
    pub fn validate(&self) -> (r: Result<(), SkyError>)
        ensures
            match twilight_problem(*self) {
                None => r is Ok,
                Some(p) => r matches Err(e) && reports(e, p),
            },
    {
        if !(-90_000 <= self.altitude_millidegrees && self.altitude_millidegrees <= 90_000) {
            return Err(SkyError::InvalidTwilightAltitude(self.altitude_millidegrees));
        }
        match self.search.validate() {
            Ok(()) => {},
            Err(e) => {
                return Err(e);
            },
        }
        if self.search.step_seconds > 3_600 {
            return Err(SkyError::InvalidSearch("twilight step_seconds"));
        }
        Ok(())
    }
}

/// A disclosed Earth-orientation approximation.
#[derive(Clone, Copy, Debug, PartialEq, Eq, Structural)]
pub enum SkyEarthOrientationApproximation {
    ConstantUt1MinusUtcZeroPolarMotion { ut1_minus_utc_milliseconds: i32 },
}

/// The Earth-orientation policy retained as part of the effective policy.
#[derive(Clone, Debug, PartialEq, Eq)]
pub struct SkyEarthOrientationPolicy {
    pub authority: String,
    pub snapshot: String,
    pub approximation: SkyEarthOrientationApproximation,
}

/// `Empty(field)` when `value` is blank after trimming.
pub open spec fn blank_problem(field: Seq<char>, value: Seq<char>) -> Option<SkyProblem> {
    if trim(value).len() == 0 {
        Some(SkyProblem::Empty(field))
    } else {
        None
    }
}

pub fn nonempty(field: &'static str, value: &str) -> (r: Result<(), SkyError>)
    ensures
        match blank_problem(field@, value@) {
            None => r is Ok,
            Some(p) => r matches Err(e) && reports(e, p),
        },
{
    let t = trim_str(value);
    if t.as_str().is_empty() {
        Err(SkyError::Empty(field))
    } else {
        Ok(())
    }
}

pub fn optional_nonempty(field: &'static str, value: &Option<String>) -> (r: Result<(), SkyError>)
    ensures
        match value {
            Some(v) => match blank_problem(field@, v@) {
                None => r is Ok,
                Some(p) => r matches Err(e) && reports(e, p),
            },
            None => r is Ok,
        },
{
    match value {
        Some(v) => nonempty(field, v.as_str()),
        None => Ok(()),
    }
}

pub open spec fn orientation_problem(p: SkyEarthOrientationPolicy) -> Option<SkyProblem> {
    if blank_problem("earth_orientation.authority"@, p.authority@) is Some {
        blank_problem("earth_orientation.authority"@, p.authority@)
    } else {
        blank_problem("earth_orientation.snapshot"@, p.snapshot@)
    }
}

impl SkyEarthOrientationPolicy {
    pub fn validate(&self) -> (r: Result<(), SkyError>)
        ensures
            match orientation_problem(*self) {
                None => r is Ok,
                Some(p) => r matches Err(e) && reports(e, p),
            },
    {
        match nonempty("earth_orientation.authority", self.authority.as_str()) {
            Ok(()) => {},
            Err(e) => {
                return Err(e);
            },
        }
        nonempty("earth_orientation.snapshot", self.snapshot.as_str())
    }
}

/// All numerical controls effective for one daily timeline calculation.
#[derive(Clone, Debug, PartialEq, Eq)]
pub struct SkyNumericalPolicy {
    pub phase_search: SkySearchControls,
    pub twilight: SkyTwilightPolicy,
    pub earth_orientation: SkyEarthOrientationPolicy,
}

pub open spec fn policy_problem(p: SkyNumericalPolicy) -> Option<SkyProblem> {
    if search_problem(p.phase_search) is Some {
        search_problem(p.phase_search)
    } else if twilight_problem(p.twilight) is Some {
        twilight_problem(p.twilight)
    } else {
        orientation_problem(p.earth_orientation)
    }
}

impl SkyNumericalPolicy {
    pub fn validate(&self) -> (r: Result<(), SkyError>)
        ensures
            match policy_problem(*self) {
                None => r is Ok,
                Some(p) => r matches Err(e) && reports(e, p),
            },
    {
        match self.phase_search.validate() {
            Ok(()) => {},
            Err(e) => {
                return Err(e);
            },
        }
        match self.twilight.validate() {
            Ok(()) => {},
            Err(e) => {
                return Err(e);
            },
        }
        self.earth_orientation.validate()
    }
}

/// Source identity carried by one normalized fact.
#[derive(Clone, Debug, PartialEq, Eq)]
pub struct SkyProvenance {
    pub model: String,
    pub provider: String,
    pub provider_snapshot: Option<String>,
    pub transform: String,
    pub earth_orientation: String,
}

pub open spec fn provenance_problem(p: SkyProvenance) -> Option<SkyProblem> {
    if blank_problem("provenance.model"@, p.model@) is Some {
        blank_problem("provenance.model"@, p.model@)
    } else if blank_problem("provenance.provider"@, p.provider@) is Some {
        blank_problem("provenance.provider"@, p.provider@)
    } else if p.provider_snapshot is Some && blank_problem(
        "provenance.provider_snapshot"@,
        p.provider_snapshot->0@,
    ) is Some {
        blank_problem("provenance.provider_snapshot"@, p.provider_snapshot->0@)
    } else if blank_problem("provenance.transform"@, p.transform@) is Some {
        blank_problem("provenance.transform"@, p.transform@)
    } else {
        blank_problem("provenance.earth_orientation"@, p.earth_orientation@)
    }
}

impl SkyProvenance {
    pub fn validate(&self) -> (r: Result<(), SkyError>)
        ensures
            match provenance_problem(*self) {
                None => r is Ok,
                Some(p) => r matches Err(e) && reports(e, p),
            },
    {
        match nonempty("provenance.model", self.model.as_str()) {
            Ok(()) => {},
            Err(e) => {
                return Err(e);
            },
        }
        match nonempty("provenance.provider", self.provider.as_str()) {
            Ok(()) => {},
            Err(e) => {
                return Err(e);
            },
        }
        match optional_nonempty("provenance.provider_snapshot", &self.provider_snapshot) {
            Ok(()) => {},
            Err(e) => {
                return Err(e);
            },
        }
        match nonempty("provenance.transform", self.transform.as_str()) {
            Ok(()) => {},
            Err(e) => {
                return Err(e);
            },
        }
        nonempty("provenance.earth_orientation", self.earth_orientation.as_str())
    }
}

#[derive(Clone, Copy, Debug, PartialEq, Eq, Structural)]
pub enum SkyFactKind {
    NewMoon,
    Dawn,
    Dusk,
}

impl SkyFactKind {
    /// The serialized name of the kind.
    pub open spec fn name(self) -> Seq<char> {
        match self {
            SkyFactKind::NewMoon => "new_moon"@,
            SkyFactKind::Dawn => "dawn"@,
            SkyFactKind::Dusk => "dusk"@,
        }
    }

    /// The kind as its `Debug` rendering writes it.
    pub open spec fn debug_name(self) -> Seq<char> {
        match self {
            SkyFactKind::NewMoon => "NewMoon"@,
            SkyFactKind::Dawn => "Dawn"@,
            SkyFactKind::Dusk => "Dusk"@,
        }
    }

    pub fn as_str(self) -> (r: &'static str)
        ensures
            r@ == self.name(),
    {
        match self {
            SkyFactKind::NewMoon => "new_moon",
            SkyFactKind::Dawn => "dawn",
            SkyFactKind::Dusk => "dusk",
        }
    }

    pub fn debug_str(self) -> (r: &'static str)
        ensures
            r@ == self.debug_name(),
    {
        match self {
            SkyFactKind::NewMoon => "NewMoon",
            SkyFactKind::Dawn => "Dawn",
            SkyFactKind::Dusk => "Dusk",
        }
    }
}

/// One authored matching rule.
#[derive(Clone, Debug, PartialEq, Eq)]
pub struct SkyRule {
    pub id: String,
    pub fact_kind: SkyFactKind,
    pub prompt: String,
}

pub type RuleView = (Seq<char>, SkyFactKind, Seq<char>);

pub open spec fn rule_view(r: SkyRule) -> RuleView {
    (r.id@, r.fact_kind, r.prompt@)
}

pub open spec fn rule_views(rs: Seq<SkyRule>) -> Seq<RuleView> {
    rs.map_values(|r: SkyRule| rule_view(r))
}

pub open spec fn rule_problem(r: RuleView) -> Option<SkyProblem> {
    if blank_problem("rule.id"@, r.0) is Some {
        blank_problem("rule.id"@, r.0)
    } else {
        blank_problem("rule.prompt"@, r.2)
    }
}

impl SkyRule {
    pub fn validate(&self) -> (r: Result<(), SkyError>)
        ensures
            match rule_problem(rule_view(*self)) {
                None => r is Ok,
                Some(p) => r matches Err(e) && reports(e, p),
            },
    {
        match nonempty("rule.id", self.id.as_str()) {
            Ok(()) => {},
            Err(e) => {
                return Err(e);
            },
        }
        nonempty("rule.prompt", self.prompt.as_str())
    }
}

/// Independently versioned authored interpretation rules.
#[derive(Clone, Debug, PartialEq, Eq)]
pub struct SkyRulePack {
    pub schema: String,
    pub id: String,
    pub author: String,
    pub version: String,
    pub rules: Vec<SkyRule>,
}

/// Rule identities strictly increase.
pub open spec fn ids_increasing(rs: Seq<RuleView>) -> bool {
    forall|i: int| 0 <= i < rs.len() - 1 ==> lex_lt(#[trigger] rs[i].0, rs[i + 1].0)
}

/// Rule identities never decrease.
pub open spec fn ids_sorted(rs: Seq<RuleView>) -> bool {
    forall|i: int, j: int| 0 <= i < j < rs.len() ==> !lex_lt(#[trigger] rs[j].0, #[trigger] rs[i].0)
}

/// The first problem with the rules themselves, checked in order: a blank
/// rule, a repeated identity, or a second rule for one fact kind.
pub open spec fn rules_problem(rs: Seq<RuleView>) -> Option<SkyProblem>
    decreases rs.len(),
{
    if rs.len() == 0 {
        None
    } else {
        match rules_problem(rs.drop_last()) {
            Some(p) => Some(p),
            None => {
                let r = rs.last();
                let before = rs.drop_last();
                if rule_problem(r) is Some {
                    rule_problem(r)
                } else if exists|i: int| 0 <= i < before.len() && #[trigger] before[i].0 == r.0 {
                    Some(SkyProblem::Duplicate(r.0))
                } else if exists|i: int| 0 <= i < before.len() && #[trigger] before[i].1 == r.1 {
                    Some(SkyProblem::Duplicate("rule kind "@ + r.1.debug_name()))
                } else {
                    None
                }
            },
        }
    }
}

pub open spec fn pack_problem_views(
    schema: Seq<char>,
    id: Seq<char>,
    author: Seq<char>,
    version: Seq<char>,
    rules: Seq<RuleView>,
) -> Option<SkyProblem> {
    if schema != SKY_RULE_PACK_SCHEMA@ {
        Some(SkyProblem::InvalidPackSchema)
    } else if blank_problem("pack.id"@, id) is Some {
        blank_problem("pack.id"@, id)
    } else if blank_problem("pack.author"@, author) is Some {
        blank_problem("pack.author"@, author)
    } else if blank_problem("pack.version"@, version) is Some {
        blank_problem("pack.version"@, version)
    } else if !ids_increasing(rules) {
        Some(SkyProblem::NonCanonicalRules)
    } else {
        rules_problem(rules)
    }
}

pub open spec fn pack_problem(p: SkyRulePack) -> Option<SkyProblem> {
    pack_problem_views(p.schema@, p.id@, p.author@, p.version@, rule_views(p.rules@))
}

pub open spec fn json_rule(r: RuleView) -> Seq<char> {
    "{\"id\":"@ + json_string(r.0) + ",\"fact_kind\":"@ + json_string(r.1.name())
        + ",\"prompt\":"@ + json_string(r.2) + "}"@
}

pub open spec fn json_rule_items(rs: Seq<RuleView>) -> Seq<char>
    decreases rs.len(),
{
    if rs.len() == 0 {
        seq![]
    } else if rs.len() == 1 {
        json_rule(rs[0])
    } else {
        json_rule_items(rs.drop_last()) + seq![','] + json_rule(rs.last())
    }
}

/// The identity text of a rule pack.
pub open spec fn pack_identity(p: SkyRulePack) -> Seq<char> {
    "{\"schema\":"@ + json_string(p.schema@) + ",\"id\":"@ + json_string(p.id@) + ",\"author\":"@
        + json_string(p.author@) + ",\"version\":"@ + json_string(p.version@) + ",\"rules\":["@
        + json_rule_items(rule_views(p.rules@)) + "]}"@
}

fn push_rule(out: &mut String, r: &SkyRule)
    ensures
        final(out)@ == old(out)@ + json_rule(rule_view(*r)),
{
    push_str(out, "{\"id\":");
    push_json_string(out, r.id.as_str());
    push_str(out, ",\"fact_kind\":");
    push_json_string(out, r.fact_kind.as_str());
    push_str(out, ",\"prompt\":");
    push_json_string(out, r.prompt.as_str());
    push_str(out, "}");
    assert(out@ =~= old(out)@ + json_rule(rule_view(*r)));
}

fn clone_rule(r: &SkyRule) -> (c: SkyRule)
    ensures
        rule_view(c) == rule_view(*r),
{
    SkyRule { id: r.id.clone(), fact_kind: r.fact_kind, prompt: r.prompt.clone() }
}

/// Sorts rules by identity, keeping rules with equal identities in their
/// given order.
fn sort_rules_by_id(rules: Vec<SkyRule>) -> (r: Vec<SkyRule>)
    ensures
        ids_sorted(rule_views(r@)),
        rule_views(r@).to_multiset() == rule_views(rules@).to_multiset(),
{
    broadcast use vstd::seq_lib::group_to_multiset_ensures;

    let mut out: Vec<SkyRule> = Vec::new();
    let mut i: usize = 0;
    while i < rules.len()
        invariant
            i <= rules@.len(),
            ids_sorted(rule_views(out@)),
            rule_views(out@).to_multiset() == rule_views(rules@.take(i as int)).to_multiset(),
        decreases rules@.len() - i,
    {
        let x = clone_rule(&rules[i]);
        let ghost xv = rule_view(rules@[i as int]);
        let ghost ov = rule_views(out@);
        let k = first_greater_id(&out, x.id.as_str());
        proof {
            let nv = ov.insert(k as int, xv);
            assert forall|a: int, b: int| 0 <= a < b < nv.len() implies !lex_lt(
                #[trigger] nv[b].0,
                #[trigger] nv[a].0,
            ) by {
                lemma_lex_irreflexive(xv.0);
                if b < k {
                    assert(nv[a] == ov[a] && nv[b] == ov[b]);
                } else if b == k {
                    assert(nv[a] == ov[a]);
                } else if a < k {
                    assert(nv[a] == ov[a] && nv[b] == ov[b - 1]);
                    assert(lex_lt(xv.0, ov[k as int].0));
                    if b - 1 > k {
                        lemma_lex_total(ov[k as int].0, ov[b - 1].0);
                        if lex_lt(ov[b - 1].0, xv.0) {
                            lemma_lex_transitive(ov[b - 1].0, xv.0, ov[k as int].0);
                        }
                    }
                    lemma_lex_total(ov[a].0, xv.0);
                    if lex_lt(ov[b - 1].0, ov[a].0) {
                        lemma_lex_total(ov[b - 1].0, xv.0);
                        if lex_lt(ov[b - 1].0, xv.0) {
                            lemma_lex_transitive(ov[b - 1].0, xv.0, ov[k as int].0);
                            lemma_lex_asymmetric(ov[b - 1].0, ov[k as int].0);
                            if b - 1 > k {
                            }
                        } else if ov[b - 1].0 == xv.0 {
                        } else {
                            lemma_lex_transitive(xv.0, ov[b - 1].0, ov[a].0);
                        }
                    }
                } else if a == k {
                    assert(nv[b] == ov[b - 1]);
                    assert(lex_lt(xv.0, ov[k as int].0));
                    if b - 1 > k {
                        lemma_lex_total(ov[k as int].0, ov[b - 1].0);
                        if lex_lt(ov[b - 1].0, xv.0) {
                            lemma_lex_transitive(ov[b - 1].0, xv.0, ov[k as int].0);
                        }
                    } else {
                        lemma_lex_asymmetric(xv.0, ov[b - 1].0);
                    }
                } else {
                    assert(nv[a] == ov[a - 1] && nv[b] == ov[b - 1]);
                }
            }
            assert(rules@.take(i as int + 1) =~= rules@.take(i as int).push(rules@[i as int]));
            assert(rule_views(rules@.take(i as int + 1)) =~= rule_views(rules@.take(i as int)).push(
                xv,
            ));
        }
        out.insert(k, x);
        assert(rule_views(out@) =~= ov.insert(k as int, xv));
        proof {
            vstd::seq_lib::to_multiset_insert(ov, k as int, xv);
            vstd::seq_lib::to_multiset_build(rule_views(rules@.take(i as int)), xv);
        }
        i += 1;
    }
    assert(rules@.take(rules@.len() as int) =~= rules@);
    out
}

/// The first position whose identity is greater than `id`.
fn first_greater_id(v: &Vec<SkyRule>, id: &str) -> (k: usize)
    requires
        ids_sorted(rule_views(v@)),
    ensures
        k <= v@.len(),
        forall|j: int| 0 <= j < k ==> !lex_lt(id@, #[trigger] rule_views(v@)[j].0),
        k < v@.len() ==> lex_lt(id@, rule_views(v@)[k as int].0),
{
    let mut k: usize = 0;
    while k < v.len()
        invariant
            k <= v@.len(),
            forall|j: int| 0 <= j < k ==> !lex_lt(id@, #[trigger] rule_views(v@)[j].0),
        decreases v@.len() - k,
    {
        match compare_str(id, v[k].id.as_str()) {
            Order::Less => {
                return k;
            },
            _ => {},
        }
        k += 1;
    }
    k
}


/// The rules arranged by identity.
pub open spec fn sorted_rules(rs: Seq<RuleView>) -> Seq<RuleView> {
    choose|s: Seq<RuleView>| ids_sorted(s) && s.to_multiset() == rs.to_multiset()
}

/// An arrangement whose identities strictly increase is the only arrangement
/// of the same rules whose identities never decrease.
pub proof fn lemma_increasing_unique(s: Seq<RuleView>, t: Seq<RuleView>)
    requires
        ids_increasing(s),
        ids_sorted(t),
        s.to_multiset() == t.to_multiset(),
    ensures
        s == t,
    decreases s.len(),
{
    broadcast use vstd::seq_lib::group_to_multiset_ensures;

    vstd::seq_lib::to_multiset_len(s);
    vstd::seq_lib::to_multiset_len(t);
    if s.len() == 0 {
        assert(s =~= t);
    } else {
        lemma_increasing_is_sorted(s);
        let x = s[0];
        let y = t[0];
        vstd::seq_lib::to_multiset_contains(s, x);
        vstd::seq_lib::to_multiset_contains(t, y);
        assert(s.to_multiset().count(x) > 0);
        assert(t.to_multiset().count(y) > 0);
        assert(t.contains(x));
        assert(s.contains(y));
        let j = choose|j: int| 0 <= j < t.len() && t[j] == x;
        let k = choose|k: int| 0 <= k < s.len() && s[k] == y;
        if k > 0 {
            assert(lex_lt(s[0].0, s[k].0));
            if j > 0 {
                assert(!lex_lt(t[j].0, t[0].0));
            }
            lemma_lex_irreflexive(x.0);
            lemma_lex_asymmetric(x.0, y.0);
            lemma_lex_total(x.0, y.0);
            assert(false);
        }
        assert(x == y);
        vstd::seq_lib::to_multiset_remove(s, 0);
        vstd::seq_lib::to_multiset_remove(t, 0);
        assert(s.remove(0) =~= s.drop_first());
        assert(t.remove(0) =~= t.drop_first());
        assert forall|i: int| 0 <= i < s.drop_first().len() - 1 implies lex_lt(
            #[trigger] s.drop_first()[i].0,
            s.drop_first()[i + 1].0,
        ) by {
            assert(s.drop_first()[i] == s[i + 1] && s.drop_first()[i + 1] == s[i + 2]);
        }
        assert forall|i: int, j2: int| 0 <= i < j2 < t.drop_first().len() implies !lex_lt(
            #[trigger] t.drop_first()[j2].0,
            #[trigger] t.drop_first()[i].0,
        ) by {
            assert(t.drop_first()[i] == t[i + 1] && t.drop_first()[j2] == t[j2 + 1]);
        }
        lemma_increasing_unique(s.drop_first(), t.drop_first());
        assert(s =~= seq![x] + s.drop_first());
        assert(t =~= seq![y] + t.drop_first());
    }
}

/// Strictly increasing identities are in particular ordered pairwise.
pub proof fn lemma_increasing_is_sorted(s: Seq<RuleView>)
    requires
        ids_increasing(s),
    ensures
        forall|i: int, j: int| 0 <= i < j < s.len() ==> lex_lt(#[trigger] s[i].0, #[trigger] s[j].0),
        ids_sorted(s),
    decreases s.len(),
{
    if s.len() > 0 {
        let d = s.drop_last();
        assert forall|i: int| 0 <= i < d.len() - 1 implies lex_lt(#[trigger] d[i].0, d[i + 1].0) by {
            assert(d[i] == s[i] && d[i + 1] == s[i + 1]);
        }
        lemma_increasing_is_sorted(d);
        assert forall|i: int, j: int| 0 <= i < j < s.len() implies lex_lt(
            #[trigger] s[i].0,
            #[trigger] s[j].0,
        ) by {
            if j < s.len() - 1 {
                assert(d[i] == s[i] && d[j] == s[j]);
            } else if i < j - 1 {
                assert(d[i] == s[i] && d[j - 1] == s[j - 1]);
                assert(lex_lt(s[j - 1].0, s[j].0));
                lemma_lex_transitive(s[i].0, s[j - 1].0, s[j].0);
            }
        }
        assert forall|i: int, j: int| 0 <= i < j < s.len() implies !lex_lt(
            #[trigger] s[j].0,
            #[trigger] s[i].0,
        ) by {
            assert(lex_lt(s[i].0, s[j].0));
            lemma_lex_asymmetric(s[i].0, s[j].0);
        }
    }
}

/// The problem `validate` reports for a pack built from these parts, with
/// its rules arranged by identity.
pub open spec fn new_pack_problem(
    id: Seq<char>,
    author: Seq<char>,
    version: Seq<char>,
    rules: Seq<RuleView>,
) -> Option<SkyProblem> {
    pack_problem_views(SKY_RULE_PACK_SCHEMA@, id, author, version, sorted_rules(rules))
}

/// The position of the first rule for a kind.
pub open spec fn first_rule_for(rs: Seq<RuleView>, kind: SkyFactKind) -> Option<int> {
    if exists|i: int| 0 <= i < rs.len() && (#[trigger] rs[i]).1 == kind {
        Some(
            choose|i: int|
                0 <= i < rs.len() && (#[trigger] rs[i]).1 == kind && forall|j: int|
                    0 <= j < i ==> (#[trigger] rs[j]).1 != kind,
        )
    } else {
        None
    }
}

/// A rule that comes first for its kind is what `first_rule_for` names.
pub proof fn lemma_first_rule_at(rs: Seq<RuleView>, kind: SkyFactKind, i: int)
    requires
        0 <= i < rs.len(),
        rs[i].1 == kind,
        forall|j: int| 0 <= j < i ==> (#[trigger] rs[j]).1 != kind,
    ensures
        first_rule_for(rs, kind) == Some(i),
{
    let c = choose|k: int|
        0 <= k < rs.len() && (#[trigger] rs[k]).1 == kind && forall|j: int|
            0 <= j < k ==> (#[trigger] rs[j]).1 != kind;
    assert(0 <= i < rs.len() && rs[i].1 == kind && forall|j: int|
        0 <= j < i ==> (#[trigger] rs[j]).1 != kind);
    if c < i {
        assert(rs[c].1 != kind);
    }
    if c > i {
        assert(rs[i].1 != kind);
    }
}

/// A problem found among the first rules stays the first problem of all.
pub proof fn lemma_rules_problem_prefix(rs: Seq<RuleView>, n: int)
    requires
        0 <= n <= rs.len(),
        rules_problem(rs.take(n)) is Some,
    ensures
        rules_problem(rs) == rules_problem(rs.take(n)),
    decreases rs.len(),
{
    if n < rs.len() {
        assert(rs.drop_last().take(n) =~= rs.take(n));
        lemma_rules_problem_prefix(rs.drop_last(), n);
    } else {
        assert(rs.take(n) =~= rs);
    }
}

fn pack_identity_text(p: &SkyRulePack) -> (out: String)
    ensures
        out@ == pack_identity(*p),
{
    let mut out = String::new();
    push_str(&mut out, "{\"schema\":");
    push_json_string(&mut out, p.schema.as_str());
    push_str(&mut out, ",\"id\":");
    push_json_string(&mut out, p.id.as_str());
    push_str(&mut out, ",\"author\":");
    push_json_string(&mut out, p.author.as_str());
    push_str(&mut out, ",\"version\":");
    push_json_string(&mut out, p.version.as_str());
    push_str(&mut out, ",\"rules\":[");
    let ghost start = out@;
    let ghost rv = rule_views(p.rules@);
    let mut i: usize = 0;
    assert(rv.take(0) =~= Seq::<RuleView>::empty());
    while i < p.rules.len()
        invariant
            i <= p.rules@.len(),
            rv == rule_views(p.rules@),
            out@ == start + json_rule_items(rv.take(i as int)),
        decreases p.rules@.len() - i,
    {
        if i > 0 {
            push_char(&mut out, ',');
        }
        push_rule(&mut out, &p.rules[i]);
        proof {
            let t = rv.take(i as int + 1);
            assert(t.drop_last() =~= rv.take(i as int));
            assert(t.last() == rule_view(p.rules@[i as int]));
            if i == 0 {
                assert(json_rule_items(t) == json_rule(t[0]));
            }
        }
        i += 1;
    }
    assert(rv.take(p.rules@.len() as int) =~= rv);
    push_str(&mut out, "]}");
    assert(out@ =~= pack_identity(*p));
    out
}

fn rules_increasing(rules: &Vec<SkyRule>) -> (r: bool)
    ensures
        r == ids_increasing(rule_views(rules@)),
{
    let ghost rv = rule_views(rules@);
    if rules.len() < 2 {
        return true;
    }
    let mut i: usize = 1;
    while i < rules.len()
        invariant
            1 <= i <= rules@.len(),
            rv == rule_views(rules@),
            forall|j: int| 0 <= j < i - 1 ==> lex_lt(#[trigger] rv[j].0, rv[j + 1].0),
        decreases rules@.len() - i,
    {
        match compare_str(rules[i - 1].id.as_str(), rules[i].id.as_str()) {
            Order::Less => {},
            _ => {
                assert(!lex_lt(rv[i - 1].0, rv[i as int].0));
                return false;
            },
        }
        i += 1;
    }
    true
}

fn check_rules(rules: &Vec<SkyRule>) -> (r: Result<(), SkyError>)
    ensures
        match rules_problem(rule_views(rules@)) {
            None => r is Ok,
            Some(p) => r matches Err(e) && reports(e, p),
        },
{
    let ghost rv = rule_views(rules@);
    let mut i: usize = 0;
    assert(rv.take(0) =~= Seq::<RuleView>::empty());
    while i < rules.len()
        invariant
            i <= rules@.len(),
            rv == rule_views(rules@),
            rules_problem(rv.take(i as int)) is None,
        decreases rules@.len() - i,
    {
        let ghost t = rv.take(i as int + 1);
        proof {
            assert(t.drop_last() =~= rv.take(i as int));
            assert(t.last() == rv[i as int]);
        }
        match rules[i].validate() {
            Ok(()) => {},
            Err(e) => {
                proof {
                    lemma_rules_problem_prefix(rv, i as int + 1);
                }
                return Err(e);
            },
        }
        let mut j: usize = 0;
        while j < i
            invariant
                j <= i < rules@.len(),
                rv == rule_views(rules@),
                t == rv.take(i as int + 1),
                rules_problem(rv.take(i as int)) is None,
                rule_problem(rv[i as int]) is None,
                forall|k: int| 0 <= k < j ==> #[trigger] rv[k].0 != rv[i as int].0,
            decreases i - j,
        {
            if str_eq(rules[j].id.as_str(), rules[i].id.as_str()) {
                proof {
                    assert(t.drop_last() =~= rv.take(i as int));
                    assert(t.last() == rv[i as int]);
                    assert(t.drop_last()[j as int] == rv[j as int]);
                    assert(t.drop_last()[j as int].0 == t.last().0);
                    assert(rules_problem(t) == Some(SkyProblem::Duplicate(t.last().0)));
                    lemma_rules_problem_prefix(rv, i as int + 1);
                }
                return Err(SkyError::Duplicate(copy_str(rules[i].id.as_str())));
            }
            j += 1;
        }
        proof {
            assert(!(exists|k: int| 0 <= k < t.drop_last().len() && #[trigger] t.drop_last()[k].0
                == t.last().0)) by {
                assert forall|k: int| 0 <= k < t.drop_last().len() implies #[trigger] t.drop_last()[k].0
                    != t.last().0 by {
                    assert(t.drop_last()[k] == rv[k]);
                }
            }
        }
        let mut j: usize = 0;
        while j < i
            invariant
                j <= i < rules@.len(),
                rv == rule_views(rules@),
                t == rv.take(i as int + 1),
                rules_problem(rv.take(i as int)) is None,
                rule_problem(rv[i as int]) is None,
                !(exists|k: int| 0 <= k < t.drop_last().len() && #[trigger] t.drop_last()[k].0
                    == t.last().0),
                forall|k: int| 0 <= k < j ==> #[trigger] rv[k].1 != rv[i as int].1,
            decreases i - j,
        {
            if rules[j].fact_kind == rules[i].fact_kind {
                proof {
                    assert(t.drop_last() =~= rv.take(i as int));
                    assert(t.last() == rv[i as int]);
                    assert(t.drop_last()[j as int] == rv[j as int]);
                    assert(t.drop_last()[j as int].1 == t.last().1);
                    assert(rules_problem(t) == Some(
                        SkyProblem::Duplicate("rule kind "@ + t.last().1.debug_name()),
                    ));
                    lemma_rules_problem_prefix(rv, i as int + 1);
                }
                let mut d = String::new();
                push_str(&mut d, "rule kind ");
                push_str(&mut d, rules[i].fact_kind.debug_str());
                return Err(SkyError::Duplicate(d));
            }
            j += 1;
        }
        proof {
            assert(!(exists|k: int| 0 <= k < t.drop_last().len() && #[trigger] t.drop_last()[k].1
                == t.last().1)) by {
                assert forall|k: int| 0 <= k < t.drop_last().len() implies #[trigger] t.drop_last()[k].1
                    != t.last().1 by {
                    assert(t.drop_last()[k] == rv[k]);
                }
            }
        }
        i += 1;
    }
    assert(rv.take(rules@.len() as int) =~= rv);
    Ok(())
}

impl SkyRulePack {
    /// A pack over the given rules, arranged by identity, then validated.
    pub fn new(id: &str, author: &str, version: &str, rules: Vec<SkyRule>) -> (r: Result<Self, SkyError>)
        ensures
            match new_pack_problem(id@, author@, version@, rule_views(rules@)) {
                None => r matches Ok(p) && p.schema@ == SKY_RULE_PACK_SCHEMA@ && p.id@ == id@
                    && p.author@ == author@ && p.version@ == version@ && rule_views(p.rules@)
                    == sorted_rules(rule_views(rules@)),
                Some(q) => r matches Err(e) && reports(e, q),
            },
            r matches Ok(p) ==> pack_problem(p) is None,
    {
        let ghost input = rule_views(rules@);
        let rules = sort_rules_by_id(rules);
        let pack = SkyRulePack {
            schema: copy_str(SKY_RULE_PACK_SCHEMA),
            id: copy_str(id),
            author: copy_str(author),
            version: copy_str(version),
            rules,
        };
        proof {
            let rv = rule_views(pack.rules@);
            let sv = sorted_rules(input);
            assert(ids_sorted(sv) && sv.to_multiset() == input.to_multiset());
            if ids_increasing(rv) {
                lemma_increasing_unique(rv, sv);
            }
            if ids_increasing(sv) {
                lemma_increasing_unique(sv, rv);
            }
            assert(ids_increasing(rv) == ids_increasing(sv));
        }
        match pack.validate() {
            Ok(()) => {
                proof {
                    let rv = rule_views(pack.rules@);
                    lemma_increasing_unique(rv, sorted_rules(input));
                }
                Ok(pack)
            },
            Err(e) => Err(e),
        }
    }

    /// Checks the schema, the pack's identity fields, the rules' order, and
    /// each rule.
    pub fn validate(&self) -> (r: Result<(), SkyError>)
        ensures
            match pack_problem(*self) {
                None => r is Ok,
                Some(q) => r matches Err(e) && reports(e, q),
            },
    {
        if !str_eq(self.schema.as_str(), SKY_RULE_PACK_SCHEMA) {
            return Err(SkyError::InvalidPackSchema);
        }
        match nonempty("pack.id", self.id.as_str()) {
            Ok(()) => {},
            Err(e) => {
                return Err(e);
            },
        }
        match nonempty("pack.author", self.author.as_str()) {
            Ok(()) => {},
            Err(e) => {
                return Err(e);
            },
        }
        match nonempty("pack.version", self.version.as_str()) {
            Ok(()) => {},
            Err(e) => {
                return Err(e);
            },
        }
        if !rules_increasing(&self.rules) {
            return Err(SkyError::NonCanonicalRules);
        }
        check_rules(&self.rules)
    }

    /// The digest of the pack's identity text.
    pub fn digest(&self) -> (d: String)
        ensures
            d@ == digest_of(pack_identity(*self)),
    {
        let text = pack_identity_text(self);
        digest_text(&text)
    }

    /// The first rule for a kind of fact.
    pub fn rule_for(&self, kind: SkyFactKind) -> (r: Option<&SkyRule>)
        ensures
            match first_rule_for(rule_views(self.rules@), kind) {
                None => r is None,
                Some(i) => r matches Some(x) && *x == self.rules@[i],
            },
    {
        let ghost rv = rule_views(self.rules@);
        let mut i: usize = 0;
        while i < self.rules.len()
            invariant
                i <= self.rules@.len(),
                rv == rule_views(self.rules@),
                forall|j: int| 0 <= j < i ==> (#[trigger] rv[j]).1 != kind,
            decreases self.rules@.len() - i,
        {
            if self.rules[i].fact_kind == kind {
                proof {
                    lemma_first_rule_at(rv, kind, i as int);
                }
                return Some(&self.rules[i]);
            }
            i += 1;
        }
        None
    }
}

pub open spec fn kind_rank(k: SkyFactKind) -> int {
    match k {
        SkyFactKind::NewMoon => 0,
        SkyFactKind::Dawn => 1,
        SkyFactKind::Dusk => 2,
    }
}

/// A total order on rules: by identity, then kind, then prompt.
pub open spec fn rule_lt(a: RuleView, b: RuleView) -> bool {
    lex_lt(a.0, b.0) || (a.0 == b.0 && (kind_rank(a.1) < kind_rank(b.1) || (a.1 == b.1 && lex_lt(
        a.2,
        b.2,
    ))))
}

pub open spec fn rule_le_fn() -> spec_fn(RuleView, RuleView) -> bool {
    |a: RuleView, b: RuleView| a == b || rule_lt(a, b)
}

proof fn lemma_rule_order(a: RuleView, b: RuleView, c: RuleView)
    ensures
        !rule_lt(a, a),
        rule_lt(a, b) ==> !rule_lt(b, a),
        a == b || rule_lt(a, b) || rule_lt(b, a),
        rule_lt(a, b) && rule_lt(b, c) ==> rule_lt(a, c),
{
    lemma_lex_irreflexive(a.0);
    lemma_lex_irreflexive(a.2);
    lemma_lex_asymmetric(a.0, b.0);
    lemma_lex_asymmetric(a.2, b.2);
    lemma_lex_total(a.0, b.0);
    lemma_lex_total(a.2, b.2);
    if a.0 == b.0 && kind_rank(a.1) == kind_rank(b.1) && a.2 == b.2 {
        assert(a.1 == b.1);
    }
    if rule_lt(a, b) && rule_lt(b, c) {
        if lex_lt(a.0, b.0) && lex_lt(b.0, c.0) {
            lemma_lex_transitive(a.0, b.0, c.0);
        }
        if lex_lt(a.2, b.2) && lex_lt(b.2, c.2) {
            lemma_lex_transitive(a.2, b.2, c.2);
        }
    }
}

proof fn lemma_sorted_rules(rs: Seq<RuleView>)
    ensures
        ids_sorted(sorted_rules(rs)),
        sorted_rules(rs).to_multiset() == rs.to_multiset(),
{
    let f = rule_le_fn();
    assert forall|x: RuleView| #[trigger] f(x, x) by {}
    assert forall|x: RuleView, y: RuleView| #[trigger] f(x, y) && #[trigger] f(y, x) implies x == y by {
        lemma_rule_order(x, y, x);
    }
    assert forall|x: RuleView, y: RuleView, z: RuleView| #[trigger] f(x, y) && #[trigger] f(y, z) implies f(
        x,
        z,
    ) by {
        lemma_rule_order(x, y, z);
    }
    assert forall|x: RuleView, y: RuleView| #[trigger] f(x, y) || #[trigger] f(y, x) by {
        lemma_rule_order(x, y, x);
    }
    rs.lemma_sort_by_ensures(f);
    let w = rs.sort_by(f);
    assert forall|i: int, j: int| 0 <= i < j < w.len() implies !lex_lt(#[trigger] w[j].0, #[trigger] w[i].0) by {
        assert(f(w[i], w[j]));
        lemma_lex_irreflexive(w[i].0);
        lemma_lex_asymmetric(w[i].0, w[j].0);
    }
    assert(ids_sorted(w) && w.to_multiset() == rs.to_multiset());
}

/// A rearrangement of rules whose keys are pairwise distinct has pairwise
/// distinct keys too.
proof fn lemma_distinct_keys_transfer<K>(a: Seq<RuleView>, b: Seq<RuleView>, key: spec_fn(RuleView) -> K)
    requires
        a.to_multiset() == b.to_multiset(),
        forall|i: int, j: int| 0 <= i < j < b.len() ==> key(#[trigger] b[i]) != key(#[trigger] b[j]),
    ensures
        forall|i: int, j: int| 0 <= i < j < a.len() ==> key(#[trigger] a[i]) != key(#[trigger] a[j]),
    decreases a.len(),
{
    broadcast use vstd::seq_lib::group_to_multiset_ensures;

    if a.len() > 0 {
        let x = a[0];
        assert(a.to_multiset().count(x) > 0);
        assert(b.contains(x));
        let m = choose|m: int| 0 <= m < b.len() && b[m] == x;
        let a2 = a.drop_first();
        let b2 = b.remove(m);
        vstd::seq_lib::to_multiset_remove(a, 0);
        vstd::seq_lib::to_multiset_remove(b, m);
        assert(a.remove(0) =~= a2);
        assert forall|i: int, j: int| 0 <= i < j < b2.len() implies key(#[trigger] b2[i]) != key(
            #[trigger] b2[j],
        ) by {
            let bi = if i < m { i } else { i + 1 };
            let bj = if j < m { j } else { j + 1 };
            assert(b2[i] == b[bi] && b2[j] == b[bj]);
        }
        lemma_distinct_keys_transfer(a2, b2, key);
        assert forall|i: int, j: int| 0 <= i < j < a.len() implies key(#[trigger] a[i]) != key(
            #[trigger] a[j],
        ) by {
            if i > 0 {
                assert(a[i] == a2[i - 1] && a[j] == a2[j - 1]);
            } else {
                let y = a[j];
                assert(a2[j - 1] == y);
                assert(a2.to_multiset().count(y) > 0);
                assert(b2.contains(y));
                let t = choose|t: int| 0 <= t < b2.len() && b2[t] == y;
                let bt = if t < m { t } else { t + 1 };
                assert(b[bt] == y);
                if bt < m {
                    assert(key(b[bt]) != key(b[m]));
                } else {
                    assert(key(b[m]) != key(b[bt]));
                }
            }
        }
    }
}

proof fn lemma_rules_fine(s: Seq<RuleView>)
    requires
        forall|i: int| 0 <= i < s.len() ==> rule_problem(#[trigger] s[i]) is None,
        forall|i: int, j: int| 0 <= i < j < s.len() ==> (#[trigger] s[i]).0 != (#[trigger] s[j]).0,
        forall|i: int, j: int| 0 <= i < j < s.len() ==> (#[trigger] s[i]).1 != (#[trigger] s[j]).1,
    ensures
        rules_problem(s) is None,
    decreases s.len(),
{
    if s.len() > 0 {
        let d = s.drop_last();
        assert forall|i: int| 0 <= i < d.len() implies rule_problem(#[trigger] d[i]) is None by {
            assert(d[i] == s[i]);
        }
        assert forall|i: int, j: int| 0 <= i < j < d.len() implies (#[trigger] d[i]).0 != (
        #[trigger] d[j]).0 && d[i].1 != d[j].1 by {
            assert(d[i] == s[i] && d[j] == s[j]);
        }
        lemma_rules_fine(d);
        let r = s.last();
        assert(rule_problem(s[s.len() - 1]) is None);
        assert forall|i: int| 0 <= i < d.len() implies #[trigger] d[i].0 != r.0 && d[i].1 != r.1 by {
            assert(d[i] == s[i]);
            assert(s[i].0 != s[s.len() - 1].0);
        }
    }
}

/// A pack made from rules with distinct identities and distinct kinds of
/// fact, none of them blank, under a pack identity, author and version that
/// are not blank, is made: its rules are exactly those given, in strictly
/// increasing identity order, and `rule_for` names, for each kind of fact,
/// the given rule of that kind, or none when no rule has that kind.
pub proof fn law_rule_pack_from_distinct_rules(
    id: Seq<char>,
    author: Seq<char>,
    version: Seq<char>,
    rs: Seq<RuleView>,
)
    requires
        trim(id).len() > 0,
        trim(author).len() > 0,
        trim(version).len() > 0,
        forall|i: int| 0 <= i < rs.len() ==> rule_problem(#[trigger] rs[i]) is None,
        forall|i: int, j: int| 0 <= i < j < rs.len() ==> (#[trigger] rs[i]).0 != (#[trigger] rs[j]).0,
        forall|i: int, j: int| 0 <= i < j < rs.len() ==> (#[trigger] rs[i]).1 != (#[trigger] rs[j]).1,
    ensures
        new_pack_problem(id, author, version, rs) is None,
        ids_increasing(sorted_rules(rs)),
        sorted_rules(rs).to_multiset() == rs.to_multiset(),
        forall|k: SkyFactKind|
            match #[trigger] first_rule_for(sorted_rules(rs), k) {
                Some(i) => 0 <= i < sorted_rules(rs).len() && sorted_rules(rs)[i].1 == k && rs.contains(
                    sorted_rules(rs)[i],
                ) && forall|j: int| 0 <= j < rs.len() && (#[trigger] rs[j]).1 == k ==> rs[j] == sorted_rules(rs)[i],
                None => forall|j: int| 0 <= j < rs.len() ==> (#[trigger] rs[j]).1 != k,
            },
{
    broadcast use vstd::seq_lib::group_to_multiset_ensures;

    lemma_sorted_rules(rs);
    let s = sorted_rules(rs);
    let by_id = |r: RuleView| r.0;
    let by_kind = |r: RuleView| r.1;
    assert forall|i: int, j: int| 0 <= i < j < rs.len() implies by_id(#[trigger] rs[i]) != by_id(
        #[trigger] rs[j],
    ) by {}
    assert forall|i: int, j: int| 0 <= i < j < rs.len() implies by_kind(#[trigger] rs[i]) != by_kind(
        #[trigger] rs[j],
    ) by {}
    lemma_distinct_keys_transfer(s, rs, by_id);
    lemma_distinct_keys_transfer(s, rs, by_kind);
    assert forall|i: int| 0 <= i < s.len() implies rs.contains(#[trigger] s[i]) by {
        assert(s.to_multiset().count(s[i]) > 0);
    }
    assert forall|i: int| 0 <= i < s.len() implies rule_problem(#[trigger] s[i]) is None by {
        assert(rs.contains(s[i]));
    }
    assert forall|i: int, j: int| 0 <= i < j < s.len() implies (#[trigger] s[i]).0 != (#[trigger] s[j]).0
        && s[i].1 != s[j].1 by {
        assert(by_id(s[i]) != by_id(s[j]));
        assert(by_kind(s[i]) != by_kind(s[j]));
    }
    lemma_rules_fine(s);
    assert forall|i: int| 0 <= i < s.len() - 1 implies lex_lt(#[trigger] s[i].0, s[i + 1].0) by {
        assert(!lex_lt(s[i + 1].0, s[i].0));
        assert(s[i].0 != s[i + 1].0);
        lemma_lex_total(s[i].0, s[i + 1].0);
    }
    assert forall|k: SkyFactKind|
        match #[trigger] first_rule_for(s, k) {
            Some(i) => 0 <= i < s.len() && s[i].1 == k && rs.contains(s[i]) && forall|j: int|
                0 <= j < rs.len() && (#[trigger] rs[j]).1 == k ==> rs[j] == s[i],
            None => forall|j: int| 0 <= j < rs.len() ==> (#[trigger] rs[j]).1 != k,
        } by {
        if exists|j: int| 0 <= j < rs.len() && (#[trigger] rs[j]).1 == k {
            let j = choose|j: int| 0 <= j < rs.len() && (#[trigger] rs[j]).1 == k;
            assert(rs.to_multiset().count(rs[j]) > 0);
            assert(s.contains(rs[j]));
            let i = choose|i: int| 0 <= i < s.len() && s[i] == rs[j];
            assert forall|q: int| 0 <= q < i implies (#[trigger] s[q]).1 != k by {
                assert(s[q].1 != s[i].1);
            }
            lemma_first_rule_at(s, k, i);
            assert forall|q: int| 0 <= q < rs.len() && (#[trigger] rs[q]).1 == k implies rs[q] == s[i] by {
                if q < j {
                    assert(rs[q].1 != rs[j].1);
                } else if q > j {
                    assert(rs[j].1 != rs[q].1);
                }
            }
        } else {
            assert forall|i: int| 0 <= i < s.len() implies (#[trigger] s[i]).1 != k by {
                assert(rs.contains(s[i]));
            }
        }
    }
}

/// A day's fact read under a rule pack: the fact, by its kind and its place
/// among the day's facts, the pack that read it, and the rule that matched.
#[derive(Clone, Debug, PartialEq, Eq)]
pub struct SkyInterpretation {
    pub schema: String,
    pub sky_facts_digest: String,
    pub fact_kind: SkyFactKind,
    /// The fact's index among the day's facts, where its interval stands.
    pub fact_index: usize,
    pub pack_id: String,
    pub pack_author: String,
    pub pack_version: String,
    pub pack_digest: String,
    pub rule_id: String,
    pub prompt: String,
}

/// Each fact that a rule of the pack matches, with the index of that rule,
/// in the order of the facts.
pub open spec fn matched_facts(rs: Seq<RuleView>, kinds: Seq<SkyFactKind>) -> Seq<(int, int)>
    decreases kinds.len(),
{
    if kinds.len() == 0 {
        seq![]
    } else {
        let before = matched_facts(rs, kinds.drop_last());
        match first_rule_for(rs, kinds.last()) {
            Some(r) => before.push((kinds.len() - 1, r)),
            None => before,
        }
    }
}

/// Whether `it` reads fact `m.0` of `kinds` by rule `m.1` of `pack`, for the
/// day's facts with digest `digest`.
pub open spec fn interprets(
    it: SkyInterpretation,
    m: (int, int),
    kinds: Seq<SkyFactKind>,
    digest: Seq<char>,
    pack: SkyRulePack,
) -> bool {
    &&& it.schema@ == SKY_INTERPRETATION_SCHEMA@
    &&& it.sky_facts_digest@ == digest
    &&& it.fact_index == m.0
    &&& it.fact_kind == kinds[m.0]
    &&& it.pack_id@ == pack.id@
    &&& it.pack_author@ == pack.author@
    &&& it.pack_version@ == pack.version@
    &&& it.pack_digest@ == digest_of(pack_identity(pack))
    &&& it.rule_id@ == pack.rules@[m.1].id@
    &&& it.prompt@ == pack.rules@[m.1].prompt@
}

/// Reads a day's facts, given by their kinds in order, under a rule pack:
/// each fact for whose kind the pack has a rule gets one interpretation, in
/// the order of the facts, naming the first rule for that kind. A pack that
/// does not validate is refused.
pub fn interpret_sky_day(
    fact_kinds: &[SkyFactKind],
    sky_facts_digest: &str,
    pack: &SkyRulePack,
) -> (r: Result<Vec<SkyInterpretation>, SkyError>)
    ensures
        match pack_problem(*pack) {
            Some(q) => r matches Err(e) && reports(e, q),
            None => r matches Ok(v) && v@.len() == matched_facts(rule_views(pack.rules@), fact_kinds@).len()
                && forall|i: int|
                0 <= i < v@.len() ==> interprets(
                    #[trigger] v@[i],
                    matched_facts(rule_views(pack.rules@), fact_kinds@)[i],
                    fact_kinds@,
                    sky_facts_digest@,
                    *pack,
                ),
        },
{
    match pack.validate() {
        Ok(()) => {},
        Err(e) => {
            return Err(e);
        },
    }
    let pack_digest = pack.digest();
    let ghost rv = rule_views(pack.rules@);
    let ghost ks = fact_kinds@;
    let mut out: Vec<SkyInterpretation> = Vec::new();
    let mut i: usize = 0;
    while i < fact_kinds.len()
        invariant
            i <= ks.len(),
            ks == fact_kinds@,
            rv == rule_views(pack.rules@),
            pack_digest@ == digest_of(pack_identity(*pack)),
            out@.len() == matched_facts(rv, ks.take(i as int)).len(),
            forall|j: int|
                0 <= j < out@.len() ==> interprets(
                    #[trigger] out@[j],
                    matched_facts(rv, ks.take(i as int))[j],
                    ks,
                    sky_facts_digest@,
                    *pack,
                ),
        decreases ks.len() - i,
    {
        let ghost before = ks.take(i as int);
        let ghost after = ks.take(i as int + 1);
        assert(after.drop_last() =~= before);
        assert(after.last() == ks[i as int]);
        let kind = fact_kinds[i];
        match pack.rule_for(kind) {
            Some(rule) => {
                let ghost ri = first_rule_for(rv, kind)->0;
                let it = SkyInterpretation {
                    schema: copy_str(SKY_INTERPRETATION_SCHEMA),
                    sky_facts_digest: copy_str(sky_facts_digest),
                    fact_kind: kind,
                    fact_index: i,
                    pack_id: copy_str(pack.id.as_str()),
                    pack_author: copy_str(pack.author.as_str()),
                    pack_version: copy_str(pack.version.as_str()),
                    pack_digest: copy_str(pack_digest.as_str()),
                    rule_id: copy_str(rule.id.as_str()),
                    prompt: copy_str(rule.prompt.as_str()),
                };
                out.push(it);
                assert(matched_facts(rv, after) == matched_facts(rv, before).push((i as int, ri)));
                assert forall|j: int|
                    0 <= j < out@.len() implies interprets(
                    #[trigger] out@[j],
                    matched_facts(rv, after)[j],
                    ks,
                    sky_facts_digest@,
                    *pack,
                ) by {
                    if j < out@.len() - 1 {
                        assert(matched_facts(rv, after)[j] == matched_facts(rv, before)[j]);
                    }
                }
            },
            None => {
                assert(matched_facts(rv, after) == matched_facts(rv, before));
            },
        }
        i += 1;
    }
    assert(ks.take(ks.len() as int) =~= ks);
    Ok(out)
}

/// Reading a day's facts under a pack interprets exactly the facts whose
/// kind has a rule, each once and in the order of the facts, each by the
/// first rule for its kind.
pub proof fn law_sky_day_reads_each_ruled_fact(rs: Seq<RuleView>, kinds: Seq<SkyFactKind>)
    ensures
        forall|m: int|
            0 <= m < matched_facts(rs, kinds).len() ==> 0 <= (#[trigger] matched_facts(rs, kinds)[m]).0
                < kinds.len() && first_rule_for(rs, kinds[matched_facts(rs, kinds)[m].0]) == Some(
                matched_facts(rs, kinds)[m].1,
            ),
        forall|a: int, b: int|
            0 <= a < b < matched_facts(rs, kinds).len() ==> (#[trigger] matched_facts(rs, kinds)[a]).0
                < (#[trigger] matched_facts(rs, kinds)[b]).0,
        forall|i: int|
            0 <= i < kinds.len() ==> (first_rule_for(rs, #[trigger] kinds[i]) is Some <==> exists|m: int|
                0 <= m < matched_facts(rs, kinds).len() && (#[trigger] matched_facts(rs, kinds)[m]).0 == i),
    decreases kinds.len(),
{
    if kinds.len() > 0 {
        let d = kinds.drop_last();
        let n = kinds.len() - 1;
        law_sky_day_reads_each_ruled_fact(rs, d);
        let md = matched_facts(rs, d);
        let mk = matched_facts(rs, kinds);
        assert(kinds.last() == kinds[n]);
        assert forall|m: int| 0 <= m < md.len() implies mk[m] == md[m] by {}
        assert forall|m: int| 0 <= m < mk.len() implies 0 <= (#[trigger] mk[m]).0 < kinds.len()
            && first_rule_for(rs, kinds[mk[m].0]) == Some(mk[m].1) by {
            if m < md.len() {
                assert(d[md[m].0] == kinds[md[m].0]);
            }
        }
        assert forall|a: int, b: int| 0 <= a < b < mk.len() implies (#[trigger] mk[a]).0 < (#[trigger] mk[b]).0 by {
            if b < md.len() {
                assert(mk[a] == md[a] && mk[b] == md[b]);
            } else {
                assert(mk[a] == md[a]);
            }
        }
        assert forall|i: int| 0 <= i < kinds.len() implies (first_rule_for(rs, #[trigger] kinds[i]) is Some
            <==> exists|m: int| 0 <= m < mk.len() && (#[trigger] mk[m]).0 == i) by {
            if i < n {
                assert(d[i] == kinds[i]);
                if first_rule_for(rs, kinds[i]) is Some {
                    let m = choose|m: int| 0 <= m < md.len() && (#[trigger] md[m]).0 == i;
                    assert(mk[m] == md[m]);
                }
                if exists|m: int| 0 <= m < mk.len() && (#[trigger] mk[m]).0 == i {
                    let m = choose|m: int| 0 <= m < mk.len() && (#[trigger] mk[m]).0 == i;
                    if m < md.len() {
                        assert(mk[m] == md[m]);
                    }
                }
            } else {
                if first_rule_for(rs, kinds[i]) is Some {
                    assert(mk[md.len() as int].0 == i);
                }
                if exists|m: int| 0 <= m < mk.len() && (#[trigger] mk[m]).0 == i {
                    let m = choose|m: int| 0 <= m < mk.len() && (#[trigger] mk[m]).0 == i;
                    if m < md.len() {
                        assert(mk[m] == md[m]);
                    }
                }
            }
        }
    }
}

} // verus!
