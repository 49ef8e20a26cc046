//! What a personal-sync export or import may carry: the selected domain
//! records of a graph, each checked to be the node its identity names, and
//! each with every record it depends on selected beside it.
//!
//! A record is what the graph holds at one node, reduced to the plain values
//! these checks read: the node's stable id and address, the domain facets it
//! carries, the address its decoded value names, its own key (id or digest),
//! and the keys of what it depends on.

use vstd::prelude::*;

use crate::sync::{
    CleromancySyncImport, CleromancySyncSelection, ASTROLOGY_CHART_FACET, ASTROLOGY_FACTS_FACET,
    CONCURRENCE_FACET, CONTEXT_FACET, FIELD_FACET, READING_FACET, REFLECTION_FACET, SESSION_FACET,
    SPREAD_FACET, SPREAD_TEMPLATE_FACET, THREE_CARD_SPREAD_FACET,
};
use crate::text::{chars_of, copy_str, push_str, str_eq};

verus! {

/// The eleven kinds of Cleromancy domain record, one per facet.
#[derive(Clone, Copy, Debug, PartialEq, Eq, Structural)]
pub enum SyncKind {
    Context,
    Field,
    Reading,
    Session,
    ThreeCardSpread,
    SpreadTemplate,
    Spread,
    AstrologyChart,
    AstrologyFacts,
    Concurrence,
    Reflection,
}

impl SyncKind {
    /// The facet that holds records of this kind.
    pub open spec fn facet(self) -> Seq<char> {
        match self {
            SyncKind::Context => CONTEXT_FACET@,
            SyncKind::Field => FIELD_FACET@,
            SyncKind::Reading => READING_FACET@,
            SyncKind::Session => SESSION_FACET@,
            SyncKind::ThreeCardSpread => THREE_CARD_SPREAD_FACET@,
            SyncKind::SpreadTemplate => SPREAD_TEMPLATE_FACET@,
            SyncKind::Spread => SPREAD_FACET@,
            SyncKind::AstrologyChart => ASTROLOGY_CHART_FACET@,
            SyncKind::AstrologyFacts => ASTROLOGY_FACTS_FACET@,
            SyncKind::Concurrence => CONCURRENCE_FACET@,
            SyncKind::Reflection => REFLECTION_FACET@,
        }
    }

    pub fn facet_name(self) -> (r: &'static str)
        ensures
            r@ == self.facet(),
    {
        match self {
            SyncKind::Context => CONTEXT_FACET,
            SyncKind::Field => FIELD_FACET,
            SyncKind::Reading => READING_FACET,
            SyncKind::Session => SESSION_FACET,
            SyncKind::ThreeCardSpread => THREE_CARD_SPREAD_FACET,
            SyncKind::SpreadTemplate => SPREAD_TEMPLATE_FACET,
            SyncKind::Spread => SPREAD_FACET,
            SyncKind::AstrologyChart => ASTROLOGY_CHART_FACET,
            SyncKind::AstrologyFacts => ASTROLOGY_FACTS_FACET,
            SyncKind::Concurrence => CONCURRENCE_FACET,
            SyncKind::Reflection => REFLECTION_FACET,
        }
    }

    /// Contexts travel under any selection but `off`, reflections only with
    /// the full history, and every other kind with the readings.
    pub open spec fn selected_by(self, s: CleromancySyncSelection) -> bool {
        match self {
            SyncKind::Context => s != CleromancySyncSelection::Off,
            SyncKind::Reflection => s == CleromancySyncSelection::ContextsReadingsAndReflections,
            _ => s == CleromancySyncSelection::ContextsAndReadings || s
                == CleromancySyncSelection::ContextsReadingsAndReflections,
        }
    }

    pub fn is_selected_by(self, s: CleromancySyncSelection) -> (b: bool)
        ensures
            b == self.selected_by(s),
    {
        match self {
            SyncKind::Context => s.includes_contexts(),
            SyncKind::Reflection => s.includes_reflections(),
            _ => s.includes_readings(),
        }
    }

    pub open spec fn index(self) -> int {
        match self {
            SyncKind::Context => 0,
            SyncKind::Field => 1,
            SyncKind::Reading => 2,
            SyncKind::Session => 3,
            SyncKind::ThreeCardSpread => 4,
            SyncKind::SpreadTemplate => 5,
            SyncKind::Spread => 6,
            SyncKind::AstrologyChart => 7,
            SyncKind::AstrologyFacts => 8,
            SyncKind::Concurrence => 9,
            SyncKind::Reflection => 10,
        }
    }

    fn index_of(self) -> (r: usize)
        ensures
            r == self.index(),
    {
        match self {
            SyncKind::Context => 0,
            SyncKind::Field => 1,
            SyncKind::Reading => 2,
            SyncKind::Session => 3,
            SyncKind::ThreeCardSpread => 4,
            SyncKind::SpreadTemplate => 5,
            SyncKind::Spread => 6,
            SyncKind::AstrologyChart => 7,
            SyncKind::AstrologyFacts => 8,
            SyncKind::Concurrence => 9,
            SyncKind::Reflection => 10,
        }
    }
}

/// What one record depends on.
#[derive(Clone, Debug, PartialEq, Eq)]
pub enum SyncNeed {
    /// The record of this kind with this key (a digest or an id).
    Record(SyncKind, String),
    /// The record at this graph address, whatever its kind.
    Address(String),
    /// Astrology facts computed from the chart with this digest.
    FactsFor(String),
}

/// A need as plain values: its form, the kind it names and its key.
pub open spec fn need_view(n: SyncNeed) -> (int, SyncKind, Seq<char>) {
    match n {
        SyncNeed::Record(k, key) => (0, k, key@),
        SyncNeed::Address(a) => (1, SyncKind::Context, a@),
        SyncNeed::FactsFor(c) => (2, SyncKind::Context, c@),
    }
}

/// One node of the graph, as the sync checks read it.
#[derive(Clone, Debug, PartialEq, Eq)]
pub struct SyncRecord {
    /// The node's stable id.
    pub node: u128,
    /// The node's address.
    pub address: String,
    /// The address the decoded record names as its own.
    pub identity: String,
    /// Whether the stable id is the one derived from that address.
    pub namespaced: bool,
    /// The domain facets the node carries.
    pub kinds: Vec<SyncKind>,
    /// The record's own key: its id, or its digest for content-addressed kinds.
    pub key: String,
    /// What the record depends on, in the order the record names it.
    pub needs: Vec<SyncNeed>,
    /// Why the record does not hold against the records it depends on, as
    /// the caller found by checking it: a reading whose receipt does not
    /// replay, astrology facts that do not verify against their chart, a
    /// spread or session placement that does not match its session.
    pub refusal: Option<String>,
}

/// Why a node cannot be synced as it stands.
#[derive(Clone, Copy, Debug, PartialEq, Eq, Structural)]
pub enum SyncNodeProblem {
    /// The node carries more than one Cleromancy domain facet.
    MoreThanOneFacet,
    /// The node's address is not the one its record names.
    AddressMismatch,
    /// The node's stable id is not the one derived from its address.
    ForeignId,
}

#[derive(Clone, Debug, PartialEq, Eq)]
pub enum CleromancySyncError {
    InvalidNode { node: u128, problem: SyncNodeProblem },
    MissingContext { reading: String, context_digest: String },
    MissingField { reading: String, field_digest: String },
    MissingSessionContext { session: String, context_digest: String },
    MissingSessionField { session: String, field_digest: String },
    MissingSessionReading { session: String, reading: String },
    MissingSpreadSession { spread: String, session: String },
    MissingSpreadReading { spread: String, reading: String },
    MissingSpreadTemplate { spread: String, template: String },
    MissingReflectionSession { reflection: String, session: String },
    MissingAstrologyChart { facts: String, chart_digest: String },
    MissingAstrologyFacts { chart_digest: String },
    MissingConcurrenceMember { concurrence: String, address: String },
    /// A dependency of a pairing that no other variant names.
    MissingDependency { record: String, dependency: String },
    PendingHistory(usize),
    Conflict(String),
    /// A taken record does not hold against what it depends on.
    Refused { node: u128, record: String, reason: String },
}

/// An error as plain values: a variant number and the texts it carries.
pub open spec fn error_view(e: CleromancySyncError) -> (int, Seq<char>, Seq<char>) {
    match e {
        CleromancySyncError::InvalidNode { .. } => (0, seq![], seq![]),
        CleromancySyncError::MissingContext { reading, context_digest } => (
            1,
            reading@,
            context_digest@,
        ),
        CleromancySyncError::MissingField { reading, field_digest } => (2, reading@, field_digest@),
        CleromancySyncError::MissingSessionContext { session, context_digest } => (
            3,
            session@,
            context_digest@,
        ),
        CleromancySyncError::MissingSessionField { session, field_digest } => (
            4,
            session@,
            field_digest@,
        ),
        CleromancySyncError::MissingSessionReading { session, reading } => (5, session@, reading@),
        CleromancySyncError::MissingSpreadSession { spread, session } => (6, spread@, session@),
        CleromancySyncError::MissingSpreadReading { spread, reading } => (7, spread@, reading@),
        CleromancySyncError::MissingSpreadTemplate { spread, template } => (8, spread@, template@),
        CleromancySyncError::MissingReflectionSession { reflection, session } => (
            9,
            reflection@,
            session@,
        ),
        CleromancySyncError::MissingAstrologyChart { facts, chart_digest } => (
            10,
            facts@,
            chart_digest@,
        ),
        CleromancySyncError::MissingAstrologyFacts { chart_digest } => (11, chart_digest@, seq![]),
        CleromancySyncError::MissingConcurrenceMember { concurrence, address } => (
            12,
            concurrence@,
            address@,
        ),
        CleromancySyncError::MissingDependency { record, dependency } => (13, record@, dependency@),
        CleromancySyncError::PendingHistory(_) => (14, seq![], seq![]),
        CleromancySyncError::Conflict(t) => (15, t@, seq![]),
        CleromancySyncError::Refused { record, reason, .. } => (16, record@, reason@),
    }
}

/// The error that names a record of kind `kind` and key `key` whose need `n`
/// has no selected record.
pub open spec fn missing_view(kind: SyncKind, key: Seq<char>, n: (int, SyncKind, Seq<char>)) -> (
    int,
    Seq<char>,
    Seq<char>,
) {
    if n.0 == 2 {
        (11, n.2, seq![])
    } else if n.0 == 1 {
        (12, key, n.2)
    } else {
        match (kind, n.1) {
            (SyncKind::Reading, SyncKind::Context) => (1, key, n.2),
            (SyncKind::Reading, SyncKind::Field) => (2, key, n.2),
            (SyncKind::Session, SyncKind::Context) => (3, key, n.2),
            (SyncKind::Session, SyncKind::Field) => (4, key, n.2),
            (SyncKind::Session, SyncKind::Reading) => (5, key, n.2),
            (SyncKind::ThreeCardSpread, SyncKind::Session) => (6, key, n.2),
            (SyncKind::Spread, SyncKind::Session) => (6, key, n.2),
            (SyncKind::ThreeCardSpread, SyncKind::Reading) => (7, key, n.2),
            (SyncKind::Spread, SyncKind::Reading) => (7, key, n.2),
            (SyncKind::Spread, SyncKind::SpreadTemplate) => (8, key, n.2),
            (SyncKind::Reflection, SyncKind::Session) => (9, key, n.2),
            (SyncKind::AstrologyFacts, SyncKind::AstrologyChart) => (10, key, n.2),
            _ => (13, key, n.2),
        }
    }
}

fn missing_error(kind: SyncKind, key: &str, need: &SyncNeed) -> (e: CleromancySyncError)
    ensures
        error_view(e) == missing_view(kind, key@, need_view(*need)),
{
    let k = copy_str(key);
    match need {
        SyncNeed::FactsFor(c) => CleromancySyncError::MissingAstrologyFacts {
            chart_digest: copy_str(c.as_str()),
        },
        SyncNeed::Address(a) => CleromancySyncError::MissingConcurrenceMember {
            concurrence: k,
            address: copy_str(a.as_str()),
        },
        SyncNeed::Record(nk, d) => {
            let d = copy_str(d.as_str());
            match (kind, *nk) {
                (SyncKind::Reading, SyncKind::Context) => CleromancySyncError::MissingContext {
                    reading: k,
                    context_digest: d,
                },
                (SyncKind::Reading, SyncKind::Field) => CleromancySyncError::MissingField {
                    reading: k,
                    field_digest: d,
                },
                (SyncKind::Session, SyncKind::Context) => CleromancySyncError::MissingSessionContext {
                    session: k,
                    context_digest: d,
                },
                (SyncKind::Session, SyncKind::Field) => CleromancySyncError::MissingSessionField {
                    session: k,
                    field_digest: d,
                },
                (SyncKind::Session, SyncKind::Reading) => CleromancySyncError::MissingSessionReading {
                    session: k,
                    reading: d,
                },
                (SyncKind::ThreeCardSpread, SyncKind::Session) | (
                    SyncKind::Spread,
                    SyncKind::Session,
                ) => CleromancySyncError::MissingSpreadSession { spread: k, session: d },
                (SyncKind::ThreeCardSpread, SyncKind::Reading) | (
                    SyncKind::Spread,
                    SyncKind::Reading,
                ) => CleromancySyncError::MissingSpreadReading { spread: k, reading: d },
                (SyncKind::Spread, SyncKind::SpreadTemplate) => CleromancySyncError::MissingSpreadTemplate {
                    spread: k,
                    template: d,
                },
                (SyncKind::Reflection, SyncKind::Session) => CleromancySyncError::MissingReflectionSession {
                    reflection: k,
                    session: d,
                },
                (SyncKind::AstrologyFacts, SyncKind::AstrologyChart) => CleromancySyncError::MissingAstrologyChart {
                    facts: k,
                    chart_digest: d,
                },
                _ => CleromancySyncError::MissingDependency { record: k, dependency: d },
            }
        },
    }
}

/// Whether the selection takes this record: it carries exactly one domain
/// facet, of a selected kind.
pub open spec fn kept(s: CleromancySyncSelection, r: SyncRecord) -> bool {
    r.kinds@.len() == 1 && r.kinds@[0].selected_by(s)
}

/// What is wrong with one node under the selection, if anything: a node
/// with more than one domain facet is refused whatever is selected; a taken
/// node must sit at the address its record names, under the id derived
/// from that address.
pub open spec fn node_problem(s: CleromancySyncSelection, r: SyncRecord) -> Option<SyncNodeProblem> {
    if r.kinds@.len() > 1 {
        Some(SyncNodeProblem::MoreThanOneFacet)
    } else if kept(s, r) && r.address@ != r.identity@ {
        Some(SyncNodeProblem::AddressMismatch)
    } else if kept(s, r) && !r.namespaced {
        Some(SyncNodeProblem::ForeignId)
    } else {
        None
    }
}

/// The first node problem at index `i` or later, with the node it is of.
pub open spec fn first_node_problem(s: CleromancySyncSelection, rs: Seq<SyncRecord>, i: int) -> Option<
    (u128, SyncNodeProblem),
>
    decreases rs.len() - i,
{
    if i < 0 || i >= rs.len() {
        None
    } else {
        match node_problem(s, rs[i]) {
            Some(p) => Some((rs[i].node, p)),
            None => first_node_problem(s, rs, i + 1),
        }
    }
}

/// The indices of the records the selection takes, in input order.
pub open spec fn planned(s: CleromancySyncSelection, rs: Seq<SyncRecord>) -> Seq<int>
    decreases rs.len(),
{
    if rs.len() == 0 {
        seq![]
    } else {
        let p = planned(s, rs.drop_last());
        if kept(s, rs.last()) {
            p.push(rs.len() - 1)
        } else {
            p
        }
    }
}

/// How many taken records are of kind `k`.
pub open spec fn count_kind(s: CleromancySyncSelection, rs: Seq<SyncRecord>, k: SyncKind) -> nat
    decreases rs.len(),
{
    if rs.len() == 0 {
        0
    } else {
        count_kind(s, rs.drop_last(), k) + if kept(s, rs.last()) && rs.last().kinds@[0] == k {
            1nat
        } else {
            0nat
        }
    }
}

/// Whether a need has a taken record to meet it.
pub open spec fn need_met(s: CleromancySyncSelection, rs: Seq<SyncRecord>, n: (int, SyncKind, Seq<char>)) -> bool {
    if n.0 == 0 {
        exists|i: int|
            0 <= i < rs.len() && kept(s, #[trigger] rs[i]) && rs[i].kinds@[0] == n.1 && rs[i].key@
                == n.2
    } else if n.0 == 1 {
        exists|i: int| 0 <= i < rs.len() && kept(s, #[trigger] rs[i]) && rs[i].address@ == n.2
    } else {
        exists|i: int, j: int|
            0 <= i < rs.len() && kept(s, #[trigger] rs[i]) && rs[i].kinds@[0]
                == SyncKind::AstrologyFacts && 0 <= j < rs[i].needs@.len() && need_view(
                #[trigger] rs[i].needs@[j],
            ) == (0int, SyncKind::AstrologyChart, n.2)
    }
}

/// Whether every need of every taken record is met.
pub open spec fn all_needs_met(s: CleromancySyncSelection, rs: Seq<SyncRecord>) -> bool {
    forall|i: int, j: int|
        0 <= i < rs.len() && kept(s, #[trigger] rs[i]) && 0 <= j < rs[i].needs@.len() ==> need_met(
            s,
            rs,
            need_view(#[trigger] rs[i].needs@[j]),
        )
}

/// The records a sync batch carries, and how many of each kind.
#[derive(Clone, Debug, PartialEq, Eq)]
pub struct SyncBatchPlan {
    pub selection: CleromancySyncSelection,
    /// Indices of the taken records, in batch order.
    pub records: Vec<usize>,
    /// Authored and three-card spreads count together as spreads.
    pub counts: CleromancySyncImport,
    /// The relations the taken records assert to what they depend on, record
    /// by record in batch order, each record's in the order of its needs.
    pub edges: Vec<SyncEdge>,
}

/// How a record relates to a record it depends on.
#[derive(Clone, Copy, Debug, PartialEq, Eq, Structural)]
pub enum SyncEdgeKind {
    /// It was made from the other: a reading from its context and field.
    GeneratedFrom,
    /// It collects the other: a session its readings, a concurrence its members.
    CollectionMember,
    /// It reflects on the other: a reflection on its session.
    Elaborates,
}

/// One relation a batch asserts, from one node to another.
#[derive(Clone, Copy, Debug, PartialEq, Eq, Structural)]
pub struct SyncEdge {
    pub from: u128,
    pub to: u128,
    pub kind: SyncEdgeKind,
}

/// Whether the counts are those of the taken records.
pub open spec fn counts_of(c: CleromancySyncImport, s: CleromancySyncSelection, rs: Seq<SyncRecord>) -> bool {
    &&& c.contexts == count_kind(s, rs, SyncKind::Context)
    &&& c.fields == count_kind(s, rs, SyncKind::Field)
    &&& c.readings == count_kind(s, rs, SyncKind::Reading)
    &&& c.sessions == count_kind(s, rs, SyncKind::Session)
    &&& c.spreads == count_kind(s, rs, SyncKind::ThreeCardSpread) + count_kind(
        s,
        rs,
        SyncKind::Spread,
    )
    &&& c.spread_templates == count_kind(s, rs, SyncKind::SpreadTemplate)
    &&& c.charts == count_kind(s, rs, SyncKind::AstrologyChart)
    &&& c.facts == count_kind(s, rs, SyncKind::AstrologyFacts)
    &&& c.concurrences == count_kind(s, rs, SyncKind::Concurrence)
    &&& c.reflections == count_kind(s, rs, SyncKind::Reflection)
}

/// Whether a plan is the one the selection makes of these records.
pub open spec fn idx(v: Seq<usize>) -> Seq<int> {
    v.map_values(|u: usize| u as int)
}

/// The order in which records are checked against what they depend on:
/// astrology facts, charts, concurrences, readings, sessions, three-card
/// spreads, authored spreads, reflections, then the kinds that depend on
/// nothing.
pub open spec fn check_rank(k: SyncKind) -> int {
    match k {
        SyncKind::AstrologyFacts => 0,
        SyncKind::AstrologyChart => 1,
        SyncKind::Concurrence => 2,
        SyncKind::Reading => 3,
        SyncKind::Session => 4,
        SyncKind::ThreeCardSpread => 5,
        SyncKind::Spread => 6,
        SyncKind::Reflection => 7,
        SyncKind::Context => 8,
        SyncKind::Field => 9,
        SyncKind::SpreadTemplate => 10,
    }
}

fn check_rank_of(k: SyncKind) -> (r: usize)
    ensures
        r == check_rank(k),
{
    match k {
        SyncKind::AstrologyFacts => 0,
        SyncKind::AstrologyChart => 1,
        SyncKind::Concurrence => 2,
        SyncKind::Reading => 3,
        SyncKind::Session => 4,
        SyncKind::ThreeCardSpread => 5,
        SyncKind::Spread => 6,
        SyncKind::Reflection => 7,
        SyncKind::Context => 8,
        SyncKind::Field => 9,
        SyncKind::SpreadTemplate => 10,
    }
}

/// A kind's place in the batch order, or in the check order.
pub open spec fn order_rank(k: SyncKind, by_check: bool) -> int {
    if by_check {
        check_rank(k)
    } else {
        k.index()
    }
}

/// Records ordered by kind, then by stable node id.
pub open spec fn order_le(a: SyncRecord, b: SyncRecord, by_check: bool) -> bool {
    order_rank(a.kinds@[0], by_check) < order_rank(b.kinds@[0], by_check) || (order_rank(
        a.kinds@[0],
        by_check,
    ) == order_rank(b.kinds@[0], by_check) && a.node <= b.node)
}

/// Whether the records at these indices stand in this order.
pub open spec fn in_order(rs: Seq<SyncRecord>, p: Seq<int>, by_check: bool) -> bool {
    forall|i: int, j: int| 0 <= i < j < p.len() ==> order_le(rs[#[trigger] p[i]], rs[#[trigger] p[j]], by_check)
}

/// The order records take in a batch: by kind, in the order of the kinds,
/// then by stable node id.
pub open spec fn batch_le(a: SyncRecord, b: SyncRecord) -> bool {
    order_le(a, b, false)
}

/// Whether the records at these indices stand in batch order.
pub open spec fn in_batch_order(rs: Seq<SyncRecord>, p: Seq<int>) -> bool {
    in_order(rs, p, false)
}

/// Whether a plan is the one the selection makes of these records: the
/// records it takes, each once, in batch order, and their counts.
pub open spec fn is_plan_of(p: SyncBatchPlan, s: CleromancySyncSelection, rs: Seq<SyncRecord>) -> bool {
    &&& is_selection_of(p, s, rs)
    &&& p.edges@ == edges_of(s, rs, idx(p.records@))
}

/// The records and counts of a plan, before its relations.
pub open spec fn is_selection_of(p: SyncBatchPlan, s: CleromancySyncSelection, rs: Seq<SyncRecord>) -> bool {
    &&& p.selection == s
    &&& idx(p.records@).to_multiset() == planned(s, rs).to_multiset()
    &&& in_batch_order(rs, idx(p.records@))
    &&& counts_of(p.counts, s, rs)
}

/// The relation a record of this kind asserts to what meets this need: a
/// collection holds its readings and members, a reflection elaborates its
/// session, and every other dependency is one the record was made from. A
/// chart asserts nothing to the facts computed from it.
pub open spec fn edge_kind(kind: SyncKind, n: (int, SyncKind, Seq<char>)) -> Option<SyncEdgeKind> {
    if n.0 == 2 {
        None
    } else if n.0 == 1 {
        Some(SyncEdgeKind::CollectionMember)
    } else if kind == SyncKind::Reflection {
        Some(SyncEdgeKind::Elaborates)
    } else if n.1 == SyncKind::Reading && (kind == SyncKind::Session || kind == SyncKind::ThreeCardSpread
        || kind == SyncKind::Spread) {
        Some(SyncEdgeKind::CollectionMember)
    } else {
        Some(SyncEdgeKind::GeneratedFrom)
    }
}

/// Whether a taken record meets a need.
pub open spec fn meets(s: CleromancySyncSelection, r: SyncRecord, n: (int, SyncKind, Seq<char>)) -> bool {
    kept(s, r) && if n.0 == 0 {
        r.kinds@[0] == n.1 && r.key@ == n.2
    } else if n.0 == 1 {
        r.address@ == n.2
    } else {
        r.kinds@[0] == SyncKind::AstrologyFacts && exists|j: int|
            0 <= j < r.needs@.len() && need_view(#[trigger] r.needs@[j]) == (
                0int,
                SyncKind::AstrologyChart,
                n.2,
            )
    }
}

/// The first record, at index `i` or later, that meets a need.
pub open spec fn first_meeting(
    s: CleromancySyncSelection,
    rs: Seq<SyncRecord>,
    n: (int, SyncKind, Seq<char>),
    i: int,
) -> Option<int>
    decreases rs.len() - i,
{
    if i < 0 || i >= rs.len() {
        None
    } else if meets(s, rs[i], n) {
        Some(i)
    } else {
        first_meeting(s, rs, n, i + 1)
    }
}

/// The relations one record asserts for these needs of its own, in order:
/// one to the first taken record that meets each need.
pub open spec fn need_edges(
    s: CleromancySyncSelection,
    rs: Seq<SyncRecord>,
    r: SyncRecord,
    ns: Seq<SyncNeed>,
) -> Seq<SyncEdge>
    decreases ns.len(),
{
    if ns.len() == 0 {
        seq![]
    } else {
        let e = need_edges(s, rs, r, ns.drop_last());
        let n = need_view(ns.last());
        match (edge_kind(r.kinds@[0], n), first_meeting(s, rs, n, 0)) {
            (Some(k), Some(t)) => e.push(SyncEdge { from: r.node, to: rs[t].node, kind: k }),
            _ => e,
        }
    }
}

/// The relations of the records at these indices, in this order.
pub open spec fn edges_of(s: CleromancySyncSelection, rs: Seq<SyncRecord>, order: Seq<int>) -> Seq<SyncEdge>
    decreases order.len(),
{
    if order.len() == 0 {
        seq![]
    } else {
        let r = rs[order.last()];
        edges_of(s, rs, order.drop_last()) + need_edges(s, rs, r, r.needs@)
    }
}

fn edge_kind_of(kind: SyncKind, need: &SyncNeed) -> (r: Option<SyncEdgeKind>)
    ensures
        r == edge_kind(kind, need_view(*need)),
{
    match need {
        SyncNeed::FactsFor(_) => None,
        SyncNeed::Address(_) => Some(SyncEdgeKind::CollectionMember),
        SyncNeed::Record(k, _) => {
            if kind == SyncKind::Reflection {
                Some(SyncEdgeKind::Elaborates)
            } else if *k == SyncKind::Reading && (kind == SyncKind::Session || kind
                == SyncKind::ThreeCardSpread || kind == SyncKind::Spread) {
                Some(SyncEdgeKind::CollectionMember)
            } else {
                Some(SyncEdgeKind::GeneratedFrom)
            }
        },
    }
}

fn meets_exec(s: CleromancySyncSelection, r: &SyncRecord, need: &SyncNeed) -> (b: bool)
    ensures
        b == meets(s, *r, need_view(*need)),
{
    if !is_kept(s, r) {
        return false;
    }
    match need {
        SyncNeed::Record(k, key) => r.kinds[0] == *k && str_eq(r.key.as_str(), key.as_str()),
        SyncNeed::Address(a) => str_eq(r.address.as_str(), a.as_str()),
        SyncNeed::FactsFor(c) => {
            if r.kinds[0] != SyncKind::AstrologyFacts {
                return false;
            }
            let mut m: usize = 0;
            while m < r.needs.len()
                invariant
                    m <= r.needs@.len(),
                    kept(s, *r),
                    r.kinds@[0] == SyncKind::AstrologyFacts,
                    need_view(*need) == (2int, SyncKind::Context, c@),
                    forall|q: int|
                        0 <= q < m ==> need_view(#[trigger] r.needs@[q]) != (
                            0int,
                            SyncKind::AstrologyChart,
                            c@,
                        ),
                decreases r.needs@.len() - m,
            {
                match &r.needs[m] {
                    SyncNeed::Record(nk, d) => {
                        if *nk == SyncKind::AstrologyChart && str_eq(d.as_str(), c.as_str()) {
                            assert(need_view(r.needs@[m as int]) == (0int, SyncKind::AstrologyChart, c@));
                            return true;
                        }
                    },
                    _ => {},
                }
                m += 1;
            }
            false
        },
    }
}

proof fn lemma_first_meeting_in_range(
    s: CleromancySyncSelection,
    rs: Seq<SyncRecord>,
    n: (int, SyncKind, Seq<char>),
    i: int,
)
    ensures
        first_meeting(s, rs, n, i) matches Some(t) ==> i <= t < rs.len() && meets(s, rs[t], n),
    decreases rs.len() - i,
{
    if 0 <= i < rs.len() && !meets(s, rs[i], n) {
        lemma_first_meeting_in_range(s, rs, n, i + 1);
    }
}

fn find_meeting(s: CleromancySyncSelection, records: &Vec<SyncRecord>, need: &SyncNeed) -> (r: Option<usize>)
    ensures
        match first_meeting(s, records@, need_view(*need), 0) {
            Some(t) => r matches Some(x) && x as int == t,
            None => r is None,
        },
        r matches Some(t) ==> t < records@.len(),
        first_meeting(s, records@, need_view(*need), 0) matches Some(t) ==> 0 <= t < records@.len(),
{
    let ghost rs = records@;
    let ghost n = need_view(*need);
    proof {
        lemma_first_meeting_in_range(s, rs, n, 0);
    }
    let mut i: usize = 0;
    while i < records.len()
        invariant
            i <= rs.len(),
            rs == records@,
            n == need_view(*need),
            first_meeting(s, rs, n, 0) == first_meeting(s, rs, n, i as int),
        decreases rs.len() - i,
    {
        if meets_exec(s, &records[i], need) {
            return Some(i);
        }
        i += 1;
    }
    None
}

/// The relations of the records at `order`, in that order.
fn plan_edges(s: CleromancySyncSelection, records: &Vec<SyncRecord>, order: &Vec<usize>) -> (r: Vec<SyncEdge>)
    requires
        forall|j: int| 0 <= j < order@.len() ==> #[trigger] order@[j] < records@.len() && records@[order@[j] as int].kinds@.len() >= 1,
    ensures
        r@ == edges_of(s, records@, idx(order@)),
{
    let ghost rs = records@;
    let mut out: Vec<SyncEdge> = Vec::new();
    let mut i: usize = 0;
    assert(idx(order@).take(0) =~= Seq::<int>::empty());
    while i < order.len()
        invariant
            i <= order@.len(),
            rs == records@,
            forall|j: int| 0 <= j < order@.len() ==> #[trigger] order@[j] < rs.len() && rs[order@[j] as int].kinds@.len() >= 1,
            out@ == edges_of(s, rs, idx(order@).take(i as int)),
        decreases order@.len() - i,
    {
        let p = order[i];
        let r = &records[p];
        let ghost base = out@;
        let mut j: usize = 0;
        assert(r.needs@.take(0) =~= Seq::<SyncNeed>::empty());
        while j < r.needs.len()
            invariant
                j <= r.needs@.len(),
                rs == records@,
                *r == rs[p as int],
                r.kinds@.len() >= 1,
                out@ == base + need_edges(s, rs, *r, r.needs@.take(j as int)),
            decreases r.needs@.len() - j,
        {
            let need = &r.needs[j];
            let ghost t = r.needs@.take(j as int + 1);
            assert(t.drop_last() =~= r.needs@.take(j as int));
            assert(t.last() == *need);
            let ghost n = need_view(*need);
            assert(need_edges(s, rs, *r, t) == match (edge_kind(r.kinds@[0], n), first_meeting(s, rs, n, 0)) {
                (Some(k), Some(w)) => need_edges(s, rs, *r, t.drop_last()).push(SyncEdge { from: r.node, to: rs[w].node, kind: k }),
                _ => need_edges(s, rs, *r, t.drop_last()),
            });
            let ek = edge_kind_of(r.kinds[0], need);
            let found = find_meeting(s, records, need);
            match (ek, found) {
                (Some(kind), Some(at)) => {
                    let ghost w = first_meeting(s, rs, n, 0)->0;
                    assert(at as int == w);
                    let edge = SyncEdge { from: r.node, to: records[at].node, kind };
                    assert(edge == SyncEdge { from: r.node, to: rs[w].node, kind: edge_kind(r.kinds@[0], n)->0 });
                    out.push(edge);
                    assert(out@ =~= base + need_edges(s, rs, *r, t.drop_last()).push(edge));
                },
                _ => {
                    assert(need_edges(s, rs, *r, t) == need_edges(s, rs, *r, t.drop_last()));
                },
            }
            assert(out@ =~= base + need_edges(s, rs, *r, t));
            j += 1;
        }
        assert(r.needs@.take(r.needs@.len() as int) =~= r.needs@);
        proof {
            let o = idx(order@).take(i as int + 1);
            assert(o.drop_last() =~= idx(order@).take(i as int));
            assert(o.last() == p as int);
        }
        i += 1;
    }
    assert(idx(order@).take(order@.len() as int) =~= idx(order@));
    out
}

fn batch_le_of(a: &SyncRecord, b: &SyncRecord, by_check: bool) -> (r: bool)
    requires
        a.kinds@.len() >= 1,
        b.kinds@.len() >= 1,
    ensures
        r == order_le(*a, *b, by_check),
{
    let ka = if by_check { check_rank_of(a.kinds[0]) } else { a.kinds[0].index_of() };
    let kb = if by_check { check_rank_of(b.kinds[0]) } else { b.kinds[0].index_of() };
    ka < kb || (ka == kb && a.node <= b.node)
}

/// The same indices in batch order, or in check order.
fn batch_order(records: &Vec<SyncRecord>, v: &Vec<usize>, by_check: bool) -> (r: Vec<usize>)
    requires
        forall|j: int| 0 <= j < v@.len() ==> #[trigger] v@[j] < records@.len() && records@[v@[j] as int].kinds@.len() >= 1,
    ensures
        idx(r@).to_multiset() == idx(v@).to_multiset(),
        in_order(records@, idx(r@), by_check),
        forall|j: int| 0 <= j < r@.len() ==> #[trigger] r@[j] < records@.len() && records@[r@[j] as int].kinds@.len() >= 1,
{
    broadcast use vstd::seq_lib::group_to_multiset_ensures;

    let ghost rs = records@;
    let mut out: Vec<usize> = Vec::new();
    let mut i: usize = 0;
    assert(idx(v@.take(0)) =~= Seq::<int>::empty());
    assert(idx(out@) =~= Seq::<int>::empty());
    while i < v.len()
        invariant
            i <= v@.len(),
            rs == records@,
            forall|j: int| 0 <= j < v@.len() ==> #[trigger] v@[j] < rs.len() && rs[v@[j] as int].kinds@.len() >= 1,
            forall|j: int| 0 <= j < out@.len() ==> #[trigger] out@[j] < rs.len() && rs[out@[j] as int].kinds@.len() >= 1,
            idx(out@).to_multiset() == idx(v@.take(i as int)).to_multiset(),
            in_order(rs, idx(out@), by_check),
        decreases v@.len() - i,
    {
        let x = v[i];
        let mut k: usize = 0;
        while k < out.len() && batch_le_of(&records[out[k]], &records[x], by_check)
            invariant
                k <= out@.len(),
                x < rs.len(),
                rs[x as int].kinds@.len() >= 1,
                rs == records@,
                forall|j: int| 0 <= j < out@.len() ==> #[trigger] out@[j] < rs.len() && rs[out@[j] as int].kinds@.len() >= 1,
                forall|j: int| 0 <= j < k ==> order_le(rs[#[trigger] out@[j] as int], rs[x as int], by_check),
            decreases out@.len() - k,
        {
            k += 1;
        }
        let ghost ov = idx(out@);
        proof {
            let nv = ov.insert(k as int, x as int);
            assert forall|a: int, b: int| 0 <= a < b < nv.len() implies order_le(
                rs[#[trigger] nv[a]],
                rs[#[trigger] nv[b]],
                by_check,
            ) by {
                if b < k {
                    assert(nv[a] == ov[a] && nv[b] == ov[b]);
                } else if b == k {
                    assert(nv[a] == ov[a]);
                    assert(order_le(rs[out@[a] as int], rs[x as int], by_check));
                } else if a < k {
                    assert(nv[a] == ov[a] && nv[b] == ov[b - 1]);
                    assert(order_le(rs[out@[a] as int], rs[x as int], by_check));
                    assert(!order_le(rs[out@[k as int] as int], rs[x as int], by_check));
                    if b - 1 > k {
                        assert(order_le(rs[ov[k as int]], rs[ov[b - 1]], by_check));
                    }
                } else if a == k {
                    assert(nv[b] == ov[b - 1]);
                    assert(!order_le(rs[out@[k as int] as int], rs[x as int], by_check));
                    if b - 1 > k {
                        assert(order_le(rs[ov[k as int]], rs[ov[b - 1]], by_check));
                    }
                } else {
                    assert(nv[a] == ov[a - 1] && nv[b] == ov[b - 1]);
                }
            }
            assert(v@.take(i as int + 1) =~= v@.take(i as int).push(x));
            assert(idx(v@.take(i as int + 1)) =~= idx(v@.take(i as int)).push(x as int));
        }
        out.insert(k, x);
        assert(idx(out@) =~= ov.insert(k as int, x as int));
        proof {
            vstd::seq_lib::to_multiset_insert(ov, k as int, x as int);
            vstd::seq_lib::to_multiset_build(idx(v@.take(i as int)), x as int);
        }
        i += 1;
    }
    assert(v@.take(v@.len() as int) =~= v@);
    out
}

fn empty_counts() -> (c: CleromancySyncImport)
    ensures
        c.contexts == 0 && c.fields == 0 && c.readings == 0 && c.sessions == 0 && c.spreads == 0
            && c.spread_templates == 0 && c.charts == 0 && c.facts == 0 && c.concurrences == 0
            && c.reflections == 0,
{
    CleromancySyncImport {
        contexts: 0,
        fields: 0,
        readings: 0,
        sessions: 0,
        spreads: 0,
        spread_templates: 0,
        charts: 0,
        facts: 0,
        concurrences: 0,
        reflections: 0,
    }
}

fn node_problem_of(s: CleromancySyncSelection, r: &SyncRecord) -> (p: Option<SyncNodeProblem>)
    ensures
        p == node_problem(s, *r),
{
    if r.kinds.len() > 1 {
        return Some(SyncNodeProblem::MoreThanOneFacet);
    }
    let taken = r.kinds.len() == 1 && r.kinds[0].is_selected_by(s);
    if taken && !str_eq(r.address.as_str(), r.identity.as_str()) {
        return Some(SyncNodeProblem::AddressMismatch);
    }
    if taken && !r.namespaced {
        return Some(SyncNodeProblem::ForeignId);
    }
    None
}

proof fn lemma_count_bound(s: CleromancySyncSelection, rs: Seq<SyncRecord>, k: SyncKind)
    ensures
        count_kind(s, rs, k) <= rs.len(),
    decreases rs.len(),
{
    if rs.len() > 0 {
        lemma_count_bound(s, rs.drop_last(), k);
    }
}

proof fn lemma_count_pair_bound(s: CleromancySyncSelection, rs: Seq<SyncRecord>, a: SyncKind, b: SyncKind)
    requires
        a != b,
    ensures
        count_kind(s, rs, a) + count_kind(s, rs, b) <= rs.len(),
    decreases rs.len(),
{
    if rs.len() > 0 {
        lemma_count_pair_bound(s, rs.drop_last(), a, b);
    }
}

/// Takes the selected records, or the first node problem in input order.
fn take_selected(records: &Vec<SyncRecord>, selection: CleromancySyncSelection) -> (r: Result<
    SyncBatchPlan,
    CleromancySyncError,
>)
    ensures
        match first_node_problem(selection, records@, 0) {
            Some((node, problem)) => r == Err::<SyncBatchPlan, CleromancySyncError>(
                CleromancySyncError::InvalidNode { node, problem },
            ),
            None => r matches Ok(p) && is_selection_of(p, selection, records@),
        },
{
    let ghost rs = records@;
    let mut out: Vec<usize> = Vec::new();
    let mut tally: Vec<usize> = vec![0, 0, 0, 0, 0, 0, 0, 0, 0, 0, 0];
    let mut i: usize = 0;
    while i < records.len()
        invariant
            i <= rs.len(),
            rs == records@,
            first_node_problem(selection, rs, 0) == first_node_problem(selection, rs, i as int),
            idx(out@) == planned(selection, rs.take(i as int)),
            tally@.len() == 11,
            forall|k: SyncKind|
                tally@[k.index()] == #[trigger] count_kind(selection, rs.take(i as int), k),
        decreases rs.len() - i,
    {
        let r = &records[i];
        match node_problem_of(selection, r) {
            Some(problem) => {
                return Err(CleromancySyncError::InvalidNode { node: r.node, problem });
            },
            None => {},
        }
        let ghost before = rs.take(i as int);
        let ghost after = rs.take(i as int + 1);
        assert(after.drop_last() =~= before);
        assert(after.last() == rs[i as int]);
        let ghost old_tally = tally@;
        if r.kinds.len() == 1 && r.kinds[0].is_selected_by(selection) {
            let k = r.kinds[0];
            let ix = k.index_of();
            proof {
                lemma_count_bound(selection, before, k);
            }
            let n = tally[ix] + 1;
            tally.set(ix, n);
            out.push(i);
            assert(idx(out@) =~= planned(selection, before).push(i as int));
        } else {
            assert(idx(out@) =~= planned(selection, after));
        }
        assert forall|k: SyncKind| tally@[k.index()] == #[trigger] count_kind(selection, after, k) by {
            assert(old_tally[k.index()] == count_kind(selection, before, k));
            assert(count_kind(selection, after, k) == count_kind(selection, before, k) + if kept(
                selection,
                rs[i as int],
            ) && rs[i as int].kinds@[0] == k {
                1nat
            } else {
                0nat
            });
        }
        i += 1;
    }
    assert(rs.take(i as int) =~= rs);
    let counts = CleromancySyncImport {
        contexts: tally[0],
        fields: tally[1],
        readings: tally[2],
        sessions: tally[3],
        spreads: {
            proof {
                lemma_count_pair_bound(selection, rs, SyncKind::ThreeCardSpread, SyncKind::Spread);
                assert(tally@[SyncKind::ThreeCardSpread.index()] == count_kind(selection, rs, SyncKind::ThreeCardSpread));
                assert(tally@[SyncKind::Spread.index()] == count_kind(selection, rs, SyncKind::Spread));
            }
            tally[4] + tally[6]
        },
        spread_templates: tally[5],
        charts: tally[7],
        facts: tally[8],
        concurrences: tally[9],
        reflections: tally[10],
    };
    proof {
        assert(tally@[SyncKind::Context.index()] == count_kind(selection, rs, SyncKind::Context));
        assert(tally@[SyncKind::Field.index()] == count_kind(selection, rs, SyncKind::Field));
        assert(tally@[SyncKind::Reading.index()] == count_kind(selection, rs, SyncKind::Reading));
        assert(tally@[SyncKind::Session.index()] == count_kind(selection, rs, SyncKind::Session));
        assert(tally@[SyncKind::SpreadTemplate.index()] == count_kind(selection, rs, SyncKind::SpreadTemplate));
        assert(tally@[SyncKind::AstrologyChart.index()] == count_kind(selection, rs, SyncKind::AstrologyChart));
        assert(tally@[SyncKind::AstrologyFacts.index()] == count_kind(selection, rs, SyncKind::AstrologyFacts));
        assert(tally@[SyncKind::Concurrence.index()] == count_kind(selection, rs, SyncKind::Concurrence));
        assert(tally@[SyncKind::Reflection.index()] == count_kind(selection, rs, SyncKind::Reflection));
    }
    proof {
        lemma_planned_members(selection, rs);
        assert forall|j: int| 0 <= j < out@.len() implies #[trigger] out@[j] < rs.len()
            && rs[out@[j] as int].kinds@.len() >= 1 by {
            assert(idx(out@)[j] == out@[j] as int);
            assert(planned(selection, rs).contains(out@[j] as int));
        }
    }
    let ordered = batch_order(records, &out, false);
    Ok(SyncBatchPlan { selection, records: ordered, counts, edges: Vec::new() })
}

fn is_kept(s: CleromancySyncSelection, r: &SyncRecord) -> (b: bool)
    ensures
        b == kept(s, *r),
{
    r.kinds.len() == 1 && r.kinds[0].is_selected_by(s)
}

fn need_met_in(s: CleromancySyncSelection, records: &Vec<SyncRecord>, need: &SyncNeed) -> (b: bool)
    ensures
        b == need_met(s, records@, need_view(*need)),
{
    let ghost rs = records@;
    let ghost n = need_view(*need);
    let mut i: usize = 0;
    while i < records.len()
        invariant
            i <= rs.len(),
            rs == records@,
            n == need_view(*need),
            n.0 == 0 ==> forall|j: int|
                0 <= j < i ==> !(kept(s, #[trigger] rs[j]) && rs[j].kinds@[0] == n.1 && rs[j].key@
                    == n.2),
            n.0 == 1 ==> forall|j: int|
                0 <= j < i ==> !(kept(s, #[trigger] rs[j]) && rs[j].address@ == n.2),
            n.0 == 2 ==> forall|j: int, m: int|
                0 <= j < i && kept(s, #[trigger] rs[j]) && rs[j].kinds@[0] == SyncKind::AstrologyFacts
                    && 0 <= m < rs[j].needs@.len() ==> need_view(#[trigger] rs[j].needs@[m]) != (
                    0int,
                    SyncKind::AstrologyChart,
                    n.2,
                ),
        decreases rs.len() - i,
    {
        let r = &records[i];
        if is_kept(s, r) {
            match need {
                SyncNeed::Record(k, key) => {
                    if r.kinds[0] == *k && str_eq(r.key.as_str(), key.as_str()) {
                        return true;
                    }
                },
                SyncNeed::Address(a) => {
                    if str_eq(r.address.as_str(), a.as_str()) {
                        return true;
                    }
                },
                SyncNeed::FactsFor(c) => {
                    if r.kinds[0] == SyncKind::AstrologyFacts {
                        let mut m: usize = 0;
                        while m < r.needs.len()
                            invariant
                                m <= r.needs@.len(),
                                i < rs.len(),
                                rs == records@,
                                *r == rs[i as int],
                                kept(s, rs[i as int]),
                                rs[i as int].kinds@[0] == SyncKind::AstrologyFacts,
                                n == need_view(*need),
                                n.2 == c@,
                                n.0 == 2,
                                forall|q: int|
                                    0 <= q < m ==> need_view(#[trigger] r.needs@[q]) != (
                                        0int,
                                        SyncKind::AstrologyChart,
                                        n.2,
                                    ),
                            decreases r.needs@.len() - m,
                        {
                            match &r.needs[m] {
                                SyncNeed::Record(nk, d) => {
                                    if *nk == SyncKind::AstrologyChart && str_eq(d.as_str(), c.as_str()) {
                                        assert(need_view(r.needs@[m as int]) == (
                                            0int,
                                            SyncKind::AstrologyChart,
                                            n.2,
                                        ));
                                        return true;
                                    }
                                },
                                _ => {},
                            }
                            m += 1;
                        }
                    }
                },
            }
        }
        i += 1;
    }
    false
}

proof fn lemma_nothing_planned_when_off(rs: Seq<SyncRecord>)
    ensures
        planned(CleromancySyncSelection::Off, rs) == Seq::<int>::empty(),
        forall|k: SyncKind| #[trigger] count_kind(CleromancySyncSelection::Off, rs, k) == 0,
    decreases rs.len(),
{
    if rs.len() > 0 {
        lemma_nothing_planned_when_off(rs.drop_last());
        assert forall|k: SyncKind| #[trigger] count_kind(CleromancySyncSelection::Off, rs, k) == 0 by {
            assert(count_kind(CleromancySyncSelection::Off, rs.drop_last(), k) == 0);
        }
    }
}

/// The first need, from index `j` on, that no taken record meets.
pub open spec fn first_unmet_from(
    s: CleromancySyncSelection,
    rs: Seq<SyncRecord>,
    ns: Seq<SyncNeed>,
    j: int,
) -> Option<int>
    decreases ns.len() - j,
{
    if j < 0 || j >= ns.len() {
        None
    } else if !need_met(s, rs, need_view(ns[j])) {
        Some(j)
    } else {
        first_unmet_from(s, rs, ns, j + 1)
    }
}

/// What is wrong with one taken record, as the error it gives: its first
/// unmet need, in the order it names them, or else the refusal its own check
/// gave.
pub open spec fn record_problem(s: CleromancySyncSelection, rs: Seq<SyncRecord>, r: SyncRecord) -> Option<
    (int, Seq<char>, Seq<char>),
> {
    match first_unmet_from(s, rs, r.needs@, 0) {
        Some(j) => Some(missing_view(r.kinds@[0], r.key@, need_view(r.needs@[j]))),
        None => match r.refusal {
            Some(m) => Some((16int, r.key@, m@)),
            None => None,
        },
    }
}

/// The first record problem, from position `i` of an order on.
pub open spec fn first_problem_in(
    s: CleromancySyncSelection,
    rs: Seq<SyncRecord>,
    o: Seq<int>,
    i: int,
) -> Option<(int, Seq<char>, Seq<char>)>
    decreases o.len() - i,
{
    if i < 0 || i >= o.len() {
        None
    } else {
        match record_problem(s, rs, rs[o[i]]) {
            Some(v) => Some(v),
            None => first_problem_in(s, rs, o, i + 1),
        }
    }
}

/// Whether no taken record was refused by its own check.
pub open spec fn all_sound(s: CleromancySyncSelection, rs: Seq<SyncRecord>) -> bool {
    forall|i: int| 0 <= i < rs.len() && kept(s, #[trigger] rs[i]) ==> rs[i].refusal is None
}

/// Whether `o` lists the taken records in check order.
pub open spec fn is_check_order(s: CleromancySyncSelection, rs: Seq<SyncRecord>, o: Seq<int>) -> bool {
    o.to_multiset() == planned(s, rs).to_multiset() && in_order(rs, o, true)
}

/// What planning gives once no node is malformed: the taken records are
/// checked in check order, each against its needs and then its own check,
/// and the first problem found is the error; with none, the plan.
pub open spec fn checked_plan(
    r: Result<SyncBatchPlan, CleromancySyncError>,
    s: CleromancySyncSelection,
    rs: Seq<SyncRecord>,
) -> bool {
    &&& exists|o: Seq<int>|
        #[trigger] is_check_order(s, rs, o) && match first_problem_in(s, rs, o, 0) {
            None => r matches Ok(p) && is_plan_of(p, s, rs),
            Some(v) => r matches Err(e) && error_view(e) == v,
        }
    &&& (r is Ok <==> all_needs_met(s, rs) && all_sound(s, rs))
}

proof fn lemma_first_unmet(s: CleromancySyncSelection, rs: Seq<SyncRecord>, ns: Seq<SyncNeed>, j: int)
    requires
        0 <= j <= ns.len(),
    ensures
        first_unmet_from(s, rs, ns, j) is None <==> forall|k: int|
            j <= k < ns.len() ==> need_met(s, rs, need_view(#[trigger] ns[k])),
    decreases ns.len() - j,
{
    if j < ns.len() {
        lemma_first_unmet(s, rs, ns, j + 1);
    }
}

proof fn lemma_first_problem(s: CleromancySyncSelection, rs: Seq<SyncRecord>, o: Seq<int>, i: int)
    requires
        0 <= i <= o.len(),
    ensures
        first_problem_in(s, rs, o, i) is None <==> forall|k: int|
            i <= k < o.len() ==> record_problem(s, rs, rs[#[trigger] o[k]]) is None,
    decreases o.len() - i,
{
    if i < o.len() {
        lemma_first_problem(s, rs, o, i + 1);
    }
}

/// Checking every taken record in check order finds nothing exactly when
/// every need is met and no record was refused.
proof fn lemma_checked_all(s: CleromancySyncSelection, rs: Seq<SyncRecord>, o: Seq<int>)
    requires
        o.to_multiset() == planned(s, rs).to_multiset(),
    ensures
        first_problem_in(s, rs, o, 0) is None <==> all_needs_met(s, rs) && all_sound(s, rs),
{
    broadcast use vstd::seq_lib::group_to_multiset_ensures;

    lemma_planned_members(s, rs);
    lemma_first_problem(s, rs, o, 0);
    assert forall|k: int| 0 <= k < o.len() implies 0 <= #[trigger] o[k] < rs.len() && kept(s, rs[o[k]]) by {
        assert(o.to_multiset().count(o[k]) > 0);
        assert(planned(s, rs).contains(o[k]));
    }
    if first_problem_in(s, rs, o, 0) is None {
        assert forall|i: int, j: int|
            0 <= i < rs.len() && kept(s, #[trigger] rs[i]) && 0 <= j < rs[i].needs@.len() implies need_met(
            s,
            rs,
            need_view(#[trigger] rs[i].needs@[j]),
        ) by {
            assert(planned(s, rs).contains(i));
            assert(planned(s, rs).to_multiset().count(i) > 0);
            assert(o.to_multiset().count(i) > 0);
            assert(o.contains(i));
            let k = choose|k: int| 0 <= k < o.len() && o[k] == i;
            assert(record_problem(s, rs, rs[o[k]]) is None);
            lemma_first_unmet(s, rs, rs[i].needs@, 0);
        }
        assert forall|i: int| 0 <= i < rs.len() && kept(s, #[trigger] rs[i]) implies rs[i].refusal is None by {
            assert(planned(s, rs).contains(i));
            assert(planned(s, rs).to_multiset().count(i) > 0);
            assert(o.to_multiset().count(i) > 0);
            assert(o.contains(i));
            let k = choose|k: int| 0 <= k < o.len() && o[k] == i;
            assert(record_problem(s, rs, rs[o[k]]) is None);
            lemma_first_unmet(s, rs, rs[i].needs@, 0);
        }
    }
    if all_needs_met(s, rs) && all_sound(s, rs) {
        assert forall|k: int| 0 <= k < o.len() implies record_problem(s, rs, rs[#[trigger] o[k]]) is None by {
            let i = o[k];
            lemma_first_unmet(s, rs, rs[i].needs@, 0);
            assert forall|j: int| 0 <= j < rs[i].needs@.len() implies need_met(
                s,
                rs,
                need_view(#[trigger] rs[i].needs@[j]),
            ) by {
                assert(kept(s, rs[i]));
            }
        }
    }
}

fn record_check(s: CleromancySyncSelection, records: &Vec<SyncRecord>, r: &SyncRecord) -> (res: Result<
    (),
    CleromancySyncError,
>)
    requires
        kept(s, *r),
    ensures
        match record_problem(s, records@, *r) {
            None => res is Ok,
            Some(v) => res matches Err(e) && error_view(e) == v,
        },
{
    let ghost rs = records@;
    let ghost ns = r.needs@;
    let mut j: usize = 0;
    while j < r.needs.len()
        invariant
            j <= ns.len(),
            rs == records@,
            ns == r.needs@,
            kept(s, *r),
            first_unmet_from(s, rs, ns, 0) == first_unmet_from(s, rs, ns, j as int),
        decreases ns.len() - j,
    {
        if !need_met_in(s, records, &r.needs[j]) {
            return Err(missing_error(r.kinds[0], r.key.as_str(), &r.needs[j]));
        }
        j += 1;
    }
    match &r.refusal {
        None => Ok(()),
        Some(m) => Err(
            CleromancySyncError::Refused {
                node: r.node,
                record: copy_str(r.key.as_str()),
                reason: copy_str(m.as_str()),
            },
        ),
    }
}

fn check_records(records: &Vec<SyncRecord>, order: &Vec<usize>, s: CleromancySyncSelection) -> (res: Result<
    (),
    CleromancySyncError,
>)
    requires
        forall|j: int| 0 <= j < order@.len() ==> #[trigger] order@[j] < records@.len() && kept(s, records@[order@[j] as int]),
    ensures
        match first_problem_in(s, records@, idx(order@), 0) {
            None => res is Ok,
            Some(v) => res matches Err(e) && error_view(e) == v,
        },
{
    let ghost rs = records@;
    let ghost o = idx(order@);
    let mut i: usize = 0;
    while i < order.len()
        invariant
            i <= order@.len(),
            rs == records@,
            o == idx(order@),
            forall|j: int| 0 <= j < order@.len() ==> #[trigger] order@[j] < rs.len() && kept(s, rs[order@[j] as int]),
            first_problem_in(s, rs, o, 0) == first_problem_in(s, rs, o, i as int),
        decreases order@.len() - i,
    {
        assert(o[i as int] == order@[i as int] as int);
        match record_check(s, records, &records[order[i]]) {
            Ok(()) => {},
            Err(e) => {
                return Err(e);
            },
        }
        i += 1;
    }
    Ok(())
}

/// Plans a sync batch: the records the selection takes, in batch order, how
/// many of each kind, and the relation each asserts to the first taken record
/// that meets each of its needs. Nothing is taken when sync is off. Otherwise the
/// first node, in input order, that carries more than one domain facet, or
/// that is taken but does not sit at the address and id its record names,
/// is refused. Then the taken records are checked in check order: astrology
/// facts, charts, concurrences, readings, sessions, three-card spreads,
/// authored spreads and reflections, each kind by node id. A record whose
/// dependency is not taken beside it is refused, naming the record and the
/// dependency; then a record that its own check refused (a reading that
/// does not replay, facts that do not verify against their chart) is
/// refused with that reason.
pub fn sync_batch_plan(records: &Vec<SyncRecord>, selection: CleromancySyncSelection) -> (r: Result<
    SyncBatchPlan,
    CleromancySyncError,
>)
    ensures
        selection == CleromancySyncSelection::Off ==> (r matches Ok(p) && is_plan_of(
            p,
            selection,
            records@,
        ) && p.records@.len() == 0),
        selection != CleromancySyncSelection::Off ==> match first_node_problem(
            selection,
            records@,
            0,
        ) {
            Some((node, problem)) => r == Err::<SyncBatchPlan, CleromancySyncError>(
                CleromancySyncError::InvalidNode { node, problem },
            ),
            None => checked_plan(r, selection, records@),
        },
{
    if !selection.includes_contexts() {
        proof {
            lemma_nothing_planned_when_off(records@);
            lemma_count_pair_bound(selection, records@, SyncKind::ThreeCardSpread, SyncKind::Spread);
        }
        let p = SyncBatchPlan { selection, records: Vec::new(), counts: empty_counts(), edges: Vec::new() };
        assert(idx(p.records@) =~= planned(selection, records@));
        return Ok(p);
    }
    let plan = take_selected(records, selection)?;
    proof {
        lemma_planned_members(selection, records@);
        assert forall|j: int| 0 <= j < plan.records@.len() implies #[trigger] plan.records@[j] < records@.len()
            && kept(selection, records@[plan.records@[j] as int]) by {
            broadcast use vstd::seq_lib::group_to_multiset_ensures;
            assert(idx(plan.records@)[j] == plan.records@[j] as int);
            assert(idx(plan.records@).contains(plan.records@[j] as int));
            assert(idx(plan.records@).to_multiset().count(plan.records@[j] as int) > 0);
            assert(planned(selection, records@).contains(plan.records@[j] as int));
        }
    }
    let order = batch_order(records, &plan.records, true);
    let ghost o = idx(order@);
    proof {
        assert forall|j: int| 0 <= j < order@.len() implies #[trigger] order@[j] < records@.len()
            && kept(selection, records@[order@[j] as int]) by {
            broadcast use vstd::seq_lib::group_to_multiset_ensures;
            assert(o[j] == order@[j] as int);
            assert(o.contains(order@[j] as int));
            assert(o.to_multiset().count(order@[j] as int) > 0);
            assert(planned(selection, records@).contains(order@[j] as int));
        }
        assert(is_check_order(selection, records@, o));
        lemma_checked_all(selection, records@, o);
    }
    match check_records(records, &order, selection) {
        Ok(()) => {},
        Err(e) => {
            return Err(e);
        },
    }
    let edges = plan_edges(selection, records, &plan.records);
    Ok(SyncBatchPlan { selection, records: plan.records, counts: plan.counts, edges })
}

/// Whether `s` ends with `suffix`.
pub open spec fn ends_with(s: Seq<char>, suffix: Seq<char>) -> bool {
    suffix.len() <= s.len() && s.subrange(s.len() - suffix.len(), s.len() as int) == suffix
}

/// The conflict path suffix under which the personal graph reports a
/// conflict on a facet.
pub open spec fn facet_path(k: SyncKind) -> Seq<char> {
    "/facet/"@ + k.facet()
}

/// Whether a conflict at `target` touches a facet the selection takes.
pub open spec fn conflict_selected(s: CleromancySyncSelection, target: Seq<char>) -> bool {
    exists|k: SyncKind| k.selected_by(s) && ends_with(target, #[trigger] facet_path(k))
}

/// The first conflict target, from index `i` on, that touches a selected facet.
pub open spec fn first_conflict(s: CleromancySyncSelection, targets: Seq<String>, i: int) -> Option<
    Seq<char>,
>
    decreases targets.len() - i,
{
    if i < 0 || i >= targets.len() {
        None
    } else if conflict_selected(s, targets[i]@) {
        Some(targets[i]@)
    } else {
        first_conflict(s, targets, i + 1)
    }
}

fn ends_with_str(s: &str, suffix: &str) -> (b: bool)
    ensures
        b == ends_with(s@, suffix@),
{
    let a = chars_of(s);
    let b = chars_of(suffix);
    if b.len() > a.len() {
        return false;
    }
    let alen = a.len();
    let off = alen - b.len();
    let mut i: usize = 0;
    while i < b.len()
        invariant
            a@ == s@,
            b@ == suffix@,
            b@.len() <= a@.len(),
            off == a@.len() - b@.len(),
            off + b@.len() == a@.len(),
            alen == a@.len(),
            i <= b@.len(),
            forall|j: int| 0 <= j < i ==> a@[off + j] == b@[j],
        decreases b@.len() - i,
    {
        assert(off + i < alen);
        let at: usize = off + i;
        if a[at] != b[i] {
            assert(s@.subrange(off as int, s@.len() as int)[i as int] != suffix@[i as int]);
            return false;
        }
        i += 1;
    }
    assert(s@.subrange(off as int, s@.len() as int) =~= suffix@);
    true
}

fn all_kinds() -> (v: Vec<SyncKind>)
    ensures
        v@.len() == 11,
        forall|k: SyncKind| v@[k.index()] == k,
{
    vec![
        SyncKind::Context,
        SyncKind::Field,
        SyncKind::Reading,
        SyncKind::Session,
        SyncKind::ThreeCardSpread,
        SyncKind::SpreadTemplate,
        SyncKind::Spread,
        SyncKind::AstrologyChart,
        SyncKind::AstrologyFacts,
        SyncKind::Concurrence,
        SyncKind::Reflection,
    ]
}

fn touches_selected(s: CleromancySyncSelection, target: &str) -> (b: bool)
    ensures
        b == conflict_selected(s, target@),
{
    let kinds = all_kinds();
    let mut i: usize = 0;
    while i < kinds.len()
        invariant
            kinds@.len() == 11,
            forall|k: SyncKind| kinds@[k.index()] == k,
            i <= 11,
            forall|j: int|
                0 <= j < i ==> !(kinds@[j].selected_by(s) && ends_with(
                    target@,
                    #[trigger] facet_path(kinds@[j]),
                )),
        decreases 11 - i,
    {
        let k = kinds[i];
        let mut path = copy_str("/facet/");
        push_str(&mut path, k.facet_name());
        if k.is_selected_by(s) && ends_with_str(target, path.as_str()) {
            assert(k.selected_by(s) && ends_with(target@, facet_path(k)));
            return true;
        }
        i += 1;
    }
    assert forall|k: SyncKind| !(k.selected_by(s) && ends_with(target@, #[trigger] facet_path(k))) by {
        assert(kinds@[k.index()] == k);
        assert(0 <= k.index() < 11);
    }
    false
}

/// Decodes what a personal graph materialized for import. Nothing is taken
/// when sync is off. Otherwise operations still waiting for causal history
/// refuse the import, as does the first unresolved conflict on a selected
/// facet; then the materialized nodes are planned as an export plans them,
/// so that nothing reaches the local graph unless all of it can.
pub fn decode_projection_nodes(
    records: &Vec<SyncRecord>,
    pending: usize,
    conflicts: &Vec<String>,
    selection: CleromancySyncSelection,
) -> (r: Result<SyncBatchPlan, CleromancySyncError>)
    ensures
        selection == CleromancySyncSelection::Off ==> (r matches Ok(p) && is_plan_of(
            p,
            selection,
            records@,
        ) && p.records@.len() == 0),
        selection != CleromancySyncSelection::Off && pending > 0 ==> r == Err::<
            SyncBatchPlan,
            CleromancySyncError,
        >(CleromancySyncError::PendingHistory(pending)),
        selection != CleromancySyncSelection::Off && pending == 0 ==> match first_conflict(
            selection,
            conflicts@,
            0,
        ) {
            Some(t) => r matches Err(CleromancySyncError::Conflict(x)) && x@ == t,
            None => match first_node_problem(selection, records@, 0) {
                Some((node, problem)) => r == Err::<SyncBatchPlan, CleromancySyncError>(
                    CleromancySyncError::InvalidNode { node, problem },
                ),
                None => checked_plan(r, selection, records@),
            },
        },
{
    if !selection.includes_contexts() {
        return sync_batch_plan(records, selection);
    }
    if pending > 0 {
        return Err(CleromancySyncError::PendingHistory(pending));
    }
    let ghost ts = conflicts@;
    let mut i: usize = 0;
    while i < conflicts.len()
        invariant
            i <= ts.len(),
            ts == conflicts@,
            pending == 0,
            first_conflict(selection, ts, 0) == first_conflict(selection, ts, i as int),
        decreases ts.len() - i,
    {
        if touches_selected(selection, conflicts[i].as_str()) {
            return Err(CleromancySyncError::Conflict(copy_str(conflicts[i].as_str())));
        }
        i += 1;
    }
    sync_batch_plan(records, selection)
}

proof fn lemma_planned_members(s: CleromancySyncSelection, rs: Seq<SyncRecord>)
    ensures
        forall|m: int| #[trigger] planned(s, rs).contains(m) <==> (0 <= m < rs.len() && kept(s, rs[m])),
    decreases rs.len(),
{
    if rs.len() > 0 {
        let init = rs.drop_last();
        lemma_planned_members(s, init);
        assert forall|m: int| #[trigger] planned(s, rs).contains(m) <==> (0 <= m < rs.len() && kept(
            s,
            rs[m],
        )) by {
            let p0 = planned(s, init);
            let p1 = planned(s, rs);
            let in0 = p0.contains(m);
            if 0 <= m < rs.len() - 1 {
                assert(init[m] == rs[m]);
            }
            if !kept(s, rs.last()) {
                assert(p1 == p0);
            } else {
                assert(p1 == p0.push(rs.len() - 1));
                if p1.contains(m) && m != rs.len() - 1 {
                    let w = choose|w: int| 0 <= w < p1.len() && p1[w] == m;
                    assert(w < p0.len());
                    assert(p0[w] == m);
                    assert(p0.contains(m));
                }
                if 0 <= m < rs.len() - 1 && kept(s, rs[m]) {
                    assert(in0);
                    let w = choose|w: int| 0 <= w < p0.len() && p0[w] == m;
                    assert(p1[w] == m);
                }
                if m == rs.len() - 1 {
                    assert(p1[p1.len() - 1] == m);
                }
            }
        }
    }
}

/// A kind of record travels under a selection exactly when the selection
/// lets the personal graph materialize that kind's facet.
pub proof fn law_sync_kinds_follow_selection(k: SyncKind, s: CleromancySyncSelection)
    ensures
        k.selected_by(s) <==> s.facets().contains(k.facet()),
{
    reveal_strlit("cleromancy.context/v1");
    reveal_strlit("cleromancy.field/v1");
    reveal_strlit("cleromancy.reading/v1");
    reveal_strlit("cleromancy.reading-session/v1");
    reveal_strlit("cleromancy.reflection/v1");
    reveal_strlit("cleromancy.three-card-spread/v1");
    reveal_strlit("cleromancy.spread-template/v1");
    reveal_strlit("cleromancy.spread/v1");
    reveal_strlit("cleromancy.astrology-chart/v1");
    reveal_strlit("cleromancy.astrology-facts/v1");
    reveal_strlit("cleromancy.concurrence/v1");
    let f = s.facets();
    if k.selected_by(s) {
        let w: int = match s {
            CleromancySyncSelection::Off => 0,
            _ => k.index(),
        };
        assert(f[w] == k.facet());
    } else {
        assert forall|w: int| 0 <= w < f.len() implies f[w] != k.facet() by {
            if s == CleromancySyncSelection::Contexts {
                assert(f[w] == CONTEXT_FACET@);
            }
            if f[w] == k.facet() {
                assert(f[w].len() == k.facet().len());
                assert(f[w][11] == k.facet()[11]);
                assert(f[w][12] == k.facet()[12]);
                assert(f[w][13] == k.facet()[13]);
            }
        }
    }
}

/// Every record a plan takes is of a kind whose facet the selection lets
/// the personal graph materialize, and every record of a selected kind that
/// carries only that facet is taken.
pub proof fn law_plan_takes_selected_facets(s: CleromancySyncSelection, rs: Seq<SyncRecord>, m: int)
    requires
        0 <= m < rs.len(),
        rs[m].kinds@.len() == 1,
    ensures
        planned(s, rs).contains(m) <==> s.facets().contains(rs[m].kinds@[0].facet()),
{
    lemma_planned_members(s, rs);
    law_sync_kinds_follow_selection(rs[m].kinds@[0], s);
}

/// When every need is met, each record a plan takes has each record it names
/// by kind and key taken beside it: a sealed reading travels with its
/// context and its field, a session with its readings.
pub proof fn law_plan_carries_dependencies(s: CleromancySyncSelection, rs: Seq<SyncRecord>, i: int, j: int)
    requires
        all_needs_met(s, rs),
        planned(s, rs).contains(i),
        0 <= j < rs[i].needs@.len(),
        need_view(rs[i].needs@[j]).0 == 0,
    ensures
        exists|m: int|
            #[trigger] planned(s, rs).contains(m) && rs[m].kinds@[0] == need_view(rs[i].needs@[j]).1
                && rs[m].key@ == need_view(rs[i].needs@[j]).2,
{
    lemma_planned_members(s, rs);
    let n = need_view(rs[i].needs@[j]);
    assert(need_met(s, rs, n));
    let m = choose|m: int| 0 <= m < rs.len() && kept(s, #[trigger] rs[m]) && rs[m].kinds@[0] == n.1 && rs[m].key@ == n.2;
    assert(planned(s, rs).contains(m));
}

/// A plan carries each record the selection takes, once each, and nothing
/// else: a record of a selected kind with a single domain facet is in it, and
/// no other record is.
pub proof fn law_plan_carries_exactly_the_taken(p: SyncBatchPlan, s: CleromancySyncSelection, rs: Seq<SyncRecord>, m: int)
    requires
        is_plan_of(p, s, rs),
    ensures
        idx(p.records@).contains(m) <==> (0 <= m < rs.len() && kept(s, rs[m])),
        idx(p.records@).to_multiset().count(m) <= 1,
{
    broadcast use vstd::seq_lib::group_to_multiset_ensures;

    lemma_planned_members(s, rs);
    lemma_planned_once(s, rs, m);
    assert(idx(p.records@).to_multiset().count(m) == planned(s, rs).to_multiset().count(m));
}

proof fn lemma_planned_once(s: CleromancySyncSelection, rs: Seq<SyncRecord>, m: int)
    ensures
        planned(s, rs).to_multiset().count(m) <= 1,
        forall|i: int| 0 <= i < planned(s, rs).len() ==> 0 <= #[trigger] planned(s, rs)[i] < rs.len(),
    decreases rs.len(),
{
    broadcast use vstd::seq_lib::group_to_multiset_ensures;

    if rs.len() > 0 {
        let d = rs.drop_last();
        lemma_planned_once(s, d, m);
        if kept(s, rs.last()) {
            let p0 = planned(s, d);
            vstd::seq_lib::to_multiset_build(p0, rs.len() - 1);
            if m == rs.len() - 1 {
                assert(!p0.contains(m)) by {
                    if p0.contains(m) {
                        let w = choose|w: int| 0 <= w < p0.len() && p0[w] == m;
                        assert(0 <= p0[w] < d.len());
                    }
                }
            }
            assert forall|i: int| 0 <= i < planned(s, rs).len() implies 0 <= #[trigger] planned(s, rs)[i] < rs.len() by {
                if i < p0.len() {
                    assert(planned(s, rs)[i] == p0[i]);
                }
            }
        }
    } else {
        assert(planned(s, rs).to_multiset() =~= vstd::multiset::Multiset::empty());
    }
}

} // verus!
