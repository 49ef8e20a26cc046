//! Portable cards: the labelled values a projected node shows for the record
//! it holds, its title, and its tags as badges.
//!
//! Lists that a card shows as Rust's `Debug` writes them (weights, matched
//! terms, weight additions) are rendered here: numbers in decimal, texts as
//! `Debug` quotes a string, each list in brackets with `, ` between items.

use vstd::prelude::*;

use crate::context::{Candidate, ContextSnapshot, Field};
use crate::consultation::AstrologyPosition;
use crate::digest::{digest_of, push_decimal};
use crate::order::{compare_str, lemma_lex_asymmetric, lemma_lex_irreflexive, lemma_lex_total, lemma_lex_transitive, lex_le, lex_lt, views, Order};
use crate::reading::{Reading, SelectionMode};
use crate::session::{ReadingPlacement, ReadingSession};
use crate::spread::{ThreeCardPlacement, ThreeCardRelation, ThreeCardSpread};
use crate::text::{decimal, push_char, push_str};

verus! {

/// The items of a list with `sep` between each two.
pub open spec fn joined(items: Seq<Seq<char>>, sep: Seq<char>) -> Seq<char>
    decreases items.len(),
{
    if items.len() == 0 {
        seq![]
    } else if items.len() == 1 {
        items[0]
    } else {
        joined(items.drop_last(), sep) + sep + items.last()
    }
}

/// A list as `Debug` writes it, given its items as written.
pub open spec fn bracketed(items: Seq<Seq<char>>) -> Seq<char> {
    seq!['['] + joined(items, ", "@) + seq![']']
}

/// A list of unsigned numbers as `Debug` writes it.
pub open spec fn debug_u64s(ns: Seq<u64>) -> Seq<char> {
    bracketed(ns.map_values(|n: u64| decimal(n as nat)))
}

/// A signed number as `Display` writes it.
pub open spec fn signed_decimal(n: int) -> Seq<char> {
    if n < 0 {
        seq!['-'] + decimal((-n) as nat)
    } else {
        decimal(n as nat)
    }
}

/// How `Debug` writes a text: in double quotes, with its characters escaped.
pub uninterp spec fn debug_quoted(s: Seq<char>) -> Seq<char>;

/// Whether every character is printable ASCII other than a quote or a
/// backslash, so that `Debug` writes it unescaped.
pub open spec fn plain_ascii(s: Seq<char>) -> bool {
    forall|i: int|
        0 <= i < s.len() ==> ' ' <= #[trigger] s[i] && s[i] <= '~' && s[i] != '"' && s[i] != '\\'
            && s[i] != '\''
}

/// `Debug` for `str`, as `format!("{:?}", s)` writes it.
///
/// The standard library writes the text in double quotes, escaping quotes,
/// backslashes, control characters and other characters that do not print.
/// The contract claims that the result depends on the text alone, through
/// `debug_quoted`, and that a text of printable ASCII without quotes or
/// backslashes is written as itself between double quotes; of other text it
/// says nothing.
#[verifier::external_body]
fn debug_str(s: &str) -> (r: String)
    ensures
        r@ == debug_quoted(s@),
        plain_ascii(s@) ==> r@ == "\""@ + s@ + "\""@,
{
    format!("{:?}", s)
}

/// A list of lists of texts as `Debug` writes it.
pub open spec fn debug_text_lists(ls: Seq<Seq<Seq<char>>>) -> Seq<char> {
    bracketed(ls.map_values(|l: Seq<Seq<char>>| bracketed(l.map_values(|t: Seq<char>| debug_quoted(t)))))
}

pub open spec fn text_lists(v: Seq<Vec<String>>) -> Seq<Seq<Seq<char>>> {
    v.map_values(|l: Vec<String>| views(l@))
}

/// Appends the joined rendering of `items[..i+1]` from that of `items[..i]`.
proof fn lemma_joined_step(items: Seq<Seq<char>>, sep: Seq<char>, i: int)
    requires
        0 <= i < items.len(),
    ensures
        joined(items.take(i + 1), sep) == if i == 0 {
            items[0]
        } else {
            joined(items.take(i), sep) + sep + items[i]
        },
{
    let t = items.take(i + 1);
    assert(t.drop_last() =~= items.take(i));
    assert(t.last() == items[i]);
    if i == 0 {
        assert(t.len() == 1);
    }
}

fn push_debug_u64s(out: &mut String, ns: &Vec<u64>)
    ensures
        final(out)@ == old(out)@ + debug_u64s(ns@),
{
    let ghost items = ns@.map_values(|n: u64| decimal(n as nat));
    push_char(out, '[');
    let ghost start = out@;
    let mut i: usize = 0;
    assert(items.take(0) =~= Seq::<Seq<char>>::empty());
    while i < ns.len()
        invariant
            i <= ns@.len(),
            items == ns@.map_values(|n: u64| decimal(n as nat)),
            out@ == start + joined(items.take(i as int), ", "@),
        decreases ns@.len() - i,
    {
        proof {
            lemma_joined_step(items, ", "@, i as int);
        }
        if i > 0 {
            push_str(out, ", ");
        }
        push_decimal(out, ns[i]);
        assert(out@ =~= start + joined(items.take(i as int + 1), ", "@));
        i += 1;
    }
    assert(items.take(ns@.len() as int) =~= items);
    push_char(out, ']');
    assert(out@ =~= old(out)@ + debug_u64s(ns@));
}

fn push_debug_texts(out: &mut String, ts: &Vec<String>)
    ensures
        final(out)@ == old(out)@ + bracketed(views(ts@).map_values(|t: Seq<char>| debug_quoted(t))),
{
    let ghost items = views(ts@).map_values(|t: Seq<char>| debug_quoted(t));
    push_char(out, '[');
    let ghost start = out@;
    let mut i: usize = 0;
    assert(items.take(0) =~= Seq::<Seq<char>>::empty());
    while i < ts.len()
        invariant
            i <= ts@.len(),
            items == views(ts@).map_values(|t: Seq<char>| debug_quoted(t)),
            out@ == start + joined(items.take(i as int), ", "@),
        decreases ts@.len() - i,
    {
        proof {
            lemma_joined_step(items, ", "@, i as int);
        }
        if i > 0 {
            push_str(out, ", ");
        }
        let q = debug_str(ts[i].as_str());
        push_str(out, q.as_str());
        assert(out@ =~= start + joined(items.take(i as int + 1), ", "@));
        i += 1;
    }
    assert(items.take(ts@.len() as int) =~= items);
    push_char(out, ']');
    assert(out@ =~= old(out)@ + bracketed(items));
}

fn push_debug_text_lists(out: &mut String, ls: &Vec<Vec<String>>)
    ensures
        final(out)@ == old(out)@ + debug_text_lists(text_lists(ls@)),
{
    let ghost items = text_lists(ls@).map_values(
        |l: Seq<Seq<char>>| bracketed(l.map_values(|t: Seq<char>| debug_quoted(t))),
    );
    push_char(out, '[');
    let ghost start = out@;
    let mut i: usize = 0;
    assert(items.take(0) =~= Seq::<Seq<char>>::empty());
    while i < ls.len()
        invariant
            i <= ls@.len(),
            items == text_lists(ls@).map_values(
                |l: Seq<Seq<char>>| bracketed(l.map_values(|t: Seq<char>| debug_quoted(t))),
            ),
            out@ == start + joined(items.take(i as int), ", "@),
        decreases ls@.len() - i,
    {
        proof {
            lemma_joined_step(items, ", "@, i as int);
        }
        if i > 0 {
            push_str(out, ", ");
        }
        push_debug_texts(out, &ls[i]);
        assert(out@ =~= start + joined(items.take(i as int + 1), ", "@));
        i += 1;
    }
    assert(items.take(ls@.len() as int) =~= items);
    push_char(out, ']');
    assert(out@ =~= old(out)@ + debug_text_lists(text_lists(ls@)));
}

fn push_signed(out: &mut String, n: i32)
    ensures
        final(out)@ == old(out)@ + signed_decimal(n as int),
{
    if n < 0 {
        push_char(out, '-');
        let m: i64 = -(n as i64);
        push_decimal(out, m as u64);
        assert(out@ =~= old(out)@ + signed_decimal(n as int));
    } else {
        push_decimal(out, n as u64);
    }
}

/// One labelled value of a card.
#[derive(Clone, Debug, PartialEq, Eq)]
pub struct CardValue {
    pub label: String,
    pub value: String,
}

/// The card a projected node shows.
#[derive(Clone, Debug, PartialEq, Eq)]
pub struct PortableCard {
    pub title: String,
    pub values: Vec<CardValue>,
    /// The node's tags, sorted.
    pub badges: Vec<String>,
}

pub open spec fn card_views(v: Seq<CardValue>) -> Seq<(Seq<char>, Seq<char>)> {
    v.map_values(|c: CardValue| (c.label@, c.value@))
}

/// A member of a concurrence: its role and the address of the record.
#[derive(Clone, Debug, PartialEq, Eq)]
pub struct CardMember {
    pub role: String,
    pub address: String,
}

/// A body's placement in astrology facts: its sign, as the sign's name is
/// written, and its degree within the sign.
#[derive(Clone, Debug, PartialEq, Eq)]
pub struct CardFactPlacement {
    pub body: String,
    pub sign: String,
    pub degree_millidegrees: u32,
}

/// An aspect between two bodies, with its kind as the kind's name is
/// written.
#[derive(Clone, Debug, PartialEq, Eq)]
pub struct CardAspect {
    pub first: String,
    pub second: String,
    pub kind: String,
    pub separation_millidegrees: u32,
    pub orb_millidegrees: u32,
}

/// The domain record a node holds, as its card reads it. A node without a
/// record the card shows, or whose record does not decode, is `Other`.
#[derive(Clone, Debug, PartialEq, Eq)]
pub enum CardRecord {
    Reading(Reading),
    Session { session: ReadingSession, client_token: Option<String> },
    ThreeCardSpread(ThreeCardSpread),
    Reflection { created_at_ms: u64, session_id: String, body: String },
    Concurrence { label: String, created_at_ms: u64, members: Vec<CardMember> },
    AstrologyChart {
        digest: String,
        algorithm: String,
        engine: String,
        ephemeris: String,
        moment: String,
        positions: Vec<AstrologyPosition>,
    },
    AstrologyFacts {
        digest: String,
        chart_digest: String,
        algorithm: String,
        orb_millidegrees: u32,
        placements: Vec<CardFactPlacement>,
        aspects: Vec<CardAspect>,
    },
    Field(Field),
    Context(ContextSnapshot),
    Other,
}

/// An item a card lists on one line.
pub trait CardLine: Sized {
    spec fn line(&self) -> Seq<char>;

    fn push_line(&self, out: &mut String)
        ensures
            final(out)@ == old(out)@ + self.line(),
    ;
}

impl CardLine for ReadingPlacement {
    open spec fn line(&self) -> Seq<char> {
        self.position@ + ": "@ + self.reading_id@
    }

    fn push_line(&self, out: &mut String) {
        push_str(out, self.position.as_str());
        push_str(out, ": ");
        push_str(out, self.reading_id.as_str());
        assert(out@ =~= old(out)@ + self.line());
    }
}

impl CardLine for ThreeCardPlacement {
    open spec fn line(&self) -> Seq<char> {
        self.position.name() + ": "@ + self.reading_id@
    }

    fn push_line(&self, out: &mut String) {
        push_str(out, self.position.as_str());
        push_str(out, ": ");
        push_str(out, self.reading_id.as_str());
        assert(out@ =~= old(out)@ + self.line());
    }
}

impl CardLine for ThreeCardRelation {
    open spec fn line(&self) -> Seq<char> {
        self.from.name() + " -> "@ + self.to.name() + " ("@ + self.label@ + ")"@
    }

    fn push_line(&self, out: &mut String) {
        push_str(out, self.from.as_str());
        push_str(out, " -> ");
        push_str(out, self.to.as_str());
        push_str(out, " (");
        push_str(out, self.label.as_str());
        push_str(out, ")");
        assert(out@ =~= old(out)@ + self.line());
    }
}

impl CardLine for CardMember {
    open spec fn line(&self) -> Seq<char> {
        self.role@ + ": "@ + self.address@
    }

    fn push_line(&self, out: &mut String) {
        push_str(out, self.role.as_str());
        push_str(out, ": ");
        push_str(out, self.address.as_str());
        assert(out@ =~= old(out)@ + self.line());
    }
}

impl CardLine for AstrologyPosition {
    open spec fn line(&self) -> Seq<char> {
        self.body@ + ": "@ + signed_decimal(self.longitude_millidegrees as int)
            + " mdeg longitude, "@ + signed_decimal(self.latitude_millidegrees as int)
            + " mdeg latitude"@ + match self.retrograde {
            None => seq![],
            Some(b) => ", retrograde="@ + if b {
                "true"@
            } else {
                "false"@
            },
        }
    }

    fn push_line(&self, out: &mut String) {
        push_str(out, self.body.as_str());
        push_str(out, ": ");
        push_signed(out, self.longitude_millidegrees);
        push_str(out, " mdeg longitude, ");
        push_signed(out, self.latitude_millidegrees);
        push_str(out, " mdeg latitude");
        match self.retrograde {
            None => {},
            Some(b) => {
                push_str(out, ", retrograde=");
                if b {
                    push_str(out, "true");
                } else {
                    push_str(out, "false");
                }
            },
        }
        assert(out@ =~= old(out)@ + self.line());
    }
}

impl CardLine for CardFactPlacement {
    open spec fn line(&self) -> Seq<char> {
        self.body@ + ": "@ + self.sign@ + " +"@ + decimal(self.degree_millidegrees as nat) + " mdeg"@
    }

    fn push_line(&self, out: &mut String) {
        push_str(out, self.body.as_str());
        push_str(out, ": ");
        push_str(out, self.sign.as_str());
        push_str(out, " +");
        push_decimal(out, self.degree_millidegrees as u64);
        push_str(out, " mdeg");
        assert(out@ =~= old(out)@ + self.line());
    }
}

impl CardLine for CardAspect {
    open spec fn line(&self) -> Seq<char> {
        self.first@ + " / "@ + self.second@ + ": "@ + self.kind@ + " ("@ + decimal(
            self.separation_millidegrees as nat,
        ) + " mdeg, orb "@ + decimal(self.orb_millidegrees as nat) + ")"@
    }

    fn push_line(&self, out: &mut String) {
        push_str(out, self.first.as_str());
        push_str(out, " / ");
        push_str(out, self.second.as_str());
        push_str(out, ": ");
        push_str(out, self.kind.as_str());
        push_str(out, " (");
        push_decimal(out, self.separation_millidegrees as u64);
        push_str(out, " mdeg, orb ");
        push_decimal(out, self.orb_millidegrees as u64);
        push_str(out, ")");
        assert(out@ =~= old(out)@ + self.line());
    }
}

impl CardLine for Candidate {
    open spec fn line(&self) -> Seq<char> {
        self.title@ + " ("@ + decimal(self.base_weight as nat) + ")"@
    }

    fn push_line(&self, out: &mut String) {
        push_str(out, self.title.as_str());
        push_str(out, " (");
        push_decimal(out, self.base_weight);
        push_str(out, ")");
        assert(out@ =~= old(out)@ + self.line());
    }
}

impl CardLine for (String, String) {
    open spec fn line(&self) -> Seq<char> {
        self.0@ + ": "@ + self.1@
    }

    fn push_line(&self, out: &mut String) {
        push_str(out, self.0.as_str());
        push_str(out, ": ");
        push_str(out, self.1.as_str());
        assert(out@ =~= old(out)@ + self.line());
    }
}

pub open spec fn lines<T: CardLine>(v: Seq<T>) -> Seq<Seq<char>> {
    v.map_values(|t: T| t.line())
}

/// The items of a list, each on its line, with `sep` between each two.
fn joined_lines<T: CardLine>(v: &Vec<T>, sep: &str) -> (r: String)
    ensures
        r@ == joined(lines(v@), sep@),
{
    let ghost items = lines(v@);
    let mut out = String::new();
    let mut i: usize = 0;
    assert(items.take(0) =~= Seq::<Seq<char>>::empty());
    while i < v.len()
        invariant
            i <= v@.len(),
            items == lines(v@),
            out@ == joined(items.take(i as int), sep@),
        decreases v@.len() - i,
    {
        proof {
            lemma_joined_step(items, sep@, i as int);
        }
        if i > 0 {
            push_str(&mut out, sep);
        }
        let ghost before = out@;
        v[i].push_line(&mut out);
        assert(out@ =~= joined(items.take(i as int + 1), sep@));
        i += 1;
    }
    assert(items.take(v@.len() as int) =~= items);
    out
}

/// A selection mode as its card shows it: its name in lowercase.
pub open spec fn mode_name(m: SelectionMode) -> Seq<char> {
    match m {
        SelectionMode::Calculated => "calculated"@,
        SelectionMode::Cast => "cast"@,
        SelectionMode::Derived => "derived"@,
    }
}

fn mode_str(m: SelectionMode) -> (r: &'static str)
    ensures
        r@ == mode_name(m),
{
    match m {
        SelectionMode::Calculated => "calculated",
        SelectionMode::Cast => "cast",
        SelectionMode::Derived => "derived",
    }
}

pub open spec fn presentations(r: Reading) -> Seq<Seq<char>> {
    r.receipt.enrichment->0.evidence.sources@.map_values(|s: crate::enrichment::EnrichmentSource| s.presentation@)
}

/// What a reading's card shows after its address: mode, system,
/// interpretation, weights and sample, then the evidence it was qualified
/// with, if any.
pub open spec fn reading_values(r: Reading) -> Seq<(Seq<char>, Seq<char>)> {
    seq![
        ("Mode"@, mode_name(r.receipt.mode)),
        ("System"@, r.system@),
        ("Interpretation"@, r.interpretation@),
        ("Weights"@, debug_u64s(r.receipt.qualified_weights@)),
        ("Sample"@, match r.receipt.sample {
            None => "not used"@,
            Some(n) => decimal(n as nat),
        }),
    ] + match r.receipt.enrichment {
        None => seq![],
        Some(q) => seq![
            ("External source"@, q.evidence.endpoint_label@ + " / "@ + q.evidence.projection_label@),
            ("Evidence digest"@, q.evidence.evidence_digest@),
            ("Evidence cards"@, joined(presentations(r), "; "@)),
            ("External matches"@, debug_text_lists(text_lists(q.candidate_terms@))),
            ("External additions"@, debug_u64s(q.weight_additions@)),
        ],
    }
}

pub open spec fn recorded_at(ms: u64) -> Seq<char> {
    decimal(ms as nat) + " ms since Unix epoch"@
}

pub const CONCURRENCE_CLAIM: &'static str = "Consulted together; no causal or interpretive relation asserted";

/// What a card shows for its record, after the node's address.
pub open spec fn record_values(record: CardRecord) -> Seq<(Seq<char>, Seq<char>)> {
    match record {
        CardRecord::Reading(r) => reading_values(r),
        CardRecord::Session { session, client_token } => seq![
            ("Recorded at"@, recorded_at(session.created_at_ms)),
            ("Placements"@, joined(lines(session.placements@), "; "@)),
            ("Client token"@, match client_token {
                None => "not supplied"@,
                Some(t) => t@,
            }),
        ],
        CardRecord::ThreeCardSpread(spread) => seq![
            ("Session"@, spread.session_id@),
            ("Placements"@, joined(lines(spread.placements@), "; "@)),
            ("Relationships"@, joined(lines(spread.relations@), "; "@)),
        ],
        CardRecord::Reflection { created_at_ms, session_id, body } => seq![
            ("Recorded at"@, recorded_at(created_at_ms)),
            ("Session"@, session_id@),
            ("Reflection"@, body@),
        ],
        CardRecord::Concurrence { label, created_at_ms, members } => seq![
            ("Label"@, label@),
            ("Recorded at"@, recorded_at(created_at_ms)),
            ("Members"@, joined(lines(members@), "; "@)),
            ("Claim"@, CONCURRENCE_CLAIM@),
        ],
        CardRecord::AstrologyChart { digest, algorithm, engine, ephemeris, moment, positions } => seq![
            ("Digest"@, digest@),
            ("Algorithm"@, algorithm@),
            ("Engine"@, engine@),
            ("Ephemeris"@, ephemeris@),
            ("Moment"@, moment@),
            ("Positions"@, joined(lines(positions@), "; "@)),
        ],
        CardRecord::AstrologyFacts { digest, chart_digest, algorithm, orb_millidegrees, placements, aspects } => seq![
            ("Digest"@, digest@),
            ("Chart"@, chart_digest@),
            ("Algorithm"@, algorithm@),
            ("Orb"@, decimal(orb_millidegrees as nat) + " millidegrees"@),
            ("Placements"@, joined(lines(placements@), "; "@)),
            ("Aspects"@, joined(lines(aspects@), "; "@)),
        ],
        CardRecord::Field(f) => seq![
            ("Digest"@, digest_of(f.identity_text())),
            ("System"@, f.system@),
            ("Rules"@, f.rules@),
            ("Candidates"@, joined(lines(f.candidates@), "; "@)),
        ],
        CardRecord::Context(c) => seq![
            ("Schema"@, c.schema@),
            ("Facts"@, joined(lines(c.facts@), "; "@)),
        ],
        CardRecord::Other => seq![],
    }
}

/// Every value a card shows: the node's address, then its record's values.
pub open spec fn card_value_views(address: Seq<char>, record: CardRecord) -> Seq<(Seq<char>, Seq<char>)> {
    seq![("Address"@, address)] + record_values(record)
}

fn card_value(label: &str, value: String) -> (c: CardValue)
    ensures
        c.label@ == label@,
        c.value@ == value@,
{
    let mut l = String::new();
    push_str(&mut l, label);
    CardValue { label: l, value }
}

fn text(s: &str) -> (r: String)
    ensures
        r@ == s@,
{
    let mut out = String::new();
    push_str(&mut out, s);
    out
}

fn decimal_text(n: u64) -> (r: String)
    ensures
        r@ == decimal(n as nat),
{
    let mut out = String::new();
    push_decimal(&mut out, n);
    out
}

fn recorded_at_text(ms: u64) -> (r: String)
    ensures
        r@ == recorded_at(ms),
{
    let mut out = String::new();
    push_decimal(&mut out, ms);
    push_str(&mut out, " ms since Unix epoch");
    out
}

fn reading_card_values(values: &mut Vec<CardValue>, r: &Reading)
    ensures
        card_views(final(values)@) == card_views(old(values)@) + reading_values(*r),
{
    let ghost start = card_views(values@);
    values.push(card_value("Mode", text(mode_str(r.receipt.mode))));
    values.push(card_value("System", text(r.system.as_str())));
    values.push(card_value("Interpretation", text(r.interpretation.as_str())));
    let mut weights = String::new();
    push_debug_u64s(&mut weights, &r.receipt.qualified_weights);
    values.push(card_value("Weights", weights));
    let sample = match r.receipt.sample {
        None => text("not used"),
        Some(n) => decimal_text(n),
    };
    values.push(card_value("Sample", sample));
    match &r.receipt.enrichment {
        None => {},
        Some(q) => {
            let mut source = text(q.evidence.endpoint_label.as_str());
            push_str(&mut source, " / ");
            push_str(&mut source, q.evidence.projection_label.as_str());
            values.push(card_value("External source", source));
            values.push(card_value("Evidence digest", text(q.evidence.evidence_digest.as_str())));
            let ghost ps = presentations(*r);
            let sources = &q.evidence.sources;
            let mut cards = String::new();
            let mut i: usize = 0;
            assert(ps.take(0) =~= Seq::<Seq<char>>::empty());
            while i < sources.len()
                invariant
                    i <= sources@.len(),
                    ps == sources@.map_values(|s: crate::enrichment::EnrichmentSource| s.presentation@),
                    cards@ == joined(ps.take(i as int), "; "@),
                decreases sources@.len() - i,
            {
                proof {
                    lemma_joined_step(ps, "; "@, i as int);
                }
                if i > 0 {
                    push_str(&mut cards, "; ");
                }
                push_str(&mut cards, sources[i].presentation.as_str());
                assert(cards@ =~= joined(ps.take(i as int + 1), "; "@));
                i += 1;
            }
            assert(ps.take(sources@.len() as int) =~= ps);
            values.push(card_value("Evidence cards", cards));
            let mut matches = String::new();
            push_debug_text_lists(&mut matches, &q.candidate_terms);
            values.push(card_value("External matches", matches));
            let mut additions = String::new();
            push_debug_u64s(&mut additions, &q.weight_additions);
            values.push(card_value("External additions", additions));
        },
    }
    assert(card_views(values@) =~= start + reading_values(*r));
}

/// Every text is no greater than the next.
pub open spec fn lex_sorted(s: Seq<Seq<char>>) -> bool {
    forall|i: int, j: int| 0 <= i < j < s.len() ==> lex_le(#[trigger] s[i], #[trigger] s[j])
}

proof fn lemma_lex_le_chain(a: Seq<char>, b: Seq<char>, c: Seq<char>)
    ensures
        lex_le(a, b) && lex_le(b, c) ==> lex_le(a, c),
        lex_le(a, b) || lex_lt(b, a),
        lex_lt(b, a) ==> !lex_le(a, b),
{
    lemma_lex_total(a, b);
    lemma_lex_asymmetric(a, b);
    lemma_lex_asymmetric(b, a);
    lemma_lex_irreflexive(a);
    if lex_lt(a, b) && lex_lt(b, c) {
        lemma_lex_transitive(a, b, c);
    }
}

/// The texts in lexicographic order, equal texts kept in their given order.
fn sorted_texts(ts: &[String]) -> (r: Vec<String>)
    ensures
        lex_sorted(views(r@)),
        views(r@).to_multiset() == views(ts@).to_multiset(),
{
    broadcast use vstd::seq_lib::group_to_multiset_ensures;

    let mut out: Vec<String> = Vec::new();
    let mut i: usize = 0;
    assert(views(ts@).take(0) =~= Seq::<Seq<char>>::empty());
    assert(views(out@) =~= Seq::<Seq<char>>::empty());
    while i < ts.len()
        invariant
            i <= ts@.len(),
            lex_sorted(views(out@)),
            views(out@).to_multiset() == views(ts@).take(i as int).to_multiset(),
        decreases ts@.len() - i,
    {
        let x = text(ts[i].as_str());
        let ghost xv = x@;
        let ghost ov = views(out@);
        let mut k: usize = 0;
        let mut found = false;
        while k < out.len() && !found
            invariant
                k <= out@.len(),
                ov == views(out@),
                xv == x@,
                forall|j: int| 0 <= j < k ==> lex_le(#[trigger] ov[j], xv),
                found ==> k < out@.len() && lex_lt(xv, ov[k as int]),
            decreases out@.len() - k + if found { 0int } else { 1int },
        {
            match compare_str(out[k].as_str(), x.as_str()) {
                Order::Greater => {
                    found = true;
                },
                _ => {
                    k += 1;
                },
            }
        }
        proof {
            let nv = ov.insert(k as int, xv);
            if k < ov.len() {
                assert(lex_lt(xv, ov[k as int]));
            }
            assert forall|a: int, b: int| 0 <= a < b < nv.len() implies lex_le(#[trigger] nv[a], #[trigger] nv[b]) by {
                if b < k {
                    assert(nv[a] == ov[a] && nv[b] == ov[b]);
                } else if b == k {
                    assert(nv[a] == ov[a]);
                } else if a < k {
                    assert(nv[a] == ov[a] && nv[b] == ov[b - 1]);
                    lemma_lex_le_chain(xv, ov[k as int], ov[b - 1]);
                    if b - 1 > k {
                        assert(lex_le(ov[k as int], ov[b - 1]));
                    }
                    lemma_lex_le_chain(ov[a], xv, ov[b - 1]);
                } else if a == k {
                    assert(nv[b] == ov[b - 1]);
                    lemma_lex_le_chain(xv, ov[k as int], ov[b - 1]);
                    if b - 1 > k {
                        assert(lex_le(ov[k as int], ov[b - 1]));
                    }
                } else {
                    assert(nv[a] == ov[a - 1] && nv[b] == ov[b - 1]);
                }
            }
            assert(views(ts@).take(i as int + 1) =~= views(ts@).take(i as int).push(xv));
        }
        out.insert(k, x);
        assert(views(out@) =~= ov.insert(k as int, xv));
        proof {
            vstd::seq_lib::to_multiset_insert(ov, k as int, xv);
            vstd::seq_lib::to_multiset_build(views(ts@).take(i as int), xv);
        }
        i += 1;
    }
    assert(views(ts@).take(ts@.len() as int) =~= views(ts@));
    out
}

/// The card of a node: its title, its address and its record's values, and
/// its tags, sorted, as badges.
pub fn card_values(title: &str, address: &str, tags: &[String], record: &CardRecord) -> (r: PortableCard)
    ensures
        r.title@ == title@,
        card_views(r.values@) == card_value_views(address@, *record),
        lex_sorted(views(r.badges@)),
        views(r.badges@).to_multiset() == views(tags@).to_multiset(),
{
    let mut values: Vec<CardValue> = Vec::new();
    values.push(card_value("Address", text(address)));
    let ghost head = card_views(values@);
    assert(head =~= seq![("Address"@, address@)]);
    match record {
        CardRecord::Reading(r) => {
            reading_card_values(&mut values, r);
        },
        CardRecord::Session { session, client_token } => {
            values.push(card_value("Recorded at", recorded_at_text(session.created_at_ms)));
            values.push(card_value("Placements", joined_lines(&session.placements, "; ")));
            let token = match client_token {
                None => text("not supplied"),
                Some(t) => text(t.as_str()),
            };
            values.push(card_value("Client token", token));
        },
        CardRecord::ThreeCardSpread(spread) => {
            values.push(card_value("Session", text(spread.session_id.as_str())));
            values.push(card_value("Placements", joined_lines(&spread.placements, "; ")));
            values.push(card_value("Relationships", joined_lines(&spread.relations, "; ")));
        },
        CardRecord::Reflection { created_at_ms, session_id, body } => {
            values.push(card_value("Recorded at", recorded_at_text(*created_at_ms)));
            values.push(card_value("Session", text(session_id.as_str())));
            values.push(card_value("Reflection", text(body.as_str())));
        },
        CardRecord::Concurrence { label, created_at_ms, members } => {
            values.push(card_value("Label", text(label.as_str())));
            values.push(card_value("Recorded at", recorded_at_text(*created_at_ms)));
            values.push(card_value("Members", joined_lines(members, "; ")));
            values.push(card_value("Claim", text(CONCURRENCE_CLAIM)));
        },
        CardRecord::AstrologyChart { digest, algorithm, engine, ephemeris, moment, positions } => {
            values.push(card_value("Digest", text(digest.as_str())));
            values.push(card_value("Algorithm", text(algorithm.as_str())));
            values.push(card_value("Engine", text(engine.as_str())));
            values.push(card_value("Ephemeris", text(ephemeris.as_str())));
            values.push(card_value("Moment", text(moment.as_str())));
            values.push(card_value("Positions", joined_lines(positions, "; ")));
        },
        CardRecord::AstrologyFacts { digest, chart_digest, algorithm, orb_millidegrees, placements, aspects } => {
            values.push(card_value("Digest", text(digest.as_str())));
            values.push(card_value("Chart", text(chart_digest.as_str())));
            values.push(card_value("Algorithm", text(algorithm.as_str())));
            let mut orb = decimal_text(*orb_millidegrees as u64);
            push_str(&mut orb, " millidegrees");
            values.push(card_value("Orb", orb));
            values.push(card_value("Placements", joined_lines(placements, "; ")));
            values.push(card_value("Aspects", joined_lines(aspects, "; ")));
        },
        CardRecord::Field(f) => {
            values.push(card_value("Digest", f.digest()));
            values.push(card_value("System", text(f.system.as_str())));
            values.push(card_value("Rules", text(f.rules.as_str())));
            values.push(card_value("Candidates", joined_lines(&f.candidates, "; ")));
        },
        CardRecord::Context(c) => {
            values.push(card_value("Schema", text(c.schema.as_str())));
            values.push(card_value("Facts", joined_lines(&c.facts, "; ")));
        },
        CardRecord::Other => {},
    }
    assert(card_views(values@) =~= card_value_views(address@, *record));
    let badges = sorted_texts(tags);
    PortableCard { title: text(title), values, badges }
}

} // verus!
