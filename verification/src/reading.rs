//! Sealed readings: selection modes, receipts, and derived selections.

use vstd::prelude::*;

use vstd::utf8::encode_utf8;

use crate::context::{
    ContextSnapshot, Field, CONTEXTUAL_WEIGHT_RULE, EXTERNAL_TERM_WEIGHT_RULE, UNIFORM_DIE_RULE,
    UNIFORM_RULE,
};
use crate::digest::{blake3_bytes, blake3_hash, digest_of, hex_string};
use crate::text::hex;
use crate::enrichment::{source_view, source_views, SealedEnrichment, SourceView, EnrichmentSource, EnrichmentValue, value_views};
use crate::order::views;
use crate::text::{byte_len, copy_str, str_byte_len, str_eq, trim, trim_str};

verus! {

pub const EXTERNAL_QUALIFICATION_ALGORITHM: &'static str =
    "cleromancy.qualification/external-term-share/v1";

pub const DERIVED_SELECTION_SCHEMA: &'static str = "cleromancy.derived-selection/v1";

pub const DERIVED_SELECTION_ALGORITHM: &'static str =
    "cleromancy.derived-selection/blake3-u64-rejection/v1";

pub const MAX_DERIVATION_SEED_BYTES: usize = 4096;

pub const MAX_DERIVATION_DOMAIN_BYTES: usize = 256;

/// Whether a reading follows the declared qualifier to its maximum, casts
/// within the same qualified field, or derives a public replayable selection.
#[derive(Clone, Copy, Debug, PartialEq, Eq, Structural)]
pub enum SelectionMode {
    Calculated,
    Cast,
    Derived,
}

/// Public inputs to a deterministic selection.
#[derive(Clone, Debug, PartialEq, Eq)]
pub struct DerivedSelection {
    pub schema: String,
    pub algorithm: String,
    pub seed: String,
    pub domain: String,
}

/// The sealed source snapshot and every derived addition used to qualify the
/// candidate field.
#[derive(Clone, Debug, PartialEq, Eq)]
pub struct EnrichmentQualification {
    pub schema: String,
    pub algorithm: String,
    pub evidence: SealedEnrichment,
    pub report_digest: String,
    pub candidate_terms: Vec<Vec<String>>,
    pub weight_additions: Vec<u64>,
}

/// The complete, replayable calculation disclosed beside a reading.
#[derive(Clone, Debug, PartialEq, Eq)]
pub struct Receipt {
    pub schema: String,
    pub mode: SelectionMode,
    pub algorithm: String,
    pub context_digest: String,
    pub field_digest: String,
    pub enrichment: Option<EnrichmentQualification>,
    pub derivation: Option<DerivedSelection>,
    pub derivation_digest: Option<String>,
    pub qualified_weights: Vec<u64>,
    pub total_weight: u64,
    pub sample: Option<u64>,
    pub event_nonce: Option<String>,
    pub selected_index: usize,
    pub selected_candidate: String,
}

/// A sealed result plus the evidence needed to audit it.
#[derive(Clone, Debug, PartialEq, Eq)]
pub struct Reading {
    pub schema: String,
    pub id: String,
    pub system: String,
    pub candidate_id: String,
    pub title: String,
    pub interpretation: String,
    pub receipt: Receipt,
}

#[derive(Clone, Debug, PartialEq, Eq)]
pub enum ReadingError {
    EmptyField,
    EmptyWeight,
    InvalidCandidate(String),
    UnsupportedRule(String),
    QualificationEvidenceRequired(String),
    NonUniformCandidate { candidate: String, weight: u64 },
    QualificationRequiresCast(String),
    WeightOverflow,
    Entropy(String),
    InvalidSample { sample: u64, upper: u64 },
    ReceiptMismatch(String),
    InvalidEnrichment(String),
    InvalidDerivation(String),
    DerivedSelectionExhausted,
}

/// The first problem with a derived selection's declared inputs, if any.
pub open spec fn derivation_problem(
    schema: Seq<char>,
    algorithm: Seq<char>,
    seed: Seq<char>,
    domain: Seq<char>,
) -> Option<Seq<char>> {
    if schema != DERIVED_SELECTION_SCHEMA@ {
        Some("selection schema does not match the contract"@)
    } else if algorithm != DERIVED_SELECTION_ALGORITHM@ {
        Some("selection algorithm does not match the contract"@)
    } else if trim(seed).len() == 0 || byte_len(seed) > MAX_DERIVATION_SEED_BYTES {
        Some("seed must contain 1 to 4096 bytes"@)
    } else if trim(domain).len() == 0 || byte_len(domain) > MAX_DERIVATION_DOMAIN_BYTES {
        Some("domain must contain 1 to 256 bytes"@)
    } else {
        None
    }
}

/// An error that carries exactly the given explanation.
pub open spec fn is_invalid_derivation(e: ReadingError, message: Seq<char>) -> bool {
    e matches ReadingError::InvalidDerivation(m) && m@ == message
}

impl DerivedSelection {
    pub open spec fn problem(&self) -> Option<Seq<char>> {
        derivation_problem(self.schema@, self.algorithm@, self.seed@, self.domain@)
    }

    /// A selection under the current schema and algorithm, refused unless
    /// its seed and domain are within bounds.
    pub fn new(seed: &str, domain: &str) -> (r: Result<Self, ReadingError>)
        ensures
            match derivation_problem(DERIVED_SELECTION_SCHEMA@, DERIVED_SELECTION_ALGORITHM@, seed@, domain@) {
                None => r matches Ok(s) && s.schema@ == DERIVED_SELECTION_SCHEMA@
                    && s.algorithm@ == DERIVED_SELECTION_ALGORITHM@ && s.seed@ == seed@
                    && s.domain@ == domain@,
                Some(m) => r matches Err(e) && is_invalid_derivation(e, m),
            },
    {
        let selection = DerivedSelection {
            schema: copy_str(DERIVED_SELECTION_SCHEMA),
            algorithm: copy_str(DERIVED_SELECTION_ALGORITHM),
            seed: copy_str(seed),
            domain: copy_str(domain),
        };
        match selection.validate() {
            Ok(()) => Ok(selection),
            Err(e) => Err(e),
        }
    }

    /// Checks the schema, the algorithm, and the seed and domain bounds.
    pub fn validate(&self) -> (r: Result<(), ReadingError>)
        ensures
            match self.problem() {
                None => r is Ok,
                Some(m) => r matches Err(e) && is_invalid_derivation(e, m),
            },
    {
        if !str_eq(self.schema.as_str(), DERIVED_SELECTION_SCHEMA) {
            return Err(
                ReadingError::InvalidDerivation(
                    copy_str("selection schema does not match the contract"),
                ),
            );
        }
        if !str_eq(self.algorithm.as_str(), DERIVED_SELECTION_ALGORITHM) {
            return Err(
                ReadingError::InvalidDerivation(
                    copy_str("selection algorithm does not match the contract"),
                ),
            );
        }
        let seed = trim_str(self.seed.as_str());
        if seed.as_str().is_empty() || str_byte_len(self.seed.as_str())
            > MAX_DERIVATION_SEED_BYTES {
            return Err(
                ReadingError::InvalidDerivation(copy_str("seed must contain 1 to 4096 bytes")),
            );
        }
        let domain = trim_str(self.domain.as_str());
        if domain.as_str().is_empty() || str_byte_len(self.domain.as_str())
            > MAX_DERIVATION_DOMAIN_BYTES {
            return Err(
                ReadingError::InvalidDerivation(copy_str("domain must contain 1 to 256 bytes")),
            );
        }
        Ok(())
    }
}

/// The receipt schema for an enriched and/or derived reading.
pub open spec fn spec_receipt_schema(enriched: bool, derived: bool) -> Seq<char> {
    if !enriched && !derived {
        "cleromancy.receipt/v1"@
    } else if enriched && !derived {
        "cleromancy.receipt/v2"@
    } else if !enriched && derived {
        "cleromancy.receipt/v3"@
    } else {
        "cleromancy.receipt/v4"@
    }
}

/// The receipt schema for an enriched and/or derived reading.
pub fn receipt_schema(enriched: bool, derived: bool) -> (r: &'static str)
    ensures
        r@ == spec_receipt_schema(enriched, derived),
{
    if !enriched && !derived {
        "cleromancy.receipt/v1"
    } else if enriched && !derived {
        "cleromancy.receipt/v2"
    } else if !enriched && derived {
        "cleromancy.receipt/v3"
    } else {
        "cleromancy.receipt/v4"
    }
}

/// The selection algorithm disclosed for a rule, mode and evidence setting,
/// for exactly the combinations a qualification can succeed on.
pub open spec fn spec_receipt_algorithm(rules: Seq<char>, mode: SelectionMode, enriched: bool) -> Option<Seq<char>> {
    if rules == CONTEXTUAL_WEIGHT_RULE@ && !enriched {
        match mode {
            SelectionMode::Calculated => Some("contextual-weight/max/v1"@),
            SelectionMode::Cast => Some("os-csprng/rejection-u64+contextual-weight/v1"@),
            SelectionMode::Derived => Some("derived-blake3/rejection-u64+contextual-weight/v1"@),
        }
    } else if rules == UNIFORM_RULE@ && !enriched {
        match mode {
            SelectionMode::Calculated => None,
            SelectionMode::Cast => Some("os-csprng/rejection-u64+uniform/v1"@),
            SelectionMode::Derived => Some("derived-blake3/rejection-u64+uniform/v1"@),
        }
    } else if rules == UNIFORM_DIE_RULE@ && !enriched {
        match mode {
            SelectionMode::Calculated => None,
            SelectionMode::Cast => Some("os-csprng/rejection-u64+uniform-die/v1"@),
            SelectionMode::Derived => Some("derived-blake3/rejection-u64+uniform-die/v1"@),
        }
    } else if rules == EXTERNAL_TERM_WEIGHT_RULE@ && enriched {
        match mode {
            SelectionMode::Calculated => Some("contextual-weight+external-term-share/max/v1"@),
            SelectionMode::Cast => Some(
                "os-csprng/rejection-u64+contextual-weight+external-term-share/v1"@,
            ),
            SelectionMode::Derived => Some(
                "derived-blake3/rejection-u64+contextual-weight+external-term-share/v1"@,
            ),
        }
    } else {
        None
    }
}

/// The selection algorithm disclosed for a supported rule, mode and evidence
/// setting.
pub fn receipt_algorithm(rules: &str, mode: SelectionMode, enriched: bool) -> (r: &'static str)
    requires
        spec_receipt_algorithm(rules@, mode, enriched) is Some,
    ensures
        spec_receipt_algorithm(rules@, mode, enriched) == Some(r@),
{
    if str_eq(rules, CONTEXTUAL_WEIGHT_RULE) && !enriched {
        match mode {
            SelectionMode::Calculated => "contextual-weight/max/v1",
            SelectionMode::Cast => "os-csprng/rejection-u64+contextual-weight/v1",
            SelectionMode::Derived => "derived-blake3/rejection-u64+contextual-weight/v1",
        }
    } else if str_eq(rules, UNIFORM_RULE) && !enriched {
        match mode {
            SelectionMode::Cast => "os-csprng/rejection-u64+uniform/v1",
            _ => "derived-blake3/rejection-u64+uniform/v1",
        }
    } else if str_eq(rules, UNIFORM_DIE_RULE) && !enriched {
        match mode {
            SelectionMode::Cast => "os-csprng/rejection-u64+uniform-die/v1",
            _ => "derived-blake3/rejection-u64+uniform-die/v1",
        }
    } else {
        match mode {
            SelectionMode::Calculated => "contextual-weight+external-term-share/max/v1",
            SelectionMode::Cast => "os-csprng/rejection-u64+contextual-weight+external-term-share/v1",
            SelectionMode::Derived => "derived-blake3/rejection-u64+contextual-weight+external-term-share/v1",
        }
    }
}

/// Refuses a deterministic reading under a rule that only permits casting.
pub fn require_calculable(rules: &str) -> (r: Result<(), ReadingError>)
    ensures
        (rules@ == UNIFORM_RULE@ || rules@ == UNIFORM_DIE_RULE@) ==> (r matches Err(
            ReadingError::QualificationRequiresCast(m),
        ) && m@ == rules@),
        !(rules@ == UNIFORM_RULE@ || rules@ == UNIFORM_DIE_RULE@) ==> r is Ok,
{
    if str_eq(rules, UNIFORM_RULE) || str_eq(rules, UNIFORM_DIE_RULE) {
        Err(ReadingError::QualificationRequiresCast(copy_str(rules)))
    } else {
        Ok(())
    }
}

/// A receipt consistency check: `Ok` when it holds, otherwise a mismatch
/// naming the receipt field.
pub fn check(condition: bool, field: &str) -> (r: Result<(), ReadingError>)
    ensures
        condition ==> r is Ok,
        !condition ==> (r matches Err(ReadingError::ReceiptMismatch(m)) && m@ == field@),
{
    if condition {
        Ok(())
    } else {
        Err(ReadingError::ReceiptMismatch(copy_str(field)))
    }
}

/// How a result was selected: its mode and the values disclosed with it.
pub struct SelectionProof {
    pub mode: SelectionMode,
    pub sample: Option<u64>,
    pub event_nonce: Option<String>,
    pub derivation: Option<DerivedSelection>,
    pub derivation_digest: Option<String>,
}

impl SelectionProof {
    pub fn calculated() -> (r: Self)
        ensures
            r.mode == SelectionMode::Calculated,
            r.sample is None,
            r.event_nonce is None,
            r.derivation is None,
            r.derivation_digest is None,
    {
        SelectionProof {
            mode: SelectionMode::Calculated,
            sample: None,
            event_nonce: None,
            derivation: None,
            derivation_digest: None,
        }
    }

    pub fn cast(sample: u64, event_nonce: String) -> (r: Self)
        ensures
            r.mode == SelectionMode::Cast,
            r.sample == Some(sample),
            r.event_nonce == Some(event_nonce),
            r.derivation is None,
            r.derivation_digest is None,
    {
        SelectionProof {
            mode: SelectionMode::Cast,
            sample: Some(sample),
            event_nonce: Some(event_nonce),
            derivation: None,
            derivation_digest: None,
        }
    }

    pub fn derived(sample: u64, digest: String, selection: DerivedSelection) -> (r: Self)
        ensures
            r.mode == SelectionMode::Derived,
            r.sample == Some(sample),
            r.event_nonce is None,
            r.derivation == Some(selection),
            r.derivation_digest == Some(digest),
    {
        SelectionProof {
            mode: SelectionMode::Derived,
            sample: Some(sample),
            event_nonce: None,
            derivation: Some(selection),
            derivation_digest: Some(digest),
        }
    }
}


// ---------------------------------------------------------------------------
// Qualified fields and derived draws
// ---------------------------------------------------------------------------

/// The apportioned weight of every candidate of a field, and their total.
#[derive(Clone, Debug, PartialEq, Eq)]
pub struct QualifiedField {
    pub weights: Vec<u64>,
    pub total: u64,
}

/// A derived sample below the qualified total, and the digest of the hash
/// that produced it.
#[derive(Clone, Debug, PartialEq, Eq)]
pub struct DerivedDraw {
    pub sample: u64,
    pub digest: String,
}

/// The `k` low bytes of `n`, least significant first.
pub open spec fn le_bytes(n: nat, k: nat) -> Seq<u8>
    decreases k,
{
    if k == 0 {
        seq![]
    } else {
        seq![(n % 256) as u8] + le_bytes(n / 256, (k - 1) as nat)
    }
}

/// The unsigned value of little-endian bytes.
pub open spec fn le_value(b: Seq<u8>) -> nat
    decreases b.len(),
{
    if b.len() == 0 {
        0
    } else {
        b[0] as nat + 256 * le_value(b.drop_first())
    }
}

/// A hashed component: its length as eight little-endian bytes, then the
/// bytes.
pub open spec fn component(b: Seq<u8>) -> Seq<u8> {
    le_bytes(b.len(), 8) + b
}

pub open spec fn weight_components(ws: Seq<u64>) -> Seq<u8>
    decreases ws.len(),
{
    if ws.len() == 0 {
        seq![]
    } else {
        weight_components(ws.drop_last()) + component(le_bytes(ws.last() as nat, 8))
    }
}

/// The bytes hashed for one attempt of a derived draw: the algorithm name,
/// then the seed, domain, context digest, field digest, the number of
/// weights, each weight, the total and the attempt counter, each as a
/// length-prefixed component.
pub open spec fn draw_message(
    seed: Seq<char>,
    domain: Seq<char>,
    context_digest: Seq<char>,
    field_digest: Seq<char>,
    weights: Seq<u64>,
    total: u64,
    attempt: u64,
) -> Seq<u8> {
    encode_utf8(DERIVED_SELECTION_ALGORITHM@) + component(encode_utf8(seed)) + component(
        encode_utf8(domain),
    ) + component(encode_utf8(context_digest)) + component(encode_utf8(field_digest)) + component(
        le_bytes(weights.len(), 8),
    ) + weight_components(weights) + component(le_bytes(total as nat, 8)) + component(
        le_bytes(attempt as nat, 8),
    )
}

/// The 64-bit number the first eight hash bytes of an attempt give.
pub open spec fn draw_raw(msg: Seq<u8>) -> nat {
    le_value(blake3_hash(msg).take(8))
}

/// The largest multiple of `total` that fits a `u64`: raw values below it
/// are accepted without bias.
pub open spec fn draw_limit(total: u64) -> int {
    u64::MAX as int - (u64::MAX as int % (total as int))
}

pub proof fn lemma_le_value_bound(b: Seq<u8>)
    ensures
        le_value(b) < pow256(b.len()),
    decreases b.len(),
{
    if b.len() > 0 {
        lemma_le_value_bound(b.drop_first());
        assert(le_value(b) <= 255 + 256 * (pow256(b.drop_first().len()) - 1))
            by (nonlinear_arith)
            requires
                le_value(b) == b[0] as nat + 256 * le_value(b.drop_first()),
                b[0] <= 255,
                le_value(b.drop_first()) < pow256(b.drop_first().len()),
        ;
    }
}

pub proof fn lemma_pow256_8()
    ensures
        pow256(8) == 0x1_0000_0000_0000_0000,
{
    reveal_with_fuel(pow256, 9);
}

/// Powers of 256.
pub open spec fn pow256(k: nat) -> nat
    decreases k,
{
    if k == 0 {
        1
    } else {
        256 * pow256((k - 1) as nat)
    }
}

pub proof fn lemma_pow256_monotone(a: nat, b: nat)
    requires
        a <= b,
    ensures
        pow256(a) <= pow256(b),
    decreases b,
{
    if a < b {
        lemma_pow256_monotone(a, (b - 1) as nat);
    }
}

fn push_bytes(out: &mut Vec<u8>, bytes: &[u8])
    ensures
        final(out)@ == old(out)@ + bytes@,
{
    let mut i: usize = 0;
    while i < bytes.len()
        invariant
            i <= bytes@.len(),
            out@ == old(out)@ + bytes@.take(i as int),
        decreases bytes@.len() - i,
    {
        out.push(bytes[i]);
        assert(bytes@.take(i as int + 1) =~= bytes@.take(i as int).push(bytes@[i as int]));
        i += 1;
    }
    assert(bytes@.take(bytes@.len() as int) =~= bytes@);
}

fn push_le64(out: &mut Vec<u8>, n: u64)
    ensures
        final(out)@ == old(out)@ + le_bytes(n as nat, 8),
{
    let mut m: u64 = n;
    let mut k: usize = 0;
    while k < 8
        invariant
            k <= 8,
            out@ + le_bytes(m as nat, (8 - k) as nat) == old(out)@ + le_bytes(n as nat, 8),
        decreases 8 - k,
    {
        let ghost before = out@;
        out.push((m % 256) as u8);
        assert(le_bytes(m as nat, (8 - k) as nat) == seq![(m % 256) as u8] + le_bytes(
            (m / 256) as nat,
            (8 - k - 1) as nat,
        ));
        assert(out@ + le_bytes((m / 256) as nat, (8 - k - 1) as nat) =~= before + le_bytes(
            m as nat,
            (8 - k) as nat,
        ));
        m = m / 256;
        k += 1;
    }
    assert(le_bytes(m as nat, 0) =~= Seq::<u8>::empty());
    assert(out@ =~= old(out)@ + le_bytes(n as nat, 8));
}

fn push_component(out: &mut Vec<u8>, bytes: &[u8])
    ensures
        final(out)@ == old(out)@ + component(bytes@),
{
    push_le64(out, bytes.len() as u64);
    push_bytes(out, bytes);
    assert(out@ =~= old(out)@ + component(bytes@));
}

fn push_number_component(out: &mut Vec<u8>, n: u64)
    ensures
        final(out)@ == old(out)@ + component(le_bytes(n as nat, 8)),
{
    let mut b: Vec<u8> = Vec::new();
    push_le64(&mut b, n);
    assert(b@ =~= le_bytes(n as nat, 8));
    assert(b@.len() == 8) by {
        lemma_le_bytes_len(n as nat, 8);
    }
    push_component(out, b.as_slice());
}

pub proof fn lemma_le_bytes_len(n: nat, k: nat)
    ensures
        le_bytes(n, k).len() == k,
    decreases k,
{
    if k > 0 {
        lemma_le_bytes_len(n / 256, (k - 1) as nat);
    }
}

/// The value of the first eight bytes, least significant first.
fn le_u64(bytes: &Vec<u8>) -> (r: u64)
    requires
        bytes@.len() >= 8,
    ensures
        r == le_value(bytes@.take(8)),
{
    let ghost b = bytes@.take(8);
    let mut v: u64 = 0;
    let mut k: usize = 8;
    proof {
        assert(b.subrange(8, 8) =~= Seq::<u8>::empty());
    }
    while k > 0
        invariant
            k <= 8,
            b == bytes@.take(8),
            bytes@.len() >= 8,
            v == le_value(b.subrange(k as int, 8)),
            le_value(b.subrange(k as int, 8)) < pow256((8 - k) as nat),
        decreases k,
    {
        let ghost tail = b.subrange(k as int, 8);
        let ghost next = b.subrange(k - 1, 8);
        proof {
            assert(next.drop_first() =~= tail);
            assert(next[0] == bytes@[k - 1]);
            lemma_le_value_bound(next);
            assert(next.len() == 8 - k + 1);
            lemma_pow256_monotone(next.len(), 8);
            lemma_pow256_8();
        }
        v = v * 256 + bytes[k - 1] as u64;
        k -= 1;
    }
    assert(b.subrange(0, 8) =~= b);
    v
}

/// The first attempt whose raw value is accepted, if any attempt below the
/// counter's end is.
pub open spec fn accepted_at(
    s: DerivedSelection,
    context_digest: Seq<char>,
    field_digest: Seq<char>,
    weights: Seq<u64>,
    total: u64,
    a: u64,
) -> bool {
    &&& a < u64::MAX
    &&& draw_raw(draw_message(s.seed@, s.domain@, context_digest, field_digest, weights, total, a))
        < draw_limit(total)
    &&& forall|b: u64|
        b < a ==> draw_raw(
            #[trigger] draw_message(s.seed@, s.domain@, context_digest, field_digest, weights, total, b),
        ) >= draw_limit(total)
}

/// A derived draw is determined by its inputs: only one attempt can be the
/// first accepted one, so equal inputs give one sample and one digest.
pub proof fn law_derived_draw_is_deterministic(
    s: DerivedSelection,
    context_digest: Seq<char>,
    field_digest: Seq<char>,
    weights: Seq<u64>,
    total: u64,
    a: u64,
    b: u64,
)
    requires
        accepted_at(s, context_digest, field_digest, weights, total, a),
        accepted_at(s, context_digest, field_digest, weights, total, b),
    ensures
        a == b,
{
    if a < b {
        assert(draw_raw(draw_message(s.seed@, s.domain@, context_digest, field_digest, weights, total, a))
            >= draw_limit(total));
    } else if b < a {
        assert(draw_raw(draw_message(s.seed@, s.domain@, context_digest, field_digest, weights, total, b))
            >= draw_limit(total));
    }
}

/// A public, replayable draw below the qualified total: BLAKE3 over the
/// declared inputs and an attempt counter, rejecting raw values at or above
/// the largest multiple of the total so the remainder is unbiased.
pub fn derived_draw(
    context: &ContextSnapshot,
    field: &Field,
    qualified: &QualifiedField,
    selection: &DerivedSelection,
) -> (r: Result<DerivedDraw, ReadingError>)
    ensures
        ({
            let cd = digest_of(context.identity_text());
            let fd = digest_of(field.identity_text());
            let ws = qualified.weights@;
            let t = qualified.total;
            if t == 0 {
                r == Err::<DerivedDraw, ReadingError>(ReadingError::EmptyWeight)
            } else {
                match r {
                    Ok(d) => exists|a: u64|
                        #[trigger] accepted_at(*selection, cd, fd, ws, t, a) && d.sample == draw_raw(
                            draw_message(selection.seed@, selection.domain@, cd, fd, ws, t, a),
                        ) % (t as nat) && d.digest@ == hex(
                            blake3_hash(draw_message(selection.seed@, selection.domain@, cd, fd, ws, t, a)),
                        ),
                    Err(e) => e == ReadingError::DerivedSelectionExhausted && forall|a: u64|
                        a < u64::MAX ==> draw_raw(
                            #[trigger] draw_message(selection.seed@, selection.domain@, cd, fd, ws, t, a),
                        ) >= draw_limit(t),
                }
            }
        }),
        r matches Ok(d) ==> d.sample < qualified.total,
{
    if qualified.total == 0 {
        return Err(ReadingError::EmptyWeight);
    }
    let total = qualified.total;
    let limit = u64::MAX - (u64::MAX % total);
    let context_digest = context.digest();
    let field_digest = field.digest();
    let ghost cd = context_digest@;
    let ghost fd = field_digest@;
    let ghost ws = qualified.weights@;
    let mut prefix: Vec<u8> = Vec::new();
    push_bytes(&mut prefix, DERIVED_SELECTION_ALGORITHM.as_bytes());
    push_component(&mut prefix, selection.seed.as_str().as_bytes());
    push_component(&mut prefix, selection.domain.as_str().as_bytes());
    push_component(&mut prefix, context_digest.as_str().as_bytes());
    push_component(&mut prefix, field_digest.as_str().as_bytes());
    push_number_component(&mut prefix, qualified.weights.len() as u64);
    let ghost head = prefix@;
    let mut i: usize = 0;
    assert(ws.take(0) =~= Seq::<u64>::empty());
    while i < qualified.weights.len()
        invariant
            i <= ws.len(),
            ws == qualified.weights@,
            prefix@ == head + weight_components(ws.take(i as int)),
        decreases ws.len() - i,
    {
        push_number_component(&mut prefix, qualified.weights[i]);
        assert(ws.take(i as int + 1).drop_last() =~= ws.take(i as int));
        i += 1;
    }
    assert(ws.take(ws.len() as int) =~= ws);
    push_number_component(&mut prefix, total);
    let ghost base = prefix@;
    let mut attempt: u64 = 0;
    while attempt < u64::MAX
        invariant
            0 < total,
            total == qualified.total,
            limit == draw_limit(total),
            cd == digest_of(context.identity_text()),
            fd == digest_of(field.identity_text()),
            ws == qualified.weights@,
            base == encode_utf8(DERIVED_SELECTION_ALGORITHM@) + component(encode_utf8(selection.seed@))
                + component(encode_utf8(selection.domain@)) + component(encode_utf8(cd)) + component(
                encode_utf8(fd),
            ) + component(le_bytes(ws.len(), 8)) + weight_components(ws) + component(
                le_bytes(total as nat, 8),
            ),
            prefix@ == base,
            forall|b: u64|
                b < attempt ==> draw_raw(
                    #[trigger] draw_message(selection.seed@, selection.domain@, cd, fd, ws, total, b),
                ) >= draw_limit(total),
        decreases u64::MAX - attempt,
    {
        let mut message = prefix.clone();
        assert(message@ == prefix@);
        push_number_component(&mut message, attempt);
        assert(message@ =~= draw_message(selection.seed@, selection.domain@, cd, fd, ws, total, attempt));
        let hash = blake3_bytes(message.as_slice());
        let raw = le_u64(&hash);
        if raw < limit {
            let digest = hex_string(&hash);
            let ghost msg = draw_message(selection.seed@, selection.domain@, cd, fd, ws, total, attempt);
            assert(raw == draw_raw(msg));
            assert(digest@ == hex(blake3_hash(msg)));
            assert(accepted_at(*selection, cd, fd, ws, total, attempt));
            return Ok(DerivedDraw { sample: raw % total, digest });
        }
        attempt += 1;
    }
    Err(ReadingError::DerivedSelectionExhausted)
}

fn copy_weights(v: &Vec<u64>) -> (r: Vec<u64>)
    ensures
        r@ == v@,
{
    let mut out: Vec<u64> = Vec::new();
    let mut i: usize = 0;
    while i < v.len()
        invariant
            i <= v@.len(),
            out@ == v@.take(i as int),
        decreases v@.len() - i,
    {
        out.push(v[i]);
        assert(v@.take(i as int + 1) =~= v@.take(i as int).push(v@[i as int]));
        i += 1;
    }
    assert(v@.take(v@.len() as int) =~= v@);
    out
}

/// The receipt of a selection: its schema and algorithm for the rule, mode
/// and evidence, the context and field digests, the qualified weights, and
/// the selected candidate with the values its selection disclosed.
pub fn make_receipt(
    context: &ContextSnapshot,
    field: &Field,
    qualified: &QualifiedField,
    index: usize,
    selection: SelectionProof,
    enrichment: Option<EnrichmentQualification>,
) -> (r: Receipt)
    requires
        index < field.candidates@.len(),
        spec_receipt_algorithm(field.rules@, selection.mode, enrichment is Some) is Some,
    ensures
        r.schema@ == spec_receipt_schema(enrichment is Some, selection.derivation is Some),
        Some(r.algorithm@) == spec_receipt_algorithm(field.rules@, selection.mode, enrichment is Some),
        r.mode == selection.mode,
        r.context_digest@ == digest_of(context.identity_text()),
        r.field_digest@ == digest_of(field.identity_text()),
        r.enrichment == enrichment,
        r.derivation == selection.derivation,
        r.derivation_digest == selection.derivation_digest,
        r.qualified_weights@ == qualified.weights@,
        r.total_weight == qualified.total,
        r.sample == selection.sample,
        r.event_nonce == selection.event_nonce,
        r.selected_index == index,
        r.selected_candidate@ == field.candidates@[index as int].id@,
{
    let enriched = enrichment.is_some();
    let derived = selection.derivation.is_some();
    let mode = selection.mode;
    Receipt {
        schema: copy_str(receipt_schema(enriched, derived)),
        mode,
        algorithm: copy_str(receipt_algorithm(field.rules.as_str(), mode, enriched)),
        context_digest: context.digest(),
        field_digest: field.digest(),
        enrichment,
        derivation: selection.derivation,
        derivation_digest: selection.derivation_digest,
        qualified_weights: copy_weights(&qualified.weights),
        total_weight: qualified.total,
        sample: selection.sample,
        event_nonce: selection.event_nonce,
        selected_index: index,
        selected_candidate: field.candidates[index].id.clone(),
    }
}

// ---------------------------------------------------------------------------
// Receipt equality
// ---------------------------------------------------------------------------

pub open spec fn opt_text(o: Option<String>) -> Option<Seq<char>> {
    match o {
        Some(x) => Some(x@),
        None => None,
    }
}

pub open spec fn derivation_view(d: DerivedSelection) -> (Seq<char>, Seq<char>, Seq<char>, Seq<char>) {
    (d.schema@, d.algorithm@, d.seed@, d.domain@)
}

pub open spec fn evidence_view(e: SealedEnrichment) -> (Seq<Seq<char>>, Seq<SourceView>) {
    (
        seq![e.schema@, e.algorithm@, e.context_digest@, e.endpoint_label@, e.projection_label@, e.session@, e.evidence_digest@],
        source_views(e.sources@),
    )
}

pub open spec fn term_lists(ts: Seq<Vec<String>>) -> Seq<Seq<Seq<char>>> {
    ts.map_values(|t: Vec<String>| views(t@))
}

pub open spec fn same_qualification(a: EnrichmentQualification, b: EnrichmentQualification) -> bool {
    &&& a.schema@ == b.schema@
    &&& a.algorithm@ == b.algorithm@
    &&& evidence_view(a.evidence) == evidence_view(b.evidence)
    &&& a.report_digest@ == b.report_digest@
    &&& term_lists(a.candidate_terms@) == term_lists(b.candidate_terms@)
    &&& a.weight_additions@ == b.weight_additions@
}

/// Two receipts hold the same values, field by field.
pub open spec fn same_receipt(a: Receipt, b: Receipt) -> bool {
    &&& a.schema@ == b.schema@
    &&& a.mode == b.mode
    &&& a.algorithm@ == b.algorithm@
    &&& a.context_digest@ == b.context_digest@
    &&& a.field_digest@ == b.field_digest@
    &&& match (a.enrichment, b.enrichment) {
        (Some(x), Some(y)) => same_qualification(x, y),
        (None, None) => true,
        _ => false,
    }
    &&& match (a.derivation, b.derivation) {
        (Some(x), Some(y)) => derivation_view(x) == derivation_view(y),
        (None, None) => true,
        _ => false,
    }
    &&& opt_text(a.derivation_digest) == opt_text(b.derivation_digest)
    &&& a.qualified_weights@ == b.qualified_weights@
    &&& a.total_weight == b.total_weight
    &&& a.sample == b.sample
    &&& opt_text(a.event_nonce) == opt_text(b.event_nonce)
    &&& a.selected_index == b.selected_index
    &&& a.selected_candidate@ == b.selected_candidate@
}

fn opt_text_eq(a: &Option<String>, b: &Option<String>) -> (r: bool)
    ensures
        r == (opt_text(*a) == opt_text(*b)),
{
    match (a, b) {
        (Some(x), Some(y)) => str_eq(x.as_str(), y.as_str()),
        (None, None) => true,
        _ => false,
    }
}

fn u64s_eq(a: &Vec<u64>, b: &Vec<u64>) -> (r: bool)
    ensures
        r == (a@ == b@),
{
    if a.len() != b.len() {
        return false;
    }
    let mut i: usize = 0;
    while i < a.len()
        invariant
            i <= a@.len() == b@.len(),
            forall|j: int| 0 <= j < i ==> a@[j] == b@[j],
        decreases a@.len() - i,
    {
        if a[i] != b[i] {
            return false;
        }
        i += 1;
    }
    assert(a@ =~= b@);
    true
}

fn strings_eq(a: &Vec<String>, b: &Vec<String>) -> (r: bool)
    ensures
        r == (views(a@) == views(b@)),
{
    if a.len() != b.len() {
        assert(views(a@).len() != views(b@).len());
        return false;
    }
    let mut i: usize = 0;
    while i < a.len()
        invariant
            i <= a@.len() == b@.len(),
            forall|j: int| 0 <= j < i ==> views(a@)[j] == views(b@)[j],
        decreases a@.len() - i,
    {
        if !str_eq(a[i].as_str(), b[i].as_str()) {
            assert(views(a@)[i as int] != views(b@)[i as int]);
            return false;
        }
        i += 1;
    }
    assert(views(a@) =~= views(b@));
    true
}

fn term_lists_eq(a: &Vec<Vec<String>>, b: &Vec<Vec<String>>) -> (r: bool)
    ensures
        r == (term_lists(a@) == term_lists(b@)),
{
    if a.len() != b.len() {
        assert(term_lists(a@).len() != term_lists(b@).len());
        return false;
    }
    let mut i: usize = 0;
    while i < a.len()
        invariant
            i <= a@.len() == b@.len(),
            forall|j: int| 0 <= j < i ==> term_lists(a@)[j] == term_lists(b@)[j],
        decreases a@.len() - i,
    {
        if !strings_eq(&a[i], &b[i]) {
            assert(term_lists(a@)[i as int] != term_lists(b@)[i as int]);
            return false;
        }
        i += 1;
    }
    assert(term_lists(a@) =~= term_lists(b@));
    true
}

fn values_eq(a: &Vec<EnrichmentValue>, b: &Vec<EnrichmentValue>) -> (r: bool)
    ensures
        r == (value_views(a@) == value_views(b@)),
{
    if a.len() != b.len() {
        assert(value_views(a@).len() != value_views(b@).len());
        return false;
    }
    let mut i: usize = 0;
    while i < a.len()
        invariant
            i <= a@.len() == b@.len(),
            forall|j: int| 0 <= j < i ==> value_views(a@)[j] == value_views(b@)[j],
        decreases a@.len() - i,
    {
        if !(str_eq(a[i].label.as_str(), b[i].label.as_str()) && str_eq(a[i].value.as_str(), b[i].value.as_str())) {
            assert(value_views(a@)[i as int] != value_views(b@)[i as int]);
            return false;
        }
        i += 1;
    }
    assert(value_views(a@) =~= value_views(b@));
    true
}

fn source_eq(a: &EnrichmentSource, b: &EnrichmentSource) -> (r: bool)
    ensures
        r == (source_view(*a) == source_view(*b)),
{
    str_eq(a.digest.as_str(), b.digest.as_str()) && str_eq(a.presentation.as_str(), b.presentation.as_str())
        && str_eq(a.title.as_str(), b.title.as_str()) && strings_eq(&a.badges, &b.badges) && values_eq(
        &a.values,
        &b.values,
    )
}

fn sources_eq(a: &Vec<EnrichmentSource>, b: &Vec<EnrichmentSource>) -> (r: bool)
    ensures
        r == (source_views(a@) == source_views(b@)),
{
    if a.len() != b.len() {
        assert(source_views(a@).len() != source_views(b@).len());
        return false;
    }
    let mut i: usize = 0;
    while i < a.len()
        invariant
            i <= a@.len() == b@.len(),
            forall|j: int| 0 <= j < i ==> source_views(a@)[j] == source_views(b@)[j],
        decreases a@.len() - i,
    {
        if !source_eq(&a[i], &b[i]) {
            assert(source_views(a@)[i as int] != source_views(b@)[i as int]);
            return false;
        }
        i += 1;
    }
    assert(source_views(a@) =~= source_views(b@));
    true
}

fn evidence_eq(a: &SealedEnrichment, b: &SealedEnrichment) -> (r: bool)
    ensures
        r == (evidence_view(*a) == evidence_view(*b)),
{
    let heads = str_eq(a.schema.as_str(), b.schema.as_str()) && str_eq(a.algorithm.as_str(), b.algorithm.as_str())
        && str_eq(a.context_digest.as_str(), b.context_digest.as_str()) && str_eq(
        a.endpoint_label.as_str(),
        b.endpoint_label.as_str(),
    ) && str_eq(a.projection_label.as_str(), b.projection_label.as_str()) && str_eq(
        a.session.as_str(),
        b.session.as_str(),
    ) && str_eq(a.evidence_digest.as_str(), b.evidence_digest.as_str());
    let ghost ha = evidence_view(*a).0;
    let ghost hb = evidence_view(*b).0;
    assert(heads == (ha =~= hb)) by {
        if !heads {
            if a.schema@ != b.schema@ {
                assert(ha[0] != hb[0]);
            } else if a.algorithm@ != b.algorithm@ {
                assert(ha[1] != hb[1]);
            } else if a.context_digest@ != b.context_digest@ {
                assert(ha[2] != hb[2]);
            } else if a.endpoint_label@ != b.endpoint_label@ {
                assert(ha[3] != hb[3]);
            } else if a.projection_label@ != b.projection_label@ {
                assert(ha[4] != hb[4]);
            } else if a.session@ != b.session@ {
                assert(ha[5] != hb[5]);
            } else {
                assert(ha[6] != hb[6]);
            }
        }
    }
    heads && sources_eq(&a.sources, &b.sources)
}

fn qualification_eq(a: &EnrichmentQualification, b: &EnrichmentQualification) -> (r: bool)
    ensures
        r == same_qualification(*a, *b),
{
    str_eq(a.schema.as_str(), b.schema.as_str()) && str_eq(a.algorithm.as_str(), b.algorithm.as_str())
        && evidence_eq(&a.evidence, &b.evidence) && str_eq(a.report_digest.as_str(), b.report_digest.as_str())
        && term_lists_eq(&a.candidate_terms, &b.candidate_terms) && u64s_eq(
        &a.weight_additions,
        &b.weight_additions,
    )
}

/// Whether two receipts hold the same values.
pub fn receipts_equal(a: &Receipt, b: &Receipt) -> (r: bool)
    ensures
        r == same_receipt(*a, *b),
{
    let enrichment = match (&a.enrichment, &b.enrichment) {
        (Some(x), Some(y)) => qualification_eq(x, y),
        (None, None) => true,
        _ => false,
    };
    let derivation = match (&a.derivation, &b.derivation) {
        (Some(x), Some(y)) => str_eq(x.schema.as_str(), y.schema.as_str()) && str_eq(
            x.algorithm.as_str(),
            y.algorithm.as_str(),
        ) && str_eq(x.seed.as_str(), y.seed.as_str()) && str_eq(x.domain.as_str(), y.domain.as_str()),
        (None, None) => true,
        _ => false,
    };
    str_eq(a.schema.as_str(), b.schema.as_str()) && a.mode == b.mode && str_eq(
        a.algorithm.as_str(),
        b.algorithm.as_str(),
    ) && str_eq(a.context_digest.as_str(), b.context_digest.as_str()) && str_eq(
        a.field_digest.as_str(),
        b.field_digest.as_str(),
    ) && enrichment && derivation && opt_text_eq(&a.derivation_digest, &b.derivation_digest)
        && u64s_eq(&a.qualified_weights, &b.qualified_weights) && a.total_weight == b.total_weight
        && a.sample == b.sample && opt_text_eq(&a.event_nonce, &b.event_nonce) && a.selected_index
        == b.selected_index && str_eq(a.selected_candidate.as_str(), b.selected_candidate.as_str())
}

// ---------------------------------------------------------------------------
// Replay
// ---------------------------------------------------------------------------

/// Why a stored receipt does not replay.
pub enum ReplayProblem {
    /// The receipt disagrees with its recomputation in the named field.
    Mismatch(Seq<char>),
    /// A calculated receipt under a rule that only permits casting.
    RequiresCast(Seq<char>),
    /// The disclosed derived selection is itself invalid.
    Derivation(Seq<char>),
    /// The qualified field has no weight to draw from.
    EmptyWeight,
    /// No attempt of the derived draw was accepted.
    Exhausted,
    /// The sealed evidence of an enriched receipt does not verify.
    InvalidEnrichment(Seq<char>),
}

pub open spec fn replay_reports(e: ReadingError, p: ReplayProblem) -> bool {
    match p {
        ReplayProblem::Mismatch(m) => e matches ReadingError::ReceiptMismatch(x) && x@ == m,
        ReplayProblem::RequiresCast(m) => e matches ReadingError::QualificationRequiresCast(x) && x@ == m,
        ReplayProblem::Derivation(m) => is_invalid_derivation(e, m),
        ReplayProblem::EmptyWeight => e == ReadingError::EmptyWeight,
        ReplayProblem::Exhausted => e == ReadingError::DerivedSelectionExhausted,
        ReplayProblem::InvalidEnrichment(m) => e matches ReadingError::InvalidEnrichment(x) && x@ == m,
    }
}

pub const ENRICHMENT_QUALIFICATION_SCHEMA: &'static str = "cleromancy.enrichment-qualification/v1";

/// What the enriched qualification of a field found from a report: the
/// external terms each candidate matched, and the weight each gained.
#[derive(Clone, Debug, PartialEq, Eq)]
pub struct EnrichedTerms {
    pub candidate_terms: Vec<Vec<String>>,
    pub weight_additions: Vec<u64>,
}

/// The first problem with an enriched receipt's qualification: its schema
/// and algorithm, its sealed evidence, which must verify against the
/// context, the digest of the report that verification gives, and the terms
/// and additions the enriched qualification found.
pub open spec fn enrichment_problem(
    context: ContextSnapshot,
    q: EnrichmentQualification,
    terms: EnrichedTerms,
) -> Option<ReplayProblem> {
    if q.schema@ != ENRICHMENT_QUALIFICATION_SCHEMA@ {
        Some(ReplayProblem::Mismatch("enrichment qualification schema"@))
    } else if q.algorithm@ != EXTERNAL_QUALIFICATION_ALGORITHM@ {
        Some(ReplayProblem::Mismatch("enrichment qualification algorithm"@))
    } else {
        match crate::enrichment::evidence_problem(q.evidence, context) {
            Some(f) => Some(
                ReplayProblem::InvalidEnrichment(
                    "sealed external evidence is invalid: "@ + f + " does not match its contents"@,
                ),
            ),
            None => if q.report_digest@ != digest_of(crate::enrichment::report_json_of(q.evidence, context)) {
                Some(ReplayProblem::Mismatch("enrichment report digest"@))
            } else if term_lists(q.candidate_terms@) != term_lists(terms.candidate_terms@) {
                Some(ReplayProblem::Mismatch("enrichment candidate terms"@))
            } else if q.weight_additions@ != terms.weight_additions@ {
                Some(ReplayProblem::Mismatch("enrichment weight additions"@))
            } else {
                None
            },
        }
    }
}

/// The last checks of every replay: the selected index and candidate, then
/// the schema and algorithm a receipt with these values must carry.
pub open spec fn replay_tail(field: Field, index: usize, receipt: Receipt) -> Option<ReplayProblem> {
    if receipt.selected_index != index {
        Some(ReplayProblem::Mismatch("selected index"@))
    } else if index >= field.candidates@.len() || receipt.selected_candidate@
        != field.candidates@[index as int].id@ {
        Some(ReplayProblem::Mismatch("selected candidate"@))
    } else if receipt.schema@ != spec_receipt_schema(receipt.enrichment is Some, receipt.derivation is Some)
        || Some(receipt.algorithm@) != spec_receipt_algorithm(field.rules@, receipt.mode, receipt.enrichment is Some) {
        Some(ReplayProblem::Mismatch("algorithm or schema"@))
    } else {
        None
    }
}

/// What a derived receipt must disclose: the sample and the digest of the
/// first accepted attempt of the public draw over its selection.
pub open spec fn derived_problem(
    sel: DerivedSelection,
    cd: Seq<char>,
    fd: Seq<char>,
    q: QualifiedField,
    receipt: Receipt,
) -> Option<ReplayProblem> {
    let ws = q.weights@;
    let t = q.total;
    if q.total == 0 {
        Some(ReplayProblem::EmptyWeight)
    } else if !(exists|a: u64| #[trigger] accepted_at(sel, cd, fd, ws, t, a)) {
        Some(ReplayProblem::Exhausted)
    } else {
        let a = choose|a: u64| #[trigger] accepted_at(sel, cd, fd, ws, t, a);
        let msg = draw_message(sel.seed@, sel.domain@, cd, fd, ws, t, a);
        if receipt.sample != Some((draw_raw(msg) % (t as nat)) as u64) {
            Some(ReplayProblem::Mismatch("derived sample"@))
        } else if opt_text(receipt.derivation_digest) != Some(hex(blake3_hash(msg))) {
            Some(ReplayProblem::Mismatch("derived digest"@))
        } else {
            None
        }
    }
}

/// The first problem a replay finds with a stored receipt, given the
/// qualified field and the index the qualification selects for it.
pub open spec fn replay_problem(
    context: ContextSnapshot,
    field: Field,
    q: QualifiedField,
    terms: EnrichedTerms,
    index: usize,
    receipt: Receipt,
) -> Option<ReplayProblem> {
    let cd = digest_of(context.identity_text());
    let fd = digest_of(field.identity_text());
    if receipt.context_digest@ != cd {
        Some(ReplayProblem::Mismatch("context digest"@))
    } else if receipt.field_digest@ != fd {
        Some(ReplayProblem::Mismatch("field digest"@))
    } else if receipt.enrichment is Some && enrichment_problem(context, receipt.enrichment->0, terms) is Some {
        enrichment_problem(context, receipt.enrichment->0, terms)
    } else if receipt.qualified_weights@ != q.weights@ {
        Some(ReplayProblem::Mismatch("qualified weights"@))
    } else if receipt.total_weight != q.total {
        Some(ReplayProblem::Mismatch("total weight"@))
    } else {
        match receipt.mode {
            SelectionMode::Calculated => if receipt.sample is Some {
                Some(ReplayProblem::Mismatch("calculated sample"@))
            } else if receipt.event_nonce is Some {
                Some(ReplayProblem::Mismatch("calculated nonce"@))
            } else if receipt.derivation is Some {
                Some(ReplayProblem::Mismatch("calculated derivation"@))
            } else if receipt.derivation_digest is Some {
                Some(ReplayProblem::Mismatch("calculated derivation digest"@))
            } else if field.rules@ == UNIFORM_RULE@ || field.rules@ == UNIFORM_DIE_RULE@ {
                Some(ReplayProblem::RequiresCast(field.rules@))
            } else {
                replay_tail(field, index, receipt)
            },
            SelectionMode::Cast => if receipt.sample is None {
                Some(ReplayProblem::Mismatch("cast sample"@))
            } else if receipt.event_nonce is None {
                Some(ReplayProblem::Mismatch("cast nonce"@))
            } else if receipt.derivation is Some {
                Some(ReplayProblem::Mismatch("cast derivation"@))
            } else if receipt.derivation_digest is Some {
                Some(ReplayProblem::Mismatch("cast derivation digest"@))
            } else {
                replay_tail(field, index, receipt)
            },
            SelectionMode::Derived => if receipt.sample is None {
                Some(ReplayProblem::Mismatch("derived sample"@))
            } else {
                match receipt.derivation {
                    None => Some(ReplayProblem::Mismatch("derived selection"@)),
                    Some(sel) => match sel.problem() {
                        Some(m) => Some(ReplayProblem::Derivation(m)),
                        None => if receipt.event_nonce is Some {
                            Some(ReplayProblem::Mismatch("derived nonce"@))
                        } else {
                            match derived_problem(sel, cd, fd, q, receipt) {
                                Some(p) => Some(p),
                                None => replay_tail(field, index, receipt),
                            }
                        },
                    },
                }
            },
        }
    }
}

/// The algorithm disclosed for a rule, mode and evidence setting, when the
/// combination is one a qualification can succeed on.
fn supported_algorithm(rules: &str, mode: SelectionMode, enriched: bool) -> (r: Option<&'static str>)
    ensures
        match spec_receipt_algorithm(rules@, mode, enriched) {
            Some(a) => r matches Some(x) && x@ == a,
            None => r is None,
        },
{
    if str_eq(rules, CONTEXTUAL_WEIGHT_RULE) && !enriched {
        Some(receipt_algorithm(rules, mode, enriched))
    } else if (str_eq(rules, UNIFORM_RULE) || str_eq(rules, UNIFORM_DIE_RULE)) && !enriched {
        if mode == SelectionMode::Calculated {
            proof {
                reveal_strlit("contextual-weight");
                reveal_strlit("uniform");
                reveal_strlit("uniform-die");
                assert(rules@.len() != CONTEXTUAL_WEIGHT_RULE@.len());
            }
            None
        } else {
            Some(receipt_algorithm(rules, mode, enriched))
        }
    } else if str_eq(rules, EXTERNAL_TERM_WEIGHT_RULE) && enriched {
        Some(receipt_algorithm(rules, mode, enriched))
    } else {
        None
    }
}

fn replay_tail_check(field: &Field, index: usize, receipt: &Receipt) -> (r: Result<(), ReadingError>)
    ensures
        match replay_tail(*field, index, *receipt) {
            None => r is Ok,
            Some(p) => r matches Err(e) && replay_reports(e, p),
        },
{
    if receipt.selected_index != index {
        return check(false, "selected index");
    }
    if index >= field.candidates.len() || !str_eq(
        receipt.selected_candidate.as_str(),
        field.candidates[index].id.as_str(),
    ) {
        return check(false, "selected candidate");
    }
    let schema = receipt_schema(receipt.enrichment.is_some(), receipt.derivation.is_some());
    match supported_algorithm(field.rules.as_str(), receipt.mode, receipt.enrichment.is_some()) {
        None => check(false, "algorithm or schema"),
        Some(algorithm) => check(
            str_eq(receipt.schema.as_str(), schema) && str_eq(receipt.algorithm.as_str(), algorithm),
            "algorithm or schema",
        ),
    }
}

fn enrichment_check(context: &ContextSnapshot, q: &EnrichmentQualification, terms: &EnrichedTerms) -> (r: Result<
    (),
    ReadingError,
>)
    ensures
        match enrichment_problem(*context, *q, *terms) {
            None => r is Ok,
            Some(p) => r matches Err(e) && replay_reports(e, p),
        },
{
    if !str_eq(q.schema.as_str(), ENRICHMENT_QUALIFICATION_SCHEMA) {
        return check(false, "enrichment qualification schema");
    }
    if !str_eq(q.algorithm.as_str(), EXTERNAL_QUALIFICATION_ALGORITHM) {
        return check(false, "enrichment qualification algorithm");
    }
    match q.evidence.verify(context) {
        Err(e) => {
            match e {
                crate::enrichment::EnrichmentError::InvalidEvidence(m) => {
                    let mut text = copy_str("sealed external evidence is invalid: ");
                    crate::text::push_str(&mut text, m.as_str());
                    proof {
                        let f = crate::enrichment::evidence_problem(q.evidence, *context)->0;
                        assert(text@ =~= "sealed external evidence is invalid: "@ + f
                            + " does not match its contents"@);
                    }
                    Err(ReadingError::InvalidEnrichment(text))
                },
                _ => {
                    proof {
                        assert(false);
                    }
                    Err(ReadingError::EmptyWeight)
                },
            }
        },
        Ok(report) => {
            proof {
                crate::enrichment::lemma_report_json_of(report, q.evidence, *context);
            }
            let digest = report.digest();
            if !str_eq(digest.as_str(), q.report_digest.as_str()) {
                return check(false, "enrichment report digest");
            }
            if !term_lists_eq(&q.candidate_terms, &terms.candidate_terms) {
                return check(false, "enrichment candidate terms");
            }
            if !u64s_eq(&q.weight_additions, &terms.weight_additions) {
                return check(false, "enrichment weight additions");
            }
            Ok(())
        },
    }
}

/// Marks the engine that selects, derives and replays readings.
pub struct ReadingEngine;

impl ReadingEngine {
    /// Recomputes every derivable value of a stored receipt against the
    /// context, the field, the field's qualification and the index that
    /// qualification selects for the receipt: the digests, weights and total,
    /// the values each mode must and must not disclose, a derived receipt's
    /// public draw, the selected candidate, and the receipt's schema and
    /// algorithm. A cast receipt replays from the sample it discloses; no
    /// entropy is recovered.
    pub fn replay(
        context: &ContextSnapshot,
        field: &Field,
        qualified: &QualifiedField,
        terms: &EnrichedTerms,
        index: usize,
        receipt: &Receipt,
    ) -> (r: Result<(), ReadingError>)
        ensures
            match replay_problem(*context, *field, *qualified, *terms, index, *receipt) {
                None => r is Ok,
                Some(p) => r matches Err(e) && replay_reports(e, p),
            },
    {
        let cd = context.digest();
        let fd = field.digest();
        if !str_eq(receipt.context_digest.as_str(), cd.as_str()) {
            return check(false, "context digest");
        }
        if !str_eq(receipt.field_digest.as_str(), fd.as_str()) {
            return check(false, "field digest");
        }
        match &receipt.enrichment {
            None => {},
            Some(q) => {
                match enrichment_check(context, q, terms) {
                    Ok(()) => {},
                    Err(e) => {
                        return Err(e);
                    },
                }
            },
        }
        if !u64s_eq(&receipt.qualified_weights, &qualified.weights) {
            return check(false, "qualified weights");
        }
        if receipt.total_weight != qualified.total {
            return check(false, "total weight");
        }
        match receipt.mode {
            SelectionMode::Calculated => {
                if receipt.sample.is_some() {
                    return check(false, "calculated sample");
                }
                if receipt.event_nonce.is_some() {
                    return check(false, "calculated nonce");
                }
                if receipt.derivation.is_some() {
                    return check(false, "calculated derivation");
                }
                if receipt.derivation_digest.is_some() {
                    return check(false, "calculated derivation digest");
                }
                match require_calculable(field.rules.as_str()) {
                    Ok(()) => {},
                    Err(e) => {
                        return Err(e);
                    },
                }
                replay_tail_check(field, index, receipt)
            },
            SelectionMode::Cast => {
                if receipt.sample.is_none() {
                    return check(false, "cast sample");
                }
                if receipt.event_nonce.is_none() {
                    return check(false, "cast nonce");
                }
                if receipt.derivation.is_some() {
                    return check(false, "cast derivation");
                }
                if receipt.derivation_digest.is_some() {
                    return check(false, "cast derivation digest");
                }
                replay_tail_check(field, index, receipt)
            },
            SelectionMode::Derived => {
                let sample = match receipt.sample {
                    Some(v) => v,
                    None => {
                        return check(false, "derived sample");
                    },
                };
                let selection = match &receipt.derivation {
                    Some(sel) => sel,
                    None => {
                        return check(false, "derived selection");
                    },
                };
                match selection.validate() {
                    Ok(()) => {},
                    Err(e) => {
                        return Err(e);
                    },
                }
                if receipt.event_nonce.is_some() {
                    return check(false, "derived nonce");
                }
                let draw = match derived_draw(context, field, qualified, selection) {
                    Ok(d) => d,
                    Err(e) => {
                        return Err(e);
                    },
                };
                proof {
                    let ws = qualified.weights@;
                    let t = qualified.total;
                    let a = choose|a: u64| #[trigger] accepted_at(*selection, cd@, fd@, ws, t, a);
                    let b = choose|b: u64|
                        #[trigger] accepted_at(*selection, cd@, fd@, ws, t, b) && draw.sample == draw_raw(
                            draw_message(selection.seed@, selection.domain@, cd@, fd@, ws, t, b),
                        ) % (t as nat) && draw.digest@ == hex(
                            blake3_hash(draw_message(selection.seed@, selection.domain@, cd@, fd@, ws, t, b)),
                        );
                    law_derived_draw_is_deterministic(*selection, cd@, fd@, ws, t, a, b);
                }
                if sample != draw.sample {
                    return check(false, "derived sample");
                }
                let digest_ok = match &receipt.derivation_digest {
                    Some(d) => str_eq(d.as_str(), draw.digest.as_str()),
                    None => false,
                };
                if !digest_ok {
                    return check(false, "derived digest");
                }
                replay_tail_check(field, index, receipt)
            },
        }
    }
}

/// Whether a receipt holds what `make_receipt` writes for these inputs: the
/// schema and algorithm for its rule, mode and evidence, the digests, the
/// qualified weights and total, and the selected index and candidate.
pub open spec fn receipt_made_from(
    r: Receipt,
    context: ContextSnapshot,
    field: Field,
    q: QualifiedField,
    index: usize,
) -> bool {
    &&& r.schema@ == spec_receipt_schema(r.enrichment is Some, r.derivation is Some)
    &&& Some(r.algorithm@) == spec_receipt_algorithm(field.rules@, r.mode, r.enrichment is Some)
    &&& r.context_digest@ == digest_of(context.identity_text())
    &&& r.field_digest@ == digest_of(field.identity_text())
    &&& r.qualified_weights@ == q.weights@
    &&& r.total_weight == q.total
    &&& r.selected_index == index
    &&& r.selected_candidate@ == field.candidates@[index as int].id@
}

/// Whether a receipt discloses what its mode's selection discloses: nothing
/// for a calculated reading; a sample and an event nonce for a cast one; a
/// valid public selection with the sample and digest of its first accepted
/// draw for a derived one.
pub open spec fn discloses_its_selection(
    r: Receipt,
    context: ContextSnapshot,
    field: Field,
    q: QualifiedField,
) -> bool {
    match r.mode {
        SelectionMode::Calculated => r.sample is None && r.event_nonce is None && r.derivation is None
            && r.derivation_digest is None,
        SelectionMode::Cast => r.sample is Some && r.event_nonce is Some && r.derivation is None
            && r.derivation_digest is None,
        SelectionMode::Derived => r.event_nonce is None && match r.derivation {
            None => false,
            Some(sel) => sel.problem() is None && exists|a: u64|
                #![trigger accepted_at(sel, digest_of(context.identity_text()), digest_of(field.identity_text()), q.weights@, q.total, a)]
                accepted_at(
                    sel,
                    digest_of(context.identity_text()),
                    digest_of(field.identity_text()),
                    q.weights@,
                    q.total,
                    a,
                ) && {
                    let msg = draw_message(
                        sel.seed@,
                        sel.domain@,
                        digest_of(context.identity_text()),
                        digest_of(field.identity_text()),
                        q.weights@,
                        q.total,
                        a,
                    );
                    r.sample == Some((draw_raw(msg) % (q.total as nat)) as u64) && opt_text(
                        r.derivation_digest,
                    ) == Some(hex(blake3_hash(msg)))
                },
        },
    }
}

/// A receipt replays from what it stores: one written for a selection from
/// a context, field and qualification, disclosing what its mode discloses,
/// replays against the same context, field, qualification and index with
/// no problem.
pub proof fn law_replay_accepts_what_was_made(
    r: Receipt,
    context: ContextSnapshot,
    field: Field,
    q: QualifiedField,
    terms: EnrichedTerms,
    index: usize,
)
    requires
        index < field.candidates@.len(),
        r.mode == SelectionMode::Derived ==> q.total > 0,
        receipt_made_from(r, context, field, q, index),
        discloses_its_selection(r, context, field, q),
        r.enrichment matches Some(x) ==> enrichment_problem(context, x, terms) is None,
    ensures
        replay_problem(context, field, q, terms, index, r) is None,
{
    let cd = digest_of(context.identity_text());
    let fd = digest_of(field.identity_text());
    if r.mode == SelectionMode::Calculated {
        reveal_strlit("contextual-weight");
        reveal_strlit("uniform");
        reveal_strlit("uniform-die");
        reveal_strlit("contextual-weight+external-term-share");
        assert(spec_receipt_algorithm(field.rules@, r.mode, r.enrichment is Some) is Some);
        if field.rules@ == UNIFORM_RULE@ || field.rules@ == UNIFORM_DIE_RULE@ {
            assert(field.rules@ != CONTEXTUAL_WEIGHT_RULE@) by {
                assert(field.rules@.len() != CONTEXTUAL_WEIGHT_RULE@.len());
            }
            assert(field.rules@ != EXTERNAL_TERM_WEIGHT_RULE@) by {
                assert(field.rules@.len() != EXTERNAL_TERM_WEIGHT_RULE@.len());
            }
        }
    }
    if r.mode == SelectionMode::Derived {
        let sel = r.derivation->0;
        let ws = q.weights@;
        let t = q.total;
        let b = choose|b: u64|
            #[trigger] accepted_at(sel, cd, fd, ws, t, b) && {
                let msg = draw_message(sel.seed@, sel.domain@, cd, fd, ws, t, b);
                r.sample == Some((draw_raw(msg) % (t as nat)) as u64) && opt_text(r.derivation_digest)
                    == Some(hex(blake3_hash(msg)))
            };
        let a = choose|a: u64| #[trigger] accepted_at(sel, cd, fd, ws, t, a);
        law_derived_draw_is_deterministic(sel, cd, fd, ws, t, a, b);
        assert(derived_problem(sel, cd, fd, q, r) is None);
    }
}

} // verus!
