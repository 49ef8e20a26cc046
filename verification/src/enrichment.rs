//! Sealed external evidence and its lexical correlation with a context.

use vstd::prelude::*;

use crate::context::ContextSnapshot;
use crate::digest::{digest_of, digest_text, json_nat, json_string, json_string_array, push_decimal, push_json_string, push_json_string_array};
use crate::order::{
    compare_str, lemma_lex_asymmetric, lemma_lex_irreflexive, lemma_lex_total,
    lemma_lex_transitive, lemma_set_insert_contents, lex_lt, sorted_contains, sorted_insert,
    sorted_of, strictly_sorted, views, Order, lemma_sorted_of, lemma_sorted_of_finite,
};
use crate::text::{chars_of, copy_str, is_ascii_digit, is_ascii_lower, is_ascii_upper, push_char, push_str, str_eq, to_lowercase, unicode_lowercase};

verus! {

pub const CORRELATION_ALGORITHM: &'static str = "cleromancy.enrichment/lexical-overlap/v1";

pub const EVIDENCE_SCHEMA: &'static str = "cleromancy.sealed-enrichment/v1";

pub const REPORT_SCHEMA: &'static str = "cleromancy.enrichment-report/v2";

#[derive(Clone, Debug, PartialEq, Eq)]
pub enum EnrichmentError {
    NoProjection,
    UnknownProjection(usize),
    UnexpectedResponse(&'static str),
    Snapshot(String),
    Resource(String),
    Presentation(String),
    MissingMount,
    InvalidEvidence(String),
}

/// One portable card reduced to the exact fields read by the correlation
/// algorithm.
#[derive(Clone, Debug, PartialEq, Eq)]
pub struct EnrichmentSource {
    pub digest: String,
    pub presentation: String,
    pub title: String,
    pub badges: Vec<String>,
    pub values: Vec<EnrichmentValue>,
}

#[derive(Clone, Debug, PartialEq, Eq)]
pub struct EnrichmentValue {
    pub label: String,
    pub value: String,
}

/// A binding snapshot of the disclosed vocabulary used by qualification.
#[derive(Clone, Debug, PartialEq, Eq)]
pub struct SealedEnrichment {
    pub schema: String,
    pub algorithm: String,
    pub context_digest: String,
    pub endpoint_label: String,
    pub projection_label: String,
    pub session: String,
    pub evidence_digest: String,
    pub sources: Vec<EnrichmentSource>,
}

#[derive(Clone, Debug, PartialEq, Eq)]
pub struct EnrichmentMatch {
    pub source_digest: String,
    pub presentation: String,
    pub terms: Vec<String>,
}

/// Presentation-side evidence of a correlation.
#[derive(Clone, Debug, PartialEq, Eq)]
pub struct EnrichmentReport {
    pub schema: String,
    pub algorithm: String,
    pub context_digest: String,
    pub endpoint_label: String,
    pub projection_label: String,
    pub session: String,
    pub query_terms: Vec<String>,
    pub source_cards: usize,
    pub matches: Vec<EnrichmentMatch>,
}


// ---------------------------------------------------------------------------
// Terms
// ---------------------------------------------------------------------------

/// Whether a character is alphabetic or numeric in Unicode's sense, as
/// `char::is_alphanumeric` decides it.
pub uninterp spec fn alphanumeric(c: char) -> bool;

/// `char::is_alphanumeric`.
///
/// The standard library documents it as `is_alphabetic() || is_numeric()`
/// over Unicode's derived properties. The contract claims that the answer
/// depends on the character alone, through `alphanumeric`, and that among
/// ASCII characters exactly the letters and digits are alphanumeric; of other
/// characters it says nothing.
#[verifier::external_body]
fn is_alphanumeric(c: char) -> (r: bool)
    ensures
        r == alphanumeric(c),
        (c as u32) < 128 ==> (r <==> (is_ascii_lower(c) || is_ascii_upper(c) || is_ascii_digit(c))),
{
    c.is_alphanumeric()
}

/// The pieces of a text between its non-alphanumeric characters, empty
/// pieces included, as `str::split` with that predicate yields them.
pub open spec fn word_pieces(s: Seq<char>) -> Seq<Seq<char>>
    decreases s.len(),
{
    if s.len() == 0 {
        seq![seq![]]
    } else {
        let p = word_pieces(s.drop_last());
        if !alphanumeric(s.last()) {
            p.push(seq![])
        } else {
            p.update(p.len() - 1, p.last().push(s.last()))
        }
    }
}

/// The lowercased pieces of at least three characters.
pub open spec fn piece_tokens(ps: Seq<Seq<char>>) -> Set<Seq<char>> {
    Set::new(
        |t: Seq<char>|
            t.len() >= 3 && exists|k: int| 0 <= k < ps.len() && unicode_lowercase(#[trigger] ps[k]) == t,
    )
}

/// The lexical terms of a text: its alphanumeric runs, lowercased, of at
/// least three characters.
pub open spec fn tokens_of(s: Seq<char>) -> Set<Seq<char>> {
    piece_tokens(word_pieces(s))
}

pub proof fn lemma_piece_tokens_push(ps: Seq<Seq<char>>, p: Seq<char>)
    ensures
        piece_tokens(ps.push(p)) == if unicode_lowercase(p).len() >= 3 {
            piece_tokens(ps).insert(unicode_lowercase(p))
        } else {
            piece_tokens(ps)
        },
{
    let q = ps.push(p);
    let r = if unicode_lowercase(p).len() >= 3 {
        piece_tokens(ps).insert(unicode_lowercase(p))
    } else {
        piece_tokens(ps)
    };
    assert forall|t: Seq<char>| piece_tokens(q).contains(t) implies r.contains(t) by {
        let k = choose|k: int| 0 <= k < q.len() && unicode_lowercase(#[trigger] q[k]) == t;
        if k < ps.len() {
            assert(q[k] == ps[k]);
        }
    }
    assert forall|t: Seq<char>| r.contains(t) implies piece_tokens(q).contains(t) by {
        if t == unicode_lowercase(p) && t.len() >= 3 {
            assert(q[ps.len() as int] == p);
        } else {
            let k = choose|k: int| 0 <= k < ps.len() && unicode_lowercase(#[trigger] ps[k]) == t;
            assert(q[k] == ps[k]);
        }
    }
    assert(piece_tokens(q) =~= r);
}

/// The terms of a text, as a sorted set.
pub fn tokens(value: &str) -> (r: Vec<String>)
    ensures
        strictly_sorted(views(r@)),
        views(r@).to_set() == tokens_of(value@),
{
    let v = chars_of(value);
    let mut out: Vec<String> = Vec::new();
    let mut cur = String::new();
    let ghost mut done: Seq<Seq<char>> = seq![];
    let mut i: usize = 0;
    assert(v@.take(0) =~= Seq::<char>::empty());
    assert(word_pieces(v@.take(0)) =~= done.push(cur@));
    assert(views(out@).to_set() =~= piece_tokens(done));
    while i < v.len()
        invariant
            i <= v@.len(),
            v@ == value@,
            word_pieces(v@.take(i as int)) == done.push(cur@),
            strictly_sorted(views(out@)),
            views(out@).to_set() == piece_tokens(done),
        decreases v@.len() - i,
    {
        let c = v[i];
        proof {
            assert(v@.take(i as int + 1).drop_last() =~= v@.take(i as int));
            assert(v@.take(i as int + 1).last() == c);
        }
        if !is_alphanumeric(c) {
            let lc = to_lowercase(cur.as_str());
            let ghost before = views(out@);
            proof {
                lemma_piece_tokens_push(done, cur@);
            }
            if chars_of(lc.as_str()).len() >= 3 {
                sorted_insert(&mut out, lc);
                proof {
                    lemma_set_insert_contents(before, unicode_lowercase(cur@));
                }
            }
            proof {
                done = done.push(cur@);
                assert(word_pieces(v@.take(i as int + 1)) =~= done.push(Seq::<char>::empty()));
            }
            cur = String::new();
        } else {
            let ghost old_cur = cur@;
            push_char(&mut cur, c);
            assert(word_pieces(v@.take(i as int + 1)) =~= done.push(cur@));
        }
        i += 1;
    }
    let lc = to_lowercase(cur.as_str());
    let ghost before = views(out@);
    proof {
        lemma_piece_tokens_push(done, cur@);
        assert(v@.take(v@.len() as int) =~= v@);
    }
    if chars_of(lc.as_str()).len() >= 3 {
        sorted_insert(&mut out, lc);
        proof {
            lemma_set_insert_contents(before, unicode_lowercase(cur@));
        }
    }
    out
}

/// Adds every term of a text to a sorted set of terms.
fn extend_with_tokens(terms: &mut Vec<String>, value: &str)
    requires
        strictly_sorted(views(old(terms)@)),
    ensures
        strictly_sorted(views(final(terms)@)),
        views(final(terms)@).to_set() == views(old(terms)@).to_set() + tokens_of(value@),
{
    let ts = tokens(value);
    let ghost start = views(terms@).to_set();
    let mut i: usize = 0;
    assert(views(ts@).take(0).to_set() =~= Set::<Seq<char>>::empty());
    assert(start + views(ts@).take(0).to_set() =~= start);
    while i < ts.len()
        invariant
            i <= ts@.len(),
            strictly_sorted(views(terms@)),
            views(terms@).to_set() == start + views(ts@).take(i as int).to_set(),
        decreases ts@.len() - i,
    {
        let ghost before = views(terms@);
        let t = ts[i].clone();
        sorted_insert(terms, t);
        proof {
            lemma_set_insert_contents(before, ts@[i as int]@);
            let a = views(ts@).take(i as int);
            let b = views(ts@).take(i as int + 1);
            assert(b =~= a.push(ts@[i as int]@));
            assert(b.to_set() =~= a.to_set().insert(ts@[i as int]@)) by {
                assert forall|y: Seq<char>| b.contains(y) implies a.to_set().insert(ts@[i as int]@).contains(y) by {
                    let k = choose|k: int| 0 <= k < b.len() && b[k] == y;
                    if k < a.len() {
                        assert(a[k] == y);
                    }
                }
                assert forall|y: Seq<char>| a.to_set().insert(ts@[i as int]@).contains(y) implies b.contains(y) by {
                    if y == ts@[i as int]@ {
                        assert(b[i as int] == y);
                    } else {
                        let k = choose|k: int| 0 <= k < a.len() && a[k] == y;
                        assert(b[k] == y);
                    }
                }
            }
            assert(views(terms@).to_set() =~= start + b.to_set());
        }
        i += 1;
    }
    assert(views(ts@).take(ts@.len() as int) =~= views(ts@));
}

/// The terms of each text, together.
pub open spec fn tokens_of_all(xs: Seq<Seq<char>>) -> Set<Seq<char>>
    decreases xs.len(),
{
    if xs.len() == 0 {
        Set::empty()
    } else {
        tokens_of_all(xs.drop_last()) + tokens_of(xs.last())
    }
}

/// The terms of both texts of each pair, together.
pub open spec fn pair_tokens(ps: Seq<(Seq<char>, Seq<char>)>) -> Set<Seq<char>>
    decreases ps.len(),
{
    if ps.len() == 0 {
        Set::empty()
    } else {
        pair_tokens(ps.drop_last()) + tokens_of(ps.last().0) + tokens_of(ps.last().1)
    }
}

/// The query terms of a context: those of its label, tags, fact names and
/// fact values.
pub open spec fn context_terms_of(c: ContextSnapshot) -> Set<Seq<char>> {
    tokens_of(c.label@) + tokens_of_all(c.tags_view()) + pair_tokens(c.facts_view())
}

pub type ValueView = (Seq<char>, Seq<char>);

pub type SourceView = (Seq<char>, Seq<char>, Seq<char>, Seq<Seq<char>>, Seq<ValueView>);

pub type MatchView = (Seq<char>, Seq<char>, Seq<Seq<char>>);

pub open spec fn value_views(vs: Seq<EnrichmentValue>) -> Seq<ValueView> {
    vs.map_values(|v: EnrichmentValue| (v.label@, v.value@))
}

pub open spec fn source_view(s: EnrichmentSource) -> SourceView {
    (s.digest@, s.presentation@, s.title@, views(s.badges@), value_views(s.values@))
}

pub open spec fn source_views(ss: Seq<EnrichmentSource>) -> Seq<SourceView> {
    ss.map_values(|s: EnrichmentSource| source_view(s))
}

pub open spec fn match_view(m: EnrichmentMatch) -> MatchView {
    (m.source_digest@, m.presentation@, views(m.terms@))
}

pub open spec fn match_views(ms: Seq<EnrichmentMatch>) -> Seq<MatchView> {
    ms.map_values(|m: EnrichmentMatch| match_view(m))
}

/// The terms a source card discloses: those of its presentation, title,
/// badges, value labels and values.
pub open spec fn source_terms_of(s: SourceView) -> Set<Seq<char>> {
    tokens_of(s.1) + tokens_of(s.2) + tokens_of_all(s.3) + pair_tokens(s.4)
}

/// One match for each source that shares a term with the query, in source
/// order, carrying the shared terms in order.
pub open spec fn candidate_matches(ss: Seq<SourceView>, query: Set<Seq<char>>) -> Seq<MatchView>
    decreases ss.len(),
{
    if ss.len() == 0 {
        seq![]
    } else {
        let before = candidate_matches(ss.drop_last(), query);
        let s = ss.last();
        let shared = sorted_of(query.intersect(source_terms_of(s)));
        if shared.len() > 0 {
            before.push((s.0, s.1, shared))
        } else {
            before
        }
    }
}

/// A text has finitely many terms.
pub proof fn lemma_tokens_finite(t: Seq<char>)
    ensures
        tokens_of(t).finite(),
{
    let ps = word_pieces(t);
    let lowered = ps.map_values(|p: Seq<char>| unicode_lowercase(p)).to_set();
    assert(lowered.finite()) by {
        vstd::seq_lib::seq_to_set_is_finite(ps.map_values(|p: Seq<char>| unicode_lowercase(p)));
    }
    assert forall|x: Seq<char>| tokens_of(t).contains(x) implies lowered.contains(x) by {
        let k = choose|k: int| 0 <= k < ps.len() && unicode_lowercase(#[trigger] ps[k]) == x;
        assert(ps.map_values(|p: Seq<char>| unicode_lowercase(p))[k] == x);
    }
    assert(lowered.intersect(tokens_of(t)) =~= tokens_of(t));
}

/// The terms of a list of texts take in the terms of each text, and are
/// finitely many.
pub proof fn lemma_tokens_of_all_cover(xs: Seq<Seq<char>>, i: int)
    ensures
        0 <= i < xs.len() ==> tokens_of(xs[i]).subset_of(tokens_of_all(xs)),
        tokens_of_all(xs).finite(),
    decreases xs.len(),
{
    if xs.len() > 0 {
        lemma_tokens_of_all_cover(xs.drop_last(), i);
        lemma_tokens_finite(xs.last());
        if 0 <= i < xs.len() - 1 {
            assert(xs.drop_last()[i] == xs[i]);
        }
    }
}

/// The terms of a list of pairs take in the terms of both texts of each
/// pair, and are finitely many.
pub proof fn lemma_pair_tokens_cover(ps: Seq<(Seq<char>, Seq<char>)>, i: int)
    ensures
        0 <= i < ps.len() ==> tokens_of(ps[i].0).subset_of(pair_tokens(ps)) && tokens_of(
            ps[i].1,
        ).subset_of(pair_tokens(ps)),
        pair_tokens(ps).finite(),
    decreases ps.len(),
{
    if ps.len() > 0 {
        lemma_pair_tokens_cover(ps.drop_last(), i);
        lemma_tokens_finite(ps.last().0);
        lemma_tokens_finite(ps.last().1);
        if 0 <= i < ps.len() - 1 {
            assert(ps.drop_last()[i] == ps[i]);
        }
    }
}

/// A source card discloses every term of its presentation label, of its
/// title, of each badge and of each value's label and value. So a card
/// whose presentation label (or title) shares a term with the query is
/// matched, under its own digest and presentation, and its match carries
/// that term.
pub proof fn law_source_terms_cover_every_part(s: SourceView, query: Set<Seq<char>>, t: Seq<char>, i: int)
    ensures
        tokens_of(s.1).subset_of(source_terms_of(s)),
        tokens_of(s.2).subset_of(source_terms_of(s)),
        0 <= i < s.3.len() ==> tokens_of(s.3[i]).subset_of(source_terms_of(s)),
        0 <= i < s.4.len() ==> tokens_of(s.4[i].0).subset_of(source_terms_of(s)) && tokens_of(
            s.4[i].1,
        ).subset_of(source_terms_of(s)),
        query.contains(t) && (tokens_of(s.1).contains(t) || tokens_of(s.2).contains(t)) ==> {
            let ms = candidate_matches(seq![s], query);
            &&& ms.len() == 1
            &&& ms[0].0 == s.0
            &&& ms[0].1 == s.1
            &&& ms[0].2.contains(t)
        },
{
    lemma_tokens_of_all_cover(s.3, i);
    lemma_pair_tokens_cover(s.4, i);
    lemma_tokens_finite(s.1);
    lemma_tokens_finite(s.2);
    let terms = source_terms_of(s);
    assert(terms.finite());
    if query.contains(t) && (tokens_of(s.1).contains(t) || tokens_of(s.2).contains(t)) {
        let shared = query.intersect(terms);
        assert(shared.finite());
        lemma_sorted_of_finite(shared);
        assert(shared.contains(t));
        assert(sorted_of(shared).to_set().contains(t));
        assert(sorted_of(shared).len() > 0);
        let shared_terms = sorted_of(shared);
        assert(shared_terms.contains(t));
        assert(seq![s].drop_last() =~= Seq::<SourceView>::empty());
        assert(seq![s].last() == s);
        assert(candidate_matches(Seq::<SourceView>::empty(), query) == Seq::<MatchView>::empty());
        let ms = candidate_matches(seq![s], query);
        assert(ms == seq![(s.0, s.1, shared_terms)]);
    }
}

/// Matches are ordered by presentation, then by source digest.
pub open spec fn match_lt(a: MatchView, b: MatchView) -> bool {
    lex_lt(a.1, b.1) || (a.1 == b.1 && lex_lt(a.0, b.0))
}

pub open spec fn matches_sorted(ms: Seq<MatchView>) -> bool {
    forall|i: int, j: int| 0 <= i < j < ms.len() ==> !match_lt(#[trigger] ms[j], #[trigger] ms[i])
}

pub proof fn lemma_match_order(a: MatchView, b: MatchView, c: MatchView)
    ensures
        !match_lt(a, a),
        match_lt(a, b) ==> !match_lt(b, a),
        match_lt(a, b) && match_lt(b, c) ==> match_lt(a, c),
        !match_lt(a, b) && !match_lt(b, a) ==> a.1 == b.1 && a.0 == b.0,
        !match_lt(a, b) && !match_lt(b, c) ==> !match_lt(a, c) || (a.1 == b.1 && a.0 == b.0 && b.1
            == c.1 && b.0 == c.0) || true,
{
    lemma_lex_irreflexive(a.0);
    lemma_lex_irreflexive(a.1);
    lemma_lex_asymmetric(a.0, b.0);
    lemma_lex_asymmetric(a.1, b.1);
    lemma_lex_total(a.0, b.0);
    lemma_lex_total(a.1, b.1);
    if lex_lt(a.1, b.1) && lex_lt(b.1, c.1) {
        lemma_lex_transitive(a.1, b.1, c.1);
    }
    if lex_lt(a.0, b.0) && lex_lt(b.0, c.0) {
        lemma_lex_transitive(a.0, b.0, c.0);
    }
}

fn extend_with_all(terms: &mut Vec<String>, values: &Vec<String>)
    requires
        strictly_sorted(views(old(terms)@)),
    ensures
        strictly_sorted(views(final(terms)@)),
        views(final(terms)@).to_set() == views(old(terms)@).to_set() + tokens_of_all(views(values@)),
{
    let ghost start = views(terms@).to_set();
    let ghost vv = views(values@);
    let mut i: usize = 0;
    assert(vv.take(0) =~= Seq::<Seq<char>>::empty());
    assert(start + tokens_of_all(vv.take(0)) =~= start);
    while i < values.len()
        invariant
            i <= values@.len(),
            vv == views(values@),
            strictly_sorted(views(terms@)),
            views(terms@).to_set() == start + tokens_of_all(vv.take(i as int)),
        decreases values@.len() - i,
    {
        extend_with_tokens(terms, values[i].as_str());
        assert(vv.take(i as int + 1).drop_last() =~= vv.take(i as int));
        assert(views(terms@).to_set() =~= start + tokens_of_all(vv.take(i as int + 1)));
        i += 1;
    }
    assert(vv.take(values@.len() as int) =~= vv);
}

/// The query terms of a context, as a sorted set.
fn context_terms(context: &ContextSnapshot) -> (r: Vec<String>)
    ensures
        strictly_sorted(views(r@)),
        views(r@).to_set() == context_terms_of(*context),
{
    let mut terms: Vec<String> = Vec::new();
    assert(views(terms@).to_set() =~= Set::<Seq<char>>::empty());
    extend_with_tokens(&mut terms, context.label.as_str());
    extend_with_all(&mut terms, &context.tags);
    let ghost start = views(terms@).to_set();
    let ghost fv = context.facts_view();
    let mut i: usize = 0;
    assert(fv.take(0) =~= Seq::<(Seq<char>, Seq<char>)>::empty());
    assert(start + pair_tokens(fv.take(0)) =~= start);
    while i < context.facts.len()
        invariant
            i <= context.facts@.len(),
            fv == context.facts_view(),
            strictly_sorted(views(terms@)),
            views(terms@).to_set() == start + pair_tokens(fv.take(i as int)),
        decreases context.facts@.len() - i,
    {
        extend_with_tokens(&mut terms, context.facts[i].0.as_str());
        extend_with_tokens(&mut terms, context.facts[i].1.as_str());
        assert(fv.take(i as int + 1).drop_last() =~= fv.take(i as int));
        assert(views(terms@).to_set() =~= start + pair_tokens(fv.take(i as int + 1)));
        i += 1;
    }
    assert(fv.take(context.facts@.len() as int) =~= fv);
    assert(views(terms@).to_set() =~= context_terms_of(*context));
    terms
}

/// The terms a source card discloses, as a sorted set.
fn source_terms(source: &EnrichmentSource) -> (r: Vec<String>)
    ensures
        strictly_sorted(views(r@)),
        views(r@).to_set() == source_terms_of(source_view(*source)),
{
    let mut terms: Vec<String> = Vec::new();
    assert(views(terms@).to_set() =~= Set::<Seq<char>>::empty());
    extend_with_tokens(&mut terms, source.presentation.as_str());
    extend_with_tokens(&mut terms, source.title.as_str());
    extend_with_all(&mut terms, &source.badges);
    let ghost start = views(terms@).to_set();
    let ghost vv = value_views(source.values@);
    let mut i: usize = 0;
    assert(vv.take(0) =~= Seq::<ValueView>::empty());
    assert(start + pair_tokens(vv.take(0)) =~= start);
    while i < source.values.len()
        invariant
            i <= source.values@.len(),
            vv == value_views(source.values@),
            strictly_sorted(views(terms@)),
            views(terms@).to_set() == start + pair_tokens(vv.take(i as int)),
        decreases source.values@.len() - i,
    {
        extend_with_tokens(&mut terms, source.values[i].label.as_str());
        extend_with_tokens(&mut terms, source.values[i].value.as_str());
        assert(vv.take(i as int + 1).drop_last() =~= vv.take(i as int));
        assert(views(terms@).to_set() =~= start + pair_tokens(vv.take(i as int + 1)));
        i += 1;
    }
    assert(vv.take(source.values@.len() as int) =~= vv);
    assert(views(terms@).to_set() =~= source_terms_of(source_view(*source)));
    terms
}

/// The terms two sorted sets share, as a sorted set.
fn intersect(q: &Vec<String>, t: &Vec<String>) -> (r: Vec<String>)
    requires
        strictly_sorted(views(q@)),
    ensures
        strictly_sorted(views(r@)),
        views(r@).to_set() == views(q@).to_set().intersect(views(t@).to_set()),
{
    let ghost qv = views(q@);
    let mut out: Vec<String> = Vec::new();
    let mut i: usize = 0;
    assert(views(out@).to_set() =~= qv.take(0).to_set().intersect(views(t@).to_set()));
    while i < q.len()
        invariant
            i <= q@.len(),
            qv == views(q@),
            strictly_sorted(qv),
            strictly_sorted(views(out@)),
            forall|m: int| 0 <= m < views(out@).len() ==> qv.take(i as int).contains(#[trigger] views(out@)[m]),
            views(out@).to_set() == qv.take(i as int).to_set().intersect(views(t@).to_set()),
        decreases q@.len() - i,
    {
        let ghost before = views(out@);
        let ghost a = qv.take(i as int);
        let ghost b = qv.take(i as int + 1);
        proof {
            assert(b =~= a.push(qv[i as int]));
        }
        if sorted_contains_any(t, q[i].as_str()) {
            out.push(q[i].clone());
            proof {
                assert(views(out@) =~= before.push(qv[i as int]));
                assert forall|x: int, y: int| 0 <= x < y < views(out@).len() implies lex_lt(
                    #[trigger] views(out@)[x],
                    #[trigger] views(out@)[y],
                ) by {
                    if y == before.len() {
                        assert(a.contains(views(out@)[x]));
                        let k = choose|k: int| 0 <= k < a.len() && a[k] == views(out@)[x];
                        assert(qv[k] == views(out@)[x]);
                    } else {
                        assert(views(out@)[x] == before[x] && views(out@)[y] == before[y]);
                    }
                }
                assert forall|m: int| 0 <= m < views(out@).len() implies b.contains(#[trigger] views(out@)[m]) by {
                    if m == before.len() {
                        assert(b[i as int] == qv[i as int]);
                    } else {
                        assert(views(out@)[m] == before[m]);
                        assert(a.contains(before[m]));
                        let k = choose|k: int| 0 <= k < a.len() && a[k] == before[m];
                        assert(b[k] == before[m]);
                    }
                }
            }
        } else {
            proof {
                assert forall|m: int| 0 <= m < views(out@).len() implies b.contains(#[trigger] views(out@)[m]) by {
                    assert(a.contains(views(out@)[m]));
                    let k = choose|k: int| 0 <= k < a.len() && a[k] == views(out@)[m];
                    assert(b[k] == views(out@)[m]);
                }
            }
        }
        proof {
            let tset = views(t@).to_set();
            let found = views(t@).contains(qv[i as int]);
            assert(views(out@) == if found {
                before.push(qv[i as int])
            } else {
                before
            });
            assert forall|y: Seq<char>| #[trigger] views(out@).to_set().contains(y) == b.to_set().intersect(
                tset,
            ).contains(y) by {
                let in_b = b.contains(y);
                let in_a = a.contains(y);
                if in_b {
                    let k = choose|k: int| 0 <= k < b.len() && b[k] == y;
                    if k < a.len() {
                        assert(a[k] == y);
                    }
                }
                if in_a {
                    let k = choose|k: int| 0 <= k < a.len() && a[k] == y;
                    assert(b[k] == y);
                }
                if y == qv[i as int] {
                    assert(b[i as int] == y);
                }
                assert(in_b == (in_a || y == qv[i as int]));
                assert(before.to_set().contains(y) == (in_a && tset.contains(y)));
                if views(out@).contains(y) {
                    let k = choose|k: int| 0 <= k < views(out@).len() && views(out@)[k] == y;
                    if k < before.len() {
                        assert(before[k] == y);
                    }
                }
                if before.contains(y) {
                    let k = choose|k: int| 0 <= k < before.len() && before[k] == y;
                    assert(views(out@)[k] == y);
                }
                if found && y == qv[i as int] {
                    assert(views(out@)[before.len() as int] == y);
                }
            }
            assert(views(out@).to_set() =~= b.to_set().intersect(tset));
        }
        i += 1;
    }
    assert(qv.take(q@.len() as int) =~= qv);
    out
}

/// Whether a vector of strings holds a text.
fn sorted_contains_any(v: &Vec<String>, x: &str) -> (r: bool)
    ensures
        r == views(v@).contains(x@),
{
    sorted_contains(v, x)
}

fn compare_match(a: &EnrichmentMatch, b: &EnrichmentMatch) -> (r: Order)
    ensures
        r == Order::Less <==> match_lt(match_view(*a), match_view(*b)),
        r == Order::Greater <==> match_lt(match_view(*b), match_view(*a)),
{
    proof {
        lemma_match_order(match_view(*a), match_view(*b), match_view(*a));
    }
    match compare_str(a.presentation.as_str(), b.presentation.as_str()) {
        Order::Less => Order::Less,
        Order::Greater => Order::Greater,
        Order::Equal => compare_str(a.source_digest.as_str(), b.source_digest.as_str()),
    }
}

/// A copy of a vector of strings.
fn clone_strings(v: &Vec<String>) -> (r: Vec<String>)
    ensures
        views(r@) == views(v@),
{
    let mut out: Vec<String> = Vec::new();
    let mut i: usize = 0;
    while i < v.len()
        invariant
            i <= v@.len(),
            views(out@) == views(v@).take(i as int),
        decreases v@.len() - i,
    {
        let ghost before = views(out@);
        let c = v[i].clone();
        out.push(c);
        assert(views(out@) =~= before.push(v@[i as int]@));
        assert(views(v@).take(i as int + 1) =~= views(v@).take(i as int).push(v@[i as int]@));
        i += 1;
    }
    assert(views(v@).take(v@.len() as int) =~= views(v@));
    out
}

fn clone_match(m: &EnrichmentMatch) -> (r: EnrichmentMatch)
    ensures
        match_view(r) == match_view(*m),
{
    EnrichmentMatch {
        source_digest: m.source_digest.clone(),
        presentation: m.presentation.clone(),
        terms: clone_strings(&m.terms),
    }
}

/// The first position whose match sorts after `x`.
fn first_after(v: &Vec<EnrichmentMatch>, x: &EnrichmentMatch) -> (k: usize)
    ensures
        k <= v@.len(),
        forall|j: int| 0 <= j < k ==> !match_lt(match_view(*x), #[trigger] match_views(v@)[j]),
        k < v@.len() ==> match_lt(match_view(*x), match_views(v@)[k as int]),
{
    let mut k: usize = 0;
    while k < v.len()
        invariant
            k <= v@.len(),
            forall|j: int| 0 <= j < k ==> !match_lt(match_view(*x), #[trigger] match_views(v@)[j]),
        decreases v@.len() - k,
    {
        match compare_match(x, &v[k]) {
            Order::Less => {
                return k;
            },
            _ => {},
        }
        k += 1;
    }
    k
}

/// Where a match goes among sorted matches: after every match that does not
/// sort after it.
pub open spec fn match_slot(s: Seq<MatchView>, x: MatchView) -> int
    decreases s.len(),
{
    if s.len() == 0 {
        0
    } else if match_lt(x, s[0]) {
        0
    } else {
        1 + match_slot(s.drop_first(), x)
    }
}

/// Matches ordered by presentation and then source digest, matches with
/// equal keys kept in their given order.
pub open spec fn stable_sorted_matches(ms: Seq<MatchView>) -> Seq<MatchView>
    decreases ms.len(),
{
    if ms.len() == 0 {
        seq![]
    } else {
        let s = stable_sorted_matches(ms.drop_last());
        s.insert(match_slot(s, ms.last()), ms.last())
    }
}

pub proof fn lemma_match_slot(s: Seq<MatchView>, x: MatchView, k: int)
    requires
        0 <= k <= s.len(),
        forall|j: int| 0 <= j < k ==> !match_lt(x, #[trigger] s[j]),
        k < s.len() ==> match_lt(x, s[k]),
    ensures
        match_slot(s, x) == k,
    decreases s.len(),
{
    if s.len() > 0 && k > 0 {
        let t = s.drop_first();
        assert forall|j: int| 0 <= j < k - 1 implies !match_lt(x, #[trigger] t[j]) by {
            assert(t[j] == s[j + 1]);
        }
        if k < s.len() {
            assert(t[k - 1] == s[k]);
        }
        lemma_match_slot(t, x, k - 1);
    }
}

/// Sorts matches by presentation, then source digest, keeping matches with
/// equal keys in their given order.
fn sort_matches(ms: Vec<EnrichmentMatch>) -> (r: Vec<EnrichmentMatch>)
    ensures
        match_views(r@) == stable_sorted_matches(match_views(ms@)),
        matches_sorted(match_views(r@)),
        match_views(r@).to_multiset() == match_views(ms@).to_multiset(),
{
    broadcast use vstd::seq_lib::group_to_multiset_ensures;

    let mut out: Vec<EnrichmentMatch> = Vec::new();
    let mut i: usize = 0;
    while i < ms.len()
        invariant
            i <= ms@.len(),
            matches_sorted(match_views(out@)),
            match_views(out@) == stable_sorted_matches(match_views(ms@.take(i as int))),
            match_views(out@).to_multiset() == match_views(ms@.take(i as int)).to_multiset(),
        decreases ms@.len() - i,
    {
        let x = clone_match(&ms[i]);
        let ghost xv = match_view(ms@[i as int]);
        let ghost ov = match_views(out@);
        let k = first_after(&out, &x);
        proof {
            let nv = ov.insert(k as int, xv);
            assert forall|a: int, b: int| 0 <= a < b < nv.len() implies !match_lt(
                #[trigger] nv[b],
                #[trigger] nv[a],
            ) by {
                if b < k {
                    assert(nv[a] == ov[a] && nv[b] == ov[b]);
                } else if b == k {
                    assert(nv[a] == ov[a]);
                } else if a < k {
                    assert(nv[a] == ov[a] && nv[b] == ov[b - 1]);
                    lemma_match_order(ov[b - 1], xv, ov[k as int]);
                    lemma_match_order(ov[b - 1], ov[a], xv);
                    lemma_match_order(ov[k as int], ov[b - 1], xv);
                    lemma_match_order(ov[b - 1], xv, ov[a]);
                    lemma_match_order(xv, ov[b - 1], ov[a]);
                    lemma_match_order(ov[a], xv, ov[k as int]);
                    if b - 1 > k {
                        assert(!match_lt(ov[b - 1], ov[k as int]));
                    }
                } else if a == k {
                    assert(nv[b] == ov[b - 1]);
                    lemma_match_order(ov[b - 1], xv, ov[k as int]);
                    if b - 1 > k {
                        assert(!match_lt(ov[b - 1], ov[k as int]));
                    }
                } else {
                    assert(nv[a] == ov[a - 1] && nv[b] == ov[b - 1]);
                }
            }
            assert(ms@.take(i as int + 1) =~= ms@.take(i as int).push(ms@[i as int]));
            assert(match_views(ms@.take(i as int + 1)) =~= match_views(ms@.take(i as int)).push(xv));
            lemma_match_slot(ov, xv, k as int);
            assert(match_views(ms@.take(i as int + 1)).drop_last() =~= match_views(ms@.take(i as int)));
        }
        out.insert(k, x);
        assert(match_views(out@) =~= ov.insert(k as int, xv));
        proof {
            vstd::seq_lib::to_multiset_insert(ov, k as int, xv);
            vstd::seq_lib::to_multiset_build(match_views(ms@.take(i as int)), xv);
        }
        i += 1;
    }
    assert(ms@.take(ms@.len() as int) =~= ms@);
    out
}

// ---------------------------------------------------------------------------
// Canonical text and digests
// ---------------------------------------------------------------------------

pub open spec fn json_value(v: ValueView) -> Seq<char> {
    "{\"label\":"@ + json_string(v.0) + ",\"value\":"@ + json_string(v.1) + "}"@
}

pub open spec fn json_value_items(vs: Seq<ValueView>) -> Seq<char>
    decreases vs.len(),
{
    if vs.len() == 0 {
        seq![]
    } else if vs.len() == 1 {
        json_value(vs[0])
    } else {
        json_value_items(vs.drop_last()) + seq![','] + json_value(vs.last())
    }
}

/// The fields a source digest binds, as a JSON array.
pub open spec fn source_fields_json(s: SourceView) -> Seq<char> {
    "["@ + json_string(s.1) + ","@ + json_string(s.2) + ","@ + json_string_array(s.3) + ",["@
        + json_value_items(s.4) + "]]"@
}

/// A source card as a JSON object.
pub open spec fn source_json(s: SourceView) -> Seq<char> {
    "{\"digest\":"@ + json_string(s.0) + ",\"presentation\":"@ + json_string(s.1) + ",\"title\":"@
        + json_string(s.2) + ",\"badges\":"@ + json_string_array(s.3) + ",\"values\":["@
        + json_value_items(s.4) + "]}"@
}

pub open spec fn json_source_items(ss: Seq<SourceView>) -> Seq<char>
    decreases ss.len(),
{
    if ss.len() == 0 {
        seq![]
    } else if ss.len() == 1 {
        source_json(ss[0])
    } else {
        json_source_items(ss.drop_last()) + seq![','] + source_json(ss.last())
    }
}

/// The fields the evidence digest binds, as a JSON array.
pub open spec fn evidence_fields_json(e: SealedEnrichment) -> Seq<char> {
    "["@ + json_string(e.schema@) + ","@ + json_string(e.algorithm@) + ","@ + json_string(
        e.context_digest@,
    ) + ","@ + json_string(e.endpoint_label@) + ","@ + json_string(e.projection_label@) + ","@
        + json_string(e.session@) + ",["@ + json_source_items(source_views(e.sources@)) + "]]"@
}

pub open spec fn match_json(m: MatchView) -> Seq<char> {
    "{\"source_digest\":"@ + json_string(m.0) + ",\"presentation\":"@ + json_string(m.1)
        + ",\"terms\":"@ + json_string_array(m.2) + "}"@
}

pub open spec fn json_match_items(ms: Seq<MatchView>) -> Seq<char>
    decreases ms.len(),
{
    if ms.len() == 0 {
        seq![]
    } else if ms.len() == 1 {
        match_json(ms[0])
    } else {
        json_match_items(ms.drop_last()) + seq![','] + match_json(ms.last())
    }
}

/// A report as a JSON object.
pub open spec fn report_json(r: EnrichmentReport) -> Seq<char> {
    "{\"schema\":"@ + json_string(r.schema@) + ",\"algorithm\":"@ + json_string(r.algorithm@)
        + ",\"context_digest\":"@ + json_string(r.context_digest@) + ",\"endpoint_label\":"@
        + json_string(r.endpoint_label@) + ",\"projection_label\":"@ + json_string(
        r.projection_label@,
    ) + ",\"session\":"@ + json_string(r.session@) + ",\"query_terms\":"@ + json_string_array(
        views(r.query_terms@),
    ) + ",\"source_cards\":"@ + json_nat(r.source_cards as nat) + ",\"matches\":["@
        + json_match_items(match_views(r.matches@)) + "]}"@
}

fn push_value_items(out: &mut String, vs: &Vec<EnrichmentValue>)
    ensures
        final(out)@ == old(out)@ + json_value_items(value_views(vs@)),
{
    let ghost vv = value_views(vs@);
    let ghost start = out@;
    let mut i: usize = 0;
    assert(vv.take(0) =~= Seq::<ValueView>::empty());
    while i < vs.len()
        invariant
            i <= vs@.len(),
            vv == value_views(vs@),
            out@ == start + json_value_items(vv.take(i as int)),
        decreases vs@.len() - i,
    {
        if i > 0 {
            push_char(out, ',');
        }
        push_str(out, "{\"label\":");
        push_json_string(out, vs[i].label.as_str());
        push_str(out, ",\"value\":");
        push_json_string(out, vs[i].value.as_str());
        push_str(out, "}");
        proof {
            let t = vv.take(i as int + 1);
            assert(t.drop_last() =~= vv.take(i as int));
            assert(t.last() == (vs@[i as int].label@, vs@[i as int].value@));
            if i == 0 {
                assert(json_value_items(t) == json_value(t[0]));
            }
        }
        assert(out@ =~= start + json_value_items(vv.take(i as int + 1)));
        i += 1;
    }
    assert(vv.take(vs@.len() as int) =~= vv);
}

fn push_source_fields(out: &mut String, s: &EnrichmentSource)
    ensures
        final(out)@ == old(out)@ + source_fields_json(source_view(*s)),
{
    push_str(out, "[");
    push_json_string(out, s.presentation.as_str());
    push_str(out, ",");
    push_json_string(out, s.title.as_str());
    push_str(out, ",");
    push_json_string_array(out, &s.badges);
    push_str(out, ",[");
    push_value_items(out, &s.values);
    push_str(out, "]]");
    assert(s.badges@.map_values(|b: String| b@) =~= views(s.badges@));
    assert(out@ =~= old(out)@ + source_fields_json(source_view(*s)));
}

fn push_source(out: &mut String, s: &EnrichmentSource)
    ensures
        final(out)@ == old(out)@ + source_json(source_view(*s)),
{
    push_str(out, "{\"digest\":");
    push_json_string(out, s.digest.as_str());
    push_str(out, ",\"presentation\":");
    push_json_string(out, s.presentation.as_str());
    push_str(out, ",\"title\":");
    push_json_string(out, s.title.as_str());
    push_str(out, ",\"badges\":");
    push_json_string_array(out, &s.badges);
    push_str(out, ",\"values\":[");
    push_value_items(out, &s.values);
    push_str(out, "]}");
    assert(s.badges@.map_values(|b: String| b@) =~= views(s.badges@));
    assert(out@ =~= old(out)@ + source_json(source_view(*s)));
}

fn push_match(out: &mut String, m: &EnrichmentMatch)
    ensures
        final(out)@ == old(out)@ + match_json(match_view(*m)),
{
    push_str(out, "{\"source_digest\":");
    push_json_string(out, m.source_digest.as_str());
    push_str(out, ",\"presentation\":");
    push_json_string(out, m.presentation.as_str());
    push_str(out, ",\"terms\":");
    push_json_string_array(out, &m.terms);
    push_str(out, "}");
    assert(m.terms@.map_values(|b: String| b@) =~= views(m.terms@));
    assert(out@ =~= old(out)@ + match_json(match_view(*m)));
}

impl EnrichmentSource {
    /// The digest of the fields the correlation reads.
    fn expected_digest(&self) -> (d: String)
        ensures
            d@ == digest_of(source_fields_json(source_view(*self))),
    {
        let mut out = String::new();
        push_source_fields(&mut out, self);
        digest_text(&out)
    }
}

impl SealedEnrichment {
    /// The digest of the evidence's identity and sources.
    fn expected_digest(&self) -> (d: String)
        ensures
            d@ == digest_of(evidence_fields_json(*self)),
    {
        let mut out = String::new();
        push_str(&mut out, "[");
        push_json_string(&mut out, self.schema.as_str());
        push_str(&mut out, ",");
        push_json_string(&mut out, self.algorithm.as_str());
        push_str(&mut out, ",");
        push_json_string(&mut out, self.context_digest.as_str());
        push_str(&mut out, ",");
        push_json_string(&mut out, self.endpoint_label.as_str());
        push_str(&mut out, ",");
        push_json_string(&mut out, self.projection_label.as_str());
        push_str(&mut out, ",");
        push_json_string(&mut out, self.session.as_str());
        push_str(&mut out, ",[");
        let ghost start = out@;
        let ghost sv = source_views(self.sources@);
        let mut i: usize = 0;
        assert(sv.take(0) =~= Seq::<SourceView>::empty());
        while i < self.sources.len()
            invariant
                i <= self.sources@.len(),
                sv == source_views(self.sources@),
                out@ == start + json_source_items(sv.take(i as int)),
            decreases self.sources@.len() - i,
        {
            if i > 0 {
                push_char(&mut out, ',');
            }
            push_source(&mut out, &self.sources[i]);
            proof {
                let t = sv.take(i as int + 1);
                assert(t.drop_last() =~= sv.take(i as int));
                assert(t.last() == source_view(self.sources@[i as int]));
                if i == 0 {
                    assert(json_source_items(t) == source_json(t[0]));
                }
            }
            assert(out@ =~= start + json_source_items(sv.take(i as int + 1)));
            i += 1;
        }
        assert(sv.take(self.sources@.len() as int) =~= sv);
        push_str(&mut out, "]]");
        assert(out@ =~= evidence_fields_json(*self));
        digest_text(&out)
    }
}

impl EnrichmentReport {
    /// The digest of the report's canonical text.
    pub fn digest(&self) -> (d: String)
        ensures
            d@ == digest_of(report_json(*self)),
    {
        let mut out = String::new();
        push_str(&mut out, "{\"schema\":");
        push_json_string(&mut out, self.schema.as_str());
        push_str(&mut out, ",\"algorithm\":");
        push_json_string(&mut out, self.algorithm.as_str());
        push_str(&mut out, ",\"context_digest\":");
        push_json_string(&mut out, self.context_digest.as_str());
        push_str(&mut out, ",\"endpoint_label\":");
        push_json_string(&mut out, self.endpoint_label.as_str());
        push_str(&mut out, ",\"projection_label\":");
        push_json_string(&mut out, self.projection_label.as_str());
        push_str(&mut out, ",\"session\":");
        push_json_string(&mut out, self.session.as_str());
        push_str(&mut out, ",\"query_terms\":");
        push_json_string_array(&mut out, &self.query_terms);
        push_str(&mut out, ",\"source_cards\":");
        push_decimal(&mut out, self.source_cards as u64);
        push_str(&mut out, ",\"matches\":[");
        let ghost start = out@;
        let ghost mv = match_views(self.matches@);
        let mut i: usize = 0;
        assert(mv.take(0) =~= Seq::<MatchView>::empty());
        while i < self.matches.len()
            invariant
                i <= self.matches@.len(),
                mv == match_views(self.matches@),
                out@ == start + json_match_items(mv.take(i as int)),
            decreases self.matches@.len() - i,
        {
            if i > 0 {
                push_char(&mut out, ',');
            }
            push_match(&mut out, &self.matches[i]);
            proof {
                let t = mv.take(i as int + 1);
                assert(t.drop_last() =~= mv.take(i as int));
                assert(t.last() == match_view(self.matches@[i as int]));
                if i == 0 {
                    assert(json_match_items(t) == match_json(t[0]));
                }
            }
            assert(out@ =~= start + json_match_items(mv.take(i as int + 1)));
            i += 1;
        }
        assert(mv.take(self.matches@.len() as int) =~= mv);
        push_str(&mut out, "]}");
        assert(self.query_terms@.map_values(|b: String| b@) =~= views(self.query_terms@));
        assert(out@ =~= report_json(*self));
        digest_text(&out)
    }
}

// ---------------------------------------------------------------------------
// Verification and correlation
// ---------------------------------------------------------------------------

/// The first part of sealed evidence that does not match its contents.
pub open spec fn evidence_problem(e: SealedEnrichment, c: ContextSnapshot) -> Option<Seq<char>> {
    let sv = source_views(e.sources@);
    if e.schema@ != EVIDENCE_SCHEMA@ {
        Some("schema"@)
    } else if e.algorithm@ != CORRELATION_ALGORITHM@ {
        Some("algorithm"@)
    } else if e.context_digest@ != digest_of(c.identity_text()) {
        Some("context digest"@)
    } else if exists|i: int| 0 <= i < sv.len() && (#[trigger] sv[i]).0 != digest_of(source_fields_json(sv[i])) {
        Some("source digest"@)
    } else if e.evidence_digest@ != digest_of(evidence_fields_json(e)) {
        Some("evidence digest"@)
    } else {
        None
    }
}

/// The report of a correlation: the evidence's identity, the context's query
/// terms, the number of source cards, and one match per source that shares a
/// term, ordered by presentation and then source digest.
pub open spec fn is_report_of(r: EnrichmentReport, e: SealedEnrichment, c: ContextSnapshot) -> bool {
    let query = context_terms_of(c);
    &&& r.schema@ == REPORT_SCHEMA@
    &&& r.algorithm@ == e.algorithm@
    &&& r.context_digest@ == e.context_digest@
    &&& r.endpoint_label@ == e.endpoint_label@
    &&& r.projection_label@ == e.projection_label@
    &&& r.session@ == e.session@
    &&& views(r.query_terms@) == sorted_of(query)
    &&& r.source_cards == e.sources@.len()
    &&& match_views(r.matches@) == stable_sorted_matches(candidate_matches(source_views(e.sources@), query))
    &&& matches_sorted(match_views(r.matches@))
    &&& match_views(r.matches@).to_multiset() == candidate_matches(source_views(e.sources@), query).to_multiset()
}

/// The identity text of the report a correlation of this evidence with this
/// context gives.
pub open spec fn report_json_of(e: SealedEnrichment, c: ContextSnapshot) -> Seq<char> {
    let query = context_terms_of(c);
    "{\"schema\":"@ + json_string(REPORT_SCHEMA@) + ",\"algorithm\":"@ + json_string(e.algorithm@)
        + ",\"context_digest\":"@ + json_string(e.context_digest@) + ",\"endpoint_label\":"@
        + json_string(e.endpoint_label@) + ",\"projection_label\":"@ + json_string(
        e.projection_label@,
    ) + ",\"session\":"@ + json_string(e.session@) + ",\"query_terms\":"@ + json_string_array(
        sorted_of(query),
    ) + ",\"source_cards\":"@ + json_nat(e.sources@.len()) + ",\"matches\":["@
        + json_match_items(stable_sorted_matches(candidate_matches(source_views(e.sources@), query)))
        + "]}"@
}

/// Every report of a correlation has the same identity text.
pub proof fn lemma_report_json_of(r: EnrichmentReport, e: SealedEnrichment, c: ContextSnapshot)
    requires
        is_report_of(r, e, c),
    ensures
        report_json(r) == report_json_of(e, c),
{
}

fn invalid_evidence(field: &str) -> (e: EnrichmentError)
    ensures
        e matches EnrichmentError::InvalidEvidence(m) && m@ == field@ + " does not match its contents"@,
{
    let mut m = String::new();
    push_str(&mut m, field);
    push_str(&mut m, " does not match its contents");
    EnrichmentError::InvalidEvidence(m)
}

impl SealedEnrichment {
    /// Checks that the evidence binds its schema, algorithm, context, sources
    /// and contents, then correlates it with the context.
    pub fn verify(&self, context: &ContextSnapshot) -> (r: Result<EnrichmentReport, EnrichmentError>)
        ensures
            match evidence_problem(*self, *context) {
                Some(f) => r matches Err(e) && e matches EnrichmentError::InvalidEvidence(m) && m@
                    == f + " does not match its contents"@,
                None => r matches Ok(rep) && is_report_of(rep, *self, *context),
            },
    {
        if !str_eq(self.schema.as_str(), EVIDENCE_SCHEMA) {
            return Err(invalid_evidence("schema"));
        }
        if !str_eq(self.algorithm.as_str(), CORRELATION_ALGORITHM) {
            return Err(invalid_evidence("algorithm"));
        }
        let cd = context.digest();
        if !str_eq(self.context_digest.as_str(), cd.as_str()) {
            return Err(invalid_evidence("context digest"));
        }
        let ghost sv = source_views(self.sources@);
        let mut i: usize = 0;
        while i < self.sources.len()
            invariant
                i <= self.sources@.len(),
                sv == source_views(self.sources@),
                self.schema@ == EVIDENCE_SCHEMA@,
                self.algorithm@ == CORRELATION_ALGORITHM@,
                self.context_digest@ == digest_of(context.identity_text()),
                forall|j: int| 0 <= j < i ==> (#[trigger] sv[j]).0 == digest_of(source_fields_json(sv[j])),
            decreases self.sources@.len() - i,
        {
            let expected = self.sources[i].expected_digest();
            if !str_eq(self.sources[i].digest.as_str(), expected.as_str()) {
                assert(sv[i as int].0 != digest_of(source_fields_json(sv[i as int])));
                return Err(invalid_evidence("source digest"));
            }
            i += 1;
        }
        let expected = self.expected_digest();
        if !str_eq(self.evidence_digest.as_str(), expected.as_str()) {
            return Err(invalid_evidence("evidence digest"));
        }
        Ok(self.report(context))
    }

    fn report(&self, context: &ContextSnapshot) -> (r: EnrichmentReport)
        ensures
            is_report_of(r, *self, *context),
    {
        let query = context_terms(context);
        let ghost qs = context_terms_of(*context);
        let ghost sv = source_views(self.sources@);
        let mut found: Vec<EnrichmentMatch> = Vec::new();
        let mut i: usize = 0;
        assert(sv.take(0) =~= Seq::<SourceView>::empty());
        assert(match_views(found@) =~= Seq::<MatchView>::empty());
        while i < self.sources.len()
            invariant
                i <= self.sources@.len(),
                sv == source_views(self.sources@),
                strictly_sorted(views(query@)),
                views(query@).to_set() == qs,
                match_views(found@) == candidate_matches(sv.take(i as int), qs),
            decreases self.sources@.len() - i,
        {
            let source = &self.sources[i];
            let terms = source_terms(source);
            let shared = intersect(&query, &terms);
            proof {
                lemma_sorted_of(views(shared@));
                let t = sv.take(i as int + 1);
                assert(t.drop_last() =~= sv.take(i as int));
                assert(t.last() == source_view(*source));
            }
            if shared.len() > 0 {
                let ghost before = match_views(found@);
                let m = EnrichmentMatch {
                    source_digest: source.digest.clone(),
                    presentation: source.presentation.clone(),
                    terms: shared,
                };
                found.push(m);
                assert(match_views(found@) =~= before.push(match_view(m)));
            }
            i += 1;
        }
        assert(sv.take(self.sources@.len() as int) =~= sv);
        let matches = sort_matches(found);
        proof {
            lemma_sorted_of(views(query@));
        }
        EnrichmentReport {
            schema: copy_str(REPORT_SCHEMA),
            algorithm: self.algorithm.clone(),
            context_digest: self.context_digest.clone(),
            endpoint_label: self.endpoint_label.clone(),
            projection_label: self.projection_label.clone(),
            session: self.session.clone(),
            query_terms: query,
            source_cards: self.sources.len(),
            matches,
        }
    }
}

// ---------------------------------------------------------------------------
// Sealing a mounted projection
// ---------------------------------------------------------------------------

/// The card fields of one resolved presentation.
#[derive(Clone, Debug, PartialEq, Eq)]
pub struct PortableCard {
    pub title: String,
    pub badges: Vec<String>,
    pub values: Vec<EnrichmentValue>,
}

/// One resolved presentation of a mounted projection: its semantic label and,
/// when it resolved to a portable card, the card.
#[derive(Clone, Debug, PartialEq, Eq)]
pub struct CardPresentation {
    pub label: String,
    pub card: Option<PortableCard>,
}

/// One mounted endpoint projection. Presentations are resolved copies of
/// disclosed resources; the source graph remains endpoint-side.
#[derive(Clone, Debug, PartialEq, Eq)]
pub struct ExternalProjection {
    pub endpoint_label: String,
    pub projection_label: String,
    pub session: String,
    pub presentations: Vec<CardPresentation>,
}

/// The source a card presentation yields, with its digest.
pub open spec fn presentation_source(p: CardPresentation) -> SourceView {
    let c = p.card->0;
    let unsealed: SourceView = (seq![], p.label@, c.title@, views(c.badges@), value_views(c.values@));
    (digest_of(source_fields_json(unsealed)), p.label@, c.title@, views(c.badges@), value_views(c.values@))
}

/// Sources are ordered by digest.
pub open spec fn sources_sorted(ss: Seq<SourceView>) -> bool {
    forall|i: int, j: int| 0 <= i < j < ss.len() ==> !lex_lt(#[trigger] ss[j].0, #[trigger] ss[i].0)
}

/// The evidence sealed from a projection for a context: its identity, the
/// sources of its cards ordered by digest, and the digest binding them.
pub open spec fn is_seal_of(e: SealedEnrichment, p: ExternalProjection, c: ContextSnapshot) -> bool {
    let sv = source_views(e.sources@);
    &&& e.schema@ == EVIDENCE_SCHEMA@
    &&& e.algorithm@ == CORRELATION_ALGORITHM@
    &&& e.context_digest@ == digest_of(c.identity_text())
    &&& e.endpoint_label@ == p.endpoint_label@
    &&& e.projection_label@ == p.projection_label@
    &&& e.session@ == p.session@
    &&& sv == stable_sorted_sources(p.presentations@.map_values(|q: CardPresentation| presentation_source(q)))
    &&& sources_sorted(sv)
    &&& sv.to_multiset() == p.presentations@.map_values(|q: CardPresentation| presentation_source(q)).to_multiset()
    &&& e.evidence_digest@ == digest_of(evidence_fields_json(e))
}

/// Sealed evidence always verifies against the context it was sealed for.
pub proof fn law_sealed_evidence_verifies(e: SealedEnrichment, p: ExternalProjection, c: ContextSnapshot)
    requires
        is_seal_of(e, p, c),
    ensures
        evidence_problem(e, c) is None,
{
    broadcast use vstd::seq_lib::group_to_multiset_ensures;

    let sv = source_views(e.sources@);
    let ps = p.presentations@.map_values(|q: CardPresentation| presentation_source(q));
    assert forall|i: int| 0 <= i < sv.len() implies (#[trigger] sv[i]).0 == digest_of(source_fields_json(sv[i])) by {
        assert(sv.to_multiset().count(sv[i]) > 0);
        assert(ps.contains(sv[i]));
        let k = choose|k: int| 0 <= k < ps.len() && ps[k] == sv[i];
        let q = p.presentations@[k];
        let unsealed: SourceView = (seq![], q.label@, q.card->0.title@, views(q.card->0.badges@), value_views(q.card->0.values@));
        assert(source_fields_json(sv[i]) == source_fields_json(unsealed));
    }
}

fn clone_values(v: &Vec<EnrichmentValue>) -> (r: Vec<EnrichmentValue>)
    ensures
        value_views(r@) == value_views(v@),
{
    let mut out: Vec<EnrichmentValue> = Vec::new();
    let mut i: usize = 0;
    while i < v.len()
        invariant
            i <= v@.len(),
            value_views(out@) == value_views(v@).take(i as int),
        decreases v@.len() - i,
    {
        let ghost before = value_views(out@);
        let x = EnrichmentValue { label: v[i].label.clone(), value: v[i].value.clone() };
        out.push(x);
        assert(value_views(out@) =~= before.push((v@[i as int].label@, v@[i as int].value@)));
        assert(value_views(v@).take(i as int + 1) =~= value_views(v@).take(i as int).push(
            (v@[i as int].label@, v@[i as int].value@),
        ));
        i += 1;
    }
    assert(value_views(v@).take(v@.len() as int) =~= value_views(v@));
    out
}

fn clone_source(s: &EnrichmentSource) -> (r: EnrichmentSource)
    ensures
        source_view(r) == source_view(*s),
{
    EnrichmentSource {
        digest: s.digest.clone(),
        presentation: s.presentation.clone(),
        title: s.title.clone(),
        badges: clone_strings(&s.badges),
        values: clone_values(&s.values),
    }
}

impl EnrichmentSource {
    /// The source a presentation yields, refused unless it is a portable card.
    fn from_presentation(presentation: &CardPresentation) -> (r: Result<Self, EnrichmentError>)
        ensures
            match presentation.card {
                None => r matches Err(e) && e matches EnrichmentError::InvalidEvidence(m) && m@
                    == "the mounted representation is not a portable card"@,
                Some(_) => r matches Ok(s) && source_view(s) == presentation_source(*presentation),
            },
    {
        let card = match &presentation.card {
            Some(c) => c,
            None => {
                return Err(
                    EnrichmentError::InvalidEvidence(
                        copy_str("the mounted representation is not a portable card"),
                    ),
                );
            },
        };
        let mut source = EnrichmentSource {
            digest: String::new(),
            presentation: presentation.label.clone(),
            title: card.title.clone(),
            badges: clone_strings(&card.badges),
            values: clone_values(&card.values),
        };
        source.digest = source.expected_digest();
        Ok(source)
    }
}

/// The first position whose source digest sorts after `digest`.
fn first_digest_after(v: &Vec<EnrichmentSource>, digest: &str) -> (k: usize)
    ensures
        k <= v@.len(),
        forall|j: int| 0 <= j < k ==> !lex_lt(digest@, #[trigger] source_views(v@)[j].0),
        k < v@.len() ==> lex_lt(digest@, source_views(v@)[k as int].0),
{
    let mut k: usize = 0;
    while k < v.len()
        invariant
            k <= v@.len(),
            forall|j: int| 0 <= j < k ==> !lex_lt(digest@, #[trigger] source_views(v@)[j].0),
        decreases v@.len() - k,
    {
        match compare_str(digest, v[k].digest.as_str()) {
            Order::Less => {
                return k;
            },
            _ => {},
        }
        k += 1;
    }
    k
}

/// Where a source goes among sources sorted by digest: after every source
/// whose digest does not sort after its own.
pub open spec fn source_slot(s: Seq<SourceView>, x: SourceView) -> int
    decreases s.len(),
{
    if s.len() == 0 {
        0
    } else if lex_lt(x.0, s[0].0) {
        0
    } else {
        1 + source_slot(s.drop_first(), x)
    }
}

/// Sources ordered by digest, sources with equal digests kept in their
/// given order.
pub open spec fn stable_sorted_sources(ss: Seq<SourceView>) -> Seq<SourceView>
    decreases ss.len(),
{
    if ss.len() == 0 {
        seq![]
    } else {
        let s = stable_sorted_sources(ss.drop_last());
        s.insert(source_slot(s, ss.last()), ss.last())
    }
}

pub proof fn lemma_source_slot(s: Seq<SourceView>, x: SourceView, k: int)
    requires
        0 <= k <= s.len(),
        forall|j: int| 0 <= j < k ==> !lex_lt(x.0, #[trigger] s[j].0),
        k < s.len() ==> lex_lt(x.0, s[k].0),
    ensures
        source_slot(s, x) == k,
    decreases s.len(),
{
    if s.len() > 0 && k > 0 {
        let t = s.drop_first();
        assert forall|j: int| 0 <= j < k - 1 implies !lex_lt(x.0, #[trigger] t[j].0) by {
            assert(t[j] == s[j + 1]);
        }
        if k < s.len() {
            assert(t[k - 1] == s[k]);
        }
        lemma_source_slot(t, x, k - 1);
    }
}

/// Sorts sources by digest, keeping sources with equal digests in their
/// given order.
fn sort_sources(ss: Vec<EnrichmentSource>) -> (r: Vec<EnrichmentSource>)
    ensures
        source_views(r@) == stable_sorted_sources(source_views(ss@)),
        sources_sorted(source_views(r@)),
        source_views(r@).to_multiset() == source_views(ss@).to_multiset(),
{
    broadcast use vstd::seq_lib::group_to_multiset_ensures;

    let mut out: Vec<EnrichmentSource> = Vec::new();
    let mut i: usize = 0;
    while i < ss.len()
        invariant
            i <= ss@.len(),
            sources_sorted(source_views(out@)),
            source_views(out@) == stable_sorted_sources(source_views(ss@.take(i as int))),
            source_views(out@).to_multiset() == source_views(ss@.take(i as int)).to_multiset(),
        decreases ss@.len() - i,
    {
        let x = clone_source(&ss[i]);
        let ghost xv = source_view(ss@[i as int]);
        let ghost ov = source_views(out@);
        let k = first_digest_after(&out, x.digest.as_str());
        proof {
            let nv = ov.insert(k as int, xv);
            assert forall|a: int, b: int| 0 <= a < b < nv.len() implies !lex_lt(
                #[trigger] nv[b].0,
                #[trigger] nv[a].0,
            ) by {
                lemma_lex_irreflexive(xv.0);
                if b < k {
                    assert(nv[a] == ov[a] && nv[b] == ov[b]);
                } else if b == k {
                    assert(nv[a] == ov[a]);
                } else if a < k {
                    assert(nv[a] == ov[a] && nv[b] == ov[b - 1]);
                    assert(lex_lt(xv.0, ov[k as int].0));
                    lemma_lex_total(ov[k as int].0, ov[b - 1].0);
                    lemma_lex_total(ov[a].0, xv.0);
                    lemma_lex_total(ov[b - 1].0, xv.0);
                    if lex_lt(ov[b - 1].0, ov[a].0) {
                        if lex_lt(ov[b - 1].0, xv.0) {
                            lemma_lex_transitive(ov[b - 1].0, xv.0, ov[k as int].0);
                            lemma_lex_asymmetric(ov[b - 1].0, ov[k as int].0);
                        } else if ov[b - 1].0 == xv.0 {
                        } else {
                            lemma_lex_transitive(xv.0, ov[b - 1].0, ov[a].0);
                        }
                    }
                } else if a == k {
                    assert(nv[b] == ov[b - 1]);
                    assert(lex_lt(xv.0, ov[k as int].0));
                    lemma_lex_total(ov[k as int].0, ov[b - 1].0);
                    if lex_lt(ov[b - 1].0, xv.0) {
                        lemma_lex_transitive(ov[b - 1].0, xv.0, ov[k as int].0);
                        lemma_lex_asymmetric(ov[b - 1].0, ov[k as int].0);
                    }
                } else {
                    assert(nv[a] == ov[a - 1] && nv[b] == ov[b - 1]);
                }
            }
            assert(ss@.take(i as int + 1) =~= ss@.take(i as int).push(ss@[i as int]));
            assert(source_views(ss@.take(i as int + 1)) =~= source_views(ss@.take(i as int)).push(xv));
            lemma_source_slot(ov, xv, k as int);
            assert(source_views(ss@.take(i as int + 1)).drop_last() =~= source_views(ss@.take(i as int)));
        }
        out.insert(k, x);
        assert(source_views(out@) =~= ov.insert(k as int, xv));
        proof {
            vstd::seq_lib::to_multiset_insert(ov, k as int, xv);
            vstd::seq_lib::to_multiset_build(source_views(ss@.take(i as int)), xv);
        }
        i += 1;
    }
    assert(ss@.take(ss@.len() as int) =~= ss@);
    out
}

/// Whether every presentation resolved to a portable card.
pub open spec fn all_cards(p: ExternalProjection) -> bool {
    forall|i: int| 0 <= i < p.presentations@.len() ==> (#[trigger] p.presentations@[i]).card is Some
}

impl ExternalProjection {
    /// Copies exactly the portable-card strings the correlation reads, so the
    /// evidence replays the correlation without reopening the endpoint.
    pub fn seal(&self, context: &ContextSnapshot) -> (r: Result<SealedEnrichment, EnrichmentError>)
        ensures
            all_cards(*self) ==> (r matches Ok(e) && is_seal_of(e, *self, *context)),
            !all_cards(*self) ==> (r matches Err(e) && e matches EnrichmentError::InvalidEvidence(m)
                && m@ == "the mounted representation is not a portable card"@),
    {
        let ghost pv = self.presentations@.map_values(|q: CardPresentation| presentation_source(q));
        let mut sources: Vec<EnrichmentSource> = Vec::new();
        let mut i: usize = 0;
        assert(pv.take(0) =~= Seq::<SourceView>::empty());
        assert(source_views(sources@) =~= Seq::<SourceView>::empty());
        while i < self.presentations.len()
            invariant
                i <= self.presentations@.len(),
                pv == self.presentations@.map_values(|q: CardPresentation| presentation_source(q)),
                source_views(sources@) == pv.take(i as int),
                forall|j: int| 0 <= j < i ==> (#[trigger] self.presentations@[j]).card is Some,
            decreases self.presentations@.len() - i,
        {
            match EnrichmentSource::from_presentation(&self.presentations[i]) {
                Ok(source) => {
                    let ghost before = source_views(sources@);
                    sources.push(source);
                    assert(source_views(sources@) =~= before.push(source_view(source)));
                    assert(pv.take(i as int + 1) =~= pv.take(i as int).push(pv[i as int]));
                },
                Err(e) => {
                    return Err(e);
                },
            }
            i += 1;
        }
        assert(pv.take(self.presentations@.len() as int) =~= pv);
        let sources = sort_sources(sources);
        let mut evidence = SealedEnrichment {
            schema: copy_str(EVIDENCE_SCHEMA),
            algorithm: copy_str(CORRELATION_ALGORITHM),
            context_digest: context.digest(),
            endpoint_label: self.endpoint_label.clone(),
            projection_label: self.projection_label.clone(),
            session: self.session.clone(),
            evidence_digest: String::new(),
            sources,
        };
        let d = evidence.expected_digest();
        let ghost fields = evidence_fields_json(evidence);
        evidence.evidence_digest = d;
        assert(evidence_fields_json(evidence) == fields);
        Ok(evidence)
    }

    /// Seals the projection for the context, then verifies the evidence and
    /// reports its correlation.
    pub fn correlate(&self, context: &ContextSnapshot) -> (r: Result<EnrichmentReport, EnrichmentError>)
        ensures
            all_cards(*self) ==> (r matches Ok(rep) && exists|e: SealedEnrichment|
                is_seal_of(e, *self, *context) && #[trigger] is_report_of(rep, e, *context)),
            !all_cards(*self) ==> (r matches Err(e) && e matches EnrichmentError::InvalidEvidence(m)
                && m@ == "the mounted representation is not a portable card"@),
    {
        match self.seal(context) {
            Ok(e) => {
                proof {
                    law_sealed_evidence_verifies(e, *self, *context);
                }
                let r = e.verify(context);
                match r {
                    Ok(rep) => {
                        assert(is_seal_of(e, *self, *context) && is_report_of(rep, e, *context));
                        Ok(rep)
                    },
                    Err(x) => Err(x),
                }
            },
            Err(e) => Err(e),
        }
    }
}

/// Which advertised projection a mount takes: none when the endpoint
/// advertised none, the one at the index asked for when there is one, and a
/// refusal naming the index when it is past the end.
pub fn choose_projection(advertised: usize, index: usize) -> (r: Result<usize, EnrichmentError>)
    ensures
        advertised == 0 ==> r == Err::<usize, EnrichmentError>(EnrichmentError::NoProjection),
        advertised > 0 && index < advertised ==> r == Ok::<usize, EnrichmentError>(index),
        advertised > 0 && index >= advertised ==> r == Err::<usize, EnrichmentError>(
            EnrichmentError::UnknownProjection(index),
        ),
{
    if advertised == 0 {
        Err(EnrichmentError::NoProjection)
    } else if index < advertised {
        Ok(index)
    } else {
        Err(EnrichmentError::UnknownProjection(index))
    }
}

} // verus!
