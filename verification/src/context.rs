//! Disclosed reading contexts and candidate fields.
//!
//! A context is a label, a schema, named facts and a tag set. Facts are held
//! as pairs strictly sorted by name and tags as a strictly sorted vector, the
//! order a `BTreeMap` and a `BTreeSet` would iterate them in.

use vstd::prelude::*;

use crate::digest::{digest_of, digest_text, json_string, json_string_array, push_json_string, push_json_string_array, push_decimal};
use crate::order::{kv_get, kv_insert, kv_put, keys, lex_lt, pair_views, set_insert, sorted_insert, strictly_sorted, views};
use crate::text::{copy_str, decimal};

verus! {

/// The contextual weight rule: one base-weight share per matching tag.
pub const CONTEXTUAL_WEIGHT_RULE: &'static str = "contextual-weight";

/// The uniform rule: every candidate one share, cast only.
pub const UNIFORM_RULE: &'static str = "uniform";

/// The uniform rule for a generated die field.
pub const UNIFORM_DIE_RULE: &'static str = "uniform-die";

/// Contextual weight plus one share per sealed external term.
pub const EXTERNAL_TERM_WEIGHT_RULE: &'static str = "contextual-weight+external-term-share";

/// A disclosed reading context.
#[derive(Clone, Debug, PartialEq, Eq)]
pub struct ContextSnapshot {
    pub label: String,
    pub schema: String,
    /// Named facts, strictly sorted by name.
    pub facts: Vec<(String, String)>,
    /// Tags, strictly sorted.
    pub tags: Vec<String>,
}

/// Inserting each text of `xs`, in order, into a sorted set.
pub open spec fn set_insert_all(s: Seq<Seq<char>>, xs: Seq<Seq<char>>) -> Seq<Seq<char>>
    decreases xs.len(),
{
    if xs.len() == 0 {
        s
    } else {
        set_insert_all(set_insert(s, xs[0]), xs.drop_first())
    }
}

impl ContextSnapshot {
    pub open spec fn facts_view(&self) -> Seq<(Seq<char>, Seq<char>)> {
        pair_views(self.facts@)
    }

    pub open spec fn tags_view(&self) -> Seq<Seq<char>> {
        views(self.tags@)
    }

    /// Facts sorted by name and tags sorted, each without repetition.
    pub open spec fn wf(&self) -> bool {
        strictly_sorted(keys(self.facts_view())) && strictly_sorted(self.tags_view())
    }

    /// A context with no facts or tags.
    pub fn new(label: &str, schema: &str) -> (r: Self)
        ensures
            r.wf(),
            r.label@ == label@,
            r.schema@ == schema@,
            r.facts@.len() == 0,
            r.tags@.len() == 0,
    {
        let r = ContextSnapshot {
            label: copy_str(label),
            schema: copy_str(schema),
            facts: Vec::new(),
            tags: Vec::new(),
        };
        assert(keys(r.facts_view()) =~= Seq::<Seq<char>>::empty());
        assert(r.tags_view() =~= Seq::<Seq<char>>::empty());
        r
    }

    /// The context with one fact set, replacing any earlier value of it.
    pub fn with_fact(self, name: &str, value: &str) -> (r: Self)
        requires
            self.wf(),
        ensures
            r.wf(),
            r.label == self.label,
            r.schema == self.schema,
            r.tags == self.tags,
            r.facts_view() == kv_insert(self.facts_view(), name@, value@),
    {
        let mut r = self;
        let _ = kv_put(&mut r.facts, copy_str(name), copy_str(value));
        r
    }

    /// The context with every given tag added to its set.
    pub fn with_tags(self, tags: Vec<String>) -> (r: Self)
        requires
            self.wf(),
        ensures
            r.wf(),
            r.label == self.label,
            r.schema == self.schema,
            r.facts == self.facts,
            r.tags_view() == set_insert_all(self.tags_view(), views(tags@)),
    {
        let mut r = self;
        let mut i: usize = 0;
        assert(views(tags@).skip(0) =~= views(tags@));
        while i < tags.len()
            invariant
                i <= tags@.len(),
                strictly_sorted(views(r.tags@)),
                r.label == self.label,
                r.schema == self.schema,
                r.facts == self.facts,
                set_insert_all(views(r.tags@), views(tags@).skip(i as int)) == set_insert_all(
                    self.tags_view(),
                    views(tags@),
                ),
            decreases tags@.len() - i,
        {
            let ghost before = views(r.tags@);
            let t = tags[i].clone();
            sorted_insert(&mut r.tags, t);
            assert(views(tags@).skip(i as int).drop_first() =~= views(tags@).skip(i + 1));
            assert(views(tags@).skip(i as int)[0] == tags@[i as int]@);
            i += 1;
        }
        assert(views(tags@).skip(tags@.len() as int) =~= Seq::<Seq<char>>::empty());
        r
    }

    /// The value of a fact, if the context carries it.
    pub fn fact(&self, name: &str) -> (r: Option<String>)
        requires
            self.wf(),
        ensures
            match kv_get(self.facts_view(), name@) {
                Some(v) => r matches Some(x) && x@ == v,
                None => r is None,
            },
    {
        let mut i: usize = 0;
        assert(self.facts_view().skip(0) =~= self.facts_view());
        while i < self.facts.len()
            invariant
                i <= self.facts@.len(),
                kv_get(self.facts_view(), name@) == kv_get(self.facts_view().skip(i as int), name@),
            decreases self.facts@.len() - i,
        {
            let ghost rest = self.facts_view().skip(i as int);
            assert(rest[0] == self.facts_view()[i as int]);
            assert(rest.drop_first() =~= self.facts_view().skip(i + 1));
            if crate::text::str_eq(self.facts[i].0.as_str(), name) {
                return Some(self.facts[i].1.clone());
            }
            i += 1;
        }
        None
    }

    /// The canonical identity text of the context.
    pub open spec fn identity_text(&self) -> Seq<char> {
        "{\"label\":"@ + json_string(self.label@) + ",\"schema\":"@ + json_string(self.schema@)
            + ",\"facts\":"@ + json_object(self.facts_view()) + ",\"tags\":"@ + json_string_array(
            self.tags_view(),
        ) + "}"@
    }

    /// The context's identity digest.
    pub fn digest(&self) -> (d: String)
        ensures
            d@ == digest_of(self.identity_text()),
    {
        let mut out = String::new();
        crate::text::push_str(&mut out, "{\"label\":");
        push_json_string(&mut out, self.label.as_str());
        crate::text::push_str(&mut out, ",\"schema\":");
        push_json_string(&mut out, self.schema.as_str());
        crate::text::push_str(&mut out, ",\"facts\":");
        push_json_object(&mut out, &self.facts);
        crate::text::push_str(&mut out, ",\"tags\":");
        push_json_string_array(&mut out, &self.tags);
        crate::text::push_str(&mut out, "}");
        assert(out@ =~= self.identity_text());
        digest_text(&out)
    }
}

/// Setting a fact and reading it back gives the value set, and every other
/// fact reads as it did before.
pub proof fn law_fact_reads_back(c: ContextSnapshot, name: Seq<char>, value: Seq<char>, other: Seq<char>)
    requires
        c.wf(),
    ensures
        kv_get(kv_insert(c.facts_view(), name, value), name) == Some(value),
        other != name ==> kv_get(kv_insert(c.facts_view(), name, value), other) == kv_get(
            c.facts_view(),
            other,
        ),
{
    lemma_kv_insert_get(c.facts_view(), name, value, name);
    lemma_kv_insert_get(c.facts_view(), name, value, other);
}

proof fn lemma_kv_insert_get(s: Seq<(Seq<char>, Seq<char>)>, k: Seq<char>, v: Seq<char>, q: Seq<char>)
    ensures
        kv_get(kv_insert(s, k, v), q) == if q == k {
            Some(v)
        } else {
            kv_get(s, q)
        },
    decreases s.len(),
{
    let r = kv_insert(s, k, v);
    if s.len() == 0 {
        assert(r == seq![(k, v)]);
        assert(r[0] == (k, v));
        assert(r.drop_first() =~= Seq::<(Seq<char>, Seq<char>)>::empty());
        assert(kv_get(r.drop_first(), q) is None);
    } else if s[0].0 == k {
        assert(r == seq![(k, v)] + s.drop_first());
        assert(r[0] == (k, v));
        assert(r.drop_first() =~= s.drop_first());
    } else if lex_lt(k, s[0].0) {
        assert(r == seq![(k, v)] + s);
        assert(r[0] == (k, v));
        assert(r.drop_first() =~= s);
    } else {
        lemma_kv_insert_get(s.drop_first(), k, v, q);
        assert(r == seq![s[0]] + kv_insert(s.drop_first(), k, v));
        assert(r[0] == s[0]);
        assert(r.drop_first() =~= kv_insert(s.drop_first(), k, v));
    }
}

/// The members of a JSON object whose values are strings.
pub open spec fn json_members(s: Seq<(Seq<char>, Seq<char>)>) -> Seq<char>
    decreases s.len(),
{
    if s.len() == 0 {
        seq![]
    } else if s.len() == 1 {
        json_string(s[0].0) + seq![':'] + json_string(s[0].1)
    } else {
        json_members(s.drop_last()) + seq![','] + json_string(s.last().0) + seq![':']
            + json_string(s.last().1)
    }
}

/// A JSON object of string values, in the given order.
pub open spec fn json_object(s: Seq<(Seq<char>, Seq<char>)>) -> Seq<char> {
    seq!['{'] + json_members(s) + seq!['}']
}

fn push_json_object(out: &mut String, pairs: &Vec<(String, String)>)
    ensures
        final(out)@ == old(out)@ + json_object(pair_views(pairs@)),
{
    let ghost pv = pair_views(pairs@);
    crate::text::push_char(out, '{');
    let ghost start = out@;
    let mut i: usize = 0;
    assert(pv.take(0) =~= Seq::<(Seq<char>, Seq<char>)>::empty());
    while i < pairs.len()
        invariant
            i <= pairs@.len(),
            pv == pair_views(pairs@),
            out@ == start + json_members(pv.take(i as int)),
        decreases pairs@.len() - i,
    {
        if i > 0 {
            crate::text::push_char(out, ',');
        }
        push_json_string(out, pairs[i].0.as_str());
        crate::text::push_char(out, ':');
        push_json_string(out, pairs[i].1.as_str());
        proof {
            let t = pv.take(i as int + 1);
            assert(t.drop_last() =~= pv.take(i as int));
            assert(t.last() == (pairs@[i as int].0@, pairs@[i as int].1@));
            if i == 0 {
                assert(json_members(t) == json_string(t[0].0) + seq![':'] + json_string(t[0].1));
            }
        }
        i += 1;
    }
    assert(pv.take(pairs@.len() as int) =~= pv);
    crate::text::push_char(out, '}');
    assert(out@ =~= old(out)@ + json_object(pv));
}

/// One authored candidate in a field.
#[derive(Clone, Debug, PartialEq, Eq)]
pub struct Candidate {
    pub id: String,
    pub title: String,
    pub interpretation: String,
    pub tags: Vec<String>,
    pub base_weight: u64,
}

impl Candidate {
    /// A candidate with no tags and a base weight of one share.
    pub fn new(id: &str, title: &str, interpretation: &str) -> (r: Self)
        ensures
            r.id@ == id@,
            r.title@ == title@,
            r.interpretation@ == interpretation@,
            r.tags@.len() == 0,
            r.base_weight == 1,
    {
        Candidate {
            id: copy_str(id),
            title: copy_str(title),
            interpretation: copy_str(interpretation),
            tags: Vec::new(),
            base_weight: 1,
        }
    }

    /// The candidate with the given tags appended.
    pub fn with_tags(self, tags: Vec<String>) -> (r: Self)
        ensures
            r.id == self.id,
            r.title == self.title,
            r.interpretation == self.interpretation,
            r.base_weight == self.base_weight,
            r.tags@ == self.tags@ + tags@,
    {
        let mut r = self;
        let mut more = tags;
        r.tags.append(&mut more);
        r
    }

    /// The candidate with the given base weight.
    pub fn with_base_weight(self, base_weight: u64) -> (r: Self)
        ensures
            r.id == self.id,
            r.title == self.title,
            r.interpretation == self.interpretation,
            r.tags == self.tags,
            r.base_weight == base_weight,
    {
        let mut r = self;
        r.base_weight = base_weight;
        r
    }

    pub open spec fn identity_text(&self) -> Seq<char> {
        "{\"id\":"@ + json_string(self.id@) + ",\"title\":"@ + json_string(self.title@)
            + ",\"interpretation\":"@ + json_string(self.interpretation@) + ",\"tags\":"@
            + json_string_array(views(self.tags@)) + ",\"base_weight\":"@ + decimal(
            self.base_weight as nat,
        ) + "}"@
    }
}

/// An explicit candidate field: the system it belongs to, its declared
/// qualification rule, and its candidates.
#[derive(Clone, Debug, PartialEq, Eq)]
pub struct Field {
    pub system: String,
    pub rules: String,
    pub candidates: Vec<Candidate>,
}

pub open spec fn json_candidate_items(cs: Seq<Candidate>) -> Seq<char>
    decreases cs.len(),
{
    if cs.len() == 0 {
        seq![]
    } else if cs.len() == 1 {
        cs[0].identity_text()
    } else {
        json_candidate_items(cs.drop_last()) + seq![','] + cs.last().identity_text()
    }
}

fn push_candidate_json(out: &mut String, c: &Candidate)
    ensures
        final(out)@ == old(out)@ + c.identity_text(),
{
    crate::text::push_str(out, "{\"id\":");
    push_json_string(out, c.id.as_str());
    crate::text::push_str(out, ",\"title\":");
    push_json_string(out, c.title.as_str());
    crate::text::push_str(out, ",\"interpretation\":");
    push_json_string(out, c.interpretation.as_str());
    crate::text::push_str(out, ",\"tags\":");
    push_json_string_array(out, &c.tags);
    crate::text::push_str(out, ",\"base_weight\":");
    push_decimal(out, c.base_weight);
    crate::text::push_str(out, "}");
    assert(out@ =~= old(out)@ + c.identity_text());
}

impl Field {
    /// A field over the given candidates.
    pub fn new(system: &str, rules: &str, candidates: Vec<Candidate>) -> (r: Self)
        ensures
            r.system@ == system@,
            r.rules@ == rules@,
            r.candidates == candidates,
    {
        Field { system: copy_str(system), rules: copy_str(rules), candidates }
    }

    pub open spec fn identity_text(&self) -> Seq<char> {
        "{\"system\":"@ + json_string(self.system@) + ",\"rules\":"@ + json_string(self.rules@)
            + ",\"candidates\":["@ + json_candidate_items(self.candidates@) + "]}"@
    }

    /// The field's identity digest.
    pub fn digest(&self) -> (d: String)
        ensures
            d@ == digest_of(self.identity_text()),
    {
        let mut out = String::new();
        crate::text::push_str(&mut out, "{\"system\":");
        push_json_string(&mut out, self.system.as_str());
        crate::text::push_str(&mut out, ",\"rules\":");
        push_json_string(&mut out, self.rules.as_str());
        crate::text::push_str(&mut out, ",\"candidates\":[");
        let ghost start = out@;
        let mut i: usize = 0;
        assert(self.candidates@.take(0) =~= Seq::<Candidate>::empty());
        while i < self.candidates.len()
            invariant
                i <= self.candidates@.len(),
                out@ == start + json_candidate_items(self.candidates@.take(i as int)),
            decreases self.candidates@.len() - i,
        {
            if i > 0 {
                crate::text::push_char(&mut out, ',');
            }
            let c = &self.candidates[i];
            push_candidate_json(&mut out, c);
            proof {
                let t = self.candidates@.take(i as int + 1);
                assert(t.drop_last() =~= self.candidates@.take(i as int));
                assert(t.last() == *c);
                if i == 0 {
                    assert(json_candidate_items(t) == t[0].identity_text());
                }
            }
            i += 1;
        }
        assert(self.candidates@.take(self.candidates@.len() as int) =~= self.candidates@);
        crate::text::push_str(&mut out, "]}");
        assert(out@ =~= self.identity_text());
        digest_text(&out)
    }
}

} // verus!
