//! The stable fixture contexts and fields the receipt executables and
//! integration tests read from.

use vstd::prelude::*;

use crate::context::{
    Candidate, ContextSnapshot, Field, CONTEXTUAL_WEIGHT_RULE, EXTERNAL_TERM_WEIGHT_RULE,
};
use crate::context::set_insert_all;
use crate::order::{kv_insert, lex_lt, set_insert, views};
use crate::text::copy_str;

verus! {

fn texts(items: &[&str]) -> (r: Vec<String>)
    ensures
        views(r@) == items@.map_values(|s: &str| s@),
{
    let mut out: Vec<String> = Vec::new();
    let mut i: usize = 0;
    while i < items.len()
        invariant
            i <= items@.len(),
            views(out@) == items@.map_values(|s: &str| s@).take(i as int),
        decreases items@.len() - i,
    {
        let ghost before = views(out@);
        out.push(copy_str(items[i]));
        assert(views(out@) =~= before.push(items@[i as int]@));
        assert(items@.map_values(|s: &str| s@).take(i as int + 1) =~= items@.map_values(
            |s: &str| s@,
        ).take(i as int).push(items@[i as int]@));
        i += 1;
    }
    assert(items@.map_values(|s: &str| s@).take(items@.len() as int) =~= items@.map_values(
        |s: &str| s@,
    ));
    out
}

/// The candidate-facing shape of the fixture field.
pub open spec fn is_fixture_field(f: Field) -> bool {
    &&& f.system@ == "cleromancy.fixture-system/v1"@
    &&& f.candidates@.len() == 3
    &&& f.candidates@[0].id@ == "threshold"@
    &&& f.candidates@[0].title@ == "Attend to the threshold"@
    &&& f.candidates@[0].interpretation@
        == "Notice what has already changed before deciding what should change next."@
    &&& f.candidates@[0].base_weight == 2
    &&& views(f.candidates@[0].tags@) == seq!["change"@, "reflection"@]
    &&& f.candidates@[1].id@ == "measure"@
    &&& f.candidates@[1].title@ == "Measure the structure"@
    &&& f.candidates@[1].interpretation@
        == "Name the constraint that is doing useful work and the one that has become habit."@
    &&& f.candidates@[1].base_weight == 1
    &&& f.candidates@[2].id@ == "wander"@
    &&& f.candidates@[2].title@ == "Permit an unplanned move"@
    &&& f.candidates@[2].interpretation@ == "Leave one part of the next step deliberately unspecified."@
    &&& f.candidates@[2].base_weight == 1
    &&& views(f.candidates@[2].tags@) == seq!["change"@, "play"@]
}

/// The threshold context and its three-candidate field.
pub fn a0_fixture() -> (r: (ContextSnapshot, Field))
    ensures
        r.0.wf(),
        r.0.label@ == "A threshold"@,
        r.0.schema@ == "cleromancy.fixture-context/v1"@,
        r.0.facts_view() == seq![
            ("question"@, "What deserves attention at this threshold?"@),
            ("season"@, "late summer"@),
        ],
        r.0.tags_view() == seq!["change"@, "reflection"@, "structure"@],
        r.1.rules@ == CONTEXTUAL_WEIGHT_RULE@,
        is_fixture_field(r.1),
        views(r.1.candidates@[1].tags@) == seq!["structure"@, "reflection"@],
{
    proof {
        reveal_strlit("question");
        reveal_strlit("season");
        reveal_strlit("change");
        reveal_strlit("structure");
        reveal_strlit("reflection");
    }
    let c0 = ContextSnapshot::new("A threshold", "cleromancy.fixture-context/v1");
    let c1 = c0.with_fact("question", "What deserves attention at this threshold?");
    assert(c1.facts_view() =~= seq![("question"@, "What deserves attention at this threshold?"@)]);
    let c2 = c1.with_fact("season", "late summer");
    proof {
        let q = ("question"@, "What deserves attention at this threshold?"@);
        let s0: Seq<(Seq<char>, Seq<char>)> = seq![q];
        assert(!lex_lt("season"@, "question"@));
        assert(s0.drop_first() =~= Seq::<(Seq<char>, Seq<char>)>::empty());
        assert(kv_insert(s0, "season"@, "late summer"@) =~= seq![q] + kv_insert(
            s0.drop_first(),
            "season"@,
            "late summer"@,
        ));
    }
    let tags = texts(&["change", "structure", "reflection"]);
    proof {
        let xs = seq!["change"@, "structure"@, "reflection"@];
        assert(views(tags@) =~= xs);
        let e: Seq<Seq<char>> = seq![];
        assert(set_insert(e, "change"@) =~= seq!["change"@]);
        let a: Seq<Seq<char>> = seq!["change"@];
        assert(!lex_lt("structure"@, "change"@));
        assert("change"@.len() != "structure"@.len());
        assert(a.drop_first() =~= e);
        assert(set_insert(e, "structure"@) =~= seq!["structure"@]);
        assert(set_insert(a, "structure"@) =~= seq!["change"@, "structure"@]);
        let b: Seq<Seq<char>> = seq!["change"@, "structure"@];
        let bt: Seq<Seq<char>> = seq!["structure"@];
        assert(!lex_lt("reflection"@, "change"@));
        assert(lex_lt("reflection"@, "structure"@));
        assert("change"@.len() != "reflection"@.len());
        assert("structure"@.len() != "reflection"@.len());
        assert(b.drop_first() =~= bt);
        assert(set_insert(bt, "reflection"@) =~= seq!["reflection"@, "structure"@]);
        assert(set_insert(b, "reflection"@) =~= seq!["change"@, "reflection"@, "structure"@]);
        assert(xs.drop_first() =~= seq!["structure"@, "reflection"@]);
        assert(xs.drop_first().drop_first() =~= seq!["reflection"@]);
        assert(xs.drop_first().drop_first().drop_first() =~= e);
        assert(set_insert_all(e, xs) == set_insert_all(seq!["change"@], xs.drop_first()));
        assert(set_insert_all(a, xs.drop_first()) == set_insert_all(b, xs.drop_first().drop_first()));
        assert(set_insert_all(b, xs.drop_first().drop_first()) == set_insert_all(
            seq!["change"@, "reflection"@, "structure"@],
            e,
        ));
    }
    let context = c2.with_tags(tags);
    let t0 = texts(&["change", "reflection"]);
    assert(views(t0@) =~= seq!["change"@, "reflection"@]);
    let threshold = Candidate::new(
        "threshold",
        "Attend to the threshold",
        "Notice what has already changed before deciding what should change next.",
    ).with_tags(t0).with_base_weight(2);
    assert(views(threshold.tags@) =~= seq!["change"@, "reflection"@]);
    let t1 = texts(&["structure", "reflection"]);
    assert(views(t1@) =~= seq!["structure"@, "reflection"@]);
    let measure = Candidate::new(
        "measure",
        "Measure the structure",
        "Name the constraint that is doing useful work and the one that has become habit.",
    ).with_tags(t1).with_base_weight(1);
    assert(views(measure.tags@) =~= seq!["structure"@, "reflection"@]);
    let t2 = texts(&["change", "play"]);
    assert(views(t2@) =~= seq!["change"@, "play"@]);
    let wander = Candidate::new(
        "wander",
        "Permit an unplanned move",
        "Leave one part of the next step deliberately unspecified.",
    ).with_tags(t2).with_base_weight(1);
    assert(views(wander.tags@) =~= seq!["change"@, "play"@]);
    let field = Field::new("cleromancy.fixture-system/v1", CONTEXTUAL_WEIGHT_RULE, vec![threshold, measure, wander]);
    (context, field)
}

/// The threshold fixture with the recent browsing terms disclosed as a fact.
pub fn a1_fixture() -> (r: (ContextSnapshot, Field))
    ensures
        r.0.wf(),
        r.0.label@ == "A threshold"@,
        r.0.facts_view() == seq![
            ("question"@, "What deserves attention at this threshold?"@),
            ("recent_graph"@, "Field notes, a radio map, and a harmony map"@),
            ("season"@, "late summer"@),
        ],
        r.0.tags_view() == seq!["change"@, "reflection"@, "structure"@],
        r.1.rules@ == CONTEXTUAL_WEIGHT_RULE@,
        is_fixture_field(r.1),
        views(r.1.candidates@[1].tags@) == seq!["structure"@, "reflection"@],
{
    proof {
        reveal_strlit("question");
        reveal_strlit("season");
        reveal_strlit("recent_graph");
    }
    let (context, field) = a0_fixture();
    let ghost before = context.facts_view();
    let context = context.with_fact("recent_graph", "Field notes, a radio map, and a harmony map");
    proof {
        let q = ("question"@, "What deserves attention at this threshold?"@);
        let t = ("season"@, "late summer"@);
        let r = ("recent_graph"@, "Field notes, a radio map, and a harmony map"@);
        let s0: Seq<(Seq<char>, Seq<char>)> = seq![q, t];
        let s1: Seq<(Seq<char>, Seq<char>)> = seq![t];
        assert(before == s0);
        assert(!lex_lt("recent_graph"@, "question"@));
        assert(lex_lt("recent_graph"@, "season"@));
        assert(s0.drop_first() =~= s1);
        assert(kv_insert(s1, r.0, r.1) =~= seq![r, t]);
        assert(kv_insert(s0, r.0, r.1) =~= seq![q] + seq![r, t]);
        assert(seq![q] + seq![r, t] =~= seq![q, r, t]);
    }
    (context, field)
}

/// The browsing fixture whose second candidate opts into the external-term
/// qualifier.
pub fn a2_fixture() -> (r: (ContextSnapshot, Field))
    ensures
        r.0.wf(),
        r.0.facts_view() == seq![
            ("question"@, "What deserves attention at this threshold?"@),
            ("recent_graph"@, "Field notes, a radio map, and a harmony map"@),
            ("season"@, "late summer"@),
        ],
        r.1.rules@ == EXTERNAL_TERM_WEIGHT_RULE@,
        is_fixture_field(r.1),
        views(r.1.candidates@[1].tags@) == seq![
            "structure"@,
            "reflection"@,
            "field"@,
            "harmony"@,
            "notes"@,
            "radio"@,
        ],
{
    let (context, mut field) = a1_fixture();
    field.rules = copy_str(EXTERNAL_TERM_WEIGHT_RULE);
    let mut more = texts(&["field", "harmony", "notes", "radio"]);
    assert(views(more@) =~= seq!["field"@, "harmony"@, "notes"@, "radio"@]);
    let ghost before = field.candidates@;
    let mut measure = field.candidates.remove(1);
    let ghost old_tags = views(measure.tags@);
    let ghost extra = views(more@);
    measure.tags.append(&mut more);
    assert(views(measure.tags@) =~= old_tags + extra);
    field.candidates.insert(1, measure);
    assert(views(field.candidates@[1].tags@) =~= old_tags + seq!["field"@, "harmony"@, "notes"@, "radio"@]);
    assert(field.candidates@[0] == before[0]);
    assert(field.candidates@[2] == before[2]);
    (context, field)
}

} // verus!
