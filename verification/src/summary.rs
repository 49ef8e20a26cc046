//! Legible session summaries: a bounded projection of a saved occasion for
//! list surfaces. A summary is recomputed from the session, its context and
//! its stored readings; it never replays a receipt.

use vstd::prelude::*;

use crate::context::ContextSnapshot;
use crate::order::{kv_get, views};
use crate::reading::{Reading, SelectionMode};
use crate::session::{ReadingPlacement, ReadingSession};
use crate::text::str_eq;

verus! {

/// One placement, reduced to what a list row shows.
#[derive(Clone, Debug, PartialEq, Eq)]
pub struct SummaryPlacement {
    /// The session's declared position name.
    pub position: String,
    /// The sealed result's title.
    pub title: String,
    /// The stored candidate identity behind that title.
    pub candidate_id: String,
    /// How this placement was selected.
    pub mode: SelectionMode,
}

/// A saved occasion reduced to the values a journal row needs.
#[derive(Clone, Debug, PartialEq, Eq)]
pub struct SessionSummary {
    pub session_id: String,
    pub created_at_ms: u64,
    pub context_label: String,
    pub question: Option<String>,
    pub tags: Vec<String>,
    pub context_digest: String,
    pub field_digest: String,
    pub placements: Vec<SummaryPlacement>,
}

/// What a summary placement shows: position, title, candidate and mode.
pub type PlacementView = (Seq<char>, Seq<char>, Seq<char>, SelectionMode);

pub open spec fn placement_view(p: SummaryPlacement) -> PlacementView {
    (p.position@, p.title@, p.candidate_id@, p.mode)
}

pub open spec fn placement_views(ps: Seq<SummaryPlacement>) -> Seq<PlacementView> {
    ps.map_values(|p: SummaryPlacement| placement_view(p))
}

/// The first reading whose id is `id`.
pub open spec fn find_reading(readings: Seq<Reading>, id: Seq<char>) -> Option<Reading>
    decreases readings.len(),
{
    if readings.len() == 0 {
        None
    } else if readings[0].id@ == id {
        Some(readings[0])
    } else {
        find_reading(readings.drop_first(), id)
    }
}

/// The summary rows of `placements`: each placement whose reading is
/// present, in declared order; a placement without its reading is skipped.
pub open spec fn summary_rows(placements: Seq<ReadingPlacement>, readings: Seq<Reading>) -> Seq<
    PlacementView,
>
    decreases placements.len(),
{
    if placements.len() == 0 {
        seq![]
    } else {
        let last = placements.last();
        let rest = summary_rows(placements.drop_last(), readings);
        match find_reading(readings, last.reading_id@) {
            Some(r) => rest.push((last.position@, r.title@, r.candidate_id@, r.receipt.mode)),
            None => rest,
        }
    }
}

pub open spec fn has_mode(ps: Seq<SummaryPlacement>, mode: SelectionMode) -> bool {
    exists|i: int| 0 <= i < ps.len() && #[trigger] ps[i].mode == mode
}

/// The distinct modes used, in `Calculated`, `Cast`, `Derived` order.
pub open spec fn modes_of(ps: Seq<SummaryPlacement>) -> Seq<SelectionMode> {
    (if has_mode(ps, SelectionMode::Calculated) {
        seq![SelectionMode::Calculated]
    } else {
        seq![]
    }) + (if has_mode(ps, SelectionMode::Cast) {
        seq![SelectionMode::Cast]
    } else {
        seq![]
    }) + (if has_mode(ps, SelectionMode::Derived) {
        seq![SelectionMode::Derived]
    } else {
        seq![]
    })
}

fn uses_mode(ps: &Vec<SummaryPlacement>, mode: SelectionMode) -> (r: bool)
    ensures
        r == has_mode(ps@, mode),
{
    let mut i: usize = 0;
    while i < ps.len()
        invariant
            i <= ps@.len(),
            forall|j: int| 0 <= j < i ==> ps@[j].mode != mode,
        decreases ps@.len() - i,
    {
        if ps[i].mode == mode {
            return true;
        }
        i += 1;
    }
    false
}

impl SessionSummary {
    /// How many results this occasion sealed.
    pub fn placement_count(&self) -> (r: usize)
        ensures
            r == self.placements@.len(),
    {
        self.placements.len()
    }

    /// The distinct selection modes used, in `Calculated`, `Cast`, `Derived`
    /// order.
    pub fn modes(&self) -> (r: Vec<SelectionMode>)
        ensures
            r@ == modes_of(self.placements@),
    {
        let mut modes: Vec<SelectionMode> = Vec::new();
        if uses_mode(&self.placements, SelectionMode::Calculated) {
            modes.push(SelectionMode::Calculated);
        }
        if uses_mode(&self.placements, SelectionMode::Cast) {
            modes.push(SelectionMode::Cast);
        }
        if uses_mode(&self.placements, SelectionMode::Derived) {
            modes.push(SelectionMode::Derived);
        }
        assert(modes@ =~= modes_of(self.placements@));
        modes
    }
}

/// The position of the first reading with the given id.
pub(crate) fn find_reading_index(readings: &[Reading], id: &str) -> (r: Option<usize>)
    ensures
        match find_reading(readings@, id@) {
            Some(x) => r matches Some(i) && i < readings@.len() && readings@[i as int] == x,
            None => r is None,
        },
{
    let mut i: usize = 0;
    assert(readings@.skip(0) =~= readings@);
    while i < readings.len()
        invariant
            i <= readings@.len(),
            find_reading(readings@, id@) == find_reading(readings@.skip(i as int), id@),
        decreases readings@.len() - i,
    {
        let ghost rest = readings@.skip(i as int);
        assert(rest[0] == readings@[i as int]);
        assert(rest.drop_first() =~= readings@.skip(i + 1));
        if str_eq(readings[i].id.as_str(), id) {
            return Some(i);
        }
        i += 1;
    }
    None
}

/// Project one saved occasion into its list-row summary. Readings are
/// matched to placements by id, in any order; a placement whose reading is
/// absent is skipped.
pub fn summarize(session: &ReadingSession, context: &ContextSnapshot, readings: &[Reading]) -> (r:
    SessionSummary)
    requires
        context.wf(),
    ensures
        r.session_id == session.id,
        r.created_at_ms == session.created_at_ms,
        r.context_label == context.label,
        match kv_get(context.facts_view(), "question"@) {
            Some(q) => r.question matches Some(x) && x@ == q,
            None => r.question is None,
        },
        views(r.tags@) == context.tags_view(),
        r.context_digest == session.context_digest,
        r.field_digest == session.field_digest,
        placement_views(r.placements@) == summary_rows(session.placements@, readings@),
{
    let mut placements: Vec<SummaryPlacement> = Vec::new();
    let mut i: usize = 0;
    while i < session.placements.len()
        invariant
            i <= session.placements@.len(),
            placement_views(placements@) == summary_rows(
                session.placements@.take(i as int),
                readings@,
            ),
        decreases session.placements@.len() - i,
    {
        let placement = &session.placements[i];
        let ghost before = placements@;
        assert(session.placements@.take(i as int + 1).drop_last() =~= session.placements@.take(
            i as int,
        ));
        assert(session.placements@.take(i as int + 1).last() == *placement);
        match find_reading_index(readings, placement.reading_id.as_str()) {
            Some(k) => {
                let reading = &readings[k];
                placements.push(
                    SummaryPlacement {
                        position: placement.position.clone(),
                        title: reading.title.clone(),
                        candidate_id: reading.candidate_id.clone(),
                        mode: reading.receipt.mode,
                    },
                );
                assert(placement_views(placements@) =~= placement_views(before).push(
                    placement_view(placements@.last()),
                ));
            },
            None => {},
        }
        i += 1;
    }
    assert(session.placements@.take(session.placements@.len() as int) =~= session.placements@);
    let mut tags: Vec<String> = Vec::new();
    let mut j: usize = 0;
    while j < context.tags.len()
        invariant
            j <= context.tags@.len(),
            tags@ == context.tags@.take(j as int),
        decreases context.tags@.len() - j,
    {
        tags.push(context.tags[j].clone());
        assert(tags@ =~= context.tags@.take(j as int + 1));
        j += 1;
    }
    assert(context.tags@.take(context.tags@.len() as int) =~= context.tags@);
    SessionSummary {
        session_id: session.id.clone(),
        created_at_ms: session.created_at_ms,
        context_label: context.label.clone(),
        question: context.fact("question"),
        tags,
        context_digest: session.context_digest.clone(),
        field_digest: session.field_digest.clone(),
        placements,
    }
}

proof fn lemma_find_reading(rs: Seq<Reading>, id: Seq<char>)
    ensures
        find_reading(rs, id) matches Some(r) ==> rs.contains(r) && r.id@ == id,
        find_reading(rs, id) is None ==> forall|i: int| 0 <= i < rs.len() ==> (#[trigger] rs[i]).id@ != id,
    decreases rs.len(),
{
    if rs.len() > 0 {
        lemma_find_reading(rs.drop_first(), id);
        if rs[0].id@ != id {
            if let Some(r) = find_reading(rs.drop_first(), id) {
                let k = choose|k: int| 0 <= k < rs.drop_first().len() && rs.drop_first()[k] == r;
                assert(rs[k + 1] == r);
            } else {
                assert forall|i: int| 0 <= i < rs.len() implies (#[trigger] rs[i]).id@ != id by {
                    if i > 0 {
                        assert(rs.drop_first()[i - 1] == rs[i]);
                    }
                }
            }
        } else {
            assert(rs[0] == rs[0]);
        }
    }
}

proof fn lemma_find_reading_order_free(a: Seq<Reading>, b: Seq<Reading>, id: Seq<char>)
    requires
        forall|i: int, j: int| 0 <= i < j < a.len() ==> (#[trigger] a[i]).id@ != (#[trigger] a[j]).id@,
        a.to_multiset() == b.to_multiset(),
    ensures
        find_reading(a, id) == find_reading(b, id),
{
    broadcast use vstd::seq_lib::group_to_multiset_ensures;

    lemma_find_reading(a, id);
    lemma_find_reading(b, id);
    match find_reading(b, id) {
        Some(y) => {
            assert(b.to_multiset().count(y) > 0);
            assert(a.contains(y));
            let k = choose|k: int| 0 <= k < a.len() && a[k] == y;
            match find_reading(a, id) {
                Some(x) => {
                    let m = choose|m: int| 0 <= m < a.len() && a[m] == x;
                    if m < k {
                        assert(a[m].id@ != a[k].id@);
                    } else if k < m {
                        assert(a[k].id@ != a[m].id@);
                    }
                },
                None => {
                    assert(a[k].id@ != id);
                },
            }
        },
        None => {
            if let Some(x) = find_reading(a, id) {
                assert(a.to_multiset().count(x) > 0);
                assert(b.contains(x));
                let k = choose|k: int| 0 <= k < b.len() && b[k] == x;
                assert(b[k].id@ != id);
            }
        },
    }
}

/// Stored readings with distinct ids may be handed to `summarize` in any
/// order: every rearrangement of them gives the same summary rows.
pub proof fn law_summary_rows_order_free(ps: Seq<ReadingPlacement>, a: Seq<Reading>, b: Seq<Reading>)
    requires
        forall|i: int, j: int| 0 <= i < j < a.len() ==> (#[trigger] a[i]).id@ != (#[trigger] a[j]).id@,
        a.to_multiset() == b.to_multiset(),
    ensures
        summary_rows(ps, a) == summary_rows(ps, b),
    decreases ps.len(),
{
    if ps.len() > 0 {
        law_summary_rows_order_free(ps.drop_last(), a, b);
        lemma_find_reading_order_free(a, b, ps.last().reading_id@);
    }
}

} // verus!
