//! Archive policy over session summaries: date ranges, relative dates, the
//! tag and date filter, and bounded pages.

use vstd::prelude::*;

use crate::digest::push_decimal;
use crate::order::views;
use crate::summary::SessionSummary;
use crate::text::{copy_str, decimal, eq_ignore_ascii_case, eq_ignore_case, push_str, trim, trim_str};

verus! {

/// One page of the journal is rendered at a time, at most this many rows.
pub const JOURNAL_PAGE_SIZE: usize = 20;

/// One UTC day in milliseconds.
pub const DAY_MS: u64 = 86_400_000;

/// The journal's selectable UTC-duration date ranges.
#[derive(Clone, Copy, Debug, PartialEq, Eq, Structural)]
pub enum JournalDateRange {
    AnyTime,
    Past7Days,
    Past30Days,
}

pub open spec fn saturating_sub(a: int, b: int) -> int {
    if a >= b {
        a - b
    } else {
        0
    }
}

impl JournalDateRange {
    pub open spec fn label_text(self) -> Seq<char> {
        match self {
            JournalDateRange::AnyTime => "Any time"@,
            JournalDateRange::Past7Days => "Past 7 days"@,
            JournalDateRange::Past30Days => "Past 30 days"@,
        }
    }

    /// Whether an instant falls in the range ending at `now_ms`; both
    /// boundaries are included and a future instant is not.
    pub open spec fn spec_includes(self, created_at_ms: u64, now_ms: u64) -> bool {
        match self {
            JournalDateRange::AnyTime => true,
            JournalDateRange::Past7Days => created_at_ms >= saturating_sub(now_ms as int, 7 * DAY_MS)
                && created_at_ms <= now_ms,
            JournalDateRange::Past30Days => created_at_ms >= saturating_sub(now_ms as int, 30 * DAY_MS)
                && created_at_ms <= now_ms,
        }
    }

    pub fn label(self) -> (r: &'static str)
        ensures
            r@ == self.label_text(),
    {
        match self {
            JournalDateRange::AnyTime => "Any time",
            JournalDateRange::Past7Days => "Past 7 days",
            JournalDateRange::Past30Days => "Past 30 days",
        }
    }

    pub fn includes(self, created_at_ms: u64, now_ms: u64) -> (r: bool)
        ensures
            r == self.spec_includes(created_at_ms, now_ms),
    {
        let days: u64 = match self {
            JournalDateRange::AnyTime => {
                return true;
            },
            JournalDateRange::Past7Days => 7,
            JournalDateRange::Past30Days => 30,
        };
        let span = days * DAY_MS;
        let cutoff = if now_ms >= span {
            now_ms - span
        } else {
            0
        };
        created_at_ms >= cutoff && created_at_ms <= now_ms
    }
}

impl Default for JournalDateRange {
    fn default() -> (r: Self)
        ensures
            r == JournalDateRange::AnyTime,
    {
        JournalDateRange::AnyTime
    }
}

/// The relative description of an instant against the clock `now_ms`.
pub open spec fn relative_date(created_at_ms: u64, now_ms: u64) -> Seq<char> {
    if created_at_ms > now_ms {
        "in the future"@
    } else if now_ms - created_at_ms < DAY_MS {
        "today"@
    } else if now_ms - created_at_ms < 2 * DAY_MS {
        "yesterday"@
    } else {
        decimal(((now_ms - created_at_ms) / (DAY_MS as int)) as nat) + " days ago"@
    }
}

/// Format a created instant with elapsed UTC-duration buckets, against an
/// explicit clock.
pub fn format_relative_date(created_at_ms: u64, now_ms: u64) -> (r: String)
    ensures
        r@ == relative_date(created_at_ms, now_ms),
{
    if created_at_ms > now_ms {
        return copy_str("in the future");
    }
    let elapsed_ms = now_ms - created_at_ms;
    if elapsed_ms < DAY_MS {
        copy_str("today")
    } else if elapsed_ms < 2 * DAY_MS {
        copy_str("yesterday")
    } else {
        let mut out = String::new();
        push_decimal(&mut out, elapsed_ms / DAY_MS);
        push_str(&mut out, " days ago");
        out
    }
}

/// An empty filter matches every row; otherwise one stored tag must equal it
/// up to ASCII case.
pub open spec fn tag_matches(tags: Seq<Seq<char>>, filter: Seq<char>) -> bool {
    filter.len() == 0 || exists|i: int| 0 <= i < tags.len() && eq_ignore_ascii_case(#[trigger] tags[i], filter)
}

/// Whether a summary passes the tag filter and the date range.
pub open spec fn selected(s: SessionSummary, filter: Seq<char>, range: JournalDateRange, now_ms: u64) -> bool {
    tag_matches(views(s.tags@), filter) && range.spec_includes(s.created_at_ms, now_ms)
}

/// The summaries that pass, in their given order.
pub open spec fn filtered(
    ss: Seq<SessionSummary>,
    filter: Seq<char>,
    range: JournalDateRange,
    now_ms: u64,
) -> Seq<SessionSummary>
    decreases ss.len(),
{
    if ss.len() == 0 {
        seq![]
    } else {
        let rest = filtered(ss.drop_last(), filter, range, now_ms);
        if selected(ss.last(), filter, range, now_ms) {
            rest.push(ss.last())
        } else {
            rest
        }
    }
}

pub open spec fn derefs<'a>(v: Seq<&'a SessionSummary>) -> Seq<SessionSummary> {
    v.map_values(|x: &'a SessionSummary| *x)
}

fn tags_match(tags: &Vec<String>, filter: &str) -> (r: bool)
    ensures
        r == tag_matches(views(tags@), filter@),
{
    if filter.is_empty() {
        return true;
    }
    let mut i: usize = 0;
    while i < tags.len()
        invariant
            i <= tags@.len(),
            filter@.len() > 0,
            forall|j: int| 0 <= j < i ==> !eq_ignore_ascii_case(#[trigger] views(tags@)[j], filter@),
        decreases tags@.len() - i,
    {
        if eq_ignore_case(tags[i].as_str(), filter) {
            assert(views(tags@)[i as int] == tags@[i as int]@);
            return true;
        }
        i += 1;
    }
    false
}

/// Filter summaries without graph access. A non-empty tag filter (after
/// trimming) matches one stored tag case-insensitively; date cutoffs include
/// their exact boundary.
pub fn filter_journal_summaries<'a>(
    summaries: &'a [SessionSummary],
    tag_filter: &str,
    date_range: JournalDateRange,
    now_ms: u64,
) -> (r: Vec<&'a SessionSummary>)
    ensures
        derefs(r@) == filtered(summaries@, trim(tag_filter@), date_range, now_ms),
{
    let filter = trim_str(tag_filter);
    let mut out: Vec<&'a SessionSummary> = Vec::new();
    let mut i: usize = 0;
    while i < summaries.len()
        invariant
            i <= summaries@.len(),
            filter@ == trim(tag_filter@),
            derefs(out@) == filtered(summaries@.take(i as int), filter@, date_range, now_ms),
        decreases summaries@.len() - i,
    {
        let s = &summaries[i];
        assert(summaries@.take(i as int + 1).drop_last() =~= summaries@.take(i as int));
        assert(summaries@.take(i as int + 1).last() == *s);
        let ghost before = out@;
        if tags_match(&s.tags, filter.as_str()) && date_range.includes(s.created_at_ms, now_ms) {
            out.push(s);
            assert(derefs(out@) =~= derefs(before).push(*s));
        }
        i += 1;
    }
    assert(summaries@.take(summaries@.len() as int) =~= summaries@);
    out
}

/// One bounded archive page plus enough metadata to state the bound.
#[derive(Clone, Debug, PartialEq, Eq)]
pub struct JournalPage<'a> {
    pub summaries: Vec<&'a SessionSummary>,
    pub page_index: usize,
    pub page_count: usize,
    pub total: usize,
}

/// The one-based number of the first row on a page, or 0 for an empty
/// journal.
pub open spec fn page_start(total: usize, page_index: usize) -> int {
    if total == 0 {
        0
    } else {
        page_index * JOURNAL_PAGE_SIZE + 1
    }
}

impl<'a> JournalPage<'a> {
    pub fn start(&self) -> (r: usize)
        requires
            self.page_index * JOURNAL_PAGE_SIZE + 1 <= usize::MAX,
        ensures
            r == page_start(self.total, self.page_index),
    {
        if self.total == 0 {
            0
        } else {
            self.page_index * JOURNAL_PAGE_SIZE + 1
        }
    }

    /// The one-based number of the last row on the page.
    pub fn end(&self) -> (r: usize)
        requires
            self.page_index * JOURNAL_PAGE_SIZE + 1 + self.summaries@.len() <= usize::MAX,
        ensures
            r == page_start(self.total, self.page_index) + if self.summaries@.len() > 0 {
                self.summaries@.len() - 1
            } else {
                0
            },
    {
        let n = self.summaries.len();
        let extra = if n > 0 {
            n - 1
        } else {
            0
        };
        self.start() + extra
    }
}

/// The number of pages for `total` rows: at least one.
pub open spec fn page_count_for(total: nat) -> nat {
    let full = total / (JOURNAL_PAGE_SIZE as nat);
    let pages = if total % (JOURNAL_PAGE_SIZE as nat) == 0 {
        full
    } else {
        full + 1
    };
    if pages == 0 {
        1
    } else {
        pages
    }
}

/// The requested page clamped to the final page.
pub open spec fn page_index_for(total: nat, requested: usize) -> nat {
    if requested < page_count_for(total) {
        requested as nat
    } else {
        (page_count_for(total) - 1) as nat
    }
}

/// The rows of page `index` of `rows`.
pub open spec fn page_rows(rows: Seq<SessionSummary>, index: nat) -> Seq<SessionSummary> {
    let start = index * (JOURNAL_PAGE_SIZE as nat);
    let end = if start + JOURNAL_PAGE_SIZE <= rows.len() {
        start + JOURNAL_PAGE_SIZE
    } else {
        rows.len() as int
    };
    rows.subrange(start as int, end)
}

pub proof fn lemma_page_start_in_range(total: nat, index: nat)
    requires
        index < page_count_for(total),
    ensures
        index * (JOURNAL_PAGE_SIZE as nat) <= total,
        total > 0 ==> index * (JOURNAL_PAGE_SIZE as nat) < total,
{
    let full = total / 20;
    assert(total == full * 20 + total % 20);
    if total % 20 == 0 {
        if total > 0 {
            assert(full >= 1);
            assert(index <= full - 1);
            assert(index * 20 <= (full - 1) * 20) by (nonlinear_arith)
                requires
                    index <= full - 1,
            ;
        } else {
            assert(index == 0);
        }
    } else {
        assert(index <= full);
        assert(index * 20 <= full * 20) by (nonlinear_arith)
            requires
                index <= full,
        ;
    }
}

/// Apply filtering, then take one archive page. Out-of-range page requests
/// clamp to the final page.
pub fn journal_page<'a>(
    summaries: &'a [SessionSummary],
    tag_filter: &str,
    date_range: JournalDateRange,
    now_ms: u64,
    requested_page: usize,
) -> (r: JournalPage<'a>)
    ensures
        ({
            let rows = filtered(summaries@, trim(tag_filter@), date_range, now_ms);
            &&& r.total == rows.len()
            &&& r.page_count == page_count_for(rows.len())
            &&& r.page_index == page_index_for(rows.len(), requested_page)
            &&& derefs(r.summaries@) == page_rows(rows, r.page_index as nat)
        }),
{
    let filtered_rows = filter_journal_summaries(summaries, tag_filter, date_range, now_ms);
    let ghost rows = derefs(filtered_rows@);
    let total = filtered_rows.len();
    let full = total / JOURNAL_PAGE_SIZE;
    let pages = if total % JOURNAL_PAGE_SIZE == 0 {
        full
    } else {
        full + 1
    };
    let page_count = if pages == 0 {
        1
    } else {
        pages
    };
    let page_index = if requested_page < page_count {
        requested_page
    } else {
        page_count - 1
    };
    proof {
        lemma_page_start_in_range(total as nat, page_index as nat);
    }
    let start = page_index * JOURNAL_PAGE_SIZE;
    let end = if total - start >= JOURNAL_PAGE_SIZE {
        start + JOURNAL_PAGE_SIZE
    } else {
        total
    };
    let mut page: Vec<&'a SessionSummary> = Vec::new();
    let mut k = start;
    while k < end
        invariant
            start <= k <= end <= total == filtered_rows@.len(),
            derefs(page@) == rows.subrange(start as int, k as int),
            rows == derefs(filtered_rows@),
        decreases end - k,
    {
        let ghost before = page@;
        page.push(filtered_rows[k]);
        assert(rows[k as int] == *filtered_rows@[k as int]);
        assert(derefs(page@) =~= derefs(before).push(rows[k as int]));
        assert(derefs(page@) =~= rows.subrange(start as int, k + 1));
        k += 1;
    }
    JournalPage { summaries: page, page_index, page_count, total }
}

/// Every page holds at most `JOURNAL_PAGE_SIZE` rows, each of which passes
/// the filter, and the page index always names an existing page.
pub proof fn law_page_is_bounded_and_filtered(
    summaries: Seq<SessionSummary>,
    tag_filter: Seq<char>,
    date_range: JournalDateRange,
    now_ms: u64,
    requested_page: usize,
)
    ensures
        ({
            let rows = filtered(summaries, trim(tag_filter), date_range, now_ms);
            let index = page_index_for(rows.len(), requested_page);
            &&& index < page_count_for(rows.len())
            &&& page_rows(rows, index).len() <= JOURNAL_PAGE_SIZE
            &&& forall|i: int|
                0 <= i < page_rows(rows, index).len() ==> selected(
                    #[trigger] page_rows(rows, index)[i],
                    trim(tag_filter),
                    date_range,
                    now_ms,
                )
        }),
{
    let filter = trim(tag_filter);
    let rows = filtered(summaries, filter, date_range, now_ms);
    let index = page_index_for(rows.len(), requested_page);
    lemma_page_start_in_range(rows.len(), index);
    lemma_filtered_selected(summaries, filter, date_range, now_ms);
    let page = page_rows(rows, index);
    assert forall|i: int| 0 <= i < page.len() implies selected(
        #[trigger] page[i],
        filter,
        date_range,
        now_ms,
    ) by {
        assert(page[i] == rows[index * 20 + i]);
    }
}

/// Every filtered row passes the filter.
pub proof fn lemma_filtered_selected(
    ss: Seq<SessionSummary>,
    filter: Seq<char>,
    range: JournalDateRange,
    now_ms: u64,
)
    ensures
        forall|i: int|
            0 <= i < filtered(ss, filter, range, now_ms).len() ==> selected(
                #[trigger] filtered(ss, filter, range, now_ms)[i],
                filter,
                range,
                now_ms,
            ),
    decreases ss.len(),
{
    if ss.len() > 0 {
        lemma_filtered_selected(ss.drop_last(), filter, range, now_ms);
        let rest = filtered(ss.drop_last(), filter, range, now_ms);
        let f = filtered(ss, filter, range, now_ms);
        assert forall|i: int| 0 <= i < f.len() implies selected(#[trigger] f[i], filter, range, now_ms) by {
            if i < rest.len() {
                assert(f[i] == rest[i]);
            }
        }
    }
}

/// A row passes the filter exactly when it is listed: filtering keeps every
/// matching row and no other.
pub proof fn law_filter_keeps_exactly_the_matches(
    ss: Seq<SessionSummary>,
    filter: Seq<char>,
    range: JournalDateRange,
    now_ms: u64,
    s: SessionSummary,
)
    requires
        ss.contains(s),
    ensures
        filtered(ss, filter, range, now_ms).contains(s) <==> selected(s, filter, range, now_ms),
    decreases ss.len(),
{
    lemma_filtered_selected(ss, filter, range, now_ms);
    let f = filtered(ss, filter, range, now_ms);
    if f.contains(s) {
        let i = choose|i: int| 0 <= i < f.len() && f[i] == s;
        assert(selected(f[i], filter, range, now_ms));
    }
    if selected(s, filter, range, now_ms) && ss.len() > 0 {
        let rest = filtered(ss.drop_last(), filter, range, now_ms);
        if ss.last() == s {
            assert(f == rest.push(s));
            assert(f[f.len() - 1] == s);
        } else {
            let k = choose|k: int| 0 <= k < ss.len() && ss[k] == s;
            assert(k < ss.len() - 1);
            assert(ss.drop_last()[k] == s);
            law_filter_keeps_exactly_the_matches(ss.drop_last(), filter, range, now_ms, s);
            let j = choose|j: int| 0 <= j < rest.len() && rest[j] == s;
            if selected(ss.last(), filter, range, now_ms) {
                assert(f[j] == s);
            } else {
                assert(f[j] == s);
            }
        }
    }
}

/// A non-empty tag filter passes a tag list exactly when some stored tag, at
/// any position, equals the filter up to ASCII case; an empty filter passes
/// every list. So a summary whose date is in range is listed when any one of
/// its tags matches the filter, wherever that tag stands among its tags.
pub proof fn law_any_stored_tag_matches(
    ss: Seq<SessionSummary>,
    s: SessionSummary,
    filter: Seq<char>,
    range: JournalDateRange,
    now_ms: u64,
    i: int,
)
    requires
        ss.contains(s),
        0 <= i < s.tags@.len(),
    ensures
        filter.len() == 0 ==> tag_matches(views(s.tags@), filter),
        filter.len() > 0 ==> (tag_matches(views(s.tags@), filter) <==> exists|j: int|
            0 <= j < s.tags@.len() && eq_ignore_ascii_case(#[trigger] s.tags@[j]@, filter)),
        eq_ignore_ascii_case(s.tags@[i]@, filter) ==> tag_matches(views(s.tags@), filter),
        eq_ignore_ascii_case(s.tags@[i]@, filter) && range.spec_includes(s.created_at_ms, now_ms)
            ==> filtered(ss, filter, range, now_ms).contains(s),
{
    let tv = views(s.tags@);
    assert(tv.len() == s.tags@.len());
    assert forall|j: int| 0 <= j < s.tags@.len() implies tv[j] == s.tags@[j]@ by {}
    if eq_ignore_ascii_case(s.tags@[i]@, filter) {
        assert(eq_ignore_ascii_case(tv[i], filter));
    }
    if filter.len() > 0 && tag_matches(tv, filter) {
        let j = choose|j: int| 0 <= j < tv.len() && eq_ignore_ascii_case(#[trigger] tv[j], filter);
        assert(eq_ignore_ascii_case(s.tags@[j]@, filter));
    }
    if filter.len() > 0 && (exists|j: int|
        0 <= j < s.tags@.len() && eq_ignore_ascii_case(#[trigger] s.tags@[j]@, filter)) {
        let j = choose|j: int| 0 <= j < s.tags@.len() && eq_ignore_ascii_case(#[trigger] s.tags@[j]@, filter);
        assert(eq_ignore_ascii_case(tv[j], filter));
    }
    law_filter_keeps_exactly_the_matches(ss, filter, range, now_ms, s);
}

} // verus!
