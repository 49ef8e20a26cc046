//! The checks a spread must pass before it is stored beside its session:
//! every identity it names is the one it is bound to, and every sealed result
//! it places is at hand.

use vstd::prelude::*;

use crate::reading::Reading;
use crate::session::{ReadingPlacement, ReadingSession};
use crate::spread::{
    find_reading_at, names, position_views, reading_at, same_position_names, session_position_names,
    spread_error, spread_problem, template_problem, three_card_problem, Spread, SpreadError,
    SpreadTemplate, ThreeCardPlacement, ThreeCardSpread,
};
use crate::summary::{find_reading, find_reading_index};
use crate::text::{copy_str, str_eq};

verus! {

/// Why a spread cannot be stored against the session and results given.
#[derive(Clone, Debug, PartialEq, Eq)]
pub enum BindingError {
    /// The spread, its template or its binding is not well formed.
    Spread(SpreadError),
    /// A sealed result the spread places is not among those at hand.
    MissingReading(String),
    /// A placed result was not sealed against the session's own context or
    /// field.
    InvalidSession(String),
}

/// A binding problem as plain values: `(0, message)` for an invalid spread
/// with that explanation, `(1, id)` for a missing result with that id, `(2,
/// message)` for a result sealed against another context or field.
pub open spec fn binding_error(e: BindingError, problem: (int, Seq<char>)) -> bool {
    if problem.0 == 1 {
        e matches BindingError::MissingReading(id) && id@ == problem.1
    } else if problem.0 == 2 {
        e matches BindingError::InvalidSession(m) && m@ == problem.1
    } else {
        e matches BindingError::Spread(s) && spread_error(s, problem.1)
    }
}

/// Whether a result with this id is at hand.
pub open spec fn reading_present(readings: Seq<Reading>, id: Seq<char>) -> bool {
    exists|i: int| 0 <= i < readings.len() && (#[trigger] readings[i]).id@ == id
}

/// What is wrong with one three-card placement against the session's own
/// placements and the results at hand.
pub open spec fn placement_binding_problem(
    session: Seq<ReadingPlacement>,
    readings: Seq<Reading>,
    p: ThreeCardPlacement,
) -> Option<(int, Seq<char>)> {
    match reading_at(session, p.position.name()) {
        None => Some((0int, "session positions"@)),
        Some(id) => if id != p.reading_id@ {
            Some((0int, "placement reading id"@))
        } else if !reading_present(readings, id) {
            Some((1int, id))
        } else {
            None
        },
    }
}

/// The first placement problem, in placement order.
pub open spec fn first_placement_problem(
    session: Seq<ReadingPlacement>,
    readings: Seq<Reading>,
    places: Seq<ThreeCardPlacement>,
) -> Option<(int, Seq<char>)>
    decreases places.len(),
{
    if places.len() == 0 {
        None
    } else {
        match placement_binding_problem(session, readings, places[0]) {
            Some(x) => Some(x),
            None => first_placement_problem(session, readings, places.drop_first()),
        }
    }
}

/// The first problem of a three-card frame against its session: the frame's
/// own validity, then the bound session id, then each placement in order.
pub open spec fn three_card_binding_problem(
    session: ReadingSession,
    readings: Seq<Reading>,
    spread: ThreeCardSpread,
) -> Option<(int, Seq<char>)> {
    match three_card_problem(spread) {
        Some(m) => Some((0int, m)),
        None => if spread.session_id@ != session.id@ {
            Some((0int, "bound session id"@))
        } else {
            first_placement_problem(session.placements@, readings, spread.placements@)
        },
    }
}

/// The first problem with the results a session places, in placement
/// order: a result that is not at hand, or whose receipt names another
/// context or field than the session's.
pub open spec fn first_session_reading_problem(
    ps: Seq<ReadingPlacement>,
    readings: Seq<Reading>,
    context_digest: Seq<char>,
    field_digest: Seq<char>,
) -> Option<(int, Seq<char>)>
    decreases ps.len(),
{
    if ps.len() == 0 {
        None
    } else {
        match find_reading(readings, ps[0].reading_id@) {
            None => Some((1int, ps[0].reading_id@)),
            Some(r) => if r.receipt.context_digest@ != context_digest {
                Some((2int, "reading context digest"@))
            } else if r.receipt.field_digest@ != field_digest {
                Some((2int, "reading field digest"@))
            } else {
                first_session_reading_problem(ps.drop_first(), readings, context_digest, field_digest)
            },
        }
    }
}

/// The first problem of an authored spread against its template and session:
/// the template's and the spread's own validity, the bound ids, the session's
/// position names against the template's, then each placed result in order.
pub open spec fn spread_binding_problem(
    session: ReadingSession,
    readings: Seq<Reading>,
    template: SpreadTemplate,
    spread: Spread,
) -> Option<(int, Seq<char>)> {
    match template_problem(template) {
        Some(m) => Some((0int, m)),
        None => match spread_problem(spread) {
            Some(m) => Some((0int, m)),
            None => if spread.template_id@ != template.id@ || spread.session_id@ != session.id@ {
                Some((0int, "bound template or session id"@))
            } else if names(position_views(template.positions@)) != session_position_names(
                session.placements@,
            ) {
                Some((0int, "session positions"@))
            } else {
                first_session_reading_problem(
                    session.placements@,
                    readings,
                    session.context_digest@,
                    session.field_digest@,
                )
            },
        },
    }
}

fn invalid_binding(message: &str) -> (e: BindingError)
    ensures
        binding_error(e, (0int, message@)),
{
    BindingError::Spread(SpreadError::InvalidSpread(copy_str(message)))
}

fn has_reading(readings: &[Reading], id: &str) -> (b: bool)
    ensures
        b == reading_present(readings@, id@),
{
    let mut i: usize = 0;
    while i < readings.len()
        invariant
            i <= readings@.len(),
            forall|j: int| 0 <= j < i ==> (#[trigger] readings@[j]).id@ != id@,
        decreases readings@.len() - i,
    {
        if str_eq(readings[i].id.as_str(), id) {
            return true;
        }
        i += 1;
    }
    false
}

/// Checks that a three-card frame may be stored beside `session`: the frame
/// is valid, it names this session, each of its positions takes the reading
/// the session placed there, and each such reading is among `readings`.
pub fn check_three_card_binding(
    session: &ReadingSession,
    readings: &[Reading],
    spread: &ThreeCardSpread,
) -> (r: Result<(), BindingError>)
    ensures
        match three_card_binding_problem(*session, readings@, *spread) {
            None => r is Ok,
            Some(p) => r matches Err(e) && binding_error(e, p),
        },
{
    match spread.validate() {
        Ok(()) => {},
        Err(e) => {
            return Err(BindingError::Spread(e));
        },
    }
    if !str_eq(spread.session_id.as_str(), session.id.as_str()) {
        return Err(invalid_binding("bound session id"));
    }
    let ghost ps = session.placements@;
    assert(three_card_binding_problem(*session, readings@, *spread) == first_placement_problem(
        ps,
        readings@,
        spread.placements@,
    ));
    let ghost places = spread.placements@;
    let mut i: usize = 0;
    assert(places.skip(0) =~= places);
    while i < spread.placements.len()
        invariant
            i <= places.len(),
            places == spread.placements@,
            ps == session.placements@,
            three_card_binding_problem(*session, readings@, *spread) == first_placement_problem(
                ps,
                readings@,
                places,
            ),
            first_placement_problem(ps, readings@, places) == first_placement_problem(
                ps,
                readings@,
                places.skip(i as int),
            ),
        decreases places.len() - i,
    {
        let ghost rest = places.skip(i as int);
        assert(rest[0] == places[i as int]);
        assert(rest.drop_first() =~= places.skip(i + 1));
        let p = &spread.placements[i];
        assert(first_placement_problem(ps, readings@, rest) == match placement_binding_problem(ps, readings@, *p) {
            Some(x) => Some(x),
            None => first_placement_problem(ps, readings@, rest.drop_first()),
        });
        match find_reading_at(session.placements.as_slice(), p.position.as_str()) {
            None => {
                return Err(invalid_binding("session positions"));
            },
            Some(id) => {
                if !str_eq(id.as_str(), p.reading_id.as_str()) {
                    return Err(invalid_binding("placement reading id"));
                }
                if !has_reading(readings, id.as_str()) {
                    return Err(BindingError::MissingReading(id));
                }
            },
        }
        i += 1;
    }
    assert(places.skip(i as int).len() == 0);
    Ok(())
}

/// Checks that an authored spread may be stored: its template and the spread
/// are valid, the spread names this template and this session, the session
/// places exactly the template's positions in order, and each result the
/// session places is among `readings`.
pub fn check_spread_binding(
    session: &ReadingSession,
    readings: &[Reading],
    template: &SpreadTemplate,
    spread: &Spread,
) -> (r: Result<(), BindingError>)
    ensures
        match spread_binding_problem(*session, readings@, *template, *spread) {
            None => r is Ok,
            Some(p) => r matches Err(e) && binding_error(e, p),
        },
{
    match template.validate() {
        Ok(()) => {},
        Err(e) => {
            return Err(BindingError::Spread(e));
        },
    }
    match spread.validate() {
        Ok(()) => {},
        Err(e) => {
            return Err(BindingError::Spread(e));
        },
    }
    if !str_eq(spread.template_id.as_str(), template.id.as_str()) || !str_eq(
        spread.session_id.as_str(),
        session.id.as_str(),
    ) {
        return Err(invalid_binding("bound template or session id"));
    }
    if !same_position_names(template, session) {
        return Err(invalid_binding("session positions"));
    }
    let ghost ps = session.placements@;
    let ghost cd = session.context_digest@;
    let ghost fd = session.field_digest@;
    let mut i: usize = 0;
    assert(ps.skip(0) =~= ps);
    while i < session.placements.len()
        invariant
            i <= ps.len(),
            ps == session.placements@,
            cd == session.context_digest@,
            fd == session.field_digest@,
            spread_binding_problem(*session, readings@, *template, *spread)
                == first_session_reading_problem(ps.skip(i as int), readings@, cd, fd),
        decreases ps.len() - i,
    {
        let ghost rest = ps.skip(i as int);
        assert(rest[0] == ps[i as int]);
        assert(rest.drop_first() =~= ps.skip(i + 1));
        match find_reading_index(readings, session.placements[i].reading_id.as_str()) {
            None => {
                return Err(BindingError::MissingReading(copy_str(session.placements[i].reading_id.as_str())));
            },
            Some(k) => {
                let r = &readings[k];
                if !str_eq(r.receipt.context_digest.as_str(), session.context_digest.as_str()) {
                    return Err(BindingError::InvalidSession(copy_str("reading context digest")));
                }
                if !str_eq(r.receipt.field_digest.as_str(), session.field_digest.as_str()) {
                    return Err(BindingError::InvalidSession(copy_str("reading field digest")));
                }
            },
        }
        i += 1;
    }
    assert(ps.skip(i as int).len() == 0);
    Ok(())
}

} // verus!
