//! The words a reading surface shows beside each named position.

use vstd::prelude::*;

use crate::text::{chars_of, is_ascii_lower, push_char, replace_char, str_eq};

verus! {

/// The uppercase mapping of a character, as `char::to_uppercase` yields it:
/// one or more characters.
pub uninterp spec fn unicode_uppercase(c: char) -> Seq<char>;

/// `char::to_uppercase`, collected into a string.
///
/// The standard library documents the result as the character's uppercase
/// mapping under Unicode, one to three characters, and the character itself
/// where it has no uppercase mapping. The contract claims that it depends on
/// the character alone, through `unicode_uppercase`, and that an ASCII
/// lowercase letter maps to its capital and any other ASCII character to
/// itself; of other characters it says nothing.
#[verifier::external_body]
fn uppercase_of(c: char) -> (r: String)
    ensures
        r@ == unicode_uppercase(c),
        is_ascii_lower(c) ==> r@ == seq![((c as u32) - 32) as char],
        (c as u32) < 128 && !is_ascii_lower(c) ==> r@ == seq![c],
{
    c.to_uppercase().collect::<String>()
}

/// A position name shown as words: underscores become spaces and the first
/// character is uppercased.
pub open spec fn spec_position_label(position: Seq<char>) -> Seq<char> {
    let words = replace_char(position, '_', ' ');
    if words.len() == 0 {
        words
    } else {
        unicode_uppercase(words[0]) + words.drop_first()
    }
}

pub fn position_label(position: &str) -> (r: String)
    ensures
        r@ == spec_position_label(position@),
{
    let v = chars_of(position);
    if v.len() == 0 {
        return String::new();
    }
    let first = if v[0] == '_' {
        ' '
    } else {
        v[0]
    };
    let mut out = uppercase_of(first);
    let ghost head = out@;
    let mut i: usize = 1;
    while i < v.len()
        invariant
            1 <= i <= v@.len(),
            v@ == position@,
            out@ == head + replace_char(v@, '_', ' ').subrange(1, i as int),
        decreases v@.len() - i,
    {
        let c = if v[i] == '_' {
            ' '
        } else {
            v[i]
        };
        push_char(&mut out, c);
        assert(replace_char(v@, '_', ' ').subrange(1, i as int + 1) =~= replace_char(
            v@,
            '_',
            ' ',
        ).subrange(1, i as int).push(c));
        i += 1;
    }
    assert(replace_char(v@, '_', ' ').subrange(1, v@.len() as int) =~= replace_char(
        position@,
        '_',
        ' ',
    ).drop_first());
    out
}

/// The reading guidance shown for a position of the built-in layouts, or
/// the general guidance for any other position.
pub open spec fn spec_position_rationale(position: Seq<char>) -> Seq<char> {
    if position == "foundation"@ {
        "Read this as the ground you are starting from: what supports the situation, or what you are taking for granted."@
    } else if position == "tension"@ {
        "Read this against the foundation: what complicates it, challenges it, or asks for a different response."@
    } else if position == "next_step"@ {
        "Read this as a possible response to that tension: something to try or attend to, rather than a promised outcome."@
    } else if position == "focus"@ {
        "Use this as a single lens on your question. Notice what fits your experience and what does not."@
    } else {
        "Read this through the named position in your chosen layout, alongside the other results and your question."@
    }
}

pub fn position_rationale(position: &str) -> (r: &'static str)
    ensures
        r@ == spec_position_rationale(position@),
{
    if str_eq(position, "foundation") {
        "Read this as the ground you are starting from: what supports the situation, or what you are taking for granted."
    } else if str_eq(position, "tension") {
        "Read this against the foundation: what complicates it, challenges it, or asks for a different response."
    } else if str_eq(position, "next_step") {
        "Read this as a possible response to that tension: something to try or attend to, rather than a promised outcome."
    } else if str_eq(position, "focus") {
        "Use this as a single lens on your question. Notice what fits your experience and what does not."
    } else {
        "Read this through the named position in your chosen layout, alongside the other results and your question."
    }
}

} // verus!
