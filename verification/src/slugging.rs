//! Turning a raw title into a filename-safe slug, and into the final
//! destination filename. The slug transformation itself is done by an
//! outside crate; what it returns is named `slug_of` and everything
//! downstream is stated over that name.

use vstd::prelude::*;
use crate::confirm::resolve_title;
use crate::confirm::response_views;
use crate::confirm::spec_resolve_title;
use crate::naming::first_free_candidate;
use crate::naming::name_views;
use crate::naming::spec_candidate;
use crate::naming::spec_placement;

verus! {

/// The slug an outside transformation derives from a title. A function
/// of the title's characters alone.
pub uninterp spec fn slug_of(s: Seq<char>) -> Seq<char>;

/// The characters a slug may consist of: lowercase ASCII letters,
/// ASCII digits, and the dash.
pub open spec fn is_slug_char(c: char) -> bool {
    ('a' as int <= c as int && c as int <= 'z' as int) || ('0' as int <= c as int && c as int
        <= '9' as int) || c == '-'
}

/// Relies on slug::slugify: the result is a function of the input
/// characters alone, and its documentation promises that it consists
/// only of `a-z`, `0-9` and `-`.
#[verifier::external_body]
pub(crate) fn slugify(title: &str) -> (r: String)
    ensures
        r@ == slug_of(title@),
        forall|i: int| 0 <= i < r@.len() ==> is_slug_char(#[trigger] r@[i]),
{
    slug::slugify(title)
}

/// Slugify the raw title and probe candidate filenames in attempt
/// order against the existing names, searching attempts
/// `0..=max_attempts`: the first free candidate is the destination.
/// `None` when every candidate collides, which cannot happen while
/// the attempts outnumber the existing names. The chosen name is
/// never one of the existing names, so an existing file is never
/// overwritten.
pub fn choose_destination(raw_title: &str, existing: &Vec<String>, max_attempts: u64) -> (r: Option<
    String,
>)
    ensures
        existing@.len() <= max_attempts ==> r is Some,
        match r {
            Some(name) => {
                &&& spec_placement(slug_of(raw_title@), name_views(existing@), max_attempts as nat)
                    matches Some(a) && name@ == spec_candidate(slug_of(raw_title@), a)
                &&& !name_views(existing@).contains(name@)
            },
            None => spec_placement(
                slug_of(raw_title@),
                name_views(existing@),
                max_attempts as nat,
            ) is None,
        },
{
    let slug = slugify(raw_title);
    first_free_candidate(slug.as_str(), existing, max_attempts)
}

/// The whole naming pipeline over a finite list of prompt responses:
/// resolve the raw title (explicit, else extracted, else asked for,
/// with confirmation in between), slugify it, and probe for a free
/// destination filename. `None` when the responses ran out before a
/// title was settled, or when every candidate collided.
pub fn resolve_destination(
    explicit: &Option<String>,
    content: &str,
    responses: &Vec<String>,
    existing: &Vec<String>,
    max_attempts: u64,
) -> (r: Option<String>)
    ensures
        ({
            let title = spec_resolve_title(
                match explicit {
                    Some(e) => Some(e@),
                    None => None,
                },
                content@,
                response_views(responses@),
            );
            match title {
                None => r is None,
                Some(t) => match r {
                    Some(name) => {
                        &&& spec_placement(slug_of(t), name_views(existing@), max_attempts as nat)
                            matches Some(a) && name@ == spec_candidate(slug_of(t), a)
                        &&& !name_views(existing@).contains(name@)
                    },
                    None => spec_placement(
                        slug_of(t),
                        name_views(existing@),
                        max_attempts as nat,
                    ) is None,
                },
            }
        }),
{
    match resolve_title(explicit, content, responses) {
        Some(title) => choose_destination(title.as_str(), existing, max_attempts),
        None => None,
    }
}

} // verus!
