//! The interactive side of title resolution, as a state machine over
//! one line of user input at a time: confirm a proposed title, ask for
//! a different one, or ask again on anything unrecognised.

use vstd::prelude::*;
use crate::title::spec_title_of;
use crate::title::title_from_content;

verus! {

/// What one response to the confirmation prompt decides.
#[derive(Clone, Copy, PartialEq, Eq, Structural, Debug)]
pub enum ConfirmStep {
    /// Keep the proposed title as it is.
    AcceptCurrent,
    /// Discard the proposed title and ask for a fresh one.
    AskForNew,
    /// The response was not understood: ask the same question again.
    Retry,
}

/// The decision one response carries: `y`/`Y` asks for a new title,
/// `n`/`N` or an empty line accepts the current one, anything else
/// repeats the question.
pub open spec fn spec_confirm_step(resp: Seq<char>) -> ConfirmStep {
    if resp.len() == 1 && (resp[0] == 'y' || resp[0] == 'Y') {
        ConfirmStep::AskForNew
    } else if resp.len() == 0 || (resp.len() == 1 && (resp[0] == 'n' || resp[0] == 'N')) {
        ConfirmStep::AcceptCurrent
    } else {
        ConfirmStep::Retry
    }
}

/// Classify one line of response to the confirmation prompt.
pub fn confirm_step(response: &str) -> (r: ConfirmStep)
    ensures
        r == spec_confirm_step(response@),
{
    let n = response.unicode_len();
    if n == 0 {
        return ConfirmStep::AcceptCurrent;
    }
    if n == 1 {
        let c = response.get_char(0);
        if c == 'y' || c == 'Y' {
            return ConfirmStep::AskForNew;
        }
        if c == 'n' || c == 'N' {
            return ConfirmStep::AcceptCurrent;
        }
    }
    ConfirmStep::Retry
}

/// The title the confirmation loop settles on when fed the responses
/// in order: the proposed title on acceptance, the response following
/// a `y`/`Y` on rejection, and `None` when the responses run out
/// before a decision (the interactive loop would keep asking).
pub open spec fn spec_run_confirm(title: Seq<char>, resps: Seq<Seq<char>>) -> Option<Seq<char>>
    decreases resps.len(),
{
    if resps.len() == 0 {
        None
    } else {
        match spec_confirm_step(resps[0]) {
            ConfirmStep::AcceptCurrent => Some(title),
            ConfirmStep::AskForNew => if resps.len() >= 2 {
                Some(resps[1])
            } else {
                None
            },
            ConfirmStep::Retry => spec_run_confirm(title, resps.subrange(1, resps.len() as int)),
        }
    }
}

/// The views of a list of responses.
pub open spec fn response_views(resps: Seq<String>) -> Seq<Seq<char>> {
    resps.map_values(|s: String| s@)
}

/// Run the confirmation loop over a finite list of responses: accept
/// the proposed title on `n`/`N`/empty, take the next response as the
/// new title on `y`/`Y`, ask again otherwise. `None` means the
/// responses ran out before a decision was reached.
pub fn run_confirm(raw_title: &str, responses: &Vec<String>) -> (r: Option<String>)
    ensures
        match r {
            Some(t) => spec_run_confirm(raw_title@, response_views(responses@)) == Some(t@),
            None => spec_run_confirm(raw_title@, response_views(responses@)) is None,
        },
{
    let ghost views = response_views(responses@);
    proof {
        assert(views.subrange(0, views.len() as int) =~= views);
    }
    let mut idx: usize = 0;
    loop
        invariant
            0 <= idx <= responses.len(),
            views == response_views(responses@),
            views.len() == responses@.len(),
            spec_run_confirm(raw_title@, views) == spec_run_confirm(
                raw_title@,
                views.subrange(idx as int, views.len() as int),
            ),
        decreases responses.len() - idx,
    {
        let ghost rest = views.subrange(idx as int, views.len() as int);
        if idx >= responses.len() {
            return None;
        }
        proof {
            assert(views[idx as int] == responses@[idx as int]@);
            assert(rest[0] == views[idx as int]);
        }
        let step = confirm_step(responses[idx].as_str());
        match step {
            ConfirmStep::AcceptCurrent => {
                return Some(String::from_str(raw_title));
            },
            ConfirmStep::AskForNew => {
                if idx + 1 < responses.len() {
                    proof {
                        assert(rest[1] == views[idx as int + 1]);
                        assert(views[idx as int + 1] == responses@[idx as int + 1]@);
                    }
                    return Some(responses[idx + 1].clone());
                }
                return None;
            },
            ConfirmStep::Retry => {
                proof {
                    assert(rest.subrange(1, rest.len() as int) =~= views.subrange(
                        idx as int + 1,
                        views.len() as int,
                    ));
                }
                idx += 1;
            },
        }
    }
}

/// The confirmation loop invents no title: what it settles on is
/// either the proposed title unchanged (acceptance) or one of the
/// responses (the answer to the follow-up ask after a rejection).
pub proof fn lemma_confirm_title_source(title: Seq<char>, resps: Seq<Seq<char>>)
    ensures
        spec_run_confirm(title, resps) matches Some(t) ==> t == title || resps.contains(t),
    decreases resps.len(),
{
    if resps.len() > 0 && spec_confirm_step(resps[0]) is Retry {
        let rest = resps.subrange(1, resps.len() as int);
        lemma_confirm_title_source(title, rest);
        if spec_run_confirm(title, rest) is Some {
            let t = spec_run_confirm(title, rest).unwrap();
            if rest.contains(t) {
                let i = choose|i: int| 0 <= i < rest.len() && rest[i] == t;
                assert(resps[i + 1] == t);
            }
        }
    }
}

/// The raw title available before any interaction: the explicit one
/// when it was supplied, else whatever the content's first qualifying
/// heading line yields.
pub open spec fn spec_resolved_raw_title(explicit: Option<Seq<char>>, content: Seq<char>) -> Option<
    Seq<char>,
> {
    if explicit is Some {
        explicit
    } else {
        spec_title_of(content)
    }
}

/// Resolve the raw title: an explicit title is authoritative and
/// bypasses content scanning; otherwise the content is scanned for its
/// first qualifying heading line.
pub fn resolve_raw_title(explicit: &Option<String>, content: &str) -> (r: Option<String>)
    ensures
        match r {
            Some(t) => spec_resolved_raw_title(
                match explicit {
                    Some(e) => Some(e@),
                    None => None,
                },
                content@,
            ) == Some(t@),
            None => spec_resolved_raw_title(
                match explicit {
                    Some(e) => Some(e@),
                    None => None,
                },
                content@,
            ) is None,
        },
{
    match explicit {
        Some(t) => Some(t.clone()),
        None => title_from_content(content),
    }
}

/// The title the whole resolution policy settles on, fed the prompt
/// responses in order: a raw title (explicit or extracted) goes
/// through the confirmation loop; with no raw title the first
/// response is taken directly as the filename.
pub open spec fn spec_resolve_title(
    explicit: Option<Seq<char>>,
    content: Seq<char>,
    resps: Seq<Seq<char>>,
) -> Option<Seq<char>> {
    match spec_resolved_raw_title(explicit, content) {
        Some(t) => spec_run_confirm(t, resps),
        None => if resps.len() >= 1 {
            Some(resps[0])
        } else {
            None
        },
    }
}

/// Run the full title resolution policy over a finite list of prompt
/// responses. `None` means the responses ran out before a title was
/// settled (the interactive loop would keep asking).
pub fn resolve_title(explicit: &Option<String>, content: &str, responses: &Vec<String>) -> (r:
    Option<String>)
    ensures
        match r {
            Some(t) => spec_resolve_title(
                match explicit {
                    Some(e) => Some(e@),
                    None => None,
                },
                content@,
                response_views(responses@),
            ) == Some(t@),
            None => spec_resolve_title(
                match explicit {
                    Some(e) => Some(e@),
                    None => None,
                },
                content@,
                response_views(responses@),
            ) is None,
        },
{
    let raw = resolve_raw_title(explicit, content);
    match raw {
        Some(t) => run_confirm(t.as_str(), responses),
        None => {
            if responses.len() >= 1 {
                proof {
                    assert(response_views(responses@)[0] == responses@[0]@);
                }
                Some(responses[0].clone())
            } else {
                None
            }
        },
    }
}

} // verus!
