//! The scratchpad: an append-only file that entries are added to,
//! each on a line of its own.

use vstd::prelude::*;

verus! {

/// The bytes appended to the scratch file for one message: a newline
/// followed by the message itself.
pub fn scratch_entry(message: &str) -> (r: String)
    ensures
        r@ == seq!['\n'] + message@,
{
    let mut out = String::new();
    out.append("\n");
    proof {
        reveal_strlit("\n");
        assert(out@ =~= seq!['\n']);
    }
    out.append(message);
    out
}

/// The scratch file's content after appending `message` to a file that
/// held `old_content`: the old content is kept unchanged as a prefix,
/// and the message follows on a new line.
pub fn scratch_content_after(old_content: &str, message: &str) -> (r: String)
    ensures
        r@ == old_content@ + seq!['\n'] + message@,
        r@.subrange(0, old_content@.len() as int) == old_content@,
{
    let mut out = String::new();
    out.append(old_content);
    let entry = scratch_entry(message);
    out.append(entry.as_str());
    proof {
        assert(out@ =~= old_content@ + seq!['\n'] + message@);
        assert(out@.subrange(0, old_content@.len() as int) =~= old_content@);
    }
    out
}

} // verus!
