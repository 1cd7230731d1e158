//! Deriving a raw title from document content.
//!
//! A title is taken from the first line of the content that starts with
//! the heading marker `"# "` and carries something other than whitespace
//! after it. The marker is stripped; the remainder is returned as it
//! stands. Content without such a line yields no title.

use vstd::prelude::*;

verus! {

/// Whitespace as it can occur inside one line of text.
pub open spec fn is_blank_char(c: char) -> bool {
    c == ' ' || c == '\t' || c == '\r'
}

/// Index of the first newline at or after `i`, or `s.len()` when the
/// rest of `s` holds none: the exclusive end of the line starting at `i`.
pub open spec fn line_end(s: Seq<char>, i: int) -> int
    decreases s.len() - i when 0 <= i <= s.len()
{
    if i >= s.len() {
        s.len() as int
    } else if s[i] == '\n' {
        i
    } else {
        line_end(s, i + 1)
    }
}

pub proof fn lemma_line_end(s: Seq<char>, i: int)
    requires
        0 <= i <= s.len(),
    ensures
        i <= line_end(s, i) <= s.len(),
        line_end(s, i) < s.len() ==> s[line_end(s, i)] == '\n',
        forall|k: int| i <= k < line_end(s, i) ==> s[k] != '\n',
    decreases s.len() - i,
{
    if i < s.len() && s[i] != '\n' {
        lemma_line_end(s, i + 1);
    }
}

/// One line's content: a trailing carriage return does not belong to it.
pub open spec fn strip_cr(l: Seq<char>) -> Seq<char> {
    if l.len() > 0 && l.last() == '\r' {
        l.drop_last()
    } else {
        l
    }
}

/// The content of the line of `s` that starts at index `i`.
pub open spec fn line_at(s: Seq<char>, i: int) -> Seq<char> {
    strip_cr(s.subrange(i, line_end(s, i)))
}

/// `i` is the start of a line of `s`: the very beginning, or any
/// position directly after a newline.
pub open spec fn is_line_start(s: Seq<char>, i: int) -> bool {
    0 <= i <= s.len() && (i == 0 || s[i - 1] == '\n')
}

/// The title a single line yields: the part after the `"# "` marker,
/// provided that part holds at least one non-whitespace character.
/// A marker followed by nothing, or by whitespace only, yields none.
pub open spec fn heading_title(line: Seq<char>) -> Option<Seq<char>> {
    if line.len() >= 2 && line[0] == '#' && line[1] == ' ' && (exists|k: int|
        2 <= k < line.len() && !is_blank_char(line[k])) {
        Some(line.subrange(2, line.len() as int))
    } else {
        None
    }
}

/// The title of the first qualifying heading line at or after line
/// start `i`; later qualifying lines are ignored.
pub open spec fn title_from(s: Seq<char>, i: int) -> Option<Seq<char>>
    decreases s.len() - i when 0 <= i <= s.len()
{
    let e = line_end(s, i);
    let line = strip_cr(s.subrange(i, e));
    if heading_title(line) is Some {
        heading_title(line)
    } else if e >= s.len() {
        None
    } else {
        proof {
            lemma_line_end(s, i);
        }
        title_from(s, e + 1)
    }
}

/// The title of the whole content: that of its first qualifying
/// heading line, if any.
pub open spec fn spec_title_of(s: Seq<char>) -> Option<Seq<char>> {
    title_from(s, 0)
}

/// Return the title of the first line of `input` that starts with the
/// heading marker `"# "` followed by something other than whitespace,
/// with the marker stripped; `None` when no line qualifies.
pub fn title_from_content(input: &str) -> (r: Option<String>)
    ensures
        match r {
            Some(t) => spec_title_of(input@) == Some(t@),
            None => spec_title_of(input@) is None,
        },
{
    let n = input.unicode_len();
    let mut i: usize = 0;
    loop
        invariant
            0 <= i <= n,
            n == input@.len(),
            title_from(input@, 0) == title_from(input@, i as int),
        decreases n - i,
    {
        let ghost s = input@;
        // Find the end of the line that starts at i.
        let mut j: usize = i;
        while j < n && input.get_char(j) != '\n'
            invariant
                i <= j <= n,
                n == s.len(),
                s == input@,
                line_end(s, i as int) == line_end(s, j as int),
            decreases n - j,
        {
            j += 1;
        }
        proof {
            lemma_line_end(s, i as int);
        }
        assert(line_end(s, i as int) == j as int);

        // The line's content ends before a trailing carriage return.
        let e2: usize = if j > i && input.get_char(j - 1) == '\r' {
            j - 1
        } else {
            j
        };
        let ghost line = strip_cr(s.subrange(i as int, j as int));
        proof {
            assert(line =~= s.subrange(i as int, e2 as int));
        }

        if e2 - i >= 2 && input.get_char(i) == '#' && input.get_char(i + 1) == ' ' {
            // Look for a non-whitespace character after the marker.
            let mut k: usize = i + 2;
            let mut found = false;
            while k < e2 && !found
                invariant
                    i + 2 <= k <= e2 <= n,
                    n == s.len(),
                    s == input@,
                    !found ==> forall|m: int| i + 2 <= m < k ==> is_blank_char(s[m]),
                    found ==> exists|m: int| i + 2 <= m < e2 && !is_blank_char(s[m]),
                decreases e2 - k + (if found { 0int } else { 1int }),
            {
                let c = input.get_char(k);
                if c != ' ' && c != '\t' && c != '\r' {
                    found = true;
                } else {
                    k += 1;
                }
            }
            if found {
                assert(heading_title(line) is Some) by {
                    let m = choose|m: int| i + 2 <= m < e2 && !is_blank_char(s[m]);
                    assert(line[m - i] == s[m]);
                    assert(2 <= m - i < line.len() && !is_blank_char(line[m - i]));
                }
                let sub = input.substring_char(i + 2, e2);
                let title = String::from_str(sub);
                proof {
                    assert(title@ =~= line.subrange(2, line.len() as int));
                }
                return Some(title);
            }
            assert(heading_title(line) is None) by {
                assert(forall|k2: int| 2 <= k2 < line.len() ==> line[k2] == s[i + k2]);
            }
        } else {
            assert(heading_title(line) is None);
        }

        if j >= n {
            return None;
        }
        i = j + 1;
    }
}

proof fn lemma_no_heading_no_title_from(s: Seq<char>, i: int)
    requires
        is_line_start(s, i),
        forall|j: int| is_line_start(s, j) ==> heading_title(#[trigger] line_at(s, j)) is None,
    ensures
        title_from(s, i) is None,
    decreases s.len() - i,
{
    lemma_line_end(s, i);
    let e = line_end(s, i);
    assert(heading_title(line_at(s, i)) is None);
    if e < s.len() {
        assert(is_line_start(s, e + 1));
        lemma_no_heading_no_title_from(s, e + 1);
    }
}

/// Content in which no line yields a heading title has no title at all.
pub proof fn lemma_no_heading_no_title(s: Seq<char>)
    requires
        forall|j: int| is_line_start(s, j) ==> heading_title(#[trigger] line_at(s, j)) is None,
    ensures
        spec_title_of(s) is None,
{
    lemma_no_heading_no_title_from(s, 0);
}

proof fn lemma_unique_heading_from(s: Seq<char>, k: int, i: int)
    requires
        is_line_start(s, k),
        is_line_start(s, i),
        k <= i,
        heading_title(line_at(s, i)) is Some,
        forall|j: int| is_line_start(s, j) && j != i ==> heading_title(#[trigger] line_at(s, j)) is None,
    ensures
        title_from(s, k) == heading_title(line_at(s, i)),
    decreases s.len() - k,
{
    lemma_line_end(s, k);
    let e = line_end(s, k);
    if k == i {
        assert(title_from(s, k) == heading_title(line_at(s, i)));
    } else {
        assert(heading_title(line_at(s, k)) is None);
        // Since a line starts at i > k, a newline sits at i - 1, so the
        // line that starts at k ends at or before it.
        assert(e < s.len()) by {
            if e >= s.len() {
                assert(k <= i - 1 < e && s[i - 1] == '\n');
            }
        }
        assert(e + 1 <= i) by {
            if e + 1 > i {
                assert(k <= i - 1 < e && s[i - 1] == '\n');
            }
        }
        assert(is_line_start(s, e + 1));
        lemma_unique_heading_from(s, e + 1, i);
    }
}

/// Content with exactly one line that yields a heading title has that
/// line's title, wherever the line stands.
pub proof fn lemma_unique_heading_extracted(s: Seq<char>, i: int)
    requires
        is_line_start(s, i),
        heading_title(line_at(s, i)) is Some,
        forall|j: int| is_line_start(s, j) && j != i ==> heading_title(#[trigger] line_at(s, j)) is None,
    ensures
        spec_title_of(s) == heading_title(line_at(s, i)),
{
    lemma_unique_heading_from(s, 0, i);
}

proof fn lemma_title_from_never_blank(s: Seq<char>, i: int)
    requires
        0 <= i <= s.len(),
    ensures
        title_from(s, i) matches Some(t) ==> t.len() > 0 && exists|k: int|
            0 <= k < t.len() && !is_blank_char(t[k]),
    decreases s.len() - i,
{
    lemma_line_end(s, i);
    let e = line_end(s, i);
    let line = strip_cr(s.subrange(i, e));
    if heading_title(line) is Some {
        let m = choose|m: int| 2 <= m < line.len() && !is_blank_char(line[m]);
        let t = line.subrange(2, line.len() as int);
        assert(t[m - 2] == line[m]);
        assert(!is_blank_char(t[m - 2]));
    } else if e < s.len() {
        lemma_title_from_never_blank(s, e + 1);
    }
}

/// An extracted title is never the empty string, nor whitespace only:
/// it always holds at least one non-whitespace character.
pub proof fn lemma_title_never_blank(s: Seq<char>)
    ensures
        spec_title_of(s) matches Some(t) ==> t.len() > 0 && exists|k: int|
            0 <= k < t.len() && !is_blank_char(t[k]),
{
    lemma_title_from_never_blank(s, 0);
}

/// The text a fresh draft is seeded with: the heading marker, then the
/// explicit title when one was given.
pub fn draft_template(title: &Option<String>) -> (r: String)
    ensures
        r@ == seq!['#', ' '] + (match title {
            Some(t) => t@,
            None => Seq::<char>::empty(),
        }),
{
    let mut out = String::from_str("# ");
    proof {
        reveal_strlit("# ");
        assert(out@ =~= seq!['#', ' ']);
    }
    match title {
        Some(t) => {
            out.append(t.as_str());
        },
        None => {},
    }
    proof {
        assert(out@ =~= seq!['#', ' '] + (match title {
            Some(t) => t@,
            None => Seq::<char>::empty(),
        }));
    }
    out
}

} // verus!
