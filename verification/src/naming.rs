//! Destination filenames: a slug, an optional numeric disambiguator,
//! and the note extension, probed against the names already present
//! until a free one is found.

use vstd::prelude::*;
use vstd::arithmetic::div_mod::lemma_fundamental_div_mod;
use vstd::relations::injective_on;
use vstd::set_lib::lemma_int_range;
use vstd::set_lib::lemma_len_subset;
use vstd::set_lib::lemma_map_size;
use vstd::set_lib::set_int_range;

verus! {

/// The character for one decimal digit.
pub open spec fn spec_digit_char(d: int) -> char {
    if d == 0 {
        '0'
    } else if d == 1 {
        '1'
    } else if d == 2 {
        '2'
    } else if d == 3 {
        '3'
    } else if d == 4 {
        '4'
    } else if d == 5 {
        '5'
    } else if d == 6 {
        '6'
    } else if d == 7 {
        '7'
    } else if d == 8 {
        '8'
    } else {
        '9'
    }
}

/// The decimal digits of `n`, most significant first, no leading zeros.
pub open spec fn spec_dec_digits(n: nat) -> Seq<char>
    decreases n,
{
    if n < 10 {
        seq![spec_digit_char(n as int)]
    } else {
        spec_dec_digits(n / 10) + seq![spec_digit_char((n % 10) as int)]
    }
}

/// The decimal digits of `n`, zero-padded on the left to at least
/// three places.
pub open spec fn spec_pad3(n: nat) -> Seq<char> {
    if n < 10 {
        seq!['0', '0'] + spec_dec_digits(n)
    } else if n < 100 {
        seq!['0'] + spec_dec_digits(n)
    } else {
        spec_dec_digits(n)
    }
}

/// The note file extension.
pub open spec fn md_extension() -> Seq<char> {
    seq!['.', 'm', 'd']
}

/// The destination filename tried at a given attempt: the bare slug
/// first, then the slug with a dash and a zero-padded three-digit
/// disambiguator, always with the note extension.
pub open spec fn spec_candidate(slug: Seq<char>, attempt: nat) -> Seq<char> {
    if attempt == 0 {
        slug + md_extension()
    } else {
        slug + seq!['-'] + spec_pad3(attempt) + md_extension()
    }
}

fn digit_str(d: u8) -> (r: &'static str)
    requires
        d < 10,
    ensures
        r@ == seq![spec_digit_char(d as int)],
{
    proof {
        reveal_strlit("0");
        reveal_strlit("1");
        reveal_strlit("2");
        reveal_strlit("3");
        reveal_strlit("4");
        reveal_strlit("5");
        reveal_strlit("6");
        reveal_strlit("7");
        reveal_strlit("8");
        reveal_strlit("9");
    }
    let r: &'static str = if d == 0 {
        "0"
    } else if d == 1 {
        "1"
    } else if d == 2 {
        "2"
    } else if d == 3 {
        "3"
    } else if d == 4 {
        "4"
    } else if d == 5 {
        "5"
    } else if d == 6 {
        "6"
    } else if d == 7 {
        "7"
    } else if d == 8 {
        "8"
    } else {
        "9"
    };
    proof {
        assert(r@ =~= seq![spec_digit_char(d as int)]);
    }
    r
}

fn dec_digits(n: u64) -> (r: String)
    ensures
        r@ == spec_dec_digits(n as nat),
    decreases n,
{
    if n < 10 {
        String::from_str(digit_str(n as u8))
    } else {
        let rest = dec_digits(n / 10);
        let r = rest.concat(digit_str((n % 10) as u8));
        proof {
            assert(r@ =~= spec_dec_digits(n as nat));
        }
        r
    }
}

fn pad3(n: u64) -> (r: String)
    ensures
        r@ == spec_pad3(n as nat),
{
    proof {
        reveal_strlit("00");
        reveal_strlit("0");
    }
    if n < 10 {
        let r = String::from_str("00").concat(dec_digits(n).as_str());
        proof {
            assert(r@ =~= spec_pad3(n as nat));
        }
        r
    } else if n < 100 {
        let r = String::from_str("0").concat(dec_digits(n).as_str());
        proof {
            assert(r@ =~= spec_pad3(n as nat));
        }
        r
    } else {
        dec_digits(n)
    }
}

/// Build the destination filename for one attempt: `<slug>.md` for the
/// first, `<slug>-<attempt zero-padded to 3 digits>.md` after that.
pub fn candidate_filename(slug: &str, attempt: u64) -> (r: String)
    ensures
        r@ == spec_candidate(slug@, attempt as nat),
{
    proof {
        reveal_strlit("-");
        reveal_strlit(".md");
    }
    let mut out = String::from_str(slug);
    if attempt > 0 {
        out.append("-");
        let digits = pad3(attempt);
        out.append(digits.as_str());
    }
    out.append(".md");
    proof {
        assert(out@ =~= spec_candidate(slug@, attempt as nat));
    }
    out
}

/// The views of a list of filenames.
pub open spec fn name_views(names: Seq<String>) -> Seq<Seq<char>> {
    names.map_values(|s: String| s@)
}

/// The first attempt number at or after `from`, up to `cap`, whose
/// candidate filename is not among the existing names; `None` when
/// every attempt through `cap` collides.
pub open spec fn first_free_from(slug: Seq<char>, existing: Seq<Seq<char>>, from: nat, cap: nat) -> Option<nat>
    decreases cap + 1 - from,
{
    if from > cap {
        None
    } else if !existing.contains(spec_candidate(slug, from)) {
        Some(from)
    } else {
        first_free_from(slug, existing, from + 1, cap)
    }
}

/// The attempt chosen by collision probing: the least attempt, up to
/// `cap`, whose candidate is free of the existing names.
pub open spec fn spec_placement(slug: Seq<char>, existing: Seq<Seq<char>>, cap: nat) -> Option<nat> {
    first_free_from(slug, existing, 0, cap)
}

proof fn lemma_first_free_from_props(slug: Seq<char>, existing: Seq<Seq<char>>, from: nat, cap: nat)
    ensures
        first_free_from(slug, existing, from, cap) matches Some(a) ==> from <= a <= cap
            && !existing.contains(spec_candidate(slug, a)) && forall|b: nat|
            from <= b < a ==> existing.contains(spec_candidate(slug, b)),
        first_free_from(slug, existing, from, cap) is None ==> forall|b: nat|
            from <= b <= cap ==> existing.contains(spec_candidate(slug, b)),
    decreases cap + 1 - from,
{
    if from <= cap && existing.contains(spec_candidate(slug, from)) {
        lemma_first_free_from_props(slug, existing, from + 1, cap);
    }
}

/// The placement decision picks the least free attempt: the chosen
/// candidate does not collide, every earlier candidate does, and when
/// nothing is chosen every attempt through `cap` collides.
pub proof fn lemma_placement_is_least(slug: Seq<char>, existing: Seq<Seq<char>>, cap: nat)
    ensures
        spec_placement(slug, existing, cap) matches Some(a) ==> a <= cap && !existing.contains(
            spec_candidate(slug, a),
        ) && forall|b: nat| b < a ==> existing.contains(spec_candidate(slug, b)),
        spec_placement(slug, existing, cap) is None ==> forall|b: nat|
            b <= cap ==> existing.contains(spec_candidate(slug, b)),
{
    lemma_first_free_from_props(slug, existing, 0, cap);
}

/// The value of one decimal digit character; other characters get a
/// value no digit has.
spec fn digit_val(c: char) -> int {
    if c == '0' {
        0
    } else if c == '1' {
        1
    } else if c == '2' {
        2
    } else if c == '3' {
        3
    } else if c == '4' {
        4
    } else if c == '5' {
        5
    } else if c == '6' {
        6
    } else if c == '7' {
        7
    } else if c == '8' {
        8
    } else if c == '9' {
        9
    } else {
        10
    }
}

/// The number a sequence of digit characters denotes.
spec fn digits_val(s: Seq<char>) -> int
    decreases s.len(),
{
    if s.len() == 0 {
        0
    } else {
        digits_val(s.drop_last()) * 10 + digit_val(s.last())
    }
}

proof fn lemma_dec_digits_val(n: nat)
    ensures
        digits_val(spec_dec_digits(n)) == n,
    decreases n,
{
    assert(digits_val(Seq::<char>::empty()) == 0);
    if n < 10 {
        let c = spec_digit_char(n as int);
        assert(spec_dec_digits(n) == seq![c]);
        assert(seq![c].drop_last() =~= Seq::<char>::empty());
        assert(seq![c].last() == c);
        assert(digits_val(seq![c]) == digit_val(c));
        assert(digit_val(c) == n);
    } else {
        lemma_dec_digits_val(n / 10);
        let c = spec_digit_char((n % 10) as int);
        assert(spec_dec_digits(n) == spec_dec_digits(n / 10) + seq![c]);
        assert((spec_dec_digits(n / 10) + seq![c]).drop_last() =~= spec_dec_digits(n / 10));
        assert((spec_dec_digits(n / 10) + seq![c]).last() == c);
        assert(digits_val(spec_dec_digits(n)) == digits_val(spec_dec_digits(n / 10)) * 10
            + digit_val(c));
        assert(digit_val(c) == n % 10);
        lemma_fundamental_div_mod(n as int, 10);
    }
}

proof fn lemma_digits_val_prepend_zero(s: Seq<char>)
    ensures
        digits_val(seq!['0'] + s) == digits_val(s),
    decreases s.len(),
{
    assert(digits_val(Seq::<char>::empty()) == 0);
    if s.len() == 0 {
        assert((seq!['0'] + s) =~= seq!['0']);
        assert((seq!['0']).drop_last() =~= Seq::<char>::empty());
        assert((seq!['0']).last() == '0');
        assert(digits_val(seq!['0']) == digit_val('0'));
    } else {
        assert((seq!['0'] + s).drop_last() =~= seq!['0'] + s.drop_last());
        assert((seq!['0'] + s).last() == s.last());
        lemma_digits_val_prepend_zero(s.drop_last());
        assert(digits_val(seq!['0'] + s) == digits_val(seq!['0'] + s.drop_last()) * 10 + digit_val(
            s.last(),
        ));
        assert(digits_val(s) == digits_val(s.drop_last()) * 10 + digit_val(s.last()));
    }
}

proof fn lemma_pad3_val(n: nat)
    ensures
        digits_val(spec_pad3(n)) == n,
{
    lemma_dec_digits_val(n);
    if n < 10 {
        assert(seq!['0', '0'] + spec_dec_digits(n) =~= seq!['0'] + (seq!['0'] + spec_dec_digits(
            n,
        )));
        lemma_digits_val_prepend_zero(spec_dec_digits(n));
        lemma_digits_val_prepend_zero(seq!['0'] + spec_dec_digits(n));
    } else if n < 100 {
        lemma_digits_val_prepend_zero(spec_dec_digits(n));
    }
}

proof fn lemma_dec_digits_len(n: nat)
    ensures
        spec_dec_digits(n).len() >= 1,
        n >= 10 ==> spec_dec_digits(n).len() >= 2,
        n >= 100 ==> spec_dec_digits(n).len() >= 3,
    decreases n,
{
    if n >= 10 {
        lemma_dec_digits_len(n / 10);
        lemma_fundamental_div_mod(n as int, 10);
    }
}

proof fn lemma_pad3_len(n: nat)
    ensures
        spec_pad3(n).len() >= 3,
{
    lemma_dec_digits_len(n);
}

/// Distinct attempts always yield distinct candidate filenames.
pub proof fn lemma_candidate_injective(slug: Seq<char>, a: nat, b: nat)
    requires
        spec_candidate(slug, a) == spec_candidate(slug, b),
    ensures
        a == b,
{
    lemma_pad3_len(a);
    lemma_pad3_len(b);
    assert(md_extension().len() == 3);
    if a == 0 && b == 0 {
    } else if a == 0 || b == 0 {
        // One name is three characters longer than the slug, the other
        // at least seven: they cannot be equal.
        assert(spec_candidate(slug, 0) == slug + md_extension());
        assert((slug + md_extension()).len() == slug.len() + 3);
        let p = if a == 0 { b } else { a };
        assert(spec_candidate(slug, p).len() == slug.len() + 1 + spec_pad3(p).len() + 3);
        assert(spec_candidate(slug, a).len() == spec_candidate(slug, b).len());
        assert(false);
    } else {
        let pa = spec_pad3(a);
        let pb = spec_pad3(b);
        assert(spec_candidate(slug, a).len() == slug.len() + 1 + pa.len() + 3);
        assert(spec_candidate(slug, b).len() == slug.len() + 1 + pb.len() + 3);
        assert(pa.len() == pb.len());
        assert forall|i: int| 0 <= i < pa.len() implies pa[i] == pb[i] by {
            let j = slug.len() + 1 + i;
            assert(spec_candidate(slug, a)[j] == pa[i]);
            assert(spec_candidate(slug, b)[j] == pb[i]);
        }
        assert(pa =~= pb);
        lemma_pad3_val(a);
        lemma_pad3_val(b);
    }
}

/// Collision probing always finds a destination when it may try more
/// candidates than there are existing names: distinct attempts give
/// distinct names, so the existing names cannot exhaust them.
pub proof fn lemma_placement_total(slug: Seq<char>, existing: Seq<Seq<char>>, cap: nat)
    requires
        existing.len() <= cap,
    ensures
        spec_placement(slug, existing, cap) is Some,
{
    broadcast use vstd::seq_lib::seq_to_set_is_finite;

    if spec_placement(slug, existing, cap) is None {
        lemma_placement_is_least(slug, existing, cap);
        let attempts = set_int_range(0, cap as int + 1);
        lemma_int_range(0, cap as int + 1);
        let f = |x: int| spec_candidate(slug, x as nat);
        let image = attempts.map(f);
        assert(injective_on(f, attempts)) by {
            assert forall|x1: int, x2: int|
                attempts.contains(x1) && attempts.contains(x2) && #[trigger] f(x1) == #[trigger] f(
                    x2,
                ) implies x1 == x2 by {
                lemma_candidate_injective(slug, x1 as nat, x2 as nat);
            }
        }
        lemma_map_size(attempts, image, f);
        assert forall|name: Seq<char>| #[trigger] image.contains(name) implies existing.to_set()
            .contains(name) by {
            let x = choose|x: int| attempts.contains(x) && f(x) == name;
            assert(existing.contains(spec_candidate(slug, x as nat)));
        }
        assert(image.subset_of(existing.to_set()));
        existing.lemma_cardinality_of_set();
        lemma_len_subset(image, existing.to_set());
        assert(false);
    }
}

fn contains_name(existing: &Vec<String>, name: &String) -> (r: bool)
    ensures
        r == name_views(existing@).contains(name@),
{
    let ghost views = name_views(existing@);
    let mut idx: usize = 0;
    while idx < existing.len()
        invariant
            0 <= idx <= existing.len(),
            views == name_views(existing@),
            views.len() == existing@.len(),
            forall|k: int| 0 <= k < idx ==> views[k] != name@,
        decreases existing.len() - idx,
    {
        proof {
            assert(views[idx as int] == existing@[idx as int]@);
        }
        if existing[idx].eq(name) {
            assert(views.contains(name@));
            return true;
        }
        idx += 1;
    }
    false
}

/// Probe candidate filenames in attempt order and return the first one
/// that does not collide with the existing names, searching attempts
/// `0..=max_attempts`; `None` when every one of them collides, which
/// cannot happen while the attempts outnumber the existing names. The
/// chosen name is never one of the existing names.
pub fn first_free_candidate(slug: &str, existing: &Vec<String>, max_attempts: u64) -> (r: Option<
    String,
>)
    ensures
        match r {
            Some(name) => {
                &&& spec_placement(slug@, name_views(existing@), max_attempts as nat)
                    matches Some(a) && name@ == spec_candidate(slug@, a)
                &&& !name_views(existing@).contains(name@)
            },
            None => spec_placement(slug@, name_views(existing@), max_attempts as nat) is None,
        },
        existing@.len() <= max_attempts ==> r is Some,
{
    let ghost views = name_views(existing@);
    let mut attempt: u64 = 0;
    loop
        invariant
            0 <= attempt <= max_attempts,
            views == name_views(existing@),
            spec_placement(slug@, views, max_attempts as nat) == first_free_from(
                slug@,
                views,
                attempt as nat,
                max_attempts as nat,
            ),
        decreases max_attempts - attempt,
    {
        let name = candidate_filename(slug, attempt);
        if !contains_name(existing, &name) {
            return Some(name);
        }
        if attempt == max_attempts {
            proof {
                if existing@.len() <= max_attempts as nat {
                    lemma_placement_total(slug@, views, max_attempts as nat);
                }
            }
            return None;
        }
        attempt += 1;
    }
}

} // verus!
