//! Finding the name of an operating system among the names that a provider
//! knows.

use vstd::prelude::*;
use crate::utils::run_parser::{find_first, first_at};
use crate::utils::text::{chars_of, is_white_space, white_space};

verus! {

/// The text in lower case, as Unicode defines it.
pub uninterp spec fn lowercase_text(s: Seq<char>) -> Seq<char>;

/// The text in lower case.
///
/// Trusted: names what `str::to_lowercase` returns, which the text alone
/// determines.
#[verifier::external_body]
pub(crate) fn to_lowercase(s: &str) -> (r: String)
    ensures
        r@ == lowercase_text(s@),
{
    s.to_lowercase()
}

/// The first `upto` characters of a text without the white space among them.
pub open spec fn without_white_space(s: Seq<char>, upto: int) -> Seq<char>
    decreases upto,
{
    if upto <= 0 {
        Seq::empty()
    } else if is_white_space(s[upto - 1]) {
        without_white_space(s, upto - 1)
    } else {
        without_white_space(s, upto - 1).push(s[upto - 1])
    }
}

/// The characters of a text without the white space among them.
pub fn strip_white_space(s: &str) -> (r: Vec<char>)
    ensures
        r@ == without_white_space(s@, s@.len() as int),
{
    let chars = chars_of(s);
    let mut out: Vec<char> = Vec::new();
    let mut k: usize = 0;
    while k < chars.len()
        invariant
            k <= chars@.len(),
            chars@ == s@,
            out@ == without_white_space(s@, k as int),
        decreases chars@.len() - k,
    {
        if !white_space(chars[k]) {
            out.push(chars[k]);
        }
        k = k + 1;
    }
    out
}

/// How well `candidate` matches `orig`, both in lower case and without white
/// space: zero for an empty `orig`; else one more than the length of the
/// longest beginning of `orig`, the whole of `orig` left aside, that stands
/// somewhere in `candidate`. Of the first `upto` beginnings.
pub open spec fn score_upto(orig: Seq<char>, candidate: Seq<char>, upto: int) -> int
    decreases upto,
{
    if upto <= 0 {
        0
    } else if upto - 1 == 0 || first_at(candidate, orig.subrange(0, upto - 1), 0)
        < candidate.len() {
        upto
    } else {
        score_upto(orig, candidate, upto - 1)
    }
}

/// The text as it is compared: in lower case and without white space.
pub open spec fn cleaned(s: Seq<char>) -> Seq<char> {
    without_white_space(lowercase_text(s), lowercase_text(s).len() as int)
}

/// How well two cleaned texts match.
pub fn score_of(orig: &Vec<char>, candidate: &Vec<char>) -> (r: usize)
    ensures
        r == score_upto(orig@, candidate@, orig@.len() as int),
{
    let mut best_score: usize = 0;
    let max_range = orig.len();
    let mut range: usize = 0;
    let mut beginning: Vec<char> = Vec::new();
    proof {
        assert(beginning@ =~= orig@.subrange(0, 0));
    }
    while range < max_range
        invariant
            range <= max_range,
            max_range == orig@.len(),
            beginning@ == orig@.subrange(0, range as int),
            best_score == score_upto(orig@, candidate@, range as int),
        decreases max_range - range,
    {
        if range == 0 || find_first(candidate, &beginning) < candidate.len() {
            best_score = range + 1;
        }
        beginning.push(orig[range]);
        proof {
            assert(beginning@ =~= orig@.subrange(0, range + 1));
        }
        range = range + 1;
    }
    best_score
}

/// How well `candidate` matches `orig`.
pub fn matching_score(orig: &str, candidate: &str) -> (r: usize)
    ensures
        r == score_upto(cleaned(orig@), cleaned(candidate@), cleaned(orig@).len() as int),
{
    let o = strip_white_space(to_lowercase(orig).as_str());
    let c = strip_white_space(to_lowercase(candidate).as_str());
    score_of(&o, &c)
}

/// The greatest score among the first `upto` candidates.
pub open spec fn best_score_upto(os: Seq<char>, candidates: Seq<String>, upto: int) -> int
    decreases upto,
{
    if upto <= 0 {
        0
    } else {
        let s = score_upto(
            cleaned(os),
            cleaned(candidates[upto - 1]@),
            cleaned(os).len() as int,
        );
        let before = best_score_upto(os, candidates, upto - 1);
        if s > before {
            s
        } else {
            before
        }
    }
}

/// The place of the first of the first `upto` candidates with the given
/// score; `upto` where none has it.
pub open spec fn first_with_score(os: Seq<char>, candidates: Seq<String>, score: int, upto: int) -> int
    decreases upto,
{
    if upto <= 0 {
        0
    } else {
        let before = first_with_score(os, candidates, score, upto - 1);
        if before < upto - 1 {
            before
        } else if score_upto(cleaned(os), cleaned(candidates[upto - 1]@), cleaned(os).len() as int)
            == score {
            upto - 1
        } else {
            upto
        }
    }
}

/// How many of the first `upto` candidates have the given score.
pub open spec fn count_with_score(os: Seq<char>, candidates: Seq<String>, score: int, upto: int) -> nat
    decreases upto,
{
    if upto <= 0 {
        0
    } else {
        count_with_score(os, candidates, score, upto - 1) + if score_upto(
            cleaned(os),
            cleaned(candidates[upto - 1]@),
            cleaned(os).len() as int,
        ) == score {
            1nat
        } else {
            0nat
        }
    }
}

/// The candidate that matches a name best, and whether others match as well.
#[derive(Debug)]
pub struct BestOs {
    /// The first candidate with the greatest score.
    pub name: String,
    /// Whether more than one candidate has the greatest score.
    pub ambiguous: bool,
}

/// Finds the candidate that matches the name of an operating system best:
/// the first of those with the greatest score. `None` where no candidate has
/// a score above zero.
pub fn find_best_matching_os(os: &str, candidates: &Vec<String>) -> (r: Option<BestOs>)
    ensures
        r is Some <==> best_score_upto(os@, candidates@, candidates@.len() as int) > 0,
        r is Some ==> {
            let best = best_score_upto(os@, candidates@, candidates@.len() as int);
            let place = first_with_score(os@, candidates@, best, candidates@.len() as int);
            &&& 0 <= place < candidates@.len()
            &&& r->0.name@ == candidates@[place]@
            &&& r->0.ambiguous == (count_with_score(
                os@,
                candidates@,
                best,
                candidates@.len() as int,
            ) > 1)
        },
{
    let o = strip_white_space(to_lowercase(os).as_str());
    let mut best_score: usize = 0;
    let mut k: usize = 0;
    while k < candidates.len()
        invariant
            k <= candidates@.len(),
            o@ == cleaned(os@),
            best_score == best_score_upto(os@, candidates@, k as int),
        decreases candidates@.len() - k,
    {
        let c = strip_white_space(to_lowercase(candidates[k].as_str()).as_str());
        let new_score = score_of(&o, &c);
        if new_score > best_score {
            best_score = new_score;
        }
        k = k + 1;
    }
    if best_score == 0 {
        return None;
    }
    let mut first: usize = candidates.len();
    let mut count: usize = 0;
    let mut j: usize = 0;
    while j < candidates.len()
        invariant
            j <= candidates@.len(),
            o@ == cleaned(os@),
            best_score > 0,
            best_score == best_score_upto(os@, candidates@, candidates@.len() as int),
            first <= candidates@.len(),
            count <= j,
            count == count_with_score(os@, candidates@, best_score as int, j as int),
            first == candidates@.len() ==> first_with_score(
                os@,
                candidates@,
                best_score as int,
                j as int,
            ) == j && count == 0,
            first < candidates@.len() ==> first < j && first == first_with_score(
                os@,
                candidates@,
                best_score as int,
                j as int,
            ) && count > 0,
        decreases candidates@.len() - j,
    {
        let c = strip_white_space(to_lowercase(candidates[j].as_str()).as_str());
        if score_of(&o, &c) == best_score {
            if first == candidates.len() {
                first = j;
            }
            count = count + 1;
        }
        j = j + 1;
    }
    proof {
        lemma_best_is_reached(os@, candidates@, candidates@.len() as int);
        lemma_count_zero(os@, candidates@, best_score as int, candidates@.len() as int);
    }
    Some(BestOs { name: candidates[first].clone(), ambiguous: count > 1 })
}

/// A greatest score above zero is the score of some candidate.
pub proof fn lemma_best_is_reached(os: Seq<char>, candidates: Seq<String>, upto: int)
    requires
        0 <= upto,
        best_score_upto(os, candidates, upto) > 0,
    ensures
        count_with_score(os, candidates, best_score_upto(os, candidates, upto), upto) > 0,
    decreases upto,
{
    if upto > 0 {
        let s = score_upto(cleaned(os), cleaned(candidates[upto - 1]@), cleaned(os).len() as int);
        let before = best_score_upto(os, candidates, upto - 1);
        if s <= before {
            lemma_best_is_reached(os, candidates, upto - 1);
        }
    }
}

/// Where no candidate has a score, no candidate is the first with it.
pub proof fn lemma_count_zero(os: Seq<char>, candidates: Seq<String>, score: int, upto: int)
    requires
        0 <= upto,
    ensures
        count_with_score(os, candidates, score, upto) == 0 <==> first_with_score(
            os,
            candidates,
            score,
            upto,
        ) == upto,
        first_with_score(os, candidates, score, upto) <= upto,
    decreases upto,
{
    if upto > 0 {
        lemma_count_zero(os, candidates, score, upto - 1);
    }
}

} // verus!
