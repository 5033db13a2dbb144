//! Searching the catalogs: how well a name or a description matches a
//! query, and which matches are shown.

use vstd::prelude::*;
use crate::rank::{rank, ranked_order, Ranked};
use crate::text::{
    alphanumeric, begins, chars_of, contains, is_alphanumeric, lowercase, occurs, same,
    starts_with, to_lower, views,
};

verus! {

/// The words read so far and the word being read, after the characters of `s`.
pub open spec fn words_state(s: Seq<char>) -> (Seq<Seq<char>>, Seq<char>)
    decreases s.len(),
{
    if s.len() == 0 {
        (Seq::empty(), Seq::empty())
    } else {
        let (done, current) = words_state(s.drop_last());
        if is_alphanumeric(s.last()) {
            (done, current.push(s.last()))
        } else {
            (done.push(current), Seq::empty())
        }
    }
}

/// The words of a text: what stands between characters that are neither
/// letters nor digits.
pub open spec fn words_of(s: Seq<char>) -> Seq<Seq<char>> {
    words_state(s).0.push(words_state(s).1)
}

/// `s` with every `-` turned into a space.
pub open spec fn spaced(s: Seq<char>) -> Seq<char> {
    Seq::new(
        s.len(),
        |i: int|
            if s[i] == '-' {
                ' '
            } else {
                s[i]
            },
    )
}

/// How well a name and a description match a query, all in lower case:
/// the name itself scores highest, then a name that starts with the query,
/// then one that holds it; after that a word of the description, then the
/// description holding the query, at last with its hyphens read as spaces.
pub open spec fn match_score(name: Seq<char>, desc: Option<Seq<char>>, query: Seq<char>) -> Option<
    i32,
> {
    if name == query {
        Some(1000)
    } else if starts_with(name, query) {
        Some(900)
    } else if contains(name, query) {
        Some(850)
    } else {
        match desc {
            Some(d) => if words_of(d).contains(query) {
                Some(600)
            } else if contains(d, query) {
                Some(300)
            } else if contains(query, "-"@) && contains(d, spaced(query)) {
                Some(250)
            } else {
                None
            },
            None => None,
        }
    }
}

/// Whether `word` is one of the words of `text`.
fn has_word(text: &[char], word: &[char]) -> (r: bool)
    ensures
        r == words_of(text@).contains(word@),
{
    let mut found = false;
    let mut current: Vec<char> = Vec::new();
    let ghost mut done: Seq<Seq<char>> = Seq::empty();
    let mut i: usize = 0;
    assert(text@.take(0) =~= Seq::empty());
    while i < text.len()
        invariant
            i <= text.len(),
            words_state(text@.take(i as int)) == (done, current@),
            found == done.contains(word@),
        decreases text.len() - i,
    {
        let c = text[i];
        proof {
            assert(text@.take(i + 1).drop_last() =~= text@.take(i as int));
            assert(text@.take(i + 1).last() == c);
        }
        if alphanumeric(c) {
            current.push(c);
        } else {
            let hit = same(&current, word);
            proof {
                crate::text::lemma_contains_push(done, current@, word@);
                done = done.push(current@);
            }
            found = found || hit;
            current = Vec::new();
        }
        i += 1;
    }
    proof {
        assert(text@.take(text.len() as int) =~= text@);
        crate::text::lemma_contains_push(done, current@, word@);
    }
    found || same(&current, word)
}

/// Scores a name and a description against a query, all given in lower case.
pub fn score_lowered(name: &str, desc: Option<&str>, query: &str) -> (r: Option<i32>)
    ensures
        r == match_score(name@, crate::dirs::opt_str(desc), query@),
{
    let n = chars_of(name);
    let q = chars_of(query);
    if same(&n, &q) {
        return Some(1000);
    }
    if begins(&n, &q) {
        return Some(900);
    }
    if occurs(&n, &q) {
        return Some(850);
    }
    match desc {
        Some(text) => {
            let d = chars_of(text);
            if has_word(&d, &q) {
                return Some(600);
            }
            if occurs(&d, &q) {
                return Some(300);
            }
            if occurs(&q, &chars_of("-")) {
                let mut with_spaces: Vec<char> = Vec::new();
                let mut i: usize = 0;
                while i < q.len()
                    invariant
                        i <= q.len(),
                        q@ == query@,
                        with_spaces@ == spaced(query@).take(i as int),
                    decreases q.len() - i,
                {
                    let c = q[i];
                    with_spaces.push(
                        if c == '-' {
                            ' '
                        } else {
                            c
                        },
                    );
                    assert(with_spaces@ =~= spaced(query@).take(i + 1));
                    i += 1;
                }
                assert(spaced(query@).take(q.len() as int) =~= spaced(query@));
                if occurs(&d, &with_spaces) {
                    return Some(250);
                }
            }
            None
        },
        None => None,
    }
}

/// The lower-case form of an optional text.
pub open spec fn lowered(desc: Option<Seq<char>>) -> Option<Seq<char>> {
    match desc {
        Some(d) => Some(lowercase(d)),
        None => None,
    }
}

/// Scores a name and a description against a query, without regard to case.
pub fn calculate_match_score(name: &str, desc: Option<&str>, query: &str) -> (r: Option<i32>)
    ensures
        r == match_score(
            lowercase(name@),
            lowered(crate::dirs::opt_str(desc)),
            lowercase(query@),
        ),
{
    let q = to_lower(query);
    let n = to_lower(name);
    match desc {
        Some(d) => {
            let low = to_lower(d);
            score_lowered(n.as_str(), Some(low.as_str()), q.as_str())
        },
        None => score_lowered(n.as_str(), None, q.as_str()),
    }
}

/// Whether a formula belongs to the core catalog, by its full name: core
/// formulae have no `/` in it, or stand under `homebrew/`.
pub fn is_core_formula(full_name: &str) -> (r: bool)
    ensures
        r == (!contains(full_name@, "/"@) || starts_with(full_name@, "homebrew/"@)),
{
    let f = chars_of(full_name);
    !occurs(&f, &chars_of("/")) || begins(&f, &chars_of("homebrew/"))
}

/// The better of two scores; a score is better than none.
pub fn better_score(a: Option<i32>, b: Option<i32>) -> (r: Option<i32>)
    ensures
        r == match (a, b) {
            (Some(x), Some(y)) => if x >= y {
                Some(x)
            } else {
                Some(y)
            },
            (Some(x), None) => Some(x),
            (None, y) => y,
        },
{
    match (a, b) {
        (Some(x), Some(y)) => if x >= y {
            Some(x)
        } else {
            Some(y)
        },
        (Some(x), None) => Some(x),
        (None, y) => y,
    }
}

/// The first score that is one.
pub fn first_score(a: Option<i32>, b: Option<i32>) -> (r: Option<i32>)
    ensures
        r == if a is Some {
            a
        } else {
            b
        },
{
    if a.is_some() {
        a
    } else {
        b
    }
}

/// The entries that have a score, in the order of the list; none where
/// the scores do not go with the names one to one.
pub open spec fn scored(names: Seq<String>, scores: Seq<Option<i32>>) -> Seq<Ranked>
    decreases names.len(),
{
    if names.len() == 0 || scores.len() != names.len() {
        Seq::empty()
    } else {
        let rest = scored(names.drop_last(), scores.take(names.len() - 1));
        match scores[names.len() - 1] {
            Some(s) => rest.push(
                Ranked { score: s, name: names.last(), index: (names.len() - 1) as usize },
            ),
            None => rest,
        }
    }
}

/// Scores that do not go with the names yield no entry.
proof fn lemma_scored_mismatch(names: Seq<String>, scores: Seq<Option<i32>>)
    requires
        scores.len() != names.len(),
    ensures
        ranked_order(scored(names, scores)).len() == 0,
{
    assert(scored(names, scores) =~= Seq::empty());
}

/// The matches to show: the entries that have a score, the best first and
/// equal ones by name, and no more than `limit` of them. Each is given by
/// its position in the list. Where the scores do not go with the names
/// one to one, nothing is shown.
pub fn top_matches(names: &Vec<String>, scores: &Vec<Option<i32>>, limit: usize) -> (out: Vec<usize>)
    ensures
        out@.len() == if ranked_order(scored(names@, scores@)).len() < limit {
            ranked_order(scored(names@, scores@)).len()
        } else {
            limit as nat
        },
        forall|i: int|
            0 <= i < out@.len() ==> #[trigger] out@[i] == ranked_order(
                scored(names@, scores@),
            )[i].index,
        forall|i: int| 0 <= i < out@.len() ==> #[trigger] out@[i] < names.len(),
{
    let mut entries: Vec<Ranked> = Vec::new();
    let mut i: usize = 0;
    if scores.len() != names.len() {
        proof {
            lemma_scored_mismatch(names@, scores@);
        }
        return Vec::new();
    }
    proof {
        assert(names@.take(0) =~= Seq::empty());
    }
    while i < names.len()
        invariant
            i <= names.len(),
            scores.len() == names.len(),
            entries@ == scored(names@.take(i as int), scores@.take(i as int)),
            forall|k: int| 0 <= k < entries@.len() ==> (#[trigger] entries@[k]).index < names.len(),
        decreases names.len() - i,
    {
        proof {
            let next = names@.take(i + 1);
            assert(next.drop_last() =~= names@.take(i as int));
            assert(next.last() == names@[i as int]);
            assert(scores@.take(i + 1).take(next.len() - 1) =~= scores@.take(i as int));
            assert(scores@.take(i + 1)[next.len() - 1] == scores@[i as int]);
        }
        match scores[i] {
            Some(s) => {
                entries.push(Ranked { score: s, name: names[i].clone(), index: i });
            },
            None => {},
        }
        i += 1;
    }
    proof {
        assert(names@.take(names.len() as int) =~= names@);
        assert(scores@.take(names.len() as int) =~= scores@);
    }
    let ranked = rank(&entries);
    proof {
        assert forall|k: int| 0 <= k < ranked@.len() implies (#[trigger] ranked@[k]).index
            < names.len() by {
            vstd::seq_lib::to_multiset_contains(ranked@, ranked@[k]);
            vstd::seq_lib::to_multiset_contains(entries@, ranked@[k]);
            assert(ranked@.contains(ranked@[k]));
            let j = choose|j: int| 0 <= j < entries@.len() && entries@[j] == ranked@[k];
        }
    }
    let mut out: Vec<usize> = Vec::new();
    let mut k: usize = 0;
    while k < ranked.len() && k < limit
        invariant
            k <= ranked.len(),
            k <= limit,
            out@.len() == k,
            forall|j: int| 0 <= j < k ==> #[trigger] out@[j] == ranked@[j].index,
            forall|j: int| 0 <= j < ranked@.len() ==> (#[trigger] ranked@[j]).index < names.len(),
        decreases ranked.len() - k,
    {
        out.push(ranked[k].index);
        k += 1;
    }
    out
}

} // verus!
