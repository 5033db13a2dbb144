//! Ranking: entries ordered by score, best first, and by name among equals.

use vstd::prelude::*;
use crate::text::{chars_of, lex_compare, lex_lt, lex_order, Order};

verus! {

/// What an entry is ranked by.
#[derive(Debug, Clone)]
pub struct Ranked {
    pub score: i32,
    pub name: String,
    /// Where the entry stands in the list that is ranked.
    pub index: usize,
}

/// `a` has to come behind `b`: its score is lower, or the scores are
/// equal and its name comes later.
pub open spec fn behind(a: Ranked, b: Ranked) -> bool {
    a.score < b.score || (a.score == b.score && lex_lt(b.name@, a.name@))
}

/// Where `x` goes in a ranked list: behind every entry that need not come behind it.
pub open spec fn rank_position(ranked: Seq<Ranked>, x: Ranked) -> int
    decreases ranked.len(),
{
    if ranked.len() == 0 {
        0
    } else if behind(ranked.last(), x) {
        rank_position(ranked.drop_last(), x)
    } else {
        ranked.len() as int
    }
}

/// The entries in ranked order; entries that rank alike keep their order.
pub open spec fn ranked_order(v: Seq<Ranked>) -> Seq<Ranked>
    decreases v.len(),
{
    if v.len() == 0 {
        Seq::empty()
    } else {
        let rest = ranked_order(v.drop_last());
        rest.insert(rank_position(rest, v.last()), v.last())
    }
}

/// Entry `i` need not come behind its successor.
pub open spec fn in_rank_at(v: Seq<Ranked>, i: int) -> bool {
    !behind(v[i], v[i + 1])
}

/// No entry has to come behind its successor.
pub open spec fn is_ranked(v: Seq<Ranked>) -> bool {
    forall|i: int| 0 <= i < v.len() - 1 ==> #[trigger] in_rank_at(v, i)
}

/// Of two names at most one comes strictly before the other.
proof fn lemma_lex_asymmetric(a: Seq<char>, b: Seq<char>)
    ensures
        !(lex_lt(a, b) && lex_lt(b, a)),
    decreases a.len(),
{
    if a.len() > 0 && b.len() > 0 && a[0] == b[0] {
        lemma_lex_asymmetric(a.skip(1), b.skip(1));
    }
}

/// The place found for an entry splits the list.
proof fn lemma_rank_position(ranked: Seq<Ranked>, x: Ranked)
    ensures
        0 <= rank_position(ranked, x) <= ranked.len(),
        forall|j: int|
            rank_position(ranked, x) <= j < ranked.len() ==> behind(#[trigger] ranked[j], x),
        rank_position(ranked, x) > 0 ==> !behind(ranked[rank_position(ranked, x) - 1], x),
    decreases ranked.len(),
{
    if ranked.len() > 0 && behind(ranked.last(), x) {
        let head = ranked.drop_last();
        lemma_rank_position(head, x);
        assert forall|j: int| rank_position(ranked, x) <= j < ranked.len() implies behind(
            #[trigger] ranked[j],
            x,
        ) by {
            if j < head.len() {
                assert(head[j] == ranked[j]);
            }
        }
    }
}

/// A place found by scanning from the end is the place of the entry.
proof fn lemma_rank_position_is(ranked: Seq<Ranked>, x: Ranked, p: int)
    requires
        0 <= p <= ranked.len(),
        forall|j: int| p <= j < ranked.len() ==> behind(#[trigger] ranked[j], x),
        p > 0 ==> !behind(ranked[p - 1], x),
    ensures
        rank_position(ranked, x) == p,
    decreases ranked.len() - p,
{
    if p < ranked.len() {
        lemma_rank_position_is(ranked.drop_last(), x, p);
    }
}

/// Ranking yields a rearrangement of the entries in which none has to
/// come behind its successor.
pub proof fn lemma_ranked_order(v: Seq<Ranked>)
    ensures
        is_ranked(ranked_order(v)),
        ranked_order(v).to_multiset() == v.to_multiset(),
        ranked_order(v).len() == v.len(),
    decreases v.len(),
{
    if v.len() == 0 {
        assert(v =~= Seq::empty());
    } else {
        let front = v.drop_last();
        let x = v.last();
        let rest = ranked_order(front);
        lemma_ranked_order(front);
        let p = rank_position(rest, x);
        let out = ranked_order(v);
        lemma_rank_position(rest, x);
        rest.insert_ensures(p, x);
        vstd::seq_lib::to_multiset_insert(rest, p, x);
        vstd::seq_lib::to_multiset_build(front, x);
        assert(v =~= front.push(x));
        assert forall|i: int| 0 <= i < out.len() - 1 implies #[trigger] in_rank_at(out, i) by {
            if i + 1 < p {
                assert(out[i] == rest[i] && out[i + 1] == rest[i + 1]);
                assert(in_rank_at(rest, i));
            } else if i + 1 == p {
                assert(out[i] == rest[p - 1] && out[i + 1] == x);
            } else if i == p {
                assert(out[i] == x && out[i + 1] == rest[p]);
                lemma_lex_asymmetric(x.name@, rest[p].name@);
            } else {
                assert(out[i] == rest[i - 1] && out[i + 1] == rest[i]);
                assert(in_rank_at(rest, i - 1));
            }
        }
    }
}

/// No name comes strictly before itself.
proof fn lemma_lex_irreflexive(a: Seq<char>)
    ensures
        !lex_lt(a, a),
    decreases a.len(),
{
    if a.len() > 0 {
        lemma_lex_irreflexive(a.skip(1));
    }
}

/// Whether `a` has to come behind `b`.
pub fn comes_behind(a: &Ranked, b: &Ranked) -> (r: bool)
    ensures
        r == behind(*a, *b),
{
    if a.score < b.score {
        true
    } else if a.score > b.score {
        false
    } else {
        let x = chars_of(b.name.as_str());
        let y = chars_of(a.name.as_str());
        proof {
            lemma_lex_irreflexive(x@);
        }
        match lex_compare(&x, &y) {
            Order::Less => true,
            _ => false,
        }
    }
}

/// Puts the entries in ranked order: the highest score first, and among
/// equal scores the names in ascending order.
pub fn rank(entries: &Vec<Ranked>) -> (out: Vec<Ranked>)
    ensures
        out@ == ranked_order(entries@),
        is_ranked(out@),
        out@.to_multiset() == entries@.to_multiset(),
        out@.len() == entries@.len(),
{
    let mut out: Vec<Ranked> = Vec::new();
    let ghost all = entries@;
    let mut i: usize = 0;
    assert(all.take(0) =~= Seq::empty());
    while i < entries.len()
        invariant
            i <= entries.len(),
            all == entries@,
            out@ == ranked_order(all.take(i as int)),
        decreases entries.len() - i,
    {
        let e = &entries[i];
        let x = Ranked { score: e.score, name: e.name.clone(), index: e.index };
        proof {
            assert(x == all[i as int]);
            assert(all.take(i + 1).drop_last() =~= all.take(i as int));
            assert(all.take(i + 1).last() == x);
        }
        let mut p: usize = out.len();
        while p > 0 && comes_behind(&out[p - 1], &x)
            invariant
                p <= out.len(),
                forall|j: int| p <= j < out.len() ==> behind(#[trigger] out@[j], x),
            decreases p,
        {
            p -= 1;
        }
        proof {
            lemma_rank_position_is(out@, x, p as int);
        }
        out.insert(p, x);
        i += 1;
    }
    proof {
        assert(all.take(all.len() as int) =~= all);
        lemma_ranked_order(all);
    }
    out
}

} // verus!
