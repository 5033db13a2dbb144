//! Package versions of the form `<base>` or `<base>_<revision>` and their order.

use vstd::prelude::*;
use vstd::std_specs::cmp::PartialEqSpecImpl;
use vstd::std_specs::cmp::PartialOrdSpecImpl;
use core::cmp::Ordering;
use crate::text::{
    chars_of, digit, digit_run, is_digit, decimal_value, last_char_pos, last_position_of,
    lex_compare, lex_order, parse_number, parse_unsigned, slice_of, split, split_on,
    string_of, buffers, views, Order,
};

verus! {

/// A version string split into its base and its packaging revision.
#[derive(Debug, Clone)]
pub struct BrewVersion {
    pub base: String,
    pub revision: u32,
}

/// Where a trailing `_<revision>` was recognised: the offset of the underscore
/// and the revision it carries.
pub open spec fn revision_suffix(v: Seq<char>) -> Option<(int, u32)> {
    match last_char_pos(v, '_', v.len() as int) {
        Some(i) => match parse_unsigned(v.skip(i + 1), u32::MAX as nat) {
            Some(r) => Some((i, r as u32)),
            None => None,
        },
        None => None,
    }
}

/// Base of a version string: what precedes a recognised revision suffix.
pub open spec fn base_of(v: Seq<char>) -> Seq<char> {
    match revision_suffix(v) {
        Some((i, _)) => v.take(i),
        None => v,
    }
}

/// Revision of a version string; 0 without a recognised suffix.
pub open spec fn revision_of(v: Seq<char>) -> u32 {
    match revision_suffix(v) {
        Some((_, r)) => r,
        None => 0,
    }
}

/// Number that one dot-separated part contributes: the value of its leading
/// digits, if it has any and the value fits 64 bits.
pub open spec fn part_value(part: Seq<char>) -> Option<u64> {
    let d = part.take(digit_run(part));
    if d.len() > 0 && decimal_value(d) <= u64::MAX {
        Some(decimal_value(d) as u64)
    } else {
        None
    }
}

/// The numbers of the parts that contribute one, in order.
pub open spec fn values_of(parts: Seq<Seq<char>>) -> Seq<u64>
    decreases parts.len(),
{
    if parts.len() == 0 {
        Seq::empty()
    } else {
        let rest = values_of(parts.drop_last());
        match part_value(parts.last()) {
            Some(v) => rest.push(v),
            None => rest,
        }
    }
}

/// Numeric components of a base string.
pub open spec fn semver_parts(base: Seq<char>) -> Seq<u64> {
    values_of(split_on(base, '.'))
}

/// Component `i` of `parts`, with 0 past the end.
pub open spec fn component(parts: Seq<u64>, i: int) -> u64 {
    if 0 <= i < parts.len() {
        parts[i]
    } else {
        0
    }
}

/// Order of two component lists from position `i` on, the shorter padded with zeros.
pub open spec fn parts_order(a: Seq<u64>, b: Seq<u64>, i: int) -> Order
    decreases a.len() + b.len() - i,
{
    if i < 0 || (i >= a.len() && i >= b.len()) {
        Order::Equal
    } else if component(a, i) < component(b, i) {
        Order::Less
    } else if component(a, i) > component(b, i) {
        Order::Greater
    } else {
        parts_order(a, b, i + 1)
    }
}

/// Order of two revisions.
pub open spec fn revision_order(a: u32, b: u32) -> Order {
    if a < b {
        Order::Less
    } else if a > b {
        Order::Greater
    } else {
        Order::Equal
    }
}

/// Order of two versions: first by numeric components, then by the base
/// strings as text, then by revision.
pub open spec fn version_order(a_base: Seq<char>, a_rev: u32, b_base: Seq<char>, b_rev: u32)
    -> Order {
    let numeric = parts_order(semver_parts(a_base), semver_parts(b_base), 0);
    if numeric != Order::Equal {
        numeric
    } else if a_base != b_base {
        lex_order(a_base, b_base)
    } else {
        revision_order(a_rev, b_rev)
    }
}

/// Order of two version strings.
#[verifier::opaque]
pub open spec fn string_order(a: Seq<char>, b: Seq<char>) -> Order {
    version_order(base_of(a), revision_of(a), base_of(b), revision_of(b))
}

/// The digit run of `s` is the longest prefix made of digits.
proof fn lemma_digit_run_is(s: Seq<char>, k: int)
    requires
        0 <= k <= s.len(),
        forall|j: int| 0 <= j < k ==> is_digit(#[trigger] s[j]),
        k < s.len() ==> !is_digit(s[k]),
    ensures
        digit_run(s) == k,
    decreases k,
{
    if k > 0 {
        assert(is_digit(s[0]));
        assert forall|j: int| 0 <= j < k - 1 implies is_digit(#[trigger] s.skip(1)[j]) by {
            assert(s.skip(1)[j] == s[j + 1]);
        }
        lemma_digit_run_is(s.skip(1), k - 1);
    }
}

impl BrewVersion {
    /// The order of this version relative to `other`.
    pub open spec fn order(&self, other: &BrewVersion) -> Order {
        version_order(self.base@, self.revision, other.base@, other.revision)
    }

    /// Splits `version` at its last underscore when a revision number follows it.
    pub fn parse(version: &str) -> (r: BrewVersion)
        ensures
            r.base@ == base_of(version@),
            r.revision == revision_of(version@),
    {
        let v = chars_of(version);
        match last_position_of(&v, '_') {
            Some(idx) => {
                let tail = slice_of(&v, idx + 1, v.len());
                assert(tail@ == v@.skip(idx + 1));
                match parse_number(&tail, 4294967295u64) {
                    Some(revision) => {
                        let head = slice_of(&v, 0, idx);
                        assert(head@ == v@.take(idx as int));
                        BrewVersion { base: string_of(&head), revision: revision as u32 }
                    },
                    None => BrewVersion { base: string_of(&v), revision: 0 },
                }
            },
            None => BrewVersion { base: string_of(&v), revision: 0 },
        }
    }

    /// The numeric components of `s`: of each dot-separated part the leading
    /// digits, parts without a number left out.
    pub fn parse_semver_parts(s: &str) -> (r: Vec<u64>)
        ensures
            r@ == semver_parts(s@),
    {
        let chars = chars_of(s);
        let parts = split(&chars, '.');
        let mut out: Vec<u64> = Vec::new();
        let mut i: usize = 0;
        while i < parts.len()
            invariant
                i <= parts.len(),
                out@ == values_of(buffers(parts@).take(i as int)),
            decreases parts.len() - i,
        {
            let part = &parts[i];
            let mut k: usize = 0;
            while k < part.len() && digit(part[k])
                invariant
                    k <= part.len(),
                    forall|j: int| 0 <= j < k ==> is_digit(#[trigger] part@[j]),
                decreases part.len() - k,
            {
                k += 1;
            }
            let digits = slice_of(part, 0, k);
            proof {
                lemma_digit_run_is(part@, k as int);
                assert(digits@ == part@.take(k as int));
                assert(buffers(parts@).take(i + 1).drop_last() == buffers(parts@).take(i as int));
                assert(buffers(parts@).take(i + 1).last() == part@);
            }
            if k > 0 {
                assert(digits@[0] != '+');
                match parse_number(&digits, 18446744073709551615u64) {
                    Some(v) => {
                        out.push(v);
                    },
                    None => {
                        assert(crate::text::all_digits(digits@));
                    },
                }
            }
            i += 1;
        }
        assert(buffers(parts@).take(parts.len() as int) == buffers(parts@));
        out
    }

    /// Three-way comparison with `other`.
    pub fn compare(&self, other: &BrewVersion) -> (r: Order)
        ensures
            r == self.order(other),
    {
        let a = Self::parse_semver_parts(self.base.as_str());
        let b = Self::parse_semver_parts(other.base.as_str());
        let mut i: usize = 0;
        while i < a.len() || i < b.len()
            invariant
                a@ == semver_parts(self.base@),
                b@ == semver_parts(other.base@),
                parts_order(a@, b@, 0) == parts_order(a@, b@, i as int),
            decreases a.len() + b.len() - i,
        {
            let x: u64 = if i < a.len() {
                a[i]
            } else {
                0
            };
            let y: u64 = if i < b.len() {
                b[i]
            } else {
                0
            };
            assert(x == component(a@, i as int) && y == component(b@, i as int));
            if x < y {
                return Order::Less;
            }
            if x > y {
                return Order::Greater;
            }
            i += 1;
        }
        let sa = chars_of(self.base.as_str());
        let sb = chars_of(other.base.as_str());
        let text = lex_compare(&sa, &sb);
        match text {
            Order::Equal => {
                if self.revision < other.revision {
                    Order::Less
                } else if self.revision > other.revision {
                    Order::Greater
                } else {
                    Order::Equal
                }
            },
            _ => text,
        }
    }
}

impl PartialEq for BrewVersion {
    fn eq(&self, other: &Self) -> (r: bool) {
        self.base == other.base && self.revision == other.revision
    }
}

impl PartialEqSpecImpl for BrewVersion {
    open spec fn obeys_eq_spec() -> bool {
        true
    }

    open spec fn eq_spec(&self, other: &Self) -> bool {
        self.base@ == other.base@ && self.revision == other.revision
    }
}

impl Eq for BrewVersion {

}

impl PartialOrd for BrewVersion {
    fn partial_cmp(&self, other: &Self) -> (r: Option<Ordering>) {
        match self.compare(other) {
            Order::Less => Some(Ordering::Less),
            Order::Equal => Some(Ordering::Equal),
            Order::Greater => Some(Ordering::Greater),
        }
    }
}

impl PartialOrdSpecImpl for BrewVersion {
    open spec fn obeys_partial_cmp_spec() -> bool {
        true
    }

    open spec fn partial_cmp_spec(&self, other: &Self) -> Option<Ordering> {
        match self.order(other) {
            Order::Less => Some(Ordering::Less),
            Order::Equal => Some(Ordering::Equal),
            Order::Greater => Some(Ordering::Greater),
        }
    }
}

/// Three-way comparison of two version strings.
pub fn compare_versions(a: &str, b: &str) -> (r: Order)
    ensures
        r == string_order(a@, b@),
{
    let va = BrewVersion::parse(a);
    let vb = BrewVersion::parse(b);
    reveal(string_order);
    va.compare(&vb)
}

/// Whether the installed version is at least the latest one.
pub fn is_same_or_newer(installed: &str, latest: &str) -> (r: bool)
    ensures
        r == (string_order(installed@, latest@) != Order::Less),
{
    match compare_versions(installed, latest) {
        Order::Less => false,
        _ => true,
    }
}

/// Where `x` goes in a sorted list: behind every entry that is not greater than it.
pub open spec fn insert_position(sorted: Seq<Seq<char>>, x: Seq<char>) -> int
    decreases sorted.len(),
{
    if sorted.len() == 0 {
        0
    } else if string_order(sorted.last(), x) == Order::Greater {
        insert_position(sorted.drop_last(), x)
    } else {
        sorted.len() as int
    }
}

/// A sorted list with `x` put in at its place.
pub open spec fn insert_sorted(sorted: Seq<Seq<char>>, x: Seq<char>) -> Seq<Seq<char>> {
    sorted.insert(insert_position(sorted, x), x)
}

/// The version strings of `v` in ascending order, equal versions in their
/// order of arrival.
pub open spec fn sorted_versions(v: Seq<Seq<char>>) -> Seq<Seq<char>>
    decreases v.len(),
{
    if v.len() == 0 {
        Seq::empty()
    } else {
        insert_sorted(sorted_versions(v.drop_last()), v.last())
    }
}

/// Entry `i` of `v` is not greater than its successor.
pub open spec fn in_order_at(v: Seq<Seq<char>>, i: int) -> bool {
    string_order(v[i], v[i + 1]) != Order::Greater
}

/// No entry of `v` is greater than its successor.
pub open spec fn ascending(v: Seq<Seq<char>>) -> bool {
    forall|i: int| 0 <= i < v.len() - 1 ==> #[trigger] in_order_at(v, i)
}

/// Comparing the other way round mirrors the lexicographic result.
proof fn lemma_lex_mirror(a: Seq<char>, b: Seq<char>)
    ensures
        a != b ==> (crate::text::lex_lt(a, b) <==> !crate::text::lex_lt(b, a)),
    decreases a.len(),
{
    if a.len() > 0 && b.len() > 0 {
        if a[0] == b[0] {
            lemma_lex_mirror(a.skip(1), b.skip(1));
            if a.skip(1) == b.skip(1) {
                assert(a =~= seq![a[0]] + a.skip(1));
                assert(b =~= seq![b[0]] + b.skip(1));
            }
        }
    } else if a.len() == 0 && b.len() == 0 {
        assert(a =~= b);
    }
}

/// Comparing the other way round mirrors the numeric result.
proof fn lemma_parts_mirror(a: Seq<u64>, b: Seq<u64>, i: int)
    ensures
        parts_order(a, b, i) == Order::Greater <==> parts_order(b, a, i) == Order::Less,
        parts_order(a, b, i) == Order::Equal <==> parts_order(b, a, i) == Order::Equal,
    decreases a.len() + b.len() - i,
{
    if !(i < 0 || (i >= a.len() && i >= b.len())) && component(a, i) == component(b, i) {
        lemma_parts_mirror(a, b, i + 1);
    }
}

/// A version string is greater than another exactly when the other is less than it.
pub proof fn lemma_order_mirror(a: Seq<char>, b: Seq<char>)
    ensures
        string_order(a, b) == Order::Greater <==> string_order(b, a) == Order::Less,
        string_order(a, b) == Order::Equal <==> string_order(b, a) == Order::Equal,
{
    reveal(string_order);
    lemma_parts_mirror(semver_parts(base_of(a)), semver_parts(base_of(b)), 0);
    lemma_lex_mirror(base_of(a), base_of(b));
}

/// The insert position splits the list: greater entries behind it, none directly before.
proof fn lemma_insert_position(sorted: Seq<Seq<char>>, x: Seq<char>)
    ensures
        0 <= insert_position(sorted, x) <= sorted.len(),
        forall|j: int|
            insert_position(sorted, x) <= j < sorted.len() ==> string_order(
                #[trigger] sorted[j],
                x,
            ) == Order::Greater,
        insert_position(sorted, x) > 0 ==> string_order(
            sorted[insert_position(sorted, x) - 1],
            x,
        ) != Order::Greater,
    decreases sorted.len(),
{
    if sorted.len() > 0 && string_order(sorted.last(), x) == Order::Greater {
        let head = sorted.drop_last();
        lemma_insert_position(head, x);
        assert forall|j: int| insert_position(sorted, x) <= j < sorted.len() implies string_order(
            #[trigger] sorted[j],
            x,
        ) == Order::Greater by {
            if j < head.len() {
                assert(head[j] == sorted[j]);
            }
        }
    }
}

/// A position found by scanning from the end is the insert position.
proof fn lemma_insert_position_is(sorted: Seq<Seq<char>>, x: Seq<char>, p: int)
    requires
        0 <= p <= sorted.len(),
        forall|j: int|
            p <= j < sorted.len() ==> string_order(#[trigger] sorted[j], x) == Order::Greater,
        p > 0 ==> string_order(sorted[p - 1], x) != Order::Greater,
    ensures
        insert_position(sorted, x) == p,
    decreases sorted.len() - p,
{
    if p < sorted.len() {
        lemma_insert_position_is(sorted.drop_last(), x, p);
    }
}

/// Inserting keeps a list ascending and adds exactly the new entry.
proof fn lemma_insert_sorted(sorted: Seq<Seq<char>>, x: Seq<char>)
    requires
        ascending(sorted),
    ensures
        ascending(insert_sorted(sorted, x)),
        insert_sorted(sorted, x).to_multiset() == sorted.to_multiset().insert(x),
        insert_sorted(sorted, x).len() == sorted.len() + 1,
{
    let p = insert_position(sorted, x);
    let out = insert_sorted(sorted, x);
    lemma_insert_position(sorted, x);
    sorted.insert_ensures(p, x);
    vstd::seq_lib::to_multiset_insert(sorted, p, x);
    assert forall|i: int| 0 <= i < out.len() - 1 implies #[trigger] in_order_at(out, i) by {
        if i + 1 < p {
            assert(out[i] == sorted[i] && out[i + 1] == sorted[i + 1]);
            assert(in_order_at(sorted, i));
        } else if i + 1 == p {
            assert(out[i] == sorted[p - 1] && out[i + 1] == x);
        } else if i == p {
            assert(out[i] == x && out[i + 1] == sorted[p]);
            lemma_order_mirror(sorted[p], x);
        } else {
            assert(out[i] == sorted[i - 1] && out[i + 1] == sorted[i]);
            assert(in_order_at(sorted, i - 1));
        }
    }
}

/// Sorting yields an ascending rearrangement of the input.
pub proof fn lemma_sorted_versions(v: Seq<Seq<char>>)
    ensures
        ascending(sorted_versions(v)),
        sorted_versions(v).to_multiset() == v.to_multiset(),
        sorted_versions(v).len() == v.len(),
    decreases v.len(),
{
    if v.len() == 0 {
        assert(v =~= Seq::empty());
    } else {
        lemma_sorted_versions(v.drop_last());
        lemma_insert_sorted(sorted_versions(v.drop_last()), v.last());
        vstd::seq_lib::to_multiset_build(v.drop_last(), v.last());
        assert(v =~= v.drop_last().push(v.last()));
    }
}

/// Sorts version strings in ascending order; equal versions keep their order.
pub fn sort_versions(versions: &mut Vec<String>)
    ensures
        views(final(versions)@) == sorted_versions(views(old(versions)@)),
        ascending(views(final(versions)@)),
        views(final(versions)@).to_multiset() == views(old(versions)@).to_multiset(),
{
    let mut sorted: Vec<String> = Vec::new();
    let mut i: usize = 0;
    assert(views(versions@).take(0) =~= Seq::empty());
    while i < versions.len()
        invariant
            i <= versions.len(),
            versions@ == old(versions)@,
            views(sorted@) == sorted_versions(views(versions@).take(i as int)),
        decreases versions.len() - i,
    {
        let x = versions[i].clone();
        let mut p: usize = sorted.len();
        while p > 0 && compare_versions(sorted[p - 1].as_str(), x.as_str()) == Order::Greater
            invariant
                p <= sorted.len(),
                forall|j: int|
                    p <= j < sorted.len() ==> string_order(#[trigger] views(sorted@)[j], x@)
                        == Order::Greater,
            decreases p,
        {
            p -= 1;
        }
        proof {
            let done = views(versions@).take(i as int);
            let next = views(versions@).take(i + 1);
            assert(next.drop_last() =~= done);
            assert(next.last() == x@);
            if p > 0 {
                assert(views(sorted@)[p - 1] == sorted@[p - 1]@);
            }
            lemma_insert_position_is(views(sorted@), x@, p as int);
        }
        let ghost before = views(sorted@);
        sorted.insert(p, x);
        assert(views(sorted@) =~= before.insert(p as int, x@));
        i += 1;
    }
    proof {
        assert(views(versions@).take(versions.len() as int) =~= views(versions@));
        lemma_sorted_versions(views(versions@));
    }
    *versions = sorted;
}

} // verus!
