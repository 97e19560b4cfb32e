//! Majority vote over labels, with ties broken toward the smallest label.
use vstd::prelude::*;

verus! {

/// How many times `l` occurs in `s`.
pub open spec fn count_of(s: Seq<u64>, l: u64) -> nat
    decreases s.len(),
{
    if s.len() == 0 {
        0
    } else {
        count_of(s.drop_last(), l) + if s.last() == l { 1nat } else { 0nat }
    }
}

/// `l` is the winner of a vote over `s`: it occurs in `s`, no label occurs
/// more often, and every label that occurs as often is not smaller.
pub open spec fn is_majority(s: Seq<u64>, l: u64) -> bool {
    &&& s.contains(l)
    &&& forall|m: u64| #[trigger] count_of(s, m) <= count_of(s, l)
    &&& forall|m: u64| #[trigger] count_of(s, m) == count_of(s, l) ==> l <= m
}

/// The winner of a vote over a nonempty `s`.
pub open spec fn majority(s: Seq<u64>) -> u64 {
    choose|l: u64| is_majority(s, l)
}

/// A vote has at most one winner: the tie-break leaves no choice open.
pub proof fn lemma_majority_unique(s: Seq<u64>, a: u64, b: u64)
    requires
        is_majority(s, a),
        is_majority(s, b),
    ensures
        a == b,
{
    assert(count_of(s, a) <= count_of(s, b));
    assert(count_of(s, b) <= count_of(s, a));
}

/// The label that wins a vote over the first `i` entries of `s` when each
/// entry challenges the current winner in turn (counts taken over all of `s`).
spec fn leader(s: Seq<u64>, i: int) -> u64
    decreases i,
{
    if i <= 1 {
        s[0]
    } else {
        let b = leader(s, i - 1);
        let l = s[i - 1];
        if count_of(s, l) > count_of(s, b) || (count_of(s, l) == count_of(s, b) && l < b) {
            l
        } else {
            b
        }
    }
}

proof fn lemma_leader(s: Seq<u64>, i: int)
    requires
        1 <= i <= s.len(),
    ensures
        s.contains(leader(s, i)),
        forall|j: int|
            0 <= j < i ==> {
                ||| count_of(s, #[trigger] s[j]) < count_of(s, leader(s, i))
                ||| (count_of(s, s[j]) == count_of(s, leader(s, i)) && leader(s, i) <= s[j])
            },
    decreases i,
{
    if i == 1 {
        assert(s[0] == s[0]);
    } else {
        lemma_leader(s, i - 1);
        assert(s[i - 1] == s[i - 1]);
    }
}

/// The label left standing after every entry has challenged wins the vote.
proof fn lemma_leader_wins(s: Seq<u64>)
    requires
        s.len() > 0,
    ensures
        is_majority(s, leader(s, s.len() as int)),
{
    let b = leader(s, s.len() as int);
    lemma_leader(s, s.len() as int);
    lemma_count_present(s, b);
    assert forall|m: u64| #[trigger] count_of(s, m) <= count_of(s, b) && (count_of(s, m)
        == count_of(s, b) ==> b <= m) by {
        if s.contains(m) {
            let j = choose|j: int| 0 <= j < s.len() && s[j] == m;
            assert(count_of(s, s[j]) == count_of(s, m));
        } else {
            lemma_count_absent(s, m);
        }
    }
}

/// Every nonempty vote has a winner, so `majority` names it.
pub proof fn lemma_majority_exists(s: Seq<u64>)
    requires
        s.len() > 0,
    ensures
        is_majority(s, majority(s)),
{
    lemma_leader_wins(s);
}

/// A label that does not occur in `s` is counted zero times.
pub proof fn lemma_count_absent(s: Seq<u64>, l: u64)
    requires
        !s.contains(l),
    ensures
        count_of(s, l) == 0,
    decreases s.len(),
{
    if s.len() > 0 {
        assert(!s.drop_last().contains(l)) by {
            if s.drop_last().contains(l) {
                let j = choose|j: int| 0 <= j < s.drop_last().len() && s.drop_last()[j] == l;
                assert(s[j] == l);
            }
        }
        lemma_count_absent(s.drop_last(), l);
        assert(s.last() != l) by {
            assert(s[s.len() - 1] == s.last());
        }
    }
}

/// A label that occurs in `s` is counted at least once.
pub proof fn lemma_count_present(s: Seq<u64>, l: u64)
    requires
        s.contains(l),
    ensures
        count_of(s, l) >= 1,
    decreases s.len(),
{
    if s.last() != l {
        let j = choose|j: int| 0 <= j < s.len() && s[j] == l;
        assert(s.drop_last()[j] == l);
        lemma_count_present(s.drop_last(), l);
    }
}

/// Counts the occurrences of `l` in `labels`.
fn count_label(labels: &Vec<u64>, l: u64) -> (r: usize)
    ensures
        r == count_of(labels@, l),
{
    let mut c: usize = 0;
    let mut j: usize = 0;
    while j < labels.len()
        invariant
            j <= labels.len(),
            c == count_of(labels@.subrange(0, j as int), l),
            c <= j,
        decreases labels.len() - j,
    {
        assert(labels@.subrange(0, j as int + 1).drop_last() == labels@.subrange(0, j as int));
        if labels[j] == l {
            c = c + 1;
        }
        j = j + 1;
    }
    assert(labels@.subrange(0, labels.len() as int) == labels@);
    c
}

/// The label that occurs most often in `labels`; among labels that occur
/// equally often, the smallest. `None` when `labels` is empty.
pub fn majority_label(labels: &Vec<u64>) -> (r: Option<u64>)
    ensures
        r is None <==> labels@.len() == 0,
        r matches Some(l) ==> is_majority(labels@, l) && l == majority(labels@),
{
    if labels.len() == 0 {
        return None;
    }
    let ghost s = labels@;
    let mut best: u64 = labels[0];
    let mut best_count: usize = count_label(labels, best);
    let mut i: usize = 1;
    while i < labels.len()
        invariant
            1 <= i <= labels.len(),
            s == labels@,
            best == leader(s, i as int),
            best_count == count_of(s, best),
        decreases labels.len() - i,
    {
        let l = labels[i];
        let c = count_label(labels, l);
        if c > best_count || (c == best_count && l < best) {
            best = l;
            best_count = c;
        }
        i = i + 1;
    }
    proof {
        lemma_leader_wins(s);
        lemma_majority_unique(s, best, majority(s));
    }
    Some(best)
}

} // verus!
