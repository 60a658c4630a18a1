use crate::types::TrackedMessage;
use vstd::prelude::*;

verus! {

/// The number of messages that the users in `users` hold in `m`.
pub open spec fn count_over(m: Map<u64, Seq<TrackedMessage>>, users: Set<u64>) -> nat
    decreases users.len(),
{
    if users.finite() && users.len() > 0 {
        let u = users.choose();
        m[u].len() + count_over(m, users.remove(u))
    } else {
        0
    }
}

/// The number of messages held by all users of `m`.
pub open spec fn total_messages(m: Map<u64, Seq<TrackedMessage>>) -> nat {
    count_over(m, m.dom())
}

/// Counting over a finite set may take out any one of its users first.
pub proof fn lemma_count_over_pick(m: Map<u64, Seq<TrackedMessage>>, users: Set<u64>, a: u64)
    requires
        users.finite(),
        users.contains(a),
    ensures
        count_over(m, users) == m[a].len() + count_over(m, users.remove(a)),
    decreases users.len(),
{
    let c = users.choose();
    if c != a {
        lemma_count_over_pick(m, users.remove(c), a);
        lemma_count_over_pick(m, users.remove(a), c);
        assert(users.remove(c).remove(a) =~= users.remove(a).remove(c));
    }
}

/// Two maps that give every user of `users` lists of the same lengths count the same.
pub proof fn lemma_count_over_congruent(
    m1: Map<u64, Seq<TrackedMessage>>,
    m2: Map<u64, Seq<TrackedMessage>>,
    users: Set<u64>,
)
    requires
        forall|u: u64| #[trigger] users.contains(u) ==> m1[u].len() == m2[u].len(),
    ensures
        count_over(m1, users) == count_over(m2, users),
    decreases users.len(),
{
    if users.finite() && users.len() > 0 {
        let u = users.choose();
        lemma_count_over_congruent(m1, m2, users.remove(u));
    }
}

/// Counting over fewer users gives no more.
pub proof fn lemma_count_over_subset(m: Map<u64, Seq<TrackedMessage>>, a: Set<u64>, b: Set<u64>)
    requires
        b.finite(),
        a.subset_of(b),
    ensures
        count_over(m, a) <= count_over(m, b),
    decreases b.len(),
{
    if !(a =~= b) {
        let x = choose|x: u64| b.contains(x) && !a.contains(x);
        lemma_count_over_pick(m, b, x);
        lemma_count_over_subset(m, a, b.remove(x));
    }
}

/// Replacing (or adding) one user's list changes the total by the difference of lengths.
pub proof fn lemma_total_after_insert(m: Map<u64, Seq<TrackedMessage>>, u: u64, s: Seq<TrackedMessage>)
    requires
        m.dom().finite(),
    ensures
        total_messages(m.insert(u, s)) + (if m.contains_key(u) { m[u].len() } else { 0 })
            == total_messages(m) + s.len(),
{
    let m2 = m.insert(u, s);
    let d = m.dom();
    let d2 = m2.dom();
    lemma_count_over_pick(m2, d2, u);
    assert(d2.remove(u) =~= d.remove(u));
    lemma_count_over_congruent(m2, m, d.remove(u));
    if m.contains_key(u) {
        lemma_count_over_pick(m, d, u);
    } else {
        assert(d.remove(u) =~= d);
    }
}

/// Removing a user takes that user's messages out of the total.
pub proof fn lemma_total_after_remove(m: Map<u64, Seq<TrackedMessage>>, u: u64)
    requires
        m.dom().finite(),
        m.contains_key(u),
    ensures
        total_messages(m.remove(u)) + m[u].len() == total_messages(m),
{
    let m2 = m.remove(u);
    lemma_count_over_pick(m, m.dom(), u);
    assert(m2.dom() =~= m.dom().remove(u));
    lemma_count_over_congruent(m2, m, m2.dom());
}

/// A map whose lists are no longer than another's, over fewer users, counts no more.
pub proof fn lemma_count_over_le(
    m1: Map<u64, Seq<TrackedMessage>>,
    m2: Map<u64, Seq<TrackedMessage>>,
    a: Set<u64>,
    b: Set<u64>,
)
    requires
        b.finite(),
        a.subset_of(b),
        forall|u: u64| #[trigger] a.contains(u) ==> m1[u].len() <= m2[u].len(),
    ensures
        count_over(m1, a) <= count_over(m2, b),
{
    lemma_count_over_subset(m2, a, b);
    lemma_count_over_pointwise(m1, m2, a);
}

proof fn lemma_count_over_pointwise(
    m1: Map<u64, Seq<TrackedMessage>>,
    m2: Map<u64, Seq<TrackedMessage>>,
    a: Set<u64>,
)
    requires
        forall|u: u64| #[trigger] a.contains(u) ==> m1[u].len() <= m2[u].len(),
    ensures
        count_over(m1, a) <= count_over(m2, a),
    decreases a.len(),
{
    if a.finite() && a.len() > 0 {
        let u = a.choose();
        lemma_count_over_pointwise(m1, m2, a.remove(u));
    }
}

} // verus!
