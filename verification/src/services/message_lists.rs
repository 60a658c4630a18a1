use crate::types::TrackedMessage;
use vstd::prelude::*;

verus! {

/// Whether some message in `msgs` has the id `id`.
pub open spec fn holds_id(msgs: Seq<TrackedMessage>, id: u64) -> bool {
    exists|i: int| 0 <= i < msgs.len() && msgs[i].message_id == id
}

/// No two messages in `msgs` share an id.
pub open spec fn ids_distinct(msgs: Seq<TrackedMessage>) -> bool {
    forall|i: int, j: int|
        0 <= i < msgs.len() && 0 <= j < msgs.len() && i != j ==> msgs[i].message_id
            != msgs[j].message_id
}

/// Filtering a list extended by one message filters the list, then keeps the
/// message if it passes.
pub proof fn lemma_filter_push(
    s: Seq<TrackedMessage>,
    x: TrackedMessage,
    keep: spec_fn(TrackedMessage) -> bool,
)
    ensures
        s.push(x).filter(keep) == (if keep(x) {
            s.filter(keep).push(x)
        } else {
            s.filter(keep)
        }),
{
    reveal(Seq::filter);
    assert(s.push(x).drop_last() =~= s);
}

/// What a filter keeps comes from the list, passes the filter, and keeps ids distinct.
pub proof fn lemma_filter_from_list(s: Seq<TrackedMessage>, keep: spec_fn(TrackedMessage) -> bool)
    ensures
        forall|j: int|
            0 <= j < s.filter(keep).len() ==> s.contains(#[trigger] s.filter(keep)[j]) && keep(
                s.filter(keep)[j],
            ),
        ids_distinct(s) ==> ids_distinct(s.filter(keep)),
        s.filter(keep).len() <= s.len(),
    decreases s.len(),
{
    if s.len() > 0 {
        let p = s.drop_last();
        let x = s.last();
        lemma_filter_from_list(p, keep);
        assert(p.push(x) =~= s);
        lemma_filter_push(p, x, keep);
        let fp = p.filter(keep);
        assert forall|j: int| 0 <= j < fp.len() implies s.contains(#[trigger] fp[j]) by {
            let k = choose|k: int| 0 <= k < p.len() && p[k] == fp[j];
            assert(s[k] == fp[j]);
        }
        if ids_distinct(s) {
            assert(ids_distinct(p)) by {
                assert forall|i: int, j: int|
                    0 <= i < p.len() && 0 <= j < p.len() && i != j implies p[i].message_id
                    != p[j].message_id by {
                    assert(p[i] == s[i] && p[j] == s[j]);
                }
            }
            if keep(x) {
                let f = s.filter(keep);
                assert forall|i: int, j: int|
                    0 <= i < f.len() && 0 <= j < f.len() && i != j implies f[i].message_id
                    != f[j].message_id by {
                    if i < fp.len() && j < fp.len() {
                        assert(f[i] == fp[i] && f[j] == fp[j]);
                    } else if i < fp.len() {
                        assert(f[i] == fp[i]);
                        let k = choose|k: int| 0 <= k < p.len() && p[k] == fp[i];
                        assert(s[k] == p[k]);
                        assert(s[s.len() - 1] == x);
                    } else if j < fp.len() {
                        assert(f[j] == fp[j]);
                        let k = choose|k: int| 0 <= k < p.len() && p[k] == fp[j];
                        assert(s[k] == p[k]);
                        assert(s[s.len() - 1] == x);
                    }
                }
            }
        }
    } else {
        reveal(Seq::filter);
    }
}

/// Keeps the messages whose id is not `id`.
pub open spec fn other_than(id: u64) -> spec_fn(TrackedMessage) -> bool {
    |m: TrackedMessage| m.message_id != id
}

/// Filtering by one rule and then another is filtering by a rule that asks
/// both, and a filter that every message passes keeps the list as it is.
pub proof fn lemma_filter_combine(
    s: Seq<TrackedMessage>,
    p: spec_fn(TrackedMessage) -> bool,
    q: spec_fn(TrackedMessage) -> bool,
    r: spec_fn(TrackedMessage) -> bool,
)
    requires
        forall|i: int| 0 <= i < s.len() ==> r(#[trigger] s[i]) == (p(s[i]) && q(s[i])),
    ensures
        s.filter(p).filter(q) == s.filter(r),
    decreases s.len(),
{
    if s.len() == 0 {
        reveal(Seq::filter);
        assert(s.filter(p) =~= Seq::<TrackedMessage>::empty());
    } else {
        let front = s.drop_last();
        let x = s.last();
        assert(front.push(x) =~= s);
        assert forall|i: int| 0 <= i < front.len() implies r(#[trigger] front[i]) == (p(front[i]) && q(
            front[i],
        )) by {
            assert(front[i] == s[i]);
        }
        lemma_filter_combine(front, p, q, r);
        lemma_filter_push(front, x, p);
        lemma_filter_push(front, x, r);
        assert(r(s[s.len() - 1]) == (p(s[s.len() - 1]) && q(s[s.len() - 1])));
        if p(x) {
            lemma_filter_push(front.filter(p), x, q);
        }
    }
}

/// A filter that every message of the list passes keeps the list as it is.
pub proof fn lemma_filter_keeps_all(s: Seq<TrackedMessage>, p: spec_fn(TrackedMessage) -> bool)
    requires
        forall|i: int| 0 <= i < s.len() ==> p(#[trigger] s[i]),
    ensures
        s.filter(p) == s,
    decreases s.len(),
{
    if s.len() == 0 {
        reveal(Seq::filter);
        assert(s.filter(p) =~= s);
    } else {
        let front = s.drop_last();
        let x = s.last();
        assert(front.push(x) =~= s);
        assert forall|i: int| 0 <= i < front.len() implies p(#[trigger] front[i]) by {
            assert(front[i] == s[i]);
        }
        lemma_filter_keeps_all(front, p);
        lemma_filter_push(front, x, p);
        assert(p(s[s.len() - 1]));
    }
}

/// In a list without repeated ids, taking out the message at `i` is filtering
/// out its id.
pub proof fn lemma_remove_is_filter(s: Seq<TrackedMessage>, i: int)
    requires
        ids_distinct(s),
        0 <= i < s.len(),
    ensures
        s.remove(i) == s.filter(other_than(s[i].message_id)),
    decreases s.len(),
{
    let id = s[i].message_id;
    let front = s.drop_last();
    let x = s.last();
    assert(front.push(x) =~= s);
    lemma_filter_push(front, x, other_than(id));
    if i == s.len() - 1 {
        assert forall|j: int| 0 <= j < front.len() implies (other_than(id))(#[trigger] front[j]) by {
            assert(front[j] == s[j]);
        }
        lemma_filter_keeps_all(front, other_than(id));
        assert(s.remove(i) =~= front);
    } else {
        assert(ids_distinct(front)) by {
            assert forall|a: int, b: int|
                0 <= a < front.len() && 0 <= b < front.len() && a != b implies front[a].message_id
                != front[b].message_id by {
                assert(front[a] == s[a] && front[b] == s[b]);
            }
        }
        assert(front[i] == s[i]);
        lemma_remove_is_filter(front, i);
        assert(s[s.len() - 1].message_id != s[i].message_id);
        assert(s.remove(i) =~= front.remove(i).push(x));
    }
}

} // verus!
