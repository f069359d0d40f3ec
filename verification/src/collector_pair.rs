//! The opaque accumulator adapter: lets one composite hold strategies of
//! two different concrete types behind a single uniform type.
//!
//! Each registered strategy is wrapped in one variant; its accumulators
//! carry the same tag. At merge time the adapter narrows every accumulator
//! back to the concrete type produced by its own setup — a checked, tagged
//! narrowing, never an unchecked cast. An accumulator with the other tag did
//! not originate from this adapter; that is a protocol violation, fatal
//! under correct use, and is ruled out by `accepts` rather than being
//! modelled as a recoverable error. Nesting pairs combines any number of
//! concrete strategy types.

use vstd::prelude::*;
use vstd::pervasive::arbitrary;

use crate::collector::{Collector, DocId, Error, Score, SegmentCollector, SegmentLocalId,
    SegmentReader};
use crate::multi_collector::{is_permutation, reorder};

verus! {

/// One strategy of either of two concrete types.
pub enum CollectorPair<A: Collector, B: Collector> {
    First(A),
    Second(B),
}

/// A per-segment accumulator tagged with the strategy type it originated
/// from.
pub enum SegmentCollectorPair<A: SegmentCollector, B: SegmentCollector> {
    First(A),
    Second(B),
}

/// The accumulator behind a `First` tag; arbitrary for the other tag.
pub open spec fn first_of<A: SegmentCollector, B: SegmentCollector>(
    child: SegmentCollectorPair<A, B>,
) -> A {
    match child {
        SegmentCollectorPair::First(a) => a,
        SegmentCollectorPair::Second(_) => arbitrary(),
    }
}

/// The accumulator behind a `Second` tag; arbitrary for the other tag.
pub open spec fn second_of<A: SegmentCollector, B: SegmentCollector>(
    child: SegmentCollectorPair<A, B>,
) -> B {
    match child {
        SegmentCollectorPair::First(_) => arbitrary(),
        SegmentCollectorPair::Second(b) => b,
    }
}

/// The sequence of accumulators narrowed to the first concrete type.
pub open spec fn firsts_of<A: SegmentCollector, B: SegmentCollector>(
    children: Seq<SegmentCollectorPair<A, B>>,
) -> Seq<A> {
    Seq::new(children.len(), |i: int| first_of(children[i]))
}

/// The sequence of accumulators narrowed to the second concrete type.
pub open spec fn seconds_of<A: SegmentCollector, B: SegmentCollector>(
    children: Seq<SegmentCollectorPair<A, B>>,
) -> Seq<B> {
    Seq::new(children.len(), |i: int| second_of(children[i]))
}

/// The adapter passes order insensitivity through: when both wrapped
/// strategy types have merge relations that do not depend on the order of
/// their accumulators, neither does the pair's.
pub proof fn lemma_pair_merge_order_insensitive<A: Collector, B: Collector>(
    w: CollectorPair<A, B>,
    s: Seq<SegmentCollectorPair<A::Child, B::Child>>,
    q: Seq<int>,
    w2: CollectorPair<A, B>,
)
    requires
        is_permutation(q, s.len() as int),
        forall|a: A, sa: Seq<A::Child>, qa: Seq<int>, a2: A|
            is_permutation(qa, sa.len() as int) ==> (#[trigger] A::merged(a, reorder(sa, qa), a2))
                == A::merged(a, sa, a2),
        forall|b: B, sb: Seq<B::Child>, qb: Seq<int>, b2: B|
            is_permutation(qb, sb.len() as int) ==> (#[trigger] B::merged(b, reorder(sb, qb), b2))
                == B::merged(b, sb, b2),
    ensures
        CollectorPair::<A, B>::merged(w, reorder(s, q), w2) == CollectorPair::<A, B>::merged(
            w,
            s,
            w2,
        ),
{
    assert(firsts_of(reorder(s, q)) =~= reorder(firsts_of(s), q));
    assert(seconds_of(reorder(s, q)) =~= reorder(seconds_of(s), q));
    match (w, w2) {
        (CollectorPair::First(a), CollectorPair::First(a2)) => {
            assert(is_permutation(q, firsts_of(s).len() as int));
            assert(A::merged(a, reorder(firsts_of(s), q), a2) == A::merged(a, firsts_of(s), a2));
        },
        (CollectorPair::Second(b), CollectorPair::Second(b2)) => {
            assert(is_permutation(q, seconds_of(s).len() as int));
            assert(B::merged(b, reorder(seconds_of(s), q), b2) == B::merged(b, seconds_of(s), b2));
        },
        _ => {},
    }
}

impl<A: SegmentCollector, B: SegmentCollector> SegmentCollector for SegmentCollectorPair<A, B> {
    open spec fn inv(&self) -> bool {
        match self {
            SegmentCollectorPair::First(a) => a.inv(),
            SegmentCollectorPair::Second(b) => b.inv(),
        }
    }

    open spec fn events(&self) -> Seq<(DocId, Score)> {
        match self {
            SegmentCollectorPair::First(a) => a.events(),
            SegmentCollectorPair::Second(b) => b.events(),
        }
    }

    /// The wrapped accumulator's origin, shifted so that the tag can be
    /// read back off the number: even for `First`, odd for `Second`.
    open spec fn origin(&self) -> int {
        match self {
            SegmentCollectorPair::First(a) => 2 * a.origin(),
            SegmentCollectorPair::Second(b) => 2 * b.origin() + 1,
        }
    }

    fn collect(&mut self, doc: DocId, score: Score) {
        match self {
            SegmentCollectorPair::First(a) => a.collect(doc, score),
            SegmentCollectorPair::Second(b) => b.collect(doc, score),
        }
    }
}

impl<A: Collector, B: Collector> Collector for CollectorPair<A, B> {
    type Child = SegmentCollectorPair<A::Child, B::Child>;

    open spec fn requires_scoring_spec(&self) -> bool {
        match self {
            CollectorPair::First(a) => a.requires_scoring_spec(),
            CollectorPair::Second(b) => b.requires_scoring_spec(),
        }
    }

    /// The wrapped strategy's stamp, shifted by this adapter's tag in the
    /// same way as the accumulators' origins.
    open spec fn child_origin(&self) -> int {
        match self {
            CollectorPair::First(a) => 2 * a.child_origin(),
            CollectorPair::Second(b) => 2 * b.child_origin() + 1,
        }
    }

    /// A setup failure of the wrapped strategy is propagated unchanged.
    open spec fn setup_err(&self, segment_local_id: SegmentLocalId, segment: SegmentReader) -> Option<
        Error,
    > {
        match self {
            CollectorPair::First(a) => a.setup_err(segment_local_id, segment),
            CollectorPair::Second(b) => b.setup_err(segment_local_id, segment),
        }
    }

    /// Every accumulator must carry this adapter's own stamp — it
    /// originated from this adapter's setup, so in particular it carries
    /// this adapter's tag — and the narrowed sequence must suit the wrapped
    /// strategy.
    open spec fn accepts(&self, children: Seq<SegmentCollectorPair<A::Child, B::Child>>) -> bool {
        match self {
            CollectorPair::First(a) => (forall|i: int|
                0 <= i < children.len() ==> (#[trigger] children[i]).origin() == 2
                    * a.child_origin()) && a.accepts(firsts_of(children)),
            CollectorPair::Second(b) => (forall|i: int|
                0 <= i < children.len() ==> (#[trigger] children[i]).origin() == 2
                    * b.child_origin() + 1) && b.accepts(seconds_of(children)),
        }
    }

    /// The wrapped strategy's merge relation, over the narrowed
    /// accumulators; the tag never changes.
    open spec fn merged(
        pre: Self,
        children: Seq<SegmentCollectorPair<A::Child, B::Child>>,
        post: Self,
    ) -> bool {
        match (pre, post) {
            (CollectorPair::First(a), CollectorPair::First(a2)) => A::merged(
                a,
                firsts_of(children),
                a2,
            ),
            (CollectorPair::Second(b), CollectorPair::Second(b2)) => B::merged(
                b,
                seconds_of(children),
                b2,
            ),
            _ => false,
        }
    }

    /// Setup delegates to the wrapped strategy and hands its accumulator
    /// out under this adapter's own tag; a failure is propagated unchanged.
    fn for_segment(&self, segment_local_id: SegmentLocalId, segment: &SegmentReader) -> (r:
        Result<SegmentCollectorPair<A::Child, B::Child>, Error>) {
        match self {
            CollectorPair::First(a) => match a.for_segment(segment_local_id, segment) {
                Ok(child) => Ok(SegmentCollectorPair::First(child)),
                Err(e) => Err(e),
            },
            CollectorPair::Second(b) => match b.for_segment(segment_local_id, segment) {
                Ok(child) => Ok(SegmentCollectorPair::Second(child)),
                Err(e) => Err(e),
            },
        }
    }

    fn requires_scoring(&self) -> (b: bool) {
        match self {
            CollectorPair::First(a) => a.requires_scoring(),
            CollectorPair::Second(b) => b.requires_scoring(),
        }
    }

    fn merge_children(&mut self, children: Vec<SegmentCollectorPair<A::Child, B::Child>>) {
        let ghost all = children@;
        let mut children = children;
        match self {
            CollectorPair::First(a) => {
                proof {
                    assert forall|i: int| 0 <= i < all.len() implies all[i] is First by {
                        assert(all[i].origin() == 2 * a.child_origin());
                    }
                }
                let mut narrowed: Vec<A::Child> = Vec::new();
                let mut k: usize = 0;
                let total: usize = children.len();
                while k < total
                    invariant
                        0 <= k <= total,
                        total == all.len(),
                        children@ == all.skip(k as int),
                        forall|i: int| 0 <= i < all.len() ==> all[i] is First,
                        narrowed@ == firsts_of(all.take(k as int)),
                    decreases total - k,
                {
                    let child = children.remove(0);
                    proof {
                        assert(all.skip(k as int)[0] == all[k as int]);
                        assert(children@ =~= all.skip(k as int + 1));
                    }
                    match child {
                        SegmentCollectorPair::First(x) => {
                            narrowed.push(x);
                        },
                        SegmentCollectorPair::Second(_) => {
                            proof {
                                assert(false);
                            }
                        },
                    }
                    k = k + 1;
                    proof {
                        assert(narrowed@ =~= firsts_of(all.take(k as int)));
                    }
                }
                proof {
                    assert(all.take(total as int) =~= all);
                    assert forall|i: int| 0 <= i < firsts_of(all).len() implies (
                    #[trigger] firsts_of(all)[i]).inv() by {
                        assert(all[i].inv());
                    }
                }
                a.merge_children(narrowed);
            },
            CollectorPair::Second(b) => {
                proof {
                    assert forall|i: int| 0 <= i < all.len() implies all[i] is Second by {
                        assert(all[i].origin() == 2 * b.child_origin() + 1);
                    }
                }
                let mut narrowed: Vec<B::Child> = Vec::new();
                let mut k: usize = 0;
                let total: usize = children.len();
                while k < total
                    invariant
                        0 <= k <= total,
                        total == all.len(),
                        children@ == all.skip(k as int),
                        forall|i: int| 0 <= i < all.len() ==> all[i] is Second,
                        narrowed@ == seconds_of(all.take(k as int)),
                    decreases total - k,
                {
                    let child = children.remove(0);
                    proof {
                        assert(all.skip(k as int)[0] == all[k as int]);
                        assert(children@ =~= all.skip(k as int + 1));
                    }
                    match child {
                        SegmentCollectorPair::First(_) => {
                            proof {
                                assert(false);
                            }
                        },
                        SegmentCollectorPair::Second(x) => {
                            narrowed.push(x);
                        },
                    }
                    k = k + 1;
                    proof {
                        assert(narrowed@ =~= seconds_of(all.take(k as int)));
                    }
                }
                proof {
                    assert(all.take(total as int) =~= all);
                    assert forall|i: int| 0 <= i < seconds_of(all).len() implies (
                    #[trigger] seconds_of(all)[i]).inv() by {
                        assert(all[i].inv());
                    }
                }
                b.merge_children(narrowed);
            },
        }
    }
}

} // verus!
