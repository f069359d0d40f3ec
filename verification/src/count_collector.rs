//! A strategy that counts matching documents.

use vstd::prelude::*;

use crate::collector::{Collector, DocId, Error, Score, SegmentCollector, SegmentLocalId,
    SegmentReader};
use crate::multi_collector::{is_permutation, lemma_merge_order_invariance, lemma_reorder_split_first,
    reorder, MultiCollector,
    MultiCollectorChild};

verus! {

/// Counts the documents of the whole pass; the final count is the sum of
/// the per-segment counts, saturated at `usize::MAX`.
pub struct CountCollector {
    pub count: usize,
}

/// Per-segment accumulator of [`CountCollector`]: counts the match events
/// of one segment.
pub struct CountSegmentCollector {
    pub count: usize,
    pub history: Ghost<Seq<(DocId, Score)>>,
}

/// The exact sum of the per-segment counts.
pub open spec fn total_count(children: Seq<CountSegmentCollector>) -> int
    decreases children.len(),
{
    if children.len() == 0 {
        0
    } else {
        children[0].count + total_count(children.drop_first())
    }
}

/// A sum of counts is never negative.
proof fn lemma_total_count_nonneg(children: Seq<CountSegmentCollector>)
    ensures
        total_count(children) >= 0,
    decreases children.len(),
{
    if children.len() > 0 {
        lemma_total_count_nonneg(children.drop_first());
    }
}

/// Appending one accumulator adds exactly its count to the sum.
proof fn lemma_total_count_push(children: Seq<CountSegmentCollector>, c: CountSegmentCollector)
    ensures
        total_count(children.push(c)) == total_count(children) + c.count,
    decreases children.len(),
{
    if children.len() == 0 {
        assert(children.push(c)[0] == c);
        assert(children.push(c).drop_first() =~= Seq::<CountSegmentCollector>::empty());
        assert(total_count(children.push(c)) == c.count + total_count(
            Seq::<CountSegmentCollector>::empty(),
        ));
    } else {
        assert(children.push(c)[0] == children[0]);
        assert(children.push(c).drop_first() =~= children.drop_first().push(c));
        lemma_total_count_push(children.drop_first(), c);
        assert(total_count(children.push(c)) == children[0].count + total_count(
            children.drop_first().push(c),
        ));
        assert(total_count(children) == children[0].count + total_count(children.drop_first()));
    }
}

/// Removing one accumulator takes exactly its count out of the sum.
proof fn lemma_total_count_remove(s: Seq<CountSegmentCollector>, i: int)
    requires
        0 <= i < s.len(),
    ensures
        total_count(s.remove(i)) == total_count(s) - s[i].count,
    decreases i,
{
    if i == 0 {
        assert(s.remove(0) =~= s.drop_first());
    } else {
        lemma_total_count_remove(s.drop_first(), i - 1);
        assert(s.remove(i).drop_first() =~= s.drop_first().remove(i - 1));
        assert(s.remove(i)[0] == s[0]);
        assert(s.drop_first()[i - 1] == s[i]);
        assert(total_count(s.remove(i)) == s.remove(i)[0].count + total_count(
            s.remove(i).drop_first(),
        ));
        assert(total_count(s) == s[0].count + total_count(s.drop_first()));
    }
}

/// The sum of the per-segment counts does not depend on their order.
pub proof fn lemma_total_count_reorder(s: Seq<CountSegmentCollector>, p: Seq<int>)
    requires
        is_permutation(p, s.len() as int),
    ensures
        total_count(reorder(s, p)) == total_count(s),
    decreases s.len(),
{
    if s.len() == 0 {
        assert(reorder(s, p) =~= Seq::<CountSegmentCollector>::empty());
    } else {
        let p0 = p[0];
        let p2 = lemma_reorder_split_first(s, p);
        lemma_total_count_reorder(s.remove(p0), p2);
        lemma_total_count_remove(s, p0);
        assert(total_count(reorder(s, p)) == s[p0].count + total_count(
            reorder(s, p).drop_first(),
        ));
    }
}

/// A counter's merge relation is insensitive to the order in which its
/// per-segment accumulators are handed to it.
pub proof fn lemma_count_merge_order_insensitive(
    w: CountCollector,
    s: Seq<CountSegmentCollector>,
    q: Seq<int>,
    w2: CountCollector,
)
    requires
        is_permutation(q, s.len() as int),
    ensures
        CountCollector::merged(w, reorder(s, q), w2) == CountCollector::merged(w, s, w2),
{
    lemma_total_count_reorder(s, q);
}

/// Merge order invariance holds outright for a composite of counters:
/// permuting the fan-out units before the merge leaves the relation between
/// the composite's state before and after the merge unchanged.
pub proof fn lemma_count_composite_order_invariance(
    pre: MultiCollector<CountCollector>,
    post: MultiCollector<CountCollector>,
    units: Seq<MultiCollectorChild<CountSegmentCollector>>,
    p: Seq<int>,
)
    requires
        is_permutation(p, units.len() as int),
    ensures
        <MultiCollector<CountCollector> as Collector>::merged(pre, reorder(units, p), post)
            == <MultiCollector<CountCollector> as Collector>::merged(pre, units, post),
{
    assert forall|w: CountCollector, s: Seq<CountSegmentCollector>, q: Seq<int>, w2: CountCollector|
        is_permutation(q, s.len() as int) implies (#[trigger] CountCollector::merged(
        w,
        reorder(s, q),
        w2,
    )) == CountCollector::merged(w, s, w2) by {
        lemma_count_merge_order_insensitive(w, s, q, w2);
    }
    lemma_merge_order_invariance(pre, post, units, p);
}

impl CountCollector {
    /// The number of matches counted so far.
    pub fn count(&self) -> (c: usize)
        ensures
            c == self.count,
    {
        self.count
    }
}

impl Default for CountCollector {
    /// A counter that has seen nothing yet.
    fn default() -> (r: CountCollector)
        ensures
            r.count == 0,
    {
        CountCollector { count: 0 }
    }
}

impl SegmentCollector for CountSegmentCollector {
    open spec fn inv(&self) -> bool {
        self.count == self.history@.len()
    }

    open spec fn events(&self) -> Seq<(DocId, Score)> {
        self.history@
    }

    open spec fn origin(&self) -> int {
        0
    }

    fn collect(&mut self, doc: DocId, score: Score) {
        self.count = self.count + 1;
        proof {
            self.history@ = self.history@.push((doc, score));
        }
    }
}

impl Collector for CountCollector {
    type Child = CountSegmentCollector;

    /// Counting needs no per-document scores.
    open spec fn requires_scoring_spec(&self) -> bool {
        false
    }

    open spec fn child_origin(&self) -> int {
        0
    }

    /// A counter's setup never fails.
    open spec fn setup_err(&self, segment_local_id: SegmentLocalId, segment: SegmentReader) -> Option<
        Error,
    > {
        None
    }

    /// A counter can merge any sequence of counting accumulators.
    open spec fn accepts(&self, children: Seq<CountSegmentCollector>) -> bool {
        true
    }

    /// The merged count is the sum of the per-segment counts, saturated at
    /// `usize::MAX`; the count held before the merge is discarded.
    open spec fn merged(
        pre: CountCollector,
        children: Seq<CountSegmentCollector>,
        post: CountCollector,
    ) -> bool {
        post.count == if total_count(children) <= usize::MAX {
            total_count(children)
        } else {
            usize::MAX as int
        }
    }

    fn for_segment(&self, segment_local_id: SegmentLocalId, segment: &SegmentReader) -> (r:
        Result<CountSegmentCollector, Error>) {
        Ok(CountSegmentCollector { count: 0, history: Ghost(Seq::empty()) })
    }

    fn requires_scoring(&self) -> (b: bool) {
        false
    }

    fn merge_children(&mut self, children: Vec<CountSegmentCollector>) {
        let mut total: usize = 0;
        let mut j: usize = 0;
        while j < children.len()
            invariant
                0 <= j <= children@.len(),
                total == if total_count(children@.take(j as int)) <= usize::MAX {
                    total_count(children@.take(j as int))
                } else {
                    usize::MAX as int
                },
            decreases children@.len() - j,
        {
            proof {
                assert(children@.take(j as int + 1) =~= children@.take(j as int).push(
                    children@[j as int],
                ));
                lemma_total_count_push(children@.take(j as int), children@[j as int]);
                lemma_total_count_nonneg(children@.take(j as int));
            }
            let c = children[j].count;
            if total <= usize::MAX - c {
                total = total + c;
            } else {
                total = usize::MAX;
            }
            j = j + 1;
        }
        proof {
            assert(children@.take(children@.len() as int) =~= children@);
        }
        self.count = total;
    }
}

} // verus!
