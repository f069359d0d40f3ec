//! The composite collector: presents N registered strategies as a single
//! strategy to the scan executor.
//!
//! Pairing between a strategy and its accumulators is purely positional: the
//! slot index assigned at registration identifies, in every fan-out unit,
//! which accumulator belongs to which strategy.

use vstd::prelude::*;

use crate::collector::{Collector, DocId, Error, Score, SegmentCollector, SegmentLocalId,
    SegmentReader};

verus! {

/// Per-segment fan-out unit: one accumulator per registered strategy, in
/// slot order, together with the (ghost) history of the match events the
/// unit has routed to all of them.
///
/// A unit is exclusively owned by whoever processes its segment; ownership
/// moves to `merge_children` when scanning is done, so no accumulator is
/// ever shared during the collect phase.
pub struct MultiCollectorChild<S: SegmentCollector> {
    pub children: Vec<S>,
    pub history: Ghost<Seq<(DocId, Score)>>,
}

/// The composite collector: an ordered list of strategies, one slot each.
///
/// The composite is single-use: strategies are registered, zero or more
/// segments are set up, and then `merge_children` runs exactly once. The
/// (ghost) lifecycle tag `merged` records that the merge has happened;
/// registering or merging afterwards is a protocol violation and is ruled
/// out by the contracts.
pub struct MultiCollector<C: Collector> {
    pub collector_wrappers: Vec<C>,
    pub merged: Ghost<bool>,
}

/// The sequence of accumulators that slot `slot` contributes to its
/// strategy's merge: the `slot`-th accumulator of every fan-out unit, in
/// unit order.
pub open spec fn slot_children<S: SegmentCollector>(
    units: Seq<MultiCollectorChild<S>>,
    slot: int,
) -> Seq<S> {
    Seq::new(units.len(), |j: int| units[j].children@[slot])
}

/// The failure the composite's segment setup surfaces: the first failure
/// among the strategies' own setups, in registration order; `None` when
/// every setup succeeds.
pub open spec fn first_setup_err<C: Collector>(
    wrappers: Seq<C>,
    segment_local_id: SegmentLocalId,
    segment: SegmentReader,
) -> Option<Error>
    decreases wrappers.len(),
{
    if wrappers.len() == 0 {
        None
    } else {
        match wrappers[0].setup_err(segment_local_id, segment) {
            Some(e) => Some(e),
            None => first_setup_err(wrappers.drop_first(), segment_local_id, segment),
        }
    }
}

/// Strategies whose setup succeeds do not decide the first failure: it is
/// found among the rest.
proof fn lemma_first_setup_err_skip<C: Collector>(
    wrappers: Seq<C>,
    segment_local_id: SegmentLocalId,
    segment: SegmentReader,
    i: int,
)
    requires
        0 <= i <= wrappers.len(),
        forall|k: int|
            0 <= k < i ==> (#[trigger] wrappers[k].setup_err(segment_local_id, segment)) is None,
    ensures
        first_setup_err(wrappers, segment_local_id, segment) == first_setup_err(
            wrappers.skip(i),
            segment_local_id,
            segment,
        ),
    decreases i,
{
    if i == 0 {
        assert(wrappers.skip(0) =~= wrappers);
    } else {
        assert(wrappers[0].setup_err(segment_local_id, segment) is None);
        lemma_first_setup_err_skip(wrappers.drop_first(), segment_local_id, segment, i - 1);
        assert(wrappers.drop_first().skip(i - 1) =~= wrappers.skip(i));
    }
}

impl<S: SegmentCollector> SegmentCollector for MultiCollectorChild<S> {
    /// Every held accumulator is well formed and has consumed exactly the
    /// events this unit has routed.
    open spec fn inv(&self) -> bool {
        forall|i: int|
            0 <= i < self.children@.len() ==> (#[trigger] self.children@[i]).inv()
                && self.children@[i].events() == self.history@
    }

    open spec fn events(&self) -> Seq<(DocId, Score)> {
        self.history@
    }

    /// A whole unit always originates from one composite setup.
    open spec fn origin(&self) -> int {
        0
    }

    fn collect(&mut self, doc: DocId, score: Score)
        ensures
            final(self).children@.len() == old(self).children@.len(),
            forall|i: int|
                0 <= i < old(self).children@.len() ==> (#[trigger] final(self).children@[i]).events()
                    == old(self).children@[i].events().push((doc, score)),
            forall|i: int|
                0 <= i < old(self).children@.len() ==> (#[trigger] final(self).children@[i]).origin()
                    == old(self).children@[i].origin(),
    {
        MultiCollectorChild::<S>::collect(self, doc, score);
    }
}

impl<S: SegmentCollector> MultiCollectorChild<S> {
    /// Route one match event to every held accumulator, in slot order,
    /// unconditionally: each accumulator receives it exactly once, with
    /// unmodified arguments; no accumulator is added, removed or exchanged
    /// for one of another origin.
    pub fn collect(&mut self, doc: DocId, score: Score)
        requires
            old(self).inv(),
            old(self).history@.len() < usize::MAX,
        ensures
            final(self).inv(),
            final(self).children@.len() == old(self).children@.len(),
            final(self).history@ == old(self).history@.push((doc, score)),
            forall|i: int|
                0 <= i < old(self).children@.len() ==> (#[trigger] final(self).children@[i]).events()
                    == old(self).children@[i].events().push((doc, score)),
            forall|i: int|
                0 <= i < old(self).children@.len() ==> (#[trigger] final(self).children@[i]).origin()
                    == old(self).children@[i].origin(),
    {
        let ghost pre = *self;
        let mut i: usize = 0;
        while i < self.children.len()
            invariant
                pre.inv(),
                pre.history@.len() < usize::MAX,
                0 <= i <= self.children@.len(),
                self.children@.len() == pre.children@.len(),
                self.history@ == pre.history@,
                forall|k: int|
                    0 <= k < i ==> (#[trigger] self.children@[k]).inv() && self.children@[k].events()
                        == pre.history@.push((doc, score)) && self.children@[k].origin()
                        == pre.children@[k].origin(),
                forall|k: int|
                    i <= k < self.children@.len() ==> #[trigger] self.children@[k]
                        == pre.children@[k],
            decreases self.children@.len() - i,
        {
            let child = &mut self.children[i];
            child.collect(doc, score);
            i = i + 1;
        }
        proof {
            self.history@ = self.history@.push((doc, score));
        }
    }
}

impl<C: Collector> MultiCollector<C> {
    /// A composite with no strategy registered yet.
    pub fn new() -> (r: MultiCollector<C>)
        ensures
            r.collector_wrappers@.len() == 0,
            !r.merged@,
    {
        MultiCollector { collector_wrappers: Vec::new(), merged: Ghost(false) }
    }

    /// Register one strategy; it takes the next free slot, fixed for the
    /// composite's lifetime. Registration happens before scanning; a
    /// composite whose merge already ran accepts no further strategy.
    pub fn add_collector(&mut self, collector: C)
        requires
            !old(self).merged@,
        ensures
            final(self).collector_wrappers@ == old(self).collector_wrappers@.push(collector),
            !final(self).merged@,
    {
        self.collector_wrappers.push(collector);
    }

    /// The body of segment setup, shared by the public method and the
    /// capability-contract impl: set up one accumulator per registered
    /// strategy, in registration order, and bundle them into one fan-out
    /// unit; on the first setup failure, abort and surface that failure
    /// unchanged, producing no unit. Setup only reads the composite, so
    /// slot assignment stays fixed for the composite's lifetime.
    fn segment_setup(&self, segment_local_id: SegmentLocalId, segment: &SegmentReader) -> (r:
        Result<MultiCollectorChild<C::Child>, Error>)
        ensures
            r is Err <==> first_setup_err(
                self.collector_wrappers@,
                segment_local_id,
                *segment,
            ) is Some,
            r matches Err(e) ==> Some(e) == first_setup_err(
                self.collector_wrappers@,
                segment_local_id,
                *segment,
            ),
            r matches Ok(unit) ==> unit.inv() && unit.history@ == Seq::<(DocId, Score)>::empty()
                && unit.children@.len() == self.collector_wrappers@.len() && (forall|i: int|
                0 <= i < self.collector_wrappers@.len() ==> (#[trigger] unit.children@[i]).origin()
                    == self.collector_wrappers@[i].child_origin()),
    {
        let mut children: Vec<C::Child> = Vec::new();
        let mut i: usize = 0;
        while i < self.collector_wrappers.len()
            invariant
                0 <= i <= self.collector_wrappers@.len(),
                children@.len() == i,
                forall|k: int|
                    0 <= k < i ==> (#[trigger] children@[k]).inv() && children@[k].events()
                        == Seq::<(DocId, Score)>::empty() && children@[k].origin()
                        == self.collector_wrappers@[k].child_origin(),
                forall|k: int|
                    0 <= k < i ==> (#[trigger] self.collector_wrappers@[k].setup_err(
                        segment_local_id,
                        *segment,
                    )) is None,
            decreases self.collector_wrappers@.len() - i,
        {
            let wrapper = &self.collector_wrappers[i];
            let result = wrapper.for_segment(segment_local_id, segment);
            match result {
                Ok(child) => {
                    children.push(child);
                },
                Err(e) => {
                    proof {
                        lemma_first_setup_err_skip(
                            self.collector_wrappers@,
                            segment_local_id,
                            *segment,
                            i as int,
                        );
                        assert(self.collector_wrappers@.skip(i as int)[0]
                            == self.collector_wrappers@[i as int]);
                        assert(first_setup_err(
                            self.collector_wrappers@.skip(i as int),
                            segment_local_id,
                            *segment,
                        ) == Some(e));
                    }
                    return Err(e);
                },
            }
            i = i + 1;
        }
        proof {
            lemma_first_setup_err_skip(
                self.collector_wrappers@,
                segment_local_id,
                *segment,
                self.collector_wrappers@.len() as int,
            );
            assert(self.collector_wrappers@.skip(self.collector_wrappers@.len() as int)
                =~= Seq::<C>::empty());
        }
        Ok(MultiCollectorChild { children, history: Ghost(Seq::empty()) })
    }

    /// Set up one accumulator per registered strategy, in registration
    /// order, and bundle them into one fan-out unit for the segment; on the
    /// first setup failure, abort and surface that failure unchanged,
    /// producing no unit. The registered strategies are only read, never
    /// changed: slot assignment is fixed for the composite's lifetime.
    /// Setup belongs to the scanning phase, before the single merge.
    pub fn for_segment(&self, segment_local_id: SegmentLocalId, segment: &SegmentReader) -> (r:
        Result<MultiCollectorChild<C::Child>, Error>)
        requires
            !self.merged@,
        ensures
            r is Err <==> first_setup_err(
                self.collector_wrappers@,
                segment_local_id,
                *segment,
            ) is Some,
            r matches Err(e) ==> Some(e) == first_setup_err(
                self.collector_wrappers@,
                segment_local_id,
                *segment,
            ),
            r matches Ok(unit) ==> unit.inv() && unit.history@ == Seq::<(DocId, Score)>::empty()
                && unit.children@.len() == self.collector_wrappers@.len() && (forall|i: int|
                0 <= i < self.collector_wrappers@.len() ==> (#[trigger] unit.children@[i]).origin()
                    == self.collector_wrappers@[i].child_origin()),
    {
        self.segment_setup(segment_local_id, segment)
    }

    /// The composite needs scores if and only if at least one registered
    /// strategy does.
    pub fn requires_scoring(&self) -> (b: bool)
        ensures
            b == exists|i: int|
                0 <= i < self.collector_wrappers@.len() && (#[trigger] self.collector_wrappers@[i]).requires_scoring_spec(),
    {
        let mut i: usize = 0;
        while i < self.collector_wrappers.len()
            invariant
                0 <= i <= self.collector_wrappers@.len(),
                forall|k: int|
                    0 <= k < i ==> !(#[trigger] self.collector_wrappers@[k]).requires_scoring_spec(),
            decreases self.collector_wrappers@.len() - i,
        {
            if self.collector_wrappers[i].requires_scoring() {
                return true;
            }
            i = i + 1;
        }
        false
    }

    /// Transpose the fan-out units by slot and hand every strategy the
    /// sequence of its own accumulators, one from each unit, in unit order;
    /// executed for every slot even when `children` is empty, in which case
    /// each strategy merges an empty sequence. Runs exactly once: it
    /// consumes the composite's single use.
    pub fn merge_children(&mut self, children: Vec<MultiCollectorChild<C::Child>>)
        requires
            !old(self).merged@,
            forall|j: int|
                0 <= j < children@.len() ==> (#[trigger] children@[j]).inv()
                    && children@[j].children@.len() == old(self).collector_wrappers@.len(),
            forall|i: int|
                0 <= i < old(self).collector_wrappers@.len()
                    ==> (#[trigger] old(self).collector_wrappers@[i]).accepts(
                    slot_children(children@, i),
                ),
        ensures
            final(self).collector_wrappers@.len() == old(self).collector_wrappers@.len(),
            final(self).merged@,
            forall|i: int|
                0 <= i < old(self).collector_wrappers@.len() ==> C::merged(
                    old(self).collector_wrappers@[i],
                    slot_children(children@, i),
                    #[trigger] final(self).collector_wrappers@[i],
                ),
    {
        let ghost pre = *self;
        let ghost units = children@;
        let n: usize = self.collector_wrappers.len();

        // Transpose: per_collector[idx] gathers the idx-th accumulator of
        // every unit, in unit order.
        let mut per_collector: Vec<Vec<C::Child>> = Vec::new();
        let mut s: usize = 0;
        while s < n
            invariant
                per_collector@.len() == s,
                0 <= s <= n,
                forall|k: int| 0 <= k < s ==> (#[trigger] per_collector@[k])@.len() == 0,
            decreases n - s,
        {
            per_collector.push(Vec::new());
            s = s + 1;
        }

        let mut children = children;
        let total: usize = children.len();
        let mut m: usize = 0;
        while m < total
            invariant
                0 <= m <= total,
                total == units.len(),
                children@ == units.skip(m as int),
                per_collector@.len() == n,
                n == pre.collector_wrappers@.len(),
                forall|j: int|
                    0 <= j < units.len() ==> (#[trigger] units[j]).inv()
                        && units[j].children@.len() == n,
                forall|k: int|
                    0 <= k < n ==> (#[trigger] per_collector@[k])@ == slot_children(
                        units.take(m as int),
                        k,
                    ),
            decreases total - m,
        {
            let unit = children.remove(0);
            proof {
                assert(units.skip(m as int)[0] == units[m as int]);
                assert(children@ =~= units.skip(m as int + 1));
            }
            let mut unit_children = unit.children;
            proof {
                assert(unit_children@ =~= units[m as int].children@.skip(0));
            }
            let mut idx: usize = 0;
            while idx < n
                invariant
                    0 <= idx <= n,
                    0 <= m < units.len(),
                    per_collector@.len() == n,
                    unit_children@ == units[m as int].children@.skip(idx as int),
                    units[m as int].children@.len() == n,
                    forall|j: int|
                        0 <= j < units.len() ==> (#[trigger] units[j]).inv()
                            && units[j].children@.len() == n,
                    forall|k: int|
                        0 <= k < idx ==> (#[trigger] per_collector@[k])@ == slot_children(
                            units.take(m as int),
                            k,
                        ).push(units[m as int].children@[k]),
                    forall|k: int|
                        idx <= k < n ==> (#[trigger] per_collector@[k])@ == slot_children(
                            units.take(m as int),
                            k,
                        ),
                decreases n - idx,
            {
                let segment_collector = unit_children.remove(0);
                proof {
                    assert(units[m as int].children@.skip(idx as int)[0] == units[
                        m as int
                    ].children@[idx as int]);
                    assert(unit_children@ =~= units[m as int].children@.skip(idx as int + 1));
                }
                let column = &mut per_collector[idx];
                column.push(segment_collector);
                idx = idx + 1;
            }
            m = m + 1;
            proof {
                assert forall|k: int| 0 <= k < n implies (#[trigger] per_collector@[k])@
                    == slot_children(units.take(m as int), k) by {
                    assert(slot_children(units.take(m as int), k) =~= slot_children(
                        units.take(m as int - 1),
                        k,
                    ).push(units[m as int - 1].children@[k]));
                }
            }
        }
        proof {
            assert(units.take(total as int) =~= units);
        }

        // Hand every strategy the gathered sequence of its own accumulators.
        let mut per_collector = per_collector;
        let mut i: usize = 0;
        while i < n
            invariant
                0 <= i <= n,
                n == pre.collector_wrappers@.len(),
                self.collector_wrappers@.len() == n,
                per_collector@.len() == n - i,
                forall|k: int|
                    0 <= k < n - i ==> (#[trigger] per_collector@[k])@ == slot_children(
                        units,
                        k + i,
                    ),
                forall|j: int|
                    0 <= j < units.len() ==> (#[trigger] units[j]).inv() && units[j].children@.len()
                        == n,
                forall|k: int|
                    i <= k < n ==> #[trigger] self.collector_wrappers@[k]
                        == pre.collector_wrappers@[k],
                forall|k: int|
                    0 <= k < n ==> (#[trigger] pre.collector_wrappers@[k]).accepts(
                        slot_children(units, k),
                    ),
                forall|k: int|
                    0 <= k < i ==> C::merged(
                        pre.collector_wrappers@[k],
                        slot_children(units, k),
                        #[trigger] self.collector_wrappers@[k],
                    ),
                self.merged@ == pre.merged@,
            decreases n - i,
        {
            let column = per_collector.remove(0);
            proof {
                assert(column@ == slot_children(units, i as int));
                assert forall|t: int| 0 <= t < column@.len() implies (#[trigger] column@[t]).inv() by {
                    assert(column@[t] == units[t].children@[i as int]);
                    assert(units[t].inv());
                }
            }
            let wrapper = &mut self.collector_wrappers[i];
            wrapper.merge_children(column);
            i = i + 1;
        }
        self.merged = Ghost(true);
    }
}

/// The composite is itself a strategy, so a scan executor written against
/// the capability contract can drive N strategies through it as one.
impl<C: Collector> Collector for MultiCollector<C> {
    type Child = MultiCollectorChild<C::Child>;

    /// The OR over all registered strategies.
    open spec fn requires_scoring_spec(&self) -> bool {
        exists|i: int|
            0 <= i < self.collector_wrappers@.len() && (#[trigger] self.collector_wrappers@[i]).requires_scoring_spec()
    }

    /// All fan-out units of one composite look alike: pairing with the
    /// registered strategies is positional, not by stamp.
    open spec fn child_origin(&self) -> int {
        0
    }

    /// The first failure among the strategies' setups, in registration
    /// order.
    open spec fn setup_err(&self, segment_local_id: SegmentLocalId, segment: SegmentReader) -> Option<
        Error,
    > {
        first_setup_err(self.collector_wrappers@, segment_local_id, segment)
    }

    open spec fn accepts(&self, children: Seq<MultiCollectorChild<C::Child>>) -> bool {
        &&& !self.merged@
        &&& forall|j: int|
            0 <= j < children.len() ==> (#[trigger] children[j]).children@.len()
                == self.collector_wrappers@.len()
        &&& forall|i: int|
            0 <= i < self.collector_wrappers@.len() ==> (#[trigger] self.collector_wrappers@[i]).accepts(
                slot_children(children, i),
            )
    }

    open spec fn merged(
        pre: Self,
        children: Seq<MultiCollectorChild<C::Child>>,
        post: Self,
    ) -> bool {
        &&& post.collector_wrappers@.len() == pre.collector_wrappers@.len()
        &&& post.merged@
        &&& forall|i: int|
            0 <= i < pre.collector_wrappers@.len() ==> C::merged(
                pre.collector_wrappers@[i],
                slot_children(children, i),
                #[trigger] post.collector_wrappers@[i],
            )
    }

    fn for_segment(&self, segment_local_id: SegmentLocalId, segment: &SegmentReader) -> (r:
        Result<MultiCollectorChild<C::Child>, Error>)
        ensures
            r matches Ok(unit) ==> unit.children@.len() == self.collector_wrappers@.len() && (
            forall|i: int|
                0 <= i < self.collector_wrappers@.len() ==> (#[trigger] unit.children@[i]).origin()
                    == self.collector_wrappers@[i].child_origin()),
    {
        self.segment_setup(segment_local_id, segment)
    }

    fn requires_scoring(&self) -> (b: bool) {
        MultiCollector::<C>::requires_scoring(self)
    }

    fn merge_children(&mut self, children: Vec<MultiCollectorChild<C::Child>>) {
        MultiCollector::<C>::merge_children(self, children);
    }
}

/// For N registered strategies and M fan-out units handed to the merge, the
/// sequence of accumulators each slot contributes to its strategy's merge
/// has exactly M elements.
pub proof fn lemma_slot_children_len<S: SegmentCollector>(
    units: Seq<MultiCollectorChild<S>>,
    slot: int,
)
    ensures
        slot_children(units, slot).len() == units.len(),
{
}

/// `p` maps each position of a sequence of length `n` to a distinct source
/// position: a permutation.
pub open spec fn is_permutation(p: Seq<int>, n: int) -> bool {
    &&& p.len() == n
    &&& forall|j: int| 0 <= j < n ==> 0 <= #[trigger] p[j] < n
    &&& forall|j1: int, j2: int| 0 <= j1 < j2 < n ==> p[j1] != p[j2]
}

/// The sequence `s` rearranged by the permutation `p`.
pub open spec fn reorder<T>(s: Seq<T>, p: Seq<int>) -> Seq<T> {
    Seq::new(p.len(), |j: int| s[p[j]])
}

/// Splitting the head off a reordered sequence: the head is the element
/// the permutation drew first, and the rest is a reordering — by the
/// returned permutation — of the source without that element.
pub proof fn lemma_reorder_split_first<T>(s: Seq<T>, p: Seq<int>) -> (p2: Seq<int>)
    requires
        is_permutation(p, s.len() as int),
        s.len() > 0,
    ensures
        is_permutation(p2, s.len() - 1),
        reorder(s, p)[0] == s[p[0]],
        reorder(s, p).drop_first() == reorder(s.remove(p[0]), p2),
{
    let p0 = p[0];
    let s2 = s.remove(p0);
    let p2 = Seq::new((p.len() - 1) as nat, |j: int| if p[j + 1] > p0 {
        p[j + 1] - 1
    } else {
        p[j + 1]
    });
    assert forall|j: int| 0 <= j < s2.len() implies 0 <= #[trigger] p2[j] < s2.len() by {
        assert(0 <= p[j + 1] < s.len());
        assert(p[0] != p[j + 1]);
    }
    assert forall|j1: int, j2: int| 0 <= j1 < j2 < s2.len() implies p2[j1] != p2[j2] by {
        assert(p[j1 + 1] != p[j2 + 1]);
        assert(p[0] != p[j1 + 1]);
        assert(p[0] != p[j2 + 1]);
    }
    assert(is_permutation(p2, s2.len() as int));
    assert forall|j: int| 0 <= j < p2.len() implies reorder(s, p).drop_first()[j] == reorder(
        s2,
        p2,
    )[j] by {
        assert(p[0] != p[j + 1]);
        if p[j + 1] > p0 {
            assert(s2[p[j + 1] - 1] == s[p[j + 1]]);
        } else {
            assert(s2[p[j + 1]] == s[p[j + 1]]);
        }
    }
    assert(reorder(s, p).drop_first() =~= reorder(s2, p2));
    p2
}

/// Merge order invariance: for strategies whose merge relation does not
/// depend on the order of the accumulators handed to it, permuting the
/// sequence of fan-out units before the composite's merge leaves the
/// relation between the composite's state before and after the merge
/// unchanged, so no strategy's final state changes.
pub proof fn lemma_merge_order_invariance<C: Collector>(
    pre: MultiCollector<C>,
    post: MultiCollector<C>,
    units: Seq<MultiCollectorChild<C::Child>>,
    p: Seq<int>,
)
    requires
        is_permutation(p, units.len() as int),
        forall|w: C, s: Seq<C::Child>, q: Seq<int>, w2: C|
            is_permutation(q, s.len() as int) ==> (#[trigger] C::merged(w, reorder(s, q), w2))
                == C::merged(w, s, w2),
    ensures
        <MultiCollector<C> as Collector>::merged(pre, reorder(units, p), post)
            == <MultiCollector<C> as Collector>::merged(pre, units, post),
{
    assert forall|i: int| 0 <= i < pre.collector_wrappers@.len() implies C::merged(
        pre.collector_wrappers@[i],
        slot_children(reorder(units, p), i),
        #[trigger] post.collector_wrappers@[i],
    ) == C::merged(
        pre.collector_wrappers@[i],
        slot_children(units, i),
        post.collector_wrappers@[i],
    ) by {
        let col = slot_children(units, i);
        assert(slot_children(reorder(units, p), i) =~= reorder(col, p));
        assert(is_permutation(p, col.len() as int));
        assert(C::merged(pre.collector_wrappers@[i], reorder(col, p), post.collector_wrappers@[i])
            == C::merged(pre.collector_wrappers@[i], col, post.collector_wrappers@[i]));
    }
}

} // verus!
