//! A strategy that ranks the highest scores of the pass.

use vstd::prelude::*;

use crate::collector::{Collector, DocId, Error, Score, SegmentCollector, SegmentLocalId,
    SegmentReader};
use crate::multi_collector::{is_permutation, lemma_reorder_split_first, reorder};

verus! {

/// The error a [`TopCollector`] surfaces when its per-segment setup runs
/// with a limit of zero.
pub const TOP_LIMIT_ZERO: u32 = 1;

/// Keeps the `limit` highest scores seen over the whole pass, in descending
/// order.
///
/// A limit of zero is refused at segment setup: asking for the top zero
/// results of a scan is a configuration mistake, and surfacing it there lets
/// the composite abort the pass before any document is scanned.
pub struct TopCollector {
    pub limit: usize,
    pub best: Vec<Score>,
}

/// Per-segment accumulator of [`TopCollector`]: remembers every match event
/// of one segment.
pub struct TopSegmentCollector {
    pub hits: Vec<(DocId, Score)>,
}

/// `x` slotted into its place in a sequence that is sorted in descending
/// order.
pub open spec fn insert_desc(x: Score, s: Seq<Score>) -> Seq<Score>
    decreases s.len(),
{
    if s.len() == 0 {
        seq![x]
    } else if x >= s[0] {
        seq![x] + s
    } else {
        seq![s[0]] + insert_desc(x, s.drop_first())
    }
}

/// The sequence `s` sorted in descending order, by insertion.
pub open spec fn sort_desc(s: Seq<Score>) -> Seq<Score>
    decreases s.len(),
{
    if s.len() == 0 {
        Seq::empty()
    } else {
        insert_desc(s[0], sort_desc(s.drop_first()))
    }
}

/// The `k` highest elements of `s`, highest first; all of them when `s` has
/// fewer than `k`.
pub open spec fn top_of(s: Seq<Score>, k: int) -> Seq<Score> {
    if sort_desc(s).len() <= k {
        sort_desc(s)
    } else {
        sort_desc(s).take(k)
    }
}

/// Whether `s` is ordered highest first.
pub open spec fn sorted_desc(s: Seq<Score>) -> bool {
    forall|i: int, j: int| 0 <= i <= j < s.len() ==> s[i] >= s[j]
}

/// Slotting a score into a descending sequence keeps it descending and
/// adds exactly that score.
pub proof fn lemma_insert_desc_sorted(x: Score, s: Seq<Score>)
    requires
        sorted_desc(s),
    ensures
        sorted_desc(insert_desc(x, s)),
        insert_desc(x, s).len() == s.len() + 1,
        insert_desc(x, s).to_multiset() == s.to_multiset().insert(x),
    decreases s.len(),
{
    broadcast use vstd::seq_lib::group_to_multiset_ensures;
    broadcast use vstd::seq_lib::lemma_multiset_commutative;

    if s.len() == 0 {
        assert(seq![x] =~= Seq::<Score>::empty().push(x));
        assert(seq![x].to_multiset() =~= s.to_multiset().insert(x));
    } else if x >= s[0] {
        assert(forall|i: int| 0 <= i < s.len() ==> (seq![x] + s)[i + 1] == s[i]);
        assert(seq![x] + s =~= s.insert(0, x));
        assert(s.insert(0, x).to_multiset() =~= s.to_multiset().insert(x));
    } else {
        lemma_insert_desc_sorted(x, s.drop_first());
        let tail = insert_desc(x, s.drop_first());
        assert(forall|i: int| 0 <= i < tail.len() ==> (seq![s[0]] + tail)[i + 1] == tail[i]);
        assert forall|i: int| 0 <= i < tail.len() implies s[0] >= tail[i] by {
            assert(tail.to_multiset().count(tail[i]) > 0);
            assert(tail.contains(tail[i]));
            assert(s.drop_first().to_multiset().insert(x).count(tail[i]) > 0);
            if s.drop_first().to_multiset().count(tail[i]) > 0 {
                assert(s.drop_first().contains(tail[i]));
                let w = choose|w: int| 0 <= w < s.drop_first().len() && s.drop_first()[w]
                    == tail[i];
                assert(s[w + 1] == tail[i]);
            } else {
                assert(tail[i] == x);
            }
        }
        assert(seq![s[0]] + tail =~= tail.insert(0, s[0]));
        assert(tail.insert(0, s[0]).to_multiset() =~= tail.to_multiset().insert(s[0]));
        assert(s =~= s.drop_first().insert(0, s[0]));
        assert(s.to_multiset() =~= s.drop_first().to_multiset().insert(s[0]));
        assert(insert_desc(x, s).to_multiset() =~= s.to_multiset().insert(x));
    }
}

/// `sort_desc` returns the same scores, ordered highest first.
pub proof fn lemma_sort_desc_sorted(s: Seq<Score>)
    ensures
        sorted_desc(sort_desc(s)),
        sort_desc(s).len() == s.len(),
        sort_desc(s).to_multiset() == s.to_multiset(),
    decreases s.len(),
{
    broadcast use vstd::seq_lib::group_to_multiset_ensures;

    if s.len() == 0 {
    } else {
        lemma_sort_desc_sorted(s.drop_first());
        lemma_insert_desc_sorted(s[0], sort_desc(s.drop_first()));
        assert(s =~= s.drop_first().insert(0, s[0]));
        assert(s.to_multiset() =~= s.drop_first().to_multiset().insert(s[0]));
    }
}

/// The scores of one segment's match events, in event order.
pub open spec fn scores_of(events: Seq<(DocId, Score)>) -> Seq<Score> {
    events.map(|i: int, e: (DocId, Score)| e.1)
}

/// All scores the given accumulators have seen, segment by segment.
pub open spec fn all_scores(children: Seq<TopSegmentCollector>) -> Seq<Score>
    decreases children.len(),
{
    if children.len() == 0 {
        Seq::empty()
    } else {
        scores_of(children[0].hits@) + all_scores(children.drop_first())
    }
}

impl TopCollector {
    /// A ranker that will keep the `limit` highest scores.
    pub fn with_limit(limit: usize) -> (r: TopCollector)
        ensures
            r.limit == limit,
            r.best@ == Seq::<Score>::empty(),
    {
        TopCollector { limit, best: Vec::new() }
    }

    /// The highest scores seen so far, in descending order.
    pub fn best_scores(&self) -> (scores: &Vec<Score>)
        ensures
            scores@ == self.best@,
    {
        &self.best
    }
}

impl SegmentCollector for TopSegmentCollector {
    open spec fn inv(&self) -> bool {
        true
    }

    open spec fn events(&self) -> Seq<(DocId, Score)> {
        self.hits@
    }

    open spec fn origin(&self) -> int {
        0
    }

    fn collect(&mut self, doc: DocId, score: Score) {
        self.hits.push((doc, score));
    }
}

fn insert_desc_exec(x: Score, v: Vec<Score>) -> (r: Vec<Score>)
    ensures
        r@ == insert_desc(x, v@),
    decreases v@.len(),
{
    let ghost v0 = v@;
    let mut v = v;
    if v.len() == 0 {
        v.push(x);
        proof {
            assert(v@ =~= seq![x]);
        }
        v
    } else if x >= v[0] {
        v.insert(0, x);
        proof {
            assert(v@ =~= seq![x] + v0);
        }
        v
    } else {
        let head = v.remove(0);
        proof {
            assert(v@ =~= v0.drop_first());
        }
        let mut r = insert_desc_exec(x, v);
        r.insert(0, head);
        proof {
            assert(r@ =~= seq![v0[0]] + insert_desc(x, v0.drop_first()));
        }
        r
    }
}

fn sort_desc_exec(v: Vec<Score>) -> (r: Vec<Score>)
    ensures
        r@ == sort_desc(v@),
    decreases v@.len(),
{
    let ghost v0 = v@;
    let mut v = v;
    if v.len() == 0 {
        v
    } else {
        let head = v.remove(0);
        proof {
            assert(v@ =~= v0.drop_first());
        }
        let sorted_rest = sort_desc_exec(v);
        insert_desc_exec(head, sorted_rest)
    }
}

impl Collector for TopCollector {
    type Child = TopSegmentCollector;

    /// Ranking needs per-document scores.
    open spec fn requires_scoring_spec(&self) -> bool {
        true
    }

    open spec fn child_origin(&self) -> int {
        0
    }

    /// Setup succeeds exactly when the limit is positive; a limit of zero
    /// is surfaced as [`TOP_LIMIT_ZERO`].
    open spec fn setup_err(&self, segment_local_id: SegmentLocalId, segment: SegmentReader) -> Option<
        Error,
    > {
        if self.limit == 0 {
            Some(Error { code: TOP_LIMIT_ZERO })
        } else {
            None
        }
    }

    /// A ranker can merge any sequence of its accumulators.
    open spec fn accepts(&self, children: Seq<TopSegmentCollector>) -> bool {
        true
    }

    /// After the merge, `best` holds the `limit` highest scores of all
    /// segments, highest first; scores held before the merge are discarded.
    open spec fn merged(
        pre: TopCollector,
        children: Seq<TopSegmentCollector>,
        post: TopCollector,
    ) -> bool {
        &&& post.limit == pre.limit
        &&& post.best@ == top_of(all_scores(children), pre.limit as int)
    }

    fn for_segment(&self, segment_local_id: SegmentLocalId, segment: &SegmentReader) -> (r:
        Result<TopSegmentCollector, Error>) {
        if self.limit == 0 {
            Err(Error { code: TOP_LIMIT_ZERO })
        } else {
            Ok(TopSegmentCollector { hits: Vec::new() })
        }
    }

    fn requires_scoring(&self) -> (b: bool) {
        true
    }

    fn merge_children(&mut self, children: Vec<TopSegmentCollector>) {
        let mut scores: Vec<Score> = Vec::new();
        let mut j: usize = 0;
        while j < children.len()
            invariant
                0 <= j <= children@.len(),
                scores@ == all_scores(children@.take(j as int)),
            decreases children@.len() - j,
        {
            let hits = &children[j].hits;
            let mut t: usize = 0;
            while t < hits.len()
                invariant
                    0 <= t <= hits@.len(),
                    hits@ == children@[j as int].hits@,
                    0 <= j < children@.len(),
                    scores@ == all_scores(children@.take(j as int)) + scores_of(
                        hits@.take(t as int),
                    ),
                decreases hits@.len() - t,
            {
                scores.push(hits[t].1);
                proof {
                    assert(scores_of(hits@.take(t as int + 1)) =~= scores_of(
                        hits@.take(t as int),
                    ).push(hits@[t as int].1));
                    assert(scores@ =~= all_scores(children@.take(j as int)) + scores_of(
                        hits@.take(t as int + 1),
                    ));
                }
                t = t + 1;
            }
            j = j + 1;
            proof {
                lemma_all_scores_take_step(children@, j as int);
                assert(hits@.take(hits@.len() as int) =~= hits@);
                assert(scores@ =~= all_scores(children@.take(j as int)));
            }
        }
        proof {
            assert(children@.take(children@.len() as int) =~= children@);
        }
        let mut sorted = sort_desc_exec(scores);
        if sorted.len() > self.limit {
            sorted.truncate(self.limit);
        }
        self.best = sorted;
    }
}

/// Two descending sequences holding the same scores are the same sequence.
proof fn lemma_sorted_desc_unique(s1: Seq<Score>, s2: Seq<Score>)
    requires
        sorted_desc(s1),
        sorted_desc(s2),
        s1.to_multiset() == s2.to_multiset(),
    ensures
        s1 == s2,
    decreases s1.len(),
{
    broadcast use vstd::seq_lib::group_to_multiset_ensures;

    if s1.len() == 0 {
        assert(s2.len() == s2.to_multiset().len());
        assert(s1 =~= s2);
    } else {
        assert(s1.len() == s1.to_multiset().len());
        assert(s2.len() == s2.to_multiset().len());
        assert(s2.contains(s2[0]));
        assert(s1.to_multiset().count(s2[0]) > 0);
        assert(s1.contains(s2[0]));
        let i = choose|i: int| 0 <= i < s1.len() && s1[i] == s2[0];
        assert(s1[0] >= s1[i]);
        assert(s1.contains(s1[0]));
        assert(s2.to_multiset().count(s1[0]) > 0);
        assert(s2.contains(s1[0]));
        let j = choose|j: int| 0 <= j < s2.len() && s2[j] == s1[0];
        assert(s2[0] >= s2[j]);
        assert(s1[0] == s2[0]);
        assert(s1.remove(0).to_multiset() =~= s1.to_multiset().remove(s1[0]));
        assert(s2.remove(0).to_multiset() =~= s2.to_multiset().remove(s2[0]));
        assert(s1.remove(0) =~= s1.drop_first());
        assert(s2.remove(0) =~= s2.drop_first());
        lemma_sorted_desc_unique(s1.drop_first(), s2.drop_first());
        assert forall|k: int| 0 <= k < s1.len() implies s1[k] == s2[k] by {
            if k > 0 {
                assert(s1.drop_first()[k - 1] == s2.drop_first()[k - 1]);
            }
        }
        assert(s1 =~= s2);
    }
}

/// Sequences holding the same scores sort to the same descending sequence.
pub proof fn lemma_sort_desc_of_multiset(s1: Seq<Score>, s2: Seq<Score>)
    requires
        s1.to_multiset() == s2.to_multiset(),
    ensures
        sort_desc(s1) == sort_desc(s2),
{
    broadcast use vstd::seq_lib::group_to_multiset_ensures;

    lemma_sort_desc_sorted(s1);
    lemma_sort_desc_sorted(s2);
    lemma_sorted_desc_unique(sort_desc(s1), sort_desc(s2));
}

/// Removing one accumulator takes exactly its scores out of the pool.
proof fn lemma_all_scores_remove(s: Seq<TopSegmentCollector>, i: int)
    requires
        0 <= i < s.len(),
    ensures
        all_scores(s.remove(i)).to_multiset().add(scores_of(s[i].hits@).to_multiset())
            == all_scores(s).to_multiset(),
    decreases i,
{
    broadcast use vstd::seq_lib::lemma_multiset_commutative;

    if i == 0 {
        assert(s.remove(0) =~= s.drop_first());
        assert(all_scores(s) == scores_of(s[0].hits@) + all_scores(s.drop_first()));
        assert(all_scores(s).to_multiset() =~= all_scores(s.drop_first()).to_multiset().add(
            scores_of(s[0].hits@).to_multiset(),
        ));
    } else {
        lemma_all_scores_remove(s.drop_first(), i - 1);
        assert(s.remove(i).drop_first() =~= s.drop_first().remove(i - 1));
        assert(s.remove(i)[0] == s[0]);
        assert(s.drop_first()[i - 1] == s[i]);
        assert(all_scores(s.remove(i)) == scores_of(s[0].hits@) + all_scores(
            s.remove(i).drop_first(),
        ));
        assert(all_scores(s) == scores_of(s[0].hits@) + all_scores(s.drop_first()));
        assert(all_scores(s.remove(i)).to_multiset().add(scores_of(s[i].hits@).to_multiset())
            =~= all_scores(s).to_multiset());
    }
}

/// The pool of scores gathered from the accumulators does not depend on
/// their order.
pub proof fn lemma_all_scores_reorder(s: Seq<TopSegmentCollector>, p: Seq<int>)
    requires
        is_permutation(p, s.len() as int),
    ensures
        all_scores(reorder(s, p)).to_multiset() == all_scores(s).to_multiset(),
    decreases s.len(),
{
    broadcast use vstd::seq_lib::lemma_multiset_commutative;

    if s.len() == 0 {
        assert(reorder(s, p) =~= Seq::<TopSegmentCollector>::empty());
    } else {
        let p0 = p[0];
        let p2 = lemma_reorder_split_first(s, p);
        lemma_all_scores_reorder(s.remove(p0), p2);
        lemma_all_scores_remove(s, p0);
        assert(all_scores(reorder(s, p)) == scores_of(s[p0].hits@) + all_scores(
            reorder(s, p).drop_first(),
        ));
        assert(all_scores(reorder(s, p)).to_multiset() =~= all_scores(s).to_multiset());
    }
}

/// A ranker's merge relation is insensitive to the order in which its
/// per-segment accumulators are handed to it.
pub proof fn lemma_top_merge_order_insensitive(
    w: TopCollector,
    s: Seq<TopSegmentCollector>,
    q: Seq<int>,
    w2: TopCollector,
)
    requires
        is_permutation(q, s.len() as int),
    ensures
        TopCollector::merged(w, reorder(s, q), w2) == TopCollector::merged(w, s, w2),
{
    lemma_all_scores_reorder(s, q);
    lemma_sort_desc_of_multiset(all_scores(reorder(s, q)), all_scores(s));
}

/// Extending a prefix of accumulators by one appends that accumulator's
/// scores.
proof fn lemma_all_scores_take_step(children: Seq<TopSegmentCollector>, j: int)
    requires
        0 < j <= children.len(),
    ensures
        all_scores(children.take(j)) == all_scores(children.take(j - 1)) + scores_of(
            children[j - 1].hits@,
        ),
    decreases j,
{
    lemma_all_scores_append_one(children.take(j));
    assert(children.take(j).drop_last() =~= children.take(j - 1));
    assert(children.take(j).last() == children[j - 1]);
}

/// Splitting off the last accumulator splits off its scores.
proof fn lemma_all_scores_append_one(children: Seq<TopSegmentCollector>)
    requires
        children.len() > 0,
    ensures
        all_scores(children) == all_scores(children.drop_last()) + scores_of(
            children.last().hits@,
        ),
    decreases children.len(),
{
    if children.len() == 1 {
        assert(children.drop_last() =~= Seq::<TopSegmentCollector>::empty());
        assert(children.drop_first() =~= Seq::<TopSegmentCollector>::empty());
        assert(all_scores(children) =~= all_scores(children.drop_last()) + scores_of(
            children.last().hits@,
        ));
    } else {
        lemma_all_scores_append_one(children.drop_first());
        assert(children.drop_first().drop_last() =~= children.drop_last().drop_first());
        assert(children.drop_first().last() == children.last());
        assert(children.drop_last()[0] == children[0]);
        assert(all_scores(children) =~= all_scores(children.drop_last()) + scores_of(
            children.last().hits@,
        ));
    }
}

} // verus!
