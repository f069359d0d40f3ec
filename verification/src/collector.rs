//! The capability contract between the scan executor, the collecting
//! strategies, and the composite collector.
//!
//! A strategy ([`Collector`]) is a two-phase algorithm: `for_segment` sets up
//! one per-segment accumulator ([`SegmentCollector`]) for every scanned
//! segment, and `merge_children` folds all accumulators ever produced back
//! into the strategy once scanning has completed.

use vstd::prelude::*;

verus! {

/// Identifier of a document within one segment.
pub type DocId = u32;

/// Relevance value attached to a matching document for the current query.
pub type Score = u64;

/// Index of a segment within the scanned index, assigned by the executor.
pub type SegmentLocalId = u32;

/// Read handle for one segment, passed through to each strategy's setup.
///
/// Segment layout is out of this crate's scope; the handle only carries the
/// number of documents the segment holds.
pub struct SegmentReader {
    pub max_doc: DocId,
}

impl SegmentReader {
    pub fn new(max_doc: DocId) -> (reader: SegmentReader)
        ensures
            reader.max_doc == max_doc,
    {
        SegmentReader { max_doc }
    }

    pub fn max_doc(&self) -> (d: DocId)
        ensures
            d == self.max_doc,
    {
        self.max_doc
    }
}

/// Error surfaced by a strategy's per-segment setup, identified by a code
/// chosen by the failing strategy.
#[derive(Clone, Copy, PartialEq, Eq, Structural, Debug)]
pub struct Error {
    pub code: u32,
}

/// Per-segment mutable state of one strategy, consuming `(doc, score)` match
/// events.
///
/// `events` is the abstract history of the events the accumulator has
/// consumed, in order; every implementation accounts for it, so that the
/// fan-out of the composite can be stated exactly. `origin` identifies the
/// setup the accumulator came from and never changes, so that provenance
/// survives the collect phase and can be checked at the merge.
pub trait SegmentCollector: Sized {
    /// Well-formedness of the accumulator's own state.
    spec fn inv(&self) -> bool;

    /// The match events this accumulator has consumed so far, in order.
    spec fn events(&self) -> Seq<(DocId, Score)>;

    /// Which setup this accumulator originated from; fixed for the
    /// accumulator's lifetime.
    spec fn origin(&self) -> int;

    /// Consume one match event.
    fn collect(&mut self, doc: DocId, score: Score)
        requires
            old(self).inv(),
            old(self).events().len() < usize::MAX,
        ensures
            final(self).inv(),
            final(self).events() == old(self).events().push((doc, score)),
            final(self).origin() == old(self).origin(),
    ;
}

/// One collecting strategy, as the composite consumes it.
pub trait Collector: Sized {
    /// The per-segment accumulator this strategy produces.
    type Child: SegmentCollector;

    /// Whether this strategy needs per-document scores.
    spec fn requires_scoring_spec(&self) -> bool;

    /// The identity this strategy's setup stamps on every accumulator it
    /// produces; `accepts` can use it to recognise its own.
    spec fn child_origin(&self) -> int;

    /// The failure this strategy's setup surfaces for the given segment, if
    /// any; `None` exactly when setup succeeds.
    spec fn setup_err(&self, segment_local_id: SegmentLocalId, segment: SegmentReader) -> Option<
        Error,
    >;

    /// Which sequences of accumulators this strategy's merge is prepared
    /// for.
    ///
    /// Handing a strategy an accumulator that did not originate from its own
    /// `for_segment` calls is a protocol violation, fatal under correct use;
    /// `accepts` is how a strategy rules such sequences out.
    spec fn accepts(&self, children: Seq<Self::Child>) -> bool;

    /// How a merged strategy state relates to the state before the merge and
    /// to the accumulators handed in.
    spec fn merged(pre: Self, children: Seq<Self::Child>, post: Self) -> bool;

    /// Set up one accumulator for the given segment, or fail with exactly
    /// the failure `setup_err` names; a failure aborts the segment's
    /// contribution. Setup only reads the strategy: a strategy is updated
    /// at merge time and never before.
    fn for_segment(&self, segment_local_id: SegmentLocalId, segment: &SegmentReader) -> (r: Result<
        Self::Child,
        Error,
    >)
        ensures
            r is Err <==> self.setup_err(segment_local_id, *segment) is Some,
            r matches Err(e) ==> Some(e) == self.setup_err(segment_local_id, *segment),
            r matches Ok(child) ==> child.inv() && child.events() == Seq::<(DocId, Score)>::empty()
                && child.origin() == self.child_origin(),
    ;

    /// Whether the executor must compute scores for this strategy.
    fn requires_scoring(&self) -> (b: bool)
        ensures
            b == self.requires_scoring_spec(),
    ;

    /// Fold every accumulator this strategy ever produced back into the
    /// strategy; runs exactly once, after all segments are processed.
    fn merge_children(&mut self, children: Vec<Self::Child>)
        requires
            old(self).accepts(children@),
            forall|i: int| 0 <= i < children@.len() ==> (#[trigger] children@[i]).inv(),
        ensures
            Self::merged(*old(self), children@, *final(self)),
    ;
}

} // verus!
