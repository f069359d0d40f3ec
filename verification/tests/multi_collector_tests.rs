use multi_collector::collector_pair::CollectorPair;
use multi_collector::top_collector::TOP_LIMIT_ZERO;
use multi_collector::{
    CountCollector, Error, MultiCollector, MultiCollectorChild, SegmentReader, TopCollector,
};

type PairCollector = CollectorPair<TopCollector, CountCollector>;
type PairUnit = MultiCollectorChild<
    <PairCollector as multi_collector::Collector>::Child,
>;

fn top_count_composite(limit: usize) -> MultiCollector<PairCollector> {
    let mut multi: MultiCollector<PairCollector> = MultiCollector::new();
    multi.add_collector(CollectorPair::First(TopCollector::with_limit(limit)));
    multi.add_collector(CollectorPair::Second(CountCollector::default()));
    multi
}

fn top_of(multi: &MultiCollector<PairCollector>) -> &TopCollector {
    match &multi.collector_wrappers[0] {
        CollectorPair::First(top) => top,
        CollectorPair::Second(_) => panic!("slot 0 holds the ranking strategy"),
    }
}

fn count_of(multi: &MultiCollector<PairCollector>) -> &CountCollector {
    match &multi.collector_wrappers[1] {
        CollectorPair::First(_) => panic!("slot 1 holds the counting strategy"),
        CollectorPair::Second(count) => count,
    }
}

/// A scan of two segments, three matches in the first and two in the
/// second, feeding a top-2 ranker and a counter through one composite.
#[test]
fn test_multi_collector() {
    let mut multi = top_count_composite(2);

    let segment0 = SegmentReader::new(3);
    let mut unit0 = multi.for_segment(0, &segment0).unwrap();
    unit0.collect(0, 1);
    unit0.collect(1, 3);
    unit0.collect(2, 2);

    let segment1 = SegmentReader::new(3);
    let mut unit1 = multi.for_segment(1, &segment1).unwrap();
    unit1.collect(1, 4);
    unit1.collect(2, 1);

    multi.merge_children(vec![unit0, unit1]);

    assert_eq!(count_of(&multi).count(), 5);
}

/// Each fan-out unit holds one accumulator per registered strategy.
#[test]
fn fan_out_unit_has_one_slot_per_strategy() {
    let mut multi = top_count_composite(1);
    let segment = SegmentReader::new(1);
    let unit = multi.for_segment(0, &segment).unwrap();
    assert_eq!(unit.children.len(), 2);

    let mut empty: MultiCollector<PairCollector> = MultiCollector::new();
    let empty_unit = empty.for_segment(0, &segment).unwrap();
    assert_eq!(empty_unit.children.len(), 0);
}

/// Merging the same fan-out units in a different order leaves the counter's
/// and the ranker's final state unchanged.
#[test]
fn merge_order_does_not_change_results() {
    let segment = SegmentReader::new(4);

    let mut forward = top_count_composite(2);
    let mut f0 = forward.for_segment(0, &segment).unwrap();
    f0.collect(0, 10);
    f0.collect(1, 20);
    let mut f1 = forward.for_segment(1, &segment).unwrap();
    f1.collect(0, 30);
    forward.merge_children(vec![f0, f1]);

    let mut backward = top_count_composite(2);
    let mut b0 = backward.for_segment(0, &segment).unwrap();
    b0.collect(0, 10);
    b0.collect(1, 20);
    let mut b1 = backward.for_segment(1, &segment).unwrap();
    b1.collect(0, 30);
    backward.merge_children(vec![b1, b0]);

    assert_eq!(count_of(&forward).count(), count_of(&backward).count());
    assert_eq!(top_of(&forward).best_scores(), top_of(&backward).best_scores());
}

/// One collect call reaches every accumulator of the unit exactly once,
/// with unmodified arguments.
#[test]
fn collect_reaches_every_strategy_once() {
    let mut multi = top_count_composite(3);
    let segment = SegmentReader::new(1);
    let mut unit = multi.for_segment(0, &segment).unwrap();
    unit.collect(7, 42);
    multi.merge_children(vec![unit]);

    assert_eq!(count_of(&multi).count(), 1);
    assert_eq!(top_of(&multi).best_scores(), &vec![42]);
}

/// The composite needs scores if and only if one of its strategies does.
#[test]
fn requires_scoring_is_the_or_of_all_strategies() {
    let empty: MultiCollector<PairCollector> = MultiCollector::new();
    assert!(!empty.requires_scoring());

    let mut counts_only: MultiCollector<PairCollector> = MultiCollector::new();
    counts_only.add_collector(CollectorPair::Second(CountCollector::default()));
    counts_only.add_collector(CollectorPair::Second(CountCollector::default()));
    assert!(!counts_only.requires_scoring());

    let with_ranker = top_count_composite(1);
    assert!(with_ranker.requires_scoring());
}

/// With a succeeding strategy registered before a failing one, segment
/// setup surfaces the failing strategy's error and produces no fan-out
/// unit; the first strategy's accumulator is simply discarded.
#[test]
fn setup_failure_is_propagated_unchanged() {
    let mut multi: MultiCollector<CollectorPair<CountCollector, TopCollector>> =
        MultiCollector::new();
    multi.add_collector(CollectorPair::First(CountCollector::default()));
    multi.add_collector(CollectorPair::Second(TopCollector::with_limit(0)));

    let segment = SegmentReader::new(2);
    let result: Result<_, Error> = multi.for_segment(0, &segment);
    match result {
        Ok(_) => panic!("setup must fail when a strategy's setup fails"),
        Err(e) => assert_eq!(e, Error { code: TOP_LIMIT_ZERO }),
    }
}

/// Two segments with scores [2, 4] and [1, 6]: the counter ends at 4 and
/// the top-2 ranker at [6, 4], descending.
#[test]
fn count_and_top_two_over_two_segments() {
    let mut multi = top_count_composite(2);

    let segment0 = SegmentReader::new(2);
    let mut unit0 = multi.for_segment(0, &segment0).unwrap();
    unit0.collect(0, 2);
    unit0.collect(1, 4);

    let segment1 = SegmentReader::new(2);
    let mut unit1 = multi.for_segment(1, &segment1).unwrap();
    unit1.collect(0, 1);
    unit1.collect(1, 6);

    multi.merge_children(vec![unit0, unit1]);

    assert_eq!(count_of(&multi).count(), 4);
    assert_eq!(top_of(&multi).best_scores(), &vec![6, 4]);
}

/// Zero matching segments: the merge still runs once per strategy, over an
/// empty input, and every strategy ends in its freshly-constructed state.
#[test]
fn merging_no_segments_leaves_default_state() {
    let mut multi = top_count_composite(2);
    let no_units: Vec<PairUnit> = Vec::new();
    multi.merge_children(no_units);

    assert_eq!(count_of(&multi).count(), 0);
    assert_eq!(top_of(&multi).best_scores(), &Vec::new());
}

/// Ties are kept: with scores [5, 5, 1] the top two are [5, 5].
#[test]
fn equal_scores_both_ranked() {
    let mut multi = top_count_composite(2);
    let segment = SegmentReader::new(3);
    let mut unit = multi.for_segment(0, &segment).unwrap();
    unit.collect(0, 5);
    unit.collect(1, 5);
    unit.collect(2, 1);
    multi.merge_children(vec![unit]);

    assert_eq!(top_of(&multi).best_scores(), &vec![5, 5]);
    assert_eq!(count_of(&multi).count(), 3);
}

/// A ranker whose limit exceeds the number of matches returns all of them,
/// still in descending order.
#[test]
fn limit_larger_than_match_count() {
    let mut multi = top_count_composite(10);
    let segment = SegmentReader::new(3);
    let mut unit = multi.for_segment(0, &segment).unwrap();
    unit.collect(0, 3);
    unit.collect(1, 9);
    unit.collect(2, 6);
    multi.merge_children(vec![unit]);

    assert_eq!(top_of(&multi).best_scores(), &vec![9, 6, 3]);
}
