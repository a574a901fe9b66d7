use demo2::chart::{chart_plan, ChartPlan};

#[test]
fn small_series_and_tiny_budgets_are_drawn_whole() {
    assert_eq!(chart_plan(0, 10), ChartPlan::Nothing);
    assert_eq!(chart_plan(5, 0), ChartPlan::Nothing);
    assert_eq!(chart_plan(3, 10), ChartPlan::Every);
    assert_eq!(chart_plan(10, 10), ChartPlan::Every);
    assert_eq!(chart_plan(1000, 3), ChartPlan::Every);
}

#[test]
fn large_series_are_cut_into_buckets_within_the_budget() {
    let ChartPlan::Buckets(buckets) = chart_plan(1000, 100) else { panic!("expected buckets") };
    assert_eq!(buckets.len(), 48);
    assert_eq!(buckets[0], (1, 22));
    assert_eq!(buckets[47], (988, 999));
    assert!(buckets.windows(2).all(|w| w[0].1 == w[1].0));
    assert!(2 * buckets.len() + 2 <= 100);
    let ChartPlan::Buckets(buckets) = chart_plan(5, 4) else { panic!("expected buckets") };
    assert_eq!(buckets, vec![(1, 4)]);
}
