use blog_backend::timeline::timeline_order;

#[test]
fn entries_come_by_date_earlier_first() {
    assert_eq!(timeline_order(&vec![30, 10, 20]), vec![1, 2, 0]);
}

#[test]
fn same_day_keeps_its_order() {
    assert_eq!(timeline_order(&vec![5, 3, 5, 3, 5]), vec![1, 3, 0, 2, 4]);
}

#[test]
fn empty_and_single_timelines() {
    assert_eq!(timeline_order(&vec![]), Vec::<usize>::new());
    assert_eq!(timeline_order(&vec![-7]), vec![0]);
}
