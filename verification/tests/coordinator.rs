use scroll_verifier::parallel::{Parallel, WORKERS};

#[test]
fn results_keep_input_order_when_completion_is_shuffled() {
    let mut run: Parallel<u64, String> = Parallel::new(6, WORKERS);
    let mut started = Vec::new();
    while let Some(i) = run.dispatch() {
        started.push(i);
    }
    assert_eq!(started, vec![0, 1, 2, 3]);
    run.complete(2, Ok(20));
    run.complete(0, Ok(0));
    assert_eq!(run.dispatch(), Some(4));
    assert_eq!(run.dispatch(), Some(5));
    assert_eq!(run.dispatch(), None);
    run.complete(5, Ok(50));
    run.complete(3, Ok(30));
    run.complete(1, Ok(10));
    assert!(!run.is_settled());
    run.complete(4, Ok(40));
    assert!(run.is_settled());
    assert_eq!(run.finish(), Ok(vec![0, 10, 20, 30, 40, 50]));
}

#[test]
fn never_more_than_the_capacity_run() {
    let mut run: Parallel<u8, String> = Parallel::new(10, 3);
    assert_eq!(run.total(), 10);
    assert_eq!(run.dispatch(), Some(0));
    assert_eq!(run.dispatch(), Some(1));
    assert_eq!(run.dispatch(), Some(2));
    assert_eq!(run.dispatch(), None);
    assert!(run.is_running(1));
    assert!(!run.is_running(3));
    assert!(!run.is_running(10));
    run.complete(1, Ok(1));
    assert!(!run.is_running(1));
    assert_eq!(run.dispatch(), Some(3));
    assert_eq!(run.dispatch(), None);
}

#[test]
fn first_failure_stops_dispatch_and_is_the_result() {
    let mut run: Parallel<u8, String> = Parallel::new(8, WORKERS);
    for i in 0..4 {
        assert_eq!(run.dispatch(), Some(i));
    }
    run.complete(0, Ok(0));
    run.complete(2, Err("third".to_string()));
    assert!(run.is_settled());
    assert_eq!(run.dispatch(), None);
    run.complete(1, Err("second".to_string()));
    run.complete(3, Ok(3));
    assert_eq!(run.dispatch(), None);
    assert_eq!(run.finish(), Err("third".to_string()));
}

#[test]
fn a_run_over_nothing_is_settled_at_once() {
    let mut run: Parallel<u8, String> = Parallel::new(0, WORKERS);
    assert_eq!(run.dispatch(), None);
    assert!(run.is_settled());
    assert_eq!(run.finish(), Ok(vec![]));
}

#[test]
fn every_completion_order_gives_the_same_list() {
    let orders: [[usize; 4]; 5] =
        [[0, 1, 2, 3], [3, 2, 1, 0], [1, 3, 0, 2], [2, 0, 3, 1], [3, 0, 1, 2]];
    for order in orders {
        let mut run: Parallel<String, String> = Parallel::new(4, WORKERS);
        while run.dispatch().is_some() {}
        for i in order {
            run.complete(i, Ok(format!("item {}", i)));
        }
        assert_eq!(
            run.finish(),
            Ok(vec![
                "item 0".to_string(),
                "item 1".to_string(),
                "item 2".to_string(),
                "item 3".to_string()
            ])
        );
    }
}

#[test]
fn a_revoked_run_hands_out_nothing_more() {
    let mut run: Parallel<u8, String> = Parallel::new(5, 2);
    assert!(run.is_alive());
    assert_eq!(run.dispatch(), Some(0));
    run.revoke();
    assert!(!run.is_alive());
    assert_eq!(run.dispatch(), None);
    assert!(run.is_running(0));
    run.complete(0, Ok(9));
    assert_eq!(run.dispatch(), None);
    assert!(!run.is_settled());
}
