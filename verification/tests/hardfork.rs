use scroll_verifier::hardfork::{Hardfork, HardforkConfig};

fn table() -> HardforkConfig {
    HardforkConfig::new(vec![
        Hardfork { block: 100, time: 0, version: 1 },
        Hardfork { block: 200, time: 0, version: 2 },
        Hardfork { block: 200, time: 5000, version: 3 },
        Hardfork { block: 200, time: 9000, version: 4 },
    ])
}

#[test]
fn version_is_zero_before_the_first_fork() {
    assert_eq!(table().batch_version(0, 0), 0);
    assert_eq!(table().batch_version(99, 10_000), 0);
    assert_eq!(HardforkConfig::new(vec![]).batch_version(5, 5), 0);
}

#[test]
fn version_is_that_of_the_last_active_fork() {
    let t = table();
    assert_eq!(t.batch_version(100, 0), 1);
    assert_eq!(t.batch_version(199, 9999), 1);
    assert_eq!(t.batch_version(200, 0), 2);
    assert_eq!(t.batch_version(200, 4999), 2);
    assert_eq!(t.batch_version(200, 5000), 3);
    assert_eq!(t.batch_version(u64::MAX, 8999), 3);
    assert_eq!(t.batch_version(200, 9000), 4);
    assert_eq!(t.batch_version(u64::MAX, u64::MAX), 4);
}

#[test]
fn version_is_a_function_of_number_and_time() {
    let t = table();
    for (number, time) in [(0u64, 0u64), (150, 7000), (200, 5000), (300, 9001)] {
        assert_eq!(t.batch_version(number, time), t.batch_version(number, time));
        assert_eq!(t.batch_version(number, time), table().batch_version(number, time));
    }
}

#[test]
fn a_later_entry_wins_over_an_earlier_one() {
    let t = HardforkConfig::new(vec![
        Hardfork { block: 10, time: 0, version: 3 },
        Hardfork { block: 5, time: 0, version: 1 },
    ]);
    assert_eq!(t.batch_version(7, 0), 1);
    assert_eq!(t.batch_version(10, 0), 1);
    assert_eq!(t.batch_version(4, 0), 0);
}
