use streamelements_csv::data::{Alltime, User};
use streamelements_csv::error::ExportError;
use streamelements_csv::paging::{Fetch, PaginationDriver, Phase, PAGE_SIZE};

/// A full page whose users have the points `top`, `top - 1`, ... in
/// descending order.
fn descending_page(total: u64, len: u64, top: u64) -> Alltime {
    let users = (0..len).map(|i| User::new(format!("user{}", top - i), top - i)).collect();
    Alltime::new(total, users)
}

struct Outcome {
    offsets: Vec<Option<u128>>,
    rows: Vec<User>,
    error: Option<ExportError>,
}

/// Runs a driver against a service, as the owner of a driver does.
fn walk(cutoff: Option<u64>, service: &dyn Fn(Option<u128>) -> Alltime) -> Outcome {
    let mut driver = PaginationDriver::new(cutoff);
    let mut outcome = Outcome { offsets: Vec::new(), rows: Vec::new(), error: None };
    while let Some(fetch) = driver.request() {
        outcome.offsets.push(fetch.offset);
        assert!(outcome.offsets.len() < 100, "the walk does not end");
        match driver.accept(service(fetch.offset)) {
            Ok(mut rows) => outcome.rows.append(&mut rows),
            Err(e) => {
                outcome.error = Some(e);
                break;
            }
        }
    }
    assert_eq!(driver.request(), None);
    assert_eq!(driver.phase(), Phase::Done);
    outcome
}

#[test]
fn page_size_is_one_thousand() {
    assert_eq!(PAGE_SIZE, 1000);
}

#[test]
fn new_driver_asks_for_the_first_page_without_offset() {
    let driver = PaginationDriver::new(Some(5));
    assert_eq!(driver.cutoff(), Some(5));
    assert_eq!(driver.phase(), Phase::First);
    assert_eq!(driver.request(), Some(Fetch { offset: None }));
}

#[test]
fn request_does_not_advance_the_walk() {
    let driver = PaginationDriver::new(None);
    assert_eq!(driver.request(), driver.request());
    assert_eq!(driver.phase(), Phase::First);
}

#[test]
fn total_2500_without_cutoff_takes_three_fetches() {
    let service = |offset: Option<u128>| match offset {
        None => descending_page(2500, 1000, 5000),
        Some(2000) => descending_page(2500, 1000, 4000),
        Some(3000) => descending_page(2500, 500, 3000),
        other => panic!("unexpected offset {:?}", other),
    };
    let outcome = walk(None, &service);
    assert_eq!(outcome.offsets, vec![None, Some(2000), Some(3000)]);
    assert!(outcome.error.is_none());
    assert_eq!(outcome.rows.len(), 2500);
    let mut expected = descending_page(2500, 1000, 5000).into_users();
    expected.append(&mut descending_page(2500, 1000, 4000).into_users());
    expected.append(&mut descending_page(2500, 500, 3000).into_users());
    assert_eq!(outcome.rows, expected);
}

#[test]
fn total_1500_with_cutoff_stops_on_the_second_page() {
    // The first page ends on 600 points, above the cutoff of 500; the second
    // ends on 300, below it.
    let second = || {
        Alltime::new(
            1500,
            vec![
                User::new(String::from("p"), 599),
                User::new(String::from("q"), 501),
                User::new(String::from("r"), 500),
                User::new(String::from("s"), 300),
            ],
        )
    };
    let service = |offset: Option<u128>| match offset {
        None => descending_page(1500, 1000, 1599),
        Some(2000) => second(),
        other => panic!("unexpected offset {:?}", other),
    };
    let outcome = walk(Some(500), &service);
    assert_eq!(outcome.offsets, vec![None, Some(2000)]);
    assert!(outcome.error.is_none());
    let mut expected = descending_page(1500, 1000, 1599).into_users();
    assert_eq!(expected.last().map(|u| u.points), Some(600));
    expected.push(User::new(String::from("p"), 599));
    expected.push(User::new(String::from("q"), 501));
    assert_eq!(outcome.rows, expected);
}

#[test]
fn total_50_takes_one_fetch_without_offset() {
    let service = |offset: Option<u128>| match offset {
        None => descending_page(50, 50, 50),
        other => panic!("unexpected offset {:?}", other),
    };
    let outcome = walk(None, &service);
    assert_eq!(outcome.offsets, vec![None]);
    assert!(outcome.error.is_none());
    assert_eq!(outcome.rows, descending_page(50, 50, 50).into_users());
    assert_eq!(outcome.rows.len(), 50);
}

#[test]
fn total_50_takes_one_fetch_whatever_the_cutoff() {
    for cutoff in [None, Some(0), Some(1), Some(25), Some(50), Some(51), Some(u64::MAX)] {
        let service = |offset: Option<u128>| match offset {
            None => descending_page(50, 50, 50),
            other => panic!("unexpected offset {:?}", other),
        };
        let outcome = walk(cutoff, &service);
        assert_eq!(outcome.offsets, vec![None]);
        assert!(outcome.error.is_none());
    }
}

#[test]
fn empty_page_with_users_declared_is_an_error() {
    let service = |_: Option<u128>| Alltime::new(12, Vec::new());
    for cutoff in [None, Some(500)] {
        let outcome = walk(cutoff, &service);
        assert_eq!(outcome.offsets, vec![None]);
        assert!(matches!(outcome.error, Some(ExportError::EmptyPage)));
        assert!(outcome.rows.is_empty());
    }
}

#[test]
fn empty_later_page_is_an_error_and_keeps_what_was_written() {
    let service = |offset: Option<u128>| match offset {
        None => descending_page(3000, 1000, 9000),
        Some(2000) => Alltime::new(3000, Vec::new()),
        other => panic!("unexpected offset {:?}", other),
    };
    let outcome = walk(None, &service);
    assert_eq!(outcome.offsets, vec![None, Some(2000)]);
    assert!(matches!(outcome.error, Some(ExportError::EmptyPage)));
    assert_eq!(outcome.rows, descending_page(3000, 1000, 9000).into_users());
}

#[test]
fn empty_leaderboard_is_no_error() {
    let service = |offset: Option<u128>| match offset {
        None => Alltime::new(0, Vec::new()),
        other => panic!("unexpected offset {:?}", other),
    };
    for cutoff in [None, Some(500)] {
        let outcome = walk(cutoff, &service);
        assert_eq!(outcome.offsets, vec![None]);
        assert!(outcome.error.is_none());
        assert!(outcome.rows.is_empty());
    }
}

#[test]
fn empty_later_page_that_declares_nothing_is_no_error() {
    let service = |offset: Option<u128>| match offset {
        None => descending_page(1001, 1000, 9000),
        Some(2000) => Alltime::new(0, Vec::new()),
        other => panic!("unexpected offset {:?}", other),
    };
    let outcome = walk(Some(10), &service);
    assert_eq!(outcome.offsets, vec![None, Some(2000)]);
    assert!(outcome.error.is_none());
    assert_eq!(outcome.rows.len(), 1000);
}

#[test]
fn total_999_is_one_page() {
    let mut driver = PaginationDriver::new(None);
    let rows = driver.accept(descending_page(999, 999, 999)).unwrap();
    assert_eq!(rows.len(), 999);
    assert_eq!(driver.phase(), Phase::Done);
    assert_eq!(driver.request(), None);
}

#[test]
fn total_1000_is_one_page() {
    let mut driver = PaginationDriver::new(None);
    let rows = driver.accept(descending_page(1000, 1000, 1000)).unwrap();
    assert_eq!(rows.len(), 1000);
    assert_eq!(driver.phase(), Phase::Done);
    assert_eq!(driver.request(), None);
}

#[test]
fn total_1001_is_two_pages() {
    let mut driver = PaginationDriver::new(None);
    driver.accept(descending_page(1001, 1000, 2000)).unwrap();
    assert_eq!(driver.phase(), Phase::Next { index: 2, last: 2 });
    assert_eq!(driver.request(), Some(Fetch { offset: Some(2000) }));
    let rows = driver.accept(descending_page(1001, 1, 1000)).unwrap();
    assert_eq!(rows, vec![User::new(String::from("user1000"), 1000)]);
    assert_eq!(driver.phase(), Phase::Done);
}

#[test]
fn total_2000_is_two_pages_and_2001_three() {
    let mut driver = PaginationDriver::new(None);
    driver.accept(descending_page(2000, 1000, 5000)).unwrap();
    assert_eq!(driver.phase(), Phase::Next { index: 2, last: 2 });
    let mut driver = PaginationDriver::new(None);
    driver.accept(descending_page(2001, 1000, 5000)).unwrap();
    assert_eq!(driver.phase(), Phase::Next { index: 2, last: 3 });
}

#[test]
fn number_of_fetches_is_the_total_over_the_page_size_rounded_up() {
    for (total, fetches) in [(1000u64, 1usize), (1001, 2), (1999, 2), (2000, 2), (2001, 3), (10_000, 10), (10_001, 11)] {
        let service = |_: Option<u128>| descending_page(total, 1000, 50_000);
        let outcome = walk(Some(7), &service);
        assert_eq!(outcome.offsets.len(), fetches, "total {}", total);
        assert_eq!(outcome.offsets[0], None);
        for (k, offset) in outcome.offsets.iter().enumerate().skip(1) {
            assert_eq!(*offset, Some((k as u128 + 1) * 1000));
        }
        assert_eq!(outcome.rows.len(), fetches * 1000);
    }
}

#[test]
fn only_the_first_page_fixes_the_number_of_pages() {
    // Later pages declare other totals; the walk keeps to the first.
    let service = |offset: Option<u128>| match offset {
        None => descending_page(2500, 1000, 9000),
        Some(2000) => descending_page(999_999, 1000, 8000),
        Some(3000) => descending_page(1, 1000, 7000),
        other => panic!("unexpected offset {:?}", other),
    };
    let outcome = walk(None, &service);
    assert_eq!(outcome.offsets, vec![None, Some(2000), Some(3000)]);
    assert_eq!(outcome.rows.len(), 3000);
}

#[test]
fn single_descending_page_is_cut_to_the_users_above_the_cutoff() {
    let service = |offset: Option<u128>| match offset {
        None => descending_page(10, 10, 10),
        other => panic!("unexpected offset {:?}", other),
    };
    for cutoff in 0u64..12 {
        let outcome = walk(Some(cutoff), &service);
        assert_eq!(outcome.offsets, vec![None]);
        assert!(outcome.error.is_none());
        let page = descending_page(10, 10, 10).into_users();
        let above = page.iter().filter(|u| u.points > cutoff).count();
        assert_eq!(outcome.rows.as_slice(), &page[..above], "cutoff {}", cutoff);
    }
}

#[test]
fn cutoff_on_the_first_page_ends_the_walk_at_once() {
    let service = |offset: Option<u128>| match offset {
        None => descending_page(5000, 1000, 1200),
        other => panic!("unexpected offset {:?}", other),
    };
    let outcome = walk(Some(1000), &service);
    assert_eq!(outcome.offsets, vec![None]);
    assert!(outcome.error.is_none());
    assert_eq!(outcome.rows.len(), 200);
    assert_eq!(outcome.rows.first().map(|u| u.points), Some(1200));
    assert_eq!(outcome.rows.last().map(|u| u.points), Some(1001));
}

#[test]
fn page_that_ends_exactly_on_the_cutoff_ends_the_walk() {
    let service = |offset: Option<u128>| match offset {
        None => descending_page(1500, 1000, 1499),
        other => panic!("unexpected offset {:?}", other),
    };
    // The first page ends on 500 points, exactly the cutoff.
    let outcome = walk(Some(500), &service);
    assert_eq!(outcome.offsets, vec![None]);
    assert!(outcome.error.is_none());
    assert_eq!(outcome.rows.len(), 999);
    assert_eq!(outcome.rows.last().map(|u| u.points), Some(501));
}

#[test]
fn user_on_the_cutoff_is_not_written_and_the_one_above_is() {
    let service = |offset: Option<u128>| match offset {
        None => Alltime::new(
            2,
            vec![User::new(String::from("a"), 501), User::new(String::from("b"), 500)],
        ),
        other => panic!("unexpected offset {:?}", other),
    };
    let outcome = walk(Some(500), &service);
    assert_eq!(outcome.offsets, vec![None]);
    assert!(outcome.error.is_none());
    assert_eq!(outcome.rows, vec![User::new(String::from("a"), 501)]);
}

#[test]
fn page_that_ends_one_above_the_cutoff_goes_on_whole() {
    let service = |offset: Option<u128>| match offset {
        None => descending_page(1500, 1000, 1500),
        Some(2000) => descending_page(1500, 500, 500),
        other => panic!("unexpected offset {:?}", other),
    };
    // The first page ends on 501 points, one above the cutoff.
    let outcome = walk(Some(500), &service);
    assert_eq!(outcome.offsets, vec![None, Some(2000)]);
    assert_eq!(outcome.rows.len(), 1000);
    assert_eq!(outcome.rows.last().map(|u| u.points), Some(501));
}

#[test]
fn page_after_the_walk_is_ignored() {
    let mut driver = PaginationDriver::new(Some(3));
    driver.accept(descending_page(10, 10, 10)).unwrap();
    assert_eq!(driver.phase(), Phase::Done);
    let rows = driver.accept(descending_page(10, 10, 10)).unwrap();
    assert!(rows.is_empty());
    let rows = driver.accept(Alltime::new(10, Vec::new())).unwrap();
    assert!(rows.is_empty());
    assert_eq!(driver.phase(), Phase::Done);
}

#[test]
fn walk_is_over_after_an_error() {
    let mut driver = PaginationDriver::new(None);
    assert!(matches!(driver.accept(Alltime::new(5000, Vec::new())), Err(ExportError::EmptyPage)));
    assert_eq!(driver.phase(), Phase::Done);
    assert_eq!(driver.request(), None);
}

#[test]
fn largest_total_does_not_overflow() {
    let mut driver = PaginationDriver::new(None);
    driver.accept(descending_page(u64::MAX, 1000, 5000)).unwrap();
    assert_eq!(driver.phase(), Phase::Next { index: 2, last: 18_446_744_073_709_552 });
    assert_eq!(driver.request(), Some(Fetch { offset: Some(2000) }));
}

#[test]
fn same_service_gives_the_same_walk_twice() {
    let service = |offset: Option<u128>| match offset {
        None => descending_page(2200, 1000, 4000),
        Some(2000) => descending_page(2200, 1000, 3000),
        Some(3000) => descending_page(2200, 200, 2000),
        other => panic!("unexpected offset {:?}", other),
    };
    let first = walk(Some(1900), &service);
    let second = walk(Some(1900), &service);
    assert_eq!(first.offsets, second.offsets);
    assert_eq!(first.rows, second.rows);
    assert_eq!(first.rows.len(), 2100);
}

#[test]
fn empty_page_error_says_what_happened() {
    let mut driver = PaginationDriver::new(Some(1));
    match driver.accept(Alltime::new(1, Vec::new())) {
        Err(e) => assert_eq!(e.message(), "No users were returned from the api"),
        Ok(rows) => panic!("expected an error, got {:?}", rows),
    }
}
