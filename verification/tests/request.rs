use streamelements_csv::paging::Fetch;
use streamelements_csv::request::{leaderboard_url, request_url, BASE_URL};
use streamelements_csv::target::Mode;

#[test]
fn base_url_is_the_service() {
    assert_eq!(BASE_URL, "https://api.streamelements.com/kappa/v2");
}

#[test]
fn alltime_leaderboard_url() {
    assert_eq!(
        leaderboard_url("5b2e2007760aeb7729487dab", Mode::Alltime),
        "https://api.streamelements.com/kappa/v2/points/5b2e2007760aeb7729487dab/alltime?limit=1000"
    );
}

#[test]
fn top_leaderboard_url() {
    assert_eq!(
        leaderboard_url("abc", Mode::Top),
        "https://api.streamelements.com/kappa/v2/points/abc/top?limit=1000"
    );
}

#[test]
fn channel_is_taken_as_it_is() {
    assert_eq!(
        leaderboard_url("", Mode::Top),
        "https://api.streamelements.com/kappa/v2/points//top?limit=1000"
    );
    assert_eq!(
        leaderboard_url("a b/ç", Mode::Alltime),
        "https://api.streamelements.com/kappa/v2/points/a b/ç/alltime?limit=1000"
    );
}

#[test]
fn first_request_has_no_offset_parameter() {
    let url = leaderboard_url("abc", Mode::Alltime);
    assert_eq!(request_url(&url, Fetch { offset: None }), url);
    assert!(!request_url(&url, Fetch { offset: None }).contains("offset"));
}

#[test]
fn later_request_appends_the_offset() {
    let url = leaderboard_url("abc", Mode::Alltime);
    assert_eq!(
        request_url(&url, Fetch { offset: Some(2000) }),
        "https://api.streamelements.com/kappa/v2/points/abc/alltime?limit=1000&offset=2000"
    );
    assert_eq!(request_url("x", Fetch { offset: Some(0) }), "x&offset=0");
    assert_eq!(request_url("", Fetch { offset: Some(3000) }), "&offset=3000");
}

#[test]
fn largest_offset_is_written_in_full() {
    assert_eq!(
        request_url("u", Fetch { offset: Some(18_446_744_073_709_552_000) }),
        "u&offset=18446744073709552000"
    );
}
