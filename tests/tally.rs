use vote_tally::tally::{classify, Tally, Verdict, Vote};

#[test]
fn classify_yes_no_and_stop() {
    assert_eq!(classify("1"), Vote::Yes);
    assert_eq!(classify(" 1\n"), Vote::Yes);
    assert_eq!(classify("+1"), Vote::Yes);
    assert_eq!(classify("01"), Vote::Yes);
    assert_eq!(classify("0"), Vote::No);
    assert_eq!(classify("-0\r\n"), Vote::No);
    assert_eq!(classify("2"), Vote::Stop);
    assert_eq!(classify("-1"), Vote::Stop);
    assert_eq!(classify("stop"), Vote::Stop);
    assert_eq!(classify(""), Vote::Stop);
    assert_eq!(classify("99999999999999999999"), Vote::Stop);
}

#[test]
fn feed_counts_and_reports_whether_voting_goes_on() {
    let mut t = Tally::new();
    assert!(t.feed("1"));
    assert!(t.feed("0"));
    assert!(t.feed("1"));
    assert_eq!(t, Tally { yes: 2, no: 1 });
    assert!(!t.feed("5"));
    assert_eq!(t, Tally { yes: 2, no: 1 });
    assert!(!t.feed("no"));
    assert_eq!(t, Tally { yes: 2, no: 1 });
}

#[test]
fn record_adds_one_to_the_right_count() {
    let mut t = Tally::new();
    t.record(Vote::No);
    t.record(Vote::Stop);
    t.record(Vote::No);
    t.record(Vote::Yes);
    assert_eq!(t, Tally { yes: 1, no: 2 });
}

#[test]
fn verdict_from_counts() {
    assert_eq!(Tally { yes: 2, no: 1 }.verdict(), Verdict::Selected);
    assert_eq!(Tally { yes: 1, no: 1 }.verdict(), Verdict::EqualVoting);
    assert_eq!(Tally { yes: 0, no: 0 }.verdict(), Verdict::EqualVoting);
    assert_eq!(Tally { yes: 0, no: 3 }.verdict(), Verdict::NotSelected);
}

#[test]
fn verdict_phrases() {
    assert_eq!(Verdict::Selected.phrase(), "is selected");
    assert_eq!(Verdict::NotSelected.phrase(), "is not selected");
    assert_eq!(Verdict::EqualVoting.phrase(), "has equal voting");
}

#[test]
fn room_for_another_vote() {
    assert!(Tally::new().has_room());
    assert!(Tally { yes: u64::MAX - 1, no: 0 }.has_room());
    assert!(!Tally { yes: u64::MAX - 1, no: 1 }.has_room());
    assert!(!Tally { yes: 0, no: u64::MAX }.has_room());
}
