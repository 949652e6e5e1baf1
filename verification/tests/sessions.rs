use grace::session::Session;

fn s(start_ms: i64, end_ms: i64) -> Session {
    Session { start_ms, end_ms }
}

#[test]
fn no_records_give_one_empty_session() {
    assert_eq!(Session::calculate_sessions(&[]), vec![s(0, 0)]);
}

#[test]
fn one_record_gives_a_session_ending_at_zero() {
    assert_eq!(Session::calculate_sessions(&[5000]), vec![s(5000, 0)]);
}

#[test]
fn close_records_form_one_session_ending_at_the_second_to_last() {
    assert_eq!(Session::calculate_sessions(&[1000, 2000, 3000]), vec![s(1000, 2000)]);
}

#[test]
fn a_gap_of_exactly_three_seconds_does_not_split() {
    assert_eq!(Session::calculate_sessions(&[1000, 4000, 5000]), vec![s(1000, 4000)]);
}

#[test]
fn a_gap_longer_than_three_seconds_splits() {
    assert_eq!(
        Session::calculate_sessions(&[1000, 2000, 10000, 11000, 12000]),
        vec![s(1000, 2000), s(10000, 11000)]
    );
}

#[test]
fn a_last_record_after_a_gap_starts_a_session_that_ends_before_it() {
    assert_eq!(
        Session::calculate_sessions(&[1000, 2000, 9000]),
        vec![s(1000, 2000), s(9000, 2000)]
    );
}

#[test]
fn one_session_more_than_gaps() {
    let records = [100, 200, 5000, 5100, 9000, 20000, 20500, 21000];
    let gaps = records.windows(2).filter(|w| w[1] - w[0] > 3000).count();
    let sessions = Session::calculate_sessions(&records);
    assert_eq!(sessions.len(), gaps + 1);
    for pair in sessions.windows(2) {
        assert!(pair[1].start_ms - pair[0].end_ms > 3000);
    }
    for closed in &sessions[..sessions.len() - 1] {
        assert!(closed.start_ms <= closed.end_ms);
    }
}

#[test]
fn duration_is_end_minus_start() {
    assert_eq!(s(1000, 4500).duration_ms(), 3500);
    assert_eq!(s(9000, 2000).duration_ms(), -7000);
}

#[test]
fn samples_concatenate_the_rows_within_the_session() {
    let rows = vec![
        (999, vec![1u8]),
        (1000, vec![2u8, 3]),
        (1500, vec![4u8]),
        (2000, vec![5u8, 6]),
        (2001, vec![7u8]),
    ];
    assert_eq!(s(1000, 2000).samples(&rows), vec![2, 3, 4, 5, 6]);
    assert_eq!(s(3000, 4000).samples(&rows), Vec::<u8>::new());
}

#[test]
fn a_nested_session_has_a_contiguous_piece_of_the_audio() {
    let rows = vec![
        (100, vec![1u8]),
        (200, vec![2u8, 3]),
        (300, vec![4u8]),
        (400, vec![5u8]),
        (500, vec![6u8]),
    ];
    let outer = s(150, 450).samples(&rows);
    let inner = s(250, 400).samples(&rows);
    assert_eq!(outer, vec![2, 3, 4, 5]);
    assert_eq!(inner, vec![4, 5]);
    assert!(outer.windows(inner.len()).any(|w| w == inner.as_slice()));
}
