use target_core::config::FragmentSettings;
use target_core::outbound::fragment::{next_piece, FragmentOutbound, Piece, Upload};

fn settings(packets: &str, length: &str, interval: u64) -> FragmentSettings {
    FragmentSettings { packets: packets.to_string(), length: length.to_string(), interval }
}

#[test]
fn ranges_are_two_numbers_with_a_hyphen() {
    assert_eq!(FragmentOutbound::parse_range("1-5", 7, 8), (1, 5));
    assert_eq!(FragmentOutbound::parse_range(" 100 -\t200 ", 7, 8), (100, 200));
    assert_eq!(FragmentOutbound::parse_range("\u{a0}3-4\u{2003}", 7, 8), (3, 4));
    assert_eq!(FragmentOutbound::parse_range("x-5", 7, 8), (7, 5));
    assert_eq!(FragmentOutbound::parse_range("5-", 7, 8), (5, 8));
    assert_eq!(FragmentOutbound::parse_range("5", 7, 8), (7, 8));
    assert_eq!(FragmentOutbound::parse_range("1-2-3", 7, 8), (7, 8));
    assert_eq!(FragmentOutbound::parse_range("", 7, 8), (7, 8));
    assert_eq!(FragmentOutbound::parse_range("+1-99999999999999999999999", 7, 8), (1, 8));
}

#[test]
fn pieces_are_no_larger_than_what_is_left() {
    let piece = |start, end, pause| Some(Piece { start, end, pause });
    assert_eq!(next_piece(0, 10, 4, false, 20), piece(0, 4, Some(20)));
    assert_eq!(next_piece(8, 10, 4, false, 20), piece(8, 10, None));
    assert_eq!(next_piece(0, 10, 4, false, 0), piece(0, 4, None));
    assert_eq!(next_piece(6, 10, 4, false, 20), piece(6, 10, None));
    assert_eq!(next_piece(0, 10, 0, false, 20), None);
    assert_eq!(next_piece(10, 10, 4, false, 20), None);
}

#[test]
fn the_last_piece_takes_what_is_left() {
    assert_eq!(next_piece(3, 10, 4, true, 20), Some(Piece { start: 3, end: 10, pause: None }));
    assert_eq!(next_piece(3, 10, 0, true, 20), None);
    assert_eq!(next_piece(10, 10, 4, true, 20), None);
}

#[test]
fn pieces_join_to_the_payload() {
    let s = settings("40-40", "2-7", 20);
    let payload: Vec<u8> = (0..80).collect();
    for _ in 0..20 {
        let mut joined = vec![];
        for p in FragmentOutbound::pieces(&s, payload.len()) {
            assert!(p.end - p.start <= 7);
            assert!(p.end - p.start >= 2 || p.end == 80);
            assert_eq!(p.pause, if p.end < 80 { Some(20) } else { None });
            joined.extend_from_slice(&payload[p.start..p.end]);
        }
        assert_eq!(joined, payload);
    }
    assert!(FragmentOutbound::pieces(&s, 0).is_empty());
}

#[test]
fn there_are_no_more_pieces_than_drawn() {
    let s = settings("1-5", "1-10", 0);
    for _ in 0..200 {
        let pieces = FragmentOutbound::pieces(&s, 20);
        assert!(1 <= pieces.len() && pieces.len() <= 5);
        assert_eq!(pieces[pieces.len() - 1].end, 20);
        for p in &pieces[..pieces.len() - 1] {
            assert!(1 <= p.end - p.start && p.end - p.start <= 10);
        }
    }
    let ends = |s: &FragmentSettings| -> Vec<usize> {
        FragmentOutbound::pieces(s, 20).iter().map(|p| p.end).collect()
    };
    assert_eq!(ends(&settings("3-3", "2-2", 0)), vec![2, 4, 20]);
    assert_eq!(ends(&settings("1-1", "2-2", 0)), vec![20]);
    assert_eq!(ends(&settings("0-0", "2-2", 0)), vec![20]);
    assert_eq!(ends(&settings("9-9", "8-8", 0)), vec![8, 16, 20]);
}

#[test]
fn sizes_depend_on_chance() {
    let s = settings("5-5", "1-100000", 0);
    let a: Vec<usize> =
        (0..20).map(|_| FragmentOutbound::pieces(&s, 1_000_000)[0].end).collect();
    assert!(a.iter().any(|x| *x != a[0]));
}

#[test]
fn a_size_of_zero_ends_the_payload() {
    assert!(FragmentOutbound::pieces(&settings("1-5", "0-0", 0), 9).is_empty());
    assert!(FragmentOutbound::pieces(&settings("5-1", "0-0", 0), 9).is_empty());
}

#[test]
fn empty_ranges_cannot_be_drawn_from() {
    assert!(FragmentOutbound::drawable(&settings("1-5", "1-10", 0)));
    assert!(FragmentOutbound::drawable(&settings("", "", 0)));
    assert!(!FragmentOutbound::drawable(&settings("1-5", "9-1", 0)));
    assert!(!FragmentOutbound::drawable(&settings("5-1", "1-9", 0)));
    assert!(FragmentOutbound::drawable(&settings("5-1", "0-0", 0)));
}

#[test]
fn only_the_first_payload_is_cut() {
    let s = Some(settings("1-5", "1-10", 20));
    let mut u = Upload::new();
    assert!(!u.cuts(&None));
    assert!(u.cuts(&s));
    assert!(!u.cuts(&s));
    assert_eq!(FragmentOutbound::new(s).settings.unwrap().interval, 20);
}
