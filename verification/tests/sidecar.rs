use batch_translator::diag::parse_ranges;
use batch_translator::diag::render_ranges;

#[test]
fn render_ranges_writes_json_pairs() {
    assert_eq!(render_ranges(&vec![]), "[]");
    assert_eq!(render_ranges(&vec![(10, 14)]), "[[10,14]]");
    assert_eq!(render_ranges(&vec![(0, 1), (2, 5), (21, 23)]), "[[0,1],[2,5],[21,23]]");
}

#[test]
fn parse_ranges_round_trips_render() {
    let cases: Vec<Vec<(usize, usize)>> = vec![
        vec![],
        vec![(10, 14)],
        vec![(0, 1), (2, 5), (6, 9), (10, 10), (21, 23)],
        vec![(usize::MAX, usize::MAX)],
    ];
    for rs in cases {
        let text = render_ranges(&rs);
        assert_eq!(parse_ranges(&text), Some(rs));
    }
}

#[test]
fn parse_ranges_rejects_malformed_text() {
    assert!(parse_ranges("").is_none());
    assert!(parse_ranges("[").is_none());
    assert!(parse_ranges("[[1,2]").is_none());
    assert!(parse_ranges("[[1,2],]").is_none());
    assert!(parse_ranges("[[1,2]x]").is_none());
    assert!(parse_ranges("[[1,]]").is_none());
    assert!(parse_ranges("[[,2]]").is_none());
    assert!(parse_ranges("[1,2]").is_none());
    // A value past the machine word is rejected rather than wrapped.
    assert!(parse_ranges("[[99999999999999999999999999999999999,1]]").is_none());
}

#[test]
fn parse_ranges_accepts_plain_compact_json() {
    assert_eq!(parse_ranges("[[3,7],[9,9]]"), Some(vec![(3, 7), (9, 9)]));
}
