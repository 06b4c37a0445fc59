use texture_analyzer::{color_summary, parse_field, split_fields, FieldRange};

#[test]
fn split_gives_every_field() {
    let r = split_fields(b"12,,3");
    assert_eq!(
        r,
        vec![
            FieldRange { start: 0, end: 2 },
            FieldRange { start: 3, end: 3 },
            FieldRange { start: 4, end: 5 }
        ]
    );
    assert_eq!(split_fields(b""), vec![FieldRange { start: 0, end: 0 }]);
    assert_eq!(split_fields(b"a,").len(), 2);
}

#[test]
fn parse_field_reads_decimal() {
    let t = b"255,256,+7,-1,,0042";
    let r = split_fields(t);
    assert_eq!(parse_field(t, r[0], 255), Some(255));
    assert_eq!(parse_field(t, r[1], 255), None);
    assert_eq!(parse_field(t, r[1], 1000), Some(256));
    assert_eq!(parse_field(t, r[2], 255), Some(7));
    assert_eq!(parse_field(t, r[3], 255), None);
    assert_eq!(parse_field(t, r[4], 255), None);
    assert_eq!(parse_field(t, r[5], 255), Some(42));
}

#[test]
fn parse_field_largest_usize() {
    let s = usize::MAX.to_string();
    let t = s.as_bytes();
    let r = FieldRange { start: 0, end: t.len() };
    assert_eq!(parse_field(t, r, usize::MAX), Some(usize::MAX));
    let s2 = format!("{}0", usize::MAX);
    let t2 = s2.as_bytes();
    assert_eq!(parse_field(t2, FieldRange { start: 0, end: t2.len() }, usize::MAX), None);
}

#[test]
fn summary_of_colors() {
    assert_eq!(color_summary(&vec![]), (0, (0, 0, 0)));
    assert_eq!(color_summary(&vec![(1, 2, 3)]), (1, (1, 2, 3)));
    assert_eq!(
        color_summary(&vec![(5, 5, 5), (1, 1, 1), (1, 1, 1), (5, 5, 5), (2, 2, 2)]),
        (3, (5, 5, 5))
    );
    assert_eq!(
        color_summary(&vec![(0, 0, 1), (1, 0, 0), (1, 0, 0)]),
        (2, (1, 0, 0))
    );
}
