use s3_cp::reader::decode_rows;
use s3_cp::record::{
    are_numbered, decode_record, decode_row, number_rows, CopyInstruction, CopyTask, DecodeError,
    RawRow,
};

fn fields(texts: &[&str]) -> Vec<String> {
    texts.iter().map(|text| text.to_string()).collect()
}

fn instruction(src_bucket: &str, src_key: &str, dst_bucket: &str, dst_key: Option<&str>) -> CopyInstruction {
    CopyInstruction {
        src_bucket: src_bucket.to_string(),
        src_key: src_key.to_string(),
        dst_bucket: dst_bucket.to_string(),
        dst_key: dst_key.map(|key| key.to_string()),
    }
}

#[test]
fn three_fields_decode_without_destination_key() {
    let decoded = decode_record(&fields(&["b1", "k1", "b2"]));
    assert_eq!(decoded, Ok(instruction("b1", "k1", "b2", None)));
}

#[test]
fn four_fields_decode_with_destination_key() {
    let decoded = decode_record(&fields(&["b1", "k2", "b2", "k3"]));
    assert_eq!(decoded, Ok(instruction("b1", "k2", "b2", Some("k3"))));
}

#[test]
fn empty_fourth_field_is_a_missing_destination_key() {
    let decoded = decode_record(&fields(&["b1", "k1", "b2", ""]));
    assert_eq!(decoded, Ok(instruction("b1", "k1", "b2", None)));
}

#[test]
fn empty_leading_fields_are_kept_as_they_are() {
    let decoded = decode_record(&fields(&["", "", ""]));
    assert_eq!(decoded, Ok(instruction("", "", "", None)));
}

#[test]
fn two_fields_are_a_field_count_error() {
    let decoded = decode_record(&fields(&["a", "b"]));
    assert_eq!(decoded, Err(DecodeError::FieldCount { found: 2 }));
}

#[test]
fn five_fields_are_a_field_count_error() {
    let decoded = decode_record(&fields(&["a", "b", "c", "d", "e"]));
    assert_eq!(decoded, Err(DecodeError::FieldCount { found: 5 }));
}

#[test]
fn no_fields_are_a_field_count_error() {
    let decoded = decode_record(&fields(&[]));
    assert_eq!(decoded, Err(DecodeError::FieldCount { found: 0 }));
}

#[test]
fn a_raw_row_keeps_its_row_number() {
    let raw: RawRow = Ok(fields(&["b1", "k1", "b2"]));
    let task = decode_row(7, &raw);
    assert_eq!(task, CopyTask { row: 7, instruction: Ok(instruction("b1", "k1", "b2", None)) });
}

#[test]
fn a_reader_diagnostic_becomes_a_malformed_row() {
    let raw: RawRow = Err("no text".to_string());
    let task = decode_row(3, &raw);
    assert_eq!(
        task,
        CopyTask { row: 3, instruction: Err(DecodeError::Malformed { diagnostic: "no text".to_string() }) }
    );
}

#[test]
fn raw_rows_are_numbered_from_one() {
    let rows: Vec<RawRow> = vec![
        Ok(fields(&["b1", "k1", "b2"])),
        Ok(fields(&["a", "b"])),
        Err("broken".to_string()),
        Ok(fields(&["b1", "k2", "b2", "k3"])),
    ];
    let tasks = number_rows(&rows);
    assert_eq!(
        tasks,
        vec![
            CopyTask { row: 1, instruction: Ok(instruction("b1", "k1", "b2", None)) },
            CopyTask { row: 2, instruction: Err(DecodeError::FieldCount { found: 2 }) },
            CopyTask { row: 3, instruction: Err(DecodeError::Malformed { diagnostic: "broken".to_string() }) },
            CopyTask { row: 4, instruction: Ok(instruction("b1", "k2", "b2", Some("k3"))) },
        ]
    );
    assert!(are_numbered(&tasks));
}

#[test]
fn numbering_is_checked_row_by_row() {
    let good = vec![
        CopyTask { row: 1, instruction: Ok(instruction("a", "b", "c", None)) },
        CopyTask { row: 2, instruction: Ok(instruction("a", "b", "c", None)) },
    ];
    let from_zero = vec![CopyTask { row: 0, instruction: Ok(instruction("a", "b", "c", None)) }];
    let with_gap = vec![
        CopyTask { row: 1, instruction: Ok(instruction("a", "b", "c", None)) },
        CopyTask { row: 3, instruction: Ok(instruction("a", "b", "c", None)) },
    ];
    let repeated = vec![
        CopyTask { row: 1, instruction: Ok(instruction("a", "b", "c", None)) },
        CopyTask { row: 1, instruction: Ok(instruction("a", "b", "c", None)) },
    ];
    assert!(are_numbered(&good));
    assert!(are_numbered(&Vec::new()));
    assert!(!are_numbered(&from_zero));
    assert!(!are_numbered(&with_gap));
    assert!(!are_numbered(&repeated));
}

#[test]
fn input_rows_become_tasks() {
    let tasks = decode_rows(b"b1,k1,b2\nb1,k2,b2,k3\n");
    assert_eq!(
        tasks,
        vec![
            CopyTask { row: 1, instruction: Ok(instruction("b1", "k1", "b2", None)) },
            CopyTask { row: 2, instruction: Ok(instruction("b1", "k2", "b2", Some("k3"))) },
        ]
    );
}

#[test]
fn the_first_row_is_no_header() {
    let tasks = decode_rows(b"src,key,dst\n");
    assert_eq!(tasks, vec![CopyTask { row: 1, instruction: Ok(instruction("src", "key", "dst", None)) }]);
}

#[test]
fn fields_are_trimmed() {
    let tasks = decode_rows(b"  b1 ,\tk1  , b2 ,  k3\t\n");
    assert_eq!(tasks, vec![CopyTask { row: 1, instruction: Ok(instruction("b1", "k1", "b2", Some("k3"))) }]);
}

#[test]
fn inner_whitespace_is_kept() {
    let tasks = decode_rows(b"my bucket, my key ,b2\n");
    assert_eq!(tasks, vec![CopyTask { row: 1, instruction: Ok(instruction("my bucket", "my key", "b2", None)) }]);
}

#[test]
fn a_blank_fourth_field_is_a_missing_destination_key() {
    let tasks = decode_rows(b"b1,k1,b2,   \n");
    assert_eq!(tasks, vec![CopyTask { row: 1, instruction: Ok(instruction("b1", "k1", "b2", None)) }]);
}

#[test]
fn quoted_fields_may_hold_commas() {
    let tasks = decode_rows(b"b1,\"k,1\",b2\n");
    assert_eq!(tasks, vec![CopyTask { row: 1, instruction: Ok(instruction("b1", "k,1", "b2", None)) }]);
}

#[test]
fn comment_lines_are_no_rows() {
    let tasks = decode_rows(b"#note,b,c,d\n");
    assert_eq!(tasks, Vec::new());
}

#[test]
fn comment_lines_take_no_row_number() {
    let tasks = decode_rows(b"#first\nb1,k1,b2\n#second\n#third\nb1,k2,b2\n");
    assert_eq!(
        tasks,
        vec![
            CopyTask { row: 1, instruction: Ok(instruction("b1", "k1", "b2", None)) },
            CopyTask { row: 2, instruction: Ok(instruction("b1", "k2", "b2", None)) },
        ]
    );
}

#[test]
fn empty_lines_are_no_rows() {
    let tasks = decode_rows(b"\n\nb1,k1,b2\n\n");
    assert_eq!(tasks, vec![CopyTask { row: 1, instruction: Ok(instruction("b1", "k1", "b2", None)) }]);
}

#[test]
fn empty_input_has_no_tasks() {
    assert_eq!(decode_rows(b""), Vec::new());
}

#[test]
fn a_last_row_without_line_end_is_read() {
    let tasks = decode_rows(b"b1,k1,b2");
    assert_eq!(tasks, vec![CopyTask { row: 1, instruction: Ok(instruction("b1", "k1", "b2", None)) }]);
}

#[test]
fn a_short_row_fails_under_its_number_and_leaves_the_others() {
    let tasks = decode_rows(b"b1,k1,b2\na,b\nb1,k2,b2,k3\n");
    assert_eq!(
        tasks,
        vec![
            CopyTask { row: 1, instruction: Ok(instruction("b1", "k1", "b2", None)) },
            CopyTask { row: 2, instruction: Err(DecodeError::FieldCount { found: 2 }) },
            CopyTask { row: 3, instruction: Ok(instruction("b1", "k2", "b2", Some("k3"))) },
        ]
    );
}

#[test]
fn rows_of_different_lengths_are_read() {
    let tasks = decode_rows(b"b1,k1,b2,k9\nb1,k2,b2\na\n");
    assert_eq!(
        tasks,
        vec![
            CopyTask { row: 1, instruction: Ok(instruction("b1", "k1", "b2", Some("k9"))) },
            CopyTask { row: 2, instruction: Ok(instruction("b1", "k2", "b2", None)) },
            CopyTask { row: 3, instruction: Err(DecodeError::FieldCount { found: 1 }) },
        ]
    );
}

#[test]
fn a_row_that_is_no_text_is_malformed_and_the_next_is_read() {
    let tasks = decode_rows(b"b1,k\xff1,b2\nb1,k2,b2\n");
    assert_eq!(tasks.len(), 2);
    assert_eq!(tasks[0].row, 1);
    assert!(matches!(tasks[0].instruction, Err(DecodeError::Malformed { .. })));
    assert_eq!(tasks[1], CopyTask { row: 2, instruction: Ok(instruction("b1", "k2", "b2", None)) });
}

#[test]
fn text_beyond_ascii_is_read() {
    let tasks = decode_rows("b1,caf\u{e9},b2\n".as_bytes());
    assert_eq!(tasks, vec![CopyTask { row: 1, instruction: Ok(instruction("b1", "caf\u{e9}", "b2", None)) }]);
}
