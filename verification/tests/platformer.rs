use titan::platformer::level::{
    extra_field_message, invalid_value_message, CoordinateError, Extent, Level, ParseError, SpawnPoint,
};
use titan::platformer::persistence::{LoadError, SaveError, SaveMode};
use titan::text::{
    chars_of, decimal_text, is_space_char, parse_unsigned_text, split_fields, split_lines,
};

fn coordinate(text: &str) -> Result<f32, CoordinateError> {
    match text.parse::<f32>() {
        Ok(value) if value.is_finite() => Ok(value),
        Ok(_) => Err(CoordinateError::NotFinite),
        Err(_) => Err(CoordinateError::Invalid),
    }
}

fn extent(origin: f32, size: f32) -> Extent {
    if size <= 0.0 {
        Extent::NotPositive
    } else if !(origin + size).is_finite() {
        Extent::Unbounded
    } else {
        Extent::Valid
    }
}

fn parse(document: &str) -> Result<Level<f32>, ParseError> {
    Level::parse(document, coordinate, extent)
}

fn write(level: &Level<f32>) -> String {
    level.write(|value: f32| format!("{value}"))
}

fn assert_rejected(document: &str) {
    assert!(parse(document).is_err(), "document was accepted:\n{document}");
}

fn error_of(document: &str) -> (usize, String, String) {
    let error = parse(document).expect_err("invalid document");
    (error.line(), error.record().to_string(), error.message().to_string())
}

#[test]
fn accepts_reordered_records_and_crlf() {
    let document = "\nplatformer-level 1\r\nplatform 2 448 64 128 24\r\nspawn 64 64\r\nnext-id 4\r\nplatform 1 0 0 400 32\r\nplatform 3 640 128 160 24\r\n";
    let level = parse(document).expect("valid level");

    assert_eq!(level.next_id(), 4);
    assert_eq!(level.spawn(), SpawnPoint { x: 64.0, y: 64.0 });
    assert_eq!(
        level.platforms().iter().map(|platform| platform.id).collect::<Vec<_>>(),
        vec![1, 2, 3]
    );
}

#[test]
fn rejects_invalid_metadata_numbers_geometry_and_ids() {
    let invalid_documents = [
        "platformer-level 0\nnext-id 1\nspawn 0 0\n",
        "platformer-level 1\nnext-id 1\nspawn 0 0\nunknown 1\n",
        "platformer-level 1 extra\nnext-id 1\nspawn 0 0\n",
        "platformer-level 1\nnext-id\nspawn 0 0\n",
        "platformer-level 1\nnext-id 1\nspawn nope 0\n",
        "platformer-level 1\nnext-id 1\nspawn NaN 0\n",
        "platformer-level 1\nnext-id 1\nspawn 0 inf\n",
        "platformer-level 1\nnext-id 2\nspawn 0 0\nplatform 1 0 0 0 1\n",
        "platformer-level 1\nnext-id 2\nspawn 0 0\nplatform 1 0 0 1 -1\n",
        "platformer-level 1\nnext-id 2\nspawn 0 0\nplatform 1 3e38 0 3e38 1\n",
        "platformer-level 1\nnext-id 2\nspawn 0 0\nplatform 1 0 3e38 1 3e38\n",
        "platformer-level 1\nnext-id 2\nspawn 0 0\nplatform 1 0 0 inf 1\n",
        "platformer-level 1\nnext-id 2\nspawn 0 0\nplatform 0 0 0 1 1\n",
        "platformer-level 1\nnext-id 3\nspawn 0 0\nplatform 2 0 0 1 1\nplatform 2 1 1 1 1\n",
        "platformer-level 1\nnext-id 2\nspawn 0 0\nplatform 2 0 0 1 1\n",
        "platformer-level 1\nnext-id 0\nspawn 0 0\n",
        "platformer-level 1\nnext-id 1\nnext-id 2\nspawn 0 0\n",
        "platformer-level 1\nnext-id 1\nspawn 0 0\nspawn 1 1\n",
        "platformer-level 1\nnext-id 2\nspawn 0 0\nplatform 1 0 0 1 1 extra\n",
    ];

    for document in invalid_documents {
        assert_rejected(document);
    }
}

#[test]
fn reports_deferred_counter_errors_at_their_source_line() {
    let document = "platformer-level 1\nnext-id 2\nspawn 0 0\nplatform 2 0 0 1 1\n";
    let error = parse(document).expect_err("invalid counter");

    assert_eq!(error.line(), 2);
    assert_eq!(error.record(), "next-id");
}

#[test]
fn writes_sorted_levels_and_preserves_float_meaning_on_roundtrip() {
    let document = "platformer-level 1\nnext-id 10\nspawn -0 1.5\nplatform 9 -0 2.5 0.25 3\nplatform 2 448 64 128 24\n";
    let level = parse(document).expect("valid level");
    let written = write(&level);
    let expected = "platformer-level 1\nnext-id 10\nspawn -0 1.5\nplatform 2 448 64 128 24\nplatform 9 -0 2.5 0.25 3\n";
    assert_eq!(written, expected);

    let round_tripped = parse(&written).expect("written level");
    assert_eq!(round_tripped.next_id(), level.next_id());
    assert_eq!(round_tripped.spawn().x.to_bits(), level.spawn().x.to_bits());
    assert_eq!(round_tripped.spawn().y.to_bits(), level.spawn().y.to_bits());
    assert_eq!(round_tripped.platforms().len(), level.platforms().len());
    for (actual, expected) in round_tripped.platforms().iter().zip(level.platforms()) {
        assert_eq!(actual.id, expected.id);
        assert_eq!(actual.x.to_bits(), expected.x.to_bits());
        assert_eq!(actual.y.to_bits(), expected.y.to_bits());
        assert_eq!(actual.width.to_bits(), expected.width.to_bits());
        assert_eq!(actual.height.to_bits(), expected.height.to_bits());
    }
}

#[test]
fn requires_header_and_required_records() {
    assert_rejected("spawn 0 0\nplatformer-level 1\nnext-id 1\n");
    assert_rejected("platformer-level 1\nnext-id 1\n");
    assert_rejected("platformer-level 1\nspawn 0 0\n");
    assert_rejected("\n\r\n");
}

#[test]
fn errors_name_their_line_record_and_cause() {
    assert_eq!(
        error_of("spawn 0 0\n"),
        (1, "spawn".to_string(), "the first nonblank line must be the platformer-level header".to_string())
    );
    assert_eq!(
        error_of("\n\nplatformer-level 2\n"),
        (3, "platformer-level".to_string(), "unsupported version 2; expected 1".to_string())
    );
    assert_eq!(
        error_of("platformer-level x\n"),
        (1, "platformer-level".to_string(), "invalid version value \"x\"".to_string())
    );
    assert_eq!(
        error_of("platformer-level 1 \"two\"\n"),
        (1, "platformer-level".to_string(), "unexpected extra field \"\\\"two\\\"\"".to_string())
    );
    assert_eq!(
        error_of("platformer-level 1\nplatformer-level 1\n"),
        (2, "platformer-level".to_string(), "the header may appear only once and must be first".to_string())
    );
    assert_eq!(
        error_of("platformer-level 1\nnext-id\n"),
        (2, "next-id".to_string(), "missing counter field".to_string())
    );
    assert_eq!(
        error_of("platformer-level 1\nnext-id 0\n"),
        (2, "next-id".to_string(), "counter must be nonzero".to_string())
    );
    assert_eq!(
        error_of("platformer-level 1\nspawn 0 inf\n"),
        (2, "spawn".to_string(), "y must be finite".to_string())
    );
    assert_eq!(
        error_of("platformer-level 1\nplatform 3 0 0 1 1\nplatform 3 0 0 1 1\n"),
        (3, "platform".to_string(), "duplicate platform ID 3".to_string())
    );
    assert_eq!(
        error_of("platformer-level 1\nplatform 3 0 0 1 0\n"),
        (2, "platform".to_string(), "height must be strictly positive".to_string())
    );
    assert_eq!(
        error_of("platformer-level 1\nplatform 3 3e38 0 3e38 1\n"),
        (2, "platform".to_string(), "x plus width must be finite".to_string())
    );
    assert_eq!(
        error_of("platformer-level 1\nwall 1\n"),
        (2, "wall".to_string(), "unknown record".to_string())
    );
    assert_eq!(
        error_of("platformer-level 1\nnext-id 1\n\n"),
        (4, "spawn".to_string(), "missing required spawn record".to_string())
    );
    assert_eq!(
        error_of("platformer-level 1\nspawn 0 0"),
        (3, "next-id".to_string(), "missing required next-id record".to_string())
    );
    assert_eq!(
        error_of("\n\r\n"),
        (1, "header".to_string(), "the document must contain a platformer-level header".to_string())
    );
    assert_eq!(
        error_of("platformer-level 1\nnext-id 7\nspawn 0 0\nplatform 9 0 0 1 1\n"),
        (
            2,
            "next-id".to_string(),
            "counter 7 must be greater than every platform ID (maximum 9)".to_string()
        )
    );
}

#[test]
fn numbers_accept_a_plus_sign_and_reject_overflow() {
    let level = parse("platformer-level +1\nnext-id +18446744073709551615\nspawn 0 0\nplatform 18446744073709551614 0 0 1 1\n")
        .expect("valid level");
    assert_eq!(level.next_id(), u64::MAX);
    assert_eq!(level.platforms()[0].id, u64::MAX - 1);
    assert_eq!(
        error_of("platformer-level 1\nnext-id 18446744073709551616\n"),
        (2, "next-id".to_string(), "invalid counter value \"18446744073709551616\"".to_string())
    );
    assert_eq!(
        error_of("platformer-level 4294967296\n"),
        (1, "platformer-level".to_string(), "invalid version value \"4294967296\"".to_string())
    );
    assert_eq!(
        error_of("platformer-level 1\nnext-id -1\n"),
        (2, "next-id".to_string(), "invalid counter value \"-1\"".to_string())
    );
    assert_eq!(
        error_of("platformer-level 1\nnext-id +\n"),
        (2, "next-id".to_string(), "invalid counter value \"+\"".to_string())
    );
}

#[test]
fn text_layer_splits_lines_fields_and_numbers() {
    let chars = chars_of("a b\n\n c\td \r\n");
    let lines = split_lines(&chars);
    assert_eq!(lines.len(), 3);
    assert_eq!(lines[1], Vec::<char>::new());
    let fields = split_fields(&lines[2]);
    assert_eq!(fields, vec![vec!['c'], vec!['d']]);
    assert_eq!(split_lines(&chars_of("")).len(), 0);
    assert_eq!(split_lines(&chars_of("\n")).len(), 1);
    assert_eq!(split_lines(&chars_of("x\ny")).len(), 2);

    assert_eq!(parse_unsigned_text(&chars_of("+0042"), u64::MAX), Some(42));
    assert_eq!(parse_unsigned_text(&chars_of("256"), 255), None);
    assert_eq!(parse_unsigned_text(&chars_of("255"), 255), Some(255));
    assert_eq!(parse_unsigned_text(&chars_of("4a"), 255), None);
    assert_eq!(parse_unsigned_text(&chars_of(""), 255), None);

    assert_eq!(decimal_text(0), "0");
    assert_eq!(decimal_text(1234567890), "1234567890");
    assert_eq!(decimal_text(u64::MAX), u64::MAX.to_string());
}

#[test]
fn field_separators_are_exactly_unicode_white_space() {
    for c in (0u32..=0x10FFFF).filter_map(char::from_u32) {
        assert_eq!(is_space_char(c), c.is_whitespace(), "{:?}", c);
    }
}

#[test]
fn message_builders_join_their_parts() {
    assert_eq!(invalid_value_message("x", "\"q\""), "invalid x value \"q\"");
    assert_eq!(extra_field_message("\"q\""), "unexpected extra field \"q\"");
}

#[test]
fn written_levels_parse_back_to_the_same_level() {
    let level = parse("platformer-level 1\nplatform 5 1 2 3 4\nnext-id 6\nplatform 1 -1.25 0 10 0.5\nspawn 3 4\n")
        .expect("valid level");
    let written = write(&level);
    assert_eq!(
        written,
        "platformer-level 1\nnext-id 6\nspawn 3 4\nplatform 1 -1.25 0 10 0.5\nplatform 5 1 2 3 4\n"
    );
    assert_eq!(parse(&written).expect("written level"), level);
}

#[test]
fn save_policies_name_their_action() {
    assert_eq!(SaveMode::CreateNew.describe(), "create a new");
    assert_eq!(SaveMode::ReplaceExisting.describe(), "replace the existing");
}

#[test]
fn file_errors_report_the_destination() {
    let destination = std::path::PathBuf::from("levels/one.platformer");
    let temporary = std::path::PathBuf::from("levels/.platformer-level-1-0.tmp");
    let write = SaveError::TemporaryWrite {
        destination: destination.clone(),
        path: temporary,
        source: std::io::Error::other("disk full"),
    };
    assert_eq!(write.path(), &destination);
    let missing = SaveError::DestinationMissing { path: destination.clone() };
    assert_eq!(missing.path(), &destination);
    let read = LoadError::Read { path: destination.clone(), source: std::io::Error::other("gone") };
    assert_eq!(read.path(), &destination);
}

#[test]
fn parse_errors_describe_line_record_and_message() {
    let error = parse("\n\nplatformer-level 2\n").expect_err("unsupported version");
    assert_eq!(
        error.describe(),
        "line 3: platformer-level record: unsupported version 2; expected 1"
    );
}
