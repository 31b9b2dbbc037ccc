use csv::StringRecord;
use cutr::{
    extract_bytes, extract_chars, extract_fields, parse_index, parse_pos, parse_positive_int,
    select_mode, validate_delimiter, Extract,
};

// A well-formed single positive integer n becomes the width-one range n-1..n.
#[test]
fn single_number_becomes_unit_range() {
    assert_eq!(parse_pos("7").unwrap(), vec![6..7]);
    assert_eq!(parse_pos("007").unwrap(), vec![6..7]);
    assert_eq!(parse_pos("15").unwrap(), vec![14..15]);
    assert_eq!(parse_index("5").unwrap(), 4);
}

// n1-n2 with n1 < n2 becomes n1-1..n2; otherwise parsing fails and the
// message shows both numbers as the user wrote them, 1-based.
#[test]
fn pair_becomes_half_open_range() {
    assert_eq!(parse_pos("4-7").unwrap(), vec![3..7]);
    let res = parse_pos("7-4");
    assert_eq!(
        res.unwrap_err().to_string(),
        "First number in range (7) must be lower than second number (4)"
    );
    let res = parse_pos("12-12");
    assert_eq!(
        res.unwrap_err().to_string(),
        "First number in range (12) must be lower than second number (12)"
    );
}

// Rejected tokens are echoed verbatim in the message.
#[test]
fn bad_tokens_are_echoed() {
    assert!(parse_pos("").is_err());
    assert_eq!(
        parse_pos("0").unwrap_err().to_string(),
        "illegal list value: \"0\""
    );
    assert_eq!(
        parse_pos("+3").unwrap_err().to_string(),
        "illegal list value: \"+3\""
    );
    assert_eq!(
        parse_pos("1,x9").unwrap_err().to_string(),
        "illegal list value: \"x9\""
    );
    assert_eq!(
        parse_index("+1").unwrap_err().to_string(),
        "illegal list value: \"+1\""
    );
    // a value no usize holds is rejected like any other bad token,
    // and inside a pair the message names the offending half alone
    assert_eq!(
        parse_pos("99999999999999999999999999").unwrap_err().to_string(),
        "illegal list value: \"99999999999999999999999999\""
    );
    assert_eq!(
        parse_pos("1-99999999999999999999999999").unwrap_err().to_string(),
        "illegal list value: \"99999999999999999999999999\""
    );
}

// Order and duplication are preserved, never sorted or merged.
#[test]
fn order_and_duplicates_preserved() {
    let a = parse_pos("1,3").unwrap();
    let b = parse_pos("3,1").unwrap();
    assert_eq!(a, vec![0..1, 2..3]);
    assert_eq!(b, vec![2..3, 0..1]);
    assert_ne!(a, b);
    assert_eq!(parse_pos("2,2").unwrap(), vec![1..2, 1..2]);
    assert_eq!(parse_pos("1-3,2").unwrap(), vec![0..3, 1..2]);
}

// Character positions address decoded characters, not bytes.
#[test]
fn chars_address_codepoints() {
    assert_eq!(extract_chars("", &[0..1]), "");
    assert_eq!(extract_chars("ábc", &[0..1]), "á");
    assert_eq!(extract_chars("ábc", &[2..3, 1..2]), "cb");
    assert_eq!(extract_chars("ábc", &[0..1, 1..2, 4..5]), "áb");
    assert_eq!(extract_chars("abc", &[]), "");
}

// Byte positions cut through multi-byte characters; the cut shows up as
// replacement characters, and whole characters come back intact.
#[test]
fn bytes_cut_lossily() {
    assert_eq!(extract_bytes("ábc", &[0..1]), "\u{FFFD}");
    assert_eq!(extract_bytes("ábc", &[0..2]), "á");
    assert_eq!(extract_bytes("ábc", &[1..2, 0..1]), "\u{FFFD}\u{FFFD}");
    assert_eq!(extract_bytes("abc", &[]), "");
    assert_eq!(extract_bytes("abc", &[5..9]), "");
}

// Field selection reorders and concatenates cells; out-of-bounds ranges
// are dropped without error.
#[test]
fn fields_reorder_and_skip() {
    let rec = StringRecord::from(vec!["one", "two", "three"]);
    assert_eq!(extract_fields(&rec, &[0..1, 2..3]), &["one", "three"]);
    assert_eq!(extract_fields(&rec, &[7..9]), Vec::<String>::new());
    assert_eq!(extract_fields(&rec, &[2..3, 2..3]), &["three", "three"]);
    assert_eq!(extract_fields(&rec, &[]), Vec::<String>::new());
}

// Extraction is a pure function: the same unit and ranges give the same
// output every time.
#[test]
fn extraction_is_idempotent() {
    let ranges = parse_pos("2,1-3").unwrap();
    let first = extract_chars("wéird", &ranges);
    let second = extract_chars("wéird", &ranges);
    assert_eq!(first, second);
    let first = extract_bytes("wéird", &ranges);
    let second = extract_bytes("wéird", &ranges);
    assert_eq!(first, second);
    let rec = StringRecord::from(vec!["a", "b", "c"]);
    let first = extract_fields(&rec, &ranges);
    let second = extract_fields(&rec, &ranges);
    assert_eq!(first, second);
}

// A cell holding the delimiter stays quoted through write-out and parses
// back to the identical cell value.
#[test]
fn fields_round_trip_quoted_delimiter() {
    let rec = StringRecord::from(vec!["Kay, Captain", "Sham"]);
    let out = extract_fields(&rec, &[0..2]);

    let mut wtr = csv::WriterBuilder::new().delimiter(b',').from_writer(Vec::new());
    wtr.write_record(&out).unwrap();
    let data = wtr.into_inner().unwrap();
    let text = String::from_utf8(data).unwrap();
    assert_eq!(text, "\"Kay, Captain\",Sham\n");

    let mut rdr = csv::ReaderBuilder::new()
        .has_headers(false)
        .from_reader(text.as_bytes());
    let rec2 = rdr.records().next().unwrap().unwrap();
    assert_eq!(rec2.get(0), Some("Kay, Captain"));
    assert_eq!(rec2.get(1), Some("Sham"));
}

// The delimiter must be exactly one byte; the message names the offender.
#[test]
fn delimiter_must_be_one_byte() {
    assert_eq!(validate_delimiter(",").unwrap(), b',');
    assert_eq!(validate_delimiter("\t").unwrap(), b'\t');
    assert_eq!(
        validate_delimiter("ab").unwrap_err().to_string(),
        "--delim \"ab\" must be a single byte"
    );
    assert_eq!(
        validate_delimiter("").unwrap_err().to_string(),
        "--delim \"\" must be a single byte"
    );
    assert_eq!(
        validate_delimiter("á").unwrap_err().to_string(),
        "--delim \"á\" must be a single byte"
    );
}

// Exactly one selection mode is active; with none the run is refused.
#[test]
fn one_mode_must_be_chosen() {
    let fields = parse_pos("1").unwrap();
    match select_mode(Some(fields), None, None) {
        Ok(Extract::Fields(p)) => assert_eq!(p, vec![0..1]),
        _ => panic!("expected the fields mode"),
    }
    match select_mode(None, None, Some(parse_pos("2").unwrap())) {
        Ok(Extract::Chars(p)) => assert_eq!(p, vec![1..2]),
        _ => panic!("expected the chars mode"),
    }
    let err = select_mode(None, None, None).unwrap_err();
    assert_eq!(err.to_string(), "Must have --fields, --bytes, or --chars");
}
