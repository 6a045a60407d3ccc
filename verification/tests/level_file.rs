use jumpyball::geometry::BoundingBox;
use jumpyball::level_file::{
    parse_line, parse_scalar, read_digits, scan, ByteClass, LineError, LoadError,
};

fn scalar(word: &str) -> Result<i32, LineError> {
    parse_scalar(word.as_bytes(), 0, word.len())
}

fn line(text: &str) -> Result<BoundingBox, LineError> {
    parse_line(text.as_bytes(), 0, text.len())
}

fn load(text: &str) -> Result<Vec<BoundingBox>, LoadError> {
    BoundingBox::from_bytes(text.as_bytes())
}

fn bounds(a: i32, b: i32, c: i32, d: i32, e: i32, f: i32) -> BoundingBox {
    BoundingBox { min_x: a, max_x: b, min_y: c, max_y: d, min_z: e, max_z: f }
}

#[test]
fn whole_numbers() {
    assert_eq!(scalar("0"), Ok(0));
    assert_eq!(scalar("1"), Ok(1000));
    assert_eq!(scalar("42"), Ok(42_000));
    assert_eq!(scalar("007"), Ok(7000));
    assert_eq!(scalar("1000000"), Ok(1_000_000_000));
}

#[test]
fn fractions() {
    assert_eq!(scalar("1.5"), Ok(1500));
    assert_eq!(scalar("12.75"), Ok(12_750));
    assert_eq!(scalar("0.005"), Ok(5));
    assert_eq!(scalar("0.03"), Ok(30));
    assert_eq!(scalar("3.125"), Ok(3125));
    assert_eq!(scalar("1."), Ok(1000));
    assert_eq!(scalar(".5"), Ok(500));
    assert_eq!(scalar("0.0"), Ok(0));
}

#[test]
fn signs() {
    assert_eq!(scalar("-1"), Ok(-1000));
    assert_eq!(scalar("+1"), Ok(1000));
    assert_eq!(scalar("-12.75"), Ok(-12_750));
    assert_eq!(scalar("-.5"), Ok(-500));
    assert_eq!(scalar("-0"), Ok(0));
    assert_eq!(scalar("-1000000"), Ok(-1_000_000_000));
}

#[test]
fn digits_past_the_third_are_dropped() {
    assert_eq!(scalar("1.2345"), Ok(1234));
    assert_eq!(scalar("1.9999"), Ok(1999));
    assert_eq!(scalar("-1.9999"), Ok(-1999));
    assert_eq!(scalar("0.0009"), Ok(0));
    assert_eq!(scalar("2.000000000000000000000000000001"), Ok(2000));
}

#[test]
fn words_that_are_no_numbers() {
    for word in [
        "", "-", "+", ".", "-.", "+.", "abc", "1a", "a1", "1.2.3", "1..2", "--1", "+-1", "1-", "NaN",
        "nan", "in", "infinit", "infinityy", "inff", "i", "1inf", "inf1", "1,5", "1.5x", "0x10", " 1",
    ] {
        assert_eq!(scalar(word), Err(LineError::Number), "{}", word);
    }
}

#[test]
fn exponents() {
    assert_eq!(scalar("1e3"), Ok(1_000_000));
    assert_eq!(scalar("1E3"), Ok(1_000_000));
    assert_eq!(scalar("1e+2"), Ok(100_000));
    assert_eq!(scalar("1.5e2"), Ok(150_000));
    assert_eq!(scalar("25E-1"), Ok(2500));
    assert_eq!(scalar("5e-1"), Ok(500));
    assert_eq!(scalar("-1.5e-2"), Ok(-15));
    assert_eq!(scalar("1.e1"), Ok(10_000));
    assert_eq!(scalar(".5e1"), Ok(5000));
    assert_eq!(scalar("+.5E+1"), Ok(5000));
    assert_eq!(scalar("1e0"), Ok(1000));
    assert_eq!(scalar("1e-0"), Ok(1000));
    assert_eq!(scalar("1e6"), Ok(1_000_000_000));
    assert_eq!(scalar("1000000000e-3"), Ok(1_000_000_000));
    assert_eq!(scalar("0.000000001e9"), Ok(1000));
    assert_eq!(scalar("12345678901234567890e-20"), Ok(123));
    assert_eq!(scalar("1e0003"), Ok(1_000_000));
}

#[test]
fn exponents_drop_what_is_less_than_a_thousandth() {
    assert_eq!(scalar("1e-3"), Ok(1));
    assert_eq!(scalar("1e-4"), Ok(0));
    assert_eq!(scalar("9.999e-3"), Ok(9));
    assert_eq!(scalar("-9.999e-3"), Ok(-9));
    assert_eq!(scalar("123456e-5"), Ok(1234));
    assert_eq!(scalar("1e-99999999999999999999999999999999"), Ok(0));
    assert_eq!(scalar("99999999999999999999e-99999999999999999999999999999999"), Ok(0));
}

#[test]
fn exponents_beyond_the_limit() {
    assert_eq!(scalar("1e7"), Err(LineError::Range));
    assert_eq!(scalar("1.000001e6"), Err(LineError::Range));
    assert_eq!(scalar("1.0000000001e6"), Ok(1_000_000_000));
    assert_eq!(scalar("-1e30"), Err(LineError::Range));
    assert_eq!(scalar("1e99999999999999999999999999999999"), Err(LineError::Range));
    assert_eq!(
        scalar("0.0000000000000000000001e99999999999999999999999999"),
        Err(LineError::Range)
    );
}

#[test]
fn zero_stays_zero_whatever_the_exponent() {
    assert_eq!(scalar("0e5"), Ok(0));
    assert_eq!(scalar("0e99999999999999999999999999999999"), Ok(0));
    assert_eq!(scalar("-0.000e99999999999999999999999999999999"), Ok(0));
    assert_eq!(scalar("0e-99999999999999999999999999999999"), Ok(0));
}

#[test]
fn exponents_that_are_malformed() {
    for word in [
        "1e", "1E", "1e+", "1e-", "e5", "E5", ".e5", "-e5", "1e5.5", "1e5x", "1ee5", "1e--5", "1e+-5",
        "1e 5", "1.5e", "1x5", "1e5e5", "e",
    ] {
        assert_eq!(scalar(word), Err(LineError::Number), "{}", word);
    }
}

#[test]
fn infinity_is_beyond_the_limit() {
    for word in ["inf", "-inf", "+inf", "INF", "Inf", "infinity", "-Infinity", "+INFINITY", "iNfInItY"] {
        assert_eq!(scalar(word), Err(LineError::Range), "{}", word);
    }
    assert_eq!(line("-inf inf 0 1 0 1"), Err(LineError::Range));
}

#[test]
fn numbers_beyond_the_limit() {
    assert_eq!(scalar("1000000.001"), Err(LineError::Range));
    assert_eq!(scalar("-1000000.001"), Err(LineError::Range));
    assert_eq!(scalar("1000001"), Err(LineError::Range));
    assert_eq!(scalar("9999999"), Err(LineError::Range));
    assert_eq!(scalar("10000000"), Err(LineError::Range));
    assert_eq!(scalar("99999999999999999999999999999999999999999999"), Err(LineError::Range));
    assert_eq!(scalar("-99999999999999999999999999999999999999999999.5"), Err(LineError::Range));
    assert_eq!(scalar("1000000.0009"), Ok(1_000_000_000));
}

#[test]
fn a_malformed_word_is_no_number_however_large() {
    assert_eq!(scalar("99999999999999999999x"), Err(LineError::Number));
}

#[test]
fn scalar_in_the_middle_of_the_data() {
    let data = b"xx-3.25yy";
    assert_eq!(parse_scalar(data, 2, 7), Ok(-3250));
    assert_eq!(parse_scalar(data, 3, 7), Ok(3250));
    assert_eq!(parse_scalar(data, 3, 5), Ok(3000));
    assert_eq!(parse_scalar(data, 1, 7), Err(LineError::Number));
    assert_eq!(parse_scalar(data, 4, 4), Err(LineError::Number));
}

#[test]
fn scan_stops_at_the_first_byte_of_another_class() {
    let data = b"  \t12ab\n c";
    assert_eq!(scan(data, 0, data.len(), ByteClass::Blank), 3);
    assert_eq!(scan(data, 3, data.len(), ByteClass::Digit), 5);
    assert_eq!(scan(data, 3, data.len(), ByteClass::InWord), 8);
    assert_eq!(scan(data, 0, data.len(), ByteClass::InLine), 7);
    assert_eq!(scan(data, 8, data.len(), ByteClass::InLine), 10);
    assert_eq!(scan(data, 0, 2, ByteClass::Blank), 2);
    assert_eq!(scan(data, 3, 3, ByteClass::Digit), 3);
    assert_eq!(scan(data, 5, data.len(), ByteClass::Digit), 5);
}

#[test]
fn byte_classes() {
    assert!(ByteClass::Blank.test(b' '));
    assert!(ByteClass::Blank.test(b'\t'));
    assert!(ByteClass::Blank.test(b'\r'));
    assert!(!ByteClass::Blank.test(b'\n'));
    assert!(!ByteClass::Blank.test(b'1'));
    assert!(ByteClass::InWord.test(b'1'));
    assert!(!ByteClass::InWord.test(b' '));
    assert!(ByteClass::InLine.test(b' '));
    assert!(!ByteClass::InLine.test(b'\n'));
    assert!(ByteClass::Digit.test(b'0'));
    assert!(ByteClass::Digit.test(b'9'));
    assert!(!ByteClass::Digit.test(b'/'));
    assert!(!ByteClass::Digit.test(b':'));
}

#[test]
fn read_digits_counts_up_to_the_cap() {
    let data = b"0123456789";
    assert_eq!(read_digits(data, 0, 0, 1000), 0);
    assert_eq!(read_digits(data, 0, 4, 1000), 123);
    assert_eq!(read_digits(data, 0, 5, 1000), 1000);
    assert_eq!(read_digits(data, 1, 8, 10_000_000), 1_234_567);
    assert_eq!(read_digits(data, 1, 9, 10_000_000), 10_000_000);
    assert_eq!(read_digits(data, 0, 10, u64::MAX as u128), 123_456_789);
    assert_eq!(read_digits(b"9999999", 0, 7, 0), 0);
}

#[test]
fn line_with_exponents() {
    assert_eq!(
        line("-1e1 1e1 0 5e-1 -2.5E0 25e-1"),
        Ok(bounds(-10_000, 10_000, 0, 500, -2500, 2500))
    );
    assert_eq!(line("0 1e 0 1 0 1"), Err(LineError::Number));
    assert_eq!(line("0 1e9 0 1 0 1"), Err(LineError::Range));
}

#[test]
fn line_with_six_numbers() {
    assert_eq!(line("0 1 2 3 4 5"), Ok(bounds(0, 1000, 2000, 3000, 4000, 5000)));
    assert_eq!(
        line("-12.75 -1.5 0.005 10 -3 +3"),
        Ok(bounds(-12_750, -1500, 5, 10_000, -3000, 3000))
    );
    assert_eq!(line("1 1 2 2 3 3"), Ok(bounds(1000, 1000, 2000, 2000, 3000, 3000)));
}

#[test]
fn line_with_runs_of_blanks() {
    assert_eq!(line("  0   1\t2 \t 3 4 5  "), Ok(bounds(0, 1000, 2000, 3000, 4000, 5000)));
    assert_eq!(line("0 1 2 3 4 5\r"), Ok(bounds(0, 1000, 2000, 3000, 4000, 5000)));
}

#[test]
fn line_with_the_wrong_number_of_fields() {
    assert_eq!(line(""), Err(LineError::Fields));
    assert_eq!(line("   "), Err(LineError::Fields));
    assert_eq!(line("0 1 2 3 4"), Err(LineError::Fields));
    assert_eq!(line("0 1 2 3 4 5 6"), Err(LineError::Fields));
    assert_eq!(line("a b c"), Err(LineError::Fields));
}

#[test]
fn line_with_a_field_that_is_no_number() {
    assert_eq!(line("0 1 2 x 4 5"), Err(LineError::Number));
    assert_eq!(line("0 1 2 3 4 5.5.5"), Err(LineError::Number));
    assert_eq!(line("0,1 2 3 4 5 6"), Err(LineError::Number));
}

#[test]
fn line_with_a_bound_beyond_the_limit() {
    assert_eq!(line("0 1000001 2 3 4 5"), Err(LineError::Range));
    assert_eq!(line("-1000000.5 1 2 3 4 5"), Err(LineError::Range));
}

#[test]
fn line_with_bounds_out_of_order() {
    assert_eq!(line("1 0 2 3 4 5"), Err(LineError::Order));
    assert_eq!(line("0 1 3 2 4 5"), Err(LineError::Order));
    assert_eq!(line("0 1 2 3 5 4"), Err(LineError::Order));
    assert_eq!(line("0 1 2 3 -4 -5"), Err(LineError::Order));
}

#[test]
fn first_fault_of_a_line_is_reported() {
    // the number of fields comes first
    assert_eq!(line("x 9999999 1 0"), Err(LineError::Fields));
    // then the fields from left to right
    assert_eq!(line("9999999 x 2 3 4 5"), Err(LineError::Range));
    assert_eq!(line("x 9999999 2 3 4 5"), Err(LineError::Number));
    // then the order
    assert_eq!(line("1 0 2 3 4 x"), Err(LineError::Number));
    assert_eq!(line("1 0 2 3 4 9999999"), Err(LineError::Range));
}

#[test]
fn file_with_n_lines_gives_n_boxes_in_order() {
    let text = "0 1 0 1 0 1\n-5 5 -4 4 -3 3\n1.5 2.5 3.5 4.5 5.5 6.5\n";
    let boxes = load(text).unwrap();
    assert_eq!(
        boxes,
        vec![
            bounds(0, 1000, 0, 1000, 0, 1000),
            bounds(-5000, 5000, -4000, 4000, -3000, 3000),
            bounds(1500, 2500, 3500, 4500, 5500, 6500),
        ]
    );
    for b in &boxes {
        assert!(b.min_x <= b.max_x && b.min_y <= b.max_y && b.min_z <= b.max_z);
        assert!(b.is_valid());
    }
}

#[test]
fn last_line_needs_no_line_feed() {
    assert_eq!(load("0 1 0 1 0 1\n2 3 2 3 2 3").unwrap().len(), 2);
    assert_eq!(load("0 1 0 1 0 1").unwrap().len(), 1);
}

#[test]
fn empty_file_gives_no_boxes() {
    assert_eq!(load(""), Ok(vec![]));
}

#[test]
fn lines_may_end_in_carriage_return_and_line_feed() {
    assert_eq!(
        load("0 1 0 1 0 1\r\n2 3 2 3 2 3\r\n"),
        Ok(vec![bounds(0, 1000, 0, 1000, 0, 1000), bounds(2000, 3000, 2000, 3000, 2000, 3000)])
    );
}

#[test]
fn empty_line_fails_the_file() {
    assert_eq!(load("\n"), Err(LoadError { line: 0, kind: LineError::Fields }));
    assert_eq!(
        load("0 1 0 1 0 1\n\n2 3 2 3 2 3\n"),
        Err(LoadError { line: 1, kind: LineError::Fields })
    );
    assert_eq!(
        load("0 1 0 1 0 1\n\n"),
        Err(LoadError { line: 1, kind: LineError::Fields })
    );
}

#[test]
fn first_faulty_line_fails_the_file() {
    assert_eq!(
        load("0 1 0 1 0 1\n0 1 0 1 0 x\n1 0 0 1 0 1\n"),
        Err(LoadError { line: 1, kind: LineError::Number })
    );
    assert_eq!(
        load("0 1 0 1 0 1\n0 1 0 1 0 1\n1 0 0 1 0 1"),
        Err(LoadError { line: 2, kind: LineError::Order })
    );
    assert_eq!(
        load("0 9999999 0 1 0 1\n"),
        Err(LoadError { line: 0, kind: LineError::Range })
    );
}
