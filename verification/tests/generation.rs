use arbitrary_json::ArbitraryArray;
use arbitrary_json::ArbitraryObject;
use arbitrary_json::ArbitraryValue;
use arbitrary_json::ByteCursor;
use arbitrary_json::DecodeError;
use arbitrary_json::Number;
use arbitrary_json::Value;

fn generate(bytes: &[u8]) -> (Result<Value, DecodeError>, usize) {
    let mut cursor = ByteCursor::new(bytes.to_vec());
    let r = ArbitraryValue::arbitrary(&mut cursor);
    (r.map(|av| av.0), cursor.position())
}

#[test]
fn zero_byte_yields_null_and_consumes_one() {
    let (r, pos) = generate(&[0x00]);
    assert_eq!(r, Ok(Value::Null));
    assert_eq!(pos, 1);
}

#[test]
fn zero_bytes_followed_by_more_zeros_still_null() {
    let (r, pos) = generate(&[0x00, 0x00, 0x00, 0x00]);
    assert_eq!(r, Ok(Value::Null));
    assert_eq!(pos, 1);
}

#[test]
fn empty_buffer_fails_with_insufficient_data() {
    let (r, pos) = generate(&[]);
    assert_eq!(r, Err(DecodeError::InsufficientData));
    assert_eq!(pos, 0);
}

#[test]
fn selector_four_then_zero_yields_empty_array() {
    let (r, pos) = generate(&[4, 0]);
    assert_eq!(r, Ok(Value::Array(vec![])));
    assert_eq!(pos, 2);
}

#[test]
fn selector_reduces_modulo_six() {
    // 6 % 6 == 0, so byte 6 picks Null just as byte 0 does.
    let (r, pos) = generate(&[6]);
    assert_eq!(r, Ok(Value::Null));
    assert_eq!(pos, 1);
    // 10 % 6 == 4 picks Array.
    let (r, pos) = generate(&[10, 0]);
    assert_eq!(r, Ok(Value::Array(vec![])));
    assert_eq!(pos, 2);
}

#[test]
fn boolean_odd_byte_is_true_even_is_false() {
    let (r, pos) = generate(&[1, 3]);
    assert_eq!(r, Ok(Value::Bool(true)));
    assert_eq!(pos, 2);
    let (r, pos) = generate(&[1, 2]);
    assert_eq!(r, Ok(Value::Bool(false)));
    assert_eq!(pos, 2);
}

#[test]
fn boolean_without_its_byte_fails() {
    let (r, _) = generate(&[1]);
    assert_eq!(r, Err(DecodeError::InsufficientData));
}

#[test]
fn unsigned_number_reads_little_endian() {
    let (r, pos) = generate(&[2, 1, 42, 1, 0, 0, 0, 0, 0, 0]);
    assert_eq!(r, Ok(Value::Number(Number::PosInt(42 + 256))));
    assert_eq!(pos, 10);
}

#[test]
fn signed_number_negative_stays_signed() {
    let (r, pos) = generate(&[2, 2, 0xFF, 0xFF, 0xFF, 0xFF, 0xFF, 0xFF, 0xFF, 0xFF]);
    assert_eq!(r, Ok(Value::Number(Number::NegInt(-1))));
    assert_eq!(pos, 10);
}

#[test]
fn signed_number_non_negative_becomes_unsigned() {
    let (r, _) = generate(&[2, 2, 5, 0, 0, 0, 0, 0, 0, 0]);
    assert_eq!(r, Ok(Value::Number(Number::PosInt(5))));
}

#[test]
fn float_number_carries_finite_bit_pattern() {
    let bits = (1.5f64).to_bits();
    let mut buf = vec![2, 0];
    buf.extend_from_slice(&bits.to_le_bytes());
    let (r, pos) = generate(&buf);
    assert_eq!(r, Ok(Value::Number(Number::FloatBits(bits))));
    assert_eq!(pos, 10);
}

#[test]
fn non_finite_float_fails_with_incorrect_format() {
    let mut buf = vec![2, 0];
    buf.extend_from_slice(&f64::NAN.to_bits().to_le_bytes());
    let (r, _) = generate(&buf);
    assert_eq!(r, Err(DecodeError::IncorrectFormat));

    let mut buf = vec![2, 0];
    buf.extend_from_slice(&f64::INFINITY.to_bits().to_le_bytes());
    let (r, _) = generate(&buf);
    assert_eq!(r, Err(DecodeError::IncorrectFormat));
}

#[test]
fn number_without_eight_bytes_fails() {
    let (r, _) = generate(&[2, 1, 9, 9, 9]);
    assert_eq!(r, Err(DecodeError::InsufficientData));
}

#[test]
fn string_decodes_one_byte_per_continued_character() {
    let (r, pos) = generate(&[3, 1, 65, 1, 66, 0]);
    assert_eq!(r, Ok(Value::String("AB".to_string())));
    assert_eq!(pos, 6);
}

#[test]
fn string_stops_when_buffer_runs_out() {
    let (r, pos) = generate(&[3, 1, 65]);
    assert_eq!(r, Ok(Value::String("A".to_string())));
    assert_eq!(pos, 3);
}

#[test]
fn string_continuation_without_its_character_fails() {
    let (r, _) = generate(&[3, 1]);
    assert_eq!(r, Err(DecodeError::InsufficientData));
}

#[test]
fn high_bytes_become_latin_1_characters() {
    let (r, _) = generate(&[3, 1, 0xE9, 0]);
    assert_eq!(r, Ok(Value::String("\u{e9}".to_string())));
}

#[test]
fn array_of_one_null() {
    let (r, pos) = generate(&[4, 1, 0, 0]);
    assert_eq!(r, Ok(Value::Array(vec![Value::Null])));
    assert_eq!(pos, 4);
}

#[test]
fn array_stops_when_buffer_runs_out() {
    let (r, pos) = generate(&[4]);
    assert_eq!(r, Ok(Value::Array(vec![])));
    assert_eq!(pos, 1);
}

#[test]
fn array_element_failure_aborts_whole_generation() {
    // continue, then a number that runs out of bytes
    let (r, _) = generate(&[4, 1, 2, 1, 7]);
    assert_eq!(r, Err(DecodeError::InsufficientData));
}

#[test]
fn object_of_one_member() {
    let (r, pos) = generate(&[5, 1, 1, 65, 0, 0, 0]);
    assert_eq!(
        r,
        Ok(Value::Object(vec![("A".to_string(), Value::Null)]))
    );
    assert_eq!(pos, 7);
}

#[test]
fn object_duplicate_key_overwrites_in_place() {
    let mut buf = vec![5];
    buf.extend_from_slice(&[1, 1, 65, 0, 1, 1]); // "A": true
    buf.extend_from_slice(&[1, 1, 66, 0, 0]); // "B": null
    buf.extend_from_slice(&[1, 1, 65, 0, 1, 2]); // "A": false again
    buf.push(0); // stop
    let (r, _) = generate(&buf);
    assert_eq!(
        r,
        Ok(Value::Object(vec![
            ("A".to_string(), Value::Bool(false)),
            ("B".to_string(), Value::Null),
        ]))
    );
}

#[test]
fn generation_is_deterministic_across_fresh_cursors() {
    let mut buf = vec![5, 1, 1, 65, 0, 4, 1, 2, 0];
    buf.extend_from_slice(&(0.25f64).to_bits().to_le_bytes());
    buf.extend_from_slice(&[0, 0]);
    let (r1, p1) = generate(&buf);
    let (r2, p2) = generate(&buf);
    assert_eq!(r1, r2);
    assert_eq!(p1, p2);
}

#[test]
fn generation_terminates_on_adversarial_buffers() {
    // deeply nested arrays: selector 4, continue, selector 4, continue, ...
    // and a final lone selector whose exhausted cursor closes every level
    let mut buf = Vec::new();
    for _ in 0..400 {
        buf.push(4);
        buf.push(1);
    }
    buf.push(4);
    let (r, pos) = generate(&buf);
    assert!(r.is_ok());
    assert_eq!(pos, buf.len());

    // the same nesting cut short mid-element aborts the whole generation
    let buf = vec![4, 1, 4, 1];
    let (r, _) = generate(&buf);
    assert_eq!(r, Err(DecodeError::InsufficientData));

    // every byte odd: keeps asking for more members until the budget is gone
    let buf = vec![0x01; 1001];
    let (_, pos) = generate(&buf);
    assert!(pos <= buf.len());
}

#[test]
fn array_generator_reads_elements_without_selector() {
    let mut cursor = ByteCursor::new(vec![1, 0, 0]);
    let r = ArbitraryArray::arbitrary(&mut cursor);
    assert_eq!(r.map(|aa| aa.0), Ok(vec![Value::Null]));
    assert_eq!(cursor.position(), 3);
}

#[test]
fn object_generator_reads_members_without_selector() {
    let mut cursor = ByteCursor::new(vec![0]);
    let r = ArbitraryObject::arbitrary(&mut cursor);
    assert_eq!(r.map(|ao| ao.0), Ok(vec![]));
    assert_eq!(cursor.position(), 1);
}

#[test]
fn cursor_reads_are_little_endian_and_fail_preserving_position() {
    let mut cursor = ByteCursor::new(vec![1, 2, 3, 4, 5, 6, 7, 8]);
    assert_eq!(cursor.read_u64(), Ok(0x0807060504030201));
    assert_eq!(cursor.position(), 8);
    assert_eq!(cursor.read_u8(), Err(DecodeError::InsufficientData));
    assert_eq!(cursor.position(), 8);

    let mut cursor = ByteCursor::new(vec![0xFE, 0xFF, 0xFF, 0xFF, 0xFF, 0xFF, 0xFF, 0xFF]);
    assert_eq!(cursor.read_i64(), Ok(-2));

    let mut cursor = ByteCursor::new(vec![5, 4]);
    assert_eq!(cursor.read_bool(), Ok(true));
    assert_eq!(cursor.read_bool(), Ok(false));
    assert_eq!(cursor.remaining(), 0);
}
