use arbitrary_json::ArbitraryValue;
use arbitrary_json::ByteCursor;
use arbitrary_json::Number;
use arbitrary_json::Value;

fn to_serde(v: &Value) -> serde_json::Value {
    match v {
        Value::Null => serde_json::Value::Null,
        Value::Bool(b) => serde_json::Value::Bool(*b),
        Value::Number(n) => serde_json::Value::Number(match n {
            Number::PosInt(u) => serde_json::Number::from(*u),
            Number::NegInt(i) => serde_json::Number::from(*i),
            Number::FloatBits(bits) => {
                serde_json::Number::from_f64(f64::from_bits(*bits)).expect("finite by construction")
            }
        }),
        Value::String(s) => serde_json::Value::String(s.clone()),
        Value::Array(es) => serde_json::Value::Array(es.iter().map(to_serde).collect()),
        Value::Object(fs) => {
            let mut map = serde_json::Map::new();
            for (k, v) in fs {
                map.insert(k.clone(), to_serde(v));
            }
            serde_json::Value::Object(map)
        }
    }
}

fn generate(bytes: &[u8]) -> Value {
    let mut cursor = ByteCursor::new(bytes.to_vec());
    ArbitraryValue::arbitrary(&mut cursor)
        .expect("generation should succeed")
        .0
}

fn assert_round_trips(bytes: &[u8]) {
    let doc = to_serde(&generate(bytes));
    let compact = serde_json::to_string(&doc).expect("serializable");
    let reparsed: serde_json::Value = serde_json::from_str(&compact).expect("parseable");
    assert_eq!(doc, reparsed);
    let pretty = serde_json::to_string_pretty(&doc).expect("serializable");
    let reparsed: serde_json::Value = serde_json::from_str(&pretty).expect("parseable");
    assert_eq!(doc, reparsed);
}

fn number_buffer(kind: u8, payload: u64) -> Vec<u8> {
    let mut buf = vec![2, kind];
    buf.extend_from_slice(&payload.to_le_bytes());
    buf
}

#[test]
fn round_trip_primitives() {
    assert_round_trips(&[0]); // null
    assert_round_trips(&[1, 1]); // true
    assert_round_trips(&[1, 0]); // false
    assert_round_trips(&[3, 1, 104, 1, 105, 0]); // "hi"
}

#[test]
fn round_trip_integer_extremes() {
    assert_round_trips(&number_buffer(1, u64::MAX));
    assert_round_trips(&number_buffer(1, 0));
    assert_round_trips(&number_buffer(2, i64::MIN as u64));
    assert_round_trips(&number_buffer(2, (-1i64) as u64));
}

#[test]
fn round_trip_floats() {
    assert_round_trips(&number_buffer(0, (1.5f64).to_bits()));
    assert_round_trips(&number_buffer(0, (-0.0f64).to_bits()));
    assert_round_trips(&number_buffer(0, f64::MAX.to_bits()));
    assert_round_trips(&number_buffer(0, 1)); // smallest subnormal
}

#[test]
fn round_trip_nested_containers() {
    // object { "A": [null, true], "" : 7 }
    let mut buf = vec![5];
    buf.extend_from_slice(&[1, 1, 65, 0]); // key "A"
    buf.extend_from_slice(&[4, 1, 0, 1, 1, 3, 0]); // [null, true]
    buf.extend_from_slice(&[1, 0]); // key ""
    buf.extend_from_slice(&number_buffer(1, 7)); // 7
    buf.push(0); // stop
    assert_round_trips(&buf);
}

#[test]
fn round_trip_non_ascii_string() {
    assert_round_trips(&[3, 1, 0xE9, 1, 0x7F, 1, 0x00, 0]);
}

fn assert_well_formed(v: &Value) {
    match v {
        Value::Null | Value::Bool(_) | Value::String(_) => {}
        Value::Number(Number::PosInt(_)) => {}
        Value::Number(Number::NegInt(i)) => assert!(*i < 0),
        Value::Number(Number::FloatBits(bits)) => assert!(f64::from_bits(*bits).is_finite()),
        Value::Array(es) => {
            for e in es {
                assert_well_formed(e);
            }
        }
        Value::Object(fs) => {
            for i in 0..fs.len() {
                for j in (i + 1)..fs.len() {
                    assert_ne!(fs[i].0, fs[j].0);
                }
                assert_well_formed(&fs[i].1);
            }
        }
    }
}

#[test]
fn generated_values_are_well_formed() {
    // an object written with a duplicate key, nested inside an array
    let mut inner = vec![5];
    inner.extend_from_slice(&[1, 1, 65, 0, 1, 1]); // "A": true
    inner.extend_from_slice(&[1, 1, 65, 0, 1, 2]); // "A": false
    inner.push(0);
    let mut buf = vec![4, 1];
    buf.extend_from_slice(&inner);
    buf.extend_from_slice(&[1, 3, 1, 120, 0]); // "x"
    buf.push(0);
    let v = generate(&buf);
    assert_well_formed(&v);
    assert_round_trips(&buf);
}
