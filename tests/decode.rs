use gob_decode::de::{DecodeError, Event};
use gob_decode::gob::{swap_bytes, Error, Message};
use gob_decode::stream::{Deserializer, Record};
use gob_decode::types::{TypeId, Types, WireType};

fn writer() -> Message {
    Message::new(Vec::new())
}

fn bytes_of(m: &Message) -> Vec<u8> {
    m.get_ref().clone()
}

fn uint_bytes(n: u64) -> Vec<u8> {
    let mut m = writer();
    m.write_uint(n).unwrap();
    bytes_of(&m)
}

fn read_back_uint(b: Vec<u8>) -> (u64, usize) {
    let mut m = Message::new(b);
    let v = m.read_uint().unwrap();
    (v, m.pos())
}

fn string_field(m: &mut Message, s: &str) {
    m.write_bytes(s.as_bytes()).unwrap();
}

/// The announcement of struct type 65 {Name: string, Age: int}.
fn person_announcement() -> Vec<u8> {
    let mut body = writer();
    body.write_int(-65).unwrap();
    body.write_uint(3).unwrap(); // StructT
    body.write_uint(1).unwrap(); // CommonType
    body.write_uint(1).unwrap(); // Name
    string_field(&mut body, "Person");
    body.write_uint(1).unwrap(); // Id
    body.write_int(65).unwrap();
    body.write_uint(0).unwrap();
    body.write_uint(1).unwrap(); // Field
    body.write_uint(2).unwrap();
    for (name, id) in [("Name", 6i64), ("Age", 2i64)] {
        body.write_uint(1).unwrap();
        string_field(&mut body, name);
        body.write_uint(1).unwrap();
        body.write_int(id).unwrap();
        body.write_uint(0).unwrap();
    }
    body.write_uint(0).unwrap(); // end of structType
    body.write_uint(0).unwrap(); // end of wireType
    record(bytes_of(&body))
}

fn record(body: Vec<u8>) -> Vec<u8> {
    let mut m = writer();
    m.write_bytes(&body).unwrap();
    bytes_of(&m)
}

fn person_value(name: Option<&str>, age: i64) -> Vec<u8> {
    let mut body = writer();
    body.write_int(65).unwrap();
    let mut delta = 1;
    if let Some(n) = name {
        body.write_uint(1).unwrap();
        string_field(&mut body, n);
    } else {
        delta = 2;
    }
    if age != 0 {
        body.write_uint(delta).unwrap();
        body.write_int(age).unwrap();
    }
    body.write_uint(0).unwrap();
    record(bytes_of(&body))
}

fn text(input: &[u8], e: &Event) -> String {
    match e {
        Event::Str { start, len } => String::from_utf8(input[*start..*start + *len].to_vec()).unwrap(),
        _ => panic!("not a string event: {:?}", e),
    }
}

#[test]
fn uint_round_trip_and_lengths() {
    for (n, len) in [(0u64, 1usize), (127, 1), (128, 2), (255, 2), (256, 3), ((1u64 << 56) - 1, 8), (u64::MAX, 9)] {
        let b = uint_bytes(n);
        assert_eq!(b.len(), len, "length for {}", n);
        assert_eq!(read_back_uint(b), (n, len));
    }
    assert_eq!(uint_bytes(128), vec![0xFF, 0x80]);
    assert_eq!(uint_bytes(256), vec![0xFE, 0x01, 0x00]);
}

#[test]
fn int_zigzag_round_trip() {
    for n in [0i64, -1, 1, i64::MIN, i64::MAX, 300, -300] {
        let mut m = writer();
        m.write_int(n).unwrap();
        let mut r = Message::new(bytes_of(&m));
        assert_eq!(r.read_int().unwrap(), n);
    }
    let mut m = writer();
    m.write_int(-1).unwrap();
    m.write_int(1).unwrap();
    assert_eq!(bytes_of(&m), vec![1, 2]);
}

#[test]
fn bool_round_trip_and_overflow() {
    let mut m = writer();
    m.write_bool(true).unwrap();
    m.write_bool(false).unwrap();
    m.write_uint(2).unwrap();
    let mut r = Message::new(bytes_of(&m));
    assert_eq!(r.read_bool(), Ok(true));
    assert_eq!(r.read_bool(), Ok(false));
    assert_eq!(r.read_bool(), Err(Error::IntegerOverflow));
}

#[test]
fn float_bytes_reversed() {
    let bits = 1.0f64.to_bits();
    assert_eq!(bits, 0x3FF0_0000_0000_0000);
    assert_eq!(swap_bytes(bits), 0xF03F);
    let mut m = writer();
    m.write_float(bits).unwrap();
    assert_eq!(bytes_of(&m), vec![0xFE, 0xF0, 0x3F]);
    let mut r = Message::new(bytes_of(&m));
    assert_eq!(f64::from_bits(r.read_float().unwrap()), 1.0);
    for x in [0.0f64, -0.0, f64::INFINITY, f64::NEG_INFINITY, 1.5e300] {
        let mut m = writer();
        m.write_float(x.to_bits()).unwrap();
        let mut r = Message::new(bytes_of(&m));
        assert_eq!(r.read_float().unwrap(), x.to_bits());
    }
}

#[test]
fn bytes_round_trip_and_short_input() {
    let mut m = writer();
    m.write_bytes(b"hello").unwrap();
    let b = bytes_of(&m);
    assert_eq!(b, vec![5, b'h', b'e', b'l', b'l', b'o']);
    let mut r = Message::new(b.clone());
    assert_eq!(r.read_bytes_len(), Ok(5));
    let mut short = Message::new(b[..4].to_vec());
    assert_eq!(short.read_bytes_len(), Err(Error::IncompleteMessage));
}

#[test]
fn uint_truncated_or_too_long() {
    assert_eq!(Message::new(vec![]).read_uint(), Err(Error::IncompleteMessage));
    assert_eq!(Message::new(vec![0xFE, 0x01]).read_uint(), Err(Error::IncompleteMessage));
    let mut nine = vec![0xF7u8];
    nine.extend_from_slice(&[1; 9]);
    assert_eq!(Message::new(nine).read_uint(), Err(Error::IntegerOverflow));
}

#[test]
fn registry_lookup_insert_next_id() {
    let mut t = Types::new();
    assert!(matches!(t.lookup(TypeId(16)), Some(WireType::Struct(_))));
    assert!(matches!(t.lookup(TypeId(22)), Some(WireType::Slice(_))));
    assert!(t.lookup(TypeId(65)).is_none());
    assert_eq!(t.next_custom_id(), TypeId(65));
    let mut d = Deserializer::from_slice(&person_announcement());
    assert_eq!(d.decode_record(), Ok(Record::Announced(65)));
    let def = WireType::Slice(gob_decode::types::SliceType {
        common: gob_decode::types::CommonType { name: "[]int".to_string(), id: TypeId(70) },
        elem: TypeId(2),
    });
    t.insert(def.clone());
    assert_eq!(t.lookup(TypeId(70)), Some(&def));
    assert_eq!(t.next_custom_id(), TypeId(71));
}

#[test]
fn end_to_end_person() {
    let mut input = person_announcement();
    input.extend(person_value(Some("Ann"), 30));
    let mut d = Deserializer::from_slice(&input);
    let evs = d.next_value().unwrap();
    assert_eq!(evs.len(), 6);
    assert_eq!(evs[0], Event::StructStart(65));
    assert_eq!(evs[1], Event::Field(0));
    assert_eq!(text(&input, &evs[2]), "Ann");
    assert_eq!(evs[3], Event::Field(1));
    assert_eq!(evs[4], Event::Int(30));
    assert_eq!(evs[5], Event::StructEnd);
}

#[test]
fn omitted_field_is_absent() {
    let mut input = person_announcement();
    input.extend(person_value(Some("Ann"), 0));
    let mut d = Deserializer::from_slice(&input);
    let evs = d.next_value().unwrap();
    assert_eq!(evs.len(), 4);
    assert!(!evs.contains(&Event::Field(1)));
    let mut input = person_announcement();
    input.extend(person_value(None, 7));
    let mut d = Deserializer::from_slice(&input);
    let evs = d.next_value().unwrap();
    assert_eq!(evs, vec![Event::StructStart(65), Event::Field(1), Event::Int(7), Event::StructEnd]);
}

#[test]
fn value_without_announcement_is_unknown() {
    let input = person_value(Some("Ann"), 30);
    let mut d = Deserializer::from_slice(&input);
    assert_eq!(d.next_value(), Err(DecodeError::MalformedSingleton));
    // with the discriminator present, the type itself is unknown
    let mut body = writer();
    body.write_int(65).unwrap();
    body.write_uint(0).unwrap();
    body.write_uint(1).unwrap();
    let input = record(bytes_of(&body));
    let mut d = Deserializer::from_slice(&input);
    assert_eq!(d.next_value(), Err(DecodeError::UnknownTypeId(65)));
}

#[test]
fn type_id_mismatch_keeps_registry() {
    let mut bad = person_announcement();
    // the record names type 66 (int -66 folds to 131: 0xFF 0x83)
    let mut body = writer();
    body.write_int(-66).unwrap();
    let inner = &bad[3..];
    let mut new_body = bytes_of(&body);
    new_body.extend_from_slice(inner);
    bad = record(new_body);
    let mut d = Deserializer::from_slice(&bad);
    assert_eq!(d.decode_record(), Err(DecodeError::TypeIdMismatch));
    let mut input = bad.clone();
    input.extend(person_value(Some("Ann"), 30));
    let mut d = Deserializer::from_slice(&input);
    assert_eq!(d.decode_record(), Err(DecodeError::TypeIdMismatch));
    assert_eq!(d.decode_record(), Err(DecodeError::MalformedSingleton));
}

#[test]
fn truncated_records_are_incomplete() {
    let ann = person_announcement();
    for k in 0..ann.len() {
        let mut d = Deserializer::from_slice(&ann[..k]);
        assert_eq!(d.decode_record(), Err(DecodeError::IncompleteMessage), "cut at {}", k);
    }
    let mut full = person_announcement();
    full.extend(person_value(Some("Ann"), 30));
    for k in ann.len()..full.len() {
        let mut d = Deserializer::from_slice(&full[..k]);
        assert_eq!(d.next_value(), Err(DecodeError::IncompleteMessage), "cut at {}", k);
    }
}

#[test]
fn singleton_values() {
    let mut body = writer();
    body.write_int(6).unwrap();
    body.write_uint(0).unwrap();
    string_field(&mut body, "hi");
    let input = record(bytes_of(&body));
    let mut d = Deserializer::from_slice(&input);
    let evs = d.next_value().unwrap();
    assert_eq!(text(&input, &evs[0]), "hi");

    let mut body = writer();
    body.write_int(6).unwrap();
    body.write_uint(0).unwrap();
    body.write_bytes(&[0xFF, 0xFE]).unwrap();
    let input = record(bytes_of(&body));
    assert_eq!(Deserializer::from_slice(&input).next_value(), Err(DecodeError::InvalidUtf8));

    let mut body = writer();
    body.write_int(3).unwrap();
    body.write_uint(1).unwrap();
    let input = record(bytes_of(&body));
    assert_eq!(Deserializer::from_slice(&input).next_value(), Err(DecodeError::MalformedSingleton));

    let mut body = writer();
    body.write_int(7).unwrap();
    body.write_uint(0).unwrap();
    body.write_float(1.0f64.to_bits()).unwrap();
    body.write_float(2.0f64.to_bits()).unwrap();
    let input = record(bytes_of(&body));
    assert_eq!(
        Deserializer::from_slice(&input).next_value(),
        Ok(vec![Event::Complex(1.0f64.to_bits(), 2.0f64.to_bits())])
    );
}

#[test]
fn field_number_overflow() {
    let mut input = person_announcement();
    let mut body = writer();
    body.write_int(65).unwrap();
    body.write_uint(3).unwrap();
    body.write_int(1).unwrap();
    body.write_uint(0).unwrap();
    input.extend(record(bytes_of(&body)));
    let mut d = Deserializer::from_slice(&input);
    assert_eq!(d.next_value(), Err(DecodeError::FieldNumberOverflow { type_id: 65, field: 2 }));
}

#[test]
fn slice_of_ints() {
    // announce []int as type 66, then a value of it
    let mut body = writer();
    body.write_int(-66).unwrap();
    body.write_uint(2).unwrap(); // SliceT
    body.write_uint(1).unwrap(); // CommonType
    body.write_uint(2).unwrap(); // Id
    body.write_int(66).unwrap();
    body.write_uint(0).unwrap();
    body.write_uint(1).unwrap(); // Elem
    body.write_int(2).unwrap();
    body.write_uint(0).unwrap();
    body.write_uint(0).unwrap();
    let mut input = record(bytes_of(&body));
    let mut body = writer();
    body.write_int(66).unwrap();
    body.write_uint(0).unwrap();
    body.write_uint(3).unwrap();
    for v in [5i64, -5, 1000] {
        body.write_int(v).unwrap();
    }
    input.extend(record(bytes_of(&body)));
    let mut d = Deserializer::from_slice(&input);
    assert_eq!(
        d.next_value(),
        Ok(vec![Event::SeqStart(3), Event::Int(5), Event::Int(-5), Event::Int(1000)])
    );
}

#[test]
fn over_long_uint_still_reads() {
    assert_eq!(read_back_uint(vec![0xFE, 0x00, 0x05]), (5, 3));
    assert_eq!(read_back_uint(vec![0xF8, 0, 0, 0, 0, 0, 0, 0, 0x80]), (128, 9));
}

#[test]
fn malformed_announcement() {
    let mut body = writer();
    body.write_int(-65).unwrap();
    body.write_uint(5).unwrap(); // past the last field of wireType
    body.write_uint(0).unwrap();
    let input = record(bytes_of(&body));
    let mut d = Deserializer::from_slice(&input);
    assert_eq!(d.decode_record(), Err(DecodeError::FieldNumberOverflow { type_id: 16, field: 4 }));

    // a wire type that holds no definition
    let mut body = writer();
    body.write_int(-65).unwrap();
    body.write_uint(0).unwrap();
    let input = record(bytes_of(&body));
    let mut d = Deserializer::from_slice(&input);
    assert_eq!(d.decode_record(), Err(DecodeError::MalformedType));
}

#[test]
fn registry_keeps_announced_definitions() {
    let mut t = Types::new();
    assert!(t.custom().is_empty());
    let def = WireType::MapOf(gob_decode::types::MapType {
        common: gob_decode::types::CommonType { name: "map[string]int".to_string(), id: TypeId(80) },
        key: TypeId(6),
        elem: TypeId(2),
    });
    t.insert(def.clone());
    assert_eq!(t.custom(), &vec![def]);
    assert_eq!(t.next_custom_id(), TypeId(81));
}

#[test]
fn learned_field_names() {
    let mut d = Deserializer::from_slice(&person_announcement());
    assert_eq!(d.decode_record(), Ok(Record::Announced(65)));
    match d.registry().lookup(TypeId(65)) {
        Some(WireType::Struct(st)) => {
            assert_eq!(st.common.name, "Person");
            assert_eq!(st.common.id, TypeId(65));
            let names: Vec<&str> = st.fields.iter().map(|f| f.name.as_str()).collect();
            assert_eq!(names, vec!["Name", "Age"]);
            let ids: Vec<TypeId> = st.fields.iter().map(|f| f.id).collect();
            assert_eq!(ids, vec![TypeId(6), TypeId(2)]);
        }
        other => panic!("expected a struct definition, got {:?}", other),
    }
    assert_eq!(d.registry().custom().len(), 1);
}

#[test]
fn lookup_outside_custom_range() {
    let mut t = Types::new();
    let low = WireType::Slice(gob_decode::types::SliceType {
        common: gob_decode::types::CommonType { name: "[]bool".to_string(), id: TypeId(10) },
        elem: TypeId(1),
    });
    t.insert(low);
    assert_eq!(t.lookup(TypeId(10)), None);
    let shadow = WireType::Slice(gob_decode::types::SliceType {
        common: gob_decode::types::CommonType { name: "shadow".to_string(), id: TypeId(16) },
        elem: TypeId(1),
    });
    t.insert(shadow);
    match t.lookup(TypeId(16)) {
        Some(WireType::Struct(st)) => assert_eq!(st.common.name, "wireType"),
        other => panic!("expected the fixed wireType definition, got {:?}", other),
    }
    assert_eq!(t.lookup(TypeId(1)), None);
}
