use axiom_core::connection_v3::ConnectionType;
use axiom_core::connection_v3::ConnectionV3;
use axiom_core::connection_v3::CONNECTION_RECORD_SIZE;
use axiom_core::experience::ExperienceEvent;
use axiom_core::experience::EVENT_RECORD_SIZE;
use axiom_core::layout::is_zero;
use axiom_core::layout::put_u128;
use axiom_core::layout::put_u16;
use axiom_core::layout::put_u32;
use axiom_core::layout::put_u64;
use axiom_core::layout::put_words;
use axiom_core::layout::put_zeros;
use axiom_core::layout::read_u128;
use axiom_core::layout::read_u16;
use axiom_core::layout::read_u32;
use axiom_core::layout::read_u64;
use axiom_core::layout::read_words;
use axiom_core::token::CoordinateSpace;
use axiom_core::token::EntityType;
use axiom_core::token::Token;
use axiom_core::token::TOKEN_RECORD_SIZE;

#[test]
fn fields_are_little_endian() {
    let mut out = vec![0xaa];
    put_u16(&mut out, 0x0102);
    put_u32(&mut out, 0x0304_0506);
    put_u64(&mut out, 0x0708_090a_0b0c_0d0e);
    put_u128(&mut out, 1);
    put_words(&mut out, &vec![0x1122_3344, 5]);
    put_zeros(&mut out, 2);
    let mut expected = vec![
        0xaa, 0x02, 0x01, 0x06, 0x05, 0x04, 0x03, 0x0e, 0x0d, 0x0c, 0x0b, 0x0a, 0x09, 0x08, 0x07,
        0x01,
    ];
    expected.extend_from_slice(&[0; 15]);
    expected.extend_from_slice(&[0x44, 0x33, 0x22, 0x11, 5, 0, 0, 0, 0, 0]);
    assert_eq!(out, expected);
    assert_eq!(read_u16(&out, 1), 0x0102);
    assert_eq!(read_u32(&out, 3), 0x0304_0506);
    assert_eq!(read_u64(&out, 7), 0x0708_090a_0b0c_0d0e);
    assert_eq!(read_u128(&out, 15), 1);
    assert_eq!(read_words(&out, 31, 2), vec![0x1122_3344, 5]);
    assert_eq!(read_words(&out, 31, 0), Vec::<u32>::new());
    assert!(is_zero(&out, 39, 41));
    assert!(is_zero(&out, 16, 31));
    assert!(!is_zero(&out, 15, 31));
    assert!(is_zero(&out, 3, 3));
}

#[test]
fn connection_record_has_the_documented_layout() {
    let mut c = ConnectionV3::new(3, 0x0a0b_0c0d);
    c.set_connection_type(ConnectionType::PartOf);
    c.activate();
    c.activate();
    c.update_confidence(true);
    let bytes = c.to_bytes();
    assert_eq!(bytes.len(), CONNECTION_RECORD_SIZE);
    assert_eq!(CONNECTION_RECORD_SIZE, 32);
    let mut expected = vec![
        3, 0, 0, 0, 0x0d, 0x0c, 0x0b, 0x0a, 0x70, 0x64, 0x08, 0x00, 2, 0, 0, 0, 2, 0, 0, 0, 0, 0,
        0, 0,
    ];
    expected.extend_from_slice(&[0; 8]);
    assert_eq!(bytes, expected);
}

#[test]
fn connection_record_round_trips() {
    let mut c = ConnectionV3::new(u32::MAX, 17);
    c.set_connection_type(ConnectionType::Contradicts);
    for _ in 0..1000 {
        c.activate();
    }
    c.adjust_confidence(false, 123_456);
    let back = ConnectionV3::from_bytes(&c.to_bytes()).expect("a record");
    assert_eq!(back.from_id(), u32::MAX);
    assert_eq!(back.to_id(), 17);
    assert_eq!(back.connection_type(), ConnectionType::Contradicts);
    assert_eq!(back.confidence(), 376_544);
    assert_eq!(back.activation_count(), 1000);
    assert_eq!(back, c);
    assert_eq!(back.to_bytes(), c.to_bytes());
}

#[test]
fn bytes_that_are_no_connection_record_are_refused() {
    let good = ConnectionV3::new(1, 2).to_bytes();
    assert!(ConnectionV3::from_bytes(&good).is_some());
    assert!(ConnectionV3::from_bytes(&good[..31]).is_none());
    assert!(ConnectionV3::from_bytes(&[]).is_none());
    let mut long = good.clone();
    long.push(0);
    assert!(ConnectionV3::from_bytes(&long).is_none());
    let mut too_sure = good.clone();
    too_sure[8..12].copy_from_slice(&1_000_001u32.to_le_bytes());
    assert!(ConnectionV3::from_bytes(&too_sure).is_none());
    let mut sure = good.clone();
    sure[8..12].copy_from_slice(&1_000_000u32.to_le_bytes());
    assert_eq!(
        ConnectionV3::from_bytes(&sure).map(|c| c.confidence()),
        Some(1_000_000)
    );
    let mut bad_type = good.clone();
    bad_type[12] = 6;
    assert!(ConnectionV3::from_bytes(&bad_type).is_none());
    for at in [13usize, 15, 24, 31] {
        let mut dirty = good.clone();
        dirty[at] = 1;
        assert!(ConnectionV3::from_bytes(&dirty).is_none());
    }
}

#[test]
fn event_record_has_the_documented_layout() {
    let mut e = ExperienceEvent::new(0x0102_0304_0506_0708_090a_0b0c_0d0e_0f10);
    e.timestamp = 0x1112_1314_1516_1718;
    e.event_type = 0x0021;
    e.flags = 0x0081;
    e.state[0] = 1.0f32.to_bits();
    e.state[7] = 0xdead_beef;
    let bytes = e.to_bytes();
    assert_eq!(bytes.len(), EVENT_RECORD_SIZE);
    assert_eq!(EVENT_RECORD_SIZE, 64);
    let mut expected = vec![
        0x10, 0x0f, 0x0e, 0x0d, 0x0c, 0x0b, 0x0a, 0x09, 0x08, 0x07, 0x06, 0x05, 0x04, 0x03, 0x02,
        0x01, 0x18, 0x17, 0x16, 0x15, 0x14, 0x13, 0x12, 0x11, 0x21, 0x00, 0x81, 0x00, 0x00, 0x00,
        0x80, 0x3f,
    ];
    expected.extend_from_slice(&[0; 24]);
    expected.extend_from_slice(&[0xef, 0xbe, 0xad, 0xde, 0, 0, 0, 0]);
    assert_eq!(bytes, expected);
    assert_eq!(ExperienceEvent::from_bytes(&bytes), Some(e));
}

#[test]
fn event_record_round_trips_whatever_the_metadata() {
    let mut e = ExperienceEvent::new(u128::MAX);
    e.timestamp = u64::MAX;
    e.event_type = u16::MAX;
    e.flags = u16::MAX;
    e.state = [u32::MAX; 8];
    assert_eq!(ExperienceEvent::from_bytes(&e.to_bytes()), Some(e));
    let blank = ExperienceEvent::default();
    assert_eq!(blank.to_bytes(), vec![0u8; 64]);
    assert_eq!(ExperienceEvent::from_bytes(&[0u8; 64]), Some(blank));
}

#[test]
fn bytes_that_are_no_event_record_are_refused() {
    let good = ExperienceEvent::new(5).to_bytes();
    assert_eq!(ExperienceEvent::from_bytes(&good[..63]), None);
    assert_eq!(ExperienceEvent::from_bytes(&[0u8; 65]), None);
    for at in 60..64usize {
        let mut dirty = good.clone();
        dirty[at] = 0x80;
        assert_eq!(ExperienceEvent::from_bytes(&dirty), None);
    }
    let mut fine = good.clone();
    fine[59] = 0x80;
    assert_eq!(
        ExperienceEvent::from_bytes(&fine).map(|e| e.state[7]),
        Some(0x8000_0000)
    );
}

#[test]
fn token_record_has_the_documented_layout() {
    let mut t = Token::new(0x0a0b_0c0d);
    t.set_entity_type(EntityType::Event);
    t.set_weight(0.5f32.to_bits());
    t.set_coordinates(CoordinateSpace::L1Physical, 1, 2, 3);
    t.set_coordinates(CoordinateSpace::L8Abstract, 0x0102_0304, 0, 0xffff_ffff);
    let bytes = t.to_bytes();
    assert_eq!(bytes.len(), TOKEN_RECORD_SIZE);
    assert_eq!(TOKEN_RECORD_SIZE, 112);
    let mut expected = vec![1, 0, 0, 0, 2, 0, 0, 0, 3, 0, 0, 0];
    expected.extend_from_slice(&[0; 72]);
    expected.extend_from_slice(&[4, 3, 2, 1, 0, 0, 0, 0, 0xff, 0xff, 0xff, 0xff]);
    expected.extend_from_slice(&[0x0d, 0x0c, 0x0b, 0x0a]);
    expected.extend_from_slice(&[0x00, 0x00, 0x00, 0x3f]);
    expected.push(3);
    expected.extend_from_slice(&[0; 7]);
    assert_eq!(bytes, expected);
}

#[test]
fn token_record_round_trips() {
    let mut t = Token::new(77);
    t.set_entity_type(EntityType::Agent);
    t.set_weight((-1.25f32).to_bits());
    for k in 0..8usize {
        let space = CoordinateSpace::from_index(k).expect("a space");
        let base = 100 * k as u32;
        t.set_coordinates(space, base + 1, base + 2, base + 3);
    }
    let back = Token::from_bytes(&t.to_bytes()).expect("a record");
    assert_eq!(back.id(), 77);
    assert_eq!(back.entity_type(), EntityType::Agent);
    assert_eq!(f32::from_bits(back.weight()), -1.25);
    for k in 0..8usize {
        let space = CoordinateSpace::from_index(k).expect("a space");
        let base = 100 * k as u32;
        assert_eq!(back.get_coordinates(space), [base + 1, base + 2, base + 3]);
    }
    assert_eq!(back, t);
    assert_eq!(back.to_bytes(), t.to_bytes());
}

#[test]
fn bytes_that_are_no_token_record_are_refused() {
    let good = Token::new(1).to_bytes();
    assert!(Token::from_bytes(&good).is_some());
    assert!(Token::from_bytes(&good[..111]).is_none());
    assert!(Token::from_bytes(&[0u8; 113]).is_none());
    let mut bad_type = good.clone();
    bad_type[104] = 8;
    assert!(Token::from_bytes(&bad_type).is_none());
    let mut last_type = good.clone();
    last_type[104] = 7;
    assert_eq!(
        Token::from_bytes(&last_type).map(|t| t.entity_type()),
        Some(EntityType::Agent)
    );
    for at in 105..112usize {
        let mut dirty = good.clone();
        dirty[at] = 1;
        assert!(Token::from_bytes(&dirty).is_none());
    }
}

#[test]
fn entity_type_codes_round_trip() {
    let all = [
        EntityType::Undefined,
        EntityType::Concept,
        EntityType::Object,
        EntityType::Event,
        EntityType::Process,
        EntityType::Attribute,
        EntityType::Relation,
        EntityType::Agent,
    ];
    for (k, t) in all.iter().enumerate() {
        assert_eq!(t.code() as usize, k);
        assert_eq!(EntityType::from_code(k as u8), Some(*t));
    }
    assert_eq!(EntityType::from_code(8), None);
}
