use axiom_core::connection_v3::Connection;
use axiom_core::connection_v3::ConnectionType;
use axiom_core::connection_v3::ConnectionV3;
use axiom_core::connection_v3::CONFIDENCE_INITIAL;
use axiom_core::connection_v3::CONFIDENCE_MAX;

#[test]
fn new_connection_has_fixed_endpoints() {
    let c = ConnectionV3::new(3, 9);
    assert_eq!(c.from_id(), 3);
    assert_eq!(c.to_id(), 9);
    assert_eq!(c.connection_type(), ConnectionType::AssociatedWith);
    assert_eq!(c.confidence(), CONFIDENCE_INITIAL);
    assert_eq!(c.confidence(), 500_000);
    assert_eq!(c.activation_count(), 0);
}

#[test]
fn alias_names_the_same_type() {
    let c: Connection = ConnectionV3::new(1, 2);
    assert_eq!(c.to_id(), 2);
}

#[test]
fn connection_type_can_be_set() {
    let mut c = ConnectionV3::new(1, 2);
    c.set_connection_type(ConnectionType::Causes);
    assert_eq!(c.connection_type(), ConnectionType::Causes);
    assert_eq!((c.from_id(), c.to_id()), (1, 2));
    assert_eq!(c.confidence(), 500_000);
}

#[test]
fn type_codes_round_trip() {
    let all = [
        ConnectionType::AssociatedWith,
        ConnectionType::Causes,
        ConnectionType::PartOf,
        ConnectionType::SimilarTo,
        ConnectionType::Precedes,
        ConnectionType::Contradicts,
    ];
    for (k, t) in all.iter().enumerate() {
        assert_eq!(t.code() as usize, k);
        assert_eq!(ConnectionType::from_code(k as u8), Some(*t));
    }
    assert_eq!(ConnectionType::from_code(6), None);
    assert_eq!(ConnectionType::from_code(255), None);
}

#[test]
fn activate_counts_once_per_call() {
    let mut c = ConnectionV3::new(1, 2);
    c.activate();
    assert_eq!(c.activation_count(), 1);
    c.activate();
    c.activate();
    assert_eq!(c.activation_count(), 3);
    assert_eq!(c.confidence(), 500_000);
}

#[test]
fn success_moves_a_tenth_of_the_way_up() {
    let mut c = ConnectionV3::new(1, 2);
    c.update_confidence(true);
    assert_eq!(c.confidence(), 550_000);
    c.update_confidence(true);
    assert_eq!(c.confidence(), 595_000);
    c.update_confidence(true);
    assert_eq!(c.confidence(), 635_500);
}

#[test]
fn failure_moves_a_tenth_of_the_way_down() {
    let mut c = ConnectionV3::new(1, 2);
    c.update_confidence(false);
    assert_eq!(c.confidence(), 450_000);
    c.update_confidence(false);
    assert_eq!(c.confidence(), 405_000);
    c.update_confidence(false);
    assert_eq!(c.confidence(), 364_500);
}

#[test]
fn steps_round_up_so_the_bound_is_reached() {
    let mut c = ConnectionV3::new(1, 2);
    c.adjust_confidence(true, 499_995);
    assert_eq!(c.confidence(), 999_995);
    c.update_confidence(true);
    assert_eq!(c.confidence(), 999_996);
    for _ in 0..4 {
        c.update_confidence(true);
    }
    assert_eq!(c.confidence(), CONFIDENCE_MAX);
    c.update_confidence(true);
    assert_eq!(c.confidence(), CONFIDENCE_MAX);

    c.adjust_confidence(false, 999_997);
    assert_eq!(c.confidence(), 3);
    c.update_confidence(false);
    assert_eq!(c.confidence(), 2);
    c.update_confidence(false);
    c.update_confidence(false);
    assert_eq!(c.confidence(), 0);
    c.update_confidence(false);
    assert_eq!(c.confidence(), 0);
}

#[test]
fn confidence_never_leaves_its_bounds() {
    let mut c = ConnectionV3::new(1, 2);
    let mut previous = c.confidence();
    for _ in 0..500 {
        c.update_confidence(true);
        assert!(c.confidence() <= CONFIDENCE_MAX);
        assert!(c.confidence() >= previous);
        previous = c.confidence();
    }
    assert_eq!(c.confidence(), CONFIDENCE_MAX);
    for _ in 0..500 {
        c.update_confidence(false);
        assert!(c.confidence() <= previous);
        previous = c.confidence();
    }
    assert_eq!(c.confidence(), 0);
    let mut state: u32 = 12345;
    for _ in 0..2000 {
        state = state.wrapping_mul(1_103_515_245).wrapping_add(12345);
        c.update_confidence(state & 0x10000 != 0);
        assert!(c.confidence() <= CONFIDENCE_MAX);
    }
}

#[test]
fn any_step_is_clamped() {
    let mut c = ConnectionV3::new(1, 2);
    c.adjust_confidence(true, u32::MAX);
    assert_eq!(c.confidence(), CONFIDENCE_MAX);
    c.adjust_confidence(false, u32::MAX);
    assert_eq!(c.confidence(), 0);
    c.adjust_confidence(true, 250_000);
    assert_eq!(c.confidence(), 250_000);
    c.adjust_confidence(false, 100_000);
    assert_eq!(c.confidence(), 150_000);
    c.adjust_confidence(true, 0);
    assert_eq!(c.confidence(), 150_000);
    c.adjust_confidence(true, 850_000);
    assert_eq!(c.confidence(), CONFIDENCE_MAX);
    c.adjust_confidence(false, 1_000_000);
    assert_eq!(c.confidence(), 0);
}
