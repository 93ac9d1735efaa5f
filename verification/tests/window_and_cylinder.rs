use lmb_engine_simulator::cylinder::{
    closed_phase_action, feed_slots, fuel_share, phase_of, ClosedPhaseAction, FuelShare, Phase,
};
use lmb_engine_simulator::engine::InjectorKind;
use lmb_engine_simulator::window::{order_key, CycleWindow};

fn strings(items: &[&str]) -> Vec<String> {
    items.iter().map(|s| s.to_string()).collect()
}

#[test]
fn plain_window_counts_its_ends_in() {
    let w = CycleWindow::new(340, 570);
    assert!(!w.wraps());
    assert!(!w.is_open(339));
    assert!(w.is_open(340));
    assert!(w.is_open(455));
    assert!(w.is_open(570));
    assert!(!w.is_open(571));
    assert!(!w.is_open(0));
    assert!(!w.is_open(719));
}

#[test]
fn wrapping_window_runs_over_the_end_of_the_cycle() {
    let w = CycleWindow::new(690, 10);
    assert!(w.wraps());
    assert!(w.is_open(690));
    assert!(w.is_open(719));
    assert!(w.is_open(0));
    assert!(w.is_open(10));
    assert!(!w.is_open(11));
    assert!(!w.is_open(689));
    assert!(!w.is_open(360));
}

#[test]
fn window_agrees_with_turning_on_from_the_opening() {
    let cycle = 720i64;
    for (opening, closing) in [(340, 570), (690, 10), (0, 719), (100, 100), (719, 0)] {
        let w = CycleWindow::new(opening, closing);
        let span = (closing - opening).rem_euclid(cycle);
        for angle in 0..cycle {
            let off = (angle - opening).rem_euclid(cycle);
            if off < span {
                assert!(w.is_open(angle));
            }
            if off > span {
                assert!(!w.is_open(angle));
            }
            if 0 < off && off < span {
                assert!(w.has_started(angle));
            }
        }
        assert!(w.is_open(opening) && w.is_open(closing));
        assert!(!w.has_started(opening) && !w.has_started(closing));
    }
}

#[test]
fn combustion_window_counts_its_ends_out() {
    let w = CycleWindow::new(690, 10);
    assert!(!w.has_started(690));
    assert!(w.has_started(691));
    assert!(w.has_started(0));
    assert!(w.has_started(9));
    assert!(!w.has_started(10));
    assert!(!w.has_started(360));
    let p = CycleWindow::new(100, 140);
    assert!(!p.has_started(100));
    assert!(p.has_started(101));
    assert!(p.has_started(139));
    assert!(!p.has_started(140));
}

#[test]
fn opening_in_the_cycle_before() {
    let w = CycleWindow::new(690, 10);
    assert!(w.opened_in_cycle_before(5));
    assert!(!w.opened_in_cycle_before(690));
    assert!(!w.opened_in_cycle_before(700));
}

#[test]
fn cylinder_is_closed_only_without_flow() {
    assert_eq!(phase_of(false, false), Phase::Closed);
    assert_eq!(phase_of(true, false), Phase::Open);
    assert_eq!(phase_of(false, true), Phase::Open);
    assert_eq!(phase_of(true, true), Phase::Open);
}

#[test]
fn closed_cylinder_takes_its_charge_once() {
    assert_eq!(closed_phase_action(None, true), ClosedPhaseAction::NoteMass);
    assert_eq!(closed_phase_action(None, false), ClosedPhaseAction::NoteMass);
    assert_eq!(
        closed_phase_action(Some(InjectorKind::Port), true),
        ClosedPhaseAction::TakeCharge { from_port: true }
    );
    assert_eq!(
        closed_phase_action(Some(InjectorKind::Direct), true),
        ClosedPhaseAction::TakeCharge { from_port: false }
    );
    assert_eq!(
        closed_phase_action(Some(InjectorKind::Port), false),
        ClosedPhaseAction::ClearInjector
    );
    assert_eq!(
        closed_phase_action(Some(InjectorKind::Direct), false),
        ClosedPhaseAction::ClearInjector
    );
}

#[test]
fn fuel_share_follows_the_injector() {
    assert_eq!(fuel_share(None), FuelShare::NoFuel);
    assert_eq!(fuel_share(Some(InjectorKind::Port)), FuelShare::PortShare);
    assert_eq!(fuel_share(Some(InjectorKind::Direct)), FuelShare::DirectNone);
}

#[test]
fn feed_slots_match_valves_to_connectors() {
    let feeders = strings(&["valve_exh", "valve_int", "valve_int_2"]);
    assert_eq!(
        feed_slots(&strings(&["valve_int", "valve_int_2"]), &feeders).unwrap(),
        vec![1, 2]
    );
    assert_eq!(feed_slots(&strings(&["valve_exh"]), &feeders).unwrap(), vec![0]);
    assert_eq!(feed_slots(&Vec::new(), &feeders).unwrap(), Vec::<usize>::new());
    assert_eq!(
        feed_slots(&strings(&["valve_int", "other", "missing"]), &feeders).unwrap_err(),
        "other"
    );
}

#[test]
fn order_key_reads_sign_and_magnitude() {
    assert_eq!(order_key(0), 0);
    assert_eq!(order_key(1), 1);
    assert_eq!(order_key(0x7FFF_FFFF_FFFF_FFFF), i64::MAX);
    assert_eq!(order_key(0x8000_0000_0000_0000), 0);
    assert_eq!(order_key(0x8000_0000_0000_0001), -1);
    assert_eq!(order_key(u64::MAX), -i64::MAX);
}

#[test]
fn order_key_orders_bit_patterns_as_the_numbers() {
    let numbers = [
        f64::NEG_INFINITY,
        -720.0,
        -1.0,
        -1e-300,
        -f64::MIN_POSITIVE / 2.0,
        0.0,
        f64::MIN_POSITIVE / 2.0,
        1e-300,
        0.1,
        339.99999999999994,
        340.0,
        340.00000000000006,
        570.0,
        719.9,
        720.0,
        f64::INFINITY,
    ];
    for pair in numbers.windows(2) {
        assert!(pair[0] < pair[1]);
        assert!(order_key(pair[0].to_bits()) < order_key(pair[1].to_bits()));
    }
    assert_eq!(order_key((-0.0f64).to_bits()), order_key(0.0f64.to_bits()));
}

#[test]
fn valve_window_on_angles_in_degrees() {
    let key = |x: f64| order_key(x.to_bits());
    let w = CycleWindow::new(key(340.0), key(570.0));
    assert!(w.is_open(key(340.0)));
    assert!(!w.is_open(key(339.99999999999994)));
    assert!(w.is_open(key(570.0)));
    assert!(!w.is_open(key(570.0000000000001)));
    let e = CycleWindow::new(key(690.0), key(10.5));
    assert!(e.wraps());
    assert!(e.is_open(key(0.0)) && e.is_open(key(719.99)) && !e.is_open(key(10.6)));
}
