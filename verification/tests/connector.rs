use lmb_engine_simulator::connector::{
    Connector, ConnectorError, ConnectorKind, PressureBalance, Route, ValveDecision,
};
use lmb_engine_simulator::window::CycleWindow;

fn strings(items: &[&str]) -> Vec<String> {
    items.iter().map(|s| s.to_string()).collect()
}

#[test]
fn orifice_joins_exactly_two() {
    let c = Connector::orifice("orifice", strings(&["ambient", "chamber"])).unwrap();
    assert_eq!(c.name(), "orifice");
    assert_eq!(c.kind(), ConnectorKind::Orifice);
    assert_eq!(c.connecting(), &strings(&["ambient", "chamber"]));
    assert!(c.is_complete());
    for n in [0usize, 1, 3] {
        let ends: Vec<String> = (0..n).map(|i| format!("v{}", i)).collect();
        match Connector::orifice("o", ends) {
            Err(ConnectorError::WrongArity(found)) => assert_eq!(found, n),
            other => panic!("unexpected {:?}", other),
        }
    }
}

#[test]
fn valve_starts_at_its_cylinder() {
    let mut v = Connector::valve("valve_int", "cyl_1");
    assert_eq!(v.kind(), ConnectorKind::Valve);
    assert_eq!(v.connecting(), &strings(&["cyl_1"]));
    assert!(!v.is_complete());
    assert!(v.connect_to("intake_port").is_ok());
    assert_eq!(v.connecting(), &strings(&["cyl_1", "intake_port"]));
    assert!(v.is_complete());
}

#[test]
fn third_endpoint_is_refused_and_kept() {
    let mut v = Connector::valve("valve_int", "cyl_1");
    v.connect_to("intake_port").unwrap();
    match v.connect_to("exhaust_port") {
        Err(ConnectorError::WrongArity(3)) => {}
        other => panic!("unexpected {:?}", other),
    }
    assert_eq!(v.connecting().len(), 3);
    assert!(!v.is_complete());
}

#[test]
fn flow_slot_is_the_place_of_the_name() {
    let c = Connector::orifice("o", strings(&["a", "b"])).unwrap();
    assert_eq!(c.flow_slot("a").unwrap(), 0);
    assert_eq!(c.flow_slot("b").unwrap(), 1);
    match c.flow_slot("c") {
        Err(ConnectorError::NotConnected(name)) => assert_eq!(name, "c"),
        other => panic!("unexpected {:?}", other),
    }
}

#[test]
fn route_puts_the_higher_pressure_upstream() {
    let c = Connector::orifice("o", strings(&["a", "b"])).unwrap();
    assert_eq!(
        c.route(PressureBalance::FirstHigher, "a", "b").unwrap(),
        Route::Flow { upstream_state: 0, upstream_slot: 0, downstream_slot: 1 }
    );
    assert_eq!(
        c.route(PressureBalance::SecondHigher, "a", "b").unwrap(),
        Route::Flow { upstream_state: 1, upstream_slot: 1, downstream_slot: 0 }
    );
    assert_eq!(
        c.route(PressureBalance::FirstHigher, "b", "a").unwrap(),
        Route::Flow { upstream_state: 0, upstream_slot: 1, downstream_slot: 0 }
    );
    assert_eq!(
        c.route(PressureBalance::SecondHigher, "b", "a").unwrap(),
        Route::Flow { upstream_state: 1, upstream_slot: 0, downstream_slot: 1 }
    );
}

#[test]
fn route_reaches_both_endpoints() {
    let c = Connector::orifice("o", strings(&["a", "b"])).unwrap();
    for balance in [PressureBalance::FirstHigher, PressureBalance::SecondHigher] {
        for (first, second) in [("a", "b"), ("b", "a")] {
            match c.route(balance, first, second).unwrap() {
                Route::Flow { upstream_slot, downstream_slot, .. } => {
                    assert_eq!(upstream_slot + downstream_slot, 1);
                }
                Route::Still => panic!("no flow"),
            }
        }
    }
}

#[test]
fn balanced_pressures_look_up_nothing() {
    let c = Connector::orifice("o", strings(&["a", "b"])).unwrap();
    assert_eq!(c.route(PressureBalance::Balanced, "x", "y").unwrap(), Route::Still);
    assert!(!Route::Still.into_first());
}

#[test]
fn route_reports_the_upstream_name_first() {
    let c = Connector::orifice("o", strings(&["a", "b"])).unwrap();
    match c.route(PressureBalance::SecondHigher, "x", "y") {
        Err(ConnectorError::NotConnected(name)) => assert_eq!(name, "y"),
        other => panic!("unexpected {:?}", other),
    }
    match c.route(PressureBalance::FirstHigher, "a", "y") {
        Err(ConnectorError::NotConnected(name)) => assert_eq!(name, "y"),
        other => panic!("unexpected {:?}", other),
    }
}

#[test]
fn crank_angle_comes_from_the_last_state_that_has_one() {
    assert_eq!(Connector::crank_angle_source(&vec![true, false]).unwrap(), 0);
    assert_eq!(Connector::crank_angle_source(&vec![false, true]).unwrap(), 1);
    assert_eq!(Connector::crank_angle_source(&vec![true, true]).unwrap(), 1);
    for known in [vec![], vec![false], vec![false, false]] {
        match Connector::crank_angle_source(&known) {
            Err(ConnectorError::NoCrankAngle) => {}
            other => panic!("unexpected {:?}", other),
        }
    }
}

#[test]
fn shut_valve_decides_before_any_lookup() {
    let mut v = Connector::valve("valve_int", "cyl_1");
    v.connect_to("intake_port").unwrap();
    let window = CycleWindow::new(340, 570);
    let d = v
        .valve_decision(&window, 100, PressureBalance::FirstHigher, "nobody", "noone", true)
        .unwrap();
    assert_eq!(d, ValveDecision::Shut);
}

#[test]
fn open_valve_routes_and_blends() {
    let mut v = Connector::valve("valve_int", "cyl_1");
    v.connect_to("intake_port").unwrap();
    let window = CycleWindow::new(340, 570);
    let into = v
        .valve_decision(&window, 400, PressureBalance::SecondHigher, "cyl_1", "intake_port", true)
        .unwrap();
    assert_eq!(
        into,
        ValveDecision::Flow {
            route: Route::Flow { upstream_state: 1, upstream_slot: 1, downstream_slot: 0 },
            into_cylinder: true,
            blended: true,
        }
    );
    let into_fresh = v
        .valve_decision(&window, 400, PressureBalance::SecondHigher, "cyl_1", "intake_port", false)
        .unwrap();
    assert_eq!(
        into_fresh,
        ValveDecision::Flow {
            route: Route::Flow { upstream_state: 1, upstream_slot: 1, downstream_slot: 0 },
            into_cylinder: true,
            blended: false,
        }
    );
    let out = v
        .valve_decision(&window, 400, PressureBalance::FirstHigher, "cyl_1", "intake_port", true)
        .unwrap();
    assert_eq!(
        out,
        ValveDecision::Flow {
            route: Route::Flow { upstream_state: 0, upstream_slot: 0, downstream_slot: 1 },
            into_cylinder: false,
            blended: false,
        }
    );
    let still = v
        .valve_decision(&window, 340, PressureBalance::Balanced, "cyl_1", "intake_port", true)
        .unwrap();
    assert_eq!(still, ValveDecision::Balanced);
    match v.valve_decision(&window, 570, PressureBalance::FirstHigher, "cyl_1", "port", false) {
        Err(ConnectorError::NotConnected(name)) => assert_eq!(name, "port"),
        other => panic!("unexpected {:?}", other),
    }
}
