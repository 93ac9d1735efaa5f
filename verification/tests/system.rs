use lmb_engine_simulator::composition::SpeciesTable;
use lmb_engine_simulator::connector::{Connector, ConnectorError, ConnectorKind};
use lmb_engine_simulator::engine::{CylinderConfig, EngineConfig, InjectorConfig};
use lmb_engine_simulator::store::{StoreData, StoreError, MAX_ARRAY_LEN};
use lmb_engine_simulator::system::{
    find_entry, link_all, resolve_connectors, ObjectInfo, RunDecision, StepAction, System,
    SystemError, MAX_CYCLES, STEPS_PER_CYCLE,
};
use lmb_engine_simulator::system_builder::{BuildError, SystemBuilder};
use lmb_engine_simulator::topology::{get_connectors_index, get_dim_obj_index, resolve_name};
use lmb_engine_simulator::ObjectType;

fn strings(items: &[&str]) -> Vec<String> {
    items.iter().map(|s| s.to_string()).collect()
}

/// The words that stand for the numbers.
fn words(numbers: &[f64]) -> Vec<u64> {
    numbers.iter().map(|x| x.to_bits()).collect()
}

/// The numbers that the words stand for.
fn numbers(table: Vec<Vec<u64>>) -> Vec<Vec<f64>> {
    table.iter().map(|row| row.iter().map(|w| f64::from_bits(*w)).collect()).collect()
}

fn gas() -> SpeciesTable {
    SpeciesTable::new(strings(&["O2", "N2", "CO2", "H2O", "C2H5OH"])).unwrap()
}

fn engine_config() -> EngineConfig {
    EngineConfig {
        firing_order: "1".to_string(),
        combustion: Some("Two-zone model".to_string()),
        injector: Some(InjectorConfig {
            inj_type: "port".to_string(),
            fuel_name: "C2H5OH".to_string(),
            has_lhv: true,
        }),
        cylinders: vec![CylinderConfig {
            name: "cyl_1".to_string(),
            store_species: Some(true),
            intake_valves: strings(&["valve_int"]),
            exhaust_valves: strings(&["valve_exh"]),
        }],
    }
}

/// An environment and a reservoir joined by an orifice.
fn chamber() -> SystemBuilder {
    let mut b = SystemBuilder::new();
    assert_eq!(b.add_environment("ambient").unwrap(), 0);
    assert_eq!(b.add_reservoir("chamber").unwrap(), 1);
    assert_eq!(b.add_orifice("orifice", strings(&["ambient", "chamber"])).unwrap(), 0);
    b
}

/// One cylinder between an intake and an exhaust port.
fn motor() -> SystemBuilder {
    let mut b = SystemBuilder::new();
    b.add_engine(&engine_config(), &gas()).unwrap();
    b.add_environment("intake_port").unwrap();
    b.add_environment("exhaust_port").unwrap();
    b.connect_from_to("valve_int", "intake_port").unwrap();
    b.connect_from_to("valve_exh", "exhaust_port").unwrap();
    b
}

fn entries(objs: &Vec<ObjectInfo>) -> Vec<(String, ObjectType, usize)> {
    objs.iter().map(|o| (o.name.clone(), o.obj_type, o.index)).collect()
}

#[test]
fn builder_lists_objects_in_the_order_added() {
    let b = chamber();
    assert_eq!(
        entries(b.objs_info()),
        vec![
            ("ambient".to_string(), ObjectType::ZeroDim, 0),
            ("chamber".to_string(), ObjectType::ZeroDim, 1),
            ("orifice".to_string(), ObjectType::Connector, 0),
        ]
    );
    assert!(b.does_it_exist("chamber"));
    assert!(!b.does_it_exist("valve"));
    assert_eq!(b.objs_info()[0].stored_data.header(), "pressure [bar]\ttemperature [K]");
    assert_eq!(b.objs_info()[1].stored_data.num_variables(), 3);
    assert_eq!(b.objs_info()[2].stored_data.header(), "mass flow [kg/s]\tenthalpy flow [J/s]");
    assert!(b.engine().is_none());
    assert_eq!(b.connector().len(), 1);
}

#[test]
fn builder_refuses_a_name_that_is_taken() {
    let mut b = chamber();
    for r in [
        b.add_environment("chamber"),
        b.add_reservoir("orifice"),
        b.add_orifice("ambient", strings(&["ambient", "chamber"])),
    ] {
        match r {
            Err(BuildError::DuplicateName(_)) => {}
            other => panic!("unexpected {:?}", other),
        }
    }
    match b.add_orifice("orifice", Vec::new()) {
        Err(BuildError::DuplicateName(name)) => assert_eq!(name, "orifice"),
        other => panic!("unexpected {:?}", other),
    }
    assert_eq!(b.objs_info().len(), 3);
    assert_eq!(b.connector().len(), 1);
}

#[test]
fn orifice_needs_two_endpoints() {
    let mut b = chamber();
    match b.add_orifice("second", strings(&["ambient"])) {
        Err(BuildError::Connector(ConnectorError::WrongArity(1))) => {}
        other => panic!("unexpected {:?}", other),
    }
    match b.add_orifice("second", strings(&["ambient", "chamber", "ambient"])) {
        Err(BuildError::Connector(ConnectorError::WrongArity(3))) => {}
        other => panic!("unexpected {:?}", other),
    }
    assert!(!b.does_it_exist("second"));
}

#[test]
fn engine_brings_cylinders_and_valves() {
    let mut b: SystemBuilder = SystemBuilder::new();
    b.add_environment("intake_port").unwrap();
    b.add_orifice("leak", strings(&["intake_port", "cyl_1"])).unwrap();
    b.add_engine(&engine_config(), &gas()).unwrap();
    assert_eq!(
        entries(b.objs_info()),
        vec![
            ("intake_port".to_string(), ObjectType::ZeroDim, 0),
            ("leak".to_string(), ObjectType::Connector, 0),
            ("cyl_1".to_string(), ObjectType::Cylinder, 0),
            ("valve_int".to_string(), ObjectType::Connector, 1),
            ("valve_exh".to_string(), ObjectType::Connector, 2),
        ]
    );
    assert_eq!(
        b.objs_info()[2].stored_data.header(),
        "crank-angle [deg]\tpressure [bar]\ttemperature [K]\tvolume [cm³]\tmass [mg]\tO2\tN2\tCO2\tH2O\tC2H5OH"
    );
    assert_eq!(b.objs_info()[2].stored_data.num_variables(), 10);
    assert_eq!(b.objs_info()[3].stored_data.num_variables(), 5);
    assert_eq!(b.connector()[1].name(), "valve_int");
    assert_eq!(b.connector()[1].kind(), ConnectorKind::Valve);
    assert_eq!(b.connector()[1].connecting(), &strings(&["cyl_1"]));
    assert_eq!(b.connector()[2].connecting(), &strings(&["cyl_1"]));
    assert_eq!(b.engine().unwrap().cylinders()[0].name, "cyl_1");
}

#[test]
fn engine_is_added_whole_or_not_at_all() {
    let mut b: SystemBuilder = SystemBuilder::new();
    b.add_environment("valve_exh").unwrap();
    match b.add_engine(&engine_config(), &gas()) {
        Err(BuildError::DuplicateName(name)) => assert_eq!(name, "valve_exh"),
        other => panic!("unexpected {:?}", other),
    }
    assert_eq!(b.objs_info().len(), 1);
    assert_eq!(b.connector().len(), 0);
    assert!(b.engine().is_none());

    let mut twice = engine_config();
    twice.cylinders[0].exhaust_valves = strings(&["valve_int"]);
    let mut b: SystemBuilder = SystemBuilder::new();
    match b.add_engine(&twice, &gas()) {
        Err(BuildError::DuplicateName(name)) => assert_eq!(name, "valve_int"),
        other => panic!("unexpected {:?}", other),
    }
    assert_eq!(b.objs_info().len(), 0);

    let mut bad = engine_config();
    bad.firing_order = "2-1".to_string();
    match b.add_engine(&bad, &gas()) {
        Err(BuildError::Engine(_)) => {}
        other => panic!("unexpected {:?}", other),
    }

    b.add_engine(&engine_config(), &gas()).unwrap();
    let mut other = engine_config();
    other.cylinders[0].name = "cyl_2".to_string();
    match b.add_engine(&other, &gas()) {
        Err(BuildError::EngineAlreadyAdded) => {}
        other => panic!("unexpected {:?}", other),
    }
    assert_eq!(b.objs_info().len(), 3);
}

#[test]
fn connect_from_to_joins_a_valve_to_its_port() {
    let mut b: SystemBuilder = SystemBuilder::new();
    b.add_engine(&engine_config(), &gas()).unwrap();
    b.add_environment("intake_port").unwrap();
    b.connect_from_to("valve_int", "intake_port").unwrap();
    assert_eq!(b.connector()[0].connecting(), &strings(&["cyl_1", "intake_port"]));
    assert_eq!(b.connector()[1].connecting(), &strings(&["cyl_1"]));
}

#[test]
fn connect_from_to_reports_what_is_wrong() {
    let mut b: SystemBuilder = SystemBuilder::new();
    b.add_engine(&engine_config(), &gas()).unwrap();
    b.add_environment("intake_port").unwrap();
    match b.connect_from_to("valve_int", "nowhere") {
        Err(BuildError::UnknownObject(name)) => assert_eq!(name, "nowhere"),
        other => panic!("unexpected {:?}", other),
    }
    match b.connect_from_to("nothing", "nowhere") {
        Err(BuildError::UnknownObject(name)) => assert_eq!(name, "nowhere"),
        other => panic!("unexpected {:?}", other),
    }
    match b.connect_from_to("nothing", "intake_port") {
        Err(BuildError::UnknownObject(name)) => assert_eq!(name, "nothing"),
        other => panic!("unexpected {:?}", other),
    }
    match b.connect_from_to("cyl_1", "intake_port") {
        Err(BuildError::NotAConnector(name)) => assert_eq!(name, "cyl_1"),
        other => panic!("unexpected {:?}", other),
    }
    assert_eq!(b.connector()[0].connecting(), &strings(&["cyl_1"]));
    b.connect_from_to("valve_int", "intake_port").unwrap();
    match b.connect_from_to("valve_int", "intake_port") {
        Err(BuildError::Connector(ConnectorError::WrongArity(3))) => {}
        other => panic!("unexpected {:?}", other),
    }
    assert_eq!(b.connector()[0].connecting().len(), 3);
}

#[test]
fn index_tables_of_a_chamber() {
    let sys = chamber().build_system().unwrap();
    assert_eq!(
        sys.zero_dim_connectors_index(),
        &vec![vec![(ObjectType::Connector, 0)], vec![(ObjectType::Connector, 0)]]
    );
    assert_eq!(
        sys.connector_objects_index(),
        &vec![vec![(ObjectType::ZeroDim, 0), (ObjectType::ZeroDim, 1)]]
    );
    assert!(sys.one_dim_connectors_index().is_empty());
    assert!(sys.engine_connectors_index().is_empty());
    assert!(sys.engine().is_none());
    assert_eq!(sys.iterations_counter(), 0);
    assert_eq!(sys.cycle_start(), 0);
    assert_eq!(sys.connector().len(), 1);
}

#[test]
fn index_tables_of_a_motor() {
    let sys = motor().build_system().unwrap();
    assert_eq!(
        sys.engine_connectors_index(),
        &vec![vec![(ObjectType::Connector, 0), (ObjectType::Connector, 1)]]
    );
    assert_eq!(
        sys.zero_dim_connectors_index(),
        &vec![vec![(ObjectType::Connector, 0)], vec![(ObjectType::Connector, 1)]]
    );
    assert_eq!(
        sys.connector_objects_index(),
        &vec![
            vec![(ObjectType::Cylinder, 0), (ObjectType::ZeroDim, 0)],
            vec![(ObjectType::Cylinder, 0), (ObjectType::ZeroDim, 1)],
        ]
    );
    assert_eq!(sys.cylinder_entries(), vec![0]);
    assert_eq!(sys.find("valve_exh"), Some(2));
    assert_eq!(sys.find("nothing"), None);
}

#[test]
fn every_listed_connector_knows_its_control_volume() {
    let sys = motor().build_system().unwrap();
    let zero = ["intake_port", "exhaust_port"];
    for (i, links) in sys.zero_dim_connectors_index().iter().enumerate() {
        assert!(!links.is_empty());
        for (kind, c) in links {
            assert_eq!(*kind, ObjectType::Connector);
            assert!(sys.connector()[*c].flow_slot(zero[i]).is_ok());
        }
    }
    for links in sys.engine_connectors_index() {
        for (_, c) in links {
            assert_eq!(sys.connector()[*c].flow_slot("cyl_1").unwrap(), 0);
        }
    }
}

#[test]
fn unconnected_object_is_refused() {
    let mut b = chamber();
    b.add_environment("island").unwrap();
    match b.build_system() {
        Err(SystemError::NotConnected(name)) => {
            assert_eq!(name, "island");
            assert_eq!(
                SystemError::NotConnected(name).message(),
                "Object 'island' is not connected to anything."
            );
        }
        other => panic!("unexpected {:?}", other.map(|_| ())),
    }
    let mut b: SystemBuilder = SystemBuilder::new();
    b.add_engine(&engine_config(), &gas()).unwrap();
    b.add_environment("intake_port").unwrap();
    b.connect_from_to("valve_int", "intake_port").unwrap();
    b.add_environment("exhaust_port").unwrap();
    match b.build_system() {
        Err(SystemError::NotConnected(name)) => assert_eq!(name, "exhaust_port"),
        other => panic!("unexpected {:?}", other.map(|_| ())),
    }
}

#[test]
fn unresolved_endpoint_is_refused() {
    let mut b: SystemBuilder = SystemBuilder::new();
    b.add_environment("ambient").unwrap();
    b.add_orifice("orifice", strings(&["ambient", "chamber"])).unwrap();
    match b.build_system() {
        Err(SystemError::UnknownEndpoint(name)) => {
            assert_eq!(name, "chamber");
            assert_eq!(
                SystemError::UnknownEndpoint(name).message(),
                "Object 'chamber' was not found in the arrays"
            );
        }
        other => panic!("unexpected {:?}", other.map(|_| ())),
    }
}

#[test]
fn unconnected_comes_before_unresolved() {
    let mut b: SystemBuilder = SystemBuilder::new();
    b.add_environment("ambient").unwrap();
    b.add_environment("island").unwrap();
    b.add_orifice("orifice", strings(&["ambient", "chamber"])).unwrap();
    match b.build_system() {
        Err(SystemError::NotConnected(name)) => assert_eq!(name, "island"),
        other => panic!("unexpected {:?}", other.map(|_| ())),
    }
}

#[test]
fn system_checks_the_list_of_objects() {
    let connectors = vec![Connector::orifice("o", strings(&["a", "b"])).unwrap()];
    let info = |name: &str, kind, index| {
        ObjectInfo::new(name.to_string(), kind, index, StoreData::new("x", 1))
    };
    let good = vec![
        info("a", ObjectType::ZeroDim, 0),
        info("b", ObjectType::ZeroDim, 1),
        info("o", ObjectType::Connector, 0),
    ];
    assert!(System::new(good, None, strings(&["a", "b"]), Vec::new(), connectors.clone()).is_ok());
    for bad in [
        info("b", ObjectType::ZeroDim, 0),
        info("a", ObjectType::ZeroDim, 2),
        info("a", ObjectType::OneDim, 0),
        info("a", ObjectType::Cylinder, 0),
        info("o", ObjectType::Connector, 1),
        info("a", ObjectType::Connector, 0),
    ] {
        let name = bad.name.clone();
        let list = vec![info("a", ObjectType::ZeroDim, 0), bad];
        match System::new(list, None, strings(&["a", "b"]), Vec::new(), connectors.clone()) {
            Err(SystemError::UnknownObject(found)) => assert_eq!(found, name),
            other => panic!("unexpected {:?}", other.map(|_| ())),
        }
    }
}

#[test]
fn system_starts_with_empty_tables() {
    let mut store = StoreData::new("p\tT", 2);
    store.add_data(vec![1, 2]).unwrap();
    let list = vec![ObjectInfo::new("a".to_string(), ObjectType::ZeroDim, 0, store)];
    let connectors = vec![Connector::orifice("o", strings(&["a", "a"])).unwrap()];
    let sys = System::new(list, None, strings(&["a"]), Vec::new(), connectors).unwrap();
    assert_eq!(sys.objs_info()[0].stored_data.last_index(), 0);
    assert_eq!(sys.objs_info()[0].stored_data.header(), "p\tT");
    assert_eq!(sys.objs_info()[0].stored_data.num_variables(), 2);
}

#[test]
fn topology_functions_resolve_names() {
    let connectors = vec![
        Connector::orifice("o1", strings(&["a", "b"])).unwrap(),
        Connector::orifice("o2", strings(&["c", "d"])).unwrap(),
        Connector::orifice("o3", strings(&["b", "c"])).unwrap(),
    ];
    assert_eq!(
        get_connectors_index(&connectors, "b"),
        vec![(ObjectType::Connector, 0), (ObjectType::Connector, 2)]
    );
    assert!(get_connectors_index(&connectors, "z").is_empty());
    let zero = strings(&["a", "b"]);
    let one = strings(&["c", "a"]);
    let cyl = Some(strings(&["d", "c"]));
    assert_eq!(resolve_name(&zero, &one, &cyl, "a"), Some((ObjectType::ZeroDim, 0)));
    assert_eq!(resolve_name(&zero, &one, &cyl, "c"), Some((ObjectType::OneDim, 0)));
    assert_eq!(resolve_name(&zero, &one, &cyl, "d"), Some((ObjectType::Cylinder, 0)));
    assert_eq!(resolve_name(&zero, &one, &None, "d"), None);
    assert_eq!(
        get_dim_obj_index(&zero, &one, &cyl, &strings(&["d", "b", "c"])).unwrap(),
        vec![(ObjectType::Cylinder, 0), (ObjectType::ZeroDim, 1), (ObjectType::OneDim, 0)]
    );
    assert_eq!(
        get_dim_obj_index(&zero, &one, &None, &strings(&["a", "d", "e"])).unwrap_err(),
        "d"
    );
    assert_eq!(
        link_all(&strings(&["b", "a"]), &connectors).unwrap(),
        vec![
            vec![(ObjectType::Connector, 0), (ObjectType::Connector, 2)],
            vec![(ObjectType::Connector, 0)]
        ]
    );
    assert_eq!(link_all(&strings(&["a", "x", "y"]), &connectors).unwrap_err(), "x");
    assert_eq!(
        resolve_connectors(&zero, &one, &cyl, &connectors).unwrap(),
        vec![
            vec![(ObjectType::ZeroDim, 0), (ObjectType::ZeroDim, 1)],
            vec![(ObjectType::OneDim, 0), (ObjectType::Cylinder, 0)],
            vec![(ObjectType::ZeroDim, 1), (ObjectType::OneDim, 0)],
        ]
    );
    assert_eq!(resolve_connectors(&zero, &Vec::new(), &None, &connectors).unwrap_err(), "c");
    let list = vec![
        ObjectInfo::new("a".to_string(), ObjectType::ZeroDim, 0, StoreData::new("x", 1)),
        ObjectInfo::new("a".to_string(), ObjectType::ZeroDim, 1, StoreData::new("x", 1)),
    ];
    assert_eq!(find_entry(&list, "a"), Some(0));
    assert_eq!(find_entry(&list, "b"), None);
}

#[test]
fn step_plan_of_a_chamber() {
    let sys = chamber().build_system().unwrap();
    assert_eq!(
        sys.step_plan(),
        vec![
            StepAction::AdvanceZeroDim(0),
            StepAction::AdvanceZeroDim(1),
            StepAction::UpdateConnector(0),
            StepAction::FeedZeroDim(0),
            StepAction::FeedZeroDim(1),
        ]
    );
}

#[test]
fn step_plan_is_staggered() {
    let sys = motor().build_system().unwrap();
    let plan = sys.step_plan();
    assert_eq!(
        plan,
        vec![
            StepAction::AdvanceZeroDim(0),
            StepAction::AdvanceZeroDim(1),
            StepAction::AdvanceCylinder(0),
            StepAction::UpdateConnector(0),
            StepAction::UpdateConnector(1),
            StepAction::FeedZeroDim(0),
            StepAction::FeedZeroDim(1),
            StepAction::FeedCylinder(0),
        ]
    );
    let stage = |a: &StepAction| match a {
        StepAction::AdvanceZeroDim(_) | StepAction::AdvanceCylinder(_) => 0,
        StepAction::UpdateConnector(_) => 1,
        StepAction::FeedZeroDim(_) | StepAction::FeedCylinder(_) => 2,
    };
    for pair in plan.windows(2) {
        assert!(stage(&pair[0]) <= stage(&pair[1]));
    }
}

#[test]
fn record_step_appends_one_row_per_object() {
    let mut sys = chamber().build_system().unwrap();
    let first = vec![words(&[1.0, 293.0]), words(&[1.0, 293.0, 0.5]), words(&[0.0, 0.0])];
    let second = vec![words(&[1.0, 293.0]), words(&[1.1, 294.0, 0.6]), words(&[2.0, 3.0])];
    sys.record_step(0.1f64.to_bits(), first).unwrap();
    sys.record_step(0.2f64.to_bits(), second).unwrap();
    assert_eq!(sys.iterations_counter(), 2);
    for info in sys.objs_info() {
        assert_eq!(info.stored_data.last_index(), 2);
    }
    let (header, rows) = sys.samples_of("chamber", Some((0, 2))).unwrap();
    assert_eq!(header, "time [s]\tpressure [bar]\ttemperature [K]\tmass [kg]");
    assert_eq!(numbers(rows), vec![vec![0.1, 1.0, 293.0, 0.5], vec![0.2, 1.1, 294.0, 0.6]]);
    let (_, rows) = sys.samples_of("orifice", None).unwrap();
    assert_eq!(numbers(rows), vec![vec![0.1, 0.0, 0.0], vec![0.2, 2.0, 3.0]]);
    let (_, rows) = sys.samples_of("orifice", Some((1, 2))).unwrap();
    assert_eq!(numbers(rows), vec![vec![0.2, 2.0, 3.0]]);
}

#[test]
fn record_step_is_whole_or_nothing() {
    let mut sys = chamber().build_system().unwrap();
    match sys.record_step(1, vec![vec![1, 2], vec![1, 2, 3]]) {
        Err(SystemError::SampleCount { expected: 3, found: 2 }) => {}
        other => panic!("unexpected {:?}", other),
    }
    match sys.record_step(1, vec![vec![1, 2], vec![1, 2], vec![1]]) {
        Err(SystemError::Store(StoreError::Width { expected: 3, found: 2 })) => {}
        other => panic!("unexpected {:?}", other),
    }
    assert_eq!(sys.iterations_counter(), 0);
    for info in sys.objs_info() {
        assert_eq!(info.stored_data.last_index(), 0);
    }
    match sys.samples_of("chamber", Some((0, 1))) {
        Err(SystemError::Store(StoreError::Range { first: 0, end: 1, rows: 0 })) => {}
        other => panic!("unexpected {:?}", other),
    }
    match sys.samples_of("nothing", None) {
        Err(SystemError::UnknownObject(name)) => assert_eq!(name, "nothing"),
        other => panic!("unexpected {:?}", other),
    }
}

#[test]
fn full_tables_refuse_the_step() {
    let mut b: SystemBuilder = SystemBuilder::new();
    b.add_environment("a").unwrap();
    b.add_orifice("o", strings(&["a", "a"])).unwrap();
    let mut sys = b.build_system().unwrap();
    for _ in 0..MAX_ARRAY_LEN - 1 {
        sys.record_step(0, vec![vec![1, 2], vec![3, 4]]).unwrap();
    }
    match sys.record_step(0, vec![vec![1, 2], vec![3, 4]]) {
        Err(SystemError::Store(StoreError::Full)) => {}
        other => panic!("unexpected {:?}", other),
    }
    assert_eq!(sys.iterations_counter(), MAX_ARRAY_LEN - 1);
    assert_eq!(
        SystemError::Store(StoreError::Full).message(),
        "Maximum allowed array length exceeded"
    );
    sys.begin_steady_state();
    assert_eq!(sys.iterations_counter(), 0);
    sys.record_step(0, vec![vec![1, 2], vec![3, 4]]).unwrap();
}

#[test]
fn run_without_engine_ends_by_time_only() {
    let mut sys = chamber().build_system().unwrap();
    sys.begin_steady_state();
    for _ in 0..3 * STEPS_PER_CYCLE * MAX_CYCLES {
        assert_eq!(sys.next_step(false), RunDecision::Advance);
    }
    assert_eq!(sys.cycle_start(), 0);
    assert_eq!(sys.next_step(true), RunDecision::Finished);
    assert_eq!(sys.next_step(false), RunDecision::Advance);
}

#[test]
fn run_with_engine_takes_ten_full_cycles() {
    let mut sys = motor().build_system().unwrap();
    sys.begin_steady_state();
    let row = || vec![vec![0u64; 10], vec![0; 5], vec![0; 5], vec![0; 2], vec![0; 2]];
    let mut taken: usize = 0;
    while sys.next_step(false) == RunDecision::Advance {
        sys.record_step(taken as u64, row()).unwrap();
        taken += 1;
        assert_eq!(sys.cycle_start(), (taken - 1) / 7200 * 7200);
    }
    assert_eq!(taken, 72000);
    assert_eq!(taken, (MAX_CYCLES * STEPS_PER_CYCLE) as usize);
    assert_eq!(sys.iterations_counter(), 72000);
    assert_eq!(sys.cycle_start(), 64800);
    assert_eq!(sys.next_step(false), RunDecision::Finished);
    let (_, rows) = sys.samples_of("cyl_1", None).unwrap();
    assert_eq!(rows.len(), 7200);
    assert_eq!(rows[0][0], 64800);
    assert_eq!(rows[7199][0], 71999);
    assert_eq!(rows[0].len(), 11);
    let trace = sys.objs_info()[sys.cylinder_entries()[0]]
        .stored_data
        .get_data((sys.cycle_start(), sys.iterations_counter()), &vec![1, 3])
        .unwrap();
    assert_eq!(trace.len(), 7200);
}

#[test]
fn run_with_engine_ends_early_by_time() {
    let mut sys = motor().build_system().unwrap();
    sys.begin_steady_state();
    for _ in 0..7200 {
        assert_eq!(sys.next_step(false), RunDecision::Advance);
    }
    assert_eq!(sys.next_step(true), RunDecision::Finished);
}

#[test]
fn second_run_starts_like_the_first() {
    let mut sys = motor().build_system().unwrap();
    let row = || vec![vec![0u64; 10], vec![0; 5], vec![0; 5], vec![0; 2], vec![0; 2]];
    let mut counts = Vec::new();
    for _ in 0..2 {
        sys.begin_steady_state();
        let mut taken: usize = 0;
        while sys.next_step(taken >= 20000) == RunDecision::Advance {
            sys.record_step(taken as u64, row()).unwrap();
            taken += 1;
        }
        counts.push((taken, sys.cycle_start(), sys.iterations_counter()));
    }
    assert_eq!(counts[0], (20000, 14400, 20000));
    assert_eq!(counts[0], counts[1]);
}
