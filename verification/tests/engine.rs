use lmb_engine_simulator::composition::SpeciesTable;
use lmb_engine_simulator::engine::{
    highest_order, known_fuel, parse_firing_order, parse_injector_kind, CombustionKind,
    CylinderConfig, Engine, EngineConfig, EngineError, InjectorConfig, InjectorKind, KnownFuel,
    ValveRole,
};

fn strings(items: &[&str]) -> Vec<String> {
    items.iter().map(|s| s.to_string()).collect()
}

fn gas() -> SpeciesTable {
    SpeciesTable::new(strings(&["O2", "N2", "CO2", "H2O", "C2H5OH"])).unwrap()
}

fn cylinder(name: &str, intake: &[&str], exhaust: &[&str]) -> CylinderConfig {
    CylinderConfig {
        name: name.to_string(),
        store_species: None,
        intake_valves: strings(intake),
        exhaust_valves: strings(exhaust),
    }
}

fn ethanol() -> InjectorConfig {
    InjectorConfig {
        inj_type: "port".to_string(),
        fuel_name: "C2H5OH".to_string(),
        has_lhv: true,
    }
}

fn single() -> EngineConfig {
    EngineConfig {
        firing_order: "1".to_string(),
        combustion: Some("Two-zone model".to_string()),
        injector: Some(ethanol()),
        cylinders: vec![cylinder("cyl_1", &["valve_int"], &["valve_exh"])],
    }
}

fn fault(config: &EngineConfig, species: &SpeciesTable) -> EngineError {
    match Engine::new(config, species) {
        Err(e) => e,
        Ok(_) => panic!("the record was accepted"),
    }
}

#[test]
fn firing_order_reads_indices() {
    assert_eq!(parse_firing_order("1-3-2").unwrap(), vec![1, 3, 2]);
    assert_eq!(parse_firing_order("1").unwrap(), vec![1]);
    assert_eq!(parse_firing_order("1-3-4-2").unwrap(), vec![1, 3, 4, 2]);
    assert_eq!(parse_firing_order("4294967295").unwrap(), vec![u32::MAX]);
}

#[test]
fn firing_order_reports_the_first_bad_field() {
    for (text, bad) in [
        ("", ""),
        ("1--2", ""),
        ("1-0-2", "0"),
        ("1-x-y", "x"),
        ("1-2-", ""),
        ("1.0", "1.0"),
        ("1-4294967296", "4294967296"),
        (" 1", " 1"),
    ] {
        match parse_firing_order(text) {
            Err(EngineError::BadFiringOrder(field)) => assert_eq!(field, bad),
            other => panic!("unexpected {:?}", other),
        }
    }
}

#[test]
fn highest_order_is_the_maximum() {
    assert_eq!(highest_order(&vec![1, 3, 2]), 3);
    assert_eq!(highest_order(&vec![7]), 7);
    assert_eq!(highest_order(&Vec::new()), 0);
}

#[test]
fn injector_kinds_and_known_fuels() {
    assert_eq!(parse_injector_kind("port"), Some(InjectorKind::Port));
    assert_eq!(parse_injector_kind("direct"), Some(InjectorKind::Direct));
    assert_eq!(parse_injector_kind("Port"), None);
    assert_eq!(known_fuel("CH4"), Some(KnownFuel::Methane));
    assert_eq!(known_fuel("C2H5OH"), Some(KnownFuel::Ethanol));
    assert_eq!(known_fuel("C8H18"), Some(KnownFuel::Octane));
    assert_eq!(known_fuel("H2"), None);
}

#[test]
fn single_cylinder_layout() {
    let e = Engine::new(&single(), &gas()).unwrap();
    assert_eq!(e.firing_order(), "1");
    assert_eq!(e.divisions(), 1);
    assert_eq!(e.cylinders().len(), 1);
    assert_eq!(e.cylinders()[0].name, "cyl_1");
    assert_eq!(e.cylinders()[0].firing_slot, 0);
    assert!(!e.cylinders()[0].store_species);
    assert_eq!(e.valves().len(), 2);
    assert_eq!(e.valves()[0].name, "valve_int");
    assert_eq!(e.valves()[0].cylinder, 0);
    assert_eq!(e.valves()[0].role, ValveRole::Intake);
    assert_eq!(e.valves()[1].name, "valve_exh");
    assert_eq!(e.valves()[1].role, ValveRole::Exhaust);
    assert_eq!(e.combustion(), CombustionKind::TwoZone);
    assert_eq!(e.combustion_model(), "Two-zone model");
    assert!(e.model_known());
    assert_eq!(e.injector(), Some(InjectorKind::Port));
}

#[test]
fn three_cylinders_fire_in_order() {
    let config = EngineConfig {
        firing_order: "1-3-2".to_string(),
        combustion: None,
        injector: None,
        cylinders: vec![
            cylinder("a", &["a_in1", "a_in2"], &["a_ex"]),
            CylinderConfig { store_species: Some(true), ..cylinder("b", &[], &["b_ex"]) },
            CylinderConfig { store_species: Some(false), ..cylinder("c", &["c_in"], &[]) },
        ],
    };
    let e = Engine::new(&config, &gas()).unwrap();
    assert_eq!(e.divisions(), 3);
    let slots: Vec<u32> = e.cylinders().iter().map(|c| c.firing_slot).collect();
    assert_eq!(slots, vec![0, 2, 1]);
    let stored: Vec<bool> = e.cylinders().iter().map(|c| c.store_species).collect();
    assert_eq!(stored, vec![false, true, false]);
    let valves: Vec<(String, usize, ValveRole)> =
        e.valves().iter().map(|v| (v.name.clone(), v.cylinder, v.role)).collect();
    assert_eq!(
        valves,
        vec![
            ("a_in1".to_string(), 0, ValveRole::Intake),
            ("a_in2".to_string(), 0, ValveRole::Intake),
            ("a_ex".to_string(), 0, ValveRole::Exhaust),
            ("b_ex".to_string(), 1, ValveRole::Exhaust),
            ("c_in".to_string(), 2, ValveRole::Intake),
        ]
    );
    assert_eq!(e.combustion(), CombustionKind::NoCombustion);
    assert_eq!(e.combustion_model(), "no combustion model");
    assert_eq!(e.injector(), None);
}

#[test]
fn firing_slots_lie_within_the_divisions() {
    let config = EngineConfig {
        firing_order: "2-5".to_string(),
        combustion: None,
        injector: None,
        cylinders: vec![cylinder("a", &[], &[]), cylinder("b", &[], &[])],
    };
    let e = Engine::new(&config, &gas()).unwrap();
    assert_eq!(e.divisions(), 5);
    for c in e.cylinders() {
        assert!(c.firing_slot < e.divisions());
    }
    assert_eq!(e.cylinders()[0].firing_slot, 1);
    assert_eq!(e.cylinders()[1].firing_slot, 4);
}

#[test]
fn valves_of_a_repeated_cylinder_name_go_to_the_first() {
    let config = EngineConfig {
        firing_order: "1-2".to_string(),
        combustion: None,
        injector: None,
        cylinders: vec![cylinder("a", &["v1"], &[]), cylinder("a", &["v2"], &[])],
    };
    let e = Engine::new(&config, &gas()).unwrap();
    assert_eq!(e.valves()[0].cylinder, 0);
    assert_eq!(e.valves()[1].cylinder, 0);
}

#[test]
fn unknown_model_runs_without_combustion() {
    let config = EngineConfig { combustion: Some("Wiebe".to_string()), ..single() };
    let e = Engine::new(&config, &gas()).unwrap();
    assert_eq!(e.combustion(), CombustionKind::NoCombustion);
    assert!(!e.model_known());
    assert_eq!(e.injector(), Some(InjectorKind::Port));
}

#[test]
fn store_species_sets_every_cylinder() {
    let mut e = Engine::new(&single(), &gas()).unwrap();
    e.store_species(true);
    assert!(e.cylinders().iter().all(|c| c.store_species));
    assert_eq!(e.cylinders()[0].name, "cyl_1");
    e.store_species(false);
    assert!(e.cylinders().iter().all(|c| !c.store_species));
}

#[test]
fn bad_firing_order_comes_first() {
    let config = EngineConfig { firing_order: "1-x".to_string(), injector: None, ..single() };
    match fault(&config, &gas()) {
        EngineError::BadFiringOrder(field) => assert_eq!(field, "x"),
        other => panic!("unexpected {:?}", other),
    }
}

#[test]
fn firing_order_needs_one_index_per_cylinder() {
    let config = EngineConfig { firing_order: "1-2".to_string(), ..single() };
    match fault(&config, &gas()) {
        EngineError::LengthMismatch { firing_order: 2, cylinders: 1 } => {}
        other => panic!("unexpected {:?}", other),
    }
    let none = EngineConfig { cylinders: Vec::new(), ..single() };
    match fault(&none, &gas()) {
        EngineError::LengthMismatch { firing_order: 1, cylinders: 0 } => {}
        other => panic!("unexpected {:?}", other),
    }
}

#[test]
fn combustion_needs_an_injector() {
    let config = EngineConfig { injector: None, ..single() };
    match fault(&config, &gas()) {
        EngineError::CombustionWithoutInjector => {}
        other => panic!("unexpected {:?}", other),
    }
}

#[test]
fn gas_must_hold_air_fuel_and_products() {
    let cases: [(&[&str], &str); 5] = [
        (&["N2", "CO2", "H2O", "C2H5OH"], "O2"),
        (&["O2", "CO2", "H2O", "C2H5OH"], "N2"),
        (&["O2", "N2", "CO2", "H2O"], "C2H5OH"),
        (&["O2", "N2", "H2O", "C2H5OH"], "CO2"),
        (&["O2", "N2", "CO2", "C2H5OH"], "H2O"),
    ];
    for (species, missing) in cases {
        let table = SpeciesTable::new(strings(species)).unwrap();
        match fault(&single(), &table) {
            EngineError::MissingSpecies(name) => assert_eq!(name, missing),
            other => panic!("unexpected {:?}", other),
        }
    }
    let motored = EngineConfig { combustion: None, injector: None, ..single() };
    let air = SpeciesTable::new(strings(&["O2", "N2"])).unwrap();
    assert!(Engine::new(&motored, &air).is_ok());
    let no_model = EngineConfig { combustion: None, ..single() };
    let lean = SpeciesTable::new(strings(&["O2", "N2", "C2H5OH"])).unwrap();
    assert!(Engine::new(&no_model, &lean).is_ok());
}

#[test]
fn injector_type_must_be_known() {
    let config = EngineConfig {
        injector: Some(InjectorConfig { inj_type: "carburettor".to_string(), ..ethanol() }),
        ..single()
    };
    match fault(&config, &gas()) {
        EngineError::UnknownInjectorType(name) => assert_eq!(name, "carburettor"),
        other => panic!("unexpected {:?}", other),
    }
}

#[test]
fn fuel_needs_a_heating_value() {
    let table = SpeciesTable::new(strings(&["O2", "N2", "CO2", "H2O", "H2", "CH4"])).unwrap();
    let hydrogen = |has_lhv| EngineConfig {
        injector: Some(InjectorConfig {
            inj_type: "direct".to_string(),
            fuel_name: "H2".to_string(),
            has_lhv,
        }),
        ..single()
    };
    match fault(&hydrogen(false), &table) {
        EngineError::NoHeatingValue(name) => assert_eq!(name, "H2"),
        other => panic!("unexpected {:?}", other),
    }
    let e = Engine::new(&hydrogen(true), &table).unwrap();
    assert_eq!(e.injector(), Some(InjectorKind::Direct));
    let methane = EngineConfig {
        injector: Some(InjectorConfig {
            inj_type: "port".to_string(),
            fuel_name: "CH4".to_string(),
            has_lhv: false,
        }),
        ..single()
    };
    assert!(Engine::new(&methane, &table).is_ok());
}
