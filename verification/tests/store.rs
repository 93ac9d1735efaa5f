use lmb_engine_simulator::headers::{
    cylinder_headers, cylinder_num_storable_variables, SampledKind,
};
use lmb_engine_simulator::store::{
    render_table, width_fits, StoreData, StoreError, MAX_ARRAY_LEN,
};

fn strings(items: &[&str]) -> Vec<String> {
    items.iter().map(|s| s.to_string()).collect()
}

/// The words that stand for the numbers.
fn words(numbers: &[f64]) -> Vec<u64> {
    numbers.iter().map(|x| x.to_bits()).collect()
}

/// The numbers that the words stand for.
fn numbers(table: Vec<Vec<u64>>) -> Vec<Vec<f64>> {
    table.iter().map(|row| row.iter().map(|w| f64::from_bits(*w)).collect()).collect()
}

#[test]
fn new_table_is_empty() {
    let t = StoreData::new("a\tb", 2);
    assert_eq!(t.header(), "a\tb");
    assert_eq!(t.num_variables(), 2);
    assert_eq!(t.last_index(), 0);
    assert_eq!(t.get_data((0, 0), &vec![0, 1]).unwrap(), Vec::<Vec<u64>>::new());
}

#[test]
fn rows_come_back_as_they_went_in() {
    let mut t = StoreData::new("a\tb\tc", 3);
    t.add_data(words(&[1.0, 2.0, 3.0])).unwrap();
    t.add_data(words(&[4.0, -5.5, 6.0])).unwrap();
    t.add_data(words(&[7.0, 8.0, 9.0e-300])).unwrap();
    assert_eq!(t.last_index(), 3);
    assert_eq!(
        numbers(t.get_data((0, 3), &vec![0, 1, 2]).unwrap()),
        vec![vec![1.0, 2.0, 3.0], vec![4.0, -5.5, 6.0], vec![7.0, 8.0, 9.0e-300]]
    );
    assert_eq!(
        numbers(t.get_data((1, 3), &vec![2, 0]).unwrap()),
        vec![vec![6.0, 4.0], vec![9.0e-300, 7.0]]
    );
    assert_eq!(t.get_data((2, 2), &vec![1]).unwrap(), Vec::<Vec<u64>>::new());
    assert_eq!(t.get_data((0, 2), &Vec::new()).unwrap(), vec![Vec::<u64>::new(), Vec::new()]);
    assert_eq!(numbers(t.get_data((0, 1), &vec![1, 1]).unwrap()), vec![vec![2.0, 2.0]]);
}

#[test]
fn words_keep_every_bit() {
    let mut t = StoreData::new("x", 1);
    for w in [0u64, 1, u64::MAX, (-0.0f64).to_bits(), f64::NAN.to_bits(), 0x8000_0000_0000_0001] {
        t.add_data(vec![w]).unwrap();
        let last = t.last_index();
        assert_eq!(t.get_data((last - 1, last), &vec![0]).unwrap(), vec![vec![w]]);
    }
    assert_eq!(t.last_index(), 6);
}

#[test]
fn wrong_width_is_refused_and_changes_nothing() {
    let mut t = StoreData::new("a\tb", 2);
    t.add_data(vec![1, 2]).unwrap();
    assert_eq!(t.add_data(vec![1]), Err(StoreError::Width { expected: 2, found: 1 }));
    assert_eq!(t.add_data(vec![1, 2, 3]), Err(StoreError::Width { expected: 2, found: 3 }));
    assert_eq!(t.accepts(&vec![1, 2, 3]), Err(StoreError::Width { expected: 2, found: 3 }));
    assert_eq!(t.accepts(&vec![5, 6]), Ok(()));
    assert_eq!(t.last_index(), 1);
    assert_eq!(t.get_data((0, 1), &vec![0, 1]).unwrap(), vec![vec![1, 2]]);
}

#[test]
fn table_without_columns_counts_its_rows() {
    let mut t = StoreData::new("", 0);
    t.add_data(Vec::new()).unwrap();
    t.add_data(Vec::new()).unwrap();
    assert_eq!(t.last_index(), 2);
    assert_eq!(t.get_data((0, 2), &Vec::new()).unwrap(), vec![Vec::<u64>::new(), Vec::new()]);
    assert_eq!(t.add_data(vec![1]), Err(StoreError::Width { expected: 0, found: 1 }));
}

#[test]
fn bad_range_and_bad_column_are_refused() {
    let mut t = StoreData::new("a\tb", 2);
    t.add_data(vec![1, 2]).unwrap();
    assert_eq!(
        t.get_data((0, 2), &vec![0]),
        Err(StoreError::Range { first: 0, end: 2, rows: 1 })
    );
    assert_eq!(
        t.get_data((1, 0), &vec![0]),
        Err(StoreError::Range { first: 1, end: 0, rows: 1 })
    );
    assert_eq!(
        t.get_data((0, 1), &vec![0, 5, 2]),
        Err(StoreError::Column { column: 5, columns: 2 })
    );
    assert_eq!(
        t.get_data((3, 1), &vec![9]),
        Err(StoreError::Range { first: 3, end: 1, rows: 1 })
    );
}

#[test]
fn full_table_refuses_and_never_truncates() {
    let mut t = StoreData::new("x", 1);
    for i in 0..MAX_ARRAY_LEN - 1 {
        assert_eq!(t.add_data(vec![i as u64]), Ok(()));
    }
    assert_eq!(t.last_index(), MAX_ARRAY_LEN - 1);
    assert_eq!(t.add_data(vec![0]), Err(StoreError::Full));
    assert_eq!(t.add_data(vec![0, 1]), Err(StoreError::Full));
    assert_eq!(t.last_index(), MAX_ARRAY_LEN - 1);
    let last = MAX_ARRAY_LEN - 2;
    assert_eq!(t.get_data((last, last + 1), &vec![0]).unwrap(), vec![vec![last as u64]]);
    assert_eq!(t.get_data((0, 2), &vec![0]).unwrap(), vec![vec![0], vec![1]]);
}

#[test]
fn reset_empties_and_keeps_the_columns() {
    let mut t = StoreData::new("a\tb", 2);
    t.add_data(vec![1, 2]).unwrap();
    t.reset_data();
    assert_eq!(t.last_index(), 0);
    assert_eq!(t.header(), "a\tb");
    assert_eq!(t.num_variables(), 2);
    t.add_data(vec![3, 4]).unwrap();
    assert_eq!(t.get_data((0, 1), &vec![0, 1]).unwrap(), vec![vec![3, 4]]);
}

#[test]
fn width_must_fit_the_machine() {
    assert!(width_fits(0));
    assert!(width_fits(5));
    assert!(width_fits(500));
    let most = (isize::MAX as usize) / (MAX_ARRAY_LEN * 16);
    assert!(width_fits(most));
    assert!(!width_fits(most + 1));
    assert!(!width_fits(usize::MAX));
}

#[test]
fn table_text_has_tabs_and_line_feeds() {
    let rows = vec![strings(&["0.000100", "1.013250", "293.000000"]), strings(&["a", "b", "c"])];
    assert_eq!(
        render_table("time [s]\tpressure [bar]\ttemperature [K]", &rows),
        "time [s]\tpressure [bar]\ttemperature [K]\n0.000100\t1.013250\t293.000000\na\tb\tc\n"
    );
    assert_eq!(render_table("h", &Vec::new()), "h\n");
    assert_eq!(render_table("h", &vec![strings(&["x"])]), "h\nx\n");
    assert_eq!(render_table("", &vec![Vec::new(), strings(&["", ""])]), "\n\t\n");
}

#[test]
fn headers_name_as_many_columns_as_are_stored() {
    for kind in [
        SampledKind::Environment,
        SampledKind::Reservoir,
        SampledKind::Orifice,
        SampledKind::Valve,
    ] {
        assert_eq!(kind.get_headers().split('\t').count(), kind.num_storable_variables());
    }
    assert_eq!(SampledKind::Environment.get_headers(), "pressure [bar]\ttemperature [K]");
    assert_eq!(
        SampledKind::Reservoir.get_headers(),
        "pressure [bar]\ttemperature [K]\tmass [kg]"
    );
    assert_eq!(SampledKind::Orifice.get_headers(), "mass flow [kg/s]\tenthalpy flow [J/s]");
    assert_eq!(
        SampledKind::Valve.get_headers(),
        "crank-angle [deg]\tmass flow [kg/s]\tenthalpy flow [J/s]\tthroat area [cm²]\tbackflow [mg]"
    );
}

#[test]
fn cylinder_header_lists_the_species() {
    let base = "crank-angle [deg]\tpressure [bar]\ttemperature [K]\tvolume [cm³]\tmass [mg]";
    let species = strings(&["O2", "N2", "CO2"]);
    assert_eq!(cylinder_headers(&species, false), base);
    assert_eq!(cylinder_headers(&species, true), format!("{}\tO2\tN2\tCO2", base));
    assert_eq!(cylinder_headers(&strings(&["O2"]), true), format!("{}\tO2", base));
    assert_eq!(cylinder_headers(&Vec::new(), true), format!("{}\t", base));
    assert_eq!(cylinder_num_storable_variables(3, false), 5);
    assert_eq!(cylinder_num_storable_variables(3, true), 8);
    assert_eq!(
        cylinder_headers(&species, true).split('\t').count(),
        cylinder_num_storable_variables(3, true)
    );
}
