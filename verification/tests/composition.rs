use lmb_engine_simulator::composition::{Assignment, CompositionError, SpeciesTable};
use lmb_engine_simulator::number::{number_shape, writes_number};

fn strings(items: &[&str]) -> Vec<String> {
    items.iter().map(|s| s.to_string()).collect()
}

fn air() -> SpeciesTable {
    SpeciesTable::new(strings(&["O2", "N2", "CO2", "H2O", "C2H5OH"])).unwrap()
}

fn pairs(list: &[Assignment]) -> Vec<(usize, String)> {
    list.iter().map(|a| (a.species, a.value.clone())).collect()
}

fn written(items: &[Option<&str>]) -> Vec<Option<String>> {
    items.iter().map(|f| f.map(|s| s.to_string())).collect()
}

/// The fractions as numbers, nothing for zero, and their sum.
fn numbers(fractions: &[Option<String>]) -> (Vec<f64>, f64) {
    let x: Vec<f64> = fractions
        .iter()
        .map(|f| f.as_ref().map(|s| s.parse::<f64>().unwrap()).unwrap_or(0.0))
        .collect();
    let sum = x.iter().sum();
    (x, sum)
}

#[test]
fn species_table_keeps_order() {
    let table = air();
    assert_eq!(table.num_species(), 5);
    assert_eq!(table.species(), &strings(&["O2", "N2", "CO2", "H2O", "C2H5OH"]));
    assert_eq!(table.get_specie_index("O2"), Some(0));
    assert_eq!(table.get_specie_index("H2O"), Some(3));
    assert_eq!(table.get_specie_index("AR"), None);
    assert!(table.contains_specie("C2H5OH"));
    assert!(!table.contains_specie("c2h5oh"));
}

#[test]
fn species_table_refuses_a_repeated_name() {
    match SpeciesTable::new(strings(&["O2", "N2", "O2", "N2"])) {
        Err(name) => assert_eq!(name, "O2"),
        Ok(_) => panic!("a repeated species was accepted"),
    }
    assert!(SpeciesTable::new(Vec::new()).is_ok());
}

#[test]
fn decimal_numbers_are_numbers() {
    for text in [
        "0.21", "0.79", "1", "1.0", "1.", ".5", "+.5", "-0.25", "0", "-0", "007.5", "7.9e-1",
        "7.9E-1", "21e-2", "0.021e+1", "2.1e0", "1e6", "9e-13", "1e-400", "1e999",
        "0.3333333333333333333333333333", "1.0000000100009", "0.9999999899999", "2e-13",
        "99999999999999999999999999999999999999999999", "-1000000", "1000001",
        "0e99999999999999999999999999999999999",
    ] {
        assert!(writes_number(text), "{}", text);
        assert!(text.parse::<f64>().is_ok(), "{}", text);
    }
}

#[test]
fn text_that_is_no_number_is_refused() {
    for text in [
        "", ".", "+", "-", "e5", "1e", "1e+", "1e-", "+-1", "1.2.3", "1,5", " 1", "1 ", "0x10",
        "1e5.0", "1f", "--1", "１", "1_000", "e", ".e1", "+.e1", "1e1e1",
    ] {
        assert!(!writes_number(text), "{}", text);
        assert!(text.parse::<f64>().is_err(), "{}", text);
    }
}

#[test]
fn words_for_infinity_are_no_numbers() {
    for text in ["inf", "-inf", "+infinity", "Infinity", "nan", "NaN", "-nan"] {
        assert!(!writes_number(text), "{}", text);
    }
}

#[test]
fn number_grammar_agrees_with_floating_point_on_short_texts() {
    let letters = ['0', '7', '.', 'e', 'E', '+', '-', ' ', 'x'];
    let mut texts: Vec<String> = vec![String::new()];
    for _ in 0..5 {
        let mut longer = Vec::new();
        for t in texts.iter().filter(|t| t.chars().count() == texts.last().unwrap().chars().count())
        {
            for c in letters {
                longer.push(format!("{}{}", t, c));
            }
        }
        texts.extend(longer);
    }
    assert!(texts.len() > 60000);
    for text in texts {
        assert_eq!(writes_number(&text), text.parse::<f64>().is_ok(), "{:?}", text);
    }
}

#[test]
fn number_shape_finds_the_parts() {
    let chars: Vec<char> = "-12.345e+67".chars().collect();
    let shape = number_shape(&chars).unwrap();
    assert!(shape.negative);
    assert_eq!((shape.int_from, shape.int_len), (1, 2));
    assert_eq!((shape.frac_from, shape.frac_len), (4, 3));
    assert!(!shape.exp_negative);
    assert_eq!((shape.exp_from, shape.exp_len), (9, 2));
    let chars: Vec<char> = ".5E-3".chars().collect();
    let shape = number_shape(&chars).unwrap();
    assert!(!shape.negative);
    assert_eq!((shape.int_len, shape.frac_len, shape.exp_len), (0, 1, 1));
    assert!(shape.exp_negative);
    assert!(number_shape(&Vec::new()).is_none());
}

#[test]
fn assignments_come_in_the_order_of_the_text() {
    let table = air();
    let read = table.parse_assignments("O2:0.21, N2:0.79").unwrap();
    assert_eq!(pairs(&read), vec![(0, "0.21".to_string()), (1, "0.79".to_string())]);
    let read = table.parse_assignments("O2:0.5 O2:1.0 N2:5").unwrap();
    assert_eq!(
        pairs(&read),
        vec![(0, "0.5".to_string()), (0, "1.0".to_string()), (1, "5".to_string())]
    );
    assert!(table.parse_assignments("").unwrap().is_empty());
}

#[test]
fn assignments_round_trip_the_written_fraction() {
    let table = air();
    let text = "\"O2:0.21\", N2:7.9e-1  CO2:0.";
    let read = table.parse_assignments(text).unwrap();
    for a in read.iter() {
        let word = format!("{}:{}", table.species()[a.species], a.value);
        assert!(text.replace(['"', ','], "").split_whitespace().any(|w| w == word));
    }
    assert_eq!(
        pairs(&read),
        vec![(0, "0.21".to_string()), (1, "7.9e-1".to_string()), (2, "0.".to_string())]
    );
}

#[test]
fn composition_of_air() {
    let table = air();
    let read = table.parse_composition("O2:0.21, N2:0.79").unwrap();
    assert_eq!(read, written(&[Some("0.21"), Some("0.79"), None, None, None]));
    let (x, sum) = numbers(&read);
    assert_eq!(x, vec![0.21, 0.79, 0.0, 0.0, 0.0]);
    assert!((sum - 1.0).abs() <= 1e-8);
}

#[test]
fn composition_of_exhaust_gas() {
    let table = air();
    let read = table.parse_composition("N2:0.662586, H2O:0.202449, CO2:0.134965").unwrap();
    assert_eq!(
        read,
        written(&[None, Some("0.662586"), Some("0.134965"), Some("0.202449"), None])
    );
    let (x, sum) = numbers(&read);
    assert_eq!(x, vec![0.0, 0.662586, 0.134965, 0.202449, 0.0]);
    assert!((sum - 1.0).abs() <= 1e-8);
}

#[test]
fn last_fraction_of_a_species_counts() {
    let table = air();
    let read = table.parse_composition("O2:0.5 N2:0.79 O2:0.21").unwrap();
    assert_eq!(read, written(&[Some("0.21"), Some("0.79"), None, None, None]));
    let read = table.parse_composition("O2:0.21 N2:0.79 O2:0.5").unwrap();
    assert_eq!(read[0], Some("0.5".to_string()));
}

#[test]
fn no_digit_of_a_fraction_is_dropped() {
    let table = SpeciesTable::new(strings(&["A", "B"])).unwrap();
    let read = table.parse_composition("A:0.9999999899999 B:2e-13").unwrap();
    assert_eq!(read, written(&[Some("0.9999999899999"), Some("2e-13")]));
    let (x, sum) = numbers(&read);
    assert_eq!(x, vec![0.9999999899999, 2e-13]);
    assert!((sum - 1.0).abs() <= 1e-8);

    let one = SpeciesTable::new(strings(&["A"])).unwrap();
    let read = one.parse_composition("A:1.0000000100009").unwrap();
    assert_eq!(read, written(&[Some("1.0000000100009")]));
    let (x, sum) = numbers(&read);
    assert_eq!(x, vec![1.0000000100009]);
    assert!((sum - 1.0).abs() > 1e-8);

    let read = table.parse_composition("A:9e-13 B:1").unwrap();
    assert_eq!(read, written(&[Some("9e-13"), Some("1")]));
    assert_eq!(numbers(&read).0, vec![9e-13, 1.0]);
}

#[test]
fn no_fraction_is_too_large_or_too_long() {
    let table = SpeciesTable::new(strings(&["A", "B"])).unwrap();
    let read = table.parse_composition("A:1000001 B:-1000000").unwrap();
    assert_eq!(read, written(&[Some("1000001"), Some("-1000000")]));
    let (_, sum) = numbers(&read);
    assert!((sum - 1.0).abs() <= 1e-8);
    let long = "0.33333333333333333333333333333333333333333333333333";
    let read = table.parse_composition(&format!("A:{} B:1e-25", long)).unwrap();
    assert_eq!(read, written(&[Some(long), Some("1e-25")]));
}

#[test]
fn composition_of_empty_text_names_no_species() {
    let table = air();
    assert_eq!(table.parse_composition("").unwrap(), written(&[None; 5]));
    assert_eq!(table.parse_composition(" , ").unwrap(), written(&[None; 5]));
    let none = SpeciesTable::new(Vec::new()).unwrap();
    assert!(none.parse_composition("").unwrap().is_empty());
}

#[test]
fn composition_reports_the_first_bad_word() {
    let table = air();
    match table.parse_composition("O2:0.21 N2 AR:0.1") {
        Err(CompositionError::Malformed(word)) => assert_eq!(word, "N2"),
        other => panic!("unexpected {:?}", other),
    }
    match table.parse_composition("O2:0.21,N2:0.79") {
        Err(CompositionError::Malformed(word)) => assert_eq!(word, "O2:0.21N2:0.79"),
        other => panic!("unexpected {:?}", other),
    }
    match table.parse_composition("O2:0.21 AR:x N2") {
        Err(CompositionError::UnknownSpecies(name)) => assert_eq!(name, "AR"),
        other => panic!("unexpected {:?}", other),
    }
    match table.parse_composition("O2:0.21 N2:0,79x CO2") {
        Err(CompositionError::BadFraction(value)) => assert_eq!(value, "079x"),
        other => panic!("unexpected {:?}", other),
    }
    match table.parse_composition("O2:nan N2:zero") {
        Err(CompositionError::BadFraction(value)) => assert_eq!(value, "nan"),
        other => panic!("unexpected {:?}", other),
    }
    match table.parse_assignments("O2: N2:0.79") {
        Err(CompositionError::BadFraction(value)) => assert_eq!(value, ""),
        other => panic!("unexpected {:?}", other),
    }
}

#[test]
fn composition_errors_have_messages() {
    assert_eq!(
        CompositionError::UnknownSpecies("AR".to_string()).message(),
        "species `AR` is not in the species table"
    );
    assert_eq!(
        CompositionError::Malformed("N2".to_string()).message(),
        "\"N2\" is no pair; a composition reads like \"O2:0.21, N2:0.79\""
    );
    assert_eq!(
        CompositionError::BadFraction("x".to_string()).message(),
        "\"x\" is no fraction"
    );
}
