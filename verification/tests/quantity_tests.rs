use calki::math::number::Rational;
use calki::math::quantity::{
    adjust_unit_plurality, check_built_in_args, eval_and_logic, eval_or_logic, flatten_quantity,
    format_quantity, is_complex, make_complex_qty, to_complex_parts, Quantity,
};

fn num(n: i64) -> Rational {
    Rational::from_int(n)
}

fn frac(n: i64, d: i64) -> Rational {
    Rational::new(n, d).unwrap()
}

#[test]
fn test_format_quantity_plurality() {
    let q1 = Quantity::scalar(num(1), Some("days".to_string()));
    assert_eq!(format_quantity(&q1), "1 day");

    let q2 = Quantity::scalar(num(5), Some("days".to_string()));
    assert_eq!(format_quantity(&q2), "5 days");

    let q3 = Quantity::scalar(num(12), Some("month/year".to_string()));
    assert_eq!(format_quantity(&q3), "12 months/year");

    let q4 = Quantity::scalar(num(1), Some("month/year".to_string()));
    assert_eq!(format_quantity(&q4), "1 month/year");

    let q5 = Quantity::scalar(num(1), Some("miles/hour".to_string()));
    assert_eq!(format_quantity(&q5), "1 mile/hour");

    let q6 = Quantity::scalar(num(55), Some("miles/hour".to_string()));
    assert_eq!(format_quantity(&q6), "55 miles/hour");
}

#[test]
fn format_fractions_round_to_four_places() {
    assert_eq!(format_quantity(&Quantity::scalar(frac(1, 3), None)), "0.3333");
    assert_eq!(format_quantity(&Quantity::scalar(frac(5, 2), None)), "2.5");
    assert_eq!(format_quantity(&Quantity::scalar(frac(-7, 4), None)), "-1.75");
    assert_eq!(format_quantity(&Quantity::scalar(frac(2, 3), None)), "0.6667");
    assert_eq!(format_quantity(&Quantity::scalar(frac(19999999, 10000000), None)), "2");
}

#[test]
fn format_small_values_use_more_places_then_scientific() {
    assert_eq!(format_quantity(&Quantity::scalar(frac(1, 100000), None)), "0.00001");
    assert_eq!(format_quantity(&Quantity::scalar(frac(3, 20000000), None)), "0.00000015");
    assert_eq!(format_quantity(&Quantity::scalar(frac(1, 10000000000), None)), "1e-10");
    assert_eq!(format_quantity(&Quantity::scalar(frac(-15, 100000000000), None)), "-1.5e-10");
}

#[test]
fn format_units_symbols_words_and_currency() {
    assert_eq!(format_quantity(&Quantity::scalar(num(30), Some("cm".to_string()))), "30 cm");
    assert_eq!(format_quantity(&Quantity::scalar(num(7), Some("J".to_string()))), "7 J");
    assert_eq!(format_quantity(&Quantity::scalar(frac(1, 5), Some("$".to_string()))), "$0.2");
    assert_eq!(format_quantity(&Quantity::scalar(num(3), Some("$/kWh".to_string()))), "$3/kWh");
    assert_eq!(format_quantity(&Quantity::scalar(num(4), Some("i".to_string()))), "4i");
    assert_eq!(format_quantity(&Quantity::scalar(num(2), Some("hour".to_string()))), "2 hours");
}

#[test]
fn format_hex_bin_bool_and_lists() {
    assert_eq!(format_quantity(&Quantity::scalar(num(174), Some("hex".to_string()))), "0xAE");
    assert_eq!(format_quantity(&Quantity::scalar(num(2), Some("bin".to_string()))), "0b10");
    assert_eq!(format_quantity(&Quantity::scalar(num(-1), Some("hex".to_string()))), "0xFFFFFFFFFFFFFFFF");
    assert_eq!(format_quantity(&Quantity::boolean(true)), "True");
    assert_eq!(format_quantity(&Quantity::boolean(false)), "False");
    let list = Quantity {
        value: num(0),
        unit: None,
        list: Some(vec![Quantity::scalar(num(1), None), Quantity::scalar(num(2), None)]),
        is_bool: false,
    };
    assert_eq!(format_quantity(&list), "[1, 2]");
    let nested = Quantity { value: num(0), unit: None, list: Some(vec![list]), is_bool: false };
    assert_eq!(format_quantity(&nested), "[[1, 2]]");
}

#[test]
fn format_sparkline_formula_and_complex() {
    let s = Quantity::scalar(num(0), Some("sparkline: ▅▃█".to_string()));
    assert_eq!(format_quantity(&s), " ▅▃█");
    let f = Quantity::scalar(num(0), Some("formula:2 * x + 5".to_string()));
    assert_eq!(format_quantity(&f), "2 * x + 5");
    assert_eq!(format_quantity(&make_complex_qty(num(6), num(-2))), "6 - 2i");
    assert_eq!(format_quantity(&make_complex_qty(frac(8, 5), frac(-1, 5))), "1.6 - 0.2i");
    assert_eq!(format_quantity(&make_complex_qty(num(-7), num(22))), "-7 + 22i");
    assert_eq!(format_quantity(&make_complex_qty(num(0), num(3))), "3i");
    assert_eq!(format_quantity(&make_complex_qty(num(5), num(0))), "5");
}

#[test]
fn complex_parts_and_detection() {
    let c = make_complex_qty(num(2), num(3));
    assert!(is_complex(&c));
    let (re, im) = to_complex_parts(&c);
    assert_eq!((re.numerator(), im.numerator()), (2, 3));
    let i = Quantity::scalar(num(4), Some("i".to_string()));
    assert!(is_complex(&i));
    let (re, im) = to_complex_parts(&i);
    assert_eq!((re.numerator(), im.numerator()), (0, 4));
    assert!(!is_complex(&Quantity::scalar(num(4), Some("m".to_string()))));
}

#[test]
fn unit_plurality_keeps_unknown_units() {
    assert_eq!(adjust_unit_plurality("widget", &frac(8, 3)), "widget");
    assert_eq!(adjust_unit_plurality("days", &num(1)), "day");
    assert_eq!(adjust_unit_plurality("week", &num(3)), "weeks");
    assert_eq!(adjust_unit_plurality("kWh/hr", &num(1)), "kWh/hr");
}

#[test]
fn logic_on_values_and_argument_counts() {
    let one = Quantity::scalar(num(1), None);
    let zero = Quantity::scalar(num(0), None);
    assert_eq!(eval_and_logic(&one, &zero), Ok(false));
    assert_eq!(eval_or_logic(&one, &zero), Ok(true));
    let list = Quantity { value: num(0), unit: None, list: Some(vec![]), is_bool: false };
    assert_eq!(
        eval_and_logic(&list, &one),
        Err("Logical AND cannot be applied to lists".to_string())
    );
    assert_eq!(
        eval_or_logic(&one, &list),
        Err("Logical OR cannot be applied to lists".to_string())
    );
    assert_eq!(check_built_in_args("sqrt", &[one], 1), Ok(()));
    assert_eq!(
        check_built_in_args("pow", &[zero], 2),
        Err("Built-in function 'pow' expects 2 arguments, found 1".to_string())
    );
}

#[test]
fn flatten_collects_leaves_in_order() {
    let inner = Quantity {
        value: num(0),
        unit: None,
        list: Some(vec![Quantity::scalar(num(2), None), Quantity::scalar(num(3), None)]),
        is_bool: false,
    };
    let outer = Quantity {
        value: num(0),
        unit: None,
        list: Some(vec![Quantity::scalar(num(1), None), inner]),
        is_bool: false,
    };
    let mut out = Vec::new();
    flatten_quantity(&outer, &mut out);
    let texts: Vec<String> = out.iter().map(format_quantity).collect();
    assert_eq!(texts, vec!["1", "2", "3"]);
}
