use home_control_backend::api::control_options::{
    check_control_data, validate_control_data, ControlOptions, ControllerType, Validation,
    ValidationError,
};
use home_control_backend::string_map::StringMap;

fn data(entries: &[(&str, &str)]) -> (StringMap<String>, StringMap<u32>) {
    let mut values = StringMap::new();
    let mut numbers = StringMap::new();
    for (k, v) in entries {
        values.insert(k.to_string(), v.to_string());
        if let Ok(x) = v.parse::<f32>() {
            numbers.insert(k.to_string(), x.to_bits());
        }
    }
    (values, numbers)
}

fn options() -> Vec<ControlOptions> {
    vec![
        ControlOptions::new_picker("power", vec!["on", "off"]),
        ControlOptions::new_range("level", (0.0f32.to_bits(), 10.0f32.to_bits())),
        ControlOptions::new_input("label"),
        ControlOptions::new_read("temp"),
    ]
}

#[test]
fn new_picker_keeps_values() {
    let p = ControlOptions::new_picker("power", vec!["on", "off"]);
    assert_eq!(p.name, "power");
    assert_eq!(p.opt_type, ControllerType::Picker);
    assert_eq!(p.values, vec!["on".to_string(), "off".to_string()]);
    assert_eq!(p.range_min, 0);
    assert_eq!(p.range_max, 0);
}

#[test]
fn new_range_keeps_bounds() {
    let r = ControlOptions::new_range("level", (1.5f32.to_bits(), 2.5f32.to_bits()));
    assert_eq!(r.opt_type, ControllerType::Range);
    assert!(r.values.is_empty());
    assert_eq!(f32::from_bits(r.range_min), 1.5);
    assert_eq!(f32::from_bits(r.range_max), 2.5);
}

#[test]
fn input_and_read_have_no_values() {
    let i = ControlOptions::new_input("label");
    assert_eq!(i.opt_type, ControllerType::Input);
    assert!(i.values.is_empty());
    let r = ControlOptions::new_read("temp");
    assert_eq!(r.opt_type, ControllerType::Read);
}

#[test]
fn picker_accepts_listed_value() {
    let (d, n) = data(&[("power", "on")]);
    assert_eq!(validate_control_data(options(), &d, &n), Ok(()));
}

#[test]
fn picker_refuses_other_value() {
    let (d, n) = data(&[("power", "dim")]);
    assert_eq!(validate_control_data(options(), &d, &n), Err(ValidationError::InvalidData));
    assert_eq!(ValidationError::InvalidData.message(), "Invalid data");
}

#[test]
fn range_refuses_non_number() {
    let (d, n) = data(&[("level", "high")]);
    assert_eq!(validate_control_data(options(), &d, &n), Err(ValidationError::InvalidType));
    assert_eq!(ValidationError::InvalidType.message(), "Invalid Type: required f32");
}

#[test]
fn range_refuses_out_of_bounds() {
    for v in ["-0.5", "10.01", "inf", "-inf"] {
        let (d, n) = data(&[("level", v)]);
        assert_eq!(validate_control_data(options(), &d, &n), Err(ValidationError::OutOfRange), "{}", v);
    }
    assert_eq!(ValidationError::OutOfRange.message(), "Invalid value: out of range");
}

#[test]
fn range_accepts_bounds_and_inner_values() {
    for v in ["0", "-0", "10", "3.25", "1e1", "NaN"] {
        let (d, n) = data(&[("level", v)]);
        assert_eq!(validate_control_data(options(), &d, &n), Ok(()), "{}", v);
    }
}

#[test]
fn negative_ranges_compare_as_floats() {
    let opts = vec![ControlOptions::new_range("t", ((-5.0f32).to_bits(), (-1.0f32).to_bits()))];
    let (d, n) = data(&[("t", "-3")]);
    assert_eq!(validate_control_data(opts, &d, &n), Ok(()));
    let opts = vec![ControlOptions::new_range("t", ((-5.0f32).to_bits(), (-1.0f32).to_bits()))];
    let (d, n) = data(&[("t", "-0.5")]);
    assert_eq!(validate_control_data(opts, &d, &n), Err(ValidationError::OutOfRange));
    let opts = vec![ControlOptions::new_range("t", ((-5.0f32).to_bits(), (-1.0f32).to_bits()))];
    let (d, n) = data(&[("t", "-6")]);
    assert_eq!(validate_control_data(opts, &d, &n), Err(ValidationError::OutOfRange));
}

#[test]
fn input_and_read_accept_anything() {
    let (d, n) = data(&[("label", "anything at all"), ("temp", "")]);
    assert_eq!(validate_control_data(options(), &d, &n), Ok(()));
}

#[test]
fn first_refused_entry_decides() {
    let (d, n) = data(&[("power", "on"), ("level", "x"), ("power2", "y")]);
    assert_eq!(validate_control_data(options(), &d, &n), Err(ValidationError::InvalidType));
    let (d, n) = data(&[("power", "up"), ("level", "x")]);
    assert_eq!(validate_control_data(options(), &d, &n), Err(ValidationError::InvalidData));
}

#[test]
fn unknown_option_is_reported_by_the_check() {
    let (d, n) = data(&[("power", "on"), ("volume", "3")]);
    match check_control_data(&options(), &d, &n) {
        Validation::UnknownOption(k) => assert_eq!(k, "volume"),
        _ => panic!("expected an unknown option"),
    }
    let (d, n) = data(&[("power", "dim"), ("volume", "3")]);
    match check_control_data(&options(), &d, &n) {
        Validation::Invalid(e) => assert_eq!(e, ValidationError::InvalidData),
        _ => panic!("expected a refusal"),
    }
}

#[test]
fn empty_request_is_valid() {
    let (d, n) = data(&[]);
    assert_eq!(validate_control_data(vec![], &d, &n), Ok(()));
}

#[test]
fn first_option_of_a_name_is_used() {
    let opts = vec![
        ControlOptions::new_picker("x", vec!["a"]),
        ControlOptions::new_picker("x", vec!["b"]),
    ];
    let (d, n) = data(&[("x", "b")]);
    assert_eq!(validate_control_data(opts, &d, &n), Err(ValidationError::InvalidData));
}

#[test]
fn part_of_a_valid_request_is_valid() {
    let (d, n) = data(&[("power", "off"), ("level", "2.5"), ("label", "x")]);
    assert_eq!(validate_control_data(options(), &d, &n), Ok(()));
    let (d, n) = data(&[("level", "2.5")]);
    assert_eq!(validate_control_data(options(), &d, &n), Ok(()));
    let (d, n) = data(&[]);
    assert_eq!(validate_control_data(options(), &d, &n), Ok(()));
}
