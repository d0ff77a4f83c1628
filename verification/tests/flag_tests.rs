use seahorse::Flag;
use seahorse::FlagError;
use seahorse::FlagType;
use seahorse::FlagValue;

fn tokens(v: &[&str]) -> Vec<String> {
    v.iter().map(|s| s.to_string()).collect()
}

#[test]
fn opiton_index() {
    let v = vec![
        "cli".to_string(),
        "command".to_string(),
        "-a".to_string(),
        "--bool".to_string(),
        "-c".to_string(),
    ];
    {
        let f = Flag::new("bool", "", FlagType::Bool).unwrap();
        assert_eq!(f.option_index(&v), Some(3));
    }
    {
        let f = Flag::new("age", "", FlagType::Bool).unwrap().alias("a");
        assert_eq!(f.option_index(&v), Some(2));
    }
    {
        let f = Flag::new("dance", "", FlagType::Bool).unwrap();
        assert_eq!(f.option_index(&v), None);
    }
}

#[test]
#[should_panic]
fn construct_fail_1() {
    Flag::new("bo=ol", "", FlagType::Bool).unwrap();
}

#[test]
#[should_panic]
fn construct_fail_2() {
    Flag::new("------bool", "", FlagType::Bool).unwrap();
}

#[test]
#[should_panic]
fn construct_fail_3() {
    Flag::new("cool flag", "", FlagType::Bool).unwrap();
}

#[test]
fn bool_flag_test() {
    let bool_flag = Flag::new("bool", "", FlagType::Bool).unwrap();
    let v = vec![
        "cli".to_string(),
        "command".to_string(),
        "args".to_string(),
        "--bool".to_string(),
    ];

    match bool_flag.value(&v) {
        Ok(Some(FlagValue::Bool(val))) => assert!(val),
        _ => assert!(false),
    }
}

#[test]
fn string_flag_test() {
    let string_flag = Flag::new("string", "", FlagType::String).unwrap();
    let v = vec![
        "cli".to_string(),
        "command".to_string(),
        "args".to_string(),
        "--string".to_string(),
        "test".to_string(),
    ];

    match string_flag.value(&v) {
        Ok(Some(FlagValue::String(val))) => assert_eq!("test".to_string(), val),
        _ => assert!(false),
    }
}

#[test]
fn int_flag_test() {
    let int_flag = Flag::new("int", "", FlagType::Int).unwrap();
    let v = vec![
        "cli".to_string(),
        "command".to_string(),
        "args".to_string(),
        "--int".to_string(),
        "100".to_string(),
    ];

    match int_flag.value(&v) {
        Ok(Some(FlagValue::Int(val))) => assert_eq!(100, val),
        _ => assert!(false),
    }
}

#[test]
fn float_flag_test() {
    let float_flag = Flag::new("float", "", FlagType::Float).unwrap();
    let v = vec![
        "cli".to_string(),
        "command".to_string(),
        "args".to_string(),
        "--float".to_string(),
        "1.23".to_string(),
    ];

    match float_flag.value(&v) {
        Ok(Some(FlagValue::Float(val))) => assert_eq!(1.23, val.parse::<f64>().unwrap()),
        _ => assert!(false),
    }
}

#[test]
fn construct_rejects_tab_and_newline() {
    assert_eq!(Flag::new("a\tb", "", FlagType::Bool).unwrap_err(), FlagError::InvalidName);
    assert_eq!(Flag::new("a\nb", "", FlagType::Bool).unwrap_err(), FlagError::InvalidName);
}

#[test]
fn construct_stores_fields_unchanged() {
    let f = Flag::new("verbose", "print more detail", FlagType::String).unwrap();
    assert_eq!(f.name, "verbose");
    assert_eq!(f.usage, "print more detail");
    assert!(matches!(f.flag_type, FlagType::String));
    assert!(f.alias.is_none());
}

#[test]
fn alias_appends_in_order() {
    let f = Flag::new("string", "", FlagType::String)
        .unwrap()
        .alias("s")
        .alias("str");
    assert_eq!(f.alias, Some(vec!["s".to_string(), "str".to_string()]));

    let v = tokens(&["cli", "-str", "x"]);
    assert_eq!(f.option_index(&v), Some(1));
    match f.value(&v) {
        Ok(Some(FlagValue::String(val))) => assert_eq!("x", val),
        _ => assert!(false),
    }
}

#[test]
fn first_match_wins_across_forms() {
    // an alias token before the long form wins by position
    let f = Flag::new("bool", "", FlagType::Bool).unwrap().alias("b");
    let v = tokens(&["cli", "-b", "--bool"]);
    assert_eq!(f.option_index(&v), Some(1));
}

#[test]
fn bool_absent_is_false_never_none() {
    let f = Flag::new("bool", "", FlagType::Bool).unwrap();
    let v = tokens(&["cli", "command", "args"]);
    match f.value(&v) {
        Ok(Some(FlagValue::Bool(val))) => assert!(!val),
        _ => assert!(false),
    }
}

#[test]
fn string_absent_is_none() {
    let f = Flag::new("string", "", FlagType::String).unwrap();
    let v = tokens(&["cli", "command", "args"]);
    assert_eq!(f.value(&v), Ok(None));
}

#[test]
fn missing_following_value_is_error() {
    let f = Flag::new("string", "", FlagType::String).unwrap();
    let v = tokens(&["cli", "command", "--string"]);
    assert_eq!(f.value(&v), Err(FlagError::MissingValue));
}

#[test]
fn int_signs_and_bounds() {
    let f = Flag::new("int", "", FlagType::Int).unwrap();
    assert_eq!(
        f.value(&tokens(&["--int", "-42"])),
        Ok(Some(FlagValue::Int(-42)))
    );
    assert_eq!(
        f.value(&tokens(&["--int", "+7"])),
        Ok(Some(FlagValue::Int(7)))
    );
    assert_eq!(
        f.value(&tokens(&["--int", "0009"])),
        Ok(Some(FlagValue::Int(9)))
    );
    assert_eq!(
        f.value(&tokens(&["--int", "9223372036854775807"])),
        Ok(Some(FlagValue::Int(isize::MAX)))
    );
    assert_eq!(
        f.value(&tokens(&["--int", "-9223372036854775808"])),
        Ok(Some(FlagValue::Int(isize::MIN)))
    );
    assert_eq!(
        f.value(&tokens(&["--int", "9223372036854775808"])),
        Err(FlagError::TypeError)
    );
    assert_eq!(
        f.value(&tokens(&["--int", "99999999999999999999999999999999999999999999"])),
        Err(FlagError::TypeError)
    );
}

#[test]
fn int_coercion_errors() {
    let f = Flag::new("int", "", FlagType::Int).unwrap();
    assert_eq!(f.value(&tokens(&["--int", "ten"])), Err(FlagError::TypeError));
    assert_eq!(f.value(&tokens(&["--int", "1.5"])), Err(FlagError::TypeError));
    assert_eq!(f.value(&tokens(&["--int", ""])), Err(FlagError::TypeError));
    assert_eq!(f.value(&tokens(&["--int", "-"])), Err(FlagError::TypeError));
}

#[test]
fn float_grammar_accepted() {
    let f = Flag::new("float", "", FlagType::Float).unwrap();
    for tok in ["1.23", "-4.", ".5", "7", "1e5", "2.5E-3", "+0.25", "inf", "-Infinity", "NaN"] {
        match f.value(&tokens(&["--float", tok])) {
            Ok(Some(FlagValue::Float(val))) => {
                assert_eq!(val, tok);
                // the kept token round-trips through standard decimal parsing
                assert!(val.parse::<f64>().is_ok());
            }
            _ => assert!(false),
        }
    }
}

#[test]
fn float_coercion_errors() {
    let f = Flag::new("float", "", FlagType::Float).unwrap();
    for tok in ["abc", ".", "1..2", "1e", "e5", "--1.0", "1.0f", ""] {
        assert_eq!(f.value(&tokens(&["--float", tok])), Err(FlagError::TypeError));
    }
}

#[test]
fn resolution_is_idempotent() {
    let f = Flag::new("int", "", FlagType::Int).unwrap().alias("i");
    let v = tokens(&["cli", "-i", "100", "--int", "200"]);
    let first = f.value(&v);
    let second = f.value(&v);
    assert_eq!(first, second);
    assert_eq!(first, Ok(Some(FlagValue::Int(100))));
}

#[test]
fn error_messages_describe_each_error() {
    assert!(FlagError::InvalidName.message().contains("invalid flag name"));
    assert!(FlagError::MissingValue.message().contains("no following value"));
    assert!(FlagError::TypeError.message().contains("declared type"));
}
