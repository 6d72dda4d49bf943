use asyncs::attribute::{
    choose_parallelism, generate, generate_parsed, is_test_attribute, parse_config, plan, Argument,
    Attribute, ConfigError, Configuration, Function, Literal, Path, Segment, TestError,
};

fn name_value(name: &str, literal: Literal) -> Argument {
    Argument::NameValue(Some(name.to_string()), Some(literal))
}

fn string(value: &str) -> Literal {
    Literal::Str(format!("\"{}\"", value), value.to_string())
}

fn integer(digits: &str) -> Literal {
    Literal::Int(digits.to_string())
}

fn segments(idents: &[&str]) -> Vec<Segment> {
    idents.iter().map(|ident| Segment { ident: ident.to_string(), plain: true }).collect()
}

fn ident(name: &str) -> Option<Path> {
    Some(Path { leading_colon: false, segments: segments(&[name]) })
}

fn path(leading_colon: bool, idents: &[&str]) -> Attribute {
    Attribute::Path(Path { leading_colon, segments: segments(idents) })
}

fn failure(attr: &str, item: &str) -> String {
    match generate(attr, item) {
        Ok(_) => unreachable!(),
        Err(error) => error.message(),
    }
}

const ITEM: &str = "async fn pending_default() { select().await; }";

#[test]
fn defaults() {
    let test = match generate("", ITEM) {
        Ok(test) => test,
        Err(_) => unreachable!(),
    };
    assert_eq!(test.crate_name, "asyncs");
    assert!(test.prefer_env_parallelism);
    assert_eq!(test.parallelism, 2);
}

#[test]
fn options() {
    let test = match generate("parallelism = 4, crate = \"crate\"", ITEM) {
        Ok(test) => test,
        Err(_) => unreachable!(),
    };
    assert_eq!(test.crate_name, "crate");
    assert!(!test.prefer_env_parallelism);
    assert_eq!(test.parallelism, 4);

    let test = match generate("crate = \"other\", parallelism = 0x10,", ITEM) {
        Ok(test) => test,
        Err(_) => unreachable!(),
    };
    assert_eq!(test.crate_name, "other");
    assert_eq!(test.parallelism, 16);

    // A parallelism of zero is no default.
    let test = match generate("parallelism = 0", ITEM) {
        Ok(test) => test,
        Err(_) => unreachable!(),
    };
    assert!(!test.prefer_env_parallelism);
    assert_eq!(test.parallelism, 0);
}

#[test]
fn options_in_error() {
    assert_eq!(
        failure("crate = \"a\", crate = \"b\"", ITEM),
        "crate name already set"
    );
    assert_eq!(failure("crate = \"a::b\"", ITEM), "invalid crate name: a::b");
    assert_eq!(failure("crate = \"::a\"", ITEM), "invalid crate name: ::a");
    assert_eq!(failure("crate = \"a b\"", ITEM), "invalid crate name: a b");
    assert_eq!(failure("crate = \"\"", ITEM), "invalid crate name: ");
    assert_eq!(failure("crate = \"a\"suffix", ITEM), "invalid crate name: a");
    assert_eq!(failure("crate = 5", ITEM), "invalid crate name");
    assert_eq!(
        failure("parallelism = 1, parallelism = 2", ITEM),
        "parallelism already set"
    );
    assert_eq!(
        failure("parallelism = -1", ITEM),
        "parallelism should be non negative integer"
    );
    assert_eq!(
        failure("parallelism = \"1\"", ITEM),
        "parallelism should be non negative integer"
    );
    assert_eq!(
        failure("parallelism = 100000000000000000000000000000", ITEM),
        "number too large to fit in target type"
    );
    assert_eq!(
        failure("parallelism = one()", ITEM),
        "parallelism expect literal value"
    );
    assert_eq!(failure("a::b = 1", ITEM), "invalid attribute name");
    assert_eq!(failure("threads = 1", ITEM), "unknown attribute name");
    assert_eq!(failure("parallelism", ITEM), "unknown attribute");
    assert_eq!(failure("parallelism(2)", ITEM), "unknown attribute");
}

#[test]
fn functions_in_error() {
    assert_eq!(
        failure("", "fn f() {}"),
        "only asynchronous function can be tagged with #[asyncs:test]"
    );
    assert_eq!(
        failure("crate = \"my\"", "fn f() {}"),
        "only asynchronous function can be tagged with #[my:test]"
    );
    let second = "second test attribute is supplied, consider removing or changing the order of your test attributes";
    assert_eq!(failure("", "#[test] async fn f() {}"), second);
    match generate("", "#[ignore] #[::core::prelude::v1::test] #[test] async fn f() {}") {
        Err(TestError::SecondTest(i)) => assert_eq!(i, 1),
        _ => unreachable!(),
    }
    assert!(generate("", "#[should_panic] #[test_case(5)] async fn f(i: i32) {}").is_ok());
    match generate("", "struct S;") {
        Err(TestError::Function(message)) => assert!(!message.is_empty()),
        _ => unreachable!(),
    }
    match generate("=", ITEM) {
        Err(TestError::Arguments(message)) => assert!(!message.is_empty()),
        _ => unreachable!(),
    }
}

#[test]
fn the_first_error_counts() {
    assert_eq!(failure("threads = 1, parallelism = -1", ITEM), "unknown attribute name");
    // The arguments come before the function.
    assert_eq!(failure("threads = 1", "fn f() {}"), "unknown attribute name");
}

#[test]
fn crate_names_from_identifiers() {
    let mut config = Configuration::default();
    assert!(config.accept_crate_name(&string("x"), ident("x")).is_ok());
    assert_eq!(config.crate_name.as_deref(), Some("x"));
    // Whatever comes then is an error, and changes nothing.
    match config.accept_crate_name(&string("y"), ident("y")) {
        Err(ConfigError::CrateNameSet) => {},
        _ => unreachable!(),
    }
    assert_eq!(config.crate_name.as_deref(), Some("x"));

    let mut config = Configuration::default();
    let global = Path { leading_colon: true, segments: segments(&["a"]) };
    let long = Path { leading_colon: false, segments: segments(&["a", "b"]) };
    let generic = Segment { ident: "a".to_string(), plain: false };
    let generic = Path { leading_colon: false, segments: vec![generic] };
    for path in [None, Some(global), Some(long), Some(generic)] {
        match config.accept_crate_name(&string("a::b"), path) {
            Err(ConfigError::InvalidCrateName(name)) => assert_eq!(name, "a::b"),
            _ => unreachable!(),
        }
    }
    match config.accept_crate_name(&integer("5"), None) {
        Err(ConfigError::NoCrateName) => {},
        _ => unreachable!(),
    }
    assert!(config.set_crate_name(&string("ident")).is_ok());
    assert_eq!(config.crate_name.as_deref(), Some("ident"));
}

#[test]
fn arguments_are_followed_in_order() {
    let args = vec![name_value("parallelism", integer("8")), name_value("crate", string("x"))];
    let config = match parse_config(&args) {
        Ok(config) => config,
        Err(_) => unreachable!(),
    };
    assert_eq!(config.parallelism, Some(8));
    assert_eq!(config.crate_name.as_deref(), Some("x"));

    let mut config = Configuration::default();
    let accepted = config.accept(&name_value("crate", string("x")), ident("x"));
    assert!(accepted.is_ok());
    match config.accept(&Argument::NameValue(None, None), None) {
        Err(ConfigError::InvalidName) => {},
        _ => unreachable!(),
    }
    match config.accept(&Argument::NameValue(Some("crate".to_string()), None), None) {
        Err(ConfigError::NoLiteral(name)) => assert_eq!(name, "crate"),
        _ => unreachable!(),
    }
    match config.accept(&Argument::Other, None) {
        Err(ConfigError::UnknownArgument) => {},
        _ => unreachable!(),
    }
}

#[test]
fn integers() {
    for (digits, parallelism) in [("0", 0), ("7", 7), ("10", 10), ("00012", 12), ("-0", 0)] {
        let mut config = Configuration::default();
        assert!(config.set_parallelism(&integer(digits)).is_ok());
        assert_eq!(config.parallelism, Some(parallelism));
    }
    let mut config = Configuration::default();
    assert!(config.set_parallelism(&integer(&isize::MAX.to_string())).is_ok());
    assert_eq!(config.parallelism, Some(isize::MAX as usize));
    for digits in [usize::MAX.to_string(), format!("{}0", isize::MIN)] {
        let mut config = Configuration::default();
        match config.set_parallelism(&integer(&digits)) {
            Err(ConfigError::ParallelismRange(_)) => {},
            _ => unreachable!(),
        }
        assert_eq!(config.parallelism, None);
    }
    match config.set_parallelism(&integer("1")) {
        Err(ConfigError::ParallelismSet) => {},
        _ => unreachable!(),
    }
    let mut config = Configuration::default();
    for literal in [integer("-1"), string("1"), Literal::Other] {
        match config.set_parallelism(&literal) {
            Err(ConfigError::NoParallelism) => {},
            _ => unreachable!(),
        }
    }
}

#[test]
fn test_attributes() {
    assert!(is_test_attribute(&path(false, &["test"])));
    assert!(is_test_attribute(&path(false, &["core", "prelude", "v1", "test"])));
    assert!(is_test_attribute(&path(true, &["core", "prelude", "v1", "test"])));
    assert!(is_test_attribute(&path(false, &["std", "prelude", "rust_2021", "test"])));
    assert!(is_test_attribute(&path(true, &["std", "prelude", "rust_2021", "test"])));

    assert!(!is_test_attribute(&Attribute::Other));
    assert!(!is_test_attribute(&path(true, &["test"])));
    assert!(!is_test_attribute(&path(false, &["ignore"])));
    assert!(!is_test_attribute(&path(false, &["asyncs", "test"])));
    assert!(!is_test_attribute(&path(false, &["alloc", "prelude", "v1", "test"])));
    assert!(!is_test_attribute(&path(false, &["core", "prelude", "v1", "bench"])));
    assert!(!is_test_attribute(&path(false, &["core", "v1", "prelude", "test"])));
    let segment = Segment { ident: "test".to_string(), plain: false };
    let generic = Attribute::Path(Path { leading_colon: false, segments: vec![segment] });
    assert!(!is_test_attribute(&generic));
}

#[test]
fn plans() {
    let function = Function { asyncness: true, attrs: vec![Attribute::Other, path(false, &["test"])] };
    match plan(Configuration::default(), &function) {
        Err(TestError::SecondTest(i)) => assert_eq!(i, 1),
        _ => unreachable!(),
    }
    let function = Function { asyncness: true, attrs: vec![Attribute::Other] };
    let config = Configuration { crate_name: Some("x".to_string()), parallelism: Some(3) };
    match plan(config, &function) {
        Ok(test) => {
            assert_eq!(test.crate_name, "x");
            assert_eq!(test.parallelism, 3);
            assert!(!test.prefer_env_parallelism);
        },
        Err(_) => unreachable!(),
    }
}

#[test]
fn tests_from_what_was_parsed() {
    let function = || Ok(Function { asyncness: true, attrs: vec![] });
    match generate_parsed(Ok(vec![name_value("parallelism", integer("7"))]), function()) {
        Ok(test) => {
            assert_eq!(test.crate_name, "asyncs");
            assert_eq!(test.parallelism, 7);
            assert!(!test.prefer_env_parallelism);
        },
        Err(_) => unreachable!(),
    }
    let failure = |args, function| match generate_parsed(args, function) {
        Ok(_) => unreachable!(),
        Err(error) => error.message(),
    };
    // The arguments come first, what they ask for next, and then the function.
    assert_eq!(failure(Err("arguments".to_string()), Err("function".to_string())), "arguments");
    assert_eq!(failure(Ok(vec![Argument::Other]), Err("function".to_string())), "unknown attribute");
    assert_eq!(failure(Ok(vec![]), Err("function".to_string())), "function");
    assert_eq!(
        failure(Ok(vec![]), Ok(Function { asyncness: false, attrs: vec![] })),
        "only asynchronous function can be tagged with #[asyncs:test]"
    );
}

#[test]
fn parallelism_of_the_environment() {
    let value = |text: &str| Some(text.to_string());
    assert_eq!(choose_parallelism(true, 2, None), 2);
    assert_eq!(choose_parallelism(true, 2, value("8")), 8);
    assert_eq!(choose_parallelism(true, 2, value("+8")), 8);
    assert_eq!(choose_parallelism(true, 2, value("0")), 0);
    assert_eq!(choose_parallelism(true, 2, value("")), 2);
    assert_eq!(choose_parallelism(true, 2, value("+")), 2);
    assert_eq!(choose_parallelism(true, 2, value("-1")), 2);
    assert_eq!(choose_parallelism(true, 2, value(" 8")), 2);
    assert_eq!(choose_parallelism(true, 2, value("99999999999999999999999999")), 2);
    assert_eq!(choose_parallelism(false, 4, value("8")), 4);
}
