use ccm_cluster::cluster_config::ScyllaConfig;
use serde_yaml::value::{Tag, TaggedValue};
use serde_yaml::{Mapping, Number, Value};

fn text(s: &str) -> ScyllaConfig {
    ScyllaConfig::String(s.to_string())
}

fn entry(name: &str, value: ScyllaConfig) -> (String, ScyllaConfig) {
    (name.to_string(), value)
}

fn tagged() -> Value {
    Value::Tagged(Box::new(TaggedValue { tag: Tag::new("thing"), value: Value::Null }))
}

#[test]
fn test_from_yaml_and_to_yaml() {
    let yaml_str = r#"
            null_value: null
            bool_value: true
            int_value: 42
            float_value: 3.14
            string_value: "hello"
            list_value:
              - 1
              - 2
              - 3
            map_value:
              key1: "value1"
              key2: 99
        "#;

    let yaml_value: Value = serde_yaml::from_str(yaml_str).expect("Failed to parse YAML");

    let cluster_config = ScyllaConfig::from_yaml(yaml_value.clone())
        .expect("Failed to convert from YAML to ClusterConfig");

    assert!(cluster_config.is_well_formed());
    let converted_yaml_value = cluster_config.to_yaml();

    assert_eq!(yaml_value, converted_yaml_value);
}

#[test]
fn test_to_yaml_empty_structures() {
    let empty_list = ScyllaConfig::List(vec![]);
    assert_eq!(empty_list.to_yaml(), Value::Sequence(vec![]));

    let empty_map = ScyllaConfig::Mapping(Vec::new());
    assert_eq!(empty_map.to_yaml(), Value::Mapping(Mapping::new()));
}

#[test]
fn test_from_yaml_invalid_cases() {
    let invalid_yaml = Value::Mapping({
        let mut map = Mapping::new();
        map.insert(Value::Sequence(vec![]), Value::Null);
        map
    });

    let result = ScyllaConfig::from_yaml(invalid_yaml);
    assert!(result.is_err(), "Expected error for invalid YAML type");
}

#[test]
fn test_to_flat_string_simple_map() {
    let map = vec![entry("key1", text("value1")), entry("key2", ScyllaConfig::Int(42))];

    let cluster_config = ScyllaConfig::Mapping(map);
    let flat_representation = cluster_config.to_flat_string();

    assert_eq!(flat_representation, "key1:value1 key2:42");
}

#[test]
fn test_to_flat_string_nested_map() {
    let inner_map = vec![entry("inner_key", ScyllaConfig::Bool(true))];

    let outer_map = vec![
        entry("outer_key1", ScyllaConfig::Mapping(inner_map)),
        entry("outer_key2", ScyllaConfig::Float(Number::from(3.14))),
    ];

    let cluster_config = ScyllaConfig::Mapping(outer_map);
    let flat_representation = cluster_config.to_flat_string();

    assert_eq!(flat_representation, "outer_key1.inner_key:true outer_key2:3.14");
}

#[test]
fn test_to_flat_string_with_empty_map() {
    let cluster_config = ScyllaConfig::Mapping(Vec::new());
    let flat_representation = cluster_config.to_flat_string();

    assert_eq!(flat_representation, "");
}

#[test]
fn test_to_flat_string_with_list() {
    let list = vec![ScyllaConfig::Int(1), ScyllaConfig::Int(2), text("three")];

    let map = vec![entry("key_with_list", ScyllaConfig::List(list))];

    let cluster_config = ScyllaConfig::Mapping(map);
    let flat_representation = cluster_config.to_flat_string();

    assert_eq!(flat_representation, "key_with_list:[Int(1), Int(2), String(\"three\")]");
}

#[test]
fn test_to_flat_string_with_null() {
    let map = vec![entry("null_key", ScyllaConfig::Null)];

    let cluster_config = ScyllaConfig::Mapping(map);
    let flat_representation = cluster_config.to_flat_string();

    assert_eq!(flat_representation, "null_key:null");
}

#[test]
fn flat_string_of_nested_map_and_flag() {
    let config = ScyllaConfig::Mapping(vec![
        entry("a", ScyllaConfig::Mapping(vec![entry("b", ScyllaConfig::Int(1))])),
        entry("c", ScyllaConfig::Bool(true)),
    ]);
    assert_eq!(config.to_flat_string(), "a.b:1 c:true");
}

#[test]
fn flat_string_sorts_names_at_each_level() {
    let config = ScyllaConfig::Mapping(vec![
        entry("zeta", ScyllaConfig::Int(-7)),
        entry("beta", ScyllaConfig::Mapping(vec![
            entry("y", ScyllaConfig::Bool(false)),
            entry("x", ScyllaConfig::Null),
            entry("xa", text("v")),
        ])),
        entry("alpha", ScyllaConfig::List(vec![])),
        entry("Alpha", ScyllaConfig::Int(i64::MIN)),
        entry("", ScyllaConfig::Int(0)),
    ]);
    assert_eq!(
        config.to_flat_string(),
        ":0 Alpha:-9223372036854775808 alpha:[] beta.x:null beta.xa:v beta.y:false zeta:-7"
    );
}

#[test]
fn flat_string_of_anything_but_a_map_is_empty() {
    assert_eq!(ScyllaConfig::Int(5).to_flat_string(), "");
    assert_eq!(ScyllaConfig::List(vec![ScyllaConfig::Int(5)]).to_flat_string(), "");
    assert_eq!(ScyllaConfig::Null.to_flat_string(), "");
    assert_eq!(text("a:b").to_flat_string(), "");
}

#[test]
fn flat_string_shows_floats_as_the_standard_library_does() {
    let config = ScyllaConfig::Mapping(vec![
        entry("whole", ScyllaConfig::Float(Number::from(3.0))),
        entry("big", ScyllaConfig::Float(Number::from(1e21))),
    ]);
    assert_eq!(config.to_flat_string(), "big:1000000000000000000000 whole:3");
}

#[test]
fn debug_string_names_each_kind() {
    assert_eq!(ScyllaConfig::Null.debug_string(), "Null");
    assert_eq!(ScyllaConfig::Bool(false).debug_string(), "Bool(false)");
    assert_eq!(ScyllaConfig::Int(-12).debug_string(), "Int(-12)");
    assert_eq!(ScyllaConfig::Float(Number::from(3.0)).debug_string(), "Float(3.0)");
    assert_eq!(text("a\"b\n").debug_string(), "String(\"a\\\"b\\n\")");
    assert_eq!(
        ScyllaConfig::List(vec![ScyllaConfig::List(vec![]), ScyllaConfig::Null]).debug_string(),
        "List([List([]), Null])"
    );
    assert_eq!(
        ScyllaConfig::Mapping(vec![entry("k", ScyllaConfig::Int(1)), entry("l", ScyllaConfig::Null)])
            .debug_string(),
        "Map({\"k\": Int(1), \"l\": Null})"
    );
}

#[test]
fn to_yaml_keeps_each_kind() {
    let config = ScyllaConfig::Mapping(vec![
        entry("n", ScyllaConfig::Null),
        entry("b", ScyllaConfig::Bool(true)),
        entry("i", ScyllaConfig::Int(-3)),
        entry("f", ScyllaConfig::Float(Number::from(2.5))),
        entry("s", text("x")),
        entry("l", ScyllaConfig::List(vec![ScyllaConfig::Int(1), text("y")])),
    ]);
    assert!(config.is_well_formed());
    let mut expected = Mapping::new();
    expected.insert(Value::String("n".to_string()), Value::Null);
    expected.insert(Value::String("b".to_string()), Value::Bool(true));
    expected.insert(Value::String("i".to_string()), Value::Number(Number::from(-3)));
    expected.insert(Value::String("f".to_string()), Value::Number(Number::from(2.5)));
    expected.insert(Value::String("s".to_string()), Value::String("x".to_string()));
    expected.insert(
        Value::String("l".to_string()),
        Value::Sequence(vec![Value::Number(Number::from(1)), Value::String("y".to_string())]),
    );
    assert_eq!(config.to_yaml(), Value::Mapping(expected));
}

#[test]
fn from_yaml_reads_each_kind() {
    let yaml: Value = serde_yaml::from_str("a: [1, 2.5, x, null, true]\nb: {c: -4}\n").unwrap();
    let config = ScyllaConfig::from_yaml(yaml).unwrap();
    assert_eq!(
        config.debug_string(),
        "Map({\"a\": List([Int(1), Float(2.5), String(\"x\"), Null, Bool(true)]), \"b\": Map({\"c\": Int(-4)})})"
    );
}

#[test]
fn round_trip_returns_an_equal_tree() {
    let config = ScyllaConfig::Mapping(vec![
        entry("k", ScyllaConfig::List(vec![ScyllaConfig::Int(i64::MAX), ScyllaConfig::Int(i64::MIN)])),
        entry("f", ScyllaConfig::Float(Number::from(0.1))),
        entry("inf", ScyllaConfig::Float(Number::from(1.0 / 0.0))),
        entry("m", ScyllaConfig::Mapping(vec![entry("s", text(""))])),
    ]);
    assert!(config.is_well_formed());
    let back = ScyllaConfig::from_yaml(config.to_yaml()).unwrap();
    assert_eq!(back.debug_string(), config.debug_string());
    assert_eq!(back.to_yaml(), config.to_yaml());
}

// The boundary between integers and floats. An integer above `i64::MAX` reads
// as no 64-bit integer, so it comes in as a float and goes out as one: the YAML
// that goes out is not the YAML that came in. A float without a fraction stays
// a float both ways.
#[test]
fn round_trip_at_the_integer_float_boundary() {
    let big = Value::Number(Number::from(u64::MAX));
    let config = ScyllaConfig::from_yaml(big.clone()).unwrap();
    assert_eq!(config.debug_string(), "Float(1.8446744073709552e19)");
    assert_ne!(config.to_yaml(), big);
    assert_eq!(config.to_yaml(), Value::Number(Number::from(18446744073709551615.0)));

    let whole = Value::Number(Number::from(1.0));
    let config = ScyllaConfig::from_yaml(whole.clone()).unwrap();
    assert_eq!(config.debug_string(), "Float(1.0)");
    assert_eq!(config.to_yaml(), whole);

    let edge = Value::Number(Number::from(i64::MAX as u64));
    let config = ScyllaConfig::from_yaml(edge.clone()).unwrap();
    assert_eq!(config.debug_string(), "Int(9223372036854775807)");
    assert_eq!(config.to_yaml(), edge);
}

#[test]
fn to_yaml_reads_a_float_that_holds_an_integer_as_a_float() {
    let config = ScyllaConfig::Float(Number::from(5));
    assert_eq!(config.to_yaml(), Value::Number(Number::from(5.0)));
}

#[test]
fn from_yaml_says_why_it_fails() {
    assert_eq!(ScyllaConfig::from_yaml(tagged()).unwrap_err(), "Unsupported YAML type");
    assert_eq!(
        ScyllaConfig::from_yaml(Value::Sequence(vec![Value::Null, tagged()])).unwrap_err(),
        "Error parsing value in sequence"
    );
    let mut bad_value = Mapping::new();
    bad_value.insert(Value::String("a".to_string()), tagged());
    bad_value.insert(Value::Bool(true), Value::Null);
    assert_eq!(
        ScyllaConfig::from_yaml(Value::Mapping(bad_value)).unwrap_err(),
        "Error parsing value in mapping"
    );
    let mut bad_key = Mapping::new();
    bad_key.insert(Value::String("a".to_string()), Value::Null);
    bad_key.insert(Value::Bool(true), tagged());
    bad_key.insert(Value::String("b".to_string()), tagged());
    assert_eq!(
        ScyllaConfig::from_yaml(Value::Mapping(bad_key)).unwrap_err(),
        "Invalid key type in mapping"
    );
}

#[test]
fn well_formed_means_no_name_twice() {
    assert!(ScyllaConfig::Mapping(vec![entry("a", ScyllaConfig::Null), entry("b", ScyllaConfig::Null)])
        .is_well_formed());
    assert!(!ScyllaConfig::Mapping(vec![
        entry("a", ScyllaConfig::Null),
        entry("b", ScyllaConfig::Null),
        entry("a", ScyllaConfig::Int(1)),
    ])
    .is_well_formed());
    assert!(!ScyllaConfig::List(vec![
        ScyllaConfig::Null,
        ScyllaConfig::Mapping(vec![entry("x", ScyllaConfig::Null), entry("x", ScyllaConfig::Null)]),
    ])
    .is_well_formed());
    assert!(ScyllaConfig::Int(3).is_well_formed());
}

#[test]
fn take_output_pops_a_list_and_copies_from_a_map() {
    let mut list = ScyllaConfig::List(vec![ScyllaConfig::Int(1), ScyllaConfig::Int(2)]);
    assert_eq!(list.take_output().unwrap().debug_string(), "Int(2)");
    assert_eq!(list.debug_string(), "List([Int(1)])");
    assert_eq!(list.take_output().unwrap().debug_string(), "Int(1)");
    assert!(list.take_output().is_none());

    let mut map = ScyllaConfig::Mapping(vec![entry("a", text("v")), entry("b", ScyllaConfig::Null)]);
    assert_eq!(map.take_output().unwrap().debug_string(), "String(\"v\")");
    assert_eq!(map.debug_string(), "Map({\"a\": String(\"v\"), \"b\": Null})");
    assert!(ScyllaConfig::Mapping(Vec::new()).take_output().is_none());
    assert!(ScyllaConfig::Bool(true).take_output().is_none());
}

#[test]
fn clone_copies_the_whole_tree() {
    let config = ScyllaConfig::Mapping(vec![
        entry("a", ScyllaConfig::List(vec![ScyllaConfig::Float(Number::from(1.5))])),
    ]);
    assert_eq!(config.clone().debug_string(), "Map({\"a\": List([Float(1.5)])})");
    assert_eq!(ScyllaConfig::default().debug_string(), "Null");
}

#[test]
fn output_mut_reaches_the_last_value() {
    let mut list = ScyllaConfig::List(vec![ScyllaConfig::Int(1), ScyllaConfig::Int(2)]);
    *list.output_mut().unwrap() = ScyllaConfig::Bool(true);
    assert_eq!(list.debug_string(), "List([Int(1), Bool(true)])");
    let mut map = ScyllaConfig::Mapping(vec![entry("a", ScyllaConfig::Null), entry("b", ScyllaConfig::Null)]);
    *map.output_mut().unwrap() = ScyllaConfig::Int(9);
    assert_eq!(map.to_flat_string(), "a:null b:9");
    assert!(ScyllaConfig::List(vec![]).output_mut().is_none());
    assert!(ScyllaConfig::Mapping(Vec::new()).output_mut().is_none());
    assert!(ScyllaConfig::Int(1).output_mut().is_none());
}

#[test]
fn flat_string_does_not_depend_on_the_order_of_entries() {
    let inner = || ScyllaConfig::Mapping(vec![entry("x", ScyllaConfig::Int(1))]);
    let one = ScyllaConfig::Mapping(vec![
        entry("b", inner()),
        entry("a", ScyllaConfig::Null),
        entry("c", text("v")),
    ]);
    let other = ScyllaConfig::Mapping(vec![
        entry("c", text("v")),
        entry("b", inner()),
        entry("a", ScyllaConfig::Null),
    ]);
    assert_eq!(one.to_flat_string(), "a:null b.x:1 c:v");
    assert_eq!(other.to_flat_string(), one.to_flat_string());
}

#[test]
fn numbers_never_fail_to_read() {
    for number in [
        Number::from(0),
        Number::from(i64::MIN),
        Number::from(u64::MAX),
        Number::from(0.5),
        Number::from(1.0 / 0.0),
        Number::from(0.0 / 0.0),
    ] {
        assert!(ScyllaConfig::from_yaml(Value::Number(number)).is_ok());
    }
    let nan = ScyllaConfig::from_yaml(Value::Number(Number::from(0.0 / 0.0))).unwrap();
    assert_eq!(nan.debug_string(), "Float(NaN)");
    assert_eq!(
        ScyllaConfig::Mapping(vec![entry("n", nan)]).to_flat_string(),
        "n:NaN"
    );
}
