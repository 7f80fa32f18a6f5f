use clusterit::cluster_config::{cluster_config_value, merge, toml_from_str, ConfigError, ConfigValue};

fn num(i: i64) -> ConfigValue {
    ConfigValue::Other(toml::Value::Integer(i))
}

fn table(entries: Vec<(&str, ConfigValue)>) -> ConfigValue {
    ConfigValue::Table(entries.into_iter().map(|(k, v)| (k.to_string(), v)).collect())
}

fn get<'a>(v: &'a ConfigValue, key: &str) -> Option<&'a ConfigValue> {
    match v {
        ConfigValue::Table(es) => es.iter().find(|(k, _)| k == key).map(|(_, v)| v),
        ConfigValue::Other(_) => None,
    }
}

fn as_int(v: &ConfigValue) -> Option<i64> {
    match v {
        ConfigValue::Other(toml::Value::Integer(i)) => Some(*i),
        _ => None,
    }
}

#[test]
fn merge_tables_recursively() {
    let mut a = table(vec![("x", num(1)), ("t", table(vec![("p", num(1))]))]);
    let b = table(vec![("t", table(vec![("q", num(2))])), ("y", num(3)), ("x", num(9))]);
    merge(&mut a, &b);
    assert_eq!(as_int(get(&a, "x").unwrap()), Some(9));
    assert_eq!(as_int(get(&a, "y").unwrap()), Some(3));
    let t = get(&a, "t").unwrap();
    assert_eq!(as_int(get(t, "p").unwrap()), Some(1));
    assert_eq!(as_int(get(t, "q").unwrap()), Some(2));
    match &a {
        ConfigValue::Table(es) => assert_eq!(es.len(), 3),
        _ => panic!("expected a table"),
    }
}

#[test]
fn merge_value_replaces_table() {
    let mut a = table(vec![("x", num(1))]);
    merge(&mut a, &num(5));
    assert_eq!(as_int(&a), Some(5));
    let mut c = num(1);
    merge(&mut c, &table(vec![("z", num(2))]));
    assert_eq!(as_int(get(&c, "z").unwrap()), Some(2));
}

#[test]
fn merge_into_empty_table_gives_copy() {
    let mut a = table(vec![]);
    let b = table(vec![("k", table(vec![("n", num(4))])), ("m", num(6))]);
    merge(&mut a, &b);
    assert_eq!(as_int(get(get(&a, "k").unwrap(), "n").unwrap()), Some(4));
    assert_eq!(as_int(get(&a, "m").unwrap()), Some(6));
}

#[test]
fn toml_documents_become_tables() {
    let v = toml_from_str("ip = \"10.0.0.1\"\nport = 22\n[extra]\ndepth = 2\n").unwrap();
    assert_eq!(as_int(get(&v, "port").unwrap()), Some(22));
    assert_eq!(as_int(get(get(&v, "extra").unwrap(), "depth").unwrap()), Some(2));
    match get(&v, "ip").unwrap() {
        ConfigValue::Other(toml::Value::String(s)) => assert_eq!(s, "10.0.0.1"),
        _ => panic!("ip is a string"),
    }
    assert!(toml_from_str("ip = ").is_err());
}

#[test]
fn cluster_config_takes_the_file_values() {
    let v = cluster_config_value("port = 2222\n", "port = 22\nuser = \"root\"\n").unwrap();
    assert_eq!(as_int(get(&v, "port").unwrap()), Some(2222));
    assert!(get(&v, "user").is_none());
    assert!(matches!(cluster_config_value("port = ", ""), Err(ConfigError::Config(_))));
    assert!(matches!(cluster_config_value("", "port = "), Err(ConfigError::Defaults(_))));
}

#[test]
fn new_names_are_placed_in_order() {
    let mut a = table(vec![("a", num(1)), ("c", num(3))]);
    merge(&mut a, &table(vec![("d", num(4)), ("b", num(2))]));
    match &a {
        ConfigValue::Table(es) => {
            let names: Vec<&str> = es.iter().map(|(k, _)| k.as_str()).collect();
            assert_eq!(names, vec!["a", "b", "c", "d"]);
        }
        ConfigValue::Other(_) => panic!("a table"),
    }
    assert!(clusterit::text::name_before("ab", "b"));
    assert!(clusterit::text::name_before("a", "ab"));
    assert!(!clusterit::text::name_before("b", "b"));
}
