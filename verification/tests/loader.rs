use yyaml::linked_hash_map::LinkedHashMap;
use yyaml::parser::loader::YamlLoader;
use yyaml::yaml::Yaml;

fn float_text(s: &str) -> Option<String> {
    s.parse::<f64>().ok().map(|f| f.to_string())
}

#[test]
fn test_basic_parsing() {
    let yaml_val = Yaml::String("test".to_string());
    match yaml_val.as_str() {
        Some(s) => assert_eq!(s, "test"),
        None => panic!("Expected string value"),
    }
}

#[test]
fn test_yaml_from_str() {
    assert_eq!(Yaml::parse_str("42", &float_text), Yaml::Integer(42));
    assert_eq!(Yaml::parse_str("true", &float_text), Yaml::Boolean(true));
    assert_eq!(Yaml::parse_str("false", &float_text), Yaml::Boolean(false));
    assert_eq!(Yaml::parse_str("null", &float_text), Yaml::Null);
    assert_eq!(Yaml::parse_str("~", &float_text), Yaml::Null);
    assert_eq!(Yaml::parse_str("3.14", &float_text), Yaml::Real("3.14".to_string()));
    assert_eq!(Yaml::parse_str("hello", &float_text), Yaml::String("hello".to_string()));
}

#[test]
fn test_yaml_types() {
    let null_yaml = Yaml::Null;
    assert!(null_yaml.is_null());

    let bool_yaml = Yaml::Boolean(true);
    assert_eq!(bool_yaml.as_bool(), Some(true));

    let int_yaml = Yaml::Integer(42);
    assert_eq!(int_yaml.as_i64(), Some(42));

    let string_yaml = Yaml::String("test".to_string());
    assert_eq!(string_yaml.as_str(), Some("test"));
}

#[test]
fn test_linked_hash_map() {
    let mut map = LinkedHashMap::new();
    map.insert("first".to_string(), 1);
    map.insert("second".to_string(), 2);
    map.insert("third".to_string(), 3);

    assert_eq!(map.len(), 3);
    assert_eq!(map.get(&"first".to_string()), Some(&1));
    assert_eq!(map.get(&"second".to_string()), Some(&2));
    assert_eq!(map.get(&"third".to_string()), Some(&3));

    let keys: Vec<String> = map.iter().into_iter().map(|(k, _)| k.clone()).collect();
    assert_eq!(keys, vec!["first", "second", "third"]);
}

#[test]
fn test_simple_key_value() {
    let s = "key: value";
    let result = YamlLoader::load_from_str(s, float_text);
    match result {
        Ok(docs) => {
            assert_eq!(docs.len(), 1);
            let doc = &docs[0];
            match doc.get_key("key").and_then(|v| v.as_str()) {
                Some(s) => assert_eq!(s, "value"),
                None => panic!("Expected string value for key"),
            }
        }
        Err(e) => {
            panic!("Parsing failed: {}", e.message());
        }
    }
}

#[test]
fn test_simple_doc() {
    let s = "hello: world
int: 42
bool: true
nulltest: ~";
    let result = YamlLoader::load_from_str(s, float_text);
    match result {
        Ok(docs) => {
            assert_eq!(docs.len(), 1);
            let doc = &docs[0];
            match doc.get_key("hello").and_then(|v| v.as_str()) {
                Some(s) => assert_eq!(s, "world"),
                None => panic!("Expected string value for hello"),
            }
            match doc.get_key("int").and_then(|v| v.as_i64()) {
                Some(i) => assert_eq!(i, 42),
                None => panic!("Expected integer value for int"),
            }
            match doc.get_key("bool").and_then(|v| v.as_bool()) {
                Some(b) => assert_eq!(b, true),
                None => panic!("Expected boolean value for bool"),
            }
            assert!(doc.get_key("nulltest").map(|v| v.is_null()).unwrap_or(false));
        }
        Err(e) => {
            panic!("Parsing failed: {}", e.message());
        }
    }
}

#[test]
fn test_flow_seq() {
    let s = "[1, 2, 3]";
    let result = YamlLoader::load_from_str(s, float_text);
    match result {
        Ok(docs) => match docs[0].as_vec() {
            Some(arr) => {
                assert_eq!(arr.len(), 3);
                match arr[0].as_i64() {
                    Some(i) => assert_eq!(i, 1),
                    None => panic!("Expected integer value for arr[0]"),
                }
                match arr[1].as_i64() {
                    Some(i) => assert_eq!(i, 2),
                    None => panic!("Expected integer value for arr[1]"),
                }
                match arr[2].as_i64() {
                    Some(i) => assert_eq!(i, 3),
                    None => panic!("Expected integer value for arr[2]"),
                }
            }
            None => panic!("Expected vector value"),
        },
        Err(e) => {
            panic!("Flow sequence parsing failed: {}", e.message());
        }
    }
}

#[test]
fn test_two_line_mapping() {
    let s = "hello: world\nint: 42";
    let result = YamlLoader::load_from_str(s, float_text);
    match result {
        Ok(docs) => {
            assert_eq!(docs.len(), 1);
            let doc = &docs[0];
            match doc.get_key("hello").and_then(|v| v.as_str()) {
                Some(s) => assert_eq!(s, "world"),
                None => panic!("Expected string value for hello"),
            }
            match doc.get_key("int").and_then(|v| v.as_i64()) {
                Some(i) => assert_eq!(i, 42),
                None => panic!("Expected integer value for int"),
            }
        }
        Err(e) => {
            panic!("Two-line mapping failed: {}", e.message());
        }
    }
}
