use beachhead_companion::common::Config;
use beachhead_companion::domain_spec::DomainSpec;
use beachhead_companion::json_serializer::{backend_setup, domain_config, domain_configs};
use beachhead_companion::publisher::service_key;
use serde_json::Value;

fn assert_backend_spec(obj: &Value, field: &str, host: &str, port_opt: Option<u16>) {
    match port_opt {
        Some(port) => {
            let backend = obj.get(field).unwrap_or_else(|| {
                panic!("JSON object expected to have field {}. Object: {:#?}", field, obj)
            });
            assert_eq!(backend.get("host").and_then(Value::as_str), Some(host));
            assert_eq!(backend.get("port").and_then(Value::as_u64), Some(port as u64));
        },
        None => {
            assert!(
                obj.get(field).is_none(),
                "JSON object NOT expected to have field {}. Value: {:?}",
                field,
                obj.get(field)
            );
        },
    }
}

fn assert_eq_domain_spec(val: &Value, host: &str, domain_spec: &DomainSpec) {
    let spec_id = domain_spec.spec_id();
    assert!(val.is_object(), "For domain config, expected an object, got {:?}", val);
    assert_eq!(val.get("id").and_then(Value::as_str), Some(spec_id.as_str()));
    assert_eq!(
        val.get("domain").and_then(Value::as_str),
        Some(domain_spec.domain_name.as_str())
    );
    assert_backend_spec(val, "http", host, domain_spec.http_port);
    assert_backend_spec(val, "https", host, domain_spec.https_port);
}

#[test]
fn full_spec() {
    // #### GIVEN ####
    let host = "app-server";
    let spec = DomainSpec {
        domain_name: "example.org".to_owned(),
        http_port: Some(8080),
        https_port: Some(8043),
    };

    // #### WHEN  ####
    let cfg: Value = serde_json::from_str(&domain_config(host, &spec)).unwrap();

    // #### THEN  ####
    assert_eq_domain_spec(&cfg, host, &spec);
}

#[test]
fn http_missing() {
    // #### GIVEN ####
    let host = "app-server";
    let spec = DomainSpec {
        domain_name: "example.org".to_owned(),
        http_port: None,
        https_port: Some(8043),
    };

    // #### WHEN  ####
    let cfg: Value = serde_json::from_str(&domain_config(host, &spec)).unwrap();

    // #### THEN  ####
    assert_eq_domain_spec(&cfg, host, &spec);
}

#[test]
fn https_missing() {
    // #### GIVEN ####
    let host = "app-server";
    let spec = DomainSpec {
        domain_name: "example.org".to_owned(),
        http_port: Some(8080),
        https_port: None,
    };

    // #### WHEN  ####
    let cfg: Value = serde_json::from_str(&domain_config(host, &spec)).unwrap();

    // #### THEN  ####
    assert_eq_domain_spec(&cfg, host, &spec);
}

/// Standard ports shouldn't have special treatment.
#[test]
fn standard_ports() {
    // #### GIVEN ####
    let host = "app-server";
    let spec = DomainSpec {
        domain_name: "example.org".to_owned(),
        http_port: Some(80),
        https_port: Some(443),
    };

    // #### WHEN  ####
    let cfg: Value = serde_json::from_str(&domain_config(host, &spec)).unwrap();

    // #### THEN  ####
    assert_eq_domain_spec(&cfg, host, &spec);
}

#[test]
fn multiple_configs() {
    // #### GIVEN ####
    let host = "app-server";
    let spec1 = DomainSpec {
        domain_name: "example.org".to_owned(),
        http_port: Some(80),
        https_port: Some(443),
    };
    let spec2 = DomainSpec {
        domain_name: "www.example.org".to_owned(),
        http_port: Some(8080),
        https_port: Some(8043),
    };

    // #### WHEN  ####
    let rendered = domain_configs(host, &vec![spec1.clone(), spec2.clone()]);
    let cfgs: Value = serde_json::from_str(&rendered).unwrap();

    // #### THEN  ####
    match cfgs {
        Value::Array(ref cfgs) => {
            assert_eq!(cfgs.len(), 2);
            assert_eq_domain_spec(&cfgs[0], host, &spec1);
            assert_eq_domain_spec(&cfgs[1], host, &spec2);
        },
        other => {
            assert!(false, "Multiple domain configs, expected an array, got {:?}", other)
        },
    }
}

#[test]
fn empty_publication_is_empty_array() {
    let rendered = domain_configs("app-server", &Vec::new());
    assert_eq!(rendered, "[]");
}

#[test]
fn exact_record_text() {
    let spec = DomainSpec {
        domain_name: "example.org".to_owned(),
        http_port: Some(80),
        https_port: None,
    };
    assert_eq!(
        domain_config("app-server", &spec),
        "{\"domain\":\"example.org\",\
         \"http\":{\"host\":\"app-server\",\"port\":80},\
         \"id\":\"example_org\"}"
    );
}

#[test]
fn backend_setup_escapes_strings() {
    // A host with quote, backslash and control characters survives the
    // round trip through the JSON escaping.
    let host = "a\"b\\c\nd\u{1f}e\u{7f}f";
    let rendered = backend_setup(host, 80);
    let parsed: Value = serde_json::from_str(&rendered).unwrap();
    assert_eq!(parsed.get("host").and_then(Value::as_str), Some(host));
    assert_eq!(parsed.get("port").and_then(Value::as_u64), Some(80));
}

#[test]
fn registry_key_is_prefix_plus_host() {
    let mut config = Config::default();
    config.key_prefix = "/beachhead/".to_owned();
    let mut key = String::new();
    service_key(&config, "example.com", &mut key);
    assert_eq!(key, "/beachhead/example.com");
}
