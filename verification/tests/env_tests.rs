use beachhead_companion::common::Config;
use beachhead_companion::inspector::parse_container_env_vars;

#[test]
fn no_env_vars() {
    // #### GIVEN ####
    let mut specs = Vec::new();
    let mut present = false;
    let config: Config = Default::default();
    let env = None;

    // #### WHEN  ####
    parse_container_env_vars(&env, &config, &mut present, &mut specs)
        .expect("parse_container_env_vars shouldn't fail");

    // #### THEN  ####
    assert!(!present, "envvar was present");
    assert_eq!(specs.len(), 0);
}

#[test]
fn var_not_present() {
    // #### GIVEN ####
    let mut specs = Vec::new();
    let mut present = false;
    let config: Config = Default::default();
    let env = Some(vec![
        "PATH=abc".to_owned(),
        "imanenvvariswear".to_owned(),
        "NOT_BEACHHEAD=example.org".to_owned(),
    ]);

    // #### WHEN  ####
    parse_container_env_vars(&env, &config, &mut present, &mut specs)
        .expect("parse_container_env_vars shouldn't fail");

    // #### THEN  ####
    assert!(!present, "envvar was present");
    assert_eq!(specs.len(), 0);
}

#[test]
fn missing_value() {
    // #### GIVEN ####
    let mut specs = Vec::new();
    let mut present = false;
    let config: Config = Default::default();
    let env = Some(vec![
        "PATH=abc".to_owned(),
        format!("{}", config.envvar),
        "imanenvvariswear".to_owned(),
    ]);

    // #### WHEN  ####
    parse_container_env_vars(&env, &config, &mut present, &mut specs)
        .expect("parse_container_env_vars shouldn't fail");

    // #### THEN  ####
    assert!(!present, "envvar was present");
    assert_eq!(specs.len(), 0);
}

#[test]
fn single_domain() {
    // #### GIVEN ####
    let mut specs = Vec::new();
    let mut present = false;
    let config: Config = Default::default();
    let env = Some(vec![
        "PATH=abc".to_owned(),
        format!("{}=example.org", config.envvar),
        "imanenvvariswear".to_owned(),
    ]);

    // #### WHEN  ####
    parse_container_env_vars(&env, &config, &mut present, &mut specs)
        .expect("parse_container_env_vars shouldn't fail");

    // #### THEN  ####
    assert!(present, "envvar was not present");
    assert_eq!(specs.len(), 1);
    assert_eq!(specs[0].domain_name, "example.org");
}

#[test]
fn multiple_domains_one_var() {
    // #### GIVEN ####
    let mut specs = Vec::new();
    let mut present = false;
    let config: Config = Default::default();
    let env = Some(vec![
        "PATH=abc".to_owned(),
        format!("{}=example.org www.example.org", config.envvar),
        "imanenvvariswear".to_owned(),
    ]);

    // #### WHEN  ####
    parse_container_env_vars(&env, &config, &mut present, &mut specs)
        .expect("parse_container_env_vars shouldn't fail");

    // #### THEN  ####
    assert!(present, "envvar was not present");
    assert_eq!(specs.len(), 2);
    // exact parsing is covered by the domain-spec tests; basic sanity only
    assert!(specs[0].domain_name != specs[1].domain_name);
}

#[test]
fn multiple_domains_multiple_vars() {
    // #### GIVEN ####
    let mut specs = Vec::new();
    let mut present = false;
    let config: Config = Default::default();
    let env = Some(vec![
        "PATH=abc".to_owned(),
        format!("{}=example.org www.example.org", config.envvar),
        "imanenvvariswear".to_owned(),
        format!("{}=admin.example.org", config.envvar),
        "mixed_CaseIs_cool=NOT!!".to_owned(),
    ]);

    // #### WHEN  ####
    parse_container_env_vars(&env, &config, &mut present, &mut specs)
        .expect("parse_container_env_vars shouldn't fail");

    // #### THEN  ####
    assert!(present, "envvar was not present");
    assert_eq!(specs.len(), 3);
    // exact parsing is covered by the domain-spec tests; basic sanity only
    assert!(specs[0].domain_name != specs[1].domain_name);
    assert!(specs[0].domain_name != specs[2].domain_name);
    assert!(specs[2].domain_name != specs[1].domain_name);
}

#[test]
fn one_valid_one_invalid() {
    // #### GIVEN ####
    let mut specs = Vec::new();
    let mut present = false;
    let config: Config = Default::default();
    let env = Some(vec![
        format!("{}=example.org", config.envvar),
        format!("{}=!!*&^$#$:", config.envvar),
    ]);

    // #### WHEN  ####
    parse_container_env_vars(&env, &config, &mut present, &mut specs)
        .expect("parse_container_env_vars shouldn't fail");

    // #### THEN  ####
    assert!(present, "envvar was not present");
    assert_eq!(specs.len(), 1);
    // exact parsing is covered by the domain-spec tests; basic sanity only
    assert_eq!(specs[0].domain_name, "example.org");
}

#[test]
fn bad_port_in_env_is_reported() {
    let mut specs = Vec::new();
    let mut present = false;
    let config: Config = Default::default();
    let env = Some(vec![format!("{}=good.org bad.org:http=99999", config.envvar)]);

    let err = parse_container_env_vars(&env, &config, &mut present, &mut specs)
        .expect_err("the bad port stops the scan");
    assert!(present, "envvar was not present");
    assert_eq!(specs.len(), 1);
    assert_eq!(specs[0].domain_name, "good.org");
    assert!(err.message.contains("bad.org"));
}
