use beachhead_companion::domain_spec::DomainSpec;
use beachhead_companion::dsl::PortParseError;

fn assert_valid_id(spec: &DomainSpec) {
    let id = spec.spec_id();
    assert!(
        !id.is_empty() && id.chars().all(|c| c.is_ascii_alphanumeric() || c == '_'),
        "The id \"{}\" derived from domain {} contains invalid characters.",
        id,
        spec.domain_name
    );
}

#[test]
fn empty_spec_valid() {
    // #### GIVEN ####
    let mut specs = Vec::new();

    // #### WHEN  ####
    DomainSpec::parse_all("", &mut specs).expect("Parse \"\" successfully");

    // #### THEN  ####
    assert_eq!(specs.len(), 0);
}

#[test]
fn implicit_http_https() {
    // #### GIVEN ####
    let mut specs = Vec::new();

    // #### WHEN  ####
    DomainSpec::parse_all("example.org", &mut specs).expect("Parse \"example.org\" successfully");

    // #### THEN  ####
    assert_eq!(specs.len(), 1);
    let spec = &specs[0];
    assert_eq!(spec.domain_name, "example.org");
    assert_eq!(spec.http_port, Some(80));
    assert_eq!(spec.https_port, Some(443));
    assert_valid_id(spec);
}

#[test]
fn chop_off_fqdn_dot() {
    // #### GIVEN ####
    let mut specs = Vec::new();

    // #### WHEN  ####
    DomainSpec::parse_all("example.org.", &mut specs)
        .expect("Parse \"example.org.\" successfully");

    // #### THEN  ####
    assert_eq!(specs.len(), 1);
    let spec = &specs[0];
    assert_eq!(spec.domain_name, "example.org");
    assert_eq!(spec.http_port, Some(80));
    assert_eq!(spec.https_port, Some(443));
    assert_valid_id(spec);
}

#[test]
fn explicit_protocol_implicit_port_http() {
    // #### GIVEN ####
    let mut specs = Vec::new();

    // #### WHEN  ####
    DomainSpec::parse_all("example.org:http", &mut specs)
        .expect("Parse \"example.org:http\" successfully");

    // #### THEN  ####
    assert_eq!(specs.len(), 1);
    let spec = &specs[0];
    assert_eq!(spec.domain_name, "example.org");
    assert_eq!(spec.http_port, Some(80));
    assert_eq!(spec.https_port, None);
    assert_valid_id(spec);
}

#[test]
fn explicit_protocol_implicit_port_https() {
    // #### GIVEN ####
    let mut specs = Vec::new();

    // #### WHEN  ####
    DomainSpec::parse_all("example.org:https", &mut specs)
        .expect("Parse \"example.org:https\" successfully");

    // #### THEN  ####
    assert_eq!(specs.len(), 1);
    let spec = &specs[0];
    assert_eq!(spec.domain_name, "example.org");
    assert_eq!(spec.http_port, None);
    assert_eq!(spec.https_port, Some(443));
    assert_valid_id(spec);
}

#[test]
fn fully_explicit() {
    // #### GIVEN ####
    let mut specs = Vec::new();

    // #### WHEN  ####
    DomainSpec::parse_all("example.org:http=8080:https=8043", &mut specs)
        .expect("Parse \"example.org:http=8080:https=8043\" successfully");

    // #### THEN  ####
    assert_eq!(specs.len(), 1);
    let spec = &specs[0];
    assert_eq!(spec.domain_name, "example.org");
    assert_eq!(spec.http_port, Some(8080));
    assert_eq!(spec.https_port, Some(8043));
    assert_valid_id(spec);
}

#[test]
fn complex() {
    // #### GIVEN ####
    let mut specs = Vec::new();

    // #### WHEN  ####
    DomainSpec::parse_all(
        "example.org:http:https=8043 admin.example.org:https=9043 www.example.org",
        &mut specs,
    )
    .expect(
        "Parse \"example.org:http:https=8043 admin.example.org:https=9043 www.example.org\" successfully",
    );

    // #### THEN  ####
    assert_eq!(specs.len(), 3);
    let spec1 = &specs[0];
    assert_eq!(spec1.domain_name, "example.org");
    assert_eq!(spec1.http_port, Some(80));
    assert_eq!(spec1.https_port, Some(8043));
    assert_valid_id(spec1);

    let spec2 = &specs[1];
    assert_eq!(spec2.domain_name, "admin.example.org");
    assert_eq!(spec2.http_port, None);
    assert_eq!(spec2.https_port, Some(9043));
    assert_valid_id(spec2);

    let spec3 = &specs[2];
    assert_eq!(spec3.domain_name, "www.example.org");
    assert_eq!(spec3.http_port, Some(80));
    assert_eq!(spec3.https_port, Some(443));
    assert_valid_id(spec3);
}

#[test]
fn spec_id_dash_dot() {
    // #### GIVEN ####
    let mut specs = Vec::new();

    // #### WHEN  ####
    DomainSpec::parse_all("admin-internal.example.org:http=8080:https=8043", &mut specs)
        .expect("Parse \"admin-internal.example.org:http=8080:https=8043\" successfully");

    // #### THEN  ####
    assert_eq!(specs.len(), 1);
    let spec = &specs[0];
    assert_eq!(spec.domain_name, "admin-internal.example.org");
    assert_eq!(spec.http_port, Some(8080));
    assert_eq!(spec.https_port, Some(8043));
    assert_valid_id(spec);
}

#[test]
fn round_trip_canonical_form() {
    let mut specs = Vec::new();
    DomainSpec::parse_all(
        "example.org:http:https=8043 admin.example.org:https=9043 www.example.org",
        &mut specs,
    )
    .expect("first parse succeeds");

    let rendered: Vec<String> = specs.iter().map(|s| s.to_dsl()).collect();
    let joined = rendered.join(" ");
    let mut reparsed = Vec::new();
    DomainSpec::parse_all(&joined, &mut reparsed).expect("reparse succeeds");
    assert_eq!(specs, reparsed);
}

#[test]
fn to_dsl_explicit_ports() {
    let spec = DomainSpec {
        domain_name: "example.org".to_owned(),
        http_port: Some(8080),
        https_port: Some(8043),
    };
    assert_eq!(spec.to_dsl(), "example.org:http=8080:https=8043");
}

#[test]
fn port_at_limit() {
    let mut specs = Vec::new();
    DomainSpec::parse_all("example.org:https=65535", &mut specs).expect("65535 fits a port");
    assert_eq!(specs[0].https_port, Some(65535));
}

#[test]
fn port_empty_value() {
    let mut specs = Vec::new();
    let err = DomainSpec::parse_all("example.org:http=", &mut specs)
        .expect_err("an empty port value is an error");
    assert_eq!(err.domain_name, "example.org");
    assert_eq!(err.key.as_deref(), Some("http"));
    assert_eq!(err.cause, PortParseError::Empty);
}

#[test]
fn port_invalid_digit() {
    let mut specs = Vec::new();
    let err = DomainSpec::parse_all("example.org:https=12ab", &mut specs)
        .expect_err("a non-decimal port value is an error");
    assert_eq!(err.key.as_deref(), Some("https"));
    assert_eq!(err.cause, PortParseError::InvalidDigit);
}

#[test]
fn port_overflow() {
    let mut specs = Vec::new();
    let err = DomainSpec::parse_all("example.org:http=65536", &mut specs)
        .expect_err("a port beyond 16 bits is an error");
    assert_eq!(err.key.as_deref(), Some("http"));
    assert_eq!(err.cause, PortParseError::Overflow);
}

#[test]
fn partial_success_on_error() {
    // Specs parsed from earlier tokens stay in place when a later token
    // carries a bad port value.
    let mut specs = Vec::new();
    let err = DomainSpec::parse_all("good.example.org bad.example.org:http=999999", &mut specs)
        .expect_err("the second token is malformed");
    assert_eq!(specs.len(), 1);
    assert_eq!(specs[0].domain_name, "good.example.org");
    assert_eq!(err.domain_name, "bad.example.org");
}

#[test]
fn unknown_parameter_ignored() {
    let mut specs = Vec::new();
    DomainSpec::parse_all("example.org:ftp=21:https", &mut specs)
        .expect("unknown keys are ignored");
    assert_eq!(specs.len(), 1);
    assert_eq!(specs[0].http_port, None);
    assert_eq!(specs[0].https_port, Some(443));
}

#[test]
fn surrounding_garbage_skipped() {
    let mut specs = Vec::new();
    DomainSpec::parse_all("!!*&^$#$:", &mut specs).expect("garbage does not match");
    assert_eq!(specs.len(), 0);
}

#[test]
fn fqdn_dot_with_params() {
    let mut specs = Vec::new();
    DomainSpec::parse_all("example.org.:https", &mut specs)
        .expect("trailing dot before a parameter block parses");
    assert_eq!(specs.len(), 1);
    assert_eq!(specs[0].domain_name, "example.org");
    assert_eq!(specs[0].http_port, None);
    assert_eq!(specs[0].https_port, Some(443));
}

#[test]
fn unicode_space_separates_tokens() {
    let mut specs = Vec::new();
    DomainSpec::parse_all("a.com\u{00a0}b.com:https", &mut specs)
        .expect("a non-breaking space separates tokens");
    assert_eq!(specs.len(), 2);
    assert_eq!(specs[0].domain_name, "a.com");
    assert_eq!(specs[1].domain_name, "b.com");
    assert_eq!(specs[1].https_port, Some(443));
}

#[test]
fn error_message_text() {
    let mut specs = Vec::new();
    let err = DomainSpec::parse_all("example.org:http=x", &mut specs).expect_err("bad port");
    assert_eq!(
        err.message(),
        "Failed to parse domain spec option. Domain name: \"example.org\" \
         Option name: \"http\" Cause: invalid digit found in string"
    );
}
