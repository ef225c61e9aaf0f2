use telemetry_filter::address::get_url_and_port;
use telemetry_filter::identity::find_name_and_namespace;
use telemetry_filter::identity::find_upstream_name_and_namespace;

#[test]
fn address_with_one_separator() {
    let (host, port) = get_url_and_port(String::from("10.244.0.10:8080"));
    assert_eq!(host, "10.244.0.10");
    assert_eq!(port, 8080);
}

#[test]
fn address_rejects_other_shapes() {
    assert_eq!(get_url_and_port(String::from("nocolon")), (String::new(), 0));
    assert_eq!(get_url_and_port(String::from("a:b:c")), (String::new(), 0));
    assert_eq!(get_url_and_port(String::from(":80")), (String::new(), 0));
    assert_eq!(get_url_and_port(String::from("host:")), (String::new(), 0));
    assert_eq!(get_url_and_port(String::from("host:port")), (String::new(), 0));
    assert_eq!(get_url_and_port(String::from("")), (String::new(), 0));
}

#[test]
fn address_port_edge_values() {
    assert_eq!(get_url_and_port(String::from("h:0")), (String::from("h"), 0));
    assert_eq!(get_url_and_port(String::from("h:65535")), (String::from("h"), 65535));
    assert_eq!(get_url_and_port(String::from("h:65536")), (String::new(), 0));
    assert_eq!(get_url_and_port(String::from("h:00080")), (String::from("h"), 80));
}

#[test]
fn peer_identity_example() {
    let (name, namespace) = find_name_and_namespace(String::from(
        "sidecar~10.244.0.10~httpd-c6d6cb94b-k6rv6.default~default.svc.cluster.local",
    ));
    assert_eq!(name, "httpd-c6d6cb94b-k6rv6");
    assert_eq!(namespace, "default");
}

#[test]
fn peer_identity_guards_short_input() {
    assert_eq!(find_name_and_namespace(String::new()), (String::new(), String::new()));
    assert_eq!(
        find_name_and_namespace(String::from("sidecar~10.0.0.1")),
        (String::new(), String::new())
    );
}

#[test]
fn peer_identity_three_fields() {
    let (name, namespace) = find_name_and_namespace(String::from("a~b~pod.ns"));
    assert_eq!(name, "pod");
    assert_eq!(namespace, "pod");
}

#[test]
fn upstream_identity_example() {
    let (name, namespace) = find_upstream_name_and_namespace(String::from(
        "filterserver;sentryflow;filterserver;;Kubernetes",
    ));
    assert_eq!(name, "filterserver");
    assert_eq!(namespace, "sentryflow");
}

#[test]
fn upstream_identity_field_counts() {
    assert_eq!(
        find_upstream_name_and_namespace(String::from("a;b;c")),
        (String::new(), String::new())
    );
    assert_eq!(
        find_upstream_name_and_namespace(String::from("a;b;c;")),
        (String::from("a"), String::from("b"))
    );
    assert_eq!(find_upstream_name_and_namespace(String::new()), (String::new(), String::new()));
}
