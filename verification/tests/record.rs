use telemetry_filter::codec::decode_telemetry;
use telemetry_filter::codec::encode_telemetry;
use telemetry_filter::telemetry::capture_headers;
use telemetry_filter::telemetry::Telemetry;

fn owned(pairs: Vec<(&str, &str)>) -> Vec<(String, String)> {
    pairs.into_iter().map(|(k, v)| (k.to_string(), v.to_string())).collect()
}

fn sample_record() -> Telemetry {
    let mut t = Telemetry::new(7);
    t.apply_request_headers(
        owned(vec![("host", "a"), (":path", "/x"), ("host", "b")]),
        String::from("10.0.0.1:80"),
        String::from("sidecar~10.244.0.10~web-1.prod~prod.svc.cluster.local"),
    );
    t.apply_request_body(String::from("hello \"world\"\n"));
    t.apply_response_headers(
        owned(vec![("status", "200")]),
        String::from("10.0.0.2:9000"),
        String::from("api;prod;api;;Kubernetes"),
    );
    t.apply_response_body(String::from("ok"));
    t
}

#[test]
fn headers_capture_last_wins() {
    let out = capture_headers(owned(vec![("a", "1"), ("b", "2"), ("a", "3")]));
    assert_eq!(out, owned(vec![("a", "3"), ("b", "2")]));
}

#[test]
fn assembler_fills_fields() {
    let t = sample_record();
    assert_eq!(t.context_id, 7);
    assert_eq!(t.request.source.ip, "10.0.0.1");
    assert_eq!(t.request.source.port, 80);
    assert_eq!(t.request.source.name, "web-1");
    assert_eq!(t.request.source.namespace, "prod");
    assert_eq!(t.request.body, "hello \"world\"\n");
    assert_eq!(t.response.destination.ip, "10.0.0.2");
    assert_eq!(t.response.destination.port, 9000);
    assert_eq!(t.response.destination.name, "api");
    assert_eq!(t.response.destination.namespace, "prod");
    assert_eq!(t.response.body, "ok");
    assert_eq!(t.request.headers, owned(vec![("host", "b"), (":path", "/x")]));
    assert_eq!(t.response.headers, owned(vec![("status", "200")]));
}

#[test]
fn encode_fresh_record_exact_text() {
    let t = Telemetry::new(1);
    let expected = "{\"context_id\":1,\"request\":{\"headers\":{},\"source\":{\"name\":\"\",\"namespace\":\"\",\"ip\":\"\",\"port\":0},\"body\":\"\"},\"response\":{\"headers\":{},\"destination\":{\"name\":\"\",\"namespace\":\"\",\"ip\":\"\",\"port\":0},\"body\":\"\"}}";
    assert_eq!(encode_telemetry(&t), expected);
}

#[test]
fn encode_escapes_special_characters() {
    let mut t = Telemetry::new(2);
    t.apply_request_body(String::from("a\"b\\c\nd\te\u{7}f\rg"));
    let enc = encode_telemetry(&t);
    assert!(enc.contains("a\\\"b\\\\c\\nd\\te\\u0007f\\rg"));
}

#[test]
fn round_trip_reproduces_fields() {
    let t = sample_record();
    let enc = encode_telemetry(&t);
    let d = decode_telemetry(&enc).expect("canonical text must decode");
    assert_eq!(d.context_id, t.context_id);
    assert_eq!(d.request.headers, t.request.headers);
    assert_eq!(d.request.source.name, t.request.source.name);
    assert_eq!(d.request.source.namespace, t.request.source.namespace);
    assert_eq!(d.request.source.ip, t.request.source.ip);
    assert_eq!(d.request.source.port, t.request.source.port);
    assert_eq!(d.request.body, t.request.body);
    assert_eq!(d.response.headers, t.response.headers);
    assert_eq!(d.response.destination.name, t.response.destination.name);
    assert_eq!(d.response.destination.namespace, t.response.destination.namespace);
    assert_eq!(d.response.destination.ip, t.response.destination.ip);
    assert_eq!(d.response.destination.port, t.response.destination.port);
    assert_eq!(d.response.body, t.response.body);
}

#[test]
fn round_trip_of_escaped_record() {
    let mut t = Telemetry::new(3);
    t.apply_request_body(String::from("quote \" slash \\ nl \n tab \t bell \u{7} end"));
    t.apply_response_body(String::from("\u{1}\u{2}\u{3}"));
    let enc = encode_telemetry(&t);
    let d = decode_telemetry(&enc).expect("escaped record must decode");
    assert_eq!(d.request.body, t.request.body);
    assert_eq!(d.response.body, t.response.body);
}

#[test]
fn decode_hand_written_text() {
    let text = "{\"context_id\":42,\"request\":{\"headers\":{\"host\":\"example\"},\"source\":{\"name\":\"web\",\"namespace\":\"prod\",\"ip\":\"10.0.0.9\",\"port\":65535},\"body\":\"hi\"},\"response\":{\"headers\":{},\"destination\":{\"name\":\"\",\"namespace\":\"\",\"ip\":\"\",\"port\":0},\"body\":\"\"}}";
    let d = decode_telemetry(text).expect("canonical text must decode");
    assert_eq!(d.context_id, 42);
    assert_eq!(d.request.headers, owned(vec![("host", "example")]));
    assert_eq!(d.request.source.name, "web");
    assert_eq!(d.request.source.namespace, "prod");
    assert_eq!(d.request.source.ip, "10.0.0.9");
    assert_eq!(d.request.source.port, 65535);
    assert_eq!(d.request.body, "hi");
    assert_eq!(d.response.headers, Vec::<(String, String)>::new());
    assert_eq!(d.response.body, "");
}

#[test]
fn decode_rejects_out_of_range_port() {
    let text = "{\"context_id\":1,\"request\":{\"headers\":{},\"source\":{\"name\":\"\",\"namespace\":\"\",\"ip\":\"\",\"port\":65536},\"body\":\"\"},\"response\":{\"headers\":{},\"destination\":{\"name\":\"\",\"namespace\":\"\",\"ip\":\"\",\"port\":0},\"body\":\"\"}}";
    assert!(decode_telemetry(text).is_none());
}

#[test]
fn round_trip_of_empty_header_names_and_values() {
    let mut t = Telemetry::new(6);
    t.apply_request_headers(
        owned(vec![("", ""), ("k", "")]),
        String::new(),
        String::new(),
    );
    let enc = encode_telemetry(&t);
    let d = decode_telemetry(&enc).expect("record with empty header fields must decode");
    assert_eq!(d.request.headers, owned(vec![("", ""), ("k", "")]));
}

#[test]
fn decode_rejects_mangled_text() {
    assert!(decode_telemetry("").is_none());
    assert!(decode_telemetry("{}").is_none());
    let enc = encode_telemetry(&Telemetry::new(4));
    let with_tail = format!("{} ", enc);
    assert!(decode_telemetry(&with_tail).is_none());
    let truncated = &enc[..enc.len() - 1];
    assert!(decode_telemetry(truncated).is_none());
}

#[test]
fn independent_json_reader_agrees() {
    let t = sample_record();
    let enc = encode_telemetry(&t);
    let v: serde_json::Value = serde_json::from_str(&enc).expect("encoder must emit valid JSON");
    assert_eq!(v["context_id"].as_u64(), Some(7));
    assert_eq!(v["request"]["source"]["ip"].as_str(), Some("10.0.0.1"));
    assert_eq!(v["request"]["source"]["port"].as_u64(), Some(80));
    assert_eq!(v["request"]["headers"]["host"].as_str(), Some("b"));
    assert_eq!(v["request"]["headers"][":path"].as_str(), Some("/x"));
    assert_eq!(v["request"]["body"].as_str(), Some("hello \"world\"\n"));
    assert_eq!(v["response"]["destination"]["name"].as_str(), Some("api"));
    assert_eq!(v["response"]["destination"]["namespace"].as_str(), Some("prod"));
    assert_eq!(v["response"]["body"].as_str(), Some("ok"));
}

#[test]
fn independent_json_reader_agrees_on_escapes() {
    let mut t = Telemetry::new(5);
    let body = String::from("a\"b\\c\nd\te\u{7}f\rg");
    t.apply_request_body(body.clone());
    let enc = encode_telemetry(&t);
    let v: serde_json::Value = serde_json::from_str(&enc).expect("encoder must emit valid JSON");
    assert_eq!(v["request"]["body"].as_str(), Some(body.as_str()));
}
