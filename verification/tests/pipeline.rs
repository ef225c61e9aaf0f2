use telemetry_filter::codec::encode_telemetry;
use telemetry_filter::config::parse_filter_config;
use telemetry_filter::config::FilterConfig;
use telemetry_filter::exchange::ExchangeContext;
use telemetry_filter::exchange::ExchangeEvent;

fn owned(pairs: Vec<(&str, &str)>) -> Vec<(String, String)> {
    pairs.into_iter().map(|(k, v)| (k.to_string(), v.to_string())).collect()
}

fn request_headers_event(ip: &str, pod: &str, ns: &str) -> ExchangeEvent {
    ExchangeEvent::RequestHeaders {
        headers: owned(vec![("host", "svc")]),
        source_address: format!("{}:80", ip),
        peer_header: format!("sidecar~{}~{}.{}~{}.svc.cluster.local", ip, pod, ns, ns),
    }
}

fn response_headers_event(ip: &str, name: &str, ns: &str) -> ExchangeEvent {
    ExchangeEvent::ResponseHeaders {
        headers: owned(vec![(":status", "200")]),
        destination_address: format!("{}:9000", ip),
        upstream_metadata: format!("{};{};{};;Kubernetes", name, ns, name),
    }
}

#[test]
fn config_parses_fields() {
    let c = parse_filter_config(
        "{\"upstream_name\":\"collector\",\"api_path\":\"/api/v1/events\",\"authority\":\"sentryflow\"}",
    );
    assert_eq!(c.upstream_name, "collector");
    assert_eq!(c.api_path, "/api/v1/events");
    assert_eq!(c.authority, "sentryflow");
}

#[test]
fn config_accepts_whitespace_and_extra_fields() {
    let c = parse_filter_config(
        "{ \"upstream_name\" : \"c\" ,\n\t\"extra\": \"x y\", \"api_path\": \"/p\",\r\n \"authority\": \"a\" }",
    );
    assert_eq!(c.upstream_name, "c");
    assert_eq!(c.api_path, "/p");
    assert_eq!(c.authority, "a");
}

#[test]
fn config_duplicate_field_last_wins() {
    let c = parse_filter_config(
        "{\"upstream_name\":\"one\",\"api_path\":\"/p\",\"authority\":\"a\",\"upstream_name\":\"two\"}",
    );
    assert_eq!(c.upstream_name, "two");
}

#[test]
fn config_failure_leaves_defaults() {
    let blobs = vec![
        "",
        "not json at all",
        "{\"upstream_name\":\"c\"}",
        "{\"upstream_name\":1,\"api_path\":\"/p\",\"authority\":\"a\"}",
        "[\"upstream_name\"]",
    ];
    for blob in blobs {
        let c = parse_filter_config(blob);
        assert_eq!(c.upstream_name, "");
        assert_eq!(c.api_path, "");
        assert_eq!(c.authority, "");
    }
}

fn run_exchange(config: &FilterConfig, chunks: usize) -> usize {
    let mut ex = ExchangeContext::new(9, config);
    let mut fired = 0;
    if ex.process_event(request_headers_event("10.0.0.1", "web", "prod")).is_some() {
        fired += 1;
    }
    for i in 0..chunks {
        let ev = ExchangeEvent::RequestBody { chunk: format!("chunk{}", i) };
        if ex.process_event(ev).is_some() {
            fired += 1;
        }
    }
    if ex.process_event(response_headers_event("10.0.0.2", "api", "prod")).is_some() {
        fired += 1;
    }
    for i in 0..chunks {
        let ev = ExchangeEvent::ResponseBody { chunk: format!("resp{}", i) };
        if ex.process_event(ev).is_some() {
            fired += 1;
        }
    }
    if ex.process_event(ExchangeEvent::Completed).is_some() {
        fired += 1;
    }
    // nothing fires or mutates once the exchange is done
    if ex.process_event(ExchangeEvent::Completed).is_some() {
        fired += 1;
    }
    if ex.process_event(ExchangeEvent::RequestBody { chunk: String::from("late") }).is_some() {
        fired += 1;
    }
    assert_eq!(ex.record.request.body, if chunks == 0 { String::new() } else { format!("chunk{}", chunks - 1) });
    fired
}

#[test]
fn dispatch_fires_exactly_once_for_zero_one_or_many_chunks() {
    let config = parse_filter_config(
        "{\"upstream_name\":\"collector\",\"api_path\":\"/p\",\"authority\":\"a\"}",
    );
    assert_eq!(run_exchange(&config, 0), 1);
    assert_eq!(run_exchange(&config, 1), 1);
    assert_eq!(run_exchange(&config, 7), 1);
}

#[test]
fn aborted_exchange_never_dispatches() {
    let config = FilterConfig::empty();
    let mut ex = ExchangeContext::new(3, &config);
    assert!(ex.process_event(request_headers_event("10.0.0.1", "web", "prod")).is_none());
    assert!(ex.process_event(ExchangeEvent::Aborted).is_none());
    assert!(ex.process_event(ExchangeEvent::Completed).is_none());
}

#[test]
fn captured_body_never_regresses_to_empty() {
    let config = FilterConfig::empty();
    let mut ex = ExchangeContext::new(4, &config);
    ex.process_event(request_headers_event("10.0.0.1", "web", "prod"));
    ex.process_event(ExchangeEvent::RequestBody { chunk: String::from("data") });
    ex.process_event(ExchangeEvent::RequestBody { chunk: String::new() });
    assert_eq!(ex.record.request.body, "data");
    ex.process_event(ExchangeEvent::RequestBody { chunk: String::from("later") });
    assert_eq!(ex.record.request.body, "later");
    ex.process_event(ExchangeEvent::ResponseBody { chunk: String::from("resp") });
    ex.process_event(ExchangeEvent::ResponseBody { chunk: String::new() });
    assert_eq!(ex.record.response.body, "resp");
}

#[test]
fn interleaved_exchanges_stay_isolated() {
    let config = FilterConfig::empty();
    let total: usize = 100;
    let mut contexts: Vec<ExchangeContext> = Vec::new();
    for i in 0..total {
        contexts.push(ExchangeContext::new(i as u32, &config));
    }
    for i in 0..total {
        let ip = format!("10.1.0.{}", i);
        let pod = format!("pod{}", i);
        let ns = format!("ns{}", i);
        contexts[i].process_event(request_headers_event(&ip, &pod, &ns));
    }
    for i in (0..total).rev() {
        let ev = ExchangeEvent::RequestBody { chunk: format!("body-of-{}", i) };
        contexts[i].process_event(ev);
    }
    for i in 0..total {
        let ip = format!("10.2.0.{}", i);
        let name = format!("up{}", i);
        let ns = format!("uns{}", i);
        contexts[i].process_event(response_headers_event(&ip, &name, &ns));
    }
    let mut dispatched = 0;
    for i in (0..total).rev() {
        if contexts[i].process_event(ExchangeEvent::Completed).is_some() {
            dispatched += 1;
        }
    }
    assert_eq!(dispatched, total);
    for i in 0..total {
        let r = &contexts[i].record;
        assert_eq!(r.context_id, i as u32);
        assert_eq!(r.request.source.ip, format!("10.1.0.{}", i));
        assert_eq!(r.request.source.name, format!("pod{}", i));
        assert_eq!(r.request.source.namespace, format!("ns{}", i));
        assert_eq!(r.request.body, format!("body-of-{}", i));
        assert_eq!(r.response.destination.ip, format!("10.2.0.{}", i));
        assert_eq!(r.response.destination.name, format!("up{}", i));
        assert_eq!(r.response.destination.namespace, format!("uns{}", i));
    }
}

#[test]
fn config_failure_does_not_stop_exchanges() {
    let config = parse_filter_config("this blob is broken");
    assert_eq!(config.upstream_name, "");
    let mut ex = ExchangeContext::new(1, &config);
    ex.process_event(request_headers_event("10.0.0.1", "web", "prod"));
    ex.process_event(response_headers_event("10.0.0.2", "api", "prod"));
    let call = ex.process_event(ExchangeEvent::Completed).expect("dispatch is still attempted");
    assert_eq!(call.upstream_name, "");
    assert_eq!(call.body, encode_telemetry(&ex.record));
}

#[test]
fn dispatch_call_carries_configuration() {
    let config = parse_filter_config(
        "{\"upstream_name\":\"collector\",\"api_path\":\"/api/v1/events\",\"authority\":\"sentryflow\"}",
    );
    let mut ex = ExchangeContext::new(2, &config);
    ex.process_event(request_headers_event("10.0.0.1", "web", "prod"));
    let call = ex.process_event(ExchangeEvent::Completed).expect("completion dispatches");
    assert_eq!(call.upstream_name, "collector");
    assert_eq!(call.timeout_ms, 1000);
    assert_eq!(
        call.headers,
        owned(vec![
            (":method", "POST"),
            (":authority", "sentryflow"),
            (":path", "/api/v1/events"),
            ("accept", "*/*"),
            ("Content-Type", "application/json"),
        ])
    );
    assert_eq!(call.body, encode_telemetry(&ex.record));
}
