use rocketmq::producer::{Error, Producer, ProducerOptions, PullStatus};
use rocketmq::resolver::{parse_address_list, HttpResolver, NsResolver, PassthroughResolver, ResolveError};
use rocketmq::selector::RoundRobinQueueSelector;

fn strings(v: &[&str]) -> Vec<String> {
    v.iter().map(|s| s.to_string()).collect()
}

#[test]
fn round_robin_four_queues_five_calls() {
    let mut sel = RoundRobinQueueSelector::new();
    let picks: Vec<usize> = (0..5).map(|_| sel.select("t", 4)).collect();
    assert_eq!(picks, vec![0, 1, 2, 3, 0]);
}

#[test]
fn round_robin_is_fair_over_multiples() {
    let mut sel = RoundRobinQueueSelector::new();
    sel.select("t", 3);
    let mut counts = [0usize; 3];
    for _ in 0..12 {
        counts[sel.select("t", 3)] += 1;
    }
    assert_eq!(counts, [4, 4, 4]);
    // the rotation continues where it stopped
    assert_eq!(sel.select("t", 3), 1);
}

#[test]
fn round_robin_topics_are_isolated() {
    let mut sel = RoundRobinQueueSelector::new();
    assert_eq!(sel.select("a", 4), 0);
    assert_eq!(sel.select("a", 4), 1);
    assert_eq!(sel.select("b", 4), 0);
    assert_eq!(sel.select("a", 4), 2);
    assert_eq!(sel.select("b", 4), 1);
}

#[test]
fn parse_addresses() {
    assert_eq!(
        parse_address_list("10.0.0.1:9876;10.0.0.2:9876\n").unwrap(),
        strings(&["10.0.0.1:9876", "10.0.0.2:9876"])
    );
    assert_eq!(parse_address_list(";; a ;b;").unwrap(), strings(&["a", "b"]));
    assert_eq!(parse_address_list(" ;\n"), Err(ResolveError::Malformed));
    assert_eq!(parse_address_list(""), Err(ResolveError::Malformed));
}

#[test]
fn passthrough_prefers_fixed_list() {
    let p = PassthroughResolver::new(strings(&["x:1"]), HttpResolver::new("DEFAULT".to_string()));
    assert_eq!(p.resolve_with(Err(ResolveError::Unreachable)).unwrap(), strings(&["x:1"]));
    assert_eq!(p.resolve_with(Ok(strings(&["y:2"]))).unwrap(), strings(&["x:1"]));
    let r = NsResolver::Passthrough(p);
    assert!(r.discovery_target().is_none());
}

#[test]
fn passthrough_empty_defers_to_fallback() {
    let p = PassthroughResolver::new(Vec::new(), HttpResolver::new("DEFAULT".to_string()));
    assert_eq!(p.resolve_with(Err(ResolveError::Unreachable)), Err(ResolveError::Unreachable));
    assert_eq!(p.resolve_with(Ok(strings(&["y:2"]))).unwrap(), strings(&["y:2"]));
    let r = NsResolver::Passthrough(p);
    assert_eq!(r.discovery_target().unwrap().domain, "DEFAULT");
}

#[test]
fn http_resolver_description_and_response() {
    let h = HttpResolver::with_domain("c1".to_string(), "ns.example".to_string());
    assert_eq!(h.description(), "http:ns.example/c1");
    assert_eq!(h.resolve_response("a:1;b:2").unwrap(), strings(&["a:1", "b:2"]));
    assert_eq!(h.resolve_response("\n"), Err(ResolveError::Malformed));
    assert_eq!(NsResolver::Http(h).description(), "http:ns.example/c1");
}

#[test]
fn options_defaults() {
    let o = ProducerOptions::new();
    assert_eq!(o.send_msg_timeout, 3000);
    assert_eq!(o.default_topic_queue_nums, 4);
    assert_eq!(o.create_topic_key, "TBW102");
    match &o.resolver {
        NsResolver::Http(h) => {
            assert_eq!(h.domain, "DEFAULT");
            assert_eq!(h.cluster, "DEFAULT");
        }
        _ => panic!("default resolver is not the HTTP one"),
    }
}

#[test]
fn options_setters() {
    let mut o = ProducerOptions::new();
    o.set_send_msg_timeout(500);
    assert_eq!(o.send_msg_timeout, 500);
    assert_eq!(o.set_default_topic_queue_nums(8), Ok(()));
    assert_eq!(o.default_topic_queue_nums, 8);
    assert_eq!(o.set_default_topic_queue_nums(0), Err(Error::Configuration));
    assert_eq!(o.default_topic_queue_nums, 8);
    o.set_create_topic_key("KEY");
    assert_eq!(o.create_topic_key, "KEY");
    o.set_name_server_domain("ns.example");
    assert_eq!(o.resolver.description(), "http:ns.example/DEFAULT");
    o.set_name_server(strings(&["n:1"]));
    assert_eq!(o.resolver.description(), "passthrough");
    o.set_resolver(NsResolver::Http(HttpResolver::new("c".to_string())));
    assert_eq!(o.resolver.description(), "http:DEFAULT/c");
}

#[test]
fn producer_construction_fails_on_resolve_error() {
    assert_eq!(
        Producer::new("g", Err(ResolveError::Unreachable)).err(),
        Some(Error::Resolve(ResolveError::Unreachable))
    );
    let mut o = ProducerOptions::new();
    o.set_name_server(Vec::new());
    assert_eq!(
        Producer::with_options("g", o, Err(ResolveError::Malformed)).err(),
        Some(Error::Resolve(ResolveError::Malformed))
    );
}

#[test]
fn producer_construction_uses_resolved_addresses() {
    let p = Producer::new("g", Ok(strings(&["a:1"]))).unwrap();
    assert_eq!(p.group(), "g");
    assert_eq!(*p.name_servers(), strings(&["a:1"]));
    let mut o = ProducerOptions::new();
    o.set_name_server(strings(&["s:1"]));
    let mut p = Producer::with_options("g", o, Err(ResolveError::Unreachable)).unwrap();
    assert_eq!(*p.name_servers(), strings(&["s:1"]));
    assert_eq!(p.select_queue("t", 2), 0);
    assert_eq!(p.select_queue("t", 2), 1);
}

#[test]
fn pull_status_classes() {
    assert!(PullStatus::OffsetIllegal.requires_offset_reset());
    assert!(!PullStatus::Found.requires_offset_reset());
    assert!(PullStatus::BrokerTimeout.is_retryable());
    assert!(!PullStatus::NoNewMsg.is_retryable());
    assert!(PullStatus::NoNewMsg.is_empty_poll());
    assert!(PullStatus::NoMsgMatched.is_empty_poll());
    assert!(!PullStatus::Found.is_empty_poll());
}

#[test]
fn producer_topic_routes() {
    let mut p = Producer::new("g", Ok(strings(&["a:1"]))).unwrap();
    assert!(p.publish_topic_list().is_empty());
    assert!(p.is_publish_topic_need_update("t1"));
    p.update_topic_publish_info("t1", 4);
    assert!(!p.is_publish_topic_need_update("t1"));
    assert!(p.is_publish_topic_need_update("t2"));
    p.update_topic_publish_info("t2", 8);
    p.update_topic_publish_info("t1", 0);
    assert!(p.is_publish_topic_need_update("t1"));
    assert!(!p.is_publish_topic_need_update("t2"));
    assert_eq!(p.publish_topic_list(), strings(&["t1", "t2"]));
}

#[test]
fn options_default_matches_new() {
    let o = ProducerOptions::default();
    assert_eq!(o.send_msg_timeout, 3000);
    assert_eq!(o.default_topic_queue_nums, 4);
    assert_eq!(o.create_topic_key, "TBW102");
    assert_eq!(o.resolver.description(), "http:DEFAULT/DEFAULT");
}

#[test]
fn pull_status_codes() {
    assert_eq!(PullStatus::Found.code(), 0);
    assert_eq!(PullStatus::NoNewMsg.code(), 1);
    assert_eq!(PullStatus::NoMsgMatched.code(), 2);
    assert_eq!(PullStatus::OffsetIllegal.code(), 3);
    assert_eq!(PullStatus::BrokerTimeout.code(), 4);
}

#[test]
fn producer_keeps_group_and_options() {
    let mut o = ProducerOptions::new();
    o.set_create_topic_key("K2");
    let p = Producer::with_options("grp", o, Ok(strings(&["a:1"]))).unwrap();
    assert_eq!(p.group(), "grp");
    assert_eq!(p.options().create_topic_key, "K2");
}

#[test]
fn round_robin_rotation_continues_across_queue_counts() {
    let mut sel = RoundRobinQueueSelector::new();
    let picks: Vec<usize> = (0..7).map(|_| sel.select("t", 3)).collect();
    assert_eq!(picks, vec![0, 1, 2, 0, 1, 2, 0]);
    for w in picks.windows(2) {
        assert_eq!(w[1], (w[0] + 1) % 3);
    }
}

#[test]
fn http_answer_ok() {
    let h = HttpResolver::new("DEFAULT".to_string());
    let answer = "HTTP/1.1 200 OK\r\nContent-Type: text/plain\r\n\r\n10.0.0.1:9876;10.0.0.2:9876\n";
    assert_eq!(
        h.resolve_http_answer(answer).unwrap(),
        strings(&["10.0.0.1:9876", "10.0.0.2:9876"])
    );
}

#[test]
fn http_answer_error_status() {
    let h = HttpResolver::new("DEFAULT".to_string());
    assert_eq!(
        h.resolve_http_answer("HTTP/1.1 404 Not Found\r\n\r\na:1"),
        Err(ResolveError::Unreachable)
    );
    assert_eq!(
        h.resolve_http_answer("HTTP/1.0 503\r\n\r\n"),
        Err(ResolveError::Unreachable)
    );
}

#[test]
fn http_answer_malformed() {
    let h = HttpResolver::new("DEFAULT".to_string());
    assert_eq!(h.resolve_http_answer("HTTP/1.1 200 OK\r\na:1"), Err(ResolveError::Malformed));
    assert_eq!(h.resolve_http_answer("HTTP/1.1 2x0 OK\r\n\r\na:1"), Err(ResolveError::Malformed));
    assert_eq!(h.resolve_http_answer("HTTP/1.1 200 OK\r\n\r\n \n"), Err(ResolveError::Malformed));
    assert_eq!(h.resolve_http_answer("garbage\r\n\r\na:1"), Err(ResolveError::Malformed));
    assert_eq!(h.resolve_http_answer(""), Err(ResolveError::Malformed));
}

#[test]
fn with_options_refuses_zero_queue_count() {
    let mut o = ProducerOptions::new();
    o.default_topic_queue_nums = 0;
    assert_eq!(
        Producer::with_options("g", o, Ok(strings(&["a:1"]))).err(),
        Some(Error::Configuration)
    );
}
