use ipv_proxy::config::{ExposedService, ServiceProtocol};
use ipv_proxy::handlers::{HandlerRegistry, CONFIG_RETRY_SECS, REFRESH_SECS};
use ipv_proxy::net::{IpAddress, Ipv4Address, SocketAddress};
use std::collections::BTreeSet;

fn service(name: &str, last: u8) -> ExposedService {
    ExposedService {
        name: name.to_string(),
        public_port: 80,
        target_addr: SocketAddress { ip: IpAddress::V4(Ipv4Address::new(10, 0, 0, last)), port: 80 },
        protocol: ServiceProtocol::TCP,
    }
}

fn ids<H>(r: &HandlerRegistry<H>) -> Vec<String> {
    (0..r.len()).map(|i| r.id(i).clone()).collect()
}

/// Applies a plan as the refresh loop does, with the service's name as handle.
fn refresh(r: &mut HandlerRegistry<String>, exposed: &Vec<ExposedService>) -> (Vec<String>, Vec<String>) {
    let plan = r.plan(exposed);
    let mut stopped = Vec::new();
    for id in plan.stop.iter() {
        stopped.push(r.remove(id).expect("a planned stop names a running handler"));
    }
    let mut started = Vec::new();
    for s in plan.start.iter() {
        assert!(r.insert(s.name.clone(), format!("{}@{}", s.name, s.target_addr.ip.to_text())).is_none());
        started.push(s.name.clone());
    }
    (stopped, started)
}

#[test]
fn refresh_intervals() {
    assert_eq!(CONFIG_RETRY_SECS, 15);
    assert_eq!(REFRESH_SECS, 30);
}

#[test]
fn plan_starts_first_service_of_each_new_name() {
    let r: HandlerRegistry<u32> = HandlerRegistry::new();
    let exposed = vec![service("a", 1), service("b", 2), service("a", 3)];
    let plan = r.plan(&exposed);
    assert!(plan.stop.is_empty());
    let started: Vec<(String, String)> =
        plan.start.iter().map(|s| (s.name.clone(), s.target_addr.ip.to_text())).collect();
    assert_eq!(
        started,
        vec![("a".to_string(), "10.0.0.1".to_string()), ("b".to_string(), "10.0.0.2".to_string())]
    );
}

#[test]
fn plan_stops_handlers_no_longer_exposed() {
    let mut r: HandlerRegistry<u32> = HandlerRegistry::new();
    r.insert("a".to_string(), 1);
    r.insert("b".to_string(), 2);
    r.insert("c".to_string(), 3);
    let plan = r.plan(&vec![service("b", 2), service("d", 4)]);
    assert_eq!(plan.stop, vec!["a".to_string(), "c".to_string()]);
    let started: Vec<&str> = plan.start.iter().map(|s| s.name.as_str()).collect();
    assert_eq!(started, vec!["d"]);
}

#[test]
fn remove_hands_back_the_handle() {
    let mut r: HandlerRegistry<u32> = HandlerRegistry::new();
    r.insert("a".to_string(), 1);
    r.insert("b".to_string(), 2);
    assert_eq!(r.remove(&"a".to_string()), Some(1));
    assert_eq!(r.remove(&"a".to_string()), None);
    assert_eq!(ids(&r), vec!["b".to_string()]);
    assert_eq!(*r.handle(0), 2);
}

#[test]
fn insert_replaces_a_handler_of_the_same_id() {
    let mut r: HandlerRegistry<u32> = HandlerRegistry::new();
    assert_eq!(r.insert("a".to_string(), 1), None);
    assert_eq!(r.insert("b".to_string(), 2), None);
    assert_eq!(r.insert("a".to_string(), 3), Some(1));
    assert_eq!(ids(&r), vec!["a".to_string(), "b".to_string()]);
    assert_eq!(*r.handle(0), 3);
}

#[test]
fn retain_unfinished_drops_finished_handlers() {
    let mut r: HandlerRegistry<u32> = HandlerRegistry::new();
    for (i, id) in ["a", "b", "c", "d"].iter().enumerate() {
        r.insert(id.to_string(), i as u32);
    }
    r.retain_unfinished(&vec![true, false, true, false]);
    assert_eq!(ids(&r), vec!["b".to_string(), "d".to_string()]);
    assert_eq!((*r.handle(0), *r.handle(1)), (1, 3));
}

#[test]
fn refresh_converges_to_exposed_names() {
    let mut r: HandlerRegistry<String> = HandlerRegistry::new();
    r.insert("old".to_string(), "old".to_string());
    r.insert("b".to_string(), "b".to_string());
    let exposed = vec![service("a", 1), service("b", 2), service("a", 3), service("c", 4)];
    let (stopped, started) = refresh(&mut r, &exposed);
    assert_eq!(stopped, vec!["old".to_string()]);
    assert_eq!(started, vec!["a".to_string(), "c".to_string()]);
    let running: BTreeSet<String> = ids(&r).into_iter().collect();
    let wanted: BTreeSet<String> = exposed.iter().map(|s| s.name.clone()).collect();
    assert_eq!(running, wanted);
}

#[test]
fn refresh_with_unchanged_configuration_changes_nothing() {
    let mut r: HandlerRegistry<String> = HandlerRegistry::new();
    let exposed = vec![service("a", 1), service("b", 2)];
    refresh(&mut r, &exposed);
    let before = ids(&r);
    let plan = r.plan(&exposed);
    assert!(plan.stop.is_empty());
    assert!(plan.start.is_empty());
    assert_eq!(ids(&r), before);
}

#[test]
fn apply_stops_and_starts_as_planned() {
    let mut r: HandlerRegistry<u32> = HandlerRegistry::new();
    r.insert("old".to_string(), 7);
    r.insert("b".to_string(), 8);
    let exposed = vec![service("a", 1), service("b", 2), service("c", 3)];
    let plan = r.plan(&exposed);
    let stopped = r.apply(&exposed, &plan, vec![10, 11]);
    assert_eq!(stopped, vec![7]);
    assert_eq!(ids(&r), vec!["b".to_string(), "a".to_string(), "c".to_string()]);
    assert_eq!((*r.handle(0), *r.handle(1), *r.handle(2)), (8, 10, 11));
}

#[test]
fn stop_then_start_planned_keeps_remaining_handles() {
    let mut r: HandlerRegistry<u32> = HandlerRegistry::new();
    r.insert("x".to_string(), 1);
    r.insert("y".to_string(), 2);
    r.insert("z".to_string(), 3);
    let exposed = vec![service("z", 1), service("w", 2), service("x", 3)];
    let plan = r.plan(&exposed);
    let stopped = r.stop_planned(&exposed, &plan);
    assert_eq!(stopped, vec![2]);
    assert_eq!(ids(&r), vec!["x".to_string(), "z".to_string()]);
    r.start_planned(&exposed, &plan, vec![4]);
    assert_eq!(ids(&r), vec!["x".to_string(), "z".to_string(), "w".to_string()]);
    assert_eq!((*r.handle(0), *r.handle(1), *r.handle(2)), (1, 3, 4));
}

#[test]
fn ended_handler_is_started_again_on_next_refresh() {
    let mut r: HandlerRegistry<u32> = HandlerRegistry::new();
    let exposed = vec![service("a", 1), service("b", 2)];
    let plan = r.plan(&exposed);
    r.apply(&exposed, &plan, vec![1, 2]);
    // the handler of "a" ended on its own
    r.retain_unfinished(&vec![true, false]);
    assert_eq!(ids(&r), vec!["b".to_string()]);
    let plan = r.plan(&exposed);
    assert!(plan.stop.is_empty());
    let started: Vec<&str> = plan.start.iter().map(|s| s.name.as_str()).collect();
    assert_eq!(started, vec!["a"]);
}

#[test]
fn next_refresh_waits_less_after_a_failed_load() {
    assert_eq!(ipv_proxy::handlers::next_refresh_secs(true), 30);
    assert_eq!(ipv_proxy::handlers::next_refresh_secs(false), 15);
}

#[test]
fn apply_keeps_each_remaining_handler_with_its_own_handle() {
    let mut r: HandlerRegistry<u32> = HandlerRegistry::new();
    r.insert("p".to_string(), 1);
    r.insert("q".to_string(), 2);
    r.insert("gone".to_string(), 3);
    let exposed = vec![service("q", 1), service("p", 2), service("new", 3)];
    let plan = r.plan(&exposed);
    let stopped = r.apply(&exposed, &plan, vec![4]);
    assert_eq!(stopped, vec![3]);
    let pairs: Vec<(String, u32)> = (0..r.len()).map(|i| (r.id(i).clone(), *r.handle(i))).collect();
    assert_eq!(
        pairs,
        vec![("p".to_string(), 1), ("q".to_string(), 2), ("new".to_string(), 4)]
    );
}
