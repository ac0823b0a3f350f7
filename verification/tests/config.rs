use ipv_proxy::config::{
    catalog_services_to_expose, exposed_service, exposed_services, services_to_expose,
    ConsulConfig, ExposedService, ServiceNode, ServiceProtocol,
};
use ipv_proxy::net::{IpAddress, Ipv4Address, Ipv6Address, SocketAddress};

fn node(id: &str, port: u16, ip: IpAddress) -> ServiceNode {
    ServiceNode {
        service_id: id.to_string(),
        service_port: port,
        service_address: ip,
        service_tags: vec!["ipv_proxy.expose".to_string()],
    }
}

fn consul(base: &str) -> ConsulConfig {
    ConsulConfig { base_addr: base.to_string() }
}

#[test]
fn services_to_expose_keeps_tagged_in_order() {
    let catalog = vec![
        ("web".to_string(), vec!["http".to_string(), "ipv_proxy.expose".to_string()]),
        ("db".to_string(), vec!["postgres".to_string()]),
        ("consul".to_string(), vec![]),
        ("api".to_string(), vec!["ipv_proxy.expose".to_string()]),
    ];
    assert_eq!(services_to_expose(&catalog), vec!["web".to_string(), "api".to_string()]);
}

#[test]
fn services_to_expose_needs_exact_tag() {
    let catalog = vec![
        ("a".to_string(), vec!["ipv_proxy.expose ".to_string()]),
        ("b".to_string(), vec!["IPV_PROXY.EXPOSE".to_string()]),
        ("c".to_string(), vec!["ipv_proxy".to_string()]),
    ];
    assert!(services_to_expose(&catalog).is_empty());
}

#[test]
fn catalog_services_to_expose_reads_json() {
    let raw = r#"{"web":["ipv_proxy.expose"],"db":[],"api":["x","ipv_proxy.expose"]}"#;
    // serde_json reads the object into a map ordered by name
    assert_eq!(
        catalog_services_to_expose(raw),
        Some(vec!["api".to_string(), "web".to_string()])
    );
}

#[test]
fn catalog_services_to_expose_rejects_other_json() {
    assert_eq!(catalog_services_to_expose("not json"), None);
    assert_eq!(catalog_services_to_expose(r#"["web"]"#), None);
    assert_eq!(catalog_services_to_expose(r#"{"web": "ipv_proxy.expose"}"#), None);
    assert_eq!(catalog_services_to_expose("{}"), Some(vec![]));
}

#[test]
fn exposed_service_forwards_to_instance_port() {
    let ip = IpAddress::V6(Ipv6Address::from_segments([0xfd00, 0, 0, 0, 0, 0, 0, 7]));
    let s = exposed_service(&node("web-1", 8080, ip));
    assert_eq!(s.name, "web-1");
    assert_eq!(s.public_port, 8080);
    assert_eq!(s.target_addr, SocketAddress { ip, port: 8080 });
    assert_eq!(s.protocol, ServiceProtocol::TCP);
}

#[test]
fn exposed_services_skips_failed_loads() {
    let a = IpAddress::V4(Ipv4Address::new(10, 0, 0, 1));
    let b = IpAddress::V4(Ipv4Address::new(10, 0, 0, 2));
    let loaded = vec![
        Some(vec![node("web-1", 80, a), node("web-2", 80, b)]),
        None,
        Some(vec![]),
        Some(vec![node("api-1", 9000, a)]),
    ];
    let services: Vec<ExposedService> = exposed_services(&loaded);
    let names: Vec<&str> = services.iter().map(|s| s.name.as_str()).collect();
    assert_eq!(names, vec!["web-1", "web-2", "api-1"]);
    assert_eq!(services[1].target_addr, SocketAddress { ip: b, port: 80 });
    assert_eq!(services[2].public_port, 9000);
}

#[test]
fn duplicate_copies_every_field() {
    let s = exposed_service(&node("x", 1, IpAddress::V4(Ipv4Address::new(1, 2, 3, 4))));
    let d = s.duplicate();
    assert_eq!(d.name, s.name);
    assert_eq!(d.public_port, s.public_port);
    assert_eq!(d.target_addr, s.target_addr);
    assert_eq!(d.protocol, s.protocol);
}

#[test]
fn api_url_is_v1_under_base() {
    assert_eq!(consul("http://127.0.0.1:8500").api_url(), "http://127.0.0.1:8500/v1/");
    assert_eq!(consul("http://consul.local:8500/some/path").api_url(), "http://consul.local:8500/v1/");
}

#[test]
fn catalog_urls_resolve_under_api() {
    let c = consul("http://127.0.0.1:8500/");
    assert_eq!(
        c.catalog_services_url(),
        Some("http://127.0.0.1:8500/v1/catalog/services".to_string())
    );
    assert_eq!(
        c.catalog_service_url("web"),
        Some("http://127.0.0.1:8500/v1/catalog/service/web".to_string())
    );
}

#[test]
fn catalog_urls_need_an_absolute_base() {
    assert_eq!(consul("not a url").catalog_services_url(), None);
    assert_eq!(consul("").catalog_service_url("web"), None);
    assert_eq!(consul("mailto:admin@example.com").catalog_services_url(), None);
}
