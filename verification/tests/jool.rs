use ipv_proxy::forward::jool::{next_binding_step, BindingStep};
use ipv_proxy::config::{ExposedService, ServiceProtocol};
use ipv_proxy::forward::jool::{JoolCommand, JoolForwarding};
use ipv_proxy::net::{IpAddress, Ipv4Address, Ipv6Address, SocketAddress, SocketAddressV6};

fn texts(cmd: &JoolCommand) -> Vec<&str> {
    cmd.args.iter().map(|a| a.as_str()).collect()
}

fn example_target() -> SocketAddressV6 {
    SocketAddressV6 {
        ip: Ipv6Address::from_segments([
            0x2001, 0x4dd5, 0xb276, 0x1, 0xf652, 0x14ff, 0xfe94, 0xdc00,
        ]),
        port: 30033,
    }
}

#[test]
fn add_tcp_command() {
    let jool_instance = JoolForwarding::new("example", "", Ipv4Address::new(51, 158, 177, 228));
    let command = jool_instance.construct_add_command(30033, example_target(), ServiceProtocol::TCP);
    assert_eq!(command.program, "jool");
    assert_eq!(
        texts(&command),
        vec![
            "-i",
            "\"example\"",
            "bib",
            "add",
            "2001:4dd5:b276:1:f652:14ff:fe94:dc00#30033",
            "51.158.177.228#30033",
            "--tcp",
        ]
    );
}

#[test]
fn remove_tcp_command() {
    let jool_instance = JoolForwarding::new("example", "", Ipv4Address::new(51, 158, 177, 228));
    let command =
        jool_instance.construct_remove_command(30033, example_target(), ServiceProtocol::TCP);
    assert_eq!(command.program, "jool");
    assert_eq!(
        texts(&command),
        vec![
            "-i",
            "\"example\"",
            "bib",
            "remove",
            "2001:4dd5:b276:1:f652:14ff:fe94:dc00#30033",
            "51.158.177.228#30033",
            "--tcp",
        ]
    );
}

#[test]
fn add_udp_command_uses_udp_flag_and_own_ports() {
    let jool = JoolForwarding::new("nat64", "64:ff9b::/96", Ipv4Address::new(10, 0, 0, 1));
    let target = SocketAddressV6 {
        ip: Ipv6Address::from_segments([0xfd00, 0, 0, 0, 0, 0, 0, 5]),
        port: 53,
    };
    let command = jool.construct_add_command(5353, target, ServiceProtocol::UDP);
    assert_eq!(
        texts(&command),
        vec!["-i", "\"nat64\"", "bib", "add", "fd00::5#53", "10.0.0.1#5353", "--udp"]
    );
}

#[test]
fn startup_commands_recreate_instance_and_pools() {
    let jool = JoolForwarding::new("ipv-proxy", "64:ff9b::/96", Ipv4Address::new(51, 158, 177, 228));
    let cmds = jool.startup_commands();
    assert_eq!(cmds.len(), 4);
    assert!(cmds.iter().all(|c| c.program == "jool"));
    assert_eq!(texts(&cmds[0]), vec!["instance", "remove", "ipv-proxy"]);
    assert_eq!(
        texts(&cmds[1]),
        vec!["instance", "add", "ipv-proxy", "--netfilter", "--pool6", "64:ff9b::/96"]
    );
    assert_eq!(
        texts(&cmds[2]),
        vec!["-i", "ipv-proxy", "pool4", "add", "--udp", "51.158.177.228", "1-65535"]
    );
    assert_eq!(
        texts(&cmds[3]),
        vec!["-i", "ipv-proxy", "pool4", "add", "--tcp", "51.158.177.228", "1-65535"]
    );
}

#[test]
fn forwarding_commands_add_then_remove_the_same_binding() {
    let jool = JoolForwarding::new("example", "", Ipv4Address::new(51, 158, 177, 228));
    let service = ExposedService {
        name: "web-1".to_string(),
        public_port: 8080,
        target_addr: SocketAddress {
            ip: IpAddress::V6(Ipv6Address::from_segments([0x2001, 0xdb8, 0, 0, 0, 0, 0, 0x10])),
            port: 80,
        },
        protocol: ServiceProtocol::TCP,
    };
    let (add, remove) = jool.forwarding_commands(&service);
    assert_eq!(
        texts(&add),
        vec!["-i", "\"example\"", "bib", "add", "2001:db8::10#80", "51.158.177.228#8080", "--tcp"]
    );
    assert_eq!(
        texts(&remove),
        vec!["-i", "\"example\"", "bib", "remove", "2001:db8::10#80", "51.158.177.228#8080", "--tcp"]
    );
}

#[test]
fn binding_is_added_kept_then_removed() {
    let mut steps = vec![BindingStep::RunAdd];
    while *steps.last().unwrap() != BindingStep::Done {
        let next = next_binding_step(*steps.last().unwrap());
        steps.push(next);
    }
    assert_eq!(
        steps,
        vec![BindingStep::RunAdd, BindingStep::AwaitShutdown, BindingStep::RunRemove, BindingStep::Done]
    );
    assert_eq!(next_binding_step(BindingStep::Done), BindingStep::Done);
}
