//! Forwarding through a jool NAT64 instance: the `jool` command lines that set
//! the instance up and that add and remove a static binding per service.
use vstd::prelude::*;
use vstd::string::StringExecFns;
use crate::config::{ExposedService, ServiceProtocol};
use crate::net::{
    ipv4_text, ipv6_text, with_port, IpAddress, Ipv4Address, Ipv6Address, SocketAddressV6,
};
use crate::text::push_decimal;

verus! {

/// A program invocation: the program's name and its arguments.
#[derive(Clone, Debug)]
pub struct JoolCommand {
    pub program: String,
    pub args: Vec<String>,
}

impl JoolCommand {
    /// The arguments as text.
    pub open spec fn arg_texts(&self) -> Seq<Seq<char>> {
        self.args.deep_view()
    }
}

/// The flag that selects the protocol's binding table.
pub open spec fn protocol_flag(protocol: ServiceProtocol) -> Seq<char> {
    match protocol {
        ServiceProtocol::TCP => "--tcp"@,
        ServiceProtocol::UDP => "--udp"@,
    }
}

/// `name` between double quotes.
pub open spec fn quoted(name: Seq<char>) -> Seq<char> {
    seq!['"'] + name + seq!['"']
}

/// Arguments of `jool -i "<instance>" bib <action> <target>#<port> <public>#<port> <flag>`.
pub open spec fn bib_args(
    instance: Seq<char>,
    action: Seq<char>,
    public_ip: Seq<u8>,
    port: u16,
    target: Seq<u16>,
    target_port: u16,
    protocol: ServiceProtocol,
) -> Seq<Seq<char>> {
    seq![
        "-i"@,
        quoted(instance),
        "bib"@,
        action,
        with_port(ipv6_text(target), '#', target_port),
        with_port(ipv4_text(public_ip), '#', port),
        protocol_flag(protocol),
    ]
}

/// The binding that the remove command takes away is the one the add command
/// installs: both name the same instance, addresses, ports and protocol, and
/// differ only in the action.
pub proof fn lemma_remove_undoes_add(
    instance: Seq<char>,
    public_ip: Seq<u8>,
    port: u16,
    target: Seq<u16>,
    target_port: u16,
    protocol: ServiceProtocol,
)
    ensures
        ({
            let add = bib_args(instance, "add"@, public_ip, port, target, target_port, protocol);
            let remove = bib_args(
                instance,
                "remove"@,
                public_ip,
                port,
                target,
                target_port,
                protocol,
            );
            &&& add.len() == remove.len()
            &&& add[3] == "add"@ && remove[3] == "remove"@
            &&& forall|i: int| 0 <= i < add.len() && i != 3 ==> add[i] == remove[i]
        }),
{
}

/// The port range of the public IPv4 pool.
pub open spec fn full_port_range() -> Seq<char> {
    "1-65535"@
}

/// The four command lines that (re)create the instance: remove it, add it with
/// netfilter hooks and the pool6 prefix, and pool the public IPv4 address for
/// UDP and for TCP.
pub open spec fn startup_args(instance: Seq<char>, pool6: Seq<char>, public_ip: Seq<u8>) -> Seq<
    Seq<Seq<char>>,
> {
    seq![
        seq!["instance"@, "remove"@, instance],
        seq!["instance"@, "add"@, instance, "--netfilter"@, "--pool6"@, pool6],
        seq![
            "-i"@,
            instance,
            "pool4"@,
            "add"@,
            "--udp"@,
            ipv4_text(public_ip),
            full_port_range(),
        ],
        seq![
            "-i"@,
            instance,
            "pool4"@,
            "add"@,
            "--tcp"@,
            ipv4_text(public_ip),
            full_port_range(),
        ],
    ]
}

/// Where the binding of one exposed service stands.
#[derive(Clone, Copy, Debug, PartialEq, Eq)]
pub enum BindingStep {
    /// Run the add command.
    RunAdd,
    /// Wait until the service is no longer exposed.
    AwaitShutdown,
    /// Run the remove command.
    RunRemove,
    /// Nothing is left to do.
    Done,
}

/// The step after `step` has been carried out. The binding is added, kept
/// until shutdown, then removed; a failed add command does not skip the
/// removal.
pub fn next_binding_step(step: BindingStep) -> (next: BindingStep)
    ensures
        next == match step {
            BindingStep::RunAdd => BindingStep::AwaitShutdown,
            BindingStep::AwaitShutdown => BindingStep::RunRemove,
            BindingStep::RunRemove => BindingStep::Done,
            BindingStep::Done => BindingStep::Done,
        },
{
    match step {
        BindingStep::RunAdd => BindingStep::AwaitShutdown,
        BindingStep::AwaitShutdown => BindingStep::RunRemove,
        BindingStep::RunRemove => BindingStep::Done,
        BindingStep::Done => BindingStep::Done,
    }
}

/// The startup commands name the configured instance and prefix: they remove
/// and re-add the instance itself, give the re-added instance the configured
/// pool6 prefix, and pool the public address in that same instance for UDP and
/// for TCP, over every port.
pub proof fn lemma_startup_uses_configuration(
    instance: Seq<char>,
    pool6: Seq<char>,
    public_ip: Seq<u8>,
)
    ensures
        ({
            let cmds = startup_args(instance, pool6, public_ip);
            &&& cmds.len() == 4
            &&& cmds[0].len() == 3 && cmds[0][1] == "remove"@ && cmds[0][2] == instance
            &&& cmds[1].len() == 6 && cmds[1][1] == "add"@ && cmds[1][2] == instance
            &&& cmds[1][4] == "--pool6"@ && cmds[1][5] == pool6
            &&& cmds[2].len() == 7 && cmds[2][1] == instance && cmds[2][4] == "--udp"@
            &&& cmds[2][5] == ipv4_text(public_ip) && cmds[2][6] == "1-65535"@
            &&& cmds[3].len() == 7 && cmds[3][1] == instance && cmds[3][4] == "--tcp"@
            &&& cmds[3][5] == ipv4_text(public_ip) && cmds[3][6] == "1-65535"@
        }),
{
}

/// A `jool` invocation with the given arguments.
fn jool_command(args: Vec<String>) -> (cmd: JoolCommand)
    ensures
        cmd.program@ == "jool"@,
        cmd.args@ == args@,
{
    JoolCommand { program: "jool".to_owned(), args }
}

/// The text `<address>#<port>`.
fn bound_address(mut address: String, port: u16) -> (s: String)
    ensures
        s@ == with_port(address@, '#', port),
{
    proof {
        reveal_strlit("#");
        assert("#"@ =~= seq!['#']);
    }
    let ghost given = address@;
    address.append("#");
    push_decimal(&mut address, port);
    assert(address@ =~= with_port(given, '#', port));
    address
}

/// Forwarding of services by static bindings of a jool NAT64 instance.
#[derive(Clone, Debug)]
pub struct JoolForwarding {
    jool_instance: String,
    pool6_subnet: String,
    public_ip: Ipv4Address,
}

impl JoolForwarding {
    /// The name of the jool instance.
    pub closed spec fn instance(&self) -> Seq<char> {
        self.jool_instance@
    }

    /// The IPv6 prefix the instance translates from.
    pub closed spec fn pool6(&self) -> Seq<char> {
        self.pool6_subnet@
    }

    /// The public IPv4 address services are exposed on.
    pub closed spec fn public_ip(&self) -> Seq<u8> {
        self.public_ip@
    }

    pub fn new(jool_instance: &str, pool6_subnet: &str, public_ip: Ipv4Address) -> (f:
        JoolForwarding)
        ensures
            f.instance() == jool_instance@,
            f.pool6() == pool6_subnet@,
            f.public_ip() == public_ip@,
    {
        JoolForwarding {
            jool_instance: jool_instance.to_owned(),
            pool6_subnet: pool6_subnet.to_owned(),
            public_ip,
        }
    }

    /// The `bib` command line with the given action.
    fn bib_command(
        &self,
        action: &str,
        port: u16,
        target: SocketAddressV6,
        protocol: ServiceProtocol,
    ) -> (cmd: JoolCommand)
        ensures
            cmd.program@ == "jool"@,
            cmd.arg_texts() == bib_args(
                self.instance(),
                action@,
                self.public_ip(),
                port,
                target.ip@,
                target.port,
                protocol,
            ),
    {
        proof {
            reveal_strlit("\"");
            assert("\""@ =~= seq!['"']);
        }
        let mut instance = "\"".to_owned();
        instance.append(self.jool_instance.as_str());
        instance.append("\"");
        let flag = match protocol {
            ServiceProtocol::TCP => "--tcp",
            ServiceProtocol::UDP => "--udp",
        };
        let mut args: Vec<String> = Vec::new();
        args.push("-i".to_owned());
        args.push(instance);
        args.push("bib".to_owned());
        args.push(action.to_owned());
        args.push(bound_address(target.ip.to_text(), target.port));
        args.push(bound_address(self.public_ip.to_text(), port));
        args.push(flag.to_owned());
        let cmd = jool_command(args);
        assert(cmd.arg_texts() =~= bib_args(
            self.instance(),
            action@,
            self.public_ip(),
            port,
            target.ip@,
            target.port,
            protocol,
        ));
        cmd
    }

    /// The command line that adds the static binding of `target` to the public
    /// address and `port`.
    pub fn construct_add_command(
        &self,
        port: u16,
        target: SocketAddressV6,
        protocol: ServiceProtocol,
    ) -> (cmd: JoolCommand)
        ensures
            cmd.program@ == "jool"@,
            cmd.arg_texts() == bib_args(
                self.instance(),
                "add"@,
                self.public_ip(),
                port,
                target.ip@,
                target.port,
                protocol,
            ),
    {
        self.bib_command("add", port, target, protocol)
    }

    /// The command line that removes the static binding of `target` to the
    /// public address and `port`.
    pub fn construct_remove_command(
        &self,
        port: u16,
        target: SocketAddressV6,
        protocol: ServiceProtocol,
    ) -> (cmd: JoolCommand)
        ensures
            cmd.program@ == "jool"@,
            cmd.arg_texts() == bib_args(
                self.instance(),
                "remove"@,
                self.public_ip(),
                port,
                target.ip@,
                target.port,
                protocol,
            ),
    {
        self.bib_command("remove", port, target, protocol)
    }

    /// The command lines that set the instance up, in the order they are run.
    pub fn startup_commands(&self) -> (cmds: Vec<JoolCommand>)
        ensures
            cmds.len() == 4,
            forall|i: int| 0 <= i < 4 ==> (#[trigger] cmds@[i]).program@ == "jool"@,
            forall|i: int|
                0 <= i < 4 ==> (#[trigger] cmds@[i]).arg_texts() == startup_args(
                    self.instance(),
                    self.pool6(),
                    self.public_ip(),
                )[i],
            cmds@[0].arg_texts() == seq!["instance"@, "remove"@, self.instance()],
            cmds@[1].arg_texts() == seq![
                "instance"@,
                "add"@,
                self.instance(),
                "--netfilter"@,
                "--pool6"@,
                self.pool6(),
            ],
            cmds@[2].arg_texts()[1] == self.instance(),
            cmds@[2].arg_texts()[5] == ipv4_text(self.public_ip()),
            cmds@[3].arg_texts()[1] == self.instance(),
            cmds@[3].arg_texts()[5] == ipv4_text(self.public_ip()),
    {
        proof {
            lemma_startup_uses_configuration(self.instance(), self.pool6(), self.public_ip());
        }
        let name = &self.jool_instance;
        let public = self.public_ip.to_text();
        let mut remove: Vec<String> = Vec::new();
        remove.push("instance".to_owned());
        remove.push("remove".to_owned());
        remove.push(name.clone());
        let mut add: Vec<String> = Vec::new();
        add.push("instance".to_owned());
        add.push("add".to_owned());
        add.push(name.clone());
        add.push("--netfilter".to_owned());
        add.push("--pool6".to_owned());
        add.push(self.pool6_subnet.clone());
        let mut udp: Vec<String> = Vec::new();
        udp.push("-i".to_owned());
        udp.push(name.clone());
        udp.push("pool4".to_owned());
        udp.push("add".to_owned());
        udp.push("--udp".to_owned());
        udp.push(public.clone());
        udp.push("1-65535".to_owned());
        let mut tcp: Vec<String> = Vec::new();
        tcp.push("-i".to_owned());
        tcp.push(name.clone());
        tcp.push("pool4".to_owned());
        tcp.push("add".to_owned());
        tcp.push("--tcp".to_owned());
        tcp.push(public);
        tcp.push("1-65535".to_owned());
        let mut cmds: Vec<JoolCommand> = Vec::new();
        cmds.push(jool_command(remove));
        cmds.push(jool_command(add));
        cmds.push(jool_command(udp));
        cmds.push(jool_command(tcp));
        let ghost expected = startup_args(self.instance(), self.pool6(), self.public_ip());
        assert(cmds@[0].arg_texts() =~= expected[0]);
        assert(cmds@[1].arg_texts() =~= expected[1]);
        assert(cmds@[2].arg_texts() =~= expected[2]);
        assert(cmds@[3].arg_texts() =~= expected[3]);
        cmds
    }

    /// The command lines that add and then remove the binding for `service`,
    /// whose target must be an IPv6 address.
    pub fn forwarding_commands(&self, service: &ExposedService) -> (cmds: (JoolCommand, JoolCommand))
        requires
            service.target_addr.ip is V6,
        ensures
            cmds.0.program@ == "jool"@,
            cmds.1.program@ == "jool"@,
            cmds.0.arg_texts() == bib_args(
                self.instance(),
                "add"@,
                self.public_ip(),
                service.public_port,
                service.target_addr.ip->V6_0@,
                service.target_addr.port,
                service.protocol,
            ),
            cmds.1.arg_texts() == bib_args(
                self.instance(),
                "remove"@,
                self.public_ip(),
                service.public_port,
                service.target_addr.ip->V6_0@,
                service.target_addr.port,
                service.protocol,
            ),
    {
        let ip = match service.target_addr.ip {
            IpAddress::V6(ip) => ip,
            IpAddress::V4(_) => {
                assert(false);
                Ipv6Address::from_segments([0, 0, 0, 0, 0, 0, 0, 0])
            },
        };
        let target = SocketAddressV6 { ip, port: service.target_addr.port };
        let add = self.construct_add_command(service.public_port, target, service.protocol);
        let remove = self.construct_remove_command(service.public_port, target, service.protocol);
        (add, remove)
    }
}

} // verus!
