use vstd::prelude::*;

verus! {

/// The `route` invocations that send all traffic through the tunnel device
/// `tun`, except traffic to the server, which keeps going through `gateway`:
/// a host route to the server, then the two halves of the address space.
pub open spec fn setup_commands(server_ip: Seq<char>, tun: Seq<char>, gateway: Seq<char>) -> Seq<
    Seq<Seq<char>>,
> {
    seq![
        seq!["add"@, "-host"@, server_ip, gateway],
        seq!["add"@, "-net"@, "0.0.0.0/1"@, "-interface"@, tun],
        seq!["add"@, "-net"@, "128.0.0.0/1"@, "-interface"@, tun],
    ]
}

/// The `route` invocations that remove what `setup_commands` added.
pub open spec fn cleanup_commands(server_ip: Seq<char>, tun: Seq<char>) -> Seq<Seq<Seq<char>>> {
    seq![
        seq!["delete"@, "-host"@, server_ip],
        seq!["delete"@, "-net"@, "0.0.0.0/1"@, "-interface"@, tun],
        seq!["delete"@, "-net"@, "128.0.0.0/1"@, "-interface"@, tun],
    ]
}

/// What is needed to remove the routes again: the device and the server.
pub struct RoutesGuard {
    tun: String,
    server_ip: String,
}

impl RoutesGuard {
    /// The tunnel device the routes point to.
    pub closed spec fn tun_name(&self) -> Seq<char> {
        self.tun@
    }

    /// The server the host route is for.
    pub closed spec fn server(&self) -> Seq<char> {
        self.server_ip@
    }

    /// The `route` invocations that remove the routes.
    pub fn cleanup_commands(&self) -> (commands: Vec<Vec<String>>)
        ensures
            commands.deep_view() == cleanup_commands(self.server(), self.tun_name()),
    {
        cleanup_vpn_routes(self.server_ip.as_str(), self.tun.as_str())
    }
}

/// The routes to add, and what removes them again.
pub struct RouteSetup {
    pub commands: Vec<Vec<String>>,
    pub guard: RoutesGuard,
}

/// The `route` invocations that route everything through `tun` but the
/// server, which stays reachable through `default_gw`.
pub fn setup_vpn_routes(server_ip: &str, tun: &str, default_gw: &str) -> (setup: RouteSetup)
    ensures
        setup.commands.deep_view() == setup_commands(server_ip@, tun@, default_gw@),
        setup.guard.server() == server_ip@,
        setup.guard.tun_name() == tun@,
{
    let commands = vec![
        vec!["add".to_owned(), "-host".to_owned(), server_ip.to_owned(), default_gw.to_owned()],
        vec![
            "add".to_owned(),
            "-net".to_owned(),
            "0.0.0.0/1".to_owned(),
            "-interface".to_owned(),
            tun.to_owned(),
        ],
        vec![
            "add".to_owned(),
            "-net".to_owned(),
            "128.0.0.0/1".to_owned(),
            "-interface".to_owned(),
            tun.to_owned(),
        ],
    ];
    assert(commands.deep_view() =~~= setup_commands(server_ip@, tun@, default_gw@));
    RouteSetup { commands, guard: RoutesGuard { tun: tun.to_owned(), server_ip: server_ip.to_owned() } }
}

/// The `route` invocations that remove the routes to the server and through `tun`.
pub fn cleanup_vpn_routes(server_ip: &str, tun: &str) -> (commands: Vec<Vec<String>>)
    ensures
        commands.deep_view() == cleanup_commands(server_ip@, tun@),
{
    let commands = vec![
        vec!["delete".to_owned(), "-host".to_owned(), server_ip.to_owned()],
        vec![
            "delete".to_owned(),
            "-net".to_owned(),
            "0.0.0.0/1".to_owned(),
            "-interface".to_owned(),
            tun.to_owned(),
        ],
        vec![
            "delete".to_owned(),
            "-net".to_owned(),
            "128.0.0.0/1".to_owned(),
            "-interface".to_owned(),
            tun.to_owned(),
        ],
    ];
    assert(commands.deep_view() =~~= cleanup_commands(server_ip@, tun@));
    commands
}

/// Cleaning up undoes the setup: for each route added there is one deletion,
/// in the same order, naming the same destination (the host route's gateway
/// aside) through the same device.
pub proof fn lemma_cleanup_undoes_setup(server_ip: Seq<char>, tun: Seq<char>, gateway: Seq<char>)
    ensures
        setup_commands(server_ip, tun, gateway).len() == cleanup_commands(server_ip, tun).len(),
        forall|i: int|
            0 <= i < cleanup_commands(server_ip, tun).len() ==> {
                &&& #[trigger] setup_commands(server_ip, tun, gateway)[i][0] == "add"@
                &&& cleanup_commands(server_ip, tun)[i][0] == "delete"@
                &&& cleanup_commands(server_ip, tun)[i].skip(1).is_prefix_of(
                    setup_commands(server_ip, tun, gateway)[i].skip(1),
                )
            },
{
    let s = setup_commands(server_ip, tun, gateway);
    let c = cleanup_commands(server_ip, tun);
    assert(c[0].skip(1) =~= s[0].skip(1).take(2));
    assert(c[1].skip(1) =~= s[1].skip(1));
    assert(c[2].skip(1) =~= s[2].skip(1));
}

} // verus!
