//! Network interfaces, and finding the pool server.

use crate::order;
use crate::pool_server;
use crate::text;
use vstd::prelude::*;
use vstd::string::StringExecFns;

verus! {

// ---- Interfaces --------------------------------------------------------------------------

/// The kind of a network interface.
#[derive(Debug, Clone, Copy, PartialEq, Eq, Structural)]
pub enum IfaceKind {
    Ethernet,
    Wifi,
    Other,
}

impl IfaceKind {
    /// The name of the kind, filled up to the width of the longest.
    pub fn label(&self) -> (s: &'static str)
        ensures
            s@ == (match *self {
                IfaceKind::Ethernet => "Ethernet"@,
                IfaceKind::Wifi => "Wi-Fi   "@,
                IfaceKind::Other => "Other   "@,
            }),
    {
        match *self {
            IfaceKind::Ethernet => "Ethernet",
            IfaceKind::Wifi => "Wi-Fi   ",
            IfaceKind::Other => "Other   ",
        }
    }

    /// The place of the kind in a list of interfaces.
    pub open spec fn rank(self) -> u64 {
        match self {
            IfaceKind::Ethernet => 0,
            IfaceKind::Wifi => 1,
            IfaceKind::Other => 2,
        }
    }
}

/// The kind that the name of an interface speaks of.
pub open spec fn kind_of(name: Seq<char>) -> IfaceKind {
    let lower = text::lowercase(name);
    if text::occurs(lower, "wi-fi"@) || text::occurs(lower, "wifi"@) || text::occurs(lower, "wlan"@)
        || text::occurs(lower, "wireless"@) {
        IfaceKind::Wifi
    } else if text::occurs(lower, "ethernet"@) || text::occurs(lower, "eth"@) || text::occurs(
        lower,
        "local area"@,
    ) {
        IfaceKind::Ethernet
    } else {
        IfaceKind::Other
    }
}

/// Tells the kind of an interface by its name.
pub fn classify(name: &str) -> (kind: IfaceKind)
    ensures
        kind == kind_of(name@),
{
    let lower = name.to_lowercase();
    let l = lower.as_str();
    if text::contains_text(l, "wi-fi") || text::contains_text(l, "wifi") || text::contains_text(
        l,
        "wlan",
    ) || text::contains_text(l, "wireless") {
        IfaceKind::Wifi
    } else if text::contains_text(l, "ethernet") || text::contains_text(l, "eth")
        || text::contains_text(l, "local area") {
        IfaceKind::Ethernet
    } else {
        IfaceKind::Other
    }
}

/// An interface as the system reports it.
pub struct RawIface {
    pub name: String,
    pub loopback: bool,
    /// Its address, if that is of version four.
    pub ipv4: Option<String>,
}

/// An interface of this machine.
#[derive(Debug, Clone)]
pub struct Iface {
    pub name: String,
    pub ip: String,
    pub kind: IfaceKind,
}

/// What is known of an interface.
#[verifier::ext_equal]
pub struct IfaceView {
    pub name: Seq<char>,
    pub ip: Seq<char>,
    pub kind: IfaceKind,
}

impl View for Iface {
    type V = IfaceView;

    open spec fn view(&self) -> IfaceView {
        IfaceView { name: self.name@, ip: self.ip@, kind: self.kind }
    }
}

/// The interfaces that can be used, in the order in which the system reports them: those with an
/// address of version four that are no loopback.
pub open spec fn usable(raw: Seq<RawIface>) -> Seq<IfaceView>
    decreases raw.len(),
{
    if raw.len() == 0 {
        seq![]
    } else {
        let rest = usable(raw.drop_last());
        match raw.last().ipv4 {
            Some(ip) => if raw.last().loopback {
                rest
            } else {
                rest.push(
                    IfaceView {
                        name: raw.last().name@,
                        ip: ip@,
                        kind: kind_of(raw.last().name@),
                    },
                )
            },
            None => rest,
        }
    }
}

/// The ranks by which interfaces are listed.
pub open spec fn ranks(ifaces: Seq<IfaceView>) -> Seq<u64> {
    ifaces.map_values(|i: IfaceView| i.kind.rank())
}

/// Whether a list holds some interfaces, Ethernet first, then Wi-Fi, then the others, and those
/// of one kind in the order in which they came.
pub open spec fn listed(ifaces: Seq<IfaceView>, list: Seq<IfaceView>) -> bool {
    exists|places: Seq<usize>|
        {
            &&& #[trigger] order::sorted_places(ranks(ifaces), places)
            &&& list == places.map_values(|p: usize| ifaces[p as int])
        }
}

/// Lists the interfaces of this machine that can be used.
pub fn list_interfaces(raw: &Vec<RawIface>) -> (list: Vec<Iface>)
    ensures
        listed(usable(raw@), list@.map_values(|i: Iface| i@)),
{
    let mut found: Vec<Iface> = Vec::new();
    let mut kinds: Vec<u64> = Vec::new();
    let mut n: usize = 0;
    assert(raw@.take(0) =~= seq![]);
    assert(found@.map_values(|i: Iface| i@) =~= seq![]);
    assert(ranks(usable(raw@.take(0))) =~= seq![]);
    while n < raw.len()
        invariant
            n <= raw@.len(),
            found@.map_values(|i: Iface| i@) == usable(raw@.take(n as int)),
            kinds@ == ranks(usable(raw@.take(n as int))),
        decreases raw@.len() - n,
    {
        let ghost so_far = usable(raw@.take(n as int));
        assert(raw@.take(n + 1).drop_last() =~= raw@.take(n as int));
        assert(raw@.take(n + 1).last() == raw@[n as int]);
        let r = &raw[n];
        if !r.loopback {
            match &r.ipv4 {
                Some(ip) => {
                    let kind = classify(r.name.as_str());
                    let rank: u64 = match kind {
                        IfaceKind::Ethernet => 0,
                        IfaceKind::Wifi => 1,
                        IfaceKind::Other => 2,
                    };
                    let iface = Iface { name: r.name.clone(), ip: ip.clone(), kind };
                    let ghost view = iface@;
                    found.push(iface);
                    kinds.push(rank);
                    assert(found@.map_values(|i: Iface| i@) =~= so_far.push(view));
                    assert(kinds@ =~= ranks(so_far.push(view)));
                },
                None => {},
            }
        }
        n = n + 1;
    }
    assert(raw@.take(n as int) =~= raw@);
    let places = order::places_by_rank(&kinds);
    let mut list: Vec<Iface> = Vec::new();
    let mut i: usize = 0;
    while i < places.len()
        invariant
            i <= places@.len(),
            list@.len() == i,
            found@.map_values(|i: Iface| i@) == usable(raw@),
            order::sorted_places(ranks(usable(raw@)), places@),
            forall|j: int|
                0 <= j < i ==> (#[trigger] list@[j])@ == usable(raw@)[places@[j] as int],
        decreases places@.len() - i,
    {
        assert(places@[i as int] < ranks(usable(raw@)).len());
        let f = &found[places[i]];
        assert(found@.map_values(|i: Iface| i@)[places@[i as int] as int] == f@);
        list.push(Iface { name: f.name.clone(), ip: f.ip.clone(), kind: f.kind });
        i = i + 1;
    }
    assert(list@.map_values(|i: Iface| i@) =~= places@.map_values(
        |p: usize| usable(raw@)[p as int],
    ));
    list
}

/// In a list of interfaces no kind stands before one of a lower rank.
pub proof fn law_ethernet_first(ifaces: Seq<IfaceView>, list: Seq<IfaceView>, i: int, j: int)
    requires
        listed(ifaces, list),
        0 <= i < j < list.len(),
    ensures
        list[i].kind.rank() <= list[j].kind.rank(),
{
    let places = choose|places: Seq<usize>|
        {
            &&& #[trigger] order::sorted_places(ranks(ifaces), places)
            &&& list == places.map_values(|p: usize| ifaces[p as int])
        };
    assert(order::comes_before(ranks(ifaces), places[i], places[j]));
    assert(ranks(ifaces)[places[i] as int] == list[i].kind.rank());
    assert(ranks(ifaces)[places[j] as int] == list[j].kind.rank());
}

/// Every interface that can be used is listed.
pub proof fn law_no_interface_is_lost(ifaces: Seq<IfaceView>, list: Seq<IfaceView>, k: int)
    requires
        listed(ifaces, list),
        ifaces.len() <= usize::MAX,
        0 <= k < ifaces.len(),
    ensures
        list.len() == ifaces.len(),
        list.contains(ifaces[k]),
{
    let places = choose|places: Seq<usize>|
        {
            &&& #[trigger] order::sorted_places(ranks(ifaces), places)
            &&& list == places.map_values(|p: usize| ifaces[p as int])
        };
    order::law_sorting_keeps_all(ranks(ifaces), places, k as usize);
    let i = choose|i: int| 0 <= i < places.len() && places[i] == k as usize;
    assert(list[i] == ifaces[k]);
}

/// What the answer to the list of interfaces asks for.
#[derive(Debug, Clone, Copy, PartialEq, Eq, Structural)]
pub enum HostChoice {
    /// An address typed by hand.
    Manual,
    /// The interface at a place of the list.
    Pick(usize),
    /// Nothing that can be understood.
    Invalid,
}

/// What an answer to a list of `count` interfaces asks for.
pub open spec fn host_choice(answer: Seq<char>, count: nat) -> HostChoice {
    let choice = text::normalized(answer);
    if choice == "m"@ {
        HostChoice::Manual
    } else {
        match text::parsed_number(choice) {
            Some(n) => if 1 <= n <= count {
                HostChoice::Pick((n - 1) as usize)
            } else {
                HostChoice::Invalid
            },
            None => HostChoice::Invalid,
        }
    }
}

/// Reads an answer to a list of `count` interfaces.
pub fn read_host_choice(answer: &str, count: usize) -> (choice: HostChoice)
    ensures
        choice == host_choice(answer@, count as nat),
{
    let choice = text::normalize(answer);
    if text::same_text(choice.as_str(), "m") {
        return HostChoice::Manual;
    }
    match text::parse_usize(choice.as_str()) {
        Some(n) => if n >= 1 && n <= count {
            HostChoice::Pick(n - 1)
        } else {
            HostChoice::Invalid
        },
        None => HostChoice::Invalid,
    }
}

/// What was typed, without the white space around it, or a default where that is nothing.
pub open spec fn typed_or(answer: Seq<char>, default: Seq<char>) -> Seq<char> {
    if text::trimmed(answer).len() == 0 {
        default
    } else {
        text::trimmed(answer)
    }
}

/// What was typed, or a default where nothing was.
pub fn typed_or_default(answer: &str, default: &str) -> (s: String)
    ensures
        s@ == typed_or(answer@, default@),
{
    let t = text::trim(answer);
    if t.is_empty() { default.to_owned() } else { t.to_owned() }
}

// ---- Looking for the server ----------------------------------------------------------------

/// The address that an answer of a pool server gives.
pub open spec fn replied_address(reply: Seq<char>) -> Option<Seq<char>> {
    match text::after_prefix(reply, pool_server::DISCOVERY_PONG@ + "|"@) {
        Some(addr) => Some(text::trimmed(addr)),
        None => None,
    }
}

/// Reads the answer of a pool server.
pub fn read_discovery_reply(reply: &str) -> (addr: Option<String>)
    ensures
        match addr {
            Some(a) => replied_address(reply@) == Some(a@),
            None => replied_address(reply@) is None,
        },
{
    let mut prefix = pool_server::DISCOVERY_PONG.to_owned();
    prefix.append("|");
    match text::strip_prefix_text(reply, prefix.as_str()) {
        Some(addr) => Some(text::trim(addr).to_owned()),
        None => None,
    }
}

/// Those who look for the server read the address that it answers with.
pub proof fn law_discovery_finds_the_server(ip: Seq<char>)
    ensures
        replied_address(pool_server::discovery_reply(ip)) == Some(
            text::trimmed(ip + ":"@ + text::decimal(pool_server::POOL_PORT as nat)),
        ),
{
    let prefix = pool_server::DISCOVERY_PONG@ + "|"@;
    let reply = pool_server::discovery_reply(ip);
    assert(reply.subrange(0, prefix.len() as int) =~= prefix);
    assert(reply.skip(prefix.len() as int) =~= ip + ":"@ + text::decimal(
        pool_server::POOL_PORT as nat,
    ));
}

/// Whether an answer agrees to connect to the server that was found.
pub open spec fn agreement(answer: Seq<char>) -> bool {
    let a = text::normalized(answer);
    a.len() == 0 || a == "y"@ || a == "yes"@
}

/// Whether an answer agrees to connect to the server that was found.
pub fn agrees(answer: &str) -> (yes: bool)
    ensures
        yes == ({
            let a = text::normalized(answer@);
            a.len() == 0 || a == "y"@ || a == "yes"@
        }),
        yes == agreement(answer@),
{
    let a = text::normalize(answer);
    a.as_str().is_empty() || text::same_text(a.as_str(), "y") || text::same_text(a.as_str(), "yes")
}

/// A host and a port.
pub open spec fn host_and_port(host: Seq<char>, port: nat) -> Seq<char> {
    host + ":"@ + text::decimal(port)
}

/// A host and a port.
pub fn host_and_port_text(host: &str, port: u16) -> (s: String)
    ensures
        s@ == host_and_port(host@, port as nat),
{
    let mut s = host.to_owned();
    s.append(":");
    s.append(text::u64_text(port as u64).as_str());
    s
}

/// The address of the dashboard on the machine that an address names.
pub open spec fn dashboard_of(addr: Seq<char>) -> Seq<char> {
    host_and_port(text::before(addr, ':'), pool_server::DASHBOARD_PORT as nat)
}

/// The address of the dashboard on the machine that an address names.
pub fn dashboard_address(addr: &str) -> (s: String)
    ensures
        s@ == dashboard_of(addr@),
{
    host_and_port_text(text::before_char(addr, ':'), pool_server::DASHBOARD_PORT)
}

/// How many machines are tried on each of the usual local networks.
pub const HOSTS: usize = 254;

/// How many machines are tried in all.
pub const CANDIDATES: usize = 1016;

/// The usual local networks.
pub open spec fn subnet(i: int) -> Seq<char> {
    if i == 0 {
        "192.168.1"@
    } else if i == 1 {
        "192.168.0"@
    } else if i == 2 {
        "10.0.0"@
    } else {
        "10.0.1"@
    }
}

/// The addresses that are tried in turn when the server is looked for by hand: machines 1 to 254
/// of each of the usual local networks.
pub open spec fn candidate(k: int, port: nat) -> Seq<char> {
    host_and_port(subnet(k / 254) + "."@ + text::decimal((k % 254 + 1) as nat), port)
}

/// One of the addresses that are tried.
pub fn candidate_text(k: usize, port: u16) -> (addr: String)
    requires
        k < CANDIDATES,
    ensures
        addr@ == candidate(k as int, port as nat),
{
    let net: usize = k / HOSTS;
    let mut host = if net == 0 {
        "192.168.1".to_owned()
    } else if net == 1 {
        "192.168.0".to_owned()
    } else if net == 2 {
        "10.0.0".to_owned()
    } else {
        "10.0.1".to_owned()
    };
    host.append(".");
    host.append(text::u64_text((k % HOSTS + 1) as u64).as_str());
    host_and_port_text(host.as_str(), port)
}

/// Every machine of every one of the usual local networks is tried.
pub proof fn law_scan_reaches_every_host(net: int, host: int, port: nat) -> (k: int)
    requires
        0 <= net < 4,
        1 <= host <= 254,
    ensures
        0 <= k < CANDIDATES,
        candidate(k, port) == host_and_port(subnet(net) + "."@ + text::decimal(host as nat), port),
{
    let k = net * 254 + (host - 1);
    assert(k / 254 == net && k % 254 == host - 1);
    k
}

/// The next address to try, or nothing once all have been tried.
pub fn next_candidate(k: usize, port: u16) -> (addr: Option<String>)
    ensures
        match addr {
            Some(a) => k < CANDIDATES && a@ == candidate(k as int, port as nat),
            None => k >= CANDIDATES,
        },
{
    if k < CANDIDATES { Some(candidate_text(k, port)) } else { None }
}

// ---- What addresses promise ----------------------------------------------------------------

proof fn lemma_ports()
    ensures
        text::decimal(2700) == "2700"@,
        text::decimal(8080) == "8080"@,
{
    reveal_with_fuel(text::decimal, 5);
    reveal_strlit("2700");
    reveal_strlit("8080");
    assert(text::decimal(2700) =~= "2700"@);
    assert(text::decimal(8080) =~= "8080"@);
}

/// The dashboard of a machine is at port 2700 of the host that stands before the colon of its
/// address.
pub proof fn law_dashboard_is_on_the_machine(addr: Seq<char>)
    ensures
        dashboard_of(addr) == text::before(addr, ':') + ":2700"@,
{
    lemma_ports();
    reveal_strlit(":");
    reveal_strlit("2700");
    reveal_strlit(":2700");
    assert(dashboard_of(addr) =~= text::before(addr, ':') + ":2700"@);
}

/// A host and a port come apart again at the last colon: before it stands the host, and behind it
/// digits that read as the port.
pub proof fn law_host_and_port_come_apart(host: Seq<char>, port: nat)
    ensures
        ({
            let s = host_and_port(host, port);
            let n = host.len() as int;
            &&& s.len() > n + 1
            &&& s.take(n) == host
            &&& s[n] == ':'
            &&& s.skip(n + 1) == text::decimal(port)
            &&& text::digits_value(s.skip(n + 1)) == port
        }),
{
    reveal_strlit(":");
    let s = host_and_port(host, port);
    text::law_decimal_reads_back(port);
    text::law_decimal_length(port);
    assert(s.take(host.len() as int) =~= host);
    assert(s.skip(host.len() + 1int) =~= text::decimal(port));
}

/// The machines that are tried are those numbered 1 to 254 of 192.168.1, then of 192.168.0, of
/// 10.0.0 and of 10.0.1, in this order.
pub proof fn law_machines_are_tried_in_order(k: int, port: nat)
    requires
        0 <= k < 1016,
    ensures
        ({
            let machine = text::decimal((k % 254 + 1) as nat) + ":"@ + text::decimal(port);
            &&& k < 254 ==> candidate(k, port) == "192.168.1."@ + machine
            &&& 254 <= k < 508 ==> candidate(k, port) == "192.168.0."@ + machine
            &&& 508 <= k < 762 ==> candidate(k, port) == "10.0.0."@ + machine
            &&& 762 <= k ==> candidate(k, port) == "10.0.1."@ + machine
        }),
        1 <= k % 254 + 1 <= 254,
        CANDIDATES == 1016,
{
    reveal_strlit("192.168.1");
    reveal_strlit("192.168.0");
    reveal_strlit("10.0.0");
    reveal_strlit("10.0.1");
    reveal_strlit("192.168.1.");
    reveal_strlit("192.168.0.");
    reveal_strlit("10.0.0.");
    reveal_strlit("10.0.1.");
    reveal_strlit(".");
    let machine = text::decimal((k % 254 + 1) as nat) + ":"@ + text::decimal(port);
    assert("192.168.1"@ + "."@ =~= "192.168.1."@);
    assert("192.168.0"@ + "."@ =~= "192.168.0."@);
    assert("10.0.0"@ + "."@ =~= "10.0.0."@);
    assert("10.0.1"@ + "."@ =~= "10.0.1."@);
    let head = subnet(k / 254) + "."@;
    assert(candidate(k, port) =~= head + machine);
}

/// The answer of a pool server names its address at port 8080, and the address is read off it; what
/// does not begin as such an answer gives none.
pub proof fn law_discovery_speaks_of_the_pool(ip: Seq<char>, reply: Seq<char>)
    ensures
        pool_server::discovery_reply(ip) == "CRYPTOCRAFT_POOL_V1|"@ + ip + ":8080"@,
        replied_address("CRYPTOCRAFT_POOL_V1|"@ + reply) == Some(text::trimmed(reply)),
        !text::begins(reply, "CRYPTOCRAFT_POOL_V1|"@) ==> replied_address(reply) is None,
        pool_server::DISCOVERY_PING@ == "CRYPTOCRAFT_DISCOVER_V1"@,
{
    lemma_ports();
    reveal_strlit("CRYPTOCRAFT_POOL_V1");
    reveal_strlit("CRYPTOCRAFT_POOL_V1|");
    reveal_strlit("|");
    reveal_strlit(":");
    reveal_strlit("8080");
    reveal_strlit(":8080");
    let prefix = pool_server::DISCOVERY_PONG@ + "|"@;
    assert(prefix =~= "CRYPTOCRAFT_POOL_V1|"@);
    assert(pool_server::discovery_reply(ip) =~= "CRYPTOCRAFT_POOL_V1|"@ + ip + ":8080"@);
    text::law_prefix_comes_off(prefix, reply);
}

/// The kind of an interface goes by its name in lower case: one of four words makes it wireless;
/// else one of two makes it wired (a name with "ethernet" in it has "eth" in it); else it is neither.
pub proof fn law_names_tell_the_kind(name: Seq<char>)
    ensures
        ({
            let l = text::lowercase(name);
            let wireless = text::occurs(l, "wi-fi"@) || text::occurs(l, "wifi"@) || text::occurs(
                l,
                "wlan"@,
            ) || text::occurs(l, "wireless"@);
            let wired = text::occurs(l, "eth"@) || text::occurs(l, "local area"@);
            &&& kind_of(name) == IfaceKind::Wifi <==> wireless
            &&& kind_of(name) == IfaceKind::Ethernet <==> !wireless && wired
            &&& kind_of(name) == IfaceKind::Other <==> !wireless && !wired
        }),
{
    let l = text::lowercase(name);
    if text::occurs(l, "ethernet"@) {
        reveal_strlit("ethernet");
        reveal_strlit("eth");
        let i = choose|i: int| text::occurs_at(l, "ethernet"@, i);
        let e = l.subrange(i, i + "ethernet"@.len());
        assert(l.subrange(i, i + 3) =~= e.subrange(0, 3));
        assert(e.subrange(0, 3) =~= "eth"@);
        assert(text::occurs_at(l, "eth"@, i));
    }
}

/// The interfaces that can be used follow those that the system reports one by one: one that is no
/// loopback and has an address of version four comes last, under its own name and address; any other
/// is left out.
pub proof fn law_usable_follows_the_report(raw: Seq<RawIface>, r: RawIface)
    ensures
        usable(seq![]) == Seq::<IfaceView>::empty(),
        r.loopback || r.ipv4 is None ==> usable(raw.push(r)) == usable(raw),
        !r.loopback && r.ipv4 is Some ==> usable(raw.push(r)) == usable(raw).push(
            IfaceView { name: r.name@, ip: r.ipv4->0@, kind: kind_of(r.name@) },
        ),
{
    assert(raw.push(r).drop_last() =~= raw);
}

/// Wired interfaces are listed before wireless ones, and those before all others; interfaces of one
/// kind stay in their order.
pub proof fn law_list_goes_by_kind(ifaces: Seq<IfaceView>, list: Seq<IfaceView>, i: int, j: int)
    requires
        listed(ifaces, list),
        0 <= i < j < list.len(),
    ensures
        list[j].kind == IfaceKind::Ethernet ==> list[i].kind == IfaceKind::Ethernet,
        list[i].kind == IfaceKind::Other ==> list[j].kind == IfaceKind::Other,
        exists|a: int, b: int|
            0 <= a < ifaces.len() && 0 <= b < ifaces.len() && list[i] == #[trigger] ifaces[a]
                && list[j] == #[trigger] ifaces[b] && (list[i].kind == list[j].kind ==> a < b),
{
    law_ethernet_first(ifaces, list, i, j);
    let places = choose|places: Seq<usize>|
        {
            &&& #[trigger] order::sorted_places(ranks(ifaces), places)
            &&& list == places.map_values(|p: usize| ifaces[p as int])
        };
    let (a, b) = (places[i] as int, places[j] as int);
    assert(order::comes_before(ranks(ifaces), places[i], places[j]));
    assert(ranks(ifaces)[a] == list[i].kind.rank());
    assert(ranks(ifaces)[b] == list[j].kind.rank());
    assert(list[i] == ifaces[a] && list[j] == ifaces[b]);
}

/// A number from one to the length of the list picks the interface at that place, counted from
/// zero, and only that; a letter asks for an address by hand.
pub proof fn law_choices_are_read(n: nat, count: nat, answer: Seq<char>)
    requires
        count <= usize::MAX,
    ensures
        text::normalized(answer) == text::decimal(n) && 1 <= n <= count ==> host_choice(
            answer,
            count,
        ) == HostChoice::Pick((n - 1) as usize),
        text::normalized(answer) == text::decimal(n) && (n == 0 || n > count) ==> host_choice(
            answer,
            count,
        ) == HostChoice::Invalid,
        text::normalized(answer) == "m"@ ==> host_choice(answer, count) == HostChoice::Manual,
        host_choice(answer, count) matches HostChoice::Pick(i) ==> i < count,
        text::normalized(answer) != "m"@ && text::parsed_number(text::normalized(answer)) is None
            ==> host_choice(answer, count) == HostChoice::Invalid,
        text::normalized(answer) != "m"@ ==> (text::parsed_number(
            text::normalized(answer),
        ) matches Some(v) ==> host_choice(answer, count) == (if 1 <= v <= count {
            HostChoice::Pick((v - 1) as usize)
        } else {
            HostChoice::Invalid
        })),
{
    reveal_strlit("m");
    text::law_decimal_reads_back(n);
    text::law_decimal_length(n);
    if text::normalized(answer) == text::decimal(n) {
        assert(text::is_digit(text::decimal(n)[0]));
        assert(text::decimal(n) != "m"@);
        if n > usize::MAX {
            text::law_only_numerals_are_read(text::decimal(n));
        }
    }
}

/// What was typed comes without the white space around it; where there is nothing else, the default
/// takes its place as it is.
pub proof fn law_typed_or_default(a: Seq<char>, t: Seq<char>, b: Seq<char>, default: Seq<char>)
    requires
        forall|i: int| 0 <= i < a.len() ==> text::white_space(#[trigger] a[i]),
        forall|i: int| 0 <= i < b.len() ==> text::white_space(#[trigger] b[i]),
        t.len() > 0 ==> !text::white_space(t[0]) && !text::white_space(t.last()),
    ensures
        typed_or(a + t + b, default) == (if t.len() > 0 {
            t
        } else {
            default
        }),
{
    text::law_trimming_takes_off_white_space(a, t, b);
}

/// An answer agrees exactly if, without the white space around it and in lower case, it is nothing,
/// a y or a yes.
pub proof fn law_yes_and_nothing_agree(a: Seq<char>, t: Seq<char>, b: Seq<char>)
    requires
        forall|i: int| 0 <= i < a.len() ==> text::white_space(#[trigger] a[i]),
        forall|i: int| 0 <= i < b.len() ==> text::white_space(#[trigger] b[i]),
        t.len() > 0 ==> !text::white_space(t[0]) && !text::white_space(t.last()),
    ensures
        agreement(a + t + b) <==> text::lowercase(t).len() == 0 || text::lowercase(t) == "y"@
            || text::lowercase(t) == "yes"@,
{
    text::law_trimming_takes_off_white_space(a, t, b);
}

} // verus!
