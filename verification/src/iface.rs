//! What the probe engine reads from the operating system's interface list.
//!
//! The list itself is gathered by the caller: one [`IfAddr`] per address that
//! the system reports, in the system's order.

use vstd::prelude::*;
use crate::net::{loopback, IpAddress};
use crate::text::{
    ascii_lower, chars_of, has_prefix, opt_text, same_chars, starts_with, str_eq, texts,
    to_ascii_lower, trim_bounds, trimmed,
};

verus! {

/// The interface is up.
pub const IFF_UP: u32 = 0x1;

/// The interface is a loopback interface.
pub const IFF_LOOPBACK: u32 = 0x8;

/// The interface is a point-to-point link.
pub const IFF_POINTOPOINT: u32 = 0x10;

/// The interface is running.
pub const IFF_RUNNING: u32 = 0x40;

/// The interface supports multicast.
pub const IFF_MULTICAST: u32 = 0x1000;

/// One entry of the system's interface address list.
#[derive(Clone, Debug)]
pub struct IfAddr {
    /// The interface's name, where the system gave one.
    pub name: Option<String>,
    /// The interface's flags.
    pub flags: u32,
    /// The address, where the entry holds an IPv4 or IPv6 address.
    pub addr: Option<IpAddress>,
}

/// A tunnel-class interface.
#[derive(Clone, Debug)]
pub struct UtunInterfaceInfo {
    pub name: String,
    pub flags: u32,
    pub has_non_loopback_addr: bool,
}

/// The tunnel-class interfaces of a host.
#[derive(Clone, Debug)]
pub struct UtunReport {
    pub present: bool,
    pub active: bool,
    pub interfaces: Vec<UtunInterfaceInfo>,
}

/// Whether a name has one of the prefixes of tunnel-class interfaces.
pub open spec fn is_tunnel_name(name: Seq<char>) -> bool {
    ||| has_prefix(name, "utun"@)
    ||| has_prefix(name, "tun"@)
    ||| has_prefix(name, "tap"@)
    ||| has_prefix(name, "wg"@)
    ||| has_prefix(name, "ppp"@)
    ||| has_prefix(name, "ipsec"@)
}

fn tunnel_prefixed(name: &[char]) -> (b: bool)
    ensures
        b == is_tunnel_name(name@),
{
    starts_with(name, "utun") || starts_with(name, "tun") || starts_with(name, "tap")
        || starts_with(name, "wg") || starts_with(name, "ppp") || starts_with(name, "ipsec")
}

/// Whether an interface name, whatever its case, names a tunnel.
pub fn is_tunnel_iface_name(name: &str) -> (b: bool)
    ensures
        b == is_tunnel_name(ascii_lower(name@)),
{
    let chars = chars_of(name);
    let lower = to_ascii_lower(chars.as_slice());
    tunnel_prefixed(lower.as_slice())
}

/// Whether an entry's address is one that is not loopback.
pub open spec fn routable(addr: Option<IpAddress>) -> bool {
    match addr {
        Some(ip) => !loopback(ip),
        None => false,
    }
}

/// Whether an entry's address is an IP address other than loopback.
pub fn has_non_loopback_addr(addr: &Option<IpAddress>) -> (b: bool)
    ensures
        b == routable(*addr),
{
    match addr {
        Some(ip) => !ip.is_loopback(),
        None => false,
    }
}

/// Whether an entry belongs to a tunnel-class interface.
pub open spec fn is_tunnel_row(row: IfAddr) -> bool {
    row.name is Some && is_tunnel_name(row.name->0@)
}

/// The names of the tunnel-class interfaces in `rows`, each once, in the
/// order in which they first appear.
pub open spec fn tunnel_names(rows: Seq<IfAddr>) -> Seq<Seq<char>>
    decreases rows.len(),
{
    if rows.len() == 0 {
        Seq::empty()
    } else {
        let prev = tunnel_names(rows.drop_last());
        let row = rows.last();
        if is_tunnel_row(row) && !prev.contains(row.name->0@) {
            prev.push(row.name->0@)
        } else {
            prev
        }
    }
}

/// The flags of the last entry of the interface `name`; 0 when there is none.
pub open spec fn last_flags(rows: Seq<IfAddr>, name: Seq<char>) -> u32
    decreases rows.len(),
{
    if rows.len() == 0 {
        0
    } else if opt_text(rows.last().name) == Some(name) {
        rows.last().flags
    } else {
        last_flags(rows.drop_last(), name)
    }
}

/// Whether some entry of the interface `name` holds an address that is not
/// loopback.
pub open spec fn any_routable(rows: Seq<IfAddr>, name: Seq<char>) -> bool
    decreases rows.len(),
{
    if rows.len() == 0 {
        false
    } else {
        any_routable(rows.drop_last(), name) || (opt_text(rows.last().name) == Some(name)
            && routable(rows.last().addr))
    }
}

/// Whether an interface is up, running, and holds an address that is not
/// loopback.
pub open spec fn is_active(info: UtunInterfaceInfo) -> bool {
    info.flags & IFF_UP != 0 && info.flags & IFF_RUNNING != 0 && info.has_non_loopback_addr
}

/// What `utun_report` says of `rows`.
pub open spec fn reports(rows: Seq<IfAddr>, report: UtunReport) -> bool {
    let names = tunnel_names(rows);
    &&& report.interfaces@.len() == names.len()
    &&& forall|k: int|
        0 <= k < names.len() ==> {
            let info = #[trigger] report.interfaces@[k];
            &&& info.name@ == names[k]
            &&& info.flags == last_flags(rows, names[k])
            &&& info.has_non_loopback_addr == any_routable(rows, names[k])
        }
    &&& report.present == (names.len() > 0)
    &&& report.active == exists|k: int|
        0 <= k < report.interfaces@.len() && is_active(#[trigger] report.interfaces@[k])
}

proof fn lemma_tunnel_names(rows: Seq<IfAddr>)
    ensures
        forall|k: int|
            0 <= k < tunnel_names(rows).len() ==> is_tunnel_name(#[trigger] tunnel_names(rows)[k]),
        forall|a: int, b: int|
            0 <= a < b < tunnel_names(rows).len() ==> tunnel_names(rows)[a] != tunnel_names(
                rows,
            )[b],
        forall|i: int|
            0 <= i < rows.len() && is_tunnel_row(rows[i]) ==> tunnel_names(rows).contains(
                #[trigger] rows[i].name->0@,
            ),
    decreases rows.len(),
{
    if rows.len() > 0 {
        let front = rows.drop_last();
        lemma_tunnel_names(front);
        let prev = tunnel_names(front);
        let row = rows.last();
        let names = tunnel_names(rows);
        assert forall|i: int| 0 <= i < rows.len() && is_tunnel_row(rows[i]) implies names.contains(
            #[trigger] rows[i].name->0@,
        ) by {
            if i < front.len() {
                assert(rows[i] == front[i]);
                let n = front[i].name->0@;
                assert(prev.contains(n));
                let k = choose|k: int| 0 <= k < prev.len() && prev[k] == n;
                assert(names[k] == n);
            } else {
                let n = row.name->0@;
                if prev.contains(n) {
                    let k = choose|k: int| 0 <= k < prev.len() && prev[k] == n;
                    assert(names[k] == n);
                } else {
                    assert(names[prev.len() as int] == n);
                }
            }
        }
    }
}

proof fn lemma_absent_name(rows: Seq<IfAddr>, name: Seq<char>)
    requires
        is_tunnel_name(name),
        !tunnel_names(rows).contains(name),
    ensures
        !any_routable(rows, name),
        forall|i: int| 0 <= i < rows.len() ==> opt_text(#[trigger] rows[i].name) != Some(name),
    decreases rows.len(),
{
    if rows.len() > 0 {
        let front = rows.drop_last();
        let prev = tunnel_names(front);
        let row = rows.last();
        if prev.contains(name) {
            let k = choose|k: int| 0 <= k < prev.len() && prev[k] == name;
            assert(tunnel_names(rows)[k] == name);
        }
        lemma_absent_name(front, name);
        if opt_text(row.name) == Some(name) {
            assert(is_tunnel_row(row));
            assert(tunnel_names(rows) == prev.push(name));
            assert(tunnel_names(rows)[prev.len() as int] == name);
        }
        assert forall|i: int| 0 <= i < rows.len() implies opt_text(#[trigger] rows[i].name)
            != Some(name) by {
            if i < front.len() {
                assert(rows[i] == front[i]);
            }
        }
    }
}

/// Index of the interface named `name`, if it is listed.
fn find_interface(interfaces: &Vec<UtunInterfaceInfo>, name: &String) -> (r: Option<usize>)
    ensures
        match r {
            Some(k) => k < interfaces@.len() && interfaces@[k as int].name@ == name@,
            None => forall|k: int|
                0 <= k < interfaces@.len() ==> (#[trigger] interfaces@[k]).name@ != name@,
        },
{
    let mut k: usize = 0;
    while k < interfaces.len()
        invariant
            k <= interfaces@.len(),
            forall|j: int| 0 <= j < k ==> (#[trigger] interfaces@[j]).name@ != name@,
        decreases interfaces@.len() - k,
    {
        if interfaces[k].name == *name {
            return Some(k);
        }
        k += 1;
    }
    None
}

/// Collects the tunnel-class interfaces of a host from its interface
/// address list.
///
/// An interface is listed once, with the flags of its last entry, and is said
/// to hold an address that is not loopback if one of its entries does. Tunnels
/// are present if one is listed, and active if one that is up and running
/// holds such an address.
pub fn utun_report(rows: &[IfAddr]) -> (report: UtunReport)
    ensures
        reports(rows@, report),
{
    let mut interfaces: Vec<UtunInterfaceInfo> = Vec::new();
    let mut i: usize = 0;
    while i < rows.len()
        invariant
            i <= rows@.len(),
            interfaces@.len() == tunnel_names(rows@.take(i as int)).len(),
            forall|k: int|
                0 <= k < interfaces@.len() ==> {
                    let info = #[trigger] interfaces@[k];
                    let name = tunnel_names(rows@.take(i as int))[k];
                    &&& info.name@ == name
                    &&& info.flags == last_flags(rows@.take(i as int), name)
                    &&& info.has_non_loopback_addr == any_routable(rows@.take(i as int), name)
                },
        decreases rows@.len() - i,
    {
        let row = &rows[i];
        let ghost seen = rows@.take(i as int);
        let ghost next = rows@.take(i + 1);
        let ghost prev = tunnel_names(seen);
        proof {
            assert(next.drop_last() == seen);
            assert(next.last() == rows@[i as int]);
            lemma_tunnel_names(seen);
        }
        let tunnel: bool = match &row.name {
            Some(name) => {
                let chars = chars_of(name.as_str());
                tunnel_prefixed(chars.as_slice())
            },
            None => false,
        };
        if tunnel {
            let name: &String = row.name.as_ref().unwrap();
            let non_loopback = has_non_loopback_addr(&row.addr);
            match find_interface(&interfaces, name) {
                Some(k) => {
                    let known: bool = interfaces[k].has_non_loopback_addr;
                    let ghost before = interfaces@;
                    interfaces[k] = UtunInterfaceInfo {
                        name: name.clone(),
                        flags: row.flags,
                        has_non_loopback_addr: known || non_loopback,
                    };
                    proof {
                        assert(prev[k as int] == name@);
                        assert(prev.contains(name@));
                        assert(tunnel_names(next) == prev);
                        assert forall|j: int| 0 <= j < interfaces@.len() implies {
                            let info = #[trigger] interfaces@[j];
                            let n = tunnel_names(next)[j];
                            &&& info.name@ == n
                            &&& info.flags == last_flags(next, n)
                            &&& info.has_non_loopback_addr == any_routable(next, n)
                        } by {
                            if j != k {
                                assert(interfaces@[j] == before[j]);
                                assert(prev[j] != prev[k as int]);
                            }
                        }
                    }
                },
                None => {
                    let ghost before = interfaces@;
                    interfaces.push(
                        UtunInterfaceInfo {
                            name: name.clone(),
                            flags: row.flags,
                            has_non_loopback_addr: non_loopback,
                        },
                    );
                    proof {
                        if prev.contains(name@) {
                            let k = choose|k: int| 0 <= k < prev.len() && prev[k] == name@;
                            assert(before[k].name@ == name@);
                        }
                        assert(tunnel_names(next) == prev.push(name@));
                        lemma_absent_name(seen, name@);
                        assert forall|j: int| 0 <= j < interfaces@.len() implies {
                            let info = #[trigger] interfaces@[j];
                            let n = tunnel_names(next)[j];
                            &&& info.name@ == n
                            &&& info.flags == last_flags(next, n)
                            &&& info.has_non_loopback_addr == any_routable(next, n)
                        } by {
                            if j < before.len() {
                                assert(interfaces@[j] == before[j]);
                                assert(prev.contains(prev[j]));
                            }
                        }
                    }
                },
            }
        } else {
            proof {
                assert(tunnel_names(next) == prev);
                assert forall|j: int| 0 <= j < interfaces@.len() implies {
                    let info = #[trigger] interfaces@[j];
                    let n = tunnel_names(next)[j];
                    &&& info.name@ == n
                    &&& info.flags == last_flags(next, n)
                    &&& info.has_non_loopback_addr == any_routable(next, n)
                } by {
                    assert(is_tunnel_name(prev[j]));
                }
            }
        }
        i += 1;
    }
    assert(rows@.take(rows@.len() as int) =~= rows@);
    let mut active: bool = false;
    let mut k: usize = 0;
    while k < interfaces.len()
        invariant
            k <= interfaces@.len(),
            active == exists|j: int| 0 <= j < k && is_active(#[trigger] interfaces@[j]),
        decreases interfaces@.len() - k,
    {
        let info = &interfaces[k];
        if (info.flags & IFF_UP) != 0 && (info.flags & IFF_RUNNING) != 0
            && info.has_non_loopback_addr {
            active = true;
        }
        k += 1;
    }
    let report = UtunReport { present: interfaces.len() > 0, active, interfaces };
    proof {
        let names = tunnel_names(rows@);
        assert forall|k: int| 0 <= k < names.len() implies {
            let info = #[trigger] report.interfaces@[k];
            &&& info.name@ == names[k]
            &&& info.flags == last_flags(rows@, names[k])
            &&& info.has_non_loopback_addr == any_routable(rows@, names[k])
        } by {}
    }
    report
}

/// Whether the host has a tunnel-class interface.
pub fn utun_present(rows: &[IfAddr]) -> (b: bool)
    ensures
        b == (tunnel_names(rows@).len() > 0),
{
    utun_report(rows).present
}

/// Whether an entry names its interface and holds the address `ip`.
pub open spec fn bears(row: IfAddr, ip: IpAddress) -> bool {
    row.addr == Some(ip) && row.name is Some
}

/// The name of the interface that bears the address `ip`: that of the first
/// entry that holds this address and names its interface.
pub fn iface_for_ip(rows: &[IfAddr], ip: IpAddress) -> (r: Option<String>)
    ensures
        match r {
            Some(name) => exists|i: int|
                0 <= i < rows@.len() && bears(#[trigger] rows@[i], ip) && name@
                    == rows@[i].name->0@ && forall|j: int| 0 <= j < i ==> !bears(rows@[j], ip),
            None => forall|i: int| 0 <= i < rows@.len() ==> !bears(#[trigger] rows@[i], ip),
        },
{
    let mut i: usize = 0;
    while i < rows.len()
        invariant
            i <= rows@.len(),
            forall|j: int| 0 <= j < i ==> !bears(#[trigger] rows@[j], ip),
        decreases rows@.len() - i,
    {
        let row = &rows[i];
        let holds: bool = match row.addr {
            Some(a) => a == ip,
            None => false,
        };
        if holds {
            match &row.name {
                Some(name) => {
                    assert(bears(rows@[i as int], ip));
                    return Some(name.clone());
                },
                None => {},
            }
        }
        i += 1;
    }
    None
}

/// The addresses of the interface `name`, in the order of the list.
pub open spec fn addrs_of(rows: Seq<IfAddr>, name: Seq<char>) -> Seq<IpAddress>
    decreases rows.len(),
{
    if rows.len() == 0 {
        Seq::empty()
    } else {
        let prev = addrs_of(rows.drop_last(), name);
        let row = rows.last();
        if opt_text(row.name) == Some(name) && row.addr is Some {
            prev.push(row.addr->0)
        } else {
            prev
        }
    }
}

/// The IP addresses of the interface `name`.
pub fn iface_ips(rows: &[IfAddr], name: &str) -> (ips: Vec<IpAddress>)
    ensures
        ips@ == addrs_of(rows@, name@),
{
    let mut ips: Vec<IpAddress> = Vec::new();
    let mut i: usize = 0;
    while i < rows.len()
        invariant
            i <= rows@.len(),
            ips@ == addrs_of(rows@.take(i as int), name@),
        decreases rows@.len() - i,
    {
        let row = &rows[i];
        proof {
            assert(rows@.take(i + 1).drop_last() == rows@.take(i as int));
            assert(rows@.take(i + 1).last() == rows@[i as int]);
        }
        match (&row.name, row.addr) {
            (Some(n), Some(a)) => {
                if str_eq(n.as_str(), name) {
                    ips.push(a);
                }
            },
            _ => {},
        }
        i += 1;
    }
    assert(rows@.take(rows@.len() as int) =~= rows@);
    ips
}

/// The interface names of the list, one for each entry that has one.
pub open spec fn names_of(rows: Seq<IfAddr>) -> Seq<Seq<char>>
    decreases rows.len(),
{
    if rows.len() == 0 {
        Seq::empty()
    } else {
        let prev = names_of(rows.drop_last());
        match rows.last().name {
            Some(n) => prev.push(n@),
            None => prev,
        }
    }
}

/// The interface names of the list, in its order.
pub fn list_ifaces(rows: &[IfAddr]) -> (names: Vec<String>)
    ensures
        texts(names@) == names_of(rows@),
{
    let mut names: Vec<String> = Vec::new();
    let mut i: usize = 0;
    while i < rows.len()
        invariant
            i <= rows@.len(),
            texts(names@) == names_of(rows@.take(i as int)),
        decreases rows@.len() - i,
    {
        proof {
            assert(rows@.take(i + 1).drop_last() == rows@.take(i as int));
            assert(rows@.take(i + 1).last() == rows@[i as int]);
        }
        let ghost before = names@;
        match &rows[i].name {
            Some(n) => {
                names.push(n.clone());
                assert(texts(names@) =~= texts(before).push(n@));
            },
            None => {},
        }
        i += 1;
    }
    assert(rows@.take(rows@.len() as int) =~= rows@);
    names
}

/// `one` if `set`, else nothing.
pub open spec fn flag_name(set: bool, name: Seq<char>) -> Seq<Seq<char>> {
    if set {
        seq![name]
    } else {
        Seq::empty()
    }
}

/// The names of the flags that are set, in a fixed order.
pub open spec fn flag_names(flags: u32) -> Seq<Seq<char>> {
    flag_name(flags & IFF_UP != 0, "UP"@) + flag_name(flags & IFF_RUNNING != 0, "RUNNING"@)
        + flag_name(flags & IFF_LOOPBACK != 0, "LOOPBACK"@) + flag_name(
        flags & IFF_POINTOPOINT != 0,
        "POINTOPOINT"@,
    ) + flag_name(flags & IFF_MULTICAST != 0, "MULTICAST"@)
}

fn push_flag(out: &mut Vec<String>, set: bool, name: &str)
    ensures
        texts(final(out)@) == texts(old(out)@) + flag_name(set, name@),
{
    if set {
        out.push(name.to_owned());
    }
    assert(texts(out@) =~= texts(old(out)@) + flag_name(set, name@));
}

/// Spells out interface flags.
pub fn decode_if_flags(flags: u32) -> (out: Vec<String>)
    ensures
        texts(out@) == flag_names(flags),
{
    let mut out: Vec<String> = Vec::new();
    assert(texts(out@) =~= Seq::<Seq<char>>::empty());
    push_flag(&mut out, (flags & IFF_UP) != 0, "UP");
    push_flag(&mut out, (flags & IFF_RUNNING) != 0, "RUNNING");
    push_flag(&mut out, (flags & IFF_LOOPBACK) != 0, "LOOPBACK");
    push_flag(&mut out, (flags & IFF_POINTOPOINT) != 0, "POINTOPOINT");
    push_flag(&mut out, (flags & IFF_MULTICAST) != 0, "MULTICAST");
    assert(texts(out@) =~= flag_names(flags));
    out
}

/// The class of an interface: `loopback` for `lo`; else `wifi` where the
/// system marks it wireless; else `ethernet` where its link type reads `1`;
/// else `cellular` where its name begins with `ww` or `rmnet`; else `other`.
pub open spec fn iface_class(name: Seq<char>, wireless: bool, link_type: Option<Seq<char>>) -> Seq<
    char,
> {
    if name == "lo"@ {
        "loopback"@
    } else if wireless {
        "wifi"@
    } else if link_type is Some && trimmed(link_type->0) == "1"@ {
        "ethernet"@
    } else if has_prefix(name, "ww"@) || has_prefix(name, "rmnet"@) {
        "cellular"@
    } else {
        "other"@
    }
}

/// Classifies an interface from its name, whether the system marks it
/// wireless, and the text of its link type where that can be read.
pub fn iface_type(name: &str, wireless: bool, link_type: Option<&str>) -> (class: String)
    ensures
        class@ == iface_class(
            name@,
            wireless,
            match link_type {
                Some(t) => Some(t@),
                None => None,
            },
        ),
{
    if str_eq(name, "lo") {
        return "loopback".to_owned();
    }
    if wireless {
        return "wifi".to_owned();
    }
    match link_type {
        Some(t) => {
            let chars = chars_of(t);
            let (start, end) = trim_bounds(chars.as_slice());
            let one = chars_of("1");
            let mut body: Vec<char> = Vec::new();
            let mut i: usize = start;
            while i < end
                invariant
                    start <= i <= end <= chars@.len(),
                    body@ == chars@.subrange(start as int, i as int),
                decreases end - i,
            {
                body.push(chars[i]);
                i += 1;
            }
            if same_chars(body.as_slice(), one.as_slice()) {
                return "ethernet".to_owned();
            }
        },
        None => {},
    }
    let chars = chars_of(name);
    if starts_with(chars.as_slice(), "ww") || starts_with(chars.as_slice(), "rmnet") {
        return "cellular".to_owned();
    }
    "other".to_owned()
}

/// Whether a host name is `localhost`, in any case, or spells a loopback
/// address.
pub open spec fn loopback_host(host: Seq<char>, literal: Option<IpAddress>) -> bool {
    ascii_lower(host) == ascii_lower("localhost"@) || match literal {
        Some(ip) => loopback(ip),
        None => false,
    }
}

/// Whether a destination is the host itself. `literal` is the address that
/// `host` spells, where it spells one.
pub fn is_loopback_host(host: &str, literal: Option<IpAddress>) -> (b: bool)
    ensures
        b == loopback_host(host@, literal),
{
    let h = chars_of(host);
    let l = chars_of("localhost");
    let hl = to_ascii_lower(h.as_slice());
    let ll = to_ascii_lower(l.as_slice());
    if same_chars(hl.as_slice(), ll.as_slice()) {
        return true;
    }
    match literal {
        Some(ip) => ip.is_loopback(),
        None => false,
    }
}

} // verus!
