//! The decisions of one probe exchange over a connected UDP socket: which
//! address to connect and to bind, how long to wait for the echo, and which
//! datagram to take for it.

use vstd::prelude::*;
use crate::config::ProbePath;
use crate::iface::{addrs_of, iface_ips, IfAddr};
use crate::net::{IpAddress, SocketAddress};
use crate::text::{chars_of, push_chars};

verus! {

/// Nanoseconds in a millisecond.
pub const NS_PER_MS: u64 = 1_000_000;

/// The event that says a datagram can be read.
pub const POLLIN: i16 = 0x1;

/// The first address of the family asked for.
pub open spec fn first_in_family(ips: Seq<IpAddress>, v4: bool) -> Option<IpAddress>
    decreases ips.len(),
{
    if ips.len() == 0 {
        None
    } else if ips[0].v4() == v4 {
        Some(ips[0])
    } else {
        first_in_family(ips.drop_first(), v4)
    }
}

fn find_in_family(ips: &[IpAddress], v4: bool) -> (r: Option<IpAddress>)
    ensures
        r == first_in_family(ips@, v4),
{
    let mut i: usize = 0;
    assert(ips@.skip(0) =~= ips@);
    while i < ips.len()
        invariant
            i <= ips@.len(),
            first_in_family(ips@, v4) == first_in_family(ips@.skip(i as int), v4),
        decreases ips@.len() - i,
    {
        if ips[i].is_ipv4() == v4 {
            assert(ips@.skip(i as int)[0] == ips@[i as int]);
            return Some(ips[i]);
        }
        proof {
            assert(ips@.skip(i as int)[0] == ips@[i as int]);
            assert(ips@.skip(i as int).drop_first() == ips@.skip(i + 1));
        }
        i += 1;
    }
    assert(ips@.skip(ips@.len() as int).len() == 0);
    None
}

/// The addresses of socket addresses.
pub open spec fn ips_of(addrs: Seq<SocketAddress>) -> Seq<IpAddress> {
    Seq::new(addrs.len(), |i: int| addrs[i].ip)
}

/// The first socket address of the family asked for.
pub open spec fn first_addr_in_family(addrs: Seq<SocketAddress>, v4: bool) -> Option<
    SocketAddress,
>
    decreases addrs.len(),
{
    if addrs.len() == 0 {
        None
    } else if addrs[0].ip.v4() == v4 {
        Some(addrs[0])
    } else {
        first_addr_in_family(addrs.drop_first(), v4)
    }
}

/// The address to connect: of the addresses that the host resolves to, the
/// first of the family of the bind address where one is given, else the
/// first.
pub open spec fn connect_choice(addrs: Seq<SocketAddress>, bind_ip: Option<IpAddress>) -> Result<
    SocketAddress,
    Seq<char>,
> {
    match bind_ip {
        Some(ip) => match first_addr_in_family(addrs, ip.v4()) {
            Some(a) => Ok(a),
            None => Err("no resolved addresses for bind family"@),
        },
        None => if addrs.len() > 0 {
            Ok(addrs[0])
        } else {
            Err("no resolved addresses"@)
        },
    }
}

/// Picks the address to connect among those that the host resolves to.
pub fn resolve_first_for_family(addrs: &[SocketAddress], bind_ip: Option<IpAddress>) -> (r: Result<
    SocketAddress,
    String,
>)
    ensures
        match r {
            Ok(a) => connect_choice(addrs@, bind_ip) == Ok::<SocketAddress, Seq<char>>(a),
            Err(msg) => connect_choice(addrs@, bind_ip) == Err::<SocketAddress, Seq<char>>(msg@),
        },
{
    match bind_ip {
        Some(ip) => {
            let v4: bool = ip.is_ipv4();
            let mut i: usize = 0;
            assert(addrs@.skip(0) =~= addrs@);
            while i < addrs.len()
                invariant
                    i <= addrs@.len(),
                    v4 == ip.v4(),
                    bind_ip == Some(ip),
                    first_addr_in_family(addrs@, v4) == first_addr_in_family(
                        addrs@.skip(i as int),
                        v4,
                    ),
                decreases addrs@.len() - i,
            {
                proof {
                    assert(addrs@.skip(i as int)[0] == addrs@[i as int]);
                    assert(addrs@.skip(i as int).drop_first() == addrs@.skip(i + 1));
                }
                if addrs[i].ip.is_ipv4() == v4 {
                    return Ok(addrs[i]);
                }
                i += 1;
            }
            assert(addrs@.skip(addrs@.len() as int).len() == 0);
            Err("no resolved addresses for bind family".to_owned())
        },
        None => {
            if addrs.len() > 0 {
                Ok(addrs[0])
            } else {
                Err("no resolved addresses".to_owned())
            }
        },
    }
}

/// Whether some address is of the family asked for.
pub open spec fn has_family(addrs: Seq<SocketAddress>, v4: bool) -> bool {
    exists|i: int| 0 <= i < addrs.len() && (#[trigger] addrs[i]).ip.v4() == v4
}

/// Which families the host resolves to: IPv4, IPv6.
pub fn wanted_families(addrs: &[SocketAddress]) -> (r: (bool, bool))
    ensures
        r.0 == has_family(addrs@, true),
        r.1 == has_family(addrs@, false),
{
    let mut want_v4: bool = false;
    let mut want_v6: bool = false;
    let mut i: usize = 0;
    while i < addrs.len()
        invariant
            i <= addrs@.len(),
            want_v4 == has_family(addrs@.take(i as int), true),
            want_v6 == has_family(addrs@.take(i as int), false),
        decreases addrs@.len() - i,
    {
        let ghost seen = addrs@.take(i as int);
        let ghost next = addrs@.take(i + 1);
        proof {
            assert(next[i as int] == addrs@[i as int]);
            assert forall|v4: bool| has_family(seen, v4) implies has_family(next, v4) by {
                let j = choose|j: int| 0 <= j < seen.len() && (#[trigger] seen[j]).ip.v4() == v4;
                assert(next[j] == seen[j]);
            }
            assert forall|v4: bool|
                has_family(next, v4) && addrs@[i as int].ip.v4() != v4 implies has_family(
                seen,
                v4,
            ) by {
                let j = choose|j: int| 0 <= j < next.len() && (#[trigger] next[j]).ip.v4() == v4;
                assert(seen[j] == next[j]);
            }
        }
        if addrs[i].ip.is_ipv4() {
            want_v4 = true;
        } else {
            want_v6 = true;
        }
        i += 1;
    }
    assert(addrs@.take(addrs@.len() as int) =~= addrs@);
    (want_v4, want_v6)
}

/// The address to bind on an interface that holds `ips`: its first IPv4
/// address where the host resolves to IPv4 and there is one; else its first
/// IPv6 address where the host resolves to IPv6 and there is one; else its
/// first address.
pub open spec fn bind_choice(ips: Seq<IpAddress>, want_v4: bool, want_v6: bool) -> IpAddress {
    if want_v4 && first_in_family(ips, true) is Some {
        first_in_family(ips, true)->0
    } else if want_v6 && first_in_family(ips, false) is Some {
        first_in_family(ips, false)->0
    } else {
        ips[0]
    }
}

/// Picks the address to bind among those of an interface.
pub fn choose_bind_ip(ips: &[IpAddress], want_v4: bool, want_v6: bool) -> (r: Option<IpAddress>)
    ensures
        ips@.len() == 0 ==> r is None,
        ips@.len() > 0 ==> r == Some(bind_choice(ips@, want_v4, want_v6)),
{
    if ips.len() == 0 {
        return None;
    }
    if want_v4 {
        match find_in_family(ips, true) {
            Some(ip) => {
                return Some(ip);
            },
            None => {},
        }
    }
    if want_v6 {
        match find_in_family(ips, false) {
            Some(ip) => {
                return Some(ip);
            },
            None => {},
        }
    }
    Some(ips[0])
}

/// The complaint about an interface without addresses.
pub open spec fn no_address_message(iface: Seq<char>) -> Seq<char> {
    "no addresses found for interface "@ + iface
}

/// The local address of a probe path: the literal address where the path
/// names one, which must be well-formed; else one of the named interface,
/// which must hold one; else none.
pub open spec fn bind_resolution(
    path: ProbePath,
    literal: Option<IpAddress>,
    rows: Seq<IfAddr>,
    resolved: Seq<SocketAddress>,
) -> Result<Option<IpAddress>, Seq<char>> {
    if path.bind_ip is Some {
        match literal {
            Some(ip) => Ok(Some(ip)),
            None => Err("invalid bindIp"@),
        }
    } else if path.bind_interface is Some {
        let ips = addrs_of(rows, path.bind_interface->0@);
        if ips.len() == 0 {
            Err(no_address_message(path.bind_interface->0@))
        } else {
            Ok(Some(bind_choice(ips, has_family(resolved, true), has_family(resolved, false))))
        }
    } else {
        Ok(None)
    }
}

/// Resolves the local address of a probe path. `literal` is the address that
/// the path's `bind_ip` spells, where it spells one; `rows` the host's
/// interface address list; `resolved` the addresses that the endpoint's host
/// resolves to, none where it does not resolve.
pub fn resolve_bind_ip(
    path: &ProbePath,
    literal: Option<IpAddress>,
    rows: &[IfAddr],
    resolved: &[SocketAddress],
) -> (r: Result<Option<IpAddress>, String>)
    ensures
        match r {
            Ok(ip) => bind_resolution(*path, literal, rows@, resolved@) == Ok::<
                Option<IpAddress>,
                Seq<char>,
            >(ip),
            Err(msg) => bind_resolution(*path, literal, rows@, resolved@) == Err::<
                Option<IpAddress>,
                Seq<char>,
            >(msg@),
        },
{
    if path.bind_ip.is_some() {
        return match literal {
            Some(ip) => Ok(Some(ip)),
            None => Err("invalid bindIp".to_owned()),
        };
    }
    match &path.bind_interface {
        Some(iface) => {
            let ips = iface_ips(rows, iface.as_str());
            if ips.len() == 0 {
                let mut msg: String = "no addresses found for interface ".to_owned();
                let name = chars_of(iface.as_str());
                push_chars(&mut msg, name.as_slice(), 0, name.len());
                assert(name@.subrange(0, name@.len() as int) =~= iface@);
                return Err(msg);
            }
            let (want_v4, want_v6) = wanted_families(resolved);
            Ok(choose_bind_ip(ips.as_slice(), want_v4, want_v6))
        },
        None => Ok(None),
    }
}

/// What came of sending a datagram.
#[derive(Clone, Copy, Debug, PartialEq, Eq, Structural)]
pub enum SendOutcome {
    /// The system refused the send.
    Failed,
    /// Fewer bytes than the datagram were sent.
    Short,
    /// The whole datagram was sent.
    Sent,
}

/// Judges the result of a send of `len` bytes.
pub fn check_sent(sent: isize, len: usize) -> (r: SendOutcome)
    ensures
        r == (if sent < 0 {
            SendOutcome::Failed
        } else if sent != len {
            SendOutcome::Short
        } else {
            SendOutcome::Sent
        }),
{
    if sent < 0 {
        SendOutcome::Failed
    } else if sent as usize != len {
        SendOutcome::Short
    } else {
        SendOutcome::Sent
    }
}

/// How long to wait for the echo once the clock reads `now_ns`: the whole
/// milliseconds left until the deadline, at most `i32::MAX`; nothing once the
/// deadline is reached.
pub open spec fn wait_budget(now_ns: u64, deadline_ns: u64) -> Option<i32> {
    if now_ns >= deadline_ns {
        None
    } else if (deadline_ns - now_ns) / NS_PER_MS as int > i32::MAX {
        Some(i32::MAX)
    } else {
        Some(((deadline_ns - now_ns) / NS_PER_MS as int) as i32)
    }
}

/// The timeout of the next wait for the echo, in milliseconds; `None` when
/// the exchange has timed out.
pub fn poll_timeout_ms(now_ns: u64, deadline_ns: u64) -> (r: Option<i32>)
    ensures
        r == wait_budget(now_ns, deadline_ns),
{
    if now_ns >= deadline_ns {
        return None;
    }
    let ms: u64 = (deadline_ns - now_ns) / NS_PER_MS;
    if ms > i32::MAX as u64 {
        Some(i32::MAX)
    } else {
        Some(ms as i32)
    }
}

/// What a wait on the socket came to.
#[derive(Clone, Copy, Debug, PartialEq, Eq, Structural)]
pub enum PollVerdict {
    /// The wait failed: the exchange fails.
    Failed,
    /// Nothing came in time: the exchange ends without a sample.
    TimedOut,
    /// The socket woke for something else than input: wait again.
    Again,
    /// A datagram is ready.
    Readable,
}

/// Judges the result of a wait: its return value and the events it reports.
pub fn on_poll(rv: i32, revents: i16) -> (r: PollVerdict)
    ensures
        r == (if rv < 0 {
            PollVerdict::Failed
        } else if rv == 0 {
            PollVerdict::TimedOut
        } else if revents & POLLIN == 0 {
            PollVerdict::Again
        } else {
            PollVerdict::Readable
        }),
{
    if rv < 0 {
        PollVerdict::Failed
    } else if rv == 0 {
        PollVerdict::TimedOut
    } else if (revents & POLLIN) == 0 {
        PollVerdict::Again
    } else {
        PollVerdict::Readable
    }
}

/// Whether a datagram is the echo of the frame sent: the same bytes, no
/// more and no fewer.
pub fn is_echo(received: &[u8], sent: &[u8]) -> (b: bool)
    ensures
        b == (received@ == sent@),
{
    if received.len() != sent.len() {
        return false;
    }
    let mut i: usize = 0;
    while i < sent.len()
        invariant
            i <= sent@.len() == received@.len(),
            forall|j: int| 0 <= j < i ==> received@[j] == sent@[j],
        decreases sent@.len() - i,
    {
        if received[i] != sent[i] {
            return false;
        }
        i += 1;
    }
    assert(received@ =~= sent@);
    true
}

} // verus!
