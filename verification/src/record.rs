//! Burst records: what one burst of probes to one target found.

use vstd::prelude::*;
use crate::config::{Config, ProbeTarget, ProbeTargetView};
use crate::iface::{
    decode_if_flags, flag_names, iface_class, iface_type, is_loopback_host, is_tunnel_iface_name,
    is_tunnel_name, loopback_host, UtunInterfaceInfo, UtunReport,
};
use crate::net::{loopback, IpAddress};
use crate::notes::{ms_one_decimal, notes_for, physics_notes, push_ms};
use crate::summary::{burst_summary, summarize};
use crate::text::{ascii_lower, chars_of, clone_opt, opt_text, push_chars, texts};

verus! {

/// A tunnel-class interface as a record describes it.
#[derive(Clone, Debug)]
pub struct UtunInterface {
    pub name: String,
    pub flags: u32,
    pub flags_decoded: Vec<String>,
    pub has_non_loopback_addr: bool,
}

/// A described tunnel-class interface as contracts speak of it.
pub struct UtunInterfaceView {
    pub name: Seq<char>,
    pub flags: u32,
    pub flags_decoded: Seq<Seq<char>>,
    pub has_non_loopback_addr: bool,
}

impl View for UtunInterface {
    type V = UtunInterfaceView;

    open spec fn view(&self) -> UtunInterfaceView {
        UtunInterfaceView {
            name: self.name@,
            flags: self.flags,
            flags_decoded: texts(self.flags_decoded@),
            has_non_loopback_addr: self.has_non_loopback_addr,
        }
    }
}

/// The record of one burst. Times are in nanoseconds, but for the wall-clock
/// stamp.
#[derive(Clone, Debug)]
pub struct BurstRecord {
    pub ts_unix_ms: i64,
    pub endpoint_id: String,
    pub host: String,
    pub port: u16,
    pub probe_path: String,
    pub probe_bind_iface: String,
    pub probe_bind_ip: String,
    pub local_addr: String,
    pub region_hint: Option<String>,
    pub samples_ns: Vec<u64>,
    pub min_ns: Option<u64>,
    pub p05_ns: Option<u64>,
    pub median_ns: Option<u64>,
    pub iface: String,
    pub iface_name: String,
    pub iface_is_tunnel: bool,
    pub utun_present: bool,
    pub utun_active: bool,
    pub utun_interfaces: Vec<UtunInterface>,
    pub dest_is_loopback: bool,
    pub claimed_egress_region: Option<String>,
    pub notes: Vec<String>,
}

/// A record as contracts speak of it.
pub struct BurstRecordView {
    pub ts_unix_ms: i64,
    pub endpoint_id: Seq<char>,
    pub host: Seq<char>,
    pub port: u16,
    pub probe_path: Seq<char>,
    pub probe_bind_iface: Seq<char>,
    pub probe_bind_ip: Seq<char>,
    pub local_addr: Seq<char>,
    pub region_hint: Option<Seq<char>>,
    pub samples_ns: Seq<u64>,
    pub min_ns: Option<u64>,
    pub p05_ns: Option<u64>,
    pub median_ns: Option<u64>,
    pub iface: Seq<char>,
    pub iface_name: Seq<char>,
    pub iface_is_tunnel: bool,
    pub utun_present: bool,
    pub utun_active: bool,
    pub utun_interfaces: Seq<UtunInterfaceView>,
    pub dest_is_loopback: bool,
    pub claimed_egress_region: Option<Seq<char>>,
    pub notes: Seq<Seq<char>>,
}

impl View for BurstRecord {
    type V = BurstRecordView;

    open spec fn view(&self) -> BurstRecordView {
        BurstRecordView {
            ts_unix_ms: self.ts_unix_ms,
            endpoint_id: self.endpoint_id@,
            host: self.host@,
            port: self.port,
            probe_path: self.probe_path@,
            probe_bind_iface: self.probe_bind_iface@,
            probe_bind_ip: self.probe_bind_ip@,
            local_addr: self.local_addr@,
            region_hint: opt_text(self.region_hint),
            samples_ns: self.samples_ns@,
            min_ns: self.min_ns,
            p05_ns: self.p05_ns,
            median_ns: self.median_ns,
            iface: self.iface@,
            iface_name: self.iface_name@,
            iface_is_tunnel: self.iface_is_tunnel,
            utun_present: self.utun_present,
            utun_active: self.utun_active,
            utun_interfaces: Seq::new(
                self.utun_interfaces@.len(),
                |i: int| self.utun_interfaces@[i]@,
            ),
            dest_is_loopback: self.dest_is_loopback,
            claimed_egress_region: opt_text(self.claimed_egress_region),
            notes: texts(self.notes@),
        }
    }
}

/// The interface that the probes of one burst leave through.
#[derive(Clone, Debug)]
pub struct BurstContext {
    pub iface_name: String,
    pub local_addr: String,
    pub dest_is_loopback: bool,
    pub iface: String,
    pub iface_is_tunnel: bool,
}

/// A text, or `unknown` where there is none.
pub open spec fn or_unknown(s: Option<Seq<char>>) -> Seq<char> {
    match s {
        Some(t) => t,
        None => "unknown"@,
    }
}

/// Whether a probe stays on the host: its destination or its local address
/// is loopback.
pub open spec fn stays_local(
    host: Seq<char>,
    host_literal: Option<IpAddress>,
    local_ip: Option<IpAddress>,
) -> bool {
    loopback_host(host, host_literal) || match local_ip {
        Some(ip) => loopback(ip),
        None => false,
    }
}

fn text_or_unknown(s: Option<String>) -> (r: String)
    ensures
        r@ == or_unknown(opt_text(s)),
{
    match s {
        Some(t) => t,
        None => "unknown".to_owned(),
    }
}

/// Describes the interface that a burst leaves through.
///
/// `iface_name` and `local_addr` are the name of the interface that bears
/// the socket's local address and that address with its port, where the
/// system gave them; `host_literal` the address that the endpoint's host
/// spells, where it spells one; `local_ip` the socket's local address;
/// `wireless` and `link_type` what the system says of the interface.
pub fn burst_context(
    iface_name: Option<String>,
    local_addr: Option<String>,
    host: &str,
    host_literal: Option<IpAddress>,
    local_ip: Option<IpAddress>,
    wireless: bool,
    link_type: Option<&str>,
) -> (ctx: BurstContext)
    ensures
        ctx.iface_name@ == or_unknown(opt_text(iface_name)),
        ctx.local_addr@ == or_unknown(opt_text(local_addr)),
        ctx.dest_is_loopback == stays_local(host@, host_literal, local_ip),
        ctx.iface@ == (if ctx.dest_is_loopback {
            "loopback"@
        } else {
            iface_class(
                ctx.iface_name@,
                wireless,
                match link_type {
                    Some(t) => Some(t@),
                    None => None,
                },
            )
        }),
        ctx.iface_is_tunnel == is_tunnel_name(ascii_lower(ctx.iface_name@)),
{
    let name = text_or_unknown(iface_name);
    let addr = text_or_unknown(local_addr);
    let local_loopback: bool = match local_ip {
        Some(ip) => ip.is_loopback(),
        None => false,
    };
    let dest_is_loopback: bool = is_loopback_host(host, host_literal) || local_loopback;
    let iface: String = if dest_is_loopback {
        "loopback".to_owned()
    } else {
        iface_type(name.as_str(), wireless, link_type)
    };
    let iface_is_tunnel: bool = is_tunnel_iface_name(name.as_str());
    BurstContext { iface_name: name, local_addr: addr, dest_is_loopback, iface, iface_is_tunnel }
}

/// A tunnel-class interface as a record describes it.
pub open spec fn described(info: UtunInterfaceInfo) -> UtunInterfaceView {
    UtunInterfaceView {
        name: info.name@,
        flags: info.flags,
        flags_decoded: flag_names(info.flags),
        has_non_loopback_addr: info.has_non_loopback_addr,
    }
}

/// Describes the tunnel-class interfaces of a report for a record.
pub fn describe_interfaces(report: &UtunReport) -> (out: Vec<UtunInterface>)
    ensures
        out@.len() == report.interfaces@.len(),
        forall|i: int| 0 <= i < out@.len() ==> (#[trigger] out@[i])@ == described(report.interfaces@[i]),
{
    let mut out: Vec<UtunInterface> = Vec::new();
    let mut i: usize = 0;
    while i < report.interfaces.len()
        invariant
            i <= report.interfaces@.len(),
            out@.len() == i,
            forall|j: int| 0 <= j < i ==> (#[trigger] out@[j])@ == described(report.interfaces@[j]),
        decreases report.interfaces@.len() - i,
    {
        let info = &report.interfaces[i];
        out.push(
            UtunInterface {
                name: info.name.clone(),
                flags: info.flags,
                flags_decoded: decode_if_flags(info.flags),
                has_non_loopback_addr: info.has_non_loopback_addr,
            },
        );
        i += 1;
    }
    out
}

/// The text of an optional string, empty where there is none.
pub open spec fn or_empty(s: Option<Seq<char>>) -> Seq<char> {
    match s {
        Some(t) => t,
        None => Seq::empty(),
    }
}

/// The record of a burst to `target` that brought back `samples`.
pub open spec fn record_of(
    target: ProbeTargetView,
    claimed: Option<Seq<char>>,
    threshold_ns: i64,
    ctx: BurstContext,
    report: UtunReport,
    bind_ip: Seq<char>,
    samples: Seq<u64>,
    ts_unix_ms: i64,
) -> BurstRecordView {
    BurstRecordView {
        ts_unix_ms,
        endpoint_id: target.endpoint.id,
        host: target.endpoint.host,
        port: target.endpoint.port,
        probe_path: target.path_id,
        probe_bind_iface: or_empty(target.bind_iface),
        probe_bind_ip: bind_ip,
        local_addr: ctx.local_addr@,
        region_hint: target.endpoint.region_hint,
        samples_ns: samples,
        min_ns: burst_summary(samples).0,
        p05_ns: burst_summary(samples).1,
        median_ns: burst_summary(samples).2,
        iface: ctx.iface@,
        iface_name: ctx.iface_name@,
        iface_is_tunnel: ctx.iface_is_tunnel,
        utun_present: report.present,
        utun_active: report.active,
        utun_interfaces: Seq::new(
            report.interfaces@.len(),
            |i: int| described(report.interfaces@[i]),
        ),
        dest_is_loopback: ctx.dest_is_loopback,
        claimed_egress_region: claimed,
        notes: notes_for(
            target.endpoint.region_hint,
            claimed,
            burst_summary(samples).0,
            threshold_ns,
        ),
    }
}

/// Builds the record of a burst: the target and its binding, the interface
/// the burst left through, the tunnel report taken before it, the samples
/// with their summary, and the physics notes that the minimum gives.
///
/// `bind_ip` is the text of the local address that the probes were bound to,
/// empty where they were bound to none.
pub fn burst_record(
    target: &ProbeTarget,
    cfg: &Config,
    ctx: &BurstContext,
    report: &UtunReport,
    bind_ip: &str,
    samples: Vec<u64>,
    ts_unix_ms: i64,
) -> (rec: BurstRecord)
    ensures
        rec@ == record_of(
            target@,
            opt_text(cfg.claimed_egress_region),
            cfg.physics_mismatch_threshold_ns,
            *ctx,
            *report,
            bind_ip@,
            samples@,
            ts_unix_ms,
        ),
{
    let (min_ns, p05_ns, median_ns) = summarize(samples.as_slice());
    let notes = physics_notes(
        &target.endpoint.region_hint,
        &cfg.claimed_egress_region,
        min_ns,
        cfg.physics_mismatch_threshold_ns,
    );
    let utun_interfaces = describe_interfaces(report);
    let probe_bind_iface: String = match &target.bind_iface {
        Some(name) => name.clone(),
        None => String::new(),
    };
    let rec = BurstRecord {
        ts_unix_ms,
        endpoint_id: target.endpoint.id.clone(),
        host: target.endpoint.host.clone(),
        port: target.endpoint.port,
        probe_path: target.path_id.clone(),
        probe_bind_iface,
        probe_bind_ip: bind_ip.to_owned(),
        local_addr: ctx.local_addr.clone(),
        region_hint: clone_opt(&target.endpoint.region_hint),
        samples_ns: samples,
        min_ns,
        p05_ns,
        median_ns,
        iface: ctx.iface.clone(),
        iface_name: ctx.iface_name.clone(),
        iface_is_tunnel: ctx.iface_is_tunnel,
        utun_present: report.present,
        utun_active: report.active,
        utun_interfaces,
        dest_is_loopback: ctx.dest_is_loopback,
        claimed_egress_region: clone_opt(&cfg.claimed_egress_region),
        notes,
    };
    proof {
        let want = record_of(
            target@,
            opt_text(cfg.claimed_egress_region),
            cfg.physics_mismatch_threshold_ns,
            *ctx,
            *report,
            bind_ip@,
            samples@,
            ts_unix_ms,
        );
        assert(rec@.utun_interfaces =~= want.utun_interfaces);
    }
    rec
}

/// Texts joined by ` | `.
pub open spec fn joined(parts: Seq<Seq<char>>) -> Seq<char>
    decreases parts.len(),
{
    if parts.len() == 0 {
        Seq::empty()
    } else if parts.len() == 1 {
        parts[0]
    } else {
        joined(parts.drop_last()) + " | "@ + parts.last()
    }
}

/// The line that the log writer prints for a record: its notes where it has
/// any; else its summary in milliseconds; else that it has no samples.
pub open spec fn console_text(rec: BurstRecordView) -> Seq<char> {
    if rec.notes.len() > 0 {
        "[!] "@ + rec.endpoint_id + " "@ + joined(rec.notes)
    } else if rec.min_ns is Some && rec.p05_ns is Some && rec.median_ns is Some {
        "[ok] "@ + rec.endpoint_id + " min="@ + ms_one_decimal(rec.min_ns->0 as int) + "ms p05="@
            + ms_one_decimal(rec.p05_ns->0 as int) + "ms med="@ + ms_one_decimal(
            rec.median_ns->0 as int,
        ) + "ms"@
    } else {
        "[??] "@ + rec.endpoint_id + " no samples (timeout?)"@
    }
}

fn push_text(out: &mut String, text: &str)
    ensures
        final(out)@ == old(out)@ + text@,
{
    let chars = chars_of(text);
    push_chars(out, chars.as_slice(), 0, chars.len());
    assert(chars@.subrange(0, chars@.len() as int) =~= text@);
}

/// Builds the line that the log writer prints for a record.
pub fn console_line(rec: &BurstRecord) -> (line: String)
    ensures
        line@ == console_text(rec@),
{
    let mut line = String::new();
    if rec.notes.len() > 0 {
        push_text(&mut line, "[!] ");
        push_text(&mut line, rec.endpoint_id.as_str());
        push_text(&mut line, " ");
        let ghost head = line@;
        let mut i: usize = 0;
        assert(texts(rec.notes@).take(0) =~= Seq::<Seq<char>>::empty());
        while i < rec.notes.len()
            invariant
                i <= rec.notes@.len(),
                line@ == head + joined(texts(rec.notes@).take(i as int)),
            decreases rec.notes@.len() - i,
        {
            let ghost parts = texts(rec.notes@).take(i + 1);
            proof {
                assert(parts.drop_last() =~= texts(rec.notes@).take(i as int));
                assert(parts.last() == rec.notes@[i as int]@);
            }
            if i > 0 {
                push_text(&mut line, " | ");
            }
            push_text(&mut line, rec.notes[i].as_str());
            proof {
                if i == 0 {
                    assert(joined(parts) == parts[0]);
                    assert(line@ =~= head + joined(parts));
                } else {
                    assert(line@ =~= head + joined(parts));
                }
            }
            i += 1;
        }
        assert(texts(rec.notes@).take(rec.notes@.len() as int) =~= texts(rec.notes@));
        proof {
            assert(line@ =~= console_text(rec@));
        }
        return line;
    }
    match (rec.min_ns, rec.p05_ns, rec.median_ns) {
        (Some(min), Some(p05), Some(med)) => {
            push_text(&mut line, "[ok] ");
            push_text(&mut line, rec.endpoint_id.as_str());
            push_text(&mut line, " min=");
            push_ms(&mut line, min as i128);
            push_text(&mut line, "ms p05=");
            push_ms(&mut line, p05 as i128);
            push_text(&mut line, "ms med=");
            push_ms(&mut line, med as i128);
            push_text(&mut line, "ms");
            proof {
                assert(line@ =~= console_text(rec@));
            }
        },
        _ => {
            push_text(&mut line, "[??] ");
            push_text(&mut line, rec.endpoint_id.as_str());
            push_text(&mut line, " no samples (timeout?)");
            proof {
                assert(line@ =~= console_text(rec@));
            }
        },
    }
    line
}

} // verus!
