//! What the monitor promises of a whole packet: when it alerts, and what it
//! remembers.

use vstd::prelude::*;
use vstd::string::*;

use crate::alerts::{AlertLevel, AlertReason, AlertTier, AlertView, LogView, TIER_LIMIT};
use crate::fingerprint;
use crate::flows;
use crate::flows::ConnKey;
use crate::formatting;
use crate::geoip;
use crate::names;
use crate::names::NamesView;
use crate::net;
use crate::net::IpAddr;
use crate::packet::{PacketView, Protocol};
use crate::process;
use crate::rules;
use crate::rules::{ContextView, TRUSTED_ORGS};
use crate::state;
use crate::state::{FeedsView, GraphNode, TrafficView};
use crate::text;
use crate::traffic;
use crate::watch;
use crate::watch::{TRUSTED_PROGRAMS, WatchView};

verus! {

/// An address from `low` to `high`.
pub open spec fn between(ip: IpAddr, low: u32, high: u32) -> bool {
    match ip {
        IpAddr::V4(n) => low <= n <= high,
        IpAddr::V6(_) => false,
    }
}

/// An address of a private network.
pub open spec fn inside(ip: IpAddr) -> bool {
    ||| between(ip, 0x0A00_0000, 0x0AFF_FFFF)
    ||| between(ip, 0xAC10_0000, 0xAC1F_FFFF)
    ||| between(ip, 0xC0A8_0000, 0xC0A8_FFFF)
}

/// An address that does not leave this network: a private one, one of this
/// host, one of a group, or the one of all hosts.
pub open spec fn at_home(ip: IpAddr) -> bool {
    ||| inside(ip)
    ||| between(ip, 0x7F00_0000, 0x7FFF_FFFF)
    ||| between(ip, 0xE000_0000, 0xEFFF_FFFF)
    ||| between(ip, 0xFFFF_FFFF, 0xFFFF_FFFF)
}

proof fn lemma_classes(ip: IpAddr)
    ensures
        net::private_ip(ip) == inside(ip),
        net::local_or_multicast(ip) == at_home(ip),
        net::local_ip(ip) == (inside(ip) || between(ip, 0xA9FE_0000, 0xA9FE_FFFF)),
{
    match ip {
        IpAddr::V4(n) => {
            net::law_private_ranges(n);
            net::law_at_home_ranges(n);
            net::law_local_ranges(n, 0);
        },
        IpAddr::V6(n) => {
            net::law_local_ranges(0, n);
        },
    }
}

/// The alerts of one tier.
pub open spec fn listed(log: LogView, tier: AlertTier) -> Seq<AlertView> {
    match tier {
        AlertTier::Suspicious => log.suspicious,
        AlertTier::Behavioral => log.behavioral,
        AlertTier::External => log.external,
        AlertTier::Noise => log.noise,
    }
}

proof fn lemma_listed(log: LogView, s: Seq<AlertView>, i: int) -> (at: int)
    requires
        0 <= i < s.len() <= 12,
    ensures
        ({
            let l = listed(log.with_all(s), s[i].tier);
            0 <= at < l.len() && l[at] == s[i] && l.len() - at <= s.len() - i
        }),
    decreases s.len(),
{
    let front = log.with_all(s.drop_last());
    let tier = s[i].tier;
    if i == s.len() - 1 {
        (listed(log.with_all(s), tier).len() - 1) as int
    } else {
        let at = lemma_listed(log, s.drop_last(), i);
        let before = listed(front, tier);
        let after = listed(log.with_all(s), tier);
        if s.last().tier == tier && before.len() + 1 > TIER_LIMIT {
            assert(after =~= before.push(s.last()).drop_first());
            at - 1
        } else {
            assert(after == before || after == before.push(s.last()));
            at
        }
    }
}

/// An alert that is raised on a packet stands in the list of its tier.
#[verifier::rlimit(60)]
pub proof fn law_raised_alert_is_listed(
    s: TrafficView,
    p: PacketView,
    now: u64,
    wall: u64,
    after: TrafficView,
    a: AlertView,
)
    requires
        s.ingested(p, now, wall, after),
        s.raised(p, now, wall).contains(a),
    ensures
        listed(after.alerts, a.tier).contains(a),
{
    let r = s.raised(p, now, wall);
    let i = choose|i: int| 0 <= i < r.len() && r[i] == a;
    rules::lemma_packet_alerts_len(p, s.context(p, wall));
    let at = lemma_listed(s.alerts, r, i);
    assert(listed(after.alerts, a.tier)[at] == a);
}

/// A program, by its name in lower case, that may call home regularly.
pub open spec fn may_call_home(name: Seq<char>) -> bool {
    ||| text::contains(name, "chrome.exe"@)
    ||| text::contains(name, "antigravity.exe"@)
    ||| text::contains(name, "language_server_windows_x64.exe"@)
    ||| text::contains(name, "vora-recon.exe"@)
    ||| text::contains(name, "msedge.exe"@)
    ||| text::contains(name, "firefox.exe"@)
    ||| text::contains(name, "teams.exe"@)
    ||| text::contains(name, "slack.exe"@)
    ||| text::contains(name, "discord.exe"@)
    ||| text::contains(name, "spotify.exe"@)
    ||| text::contains(name, "onedrive.exe"@)
    ||| text::contains(name, "svchost.exe"@)
}

proof fn lemma_may_call_home(name: Seq<char>)
    ensures
        text::contains_any(name, TRUSTED_PROGRAMS@) == may_call_home(name),
{
    let t = TRUSTED_PROGRAMS@;
    assert(t.len() == 12);
    assert(t[0]@ == "chrome.exe"@ && t[1]@ == "antigravity.exe"@ && t[2]@
        == "language_server_windows_x64.exe"@ && t[3]@ == "vora-recon.exe"@ && t[4]@
        == "msedge.exe"@ && t[5]@ == "firefox.exe"@ && t[6]@ == "teams.exe"@ && t[7]@
        == "slack.exe"@ && t[8]@ == "discord.exe"@ && t[9]@ == "spotify.exe"@ && t[10]@
        == "onedrive.exe"@ && t[11]@ == "svchost.exe"@);
    if text::contains_any(name, t) {
        let i = choose|i: int| 0 <= i < t.len() && text::contains(name, #[trigger] t[i]@);
        assert(i == 0 || i == 1 || i == 2 || i == 3 || i == 4 || i == 5 || i == 6 || i == 7 || i == 8
            || i == 9 || i == 10 || i == 11);
    }
}

proof fn lemma_nearest(n: nat)
    ensures
        n - 2_500_000_000 <= formatting::nearest(n, 5_000_000_000) * 5_000_000_000 <= n
            + 2_500_000_000,
{
}

/// Calls from one address to one outside of this network, not alerted before
/// and by no program that may make them, are alerted with the packet that makes
/// the last five gaps between contacts nearly even: the mean is from five
/// seconds to five minutes and every gap within a tenth of it. A packet is a
/// contact when it comes more than four seconds after the last one.
#[verifier::rlimit(60)]
pub proof fn law_regular_calls_are_told(
    s: TrafficView,
    p: PacketView,
    now: u64,
    wall: u64,
    after: TrafficView,
    times: Seq<u64>,
)
    requires
        s.ingested(p, now, wall, after),
        s.watch.connection_intervals.dom().contains((p.src_ip, p.dst_ip)),
        s.watch.connection_intervals[(p.src_ip, p.dst_ip)] == times.drop_last(),
        6 <= times.len() <= 20,
        times.last() == now,
        forall|i: int, j: int| times.len() - 6 <= i <= j < times.len() ==> times[i] <= times[j],
        times[times.len() - 1] - times[times.len() - 2] > 4_000_000_000,
        5 * 5_000_000_000 <= times[times.len() - 1] - times[times.len() - 6] <= 5 * 300_000_000_000,
        forall|i: int|
            times.len() - 6 < i < times.len() ==> {
                let span = times[times.len() - 1] - times[times.len() - 6];
                -span <= 10 * (5 * (#[trigger] times[i] - times[i - 1]) - span) <= span
            },
        !at_home(p.dst_ip),
        !s.watch.beacon_alerted.contains((p.src_ip, p.dst_ip)),
        !may_call_home(text::lowered(s.caller(p))),
    ensures
        exists|seconds: nat|
            {
                let span = times[times.len() - 1] - times[times.len() - 6];
                let message = "BEACON DETECTED: "@ + net::ip_text(p.src_ip) + " -> "@ + net::ip_text(
                    p.dst_ip,
                ) + " \u{2014} regular interval ~"@ + #[trigger] text::dec(seconds)
                    + "s (possible C2 heartbeat)"@;
                &&& span - 2_500_000_000 <= seconds * 5_000_000_000 <= span + 2_500_000_000
                &&& after.alerts.behavioral.contains(
                    AlertView {
                        timestamp: wall,
                        message,
                        level: AlertLevel::Warn,
                        tier: AlertTier::Behavioral,
                        remote_ip: Some(p.dst_ip),
                        process: None,
                        reason: AlertReason::SuspiciousFlags,
                    },
                )
            },
{
    lemma_classes(p.dst_ip);
    let w = s.watch.after_flood(p, now);
    lemma_calls_regular(w, p, now, times);
    lemma_may_call_home(text::lowered(s.caller(p)));
    let a = w.beacon_alert(p, now, wall, s.caller(p))->0;
    let span = times[times.len() - 1] - times[times.len() - 6];
    let seconds = formatting::nearest(span as nat, 5_000_000_000);
    lemma_nearest(span as nat);
    let k = if s.watch.flood_alert(p, now, wall) is Some { 1int } else { 0int };
    assert(s.detected(p, now, wall)[k] == a);
    lemma_parts(s, p, now, wall, a);
    law_raised_alert_is_listed(s, p, now, wall, after, a);
    assert(text::dec(seconds) == text::dec(seconds));
}

proof fn lemma_calls_regular(w: WatchView, p: PacketView, now: u64, times: Seq<u64>)
    requires
        w.connection_intervals.dom().contains((p.src_ip, p.dst_ip)),
        w.connection_intervals[(p.src_ip, p.dst_ip)] == times.drop_last(),
        6 <= times.len() <= 20,
        times.last() == now,
        forall|i: int, j: int| times.len() - 6 <= i <= j < times.len() ==> times[i] <= times[j],
        times[times.len() - 1] - times[times.len() - 2] > 4_000_000_000,
        5 * 5_000_000_000 <= times[times.len() - 1] - times[times.len() - 6] <= 5 * 300_000_000_000,
        forall|i: int|
            times.len() - 6 < i < times.len() ==> {
                let span = times[times.len() - 1] - times[times.len() - 6];
                -span <= 10 * (5 * (#[trigger] times[i] - times[i - 1]) - span) <= span
            },
    ensures
        w.contacts(p, now) == times,
        watch::regular(times),
        watch::gap_sum(times) == times[times.len() - 1] - times[times.len() - 6],
{
    assert(times.drop_last().push(now) =~= times);
    watch::law_contact_after_pause(times.drop_last(), now);
    watch::law_nearly_even_gaps_regular(times);
    let n = times.len() as int;
    assert(times[n - 6] <= times[n - 5] <= times[n - 4] <= times[n - 3] <= times[n - 2] <= times[n
        - 1]);
}

proof fn lemma_parts(s: TrafficView, p: PacketView, now: u64, wall: u64, a: AlertView)
    ensures
        s.detected(p, now, wall).contains(a) ==> s.raised(p, now, wall).contains(a),
        !s.silenced(p) && s.ruled(p, now, wall).contains(a) ==> s.raised(p, now, wall).contains(a),
        s.fed(p) && s.noted(p, now, wall).contains(a) ==> s.raised(p, now, wall).contains(a),
{
    let d = s.detected(p, now, wall);
    let r = s.ruled(p, now, wall);
    let n = s.noted(p, now, wall);
    let all = s.raised(p, now, wall);
    if d.contains(a) {
        let i = choose|i: int| 0 <= i < d.len() && d[i] == a;
        assert(all[i] == a);
    }
    if !s.silenced(p) && r.contains(a) {
        let i = choose|i: int| 0 <= i < r.len() && r[i] == a;
        assert(all[d.len() + i] == a);
    }
    if s.fed(p) && n.contains(a) {
        let i = choose|i: int| 0 <= i < n.len() && n[i] == a;
        assert(all[d.len() + r.len() + i] == a);
    }
}

/// More than five responses of one DNS server outside of this network to one
/// address within a second are alerted, with the sixth of them.
#[verifier::rlimit(60)]
pub proof fn law_dns_flood_is_told(
    s: TrafficView,
    p: PacketView,
    now: u64,
    wall: u64,
    after: TrafficView,
    first: u64,
    seen: u64,
)
    requires
        s.ingested(p, now, wall, after),
        p.protocol == Protocol::Udp,
        p.src_port == Some(53u16),
        !inside(p.src_ip),
        s.watch.dns_response_counts.dom().contains((p.src_ip, p.dst_ip)),
        s.watch.dns_response_counts[(p.src_ip, p.dst_ip)] == (seen, first),
        5 <= seen < u64::MAX,
        first <= now <= first + 1_000_000_000,
        !s.watch.dns_poison_alerted.contains(net::ip_text(p.src_ip)),
    ensures
        after.alerts.suspicious.contains(
            AlertView {
                timestamp: wall,
                message: "DNS FLOOD DETECTED: "@ + net::ip_text(p.src_ip)
                    + " is sending abnormal DNS responses (possible poisoning attempt)"@,
                level: AlertLevel::Warn,
                tier: AlertTier::Suspicious,
                remote_ip: Some(p.src_ip),
                process: None,
                reason: AlertReason::SuspiciousFlags,
            },
        ),
        after.watch.dns_poison_alerted.contains(net::ip_text(p.src_ip)),
{
    lemma_classes(p.src_ip);
    let a = s.watch.flood_alert(p, now, wall)->0;
    assert(s.detected(p, now, wall)[0] == a);
    lemma_parts(s, p, now, wall, a);
    law_raised_alert_is_listed(s, p, now, wall, after, a);
}

/// The responses of a DNS server outside of this network to one address are
/// counted: from one when a second has passed since the first one of the
/// count, or when there is none.
#[verifier::rlimit(60)]
pub proof fn law_dns_responses_counted(
    s: TrafficView,
    p: PacketView,
    now: u64,
    wall: u64,
    after: TrafficView,
)
    requires
        s.ingested(p, now, wall, after),
    ensures
        ({
            let pair = (p.src_ip, p.dst_ip);
            let old = s.watch.dns_response_counts;
            let new = after.watch.dns_response_counts;
            if p.protocol != Protocol::Udp || p.src_port != Some(53u16) || inside(p.src_ip) {
                new == old
            } else if !old.dom().contains(pair) || now > old[pair].1 + 1_000_000_000 {
                new == old.insert(pair, (1, now))
            } else {
                old[pair].0 < u64::MAX ==> new == old.insert(
                    pair,
                    ((old[pair].0 + 1) as u64, old[pair].1),
                )
            }
        }),
{
    lemma_classes(p.src_ip);
}

/// A sender outside of this network that has tried twenty-five ports in it is
/// alerted with the twenty-sixth.
#[verifier::rlimit(60)]
pub proof fn law_port_scan_is_told(
    s: TrafficView,
    p: PacketView,
    now: u64,
    wall: u64,
    after: TrafficView,
    ports: Set<u16>,
)
    requires
        s.ingested(p, now, wall, after),
        p.protocol == Protocol::Tcp || p.protocol == Protocol::Udp,
        !inside(p.src_ip),
        inside(p.dst_ip),
        p.dst_port is Some,
        s.watch.src_port_targets.dom().contains(p.src_ip),
        s.watch.src_port_targets[p.src_ip] == ports,
        ports.finite(),
        ports.len() >= 25,
        !ports.contains(p.dst_port->0),
        !s.watch.port_scan_alerted.contains(p.src_ip),
    ensures
        after.alerts.suspicious.contains(
            AlertView {
                timestamp: wall,
                message: "PORT SCAN DETECTED: "@ + net::ip_text(p.src_ip) + " is probing "@
                    + text::dec(ports.len() + 1) + " unique ports (possible reconnaissance)"@,
                level: AlertLevel::Warn,
                tier: AlertTier::Suspicious,
                remote_ip: Some(p.src_ip),
                process: None,
                reason: AlertReason::SuspiciousFlags,
            },
        ),
        after.watch.port_scan_alerted.contains(p.src_ip),
{
    lemma_classes(p.src_ip);
    lemma_classes(p.dst_ip);
    let w = s.watch.after_flood(p, now).after_beacon(p, now, s.caller(p));
    assert(w.tried(p) == ports.insert(p.dst_port->0));
    let a = w.scan_alert(p, wall)->0;
    let d = s.detected(p, now, wall);
    assert(d[d.len() - 1] == a);
    lemma_parts(s, p, now, wall, a);
    law_raised_alert_is_listed(s, p, now, wall, after, a);
}

/// The ports that a sender outside of this network tries in it are remembered
/// until it is alerted.
#[verifier::rlimit(60)]
pub proof fn law_tried_ports_remembered(
    s: TrafficView,
    p: PacketView,
    now: u64,
    wall: u64,
    after: TrafficView,
)
    requires
        s.ingested(p, now, wall, after),
        p.dst_port is Some,
        forall|ip: IpAddr| s.watch.src_port_targets.dom().contains(ip)
            ==> (#[trigger] s.watch.src_port_targets[ip]).finite()
            && s.watch.src_port_targets[ip].len() < 25,
    ensures
        ({
            let old = s.watch.src_port_targets;
            let new = after.watch.src_port_targets;
            let tries = (p.protocol == Protocol::Tcp || p.protocol == Protocol::Udp) && !inside(
                p.src_ip,
            ) && inside(p.dst_ip);
            if !tries {
                new == old
            } else if old.dom().contains(p.src_ip) {
                new == old.insert(p.src_ip, old[p.src_ip].insert(p.dst_port->0))
            } else {
                new == old.insert(p.src_ip, Set::empty().insert(p.dst_port->0))
            }
        }),
{
    lemma_classes(p.src_ip);
    lemma_classes(p.dst_ip);
}

/// The packet that makes five hundred between two addresses is alerted.
#[verifier::rlimit(60)]
pub proof fn law_high_volume_is_told(
    s: TrafficView,
    p: PacketView,
    now: u64,
    wall: u64,
    after: TrafficView,
)
    requires
        s.ingested(p, now, wall, after),
        !s.whitelist.contains(p.src_ip),
        !s.whitelist.contains(p.dst_ip),
        s.flows.pair_packet_counts.dom().contains((p.src_ip, p.dst_ip)),
        499 <= s.flows.pair_packet_counts[(p.src_ip, p.dst_ip)] < u64::MAX,
        !s.watch.high_volume_alerted.contains((p.src_ip, p.dst_ip)),
    ensures
        after.alerts.behavioral.contains(
            AlertView {
                timestamp: wall,
                message: "High volume: "@ + net::ip_text(p.src_ip) + " \u{2192} "@ + net::ip_text(
                    p.dst_ip,
                ) + " exceeded 500 packets"@,
                level: AlertLevel::Warn,
                tier: AlertTier::Behavioral,
                remote_ip: None,
                process: Some(s.program(p)),
                reason: AlertReason::HighVolume,
            },
        ),
        after.watch.high_volume_alerted.contains((p.src_ip, p.dst_ip)),
{
    let r = s.ruled(p, now, wall);
    let a = rules::volume_alert(p.src_ip, p.dst_ip, s.context(p, wall));
    assert(s.much(p, now));
    assert(r[r.len() - 1] == a);
    lemma_parts(s, p, now, wall, a);
    law_raised_alert_is_listed(s, p, now, wall, after, a);
}

proof fn lemma_ruled(s: TrafficView, p: PacketView, now: u64, wall: u64, a: AlertView)
    ensures
        rules::port_alerts(p, s.context(p, wall)).contains(a) ==> s.ruled(p, now, wall).contains(a),
        p.protocol == Protocol::Tcp && p.flags is Some && rules::flag_alerts(
            p.flags->0,
            p.src_ip,
            s.context(p, wall),
        ).contains(a) ==> s.ruled(p, now, wall).contains(a),
        rules::control_alerts(p, s.context(p, wall)).contains(a) ==> s.ruled(p, now, wall).contains(
            a,
        ),
{
    let c = s.context(p, wall);
    let f = match p.flags {
        Some(f) if p.protocol == Protocol::Tcp => rules::flag_alerts(f, p.src_ip, c),
        _ => Seq::empty(),
    };
    let o = rules::port_alerts(p, c);
    let k = rules::control_alerts(p, c);
    let r = s.ruled(p, now, wall);
    if o.contains(a) {
        let i = choose|i: int| 0 <= i < o.len() && o[i] == a;
        assert(r[f.len() + i] == a);
    }
    if f.contains(a) {
        let i = choose|i: int| 0 <= i < f.len() && f[i] == a;
        assert(r[i] == a);
    }
    if k.contains(a) {
        let i = choose|i: int| 0 <= i < k.len() && k[i] == a;
        assert(r[f.len() + o.len() + i] == a);
    }
}

/// A packet to port 21, 23, 445 or 3389 of an address outside of this network
/// is alerted under the name of the service.
#[verifier::rlimit(60)]
pub proof fn law_sensitive_service_is_told(
    s: TrafficView,
    p: PacketView,
    now: u64,
    wall: u64,
    after: TrafficView,
    service: Seq<char>,
)
    requires
        s.ingested(p, now, wall, after),
        !s.whitelist.contains(p.src_ip),
        !s.whitelist.contains(p.dst_ip),
        !at_home(p.dst_ip),
        ({
            ||| p.dst_port == Some(21u16) && service == "FTP"@
            ||| p.dst_port == Some(23u16) && service == "Telnet"@
            ||| p.dst_port == Some(445u16) && service == "SMB"@
            ||| p.dst_port == Some(3389u16) && service == "RDP"@
        }),
    ensures
        after.alerts.suspicious.contains(
            AlertView {
                timestamp: wall,
                message: "Outbound "@ + service + " ("@ + text::dec(p.dst_port->0 as nat)
                    + ") \u{2192} "@ + net::ip_text(p.dst_ip) + s.names.place(p.dst_ip) + " ("@
                    + s.program(p) + ")"@,
                level: AlertLevel::Warn,
                tier: AlertTier::Suspicious,
                remote_ip: Some(p.dst_ip),
                process: Some(s.program(p)),
                reason: AlertReason::SensitivePort,
            },
        ),
{
    lemma_classes(p.dst_ip);
    let o = rules::port_alerts(p, s.context(p, wall));
    let a = o[0];
    lemma_ruled(s, p, now, wall, a);
    lemma_parts(s, p, now, wall, a);
    law_raised_alert_is_listed(s, p, now, wall, after, a);
}

/// A packet from outside of the private networks to a port below 1024 of an
/// address in them is alerted.
#[verifier::rlimit(60)]
pub proof fn law_inbound_is_told(
    s: TrafficView,
    p: PacketView,
    now: u64,
    wall: u64,
    after: TrafficView,
)
    requires
        s.ingested(p, now, wall, after),
        !s.whitelist.contains(p.src_ip),
        !s.whitelist.contains(p.dst_ip),
        inside(p.dst_ip),
        !inside(p.src_ip),
        p.dst_port is Some,
        p.dst_port->0 < 1024,
    ensures
        after.alerts.suspicious.contains(
            AlertView {
                timestamp: wall,
                message: "Inbound on port "@ + text::dec(p.dst_port->0 as nat) + " from "@
                    + net::ip_text(p.src_ip) + s.names.place(p.src_ip) + " ("@ + s.program(p) + ")"@,
                level: AlertLevel::Warn,
                tier: AlertTier::Suspicious,
                remote_ip: Some(p.src_ip),
                process: Some(s.program(p)),
                reason: AlertReason::InboundExternal,
            },
        ),
{
    lemma_classes(p.dst_ip);
    lemma_classes(p.src_ip);
    let o = rules::port_alerts(p, s.context(p, wall));
    let a = o[o.len() - 1];
    lemma_ruled(s, p, now, wall, a);
    lemma_parts(s, p, now, wall, a);
    law_raised_alert_is_listed(s, p, now, wall, after, a);
}

/// A control message from outside to an address in a private network is
/// alerted with its kind.
#[verifier::rlimit(60)]
pub proof fn law_control_message_is_told(
    s: TrafficView,
    p: PacketView,
    now: u64,
    wall: u64,
    after: TrafficView,
)
    requires
        s.ingested(p, now, wall, after),
        !s.whitelist.contains(p.src_ip),
        !s.whitelist.contains(p.dst_ip),
        p.protocol == Protocol::Icmp,
        p.flags is Some,
        inside(p.dst_ip),
        !at_home(p.src_ip),
        !between(p.src_ip, 0xA9FE_0000, 0xA9FE_FFFF),
    ensures
        after.alerts.suspicious.contains(
            AlertView {
                timestamp: wall,
                message: "ICMP "@ + p.flags->0 + " from "@ + net::ip_text(p.src_ip) + s.names.place(
                    p.src_ip,
                ),
                level: AlertLevel::Warn,
                tier: AlertTier::Suspicious,
                remote_ip: Some(p.src_ip),
                process: Some(s.program(p)),
                reason: AlertReason::InboundExternal,
            },
        ),
{
    lemma_classes(p.dst_ip);
    lemma_classes(p.src_ip);
    let a = rules::control_alerts(p, s.context(p, wall))[0];
    lemma_ruled(s, p, now, wall, a);
    lemma_parts(s, p, now, wall, a);
    law_raised_alert_is_listed(s, p, now, wall, after, a);
}

/// A segment with flags that no ordinary one has is alerted: both SYN and FIN,
/// SYN and PSH without ACK, none at all, or FIN, PSH and URG.
#[verifier::rlimit(60)]
pub proof fn law_strange_flags_are_told(
    s: TrafficView,
    p: PacketView,
    now: u64,
    wall: u64,
    after: TrafficView,
    flags: Seq<char>,
    head: Seq<char>,
    tail: Seq<char>,
)
    requires
        s.ingested(p, now, wall, after),
        !s.whitelist.contains(p.src_ip),
        !s.whitelist.contains(p.dst_ip),
        p.protocol == Protocol::Tcp,
        p.flags == Some(flags),
        ({
            ||| text::contains(flags, "SYN"@) && text::contains(flags, "FIN"@) && head
                == "Illegal flags SYN+FIN from "@ && tail == " (possible OS fingerprint) ("@
            ||| text::contains(flags, "SYN"@) && text::contains(flags, "PSH"@) && !text::contains(
                flags,
                "ACK"@,
            ) && head == "Illegal flags SYN+PSH from "@ && tail == " (data before handshake) ("@
            ||| flags == "\u{2014}"@ && head == "NULL scan from "@ && tail
                == " \u{2014} no TCP flags set ("@
            ||| text::contains(flags, "FIN"@) && text::contains(flags, "PSH"@) && text::contains(
                flags,
                "URG"@,
            ) && head == "Xmas scan from "@ && tail == " \u{2014} FIN+PSH+URG ("@
        }),
    ensures
        after.alerts.suspicious.contains(
            AlertView {
                timestamp: wall,
                message: head + net::ip_text(p.src_ip) + tail + s.program(p) + ")"@,
                level: AlertLevel::Warn,
                tier: AlertTier::Suspicious,
                remote_ip: Some(p.src_ip),
                process: Some(s.program(p)),
                reason: AlertReason::SuspiciousFlags,
            },
        ),
{
    let c = s.context(p, wall);
    let f = rules::flag_alerts(flags, p.src_ip, c);
    let a = rules::suspicious(
        c,
        rules::flags_message(head, p.src_ip, tail, c),
        p.src_ip,
        AlertReason::SuspiciousFlags,
    );
    let syn = text::contains(flags, "SYN"@);
    let fin = text::contains(flags, "FIN"@);
    let psh = text::contains(flags, "PSH"@);
    let one = if syn && fin { 1int } else { 0int };
    let two = if syn && psh && !text::contains(flags, "ACK"@) { one + 1 } else { one };
    if head == "Illegal flags SYN+FIN from "@ && syn && fin && tail == " (possible OS fingerprint) ("@ {
        assert(f[0] == a);
    } else if head == "Illegal flags SYN+PSH from "@ && two > one && tail
        == " (data before handshake) ("@ {
        assert(f[one] == a);
    } else if flags == "\u{2014}"@ && head == "NULL scan from "@ && tail
        == " \u{2014} no TCP flags set ("@ {
        assert(f[two] == a);
    } else {
        assert(f[f.len() - 1] == a);
    }
    lemma_ruled(s, p, now, wall, a);
    lemma_parts(s, p, now, wall, a);
    law_raised_alert_is_listed(s, p, now, wall, after, a);
}

/// Whether an address is that of a service that is trusted, by the name that
/// is known of it.
pub open spec fn trusted(s: TrafficView, ip: IpAddr) -> bool {
    ||| net::ip_text(ip) == "208.95.112.1"@
    ||| s.names.dns_cache.dom().contains(ip) && text::contains(s.names.dns_cache[ip], "ip-api.com"@)
    ||| s.names.dns_cache.dom().contains(ip) && text::contains(
        s.names.dns_cache[ip],
        "malwarebytes"@,
    )
}

proof fn lemma_fed(s: TrafficView, p: PacketView)
    requires
        p.dns_answers is None,
        p.domain_hint is None,
    ensures
        s.fed(p) == (!s.whitelist.contains(p.src_ip) && !s.whitelist.contains(p.dst_ip) && !trusted(
            s,
            p.src_ip,
        ) && !trusted(s, p.dst_ip)),
{
}

/// A packet goes into the feed unless one of its addresses is on the whitelist
/// or that of a service that is trusted.
#[verifier::rlimit(60)]
pub proof fn law_packets_fed(s: TrafficView, p: PacketView, now: u64, wall: u64, after: TrafficView)
    requires
        s.ingested(p, now, wall, after),
        p.dns_answers is None,
        p.domain_hint is None,
    ensures
        ({
            let shown = !s.whitelist.contains(p.src_ip) && !s.whitelist.contains(p.dst_ip)
                && !trusted(s, p.src_ip) && !trusted(s, p.dst_ip);
            &&& shown ==> after.feeds == s.feeds.with(now, p)
            &&& !shown ==> after.feeds == s.feeds
        }),
{
    lemma_fed(s, p);
}

/// Organisations whose addresses are no news.
pub open spec fn common_organisation(org: Seq<char>) -> bool {
    ||| text::contains(org, "Google LLC"@)
    ||| text::contains(org, "Google Cloud"@)
    ||| text::contains(org, "Cloudflare"@)
    ||| text::contains(org, "Amazon"@)
    ||| text::contains(org, "Microsoft"@)
    ||| text::contains(org, "Akamai"@)
    ||| text::contains(org, "Fastly"@)
    ||| text::contains(org, "Meta "@)
    ||| text::contains(org, "Apple Inc"@)
    ||| text::contains(org, "Anthropic"@)
    ||| text::contains(org, "Akamaitech"@)
    ||| text::contains(org, "AS13335"@)
    ||| text::contains(org, "AS15169"@)
}

proof fn lemma_common_organisation(org: Seq<char>)
    ensures
        text::contains_any(org, TRUSTED_ORGS@) == common_organisation(org),
{
    let t = TRUSTED_ORGS@;
    assert(t.len() == 13);
    assert(t[0]@ == "Google LLC"@ && t[1]@ == "Google Cloud"@ && t[2]@ == "Cloudflare"@ && t[3]@
        == "Amazon"@ && t[4]@ == "Microsoft"@ && t[5]@ == "Akamai"@ && t[6]@ == "Fastly"@ && t[7]@
        == "Meta "@ && t[8]@ == "Apple Inc"@ && t[9]@ == "Anthropic"@ && t[10]@ == "Akamaitech"@
        && t[11]@ == "AS13335"@ && t[12]@ == "AS15169"@);
    if text::contains_any(org, t) {
        let i = choose|i: int| 0 <= i < t.len() && text::contains(org, #[trigger] t[i]@);
        assert(i == 0 || i == 1 || i == 2 || i == 3 || i == 4 || i == 5 || i == 6 || i == 7 || i == 8
            || i == 9 || i == 10 || i == 11 || i == 12);
    }
}

/// The first packet of a connection to an address outside of this network that
/// was not contacted before is told: as noise where the address belongs to a
/// common organisation, as external otherwise.
#[verifier::rlimit(60)]
pub proof fn law_first_contact_is_told(
    s: TrafficView,
    p: PacketView,
    now: u64,
    wall: u64,
    after: TrafficView,
)
    requires
        s.ingested(p, now, wall, after),
        p.dns_answers is None,
        p.domain_hint is None,
        !s.whitelist.contains(p.src_ip),
        !s.whitelist.contains(p.dst_ip),
        !trusted(s, p.src_ip),
        !trusted(s, p.dst_ip),
        !at_home(p.dst_ip),
        p.dst_port is Some,
        !s.watch.external_alerted.contains(p.dst_ip),
        forall|k: ConnKey|
            s.flows.connections.dom().contains(k) ==> #[trigger] k.src != p.src_ip || k.dst
                != p.dst_ip || k.port != p.dst_port,
    ensures
        ({
            let known = s.names.geo_cache.dom().contains(p.dst_ip);
            let common = known && common_organisation(s.names.geo_cache[p.dst_ip].org);
            let a = AlertView {
                timestamp: wall,
                message: "Outbound \u{2192} "@ + net::ip_text(p.dst_ip) + ":"@ + text::dec(
                    p.dst_port->0 as nat,
                ) + s.names.place(p.dst_ip) + " ("@ + s.program(p) + ")"@,
                level: AlertLevel::Info,
                tier: if common { AlertTier::Noise } else { AlertTier::External },
                remote_ip: Some(p.dst_ip),
                process: Some(s.program(p)),
                reason: AlertReason::OutboundPublic,
            };
            &&& common ==> after.alerts.noise.contains(a)
            &&& !common ==> after.alerts.external.contains(a)
            &&& after.watch.external_alerted.contains(p.dst_ip)
        }),
{
    lemma_classes(p.dst_ip);
    lemma_fed(s, p);
    lemma_first_packet(s, p, now);
    match s.names.org(p.dst_ip) {
        Some(o) => {
            lemma_common_organisation(o);
        },
        None => {},
    }
    let a = rules::contact_alert(p, s.names.org(p.dst_ip), s.context(p, wall));
    assert(s.noted(p, now, wall)[0] == a);
    lemma_parts(s, p, now, wall, a);
    law_raised_alert_is_listed(s, p, now, wall, after, a);
}

proof fn lemma_first_packet(s: TrafficView, p: PacketView, now: u64)
    requires
        forall|k: ConnKey|
            s.flows.connections.dom().contains(k) ==> #[trigger] k.src != p.src_ip || k.dst
                != p.dst_ip || k.port != p.dst_port,
    ensures
        s.opens(p, now),
{
    let k = flows::conn_key(p);
    assert(!s.flows.connections.dom().contains(k)) by {
        assert(k.src == p.src_ip);
    }
}

/// The first packet of a connection by which devices find each other is told
/// as noise: one to 224.0.0.251, 239.255.255.250 or 255.255.255.255, or one
/// from or to a port of such a service.
#[verifier::rlimit(60)]
pub proof fn law_discovery_is_told(
    s: TrafficView,
    p: PacketView,
    now: u64,
    wall: u64,
    after: TrafficView,
    port: u16,
)
    requires
        s.ingested(p, now, wall, after),
        p.dns_answers is None,
        p.domain_hint is None,
        !s.whitelist.contains(p.src_ip),
        !s.whitelist.contains(p.dst_ip),
        !trusted(s, p.src_ip),
        !trusted(s, p.dst_ip),
        p.dst_port is Some,
        ({
            let found = port == 1900 || port == 3702 || port == 5353 || port == 5355 || port == 67
                || port == 68 || port == 137 || port == 138 || port == 139;
            ||| net::ip_text(p.dst_ip) == "224.0.0.251"@
            ||| net::ip_text(p.dst_ip) == "239.255.255.250"@
            ||| net::ip_text(p.dst_ip) == "255.255.255.255"@
            ||| found && p.dst_port == Some(port)
            ||| found && p.src_port == Some(port)
        }),
        forall|k: ConnKey|
            s.flows.connections.dom().contains(k) ==> #[trigger] k.src != p.src_ip || k.dst
                != p.dst_ip || k.port != p.dst_port,
    ensures
        after.alerts.noise.contains(
            AlertView {
                timestamp: wall,
                message: "Local discovery: "@ + p.protocol.name() + " "@ + net::ip_text(p.src_ip)
                    + " \u{2192} "@ + net::ip_text(p.dst_ip) + " port "@ + text::dec(
                    p.dst_port->0 as nat,
                ),
                level: AlertLevel::Info,
                tier: AlertTier::Noise,
                remote_ip: None,
                process: Some(s.program(p)),
                reason: AlertReason::LocalBroadcast,
            },
        ),
{
    lemma_fed(s, p);
    lemma_first_packet(s, p, now);
    let a = rules::discovery_alert(p, s.context(p, wall));
    let n = s.noted(p, now, wall);
    assert(n[n.len() - 1] == a);
    lemma_parts(s, p, now, wall, a);
    law_raised_alert_is_listed(s, p, now, wall, after, a);
}

proof fn lemma_tier_stays(log: LogView, s: Seq<AlertView>, tier: AlertTier)
    requires
        forall|i: int| 0 <= i < s.len() ==> (#[trigger] s[i]).tier != tier,
    ensures
        listed(log.with_all(s), tier) == listed(log, tier),
    decreases s.len(),
{
    if s.len() > 0 {
        assert(s.last() == s[s.len() - 1]);
        assert forall|i: int| 0 <= i < s.drop_last().len() implies (
        #[trigger] s.drop_last()[i]).tier != tier by {
            assert(s.drop_last()[i] == s[i]);
        }
        lemma_tier_stays(log, s.drop_last(), tier);
    }
}

/// Nothing is told of behaviour while the calls between two addresses are not
/// regular and fewer than five hundred packets have passed between them. The
/// calls are not regular when there were fewer than six, when their mean gap
/// is below five seconds or above five minutes, or when one of the last five
/// gaps is further than half of the mean from it.
#[verifier::rlimit(60)]
pub proof fn law_ordinary_calls_are_not_told(
    s: TrafficView,
    p: PacketView,
    now: u64,
    wall: u64,
    after: TrafficView,
    times: Seq<u64>,
)
    requires
        s.ingested(p, now, wall, after),
        times.len() <= 20,
        s.flows.pair_packet_counts.dom().contains((p.src_ip, p.dst_ip))
            ==> s.flows.pair_packet_counts[(p.src_ip, p.dst_ip)] < 499,
        times.len() > 0 && times.last() == now,
        times.len() >= 2 ==> times[times.len() - 2] <= now && now - times[times.len() - 2]
            > 4_000_000_000,
        s.watch.connection_intervals.dom().contains((p.src_ip, p.dst_ip))
            ==> s.watch.connection_intervals[(p.src_ip, p.dst_ip)] == times.drop_last(),
        !s.watch.connection_intervals.dom().contains((p.src_ip, p.dst_ip)) ==> times.len() == 1,
        times.len() >= 6 ==> forall|i: int, j: int|
            times.len() - 6 <= i <= j < times.len() ==> times[i] <= times[j],
        ({
            let span = times[times.len() - 1] - times[times.len() - 6];
            ||| at_home(p.dst_ip)
            ||| s.watch.beacon_alerted.contains((p.src_ip, p.dst_ip))
            ||| may_call_home(text::lowered(s.caller(p)))
            ||| times.len() < 6
            ||| span < 5 * 5_000_000_000
            ||| span > 5 * 300_000_000_000
            ||| exists|i: int|
                times.len() - 6 < i < times.len() && (2 * (5 * (#[trigger] times[i] - times[i - 1])
                    - span) > span || 2 * (5 * (times[i] - times[i - 1]) - span) < -span)
        }),
    ensures
        after.alerts.behavioral == s.alerts.behavioral,
{
    let w = s.watch.after_flood(p, now);
    lemma_classes(p.dst_ip);
    lemma_may_call_home(text::lowered(s.caller(p)));
    let old = watch::contacts_at(w.connection_intervals, (p.src_ip, p.dst_ip));
    assert(old =~= times.drop_last());
    watch::law_contact_after_pause(old, now);
    assert(times.drop_last().push(now) =~= times);
    assert(times.len() >= 2 ==> old.last() == times[times.len() - 2]);
    assert(w.contacts(p, now) =~= times);
    if !at_home(p.dst_ip) && !s.watch.beacon_alerted.contains((p.src_ip, p.dst_ip))
        && !may_call_home(text::lowered(s.caller(p))) {
        watch::law_uneven_gaps_not_regular(times);
    }
    assert(w.beacon_alert(p, now, wall, s.caller(p)) is None);
    assert(!s.much(p, now));
    let r = s.raised(p, now, wall);
    lemma_rules_suspicious(p, s.context(p, wall));
    let d = s.detected(p, now, wall);
    let m = s.ruled(p, now, wall);
    let n = s.noted(p, now, wall);
    assert forall|i: int| 0 <= i < r.len() implies (#[trigger] r[i]).tier != AlertTier::Behavioral by {
        if i < d.len() {
            assert(r[i] == d[i]);
        } else if i < d.len() + m.len() {
            assert(r[i] == m[i - d.len()]);
            assert(m =~= rules::packet_alerts(p, s.context(p, wall)));
        } else {
            assert(r[i] == n[i - d.len() - m.len()]);
        }
    }
    lemma_tier_stays(s.alerts, r, AlertTier::Behavioral);
}

proof fn lemma_rules_suspicious(p: PacketView, c: ContextView)
    ensures
        forall|i: int|
            0 <= i < rules::packet_alerts(p, c).len() ==> (#[trigger] rules::packet_alerts(p, c)[i]).tier
                == AlertTier::Suspicious,
{
    let f = match p.flags {
        Some(f) if p.protocol == Protocol::Tcp => rules::flag_alerts(f, p.src_ip, c),
        _ => Seq::empty(),
    };
    let o = rules::port_alerts(p, c);
    let k = rules::control_alerts(p, c);
    assert forall|i: int| 0 <= i < f.len() implies (#[trigger] f[i]).tier == AlertTier::Suspicious by {}
    assert forall|i: int| 0 <= i < o.len() implies (#[trigger] o[i]).tier == AlertTier::Suspicious by {}
    assert forall|i: int| 0 <= i < k.len() implies (#[trigger] k[i]).tier == AlertTier::Suspicious by {}
    let all = rules::packet_alerts(p, c);
    assert forall|i: int| 0 <= i < all.len() implies (#[trigger] all[i]).tier
        == AlertTier::Suspicious by {
        if i < f.len() {
            assert(all[i] == f[i]);
        } else if i < f.len() + o.len() {
            assert(all[i] == o[i - f.len()]);
        } else {
            assert(all[i] == k[i - f.len() - o.len()]);
        }
    }
}

/// Nothing suspicious is told of an ordinary packet: one that is no response of
/// a DNS server, with ordinary flags, from a port inside or to a port from
/// 1024 on that is no sensitive one, from a sender that tried few ports.
#[verifier::rlimit(60)]
pub proof fn law_ordinary_packets_are_not_suspicious(
    s: TrafficView,
    p: PacketView,
    now: u64,
    wall: u64,
    after: TrafficView,
)
    requires
        s.ingested(p, now, wall, after),
        p.protocol == Protocol::Tcp || p.protocol == Protocol::Udp,
        p.protocol == Protocol::Tcp || p.src_port != Some(53u16) || inside(p.src_ip),
        p.protocol == Protocol::Tcp && p.flags is Some ==> {
            let f = p.flags->0;
            &&& f != "\u{2014}"@
            &&& !text::contains(f, "SYN"@) || !text::contains(f, "FIN"@) && !text::contains(f, "PSH"@)
            &&& !text::contains(f, "FIN"@) || !text::contains(f, "PSH"@) || !text::contains(f, "URG"@)
        },
        p.dst_port is Some ==> {
            let port = p.dst_port->0;
            &&& at_home(p.dst_ip) || port != 21 && port != 23 && port != 445 && port != 3389
            &&& !inside(p.dst_ip) || inside(p.src_ip) || port >= 1024
        },
        s.watch.src_port_targets.dom().contains(p.src_ip) ==> s.watch.src_port_targets[p.src_ip].finite()
            && s.watch.src_port_targets[p.src_ip].len() < 25,
    ensures
        after.alerts.suspicious == s.alerts.suspicious,
{
    lemma_classes(p.dst_ip);
    lemma_classes(p.src_ip);
    let a = s.watch.after_flood(p, now);
    let b = a.after_beacon(p, now, s.caller(p));
    assert(s.watch.flood_alert(p, now, wall) is None);
    if p.dst_port is Some {
        let old = watch::ports_at(b.src_port_targets, p.src_ip);
        assert(old.finite() && old.len() < 25);
        assert(b.tried(p).len() <= old.len() + 1);
    }
    assert(b.scan_alert(p, wall) is None);
    let c = s.context(p, wall);
    assert(rules::packet_alerts(p, c) =~= Seq::<AlertView>::empty());
    let r = s.raised(p, now, wall);
    let d = s.detected(p, now, wall);
    let m = s.ruled(p, now, wall);
    let n = s.noted(p, now, wall);
    assert forall|i: int| 0 <= i < r.len() implies (#[trigger] r[i]).tier != AlertTier::Suspicious by {
        if i < d.len() {
            assert(r[i] == d[i]);
        } else if i < d.len() + m.len() {
            assert(r[i] == m[i - d.len()]);
        } else {
            assert(r[i] == n[i - d.len() - m.len()]);
        }
    }
    lemma_tier_stays(s.alerts, r, AlertTier::Suspicious);
}

/// A guess about the system of a sender in a private network, when it is the
/// first and the sender no known device.
#[verifier::rlimit(60)]
pub proof fn law_first_guess_is_kept(
    s: TrafficView,
    p: PacketView,
    now: u64,
    wall: u64,
    after: TrafficView,
    src: u32,
    ttl: u8,
)
    requires
        s.ingested(p, now, wall, after),
        p.src_ip == IpAddr::V4(src),
        inside(p.src_ip),
        !s.active.dom().contains(p.src_ip),
        !s.names.os_fingerprints.dom().contains(p.src_ip),
        p.ttl == Some(ttl),
        ttl > 0,
    ensures
        after.names.os_fingerprints.dom().contains(p.src_ip),
        ({
            let guess = after.names.os_fingerprints[p.src_ip];
            let window = p.tcp_window;
            &&& guess.1 == 1
            &&& ttl <= 64 && window != Some(65535u16) && window != Some(64240u16) ==> guess.0
                == "[Lin]"@
            &&& ttl <= 64 && window == Some(65535u16) ==> guess.0 == "[Mac]"@
            &&& ttl <= 64 && window == Some(64240u16) ==> guess.0 == "[Win]"@
            &&& 65 <= ttl <= 128 ==> guess.0 == "[Win]"@
            &&& ttl > 128 ==> guess.0 == "[Net]"@
        }),
{
    fingerprint::law_first_guess(s.names.os_fingerprints, src, ttl, p.tcp_window, s.active);
}

/// The program of a packet is the one that it came with, unless that is
/// unknown; otherwise the one that is known of the port and the protocol of
/// its sender.
pub proof fn law_program_of_packet(s: TrafficView, p: PacketView, port: u16)
    requires
        p.src_port == Some(port),
    ensures
        p.process is Some && p.process->0 != "unknown"@ ==> s.program(p) == p.process->0,
        p.process is None || p.process->0 == "unknown"@ ==> {
            let key = process::port_key(port, p.protocol);
            &&& s.programs.dom().contains(key) ==> s.program(p) == s.programs[key]
            &&& !s.programs.dom().contains(key) ==> s.program(p) == "unknown"@
        },
        ({
            let key = process::port_key(port, p.protocol);
            &&& s.programs.dom().contains(key) ==> s.caller(p) == s.programs[key]
            &&& !s.programs.dom().contains(key) ==> s.caller(p).len() == 0
        }),
{
}

/// What is counted of a packet between two addresses: the bytes to the one it
/// goes to, the packets and bytes of its connection, and the packets of its
/// sender and of the two addresses.
#[verifier::rlimit(60)]
pub proof fn law_packet_is_counted(
    s: TrafficView,
    p: PacketView,
    now: u64,
    wall: u64,
    after: TrafficView,
    key: ConnKey,
    size: u64,
)
    requires
        s.ingested(p, now, wall, after),
        s.room(p, now),
        key.src == p.src_ip && key.dst == p.dst_ip && key.port == p.dst_port,
        size == p.size,
    ensures
        ({
            let old = s.flows;
            let new = after.flows;
            let pair = (p.src_ip, p.dst_ip);
            let known = old.connections.dom().contains(key);
            let c = new.connections[key];
            &&& new.connections.dom() == old.connections.dom().insert(key)
            &&& known ==> c.packets == old.connections[key].packets + 1 && c.bytes
                == old.connections[key].bytes + size
            &&& !known ==> c.packets == 1 && c.bytes == size && c.process == Some(s.program(p))
            &&& known && old.connections[key].process is Some && old.connections[key].process->0
                != "unknown"@ ==> c.process == old.connections[key].process
            &&& known && old.connections[key].process == Some("unknown"@) ==> c.process == Some(
                s.program(p),
            )
            &&& old.connection_first_seen.dom().contains(key) && old.connection_first_seen[key] <= now
                ==> c.duration == now - old.connection_first_seen[key]
            &&& !old.connection_first_seen.dom().contains(key) ==> c.duration == 0
                && new.connection_first_seen == old.connection_first_seen.insert(key, now)
            &&& old.connection_first_seen.dom().contains(key) ==> new.connection_first_seen
                == old.connection_first_seen
            &&& old.dest_bytes.dom().contains(p.dst_ip) ==> new.dest_bytes[p.dst_ip]
                == old.dest_bytes[p.dst_ip] + size
            &&& !old.dest_bytes.dom().contains(p.dst_ip) ==> new.dest_bytes[p.dst_ip] == size
            &&& old.src_packet_counts.dom().contains(p.src_ip) ==> new.src_packet_counts[p.src_ip]
                == old.src_packet_counts[p.src_ip] + 1
            &&& !old.src_packet_counts.dom().contains(p.src_ip) ==> new.src_packet_counts[p.src_ip]
                == 1
            &&& old.pair_packet_counts.dom().contains(pair) ==> new.pair_packet_counts[pair]
                == old.pair_packet_counts[pair] + 1
            &&& !old.pair_packet_counts.dom().contains(pair) ==> new.pair_packet_counts[pair] == 1
            &&& new.edge_last_seen == old.edge_last_seen.insert(pair, now)
            &&& old.edge_first_seen.dom().contains(pair) ==> new.edge_first_seen
                == old.edge_first_seen
            &&& !old.edge_first_seen.dom().contains(pair) ==> new.edge_first_seen
                == old.edge_first_seen.insert(pair, now)
            &&& new.unique_ips == old.unique_ips.insert(p.src_ip).insert(p.dst_ip)
        }),
{
    assert(flows::conn_key(p) == key);
}

/// A packet is counted among those of its protocol, and with its bytes.
#[verifier::rlimit(60)]
pub proof fn law_protocols_are_counted(
    s: TrafficView,
    p: PacketView,
    now: u64,
    wall: u64,
    after: TrafficView,
    size: u64,
)
    requires
        s.ingested(p, now, wall, after),
        s.room(p, now),
        size == p.size,
    ensures
        after.counters.total_packets == s.counters.total_packets + 1,
        after.counters.total_bytes == s.counters.total_bytes + size,
        after.counters.current_second_packets == s.counters.current_second_packets + 1,
        after.counters.current_second_bytes == s.counters.current_second_bytes + size,
        after.counters.tcp_count == s.counters.tcp_count + if p.protocol == Protocol::Tcp {
            1int
        } else {
            0
        },
        after.counters.udp_count == s.counters.udp_count + if p.protocol == Protocol::Udp {
            1int
        } else {
            0
        },
        after.counters.bytes_history == s.counters.bytes_history,
        after.counters.last_tick == s.counters.last_tick,
{
}

/// A control message is counted among the control messages.
#[verifier::rlimit(60)]
pub proof fn law_control_messages_are_counted(
    s: TrafficView,
    p: PacketView,
    now: u64,
    wall: u64,
    after: TrafficView,
)
    requires
        s.ingested(p, now, wall, after),
        s.room(p, now),
    ensures
        after.counters.icmp_count == s.counters.icmp_count + if p.protocol == Protocol::Icmp {
            1int
        } else {
            0
        },
{
}

/// What a sender in a private network sends is added to its profile, and what
/// a receiver in one gets to its own; profiles of other addresses stay.
#[verifier::rlimit(60)]
pub proof fn law_profiles_follow_traffic(
    s: TrafficView,
    p: PacketView,
    now: u64,
    wall: u64,
    after: TrafficView,
    size: u64,
)
    requires
        s.ingested(p, now, wall, after),
        s.room(p, now),
        size == p.size,
        p.src_ip != p.dst_ip,
    ensures
        ({
            let from = traffic::current_profile(s.profiles, p.src_ip, now);
            let to = traffic::current_profile(s.profiles, p.dst_ip, now);
            let sent = after.profiles[p.src_ip];
            let got = after.profiles[p.dst_ip];
            &&& inside(p.src_ip) ==> {
                &&& after.profiles.dom().contains(p.src_ip)
                &&& sent.upload_bytes == from.upload_bytes + size
                &&& sent.download_bytes == from.download_bytes
                &&& sent.unique_dsts == from.unique_dsts.insert(p.dst_ip)
                &&& sent.last_reset == from.last_reset
                &&& p.protocol == Protocol::Tcp ==> sent.tcp_packets == from.tcp_packets + 1
                    && sent.udp_packets == from.udp_packets
                &&& p.protocol == Protocol::Udp ==> sent.udp_packets == from.udp_packets + 1
                    && sent.tcp_packets == from.tcp_packets
                &&& p.dst_port is Some ==> sent.port_counts[p.dst_port->0] == traffic::port_count(
                    from.port_counts,
                    p.dst_port->0,
                ) + 1
                &&& p.dst_port is None ==> sent.port_counts == from.port_counts
            }
            &&& inside(p.dst_ip) ==> {
                &&& after.profiles.dom().contains(p.dst_ip)
                &&& got.download_bytes == to.download_bytes + size
                &&& got.upload_bytes == to.upload_bytes
                &&& got.tcp_packets == to.tcp_packets
                &&& got.udp_packets == to.udp_packets
                &&& got.unique_dsts == to.unique_dsts
            }
            &&& forall|ip: IpAddr|
                (ip != p.src_ip || !inside(ip)) && (ip != p.dst_ip || !inside(ip))
                    ==> after.profiles.dom().contains(ip) == s.profiles.dom().contains(ip) && (
                s.profiles.dom().contains(ip) ==> #[trigger] after.profiles[ip] == s.profiles[ip])
        }),
{
    lemma_classes(p.src_ip);
    lemma_classes(p.dst_ip);
}

/// A name that comes with a packet is kept for the address it goes to, if none
/// is known of it; an answer names every address in it.
#[verifier::rlimit(60)]
pub proof fn law_names_are_learnt(
    s: TrafficView,
    p: PacketView,
    now: u64,
    wall: u64,
    after: TrafficView,
    name: Seq<char>,
)
    requires
        s.ingested(p, now, wall, after),
    ensures
        p.dns_answers is None && p.domain_hint == Some(name) ==> {
            &&& after.names.dns_cache.dom().contains(p.dst_ip)
            &&& !s.names.dns_cache.dom().contains(p.dst_ip) ==> after.names.dns_cache
                == s.names.dns_cache.insert(p.dst_ip, name)
            &&& s.names.dns_cache.dom().contains(p.dst_ip) ==> after.names.dns_cache
                == s.names.dns_cache
        },
        p.dns_answers is None && p.domain_hint is None ==> after.names.dns_cache
            == s.names.dns_cache,
        p.dns_answers is Some && p.domain_hint is None ==> {
            let (told, ips) = p.dns_answers->0;
            forall|i: int|
                0 <= i < ips.len() ==> after.names.dns_cache.dom().contains(#[trigger] ips[i])
                    && after.names.dns_cache[ips[i]] == told
        },
        after.names.geo_cache == s.names.geo_cache,
        after.names.dhcp_fingerprints == s.names.dhcp_fingerprints,
{
    match p.dns_answers {
        Some((told, ips)) => {
            assert forall|i: int| 0 <= i < ips.len() implies names::named_all(
                s.names.dns_cache,
                ips,
                told,
            ).dom().contains(#[trigger] ips[i]) && names::named_all(s.names.dns_cache, ips, told)[ips[i]]
                == told by {
                names::law_response_names_addresses(s.names.dns_cache, ips, told, i);
            }
        },
        None => {},
    }
}

/// A packet goes to the end of the feed of its protocol; a feed of two
/// thousand loses its oldest packet.
pub proof fn law_feed_takes_packet(f: FeedsView, now: u64, p: PacketView)
    requires
        f.feed_tcp.len() <= 2000 && f.feed_udp.len() <= 2000,
    ensures
        p.protocol == Protocol::Tcp ==> {
            let g = f.with(now, p);
            &&& g.feed_tcp.len() > 0 && g.feed_tcp.last() == (now, p)
            &&& f.feed_tcp.len() < 2000 ==> g.feed_tcp == f.feed_tcp.push((now, p))
            &&& f.feed_tcp.len() == 2000 ==> g.feed_tcp == f.feed_tcp.skip(1).push((now, p))
            &&& g.feed_udp == f.feed_udp
        },
        p.protocol == Protocol::Udp ==> {
            let g = f.with(now, p);
            &&& g.feed_udp.len() > 0 && g.feed_udp.last() == (now, p)
            &&& f.feed_udp.len() < 2000 ==> g.feed_udp == f.feed_udp.push((now, p))
            &&& f.feed_udp.len() == 2000 ==> g.feed_udp == f.feed_udp.skip(1).push((now, p))
            &&& g.feed_tcp == f.feed_tcp
        },
        p.protocol == Protocol::Tcp || p.protocol == Protocol::Udp ==> f.with(now, p).feed_icmp
            == f.feed_icmp,
{
}

/// A control message goes to the end of the feed of control messages.
pub proof fn law_feed_takes_control_message(f: FeedsView, now: u64, p: PacketView)
    requires
        f.feed_icmp.len() <= 2000,
        p.protocol == Protocol::Icmp,
    ensures
        ({
            let g = f.with(now, p);
            &&& g.feed_icmp.len() > 0 && g.feed_icmp.last() == (now, p)
            &&& f.feed_icmp.len() < 2000 ==> g.feed_icmp == f.feed_icmp.push((now, p))
            &&& f.feed_icmp.len() == 2000 ==> g.feed_icmp == f.feed_icmp.skip(1).push((now, p))
            &&& g.feed_tcp == f.feed_tcp
            &&& g.feed_udp == f.feed_udp
        }),
{
}

/// Both ends of a packet are on the map as seen now, but for addresses of
/// groups and of all hosts; what else is on the map stays.
#[verifier::rlimit(60)]
pub proof fn law_ends_on_map(
    s: TrafficView,
    p: PacketView,
    now: u64,
    wall: u64,
    after: TrafficView,
    ip: IpAddr,
)
    requires
        s.ingested(p, now, wall, after),
        ip is V4,
        p.dst_ip is V4,
        p.src_ip is V4,
    ensures
        ({
            let many = between(ip, 0xE000_0000, 0xEFFF_FFFF) || between(ip, 0xFFFF_FFFF, 0xFFFF_FFFF);
            &&& (ip == p.src_ip || ip == p.dst_ip) && !many ==> after.nodes.dom().contains(ip)
                && after.nodes[ip].last_seen == now
            &&& ip != p.src_ip && ip != p.dst_ip || many ==> after.nodes.dom().contains(ip)
                == s.nodes.dom().contains(ip) && (s.nodes.dom().contains(ip)
                ==> after.nodes[ip].last_seen == s.nodes[ip].last_seen)
        }),
{
    net::law_noise_ranges(ip->V4_0, 0);
    net::law_noise_ranges(p.src_ip->V4_0, 0);
    net::law_noise_ranges(p.dst_ip->V4_0, 0);
    if s.fed(p) {
        let m = s.nodes_after(p, now);
        let sent = s.flows_after(p, now).src_packet_counts;
        if !state::has_host(m) && !(forall|q: IpAddr| !#[trigger] state::host_candidate(m, sent, q)) {
            let host = choose|q: IpAddr| #[trigger]
                state::best_candidate(m, sent, q) && after.nodes == m.insert(
                    q,
                    GraphNode { pinned: true, ..m[q] },
                );
            assert(state::host_candidate(m, sent, host));
        }
    }
}

/// While none is chosen, the address of this host is one in a private network
/// that sent most packets; once it is chosen it stays.
#[verifier::rlimit(60)]
pub proof fn law_host_is_busiest_sender(
    s: TrafficView,
    p: PacketView,
    now: u64,
    wall: u64,
    after: TrafficView,
    host: IpAddr,
    other: IpAddr,
)
    requires
        s.ingested(p, now, wall, after),
        after.nodes.dom().contains(host),
        after.nodes[host].pinned,
    ensures
        ({
            let known = s.nodes.dom().contains(host) && s.nodes[host].pinned;
            let sent = after.flows.src_packet_counts;
            &&& !known ==> inside(host) && sent.dom().contains(host)
            &&& !known && inside(other) && after.nodes.dom().contains(other) && sent.dom().contains(other)
                ==> sent[other] <= sent[host]
        }),
{
    lemma_classes(host);
    lemma_classes(other);
    if s.fed(p) {
        let m = s.nodes_after(p, now);
        let sent = s.flows_after(p, now).src_packet_counts;
        if !state::has_host(m) && !(forall|q: IpAddr| !#[trigger] state::host_candidate(m, sent, q)) {
            let q = choose|q: IpAddr| #[trigger]
                state::best_candidate(m, sent, q) && after.nodes == m.insert(
                    q,
                    GraphNode { pinned: true, ..m[q] },
                );
            if q != host {
                assert(m.dom().contains(host) && m[host].pinned);
            }
            if inside(other) && after.nodes.dom().contains(other) && sent.dom().contains(other) {
                assert(state::host_candidate(m, sent, other));
            }
        }
    }
}

/// What is told of a place behind an address in an alert: nothing where none is
/// known.
pub proof fn law_place_in_alert(names: NamesView, ip: IpAddr)
    ensures
        names.geo_cache.dom().contains(ip) ==> names.place(ip) == " "@ + geoip::geo_tag(
            names.geo_cache[ip],
        ),
        !names.geo_cache.dom().contains(ip) ==> names.place(ip).len() == 0,
{
}

/// A packet from or to an address that ends in 0 or 255, or that of a group, is
/// not counted; any other is.
pub proof fn law_packets_that_count(p: PacketView, src: u32, dst: u32)
    requires
        p.src_ip == IpAddr::V4(src),
        p.dst_ip == IpAddr::V4(dst),
    ensures
        TrafficView::counts(p) <==> src % 256 != 0 && src % 256 != 255 && dst % 256 != 0 && dst % 256
            != 255 && !(0xE000_0000 <= src <= 0xEFFF_FFFF) && !(0xE000_0000 <= dst <= 0xEFFF_FFFF),
{
    net::law_noise_ranges(src, 0);
    net::law_noise_ranges(dst, 0);
}

/// The fingerprint of a client in a private network is counted with its
/// greeting, and the one that was seen first is kept until another is commoner.
pub proof fn law_clients_are_counted(
    s: TrafficView,
    p: PacketView,
    now: u64,
    wall: u64,
    after: TrafficView,
    print: Seq<char>,
)
    requires
        s.ingested(p, now, wall, after),
        s.room(p, now),
        p.tls_fingerprint == Some(print),
    ensures
        !inside(p.src_ip) ==> after.names.tls_fingerprints == s.names.tls_fingerprints
            && after.names.tls_counts == s.names.tls_counts,
        inside(p.src_ip) ==> {
            let known = s.names.tls_fingerprints.dom().contains(p.src_ip);
            let old = s.names.tls_counts;
            let seen = old.dom().contains(p.src_ip) && old[p.src_ip].dom().contains(print);
            let new = after.names.tls_counts[p.src_ip];
            &&& new.dom().contains(print)
            &&& seen ==> new[print] == old[p.src_ip][print] + 1
            &&& !seen ==> new[print] == 1
            &&& !known ==> after.names.tls_fingerprints == s.names.tls_fingerprints.insert(
                p.src_ip,
                (print, 1u32),
            )
            &&& known ==> after.names.tls_fingerprints[p.src_ip].1
                == s.names.tls_fingerprints[p.src_ip].1 + 1
        },
        p.tls_fingerprint is None ==> after.names.tls_counts == s.names.tls_counts,
{
    lemma_classes(p.src_ip);
}

/// Of both ends of a packet is remembered the protocol it was last seen with,
/// and the program at the port it comes from, or else at the port it goes to.
pub proof fn law_last_seen_with(
    s: TrafficView,
    p: PacketView,
    now: u64,
    wall: u64,
    after: TrafficView,
    port: u16,
    protocol: Seq<char>,
)
    requires
        s.ingested(p, now, wall, after),
        p.src_port == Some(port) || p.src_port is None && p.dst_port == Some(port),
        p.protocol == Protocol::Tcp && protocol == "TCP"@ || p.protocol == Protocol::Udp && protocol
            == "UDP"@,
    ensures
        ({
            let key = process::port_key(port, p.protocol);
            let program = if s.programs.dom().contains(key) { s.programs[key] } else { "--"@ };
            let seen = after.flows.node_last_seen_details;
            &&& seen.dom().contains(p.src_ip) && seen[p.src_ip] == (protocol, program)
            &&& seen.dom().contains(p.dst_ip) && seen[p.dst_ip] == (protocol, program)
        }),
{
}

/// A packet of a connection that is known, or one that stays in this network
/// and by which no devices find each other, is told neither as noise nor as
/// external.
#[verifier::rlimit(60)]
pub proof fn law_no_news_is_not_told(
    s: TrafficView,
    p: PacketView,
    now: u64,
    wall: u64,
    after: TrafficView,
    key: ConnKey,
)
    requires
        s.ingested(p, now, wall, after),
        s.room(p, now),
        key.src == p.src_ip && key.dst == p.dst_ip && key.port == p.dst_port,
        ({
            let found = |port: Option<u16>|
                port == Some(1900u16) || port == Some(3702u16) || port == Some(5353u16) || port == Some(
                    5355u16,
                ) || port == Some(67u16) || port == Some(68u16) || port == Some(137u16) || port == Some(
                    138u16,
                ) || port == Some(139u16);
            let many = net::ip_text(p.dst_ip) == "224.0.0.251"@ || net::ip_text(p.dst_ip)
                == "239.255.255.250"@ || net::ip_text(p.dst_ip) == "255.255.255.255"@;
            ||| s.flows.connections.dom().contains(key) && s.flows.connections[key].packets > 0
            ||| at_home(p.dst_ip) && !many && !found(p.dst_port) && !found(p.src_port)
        }),
    ensures
        after.alerts.noise == s.alerts.noise,
        after.alerts.external == s.alerts.external,
{
    lemma_classes(p.dst_ip);
    assert(flows::conn_key(p) == key);
    let d = s.detected(p, now, wall);
    let m = s.ruled(p, now, wall);
    let n = s.noted(p, now, wall);
    assert(n =~= Seq::<AlertView>::empty());
    lemma_rules_suspicious(p, s.context(p, wall));
    let r = s.raised(p, now, wall);
    let rules = rules::packet_alerts(p, s.context(p, wall));
    assert forall|i: int| 0 <= i < r.len() implies (#[trigger] r[i]).tier != AlertTier::Noise
        && r[i].tier != AlertTier::External by {
        if i < d.len() {
            assert(r[i] == d[i]);
        } else {
            assert(r[i] == m[i - d.len()]);
            if i - d.len() < rules.len() {
                assert(m[i - d.len()] == rules[i - d.len()]);
            }
        }
    }
    lemma_tier_stays(s.alerts, r, AlertTier::Noise);
    lemma_tier_stays(s.alerts, r, AlertTier::External);
}

}
