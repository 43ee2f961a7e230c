//! The rules that raise alerts on single packets.

use vstd::prelude::*;
use vstd::string::*;

use crate::alerts;
use crate::alerts::{Alert, AlertLevel, AlertReason, AlertTier, AlertView};
use crate::fingerprint;
use crate::net;
use crate::net::{IpAddr, ip_string, is_local_ip, is_local_or_multicast, is_private_ip};
use crate::packet::{CapturedPacket, PacketView, Protocol};
use crate::text;
use crate::text::{dec_text, has_any, has_part, same};

verus! {

/// What a rule needs besides the packet.
pub struct RuleContext {
    /// The time of the wall clock in nanoseconds.
    pub wall: u64,
    /// The program of the connection.
    pub program: String,
    /// Where the receiver is, with a space before it; empty where that is not known.
    pub dst_place: String,
    /// Where the sender is, with a space before it; empty where that is not known.
    pub src_place: String,
}

/// What a rule needs besides the packet.
pub struct ContextView {
    pub wall: u64,
    pub program: Seq<char>,
    pub dst_place: Seq<char>,
    pub src_place: Seq<char>,
}

impl View for RuleContext {
    type V = ContextView;

    open spec fn view(&self) -> ContextView {
        ContextView {
            wall: self.wall,
            program: self.program@,
            dst_place: self.dst_place@,
            src_place: self.src_place@,
        }
    }
}

/// A suspicious packet of a sender or to a receiver.
pub open spec fn suspicious(
    c: ContextView,
    message: Seq<char>,
    remote: IpAddr,
    reason: AlertReason,
) -> AlertView {
    AlertView {
        timestamp: c.wall,
        message,
        level: AlertLevel::Warn,
        tier: AlertTier::Suspicious,
        remote_ip: Some(remote),
        process: Some(c.program),
        reason,
    }
}

fn suspicious_alert(c: &RuleContext, message: String, remote: IpAddr, reason: AlertReason) -> (r:
    Alert)
    ensures
        r@ == suspicious(c@, message@, remote, reason),
{
    Alert {
        timestamp: c.wall,
        message,
        level: AlertLevel::Warn,
        tier: AlertTier::Suspicious,
        remote_ip: Some(remote),
        process: Some(c.program.as_str().to_owned()),
        reason,
    }
}

/// `s`, with `a` behind it where `on` holds.
pub open spec fn also(s: Seq<AlertView>, on: bool, a: AlertView) -> Seq<AlertView> {
    if on {
        s.push(a)
    } else {
        s
    }
}

// ---------------------------------------------------------------------------
// Flags that no honest sender sets
// ---------------------------------------------------------------------------

/// A message on the flags of a sender.
pub open spec fn flags_message(head: Seq<char>, src: IpAddr, middle: Seq<char>, c: ContextView) -> Seq<
    char,
> {
    head + net::ip_text(src) + middle + c.program + ")"@
}

/// The alerts on the flags `f` of a TCP segment.
pub open spec fn flag_alerts(f: Seq<char>, src: IpAddr, c: ContextView) -> Seq<AlertView> {
    let syn = text::contains(f, "SYN"@);
    let fin = text::contains(f, "FIN"@);
    let psh = text::contains(f, "PSH"@);
    let a = also(
        Seq::empty(),
        syn && fin,
        suspicious(
            c,
            flags_message(
                "Illegal flags SYN+FIN from "@,
                src,
                " (possible OS fingerprint) ("@,
                c,
            ),
            src,
            AlertReason::SuspiciousFlags,
        ),
    );
    let b = also(
        a,
        syn && psh && !text::contains(f, "ACK"@),
        suspicious(
            c,
            flags_message("Illegal flags SYN+PSH from "@, src, " (data before handshake) ("@, c),
            src,
            AlertReason::SuspiciousFlags,
        ),
    );
    let d = also(
        b,
        f == "\u{2014}"@,
        suspicious(
            c,
            flags_message("NULL scan from "@, src, " \u{2014} no TCP flags set ("@, c),
            src,
            AlertReason::SuspiciousFlags,
        ),
    );
    also(
        d,
        fin && psh && text::contains(f, "URG"@),
        suspicious(
            c,
            flags_message("Xmas scan from "@, src, " \u{2014} FIN+PSH+URG ("@, c),
            src,
            AlertReason::SuspiciousFlags,
        ),
    )
}

fn flags_text(head: &str, src: &IpAddr, middle: &str, c: &RuleContext) -> (r: String)
    ensures
        r@ == flags_message(head@, *src, middle@, c@),
{
    let mut m = head.to_owned();
    m.append(ip_string(src).as_str());
    m.append(middle);
    m.append(c.program.as_str());
    m.append(")");
    m
}

fn push_flags(
    out: &mut Vec<Alert>,
    on: bool,
    head: &str,
    src: &IpAddr,
    middle: &str,
    c: &RuleContext,
)
    ensures
        alerts::alert_views(final(out)@) == also(
            alerts::alert_views(old(out)@),
            on,
            suspicious(
                c@,
                flags_message(head@, *src, middle@, c@),
                *src,
                AlertReason::SuspiciousFlags,
            ),
        ),
{
    if on {
        let m = flags_text(head, src, middle, c);
        let a = suspicious_alert(c, m, *src, AlertReason::SuspiciousFlags);
        let ghost v = a@;
        out.push(a);
        assert(alerts::alert_views(out@) =~= alerts::alert_views(old(out)@).push(v));
    }
}

fn check_flags(f: &str, src: &IpAddr, c: &RuleContext) -> (r: Vec<Alert>)
    ensures
        alerts::alert_views(r@) == flag_alerts(f@, *src, c@),
{
    let syn = has_part(f, "SYN");
    let fin = has_part(f, "FIN");
    let psh = has_part(f, "PSH");
    let mut out: Vec<Alert> = Vec::new();
    assert(alerts::alert_views(out@) =~= Seq::empty());
    push_flags(
        &mut out,
        syn && fin,
        "Illegal flags SYN+FIN from ",
        src,
        " (possible OS fingerprint) (",
        c,
    );
    push_flags(
        &mut out,
        syn && psh && !has_part(f, "ACK"),
        "Illegal flags SYN+PSH from ",
        src,
        " (data before handshake) (",
        c,
    );
    push_flags(
        &mut out,
        same(f, "\u{2014}"),
        "NULL scan from ",
        src,
        " \u{2014} no TCP flags set (",
        c,
    );
    push_flags(
        &mut out,
        fin && psh && has_part(f, "URG"),
        "Xmas scan from ",
        src,
        " \u{2014} FIN+PSH+URG (",
        c,
    );
    out
}

// ---------------------------------------------------------------------------
// Ports
// ---------------------------------------------------------------------------

/// The name of a port that no one should be asked for outside of this network.
pub open spec fn sensitive_port(port: u16) -> Option<Seq<char>> {
    if port == 21 {
        Some("FTP"@)
    } else if port == 23 {
        Some("Telnet"@)
    } else if port == 445 {
        Some("SMB"@)
    } else if port == 3389 {
        Some("RDP"@)
    } else {
        None
    }
}

fn sensitive_name(port: u16) -> (r: Option<&'static str>)
    ensures
        match r {
            Some(s) => sensitive_port(port) == Some(s@),
            None => sensitive_port(port) is None,
        },
{
    match port {
        21 => Some("FTP"),
        23 => Some("Telnet"),
        445 => Some("SMB"),
        3389 => Some("RDP"),
        _ => None,
    }
}

/// The message on a sensitive port.
pub open spec fn outbound_message(name: Seq<char>, port: u16, dst: IpAddr, c: ContextView) -> Seq<
    char,
> {
    "Outbound "@ + name + " ("@ + text::dec(port as nat) + ") \u{2192} "@ + net::ip_text(dst) + c.dst_place
        + " ("@ + c.program + ")"@
}

/// The message on a packet from outside to a privileged port.
pub open spec fn inbound_message(port: u16, src: IpAddr, c: ContextView) -> Seq<char> {
    "Inbound on port "@ + text::dec(port as nat) + " from "@ + net::ip_text(src) + c.src_place + " ("@
        + c.program + ")"@
}

/// The alerts on the port of a packet.
pub open spec fn port_alerts(p: PacketView, c: ContextView) -> Seq<AlertView> {
    match p.dst_port {
        None => Seq::empty(),
        Some(port) => {
            let name = sensitive_port(port);
            let a = also(
                Seq::empty(),
                name is Some && !net::local_or_multicast(p.dst_ip),
                suspicious(
                    c,
                    outbound_message(name->0, port, p.dst_ip, c),
                    p.dst_ip,
                    AlertReason::SensitivePort,
                ),
            );
            also(
                a,
                net::private_ip(p.dst_ip) && !net::private_ip(p.src_ip) && port < 1024,
                suspicious(
                    c,
                    inbound_message(port, p.src_ip, c),
                    p.src_ip,
                    AlertReason::InboundExternal,
                ),
            )
        },
    }
}

fn check_ports(p: &CapturedPacket, c: &RuleContext) -> (r: Vec<Alert>)
    ensures
        alerts::alert_views(r@) == port_alerts(p@, c@),
{
    let mut out: Vec<Alert> = Vec::new();
    assert(alerts::alert_views(out@) =~= Seq::empty());
    let port: u16 = match p.dst_port {
        Some(port) => port,
        None => {
            return out;
        },
    };
    if let Some(name) = sensitive_name(port) {
        if !is_local_or_multicast(&p.dst_ip) {
            let mut m = "Outbound ".to_owned();
            m.append(name);
            m.append(" (");
            m.append(dec_text(port as u64).as_str());
            m.append(") \u{2192} ");
            m.append(ip_string(&p.dst_ip).as_str());
            m.append(c.dst_place.as_str());
            m.append(" (");
            m.append(c.program.as_str());
            m.append(")");
            let a = suspicious_alert(c, m, p.dst_ip, AlertReason::SensitivePort);
            let ghost v = a@;
            let ghost before = out@;
            out.push(a);
            assert(alerts::alert_views(out@) =~= alerts::alert_views(before).push(v));
        }
    }
    if is_private_ip(&p.dst_ip) && !is_private_ip(&p.src_ip) && port < 1024 {
        let mut m = "Inbound on port ".to_owned();
        m.append(dec_text(port as u64).as_str());
        m.append(" from ");
        m.append(ip_string(&p.src_ip).as_str());
        m.append(c.src_place.as_str());
        m.append(" (");
        m.append(c.program.as_str());
        m.append(")");
        let a = suspicious_alert(c, m, p.src_ip, AlertReason::InboundExternal);
        let ghost v = a@;
        let ghost before = out@;
        out.push(a);
        assert(alerts::alert_views(out@) =~= alerts::alert_views(before).push(v));
    }
    out
}

// ---------------------------------------------------------------------------
// Control messages
// ---------------------------------------------------------------------------

/// A sender that control messages are not expected of: one outside of this
/// network.
pub open spec fn unusual_source(ip: IpAddr) -> bool {
    !net::local_ip(ip) && !net::local_or_multicast(ip)
}

/// The message on a control message from outside.
pub open spec fn control_message(kind: Option<Seq<char>>, src: IpAddr, c: ContextView) -> Seq<char> {
    "ICMP "@ + (match kind {
        Some(k) => k,
        None => "message"@,
    }) + " from "@ + net::ip_text(src) + c.src_place
}

/// The alert on a control message from outside to a private address.
pub open spec fn control_alerts(p: PacketView, c: ContextView) -> Seq<AlertView> {
    also(
        Seq::empty(),
        p.protocol == Protocol::Icmp && net::private_ip(p.dst_ip) && unusual_source(p.src_ip),
        suspicious(
            c,
            control_message(p.flags, p.src_ip, c),
            p.src_ip,
            AlertReason::InboundExternal,
        ),
    )
}

fn check_control(p: &CapturedPacket, c: &RuleContext) -> (r: Vec<Alert>)
    ensures
        alerts::alert_views(r@) == control_alerts(p@, c@),
{
    let mut out: Vec<Alert> = Vec::new();
    assert(alerts::alert_views(out@) =~= Seq::empty());
    if p.protocol == Protocol::Icmp && is_private_ip(&p.dst_ip) && !is_local_ip(&p.src_ip)
        && !is_local_or_multicast(&p.src_ip) {
        let mut m = "ICMP ".to_owned();
        match &p.flags {
            Some(f) => m.append(f.as_str()),
            None => m.append("message"),
        }
        m.append(" from ");
        m.append(ip_string(&p.src_ip).as_str());
        m.append(c.src_place.as_str());
        let a = suspicious_alert(c, m, p.src_ip, AlertReason::InboundExternal);
        let ghost v = a@;
        let ghost before = out@;
        out.push(a);
        assert(alerts::alert_views(out@) =~= alerts::alert_views(before).push(v));
    }
    out
}

// ---------------------------------------------------------------------------
// Rules on the packet alone
// ---------------------------------------------------------------------------

/// The alerts that a packet raises by its flags, by its port and as a control
/// message.
pub open spec fn packet_alerts(p: PacketView, c: ContextView) -> Seq<AlertView> {
    let by_flags = match p.flags {
        Some(f) if p.protocol == Protocol::Tcp => flag_alerts(f, p.src_ip, c),
        _ => Seq::empty(),
    };
    by_flags + port_alerts(p, c) + control_alerts(p, c)
}

/// There are at most six such alerts.
pub proof fn lemma_packet_alerts_len(p: PacketView, c: ContextView)
    ensures
        packet_alerts(p, c).len() <= 6,
{
}

/// Exactly the control messages that come from outside to a private address
/// raise an alert on their sender.
pub proof fn law_control_messages_from_outside(p: PacketView, c: ContextView)
    requires
        p.protocol == Protocol::Icmp,
        p.dst_port is None,
    ensures
        net::private_ip(p.dst_ip) && unusual_source(p.src_ip) ==> packet_alerts(p, c) == seq![
            suspicious(
                c,
                control_message(p.flags, p.src_ip, c),
                p.src_ip,
                AlertReason::InboundExternal,
            ),
        ],
        !(net::private_ip(p.dst_ip) && unusual_source(p.src_ip)) ==> packet_alerts(p, c).len() == 0,
{
    if net::private_ip(p.dst_ip) && unusual_source(p.src_ip) {
        assert(packet_alerts(p, c) =~= control_alerts(p, c));
        assert(control_alerts(p, c) =~= seq![control_alerts(p, c)[0]]);
    }
}

/// Appends alerts to others.
pub fn append_alerts(out: &mut Vec<Alert>, more: Vec<Alert>)
    ensures
        alerts::alert_views(final(out)@) == alerts::alert_views(old(out)@) + alerts::alert_views(more@),
{
    let mut m = more;
    let ghost before = out@;
    out.append(&mut m);
    assert(alerts::alert_views(out@) =~= alerts::alert_views(before) + alerts::alert_views(more@));
}

/// The alerts that a packet raises by its flags, by its port and as a control
/// message.
pub fn check_packet(p: &CapturedPacket, c: &RuleContext) -> (r: Vec<Alert>)
    ensures
        alerts::alert_views(r@) == packet_alerts(p@, c@),
{
    let mut out: Vec<Alert> = Vec::new();
    assert(alerts::alert_views(out@) =~= Seq::empty());
    if p.protocol == Protocol::Tcp {
        if let Some(f) = &p.flags {
            out = check_flags(f.as_str(), &p.src_ip, c);
        }
    }
    append_alerts(&mut out, check_ports(p, c));
    append_alerts(&mut out, check_control(p, c));
    out
}

// ---------------------------------------------------------------------------
// Much traffic
// ---------------------------------------------------------------------------

/// The number of packets from which a pair of addresses has much traffic.
pub const HIGH_VOLUME: u64 = 500;

/// The alert on much traffic of a pair of addresses.
pub open spec fn volume_alert(src: IpAddr, dst: IpAddr, c: ContextView) -> AlertView {
    AlertView {
        timestamp: c.wall,
        message: "High volume: "@ + net::ip_text(src) + " \u{2192} "@ + net::ip_text(dst)
            + " exceeded 500 packets"@,
        level: AlertLevel::Warn,
        tier: AlertTier::Behavioral,
        remote_ip: None,
        process: Some(c.program),
        reason: AlertReason::HighVolume,
    }
}

/// The alert on much traffic of a pair of addresses.
pub fn high_volume_alert(src: &IpAddr, dst: &IpAddr, c: &RuleContext) -> (r: Alert)
    ensures
        r@ == volume_alert(*src, *dst, c@),
{
    let mut m = "High volume: ".to_owned();
    m.append(ip_string(src).as_str());
    m.append(" \u{2192} ");
    m.append(ip_string(dst).as_str());
    m.append(" exceeded 500 packets");
    Alert {
        timestamp: c.wall,
        message: m,
        level: AlertLevel::Warn,
        tier: AlertTier::Behavioral,
        remote_ip: None,
        process: Some(c.program.as_str().to_owned()),
        reason: AlertReason::HighVolume,
    }
}

// ---------------------------------------------------------------------------
// Contacts outside, and discovery inside of this network
// ---------------------------------------------------------------------------

/// A service that is asked about other addresses, or a trusted one: by its
/// address, or by the name that its address was resolved from.
pub open spec fn trusted_service(ip: IpAddr, name: Option<Seq<char>>) -> bool {
    net::ip_text(ip) == "208.95.112.1"@ || match name {
        Some(n) => text::contains(n, "ip-api.com"@) || text::contains(n, "malwarebytes"@),
        None => false,
    }
}

/// Whether an address is that of a trusted service.
pub fn is_trusted_service(ip: &IpAddr, name: Option<&String>) -> (r: bool)
    ensures
        r == trusted_service(*ip, fingerprint::ref_text(name)),
{
    same(ip_string(ip).as_str(), "208.95.112.1") || match name {
        Some(n) => has_part(n.as_str(), "ip-api.com") || has_part(n.as_str(), "malwarebytes"),
        None => false,
    }
}

/// Organisations whose addresses are contacted all the time.
pub const TRUSTED_ORGS: [&'static str; 13] = [
    "Google LLC",
    "Google Cloud",
    "Cloudflare",
    "Amazon",
    "Microsoft",
    "Akamai",
    "Fastly",
    "Meta ",
    "Apple Inc",
    "Anthropic",
    "Akamaitech",
    "AS13335",
    "AS15169",
];

/// The port of a packet in text.
pub open spec fn port_text(port: Option<u16>) -> Seq<char> {
    match port {
        Some(p) => text::dec(p as nat),
        None => "---"@,
    }
}

fn port_string(port: Option<u16>) -> (r: String)
    ensures
        r@ == port_text(port),
{
    match port {
        Some(p) => dec_text(p as u64),
        None => "---".to_owned(),
    }
}

/// The alert on a first contact outside of this network. `org` is whose the
/// address is, if that is known.
pub open spec fn contact_alert(p: PacketView, org: Option<Seq<char>>, c: ContextView) -> AlertView {
    AlertView {
        timestamp: c.wall,
        message: "Outbound \u{2192} "@ + net::ip_text(p.dst_ip) + ":"@ + port_text(p.dst_port)
            + c.dst_place + " ("@ + c.program + ")"@,
        level: AlertLevel::Info,
        tier: match org {
            Some(o) if text::contains_any(o, TRUSTED_ORGS@) => AlertTier::Noise,
            _ => AlertTier::External,
        },
        remote_ip: Some(p.dst_ip),
        process: Some(c.program),
        reason: AlertReason::OutboundPublic,
    }
}

/// The alert on a first contact outside of this network.
pub fn outbound_alert(p: &CapturedPacket, org: Option<&String>, c: &RuleContext) -> (r: Alert)
    ensures
        r@ == contact_alert(p@, fingerprint::ref_text(org), c@),
{
    let mut m = "Outbound \u{2192} ".to_owned();
    m.append(ip_string(&p.dst_ip).as_str());
    m.append(":");
    m.append(port_string(p.dst_port).as_str());
    m.append(c.dst_place.as_str());
    m.append(" (");
    m.append(c.program.as_str());
    m.append(")");
    let tier = match org {
        Some(o) => if has_any(o.as_str(), &TRUSTED_ORGS) {
            AlertTier::Noise
        } else {
            AlertTier::External
        },
        None => AlertTier::External,
    };
    Alert {
        timestamp: c.wall,
        message: m,
        level: AlertLevel::Info,
        tier,
        remote_ip: Some(p.dst_ip),
        process: Some(c.program.as_str().to_owned()),
        reason: AlertReason::OutboundPublic,
    }
}

/// Ports by which hosts find each other.
pub open spec fn discovery_port(port: u16) -> bool {
    port == 1900 || port == 3702 || port == 5353 || port == 5355 || port == 67 || port == 68 || port
        == 137 || port == 138 || port == 139
}

fn is_discovery_port(port: Option<u16>) -> (r: bool)
    ensures
        r == (port is Some && discovery_port(port->0)),
{
    match port {
        Some(port) => port == 1900 || port == 3702 || port == 5353 || port == 5355 || port == 67
            || port == 68 || port == 137 || port == 138 || port == 139,
        None => false,
    }
}

/// A packet by which a host looks for others.
pub open spec fn is_discovery(p: PacketView) -> bool {
    let dst = net::ip_text(p.dst_ip);
    ||| dst == "224.0.0.251"@
    ||| dst == "239.255.255.250"@
    ||| dst == "255.255.255.255"@
    ||| p.dst_port is Some && discovery_port(p.dst_port->0)
    ||| p.src_port is Some && discovery_port(p.src_port->0)
}

/// Whether a packet is one by which a host looks for others.
pub fn looks_for_hosts(p: &CapturedPacket) -> (r: bool)
    ensures
        r == is_discovery(p@),
{
    let dst = ip_string(&p.dst_ip);
    same(dst.as_str(), "224.0.0.251") || same(dst.as_str(), "239.255.255.250") || same(
        dst.as_str(),
        "255.255.255.255",
    ) || is_discovery_port(p.dst_port) || is_discovery_port(p.src_port)
}

/// The alert on a packet by which a host looks for others.
pub open spec fn discovery_alert(p: PacketView, c: ContextView) -> AlertView {
    AlertView {
        timestamp: c.wall,
        message: "Local discovery: "@ + p.protocol.name() + " "@ + net::ip_text(p.src_ip)
            + " \u{2192} "@ + net::ip_text(p.dst_ip) + " port "@ + port_text(p.dst_port),
        level: AlertLevel::Info,
        tier: AlertTier::Noise,
        remote_ip: None,
        process: Some(c.program),
        reason: AlertReason::LocalBroadcast,
    }
}

/// The alert on a packet by which a host looks for others.
pub fn local_discovery_alert(p: &CapturedPacket, c: &RuleContext) -> (r: Alert)
    ensures
        r@ == discovery_alert(p@, c@),
{
    let mut m = "Local discovery: ".to_owned();
    m.append(p.protocol.to_text().as_str());
    m.append(" ");
    m.append(ip_string(&p.src_ip).as_str());
    m.append(" \u{2192} ");
    m.append(ip_string(&p.dst_ip).as_str());
    m.append(" port ");
    m.append(port_string(p.dst_port).as_str());
    Alert {
        timestamp: c.wall,
        message: m,
        level: AlertLevel::Info,
        tier: AlertTier::Noise,
        remote_ip: None,
        process: Some(c.program.as_str().to_owned()),
        reason: AlertReason::LocalBroadcast,
    }
}

} // verus!
