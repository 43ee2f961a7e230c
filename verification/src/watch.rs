//! Detectors: floods of DNS responses, regular calls home, port scans, and
//! what was alerted already.

use vstd::prelude::*;
use vstd::string::*;

use crate::alerts::{Alert, AlertLevel, AlertReason, AlertTier, AlertView};
use crate::formatting;
use crate::formatting::nearest_of;
use crate::net;
use crate::net::{IpAddr, ip_string, is_local_or_multicast, is_private_ip};
use crate::packet::{CapturedPacket, PacketView, Protocol};
use crate::table::{Dup, KeySet, Table};
use crate::text;
use crate::text::{dec_text, has_any, lower_case};
use crate::traffic;
use crate::traffic::SECOND;

verus! {

/// What the detectors remember.
pub struct Watch {
    pub high_volume_alerted: KeySet<(IpAddr, IpAddr)>,
    /// Per pair of addresses: DNS responses, and since when they are counted.
    pub dns_response_counts: Table<(IpAddr, IpAddr), (u64, u64)>,
    pub dns_poison_alerted: KeySet<String>,
    /// Per pair of addresses: when a contact began.
    pub connection_intervals: Table<(IpAddr, IpAddr), Vec<u64>>,
    pub beacon_alerted: KeySet<(IpAddr, IpAddr)>,
    /// Per sender: the ports that it tried.
    pub src_port_targets: Table<IpAddr, KeySet<u16>>,
    pub port_scan_alerted: KeySet<IpAddr>,
    pub external_alerted: KeySet<IpAddr>,
}

/// What the detectors remember.
pub struct WatchView {
    pub high_volume_alerted: Set<(IpAddr, IpAddr)>,
    pub dns_response_counts: Map<(IpAddr, IpAddr), (u64, u64)>,
    pub dns_poison_alerted: Set<Seq<char>>,
    pub connection_intervals: Map<(IpAddr, IpAddr), Seq<u64>>,
    pub beacon_alerted: Set<(IpAddr, IpAddr)>,
    pub src_port_targets: Map<IpAddr, Set<u16>>,
    pub port_scan_alerted: Set<IpAddr>,
    pub external_alerted: Set<IpAddr>,
}

impl View for Watch {
    type V = WatchView;

    open spec fn view(&self) -> WatchView {
        WatchView {
            high_volume_alerted: self.high_volume_alerted@,
            dns_response_counts: self.dns_response_counts@,
            dns_poison_alerted: self.dns_poison_alerted@,
            connection_intervals: self.connection_intervals@,
            beacon_alerted: self.beacon_alerted@,
            src_port_targets: self.src_port_targets@,
            port_scan_alerted: self.port_scan_alerted@,
            external_alerted: self.external_alerted@,
        }
    }
}

/// Nothing remembered yet.
pub open spec fn nothing_seen() -> WatchView {
    WatchView {
        high_volume_alerted: Set::empty(),
        dns_response_counts: Map::empty(),
        dns_poison_alerted: Set::empty(),
        connection_intervals: Map::empty(),
        beacon_alerted: Set::empty(),
        src_port_targets: Map::empty(),
        port_scan_alerted: Set::empty(),
        external_alerted: Set::empty(),
    }
}

/// An alert of a detector: a warning without a program.
pub open spec fn warning(wall: u64, message: Seq<char>, tier: AlertTier, remote: IpAddr) -> AlertView {
    AlertView {
        timestamp: wall,
        message,
        level: AlertLevel::Warn,
        tier,
        remote_ip: Some(remote),
        process: None,
        reason: AlertReason::SuspiciousFlags,
    }
}

fn warning_alert(wall: u64, message: String, tier: AlertTier, remote: IpAddr) -> (r: Alert)
    ensures
        r@ == warning(wall, message@, tier, remote),
{
    Alert {
        timestamp: wall,
        message,
        level: AlertLevel::Warn,
        tier,
        remote_ip: Some(remote),
        process: None,
        reason: AlertReason::SuspiciousFlags,
    }
}

/// An optional alert.
pub open spec fn alert_opt(o: Option<Alert>) -> Option<AlertView> {
    match o {
        Some(a) => Some(a@),
        None => None,
    }
}

// ---------------------------------------------------------------------------
// Floods of DNS responses
// ---------------------------------------------------------------------------

/// A DNS response from outside of private networks.
pub open spec fn dns_response(p: PacketView) -> bool {
    p.protocol == Protocol::Udp && p.src_port == Some(53u16) && !net::private_ip(p.src_ip)
}

fn is_dns_response(p: &CapturedPacket) -> (r: bool)
    ensures
        r == dns_response(p@),
{
    let from_dns = match p.src_port {
        Some(port) => port == 53,
        None => false,
    };
    p.protocol == Protocol::Udp && from_dns && !is_private_ip(&p.src_ip)
}

/// The count of responses with one more; it begins anew when a second is over.
pub open spec fn responses_with(old: (u64, u64), now: u64) -> (u64, u64) {
    if formatting::since(now, old.1) > SECOND {
        (1, now)
    } else {
        (traffic::plus_one(old.0), old.1)
    }
}

/// The count of responses at a pair of addresses.
pub open spec fn responses_at(
    m: Map<(IpAddr, IpAddr), (u64, u64)>,
    k: (IpAddr, IpAddr),
    now: u64,
) -> (u64, u64) {
    if m.dom().contains(k) {
        m[k]
    } else {
        (0, now)
    }
}

/// The message of a flood.
pub open spec fn flood_message(src: IpAddr) -> Seq<char> {
    "DNS FLOOD DETECTED: "@ + net::ip_text(src)
        + " is sending abnormal DNS responses (possible poisoning attempt)"@
}

impl WatchView {
    /// One more response can be counted.
    pub open spec fn flood_room(self, p: PacketView, now: u64) -> bool {
        let seen = responses_at(self.dns_response_counts, (p.src_ip, p.dst_ip), now);
        dns_response(p) ==> seen.0 < u64::MAX || formatting::since(now, seen.1) > SECOND
    }

    /// More than five responses within a second, not alerted before.
    pub open spec fn floods(self, p: PacketView, now: u64) -> bool {
        let pair = (p.src_ip, p.dst_ip);
        dns_response(p) && responses_with(
            responses_at(self.dns_response_counts, pair, now),
            now,
        ).0 > 5 && !self.dns_poison_alerted.contains(net::ip_text(p.src_ip))
    }

    /// What is remembered after a packet was held against floods.
    pub open spec fn after_flood(self, p: PacketView, now: u64) -> WatchView {
        let pair = (p.src_ip, p.dst_ip);
        if !dns_response(p) {
            self
        } else {
            WatchView {
                dns_response_counts: self.dns_response_counts.insert(
                    pair,
                    responses_with(responses_at(self.dns_response_counts, pair, now), now),
                ),
                dns_poison_alerted: if self.floods(p, now) {
                    self.dns_poison_alerted.insert(net::ip_text(p.src_ip))
                } else {
                    self.dns_poison_alerted
                },
                ..self
            }
        }
    }

    /// The alert of a flood.
    pub open spec fn flood_alert(self, p: PacketView, now: u64, wall: u64) -> Option<AlertView> {
        if self.floods(p, now) {
            Some(warning(wall, flood_message(p.src_ip), AlertTier::Suspicious, p.src_ip))
        } else {
            None
        }
    }
}

/// A sender is alerted as flooding once only.
pub proof fn law_flood_alerted_once(w: WatchView, p: PacketView, now: u64, q: PacketView, later: u64)
    requires
        w.floods(p, now),
        q.src_ip == p.src_ip,
    ensures
        !w.after_flood(p, now).floods(q, later),
{
}

// ---------------------------------------------------------------------------
// Regular calls home
// ---------------------------------------------------------------------------

/// How long after the last packet the next one is a new contact.
pub const CONTACT_GAP: u64 = 4_000_000_000;

/// The number of contacts that are remembered.
pub const CONTACTS: usize = 20;

/// The least sum of five gaps whose mean is five seconds.
pub const SUM_MIN: u64 = 25_000_000_000;

/// The greatest sum of five gaps whose mean is five minutes.
pub const SUM_MAX: u64 = 1_500_000_000_000;

/// The last contacts, at most as many as are remembered.
pub open spec fn last_contacts(s: Seq<u64>) -> Seq<u64> {
    if s.len() > CONTACTS {
        s.skip(s.len() - CONTACTS)
    } else {
        s
    }
}

/// The contacts after a packet at `now`.
pub open spec fn contacts_with(s: Seq<u64>, now: u64) -> Seq<u64> {
    if s.len() == 0 || formatting::since(now, s.last()) > CONTACT_GAP {
        last_contacts(s.push(now))
    } else {
        last_contacts(s)
    }
}

/// The contacts of a pair of addresses.
pub open spec fn contacts_at(m: Map<(IpAddr, IpAddr), Seq<u64>>, k: (IpAddr, IpAddr)) -> Seq<u64> {
    if m.dom().contains(k) {
        m[k]
    } else {
        Seq::empty()
    }
}

/// The gap before the contact at a position from the end.
pub open spec fn gap(s: Seq<u64>, i: int) -> u64 {
    formatting::since(s[s.len() - i], s[s.len() - i - 1])
}

/// The sum of the last five gaps.
pub open spec fn gap_sum(s: Seq<u64>) -> int {
    gap(s, 1) + gap(s, 2) + gap(s, 3) + gap(s, 4) + gap(s, 5)
}

/// The square of the distance of a gap from the mean, in twenty-fifths.
pub open spec fn off_mean(g: int, sum: int) -> int {
    (5 * g - sum) * (5 * g - sum)
}

/// The last five gaps have a mean of five seconds to five minutes and a
/// standard deviation of less than a fifth of it.
pub open spec fn regular(s: Seq<u64>) -> bool {
    let sum = gap_sum(s);
    &&& s.len() >= 6
    &&& SUM_MIN <= sum <= SUM_MAX
    &&& 5 * (off_mean(gap(s, 1) as int, sum) + off_mean(gap(s, 2) as int, sum) + off_mean(
        gap(s, 3) as int,
        sum,
    ) + off_mean(gap(s, 4) as int, sum) + off_mean(gap(s, 5) as int, sum)) < sum * sum
}

/// Programs that call home regularly and may.
pub const TRUSTED_PROGRAMS: [&'static str; 12] = [
    "chrome.exe",
    "antigravity.exe",
    "language_server_windows_x64.exe",
    "vora-recon.exe",
    "msedge.exe",
    "firefox.exe",
    "teams.exe",
    "slack.exe",
    "discord.exe",
    "spotify.exe",
    "onedrive.exe",
    "svchost.exe",
];

/// The message of regular calls.
pub open spec fn beacon_message(src: IpAddr, dst: IpAddr, sum: int) -> Seq<char> {
    "BEACON DETECTED: "@ + net::ip_text(src) + " -> "@ + net::ip_text(dst)
        + " \u{2014} regular interval ~"@ + text::dec(formatting::nearest(sum as nat, 5_000_000_000))
        + "s (possible C2 heartbeat)"@
}

impl WatchView {
    /// The contacts of a packet's addresses when it is taken into account.
    pub open spec fn contacts(self, p: PacketView, now: u64) -> Seq<u64> {
        contacts_with(contacts_at(self.connection_intervals, (p.src_ip, p.dst_ip)), now)
    }

    /// Regular calls out of this network by a program that is not trusted, not
    /// alerted before. `program` is the name of the program, if it is known.
    pub open spec fn calls_home(self, p: PacketView, now: u64, program: Seq<char>) -> bool {
        !net::local_or_multicast(p.dst_ip) && !self.beacon_alerted.contains((p.src_ip, p.dst_ip))
            && regular(self.contacts(p, now)) && !text::contains_any(
            text::lowered(program),
            TRUSTED_PROGRAMS@,
        )
    }

    /// What is remembered after a packet was held against regular calls.
    pub open spec fn after_beacon(self, p: PacketView, now: u64, program: Seq<char>) -> WatchView {
        let pair = (p.src_ip, p.dst_ip);
        if net::local_or_multicast(p.dst_ip) {
            self
        } else {
            WatchView {
                connection_intervals: self.connection_intervals.insert(pair, self.contacts(p, now)),
                beacon_alerted: if self.calls_home(p, now, program) {
                    self.beacon_alerted.insert(pair)
                } else {
                    self.beacon_alerted
                },
                ..self
            }
        }
    }

    /// The alert of regular calls.
    pub open spec fn beacon_alert(
        self,
        p: PacketView,
        now: u64,
        wall: u64,
        program: Seq<char>,
    ) -> Option<AlertView> {
        if self.calls_home(p, now, program) {
            Some(
                warning(
                    wall,
                    beacon_message(p.src_ip, p.dst_ip, gap_sum(self.contacts(p, now))),
                    AlertTier::Behavioral,
                    p.dst_ip,
                ),
            )
        } else {
            None
        }
    }
}

/// However many packets come, no more contacts than the limit are remembered.
pub proof fn law_contacts_bounded(s: Seq<u64>, now: u64)
    ensures
        contacts_with(s, now).len() <= CONTACTS,
{
}

/// A pair of addresses is alerted as calling regularly once only.
pub proof fn law_beacon_alerted_once(
    w: WatchView,
    p: PacketView,
    now: u64,
    program: Seq<char>,
    q: PacketView,
    later: u64,
    other: Seq<char>,
)
    requires
        w.calls_home(p, now, program),
        q.src_ip == p.src_ip,
        q.dst_ip == p.dst_ip,
    ensures
        !w.after_beacon(p, now, program).calls_home(q, later, other),
{
}

/// Perfectly even gaps of five seconds to five minutes are regular.
pub proof fn law_even_gaps_regular(s: Seq<u64>, g: u64)
    requires
        s.len() >= 6,
        5_000_000_000 <= g <= 300_000_000_000,
        forall|i: int| 1 <= i <= 5 ==> #[trigger] gap(s, i) == g,
    ensures
        regular(s),
{
    assert(gap(s, 1) == g && gap(s, 2) == g && gap(s, 3) == g && gap(s, 4) == g && gap(s, 5) == g);
    let sum = gap_sum(s);
    assert(sum == 5 * g);
    assert(off_mean(g as int, sum) == 0) by {
        assert(5 * g - sum == 0);
        assert(0int * 0 == 0);
    }
    assert(sum * sum > 0) by (nonlinear_arith)
        requires
            sum > 0,
    ;
}

/// Whether calls are regular is decided by the times of the last six contacts
/// alone: the span between the first and the last of them is five times the
/// mean gap, which has to lie between five seconds and five minutes, and the
/// squares of the gaps add up to less than 26/125 of the square of the span,
/// which is to say that the gaps deviate from their mean by less than a fifth
/// of it.
pub proof fn law_regular_by_times(s: Seq<u64>)
    requires
        s.len() >= 6,
        forall|i: int, j: int| s.len() - 6 <= i <= j < s.len() ==> s[i] <= s[j],
    ensures
        ({
            let t = s.skip(s.len() - 6);
            let span = t[5] - t[0];
            let squares = (t[1] - t[0]) * (t[1] - t[0]) + (t[2] - t[1]) * (t[2] - t[1]) + (t[3]
                - t[2]) * (t[3] - t[2]) + (t[4] - t[3]) * (t[4] - t[3]) + (t[5] - t[4]) * (t[5]
                - t[4]);
            regular(s) <==> 25_000_000_000 <= span <= 1_500_000_000_000 && 125 * squares < 26 * (
            span * span)
        }),
{
    let t = s.skip(s.len() - 6);
    let n = s.len();
    assert(t[0] == s[n - 6] && t[1] == s[n - 5] && t[2] == s[n - 4] && t[3] == s[n - 3] && t[4]
        == s[n - 2] && t[5] == s[n - 1]);
    let (a, b, c, d, e) = (t[1] - t[0], t[2] - t[1], t[3] - t[2], t[4] - t[3], t[5] - t[4]);
    let sum = t[5] - t[0];
    assert(gap(s, 1) == e && gap(s, 2) == d && gap(s, 3) == c && gap(s, 4) == b && gap(s, 5) == a);
    assert(gap_sum(s) == sum);
    lemma_squares(a, b, c, d, e, sum);
}

proof fn lemma_square(g: int, sum: int)
    ensures
        off_mean(g, sum) == 25 * (g * g) - 10 * (g * sum) + sum * sum,
{
    assert((5 * g - sum) * (5 * g - sum) == 25 * (g * g) - 10 * (g * sum) + sum * sum)
        by (nonlinear_arith);
}

proof fn lemma_squares(a: int, b: int, c: int, d: int, e: int, sum: int)
    requires
        sum == a + b + c + d + e,
    ensures
        off_mean(a, sum) + off_mean(b, sum) + off_mean(c, sum) + off_mean(d, sum) + off_mean(e, sum)
            == 25 * (a * a + b * b + c * c + d * d + e * e) - 5 * (sum * sum),
{
    lemma_square(a, sum);
    lemma_square(b, sum);
    lemma_square(c, sum);
    lemma_square(d, sum);
    lemma_square(e, sum);
    assert(a * sum + b * sum + c * sum + d * sum + e * sum == sum * sum) by (nonlinear_arith)
        requires
            sum == a + b + c + d + e,
    ;
}

proof fn lemma_near(g: int, sum: int)
    requires
        sum >= 0,
        -sum <= 10 * (5 * g - sum) <= sum,
    ensures
        100 * off_mean(g, sum) <= sum * sum,
{
    let d = 10 * (5 * g - sum);
    assert(d * d <= sum * sum) by (nonlinear_arith)
        requires
            -sum <= d <= sum,
    ;
    assert(d * d == 100 * ((5 * g - sum) * (5 * g - sum))) by (nonlinear_arith)
        requires
            d == 10 * (5 * g - sum),
    ;
}

proof fn lemma_far(g: int, sum: int)
    requires
        sum >= 0,
        2 * (5 * g - sum) > sum || 2 * (5 * g - sum) < -sum,
    ensures
        4 * off_mean(g, sum) > sum * sum,
{
    let d = 2 * (5 * g - sum);
    assert(d * d > sum * sum) by (nonlinear_arith)
        requires
            d > sum || d < -sum,
            sum >= 0,
    ;
    assert(d * d == 4 * ((5 * g - sum) * (5 * g - sum))) by (nonlinear_arith)
        requires
            d == 2 * (5 * g - sum),
    ;
}

proof fn lemma_square_not_negative(g: int, sum: int)
    ensures
        off_mean(g, sum) >= 0,
{
    let d = 5 * g - sum;
    assert(d * d >= 0) by (nonlinear_arith);
}

/// Contacts whose last five gaps have a mean of five seconds to five minutes
/// and lie within a tenth of the mean of it are regular.
pub proof fn law_nearly_even_gaps_regular(s: Seq<u64>)
    requires
        s.len() >= 6,
        forall|i: int, j: int| s.len() - 6 <= i <= j < s.len() ==> s[i] <= s[j],
        5 * 5_000_000_000 <= s[s.len() - 1] - s[s.len() - 6] <= 5 * 300_000_000_000,
        forall|i: int|
            s.len() - 6 < i < s.len() ==> {
                let span = s[s.len() - 1] - s[s.len() - 6];
                -span <= 10 * (5 * (#[trigger] s[i] - s[i - 1]) - span) <= span
            },
    ensures
        regular(s),
{
    let n = s.len() as int;
    let sum = s[n - 1] - s[n - 6];
    let (a, b, c, d, e) = (
        s[n - 5] - s[n - 6],
        s[n - 4] - s[n - 5],
        s[n - 3] - s[n - 4],
        s[n - 2] - s[n - 3],
        s[n - 1] - s[n - 2],
    );
    assert(gap(s, 1) == e && gap(s, 2) == d && gap(s, 3) == c && gap(s, 4) == b && gap(s, 5) == a);
    lemma_near(a, sum);
    lemma_near(b, sum);
    lemma_near(c, sum);
    lemma_near(d, sum);
    lemma_near(e, sum);
    assert(sum * sum > 0) by (nonlinear_arith)
        requires
            sum > 0,
    ;
    let all = off_mean(a, sum) + off_mean(b, sum) + off_mean(c, sum) + off_mean(d, sum) + off_mean(
        e,
        sum,
    );
    assert(100 * all <= 5 * (sum * sum));
    assert(5 * all < sum * sum);
    assert(gap_sum(s) == sum);
}

/// Contacts of whose last five gaps one is further than half of their mean
/// from it are not regular, nor are those whose mean gap is below five seconds
/// or above five minutes, nor fewer than six contacts.
pub proof fn law_uneven_gaps_not_regular(s: Seq<u64>)
    requires
        s.len() >= 6 ==> forall|i: int, j: int|
            s.len() - 6 <= i <= j < s.len() ==> s[i] <= s[j],
        ({
            let span = s[s.len() - 1] - s[s.len() - 6];
            ||| s.len() < 6
            ||| span < 5 * 5_000_000_000
            ||| span > 5 * 300_000_000_000
            ||| exists|i: int|
                s.len() - 6 < i < s.len() && (2 * (5 * (#[trigger] s[i] - s[i - 1]) - span) > span
                    || 2 * (5 * (s[i] - s[i - 1]) - span) < -span)
        }),
    ensures
        !regular(s),
{
    if s.len() >= 6 {
        let n = s.len() as int;
        let sum = s[n - 1] - s[n - 6];
        let (a, b, c, d, e) = (
            s[n - 5] - s[n - 6],
            s[n - 4] - s[n - 5],
            s[n - 3] - s[n - 4],
            s[n - 2] - s[n - 3],
            s[n - 1] - s[n - 2],
        );
        assert(gap(s, 1) == e && gap(s, 2) == d && gap(s, 3) == c && gap(s, 4) == b && gap(s, 5)
            == a);
        assert(gap_sum(s) == sum);
        if 5 * 5_000_000_000 <= sum <= 5 * 300_000_000_000 {
            let i = choose|i: int|
                n - 6 < i < n && (2 * (5 * (#[trigger] s[i] - s[i - 1]) - sum) > sum || 2 * (5 * (
                s[i] - s[i - 1]) - sum) < -sum);
            assert(i == n - 5 || i == n - 4 || i == n - 3 || i == n - 2 || i == n - 1);
            lemma_square_not_negative(a, sum);
            lemma_square_not_negative(b, sum);
            lemma_square_not_negative(c, sum);
            lemma_square_not_negative(d, sum);
            lemma_square_not_negative(e, sum);
            lemma_far(s[i] - s[i - 1], sum);
        }
    }
}

/// A contact counts when more than four seconds have passed since the last one
/// that counted, or when it is the first; the last twenty are remembered, in
/// order.
pub proof fn law_contact_after_pause(s: Seq<u64>, now: u64)
    requires
        s.len() <= 20,
        s.len() > 0 ==> s.last() <= now,
    ensures
        s.len() == 0 ==> contacts_with(s, now) == seq![now],
        s.len() > 0 && now - s.last() <= 4_000_000_000 ==> contacts_with(s, now) == s,
        0 < s.len() < 20 && now - s.last() > 4_000_000_000 ==> contacts_with(s, now) == s.push(now),
        s.len() == 20 && now - s.last() > 4_000_000_000 ==> contacts_with(s, now) == s.skip(1).push(
            now,
        ),
{
}

fn gap_at(s: &Vec<u64>, i: usize) -> (r: u64)
    requires
        1 <= i < s@.len(),
    ensures
        r == gap(s@, i as int),
{
    let n: usize = s.len();
    s[n - i].saturating_sub(s[n - i - 1])
}

fn square_off(g: u64, sum: u64) -> (r: u128)
    requires
        g <= sum,
        sum <= SUM_MAX,
    ensures
        r == off_mean(g as int, sum as int),
        r <= 36_000_000_000_000_000_000_000_000,
{
    let a: u128 = 5 * (g as u128);
    let b: u128 = sum as u128;
    let d: u128 = if a > b { a - b } else { b - a };
    assert(d * d <= 36_000_000_000_000_000_000_000_000) by (nonlinear_arith)
        requires
            d <= 6_000_000_000_000,
    ;
    assert(d * d == off_mean(g as int, sum as int)) by (nonlinear_arith)
        requires
            d == 5 * g - sum || d == sum - 5 * g,
    ;
    d * d
}

/// The sum of the last five gaps, if they are regular.
fn regular_sum(s: &Vec<u64>) -> (r: Option<u64>)
    ensures
        match r {
            Some(sum) => regular(s@) && sum == gap_sum(s@),
            None => !regular(s@),
        },
{
    if s.len() < 6 {
        return None;
    }
    let g1: u64 = gap_at(s, 1);
    let g2: u64 = gap_at(s, 2);
    let g3: u64 = gap_at(s, 3);
    let g4: u64 = gap_at(s, 4);
    let g5: u64 = gap_at(s, 5);
    let wide: u128 = g1 as u128 + g2 as u128 + g3 as u128 + g4 as u128 + g5 as u128;
    if wide < SUM_MIN as u128 || wide > SUM_MAX as u128 {
        return None;
    }
    let sum: u64 = wide as u64;
    let squares: u128 = square_off(g1, sum) + square_off(g2, sum) + square_off(g3, sum)
        + square_off(g4, sum) + square_off(g5, sum);
    let total: u128 = sum as u128;
    assert(total * total <= 2_250_000_000_000_000_000_000_000) by (nonlinear_arith)
        requires
            total <= 1_500_000_000_000,
    ;
    assert(total * total == sum * sum);
    if 5 * squares < total * total {
        Some(sum)
    } else {
        None
    }
}

// ---------------------------------------------------------------------------
// Port scans
// ---------------------------------------------------------------------------

/// The number of ports beyond which trying them is a scan.
pub const SCAN_PORTS: usize = 25;

/// The message of a port scan.
pub open spec fn scan_message(src: IpAddr, ports: nat) -> Seq<char> {
    "PORT SCAN DETECTED: "@ + net::ip_text(src) + " is probing "@ + text::dec(ports)
        + " unique ports (possible reconnaissance)"@
}

/// The ports that a sender tried.
pub open spec fn ports_at(m: Map<IpAddr, Set<u16>>, k: IpAddr) -> Set<u16> {
    if m.dom().contains(k) {
        m[k]
    } else {
        Set::empty()
    }
}

/// A packet from outside that tries a port inside.
pub open spec fn tries_port(p: PacketView) -> bool {
    (p.protocol == Protocol::Tcp || p.protocol == Protocol::Udp) && !net::private_ip(p.src_ip)
        && net::private_ip(p.dst_ip) && p.dst_port is Some
}

impl WatchView {
    /// The ports that the sender of a packet tried, with the one of the packet.
    pub open spec fn tried(self, p: PacketView) -> Set<u16> {
        ports_at(self.src_port_targets, p.src_ip).insert(p.dst_port->0)
    }

    /// A sender that tried more ports than the limit, not alerted before.
    pub open spec fn scans(self, p: PacketView) -> bool {
        tries_port(p) && self.tried(p).len() > SCAN_PORTS && !self.port_scan_alerted.contains(
            p.src_ip,
        )
    }

    /// What is remembered after a packet was held against port scans.
    pub open spec fn after_scan(self, p: PacketView) -> WatchView {
        if !tries_port(p) {
            self
        } else if self.scans(p) {
            WatchView {
                src_port_targets: self.src_port_targets.remove(p.src_ip),
                port_scan_alerted: self.port_scan_alerted.insert(p.src_ip),
                ..self
            }
        } else {
            WatchView {
                src_port_targets: self.src_port_targets.insert(p.src_ip, self.tried(p)),
                ..self
            }
        }
    }

    /// The alert of a port scan.
    pub open spec fn scan_alert(self, p: PacketView, wall: u64) -> Option<AlertView> {
        if self.scans(p) {
            Some(
                warning(
                    wall,
                    scan_message(p.src_ip, self.tried(p).len()),
                    AlertTier::Suspicious,
                    p.src_ip,
                ),
            )
        } else {
            None
        }
    }
}

/// A sender is alerted as scanning once only.
pub proof fn law_scan_alerted_once(w: WatchView, p: PacketView, q: PacketView)
    requires
        w.scans(p),
        q.src_ip == p.src_ip,
    ensures
        !w.after_scan(p).scans(q),
{
}

// ---------------------------------------------------------------------------
// The detectors at work
// ---------------------------------------------------------------------------

fn copy_times(v: &Vec<u64>) -> (r: Vec<u64>)
    ensures
        r@ == v@,
{
    let mut r: Vec<u64> = Vec::new();
    let n: usize = v.len();
    for i in 0..n
        invariant
            n == v@.len(),
            r@ == v@.take(i as int),
    {
        r.push(v[i]);
    }
    r
}

/// The contacts after a packet at `now`.
fn next_contacts(old_times: Option<&Vec<u64>>, now: u64) -> (r: Vec<u64>)
    ensures
        r@ == contacts_with(
            match old_times {
                Some(v) => v@,
                None => Seq::empty(),
            },
            now,
        ),
{
    let mut s: Vec<u64> = match old_times {
        Some(v) => copy_times(v),
        None => Vec::new(),
    };
    let n: usize = s.len();
    if n == 0 || now.saturating_sub(s[n - 1]) > CONTACT_GAP {
        s.push(now);
    }
    if s.len() > CONTACTS {
        let at: usize = s.len() - CONTACTS;
        let ghost before = s@;
        let tail = s.split_off(at);
        assert(tail@ =~= before.skip(at as int));
        return tail;
    }
    s
}

impl Watch {
    /// Nothing remembered yet.
    pub fn new() -> (r: Watch)
        ensures
            r@ == nothing_seen(),
    {
        Watch {
            high_volume_alerted: KeySet::new(),
            dns_response_counts: Table::new(),
            dns_poison_alerted: KeySet::new(),
            connection_intervals: Table::new(),
            beacon_alerted: KeySet::new(),
            src_port_targets: Table::new(),
            port_scan_alerted: KeySet::new(),
            external_alerted: KeySet::new(),
        }
    }

    /// Whether one more response can be counted.
    pub fn has_flood_room(&self, p: &CapturedPacket, now: u64) -> (r: bool)
        ensures
            r == self@.flood_room(p@, now),
    {
        if !is_dns_response(p) {
            return true;
        }
        match self.dns_response_counts.get(&(p.src_ip, p.dst_ip)) {
            Some(c) => c.0 < u64::MAX || now.saturating_sub(c.1) > SECOND,
            None => true,
        }
    }

    /// Holds a packet against floods of DNS responses.
    pub fn check_flood(&mut self, p: &CapturedPacket, now: u64, wall: u64) -> (r: Option<Alert>)
        requires
            old(self)@.flood_room(p@, now),
        ensures
            final(self)@ == old(self)@.after_flood(p@, now),
            alert_opt(r) == old(self)@.flood_alert(p@, now, wall),
    {
        if !is_dns_response(p) {
            return None;
        }
        let pair = (p.src_ip, p.dst_ip);
        let (count, start): (u64, u64) = match self.dns_response_counts.get(&pair) {
            Some(c) => (c.0, c.1),
            None => (0, now),
        };
        let next: (u64, u64) = if now.saturating_sub(start) > SECOND {
            (1, now)
        } else {
            (count + 1, start)
        };
        self.dns_response_counts.insert(pair, next);
        let src = ip_string(&p.src_ip);
        if next.0 > 5 && !self.dns_poison_alerted.contains(&src) {
            let mut m = "DNS FLOOD DETECTED: ".to_owned();
            m.append(src.as_str());
            m.append(" is sending abnormal DNS responses (possible poisoning attempt)");
            self.dns_poison_alerted.insert(src);
            Some(warning_alert(wall, m, AlertTier::Suspicious, p.src_ip))
        } else {
            None
        }
    }

    /// Holds a packet against regular calls out of this network.
    pub fn check_beacon(&mut self, p: &CapturedPacket, now: u64, wall: u64, program: &str) -> (r:
        Option<Alert>)
        ensures
            final(self)@ == old(self)@.after_beacon(p@, now, program@),
            alert_opt(r) == old(self)@.beacon_alert(p@, now, wall, program@),
    {
        if is_local_or_multicast(&p.dst_ip) {
            return None;
        }
        let pair = (p.src_ip, p.dst_ip);
        let times = next_contacts(self.connection_intervals.get(&pair), now);
        let sum = regular_sum(&times);
        self.connection_intervals.insert(pair, times);
        if self.beacon_alerted.contains(&pair) {
            return None;
        }
        match sum {
            None => None,
            Some(total) => {
                if has_any(lower_case(program).as_str(), &TRUSTED_PROGRAMS) {
                    return None;
                }
                self.beacon_alerted.insert(pair);
                let mut m = "BEACON DETECTED: ".to_owned();
                m.append(ip_string(&p.src_ip).as_str());
                m.append(" -> ");
                m.append(ip_string(&p.dst_ip).as_str());
                m.append(" \u{2014} regular interval ~");
                m.append(dec_text(nearest_of(total, 5_000_000_000)).as_str());
                m.append("s (possible C2 heartbeat)");
                Some(warning_alert(wall, m, AlertTier::Behavioral, p.dst_ip))
            },
        }
    }

    /// Holds a packet against port scans.
    pub fn check_scan(&mut self, p: &CapturedPacket, wall: u64) -> (r: Option<Alert>)
        ensures
            final(self)@ == old(self)@.after_scan(p@),
            alert_opt(r) == old(self)@.scan_alert(p@, wall),
    {
        let transport = p.protocol == Protocol::Tcp || p.protocol == Protocol::Udp;
        if !(transport && !is_private_ip(&p.src_ip) && is_private_ip(&p.dst_ip)) {
            return None;
        }
        let port: u16 = match p.dst_port {
            Some(port) => port,
            None => {
                return None;
            },
        };
        let mut ports: KeySet<u16> = match self.src_port_targets.get(&p.src_ip) {
            Some(s) => s.dup(),
            None => KeySet::new(),
        };
        ports.insert(port);
        let n: usize = ports.len();
        if n > SCAN_PORTS && !self.port_scan_alerted.contains(&p.src_ip) {
            self.port_scan_alerted.insert(p.src_ip);
            self.src_port_targets.remove(&p.src_ip);
            let mut m = "PORT SCAN DETECTED: ".to_owned();
            m.append(ip_string(&p.src_ip).as_str());
            m.append(" is probing ");
            m.append(dec_text(n as u64).as_str());
            m.append(" unique ports (possible reconnaissance)");
            Some(warning_alert(wall, m, AlertTier::Suspicious, p.src_ip))
        } else {
            self.src_port_targets.insert(p.src_ip, ports);
            None
        }
    }
}

} // verus!
