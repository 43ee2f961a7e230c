//! The report of a session.

use vstd::prelude::*;
use vstd::string::*;

use crate::alerts::{Alert, AlertLog, AlertTier, AlertView, LogView};
use crate::device::{DetailsView, DeviceDetails, InfoView};
use crate::fingerprint;
use crate::fingerprint::model_of;
use crate::flows::{Conn, ConnKey, ConnView};
use crate::formatting;
use crate::formatting::format_size;
use crate::geoip;
use crate::hostname;
use crate::hostname::DASH;
use crate::hosts;
use crate::hosts::{HostsView, try_model, try_name};
use crate::names;
use crate::names::{Names, NamesView};
use crate::net;
use crate::net::{IpAddr, ip_string, is_local_ip, is_multicast, is_private_ip, octets};
use crate::order;
use crate::order::rank;
use crate::panels;
use crate::panels::push_stamps;
use crate::radar;
use crate::radar::key_addresses;
use crate::state;
use crate::state::{AppState, Ui};
use crate::table::{KeySet, Table};
use crate::text;
use crate::text::{dec_text, padded_right, same};
use crate::traffic::{Counters, CountersView, SECOND};

verus! {

/// The version of this program.
pub const APP_VERSION: &'static str = "2.0.0";

// ---------------------------------------------------------------------------
// Tallies
// ---------------------------------------------------------------------------

/// The position of a text in a tally, from `from` on.
pub open spec fn tally_place(t: Seq<(Seq<char>, u64)>, x: Seq<char>, from: int) -> Option<int>
    decreases t.len() - from,
{
    if from < 0 || from >= t.len() {
        None
    } else if t[from].0 == x {
        Some(from)
    } else {
        tally_place(t, x, from + 1)
    }
}

/// A tally with one text more.
pub open spec fn tally_with(t: Seq<(Seq<char>, u64)>, x: Seq<char>) -> Seq<(Seq<char>, u64)> {
    match tally_place(t, x, 0) {
        Some(i) => t.update(i, (x, (t[i].1 + 1) as u64)),
        None => t.push((x, 1)),
    }
}

/// How often each text occurs, in the order in which they first occur.
pub open spec fn tally(list: Seq<Seq<char>>) -> Seq<(Seq<char>, u64)>
    decreases list.len(),
{
    if list.len() == 0 {
        Seq::empty()
    } else {
        tally_with(tally(list.drop_last()), list.last())
    }
}

/// How often a text occurs.
pub open spec fn occurrences(list: Seq<Seq<char>>, x: Seq<char>) -> nat
    decreases list.len(),
{
    if list.len() == 0 {
        0
    } else {
        occurrences(list.drop_last(), x) + if list.last() == x {
            1nat
        } else {
            0
        }
    }
}

proof fn lemma_tally_place(t: Seq<(Seq<char>, u64)>, x: Seq<char>, from: int)
    requires
        0 <= from,
    ensures
        match tally_place(t, x, from) {
            Some(i) => from <= i < t.len() && t[i].0 == x,
            None => forall|j: int| from <= j < t.len() ==> (#[trigger] t[j]).0 != x,
        },
    decreases t.len() - from,
{
    if from < t.len() && t[from].0 != x {
        lemma_tally_place(t, x, from + 1);
    }
}

proof fn lemma_occurs(list: Seq<Seq<char>>, x: Seq<char>)
    ensures
        occurrences(list, x) <= list.len(),
        occurrences(list, x) > 0 <==> list.contains(x),
    decreases list.len(),
{
    if list.len() > 0 {
        lemma_occurs(list.drop_last(), x);
        assert(list == list.drop_last().push(list.last()));
        if list.contains(x) && list.last() != x {
            let i = choose|i: int| 0 <= i < list.len() && list[i] == x;
            assert(list.drop_last()[i] == x);
        }
        if occurrences(list, x) > 0 {
            if list.last() == x {
                assert(list[list.len() - 1] == x);
            } else {
                let i = choose|i: int| 0 <= i < list.drop_last().len() && list.drop_last()[i] == x;
                assert(list[i] == x);
            }
        }
    }
}

/// A tally lists each text that occurs, once, with the number of times that it
/// occurs.
pub proof fn law_tally(list: Seq<Seq<char>>)
    requires
        list.len() <= u64::MAX,
    ensures
        forall|i: int|
            0 <= i < tally(list).len() ==> list.contains((#[trigger] tally(list)[i]).0) && tally(
                list,
            )[i].1 == occurrences(list, tally(list)[i].0),
        forall|i: int, j: int|
            0 <= i < j < tally(list).len() ==> (#[trigger] tally(list)[i]).0 != (#[trigger] tally(
                list,
            )[j]).0,
        forall|k: int|
            0 <= k < list.len() ==> tally_place(tally(list), #[trigger] list[k], 0) is Some,
    decreases list.len(),
{
    if list.len() > 0 {
        let before = list.drop_last();
        let x = list.last();
        law_tally(before);
        let t = tally(before);
        let r = tally(list);
        assert(r == tally_with(t, x));
        lemma_tally_place(t, x, 0);
        lemma_occurs(before, x);
        lemma_occurs(list, x);
        assert forall|i: int| 0 <= i < r.len() implies list.contains((#[trigger] r[i]).0) && r[i].1
            == occurrences(list, r[i].0) by {
            let y = r[i].0;
            lemma_occurs(list, y);
            lemma_occurs(before, y);
            if i < t.len() {
                assert(t[i].0 == y);
                if y != x {
                    assert(r[i] == t[i]);
                    assert(occurrences(list, y) == occurrences(before, y));
                } else {
                    assert(tally_place(t, x, 0) is Some);
                    let p = tally_place(t, x, 0)->0;
                    if p < i {
                        assert(t[p].0 != t[i].0);
                    }
                    if i < p {
                        assert(t[i].0 != t[p].0);
                    }
                    assert(t[i].1 == occurrences(before, x));
                }
            } else {
                assert(y == x);
                assert(occurrences(before, x) == 0) by {
                    if before.contains(x) {
                        let k = choose|k: int| 0 <= k < before.len() && before[k] == x;
                        assert(tally_place(t, before[k], 0) is Some);
                    }
                }
            }
        }
        assert forall|i: int, j: int| 0 <= i < j < r.len() implies (#[trigger] r[i]).0 != (
        #[trigger] r[j]).0 by {
            assert(t[i].0 == r[i].0);
            if j < t.len() {
                assert(t[j].0 == r[j].0);
                assert(t[i].0 != t[j].0);
            }
        }
        assert forall|k: int| 0 <= k < list.len() implies tally_place(r, #[trigger] list[k], 0) is Some by {
            let y = list[k];
            lemma_tally_place(r, y, 0);
            if k < before.len() {
                assert(before[k] == y);
                lemma_tally_place(t, y, 0);
                let p = tally_place(t, y, 0)->0;
                assert(r[p].0 == y);
            } else {
                assert(y == x);
                match tally_place(t, x, 0) {
                    Some(p) => {
                        assert(r[p].0 == x);
                    },
                    None => {
                        assert(r[t.len() as int].0 == x);
                    },
                }
            }
        }
    }
}

/// The views of a tally.
pub open spec fn tally_views(v: Seq<(String, u64)>) -> Seq<(Seq<char>, u64)> {
    v.map_values(|e: (String, u64)| (e.0@, e.1))
}

fn add_to_tally(t: &mut Vec<(String, u64)>, x: &str)
    requires
        forall|i: int| 0 <= i < old(t)@.len() ==> (#[trigger] old(t)@[i]).1 < u64::MAX,
    ensures
        tally_views(final(t)@) == tally_with(tally_views(old(t)@), x@),
{
    let n: usize = t.len();
    let ghost v = tally_views(t@);
    let mut i: usize = 0;
    while i < n
        invariant
            n == t@.len(),
            i <= n,
            v == tally_views(t@),
            t@ == old(t)@,
            v == tally_views(old(t)@),
            forall|j: int| 0 <= j < n ==> (#[trigger] t@[j]).1 < u64::MAX,
            tally_place(v, x@, 0) == tally_place(v, x@, i as int),
        decreases n - i,
    {
        assert(v[i as int] == (t@[i as int].0@, t@[i as int].1));
        if same(t[i].0.as_str(), x) {
            let count: u64 = t[i].1 + 1;
            t.set(i, (x.to_owned(), count));
            assert(tally_views(t@) =~= v.update(i as int, (x@, count)));
            return;
        }
        i = i + 1;
    }
    t.push((x.to_owned(), 1));
    assert(tally_views(t@) =~= v.push((x@, 1u64)));
}

/// How often each text occurs, in the order in which they first occur.
pub fn tally_of(list: &Vec<String>) -> (r: Vec<(String, u64)>)
    ensures
        tally_views(r@) == tally(text::texts(list@)),
{
    let n: usize = list.len();
    let ghost all = text::texts(list@);
    let mut r: Vec<(String, u64)> = Vec::new();
    assert(tally_views(r@) =~= tally(all.take(0)));
    for i in 0..n
        invariant
            n == list@.len(),
            all == text::texts(list@),
            tally_views(r@) == tally(all.take(i as int)),
    {
        proof {
            let part = all.take(i as int);
            law_tally(part);
            assert forall|j: int| 0 <= j < r@.len() implies (#[trigger] r@[j]).1 < u64::MAX by {
                assert(tally_views(r@)[j] == (r@[j].0@, r@[j].1));
                lemma_occurs(part, tally(part)[j].0);
            }
            assert(all.take(i + 1).drop_last() =~= part);
            assert(all.take(i + 1).last() == list@[i as int]@);
        }
        add_to_tally(&mut r, list[i].as_str());
    }
    assert(all.take(n as int) =~= all);
    r
}

// ---------------------------------------------------------------------------
// Lines
// ---------------------------------------------------------------------------

/// Lines, each with its end.
pub open spec fn lined(lines: Seq<Seq<char>>) -> Seq<char>
    decreases lines.len(),
{
    if lines.len() == 0 {
        Seq::empty()
    } else {
        lined(lines.drop_last()) + lines.last() + "\n"@
    }
}

fn joined_lines(lines: &Vec<String>) -> (r: String)
    ensures
        r@ == lined(text::texts(lines@)),
{
    let n: usize = lines.len();
    let ghost all = text::texts(lines@);
    let mut r = String::new();
    assert(r@ =~= lined(all.take(0)));
    for i in 0..n
        invariant
            n == lines@.len(),
            all == text::texts(lines@),
            r@ == lined(all.take(i as int)),
    {
        assert(all.take(i + 1).drop_last() =~= all.take(i as int));
        assert(all.take(i + 1).last() == lines@[i as int]@);
        r.append(lines[i].as_str());
        r.append("\n");
    }
    assert(all.take(n as int) =~= all);
    r
}

fn put(v: &mut Vec<String>, s: &str)
    ensures
        text::texts(final(v)@) == text::texts(old(v)@).push(s@),
{
    let ghost before = v@;
    v.push(s.to_owned());
    assert(text::texts(v@) =~= text::texts(before).push(s@));
}

/// A label and a number.
pub open spec fn count_line(label: Seq<char>, n: u64) -> Seq<char> {
    label + text::dec(n as nat)
}

fn put_count(v: &mut Vec<String>, label: &str, n: u64)
    ensures
        text::texts(final(v)@) == text::texts(old(v)@).push(count_line(label@, n)),
{
    let mut s = label.to_owned();
    s.append(dec_text(n).as_str());
    put(v, s.as_str());
}

/// A label and a text.
pub open spec fn text_line(label: Seq<char>, t: Seq<char>) -> Seq<char> {
    label + t
}

fn put_text(v: &mut Vec<String>, label: &str, t: &str)
    ensures
        text::texts(final(v)@) == text::texts(old(v)@).push(text_line(label@, t@)),
{
    let mut s = label.to_owned();
    s.append(t);
    put(v, s.as_str());
}

/// Four columns.
pub open spec fn columns(
    a: (Seq<char>, nat),
    b: (Seq<char>, nat),
    c: (Seq<char>, nat),
    d: (Seq<char>, nat),
) -> Seq<char> {
    text::pad_right(a.0, a.1) + " | "@ + text::pad_right(b.0, b.1) + " | "@ + text::pad_right(c.0, c.1) + " | "@
        + text::pad_right(d.0, d.1)
}

fn column_text(a: (&str, usize), b: (&str, usize), c: (&str, usize), d: (&str, usize)) -> (r: String)
    ensures
        r@ == columns(
            (a.0@, a.1 as nat),
            (b.0@, b.1 as nat),
            (c.0@, c.1 as nat),
            (d.0@, d.1 as nat),
        ),
{
    let mut r = padded_right(a.0, a.1);
    r.append(" | ");
    r.append(padded_right(b.0, b.1).as_str());
    r.append(" | ");
    r.append(padded_right(c.0, c.1).as_str());
    r.append(" | ");
    r.append(padded_right(d.0, d.1).as_str());
    r
}

// ---------------------------------------------------------------------------
// Header and summary
// ---------------------------------------------------------------------------

/// What the report says that is written by others: times in the local time
/// zone and numbers with a fraction.
pub struct ReportTexts {
    /// When the report is made.
    pub time: String,
    /// The part of each protocol among all packets, in percent.
    pub tcp_share: String,
    pub udp_share: String,
    pub ping_share: String,
    /// For how long each connection lasted, in seconds.
    pub seconds: Vec<String>,
    /// When each alert was raised, the suspicious ones first, then those of
    /// behaviour, then the external ones, then noise.
    pub alert_times: Vec<String>,
}

/// For how long a session lasted.
pub open spec fn session_text(secs: u64) -> Seq<char> {
    if secs > 3600 {
        text::dec((secs / 3600) as nat) + "h "@ + text::dec(((secs % 3600) / 60) as nat) + "m "@ + text::dec(
            (secs % 60) as nat,
        ) + "s"@
    } else if secs > 60 {
        text::dec((secs / 60) as nat) + "m "@ + text::dec((secs % 60) as nat) + "s"@
    } else {
        text::dec(secs as nat) + "s"@
    }
}

/// For how long a session lasted.
pub fn format_session(secs: u64) -> (r: String)
    ensures
        r@ == session_text(secs),
{
    if secs > 3600 {
        let mut r = dec_text(secs / 3600);
        r.append("h ");
        r.append(dec_text((secs % 3600) / 60).as_str());
        r.append("m ");
        r.append(dec_text(secs % 60).as_str());
        r.append("s");
        r
    } else if secs > 60 {
        let mut r = dec_text(secs / 60);
        r.append("m ");
        r.append(dec_text(secs % 60).as_str());
        r.append("s");
        r
    } else {
        let mut r = dec_text(secs);
        r.append("s");
        r
    }
}

/// A line under which the title stands.
pub const DOUBLE_RULE: &'static str =
    "================================================================";

/// A line under the header.
pub const RULE: &'static str = "----------------------------------------------------------------";

/// The header of a report.
pub open spec fn header_lines(ui: Ui, time: Seq<char>, secs: u64) -> Seq<Seq<char>> {
    Seq::empty().push(DOUBLE_RULE@).push("                VORA-RECON SESSION REPORT"@).push(
        DOUBLE_RULE@,
    ).push(text_line("Version:      "@, APP_VERSION@)).push(
        text_line("Timestamp:    "@, time),
    ).push(text_line("Interface:    "@, ui.interface_name@)).push(
        text_line("Network:      "@, ui.current_network@),
    ).push(text_line("Duration:     "@, session_text(secs))).push(RULE@)
}

fn put_header(v: &mut Vec<String>, ui: &Ui, time: &str, secs: u64)
    requires
        old(v)@.len() == 0,
    ensures
        text::texts(final(v)@) == header_lines(*ui, time@, secs),
{
    assert(text::texts(v@) =~= Seq::<Seq<char>>::empty());
    put(v, DOUBLE_RULE);
    put(v, "                VORA-RECON SESSION REPORT");
    put(v, DOUBLE_RULE);
    put_text(v, "Version:      ", APP_VERSION);
    put_text(v, "Timestamp:    ", time);
    put_text(v, "Interface:    ", ui.interface_name.as_str());
    put_text(v, "Network:      ", ui.current_network.as_str());
    put_text(v, "Duration:     ", format_session(secs).as_str());
    put(v, RULE);
}

/// The tags of the systems that are known, of private addresses.
pub open spec fn known_tags(h: HostsView, ips: Seq<IpAddr>) -> Seq<Seq<char>>
    decreases ips.len(),
{
    if ips.len() == 0 {
        Seq::empty()
    } else {
        let before = known_tags(h, ips.drop_last());
        if net::private_ip(ips.last()) && h.shown_os(ips.last()) != "[?]"@ {
            before.push(h.shown_os(ips.last()))
        } else {
            before
        }
    }
}

/// Texts and how often each occurs.
pub open spec fn tally_text(t: Seq<(Seq<char>, u64)>, n: int) -> Seq<char>
    decreases n,
{
    if n <= 0 {
        "OS Distribution:  "@
    } else {
        tally_text(t, n - 1) + t[n - 1].0 + " ("@ + text::dec(t[n - 1].1 as nat) + ")  "@
    }
}

/// The alerts that were raised, and the systems that are known.
pub open spec fn security_lines(
    before: Seq<Seq<char>>,
    l: LogView,
    tags: Seq<(Seq<char>, u64)>,
) -> Seq<Seq<char>> {
    let r = before.push(""@).push("[ SECURITY POSTURE SUMMARY ]"@).push(
        count_line("Total Alerts:      "@, l.total),
    ).push(count_line("  - Suspicious:    "@, l.total_suspicious)).push(
        count_line("  - Behavioral:    "@, l.total_behavioral),
    ).push(count_line("  - External:      "@, l.total_external)).push(
        count_line("  - Noise/Misc:    "@, l.total_noise),
    );
    if tags.len() == 0 {
        r
    } else {
        r.push(tally_text(tags, tags.len() as int))
    }
}

impl AppState {
    fn tags(&self) -> (r: Vec<String>)
        ensures
            text::texts(r@) == known_tags(self.hosts(), self.flows.unique_ips.list()),
    {
        let n: usize = self.flows.unique_ips.len();
        let ghost ips = self.flows.unique_ips.list();
        let mut r: Vec<String> = Vec::new();
        assert(text::texts(r@) =~= known_tags(self.hosts(), ips.take(0)));
        for i in 0..n
            invariant
                n == ips.len(),
                ips == self.flows.unique_ips.list(),
                text::texts(r@) == known_tags(self.hosts(), ips.take(i as int)),
        {
            let ip = self.flows.unique_ips.at(i);
            assert(ips.take(i + 1).drop_last() =~= ips.take(i as int));
            assert(ips.take(i + 1).last() == *ip);
            if is_private_ip(ip) {
                let tag = self.get_resolved_os_tag(ip);
                if !same(tag.as_str(), "[?]") {
                    put(&mut r, tag.as_str());
                }
            }
        }
        assert(ips.take(n as int) =~= ips);
        r
    }
}

fn put_security(v: &mut Vec<String>, log: &AlertLog, tags: &Vec<(String, u64)>)
    ensures
        text::texts(final(v)@) == security_lines(text::texts(old(v)@), log@, tally_views(tags@)),
{
    put(v, "");
    put(v, "[ SECURITY POSTURE SUMMARY ]");
    put_count(v, "Total Alerts:      ", log.total);
    put_count(v, "  - Suspicious:    ", log.total_suspicious);
    put_count(v, "  - Behavioral:    ", log.total_behavioral);
    put_count(v, "  - External:      ", log.total_external);
    put_count(v, "  - Noise/Misc:    ", log.total_noise);
    let n: usize = tags.len();
    if n == 0 {
        return;
    }
    let ghost t = tally_views(tags@);
    let mut s = "OS Distribution:  ".to_owned();
    for i in 0..n
        invariant
            n == tags@.len(),
            t == tally_views(tags@),
            s@ == tally_text(t, i as int),
    {
        assert(t[i as int] == (tags@[i as int].0@, tags@[i as int].1));
        s.append(tags[i].0.as_str());
        s.append(" (");
        s.append(dec_text(tags[i].1).as_str());
        s.append(")  ");
    }
    put(v, s.as_str());
}

// ---------------------------------------------------------------------------
// Traffic
// ---------------------------------------------------------------------------

/// A number for each second.
pub open spec fn per_second(n: u64, secs: u64) -> u64 {
    if secs > 0 {
        n / secs
    } else {
        0
    }
}

/// How much was seen each second.
pub open spec fn rate_line(c: CountersView, secs: u64) -> Seq<char> {
    "Average Throughput: "@ + text::dec(per_second(c.total_packets, secs) as nat) + " pkts/s | "@
        + formatting::size_text(per_second(c.total_bytes, secs)) + "/s"@
}

/// How many packets a protocol had.
pub open spec fn share_line(label: Seq<char>, n: u64, share: Seq<char>) -> Seq<char> {
    label + text::dec(n as nat) + " ("@ + share + "%)"@
}

fn put_share(v: &mut Vec<String>, label: &str, n: u64, share: &str)
    ensures
        text::texts(final(v)@) == text::texts(old(v)@).push(share_line(label@, n, share@)),
{
    let mut s = label.to_owned();
    s.append(dec_text(n).as_str());
    s.append(" (");
    s.append(share);
    s.append("%)");
    put(v, s.as_str());
}

/// How much was seen.
pub open spec fn traffic_lines(
    before: Seq<Seq<char>>,
    c: CountersView,
    secs: u64,
    t: ReportTexts,
) -> Seq<Seq<char>> {
    before.push(""@).push("[ TRAFFIC STATISTICS ]"@).push(
        count_line("Total Packets:     "@, c.total_packets),
    ).push(text_line("Total Data:        "@, formatting::size_text(c.total_bytes))).push(
        rate_line(c, secs),
    ).push(""@).push("Protocol Breakdown:"@).push(
        share_line("  - TCP:           "@, c.tcp_count, t.tcp_share@),
    ).push(share_line("  - UDP:           "@, c.udp_count, t.udp_share@)).push(
        share_line("  - ICMP:          "@, c.icmp_count, t.ping_share@),
    )
}

fn put_traffic(v: &mut Vec<String>, c: &Counters, secs: u64, t: &ReportTexts)
    ensures
        text::texts(final(v)@) == traffic_lines(text::texts(old(v)@), c@, secs, *t),
{
    put(v, "");
    put(v, "[ TRAFFIC STATISTICS ]");
    put_count(v, "Total Packets:     ", c.total_packets);
    put_text(v, "Total Data:        ", format_size(c.total_bytes).as_str());
    let (packets, bytes): (u64, u64) = if secs > 0 {
        (c.total_packets / secs, c.total_bytes / secs)
    } else {
        (0, 0)
    };
    let mut s = "Average Throughput: ".to_owned();
    s.append(dec_text(packets).as_str());
    s.append(" pkts/s | ");
    s.append(format_size(bytes).as_str());
    s.append("/s");
    put(v, s.as_str());
    put(v, "");
    put(v, "Protocol Breakdown:");
    put_share(v, "  - TCP:           ", c.tcp_count, t.tcp_share.as_str());
    put_share(v, "  - UDP:           ", c.udp_count, t.udp_share.as_str());
    put_share(v, "  - ICMP:          ", c.icmp_count, t.ping_share.as_str());
}

// ---------------------------------------------------------------------------
// Devices
// ---------------------------------------------------------------------------

/// The name of a device: that by which it was found, else the model that it
/// tells.
pub open spec fn device_name(dev: InfoView, d: Option<DetailsView>) -> Seq<char> {
    match hosts::good_name(Some(dev.hostname)) {
        Some(n) => n,
        None => geoip::or_text(hosts::good_model(d), DASH@),
    }
}

/// Seven columns on a device.
pub open spec fn host_row(
    ip: Seq<char>,
    name: Seq<char>,
    vendor: Seq<char>,
    mac: Seq<char>,
    os: Seq<char>,
    category: Seq<char>,
    delta: Seq<char>,
) -> Seq<char> {
    text::pad_right(ip, 16) + " | "@ + columns((name, 30), (vendor, 25), (mac, 18), (os, 8)) + " | "@
        + text::pad_right(category, 12) + " | "@ + delta
}

/// The category of a device.
pub open spec fn category_text(d: Option<DetailsView>) -> Seq<char> {
    match d {
        Some(x) => geoip::or_text(x.property("category"@), DASH@),
        None => DASH@,
    }
}

/// Whether a device was known when the last scan began, where something was.
pub open spec fn delta_text(known: Option<Set<IpAddr>>, ip: IpAddr) -> Seq<char> {
    match known {
        Some(k) => if k.contains(ip) {
            "known"@
        } else {
            "[NEW]"@
        },
        None => DASH@,
    }
}

fn write_row(
    ip: &str,
    name: &str,
    vendor: &str,
    mac: &str,
    os: &str,
    category: &str,
    delta: &str,
) -> (r: String)
    ensures
        r@ == host_row(ip@, name@, vendor@, mac@, os@, category@, delta@),
{
    let mut s = padded_right(ip, 16);
    s.append(" | ");
    s.append(column_text((name, 30), (vendor, 25), (mac, 18), (os, 8)).as_str());
    s.append(" | ");
    s.append(padded_right(category, 12).as_str());
    s.append(" | ");
    s.append(delta);
    s
}

fn write_delta(known: &Option<KeySet<IpAddr>>, ip: &IpAddr) -> (r: &'static str)
    ensures
        r@ == delta_text(state::taken_set(*known), *ip),
{
    match known {
        Some(k) => if k.contains(ip) {
            "known"
        } else {
            "[NEW]"
        },
        None => DASH,
    }
}

/// The devices of the network, in the order of their addresses.
pub open spec fn host_rows(
    before: Seq<Seq<char>>,
    h: HostsView,
    ips: Seq<IpAddr>,
    n: int,
) -> Seq<Seq<char>>
    decreases n,
{
    if n <= 0 {
        before.push(""@).push("[ LOCAL NETWORK INVENTORY ]"@).push(
            host_row(
                "IP Address"@,
                "Hostname"@,
                "OUI Vendor"@,
                "MAC Address"@,
                "OS"@,
                "Category"@,
                "Baseline"@,
            ),
        ).push(DEVICE_RULE@)
    } else {
        let ip = ips[n - 1];
        host_rows(before, h, ips, n - 1).push(
            host_row(
                net::ip_text(ip),
                device_name(h.active[ip], names::at(h.details, ip)),
                h.active[ip].vendor,
                h.active[ip].mac,
                h.shown_os(ip),
                category_text(names::at(h.details, ip)),
                delta_text(h.known, ip),
            ),
        )
    }
}

/// A line under the columns on devices.
pub const DEVICE_RULE: &'static str =
    "-----------------|--------------------------------|---------------------------|--------------------|----------|--------------|---------";

/// Five columns on what a device tells of itself.
pub open spec fn details_line(
    ip: Seq<char>,
    model: Seq<char>,
    firmware: Seq<char>,
    services: Seq<char>,
    extra: Seq<char>,
) -> Seq<char> {
    text::pad_right(ip, 16) + " | "@ + columns((model, 28), (firmware, 20), (services, 20), (extra, 0))
}

/// The first property that there is.
pub open spec fn first_property(d: DetailsView, a: Seq<char>, b: Seq<char>) -> Option<Seq<char>> {
    match d.property(a) {
        Some(x) => Some(x),
        None => d.property(b),
    }
}

/// What a device tells of itself.
pub open spec fn told_line(ip: IpAddr, d: DetailsView) -> Seq<char> {
    details_line(
        net::ip_text(ip),
        geoip::or_text(fingerprint::told_model(d), DASH@),
        geoip::or_text(first_property(d, "firmware"@, "os_version"@), DASH@),
        geoip::or_text(d.property("services"@), DASH@),
        match d.property("manufacturer"@) {
            Some(m) => m,
            None => geoip::or_text(first_property(d, "serial"@, "homekit_category"@), DASH@),
        },
    )
}

/// A line under the columns on what devices tell.
pub const DETAILS_RULE: &'static str =
    "-----------------|------------------------------|----------------------|----------------------|------";

/// The devices that tell something of themselves.
pub open spec fn telling(h: HostsView, ips: Seq<IpAddr>) -> Seq<IpAddr>
    decreases ips.len(),
{
    if ips.len() == 0 {
        Seq::empty()
    } else if h.details.dom().contains(ips.last()) {
        telling(h, ips.drop_last()).push(ips.last())
    } else {
        telling(h, ips.drop_last())
    }
}

/// What devices tell of themselves.
pub open spec fn told_lines(
    before: Seq<Seq<char>>,
    h: HostsView,
    ips: Seq<IpAddr>,
    n: int,
) -> Seq<Seq<char>>
    decreases n,
{
    if n <= 0 {
        before.push(""@).push("[ DEVICE METADATA (mDNS/SSDP) ]"@).push(
            details_line("IP Address"@, "Model"@, "Firmware"@, "Services"@, "Extra"@),
        ).push(DETAILS_RULE@)
    } else {
        told_lines(before, h, ips, n - 1).push(told_line(ips[n - 1], h.details[ips[n - 1]]))
    }
}

/// The devices, and what they tell of themselves.
pub open spec fn inventory_lines(before: Seq<Seq<char>>, h: HostsView, ips: Seq<IpAddr>) -> Seq<
    Seq<char>,
> {
    if ips.len() == 0 {
        before
    } else {
        let r = host_rows(before, h, ips, ips.len() as int);
        let t = telling(h, ips);
        if t.len() == 0 {
            r
        } else {
            told_lines(r, h, t, t.len() as int)
        }
    }
}

fn text_or_dash(o: Option<&String>) -> (r: String)
    ensures
        r@ == geoip::or_text(fingerprint::ref_text(o), DASH@),
{
    match o {
        Some(s) => s.as_str().to_owned(),
        None => DASH.to_owned(),
    }
}

fn either<'a>(d: &'a DeviceDetails, a: &str, b: &str) -> (r: Option<&'a String>)
    ensures
        fingerprint::ref_text(r) == first_property(d@, a@, b@),
{
    match d.get(a) {
        Some(x) => Some(x),
        None => d.get(b),
    }
}

fn told_text(ip: &IpAddr, d: &DeviceDetails) -> (r: String)
    ensures
        r@ == told_line(*ip, d@),
{
    let model = text_or_dash(model_of(d));
    let firmware = text_or_dash(either(d, "firmware", "os_version"));
    let services = text_or_dash(d.get("services"));
    let extra = match d.get("manufacturer") {
        Some(m) => m.as_str().to_owned(),
        None => text_or_dash(either(d, "serial", "homekit_category")),
    };
    let mut s = padded_right(ip_string(ip).as_str(), 16);
    s.append(" | ");
    s.append(
        column_text(
            (model.as_str(), 28),
            (firmware.as_str(), 20),
            (services.as_str(), 20),
            (extra.as_str(), 0),
        ).as_str(),
    );
    s
}

impl AppState {
    fn put_devices(&self, v: &mut Vec<String>, ips: &Vec<IpAddr>)
        requires
            forall|i: int|
                0 <= i < ips@.len() ==> self.devices.active_discovery@.dom().contains(
                    #[trigger] ips@[i],
                ),
        ensures
            text::texts(final(v)@) == host_rows(
                text::texts(old(v)@),
                self.hosts(),
                ips@,
                ips@.len() as int,
            ),
    {
        let ghost before = text::texts(v@);
        let ghost h = self.hosts();
        let n: usize = ips.len();
        put(v, "");
        put(v, "[ LOCAL NETWORK INVENTORY ]");
        let head = write_row(
            "IP Address",
            "Hostname",
            "OUI Vendor",
            "MAC Address",
            "OS",
            "Category",
            "Baseline",
        );
        put(v, head.as_str());
        put(v, DEVICE_RULE);
        for i in 0..n
            invariant
                n == ips@.len(),
                h == self.hosts(),
                forall|i: int|
                    0 <= i < ips@.len() ==> self.devices.active_discovery@.dom().contains(
                        #[trigger] ips@[i],
                    ),
                text::texts(v@) == host_rows(before, h, ips@, i as int),
        {
            let ip = &ips[i];
            assert(self.devices.active_discovery@.dom().contains(ips@[i as int]));
            if let Some(dev) = self.devices.active_discovery.get(ip) {
                let name = match try_name(Some(&dev.hostname)) {
                    Some(n) => n,
                    None => match try_model(self.devices.device_metadata.get(ip)) {
                        Some(m) => m,
                        None => DASH.to_owned(),
                    },
                };
                let os = self.get_resolved_os_tag(ip);
                let category = match self.devices.device_metadata.get(ip) {
                    Some(d) => text_or_dash(d.get("category")),
                    None => DASH.to_owned(),
                };
                let row = write_row(
                    ip_string(ip).as_str(),
                    name.as_str(),
                    dev.vendor.as_str(),
                    dev.mac.as_str(),
                    os.as_str(),
                    category.as_str(),
                    write_delta(&self.devices.baseline, ip),
                );
                put(v, row.as_str());
            }
        }
    }

    fn put_told(&self, v: &mut Vec<String>, ips: &Vec<IpAddr>)
        requires
            forall|i: int|
                0 <= i < ips@.len() ==> self.devices.device_metadata@.dom().contains(
                    #[trigger] ips@[i],
                ),
        ensures
            text::texts(final(v)@) == told_lines(text::texts(old(v)@), self.hosts(), ips@, ips@.len() as int),
    {
        let ghost before = text::texts(v@);
        let ghost h = self.hosts();
        let n: usize = ips.len();
        put(v, "");
        put(v, "[ DEVICE METADATA (mDNS/SSDP) ]");
        let mut s = padded_right("IP Address", 16);
        s.append(" | ");
        s.append(
            column_text(("Model", 28), ("Firmware", 20), ("Services", 20), ("Extra", 0)).as_str(),
        );
        put(v, s.as_str());
        put(v, DETAILS_RULE);
        for i in 0..n
            invariant
                n == ips@.len(),
                h == self.hosts(),
                forall|i: int|
                    0 <= i < ips@.len() ==> self.devices.device_metadata@.dom().contains(
                        #[trigger] ips@[i],
                    ),
                text::texts(v@) == told_lines(before, h, ips@, i as int),
        {
            let ip = &ips[i];
            assert(self.devices.device_metadata@.dom().contains(ips@[i as int]));
            if let Some(d) = self.devices.device_metadata.get(ip) {
                put(v, told_text(ip, d).as_str());
            }
        }
    }

    fn put_inventory(&self, v: &mut Vec<String>, ips: &Vec<IpAddr>)
        requires
            radar::lists_keys(ips@, self.devices.active_discovery@),
        ensures
            text::texts(final(v)@) == inventory_lines(text::texts(old(v)@), self.hosts(), ips@),
    {
        let n: usize = ips.len();
        if n == 0 {
            return;
        }
        let ghost h = self.hosts();
        assert forall|i: int| 0 <= i < n implies self.devices.active_discovery@.dom().contains(
            #[trigger] ips@[i],
        ) by {
            assert(ips@.contains(ips@[i]));
        }
        self.put_devices(v, ips);
        let mut t: Vec<IpAddr> = Vec::new();
        assert(t@ =~= telling(h, ips@.take(0)));
        for i in 0..n
            invariant
                n == ips@.len(),
                h == self.hosts(),
                t@ == telling(h, ips@.take(i as int)),
                forall|j: int|
                    0 <= j < t@.len() ==> self.devices.device_metadata@.dom().contains(
                        #[trigger] t@[j],
                    ),
        {
            assert(ips@.take(i + 1).drop_last() =~= ips@.take(i as int));
            assert(ips@.take(i + 1).last() == ips@[i as int]);
            if self.devices.device_metadata.contains_key(&ips[i]) {
                t.push(ips[i]);
            }
        }
        assert(ips@.take(n as int) =~= ips@);
        if t.len() > 0 {
            self.put_told(v, &t);
        }
    }
}

// ---------------------------------------------------------------------------
// Destinations and connections
// ---------------------------------------------------------------------------

/// Addresses that traffic does not leave the network for: private, loopback,
/// link-local, multicast and broadcast ones.
pub open spec fn inside(ip: IpAddr) -> bool {
    match ip {
        IpAddr::V4(n) => net::local_ip(ip) || net::octet(n, 0) == 127 || net::multicast(ip) || n == 0xFFFF_FFFF,
        IpAddr::V6(n) => n == 1 || net::multicast(ip),
    }
}

/// Whether traffic does not leave the network for an address.
pub fn is_inside(ip: &IpAddr) -> (r: bool)
    ensures
        r == inside(*ip),
{
    match ip {
        IpAddr::V4(n) => is_local_ip(ip) || octets(*n)[0] == 127 || is_multicast(ip) || *n
            == 0xFFFF_FFFF,
        IpAddr::V6(n) => *n == 1 || is_multicast(ip),
    }
}

/// The addresses outside, with the bytes that went there.
pub open spec fn outside_of(items: Seq<(IpAddr, u64)>) -> Seq<(IpAddr, u64)>
    decreases items.len(),
{
    if items.len() == 0 {
        Seq::empty()
    } else if inside(items.last().0) {
        outside_of(items.drop_last())
    } else {
        outside_of(items.drop_last()).push(items.last())
    }
}

/// The second of each pair.
pub open spec fn weights(items: Seq<(IpAddr, u64)>) -> Seq<u64> {
    items.map_values(|e: (IpAddr, u64)| e.1)
}

/// A line on a destination.
pub open spec fn destination_line(
    ip: Seq<char>,
    org: Seq<char>,
    size: Seq<char>,
    domain: Seq<char>,
) -> Seq<char> {
    columns((ip, 16), (org, 40), (size, 10), (domain, 40))
}

/// A line under the columns on destinations.
pub const DESTINATION_RULE: &'static str =
    "-----------------|------------------------------------------|------------|-----------------------------------------";

/// The destinations that most was sent to.
pub open spec fn destination_lines(
    before: Seq<Seq<char>>,
    names: NamesView,
    list: Seq<(IpAddr, u64)>,
    n: int,
) -> Seq<Seq<char>>
    decreases n,
{
    if n <= 0 {
        before.push(
            destination_line("IP Address"@, "Organization"@, "Bytes"@, "Domain/Hint"@),
        ).push(DESTINATION_RULE@)
    } else {
        let e = list[order::ranking(weights(list))[n - 1] as int];
        destination_lines(before, names, list, n - 1).push(
            destination_line(
                net::ip_text(e.0),
                geoip::or_text(names.org(e.0), "Unknown"@),
                formatting::size_text(e.1),
                geoip::or_text(names::at(names.dns_cache, e.0), "---"@),
            ),
        )
    }
}

/// The destinations outside.
pub open spec fn outside_lines(
    before: Seq<Seq<char>>,
    names: NamesView,
    list: Seq<(IpAddr, u64)>,
) -> Seq<Seq<char>> {
    let r = before.push(""@).push("[ TOP EXTERNAL DESTINATIONS ]"@);
    if list.len() == 0 {
        r.push("No external traffic recorded."@)
    } else {
        destination_lines(r, names, list, order::lesser(10, list.len() as int))
    }
}

fn outside_list(t: &Table<IpAddr, u64>) -> (r: Vec<(IpAddr, u64)>)
    ensures
        r@ == outside_of(t.items()),
{
    let n: usize = t.len();
    let ghost items = t.items();
    let mut r: Vec<(IpAddr, u64)> = Vec::new();
    assert(r@ =~= outside_of(items.take(0)));
    for i in 0..n
        invariant
            n == items.len(),
            items == t.items(),
            r@ == outside_of(items.take(i as int)),
    {
        let (ip, bytes) = t.entry(i);
        assert(items.take(i + 1).drop_last() =~= items.take(i as int));
        assert(items.take(i + 1).last() == (*ip, *bytes));
        if !is_inside(ip) {
            r.push((*ip, *bytes));
        }
    }
    assert(items.take(n as int) =~= items);
    r
}

fn put_outside(v: &mut Vec<String>, names: &Names, list: &Vec<(IpAddr, u64)>)
    ensures
        text::texts(final(v)@) == outside_lines(text::texts(old(v)@), names@, list@),
{
    put(v, "");
    put(v, "[ TOP EXTERNAL DESTINATIONS ]");
    let n: usize = list.len();
    if n == 0 {
        put(v, "No external traffic recorded.");
        return;
    }
    let ghost before = text::texts(v@);
    put(
        v,
        column_text(("IP Address", 16), ("Organization", 40), ("Bytes", 10), ("Domain/Hint", 40)).as_str(),
    );
    put(v, DESTINATION_RULE);
    let mut keys: Vec<u64> = Vec::new();
    for i in 0..n
        invariant
            n == list@.len(),
            keys@.len() == i,
            forall|j: int| 0 <= j < i ==> #[trigger] keys@[j] == list@[j].1,
    {
        keys.push(list[i].1);
    }
    assert(keys@ =~= weights(list@));
    let order = rank(&keys);
    let m: usize = if n < 10 {
        n
    } else {
        10
    };
    for i in 0..m
        invariant
            m <= order@.len(),
            n == list@.len(),
            order@ == order::ranking(weights(list@)),
            forall|j: int| 0 <= j < order@.len() ==> (#[trigger] order@[j]) < n,
            text::texts(v@) == destination_lines(before, names@, list@, i as int),
    {
        assert(order@[i as int] < n);
        let e = &list[order[i]];
        let org = match names.org_of(&e.0) {
            Some(o) => o.as_str().to_owned(),
            None => "Unknown".to_owned(),
        };
        let domain = match names.dns_cache.get(&e.0) {
            Some(d) => d.as_str().to_owned(),
            None => "---".to_owned(),
        };
        put(
            v,
            column_text(
                (ip_string(&e.0).as_str(), 16),
                (org.as_str(), 40),
                (format_size(e.1).as_str(), 10),
                (domain.as_str(), 40),
            ).as_str(),
        );
    }
}

/// A line on a connection.
pub open spec fn talker_line(
    src: Seq<char>,
    dst: Seq<char>,
    program: Seq<char>,
    data: Seq<char>,
    duration: Seq<char>,
) -> Seq<char> {
    text::pad_right(src, 15) + " -> "@ + columns((dst, 15), (program, 50), (data, 15), (duration, 10))
}

/// A line under the columns on connections.
pub const TALKER_RULE: &'static str =
    "----------------|-----------------|----------------------------------------------------|-----------------|-----------";

/// How much a connection carried.
pub open spec fn carried(c: ConnView) -> Seq<char> {
    formatting::size_text(c.bytes) + " ("@ + text::dec(c.packets as nat) + "p)"@
}

/// The connections that carried most.
pub open spec fn talker_lines(
    before: Seq<Seq<char>>,
    items: Seq<(ConnKey, ConnView)>,
    seconds: Seq<Seq<char>>,
    n: int,
) -> Seq<Seq<char>>
    decreases n,
{
    if n <= 0 {
        before.push(""@).push("[ TOP ACTIVE CONNECTIONS ]"@).push(
            talker_line("Source"@, "Destination"@, "Process"@, "Data"@, "Duration"@),
        ).push(TALKER_RULE@)
    } else {
        let i = order::ranking(panels::conn_bytes(items))[n - 1] as int;
        let (k, c) = items[i];
        talker_lines(before, items, seconds, n - 1).push(
            talker_line(
                net::ip_text(k.src),
                net::ip_text(k.dst),
                geoip::or_text(c.process, "unknown"@),
                carried(c),
                seconds[i] + "s"@,
            ),
        )
    }
}

fn put_talkers(v: &mut Vec<String>, t: &Table<ConnKey, Conn>, seconds: &Vec<String>)
    requires
        seconds@.len() == t.items().len(),
    ensures
        text::texts(final(v)@) == talker_lines(
            text::texts(old(v)@),
            t.items(),
            text::texts(seconds@),
            order::lesser(15, t.items().len() as int),
        ),
{
    let ghost before = text::texts(v@);
    let n: usize = t.len();
    let ghost items = t.items();
    put(v, "");
    put(v, "[ TOP ACTIVE CONNECTIONS ]");
    let mut s = padded_right("Source", 15);
    s.append(" -> ");
    s.append(
        column_text(("Destination", 15), ("Process", 50), ("Data", 15), ("Duration", 10)).as_str(),
    );
    put(v, s.as_str());
    put(v, TALKER_RULE);
    let mut keys: Vec<u64> = Vec::new();
    for i in 0..n
        invariant
            n == items.len(),
            items == t.items(),
            keys@.len() == i,
            forall|j: int| 0 <= j < i ==> #[trigger] keys@[j] == items[j].1.bytes,
    {
        let (k, c) = t.entry(i);
        assert(items[i as int] == (k@, c@));
        keys.push(c.bytes);
    }
    assert(keys@ =~= panels::conn_bytes(items));
    let order = rank(&keys);
    let m: usize = if n < 15 {
        n
    } else {
        15
    };
    for i in 0..m
        invariant
            m <= order@.len(),
            n == items.len(),
            n == seconds@.len(),
            items == t.items(),
            order@ == order::ranking(panels::conn_bytes(items)),
            forall|j: int| 0 <= j < order@.len() ==> (#[trigger] order@[j]) < n,
            text::texts(v@) == talker_lines(before, items, text::texts(seconds@), i as int),
    {
        assert(order@[i as int] < n);
        let at: usize = order[i];
        let (k, c) = t.entry(at);
        assert(items[at as int] == (k@, c@));
        assert(text::texts(seconds@)[at as int] == seconds@[at as int]@);
        let program = match &c.process {
            Some(p) => p.as_str().to_owned(),
            None => "unknown".to_owned(),
        };
        let mut data = format_size(c.bytes);
        data.append(" (");
        data.append(dec_text(c.packets).as_str());
        data.append("p)");
        let mut duration = seconds[at].as_str().to_owned();
        duration.append("s");
        let mut s = padded_right(ip_string(&k.src).as_str(), 15);
        s.append(" -> ");
        s.append(
            column_text(
                (ip_string(&k.dst).as_str(), 15),
                (program.as_str(), 50),
                (data.as_str(), 15),
                (duration.as_str(), 10),
            ).as_str(),
        );
        put(v, s.as_str());
    }
}

// ---------------------------------------------------------------------------
// Domains
// ---------------------------------------------------------------------------

/// The names that addresses were resolved from.
pub open spec fn resolved(items: Seq<(IpAddr, Seq<char>)>) -> Seq<Seq<char>> {
    items.map_values(|e: (IpAddr, Seq<char>)| e.1)
}

/// The counts of a tally.
pub open spec fn counts(t: Seq<(Seq<char>, u64)>) -> Seq<u64> {
    t.map_values(|e: (Seq<char>, u64)| e.1)
}

/// A line on a domain.
pub open spec fn domain_line(domain: Seq<char>, hits: u64) -> Seq<char> {
    text::pad_right(domain, 40) + " ("@ + text::dec(hits as nat) + " hits)"@
}

/// The domains that most addresses belong to.
pub open spec fn domain_lines(before: Seq<Seq<char>>, t: Seq<(Seq<char>, u64)>, n: int) -> Seq<
    Seq<char>,
>
    decreases n,
{
    if n <= 0 {
        before.push(""@).push("[ TOP RESOLVED DOMAINS ]"@)
    } else {
        let e = t[order::ranking(counts(t))[n - 1] as int];
        domain_lines(before, t, n - 1).push(domain_line(e.0, e.1))
    }
}

/// The domains, where there are any.
pub open spec fn domains_lines(before: Seq<Seq<char>>, t: Seq<(Seq<char>, u64)>) -> Seq<Seq<char>> {
    if t.len() == 0 {
        before
    } else {
        domain_lines(before, t, order::lesser(10, t.len() as int))
    }
}

fn resolved_names(t: &Table<IpAddr, String>) -> (r: Vec<String>)
    ensures
        text::texts(r@) == resolved(t.items()),
{
    let n: usize = t.len();
    let ghost items = t.items();
    let mut r: Vec<String> = Vec::new();
    assert(text::texts(r@) =~= resolved(items).take(0));
    for i in 0..n
        invariant
            n == items.len(),
            items == t.items(),
            text::texts(r@) == resolved(items).take(i as int),
    {
        let (ip, name) = t.entry(i);
        assert(items[i as int] == (ip@, name@));
        put(&mut r, name.as_str());
        assert(resolved(items).take(i + 1) =~= resolved(items).take(i as int).push(name@));
    }
    assert(resolved(items).take(n as int) =~= resolved(items));
    r
}

fn put_domains(v: &mut Vec<String>, t: &Vec<(String, u64)>)
    ensures
        text::texts(final(v)@) == domains_lines(text::texts(old(v)@), tally_views(t@)),
{
    let n: usize = t.len();
    if n == 0 {
        return;
    }
    let ghost before = text::texts(v@);
    let ghost views = tally_views(t@);
    put(v, "");
    put(v, "[ TOP RESOLVED DOMAINS ]");
    let mut keys: Vec<u64> = Vec::new();
    for i in 0..n
        invariant
            n == t@.len(),
            views == tally_views(t@),
            keys@.len() == i,
            forall|j: int| 0 <= j < i ==> #[trigger] keys@[j] == views[j].1,
    {
        assert(views[i as int] == (t@[i as int].0@, t@[i as int].1));
        keys.push(t[i].1);
    }
    assert(keys@ =~= counts(views));
    let order = rank(&keys);
    let m: usize = if n < 10 {
        n
    } else {
        10
    };
    for i in 0..m
        invariant
            m <= order@.len(),
            n == t@.len(),
            views == tally_views(t@),
            order@ == order::ranking(counts(views)),
            forall|j: int| 0 <= j < order@.len() ==> (#[trigger] order@[j]) < n,
            text::texts(v@) == domain_lines(before, views, i as int),
    {
        assert(order@[i as int] < n);
        let at: usize = order[i];
        assert(views[at as int] == (t@[at as int].0@, t@[at as int].1));
        let mut s = padded_right(t[at].0.as_str(), 40);
        s.append(" (");
        s.append(dec_text(t[at].1).as_str());
        s.append(" hits)");
        put(v, s.as_str());
    }
}

// ---------------------------------------------------------------------------
// Alerts
// ---------------------------------------------------------------------------

/// The alerts that a report speaks of: all that are kept.
pub open spec fn reported(l: LogView) -> Seq<AlertView> {
    l.suspicious + l.behavioral + l.external + l.noise
}

/// When alerts were raised.
pub open spec fn stamps_of(alerts: Seq<AlertView>) -> Seq<u64> {
    alerts.map_values(|a: AlertView| a.timestamp)
}

/// The mark of a tier.
pub open spec fn report_mark(t: AlertTier) -> Seq<char> {
    match t {
        AlertTier::Suspicious => "!!"@,
        AlertTier::Behavioral => "* "@,
        AlertTier::External => "> "@,
        AlertTier::Noise => ". "@,
    }
}

/// The line of an alert.
pub open spec fn log_line(alerts: Seq<AlertView>, times: Seq<Seq<char>>, i: int) -> Seq<char> {
    report_mark(alerts[i].tier) + " ["@ + times[i] + "] "@ + alerts[i].message
}

/// The first `n` of the alerts, the last raised first.
pub open spec fn log_lines(
    before: Seq<Seq<char>>,
    alerts: Seq<AlertView>,
    times: Seq<Seq<char>>,
    n: int,
) -> Seq<Seq<char>>
    decreases n,
{
    if n <= 0 {
        before
    } else {
        log_lines(before, alerts, times, n - 1).push(
            log_line(alerts, times, order::ranking(stamps_of(alerts))[n - 1] as int),
        )
    }
}

/// The alerts.
pub open spec fn alerts_lines(
    before: Seq<Seq<char>>,
    alerts: Seq<AlertView>,
    times: Seq<Seq<char>>,
) -> Seq<Seq<char>> {
    let r = before.push(""@).push("[ SECURITY ALERT LOG ]"@);
    if alerts.len() == 0 {
        r.push("No security alerts generated."@)
    } else {
        log_lines(r, alerts, times, alerts.len() as int)
    }
}

proof fn lemma_log_lines(
    before: Seq<Seq<char>>,
    alerts: Seq<AlertView>,
    times: Seq<Seq<char>>,
    n: int,
    k: int,
)
    requires
        0 <= k < n,
    ensures
        log_lines(before, alerts, times, n).len() == before.len() + n,
        log_lines(before, alerts, times, n)[before.len() + k] == log_line(
            alerts,
            times,
            order::ranking(stamps_of(alerts))[k] as int,
        ),
    decreases n,
{
    assert(log_lines(before, alerts, times, 0) == before);
    if k < n - 1 {
        lemma_log_lines(before, alerts, times, n - 1, k);
    } else if n > 1 {
        lemma_log_lines(before, alerts, times, n - 1, 0);
    }
}

/// The report has one line for every alert that is kept, of every tier, and
/// the lines stand with the last raised first.
pub proof fn law_every_alert_is_reported(
    before: Seq<Seq<char>>,
    l: LogView,
    times: Seq<Seq<char>>,
    i: int,
)
    requires
        0 <= i < reported(l).len() <= usize::MAX,
    ensures
        alerts_lines(before, reported(l), times).len() == before.len() + 2 + reported(l).len(),
        exists|k: int|
            0 <= k < reported(l).len() && order::ranking(stamps_of(reported(l)))[k] == i
                && #[trigger] alerts_lines(before, reported(l), times)[before.len() + 2 + k]
                == log_line(reported(l), times, i),
        forall|j: int, k: int|
            0 <= j < k < reported(l).len() ==> reported(l)[(
            #[trigger] order::ranking(stamps_of(reported(l)))[j]) as int].timestamp >= reported(
                l,
            )[(#[trigger] order::ranking(stamps_of(reported(l)))[k]) as int].timestamp,
{
    let alerts = reported(l);
    let keys = stamps_of(alerts);
    let o = order::ranking(keys);
    let n = alerts.len() as int;
    order::law_ranking(keys);
    assert(o.contains(i as usize));
    let k = choose|k: int| 0 <= k < o.len() && o[k] == i as usize;
    let start = before.push(""@).push("[ SECURITY ALERT LOG ]"@);
    lemma_log_lines(start, alerts, times, n, k);
    assert(alerts_lines(before, alerts, times)[before.len() + 2 + k] == log_line(
        alerts,
        times,
        i,
    ));
    assert forall|j: int, k: int| 0 <= j < k < n implies alerts[(#[trigger] o[j]) as int].timestamp
        >= alerts[(#[trigger] o[k]) as int].timestamp by {
        let f = order::falling(keys);
        assert(f[o[j] as int] <= f[o[k] as int]);
        assert(f[o[j] as int] == u64::MAX - keys[o[j] as int]);
        assert(f[o[k] as int] == u64::MAX - keys[o[k] as int]);
    }
}

/// The number of alerts that a report speaks of.
pub fn reported_count(log: &AlertLog) -> (r: usize)
    ensures
        r == reported(log@).len(),
{
    log.reported_stamps().len()
}

impl AlertLog {
    /// An alert that a report speaks of.
    pub fn reported_at(&self, i: usize) -> (r: &Alert)
        requires
            i < reported(self@).len(),
        ensures
            r@ == reported(self@)[i as int],
    {
        let a: usize = self.suspicious.len();
        let b: usize = self.behavioral.len();
        let c: usize = self.external.len();
        if i < a {
            &self.suspicious[i]
        } else if i - a < b {
            &self.behavioral[i - a]
        } else if i - a - b < c {
            &self.external[i - a - b]
        } else {
            &self.noise[i - a - b - c]
        }
    }

    fn reported_stamps(&self) -> (r: Vec<u64>)
        ensures
            r@ == stamps_of(reported(self@)),
    {
        let mut r: Vec<u64> = Vec::new();
        push_stamps(&mut r, &self.suspicious, true);
        push_stamps(&mut r, &self.behavioral, true);
        push_stamps(&mut r, &self.external, true);
        push_stamps(&mut r, &self.noise, true);
        assert(r@ =~= stamps_of(reported(self@)));
        r
    }
}

fn put_alerts(v: &mut Vec<String>, log: &AlertLog, times: &Vec<String>)
    requires
        times@.len() == reported(log@).len(),
    ensures
        text::texts(final(v)@) == alerts_lines(text::texts(old(v)@), reported(log@), text::texts(times@)),
{
    put(v, "");
    put(v, "[ SECURITY ALERT LOG ]");
    let ghost alerts = reported(log@);
    let keys = log.reported_stamps();
    let n: usize = keys.len();
    assert(n == alerts.len());
    if n == 0 {
        put(v, "No security alerts generated.");
        return;
    }
    let ghost before = text::texts(v@);
    let order = rank(&keys);
    for i in 0..n
        invariant
            n == order@.len(),
            n == alerts.len(),
            n == times@.len(),
            alerts == reported(log@),
            order@ == order::ranking(stamps_of(alerts)),
            forall|j: int| 0 <= j < order@.len() ==> (#[trigger] order@[j]) < n,
            text::texts(v@) == log_lines(before, alerts, text::texts(times@), i as int),
    {
        assert(order@[i as int] < n);
        let at: usize = order[i];
        let a = log.reported_at(at);
        assert(text::texts(times@)[at as int] == times@[at as int]@);
        let mark = match a.tier {
            AlertTier::Suspicious => "!!",
            AlertTier::Behavioral => "* ",
            AlertTier::External => "> ",
            AlertTier::Noise => ". ",
        };
        let mut s = mark.to_owned();
        s.append(" [");
        s.append(times[at].as_str());
        s.append("] ");
        s.append(a.message.as_str());
        put(v, s.as_str());
    }
}

/// The addresses that are silenced.
pub open spec fn silenced_lines(before: Seq<Seq<char>>, ips: Seq<IpAddr>, n: int) -> Seq<Seq<char>>
    decreases n,
{
    if n <= 0 {
        before.push(""@).push("[ WHITELISTED ADDRESSES ]"@)
    } else {
        silenced_lines(before, ips, n - 1).push("  - "@ + net::ip_text(ips[n - 1]))
    }
}

fn put_silenced(v: &mut Vec<String>, set: &KeySet<IpAddr>)
    ensures
        text::texts(final(v)@) == (if set.list().len() == 0 {
            text::texts(old(v)@)
        } else {
            silenced_lines(text::texts(old(v)@), set.list(), set.list().len() as int)
        }),
{
    let n: usize = set.len();
    if n == 0 {
        return;
    }
    let ghost before = text::texts(v@);
    put(v, "");
    put(v, "[ WHITELISTED ADDRESSES ]");
    for i in 0..n
        invariant
            n == set.list().len(),
            text::texts(v@) == silenced_lines(before, set.list(), i as int),
    {
        let ip = set.at(i);
        put_text(v, "  - ", ip_string(ip).as_str());
    }
}

// ---------------------------------------------------------------------------
// The report
// ---------------------------------------------------------------------------

/// The lines of a report, given the addresses of the devices in their order.
pub open spec fn report_lines(s: AppState, t: ReportTexts, secs: u64, ips: Seq<IpAddr>) -> Seq<
    Seq<char>,
> {
    let head = header_lines(s.ui, t.time@, secs);
    let security = security_lines(
        head,
        s.alerts@,
        tally(known_tags(s.hosts(), s.flows.unique_ips.list())),
    );
    let traffic = traffic_lines(security, s.counters@, secs, t);
    let devices = inventory_lines(traffic, s.hosts(), ips);
    let outside = outside_lines(devices, s.names@, outside_of(s.flows.dest_bytes.items()));
    let talkers = talker_lines(
        outside,
        s.flows.connections.items(),
        text::texts(t.seconds@),
        order::lesser(15, s.flows.connections.items().len() as int),
    );
    let domains = domains_lines(talkers, tally(resolved(s.names.dns_cache.items())));
    let alerts = alerts_lines(domains, reported(s.alerts@), text::texts(t.alert_times@));
    let silenced = s.whitelist.list();
    if silenced.len() == 0 {
        alerts
    } else {
        silenced_lines(alerts, silenced, silenced.len() as int)
    }
}

impl AppState {
    /// The report of a session.
    pub fn report(&self, t: &ReportTexts, now: u64) -> (r: String)
        requires
            t.seconds@.len() == self.flows.connections.items().len(),
            t.alert_times@.len() == reported(self.alerts@).len(),
        ensures
            exists|ips: Seq<IpAddr>| #[trigger]
                radar::lists_keys(ips, self.devices.active_discovery@) && r@ == lined(
                    report_lines(*self, *t, formatting::since(now, self.ui.start_time) / SECOND, ips),
                ),
    {
        let secs: u64 = now.saturating_sub(self.ui.start_time) / SECOND;
        let mut v: Vec<String> = Vec::new();
        put_header(&mut v, &self.ui, t.time.as_str(), secs);
        put_security(&mut v, &self.alerts, &tally_of(&self.tags()));
        put_traffic(&mut v, &self.counters, secs, t);
        let ips = key_addresses(&self.devices.active_discovery);
        self.put_inventory(&mut v, &ips);
        put_outside(&mut v, &self.names, &outside_list(&self.flows.dest_bytes));
        put_talkers(&mut v, &self.flows.connections, &t.seconds);
        put_domains(&mut v, &tally_of(&resolved_names(&self.names.dns_cache)));
        put_alerts(&mut v, &self.alerts, &t.alert_times);
        put_silenced(&mut v, &self.whitelist);
        let r = joined_lines(&v);
        assert(radar::lists_keys(ips@, self.devices.active_discovery@));
        r
    }
}

// ---------------------------------------------------------------------------
// What a report holds
// ---------------------------------------------------------------------------

/// `b` begins with the lines of `a`.
pub open spec fn begins_with_lines(b: Seq<Seq<char>>, a: Seq<Seq<char>>) -> bool {
    &&& a.len() <= b.len()
    &&& forall|i: int| 0 <= i < a.len() ==> #[trigger] b[i] == a[i]
}

#[verifier::rlimit(60)]
proof fn lemma_host_rows(before: Seq<Seq<char>>, h: HostsView, ips: Seq<IpAddr>, n: int, k: int)
    requires
        0 <= n,
    ensures
        host_rows(before, h, ips, n).len() == before.len() + 4 + n,
        begins_with_lines(host_rows(before, h, ips, n), before),
        0 <= k < n ==> host_rows(before, h, ips, n)[before.len() + 4 + k] == host_rows(
            before,
            h,
            ips,
            k + 1,
        ).last(),
    decreases n,
{
    if n > 0 {
        lemma_host_rows(before, h, ips, n - 1, k);
    }
}

#[verifier::rlimit(60)]
proof fn lemma_told_lines(before: Seq<Seq<char>>, h: HostsView, ips: Seq<IpAddr>, n: int, k: int)
    requires
        0 <= n,
    ensures
        told_lines(before, h, ips, n).len() == before.len() + 4 + n,
        begins_with_lines(told_lines(before, h, ips, n), before),
        0 <= k < n ==> told_lines(before, h, ips, n)[before.len() + 4 + k] == told_lines(
            before,
            h,
            ips,
            k + 1,
        ).last(),
    decreases n,
{
    if n > 0 {
        lemma_told_lines(before, h, ips, n - 1, k);
    }
}

proof fn lemma_telling(h: HostsView, ips: Seq<IpAddr>, i: int) -> (at: int)
    requires
        0 <= i < ips.len(),
        h.details.dom().contains(ips[i]),
    ensures
        0 <= at < telling(h, ips).len(),
        telling(h, ips)[at] == ips[i],
    decreases ips.len(),
{
    if i == ips.len() - 1 {
        (telling(h, ips).len() - 1) as int
    } else {
        lemma_telling(h, ips.drop_last(), i)
    }
}

proof fn lemma_inventory(before: Seq<Seq<char>>, h: HostsView, ips: Seq<IpAddr>)
    ensures
        begins_with_lines(inventory_lines(before, h, ips), before),
{
    if ips.len() > 0 {
        lemma_host_rows(before, h, ips, ips.len() as int, 0);
        let r = host_rows(before, h, ips, ips.len() as int);
        let t = telling(h, ips);
        lemma_told_lines(r, h, t, t.len() as int, 0);
    }
}

#[verifier::rlimit(60)]
proof fn lemma_destination_lines(
    before: Seq<Seq<char>>,
    names: NamesView,
    list: Seq<(IpAddr, u64)>,
    n: int,
    k: int,
)
    requires
        0 <= n,
    ensures
        destination_lines(before, names, list, n).len() == before.len() + 2 + n,
        begins_with_lines(destination_lines(before, names, list, n), before),
        0 <= k < n ==> destination_lines(before, names, list, n)[before.len() + 2 + k]
            == destination_lines(before, names, list, k + 1).last(),
    decreases n,
{
    if n > 0 {
        lemma_destination_lines(before, names, list, n - 1, k);
    }
}

proof fn lemma_outside(before: Seq<Seq<char>>, names: NamesView, list: Seq<(IpAddr, u64)>)
    ensures
        begins_with_lines(outside_lines(before, names, list), before),
{
    let r = before.push(""@).push("[ TOP EXTERNAL DESTINATIONS ]"@);
    if list.len() > 0 {
        lemma_destination_lines(r, names, list, order::lesser(10, list.len() as int), 0);
        let all = outside_lines(before, names, list);
        assert forall|i: int| 0 <= i < before.len() implies #[trigger] all[i] == before[i] by {
            assert(all[i] == r[i]);
        }
    }
}

#[verifier::rlimit(60)]
proof fn lemma_talker_lines(
    before: Seq<Seq<char>>,
    items: Seq<(ConnKey, ConnView)>,
    seconds: Seq<Seq<char>>,
    n: int,
    k: int,
)
    requires
        0 <= n,
    ensures
        talker_lines(before, items, seconds, n).len() == before.len() + 4 + n,
        begins_with_lines(talker_lines(before, items, seconds, n), before),
        0 <= k < n ==> talker_lines(before, items, seconds, n)[before.len() + 4 + k]
            == talker_lines(before, items, seconds, k + 1).last(),
    decreases n,
{
    if n > 0 {
        lemma_talker_lines(before, items, seconds, n - 1, k);
    }
}

proof fn lemma_domain_lines(before: Seq<Seq<char>>, t: Seq<(Seq<char>, u64)>, n: int, k: int)
    requires
        0 <= n,
    ensures
        domain_lines(before, t, n).len() == before.len() + 2 + n,
        begins_with_lines(domain_lines(before, t, n), before),
        0 <= k < n ==> domain_lines(before, t, n)[before.len() + 2 + k] == domain_lines(
            before,
            t,
            k + 1,
        ).last(),
    decreases n,
{
    if n > 0 {
        lemma_domain_lines(before, t, n - 1, k);
    }
}

proof fn lemma_domains(before: Seq<Seq<char>>, t: Seq<(Seq<char>, u64)>)
    ensures
        begins_with_lines(domains_lines(before, t), before),
{
    if t.len() > 0 {
        lemma_domain_lines(before, t, order::lesser(10, t.len() as int), 0);
    }
}

proof fn lemma_log_begins(
    before: Seq<Seq<char>>,
    alerts: Seq<AlertView>,
    times: Seq<Seq<char>>,
    n: int,
)
    requires
        0 <= n,
    ensures
        log_lines(before, alerts, times, n).len() == before.len() + n,
        begins_with_lines(log_lines(before, alerts, times, n), before),
    decreases n,
{
    if n > 0 {
        lemma_log_begins(before, alerts, times, n - 1);
    }
}

proof fn lemma_alerts(before: Seq<Seq<char>>, alerts: Seq<AlertView>, times: Seq<Seq<char>>)
    ensures
        begins_with_lines(alerts_lines(before, alerts, times), before),
{
    let r = before.push(""@).push("[ SECURITY ALERT LOG ]"@);
    lemma_log_begins(r, alerts, times, alerts.len() as int);
    let all = alerts_lines(before, alerts, times);
    assert forall|i: int| 0 <= i < before.len() implies #[trigger] all[i] == before[i] by {
        assert(all[i] == r[i]);
    }
}

proof fn lemma_silenced_lines(before: Seq<Seq<char>>, ips: Seq<IpAddr>, n: int, k: int)
    requires
        0 <= n,
    ensures
        silenced_lines(before, ips, n).len() == before.len() + 2 + n,
        begins_with_lines(silenced_lines(before, ips, n), before),
        0 <= k < n ==> silenced_lines(before, ips, n)[before.len() + 2 + k] == "  - "@ + net::ip_text(
            ips[k],
        ),
    decreases n,
{
    if n > 0 {
        lemma_silenced_lines(before, ips, n - 1, k);
    }
}

/// The lines of a report up to the security summary, up to the traffic, the
/// devices, the destinations, the connections, the domains and the alerts.
spec fn stages(s: AppState, t: ReportTexts, secs: u64, ips: Seq<IpAddr>) -> Seq<Seq<Seq<char>>> {
    let head = header_lines(s.ui, t.time@, secs);
    let security = security_lines(
        head,
        s.alerts@,
        tally(known_tags(s.hosts(), s.flows.unique_ips.list())),
    );
    let traffic = traffic_lines(security, s.counters@, secs, t);
    let devices = inventory_lines(traffic, s.hosts(), ips);
    let outside = outside_lines(devices, s.names@, outside_of(s.flows.dest_bytes.items()));
    let talkers = talker_lines(
        outside,
        s.flows.connections.items(),
        text::texts(t.seconds@),
        order::lesser(15, s.flows.connections.items().len() as int),
    );
    let domains = domains_lines(talkers, tally(resolved(s.names.dns_cache.items())));
    let alerts = alerts_lines(domains, reported(s.alerts@), text::texts(t.alert_times@));
    seq![head, security, traffic, devices, outside, talkers, domains, alerts]
}

#[verifier::rlimit(40)]
proof fn lemma_stages(s: AppState, t: ReportTexts, secs: u64, ips: Seq<IpAddr>, k: int, i: int)
    requires
        0 <= k < 8,
        0 <= i < stages(s, t, secs, ips)[k].len(),
    ensures
        i < report_lines(s, t, secs, ips).len(),
        report_lines(s, t, secs, ips)[i] == stages(s, t, secs, ips)[k][i],
        report_lines(s, t, secs, ips).contains(stages(s, t, secs, ips)[k][i]),
{
    let g = stages(s, t, secs, ips);
    let all = report_lines(s, t, secs, ips);
    assert(begins_with_lines(g[1], g[0]));
    assert(begins_with_lines(g[2], g[1]));
    lemma_inventory(g[2], s.hosts(), ips);
    assert(begins_with_lines(g[3], g[2]));
    lemma_outside(g[3], s.names@, outside_of(s.flows.dest_bytes.items()));
    assert(begins_with_lines(g[4], g[3]));
    let items = s.flows.connections.items();
    lemma_talker_lines(
        g[4],
        items,
        text::texts(t.seconds@),
        order::lesser(15, items.len() as int),
        0,
    );
    assert(begins_with_lines(g[5], g[4]));
    lemma_domains(g[5], tally(resolved(s.names.dns_cache.items())));
    assert(begins_with_lines(g[6], g[5]));
    lemma_alerts(g[6], reported(s.alerts@), text::texts(t.alert_times@));
    assert(begins_with_lines(g[7], g[6]));
    let silenced = s.whitelist.list();
    lemma_silenced_lines(g[7], silenced, silenced.len() as int, 0);
    assert(begins_with_lines(all, g[7]));
    let line = g[k][i];
    assert(k <= 0 ==> g[1][i] == line);
    assert(k <= 1 ==> g[2][i] == line);
    assert(k <= 2 ==> g[3][i] == line);
    assert(k <= 3 ==> g[4][i] == line);
    assert(k <= 4 ==> g[5][i] == line);
    assert(k <= 5 ==> g[6][i] == line);
    assert(k <= 6 ==> g[7][i] == line);
    assert(all[i] == line);
}

/// The text of a report holds each of its lines, ended by a line feed, in
/// their order.
pub proof fn law_lines_stand_in_text(lines: Seq<Seq<char>>, i: int)
    requires
        0 <= i < lines.len(),
    ensures
        text::starts(lined(lines), lined(lines.take(i)) + lines[i] + "\n"@),
        lined(Seq::<Seq<char>>::empty()).len() == 0,
        i == lines.len() - 1 ==> lined(lines) == lined(lines.take(i)) + lines[i] + "\n"@,
    decreases lines.len(),
{
    if i == lines.len() - 1 {
        assert(lines.take(i) =~= lines.drop_last());
        assert(lined(lines).subrange(0, lined(lines).len() as int) =~= lined(lines));
    } else {
        law_lines_stand_in_text(lines.drop_last(), i);
        assert(lines.drop_last().take(i) =~= lines.take(i));
        let head = lined(lines.take(i)) + lines[i] + "\n"@;
        let most = lined(lines.drop_last());
        assert(most.subrange(0, head.len() as int) =~= head);
        assert(lined(lines).subrange(0, head.len() as int) =~= head);
    }
}

/// The destinations of a report are those to which most was sent: each of them
/// has a line with its address, the organisation that is known of it, what was
/// sent and the name that is known of it, each padded to its width. `top` are
/// their positions among the addresses outside.
#[verifier::rlimit(40)]
pub proof fn law_top_destinations_reported(
    s: AppState,
    t: ReportTexts,
    secs: u64,
    ips: Seq<IpAddr>,
) -> (top: Seq<int>)
    requires
        outside_of(s.flows.dest_bytes.items()).len() <= usize::MAX,
    ensures
        ({
            let list = outside_of(s.flows.dest_bytes.items());
            let lines = report_lines(s, t, secs, ips);
            let names = s.names@;
            &&& order::heaviest(
                Seq::new(list.len(), |i: int| list[i].1),
                if list.len() < 10 { list.len() as int } else { 10 },
                top,
            )
            &&& forall|k: int|
                0 <= k < top.len() ==> {
                    let (ip, bytes) = list[#[trigger] top[k]];
                    let org = if names.geo_cache.dom().contains(ip) {
                        names.geo_cache[ip].org
                    } else {
                        "Unknown"@
                    };
                    let name = if names.dns_cache.dom().contains(ip) {
                        names.dns_cache[ip]
                    } else {
                        "---"@
                    };
                    lines.contains(
                        text::pad_right(net::ip_text(ip), 16) + " | "@ + text::pad_right(org, 40)
                            + " | "@ + text::pad_right(formatting::size_text(bytes), 10) + " | "@
                            + text::pad_right(name, 40),
                    )
                }
            &&& list.len() == 0 ==> lines.contains("No external traffic recorded."@)
        }),
{
    let list = outside_of(s.flows.dest_bytes.items());
    let names = s.names@;
    let lines = report_lines(s, t, secs, ips);
    let n = if list.len() < 10 { list.len() as int } else { 10 };
    let w = weights(list);
    assert(w =~= Seq::new(list.len(), |i: int| list[i].1));
    let top = order::law_heaviest_first(w, n);
    let g = stages(s, t, secs, ips);
    let before = g[3].push(""@).push("[ TOP EXTERNAL DESTINATIONS ]"@);
    if list.len() == 0 {
        lemma_stages(s, t, secs, ips, 4, before.len() as int);
    }
    assert forall|k: int| 0 <= k < top.len() implies ({
        let (ip, bytes) = list[#[trigger] top[k]];
        let org = if names.geo_cache.dom().contains(ip) {
            names.geo_cache[ip].org
        } else {
            "Unknown"@
        };
        let name = if names.dns_cache.dom().contains(ip) { names.dns_cache[ip] } else { "---"@ };
        lines.contains(
            text::pad_right(net::ip_text(ip), 16) + " | "@ + text::pad_right(org, 40) + " | "@
                + text::pad_right(formatting::size_text(bytes), 10) + " | "@ + text::pad_right(
                name,
                40,
            ),
        )
    }) by {
        lemma_destination_lines(before, names, list, n, k);
        lemma_stages(s, t, secs, ips, 4, before.len() + 2 + k);
    }
    top
}

/// The addresses outside are those that are not private, not from 169.254.0.0
/// to 169.254.255.255, none of this host, of a group or of all hosts.
pub proof fn law_addresses_outside(items: Seq<(IpAddr, u64)>, e: (IpAddr, u64))
    ensures
        outside_of(items).contains(e) <==> items.contains(e) && !match e.0 {
            IpAddr::V4(n) => {
                ||| 0x0A00_0000 <= n <= 0x0AFF_FFFF
                ||| 0xAC10_0000 <= n <= 0xAC1F_FFFF
                ||| 0xC0A8_0000 <= n <= 0xC0A8_FFFF
                ||| 0xA9FE_0000 <= n <= 0xA9FE_FFFF
                ||| 0x7F00_0000 <= n <= 0x7FFF_FFFF
                ||| 0xE000_0000 <= n <= 0xEFFF_FFFF
                ||| n == 0xFFFF_FFFF
            },
            IpAddr::V6(n) => n == 1 || 0xFF00_0000_0000_0000_0000_0000_0000_0000 <= n,
        },
    decreases items.len(),
{
    match e.0 {
        IpAddr::V4(n) => {
            net::law_local_ranges(n, 0);
            net::law_at_home_ranges(n);
            net::law_noise_ranges(n, 0);
            net::law_quad_of_octets(n);
        },
        IpAddr::V6(n) => {
            net::law_noise_ranges(0, n);
        },
    }
    if items.len() > 0 {
        let front = items.drop_last();
        law_addresses_outside(front, e);
        let o = outside_of(items);
        let p = outside_of(front);
        assert(items =~= front.push(items.last()));
        if items.contains(e) {
            let i = choose|i: int| 0 <= i < items.len() && items[i] == e;
            if i < front.len() {
                assert(front[i] == e);
            }
        }
        if front.contains(e) {
            let i = choose|i: int| 0 <= i < front.len() && front[i] == e;
            assert(items[i] == e);
        }
        if p.contains(e) {
            let i = choose|i: int| 0 <= i < p.len() && p[i] == e;
            assert(o[i] == e);
        }
        if o.contains(e) {
            let i = choose|i: int| 0 <= i < o.len() && o[i] == e;
            if i < p.len() {
                assert(p[i] == e);
            }
        }
        if items.last() == e && !inside(e.0) {
            assert(o[o.len() - 1] == e);
            assert(items[items.len() - 1] == e);
        }
    }
}

/// Every device has a line in the inventory with its address, name, maker,
/// hardware address, system, category, and whether the baseline knows it.
#[verifier::rlimit(40)]
pub proof fn law_devices_reported(
    s: AppState,
    t: ReportTexts,
    secs: u64,
    ips: Seq<IpAddr>,
    i: int,
)
    requires
        0 <= i < ips.len(),
    ensures
        ({
            let h = s.hosts();
            let ip = ips[i];
            let category = if h.details.dom().contains(ip) && h.details[ip].property("category"@) is Some {
                h.details[ip].property("category"@)->0
            } else {
                "\u{2014}"@
            };
            let baseline = if h.known is None {
                "\u{2014}"@
            } else if h.known->0.contains(ip) {
                "known"@
            } else {
                "[NEW]"@
            };
            let details = if h.details.dom().contains(ip) { Some(h.details[ip]) } else { None };
            report_lines(s, t, secs, ips).contains(
                text::pad_right(net::ip_text(ip), 16) + " | "@ + (text::pad_right(
                    device_name(h.active[ip], details),
                    30,
                ) + " | "@ + text::pad_right(h.active[ip].vendor, 25) + " | "@ + text::pad_right(
                    h.active[ip].mac,
                    18,
                ) + " | "@ + text::pad_right(h.shown_os(ip), 8)) + " | "@ + text::pad_right(
                    category,
                    12,
                ) + " | "@ + baseline,
            )
        }),
{
    let g = stages(s, t, secs, ips);
    let h = s.hosts();
    let n = ips.len() as int;
    lemma_host_rows(g[2], h, ips, n, i);
    let r = host_rows(g[2], h, ips, n);
    let told = telling(h, ips);
    lemma_told_lines(r, h, told, told.len() as int, 0);
    let at = g[2].len() + 4 + i;
    assert(g[3][at] == r[at]);
    lemma_stages(s, t, secs, ips, 3, at);
}

/// Every device that told something of itself has a line with its model, its
/// firmware, its services, and its manufacturer, serial number or category.
#[verifier::rlimit(40)]
pub proof fn law_told_devices_reported(
    s: AppState,
    t: ReportTexts,
    secs: u64,
    ips: Seq<IpAddr>,
    i: int,
    model: Seq<char>,
    firmware: Seq<char>,
    services: Seq<char>,
    extra: Seq<char>,
)
    requires
        0 <= i < ips.len(),
        s.hosts().details.dom().contains(ips[i]),
        ({
            let d = s.hosts().details[ips[i]];
            let none = "\u{2014}"@;
            &&& model == (match d.property("model"@) {
                Some(m) => m,
                None => match d.property("friendly_name"@) {
                    Some(m) => m,
                    None => match d.property("model_name"@) {
                        Some(m) => m,
                        None => none,
                    },
                },
            })
            &&& firmware == (match d.property("firmware"@) {
                Some(m) => m,
                None => match d.property("os_version"@) {
                    Some(m) => m,
                    None => none,
                },
            })
            &&& services == (match d.property("services"@) {
                Some(m) => m,
                None => none,
            })
            &&& extra == (match d.property("manufacturer"@) {
                Some(m) => m,
                None => match d.property("serial"@) {
                    Some(m) => m,
                    None => match d.property("homekit_category"@) {
                        Some(m) => m,
                        None => none,
                    },
                },
            })
        }),
    ensures
        report_lines(s, t, secs, ips).contains(
            text::pad_right(net::ip_text(ips[i]), 16) + " | "@ + (text::pad_right(model, 28) + " | "@
                + text::pad_right(firmware, 20) + " | "@ + text::pad_right(services, 20) + " | "@
                + text::pad_right(extra, 0)),
        ),
{
    let g = stages(s, t, secs, ips);
    let h = s.hosts();
    let n = ips.len() as int;
    let r = host_rows(g[2], h, ips, n);
    let told = telling(h, ips);
    let at = lemma_telling(h, ips, i);
    lemma_told_lines(r, h, told, told.len() as int, at);
    lemma_stages(s, t, secs, ips, 3, r.len() + 4 + at);
}

/// The connections of a report are those that carried most: each of them has a
/// line with its addresses, its program, what it carried and how long it has
/// lasted. `top` are their positions among the connections.
#[verifier::rlimit(40)]
pub proof fn law_top_connections_reported(
    s: AppState,
    t: ReportTexts,
    secs: u64,
    ips: Seq<IpAddr>,
) -> (top: Seq<int>)
    requires
        s.flows.connections.items().len() <= usize::MAX,
        t.seconds@.len() == s.flows.connections.items().len(),
    ensures
        ({
            let items = s.flows.connections.items();
            let lines = report_lines(s, t, secs, ips);
            &&& order::heaviest(
                Seq::new(items.len(), |i: int| items[i].1.bytes),
                if items.len() < 15 { items.len() as int } else { 15 },
                top,
            )
            &&& forall|k: int|
                0 <= k < top.len() ==> {
                    let (key, c) = items[#[trigger] top[k]];
                    let program = if c.process is Some { c.process->0 } else { "unknown"@ };
                    lines.contains(
                        text::pad_right(net::ip_text(key.src), 15) + " -> "@ + (text::pad_right(
                            net::ip_text(key.dst),
                            15,
                        ) + " | "@ + text::pad_right(program, 50) + " | "@ + text::pad_right(
                            formatting::size_text(c.bytes) + " ("@ + text::dec(c.packets as nat)
                                + "p)"@,
                            15,
                        ) + " | "@ + text::pad_right(t.seconds@[top[k]]@ + "s"@, 10)),
                    )
                }
        }),
{
    let items = s.flows.connections.items();
    let lines = report_lines(s, t, secs, ips);
    let seconds = text::texts(t.seconds@);
    let n = if items.len() < 15 { items.len() as int } else { 15 };
    let w = panels::conn_bytes(items);
    assert(w =~= Seq::new(items.len(), |i: int| items[i].1.bytes));
    let top = order::law_heaviest_first(w, n);
    let g = stages(s, t, secs, ips);
    assert forall|k: int| 0 <= k < top.len() implies ({
        let (key, c) = items[#[trigger] top[k]];
        let program = if c.process is Some { c.process->0 } else { "unknown"@ };
        lines.contains(
            text::pad_right(net::ip_text(key.src), 15) + " -> "@ + (text::pad_right(
                net::ip_text(key.dst),
                15,
            ) + " | "@ + text::pad_right(program, 50) + " | "@ + text::pad_right(
                formatting::size_text(c.bytes) + " ("@ + text::dec(c.packets as nat) + "p)"@,
                15,
            ) + " | "@ + text::pad_right(t.seconds@[top[k]]@ + "s"@, 10)),
        )
    }) by {
        lemma_talker_lines(g[4], items, seconds, n, k);
        assert(seconds[top[k]] == t.seconds@[top[k]]@);
        lemma_stages(s, t, secs, ips, 5, g[4].len() + 4 + k);
    }
    top
}

/// The domains of a report are those that most addresses resolve to: each of
/// them has a line with the number of those addresses.
#[verifier::rlimit(40)]
pub proof fn law_top_domains_reported(
    s: AppState,
    t: ReportTexts,
    secs: u64,
    ips: Seq<IpAddr>,
) -> (top: Seq<Seq<char>>)
    requires
        s.names.dns_cache.items().len() <= usize::MAX,
        s.names.dns_cache.items().len() <= u64::MAX,
    ensures
        ({
            let items = s.names.dns_cache.items();
            let names = Seq::new(items.len(), |i: int| items[i].1);
            let lines = report_lines(s, t, secs, ips);
            &&& top.len() <= 10
            &&& top.no_duplicates()
            &&& forall|k: int|
                0 <= k < top.len() ==> names.contains(#[trigger] top[k]) && lines.contains(
                    text::pad_right(top[k], 40) + " ("@ + text::dec(occurrences(names, top[k]))
                        + " hits)"@,
                )
            &&& forall|j: int, k: int|
                0 <= j < k < top.len() ==> occurrences(names, #[trigger] top[j]) >= occurrences(
                    names,
                    #[trigger] top[k],
                )
            &&& forall|i: int, k: int|
                0 <= i < names.len() && 0 <= k < top.len() && !top.contains(names[i]) ==> top.len()
                    == 10 && occurrences(names, #[trigger] names[i]) <= occurrences(
                    names,
                    #[trigger] top[k],
                )
        }),
{
    let items = s.names.dns_cache.items();
    let names = Seq::new(items.len(), |i: int| items[i].1);
    assert(resolved(items) =~= names);
    let lines = report_lines(s, t, secs, ips);
    let tl = tally(names);
    law_tally(names);
    lemma_tally_short(names);
    let n = order::lesser(10, tl.len() as int);
    let w = counts(tl);
    let at = order::law_heaviest_first(w, n);
    let top = Seq::new(n as nat, |k: int| tl[at[k]].0);
    let g = stages(s, t, secs, ips);
    assert forall|j: int, k: int|
        0 <= j < top.len() && 0 <= k < top.len() && j != k implies top[j] != top[k] by {
        assert(at[j] != at[k]);
        let (x, y) = (at[j], at[k]);
        if x < y {
            assert(tl[x].0 != tl[y].0);
        } else {
            assert(tl[y].0 != tl[x].0);
        }
    }
    assert forall|k: int| 0 <= k < top.len() implies names.contains(#[trigger] top[k])
        && lines.contains(
        text::pad_right(top[k], 40) + " ("@ + text::dec(occurrences(names, top[k])) + " hits)"@,
    ) by {
        assert(tl[at[k]].1 == occurrences(names, tl[at[k]].0));
        lemma_domain_lines(g[5], tl, n, k);
        lemma_stages(s, t, secs, ips, 6, g[5].len() + 2 + k);
    }
    assert forall|j: int, k: int| 0 <= j < k < top.len() implies occurrences(names, #[trigger] top[j])
        >= occurrences(names, #[trigger] top[k]) by {
        assert(w[at[j]] >= w[at[k]]);
        assert(tl[at[j]].1 == occurrences(names, tl[at[j]].0));
        assert(tl[at[k]].1 == occurrences(names, tl[at[k]].0));
    }
    assert forall|i: int, k: int|
        0 <= i < names.len() && 0 <= k < top.len() && !top.contains(names[i]) implies occurrences(
        names,
        #[trigger] names[i],
    ) <= occurrences(names, #[trigger] top[k]) by {
        assert(tally_place(tl, names[i], 0) is Some);
        lemma_tally_place(tl, names[i], 0);
        let p = tally_place(tl, names[i], 0)->0;
        assert(tl[p].1 == occurrences(names, tl[p].0));
        assert(tl[at[k]].1 == occurrences(names, tl[at[k]].0));
        if at.contains(p) {
            let m = choose|m: int| 0 <= m < at.len() && at[m] == p;
            assert(top[m] == names[i]);
        }
        assert(w[p] <= w[at[k]]);
    }
    assert(top.no_duplicates());
    if top.len() < 10 {
        assert forall|i: int| 0 <= i < names.len() implies top.contains(#[trigger] names[i]) by {
            assert(tally_place(tl, resolved(items)[i], 0) is Some);
            lemma_tally_place(tl, names[i], 0);
            let p = tally_place(tl, names[i], 0)->0;
            order::law_ranking(w);
            assert(order::ranking(w).contains(p as usize));
            let m = choose|m: int| 0 <= m < tl.len() && order::ranking(w)[m] == p as usize;
            assert(at[m] == p);
            assert(top[m] == names[i]);
        }
    }
    top
}

proof fn lemma_tally_short(list: Seq<Seq<char>>)
    ensures
        tally(list).len() <= list.len(),
    decreases list.len(),
{
    if list.len() > 0 {
        lemma_tally_short(list.drop_last());
        lemma_tally_place(tally(list.drop_last()), list.last(), 0);
    }
}

/// Every alert that is listed has a line in the report with the mark of its
/// tier, its time and its message.
#[verifier::rlimit(40)]
pub proof fn law_alerts_reported(
    s: AppState,
    t: ReportTexts,
    secs: u64,
    ips: Seq<IpAddr>,
    a: AlertView,
) -> (time: Seq<char>)
    requires
        s.alerts@.suspicious.contains(a) || s.alerts@.behavioral.contains(a)
            || s.alerts@.external.contains(a) || s.alerts@.noise.contains(a),
        reported(s.alerts@).len() <= usize::MAX,
        t.alert_times@.len() == reported(s.alerts@).len(),
    ensures
        text::texts(t.alert_times@).contains(time),
        ({
            let mark = match a.tier {
                AlertTier::Suspicious => "!!"@,
                AlertTier::Behavioral => "* "@,
                AlertTier::External => "> "@,
                AlertTier::Noise => ". "@,
            };
            report_lines(s, t, secs, ips).contains(mark + " ["@ + time + "] "@ + a.message)
        }),
{
    let l = s.alerts@;
    let all = reported(l);
    let i = if l.suspicious.contains(a) {
        choose|i: int| 0 <= i < l.suspicious.len() && l.suspicious[i] == a
    } else if l.behavioral.contains(a) {
        l.suspicious.len() + choose|i: int| 0 <= i < l.behavioral.len() && l.behavioral[i] == a
    } else if l.external.contains(a) {
        l.suspicious.len() + l.behavioral.len() + choose|i: int|
            0 <= i < l.external.len() && l.external[i] == a
    } else {
        l.suspicious.len() + l.behavioral.len() + l.external.len() + choose|i: int|
            0 <= i < l.noise.len() && l.noise[i] == a
    };
    assert(all[i] == a);
    let times = text::texts(t.alert_times@);
    let g = stages(s, t, secs, ips);
    law_every_alert_is_reported(g[6], l, times, i);
    let k = choose|k: int|
        0 <= k < all.len() && order::ranking(stamps_of(all))[k] == i && #[trigger] alerts_lines(
            g[6],
            all,
            times,
        )[g[6].len() + 2 + k] == log_line(all, times, i);
    assert(times[i] == t.alert_times@[i]@);
    lemma_stages(s, t, secs, ips, 7, g[6].len() + 2 + k);
    times[i]
}

/// Every address on the whitelist has a line in the report.
pub proof fn law_whitelist_reported(
    s: AppState,
    t: ReportTexts,
    secs: u64,
    ips: Seq<IpAddr>,
    i: int,
)
    requires
        0 <= i < s.whitelist.list().len(),
    ensures
        report_lines(s, t, secs, ips).contains("  - "@ + net::ip_text(s.whitelist.list()[i])),
{
    let g = stages(s, t, secs, ips);
    let list = s.whitelist.list();
    lemma_silenced_lines(g[7], list, list.len() as int, i);
    assert(report_lines(s, t, secs, ips)[g[7].len() + 2 + i] == "  - "@ + net::ip_text(list[i]));
}

proof fn lemma_minutes(secs: u64)
    ensures
        (secs % 3600) / 60 == secs / 60 % 60,
{
}

proof fn lemma_head(s: AppState, t: ReportTexts, secs: u64, ips: Seq<IpAddr>)
    ensures
        report_lines(s, t, secs, ips).len() > 9,
        begins_with_lines(report_lines(s, t, secs, ips), header_lines(s.ui, t.time@, secs)),
{
    let head = header_lines(s.ui, t.time@, secs);
    let all = report_lines(s, t, secs, ips);
    lemma_stages(s, t, secs, ips, 1, 9);
    assert forall|i: int| 0 <= i < head.len() implies #[trigger] all[i] == head[i] by {
        lemma_stages(s, t, secs, ips, 0, i);
    }
}

/// The head of a report tells the time, the interface, the network and how
/// long the session has lasted.
#[verifier::rlimit(40)]
pub proof fn law_head_reported(s: AppState, t: ReportTexts, secs: u64, ips: Seq<IpAddr>)
    ensures
        ({
            let lines = report_lines(s, t, secs, ips);
            let lasted = if secs <= 60 {
                text::dec(secs as nat) + "s"@
            } else if secs <= 3600 {
                text::dec((secs / 60) as nat) + "m "@ + text::dec((secs % 60) as nat) + "s"@
            } else {
                text::dec((secs / 3600) as nat) + "h "@ + text::dec((secs / 60 % 60) as nat) + "m "@
                    + text::dec((secs % 60) as nat) + "s"@
            };
            &&& lines.len() > 9
            &&& lines[1] == "                VORA-RECON SESSION REPORT"@
            &&& lines[3] == "Version:      "@ + "2.0.0"@
            &&& lines[4] == "Timestamp:    "@ + t.time@
            &&& lines[5] == "Interface:    "@ + s.ui.interface_name@
            &&& lines[6] == "Network:      "@ + s.ui.current_network@
            &&& lines[7] == "Duration:     "@ + lasted
        }),
{
    lemma_minutes(secs);
    lemma_head(s, t, secs, ips);
    let lines = report_lines(s, t, secs, ips);
    let head = header_lines(s.ui, t.time@, secs);
    assert(lines[1] == head[1]);
    assert(lines[3] == head[3]);
    assert(lines[4] == head[4]);
    assert(lines[5] == head[5]);
    assert(lines[6] == head[6]);
    assert(lines[7] == head[7]);
}

/// The summary of a report tells how many alerts there were in all and in each
/// tier.
#[verifier::rlimit(40)]
pub proof fn law_alert_totals_reported(s: AppState, t: ReportTexts, secs: u64, ips: Seq<IpAddr>)
    ensures
        ({
            let lines = report_lines(s, t, secs, ips);
            let l = s.alerts@;
            &&& lines.contains("[ SECURITY POSTURE SUMMARY ]"@)
            &&& lines.contains("Total Alerts:      "@ + text::dec(l.total as nat))
            &&& lines.contains("  - Suspicious:    "@ + text::dec(l.total_suspicious as nat))
            &&& lines.contains("  - Behavioral:    "@ + text::dec(l.total_behavioral as nat))
            &&& lines.contains("  - External:      "@ + text::dec(l.total_external as nat))
            &&& lines.contains("  - Noise/Misc:    "@ + text::dec(l.total_noise as nat))
        }),
{
    let n = stages(s, t, secs, ips)[0].len() as int;
    lemma_stages(s, t, secs, ips, 1, n + 1);
    lemma_stages(s, t, secs, ips, 1, n + 2);
    lemma_stages(s, t, secs, ips, 1, n + 3);
    lemma_stages(s, t, secs, ips, 1, n + 4);
    lemma_stages(s, t, secs, ips, 1, n + 5);
    lemma_stages(s, t, secs, ips, 1, n + 6);
}

/// A report tells how many packets and bytes were counted, how many of each in
/// a second of the session, and how many packets of each protocol.
#[verifier::rlimit(40)]
pub proof fn law_traffic_reported(s: AppState, t: ReportTexts, secs: u64, ips: Seq<IpAddr>)
    ensures
        ({
            let lines = report_lines(s, t, secs, ips);
            let c = s.counters@;
            let packets = if secs == 0 { 0 } else { c.total_packets / secs };
            let bytes = if secs == 0 { 0 } else { c.total_bytes / secs };
            &&& lines.contains("[ TRAFFIC STATISTICS ]"@)
            &&& lines.contains("Total Packets:     "@ + text::dec(c.total_packets as nat))
            &&& lines.contains("Total Data:        "@ + formatting::size_text(c.total_bytes))
            &&& lines.contains(
                "Average Throughput: "@ + text::dec(packets as nat) + " pkts/s | "@
                    + formatting::size_text(bytes) + "/s"@,
            )
            &&& lines.contains(
                "  - TCP:           "@ + text::dec(c.tcp_count as nat) + " ("@ + t.tcp_share@ + "%)"@,
            )
            &&& lines.contains(
                "  - UDP:           "@ + text::dec(c.udp_count as nat) + " ("@ + t.udp_share@ + "%)"@,
            )
        }),
{
    let n = stages(s, t, secs, ips)[1].len() as int;
    lemma_stages(s, t, secs, ips, 2, n + 1);
    lemma_stages(s, t, secs, ips, 2, n + 2);
    lemma_stages(s, t, secs, ips, 2, n + 3);
    lemma_stages(s, t, secs, ips, 2, n + 4);
    lemma_stages(s, t, secs, ips, 2, n + 7);
    lemma_stages(s, t, secs, ips, 2, n + 8);
}

/// A report tells how many control messages were counted.
pub proof fn law_control_messages_reported(
    s: AppState,
    t: ReportTexts,
    secs: u64,
    ips: Seq<IpAddr>,
    n: nat,
)
    requires
        n == s.counters@.icmp_count,
    ensures
        report_lines(s, t, secs, ips).contains(
            "  - ICMP:          "@ + text::dec(n) + " ("@ + t.ping_share@ + "%)"@,
        ),
{
    let at: int = stages(s, t, secs, ips)[1].len() + 9int;
    lemma_stages(s, t, secs, ips, 2, at);
}

/// The systems that a report counts: those of addresses in private networks
/// that are known.
pub proof fn law_systems_counted(h: HostsView, ips: Seq<IpAddr>, tag: Seq<char>)
    ensures
        known_tags(h, ips).contains(tag) <==> tag != "[?]"@ && exists|i: int|
            0 <= i < ips.len() && h.shown_os(#[trigger] ips[i]) == tag && match ips[i] {
                IpAddr::V4(n) => 0x0A00_0000 <= n <= 0x0AFF_FFFF || 0xAC10_0000 <= n <= 0xAC1F_FFFF
                    || 0xC0A8_0000 <= n <= 0xC0A8_FFFF,
                IpAddr::V6(_) => false,
            },
    decreases ips.len(),
{
    if ips.len() > 0 {
        let front = ips.drop_last();
        let last = ips.last();
        law_systems_counted(h, front, tag);
        match last {
            IpAddr::V4(n) => {
                net::law_private_ranges(n);
            },
            IpAddr::V6(n) => {},
        }
        let t = known_tags(h, ips);
        let u = known_tags(h, front);
        assert forall|i: int| 0 <= i < front.len() implies #[trigger] front[i] == ips[i] by {}
        if u.contains(tag) {
            let k = choose|k: int| 0 <= k < u.len() && u[k] == tag;
            assert(t[k] == tag);
            let i = choose|i: int|
                0 <= i < front.len() && h.shown_os(#[trigger] front[i]) == tag && match front[i] {
                    IpAddr::V4(n) => 0x0A00_0000 <= n <= 0x0AFF_FFFF || 0xAC10_0000 <= n
                        <= 0xAC1F_FFFF || 0xC0A8_0000 <= n <= 0xC0A8_FFFF,
                    IpAddr::V6(_) => false,
                };
            assert(ips[i] == front[i]);
        }
        if net::private_ip(last) && h.shown_os(last) != "[?]"@ {
            assert(t[t.len() - 1] == h.shown_os(last));
            assert(ips[ips.len() - 1] == last);
        }
        if t.contains(tag) && !u.contains(tag) {
            let k = choose|k: int| 0 <= k < t.len() && t[k] == tag;
            if k < u.len() {
                assert(u[k] == tag);
            }
        }
        if !t.contains(tag) && tag != "[?]"@ {
            assert forall|i: int| 0 <= i < ips.len() && h.shown_os(#[trigger] ips[i]) == tag implies !(
            match ips[i] {
                IpAddr::V4(n) => 0x0A00_0000 <= n <= 0x0AFF_FFFF || 0xAC10_0000 <= n <= 0xAC1F_FFFF
                    || 0xC0A8_0000 <= n <= 0xC0A8_FFFF,
                IpAddr::V6(_) => false,
            }) by {
                if i < front.len() {
                    assert(front[i] == ips[i]);
                }
            }
        }
    }
}

/// A device is named in a report by its own name where that tells something, or
/// else by the model that it tells.
pub proof fn law_reported_names(dev: InfoView, d: DetailsView)
    ensures
        ({
            let own = hostname::cleaned(dev.hostname);
            let tells = own.len() > 0 && own != "\u{2014}"@ && own != "Resolving..."@;
            let model = hostname::cleaned(d.property("model"@)->0);
            let modelled = d.property("model"@) is Some && model.len() > 0 && model != "\u{2014}"@;
            &&& tells ==> device_name(dev, Some(d)) == own && device_name(dev, None) == own
            &&& !tells && modelled ==> device_name(dev, Some(d)) == model
            &&& !tells ==> device_name(dev, None) == "\u{2014}"@
        }),
{
}

} // verus!
