//! The panel of local devices.

use vstd::prelude::*;
use vstd::string::*;

use crate::device::{DeviceInfo, InfoView};
use crate::formatting;
use crate::formatting::{format_last_seen, short_ip_string, truncate_str};
use crate::geoip;
use crate::hostname;
use crate::hostname::{clean_hostname, is_worth_showing};
use crate::hosts;
use crate::hosts::{HostsView, try_model};
use crate::names;
use crate::net;
use crate::net::IpAddr;
use crate::order;
use crate::order::window_of;
use crate::panels;
use crate::panels::{RESUME_SCROLL, Tone, discovery_filter_label};
use crate::radar;
use crate::radar::sorted_ips;
use crate::scan;
use crate::scan::{Moment, is_no_name};
use crate::state;
use crate::state::{AppState, DiscoveryFilter, Ui, is_outside_baseline};
use crate::text;
use crate::text::{dec_text, padded_right, same};
use crate::traffic;
use crate::traffic::{SECOND, classify_device_type};

verus! {

/// Lines and their colours.
pub open spec fn line_views(v: Seq<(String, Tone)>) -> Seq<(Seq<char>, Tone)> {
    v.map_values(|l: (String, Tone)| (l.0@, l.1))
}

/// A filter shows a device.
pub open spec fn filter_shows(f: DiscoveryFilter, d: InfoView) -> bool {
    match f {
        DiscoveryFilter::All => true,
        DiscoveryFilter::Named => !scan::no_name(hostname::cleaned(d.hostname)),
        DiscoveryFilter::Vendors => d.vendor != "Unknown"@,
        DiscoveryFilter::Unknown => d.vendor == "Unknown"@ && scan::no_name(hostname::cleaned(d.hostname)),
    }
}

/// Whether a filter shows a device.
pub fn passes_device_filter(f: &DiscoveryFilter, d: &DeviceInfo) -> (r: bool)
    ensures
        r == filter_shows(*f, d@),
{
    match f {
        DiscoveryFilter::All => true,
        DiscoveryFilter::Named => !is_no_name(clean_hostname(d.hostname.as_str()).as_str()),
        DiscoveryFilter::Vendors => !same(d.vendor.as_str(), "Unknown"),
        DiscoveryFilter::Unknown => same(d.vendor.as_str(), "Unknown") && is_no_name(
            clean_hostname(d.hostname.as_str()).as_str(),
        ),
    }
}

/// The addresses that a filter shows, highest first.
pub open spec fn shown_order(
    m: Map<IpAddr, InfoView>,
    f: DiscoveryFilter,
    ips: Seq<IpAddr>,
) -> bool {
    &&& forall|i: int, j: int|
        0 <= i < j < ips.len() ==> radar::ip_before(#[trigger] ips[j], #[trigger] ips[i])
    &&& forall|ip: IpAddr| #[trigger]
        ips.contains(ip) <==> m.dom().contains(ip) && filter_shows(f, m[ip])
}

/// How an address is shown in the panel.
pub open spec fn panel_ip(ip: IpAddr, short: bool, prefix: Seq<char>) -> Seq<char> {
    let full = net::ip_text(ip);
    if !short {
        full
    } else {
        match ip {
            IpAddr::V4(_) => if prefix.len() > 0 && text::starts(full, prefix) {
                full.skip(prefix.len() as int)
            } else {
                full
            },
            IpAddr::V6(n) => if net::segments(n)[0] == 0xfe80 {
                "fe80::"@ + text::hex(net::segments(n)[7] as nat)
            } else {
                full
            },
        }
    }
}

fn show_ip(ip: &IpAddr, short: bool, prefix: &str) -> (r: String)
    ensures
        r@ == panel_ip(*ip, short, prefix@),
{
    proof {
        reveal_strlit("");
    }
    match ip {
        IpAddr::V4(_) => short_ip_string(ip, short, prefix),
        IpAddr::V6(_) => short_ip_string(ip, short, ""),
    }
}

/// The width of the longest of the first `n` addresses.
pub open spec fn widest(ips: Seq<IpAddr>, short: bool, prefix: Seq<char>, n: int) -> int
    decreases n,
{
    if n <= 0 || n > ips.len() {
        0
    } else {
        let before = widest(ips, short, prefix, n - 1);
        let own = text::byte_len(panel_ip(ips[n - 1], short, prefix));
        if own > before {
            own
        } else {
            before
        }
    }
}

/// The width of the column of addresses.
pub open spec fn ip_column(ips: Seq<IpAddr>, short: bool, prefix: Seq<char>) -> int {
    if short {
        widest(ips, short, prefix, ips.len() as int) + 1
    } else {
        16
    }
}

/// The name of a device in the panel: its own, or the model that it tells, or
/// its kind by its traffic.
pub open spec fn panel_name(h: HostsView, ip: IpAddr) -> Seq<char> {
    let own = hostname::cleaned(h.active[ip].hostname);
    if hostname::worth_showing(own) {
        own
    } else {
        match hosts::good_model(names::at(h.details, ip)) {
            Some(m) => m,
            None => geoip::or_text(hosts::kind_of(names::at(h.profiles, ip)), own),
        }
    }
}

/// The line of a device: its address, system, hardware address, name, when it
/// was last seen, and its maker. `now` is when the panel is drawn.
pub open spec fn device_line(
    h: HostsView,
    ip: IpAddr,
    shown: Seq<char>,
    column: int,
    now: Moment,
) -> Seq<char> {
    let d = h.active[ip];
    " "@ + text::pad_right(shown, column as nat) + " "@ + text::pad_right(h.shown_os(ip), 5) + " "@
        + text::pad_right(d.mac, 17) + "  "@ + text::pad_right(formatting::truncated(panel_name(h, ip), 24), 24) + " "@
        + text::pad_right(formatting::seen_text(d, now.steady, now.unix), 10) + " "@ + d.vendor
}

/// What stands before a device that was not known before the last scan.
pub const NEW_MARK: &'static str = " [NEW]";

/// The number of columns of the mark.
pub const MARK_WIDTH: usize = 6;

/// The columns that the mark leaves.
pub open spec fn beside_mark(width: usize) -> usize {
    if width > MARK_WIDTH {
        (width - MARK_WIDTH) as usize
    } else {
        0
    }
}

/// The row of a device: its line, behind a mark where it was not known before
/// the last scan.
pub open spec fn device_row(line: Seq<char>, new: bool, width: usize) -> Seq<char> {
    if new {
        NEW_MARK@ + formatting::truncated(line, beside_mark(width))
    } else {
        formatting::truncated(line, width)
    }
}

/// The colour of a device: that of this network where it was not known before
/// the last scan, faint once a scan missed it.
pub open spec fn device_tone(d: InfoView, new: bool) -> Tone {
    if new {
        Tone::Local
    } else if d.miss_count > 0 {
        Tone::Faint
    } else {
        Tone::Normal
    }
}

/// The lines of devices.
pub open spec fn device_lines(
    h: HostsView,
    ips: Seq<IpAddr>,
    short: bool,
    prefix: Seq<char>,
    width: usize,
    now: Moment,
) -> Seq<(Seq<char>, Tone)> {
    Seq::new(
        ips.len(),
        |i: int|
            (
                device_row(
                    device_line(
                        h,
                        ips[i],
                        panel_ip(ips[i], short, prefix),
                        ip_column(ips, short, prefix),
                        now,
                    ),
                    state::outside_baseline(h.known, ips[i]),
                    width,
                ),
                device_tone(h.active[ips[i]], state::outside_baseline(h.known, ips[i])),
            ),
    )
}

/// A device that was not known before the last scan is marked, in the colour
/// of this network; no other device has that colour.
pub proof fn law_new_devices_are_marked(
    h: HostsView,
    ips: Seq<IpAddr>,
    short: bool,
    prefix: Seq<char>,
    width: usize,
    now: Moment,
    i: int,
)
    requires
        0 <= i < ips.len(),
    ensures
        state::outside_baseline(h.known, ips[i]) ==> text::starts(
            device_lines(h, ips, short, prefix, width, now)[i].0,
            NEW_MARK@,
        ),
        state::outside_baseline(h.known, ips[i]) <==> device_lines(
            h,
            ips,
            short,
            prefix,
            width,
            now,
        )[i].1 == Tone::Local,
{
    let row = device_lines(h, ips, short, prefix, width, now)[i].0;
    if state::outside_baseline(h.known, ips[i]) {
        assert(row.take(NEW_MARK@.len() as int) =~= NEW_MARK@);
    }
}

/// The status before the first scan.
pub const WAITING: &'static str = "[ Waiting for Signal ]";

/// What is said of scanning by itself before the first scan.
pub open spec fn auto_enabled(ui: Ui) -> Seq<char> {
    if ui.auto_scan_enabled {
        " (Auto-Rescanning Enabled)"@
    } else {
        " (Auto-Rescan: PAUSED)"@
    }
}

/// Seconds between scans that run by themselves.
pub const RESCAN: u64 = 180;

/// What is said of scanning by itself.
pub open spec fn auto_status(ui: Ui, now: u64) -> Seq<char> {
    if ui.auto_scan_enabled && ui.scan_has_run {
        " (Auto-Rescan in "@ + text::dec(
            order::above(RESCAN as int, (formatting::since(now, ui.last_auto_scan) / SECOND) as int) as nat,
        ) + "s)"@
    } else {
        auto_enabled(ui)
    }
}

/// What stands in the panel before the first scan.
pub open spec fn unscanned_lines(ui: Ui) -> Seq<(Seq<char>, Tone)> {
    seq![
        (" TOTAL: 0 Devices Found"@ + auto_enabled(ui), Tone::Info),
        (" WARNING: Only scan with explicit permission from admin."@, Tone::Warning),
        (" Unauthorized scanning may be illegal under computer misuse laws."@, Tone::Normal),
        (""@, Tone::Normal),
        (" Press [Alt+S] to start discovery scan"@, Tone::Info),
        (" Press [A] to toggle Auto-Rescan"@, Tone::Faint),
    ]
}

/// What stands in the panel where no device is shown.
pub open spec fn empty_lines(ui: Ui) -> Seq<(Seq<char>, Tone)> {
    if ui.discovery_status@ == WAITING@ {
        seq![
            ("  WARNING: Only scan with explicit permission from admin."@, Tone::Warning),
            (" Unauthorized scanning may be illegal under computer misuse laws."@, Tone::Normal),
            (""@, Tone::Normal),
            (" Press [Alt+S] to start discovery scan"@, Tone::Info),
        ]
    } else {
        seq![(" "@ + ui.discovery_status@, Tone::Warning)]
    }
}

/// What stands in the panel, all of it.
pub open spec fn panel_lines(
    s: AppState,
    ips: Seq<IpAddr>,
    prefix: Seq<char>,
    width: usize,
    now: Moment,
) -> Seq<(Seq<char>, Tone)> {
    if !s.ui.scan_has_run {
        unscanned_lines(s.ui)
    } else if ips.len() == 0 {
        empty_lines(s.ui)
    } else {
        device_lines(s.hosts(), ips, s.ui.ip_compressed, prefix, width, now)
    }
}

/// The part of the lines that fits in some rows.
pub open spec fn fitting_lines(
    lines: Seq<(Seq<char>, Tone)>,
    rows: usize,
    paused: bool,
    scroll: usize,
) -> Seq<(Seq<char>, Tone)> {
    let w = order::window(lines.len() as usize, rows, paused, scroll);
    lines.subrange(w.skip as int, w.skip + w.shown)
}

/// The lines with a hint in place of the last where the panel is scrolled back.
pub open spec fn hinted_lines(lines: Seq<(Seq<char>, Tone)>, paused: bool) -> Seq<
    (Seq<char>, Tone),
> {
    if paused && lines.len() > 0 {
        lines.drop_last().push((RESUME_SCROLL@, Tone::Warning))
    } else {
        lines
    }
}

/// The lines with the time of the last scan behind them.
pub open spec fn dated_lines(lines: Seq<(Seq<char>, Tone)>, ui: Ui) -> Seq<(Seq<char>, Tone)> {
    if ui.discovery_status@ != WAITING@ {
        lines.push((""@, Tone::Normal)).push(
            (" Last Scan: "@ + ui.last_discovery_time@, Tone::Faint),
        )
    } else {
        lines
    }
}

/// What the panel shows in some rows.
pub open spec fn shown_panel(
    s: AppState,
    ips: Seq<IpAddr>,
    prefix: Seq<char>,
    rows: usize,
    width: usize,
    now: Moment,
) -> Seq<(Seq<char>, Tone)> {
    dated_lines(
        hinted_lines(
            fitting_lines(
                panel_lines(s, ips, prefix, width, now),
                rows,
                s.ui.discovery_paused_scroll,
                s.ui.discovery_scroll,
            ),
            s.ui.discovery_paused_scroll,
        ),
        s.ui,
    )
}

pub(crate) fn push_line(v: &mut Vec<(String, Tone)>, text: &str, tone: Tone)
    ensures
        line_views(final(v)@) == line_views(old(v)@).push((text@, tone)),
{
    v.push((text.to_owned(), tone));
    assert(line_views(v@) =~= line_views(old(v)@).push((text@, tone)));
}

impl Ui {
    fn write_auto_enabled(&self) -> (r: String)
        ensures
            r@ == auto_enabled(*self),
    {
        if self.auto_scan_enabled {
            " (Auto-Rescanning Enabled)".to_owned()
        } else {
            " (Auto-Rescan: PAUSED)".to_owned()
        }
    }

    /// What is said of scanning by itself.
    pub fn auto_scan_status(&self, now: u64) -> (r: String)
        ensures
            r@ == auto_status(*self, now),
    {
        if self.auto_scan_enabled && self.scan_has_run {
            let past: u64 = now.saturating_sub(self.last_auto_scan) / SECOND;
            let left: u64 = if RESCAN > past {
                RESCAN - past
            } else {
                0
            };
            let mut r = " (Auto-Rescan in ".to_owned();
            r.append(dec_text(left).as_str());
            r.append("s)");
            r
        } else {
            self.write_auto_enabled()
        }
    }

    /// The title of the panel that shows some devices.
    pub fn devices_title(&self, shown: usize, now: u64) -> (r: String)
        ensures
            r@ == " Local Discovery ["@ + panels::discovery_filter_name(self.discovery_filter)
                + "] (Total: "@ + text::dec(shown as nat) + ") "@ + self.last_discovery_time@
                + auto_status(*self, now) + " "@,
    {
        let mut r = " Local Discovery [".to_owned();
        r.append(discovery_filter_label(&self.discovery_filter));
        r.append("] (Total: ");
        r.append(dec_text(shown as u64).as_str());
        r.append(") ");
        r.append(self.last_discovery_time.as_str());
        r.append(self.auto_scan_status(now).as_str());
        r.append(" ");
        r
    }

    /// The title of the panel while a scan holds the devices.
    pub fn scanning_title(&self, now: u64) -> (r: String)
        ensures
            r@ == " Local Discovery ["@ + panels::discovery_filter_name(self.discovery_filter)
                + "] (Scanning...)"@ + auto_status(*self, now) + " "@,
    {
        let mut r = " Local Discovery [".to_owned();
        r.append(discovery_filter_label(&self.discovery_filter));
        r.append("] (Scanning...)");
        r.append(self.auto_scan_status(now).as_str());
        r.append(" ");
        r
    }

    /// What stands in the panel while a scan holds the devices.
    pub fn scanning_panel(&self) -> (r: Vec<(String, Tone)>)
        ensures
            line_views(r@) == seq![(" "@ + self.discovery_status@, Tone::Warning)],
    {
        let mut r: Vec<(String, Tone)> = Vec::new();
        assert(line_views(r@) =~= Seq::<(Seq<char>, Tone)>::empty());
        let mut s = " ".to_owned();
        s.append(self.discovery_status.as_str());
        push_line(&mut r, s.as_str(), Tone::Warning);
        assert(line_views(r@) =~= seq![(" "@ + self.discovery_status@, Tone::Warning)]);
        r
    }

    fn write_unscanned(&self) -> (r: Vec<(String, Tone)>)
        ensures
            line_views(r@) == unscanned_lines(*self),
    {
        let mut head = " TOTAL: 0 Devices Found".to_owned();
        head.append(self.write_auto_enabled().as_str());
        let mut r: Vec<(String, Tone)> = Vec::new();
        assert(line_views(r@) =~= Seq::<(Seq<char>, Tone)>::empty());
        push_line(&mut r, head.as_str(), Tone::Info);
        push_line(
            &mut r,
            " WARNING: Only scan with explicit permission from admin.",
            Tone::Warning,
        );
        push_line(
            &mut r,
            " Unauthorized scanning may be illegal under computer misuse laws.",
            Tone::Normal,
        );
        push_line(&mut r, "", Tone::Normal);
        push_line(&mut r, " Press [Alt+S] to start discovery scan", Tone::Info);
        push_line(&mut r, " Press [A] to toggle Auto-Rescan", Tone::Faint);
        assert(line_views(r@) =~= unscanned_lines(*self));
        r
    }

    fn write_empty(&self) -> (r: Vec<(String, Tone)>)
        ensures
            line_views(r@) == empty_lines(*self),
    {
        let mut r: Vec<(String, Tone)> = Vec::new();
        assert(line_views(r@) =~= Seq::<(Seq<char>, Tone)>::empty());
        if same(self.discovery_status.as_str(), WAITING) {
            push_line(
                &mut r,
                "  WARNING: Only scan with explicit permission from admin.",
                Tone::Warning,
            );
            push_line(
                &mut r,
                " Unauthorized scanning may be illegal under computer misuse laws.",
                Tone::Normal,
            );
            push_line(&mut r, "", Tone::Normal);
            push_line(&mut r, " Press [Alt+S] to start discovery scan", Tone::Info);
        } else {
            let mut s = " ".to_owned();
            s.append(self.discovery_status.as_str());
            push_line(&mut r, s.as_str(), Tone::Warning);
        }
        assert(line_views(r@) =~= empty_lines(*self));
        r
    }
}

impl AppState {
    /// The addresses of the devices that the chosen filter shows, highest
    /// first.
    pub fn shown_devices(&self) -> (r: Vec<IpAddr>)
        ensures
            shown_order(self.devices.active_discovery@, self.ui.discovery_filter, r@),
    {
        let t = &self.devices.active_discovery;
        let n: usize = t.len();
        let ghost items = t.items();
        let ghost f = self.ui.discovery_filter;
        let mut v: Vec<IpAddr> = Vec::new();
        for i in 0..n
            invariant
                n == items.len(),
                t == &self.devices.active_discovery,
                items == t.items(),
                f == self.ui.discovery_filter,
                forall|j: int|
                    0 <= j < n ==> t@.dom().contains((#[trigger] items[j]).0) && t@[items[j].0]
                        == items[j].1,
                forall|j: int, k: int|
                    0 <= j < k < n ==> (#[trigger] items[j]).0 != (#[trigger] items[k]).0,
                v@.no_duplicates(),
                forall|ip: IpAddr| #[trigger]
                    v@.contains(ip) <==> filter_shows(f, t@[ip]) && exists|j: int|
                        0 <= j < i && (#[trigger] items[j]).0 == ip,
        {
            let (ip, d) = t.entry(i);
            assert(items[i as int] == (ip@, d@));
            let ghost before = v@;
            if passes_device_filter(&self.ui.discovery_filter, d) {
                assert(!before.contains(*ip)) by {
                    if before.contains(*ip) {
                        let j = choose|j: int| 0 <= j < i && (#[trigger] items[j]).0 == *ip;
                        assert(items[j].0 != items[i as int].0);
                    }
                }
                v.push(*ip);
                assert(v@[before.len() as int] == *ip);
                assert forall|q: IpAddr| before.contains(q) implies #[trigger] v@.contains(q) by {
                    let j = choose|j: int| 0 <= j < before.len() && before[j] == q;
                    assert(v@[j] == q);
                }
                assert forall|q: IpAddr| #[trigger] v@.contains(q) implies before.contains(q) || q
                    == *ip by {
                    let j = choose|j: int| 0 <= j < v@.len() && v@[j] == q;
                    if j < before.len() {
                        assert(before[j] == q);
                    }
                }
            }
            assert forall|q: IpAddr| #[trigger]
                v@.contains(q) <==> filter_shows(f, t@[q]) && exists|j: int|
                    0 <= j < i + 1 && (#[trigger] items[j]).0 == q by {
                if q == *ip {
                    assert(items[i as int].0 == q);
                }
            }
        }
        let up = sorted_ips(&v);
        let mut r: Vec<IpAddr> = Vec::new();
        let m: usize = up.len();
        for i in 0..m
            invariant
                m == up@.len(),
                r@.len() == i,
                forall|j: int| 0 <= j < i ==> #[trigger] r@[j] == up@[m - 1 - j],
        {
            r.push(up[m - 1 - i]);
        }
        proof {
            assert forall|i: int, j: int| 0 <= i < j < r@.len() implies radar::ip_before(
                #[trigger] r@[j],
                #[trigger] r@[i],
            ) by {
                assert(radar::ip_before(up@[m - 1 - j], up@[m - 1 - i]));
            }
            assert forall|ip: IpAddr| #[trigger] r@.contains(ip) <==> t@.dom().contains(ip)
                && filter_shows(f, t@[ip]) by {
                if r@.contains(ip) {
                    let j = choose|j: int| 0 <= j < r@.len() && r@[j] == ip;
                    assert(up@[m - 1 - j] == ip);
                    assert(up@.contains(ip));
                    assert(v@.contains(ip));
                }
                if t@.dom().contains(ip) && filter_shows(f, t@[ip]) {
                    let j = choose|j: int| 0 <= j < items.len() && (#[trigger] items[j]).0 == ip;
                    assert(items[j].0 == ip);
                    assert(v@.contains(ip));
                    assert(up@.contains(ip));
                    let k = choose|k: int| 0 <= k < up@.len() && up@[k] == ip;
                    assert(r@[m - 1 - k] == ip);
                }
            }
        }
        r
    }

    fn panel_device_name(&self, ip: &IpAddr, dev: &DeviceInfo) -> (r: String)
        requires
            self.devices.active_discovery@.dom().contains(*ip),
            dev@ == self.devices.active_discovery@[*ip],
        ensures
            r@ == panel_name(self.hosts(), *ip),
    {
        let own = clean_hostname(dev.hostname.as_str());
        if is_worth_showing(own.as_str()) {
            return own;
        }
        match try_model(self.devices.device_metadata.get(ip)) {
            Some(m) => m,
            None => match self.traffic_profiles.get(ip) {
                Some(p) => match classify_device_type(p) {
                    Some(k) => k.to_owned(),
                    None => own,
                },
                None => own,
            },
        }
    }

    fn write_device(
        &self,
        ip: &IpAddr,
        shown: &str,
        column: usize,
        now: Moment,
    ) -> (r: (String, Tone))
        requires
            self.devices.active_discovery@.dom().contains(*ip),
        ensures
            r.0@ == device_line(self.hosts(), *ip, shown@, column as int, now),
            r.1 == device_tone(
                self.devices.active_discovery@[*ip],
                state::outside_baseline(self.hosts().known, *ip),
            ),
    {
        match self.devices.active_discovery.get(ip) {
            None => (String::new(), Tone::Normal),
            Some(d) => {
                let name = self.panel_device_name(ip, d);
                let mut r = " ".to_owned();
                r.append(padded_right(shown, column).as_str());
                r.append(" ");
                r.append(padded_right(self.get_resolved_os_tag(ip).as_str(), 5).as_str());
                r.append(" ");
                r.append(padded_right(d.mac.as_str(), 17).as_str());
                r.append("  ");
                r.append(padded_right(truncate_str(name.as_str(), 24).as_str(), 24).as_str());
                r.append(" ");
                r.append(
                    padded_right(format_last_seen(d, now.steady, now.unix).as_str(), 10).as_str(),
                );
                r.append(" ");
                r.append(d.vendor.as_str());
                let tone = if is_outside_baseline(&self.devices.baseline, ip) {
                    Tone::Local
                } else if d.miss_count > 0 {
                    Tone::Faint
                } else {
                    Tone::Normal
                };
                (r, tone)
            },
        }
    }

    fn address_column(&self, ips: &Vec<IpAddr>, prefix: &str) -> (r: usize)
        ensures
            r == ip_column(ips@, self.ui.ip_compressed, prefix@),
    {
        let short = self.ui.ip_compressed;
        if !short {
            return 16;
        }
        let n: usize = ips.len();
        let mut most: usize = 0;
        for i in 0..n
            invariant
                n == ips@.len(),
                short,
                most == widest(ips@, short, prefix@, i as int),
                most < 400,
        {
            let s = show_ip(&ips[i], short, prefix);
            let own: usize = s.as_str().as_bytes().len();
            proof {
                lemma_panel_ip_short(ips@[i as int], short, prefix@);
            }
            if own > most {
                most = own;
            }
        }
        most + 1
    }

    fn write_devices(
        &self,
        ips: &Vec<IpAddr>,
        prefix: &str,
        width: usize,
        now: Moment,
    ) -> (r: Vec<(String, Tone)>)
        requires
            forall|i: int|
                0 <= i < ips@.len() ==> self.devices.active_discovery@.dom().contains(
                    #[trigger] ips@[i],
                ),
        ensures
            line_views(r@) == device_lines(
                self.hosts(),
                ips@,
                self.ui.ip_compressed,
                prefix@,
                width,
                now,
            ),
    {
        let column: usize = self.address_column(ips, prefix);
        let n: usize = ips.len();
        let mut r: Vec<(String, Tone)> = Vec::new();
        let ghost want = device_lines(
            self.hosts(),
            ips@,
            self.ui.ip_compressed,
            prefix@,
            width,
            now,
        );
        for i in 0..n
            invariant
                n == ips@.len(),
                want == device_lines(
                    self.hosts(),
                    ips@,
                    self.ui.ip_compressed,
                    prefix@,
                    width,
                    now,
                ),
                column == ip_column(ips@, self.ui.ip_compressed, prefix@),
                forall|j: int|
                    0 <= j < ips@.len() ==> self.devices.active_discovery@.dom().contains(
                        #[trigger] ips@[j],
                    ),
                line_views(r@) == want.take(i as int),
        {
            let shown = show_ip(&ips[i], self.ui.ip_compressed, prefix);
            let (line, tone) = self.write_device(&ips[i], shown.as_str(), column, now);
            let row = if is_outside_baseline(&self.devices.baseline, &ips[i]) {
                let mut m = NEW_MARK.to_owned();
                m.append(truncate_str(line.as_str(), width.saturating_sub(MARK_WIDTH)).as_str());
                m
            } else {
                truncate_str(line.as_str(), width)
            };
            push_line(&mut r, row.as_str(), tone);
            assert(line_views(r@) =~= want.take(i + 1));
        }
        assert(line_views(r@) =~= want);
        r
    }

    /// What the panel of local devices shows in some rows of a width, given the
    /// devices that are shown.
    pub fn device_panel(
        &self,
        ips: &Vec<IpAddr>,
        prefix: &str,
        rows: usize,
        width: usize,
        now: Moment,
    ) -> (r: Vec<(String, Tone)>)
        requires
            shown_order(self.devices.active_discovery@, self.ui.discovery_filter, ips@),
        ensures
            line_views(r@) == shown_panel(*self, ips@, prefix@, rows, width, now),
    {
        let all = if !self.ui.scan_has_run {
            self.ui.write_unscanned()
        } else if ips.len() == 0 {
            self.ui.write_empty()
        } else {
            assert forall|i: int| 0 <= i < ips@.len() implies self.devices.active_discovery@.dom().contains(
            #[trigger] ips@[i]) by {
                assert(ips@.contains(ips@[i]));
            }
            self.write_devices(ips, prefix, width, now)
        };
        let ghost lines = panel_lines(*self, ips@, prefix@, width, now);
        assert(line_views(all@) == lines);
        assert(lines.len() == all@.len());
        let w = window_of(
            all.len(),
            rows,
            self.ui.discovery_paused_scroll,
            self.ui.discovery_scroll,
        );
        let total: usize = all.len();
        let mut r: Vec<(String, Tone)> = Vec::new();
        assert(line_views(r@) =~= lines.subrange(w.skip as int, w.skip as int));
        for i in 0..w.shown
            invariant
                total == all@.len(),
                w.skip + w.shown <= total,
                lines == line_views(all@),
                line_views(r@) == lines.subrange(w.skip as int, w.skip + i),
        {
            push_line(&mut r, all[w.skip + i].0.as_str(), all[w.skip + i].1);
            assert(line_views(r@) =~= lines.subrange(w.skip as int, w.skip + i + 1));
        }
        let ghost fit = line_views(r@);
        assert(r@.len() == fit.len());
        if self.ui.discovery_paused_scroll && r.len() > 0 {
            let gone = r.pop();
            assert(line_views(r@) =~= fit.drop_last());
            push_line(&mut r, RESUME_SCROLL, Tone::Warning);
        }
        if !same(self.ui.discovery_status.as_str(), WAITING) {
            push_line(&mut r, "", Tone::Normal);
            let mut s = " Last Scan: ".to_owned();
            s.append(self.ui.last_discovery_time.as_str());
            push_line(&mut r, s.as_str(), Tone::Faint);
        }
        r
    }
}

proof fn lemma_panel_ip_short(ip: IpAddr, short: bool, prefix: Seq<char>)
    ensures
        text::byte_len(panel_ip(ip, short, prefix)) < 400,
{
    net::law_address_short(ip);
    text::lemma_byte_len(panel_ip(ip, short, prefix));
    match ip {
        IpAddr::V6(n) => {
            reveal_strlit("fe80::");
            reveal_with_fuel(text::hex, 5);
        },
        IpAddr::V4(_) => {},
    }
}

/// What each filter of the inventory shows: all devices, those with a name,
/// those with a maker, or those with neither.
pub proof fn law_filters_show(d: InfoView)
    ensures
        ({
            let name = hostname::cleaned(d.hostname);
            let named = name != "Resolving..."@ && name != "\u{2014}"@;
            &&& filter_shows(DiscoveryFilter::All, d)
            &&& filter_shows(DiscoveryFilter::Named, d) <==> named
            &&& filter_shows(DiscoveryFilter::Vendors, d) <==> d.vendor != "Unknown"@
            &&& filter_shows(DiscoveryFilter::Unknown, d) <==> !named && d.vendor == "Unknown"@
        }),
{
}

/// A device reads in the inventory as its address, its system, its hardware
/// address, its name, when it was seen and its maker, each in its column.
pub proof fn law_device_line_reads(
    h: HostsView,
    ip: IpAddr,
    shown: Seq<char>,
    column: nat,
    now: Moment,
)
    ensures
        ({
            let d = h.active[ip];
            device_line(h, ip, shown, column as int, now) == " "@ + text::pad_right(shown, column)
                + " "@ + text::pad_right(h.shown_os(ip), 5) + " "@ + text::pad_right(d.mac, 17)
                + "  "@ + text::pad_right(formatting::truncated(panel_name(h, ip), 24), 24) + " "@
                + text::pad_right(formatting::seen_text(d, now.steady, now.unix), 10) + " "@ + d.vendor
        }),
        device_tone(h.active[ip], true) == Tone::Local,
        h.active[ip].miss_count > 0 ==> device_tone(h.active[ip], false) == Tone::Faint,
        h.active[ip].miss_count == 0 ==> device_tone(h.active[ip], false) == Tone::Normal,
{
}

/// How long it is until the next scan of its own: three minutes after the last
/// one, if there was one and they are switched on.
pub proof fn law_next_scan_reads(ui: Ui, now: u64, ago: nat)
    requires
        ui.last_auto_scan <= now,
        ago * 1_000_000_000 <= now - ui.last_auto_scan < (ago + 1) * 1_000_000_000,
    ensures
        ui.auto_scan_enabled && ui.scan_has_run && ago <= 180 ==> auto_status(ui, now)
            == " (Auto-Rescan in "@ + text::dec((180 - ago) as nat) + "s)"@,
        ui.auto_scan_enabled && ui.scan_has_run && ago > 180 ==> auto_status(ui, now)
            == " (Auto-Rescan in "@ + text::dec(0) + "s)"@,
        ui.auto_scan_enabled && !ui.scan_has_run ==> auto_status(ui, now)
            == " (Auto-Rescanning Enabled)"@,
        !ui.auto_scan_enabled ==> auto_status(ui, now) == " (Auto-Rescan: PAUSED)"@,
{
    assert(formatting::since(now, ui.last_auto_scan) / 1_000_000_000 == ago);
}

/// The name of a device in the inventory: its own where that tells something,
/// or else the model that it tells, what its traffic tells, or its own after
/// all.
pub proof fn law_inventory_names(h: HostsView, ip: IpAddr)
    ensures
        ({
            let own = hostname::cleaned(h.active[ip].hostname);
            let tells = own.len() > 0 && own != "\u{2014}"@ && own != "Resolving..."@;
            let kind = if h.profiles.dom().contains(ip) {
                traffic::device_type(h.profiles[ip])
            } else {
                None
            };
            &&& tells ==> panel_name(h, ip) == own
            &&& !tells && !h.details.dom().contains(ip) && kind is Some ==> panel_name(h, ip) == kind->0
            &&& !tells && !h.details.dom().contains(ip) && kind is None ==> panel_name(h, ip) == own
            &&& !tells && h.details.dom().contains(ip) && h.details[ip].property("model"@) is Some
                && hostname::cleaned(h.details[ip].property("model"@)->0).len() > 0
                && hostname::cleaned(h.details[ip].property("model"@)->0) != "\u{2014}"@ ==> panel_name(
                h,
                ip,
            ) == hostname::cleaned(h.details[ip].property("model"@)->0)
        }),
{
}

/// A list that is scrolled ends with how to go on; once there was a scan, the
/// time of the last one stands below it.
pub proof fn law_inventory_hints(lines: Seq<(Seq<char>, Tone)>, ui: Ui)
    ensures
        hinted_lines(lines, false) == lines,
        lines.len() > 0 ==> hinted_lines(lines, true).len() == lines.len() && hinted_lines(
            lines,
            true,
        ).last().0 == "  \u{2193} Press [Space] to resume live scroll"@,
        ui.discovery_status@ == "[ Waiting for Signal ]"@ ==> dated_lines(lines, ui) == lines,
        ui.discovery_status@ != "[ Waiting for Signal ]"@ ==> dated_lines(lines, ui).last().0
            == " Last Scan: "@ + ui.last_discovery_time@,
{
}

} // verus!
