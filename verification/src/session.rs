//! What keys, other threads and the clock do to the state of the monitor.

use vstd::prelude::*;
use vstd::string::*;

use crate::alerts::{Alert, AlertLevel, AlertReason, AlertTier};
use crate::device::{DeviceDetails, DeviceInfo, InfoView};
use crate::dhcp;
use crate::dhcp::classify_dhcp;
use crate::enrich;
use crate::enrich::is_unnamed;
use crate::formatting;
use crate::geoip;
use crate::geoip::{GeoInfo, GeoView};
use crate::hostname::DASH;
use crate::inventory::RESCAN;
use crate::names;
use crate::names::{Names, NamesView};
use crate::net;
use crate::net::{
    IpAddr, ip_string, is_local_ip, is_local_or_multicast, is_noise_address, is_unassigned,
};
use crate::packet::{CapturedPacket, PacketView};
use crate::radar;
use crate::radar::key_addresses;
use crate::scan;
use crate::scan::{Moment, see_device};
use crate::state;
use crate::state::{AppState, Devices, Graph, InputMode, TrafficView, Ui};
use crate::table::{Dup, Table};
use crate::text;
use crate::text::{
    chars_of, has_part, lossy_text, lower_case, lower_char, part, same, starts_with, trim,
};
use crate::traffic::SECOND;
use crate::vendor;
use crate::vendor::{VendorList, try_get_vendor};

verus! {

// ---------------------------------------------------------------------------
// Keys
// ---------------------------------------------------------------------------

/// A key.
#[derive(Clone, Copy, PartialEq, Eq, Structural, Debug)]
pub enum KeyCode {
    Char(char),
    Tab,
    Up,
    Down,
    Esc,
    Enter,
    Backspace,
    Other,
}

/// A key that is pressed, and the keys held with it.
#[derive(Clone, Copy, PartialEq, Eq, Structural, Debug)]
pub struct Press {
    pub key: KeyCode,
    pub alt: bool,
    pub control: bool,
}

/// What a key asks for.
#[derive(Clone, Copy, PartialEq, Eq, Structural, Debug)]
pub enum Command {
    TogglePause,
    NextFilter,
    ClearAlerts,
    ToggleGraph,
    BeginExport,
    BeginWhitelist,
    ToggleShort,
    Resume,
    NextPanel,
    ScrollUp,
    ScrollDown,
    ToggleRescan,
    Scan,
    NextNode,
    ClearNode,
    Quit,
    Cancel,
    Submit,
    ClearInput,
    Erase,
    Type(char),
    Nothing,
}

/// A letter in either case.
pub open spec fn letter(c: char, lower: char) -> bool {
    text::ascii_lower_char(c) == lower
}

/// What a character asks for while no text is typed.
pub open spec fn normal_char(c: char, alt: bool) -> Command {
    if letter(c, 'p') {
        Command::TogglePause
    } else if letter(c, 'f') {
        Command::NextFilter
    } else if letter(c, 'c') {
        Command::ClearAlerts
    } else if letter(c, 'g') {
        Command::ToggleGraph
    } else if letter(c, 'e') {
        Command::BeginExport
    } else if letter(c, 'w') {
        Command::BeginWhitelist
    } else if letter(c, 'i') {
        Command::ToggleShort
    } else if c == ' ' {
        Command::Resume
    } else if letter(c, 'a') {
        Command::ToggleRescan
    } else if letter(c, 's') && alt {
        Command::Scan
    } else if letter(c, 'n') {
        Command::NextNode
    } else if letter(c, 'q') {
        Command::Quit
    } else {
        Command::Nothing
    }
}

/// What a key asks for while no text is typed.
pub open spec fn normal_command(p: Press) -> Command {
    match p.key {
        KeyCode::Char(c) => normal_char(c, p.alt),
        KeyCode::Tab => Command::NextPanel,
        KeyCode::Up => Command::ScrollUp,
        KeyCode::Down => Command::ScrollDown,
        KeyCode::Esc => Command::ClearNode,
        _ => Command::Nothing,
    }
}

/// What a key asks for while text is typed.
pub open spec fn typing_command(p: Press) -> Command {
    match p.key {
        KeyCode::Esc => Command::Cancel,
        KeyCode::Enter => Command::Submit,
        KeyCode::Backspace => Command::Erase,
        KeyCode::Char(c) => if p.control && (letter(c, 'a') || letter(c, 'u') || letter(c, 'w')
            || letter(c, 'x')) {
            Command::ClearInput
        } else {
            Command::Type(c)
        },
        _ => Command::Nothing,
    }
}

/// What a key asks for.
pub open spec fn command(mode: InputMode, p: Press) -> Command {
    match mode {
        InputMode::Normal => normal_command(p),
        _ => typing_command(p),
    }
}

fn command_of_char(c: char, alt: bool) -> (r: Command)
    ensures
        r == normal_char(c, alt),
{
    let l = lower_char(c);
    if l == 'p' {
        Command::TogglePause
    } else if l == 'f' {
        Command::NextFilter
    } else if l == 'c' {
        Command::ClearAlerts
    } else if l == 'g' {
        Command::ToggleGraph
    } else if l == 'e' {
        Command::BeginExport
    } else if l == 'w' {
        Command::BeginWhitelist
    } else if l == 'i' {
        Command::ToggleShort
    } else if c == ' ' {
        Command::Resume
    } else if l == 'a' {
        Command::ToggleRescan
    } else if l == 's' && alt {
        Command::Scan
    } else if l == 'n' {
        Command::NextNode
    } else if l == 'q' {
        Command::Quit
    } else {
        Command::Nothing
    }
}

/// What a key asks for.
pub fn command_of(mode: &InputMode, p: Press) -> (r: Command)
    ensures
        r == command(*mode, p),
{
    match mode {
        InputMode::Normal => match p.key {
            KeyCode::Char(c) => command_of_char(c, p.alt),
            KeyCode::Tab => Command::NextPanel,
            KeyCode::Up => Command::ScrollUp,
            KeyCode::Down => Command::ScrollDown,
            KeyCode::Esc => Command::ClearNode,
            _ => Command::Nothing,
        },
        _ => match p.key {
            KeyCode::Esc => Command::Cancel,
            KeyCode::Enter => Command::Submit,
            KeyCode::Backspace => Command::Erase,
            KeyCode::Char(c) => {
                let l = lower_char(c);
                if p.control && (l == 'a' || l == 'u' || l == 'w' || l == 'x') {
                    Command::ClearInput
                } else {
                    Command::Type(c)
                }
            },
            _ => Command::Nothing,
        },
    }
}

/// While text is typed, no key does anything but to the text.
pub proof fn law_typing_is_contained(mode: InputMode, p: Press)
    requires
        mode != InputMode::Normal,
    ensures
        match command(mode, p) {
            Command::Cancel => true,
            Command::Submit => true,
            Command::ClearInput => true,
            Command::Erase => true,
            Command::Type(_) => true,
            Command::Nothing => true,
            _ => false,
        },
{
}

// ---------------------------------------------------------------------------
// Commands
// ---------------------------------------------------------------------------

/// The node that is chosen after another, among addresses in their order.
pub open spec fn node_after(ips: Seq<IpAddr>, chosen: Option<IpAddr>) -> Option<IpAddr> {
    if ips.len() == 0 {
        chosen
    } else {
        match chosen {
            Some(c) if ips.contains(c) => Some(
                ips[(ips.index_of(c) + 1) % ips.len() as int],
            ),
            _ => Some(ips[0]),
        }
    }
}

proof fn lemma_in_order_index(ips: Seq<IpAddr>, i: int)
    requires
        radar::in_order(ips),
        0 <= i < ips.len(),
    ensures
        ips.index_of(ips[i]) == i,
{
    let k = ips.index_of(ips[i]);
    assert(ips[k] == ips[i]);
    if k < i {
        assert(radar::ip_before(ips[k], ips[i]));
    }
    if i < k {
        assert(radar::ip_before(ips[i], ips[k]));
    }
}

/// Asking for the next node goes through all nodes in turn.
pub proof fn law_nodes_in_turn(ips: Seq<IpAddr>, i: int)
    requires
        radar::in_order(ips),
        0 <= i < ips.len(),
    ensures
        node_after(ips, None) == Some(ips[0]),
        i + 1 < ips.len() ==> node_after(ips, Some(ips[i])) == Some(ips[i + 1]),
        node_after(ips, Some(ips[ips.len() - 1])) == Some(ips[0]),
{
    lemma_in_order_index(ips, i);
    lemma_in_order_index(ips, ips.len() - 1);
    assert(ips.contains(ips[i]));
    assert(ips.contains(ips[ips.len() - 1]));
    vstd::arithmetic::div_mod::lemma_mod_self_0(ips.len() as int);
    if i + 1 < ips.len() {
        vstd::arithmetic::div_mod::lemma_small_mod((i + 1) as nat, ips.len());
    }
}

impl AppState {
    /// Pauses, or goes on.
    pub fn toggle_pause(&mut self)
        ensures
            *final(self) == (AppState {
                ui: Ui { paused: !old(self).ui.paused, ..old(self).ui },
                ..*old(self)
            }),
    {
        self.ui.paused = !self.ui.paused;
    }

    /// Shows the graph, or the panels.
    pub fn toggle_graph(&mut self)
        ensures
            *final(self) == (AppState {
                graph: Graph { show_graph: !old(self).graph.show_graph, ..old(self).graph },
                ..*old(self)
            }),
    {
        self.graph.show_graph = !self.graph.show_graph;
    }

    /// Shows addresses short, or in full, and says so.
    pub fn toggle_short(&mut self, now: u64)
        ensures
            ({
                let on = !old(self).ui.ip_compressed;
                &&& final(self).ui.ip_compressed == on
                &&& final(self).ui.footer_message matches Some((m, t)) && t == now && m@ == (if on {
                    "IP Compression: ON"@
                } else {
                    "IP Compression: OFF"@
                })
                &&& *final(self) == (AppState {
                    ui: Ui {
                        ip_compressed: on,
                        footer_message: final(self).ui.footer_message,
                        ..old(self).ui
                    },
                    ..*old(self)
                })
            }),
    {
        self.ui.ip_compressed = !self.ui.ip_compressed;
        let text = if self.ui.ip_compressed {
            "IP Compression: ON"
        } else {
            "IP Compression: OFF"
        };
        self.set_footer_message(text.to_owned(), now);
    }

    /// Lets scans run by themselves, or not, and says so.
    pub fn toggle_rescan(&mut self, now: u64)
        ensures
            ({
                let on = !old(self).ui.auto_scan_enabled;
                &&& final(self).ui.auto_scan_enabled == on
                &&& final(self).ui.footer_message matches Some((m, t)) && t == now && m@ == (if on {
                    "Auto-Rescan: ENABLED (3m)"@
                } else {
                    "Auto-Rescan: PAUSED"@
                })
                &&& *final(self) == (AppState {
                    ui: Ui {
                        auto_scan_enabled: on,
                        footer_message: final(self).ui.footer_message,
                        ..old(self).ui
                    },
                    ..*old(self)
                })
            }),
    {
        self.ui.auto_scan_enabled = !self.ui.auto_scan_enabled;
        let text = if self.ui.auto_scan_enabled {
            "Auto-Rescan: ENABLED (3m)"
        } else {
            "Auto-Rescan: PAUSED"
        };
        self.set_footer_message(text.to_owned(), now);
    }

    /// Takes note that a scan was asked for, and says so.
    pub fn begin_scan(&mut self, now: u64)
        ensures
            final(self).ui.footer_message matches Some((m, t)) && t == now && m@
                == "Manual Scan Triggered..."@,
            *final(self) == (AppState {
                ui: Ui {
                    scan_has_run: true,
                    last_auto_scan: now,
                    footer_message: final(self).ui.footer_message,
                    ..old(self).ui
                },
                ..*old(self)
            }),
    {
        self.ui.scan_has_run = true;
        self.ui.last_auto_scan = now;
        self.set_footer_message("Manual Scan Triggered...".to_owned(), now);
    }

    /// Chooses the next node of the graph, where it is shown.
    pub fn next_node(&mut self)
        ensures
            *final(self) == (AppState {
                graph: Graph {
                    selected_node: final(self).graph.selected_node,
                    ..old(self).graph
                },
                ..*old(self)
            }),
            if old(self).graph.show_graph {
                exists|ips: Seq<IpAddr>| #[trigger]
                    radar::lists_keys(ips, old(self).graph.graph_nodes@)
                        && final(self).graph.selected_node == node_after(
                        ips,
                        old(self).graph.selected_node,
                    )
            } else {
                final(self).graph.selected_node == old(self).graph.selected_node
            },
    {
        if !self.graph.show_graph {
            return;
        }
        let ips = key_addresses(&self.graph.graph_nodes);
        let n: usize = ips.len();
        if n == 0 {
            assert(radar::lists_keys(ips@, self.graph.graph_nodes@));
            return;
        }
        let mut next: IpAddr = ips[0];
        let ghost want = node_after(ips@, self.graph.selected_node);
        match self.graph.selected_node {
            Some(c) => {
                let mut found = false;
                for i in 0..n
                    invariant
                        n == ips@.len(),
                        n > 0,
                        radar::in_order(ips@),
                        want == node_after(ips@, Some(c)),
                        found ==> Some(next) == want,
                        !found ==> next == ips@[0] && forall|j: int| 0 <= j < i ==> ips@[j] != c,
                {
                    if ips[i] == c {
                        proof {
                            lemma_in_order_index(ips@, i as int);
                            assert(ips@.contains(c));
                        }
                        next = if i + 1 < n {
                            ips[i + 1]
                        } else {
                            ips[0]
                        };
                        found = true;
                        proof {
                            if i + 1 < n {
                                assert((i + 1) % n as int == i + 1) by (nonlinear_arith)
                                    requires
                                        0 <= i + 1 < n,
                                ;
                            } else {
                                assert((i + 1) % n as int == 0) by (nonlinear_arith)
                                    requires
                                        i + 1 == n,
                                        n > 0,
                                ;
                            }
                        }
                    }
                }
            },
            None => {},
        }
        self.graph.selected_node = Some(next);
        assert(radar::lists_keys(ips@, old(self).graph.graph_nodes@));
    }

    /// Chooses no node, where the graph is shown.
    pub fn clear_node(&mut self)
        ensures
            *final(self) == (AppState {
                graph: Graph {
                    selected_node: if old(self).graph.show_graph {
                        None
                    } else {
                        old(self).graph.selected_node
                    },
                    ..old(self).graph
                },
                ..*old(self)
            }),
    {
        if self.graph.show_graph {
            self.graph.selected_node = None;
        }
    }

    /// Begins to ask where a report goes, with a proposal.
    pub fn begin_export(&mut self, path: String)
        ensures
            *final(self) == (AppState {
                ui: Ui { input_mode: InputMode::Exporting, input_buffer: path, ..old(self).ui },
                ..*old(self)
            }),
    {
        self.ui.input_buffer = path;
        self.ui.input_mode = InputMode::Exporting;
    }

    /// Begins to ask for an address that is silenced.
    pub fn begin_whitelist(&mut self)
        ensures
            final(self).ui.input_buffer@ == Seq::<char>::empty(),
            *final(self) == (AppState {
                ui: Ui {
                    input_mode: InputMode::Whitelisting,
                    input_buffer: final(self).ui.input_buffer,
                    ..old(self).ui
                },
                ..*old(self)
            }),
    {
        self.ui.input_buffer = String::new();
        self.ui.input_mode = InputMode::Whitelisting;
    }

    /// Ends typing, and gives what was typed.
    pub fn end_input(&mut self) -> (r: String)
        ensures
            r == old(self).ui.input_buffer,
            final(self).ui.input_buffer@ == Seq::<char>::empty(),
            *final(self) == (AppState {
                ui: Ui {
                    input_mode: InputMode::Normal,
                    input_buffer: final(self).ui.input_buffer,
                    ..old(self).ui
                },
                ..*old(self)
            }),
    {
        let mut text = String::new();
        std::mem::swap(&mut text, &mut self.ui.input_buffer);
        self.ui.input_mode = InputMode::Normal;
        text
    }

    /// Takes away what was typed.
    pub fn clear_input(&mut self)
        ensures
            final(self).ui.input_buffer@ == Seq::<char>::empty(),
            *final(self) == (AppState {
                ui: Ui { input_buffer: final(self).ui.input_buffer, ..old(self).ui },
                ..*old(self)
            }),
    {
        self.ui.input_buffer = String::new();
    }

    /// Takes away the last character that was typed.
    pub fn erase_char(&mut self)
        ensures
            final(self).ui.input_buffer@ == (if old(self).ui.input_buffer@.len() > 0 {
                old(self).ui.input_buffer@.drop_last()
            } else {
                old(self).ui.input_buffer@
            }),
            *final(self) == (AppState {
                ui: Ui { input_buffer: final(self).ui.input_buffer, ..old(self).ui },
                ..*old(self)
            }),
    {
        let c = chars_of(self.ui.input_buffer.as_str());
        let n: usize = c.len();
        if n > 0 {
            let s = part(c.as_slice(), 0, n - 1);
            assert(s@ =~= self.ui.input_buffer@.drop_last());
            self.ui.input_buffer = s;
        }
    }

    /// Takes a character that is typed.
    pub fn type_char(&mut self, c: char)
        ensures
            final(self).ui.input_buffer@ == old(self).ui.input_buffer@.push(c),
            *final(self) == (AppState {
                ui: Ui { input_buffer: final(self).ui.input_buffer, ..old(self).ui },
                ..*old(self)
            }),
    {
        self.ui.input_buffer.push(c);
    }

    /// Silences the address that was typed, if it is one, and says so.
    pub fn submit_whitelist(&mut self, ip: Option<IpAddr>, now: u64)
        ensures
            final(self).ui.footer_message matches Some((m, t)) && t == now && m@ == (match ip {
                Some(a) => "Whitelisted IP: "@ + net::ip_text(a),
                None => "Invalid IP address format"@,
            }),
            final(self).whitelist@ == (match ip {
                Some(a) => old(self).whitelist@.insert(a),
                None => old(self).whitelist@,
            }),
            final(self).alerts@ == (match ip {
                Some(a) => old(self).alerts@.without(net::ip_text(a)),
                None => old(self).alerts@,
            }),
            *final(self) == (AppState {
                alerts: final(self).alerts,
                whitelist: final(self).whitelist,
                ui: Ui { footer_message: final(self).ui.footer_message, ..old(self).ui },
                ..*old(self)
            }),
    {
        match ip {
            Some(a) => {
                self.whitelist_ip(a);
                let mut m = "Whitelisted IP: ".to_owned();
                m.append(ip_string(&a).as_str());
                self.set_footer_message(m, now);
            },
            None => self.set_footer_message("Invalid IP address format".to_owned(), now),
        }
    }

    /// Says where a report went, or why it did not.
    pub fn report_saved(&mut self, path: &str, error: Option<&str>, now: u64)
        ensures
            final(self).ui.footer_message matches Some((m, t)) && t == now && m@ == (match error {
                None => "Report saved to "@ + path@,
                Some(e) => "Failed to save report: "@ + e@,
            }),
            *final(self) == (AppState {
                ui: Ui { footer_message: final(self).ui.footer_message, ..old(self).ui },
                ..*old(self)
            }),
    {
        let m = match error {
            None => {
                let mut m = "Report saved to ".to_owned();
                m.append(path);
                m
            },
            Some(e) => {
                let mut m = "Failed to save report: ".to_owned();
                m.append(e);
                m
            },
        };
        self.set_footer_message(m, now);
    }
}

/// The name of the file of a report, given when it is made as text.
pub fn report_file_name(date: &str) -> (r: String)
    ensures
        r@ == "VORA_Session_Report_"@ + date@ + ".txt"@,
{
    let mut r = "VORA_Session_Report_".to_owned();
    r.append(date);
    r.append(".txt");
    r
}

// ---------------------------------------------------------------------------
// The clock
// ---------------------------------------------------------------------------

/// A scan is due by itself.
pub open spec fn rescan_due(ui: Ui, now: u64) -> bool {
    ui.auto_scan_enabled && ui.scan_has_run && formatting::since(now, ui.last_auto_scan) >= RESCAN * SECOND
}

impl AppState {
    /// Whether a scan is due by itself. If so, the next is due after a while.
    pub fn take_rescan(&mut self, now: u64) -> (r: bool)
        ensures
            r == rescan_due(old(self).ui, now),
            *final(self) == (AppState {
                ui: Ui {
                    last_auto_scan: if r {
                        now
                    } else {
                        old(self).ui.last_auto_scan
                    },
                    ..old(self).ui
                },
                ..*old(self)
            }),
    {
        let due = self.ui.auto_scan_enabled && self.ui.scan_has_run && now.saturating_sub(
            self.ui.last_auto_scan,
        ) >= RESCAN * SECOND;
        if due {
            self.ui.last_auto_scan = now;
        }
        due
    }
}

// ---------------------------------------------------------------------------
// Places
// ---------------------------------------------------------------------------

/// An address whose place may be asked for: one of the Internet, and of no
/// network that is private to someone.
pub open spec fn public_v4(ip: IpAddr) -> bool {
    &&& ip is V4
    &&& !net::local_ip(ip)
    &&& !net::local_or_multicast(ip)
    &&& !net::unassigned(ip)
}

/// Whether the place of an address may be asked for.
pub fn is_public_ip_heuristic(ip: &IpAddr) -> (r: bool)
    ensures
        r == public_v4(*ip),
{
    match ip {
        IpAddr::V4(_) => !is_local_ip(ip) && !is_local_or_multicast(ip) && !is_unassigned(ip),
        IpAddr::V6(_) => false,
    }
}

/// The most places that are asked for at a time.
pub const GEO_LIMIT: usize = 5;

/// What stands for a place that is being asked for.
pub open spec fn asked_place() -> GeoView {
    GeoView {
        country_code: "..."@,
        city: None,
        region: None,
        org: "Looking up..."@,
    }
}

/// What stands for a place that is not known.
pub open spec fn unknown_place() -> GeoView {
    GeoView { country_code: "??"@, city: None, region: None, org: "Unknown"@ }
}

/// The place of an address is asked for.
pub open spec fn place_wanted(places: Map<IpAddr, GeoView>, in_flight: usize, ip: IpAddr) -> bool {
    !places.dom().contains(ip) && in_flight < GEO_LIMIT && public_v4(ip)
}

impl AppState {
    /// Whether the place of an address is asked for. If so, note is taken that
    /// it is.
    pub fn want_place(&mut self, ip: IpAddr) -> (r: bool)
        ensures
            r == place_wanted(old(self).names@.geo_cache, old(self).ui.geo_in_flight, ip),
            final(self).names@ == (NamesView {
                geo_cache: if r {
                    old(self).names@.geo_cache.insert(ip, asked_place())
                } else {
                    old(self).names@.geo_cache
                },
                ..old(self).names@
            }),
            *final(self) == (AppState {
                names: final(self).names,
                ui: Ui {
                    geo_in_flight: if r {
                        (old(self).ui.geo_in_flight + 1) as usize
                    } else {
                        old(self).ui.geo_in_flight
                    },
                    ..old(self).ui
                },
                ..*old(self)
            }),
    {
        if self.names.geo_cache.contains_key(&ip) || self.ui.geo_in_flight >= GEO_LIMIT
            || !is_public_ip_heuristic(&ip) {
            return false;
        }
        self.ui.geo_in_flight = self.ui.geo_in_flight + 1;
        self.names.geo_cache.insert(
            ip,
            GeoInfo {
                country_code: "...".to_owned(),
                city: None,
                region: None,
                org: "Looking up...".to_owned(),
            },
        );
        true
    }

    /// Takes the place of an address that was asked for, or that it is not
    /// known.
    pub fn take_place(&mut self, ip: IpAddr, place: Option<GeoInfo>)
        ensures
            final(self).names@ == (NamesView {
                geo_cache: old(self).names@.geo_cache.insert(
                    ip,
                    match place {
                        Some(g) => g@,
                        None => unknown_place(),
                    },
                ),
                ..old(self).names@
            }),
            *final(self) == (AppState {
                names: final(self).names,
                ui: Ui {
                    geo_in_flight: if old(self).ui.geo_in_flight > 0 {
                        (old(self).ui.geo_in_flight - 1) as usize
                    } else {
                        0
                    },
                    ..old(self).ui
                },
                ..*old(self)
            }),
    {
        self.ui.geo_in_flight = self.ui.geo_in_flight.saturating_sub(1);
        let g = match place {
            Some(g) => g,
            None => GeoInfo {
                country_code: "??".to_owned(),
                city: None,
                region: None,
                org: "Unknown".to_owned(),
            },
        };
        self.names.geo_cache.insert(ip, g);
    }
}

/// The place of an address is asked for once: whatever came of it, it is not
/// asked for again.
pub proof fn law_place_asked_once(
    places: Map<IpAddr, GeoView>,
    ip: IpAddr,
    answer: GeoView,
    in_flight: usize,
)
    ensures
        !place_wanted(places.insert(ip, asked_place()), in_flight, ip),
        !place_wanted(places.insert(ip, answer), in_flight, ip),
{
}

// ---------------------------------------------------------------------------
// Devices and alerts
// ---------------------------------------------------------------------------

/// The devices that were overheard, after one was seen.
pub open spec fn overheard(
    m: Map<IpAddr, InfoView>,
    ip: IpAddr,
    mac: Seq<char>,
    vendor: Seq<char>,
    now: Moment,
) -> Map<IpAddr, InfoView> {
    if !net::local_ip(ip) {
        m
    } else if m.dom().contains(ip) {
        m.insert(
            ip,
            InfoView {
                miss_count: 0,
                last_seen: now.steady,
                last_seen_unix: now.unix,
                ..m[ip]
            },
        )
    } else {
        m.insert(ip, scan::device_seen(mac, vendor, DASH@, now))
    }
}

impl Devices {
    /// Takes note of a host of this network that was overheard. Nothing is
    /// noted of a new one whose maker cannot be told.
    pub fn overhear(&mut self, mac: &str, ip: IpAddr, vendors: &VendorList, now: Moment) -> (r: bool)
        ensures
            r == (!net::local_ip(ip) || old(self).passive_discovery@.dom().contains(ip)
                || vendor::mac_readable(mac@)),
            final(self).passive_discovery@ == (if r {
                overheard(
                    old(self).passive_discovery@,
                    ip,
                    mac@,
                    vendor::vendor_of(vendors@, mac@),
                    now,
                )
            } else {
                old(self).passive_discovery@
            }),
            final(self).active_discovery == old(self).active_discovery,
            final(self).device_metadata == old(self).device_metadata,
            final(self).baseline == old(self).baseline,
    {
        if !is_local_ip(&ip) {
            return true;
        }
        let known = match self.passive_discovery.get(&ip) {
            Some(d) => Some(d.dup()),
            None => None,
        };
        match known {
            Some(d) => {
                let mut d = d;
                d.miss_count = 0;
                d.last_seen = now.steady;
                d.last_seen_unix = now.unix;
                self.passive_discovery.insert(ip, d);
                true
            },
            None => match try_get_vendor(vendors, mac) {
                Some(vendor) => {
                    self.passive_discovery.insert(
                        ip,
                        see_device(mac.to_owned(), vendor, DASH.to_owned(), now),
                    );
                    true
                },
                None => false,
            },
        }
    }
}

/// A device, by the name that it was overheard under where it has none.
pub open spec fn heard_name(d: InfoView, overheard: Option<InfoView>) -> InfoView {
    match overheard {
        Some(o) if enrich::unnamed(d.hostname) && !enrich::unnamed(o.hostname) => InfoView {
            hostname: o.hostname,
            ..d
        },
        _ => d,
    }
}

/// Devices, by the names that they were overheard under where they have none.
pub open spec fn with_heard_names(
    active: Map<IpAddr, InfoView>,
    passive: Map<IpAddr, InfoView>,
) -> Map<IpAddr, InfoView> {
    Map::new(
        |ip: IpAddr| active.dom().contains(ip),
        |ip: IpAddr| heard_name(active[ip], names::at(passive, ip)),
    )
}

/// The devices that were overheard, once a client named itself.
pub open spec fn clients_named(
    passive: Map<IpAddr, InfoView>,
    ip: IpAddr,
    name: Seq<char>,
    now: Moment,
) -> Map<IpAddr, InfoView> {
    if !net::local_ip(ip) {
        passive
    } else if passive.dom().contains(ip) {
        passive.insert(ip, InfoView { hostname: name, ..passive[ip] })
    } else {
        passive.insert(ip, scan::device_seen("Unknown"@, "Unknown"@, name, now))
    }
}

impl Devices {
    fn share_names(&mut self)
        ensures
            final(self).active_discovery@ == with_heard_names(
                old(self).active_discovery@,
                old(self).passive_discovery@,
            ),
            *final(self) == (Devices {
                active_discovery: final(self).active_discovery,
                ..*old(self)
            }),
    {
        let ips = key_addresses(&self.active_discovery);
        let n: usize = ips.len();
        let ghost before = self.active_discovery@;
        let ghost passive = self.passive_discovery@;
        let mut named: Table<IpAddr, DeviceInfo> = Table::new();
        assert(named@ =~= Map::<IpAddr, InfoView>::empty());
        for i in 0..n
            invariant
                n == ips@.len(),
                radar::lists_keys(ips@, before),
                before == self.active_discovery@,
                passive == self.passive_discovery@,
                *self == *old(self),
                forall|ip: IpAddr| #[trigger]
                    named@.dom().contains(ip) <==> exists|j: int|
                        0 <= j < i && #[trigger] ips@[j] == ip,
                forall|ip: IpAddr| #[trigger]
                    named@.dom().contains(ip) ==> named@[ip] == heard_name(
                        before[ip],
                        names::at(passive, ip),
                    ),
        {
            let ip = ips[i];
            assert(ips@.contains(ip));
            let ghost last = named@;
            if let Some(d) = self.active_discovery.get(&ip) {
                let mut d = d.dup();
                if is_unnamed(d.hostname.as_str()) {
                    if let Some(o) = self.passive_discovery.get(&ip) {
                        if !is_unnamed(o.hostname.as_str()) {
                            d.hostname = o.hostname.dup();
                        }
                    }
                }
                assert(d@ == heard_name(before[ip], names::at(passive, ip)));
                named.insert(ip, d);
            }
            assert forall|q: IpAddr| #[trigger] named@.dom().contains(q) <==> exists|j: int|
                0 <= j < i + 1 && #[trigger] ips@[j] == q by {
                if q == ip {
                    assert(ips@[i as int] == q);
                } else if last.dom().contains(q) {
                    let j = choose|j: int| 0 <= j < i && #[trigger] ips@[j] == q;
                    assert(ips@[j] == q);
                }
            }
        }
        assert(named@ =~= with_heard_names(before, passive)) by {
            assert forall|q: IpAddr| named@.dom().contains(q) == before.dom().contains(q) by {
                if before.dom().contains(q) {
                    assert(ips@.contains(q));
                    let j = choose|j: int| 0 <= j < ips@.len() && ips@[j] == q;
                    assert(ips@[j] == q);
                }
                if named@.dom().contains(q) {
                    let j = choose|j: int| 0 <= j < n && #[trigger] ips@[j] == q;
                    assert(ips@.contains(q));
                }
            }
        }
        self.active_discovery = named;
    }

    /// Takes the devices as a scan has them by now.
    pub fn take_scan(
        &mut self,
        devices: Table<IpAddr, DeviceInfo>,
        details: Table<IpAddr, DeviceDetails>,
    )
        ensures
            final(self).active_discovery@ == with_heard_names(
                devices@,
                old(self).passive_discovery@,
            ),
            *final(self) == (Devices {
                active_discovery: final(self).active_discovery,
                device_metadata: details,
                ..*old(self)
            }),
    {
        self.active_discovery = devices;
        self.device_metadata = details;
        self.share_names();
    }

    /// Takes the name that a client gave itself when it asked for an address.
    pub fn name_client(&mut self, ip: IpAddr, name: &str, now: Moment)
        ensures
            final(self).passive_discovery@ == clients_named(
                old(self).passive_discovery@,
                ip,
                name@,
                now,
            ),
            final(self).active_discovery@ == with_heard_names(
                old(self).active_discovery@,
                final(self).passive_discovery@,
            ),
            final(self).device_metadata == old(self).device_metadata,
            final(self).baseline == old(self).baseline,
    {
        if is_local_ip(&ip) {
            let d = match self.passive_discovery.get(&ip) {
                Some(d) => {
                    let mut d = d.dup();
                    d.hostname = name.to_owned();
                    d
                },
                None => see_device("Unknown".to_owned(), "Unknown".to_owned(), name.to_owned(), now),
            };
            self.passive_discovery.insert(ip, d);
        }
        self.share_names();
    }
}

/// A device of this network that had no name is shown by the one that it gave
/// itself when it asked for an address, also once a scan goes on without it.
pub proof fn law_client_name_is_shown(
    active: Map<IpAddr, InfoView>,
    passive: Map<IpAddr, InfoView>,
    ip: IpAddr,
    name: Seq<char>,
    now: Moment,
)
    requires
        net::local_ip(ip),
        active.dom().contains(ip),
        enrich::unnamed(active[ip].hostname),
        !enrich::unnamed(name),
    ensures
        with_heard_names(active, clients_named(passive, ip, name, now))[ip].hostname == name,
{
}

impl AppState {
    /// Takes the devices of an earlier session, if there are any. They are the
    /// baseline of the first scan.
    pub fn adopt_devices(&mut self, devices: Table<IpAddr, DeviceInfo>)
        ensures
            *final(self) == (if devices@.dom().len() == 0 {
                *old(self)
            } else {
                AppState {
                    devices: Devices {
                        active_discovery: devices,
                        baseline: final(self).devices.baseline,
                        ..old(self).devices
                    },
                    ui: Ui { scan_has_run: true, ..old(self).ui },
                    ..*old(self)
                }
            }),
            state::taken_set(final(self).devices.baseline) == state::baseline_taken(
                state::taken_set(old(self).devices.baseline),
                devices@,
            ),
    {
        if devices.len() > 0 {
            self.devices.active_discovery = devices;
            self.devices.take_baseline();
            self.ui.scan_has_run = true;
        }
    }
}

/// The name of the network that a command printed, or else that of the
/// interface.
pub fn network_name(printed: Option<&str>, interface: &str) -> (r: String)
    ensures
        r@ == (match printed {
            Some(p) if text::trimmed(p@).len() > 0 => text::trimmed(p@),
            _ => interface@,
        }),
{
    if let Some(p) = printed {
        let name = trim(p);
        if !name.as_str().is_empty() {
            return name;
        }
    }
    interface.to_owned()
}

/// The name of the network in the output of a command, or else that of the
/// interface.
pub fn current_network(output: Option<&[u8]>, interface: &str) -> (r: String)
    ensures
        r@ == (match output {
            Some(o) if text::trimmed(text::lenient(o@)).len() > 0 => text::trimmed(text::lenient(o@)),
            _ => interface@,
        }),
{
    match output {
        Some(o) => network_name(Some(lossy_text(o).as_str()), interface),
        None => network_name(None, interface),
    }
}

/// An alert that a scan raises.
pub fn scan_alert(message: String, timestamp: u64) -> (r: Alert)
    ensures
        r == (Alert {
            timestamp,
            message,
            level: AlertLevel::Warn,
            tier: AlertTier::Suspicious,
            remote_ip: None,
            process: None,
            reason: AlertReason::SuspiciousFlags,
        }),
{
    Alert {
        timestamp,
        message,
        level: AlertLevel::Warn,
        tier: AlertTier::Suspicious,
        remote_ip: None,
        process: None,
        reason: AlertReason::SuspiciousFlags,
    }
}

/// What is said once no more packets come.
pub const CAPTURE_LOST: &'static str =
    "Capture thread exited (check interface name / admin privileges)";

impl Ui {
    /// Takes the status of a scan, given the time as text.
    pub fn take_scan_status(&mut self, status: String, time: String)
        ensures
            *final(self) == (Ui {
                discovery_status: status,
                last_discovery_time: time,
                ..*old(self)
            }),
    {
        self.discovery_status = status;
        self.last_discovery_time = time;
    }

    /// Takes note of how many packets came: at a limit no more are taken.
    pub fn count_packets(&mut self, count: u64, limit: Option<u64>)
        ensures
            *final(self) == (Ui {
                limit_reached: old(self).limit_reached || (limit matches Some(l) && count >= l),
                ..*old(self)
            }),
    {
        match limit {
            Some(l) => {
                if count >= l {
                    self.limit_reached = true;
                }
            },
            None => {},
        }
    }

    /// Takes note that no more packets come.
    pub fn lose_capture(&mut self)
        ensures
            final(self).capture_error matches Some(e) && e@ == CAPTURE_LOST@,
            *final(self) == (Ui { capture_error: final(self).capture_error, ..*old(self) }),
    {
        self.capture_error = Some(CAPTURE_LOST.to_owned());
    }
}

// ---------------------------------------------------------------------------
// Requests for addresses
// ---------------------------------------------------------------------------

/// How sure a system is that is told by the options it asks for.
pub const DHCP_SURE: u8 = 200;

/// The options that a client with an address of its own asked for.
pub open spec fn client_options(p: PacketView) -> Option<Seq<char>> {
    if p.src_ip is V4 && p.src_ip != IpAddr::V4(0) {
        p.dhcp_fingerprint
    } else {
        None
    }
}

/// The guesses once a client asked for options.
pub open spec fn dhcp_guesses(
    guesses: Map<IpAddr, (Seq<char>, u8)>,
    ip: IpAddr,
    options: Seq<char>,
) -> Map<IpAddr, (Seq<char>, u8)> {
    match dhcp::dhcp_class(options) {
        Some((tag, _)) if !guesses.dom().contains(ip) || guesses[ip].1 < DHCP_SURE => guesses.insert(
            ip,
            (tag, DHCP_SURE),
        ),
        _ => guesses,
    }
}

/// What is known of addresses once a client asked for options.
pub open spec fn names_with_dhcp(n: NamesView, p: PacketView) -> NamesView {
    match client_options(p) {
        None => n,
        Some(o) => NamesView {
            dhcp_fingerprints: n.dhcp_fingerprints.insert(p.src_ip, o),
            os_fingerprints: dhcp_guesses(n.os_fingerprints, p.src_ip, o),
            ..n
        },
    }
}

impl Names {
    /// Takes the options that a client asked for: they tell its system, unless
    /// that is known as surely.
    pub fn take_dhcp(&mut self, pkt: &CapturedPacket)
        ensures
            final(self)@ == names_with_dhcp(old(self)@, pkt@),
    {
        let options = match &pkt.dhcp_fingerprint {
            Some(o) => o,
            None => {
                return;
            },
        };
        match pkt.src_ip {
            IpAddr::V6(_) => {
                return;
            },
            IpAddr::V4(a) => {
                if a == 0 {
                    return;
                }
            },
        }
        self.dhcp_fingerprints.insert(pkt.src_ip, options.dup());
        match classify_dhcp(options.as_str()) {
            Some(c) => {
                let sure: u8 = match self.os_fingerprints.get(&pkt.src_ip) {
                    Some(g) => g.1,
                    None => 0,
                };
                if sure < DHCP_SURE {
                    self.os_fingerprints.insert(pkt.src_ip, (c.0, DHCP_SURE));
                }
            },
            None => {},
        }
    }
}

// ---------------------------------------------------------------------------
// Packets
// ---------------------------------------------------------------------------

/// The places that are known, how many are asked for, and which are to be
/// asked for.
pub struct Asking {
    pub places: Map<IpAddr, GeoView>,
    pub in_flight: usize,
    pub wanted: Seq<IpAddr>,
}

impl Asking {
    /// After an address was seen.
    pub open spec fn seen(self, ip: IpAddr) -> Asking {
        if place_wanted(self.places, self.in_flight, ip) {
            Asking {
                places: self.places.insert(ip, asked_place()),
                in_flight: (self.in_flight + 1) as usize,
                wanted: self.wanted.push(ip),
            }
        } else {
            self
        }
    }
}

/// What is asked for when a packet came: first for its receiver, then for its
/// sender.
pub open spec fn asking(s: AppState, p: PacketView) -> Asking {
    (Asking {
        places: s.names@.geo_cache,
        in_flight: s.ui.geo_in_flight,
        wanted: Seq::empty(),
    }).seen(p.dst_ip).seen(p.src_ip)
}

/// The traffic with the places that are asked for.
pub open spec fn asking_traffic(s: AppState, p: PacketView) -> TrafficView {
    TrafficView {
        names: NamesView { geo_cache: asking(s, p).places, ..s.names@ },
        ..s.traffic()
    }
}

/// `mid` is the traffic once a packet was taken into account, if it counts.
#[verifier::opaque]
pub open spec fn counted_in(
    before: TrafficView,
    p: PacketView,
    now: u64,
    wall: u64,
    mid: TrafficView,
) -> bool {
    if TrafficView::counts(p) {
        before.ingested(p, now, wall, mid)
    } else {
        mid == before
    }
}

/// A packet can be taken: nothing is done with it while the monitor is paused,
/// and otherwise there is room for it.
pub open spec fn takes(s: AppState, p: PacketView, now: u64) -> bool {
    s.ui.paused || !TrafficView::counts(p) || s.traffic().room(p, now)
}

/// Never more places are asked for at a time than the limit.
pub proof fn law_few_places_asked(s: AppState, p: PacketView)
    requires
        s.ui.geo_in_flight <= GEO_LIMIT,
    ensures
        asking(s, p).in_flight <= GEO_LIMIT,
        asking(s, p).wanted.len() == asking(s, p).in_flight - s.ui.geo_in_flight,
{
}

/// Only the places of public addresses are asked for, and only those of the
/// two ends of a packet.
pub proof fn law_only_public_places(s: AppState, p: PacketView, i: int)
    requires
        0 <= i < asking(s, p).wanted.len(),
    ensures
        public_v4(asking(s, p).wanted[i]),
        !net::local_ip(asking(s, p).wanted[i]),
        !net::local_or_multicast(asking(s, p).wanted[i]),
        asking(s, p).wanted[i] == p.dst_ip || asking(s, p).wanted[i] == p.src_ip,
{
}

proof fn lemma_room_asking(s: AppState, p: PacketView, now: u64)
    requires
        s.traffic().room(p, now),
    ensures
        asking_traffic(s, p).room(p, now),
{
    let a = asking_traffic(s, p);
    assert(a.names.room(p) == s.traffic().names.room(p));
    assert(geoip::city_readable(asked_place()));
    assert(s.traffic().names.place_readable(p.src_ip) ==> a.names.place_readable(p.src_ip));
    assert(s.traffic().names.place_readable(p.dst_ip) ==> a.names.place_readable(p.dst_ip));
}

impl AppState {
    fn ask_places(&mut self, pkt: &CapturedPacket) -> (r: Vec<IpAddr>)
        ensures
            r@ == asking(*old(self), pkt@).wanted,
            final(self).traffic() == asking_traffic(*old(self), pkt@),
            *final(self) == (AppState {
                names: final(self).names,
                ui: Ui { geo_in_flight: asking(*old(self), pkt@).in_flight, ..old(self).ui },
                ..*old(self)
            }),
    {
        let ghost first = (Asking {
            places: self.names@.geo_cache,
            in_flight: self.ui.geo_in_flight,
            wanted: Seq::empty(),
        });
        let mut wanted: Vec<IpAddr> = Vec::new();
        if self.want_place(pkt.dst_ip) {
            wanted.push(pkt.dst_ip);
        }
        assert(wanted@ =~= first.seen(pkt@.dst_ip).wanted);
        if self.want_place(pkt.src_ip) {
            wanted.push(pkt.src_ip);
        }
        assert(wanted@ =~= asking(*old(self), pkt@).wanted);
        wanted
    }

    fn count_packet(&mut self, pkt: &CapturedPacket, now: u64, wall: u64)
        requires
            TrafficView::counts(pkt@) ==> old(self).traffic().room(pkt@, now),
        ensures
            counted_in(old(self).traffic(), pkt@, now, wall, final(self).traffic()),
            final(self).ui == old(self).ui,
            final(self).devices == old(self).devices,
            final(self).graph == (Graph {
                graph_nodes: final(self).graph.graph_nodes,
                ..old(self).graph
            }),
    {
        proof {
            reveal(counted_in);
        }
        self.ingest_packet(pkt, now, wall);
    }

    fn note_options(&mut self, pkt: &CapturedPacket)
        ensures
            final(self).traffic() == (TrafficView {
                names: names_with_dhcp(old(self).names@, pkt@),
                ..old(self).traffic()
            }),
            final(self).ui == old(self).ui,
            final(self).devices == old(self).devices,
            final(self).graph == old(self).graph,
    {
        self.names.take_dhcp(pkt);
    }

    /// Takes a packet that was captured, and gives the addresses whose places
    /// are to be asked for; nothing where it cannot be taken.
    pub fn take_packet(&mut self, pkt: &CapturedPacket, now: u64, wall: u64) -> (r: Option<
        Vec<IpAddr>,
    >)
        ensures
            r is Some <==> takes(*old(self), pkt@, now),
            r is None || old(self).ui.paused ==> *final(self) == *old(self),
            old(self).ui.paused ==> (r matches Some(wanted) && wanted@ == Seq::<IpAddr>::empty()),
            r matches Some(wanted) ==> old(self).ui.paused || {
                &&& wanted@ == asking(*old(self), pkt@).wanted
                &&& exists|mid: TrafficView| #[trigger]
                    counted_in(asking_traffic(*old(self), pkt@), pkt@, now, wall, mid)
                        && final(self).traffic() == (TrafficView {
                        names: names_with_dhcp(mid.names, pkt@),
                        ..mid
                    })
                &&& final(self).ui == (Ui {
                    geo_in_flight: asking(*old(self), pkt@).in_flight,
                    ..old(self).ui
                })
                &&& final(self).devices == old(self).devices
                &&& final(self).graph == (Graph {
                    graph_nodes: final(self).graph.graph_nodes,
                    ..old(self).graph
                })
            },
    {
        if self.ui.paused {
            return Some(Vec::new());
        }
        let counts = !is_noise_address(&pkt.src_ip) && !is_noise_address(&pkt.dst_ip);
        if counts && !self.has_room(pkt, now) {
            return None;
        }
        proof {
            if counts {
                lemma_room_asking(*self, pkt@, now);
            }
        }
        let wanted = self.ask_places(pkt);
        self.count_packet(pkt, now, wall);
        let ghost mid = self.traffic();
        assert(counted_in(asking_traffic(*old(self), pkt@), pkt@, now, wall, mid));
        self.note_options(pkt);
        Some(wanted)
    }
}

// ---------------------------------------------------------------------------
// The interface
// ---------------------------------------------------------------------------

/// An interface that packets may be captured on.
pub struct CaptureInterface {
    pub name: String,
    pub description: String,
    pub loopback: bool,
    pub has_address: bool,
}

/// The name under which an interface is shown.
pub open spec fn shown_interface(i: CaptureInterface) -> Seq<char> {
    if i.description@.len() == 0 {
        i.name@
    } else {
        i.description@
    }
}

/// The name under which the interface with a given name is shown.
pub open spec fn interface_label(list: Seq<CaptureInterface>, name: Seq<char>, from: int) -> Seq<
    char,
>
    decreases list.len() - from,
{
    if from < 0 || from >= list.len() {
        name
    } else if list[from].name@ == name || text::contains(name, list[from].name@) {
        shown_interface(list[from])
    } else {
        interface_label(list, name, from + 1)
    }
}

/// An interface that may be chosen: a capture device that is no loopback.
pub open spec fn may_capture(i: CaptureInterface) -> bool {
    !i.loopback && !text::contains(i.name@, "Loopback"@) && text::starts(i.name@, "\\Device\\NPF_"@)
}

/// A wireless interface with an address.
pub open spec fn is_wireless(i: CaptureInterface) -> bool {
    may_capture(i) && i.has_address && (text::contains(text::lowered(i.description@), "wi-fi"@) || text::contains(
        text::lowered(i.description@),
        "wireless"@,
    ))
}

/// The first wireless interface with an address, from entry `from` on.
pub open spec fn wireless_from(list: Seq<CaptureInterface>, from: int) -> Option<int>
    decreases list.len() - from,
{
    if from < 0 || from >= list.len() {
        None
    } else if is_wireless(list[from]) {
        Some(from)
    } else {
        wireless_from(list, from + 1)
    }
}

/// The first interface that may be chosen, from entry `from` on.
pub open spec fn capture_from(list: Seq<CaptureInterface>, from: int) -> Option<int>
    decreases list.len() - from,
{
    if from < 0 || from >= list.len() {
        None
    } else if may_capture(list[from]) {
        Some(from)
    } else {
        capture_from(list, from + 1)
    }
}

/// The interface that is chosen where none is named.
pub open spec fn chosen_interface(list: Seq<CaptureInterface>) -> Option<int> {
    match wireless_from(list, 0) {
        Some(i) => Some(i),
        None => capture_from(list, 0),
    }
}

impl CaptureInterface {
    /// The name under which the interface is shown.
    pub fn label(&self) -> (r: String)
        ensures
            r@ == shown_interface(*self),
    {
        if self.description.as_str().unicode_len() == 0 {
            self.name.as_str().to_owned()
        } else {
            self.description.as_str().to_owned()
        }
    }

    fn is_usable(&self) -> (r: bool)
        ensures
            r == may_capture(*self),
    {
        !self.loopback && !has_part(self.name.as_str(), "Loopback") && starts_with(
            self.name.as_str(),
            "\\Device\\NPF_",
        )
    }

    fn is_wifi(&self) -> (r: bool)
        ensures
            r == is_wireless(*self),
    {
        let lower = lower_case(self.description.as_str());
        self.is_usable() && self.has_address && (has_part(lower.as_str(), "wi-fi") || has_part(
            lower.as_str(),
            "wireless",
        ))
    }
}

/// The name under which the interface with a given name is shown.
pub fn label_of(list: &Vec<CaptureInterface>, name: &str) -> (r: String)
    ensures
        r@ == interface_label(list@, name@, 0),
{
    let mut i: usize = 0;
    while i < list.len()
        invariant
            i <= list@.len(),
            interface_label(list@, name@, 0) == interface_label(list@, name@, i as int),
        decreases list@.len() - i,
    {
        if same(list[i].name.as_str(), name) || has_part(name, list[i].name.as_str()) {
            return list[i].label();
        }
        i = i + 1;
    }
    name.to_owned()
}

/// The interface that is chosen where none is named: a wireless one with an
/// address, or else the first capture device.
pub fn pick_interface(list: &Vec<CaptureInterface>) -> (r: Option<usize>)
    ensures
        match r {
            Some(i) => chosen_interface(list@) == Some(i as int) && i < list@.len(),
            None => chosen_interface(list@) is None,
        },
{
    let mut i: usize = 0;
    while i < list.len()
        invariant
            i <= list@.len(),
            wireless_from(list@, 0) == wireless_from(list@, i as int),
        decreases list@.len() - i,
    {
        if list[i].is_wifi() {
            return Some(i);
        }
        i = i + 1;
    }
    let mut j: usize = 0;
    while j < list.len()
        invariant
            j <= list@.len(),
            wireless_from(list@, 0) is None,
            capture_from(list@, 0) == capture_from(list@, j as int),
        decreases list@.len() - j,
    {
        if list[j].is_usable() {
            return Some(j);
        }
        j = j + 1;
    }
    None
}

// ---------------------------------------------------------------------------
// What keys, packets and replies do
// ---------------------------------------------------------------------------

/// The keys of the monitor while no text is entered, in small letters and in
/// capitals; only a scan asks for the Alt key.
pub proof fn law_keys(alt: bool, control: bool)
    ensures
        normal_char('p', alt) == Command::TogglePause,
        normal_char('P', alt) == Command::TogglePause,
        normal_char('f', alt) == Command::NextFilter,
        normal_char('F', alt) == Command::NextFilter,
        normal_char('c', alt) == Command::ClearAlerts,
        normal_char('C', alt) == Command::ClearAlerts,
        normal_char('g', alt) == Command::ToggleGraph,
        normal_char('G', alt) == Command::ToggleGraph,
        normal_char('e', alt) == Command::BeginExport,
        normal_char('E', alt) == Command::BeginExport,
        normal_char('w', alt) == Command::BeginWhitelist,
        normal_char('W', alt) == Command::BeginWhitelist,
        normal_char('i', alt) == Command::ToggleShort,
        normal_char('I', alt) == Command::ToggleShort,
        normal_char('a', alt) == Command::ToggleRescan,
        normal_char('A', alt) == Command::ToggleRescan,
        normal_char('n', alt) == Command::NextNode,
        normal_char('N', alt) == Command::NextNode,
        normal_char('q', alt) == Command::Quit,
        normal_char('Q', alt) == Command::Quit,
        normal_char(' ', alt) == Command::Resume,
        normal_char('s', true) == Command::Scan,
        normal_char('S', true) == Command::Scan,
        normal_char('s', false) == Command::Nothing,
        normal_char('S', false) == Command::Nothing,
        forall|c: char|
            (c < 'A' || 'Z' < c < 'a' || 'z' < c) && c != ' ' ==> #[trigger] normal_char(c, alt)
                == Command::Nothing,
        forall|p: Press|
            #![trigger command(InputMode::Normal, p)]
            {
                &&& p.key matches KeyCode::Char(c) ==> command(InputMode::Normal, p) == normal_char(
                    c,
                    p.alt,
                )
                &&& p.key == KeyCode::Tab ==> command(InputMode::Normal, p) == Command::NextPanel
                &&& p.key == KeyCode::Up ==> command(InputMode::Normal, p) == Command::ScrollUp
                &&& p.key == KeyCode::Down ==> command(InputMode::Normal, p) == Command::ScrollDown
                &&& p.key == KeyCode::Esc ==> command(InputMode::Normal, p) == Command::ClearNode
            },
{
}

/// The keys while text is entered: they change the text, take it or leave it.
pub proof fn law_typing_keys(mode: InputMode, p: Press)
    requires
        mode != InputMode::Normal,
    ensures
        p.key == KeyCode::Esc ==> command(mode, p) == Command::Cancel,
        p.key == KeyCode::Enter ==> command(mode, p) == Command::Submit,
        p.key == KeyCode::Backspace ==> command(mode, p) == Command::Erase,
        p.key matches KeyCode::Char(c) ==> {
            let clears = c == 'a' || c == 'A' || c == 'u' || c == 'U' || c == 'w' || c == 'W' || c
                == 'x' || c == 'X';
            &&& p.control && clears ==> command(mode, p) == Command::ClearInput
            &&& !p.control || !clears ==> command(mode, p) == Command::Type(c)
        },
{
}

/// A scan of its own is due three minutes after the last one, once there was
/// one, while they are switched on.
pub proof fn law_rescan_due(ui: Ui, now: u64)
    requires
        ui.last_auto_scan <= now,
    ensures
        rescan_due(ui, now) <==> ui.auto_scan_enabled && ui.scan_has_run && now - ui.last_auto_scan
            >= 180_000_000_000,
{
}

/// The place of an address is asked for when it is one of the public network
/// that was not asked for, while fewer than five are asked for.
pub proof fn law_places_asked(places: Map<IpAddr, GeoView>, in_flight: usize, n: u32)
    ensures
        ({
            let ip = IpAddr::V4(n);
            let own = 0x0A00_0000 <= n <= 0x0AFF_FFFF || 0xAC10_0000 <= n <= 0xAC1F_FFFF
                || 0xC0A8_0000 <= n <= 0xC0A8_FFFF || 0xA9FE_0000 <= n <= 0xA9FE_FFFF || 0x7F00_0000
                <= n <= 0x7FFF_FFFF || 0xE000_0000 <= n <= 0xEFFF_FFFF || n == 0xFFFF_FFFF;
            let free = n <= 0x00FF_FFFF || 0x6440_0000 <= n <= 0x647F_FFFF || 0xF000_0000 <= n;
            place_wanted(places, in_flight, ip) <==> !own && !free && !places.dom().contains(ip)
                && in_flight < 5
        }),
{
    net::law_local_ranges(n, 0);
    net::law_at_home_ranges(n);
    net::law_unassigned_ranges(n);
}

/// An address of this network that was overheard is known from then on: a new
/// one without a name, one that is known as seen again.
pub proof fn law_overheard_remembered(
    m: Map<IpAddr, InfoView>,
    n: u32,
    mac: Seq<char>,
    maker: Seq<char>,
    now: Moment,
)
    ensures
        ({
            let ip = IpAddr::V4(n);
            let local = 0x0A00_0000 <= n <= 0x0AFF_FFFF || 0xAC10_0000 <= n <= 0xAC1F_FFFF
                || 0xC0A8_0000 <= n <= 0xC0A8_FFFF || 0xA9FE_0000 <= n <= 0xA9FE_FFFF;
            let after = overheard(m, ip, mac, maker, now);
            let d = after[ip];
            &&& !local ==> after == m
            &&& local ==> after.dom().contains(ip) && d.miss_count == 0 && d.last_seen == now.steady
                && d.last_seen_unix == now.unix
            &&& local && !m.dom().contains(ip) ==> d.mac == mac && d.vendor == maker && d.hostname
                == "\u{2014}"@
            &&& local && m.dom().contains(ip) ==> d.mac == m[ip].mac && d.vendor == m[ip].vendor
                && d.hostname == m[ip].hostname
        }),
{
    net::law_local_ranges(n, 0);
}

/// A device without a name takes the one that it was overheard by.
pub proof fn law_heard_names_taken(
    active: Map<IpAddr, InfoView>,
    passive: Map<IpAddr, InfoView>,
    ip: IpAddr,
)
    requires
        active.dom().contains(ip),
    ensures
        ({
            let old = active[ip].hostname;
            let heard = passive[ip].hostname;
            let none = old == "Resolving..."@ || old == "\u{2014}"@ || old.len() == 0;
            let tells = passive.dom().contains(ip) && heard != "Resolving..."@ && heard
                != "\u{2014}"@ && heard.len() > 0;
            let new = with_heard_names(active, passive)[ip];
            &&& none && tells ==> new.hostname == heard
            &&& !none || !tells ==> new == active[ip]
            &&& new.mac == active[ip].mac
            &&& new.vendor == active[ip].vendor
        }),
{
}

/// What a client of DHCP asks for is kept of its address, and the system that
/// it tells is surer than any guess by packets.
pub proof fn law_client_options_kept(n: NamesView, p: PacketView, src: u32, options: Seq<char>)
    requires
        p.src_ip == IpAddr::V4(src),
        p.dhcp_fingerprint == Some(options),
    ensures
        ({
            let after = names_with_dhcp(n, p);
            let old = n.os_fingerprints;
            let surer = old.dom().contains(p.src_ip) && old[p.src_ip].1 >= 200;
            &&& src == 0 ==> after == n
            &&& src != 0 ==> after.dhcp_fingerprints == n.dhcp_fingerprints.insert(p.src_ip, options)
            &&& src != 0 && dhcp::dhcp_class(options) is Some && !surer ==> {
                let (tag, what) = dhcp::dhcp_class(options)->0;
                after.os_fingerprints == old.insert(p.src_ip, (tag, 200u8))
            }
            &&& src != 0 && (dhcp::dhcp_class(options) is None || surer) ==> after.os_fingerprints
                == old
            &&& after.dns_cache == n.dns_cache
        }),
{
}

/// The interface that is captured on: the first wireless one with an address,
/// and without one the first that packets can be captured on.
pub proof fn law_capture_interface(list: Seq<CaptureInterface>, j: int)
    requires
        0 <= j < list.len(),
    ensures
        ({
            let usable = !list[j].loopback && !text::contains(list[j].name@, "Loopback"@)
                && text::starts(list[j].name@, "\\Device\\NPF_"@);
            let lower = text::lowered(list[j].description@);
            let wireless = usable && list[j].has_address && (text::contains(lower, "wi-fi"@)
                || text::contains(lower, "wireless"@));
            let i = chosen_interface(list)->0;
            &&& usable ==> chosen_interface(list) is Some && 0 <= i < list.len()
            &&& wireless ==> is_wireless(list[i]) && i <= j
            &&& usable && !is_wireless(list[i]) ==> may_capture(list[i]) && i <= j
        }),
{
    lemma_wireless(list, 0, j);
    lemma_capture(list, 0, j);
}

proof fn lemma_wireless(list: Seq<CaptureInterface>, from: int, j: int)
    requires
        0 <= from,
    ensures
        match wireless_from(list, from) {
            Some(i) => from <= i < list.len() && is_wireless(list[i]) && (from <= j < list.len()
                && is_wireless(list[j]) ==> i <= j),
            None => from <= j < list.len() ==> !is_wireless(list[j]),
        },
    decreases list.len() - from,
{
    if from < list.len() && !is_wireless(list[from]) {
        lemma_wireless(list, from + 1, j);
    }
}

proof fn lemma_capture(list: Seq<CaptureInterface>, from: int, j: int)
    requires
        0 <= from,
    ensures
        match capture_from(list, from) {
            Some(i) => from <= i < list.len() && may_capture(list[i]) && (from <= j < list.len()
                && may_capture(list[j]) ==> i <= j),
            None => from <= j < list.len() ==> !may_capture(list[j]),
        },
    decreases list.len() - from,
{
    if from < list.len() && !may_capture(list[from]) {
        lemma_capture(list, from + 1, j);
    }
}

/// An interface is shown by its description, and without one by its name.
pub proof fn law_interfaces_shown(i: CaptureInterface)
    ensures
        i.description@.len() > 0 ==> shown_interface(i) == i.description@,
        i.description@.len() == 0 ==> shown_interface(i) == i.name@,
        interface_label(seq![i], i.name@, 0) == shown_interface(i),
{
}

} // verus!
