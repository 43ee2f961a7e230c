//! What the keys of the screen do: choosing panels and filters, scrolling, and
//! silencing addresses.

use vstd::prelude::*;
use vstd::string::*;

use crate::alerts;
use crate::alerts::{Alert, AlertFilter, AlertLog, AlertView};
use crate::device::{DetailsView, InfoView};
use crate::flows;
use crate::flows::Flows;
use crate::names;
use crate::names::Names;
use crate::net;
use crate::net::{IpAddr, ip_string};
use crate::packet::ProtocolFilter;
use crate::process::ProcessCache;
use crate::state;
use crate::state::{
    AppState, Devices, DiscoveryFilter, Feeds, Graph, GraphNode, InputMode, Panel, TrafficView,
    Ui,
};
use crate::table::{KeySet, Table};
use crate::text;
use crate::text::same;
use crate::traffic;
use crate::traffic::Counters;
use crate::watch;
use crate::watch::Watch;

verus! {

/// The protocol filter after another.
pub open spec fn next_protocol(f: ProtocolFilter) -> ProtocolFilter {
    match f {
        ProtocolFilter::All => ProtocolFilter::Tcp,
        ProtocolFilter::Tcp => ProtocolFilter::Udp,
        ProtocolFilter::Udp => ProtocolFilter::Icmp,
        ProtocolFilter::Icmp => ProtocolFilter::All,
    }
}

/// The alert filter after another.
pub open spec fn next_alerts(f: AlertFilter) -> AlertFilter {
    match f {
        AlertFilter::All => AlertFilter::Suspicious,
        AlertFilter::Suspicious => AlertFilter::Behavioral,
        AlertFilter::Behavioral => AlertFilter::External,
        AlertFilter::External => AlertFilter::Noise,
        AlertFilter::Noise => AlertFilter::All,
    }
}

/// The device filter after another.
pub open spec fn next_devices(f: DiscoveryFilter) -> DiscoveryFilter {
    match f {
        DiscoveryFilter::All => DiscoveryFilter::Named,
        DiscoveryFilter::Named => DiscoveryFilter::Vendors,
        DiscoveryFilter::Vendors => DiscoveryFilter::Unknown,
        DiscoveryFilter::Unknown => DiscoveryFilter::All,
    }
}

/// The panel after another.
pub open spec fn next_panel(p: Panel) -> Panel {
    match p {
        Panel::Feed => Panel::Alerts,
        Panel::Alerts => Panel::Discovery,
        Panel::Discovery => Panel::Feed,
    }
}

/// Cycling a filter or the panels comes back to where it began, after as many
/// steps as there are choices.
pub proof fn law_choices_cycle(a: ProtocolFilter, b: AlertFilter, c: DiscoveryFilter, d: Panel)
    ensures
        next_protocol(next_protocol(next_protocol(next_protocol(a)))) == a,
        next_alerts(next_alerts(next_alerts(next_alerts(next_alerts(b))))) == b,
        next_devices(next_devices(next_devices(next_devices(c)))) == c,
        next_panel(next_panel(next_panel(d))) == d,
{
}

/// A scroll position one further to the newest.
pub open spec fn one_forward(scroll: usize) -> usize {
    if scroll > 0 {
        (scroll - 1) as usize
    } else {
        0
    }
}

/// One less, or zero.
pub open spec fn last_place(n: nat) -> int {
    if n > 0 {
        n - 1
    } else {
        0
    }
}

/// Scrolling back and then forward again ends where it began.
pub proof fn law_scroll_back_and_forth(scroll: usize)
    requires
        scroll < usize::MAX,
    ensures
        one_forward(alerts::one_back(scroll)) == scroll,
{
}

/// The addresses of interfaces by their names: the first IPv4 address of the
/// last interface of a name that has one.
pub open spec fn interface_ip(
    ifaces: Seq<(String, Vec<IpAddr>)>,
    name: Seq<char>,
) -> Option<IpAddr>
    decreases ifaces.len(),
{
    if ifaces.len() == 0 {
        None
    } else if ifaces.last().0@ == name && first_v4(ifaces.last().1@, 0) is Some {
        first_v4(ifaces.last().1@, 0)
    } else {
        interface_ip(ifaces.drop_last(), name)
    }
}

/// The first IPv4 address from place `i` on.
pub open spec fn first_v4(ips: Seq<IpAddr>, i: int) -> Option<IpAddr>
    decreases ips.len() - i,
{
    if i < 0 || i >= ips.len() {
        None
    } else if ips[i] is V4 {
        Some(ips[i])
    } else {
        first_v4(ips, i + 1)
    }
}

fn find_v4(ips: &Vec<IpAddr>) -> (r: Option<IpAddr>)
    ensures
        r == first_v4(ips@, 0),
{
    let n: usize = ips.len();
    for i in 0..n
        invariant
            n == ips@.len(),
            first_v4(ips@, 0) == first_v4(ips@, i as int),
    {
        if let IpAddr::V4(_) = ips[i] {
            return Some(ips[i]);
        }
    }
    None
}

/// The address of this host on an interface.
pub fn host_address(ifaces: &Vec<(String, Vec<IpAddr>)>, name: &str) -> (r: Option<IpAddr>)
    ensures
        r == interface_ip(ifaces@, name@),
{
    let mut r: Option<IpAddr> = None;
    let n: usize = ifaces.len();
    for i in 0..n
        invariant
            n == ifaces@.len(),
            r == interface_ip(ifaces@.take(i as int), name@),
    {
        assert(ifaces@.take(i + 1).drop_last() =~= ifaces@.take(i as int));
        let f = &ifaces[i];
        if same(f.0.as_str(), name) {
            if let Some(ip) = find_v4(&f.1) {
                r = Some(ip);
            }
        }
    }
    assert(ifaces@.take(n as int) =~= ifaces@);
    r
}

/// The graph at the start: the node of this host, if its address is known.
pub open spec fn first_nodes(host: Option<IpAddr>, now: u64) -> Map<IpAddr, GraphNode> {
    match host {
        Some(ip) => Map::empty().insert(ip, GraphNode { last_seen: now, pinned: true }),
        None => Map::empty(),
    }
}

impl AppState {
    /// The state before the first packet.
    pub fn new(
        interface_name: String,
        current_network: String,
        host_ip: Option<IpAddr>,
        now: u64,
    ) -> (r: AppState)
        ensures
            r.traffic() == (TrafficView {
                counters: traffic::no_counts(now),
                flows: flows::no_flows(),
                names: names::no_names(),
                profiles: Map::empty(),
                watch: watch::nothing_seen(),
                alerts: alerts::empty_log(),
                feeds: state::no_feeds(),
                nodes: first_nodes(host_ip, now),
                whitelist: Set::empty(),
                programs: Map::empty(),
                active: Map::empty(),
            }),
            r.devices.passive_discovery@ == Map::<IpAddr, InfoView>::empty(),
            r.devices.device_metadata@ == Map::<IpAddr, DetailsView>::empty(),
            r.devices.baseline is None,
            !r.graph.show_graph,
            r.graph.graph_tick == 0,
            r.graph.selected_node is None,
            r.graph.positioned_nodes@ == Seq::<IpAddr>::empty(),
            r.graph.sweep_hit_tick@ == Map::<IpAddr, u64>::empty(),
            r.ui.interface_name@ == interface_name@,
            r.ui.current_network@ == current_network@,
            r.ui.start_time == now,
            !r.ui.paused,
            r.ui.display_filter == ProtocolFilter::All,
            r.ui.alert_filter == AlertFilter::All,
            r.ui.discovery_filter == DiscoveryFilter::All,
            !r.ui.limit_reached,
            r.ui.capture_error is None,
            r.ui.focused_panel == Panel::Feed,
            r.ui.discovery_scroll == 0,
            !r.ui.discovery_paused_scroll,
            r.ui.discovery_status@ == "[ Waiting for Signal ]"@,
            r.ui.last_discovery_time@ == "--:--:--"@,
            r.ui.auto_scan_enabled,
            r.ui.last_auto_scan == now,
            !r.ui.scan_has_run,
            r.ui.ip_compressed,
            r.ui.input_mode == InputMode::Normal,
            r.ui.input_buffer@ == Seq::<char>::empty(),
            r.ui.geo_in_flight == 0,
            r.ui.footer_message is None,
    {
        let mut graph_nodes: Table<IpAddr, GraphNode> = Table::new();
        if let Some(ip) = host_ip {
            graph_nodes.insert(ip, GraphNode { last_seen: now, pinned: true });
        }
        AppState {
            counters: Counters::new(now),
            flows: Flows::new(),
            names: Names::new(),
            traffic_profiles: Table::new(),
            watch: Watch::new(),
            alerts: AlertLog::new(),
            feeds: Feeds::new(),
            graph: Graph {
                show_graph: false,
                graph_nodes,
                graph_tick: 0,
                selected_node: None,
                positioned_nodes: Vec::new(),
                sweep_hit_tick: Table::new(),
            },
            ui: Ui {
                interface_name,
                current_network,
                start_time: now,
                paused: false,
                display_filter: ProtocolFilter::All,
                alert_filter: AlertFilter::All,
                discovery_filter: DiscoveryFilter::All,
                limit_reached: false,
                capture_error: None,
                focused_panel: Panel::Feed,
                discovery_scroll: 0,
                discovery_paused_scroll: false,
                discovery_status: "[ Waiting for Signal ]".to_owned(),
                last_discovery_time: "--:--:--".to_owned(),
                auto_scan_enabled: true,
                last_auto_scan: now,
                scan_has_run: false,
                ip_compressed: true,
                input_mode: InputMode::Normal,
                input_buffer: String::new(),
                geo_in_flight: 0,
                footer_message: None,
            },
            devices: Devices {
                passive_discovery: Table::new(),
                active_discovery: Table::new(),
                device_metadata: Table::new(),
                baseline: None,
            },
            whitelist: KeySet::new(),
            process_cache: ProcessCache::new(),
        }
    }

    /// Adds an alert to its tier.
    pub fn push_alert(&mut self, alert: Alert)
        requires
            old(self).alerts@.room(1),
        ensures
            final(self).alerts@ == old(self).alerts@.with(alert@),
            *final(self) == (AppState { alerts: final(self).alerts, ..*old(self) }),
    {
        self.alerts.push(alert);
    }

    /// Takes all alerts away; the counts stay.
    pub fn clear_alerts(&mut self)
        ensures
            final(self).alerts@ == old(self).alerts@.cleared(),
            *final(self) == (AppState { alerts: final(self).alerts, ..*old(self) }),
    {
        self.alerts.clear();
    }

    /// Silences an address: it goes on the whitelist, and the alerts that
    /// speak of it go away.
    pub fn whitelist_ip(&mut self, ip: IpAddr)
        ensures
            final(self).whitelist@ == old(self).whitelist@.insert(ip),
            final(self).alerts@ == old(self).alerts@.without(net::ip_text(ip)),
            *final(self) == (AppState {
                alerts: final(self).alerts,
                whitelist: final(self).whitelist,
                ..*old(self)
            }),
    {
        self.whitelist.insert(ip);
        self.alerts.drop_text(ip_string(&ip).as_str());
    }

    /// Shows a message in the footer.
    pub fn set_footer_message(&mut self, msg: String, now: u64)
        ensures
            *final(self) == (AppState {
                ui: Ui { footer_message: Some((msg, now)), ..old(self).ui },
                ..*old(self)
            }),
    {
        self.ui.footer_message = Some((msg, now));
    }

    /// Goes on to the next filter of the chosen panel.
    pub fn cycle_filter(&mut self)
        ensures
            *final(self) == (AppState {
                ui: match old(self).ui.focused_panel {
                    Panel::Feed => Ui {
                        display_filter: next_protocol(old(self).ui.display_filter),
                        ..old(self).ui
                    },
                    Panel::Alerts => Ui {
                        alert_filter: next_alerts(old(self).ui.alert_filter),
                        ..old(self).ui
                    },
                    Panel::Discovery => Ui {
                        discovery_filter: next_devices(old(self).ui.discovery_filter),
                        ..old(self).ui
                    },
                },
                ..*old(self)
            }),
    {
        match self.ui.focused_panel {
            Panel::Feed => {
                self.ui.display_filter =
                match self.ui.display_filter {
                    ProtocolFilter::All => ProtocolFilter::Tcp,
                    ProtocolFilter::Tcp => ProtocolFilter::Udp,
                    ProtocolFilter::Udp => ProtocolFilter::Icmp,
                    ProtocolFilter::Icmp => ProtocolFilter::All,
                };
            },
            Panel::Alerts => {
                self.ui.alert_filter =
                match self.ui.alert_filter {
                    AlertFilter::All => AlertFilter::Suspicious,
                    AlertFilter::Suspicious => AlertFilter::Behavioral,
                    AlertFilter::Behavioral => AlertFilter::External,
                    AlertFilter::External => AlertFilter::Noise,
                    AlertFilter::Noise => AlertFilter::All,
                };
            },
            Panel::Discovery => {
                self.ui.discovery_filter =
                match self.ui.discovery_filter {
                    DiscoveryFilter::All => DiscoveryFilter::Named,
                    DiscoveryFilter::Named => DiscoveryFilter::Vendors,
                    DiscoveryFilter::Vendors => DiscoveryFilter::Unknown,
                    DiscoveryFilter::Unknown => DiscoveryFilter::All,
                };
            },
        }
    }

    /// Chooses the next panel.
    pub fn switch_panel(&mut self)
        ensures
            *final(self) == (AppState {
                ui: Ui { focused_panel: next_panel(old(self).ui.focused_panel), ..old(self).ui },
                ..*old(self)
            }),
    {
        self.ui.focused_panel =
        match self.ui.focused_panel {
            Panel::Feed => Panel::Alerts,
            Panel::Alerts => Panel::Discovery,
            Panel::Discovery => Panel::Feed,
        };
    }

    /// Scrolls the chosen panel back by one, as far as there is anything.
    pub fn scroll_up(&mut self)
        requires
            old(self).alerts@.shown(AlertFilter::All) <= usize::MAX,
        ensures
            *final(self) == (match old(self).ui.focused_panel {
                Panel::Feed => AppState {
                    feeds: Feeds {
                        feed_paused_scroll: true,
                        feed_scroll: alerts::one_back(old(self).feeds.feed_scroll),
                        ..old(self).feeds
                    },
                    ..*old(self)
                },
                Panel::Alerts => if old(self).alerts.scroll < last_place(
                    old(self).alerts@.shown(old(self).ui.alert_filter),
                ) {
                    AppState {
                        alerts: AlertLog {
                            paused_scroll: true,
                            scroll: alerts::one_back(old(self).alerts.scroll),
                            ..old(self).alerts
                        },
                        ..*old(self)
                    }
                } else {
                    *old(self)
                },
                Panel::Discovery => if old(self).ui.discovery_scroll < last_place(
                    old(self).devices.active_discovery@.dom().len(),
                ) {
                    AppState {
                        ui: Ui {
                            discovery_paused_scroll: true,
                            discovery_scroll: alerts::one_back(old(self).ui.discovery_scroll),
                            ..old(self).ui
                        },
                        ..*old(self)
                    }
                } else {
                    *old(self)
                },
            }),
    {
        match self.ui.focused_panel {
            Panel::Feed => {
                self.feeds.feed_paused_scroll = true;
                self.feeds.feed_scroll = self.feeds.feed_scroll.saturating_add(1);
            },
            Panel::Alerts => {
                let len: usize = self.alerts.shown(self.ui.alert_filter);
                if self.alerts.scroll < len.saturating_sub(1) {
                    self.alerts.paused_scroll = true;
                    self.alerts.scroll = self.alerts.scroll.saturating_add(1);
                }
            },
            Panel::Discovery => {
                let len: usize = self.devices.active_discovery.len();
                if self.ui.discovery_scroll < len.saturating_sub(1) {
                    self.ui.discovery_paused_scroll = true;
                    self.ui.discovery_scroll = self.ui.discovery_scroll.saturating_add(1);
                }
            },
        }
    }

    /// Scrolls the chosen panel forward by one. At the newest it runs along again.
    pub fn scroll_down(&mut self)
        ensures
            *final(self) == (match old(self).ui.focused_panel {
                Panel::Feed => AppState {
                    feeds: Feeds {
                        feed_scroll: one_forward(old(self).feeds.feed_scroll),
                        feed_paused_scroll: one_forward(old(self).feeds.feed_scroll) != 0,
                        ..old(self).feeds
                    },
                    ..*old(self)
                },
                Panel::Alerts => AppState {
                    alerts: AlertLog {
                        scroll: one_forward(old(self).alerts.scroll),
                        paused_scroll: one_forward(old(self).alerts.scroll) != 0,
                        ..old(self).alerts
                    },
                    ..*old(self)
                },
                Panel::Discovery => AppState {
                    ui: Ui {
                        discovery_scroll: one_forward(old(self).ui.discovery_scroll),
                        discovery_paused_scroll: one_forward(old(self).ui.discovery_scroll) != 0,
                        ..old(self).ui
                    },
                    ..*old(self)
                },
            }),
    {
        match self.ui.focused_panel {
            Panel::Feed => {
                self.feeds.feed_scroll = self.feeds.feed_scroll.saturating_sub(1);
                self.feeds.feed_paused_scroll = self.feeds.feed_scroll != 0;
            },
            Panel::Alerts => {
                self.alerts.scroll = self.alerts.scroll.saturating_sub(1);
                self.alerts.paused_scroll = self.alerts.scroll != 0;
            },
            Panel::Discovery => {
                self.ui.discovery_scroll = self.ui.discovery_scroll.saturating_sub(1);
                self.ui.discovery_paused_scroll = self.ui.discovery_scroll != 0;
            },
        }
    }

    /// Lets the chosen panel run along with the newest again.
    pub fn resume_scroll(&mut self)
        ensures
            *final(self) == (match old(self).ui.focused_panel {
                Panel::Feed => AppState {
                    feeds: Feeds { feed_scroll: 0, feed_paused_scroll: false, ..old(self).feeds },
                    ..*old(self)
                },
                Panel::Alerts => AppState {
                    alerts: AlertLog { scroll: 0, paused_scroll: false, ..old(self).alerts },
                    ..*old(self)
                },
                Panel::Discovery => AppState {
                    ui: Ui {
                        discovery_scroll: 0,
                        discovery_paused_scroll: false,
                        ..old(self).ui
                    },
                    ..*old(self)
                },
            }),
    {
        match self.ui.focused_panel {
            Panel::Feed => {
                self.feeds.feed_paused_scroll = false;
                self.feeds.feed_scroll = 0;
            },
            Panel::Alerts => {
                self.alerts.paused_scroll = false;
                self.alerts.scroll = 0;
            },
            Panel::Discovery => {
                self.ui.discovery_paused_scroll = false;
                self.ui.discovery_scroll = 0;
            },
        }
    }
}

/// No alert that is left after an address was silenced speaks of it.
pub proof fn law_silenced_alerts_gone(v: Seq<AlertView>, text: Seq<char>, i: int)
    requires
        0 <= i < alerts::without_text(v, text).len(),
    ensures
        !text::contains(alerts::without_text(v, text)[i].message, text),
{
    v.lemma_filter_pred(|a: AlertView| !text::contains(a.message, text), i);
}

/// The order in which the choices follow each other.
pub proof fn law_choices_in_order()
    ensures
        next_protocol(ProtocolFilter::All) == ProtocolFilter::Tcp,
        next_protocol(ProtocolFilter::Tcp) == ProtocolFilter::Udp,
        next_protocol(ProtocolFilter::Udp) == ProtocolFilter::Icmp,
        next_protocol(ProtocolFilter::Icmp) == ProtocolFilter::All,
        next_alerts(AlertFilter::All) == AlertFilter::Suspicious,
        next_alerts(AlertFilter::Suspicious) == AlertFilter::Behavioral,
        next_alerts(AlertFilter::Behavioral) == AlertFilter::External,
        next_alerts(AlertFilter::External) == AlertFilter::Noise,
        next_alerts(AlertFilter::Noise) == AlertFilter::All,
        next_devices(DiscoveryFilter::All) == DiscoveryFilter::Named,
        next_devices(DiscoveryFilter::Named) == DiscoveryFilter::Vendors,
        next_devices(DiscoveryFilter::Vendors) == DiscoveryFilter::Unknown,
        next_devices(DiscoveryFilter::Unknown) == DiscoveryFilter::All,
        next_panel(Panel::Feed) == Panel::Alerts,
        next_panel(Panel::Alerts) == Panel::Discovery,
        next_panel(Panel::Discovery) == Panel::Feed,
{
}

/// The address of an interface is the first short one of the last interface of
/// its name that has one.
pub proof fn law_address_of_interface(
    ifaces: Seq<(String, Vec<IpAddr>)>,
    one: (String, Vec<IpAddr>),
    i: int,
)
    requires
        0 <= i < one.1@.len(),
        one.1@[i] is V4,
        forall|j: int| 0 <= j < i ==> (#[trigger] one.1@[j]) is V6,
    ensures
        interface_ip(ifaces.push(one), one.0@) == Some(one.1@[i]),
{
    assert(ifaces.push(one).last() == one);
    lemma_first_v4(one.1@, 0, i);
}

proof fn lemma_first_v4(ips: Seq<IpAddr>, from: int, i: int)
    requires
        0 <= from <= i < ips.len(),
        ips[i] is V4,
        forall|j: int| from <= j < i ==> (#[trigger] ips[j]) is V6,
    ensures
        first_v4(ips, from) == Some(ips[i]),
    decreases i - from,
{
    if from < i {
        assert(ips[from] is V6);
        lemma_first_v4(ips, from + 1, i);
    }
}

} // verus!
