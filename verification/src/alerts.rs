//! Alerts: what is worth telling, sorted into tiers, each of which keeps its
//! newest alerts.

use vstd::prelude::*;
use vstd::string::*;

use crate::net::IpAddr;
use crate::text;
use crate::text::has_part;

verus! {

/// How urgent an alert is.
#[derive(Clone, Copy, Debug, PartialEq, Eq, Structural)]
pub enum AlertLevel {
    Warn,
    Info,
}

/// The tier that an alert is sorted into.
#[derive(Clone, Copy, Debug, PartialEq, Eq, Structural)]
pub enum AlertTier {
    Suspicious,
    Behavioral,
    External,
    Noise,
}

/// Why an alert was raised.
#[derive(Clone, Copy, Debug, PartialEq, Eq, Structural)]
pub enum AlertReason {
    SuspiciousFlags,
    SensitivePort,
    InboundExternal,
    HighVolume,
    OutboundPublic,
    LocalBroadcast,
}

/// Which alerts are shown.
#[derive(Clone, Copy, Debug, PartialEq, Eq, Structural)]
pub enum AlertFilter {
    All,
    Suspicious,
    Behavioral,
    External,
    Noise,
}

/// An alert.
pub struct Alert {
    /// When the alert was raised, in nanoseconds of the wall clock.
    pub timestamp: u64,
    pub message: String,
    pub level: AlertLevel,
    pub tier: AlertTier,
    pub remote_ip: Option<IpAddr>,
    pub process: Option<String>,
    pub reason: AlertReason,
}

/// An alert with its texts as character sequences.
pub struct AlertView {
    pub timestamp: u64,
    pub message: Seq<char>,
    pub level: AlertLevel,
    pub tier: AlertTier,
    pub remote_ip: Option<IpAddr>,
    pub process: Option<Seq<char>>,
    pub reason: AlertReason,
}

impl View for Alert {
    type V = AlertView;

    open spec fn view(&self) -> AlertView {
        AlertView {
            timestamp: self.timestamp,
            message: self.message@,
            level: self.level,
            tier: self.tier,
            remote_ip: self.remote_ip,
            process: text::text_view(self.process),
            reason: self.reason,
        }
    }
}

/// The views of alerts.
pub open spec fn alert_views(s: Seq<Alert>) -> Seq<AlertView> {
    Seq::new(s.len(), |i: int| s[i]@)
}

/// The number of alerts that a tier keeps.
pub const TIER_LIMIT: usize = 2000;

/// The alerts that were raised, oldest first, and how many there were.
pub struct AlertLog {
    pub suspicious: Vec<Alert>,
    pub behavioral: Vec<Alert>,
    pub external: Vec<Alert>,
    pub noise: Vec<Alert>,
    pub total: u64,
    pub total_suspicious: u64,
    pub total_behavioral: u64,
    pub total_external: u64,
    pub total_noise: u64,
    /// How far the list is scrolled back from its newest alert.
    pub scroll: usize,
    /// Whether the list stays where it is when alerts come in.
    pub paused_scroll: bool,
}

/// The alerts that were raised, with texts as character sequences.
pub struct LogView {
    pub suspicious: Seq<AlertView>,
    pub behavioral: Seq<AlertView>,
    pub external: Seq<AlertView>,
    pub noise: Seq<AlertView>,
    pub total: u64,
    pub total_suspicious: u64,
    pub total_behavioral: u64,
    pub total_external: u64,
    pub total_noise: u64,
    pub scroll: usize,
    pub paused_scroll: bool,
}

impl View for AlertLog {
    type V = LogView;

    open spec fn view(&self) -> LogView {
        LogView {
            suspicious: alert_views(self.suspicious@),
            behavioral: alert_views(self.behavioral@),
            external: alert_views(self.external@),
            noise: alert_views(self.noise@),
            total: self.total,
            total_suspicious: self.total_suspicious,
            total_behavioral: self.total_behavioral,
            total_external: self.total_external,
            total_noise: self.total_noise,
            scroll: self.scroll,
            paused_scroll: self.paused_scroll,
        }
    }
}

/// A tier with one more alert: beyond the limit the oldest goes.
pub open spec fn tier_with(v: Seq<AlertView>, a: AlertView) -> Seq<AlertView> {
    if v.len() + 1 > TIER_LIMIT {
        v.push(a).drop_first()
    } else {
        v.push(a)
    }
}

/// A scroll position one further back.
pub open spec fn one_back(scroll: usize) -> usize {
    if scroll < usize::MAX {
        (scroll + 1) as usize
    } else {
        scroll
    }
}

impl LogView {
    /// There is room for `n` more alerts to be counted.
    pub open spec fn room(self, n: nat) -> bool {
        &&& self.total + n <= u64::MAX
        &&& self.total_suspicious + n <= u64::MAX
        &&& self.total_behavioral + n <= u64::MAX
        &&& self.total_external + n <= u64::MAX
        &&& self.total_noise + n <= u64::MAX
    }

    /// The log with one more alert.
    pub open spec fn with(self, a: AlertView) -> LogView {
        let total = (self.total + 1) as u64;
        let scroll = if self.paused_scroll { one_back(self.scroll) } else { self.scroll };
        match a.tier {
            AlertTier::Suspicious => LogView {
                suspicious: tier_with(self.suspicious, a),
                total_suspicious: (self.total_suspicious + 1) as u64,
                total,
                scroll,
                ..self
            },
            AlertTier::Behavioral => LogView {
                behavioral: tier_with(self.behavioral, a),
                total_behavioral: (self.total_behavioral + 1) as u64,
                total,
                scroll,
                ..self
            },
            AlertTier::External => LogView {
                external: tier_with(self.external, a),
                total_external: (self.total_external + 1) as u64,
                total,
                scroll,
                ..self
            },
            AlertTier::Noise => LogView {
                noise: tier_with(self.noise, a),
                total_noise: (self.total_noise + 1) as u64,
                total,
                scroll,
                ..self
            },
        }
    }

    /// The log with several more alerts, in their order.
    pub open spec fn with_all(self, s: Seq<AlertView>) -> LogView
        decreases s.len(),
    {
        if s.len() == 0 {
            self
        } else {
            self.with_all(s.drop_last()).with(s.last())
        }
    }

    /// No tier holds more alerts than it may.
    pub open spec fn bounded(self) -> bool {
        &&& self.suspicious.len() <= TIER_LIMIT
        &&& self.behavioral.len() <= TIER_LIMIT
        &&& self.external.len() <= TIER_LIMIT
        &&& self.noise.len() <= TIER_LIMIT
    }

    /// The alerts of every tier were counted once in all and once in the tier.
    pub open spec fn counted(self) -> bool {
        self.total == self.total_suspicious + self.total_behavioral + self.total_external
            + self.total_noise
    }

    /// No tier holds more alerts than were counted in it.
    pub open spec fn within_totals(self) -> bool {
        &&& self.suspicious.len() <= self.total_suspicious
        &&& self.behavioral.len() <= self.total_behavioral
        &&& self.external.len() <= self.total_external
        &&& self.noise.len() <= self.total_noise
    }
}

/// However many alerts come in, no tier holds more than it may.
pub proof fn law_tiers_bounded(log: LogView, s: Seq<AlertView>)
    requires
        log.bounded(),
    ensures
        log.with_all(s).bounded(),
    decreases s.len(),
{
    if s.len() > 0 {
        law_tiers_bounded(log, s.drop_last());
    }
}

/// An alert is counted once in all and once in its tier, and in no other.
pub proof fn law_alert_counted_once(log: LogView, a: AlertView)
    requires
        log.room(1),
    ensures
        log.with(a).total == log.total + 1,
        log.with(a).total_suspicious == log.total_suspicious + (if a.tier == AlertTier::Suspicious {
            1int
        } else {
            0
        }),
        log.with(a).total_behavioral == log.total_behavioral + (if a.tier == AlertTier::Behavioral {
            1int
        } else {
            0
        }),
        log.with(a).total_external == log.total_external + (if a.tier == AlertTier::External {
            1int
        } else {
            0
        }),
        log.with(a).total_noise == log.total_noise + (if a.tier == AlertTier::Noise {
            1int
        } else {
            0
        }),
{
}

proof fn lemma_room_after(log: LogView, s: Seq<AlertView>, n: nat)
    requires
        log.room(s.len() + n),
    ensures
        log.with_all(s).room(n),
    decreases s.len(),
{
    if s.len() > 0 {
        lemma_room_after(log, s.drop_last(), n + 1);
    }
}

/// The count of all alerts is the sum of the counts of the tiers, from the
/// empty log on, whatever comes in, is cleared or is taken out.
pub proof fn law_totals_add_up(log: LogView, s: Seq<AlertView>, text: Seq<char>)
    requires
        log.counted(),
        log.room(s.len()),
    ensures
        empty_log().counted(),
        log.with_all(s).counted(),
        log.cleared().counted(),
        log.without(text).counted(),
    decreases s.len(),
{
    if s.len() > 0 {
        law_totals_add_up(log, s.drop_last(), text);
        lemma_room_after(log, s.drop_last(), 1);
    }
}

/// No tier holds more alerts than were counted in it, from the empty log on,
/// whatever comes in, is cleared or is taken out.
pub proof fn law_lists_within_totals(log: LogView, s: Seq<AlertView>, text: Seq<char>)
    requires
        log.within_totals(),
        log.room(s.len()),
    ensures
        empty_log().within_totals(),
        log.with_all(s).within_totals(),
        log.cleared().within_totals(),
        log.without(text).within_totals(),
    decreases s.len(),
{
    broadcast use Seq::lemma_filter_len;

    if s.len() > 0 {
        law_lists_within_totals(log, s.drop_last(), text);
        lemma_room_after(log, s.drop_last(), 1);
    }
}

/// The newest alert of a tier is the one that came in last.
pub proof fn law_newest_last(log: LogView, a: AlertView)
    ensures
        a.tier == AlertTier::Suspicious ==> log.with(a).suspicious.last() == a,
        a.tier == AlertTier::Behavioral ==> log.with(a).behavioral.last() == a,
        a.tier == AlertTier::External ==> log.with(a).external.last() == a,
        a.tier == AlertTier::Noise ==> log.with(a).noise.last() == a,
{
}

/// Several alerts after several others are all of them in a row.
pub proof fn lemma_with_all_add(log: LogView, s: Seq<AlertView>, t: Seq<AlertView>)
    ensures
        log.with_all(s).with_all(t) == log.with_all(s + t),
    decreases t.len(),
{
    if t.len() == 0 {
        assert(s + t =~= s);
    } else {
        lemma_with_all_add(log, s, t.drop_last());
        assert((s + t).drop_last() =~= s + t.drop_last());
        assert((s + t).last() == t.last());
    }
}

/// One alert after several others.
pub proof fn lemma_with_all_push(log: LogView, s: Seq<AlertView>, a: AlertView)
    ensures
        log.with_all(s.push(a)) == log.with_all(s).with(a),
{
    assert(s.push(a).drop_last() =~= s);
}

/// What is left to count after alerts came in.
pub proof fn lemma_room(log: LogView, a: AlertView, n: nat)
    requires
        log.room(n + 1),
    ensures
        log.with(a).room(n),
{
}

fn push_tier(v: &mut Vec<Alert>, a: Alert)
    ensures
        alert_views(final(v)@) == tier_with(alert_views(old(v)@), a@),
{
    v.push(a);
    assert(alert_views(v@) =~= alert_views(old(v)@).push(a@));
    if v.len() > TIER_LIMIT {
        let ghost full = v@;
        let gone = v.remove(0);
        assert(alert_views(v@) =~= alert_views(full).drop_first());
    }
}

/// The alerts whose message does not have `text` in it.
pub open spec fn without_text(v: Seq<AlertView>, text: Seq<char>) -> Seq<AlertView> {
    v.filter(|a: AlertView| !text::contains(a.message, text))
}

fn keep_without(v: &mut Vec<Alert>, text: &str)
    ensures
        alert_views(final(v)@) == without_text(alert_views(old(v)@), text@),
{
    broadcast use Seq::lemma_filter_push;

    let mut all: Vec<Alert> = Vec::new();
    std::mem::swap(&mut all, v);
    let ghost before = alert_views(all@);
    let ghost pred = |a: AlertView| !text::contains(a.message, text@);
    let mut kept: Vec<Alert> = Vec::new();
    let ghost mut seen: Seq<AlertView> = Seq::empty();
    assert(alert_views(kept@) =~= seen.filter(pred)) by {
        reveal_with_fuel(Seq::filter, 1);
        assert(seen.filter(pred) =~= Seq::empty());
    }
    while all.len() > 0
        invariant
            seen + alert_views(all@) == before,
            alert_views(kept@) == seen.filter(pred),
            pred == (|a: AlertView| !text::contains(a.message, text@)),
        decreases all@.len(),
    {
        let ghost rest = all@;
        let a = all.remove(0);
        proof {
            assert(alert_views(rest)[0] == a@);
            assert(seen.push(a@) + alert_views(all@) =~= seen + alert_views(rest));
            seen.lemma_filter_push(a@, pred);
        }
        let ghost old_kept = kept@;
        if !has_part(a.message.as_str(), text) {
            assert(pred(a@));
            kept.push(a);
            assert(alert_views(kept@) =~= alert_views(old_kept).push(a@));
        } else {
            assert(!pred(a@));
        }
        proof {
            seen = seen.push(a@);
        }
    }
    assert(seen =~= before);
    *v = kept;
}

impl AlertLog {
    /// A log without alerts.
    pub fn new() -> (r: AlertLog)
        ensures
            r@ == empty_log(),
    {
        let r = AlertLog {
            suspicious: Vec::new(),
            behavioral: Vec::new(),
            external: Vec::new(),
            noise: Vec::new(),
            total: 0,
            total_suspicious: 0,
            total_behavioral: 0,
            total_external: 0,
            total_noise: 0,
            scroll: 0,
            paused_scroll: false,
        };
        assert(r@.suspicious =~= Seq::empty());
        assert(r@.behavioral =~= Seq::empty());
        assert(r@.external =~= Seq::empty());
        assert(r@.noise =~= Seq::empty());
        r
    }

    /// Adds an alert to its tier.
    pub fn push(&mut self, alert: Alert)
        requires
            old(self)@.room(1),
        ensures
            final(self)@ == old(self)@.with(alert@),
    {
        self.total = self.total + 1;
        match alert.tier {
            AlertTier::Suspicious => {
                self.total_suspicious = self.total_suspicious + 1;
                push_tier(&mut self.suspicious, alert);
            },
            AlertTier::Behavioral => {
                self.total_behavioral = self.total_behavioral + 1;
                push_tier(&mut self.behavioral, alert);
            },
            AlertTier::External => {
                self.total_external = self.total_external + 1;
                push_tier(&mut self.external, alert);
            },
            AlertTier::Noise => {
                self.total_noise = self.total_noise + 1;
                push_tier(&mut self.noise, alert);
            },
        }
        if self.paused_scroll {
            self.scroll = self.scroll.saturating_add(1);
        }
    }

    /// Adds several alerts, in their order.
    pub fn push_all(&mut self, alerts: Vec<Alert>)
        requires
            old(self)@.room(alerts@.len()),
        ensures
            final(self)@ == old(self)@.with_all(alert_views(alerts@)),
    {
        let mut rest = alerts;
        let ghost all = alert_views(rest@);
        let ghost mut done: Seq<AlertView> = Seq::empty();
        let ghost start = self@;
        while rest.len() > 0
            invariant
                done + alert_views(rest@) == all,
                self@ == start.with_all(done),
                self@.room(rest@.len()),
            decreases rest@.len(),
        {
            let ghost before = rest@;
            let a = rest.remove(0);
            proof {
                assert(alert_views(before)[0] == a@);
                assert(done.push(a@) + alert_views(rest@) =~= done + alert_views(before));
                lemma_with_all_push(start, done, a@);
                lemma_room(self@, a@, rest@.len());
                done = done.push(a@);
            }
            self.push(a);
        }
        assert(done =~= all);
    }

    /// Takes all alerts away; the counts stay.
    pub fn clear(&mut self)
        ensures
            final(self)@ == old(self)@.cleared(),
    {
        self.suspicious = Vec::new();
        self.behavioral = Vec::new();
        self.external = Vec::new();
        self.noise = Vec::new();
        assert(self@.suspicious =~= Seq::empty());
        assert(self@.behavioral =~= Seq::empty());
        assert(self@.external =~= Seq::empty());
        assert(self@.noise =~= Seq::empty());
    }

    /// Takes away the alerts whose message has `text` in it.
    pub fn drop_text(&mut self, text: &str)
        ensures
            final(self)@ == old(self)@.without(text@),
    {
        keep_without(&mut self.suspicious, text);
        keep_without(&mut self.behavioral, text);
        keep_without(&mut self.external, text);
        keep_without(&mut self.noise, text);
    }

    /// The number of alerts that a filter shows.
    pub fn shown(&self, filter: AlertFilter) -> (r: usize)
        requires
            self@.shown(AlertFilter::All) <= usize::MAX,
        ensures
            r == self@.shown(filter),
    {
        match filter {
            AlertFilter::All => self.suspicious.len() + self.behavioral.len() + self.external.len()
                + self.noise.len(),
            AlertFilter::Suspicious => self.suspicious.len(),
            AlertFilter::Behavioral => self.behavioral.len(),
            AlertFilter::External => self.external.len(),
            AlertFilter::Noise => self.noise.len(),
        }
    }
}

/// The log without alerts.
pub open spec fn empty_log() -> LogView {
    LogView {
        suspicious: Seq::empty(),
        behavioral: Seq::empty(),
        external: Seq::empty(),
        noise: Seq::empty(),
        total: 0,
        total_suspicious: 0,
        total_behavioral: 0,
        total_external: 0,
        total_noise: 0,
        scroll: 0,
        paused_scroll: false,
    }
}

impl LogView {
    /// The log with no alerts left.
    pub open spec fn cleared(self) -> LogView {
        LogView {
            suspicious: Seq::empty(),
            behavioral: Seq::empty(),
            external: Seq::empty(),
            noise: Seq::empty(),
            ..self
        }
    }

    /// The log without the alerts whose message has `text` in it.
    pub open spec fn without(self, text: Seq<char>) -> LogView {
        LogView {
            suspicious: without_text(self.suspicious, text),
            behavioral: without_text(self.behavioral, text),
            external: without_text(self.external, text),
            noise: without_text(self.noise, text),
            ..self
        }
    }

    /// The number of alerts that a filter shows.
    pub open spec fn shown(self, filter: AlertFilter) -> nat {
        match filter {
            AlertFilter::All => self.suspicious.len() + self.behavioral.len() + self.external.len()
                + self.noise.len(),
            AlertFilter::Suspicious => self.suspicious.len(),
            AlertFilter::Behavioral => self.behavioral.len(),
            AlertFilter::External => self.external.len(),
            AlertFilter::Noise => self.noise.len(),
        }
    }
}

/// An alert goes to the end of the list of its tier and is counted there and in
/// all; a list of two thousand loses its oldest alert. Other tiers stay.
pub proof fn law_alert_joins_tier(log: LogView, a: AlertView)
    requires
        log.suspicious.len() <= 2000 && log.behavioral.len() <= 2000,
        log.total < u64::MAX && log.total_suspicious < u64::MAX && log.total_behavioral < u64::MAX,
        log.total_external < u64::MAX && log.total_noise < u64::MAX,
    ensures
        log.with(a).total == log.total + 1,
        a.tier == AlertTier::Suspicious ==> {
            &&& log.suspicious.len() < 2000 ==> log.with(a).suspicious == log.suspicious.push(a)
            &&& log.suspicious.len() == 2000 ==> log.with(a).suspicious == log.suspicious.skip(1).push(
                a,
            )
            &&& log.with(a).total_suspicious == log.total_suspicious + 1
            &&& log.with(a).behavioral == log.behavioral
            &&& log.with(a).external == log.external
            &&& log.with(a).noise == log.noise
        },
        a.tier == AlertTier::Behavioral ==> {
            &&& log.behavioral.len() < 2000 ==> log.with(a).behavioral == log.behavioral.push(a)
            &&& log.behavioral.len() == 2000 ==> log.with(a).behavioral == log.behavioral.skip(1).push(
                a,
            )
            &&& log.with(a).total_behavioral == log.total_behavioral + 1
            &&& log.with(a).suspicious == log.suspicious
            &&& log.with(a).external == log.external
            &&& log.with(a).noise == log.noise
        },
        a.tier == AlertTier::External ==> log.with(a).total_external == log.total_external + 1
            && log.with(a).external.len() > 0 && log.with(a).external.last() == a,
        a.tier == AlertTier::Noise ==> log.with(a).total_noise == log.total_noise + 1
            && log.with(a).noise.len() > 0 && log.with(a).noise.last() == a,
{
}

/// A list that is scrolled keeps its place when an alert comes: it is scrolled
/// one further.
pub proof fn law_scrolled_alerts_keep_place(log: LogView, a: AlertView)
    ensures
        log.paused_scroll && log.scroll < usize::MAX ==> log.with(a).scroll == log.scroll + 1,
        !log.paused_scroll ==> log.with(a).scroll == log.scroll,
{
}

/// Clearing leaves no alert in the lists and forgets none that was counted.
pub proof fn law_cleared(log: LogView)
    ensures
        log.cleared().suspicious.len() == 0,
        log.cleared().behavioral.len() == 0,
        log.cleared().external.len() == 0,
        log.cleared().noise.len() == 0,
        log.cleared().total == log.total,
        log.cleared().total_suspicious == log.total_suspicious,
        log.cleared().total_behavioral == log.total_behavioral,
        log.cleared().total_external == log.total_external,
        log.cleared().total_noise == log.total_noise,
{
}

} // verus!
