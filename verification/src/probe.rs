//! Asking one device what it is by multicast DNS sent to it alone: what is
//! asked, what its answers tell, and when to stop.

use vstd::prelude::*;
use vstd::string::*;

use crate::announce;
use crate::announce::{set_model, strip_local};
use crate::apple;
use crate::bytes;
use crate::device;
use crate::device::{DetailsView, DeviceDetails};
use crate::mdns;
use crate::mdns::{
    build_mdns_a_query, build_mdns_qu_query, parse_mdns_a_records, parse_mdns_service_instances,
    parse_mdns_txt_records,
};
use crate::naming;
use crate::naming::select_best_hostname;
use crate::net::IpAddr;
use crate::text;
use crate::text::{after_last, before_part, has_part, same, trim};

verus! {

/// The services that a device is asked for, in order.
pub const PROBE_SERVICES: [&'static str; 5] = [
    "_rdlink._tcp.local",
    "_companion-link._tcp.local",
    "_apple-mobdev2._tcp.local",
    "_raop._tcp.local",
    "_continuity._tcp.local",
];

/// Parts of record names and the services that they tell of.
pub const PROBE_MARKS: [(&'static str, &'static str); 4] = [
    ("_rdlink", "Rapport"),
    ("_companion-link", "Apple Companion"),
    ("_apple-mobdev2", "iPhone/iPad"),
    ("_continuity", "Continuity"),
];

/// The queries that a device is sent at first.
pub open spec fn probe_requests() -> Seq<Seq<u8>> {
    Seq::new(PROBE_SERVICES@.len(), |i: int| mdns::query(PROBE_SERVICES@[i]@, (500 + i) as u16, 12))
}

/// The queries that a device is sent at first.
pub fn probe_queries() -> (r: Vec<Vec<u8>>)
    ensures
        mdns::message_views(r@) == probe_requests(),
{
    let mut r: Vec<Vec<u8>> = Vec::new();
    let n: usize = PROBE_SERVICES.len();
    for i in 0..n
        invariant
            n == PROBE_SERVICES@.len(),
            n == 5,
            r@.len() == i,
            forall|j: int|
                0 <= j < i ==> (#[trigger] r@[j])@ == mdns::query(
                    PROBE_SERVICES@[j]@,
                    (500 + j) as u16,
                    12,
                ),
    {
        r.push(build_mdns_qu_query(PROBE_SERVICES[i], 500 + i as u16));
    }
    assert(mdns::message_views(r@) =~= probe_requests());
    r
}

/// What the answers of a device told so far, and whether it was asked for its
/// address.
pub struct Probe {
    pub hosts: Vec<String>,
    pub instances: Vec<String>,
    pub details: DeviceDetails,
    pub asked: bool,
}

/// What the answers of a device told so far.
pub struct ProbeView {
    pub hosts: Seq<Seq<char>>,
    pub instances: Seq<Seq<char>>,
    pub details: DetailsView,
    pub asked: bool,
}

impl View for Probe {
    type V = ProbeView;

    open spec fn view(&self) -> ProbeView {
        ProbeView {
            hosts: text::texts(self.hosts@),
            instances: text::texts(self.instances@),
            details: self.details@,
            asked: self.asked,
        }
    }
}

/// The host name that an address record gives.
pub open spec fn record_host(r: (Seq<char>, IpAddr)) -> Option<Seq<char>> {
    if announce::bare_name(r.0).len() > 0 {
        Some(announce::bare_name(r.0))
    } else {
        None
    }
}

/// The device that a service instance names, as it stands.
pub open spec fn plain_instance(name: Seq<char>) -> Option<Seq<char>> {
    let device = text::trimmed(text::last_piece(text::before_text(name, "._"@), '@'));
    if device.len() > 0 {
        Some(device)
    } else {
        None
    }
}

/// What is known of a device once it has answered with a property.
pub open spec fn answered(d: DetailsView, key: Seq<char>, value: Seq<char>) -> DetailsView {
    if key == "rpmd"@ || key == "model"@ || key == "wmodel"@ {
        announce::with_model(d.with("model_code"@, value), value)
    } else if key == "am"@ && d.property("model_code"@) is None {
        announce::with_model(d.with("model_code"@, value), value)
    } else {
        d
    }
}

/// What is known of a device once it has answered with properties.
pub open spec fn answered_all(d: DetailsView, pairs: Seq<(Seq<char>, Seq<char>)>) -> DetailsView
    decreases pairs.len(),
{
    if pairs.len() == 0 {
        d
    } else {
        answered(answered_all(d, pairs.drop_last()), pairs.last().0, pairs.last().1)
    }
}

/// With the first `n` services whose marks a record name bears.
pub open spec fn probe_marked(d: DetailsView, name: Seq<char>, n: int) -> DetailsView
    decreases n,
{
    if n <= 0 || n > PROBE_MARKS@.len() {
        d
    } else if text::contains(name, PROBE_MARKS@[n - 1].0@) {
        probe_marked(d, name, n - 1).offering(PROBE_MARKS@[n - 1].1@)
    } else {
        probe_marked(d, name, n - 1)
    }
}

/// What is known of a device once it has answered with text records.
pub open spec fn answered_records(
    d: DetailsView,
    records: Seq<(Seq<char>, Seq<(Seq<char>, Seq<char>)>)>,
) -> DetailsView
    decreases records.len(),
{
    if records.len() == 0 {
        d
    } else {
        probe_marked(
            answered_all(answered_records(d, records.drop_last()), records.last().1),
            records.last().0,
            PROBE_MARKS@.len() as int,
        )
    }
}

/// The query for the address of a local host.
pub open spec fn host_query(name: Seq<char>, id: u16) -> Seq<u8> {
    mdns::query(name + ".local"@, id, 1)
}

impl ProbeView {
    /// After an answer.
    pub open spec fn with_answer(self, data: Seq<u8>) -> ProbeView {
        let named = mdns::address_records(data).filter_map(
            |r: (Seq<char>, IpAddr)| record_host(r),
        );
        ProbeView {
            hosts: self.hosts + named,
            instances: self.instances + mdns::service_instances(data).filter_map(
                |n: Seq<char>| plain_instance(n),
            ),
            details: answered_records(self.details, mdns::text_records(data)),
            asked: self.asked || named.len() > 0,
        }
    }

    /// What the device is asked upon an answer: for the address of the first
    /// host that it names, once.
    pub open spec fn follow_up(self, data: Seq<u8>) -> Option<Seq<u8>> {
        let named = mdns::address_records(data).filter_map(
            |r: (Seq<char>, IpAddr)| record_host(r),
        );
        if !self.asked && named.len() > 0 {
            Some(host_query(named[0], 600))
        } else {
            None
        }
    }

    /// The name that the answers tell.
    pub open spec fn told_name(self) -> Option<Seq<char>> {
        match naming::best_name(self.hosts) {
            Some(n) => Some(n),
            None => naming::best_name(self.instances),
        }
    }

    /// What the device is asked when it no longer answers: for the address of
    /// the host that it told, once.
    pub open spec fn last_question(self) -> Option<Seq<u8>> {
        match self.told_name() {
            Some(n) if !self.asked => Some(host_query(n, 601)),
            _ => None,
        }
    }
}

/// An optional message.
pub open spec fn message_view(m: Option<Vec<u8>>) -> Option<Seq<u8>> {
    match m {
        Some(v) => Some(v@),
        None => None,
    }
}

fn ask_host(name: &str, id: u16) -> (r: Vec<u8>)
    ensures
        r@ == host_query(name@, id),
{
    let mut host = name.to_owned();
    host.append(".local");
    build_mdns_a_query(host.as_str(), id)
}

fn answer(d: &mut DeviceDetails, key: &str, value: &str)
    ensures
        final(d)@ == answered(old(d)@, key@, value@),
{
    if same(key, "rpmd") || same(key, "model") || same(key, "wmodel") {
        d.set("model_code", value);
        set_model(d, value);
    } else if same(key, "am") && d.get("model_code").is_none() {
        d.set("model_code", value);
        set_model(d, value);
    }
}

fn answer_record(d: &mut DeviceDetails, name: &str, pairs: &Vec<(String, String)>)
    ensures
        final(d)@ == probe_marked(
            answered_all(old(d)@, mdns::pair_views(pairs@)),
            name@,
            PROBE_MARKS@.len() as int,
        ),
{
    let ghost start = d@;
    let ghost views = mdns::pair_views(pairs@);
    let n: usize = pairs.len();
    for i in 0..n
        invariant
            n == pairs@.len(),
            views == mdns::pair_views(pairs@),
            d@ == answered_all(start, views.take(i as int)),
    {
        assert(views.take(i + 1).drop_last() =~= views.take(i as int));
        assert(views.take(i + 1).last() == (pairs@[i as int].0@, pairs@[i as int].1@));
        answer(d, pairs[i].0.as_str(), pairs[i].1.as_str());
    }
    assert(views.take(n as int) =~= views);
    let ghost middle = d@;
    let m: usize = PROBE_MARKS.len();
    for i in 0..m
        invariant
            m == PROBE_MARKS@.len(),
            d@ == probe_marked(middle, name@, i as int),
    {
        let entry = PROBE_MARKS[i];
        if has_part(name, entry.0) {
            d.offer(entry.1);
        }
    }
}

impl Probe {
    /// Nothing was answered yet.
    pub fn new() -> (r: Probe)
        ensures
            r@ == (ProbeView {
                hosts: Seq::empty(),
                instances: Seq::empty(),
                details: device::no_details(),
                asked: false,
            }),
    {
        let r = Probe {
            hosts: Vec::new(),
            instances: Vec::new(),
            details: DeviceDetails::default(),
            asked: false,
        };
        assert(text::texts(r.hosts@) =~= Seq::<Seq<char>>::empty());
        assert(text::texts(r.instances@) =~= Seq::<Seq<char>>::empty());
        r
    }

    fn note_hosts(&mut self, data: &[u8]) -> (r: Option<Vec<u8>>)
        requires
            bytes::in_memory(data@),
        ensures
            ({
                let named = mdns::address_records(data@).filter_map(
                    |r: (Seq<char>, IpAddr)| record_host(r),
                );
                &&& final(self)@ == (ProbeView {
                    hosts: old(self)@.hosts + named,
                    asked: old(self)@.asked || named.len() > 0,
                    ..old(self)@
                })
                &&& message_view(r) == old(self)@.follow_up(data@)
            }),
    {
        let records = parse_mdns_a_records(data);
        let ghost views = mdns::named_views(records@);
        let ghost f = |r: (Seq<char>, IpAddr)| record_host(r);
        let ghost start = self@;
        let mut question: Option<Vec<u8>> = None;
        let n: usize = records.len();
        proof {
            assert(views.take(0).filter_map(f) =~= Seq::<Seq<char>>::empty());
            assert(start.hosts + Seq::<Seq<char>>::empty() =~= start.hosts);
        }
        for i in 0..n
            invariant
                n == records@.len(),
                views == mdns::named_views(records@),
                f == (|r: (Seq<char>, IpAddr)| record_host(r)),
                self@ == (ProbeView {
                    hosts: start.hosts + views.take(i as int).filter_map(f),
                    asked: start.asked || views.take(i as int).filter_map(f).len() > 0,
                    ..start
                }),
                message_view(question) == (if !start.asked && views.take(i as int).filter_map(
                    f,
                ).len() > 0 {
                    Some(host_query(views.take(i as int).filter_map(f)[0], 600))
                } else {
                    None
                }),
        {
            let ghost before = views.take(i as int).filter_map(f);
            let ghost hosts = text::texts(self.hosts@);
            proof {
                views.lemma_filter_map_take_succ(f, i as int);
                assert(views[i as int] == (records@[i as int].0@, records@[i as int].1));
                assert(before + Seq::<Seq<char>>::empty() =~= before);
            }
            let name = strip_local(records[i].0.as_str());
            if name.as_str().unicode_len() > 0 {
                if !self.asked {
                    question = Some(ask_host(name.as_str(), 600));
                    self.asked = true;
                }
                let ghost v = name@;
                self.hosts.push(name);
                assert(text::texts(self.hosts@) =~= hosts.push(v));
                assert(start.hosts + (before + seq![v]) =~= (start.hosts + before).push(v));
            }
        }
        assert(views.take(n as int) =~= views);
        question
    }

    fn note_instances(&mut self, data: &[u8])
        requires
            bytes::in_memory(data@),
        ensures
            final(self)@ == (ProbeView {
                instances: old(self)@.instances + mdns::service_instances(data@).filter_map(
                    |n: Seq<char>| plain_instance(n),
                ),
                ..old(self)@
            }),
    {
        let names = parse_mdns_service_instances(data);
        let ghost views = text::texts(names@);
        let ghost f = |n: Seq<char>| plain_instance(n);
        let ghost start = self@;
        let n: usize = names.len();
        proof {
            assert(views.take(0).filter_map(f) =~= Seq::<Seq<char>>::empty());
            assert(start.instances + Seq::<Seq<char>>::empty() =~= start.instances);
        }
        for i in 0..n
            invariant
                n == names@.len(),
                views == text::texts(names@),
                f == (|n: Seq<char>| plain_instance(n)),
                self@ == (ProbeView {
                    instances: start.instances + views.take(i as int).filter_map(f),
                    ..start
                }),
        {
            let ghost before = views.take(i as int).filter_map(f);
            let ghost known = text::texts(self.instances@);
            proof {
                views.lemma_filter_map_take_succ(f, i as int);
                assert(views[i as int] == names@[i as int]@);
                assert(before + Seq::<Seq<char>>::empty() =~= before);
            }
            let front = before_part(names[i].as_str(), "._");
            let last = after_last(front.as_str(), '@');
            let device = trim(last.as_str());
            if device.as_str().unicode_len() > 0 {
                let ghost v = device@;
                self.instances.push(device);
                assert(text::texts(self.instances@) =~= known.push(v));
                assert(start.instances + (before + seq![v]) =~= (start.instances + before).push(v));
            }
        }
        assert(views.take(n as int) =~= views);
    }

    /// Takes an answer, and gives what the device is asked upon it.
    pub fn take_answer(&mut self, data: &[u8]) -> (r: Option<Vec<u8>>)
        requires
            bytes::in_memory(data@),
        ensures
            final(self)@ == old(self)@.with_answer(data@),
            message_view(r) == old(self)@.follow_up(data@),
    {
        let ghost start = self@;
        let question = self.note_hosts(data);
        self.note_instances(data);
        let lists = parse_mdns_txt_records(data);
        let k: usize = lists.len();
        let ghost listed = mdns::listed_views(lists@);
        let ghost middle = self@;
        for i in 0..k
            invariant
                k == lists@.len(),
                listed == mdns::listed_views(lists@),
                self@ == (ProbeView {
                    details: answered_records(start.details, listed.take(i as int)),
                    ..middle
                }),
        {
            assert(listed.take(i + 1).drop_last() =~= listed.take(i as int));
            assert(listed.take(i + 1).last() == (
                lists@[i as int].0@,
                mdns::pair_views(lists@[i as int].1@),
            ));
            answer_record(&mut self.details, lists[i].0.as_str(), &lists[i].1);
        }
        assert(listed.take(k as int) =~= listed);
        question
    }

    fn name(&self) -> (r: Option<String>)
        ensures
            text::text_view(r) == self@.told_name(),
    {
        match select_best_hostname(&self.hosts) {
            Some(n) => Some(n),
            None => select_best_hostname(&self.instances),
        }
    }

    /// Takes note that the device does not answer, and gives what it is asked
    /// then; nothing where the probe is over.
    pub fn take_silence(&mut self) -> (r: Option<Vec<u8>>)
        ensures
            message_view(r) == old(self)@.last_question(),
            final(self)@ == (ProbeView { asked: old(self)@.asked || r is Some, ..old(self)@ }),
    {
        match self.name() {
            Some(n) => {
                if self.asked {
                    None
                } else {
                    self.asked = true;
                    Some(ask_host(n.as_str(), 601))
                }
            },
            None => None,
        }
    }

    /// What the device is: its name, which may be empty, and its details.
    /// Nothing where it told neither.
    pub fn finish(self) -> (r: Option<(String, DeviceDetails)>)
        ensures
            match r {
                Some((n, d)) => d@ == self@.details && (self@.told_name() is Some || d@
                    != device::no_details()) && n@ == (match self@.told_name() {
                    Some(t) => t,
                    None => Seq::empty(),
                }),
                None => self@.told_name() is None && self@.details == device::no_details(),
            },
    {
        match self.name() {
            Some(n) => Some((n, self.details)),
            None => {
                if self.details.is_empty() {
                    None
                } else {
                    Some((String::new(), self.details))
                }
            },
        }
    }
}

/// A device is asked for the address of a host at most once: whoever was asked
/// stays so, and is asked no more.
pub proof fn law_asked_once(p: ProbeView, data: Seq<u8>)
    ensures
        p.asked ==> p.follow_up(data) is None && p.last_question() is None,
        p.asked ==> p.with_answer(data).asked,
        p.follow_up(data) is Some ==> p.with_answer(data).asked,
{
}

/// What a device that is probed tells of its model: the code under any of the
/// names for it counts, one of them only where none is known; a code of Apple
/// names the model.
pub proof fn law_probed_models(d: DetailsView, value: Seq<char>, key: Seq<char>)
    ensures
        answered(d, "rpmd"@, value).property("model_code"@) == Some(value),
        answered(d, "model"@, value).property("model_code"@) == Some(value),
        answered(d, "wmodel"@, value).property("model_code"@) == Some(value),
        d.property("model_code"@) is None ==> answered(d, "am"@, value).property("model_code"@)
            == Some(value),
        d.property("model_code"@) is Some ==> answered(d, "am"@, value) == d,
        apple::apple_model(value) is Some ==> answered(d, "rpmd"@, value).property("model"@)
            == apple::apple_model(value),
        key != "rpmd"@ && key != "model"@ && key != "wmodel"@ && key != "am"@ ==> answered(
            d,
            key,
            value,
        ) == d,
{
    reveal_strlit("rpmd");
    reveal_strlit("model");
    reveal_strlit("wmodel");
    reveal_strlit("am");
    reveal_strlit("model_code");
    assert("rpmd"@.len() == 4 && "model"@.len() == 5 && "wmodel"@.len() == 6 && "am"@.len() == 2
        && "model_code"@.len() == 10);
}

/// The services that a probe marks by the name of an instance.
pub proof fn law_probed_services(d: DetailsView, name: Seq<char>)
    ensures
        ({
            let services = probe_marked(d, name, 4).services;
            &&& text::contains(name, "_rdlink"@) ==> services.contains("Rapport"@)
            &&& text::contains(name, "_companion-link"@) ==> services.contains("Apple Companion"@)
            &&& text::contains(name, "_apple-mobdev2"@) ==> services.contains("iPhone/iPad"@)
            &&& text::contains(name, "_continuity"@) ==> services.contains("Continuity"@)
            &&& !text::contains(name, "_rdlink"@) && !text::contains(name, "_companion-link"@)
                && !text::contains(name, "_apple-mobdev2"@) && !text::contains(name, "_continuity"@)
                ==> services == d.services
        }),
{
    let t = PROBE_MARKS@;
    assert(t.len() == 4);
    assert(t[0].0@ == "_rdlink"@ && t[1].0@ == "_companion-link"@ && t[2].0@ == "_apple-mobdev2"@
        && t[3].0@ == "_continuity"@);
    assert(t[0].1@ == "Rapport"@ && t[1].1@ == "Apple Companion"@ && t[2].1@ == "iPhone/iPad"@
        && t[3].1@ == "Continuity"@);
    reveal_with_fuel(probe_marked, 5);
}

} // verus!
