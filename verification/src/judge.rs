//! The last word on each device: the name, the maker and the category under
//! which it is shown.

use vstd::prelude::*;
use vstd::string::*;

use crate::announce;
use crate::board::{DetailsBoard, DeviceBoard};
use crate::category;
use crate::category::classify_device_category;
use crate::device::{DetailsView, DeviceDetails, DeviceInfo, InfoView};
use crate::enrich;
use crate::enrich::is_unnamed;
use crate::hostname::DASH;
use crate::names;
use crate::net;
use crate::net::{IpAddr, is_local_ip};
use crate::scan;
use crate::scan::{Moment, is_no_maker, is_no_name, see_device};
use crate::table::{Dup, Table};
use crate::text;
use crate::text::{before_part, drop_prefixes, has_any, lower_case, same, starts_with};

verus! {

/// Words in names and models of devices from Apple.
pub const APPLE_WORDS: [&'static str; 9] = [
    "iphone",
    "ipad",
    "macbook",
    "imac",
    "apple tv",
    "appletv",
    "homepod",
    "apple watch",
    "applewatch",
];

/// Words in services of devices from Apple.
pub const APPLE_SERVICES: [&'static str; 4] = [
    "airplay",
    "apple companion",
    "apple accessory",
    "asquic",
];

/// A property of a device of which something may be known.
pub open spec fn property_of(d: Option<DetailsView>, key: Seq<char>) -> Option<Seq<char>> {
    match d {
        Some(m) => m.property(key),
        None => None,
    }
}

fn look_at(d: &Option<DeviceDetails>, key: &str) -> (r: Option<String>)
    ensures
        text::text_view(r) == property_of(known_details(*d), key@),
{
    match d {
        Some(m) => match m.get(key) {
            Some(v) => Some(v.dup()),
            None => None,
        },
        None => None,
    }
}

/// Optional details.
pub open spec fn known_details(d: Option<DeviceDetails>) -> Option<DetailsView> {
    match d {
        Some(m) => Some(m@),
        None => None,
    }
}

/// The first of three values that there is.
pub open spec fn first_of(
    a: Option<Seq<char>>,
    b: Option<Seq<char>>,
    c: Option<Seq<char>>,
) -> Option<Seq<char>> {
    if a is Some {
        a
    } else if b is Some {
        b
    } else {
        c
    }
}

/// The name of a device, taken from what it told where it has none of its own.
pub open spec fn telling_name(host: Seq<char>, d: Option<DetailsView>) -> Seq<char> {
    let told = first_of(
        property_of(d, "model"@),
        property_of(d, "friendly_name"@),
        property_of(d, "model_name"@),
    );
    match told {
        Some(n) if text::starts(host, "_"@) || scan::no_name(host) => n,
        _ => host,
    }
}

/// A name without the marks of a service around it, or the name of a device
/// that is known by it.
pub open spec fn plain_name(name: Seq<char>, d: Option<DetailsView>) -> Seq<char> {
    let bare = text::before_text(text::without_prefixes(name, "_"@), "._"@);
    if text::starts(bare, "I49B8F"@) {
        "eero Node"@
    } else if bare == "eerogw"@ {
        "eero Gateway"@
    } else if bare == "trel"@ {
        "eero Link"@
    } else if bare == "asquic"@ {
        match property_of(d, "model"@) {
            Some(m) if text::starts(m, "iPhone"@) || text::starts(m, "iPad"@) => m,
            _ => "Apple Device"@,
        }
    } else {
        bare
    }
}

/// The name under which a device is shown.
pub open spec fn final_name(host: Seq<char>, d: Option<DetailsView>) -> Seq<char> {
    plain_name(telling_name(host, d), d)
}

/// The maker of a device, taken from what it told where it is not known.
pub open spec fn told_maker(vendor: Seq<char>, d: Option<DetailsView>) -> Seq<char> {
    match property_of(d, "manufacturer"@) {
        Some(m) if (scan::no_maker(vendor) || vendor == "Apple Device"@) && m.len() > 0 && m != DASH@ => m,
        _ => vendor,
    }
}

/// A model of Apple, by its name in lower case.
pub open spec fn apple_model_name(lower: Seq<char>) -> bool {
    text::contains_any(lower, APPLE_WORDS@) || text::starts(lower, "apple"@)
}

/// The device announces a service of Apple.
pub open spec fn apple_service(d: DetailsView) -> bool {
    exists|s: Seq<char>|
        d.services.contains(s) && text::contains_any(#[trigger] text::lowered(s), APPLE_SERVICES@)
}

/// The name, the model or a service of a device tell that it is from Apple.
pub open spec fn from_apple(name: Seq<char>, d: Option<DetailsView>) -> bool {
    ||| text::contains_any(text::lowered(name), APPLE_WORDS@)
    ||| property_of(d, "model"@) matches Some(m) && apple_model_name(text::lowered(m))
    ||| d matches Some(m) && apple_service(m)
}

/// The maker under which a device is shown.
pub open spec fn final_maker(vendor: Seq<char>, name: Seq<char>, d: Option<DetailsView>) -> Seq<
    char,
> {
    let told = told_maker(vendor, d);
    if from_apple(name, d) && scan::no_maker(told) {
        "Apple, Inc."@
    } else {
        told
    }
}

/// A device with the name and the maker under which it is shown.
pub open spec fn judged(info: InfoView, d: Option<DetailsView>) -> InfoView {
    let name = final_name(info.hostname, d);
    InfoView { hostname: name, vendor: final_maker(info.vendor, name, d), ..info }
}

/// The category of a device with the name and the maker under which it is
/// shown.
pub open spec fn judged_category(info: InfoView, d: Option<DetailsView>) -> Option<Seq<char>> {
    category::category(category::marks_of(judged(info, d).vendor, judged(info, d).hostname, d))
}

fn choose_name(host: &str, d: &Option<DeviceDetails>) -> (r: String)
    ensures
        r@ == telling_name(host@, known_details(*d)),
{
    if starts_with(host, "_") || is_no_name(host) {
        match look_at(d, "model") {
            Some(n) => {
                return n;
            },
            None => {},
        }
        match look_at(d, "friendly_name") {
            Some(n) => {
                return n;
            },
            None => {},
        }
        match look_at(d, "model_name") {
            Some(n) => {
                return n;
            },
            None => {},
        }
    }
    host.to_owned()
}

fn plain(name: &str, d: &Option<DeviceDetails>) -> (r: String)
    ensures
        r@ == plain_name(name@, known_details(*d)),
{
    let inner = drop_prefixes(name, "_");
    let bare = before_part(inner.as_str(), "._");
    let b = bare.as_str();
    if starts_with(b, "I49B8F") {
        "eero Node".to_owned()
    } else if same(b, "eerogw") {
        "eero Gateway".to_owned()
    } else if same(b, "trel") {
        "eero Link".to_owned()
    } else if same(b, "asquic") {
        match look_at(d, "model") {
            Some(m) => {
                if starts_with(m.as_str(), "iPhone") || starts_with(m.as_str(), "iPad") {
                    m
                } else {
                    "Apple Device".to_owned()
                }
            },
            None => "Apple Device".to_owned(),
        }
    } else {
        bare
    }
}

fn maker_told(vendor: &str, d: &Option<DeviceDetails>) -> (r: String)
    ensures
        r@ == told_maker(vendor@, known_details(*d)),
{
    if is_no_maker(vendor) || same(vendor, "Apple Device") {
        match look_at(d, "manufacturer") {
            Some(m) => {
                if m.as_str().unicode_len() > 0 && !same(m.as_str(), DASH) {
                    return m;
                }
            },
            None => {},
        }
    }
    vendor.to_owned()
}

fn offers_apple(d: &DeviceDetails) -> (r: bool)
    ensures
        r == apple_service(d@),
{
    let n: usize = d.services.len();
    let ghost list = d.services.list();
    for i in 0..n
        invariant
            n == list.len(),
            list == d.services.list(),
            forall|j: int|
                0 <= j < i ==> !text::contains_any(text::lowered(#[trigger] list[j]), APPLE_SERVICES@),
    {
        let s = d.services.at(i);
        let lower = lower_case(s.as_str());
        if has_any(lower.as_str(), &APPLE_SERVICES) {
            assert(d@.services.contains(s@));
            assert(text::contains_any(text::lowered(s@), APPLE_SERVICES@));
            return true;
        }
    }
    assert forall|s: Seq<char>| d@.services.contains(s) implies !text::contains_any(
        #[trigger] text::lowered(s),
        APPLE_SERVICES@,
    ) by {
        assert(list.to_set().contains(s));
        let j = choose|j: int| 0 <= j < list.len() && list[j] == s;
        assert(!text::contains_any(text::lowered(list[j]), APPLE_SERVICES@));
    }
    false
}

fn is_from_apple(name: &str, d: &Option<DeviceDetails>) -> (r: bool)
    ensures
        r == from_apple(name@, known_details(*d)),
{
    let lower = lower_case(name);
    if has_any(lower.as_str(), &APPLE_WORDS) {
        return true;
    }
    match look_at(d, "model") {
        Some(m) => {
            let l = lower_case(m.as_str());
            if has_any(l.as_str(), &APPLE_WORDS) || starts_with(l.as_str(), "apple") {
                return true;
            }
        },
        None => {},
    }
    match d {
        Some(m) => offers_apple(m),
        None => false,
    }
}

fn judge(info: DeviceInfo, d: &Option<DeviceDetails>) -> (r: DeviceInfo)
    ensures
        r@ == judged(info@, known_details(*d)),
{
    let mut r = info;
    let chosen = choose_name(r.hostname.as_str(), d);
    let name = plain(chosen.as_str(), d);
    let told = maker_told(r.vendor.as_str(), d);
    let vendor = if is_from_apple(name.as_str(), d) && is_no_maker(told.as_str()) {
        "Apple, Inc.".to_owned()
    } else {
        told
    };
    r.hostname = name;
    r.vendor = vendor;
    r
}

/// The devices with the names and makers under which they are shown.
pub open spec fn judged_devices(
    devices: Map<IpAddr, InfoView>,
    details: Map<IpAddr, DetailsView>,
) -> Map<IpAddr, InfoView> {
    Map::new(
        |ip: IpAddr| devices.dom().contains(ip),
        |ip: IpAddr| judged(devices[ip], names::at(details, ip)),
    )
}

/// A device gets a category.
pub open spec fn gets_category(
    devices: Map<IpAddr, InfoView>,
    details: Map<IpAddr, DetailsView>,
    ip: IpAddr,
) -> bool {
    devices.dom().contains(ip) && judged_category(devices[ip], names::at(details, ip)) is Some
}

/// The details of a device with its category, unless it had one before.
pub open spec fn categorised(
    devices: Map<IpAddr, InfoView>,
    details: Map<IpAddr, DetailsView>,
    ip: IpAddr,
) -> DetailsView {
    if gets_category(devices, details, ip) {
        announce::details_at(details, ip).with_new(
            "category"@,
            judged_category(devices[ip], names::at(details, ip))->0,
        )
    } else {
        details[ip]
    }
}

/// The details of all devices with their categories.
pub open spec fn judged_details(
    devices: Map<IpAddr, InfoView>,
    details: Map<IpAddr, DetailsView>,
) -> Map<IpAddr, DetailsView> {
    Map::new(
        |ip: IpAddr| details.dom().contains(ip) || gets_category(devices, details, ip),
        |ip: IpAddr| categorised(devices, details, ip),
    )
}

fn judge_one(devices: &mut DeviceBoard, details: &mut DetailsBoard, ip: &IpAddr)
    requires
        old(devices)@.dom().contains(*ip),
    ensures
        final(devices)@ == old(devices)@.insert(
            *ip,
            judged(old(devices)@[*ip], names::at(old(details)@, *ip)),
        ),
        final(details)@ == (if gets_category(old(devices)@, old(details)@, *ip) {
            old(details)@.insert(*ip, categorised(old(devices)@, old(details)@, *ip))
        } else {
            old(details)@
        }),
{
    let known = details.get(ip);
    match devices.get(ip) {
        None => {},
        Some(info) => {
            let r = judge(info, &known);
            let cat = match &known {
                Some(m) => classify_device_category(r.vendor.as_str(), r.hostname.as_str(), Some(m)),
                None => classify_device_category(r.vendor.as_str(), r.hostname.as_str(), None),
            };
            match cat {
                Some(c) => {
                    let mut d = details.details(ip);
                    d.set_new("category", c);
                    details.insert(*ip, d);
                },
                None => {},
            }
            devices.insert(*ip, r);
        },
    }
}

/// Gives every device the name, the maker and the category under which it is
/// shown.
pub fn judge_devices(devices: &mut DeviceBoard, details: &mut DetailsBoard)
    ensures
        final(devices)@ == judged_devices(old(devices)@, old(details)@),
        final(details)@ == judged_details(old(devices)@, old(details)@),
{
    let ghost d0 = devices@;
    let ghost t0 = details@;
    let ips = devices.ips();
    let n: usize = ips.len();
    for i in 0..n
        invariant
            n == ips@.len(),
            ips@.no_duplicates(),
            forall|q: IpAddr| #[trigger] ips@.contains(q) <==> d0.dom().contains(q),
            devices@.dom() == d0.dom(),
            forall|j: int|
                0 <= j < i ==> devices@[#[trigger] ips@[j]] == judged(
                    d0[ips@[j]],
                    names::at(t0, ips@[j]),
                ),
            forall|j: int| i <= j < n ==> devices@[#[trigger] ips@[j]] == d0[ips@[j]],
            forall|j: int|
                0 <= j < i ==> names::at(details@, #[trigger] ips@[j]) == names::at(
                    judged_details(d0, t0),
                    ips@[j],
                ),
            forall|j: int|
                i <= j < n ==> names::at(details@, #[trigger] ips@[j]) == names::at(t0, ips@[j]),
            forall|q: IpAddr|
                !d0.dom().contains(q) ==> #[trigger] names::at(details@, q) == names::at(t0, q),
    {
        let ip = ips[i];
        assert(ips@.contains(ip));
        assert(ips@[i as int] == ip);
        let ghost d1 = devices@;
        let ghost t1 = details@;
        assert(names::at(t1, ip) == names::at(t0, ip));
        judge_one(devices, details, &ip);
        proof {
            assert(devices@.dom() =~= d0.dom());
            assert(announce::details_at(t1, ip) == announce::details_at(t0, ip));
            assert(gets_category(d1, t1, ip) == gets_category(d0, t0, ip));
            assert forall|j: int| 0 <= j < n && j != i implies names::at(
                details@,
                #[trigger] ips@[j],
            ) == names::at(t1, ips@[j]) by {
                assert(ips@[j] != ip);
            }
            assert forall|q: IpAddr| !d0.dom().contains(q) implies #[trigger] names::at(
                details@,
                q,
            ) == names::at(t0, q) by {
                assert(q != ip);
                assert(names::at(t1, q) == names::at(t0, q));
            }
        }
    }
    proof {
        let want = judged_details(d0, t0);
        assert forall|q: IpAddr| #[trigger] names::at(details@, q) == names::at(want, q) by {
            if d0.dom().contains(q) {
                assert(ips@.contains(q));
                let j = choose|j: int| 0 <= j < ips@.len() && ips@[j] == q;
                assert(ips@[j] == q);
            }
        }
        assert forall|q: IpAddr| details@.dom().contains(q) == want.dom().contains(q) by {
            assert(names::at(details@, q) == names::at(want, q));
        }
        assert forall|q: IpAddr| want.dom().contains(q) implies details@[q] == want[q] by {
            assert(names::at(details@, q) == names::at(want, q));
        }
        assert(details@ =~= want);
        assert forall|q: IpAddr| d0.dom().contains(q) implies devices@[q] == judged_devices(
            d0,
            t0,
        )[q] by {
            assert(ips@.contains(q));
            let j = choose|j: int| 0 <= j < ips@.len() && ips@[j] == q;
            assert(ips@[j] == q);
        }
        assert(devices@ =~= judged_devices(d0, t0));
    }
}

/// A category that a device has stays.
pub proof fn law_category_stays(
    devices: Map<IpAddr, InfoView>,
    details: Map<IpAddr, DetailsView>,
    ip: IpAddr,
)
    requires
        details.dom().contains(ip),
        details[ip].property("category"@) is Some,
    ensures
        judged_details(devices, details).dom().contains(ip),
        judged_details(devices, details)[ip].property("category"@) == details[ip].property(
            "category"@,
        ),
{
}

/// A known maker stays: only a device without one becomes one of Apple.
pub proof fn law_maker_stays(info: InfoView, d: Option<DetailsView>)
    requires
        !scan::no_maker(info.vendor),
        info.vendor != "Apple Device"@,
    ensures
        judged(info, d).vendor == info.vendor,
{
}

// ---------------------------------------------------------------------------
// The last announcements
// ---------------------------------------------------------------------------

/// A device once the announcements of the whole scan were read.
pub open spec fn lately_named(
    devices: Map<IpAddr, InfoView>,
    names: Map<IpAddr, Seq<char>>,
    now: Moment,
    ip: IpAddr,
) -> InfoView {
    if !devices.dom().contains(ip) {
        scan::device_seen("Unknown"@, "Unknown"@, names[ip], now)
    } else if names.dom().contains(ip) && net::local_ip(ip) && enrich::unnamed(devices[ip].hostname) {
        enrich::renamed(devices[ip], names[ip])
    } else {
        devices[ip]
    }
}

/// The devices once the announcements of the whole scan were read.
pub open spec fn finally_announced(
    devices: Map<IpAddr, InfoView>,
    names: Map<IpAddr, Seq<char>>,
    now: Moment,
) -> Map<IpAddr, InfoView> {
    Map::new(
        |ip: IpAddr| devices.dom().contains(ip) || net::local_ip(ip) && names.dom().contains(ip),
        |ip: IpAddr| lately_named(devices, names, now, ip),
    )
}

/// Takes the names of hosts that were announced during the whole scan.
pub fn take_last_names(devices: &mut DeviceBoard, names: &Table<IpAddr, String>, now: Moment)
    ensures
        final(devices)@ == finally_announced(old(devices)@, names@, now),
{
    let ghost start = devices@;
    let ghost items = names.items();
    let n: usize = names.len();
    let ghost want = finally_announced(start, names@, now);
    for i in 0..n
        invariant
            n == items.len(),
            items == names.items(),
            want == finally_announced(start, names@, now),
            forall|j: int|
                0 <= j < n ==> names@.dom().contains((#[trigger] items[j]).0)
                    && names@[items[j].0] == items[j].1,
            forall|j: int, k: int|
                0 <= j < k < n ==> (#[trigger] items[j]).0 != (#[trigger] items[k]).0,
            forall|ip: IpAddr| #[trigger]
                devices@.dom().contains(ip) <==> start.dom().contains(ip) || net::local_ip(ip)
                    && exists|j: int| 0 <= j < i && (#[trigger] items[j]).0 == ip,
            forall|j: int|
                0 <= j < i && want.dom().contains((#[trigger] items[j]).0)
                    ==> devices@[items[j].0] == want[items[j].0],
            forall|ip: IpAddr|
                start.dom().contains(ip) && (forall|j: int|
                    0 <= j < i ==> (#[trigger] items[j]).0 != ip) ==> #[trigger] devices@[ip]
                    == start[ip],
    {
        let (ip, name) = names.entry(i);
        assert(items[i as int] == (ip@, name@));
        let ghost before = devices@;
        assert(forall|j: int| 0 <= j < i ==> (#[trigger] items[j]).0 != *ip);
        if is_local_ip(ip) {
            match devices.get(ip) {
                Some(d) => {
                    if is_unnamed(d.hostname.as_str()) {
                        let mut d = d;
                        d.hostname = name.dup();
                        devices.insert(*ip, d);
                    }
                },
                None => {
                    devices.insert(
                        *ip,
                        see_device("Unknown".to_owned(), "Unknown".to_owned(), name.dup(), now),
                    );
                },
            }
        }
        assert forall|q: IpAddr| #[trigger]
            devices@.dom().contains(q) <==> start.dom().contains(q) || net::local_ip(q) && exists|
                j: int,
            |
                0 <= j < i + 1 && (#[trigger] items[j]).0 == q by {
            if q == *ip {
                assert(items[i as int].0 == q);
            } else {
                assert(devices@.dom().contains(q) == before.dom().contains(q));
            }
        }
        assert forall|q: IpAddr|
            start.dom().contains(q) && (forall|j: int|
                0 <= j < i + 1 ==> (#[trigger] items[j]).0 != q) implies #[trigger] devices@[q]
            == start[q] by {
            assert(items[i as int].0 != q);
            assert(before[q] == start[q]);
        }
    }
    proof {
        assert forall|q: IpAddr| devices@.dom().contains(q) == want.dom().contains(q) by {
            if names@.dom().contains(q) {
                let j = choose|j: int| 0 <= j < items.len() && (#[trigger] items[j]).0 == q;
                assert(items[j].0 == q);
            }
        }
        assert forall|q: IpAddr| want.dom().contains(q) implies devices@[q] == want[q] by {
            if names@.dom().contains(q) {
                let j = choose|j: int| 0 <= j < items.len() && (#[trigger] items[j]).0 == q;
                assert(items[j].0 == q);
            }
        }
        assert(devices@ =~= want);
    }
}

/// All devices are of this network.
pub open spec fn all_local(m: Map<IpAddr, InfoView>) -> bool {
    forall|ip: IpAddr| #[trigger] m.dom().contains(ip) ==> net::local_ip(ip)
}

/// Once all devices are of this network they stay so, whatever a scan finds in
/// it and hosts announce, and all of them are kept between sessions.
pub proof fn law_devices_stay_local(
    m: Map<IpAddr, InfoView>,
    found: Map<IpAddr, InfoView>,
    names: Map<IpAddr, Seq<char>>,
    now: Moment,
)
    requires
        all_local(m),
        all_local(found),
    ensures
        all_local(scan::devices_after(m, found, now)),
        all_local(enrich::announced(m, names, now)),
        all_local(finally_announced(m, names, now)),
        scan::baseline(m) == m,
{
    assert(scan::baseline(m) =~= m);
}

/// A device without a name, or with one that begins with an underscore, gets
/// the model it tells, its friendly name or the name of its model, in that
/// order; any other keeps its name.
pub proof fn law_told_names_taken(host: Seq<char>, d: DetailsView, told: Seq<char>)
    requires
        d.property("model"@) == Some(told) || d.property("model"@) is None && d.property(
            "friendly_name"@,
        ) == Some(told) || d.property("model"@) is None && d.property("friendly_name"@) is None
            && d.property("model_name"@) == Some(told),
    ensures
        host == "Resolving..."@ || host == "\u{2014}"@ || host.len() > 0 && host[0] == '_'
            ==> telling_name(host, Some(d)) == told,
        host != "Resolving..."@ && host != "\u{2014}"@ && (host.len() == 0 || host[0] != '_')
            ==> telling_name(host, Some(d)) == host,
        telling_name(host, None) == host,
{
    reveal_strlit("_");
    if host.len() > 0 && host[0] == '_' {
        assert(host.subrange(0, 1) =~= "_"@);
    }
    if text::starts(host, "_"@) {
        assert(host.subrange(0, 1)[0] == host[0]);
    }
}

/// The names that stand for devices of one maker, and for an Apple device that
/// tells no model of a phone or tablet; any other name is shown as it is,
/// without underscores before it and without the service behind it.
pub proof fn law_plain_names(d: Option<DetailsView>, name: Seq<char>, rest: Seq<char>)
    ensures
        plain_name("eerogw"@, d) == "eero Gateway"@,
        plain_name("trel"@, d) == "eero Link"@,
        d is None ==> plain_name("asquic"@, d) == "Apple Device"@,
        d is Some && d->0.property("model"@) is None ==> plain_name("asquic"@, d) == "Apple Device"@,
        d is Some && d->0.property("model"@) is Some && text::starts(d->0.property("model"@)->0, "iPhone"@)
            ==> plain_name("asquic"@, d) == d->0.property("model"@)->0,
        name == "I49B8F"@ + rest && !text::contains(name, "._"@) ==> plain_name(name, d)
            == "eero Node"@,
        name.len() > 0 && name[0] != '_' && name[0] != 'I' && !text::contains(name, "._"@) && name
            != "eerogw"@ && name != "trel"@ && name != "asquic"@ ==> plain_name(name, d) == name,
{
    reveal_strlit("eerogw");
    reveal_strlit("trel");
    reveal_strlit("asquic");
    reveal_strlit("I49B8F");
    lemma_undecorated("eerogw"@);
    lemma_undecorated("trel"@);
    lemma_undecorated("asquic"@);
    assert("eerogw"@[0] == 'e' && "trel"@[0] == 't' && "asquic"@[0] == 'a' && "I49B8F"@[0] == 'I');
    assert("eerogw"@.len() == 6 && "trel"@.len() == 4 && "asquic"@.len() == 6);
    lemma_other_begin("eerogw"@);
    lemma_other_begin("trel"@);
    lemma_other_begin("asquic"@);
    if name.len() > 0 && name[0] != '_' && !text::contains(name, "._"@) {
        lemma_undecorated(name);
        if name[0] != 'I' {
            lemma_other_begin(name);
        }
    }
    if name == "I49B8F"@ + rest {
        assert(name[0] == 'I');
        assert(name.subrange(0, 6) =~= "I49B8F"@);
    }
}

proof fn lemma_other_begin(name: Seq<char>)
    requires
        name.len() > 0,
        name[0] != 'I',
    ensures
        !text::starts(name, "I49B8F"@),
{
    reveal_strlit("I49B8F");
    if text::starts(name, "I49B8F"@) {
        assert(name.subrange(0, 6)[0] == name[0]);
    }
}

proof fn lemma_undecorated(name: Seq<char>)
    requires
        name.len() > 0,
        name[0] != '_',
        !text::contains(name, "._"@) || forall|i: int| 0 <= i < name.len() ==> name[i] != '.',
    ensures
        text::before_text(text::without_prefixes(name, "_"@), "._"@) == name,
{
    reveal_strlit("_");
    reveal_strlit("._");
    if text::starts(name, "_"@) {
        assert(name.subrange(0, 1)[0] == name[0]);
    }
    assert(text::without_prefixes(name, "_"@) == name);
    text::lemma_find_from(name, "._"@, 0);
    match text::find_from(name, "._"@, 0) {
        Some(i) => {
            assert(text::contains(name, "._"@));
            assert(name.subrange(i, i + 2)[0] == name[i]);
        },
        None => {},
    }
}

/// Words in a name, in lower case, that tell a device made by Apple.
pub open spec fn apple_word(lower: Seq<char>) -> bool {
    ||| text::contains(lower, "iphone"@)
    ||| text::contains(lower, "ipad"@)
    ||| text::contains(lower, "macbook"@)
    ||| text::contains(lower, "imac"@)
    ||| text::contains(lower, "apple tv"@)
    ||| text::contains(lower, "appletv"@)
    ||| text::contains(lower, "homepod"@)
    ||| text::contains(lower, "apple watch"@)
    ||| text::contains(lower, "applewatch"@)
}

proof fn lemma_apple_word(lower: Seq<char>)
    ensures
        text::contains_any(lower, APPLE_WORDS@) == apple_word(lower),
{
    let t = APPLE_WORDS@;
    assert(t.len() == 9);
    assert(t[0]@ == "iphone"@ && t[1]@ == "ipad"@ && t[2]@ == "macbook"@ && t[3]@ == "imac"@ && t[4]@
        == "apple tv"@ && t[5]@ == "appletv"@ && t[6]@ == "homepod"@ && t[7]@ == "apple watch"@
        && t[8]@ == "applewatch"@);
    if text::contains_any(lower, t) {
        let i = choose|i: int| 0 <= i < t.len() && text::contains(lower, #[trigger] t[i]@);
        assert(i == 0 || i == 1 || i == 2 || i == 3 || i == 4 || i == 5 || i == 6 || i == 7 || i
            == 8);
    }
}

/// The maker of a device: where none is known the one it tells, and Apple where
/// its name or its model says so.
pub proof fn law_makers_decided(vendor: Seq<char>, name: Seq<char>, d: DetailsView)
    ensures
        ({
            let unknown = vendor == "Unknown"@ || vendor == "Randomized MAC"@;
            let told = d.property("manufacturer"@);
            let tells = told is Some && told->0.len() > 0 && told->0 != "\u{2014}"@ && told->0
                != "Unknown"@ && told->0 != "Randomized MAC"@;
            let apple = apple_word(text::lowered(name)) || d.property("model"@) is Some && (apple_word(
                text::lowered(d.property("model"@)->0),
            ) || text::starts(text::lowered(d.property("model"@)->0), "apple"@));
            &&& unknown && tells ==> final_maker(vendor, name, Some(d)) == told->0
            &&& unknown && told is None && apple ==> final_maker(vendor, name, Some(d)) == "Apple, Inc."@
            &&& unknown && told is None && !apple && d.services =~= Set::<Seq<char>>::empty()
                ==> final_maker(vendor, name, Some(d)) == vendor
            &&& unknown && apple_word(text::lowered(name)) ==> final_maker(vendor, name, None)
                == "Apple, Inc."@
            &&& unknown && !apple_word(text::lowered(name)) ==> final_maker(vendor, name, None)
                == vendor
        }),
{
    lemma_apple_word(text::lowered(name));
    if d.property("model"@) is Some {
        lemma_apple_word(text::lowered(d.property("model"@)->0));
    }
}

} // verus!
