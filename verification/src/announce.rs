//! What devices announce of themselves by multicast DNS: host names, models,
//! versions and services.

use vstd::prelude::*;

use crate::apple;
use crate::apple::resolve_apple_model;
use crate::bytes;
use crate::device;
use crate::device::{DetailsView, DeviceDetails};
use crate::mdns;
use crate::mdns::{
    parse_mdns_a_records, parse_mdns_ptr_responses, parse_mdns_service_instances,
    parse_mdns_txt_records,
};
use crate::net;
use crate::net::{IpAddr, ip_string};
use crate::table::{Dup, Table};
use crate::text;
use crate::text::{
    after_last, before_part, chars_of, drop_suffixes, find_char, has_char, has_part, hex_char,
    part, same, trim,
};
use crate::traffic;

verus! {

/// Names of macOS releases by the version that devices announce.
pub const MACOS_NAMES: [(&'static str, &'static str); 5] = [
    ("24", "macOS 15 Sequoia"),
    ("23", "macOS 14 Sonoma"),
    ("22", "macOS 13 Ventura"),
    ("21", "macOS 12 Monterey"),
    ("20", "macOS 11 Big Sur"),
];

/// HomeKit categories by their numbers.
pub const HOMEKIT_CATEGORIES: [(&'static str, &'static str); 17] = [
    ("1", "Other"),
    ("2", "Bridge"),
    ("3", "Fan"),
    ("4", "Garage Door"),
    ("5", "Lightbulb"),
    ("6", "Door Lock"),
    ("7", "Outlet"),
    ("8", "Switch"),
    ("9", "Thermostat"),
    ("10", "Sensor"),
    ("11", "Security System"),
    ("12", "Door"),
    ("13", "Window"),
    ("14", "Window Covering"),
    ("17", "Sprinkler"),
    ("28", "TV"),
    ("32", "Router"),
];

/// Parts of record names and the services that they tell of.
pub const SERVICE_MARKS: [(&'static str, &'static str); 10] = [
    ("_airplay", "AirPlay"),
    ("_raop", "AirPlay Audio"),
    ("_hap", "HomeKit"),
    ("_googlecast", "Chromecast"),
    ("_spotify", "Spotify Connect"),
    ("_companion-link", "Apple Companion"),
    ("_apple-mobdev2", "iPhone/iPad"),
    ("_airdrop", "AirDrop"),
    ("_remotepairing", "iPhone"),
    ("_continuity", "Continuity"),
];

/// The name that a list has for a key from entry `from` on; the key itself
/// where there is none.
pub open spec fn called(
    list: Seq<(&'static str, &'static str)>,
    key: Seq<char>,
    from: int,
) -> Seq<char>
    decreases list.len() - from,
{
    if from < 0 || from >= list.len() {
        key
    } else if list[from].0@ == key {
        list[from].1@
    } else {
        called(list, key, from + 1)
    }
}

fn call(list: &[(&'static str, &'static str)], key: &str) -> (r: String)
    ensures
        r@ == called(list@, key@, 0),
{
    let mut i: usize = 0;
    while i < list.len()
        invariant
            i <= list@.len(),
            called(list@, key@, 0) == called(list@, key@, i as int),
        decreases list@.len() - i,
    {
        let entry = list[i];
        if same(entry.0, key) {
            return entry.1.to_owned();
        }
        i = i + 1;
    }
    key.to_owned()
}

// ---------------------------------------------------------------------------
// Properties
// ---------------------------------------------------------------------------

/// With the device that a model code stands for, where the code is known.
pub open spec fn with_model(d: DetailsView, code: Seq<char>) -> DetailsView {
    match apple::apple_model(code) {
        Some(m) => d.with("model"@, m),
        None => d,
    }
}

/// What is known of a device once it has announced a property.
pub open spec fn told(d: DetailsView, key: Seq<char>, value: Seq<char>) -> DetailsView {
    if key == "rpmd"@ {
        with_model(d.with("model_code"@, value), value)
    } else if key == "model"@ || key == "wmodel"@ {
        let e = d.with_new("model_code"@, value);
        if e.property("model"@) is Some {
            e
        } else {
            with_model(e, value)
        }
    } else if key == "am"@ {
        if d.property("model_code"@) is Some {
            d
        } else {
            with_model(d.with("model_code"@, value), value)
        }
    } else if key == "osxvers"@ {
        d.with("os_version"@, called(MACOS_NAMES@, value, 0))
    } else if key == "fn"@ {
        d.with("friendly_name"@, value)
    } else if key == "md"@ {
        d.with_new("model"@, value)
    } else if key == "srcvers"@ || key == "vs"@ {
        d.with("firmware"@, value)
    } else if key == "ci"@ {
        d.with("homekit_category"@, called(HOMEKIT_CATEGORIES@, value, 0))
    } else {
        d
    }
}

/// Notes the device that a model code stands for, where the code is known.
pub fn set_model(d: &mut DeviceDetails, code: &str)
    ensures
        final(d)@ == with_model(old(d)@, code@),
{
    match resolve_apple_model(code) {
        Some(m) => d.set("model", m),
        None => {},
    }
}

fn tell(d: &mut DeviceDetails, key: &str, value: &str)
    ensures
        final(d)@ == told(old(d)@, key@, value@),
{
    if same(key, "rpmd") {
        d.set("model_code", value);
        set_model(d, value);
    } else if same(key, "model") || same(key, "wmodel") {
        d.set_new("model_code", value);
        if d.get("model").is_none() {
            set_model(d, value);
        }
    } else if same(key, "am") {
        if d.get("model_code").is_none() {
            d.set("model_code", value);
            set_model(d, value);
        }
    } else if same(key, "osxvers") {
        let name = call(&MACOS_NAMES, value);
        d.set("os_version", name.as_str());
    } else if same(key, "fn") {
        d.set("friendly_name", value);
    } else if same(key, "md") {
        d.set_new("model", value);
    } else if same(key, "srcvers") || same(key, "vs") {
        d.set("firmware", value);
    } else if same(key, "ci") {
        let name = call(&HOMEKIT_CATEGORIES, value);
        d.set("homekit_category", name.as_str());
    }
}

/// What is known of a device once it has announced properties, in their order.
pub open spec fn told_all(d: DetailsView, pairs: Seq<(Seq<char>, Seq<char>)>) -> DetailsView
    decreases pairs.len(),
{
    if pairs.len() == 0 {
        d
    } else {
        told(told_all(d, pairs.drop_last()), pairs.last().0, pairs.last().1)
    }
}

/// With the first `n` services whose marks a record name bears.
pub open spec fn marked(d: DetailsView, name: Seq<char>, n: int) -> DetailsView
    decreases n,
{
    if n <= 0 || n > SERVICE_MARKS@.len() {
        d
    } else if text::contains(name, SERVICE_MARKS@[n - 1].0@) {
        marked(d, name, n - 1).offering(SERVICE_MARKS@[n - 1].1@)
    } else {
        marked(d, name, n - 1)
    }
}

/// What is known of a device once a text record was read.
pub open spec fn recorded(
    d: DetailsView,
    record: (Seq<char>, Seq<(Seq<char>, Seq<char>)>),
) -> DetailsView {
    marked(told_all(d, record.1), record.0, SERVICE_MARKS@.len() as int)
}

fn record_text(d: &mut DeviceDetails, name: &str, pairs: &Vec<(String, String)>)
    ensures
        final(d)@ == recorded(old(d)@, (name@, mdns::pair_views(pairs@))),
{
    let ghost start = d@;
    let ghost views = mdns::pair_views(pairs@);
    let n: usize = pairs.len();
    for i in 0..n
        invariant
            n == pairs@.len(),
            views == mdns::pair_views(pairs@),
            d@ == told_all(start, views.take(i as int)),
    {
        assert(views.take(i + 1).drop_last() =~= views.take(i as int));
        assert(views.take(i + 1).last() == (pairs@[i as int].0@, pairs@[i as int].1@));
        tell(d, pairs[i].0.as_str(), pairs[i].1.as_str());
    }
    assert(views.take(n as int) =~= views);
    let ghost middle = d@;
    let m: usize = SERVICE_MARKS.len();
    for i in 0..m
        invariant
            m == SERVICE_MARKS@.len(),
            d@ == marked(middle, name@, i as int),
    {
        let entry = SERVICE_MARKS[i];
        if has_part(name, entry.0) {
            d.offer(entry.1);
        }
    }
}

// ---------------------------------------------------------------------------
// Host names
// ---------------------------------------------------------------------------

/// A name without the local domain and without dots at its end.
pub open spec fn bare_name(name: Seq<char>) -> Seq<char> {
    text::without_suffixes(text::without_suffixes(name, ".local"@), "."@)
}

/// A name without the local domain and without dots at its end.
pub fn strip_local(name: &str) -> (r: String)
    ensures
        r@ == bare_name(name@),
{
    let s = drop_suffixes(name, ".local");
    drop_suffixes(s.as_str(), ".")
}

/// A word that sleep proxies put before a device's name: one with a dot, or
/// one of hexadecimal digits and hyphens.
pub open spec fn is_proxy_word(s: Seq<char>) -> bool {
    s.contains('.') || forall|i: int| 0 <= i < s.len() ==> text::is_hex(#[trigger] s[i]) || s[i] == '-'
}

/// The device that a service instance names: what stands before the service,
/// behind the last `@`, without the word that a sleep proxy put before it.
pub open spec fn instance_device(instance: Seq<char>) -> Seq<char> {
    let name = text::last_piece(text::before_text(bare_name(instance), "._"@), '@');
    let space = text::char_from(name, ' ', 0);
    if space < name.len() && is_proxy_word(name.take(space)) {
        text::trimmed(name.skip(space + 1))
    } else {
        text::trimmed(name)
    }
}

fn proxy_word(s: &[char]) -> (r: bool)
    ensures
        r == is_proxy_word(s@),
{
    if has_char(s, '.') {
        return true;
    }
    let n: usize = s.len();
    for i in 0..n
        invariant
            n == s@.len(),
            !s@.contains('.'),
            forall|j: int| 0 <= j < i ==> text::is_hex(#[trigger] s@[j]) || s@[j] == '-',
    {
        let c = s[i];
        if !(hex_char(c) || c == '-') {
            return false;
        }
    }
    true
}

/// The device that a service instance names.
pub fn device_of_instance(instance: &str) -> (r: String)
    ensures
        r@ == instance_device(instance@),
{
    let bare = strip_local(instance);
    let front = before_part(bare.as_str(), "._");
    let name = after_last(front.as_str(), '@');
    let c = chars_of(name.as_str());
    let space: usize = find_char(c.as_slice(), ' ', 0);
    if space < c.len() {
        let word = chars_of(part(c.as_slice(), 0, space).as_str());
        assert(word@ =~= name@.take(space as int));
        if proxy_word(word.as_slice()) {
            let rest = part(c.as_slice(), space + 1, c.len());
            assert(rest@ =~= name@.skip(space + 1));
            return trim(rest.as_str());
        }
    }
    trim(name.as_str())
}

/// The host names once addresses were read: the first name of an address
/// stays.
pub open spec fn named_by_addresses(
    hosts: Map<IpAddr, Seq<char>>,
    records: Seq<(Seq<char>, IpAddr)>,
) -> Map<IpAddr, Seq<char>>
    decreases records.len(),
{
    if records.len() == 0 {
        hosts
    } else {
        let before = named_by_addresses(hosts, records.drop_last());
        let name = bare_name(records.last().0);
        if name.len() == 0 {
            before
        } else {
            traffic::first_kept(before, records.last().1, name)
        }
    }
}

/// The address that a response is about: the first that it gives a name, or
/// else the one that it came from.
pub open spec fn packet_address(
    source: IpAddr,
    records: Seq<(Seq<char>, IpAddr)>,
    from: int,
) -> IpAddr
    decreases records.len() - from,
{
    if from < 0 || from >= records.len() {
        source
    } else if bare_name(records[from].0).len() > 0 {
        records[from].1
    } else {
        packet_address(source, records, from + 1)
    }
}

/// The host names once service instances were read.
pub open spec fn named_by_instances(
    hosts: Map<IpAddr, Seq<char>>,
    address: IpAddr,
    instances: Seq<Seq<char>>,
) -> Map<IpAddr, Seq<char>>
    decreases instances.len(),
{
    if instances.len() == 0 {
        hosts
    } else {
        let before = named_by_instances(hosts, address, instances.drop_last());
        let name = instance_device(instances.last());
        if name.len() == 0 {
            before
        } else {
            traffic::first_kept(before, address, name)
        }
    }
}

/// What is known of devices once text records were read.
pub open spec fn described(
    details: Map<IpAddr, DetailsView>,
    address: IpAddr,
    records: Seq<(Seq<char>, Seq<(Seq<char>, Seq<char>)>)>,
) -> Map<IpAddr, DetailsView>
    decreases records.len(),
{
    if records.len() == 0 {
        details
    } else {
        let before = described(details, address, records.drop_last());
        before.insert(address, recorded(details_at(before, address), records.last()))
    }
}

/// What is known of the device at an address.
pub open spec fn details_at(m: Map<IpAddr, DetailsView>, ip: IpAddr) -> DetailsView {
    if m.dom().contains(ip) {
        m[ip]
    } else {
        device::no_details()
    }
}

/// The host names once a response from an address was read.
pub open spec fn hosts_after(
    hosts: Map<IpAddr, Seq<char>>,
    source: IpAddr,
    data: Seq<u8>,
) -> Map<IpAddr, Seq<char>> {
    let records = mdns::address_records(data);
    named_by_instances(
        named_by_addresses(hosts, records),
        packet_address(source, records, 0),
        mdns::service_instances(data),
    )
}

/// What is known of devices once a response from an address was read.
pub open spec fn details_after(
    details: Map<IpAddr, DetailsView>,
    source: IpAddr,
    data: Seq<u8>,
) -> Map<IpAddr, DetailsView> {
    described(details, packet_address(source, mdns::address_records(data), 0), mdns::text_records(data))
}

fn keep_name(hosts: &mut Table<IpAddr, String>, ip: IpAddr, name: String)
    ensures
        final(hosts)@ == traffic::first_kept(old(hosts)@, ip, name@),
{
    if !hosts.contains_key(&ip) {
        hosts.insert(ip, name);
    }
}

/// The details of the device at an address, to be changed.
pub fn details_of(details: &Table<IpAddr, DeviceDetails>, ip: IpAddr) -> (r: DeviceDetails)
    ensures
        r@ == details_at(details@, ip),
{
    match details.get(&ip) {
        Some(d) => d.dup(),
        None => DeviceDetails::default(),
    }
}

/// Reads a response: the host names of the addresses that it gives, the
/// devices whose services it names, and what they announce of themselves. All
/// but the first belongs to the first named address, or else to the source.
pub fn process_mdns_packet(
    data: &[u8],
    source: IpAddr,
    hosts: &mut Table<IpAddr, String>,
    metadata: &mut Table<IpAddr, DeviceDetails>,
)
    requires
        bytes::in_memory(data@),
    ensures
        final(hosts)@ == hosts_after(old(hosts)@, source, data@),
        final(metadata)@ == details_after(old(metadata)@, source, data@),
{
    let records = parse_mdns_a_records(data);
    let ghost views = mdns::named_views(records@);
    let mut address = source;
    let mut found = false;
    let n: usize = records.len();
    let ghost start = hosts@;
    for i in 0..n
        invariant
            n == records@.len(),
            views == mdns::named_views(records@),
            hosts@ == named_by_addresses(start, views.take(i as int)),
            !found ==> address == source && packet_address(source, views, 0) == packet_address(
                source,
                views,
                i as int,
            ),
            found ==> address == packet_address(source, views, 0),
    {
        assert(views.take(i + 1).drop_last() =~= views.take(i as int));
        assert(views[i as int] == (records@[i as int].0@, records@[i as int].1));
        let name = strip_local(records[i].0.as_str());
        if name.as_str().unicode_len() > 0 {
            if !found {
                address = records[i].1;
                found = true;
            }
            keep_name(hosts, records[i].1, name);
        }
    }
    assert(views.take(n as int) =~= views);
    let ghost middle = hosts@;
    let instances = parse_mdns_service_instances(data);
    let m: usize = instances.len();
    let ghost names = text::texts(instances@);
    for i in 0..m
        invariant
            m == instances@.len(),
            names == text::texts(instances@),
            hosts@ == named_by_instances(middle, address, names.take(i as int)),
    {
        assert(names.take(i + 1).drop_last() =~= names.take(i as int));
        assert(names.take(i + 1).last() == instances@[i as int]@);
        let name = device_of_instance(instances[i].as_str());
        if name.as_str().unicode_len() > 0 {
            keep_name(hosts, address, name);
        }
    }
    assert(names.take(m as int) =~= names);
    let lists = parse_mdns_txt_records(data);
    let k: usize = lists.len();
    let ghost listed = mdns::listed_views(lists@);
    let ghost known = metadata@;
    for i in 0..k
        invariant
            k == lists@.len(),
            listed == mdns::listed_views(lists@),
            metadata@ == described(known, address, listed.take(i as int)),
    {
        assert(listed.take(i + 1).drop_last() =~= listed.take(i as int));
        assert(listed.take(i + 1).last() == (lists@[i as int].0@, mdns::pair_views(lists@[i as int].1@)));
        let mut d = details_of(metadata, address);
        record_text(&mut d, lists[i].0.as_str(), &lists[i].1);
        metadata.insert(address, d);
    }
    assert(listed.take(k as int) =~= listed);
}

// ---------------------------------------------------------------------------
// Answers to queries
// ---------------------------------------------------------------------------

/// The host names once pointers from addresses to names were read: the last
/// name stays, unless it is empty or the address itself.
pub open spec fn named_by_pointers(
    hosts: Map<IpAddr, Seq<char>>,
    pointers: Seq<(IpAddr, Seq<char>)>,
) -> Map<IpAddr, Seq<char>>
    decreases pointers.len(),
{
    if pointers.len() == 0 {
        hosts
    } else {
        let before = named_by_pointers(hosts, pointers.drop_last());
        let name = bare_name(pointers.last().1);
        if name.len() > 0 && name != net::ip_text(pointers.last().0) {
            before.insert(pointers.last().0, name)
        } else {
            before
        }
    }
}

/// Reads a response to the queries for host names and services.
pub fn collect_mdns_packet(
    data: &[u8],
    source: IpAddr,
    hosts: &mut Table<IpAddr, String>,
    metadata: &mut Table<IpAddr, DeviceDetails>,
)
    requires
        bytes::in_memory(data@),
    ensures
        ({
            let named = named_by_pointers(old(hosts)@, mdns::pointer_records(data@));
            final(hosts)@ == match source {
                IpAddr::V4(_) => hosts_after(named, source, data@),
                IpAddr::V6(_) => named,
            }
        }),
        final(metadata)@ == match source {
            IpAddr::V4(_) => details_after(old(metadata)@, source, data@),
            IpAddr::V6(_) => old(metadata)@,
        },
{
    let pointers = parse_mdns_ptr_responses(data);
    let n: usize = pointers.len();
    let ghost views = mdns::host_views(pointers@);
    let ghost start = hosts@;
    for i in 0..n
        invariant
            n == pointers@.len(),
            views == mdns::host_views(pointers@),
            hosts@ == named_by_pointers(start, views.take(i as int)),
    {
        assert(views.take(i + 1).drop_last() =~= views.take(i as int));
        assert(views.take(i + 1).last() == (pointers@[i as int].0, pointers@[i as int].1@));
        let name = strip_local(pointers[i].1.as_str());
        let own = ip_string(&pointers[i].0);
        if name.as_str().unicode_len() > 0 && !same(name.as_str(), own.as_str()) {
            hosts.insert(pointers[i].0, name);
        }
    }
    assert(views.take(n as int) =~= views);
    match source {
        IpAddr::V4(_) => process_mdns_packet(data, source, hosts, metadata),
        IpAddr::V6(_) => {},
    }
}

// ---------------------------------------------------------------------------
// Laws
// ---------------------------------------------------------------------------

proof fn lemma_addresses_keep(
    hosts: Map<IpAddr, Seq<char>>,
    records: Seq<(Seq<char>, IpAddr)>,
    ip: IpAddr,
)
    requires
        hosts.dom().contains(ip),
    ensures
        named_by_addresses(hosts, records).dom().contains(ip),
        named_by_addresses(hosts, records)[ip] == hosts[ip],
    decreases records.len(),
{
    if records.len() > 0 {
        lemma_addresses_keep(hosts, records.drop_last(), ip);
    }
}

proof fn lemma_instances_keep(
    hosts: Map<IpAddr, Seq<char>>,
    address: IpAddr,
    instances: Seq<Seq<char>>,
    ip: IpAddr,
)
    requires
        hosts.dom().contains(ip),
    ensures
        named_by_instances(hosts, address, instances).dom().contains(ip),
        named_by_instances(hosts, address, instances)[ip] == hosts[ip],
    decreases instances.len(),
{
    if instances.len() > 0 {
        lemma_instances_keep(hosts, address, instances.drop_last(), ip);
    }
}

/// A host that has a name keeps it, whatever is announced.
pub proof fn law_announced_name_stays(
    hosts: Map<IpAddr, Seq<char>>,
    source: IpAddr,
    data: Seq<u8>,
    ip: IpAddr,
)
    requires
        hosts.dom().contains(ip),
    ensures
        hosts_after(hosts, source, data).dom().contains(ip),
        hosts_after(hosts, source, data)[ip] == hosts[ip],
{
    let records = mdns::address_records(data);
    lemma_addresses_keep(hosts, records, ip);
    lemma_instances_keep(
        named_by_addresses(hosts, records),
        packet_address(source, records, 0),
        mdns::service_instances(data),
        ip,
    );
}

proof fn lemma_described_elsewhere(
    details: Map<IpAddr, DetailsView>,
    address: IpAddr,
    records: Seq<(Seq<char>, Seq<(Seq<char>, Seq<char>)>)>,
    ip: IpAddr,
)
    requires
        ip != address,
    ensures
        described(details, address, records).dom().contains(ip) == details.dom().contains(ip),
        details.dom().contains(ip) ==> described(details, address, records)[ip] == details[ip],
    decreases records.len(),
{
    if records.len() > 0 {
        lemma_described_elsewhere(details, address, records.drop_last(), ip);
    }
}

/// What a response announces belongs to one device: of every other device the
/// same is known as before, or nothing as before.
pub proof fn law_one_device_described(
    details: Map<IpAddr, DetailsView>,
    source: IpAddr,
    data: Seq<u8>,
    ip: IpAddr,
)
    requires
        ip != packet_address(source, mdns::address_records(data), 0),
    ensures
        details_after(details, source, data).dom().contains(ip) == details.dom().contains(ip),
        details.dom().contains(ip) ==> details_after(details, source, data)[ip] == details[ip],
{
    lemma_described_elsewhere(
        details,
        packet_address(source, mdns::address_records(data), 0),
        mdns::text_records(data),
        ip,
    );
}

// ---------------------------------------------------------------------------
// What a device tells of itself
// ---------------------------------------------------------------------------

/// The names of the properties that tell something.
pub open spec fn telling_key(key: Seq<char>) -> bool {
    ||| key == "rpmd"@
    ||| key == "model"@
    ||| key == "wmodel"@
    ||| key == "am"@
    ||| key == "osxvers"@
    ||| key == "fn"@
    ||| key == "md"@
    ||| key == "srcvers"@
    ||| key == "vs"@
    ||| key == "ci"@
}

proof fn lemma_keys_differ()
    ensures
        "rpmd"@ != "model"@,
        "rpmd"@ != "wmodel"@,
        "rpmd"@ != "am"@,
        "rpmd"@ != "osxvers"@,
        "rpmd"@ != "fn"@,
        "rpmd"@ != "md"@,
        "rpmd"@ != "srcvers"@,
        "rpmd"@ != "vs"@,
        "rpmd"@ != "ci"@,
        "model"@ != "wmodel"@,
        "model"@ != "am"@,
        "model"@ != "osxvers"@,
        "model"@ != "fn"@,
        "model"@ != "md"@,
        "model"@ != "srcvers"@,
        "model"@ != "vs"@,
        "model"@ != "ci"@,
        "wmodel"@ != "am"@,
        "wmodel"@ != "osxvers"@,
        "wmodel"@ != "fn"@,
        "wmodel"@ != "md"@,
        "wmodel"@ != "srcvers"@,
        "wmodel"@ != "vs"@,
        "wmodel"@ != "ci"@,
        "am"@ != "osxvers"@,
        "am"@ != "fn"@,
        "am"@ != "md"@,
        "am"@ != "srcvers"@,
        "am"@ != "vs"@,
        "am"@ != "ci"@,
        "osxvers"@ != "fn"@,
        "osxvers"@ != "md"@,
        "osxvers"@ != "srcvers"@,
        "osxvers"@ != "vs"@,
        "osxvers"@ != "ci"@,
        "fn"@ != "md"@,
        "fn"@ != "srcvers"@,
        "fn"@ != "vs"@,
        "fn"@ != "ci"@,
        "md"@ != "srcvers"@,
        "md"@ != "vs"@,
        "md"@ != "ci"@,
        "srcvers"@ != "vs"@,
        "srcvers"@ != "ci"@,
        "vs"@ != "ci"@,
{
    reveal_strlit("rpmd");
    reveal_strlit("model");
    reveal_strlit("wmodel");
    reveal_strlit("am");
    reveal_strlit("osxvers");
    reveal_strlit("fn");
    reveal_strlit("md");
    reveal_strlit("srcvers");
    reveal_strlit("vs");
    reveal_strlit("ci");
    assert("rpmd"@.len() == 4 && "rpmd"@[0] == 'r' && "rpmd"@[1] == 'p');
    assert("model"@.len() == 5 && "model"@[0] == 'm' && "model"@[1] == 'o');
    assert("wmodel"@.len() == 6 && "wmodel"@[0] == 'w' && "wmodel"@[1] == 'm');
    assert("am"@.len() == 2 && "am"@[0] == 'a' && "am"@[1] == 'm');
    assert("osxvers"@.len() == 7 && "osxvers"@[0] == 'o' && "osxvers"@[1] == 's');
    assert("fn"@.len() == 2 && "fn"@[0] == 'f' && "fn"@[1] == 'n');
    assert("md"@.len() == 2 && "md"@[0] == 'm' && "md"@[1] == 'd');
    assert("srcvers"@.len() == 7 && "srcvers"@[0] == 's' && "srcvers"@[1] == 'r');
    assert("vs"@.len() == 2 && "vs"@[0] == 'v' && "vs"@[1] == 's');
    assert("ci"@.len() == 2 && "ci"@[0] == 'c' && "ci"@[1] == 'i');
}

proof fn lemma_properties_differ()
    ensures
        "model_code"@ != "model"@,
        "model_code"@ != "os_version"@,
        "model_code"@ != "friendly_name"@,
        "model_code"@ != "firmware"@,
        "model_code"@ != "homekit_category"@,
        "model"@ != "os_version"@,
        "model"@ != "friendly_name"@,
        "model"@ != "firmware"@,
        "model"@ != "homekit_category"@,
        "os_version"@ != "friendly_name"@,
        "os_version"@ != "firmware"@,
        "os_version"@ != "homekit_category"@,
        "friendly_name"@ != "firmware"@,
        "friendly_name"@ != "homekit_category"@,
        "firmware"@ != "homekit_category"@,
{
    reveal_strlit("model_code");
    reveal_strlit("model");
    reveal_strlit("os_version");
    reveal_strlit("friendly_name");
    reveal_strlit("firmware");
    reveal_strlit("homekit_category");
    assert("model_code"@.len() == 10 && "model_code"@[0] == 'm');
    assert("model"@.len() == 5 && "model"@[0] == 'm');
    assert("os_version"@.len() == 10 && "os_version"@[0] == 'o');
    assert("friendly_name"@.len() == 13 && "friendly_name"@[0] == 'f');
    assert("firmware"@.len() == 8 && "firmware"@[0] == 'f');
    assert("homekit_category"@.len() == 16 && "homekit_category"@[0] == 'h');
}

/// The properties of a device under the names by which it tells them: what
/// else it tells leaves them alone.
pub proof fn law_properties_recorded(d: DetailsView, key: Seq<char>, value: Seq<char>)
    ensures
        told(d, "fn"@, value).property("friendly_name"@) == Some(value),
        told(d, "srcvers"@, value).property("firmware"@) == Some(value),
        told(d, "vs"@, value).property("firmware"@) == Some(value),
        d.property("model"@) is None ==> told(d, "md"@, value).property("model"@) == Some(value),
        d.property("model"@) is Some ==> told(d, "md"@, value) == d,
        told(d, "rpmd"@, value).property("model_code"@) == Some(value),
        apple::apple_model(value) is Some ==> told(d, "rpmd"@, value).property("model"@)
            == apple::apple_model(value),
        d.property("model_code"@) is None ==> told(d, "am"@, value).property("model_code"@) == Some(
            value,
        ),
        d.property("model_code"@) is Some ==> told(d, "am"@, value) == d,
        d.property("model_code"@) is None ==> told(d, "model"@, value).property("model_code"@)
            == Some(value) && told(d, "wmodel"@, value).property("model_code"@) == Some(value),
        d.property("model"@) is Some ==> told(d, "model"@, value).property("model"@) == d.property(
            "model"@,
        ),
        d.property("model"@) is None && apple::apple_model(value) is Some ==> told(
            d,
            "model"@,
            value,
        ).property("model"@) == apple::apple_model(value) && told(d, "wmodel"@, value).property(
            "model"@,
        ) == apple::apple_model(value),
        told(d, "osxvers"@, value).property("os_version"@) is Some,
        told(d, "ci"@, value).property("homekit_category"@) is Some,
        !telling_key(key) ==> told(d, key, value) == d,
        told(d, key, value).services == d.services,
{
    lemma_keys_differ();
    lemma_properties_differ();
}

/// The releases of macOS by the number that a device tells.
pub proof fn law_macos_releases(d: DetailsView)
    ensures
        told(d, "osxvers"@, "24"@).property("os_version"@) == Some("macOS 15 Sequoia"@),
        told(d, "osxvers"@, "23"@).property("os_version"@) == Some("macOS 14 Sonoma"@),
        told(d, "osxvers"@, "22"@).property("os_version"@) == Some("macOS 13 Ventura"@),
        told(d, "osxvers"@, "21"@).property("os_version"@) == Some("macOS 12 Monterey"@),
        told(d, "osxvers"@, "20"@).property("os_version"@) == Some("macOS 11 Big Sur"@),
{
    lemma_keys_differ();
    reveal_strlit("24");
    reveal_strlit("23");
    reveal_strlit("22");
    reveal_strlit("21");
    reveal_strlit("20");
    assert("24"@[1] == '4');
    assert("23"@[1] == '3');
    assert("22"@[1] == '2');
    assert("21"@[1] == '1');
    assert("20"@[1] == '0');
    let t = MACOS_NAMES@;
    assert(t.len() == 5);
    assert(t[0].0@ == "24"@ && t[0].1@ == "macOS 15 Sequoia"@);
    assert(t[1].0@ == "23"@ && t[1].1@ == "macOS 14 Sonoma"@);
    assert(t[2].0@ == "22"@ && t[2].1@ == "macOS 13 Ventura"@);
    assert(t[3].0@ == "21"@ && t[3].1@ == "macOS 12 Monterey"@);
    assert(t[4].0@ == "20"@ && t[4].1@ == "macOS 11 Big Sur"@);
    reveal_with_fuel(called, 7);
}

/// The categories of accessories by the number that a device tells.
#[verifier::rlimit(40)]
pub proof fn law_accessory_categories(d: DetailsView)
    ensures
        told(d, "ci"@, "1"@).property("homekit_category"@) == Some("Other"@),
        told(d, "ci"@, "2"@).property("homekit_category"@) == Some("Bridge"@),
        told(d, "ci"@, "3"@).property("homekit_category"@) == Some("Fan"@),
        told(d, "ci"@, "4"@).property("homekit_category"@) == Some("Garage Door"@),
        told(d, "ci"@, "5"@).property("homekit_category"@) == Some("Lightbulb"@),
        told(d, "ci"@, "6"@).property("homekit_category"@) == Some("Door Lock"@),
        told(d, "ci"@, "7"@).property("homekit_category"@) == Some("Outlet"@),
        told(d, "ci"@, "8"@).property("homekit_category"@) == Some("Switch"@),
        told(d, "ci"@, "9"@).property("homekit_category"@) == Some("Thermostat"@),
        told(d, "ci"@, "10"@).property("homekit_category"@) == Some("Sensor"@),
        told(d, "ci"@, "11"@).property("homekit_category"@) == Some("Security System"@),
        told(d, "ci"@, "12"@).property("homekit_category"@) == Some("Door"@),
        told(d, "ci"@, "13"@).property("homekit_category"@) == Some("Window"@),
        told(d, "ci"@, "14"@).property("homekit_category"@) == Some("Window Covering"@),
        told(d, "ci"@, "17"@).property("homekit_category"@) == Some("Sprinkler"@),
        told(d, "ci"@, "28"@).property("homekit_category"@) == Some("TV"@),
        told(d, "ci"@, "32"@).property("homekit_category"@) == Some("Router"@),
{
    lemma_keys_differ();
    reveal_strlit("1");
    reveal_strlit("2");
    reveal_strlit("3");
    reveal_strlit("4");
    reveal_strlit("5");
    reveal_strlit("6");
    reveal_strlit("7");
    reveal_strlit("8");
    reveal_strlit("9");
    reveal_strlit("10");
    reveal_strlit("11");
    reveal_strlit("12");
    reveal_strlit("13");
    reveal_strlit("14");
    reveal_strlit("17");
    reveal_strlit("28");
    reveal_strlit("32");
    assert("1"@.len() == 1 && "1"@[0] == '1');
    assert("2"@.len() == 1 && "2"@[0] == '2');
    assert("3"@.len() == 1 && "3"@[0] == '3');
    assert("4"@.len() == 1 && "4"@[0] == '4');
    assert("5"@.len() == 1 && "5"@[0] == '5');
    assert("6"@.len() == 1 && "6"@[0] == '6');
    assert("7"@.len() == 1 && "7"@[0] == '7');
    assert("8"@.len() == 1 && "8"@[0] == '8');
    assert("9"@.len() == 1 && "9"@[0] == '9');
    assert("10"@.len() == 2 && "10"@[0] == '1' && "10"@[1] == '0');
    assert("11"@.len() == 2 && "11"@[0] == '1' && "11"@[1] == '1');
    assert("12"@.len() == 2 && "12"@[0] == '1' && "12"@[1] == '2');
    assert("13"@.len() == 2 && "13"@[0] == '1' && "13"@[1] == '3');
    assert("14"@.len() == 2 && "14"@[0] == '1' && "14"@[1] == '4');
    assert("17"@.len() == 2 && "17"@[0] == '1' && "17"@[1] == '7');
    assert("28"@.len() == 2 && "28"@[0] == '2' && "28"@[1] == '8');
    assert("32"@.len() == 2 && "32"@[0] == '3' && "32"@[1] == '2');
    let t = HOMEKIT_CATEGORIES@;
    assert(t.len() == 17);
    assert(t[0].0@ == "1"@ && t[0].1@ == "Other"@);
    assert(t[1].0@ == "2"@ && t[1].1@ == "Bridge"@);
    assert(t[2].0@ == "3"@ && t[2].1@ == "Fan"@);
    assert(t[3].0@ == "4"@ && t[3].1@ == "Garage Door"@);
    assert(t[4].0@ == "5"@ && t[4].1@ == "Lightbulb"@);
    assert(t[5].0@ == "6"@ && t[5].1@ == "Door Lock"@);
    assert(t[6].0@ == "7"@ && t[6].1@ == "Outlet"@);
    assert(t[7].0@ == "8"@ && t[7].1@ == "Switch"@);
    assert(t[8].0@ == "9"@ && t[8].1@ == "Thermostat"@);
    assert(t[9].0@ == "10"@ && t[9].1@ == "Sensor"@);
    assert(t[10].0@ == "11"@ && t[10].1@ == "Security System"@);
    assert(t[11].0@ == "12"@ && t[11].1@ == "Door"@);
    assert(t[12].0@ == "13"@ && t[12].1@ == "Window"@);
    assert(t[13].0@ == "14"@ && t[13].1@ == "Window Covering"@);
    assert(t[14].0@ == "17"@ && t[14].1@ == "Sprinkler"@);
    assert(t[15].0@ == "28"@ && t[15].1@ == "TV"@);
    assert(t[16].0@ == "32"@ && t[16].1@ == "Router"@);
    reveal_with_fuel(called, 19);
}

/// The services of a device by the name of an instance of them: each mark in
/// the name adds its service, and nothing else does.
#[verifier::rlimit(40)]
pub proof fn law_services_recorded(
    d: DetailsView,
    name: Seq<char>,
    pairs: Seq<(Seq<char>, Seq<char>)>,
    other: Seq<char>,
)
    ensures
        ({
            let services = recorded(d, (name, pairs)).services;
            &&& text::contains(name, "_airplay"@) ==> services.contains("AirPlay"@)
            &&& text::contains(name, "_raop"@) ==> services.contains("AirPlay Audio"@)
            &&& text::contains(name, "_hap"@) ==> services.contains("HomeKit"@)
            &&& text::contains(name, "_googlecast"@) ==> services.contains("Chromecast"@)
            &&& text::contains(name, "_spotify"@) ==> services.contains("Spotify Connect"@)
            &&& text::contains(name, "_companion-link"@) ==> services.contains("Apple Companion"@)
            &&& text::contains(name, "_apple-mobdev2"@) ==> services.contains("iPhone/iPad"@)
            &&& text::contains(name, "_airdrop"@) ==> services.contains("AirDrop"@)
            &&& text::contains(name, "_remotepairing"@) ==> services.contains("iPhone"@)
            &&& text::contains(name, "_continuity"@) ==> services.contains("Continuity"@)
            &&& d.services.contains(other) ==> services.contains(other)
            &&& services.contains(other) ==> d.services.contains(other)
                || text::contains(name, "_airplay"@) && other == "AirPlay"@
                || text::contains(name, "_raop"@) && other == "AirPlay Audio"@
                || text::contains(name, "_hap"@) && other == "HomeKit"@
                || text::contains(name, "_googlecast"@) && other == "Chromecast"@
                || text::contains(name, "_spotify"@) && other == "Spotify Connect"@
                || text::contains(name, "_companion-link"@) && other == "Apple Companion"@
                || text::contains(name, "_apple-mobdev2"@) && other == "iPhone/iPad"@
                || text::contains(name, "_airdrop"@) && other == "AirDrop"@
                || text::contains(name, "_remotepairing"@) && other == "iPhone"@
                || text::contains(name, "_continuity"@) && other == "Continuity"@
        }),
{
    lemma_told_services(d, pairs);
    let t = SERVICE_MARKS@;
    assert(t.len() == 10);
    assert(t[0].0@ == "_airplay"@ && t[0].1@ == "AirPlay"@);
    assert(t[1].0@ == "_raop"@ && t[1].1@ == "AirPlay Audio"@);
    assert(t[2].0@ == "_hap"@ && t[2].1@ == "HomeKit"@);
    assert(t[3].0@ == "_googlecast"@ && t[3].1@ == "Chromecast"@);
    assert(t[4].0@ == "_spotify"@ && t[4].1@ == "Spotify Connect"@);
    assert(t[5].0@ == "_companion-link"@ && t[5].1@ == "Apple Companion"@);
    assert(t[6].0@ == "_apple-mobdev2"@ && t[6].1@ == "iPhone/iPad"@);
    assert(t[7].0@ == "_airdrop"@ && t[7].1@ == "AirDrop"@);
    assert(t[8].0@ == "_remotepairing"@ && t[8].1@ == "iPhone"@);
    assert(t[9].0@ == "_continuity"@ && t[9].1@ == "Continuity"@);
    reveal_with_fuel(marked, 11);
}

proof fn lemma_told_services(d: DetailsView, pairs: Seq<(Seq<char>, Seq<char>)>)
    ensures
        told_all(d, pairs).services == d.services,
    decreases pairs.len(),
{
    if pairs.len() > 0 {
        lemma_told_services(d, pairs.drop_last());
    }
}

/// The name of a host is told without the domain of this network.
pub proof fn law_host_name_bare(host: Seq<char>)
    requires
        host.len() > 0,
        !text::ends(host, ".local"@),
        host.last() != '.',
    ensures
        bare_name(host + ".local"@) == host,
        bare_name(host) == host,
        bare_name(host + "."@) == host,
{
    reveal_strlit(".local");
    reveal_strlit(".");
    let full = host + ".local"@;
    assert(full.subrange(full.len() - 6, full.len() as int) =~= ".local"@);
    assert(full.take(full.len() - 6) =~= host);
    assert(text::without_suffixes(host, ".local"@) == host);
    lemma_no_full_stop(host);
    let stopped = host + "."@;
    assert(stopped.subrange(stopped.len() - 1, stopped.len() as int) =~= "."@);
    assert(stopped.take(stopped.len() - 1) =~= host);
    if text::ends(stopped, ".local"@) {
        assert(stopped.subrange(stopped.len() - 6, stopped.len() as int)[5] == stopped[stopped.len()
            - 1]);
    }
    assert(text::without_suffixes(stopped, ".local"@) == stopped);
}

proof fn lemma_no_full_stop(host: Seq<char>)
    requires
        host.len() > 0,
        host.last() != '.',
    ensures
        text::without_suffixes(host, "."@) == host,
{
    reveal_strlit(".");
    if text::ends(host, "."@) {
        assert(host.subrange(host.len() - 1, host.len() as int)[0] == host[host.len() - 1]);
    }
}

/// A device is named by an instance of its service: by what stands before the
/// service and behind an at sign, if there is one.
pub proof fn law_instance_names_device(id: Seq<char>, name: Seq<char>, service: Seq<char>)
    requires
        name.len() > 0,
        forall|i: int|
            0 <= i < name.len() ==> #[trigger] name[i] != ' ' && name[i] != '@' && name[i] != '.'
                && !text::is_white(name[i]),
        forall|i: int| 0 <= i < id.len() ==> #[trigger] id[i] != '@' && id[i] != '.',
        service.len() > 0,
        service.last() != '.' && service.last() != 'l',
    ensures
        instance_device(name + "._"@ + service) == name,
        instance_device(id + seq!['@'] + name + "._"@ + service) == name,
{
    lemma_instance(name, name, service);
    let full = id + seq!['@'] + name;
    text::lemma_split_single(name, '@');
    text::lemma_split_first(id, name, '@');
    lemma_instance(full, name, service);
}

proof fn lemma_instance(full: Seq<char>, name: Seq<char>, service: Seq<char>)
    requires
        name.len() > 0,
        forall|i: int|
            0 <= i < name.len() ==> #[trigger] name[i] != ' ' && name[i] != '@' && !text::is_white(
                name[i],
            ),
        forall|i: int| 0 <= i < full.len() ==> #[trigger] full[i] != '.',
        full == name || text::split(full, '@').last() == name,
        service.len() > 0,
        service.last() != '.' && service.last() != 'l',
    ensures
        instance_device(full + "._"@ + service) == name,
{
    reveal_strlit("._");
    reveal_strlit(".local");
    reveal_strlit(".");
    let s = full + "._"@ + service;
    assert(s.last() == service.last());
    if text::ends(s, ".local"@) {
        assert(s.subrange(s.len() - 6, s.len() as int)[5] == s.last());
    }
    assert(text::without_suffixes(s, ".local"@) == s);
    lemma_no_full_stop(s);
    assert(bare_name(s) == s);
    let n = full.len() as int;
    assert(s.subrange(n, n + 2) =~= "._"@);
    assert(text::occurs_at(s, "._"@, n));
    text::lemma_find_from(s, "._"@, 0);
    let i = text::find_from(s, "._"@, 0)->0;
    if i < n {
        assert(s.subrange(i, i + 2)[0] == s[i]);
        assert(s[i] == full[i]);
    }
    assert(s.take(n) =~= full);
    if full == name {
        text::lemma_split_single(name, '@');
    }
    assert(text::last_piece(full, '@') == name);
    text::lemma_char_from(name, ' ', 0);
    let none = Seq::<char>::empty();
    assert(none + name + none =~= name);
    assert(!text::is_white(name[0]) && !text::is_white(name[name.len() - 1]));
    text::law_trimmed(none, name, none);
}

} // verus!
