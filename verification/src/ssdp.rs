//! Discovery of devices by UPnP and by Web Services on Devices: the requests,
//! and what the answers say of a device.

use vstd::prelude::*;
use vstd::string::*;
use vstd::utf8::*;

use crate::net;
use crate::net::{IpAddr, is_local_ip, parse_v4};
use crate::table::Table;
use crate::text;
use crate::text::{
    after_last, chars_of, find_chars, has_char, has_part, hex_text, join_texts, line_texts,
    lower_ascii, lower_case, part, same, split_chars, starts_with, text_before, trim, utf8_text,
    word_texts, zero_padded,
};

verus! {

/// The request for every UPnP service.
pub const SEARCH_ALL: &'static str =
    "M-SEARCH * HTTP/1.1\r\nHOST: 239.255.255.250:1900\r\nMAN: \"ssdp:discover\"\r\nMX: 2\r\nST: ssdp:all\r\n\r\n";

/// The request for the UPnP root devices.
pub const SEARCH_ROOT: &'static str =
    "M-SEARCH * HTTP/1.1\r\nHOST: 239.255.255.250:1900\r\nMAN: \"ssdp:discover\"\r\nMX: 2\r\nST: upnp:rootdevice\r\n\r\n";

// ---------------------------------------------------------------------------
// XML
// ---------------------------------------------------------------------------

/// The tag that opens an element.
pub open spec fn opening(tag: Seq<char>) -> Seq<char> {
    "<"@ + tag + ">"@
}

/// The tag that closes an element.
pub open spec fn closing(tag: Seq<char>) -> Seq<char> {
    "</"@ + tag + ">"@
}

/// What stands between the first opening tag and the first closing tag behind
/// it, without white space around it; nothing where nothing is left.
pub open spec fn xml_tag(xml: Seq<char>, tag: Seq<char>) -> Option<Seq<char>> {
    match text::find_from(xml, opening(tag), 0) {
        None => None,
        Some(s) => {
            let a = s + opening(tag).len();
            match text::find_from(xml, closing(tag), a) {
                None => None,
                Some(e) => {
                    let value = text::trimmed(xml.subrange(a, e));
                    if value.len() == 0 {
                        None
                    } else {
                        Some(value)
                    }
                },
            }
        },
    }
}

/// The content of the first element with a tag.
pub fn extract_xml_tag(xml: &str, tag: &str) -> (r: Option<String>)
    ensures
        text::text_view(r) == xml_tag(xml@, tag@),
{
    let mut open = "<".to_owned();
    open.append(tag);
    open.append(">");
    let mut close = "</".to_owned();
    close.append(tag);
    close.append(">");
    let c = chars_of(xml);
    let o = chars_of(open.as_str());
    let q = chars_of(close.as_str());
    proof {
        text::lemma_find_from(xml@, open@, 0);
    }
    match find_chars(c.as_slice(), o.as_slice(), 0) {
        None => None,
        Some(s) => {
            let total: usize = c.len();
            let a: usize = s + o.len();
            proof {
                text::lemma_find_from(xml@, close@, a as int);
            }
            match find_chars(c.as_slice(), q.as_slice(), a) {
                None => None,
                Some(e) => {
                    let value = trim(part(c.as_slice(), a, e).as_str());
                    if value.as_str().unicode_len() == 0 {
                        None
                    } else {
                        Some(value)
                    }
                },
            }
        },
    }
}

// ---------------------------------------------------------------------------
// Locations
// ---------------------------------------------------------------------------

/// A location without its scheme.
pub open spec fn location_rest(url: Seq<char>) -> Seq<char> {
    if text::starts(url, "http://"@) {
        url.skip("http://"@.len() as int)
    } else if text::starts(url, "https://"@) {
        url.skip("https://"@.len() as int)
    } else {
        url
    }
}

/// Characters that end the authority of a location.
pub open spec fn ends_authority(c: char) -> bool {
    c == '/' || c == '\\' || c == '?' || c == '#'
}

/// The first position from `from` on that ends an authority, or the length.
pub open spec fn authority_end(s: Seq<char>, from: int) -> int
    decreases s.len() - from,
{
    if from < 0 || from >= s.len() {
        s.len() as int
    } else if ends_authority(s[from]) {
        from
    } else {
        authority_end(s, from + 1)
    }
}

/// The authority of a location: what stands before its path, query and
/// fragment.
pub open spec fn authority(url: Seq<char>) -> Seq<char> {
    let rest = location_rest(url);
    rest.take(authority_end(rest, 0))
}

/// The host that a client contacts for a location: the authority without the
/// user in front of the last `@` and without the port.
pub open spec fn contacted_host(url: Seq<char>) -> Seq<char> {
    text::before_char(text::last_piece(authority(url), '@'), ':')
}

/// A text is the address of a host of this network.
pub open spec fn local_address(host: Seq<char>) -> bool {
    match net::v4_read(host) {
        Some(a) => net::local_ip(IpAddr::V4(a)),
        None => false,
    }
}

/// The authority of a location names no user, and its host is an address of
/// this network. A host name is not.
pub open spec fn local_url(url: Seq<char>) -> bool {
    !authority(url).contains('@') && local_address(text::before_char(authority(url), ':'))
}

fn location_authority(url: &str) -> (r: String)
    ensures
        r@ == authority(url@),
{
    let c = chars_of(url);
    let total: usize = c.len();
    let from: usize = if starts_with(url, "http://") {
        "http://".unicode_len()
    } else if starts_with(url, "https://") {
        "https://".unicode_len()
    } else {
        0
    };
    let ghost rest = location_rest(url@);
    assert(rest =~= url@.skip(from as int));
    let mut i: usize = from;
    while i < total && !(c[i] == '/' || c[i] == '\\' || c[i] == '?' || c[i] == '#')
        invariant
            from <= i <= total,
            total == c@.len(),
            c@ == url@,
            rest == url@.skip(from as int),
            authority_end(rest, 0) == authority_end(rest, i - from),
        decreases total - i,
    {
        assert(rest[i - from] == c@[i as int]);
        i = i + 1;
    }
    assert(i < total ==> rest[i - from] == c@[i as int]);
    assert(url@.subrange(from as int, i as int) =~= rest.take(i - from));
    part(c.as_slice(), from, i)
}

/// Whether the host of a location is an address of this network.
pub fn is_local_ssdp_url(url: &str) -> (r: bool)
    ensures
        r == local_url(url@),
{
    let whole = location_authority(url);
    if has_char(chars_of(whole.as_str()).as_slice(), '@') {
        return false;
    }
    let host = text_before(whole.as_str(), ':');
    match parse_v4(host.as_str()) {
        Some(ip) => is_local_ip(&ip),
        None => false,
    }
}

/// The host that a client contacts for a location that may be asked is an
/// address of this network, whatever else the location holds.
pub proof fn law_local_url_contacts_address(url: Seq<char>)
    requires
        local_url(url),
    ensures
        local_address(contacted_host(url)),
        net::v4_read(contacted_host(url)) is Some,
{
    let a = authority(url);
    assert forall|i: int| 0 <= i < a.len() implies a[i] != '@' by {
        assert(a.contains(a[i]));
    }
    text::lemma_split_single(a, '@');
}

/// The location that a header line gives, if it may be asked.
pub open spec fn line_location(line: Seq<char>) -> Option<Seq<char>> {
    if line.len() < 9 || text::ascii_lower(line.take(9)) != "location:"@ {
        None
    } else {
        let url = text::trimmed(line.skip(9));
        if text::starts(url, "http"@) && local_url(url) {
            Some(url)
        } else {
            None
        }
    }
}

/// The first location that may be asked, from line `from` on.
pub open spec fn location_from(lines: Seq<Seq<char>>, from: int) -> Option<Seq<char>>
    decreases lines.len() - from,
{
    if from < 0 || from >= lines.len() {
        None
    } else if line_location(lines[from]) is Some {
        line_location(lines[from])
    } else {
        location_from(lines, from + 1)
    }
}

fn location_of_line(line: &str) -> (r: Option<String>)
    ensures
        text::text_view(r) == line_location(line@),
{
    let c = chars_of(line);
    if c.len() < 9 {
        return None;
    }
    let head = part(c.as_slice(), 0, 9);
    assert(head@ =~= line@.take(9));
    let lower = lower_ascii(head.as_str());
    if !same(lower.as_str(), "location:") {
        return None;
    }
    let rest = part(c.as_slice(), 9, c.len());
    assert(rest@ =~= line@.skip(9));
    let url = trim(rest.as_str());
    if starts_with(url.as_str(), "http") && is_local_ssdp_url(url.as_str()) {
        Some(url)
    } else {
        None
    }
}

/// The location of a device's description that an answer gives: the first
/// whose host is an address of this network.
pub fn ssdp_location(response: &str) -> (r: Option<String>)
    ensures
        text::text_view(r) == location_from(text::lines(response@), 0),
{
    let l = line_texts(response);
    let ghost all = text::lines(response@);
    let mut i: usize = 0;
    while i < l.len()
        invariant
            i <= l@.len(),
            all == text::texts(l@),
            all == text::lines(response@),
            location_from(all, 0) == location_from(all, i as int),
        decreases l@.len() - i,
    {
        assert(all[i as int] == l@[i as int]@);
        match location_of_line(l[i].as_str()) {
            Some(url) => {
                return Some(url);
            },
            None => {},
        }
        i = i + 1;
    }
    None
}

/// The location that an answer of some bytes gives; bytes that are no text give
/// none.
pub open spec fn answered_location(data: Seq<u8>) -> Option<Seq<char>> {
    if valid_utf8(data) {
        location_from(text::lines(decode_utf8(data)), 0)
    } else {
        None
    }
}

/// The locations of descriptions once a host answered: the first location that
/// a host gives counts.
pub open spec fn located(
    m: Map<IpAddr, Seq<char>>,
    ip: IpAddr,
    data: Seq<u8>,
) -> Map<IpAddr, Seq<char>> {
    match answered_location(data) {
        Some(url) if !m.dom().contains(ip) => m.insert(ip, url),
        _ => m,
    }
}

/// Takes the answer of a host to a search.
pub fn take_location(locations: &mut Table<IpAddr, String>, ip: IpAddr, data: &[u8])
    ensures
        final(locations)@ == located(old(locations)@, ip, data@),
{
    if let Some(response) = utf8_text(data) {
        if let Some(url) = ssdp_location(response.as_str()) {
            if !locations.contains_key(&ip) {
                locations.insert(ip, url);
            }
        }
    }
}

proof fn lemma_location_from(lines: Seq<Seq<char>>, from: int)
    ensures
        location_from(lines, from) matches Some(u) ==> local_url(u),
    decreases lines.len() - from,
{
    if from < 0 || from >= lines.len() {
    } else if line_location(lines[from]) is Some {
    } else {
        lemma_location_from(lines, from + 1);
    }
}

/// Whatever hosts answer, only hosts of this network are asked for a
/// description.
pub proof fn law_only_local_locations(m: Map<IpAddr, Seq<char>>, ip: IpAddr, data: Seq<u8>)
    requires
        forall|q: IpAddr| #[trigger] m.dom().contains(q) ==> local_url(m[q]),
    ensures
        forall|q: IpAddr| #[trigger]
            located(m, ip, data).dom().contains(q) ==> local_url(located(m, ip, data)[q]),
{
    lemma_location_from(text::lines(decode_utf8(data)), 0);
}

// ---------------------------------------------------------------------------
// Descriptions
// ---------------------------------------------------------------------------

/// Elements of a description and the properties that they give.
pub const DESCRIPTION_TAGS: [(&'static str, &'static str); 6] = [
    ("friendlyName", "friendly_name"),
    ("manufacturer", "manufacturer"),
    ("modelName", "model_name"),
    ("modelNumber", "model_number"),
    ("serialNumber", "serial"),
    ("modelDescription", "description"),
];

/// The name of a service in its full name: the part before the last colon.
pub open spec fn service_name(urn: Seq<char>) -> Seq<char> {
    let p = text::split(urn, ':');
    if p.len() >= 2 {
        p[p.len() - 2]
    } else {
        urn
    }
}

/// The services that a description lists from position `from` on.
pub open spec fn services_from(xml: Seq<char>, from: int) -> Seq<Seq<char>>
    decreases xml.len() - from + 1,
{
    match text::find_from(xml, "<serviceType>"@, from) {
        None => Seq::empty(),
        Some(s) => match text::find_from(xml, "</serviceType>"@, s + 13) {
            None => Seq::empty(),
            Some(e) => if e <= from || e > xml.len() {
                Seq::empty()
            } else {
                seq![service_name(text::trimmed(xml.subrange(s + 13, e)))] + services_from(xml, e)
            },
        },
    }
}

/// The properties that the first `n` elements give.
pub open spec fn tagged(xml: Seq<char>, n: int) -> Map<Seq<char>, Seq<char>>
    decreases n,
{
    if n <= 0 || n > DESCRIPTION_TAGS@.len() {
        Map::empty()
    } else {
        match xml_tag(xml, DESCRIPTION_TAGS@[n - 1].0@) {
            Some(v) => tagged(xml, n - 1).insert(DESCRIPTION_TAGS@[n - 1].1@, v),
            None => tagged(xml, n - 1),
        }
    }
}

/// What a description says of a device.
pub open spec fn description(xml: Seq<char>) -> Map<Seq<char>, Seq<char>> {
    let m = tagged(xml, DESCRIPTION_TAGS@.len() as int);
    let s = services_from(xml, 0);
    if s.len() > 0 {
        m.insert("services"@, text::join(s, ", "@))
    } else {
        m
    }
}

fn name_of_service(urn: &str) -> (r: String)
    ensures
        r@ == service_name(urn@),
{
    let c = chars_of(urn);
    let p = split_chars(c.as_slice(), ':');
    assert(text::texts(p@).len() == p@.len());
    let n: usize = p.len();
    if n >= 2 {
        assert(text::texts(p@)[n - 2] == p@[n - 2]@);
        p[n - 2].as_str().to_owned()
    } else {
        urn.to_owned()
    }
}

fn list_services(xml: &str) -> (r: Vec<String>)
    ensures
        text::texts(r@) == services_from(xml@, 0),
{
    let c = chars_of(xml);
    let total: usize = c.len();
    let o = chars_of("<serviceType>");
    let q = chars_of("</serviceType>");
    proof {
        reveal_strlit("<serviceType>");
        reveal_strlit("</serviceType>");
    }
    let mut r: Vec<String> = Vec::new();
    let mut from: usize = 0;
    assert(text::texts(r@) + services_from(xml@, 0) =~= services_from(xml@, 0));
    loop
        invariant
            c@ == xml@,
            total == c@.len(),
            o@ == "<serviceType>"@,
            q@ == "</serviceType>"@,
            o@.len() == 13,
            from <= total,
            text::texts(r@) + services_from(xml@, from as int) == services_from(xml@, 0),
        ensures
            text::texts(r@) == services_from(xml@, 0),
        decreases total - from,
    {
        assert(text::texts(r@) + Seq::<Seq<char>>::empty() =~= text::texts(r@));
        proof {
            text::lemma_find_from(xml@, o@, from as int);
        }
        match find_chars(c.as_slice(), o.as_slice(), from) {
            None => {
                break;
            },
            Some(s) => {
                let a: usize = s + 13;
                proof {
                    text::lemma_find_from(xml@, q@, a as int);
                }
                match find_chars(c.as_slice(), q.as_slice(), a) {
                    None => {
                        break;
                    },
                    Some(e) => {
                        let urn = trim(part(c.as_slice(), a, e).as_str());
                        let name = name_of_service(urn.as_str());
                        let ghost before = text::texts(r@);
                        let ghost v = name@;
                        let ghost rest = services_from(xml@, e as int);
                        r.push(name);
                        assert(text::texts(r@) =~= before.push(v));
                        assert(before + (seq![v] + rest) =~= before.push(v) + rest);
                        from = e;
                    },
                }
            },
        }
    }
    r
}

/// What a description says of a device, by property.
pub fn read_description(xml: &str) -> (r: Table<String, String>)
    ensures
        r@ == description(xml@),
{
    let mut r: Table<String, String> = Table::new();
    let n: usize = DESCRIPTION_TAGS.len();
    for i in 0..n
        invariant
            n == DESCRIPTION_TAGS@.len(),
            r@ == tagged(xml@, i as int),
    {
        let entry = DESCRIPTION_TAGS[i];
        match extract_xml_tag(xml, entry.0) {
            Some(v) => r.insert(entry.1.to_owned(), v),
            None => {},
        }
    }
    let s = list_services(xml);
    assert(text::texts(s@).len() == s@.len());
    if s.len() > 0 {
        r.insert("services".to_owned(), join_texts(&s, ", "));
    }
    r
}

// ---------------------------------------------------------------------------
// Web Services on Devices
// ---------------------------------------------------------------------------

/// The number that the time and the process give a request.
pub open spec fn mixed(now: u64, pid: u64) -> nat {
    ((now * 6364136223846793005 + pid) % 0x1_0000_0000_0000_0000) as nat
}

/// `n` in hexadecimal, in at least `w` digits.
pub open spec fn hex_wide(n: nat, w: nat) -> Seq<char> {
    text::zero_pad(text::hex(n), w)
}

/// The identifier of a request made at a time, in nanoseconds, by a process.
pub open spec fn message_id(now: u64, pid: u64) -> Seq<char> {
    let mix = mixed(now, pid);
    "urn:uuid:"@ + hex_wide(mix / 0x1_0000_0000, 8) + "-"@ + hex_wide(
        (mix / 0x1_0000) % 0x1_0000,
        4,
    ) + "-4"@ + hex_wide(mix % 0x1000, 3) + "-"@ + hex_wide(
        0x8000 + (mix / 0x1_0000_0000_0000) % 0x4000,
        4,
    ) + "-"@ + hex_wide((now as nat) % 0x1_0000_0000_0000, 12)
}

/// What stands in a request before its identifier.
pub const PROBE_HEAD: &'static str =
    "<?xml version=\"1.0\" encoding=\"UTF-8\"?>\n<soap:Envelope xmlns:soap=\"http://www.w3.org/2003/05/soap-envelope\" xmlns:wsa=\"http://schemas.xmlsoap.org/ws/2004/08/addressing\" xmlns:wsd=\"http://schemas.xmlsoap.org/ws/2005/04/discovery\" xmlns:wsdp=\"http://schemas.xmlsoap.org/ws/2006/02/devprof\">\n  <soap:Header>\n    <wsa:To>urn:schemas-xmlsoap-org:ws:2005:04:discovery</wsa:To>\n    <wsa:Action>http://schemas.xmlsoap.org/ws/2005/04/discovery/Probe</wsa:Action>\n    <wsa:MessageID>";

/// What stands in a request behind its identifier.
pub const PROBE_TAIL: &'static str =
    "</wsa:MessageID>\n  </soap:Header>\n  <soap:Body>\n    <wsd:Probe/>\n  </soap:Body>\n</soap:Envelope>";

fn push_hex_wide(s: &mut String, n: u64, w: usize)
    ensures
        final(s)@ == old(s)@ + hex_wide(n as nat, w as nat),
{
    let h = hex_text(n);
    let p = zero_padded(h.as_str(), w);
    s.append(p.as_str());
}

/// The request for devices, made at a time by a process.
pub fn wsd_probe(now: u64, pid: u64) -> (r: String)
    ensures
        r@ == PROBE_HEAD@ + message_id(now, pid) + PROBE_TAIL@,
{
    let mix: u64 = ((now as u128 * 6364136223846793005u128 + pid as u128)
        % 0x1_0000_0000_0000_0000u128) as u64;
    let mut id = "urn:uuid:".to_owned();
    push_hex_wide(&mut id, mix / 0x1_0000_0000, 8);
    id.append("-");
    push_hex_wide(&mut id, (mix / 0x1_0000) % 0x1_0000, 4);
    id.append("-4");
    push_hex_wide(&mut id, mix % 0x1000, 3);
    id.append("-");
    push_hex_wide(&mut id, 0x8000 + (mix / 0x1_0000_0000_0000) % 0x4000, 4);
    id.append("-");
    push_hex_wide(&mut id, now % 0x1_0000_0000_0000, 12);
    let mut r = PROBE_HEAD.to_owned();
    r.append(id.as_str());
    r.append(PROBE_TAIL);
    r
}

/// The content of an element under the first of two tags that has one.
pub open spec fn either_tag(xml: Seq<char>, a: Seq<char>, b: Seq<char>) -> Option<Seq<char>> {
    if xml_tag(xml, a) is Some {
        xml_tag(xml, a)
    } else {
        xml_tag(xml, b)
    }
}

fn extract_either(xml: &str, a: &str, b: &str) -> (r: Option<String>)
    ensures
        text::text_view(r) == either_tag(xml@, a@, b@),
{
    match extract_xml_tag(xml, a) {
        Some(v) => Some(v),
        None => extract_xml_tag(xml, b),
    }
}

/// The types of a device without their prefixes.
pub open spec fn short_types(types: Seq<char>) -> Seq<Seq<char>> {
    text::words(types).map_values(|w: Seq<char>| text::last_piece(w, ':'))
}

/// The class that the types of a device tell, given in lower case.
pub open spec fn type_class(lower: Seq<char>) -> Option<Seq<char>> {
    if text::contains(lower, "computer"@) {
        Some("Computer"@)
    } else if text::contains(lower, "printer"@) || text::contains(lower, "print"@) {
        Some("Printer"@)
    } else if text::contains(lower, "scanner"@) {
        Some("Scanner"@)
    } else if text::contains(lower, "device"@) {
        Some("Device"@)
    } else {
        None
    }
}

/// The host name in an address of a device; numbers are no host names.
pub open spec fn address_host(address: Seq<char>) -> Option<Seq<char>> {
    match text::find_from(address, "://"@, 0) {
        None => None,
        Some(i) => {
            let host = text::before_char(address.skip(i + 3), ':');
            if host.len() > 0 && !text::is_digit(host[0]) {
                Some(host)
            } else {
                None
            }
        },
    }
}

/// The first host name among addresses, from entry `from` on.
pub open spec fn host_from(addresses: Seq<Seq<char>>, from: int) -> Option<Seq<char>>
    decreases addresses.len() - from,
{
    if from < 0 || from >= addresses.len() {
        None
    } else if address_host(addresses[from]) is Some {
        address_host(addresses[from])
    } else {
        host_from(addresses, from + 1)
    }
}

/// What an answer says of a device.
pub open spec fn probe_match(xml: Seq<char>) -> Map<Seq<char>, Seq<char>> {
    let typed = match either_tag(xml, "wsd:Types"@, "d:Types"@) {
        None => Map::empty(),
        Some(types) => {
            let m = if short_types(types).len() > 0 {
                Map::empty().insert("wsd_types"@, text::join(short_types(types), ", "@))
            } else {
                Map::empty()
            };
            match type_class(text::lowered(types)) {
                Some(c) => m.insert("wsd_class"@, c),
                None => m,
            }
        },
    };
    match either_tag(xml, "wsd:XAddrs"@, "d:XAddrs"@) {
        None => typed,
        Some(addresses) => match host_from(text::words(addresses), 0) {
            Some(host) => typed.insert("wsd_hostname"@, host),
            None => typed,
        },
    }
}

fn class_of_types(lower: &str) -> (r: Option<&'static str>)
    ensures
        match r {
            Some(c) => type_class(lower@) == Some(c@),
            None => type_class(lower@) is None,
        },
{
    if has_part(lower, "computer") {
        Some("Computer")
    } else if has_part(lower, "printer") || has_part(lower, "print") {
        Some("Printer")
    } else if has_part(lower, "scanner") {
        Some("Scanner")
    } else if has_part(lower, "device") {
        Some("Device")
    } else {
        None
    }
}

fn host_of_address(address: &str) -> (r: Option<String>)
    ensures
        text::text_view(r) == address_host(address@),
{
    let c = chars_of(address);
    let m = chars_of("://");
    proof {
        reveal_strlit("://");
        text::lemma_find_from(address@, m@, 0);
    }
    let total: usize = c.len();
    match find_chars(c.as_slice(), m.as_slice(), 0) {
        None => None,
        Some(i) => {
            let rest = part(c.as_slice(), i + 3, total);
            assert(rest@ =~= address@.skip(i + 3));
            let host = text_before(rest.as_str(), ':');
            let h = chars_of(host.as_str());
            if h.len() > 0 && !('0' <= h[0] && h[0] <= '9') {
                Some(host)
            } else {
                None
            }
        },
    }
}

fn first_host(addresses: &Vec<String>) -> (r: Option<String>)
    ensures
        text::text_view(r) == host_from(text::texts(addresses@), 0),
{
    let ghost all = text::texts(addresses@);
    let mut i: usize = 0;
    while i < addresses.len()
        invariant
            i <= addresses@.len(),
            all == text::texts(addresses@),
            host_from(all, 0) == host_from(all, i as int),
        decreases addresses@.len() - i,
    {
        assert(all[i as int] == addresses@[i as int]@);
        match host_of_address(addresses[i].as_str()) {
            Some(h) => {
                return Some(h);
            },
            None => {},
        }
        i = i + 1;
    }
    None
}

fn shorten_types(types: &str) -> (r: Vec<String>)
    ensures
        text::texts(r@) == short_types(types@),
{
    let w = word_texts(types);
    let ghost all = text::words(types@);
    let mut r: Vec<String> = Vec::new();
    let n: usize = w.len();
    assert(text::texts(w@).len() == w@.len());
    for i in 0..n
        invariant
            n == w@.len(),
            all == text::texts(w@),
            r@.len() == i,
            forall|j: int| 0 <= j < i ==> (#[trigger] r@[j])@ == text::last_piece(all[j], ':'),
    {
        assert(all[i as int] == w@[i as int]@);
        r.push(after_last(w[i].as_str(), ':'));
    }
    assert(text::texts(r@) =~= short_types(types@));
    r
}

/// What an answer to a request for devices says of one, by property.
pub fn read_probe_match(xml: &str) -> (r: Table<String, String>)
    ensures
        r@ == probe_match(xml@),
{
    let mut r: Table<String, String> = Table::new();
    match extract_either(xml, "wsd:Types", "d:Types") {
        None => {},
        Some(types) => {
            let s = shorten_types(types.as_str());
            assert(text::texts(s@).len() == s@.len());
            if s.len() > 0 {
                r.insert("wsd_types".to_owned(), join_texts(&s, ", "));
            }
            let lower = lower_case(types.as_str());
            match class_of_types(lower.as_str()) {
                Some(c) => r.insert("wsd_class".to_owned(), c.to_owned()),
                None => {},
            }
        },
    }
    match extract_either(xml, "wsd:XAddrs", "d:XAddrs") {
        None => {},
        Some(addresses) => {
            let w = word_texts(addresses.as_str());
            match first_host(&w) {
                Some(host) => r.insert("wsd_hostname".to_owned(), host),
                None => {},
            }
        },
    }
    r
}

/// What devices told once a host answered: an answer that says something takes
/// the place of an earlier one.
pub open spec fn matched(
    m: Map<IpAddr, Map<Seq<char>, Seq<char>>>,
    ip: IpAddr,
    data: Seq<u8>,
) -> Map<IpAddr, Map<Seq<char>, Seq<char>>> {
    if valid_utf8(data) && probe_match(decode_utf8(data)) != Map::<Seq<char>, Seq<char>>::empty() {
        m.insert(ip, probe_match(decode_utf8(data)))
    } else {
        m
    }
}

/// Takes the answer of a host to a request for devices.
pub fn take_match(found: &mut Table<IpAddr, Table<String, String>>, ip: IpAddr, data: &[u8])
    ensures
        final(found)@ == matched(old(found)@, ip, data@),
{
    if let Some(response) = utf8_text(data) {
        let told = read_probe_match(response.as_str());
        if told.len() > 0 {
            assert(told@ != Map::<Seq<char>, Seq<char>>::empty()) by {
                assert(told@.dom().contains(told.items()[0].0));
            }
            found.insert(ip, told);
        } else {
            assert(told@ =~= Map::<Seq<char>, Seq<char>>::empty());
        }
    }
}

// ---------------------------------------------------------------------------
// What is read of an answer
// ---------------------------------------------------------------------------

proof fn lemma_not_earlier(before: Seq<char>, mark: Seq<char>, after: Seq<char>, from: int)
    requires
        0 <= from <= before.len(),
        mark.len() > 0,
        mark[0] == '<',
        forall|i: int| 0 < i < mark.len() ==> mark[i] != '<',
        forall|i: int| from <= i ==> !text::occurs_at(before, mark, i),
    ensures
        text::find_from(before + mark + after, mark, from) == Some(before.len() as int),
{
    let u = before + mark + after;
    let n = before.len() as int;
    assert(u.subrange(n, n + mark.len()) =~= mark);
    assert(text::occurs_at(u, mark, n));
    text::lemma_find_from(u, mark, from);
    let i = text::find_from(u, mark, from)->0;
    if i < n {
        if i + mark.len() <= n {
            assert(before.subrange(i, i + mark.len()) =~= u.subrange(i, i + mark.len()));
            assert(text::occurs_at(before, mark, i));
        } else {
            assert(u[n] == '<');
            assert(u.subrange(i, i + mark.len())[n - i] == u[n]);
            assert(mark[n - i] == '<');
        }
    }
}

/// The value of an element is what stands between its first opening tag and
/// the closing tag behind it, without the white space around it.
#[verifier::rlimit(40)]
pub proof fn law_element_read(
    before: Seq<char>,
    tag: Seq<char>,
    left: Seq<char>,
    value: Seq<char>,
    right: Seq<char>,
    after: Seq<char>,
)
    requires
        forall|i: int| 0 <= i < tag.len() ==> tag[i] != '<',
        !text::contains(before, "<"@ + tag + ">"@),
        forall|i: int| 0 <= i < value.len() ==> value[i] != '<',
        forall|i: int| 0 <= i < left.len() ==> text::is_white(#[trigger] left[i]),
        forall|i: int| 0 <= i < right.len() ==> text::is_white(#[trigger] right[i]),
        value.len() > 0,
        !text::is_white(value[0]),
        !text::is_white(value.last()),
    ensures
        xml_tag(
            before + ("<"@ + tag + ">"@) + (left + value + right) + ("</"@ + tag + ">"@) + after,
            tag,
        ) == Some(value),
{
    reveal_strlit("<");
    reveal_strlit("</");
    reveal_strlit(">");
    let open = opening(tag);
    let close = closing(tag);
    let middle = left + value + right;
    let xml = before + open + middle + close + after;
    assert(xml =~= before + open + (middle + close + after));
    assert forall|i: int| 0 < i < open.len() implies open[i] != '<' by {
        if i <= tag.len() {
            assert(open[i] == tag[i - 1]);
        }
    }
    assert forall|i: int| 0 <= i implies !text::occurs_at(before, open, i) by {
        if text::occurs_at(before, open, i) {
            assert(text::contains(before, open));
        }
    }
    lemma_not_earlier(before, open, middle + close + after, 0);
    let a = before.len() + open.len();
    let head = before + open + middle;
    assert(xml =~= head + close + after);
    assert forall|i: int| 0 < i < close.len() implies close[i] != '<' by {
        if 2 <= i < 2 + tag.len() {
            assert(close[i] == tag[i - 2]);
        }
    }
    assert forall|i: int| a <= i implies !text::occurs_at(head, close, i) by {
        if text::occurs_at(head, close, i) {
            assert(head.subrange(i, i + close.len())[0] == head[i]);
            assert(close[0] == '<');
            assert(head[i] == middle[i - a]);
            let j = i - a;
            if j < left.len() {
                assert(middle[j] == left[j]);
            } else if j < left.len() + value.len() {
                assert(middle[j] == value[j - left.len()]);
            } else {
                assert(middle[j] == right[j - left.len() - value.len()]);
            }
        }
    }
    lemma_not_earlier(head, close, after, a as int);
    assert(xml.subrange(a as int, head.len() as int) =~= middle);
    text::law_trimmed(left, value, right);
}

/// An element that does not open has no value.
pub proof fn law_no_element(xml: Seq<char>, tag: Seq<char>)
    requires
        !text::contains(xml, "<"@ + tag + ">"@) || !text::contains(xml, "</"@ + tag + ">"@),
    ensures
        xml_tag(xml, tag) is None,
{
    text::lemma_find_from(xml, opening(tag), 0);
    match text::find_from(xml, opening(tag), 0) {
        Some(s) => {
            assert(text::contains(xml, opening(tag)));
            let a = s + opening(tag).len();
            text::lemma_find_from(xml, closing(tag), a);
            match text::find_from(xml, closing(tag), a) {
                Some(e) => {
                    assert(text::contains(xml, closing(tag)));
                },
                None => {},
            }
        },
        None => {},
    }
}

proof fn lemma_scheme(scheme: Seq<char>, rest: Seq<char>)
    requires
        forall|i: int| 0 <= i < scheme.len() ==> scheme[i] != ':',
    ensures
        text::find_from(scheme + "://"@ + rest, "://"@, 0) == Some(scheme.len() as int),
{
    reveal_strlit("://");
    let mark = "://"@;
    let u = scheme + mark + rest;
    let n = scheme.len() as int;
    assert(u.subrange(n, n + 3) =~= mark);
    assert(text::occurs_at(u, mark, n));
    text::lemma_find_from(u, mark, 0);
    let i = text::find_from(u, mark, 0)->0;
    if i < n {
        assert(u.subrange(i, i + 3)[0] == u[i]);
        assert(u[i] == scheme[i]);
    }
}

/// The host of an address: what stands between the scheme and the next colon,
/// unless it is empty or begins with a digit.
pub proof fn law_host_in_address(scheme: Seq<char>, host: Seq<char>, rest: Seq<char>)
    requires
        forall|i: int| 0 <= i < scheme.len() ==> scheme[i] != ':',
        forall|i: int| 0 <= i < host.len() ==> host[i] != ':',
    ensures
        host.len() > 0 && !('0' <= host[0] <= '9') ==> address_host(
            scheme + "://"@ + host + seq![':'] + rest,
        ) == Some(host) && address_host(scheme + "://"@ + host) == Some(host),
        host.len() == 0 || '0' <= host[0] <= '9' ==> address_host(
            scheme + "://"@ + host + seq![':'] + rest,
        ) is None && address_host(scheme + "://"@ + host) is None,
{
    reveal_strlit("://");
    let a = scheme + "://"@ + host + seq![':'] + rest;
    let b = host + seq![':'] + rest;
    assert(a =~= scheme + "://"@ + b);
    lemma_scheme(scheme, b);
    lemma_scheme(scheme, host);
    assert(a.skip(scheme.len() + 3int) =~= b);
    assert((scheme + "://"@ + host).skip(scheme.len() + 3int) =~= host);
    text::law_before_char(host, ':', rest);
}

/// An answer whose only address names its host tells that host. The address
/// stands in an element under the longer or the shorter prefix, the longer one
/// first.
#[verifier::rlimit(40)]
pub proof fn law_answer_tells_host(
    before: Seq<char>,
    tag: Seq<char>,
    left: Seq<char>,
    scheme: Seq<char>,
    host: Seq<char>,
    rest: Seq<char>,
    right: Seq<char>,
    after: Seq<char>,
)
    requires
        ({
            let address = scheme + "://"@ + host + seq![':'] + rest;
            let xml = before + ("<"@ + tag + ">"@) + (left + address + right) + ("</"@ + tag + ">"@)
                + after;
            ||| tag == "wsd:XAddrs"@
            ||| tag == "d:XAddrs"@ && !text::contains(xml, "<"@ + "wsd:XAddrs"@ + ">"@)
        }),
        !text::contains(before, "<"@ + tag + ">"@),
        forall|i: int| 0 <= i < left.len() ==> text::is_white(#[trigger] left[i]),
        forall|i: int| 0 <= i < right.len() ==> text::is_white(#[trigger] right[i]),
        forall|i: int|
            0 <= i < scheme.len() ==> #[trigger] scheme[i] != ':' && scheme[i] != '<'
                && !text::is_white(scheme[i]),
        forall|i: int|
            0 <= i < host.len() ==> #[trigger] host[i] != ':' && host[i] != '<' && !text::is_white(
                host[i],
            ),
        forall|i: int|
            0 <= i < rest.len() ==> #[trigger] rest[i] != '<' && !text::is_white(rest[i]),
        host.len() > 0,
        !('0' <= host[0] <= '9'),
    ensures
        ({
            let address = scheme + "://"@ + host + seq![':'] + rest;
            let xml = before + ("<"@ + tag + ">"@) + (left + address + right) + ("</"@ + tag + ">"@)
                + after;
            &&& probe_match(xml).dom().contains("wsd_hostname"@)
            &&& probe_match(xml)["wsd_hostname"@] == host
        }),
{
    reveal_strlit("wsd:XAddrs");
    reveal_strlit("d:XAddrs");
    reveal_strlit("://");
    let address = scheme + "://"@ + host + seq![':'] + rest;
    let xml = before + ("<"@ + tag + ">"@) + (left + address + right) + ("</"@ + tag + ">"@) + after;
    let (m, n) = (scheme.len() as int, host.len() as int);
    assert forall|i: int| 0 <= i < address.len() implies #[trigger] address[i] != '<'
        && !text::is_white(address[i]) by {
        if i < m {
            assert(address[i] == scheme[i]);
        } else if m + 3 <= i < m + 3 + n {
            assert(address[i] == host[i - m - 3]);
        } else if i >= m + 4 + n {
            assert(address[i] == rest[i - m - 4 - n]);
        }
    }
    assert(!text::is_white(address[0]));
    assert(!text::is_white(address[address.len() - 1]));
    law_element_read(before, tag, left, address, right, after);
    if tag == "d:XAddrs"@ {
        assert("d:XAddrs"@.len() != "wsd:XAddrs"@.len());
        law_no_element(xml, "wsd:XAddrs"@);
    }
    law_host_in_address(scheme, host, rest);
    text::law_one_word(address);
    assert(host_from(text::words(address), 0) == Some(host));
}

proof fn lemma_host_from(addresses: Seq<Seq<char>>, from: int)
    ensures
        match host_from(addresses, from) {
            Some(h) => h.len() > 0 && !('0' <= h[0] <= '9') && forall|i: int|
                0 <= i < h.len() ==> h[i] != ':',
            None => true,
        },
    decreases addresses.len() - from,
{
    if 0 <= from < addresses.len() {
        if address_host(addresses[from]) is Some {
            let i = text::find_from(addresses[from], "://"@, 0)->0;
            text::lemma_char_from(addresses[from].skip(i + 3), ':', 0);
        } else {
            lemma_host_from(addresses, from + 1);
        }
    }
}

/// No answer tells a host that is empty, begins with a digit or holds a colon.
pub proof fn law_no_number_as_host(xml: Seq<char>)
    requires
        probe_match(xml).dom().contains("wsd_hostname"@),
    ensures
        ({
            let host = probe_match(xml)["wsd_hostname"@];
            host.len() > 0 && !('0' <= host[0] <= '9') && forall|i: int|
                0 <= i < host.len() ==> host[i] != ':'
        }),
{
    reveal_strlit("wsd_hostname");
    reveal_strlit("wsd_types");
    reveal_strlit("wsd_class");
    assert("wsd_hostname"@.len() == 12 && "wsd_types"@.len() == 9 && "wsd_class"@.len() == 9);
    match either_tag(xml, "wsd:XAddrs"@, "d:XAddrs"@) {
        Some(addresses) => {
            lemma_host_from(text::words(addresses), 0);
        },
        None => {},
    }
}

/// The class of an answer is told by the types that it names, in lower case.
pub proof fn law_types_tell_class(xml: Seq<char>, types: Seq<char>)
    requires
        xml_tag(xml, "wsd:Types"@) == Some(types) || xml_tag(xml, "wsd:Types"@) is None && xml_tag(
            xml,
            "d:Types"@,
        ) == Some(types),
    ensures
        ({
            let told = probe_match(xml);
            let lower = text::lowered(types);
            let computer = text::contains(lower, "computer"@);
            let printer = text::contains(lower, "print"@);
            let scanner = text::contains(lower, "scanner"@);
            let device = text::contains(lower, "device"@);
            &&& computer ==> told.dom().contains("wsd_class"@) && told["wsd_class"@] == "Computer"@
            &&& !computer && printer ==> told.dom().contains("wsd_class"@) && told["wsd_class"@]
                == "Printer"@
            &&& !computer && !printer && scanner && !text::contains(lower, "printer"@)
                ==> told.dom().contains("wsd_class"@) && told["wsd_class"@] == "Scanner"@
            &&& !computer && !printer && !scanner && device && !text::contains(lower, "printer"@)
                ==> told.dom().contains("wsd_class"@) && told["wsd_class"@] == "Device"@
        }),
{
    reveal_strlit("wsd_hostname");
    reveal_strlit("wsd_types");
    reveal_strlit("wsd_class");
    assert("wsd_hostname"@.len() == 12 && "wsd_types"@.len() == 9 && "wsd_class"@.len() == 9);
    assert("wsd_types"@[4] != "wsd_class"@[4]);
}

/// What is told under a name, if anything.
pub open spec fn told(m: Map<Seq<char>, Seq<char>>, key: Seq<char>) -> Option<Seq<char>> {
    if m.dom().contains(key) {
        Some(m[key])
    } else {
        None
    }
}

/// Each element of a description is told under its own name.
pub proof fn law_description_read(xml: Seq<char>)
    ensures
        ({
            let d = description(xml);
            &&& told(d, "friendly_name"@) == xml_tag(xml, "friendlyName"@)
            &&& told(d, "manufacturer"@) == xml_tag(xml, "manufacturer"@)
            &&& told(d, "model_name"@) == xml_tag(xml, "modelName"@)
            &&& told(d, "model_number"@) == xml_tag(xml, "modelNumber"@)
            &&& told(d, "serial"@) == xml_tag(xml, "serialNumber"@)
            &&& told(d, "description"@) == xml_tag(xml, "modelDescription"@)
        }),
{
    reveal_strlit("friendly_name");
    reveal_strlit("manufacturer");
    reveal_strlit("model_name");
    reveal_strlit("model_number");
    reveal_strlit("serial");
    reveal_strlit("description");
    reveal_strlit("services");
    assert("friendly_name"@.len() == 13 && "manufacturer"@.len() == 12 && "model_name"@.len() == 10
        && "model_number"@.len() == 12 && "serial"@.len() == 6 && "description"@.len() == 11
        && "services"@.len() == 8);
    assert("manufacturer"@[1] != "model_number"@[1]);
    let t = DESCRIPTION_TAGS@;
    assert(t[0].0@ == "friendlyName"@ && t[1].0@ == "manufacturer"@ && t[2].0@ == "modelName"@
        && t[3].0@ == "modelNumber"@ && t[4].0@ == "serialNumber"@ && t[5].0@
        == "modelDescription"@);
    assert(t[0].1@ == "friendly_name"@ && t[1].1@ == "manufacturer"@ && t[2].1@ == "model_name"@
        && t[3].1@ == "model_number"@ && t[4].1@ == "serial"@ && t[5].1@ == "description"@);
    assert(t.len() == 6);
    reveal_with_fuel(tagged, 7);
}

/// A header that names the location of a device at an address of this network
/// tells it: the name of the header in any letters, and the location behind it
/// with an address of four numbers, perhaps a port, and a path.
pub proof fn law_location_told(
    field: Seq<char>,
    spaces: Seq<char>,
    n: u32,
    port: Seq<char>,
    path: Seq<char>,
)
    requires
        text::ascii_lower(field) == "location:"@,
        forall|i: int| 0 <= i < spaces.len() ==> #[trigger] spaces[i] == ' ',
        0x0A00_0000 <= n <= 0x0AFF_FFFF || 0xAC10_0000 <= n <= 0xAC1F_FFFF || 0xC0A8_0000 <= n
            <= 0xC0A8_FFFF || 0xA9FE_0000 <= n <= 0xA9FE_FFFF,
        port.len() > 0 ==> port[0] == ':',
        forall|i: int|
            0 <= i < port.len() ==> #[trigger] port[i] != '/' && port[i] != '\\' && port[i] != '?'
                && port[i] != '#' && port[i] != '@',
        path.len() > 0 && path[0] == '/',
        !text::is_white(path.last()),
    ensures
        ({
            let url = "http://"@ + (net::ip_text(IpAddr::V4(n)) + port) + path;
            line_location(field + spaces + url) == Some(url)
        }),
{
    reveal_strlit("location:");
    reveal_strlit("http://");
    reveal_strlit("http");
    reveal_strlit("https://");
    let address = net::ip_text(IpAddr::V4(n));
    let host = address + port;
    let url = "http://"@ + host + path;
    let line = field + spaces + url;
    assert(text::ascii_lower(field).len() == field.len());
    assert(line.take(9) =~= field);
    let none = Seq::<char>::empty();
    assert(line.skip(9) =~= spaces + url + none);
    assert(url[0] == 'h');
    assert(url.last() == path.last());
    text::law_trimmed(spaces, url, none);
    assert(url.subrange(0, 4) =~= "http"@);
    assert(url.subrange(0, 7) =~= "http://"@);
    let rest = host + path;
    assert(url.skip(7) =~= rest);
    lemma_address_plain(n);
    assert forall|i: int| 0 <= i < host.len() implies !ends_authority(#[trigger] host[i]) && host[i]
        != '@' by {
        if i < address.len() {
            assert(host[i] == address[i]);
        } else {
            assert(host[i] == port[i - address.len()]);
        }
    }
    lemma_authority(host, path, 0);
    assert(rest.take(host.len() as int) =~= host);
    assert(authority(url) == host);
    assert(!host.contains('@'));
    if port.len() > 0 {
        assert(host =~= address + seq![':'] + port.skip(1));
        text::law_before_char(address, ':', port.skip(1));
    } else {
        assert(host =~= address);
        text::law_before_char(address, ':', none);
    }
    net::law_address_read(n);
    net::law_local_ranges(n, 0);
}

proof fn lemma_authority(host: Seq<char>, path: Seq<char>, from: int)
    requires
        0 <= from <= host.len(),
        forall|i: int| 0 <= i < host.len() ==> !ends_authority(#[trigger] host[i]),
        path.len() > 0 && path[0] == '/',
    ensures
        authority_end(host + path, from) == host.len(),
    decreases host.len() - from,
{
    if from < host.len() {
        assert((host + path)[from] == host[from]);
        lemma_authority(host, path, from + 1);
    } else {
        assert((host + path)[from] == path[0]);
    }
}

proof fn lemma_address_plain(n: u32)
    ensures
        forall|i: int|
            0 <= i < net::v4_text(n).len() ==> {
                let c = #[trigger] net::v4_text(n)[i];
                !ends_authority(c) && c != '@' && c != ':'
            },
{
    reveal_strlit(".");
    lemma_digits_plain(net::octet(n, 0) as nat);
    lemma_digits_plain(net::octet(n, 1) as nat);
    lemma_digits_plain(net::octet(n, 2) as nat);
    lemma_digits_plain(net::octet(n, 3) as nat);
    let a = text::dec(net::octet(n, 0) as nat);
    let b = text::dec(net::octet(n, 1) as nat);
    let c = text::dec(net::octet(n, 2) as nat);
    let d = text::dec(net::octet(n, 3) as nat);
    let t = net::v4_text(n);
    let (x, y, z) = (a.len() as int, b.len() as int, c.len() as int);
    assert forall|i: int| 0 <= i < t.len() implies ({
        let k = #[trigger] t[i];
        !ends_authority(k) && k != '@' && k != ':'
    }) by {
        if i < x {
            assert(t[i] == a[i]);
        } else if x < i < x + 1 + y {
            assert(t[i] == b[i - x - 1]);
        } else if x + 1 + y < i < x + y + z + 2 {
            assert(t[i] == c[i - x - y - 2]);
        } else if i > x + y + z + 2 {
            assert(t[i] == d[i - x - y - z - 3]);
        } else {
            assert(t[i] == '.');
        }
    }
}

proof fn lemma_digits_plain(n: nat)
    ensures
        forall|i: int|
            0 <= i < text::dec(n).len() ==> '0' <= #[trigger] text::dec(n)[i] <= '9',
    decreases n,
{
    let d = n % 10;
    assert(d < 10);
    assert('0' <= text::digit(d) <= '9');
    if n >= 10 {
        lemma_digits_plain(n / 10);
        assert(text::dec(n) == text::dec(n / 10).push(text::digit(d)));
    } else {
        assert(text::dec(n) == seq![text::digit(d)]);
    }
}

/// A service is named by the part of its type before the version.
pub proof fn law_service_named(head: Seq<char>, name: Seq<char>, version: Seq<char>)
    requires
        forall|i: int| 0 <= i < head.len() ==> head[i] != ':',
        forall|i: int| 0 <= i < name.len() ==> name[i] != ':',
        forall|i: int| 0 <= i < version.len() ==> version[i] != ':',
    ensures
        service_name(head + seq![':'] + (name + seq![':'] + version)) == name,
        service_name(name) == name,
{
    let rest = name + seq![':'] + version;
    text::lemma_split_first(head, rest, ':');
    text::lemma_split_first(name, version, ':');
    text::lemma_split_single(version, ':');
    text::lemma_split_single(name, ':');
    let p = text::split(head + seq![':'] + rest, ':');
    assert(p =~= seq![head, name, version]);
}

} // verus!
