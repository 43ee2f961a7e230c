//! Guesses at the operating system of a device.

use vstd::prelude::*;
use vstd::string::*;

use crate::category;
use crate::device::{DetailsView, DeviceDetails, DeviceInfo, InfoView};
use crate::dhcp;
use crate::dhcp::classify_dhcp;
use crate::net;
use crate::net::{IpAddr, is_private_ip};
use crate::table::Table;
use crate::text;
use crate::text::{has_any, has_part, lower_case, same};

verus! {

/// `model`, else `friendly_name`, else `model_name`.
pub open spec fn told_model(d: DetailsView) -> Option<Seq<char>> {
    match d.property("model"@) {
        Some(m) => Some(m),
        None => match d.property("friendly_name"@) {
            Some(m) => Some(m),
            None => d.property("model_name"@),
        },
    }
}

/// The model that a device tells of itself.
pub fn model_of(d: &DeviceDetails) -> (r: Option<&String>)
    ensures
        match r {
            Some(m) => told_model(d@) == Some(m@),
            None => told_model(d@) is None,
        },
{
    match d.get("model") {
        Some(m) => Some(m),
        None => match d.get("friendly_name") {
            Some(m) => Some(m),
            None => d.get("model_name"),
        },
    }
}

// ---------------------------------------------------------------------------
// Guesses from packets
// ---------------------------------------------------------------------------

/// The tag for the hop limit and receive window of a packet.
pub open spec fn packet_tag(ttl: u8, window: Option<u16>) -> Seq<char> {
    if ttl <= 64 {
        if window == Some(65535u16) {
            "[Mac]"@
        } else if window == Some(64240u16) {
            "[Win]"@
        } else {
            "[Lin]"@
        }
    } else if ttl <= 128 {
        "[Win]"@
    } else {
        "[Net]"@
    }
}

/// Makers of phones.
pub const PHONE_MAKERS: [&'static str; 6] = [
    "oneplus",
    "xiaomi",
    "huawei",
    "oppo",
    "vivo",
    "realme",
];

/// The tag that the maker of a device, in lower case, makes of a tag.
pub open spec fn maker_tag(tag: Seq<char>, vendor: Seq<char>) -> Seq<char> {
    if text::contains(vendor, "apple"@) {
        "[Mac]"@
    } else if text::contains(vendor, "samsung"@) || text::contains(vendor, "murata"@) {
        if tag != "[Win]"@ { "[And]"@ } else { tag }
    } else if text::contains(vendor, "nintendo"@) {
        "[Nin]"@
    } else if text::contains(vendor, "sony"@) && !text::contains(vendor, "ericsson"@) {
        "[PS]"@
    } else if text::contains(vendor, "microsoft"@) {
        "[Win]"@
    } else if text::contains(vendor, "google"@) {
        if tag == "[Lin]"@ { "[And]"@ } else { tag }
    } else if text::contains_any(vendor, PHONE_MAKERS@) {
        "[And]"@
    } else if text::contains(vendor, "amazon"@) {
        "[Amz]"@
    } else if text::contains(vendor, "roku"@) {
        "[Rok]"@
    } else if text::contains(vendor, "sonos"@) {
        "[Son]"@
    } else {
        tag
    }
}

fn tag_of_packet(ttl: u8, window: Option<u16>) -> (r: &'static str)
    ensures
        r@ == packet_tag(ttl, window),
{
    if ttl <= 64 {
        match window {
            Some(w) => if w == 65535 {
                "[Mac]"
            } else if w == 64240 {
                "[Win]"
            } else {
                "[Lin]"
            },
            None => "[Lin]",
        }
    } else if ttl <= 128 {
        "[Win]"
    } else {
        "[Net]"
    }
}

fn tag_of_maker(tag: &'static str, vendor: &str) -> (r: &'static str)
    ensures
        r@ == maker_tag(tag@, vendor@),
{
    if has_part(vendor, "apple") {
        "[Mac]"
    } else if has_part(vendor, "samsung") || has_part(vendor, "murata") {
        if !same(tag, "[Win]") { "[And]" } else { tag }
    } else if has_part(vendor, "nintendo") {
        "[Nin]"
    } else if has_part(vendor, "sony") && !has_part(vendor, "ericsson") {
        "[PS]"
    } else if has_part(vendor, "microsoft") {
        "[Win]"
    } else if has_part(vendor, "google") {
        if same(tag, "[Lin]") { "[And]" } else { tag }
    } else if has_any(vendor, &PHONE_MAKERS) {
        "[And]"
    } else if has_part(vendor, "amazon") {
        "[Amz]"
    } else if has_part(vendor, "roku") {
        "[Rok]"
    } else if has_part(vendor, "sonos") {
        "[Son]"
    } else {
        tag
    }
}

/// The tag that a packet gives its sender: none without a hop limit, and none
/// for a sender outside of private networks.
pub open spec fn guessed_tag(
    src: IpAddr,
    ttl: Option<u8>,
    window: Option<u16>,
    devices: Map<IpAddr, InfoView>,
) -> Option<Seq<char>> {
    match ttl {
        Some(t) if t > 0 && net::private_ip(src) => {
            let tag = packet_tag(t, window);
            if devices.dom().contains(src) {
                Some(maker_tag(tag, text::lowered(devices[src].vendor)))
            } else {
                Some(tag)
            }
        },
        _ => None,
    }
}

/// A confidence one higher, up to the greatest.
pub open spec fn surer(c: u8) -> u8 {
    if c < 255 {
        (c + 1) as u8
    } else {
        255
    }
}

/// The guesses after one more: the same guess makes it surer, another one
/// takes its place only while it is hardly sure.
pub open spec fn guesses_with(
    m: Map<IpAddr, (Seq<char>, u8)>,
    ip: IpAddr,
    tag: Seq<char>,
) -> Map<IpAddr, (Seq<char>, u8)> {
    if !m.dom().contains(ip) {
        m.insert(ip, (tag, 1))
    } else if m[ip].0 == tag {
        m.insert(ip, (tag, surer(m[ip].1)))
    } else if m[ip].1 <= 1 {
        m.insert(ip, (tag, 1))
    } else {
        m
    }
}

/// A guess that was confirmed is not displaced by a single other one.
pub proof fn law_confirmed_guess_stays(m: Map<IpAddr, (Seq<char>, u8)>, ip: IpAddr, tag: Seq<char>)
    requires
        m.dom().contains(ip),
        m[ip].1 >= 2,
    ensures
        guesses_with(m, ip, tag)[ip].0 == m[ip].0,
        guesses_with(m, ip, tag)[ip].1 >= m[ip].1,
{
}

/// A guess about one address leaves every other address as it is.
pub proof fn law_guess_is_local(
    m: Map<IpAddr, (Seq<char>, u8)>,
    ip: IpAddr,
    tag: Seq<char>,
    other: IpAddr,
)
    requires
        other != ip,
    ensures
        guesses_with(m, ip, tag).dom().contains(other) == m.dom().contains(other),
        m.dom().contains(other) ==> guesses_with(m, ip, tag)[other] == m[other],
{
}

/// The guesses after a packet.
pub open spec fn guesses_after(
    m: Map<IpAddr, (Seq<char>, u8)>,
    src: IpAddr,
    ttl: Option<u8>,
    window: Option<u16>,
    devices: Map<IpAddr, InfoView>,
) -> Map<IpAddr, (Seq<char>, u8)> {
    match guessed_tag(src, ttl, window, devices) {
        Some(tag) => guesses_with(m, src, tag),
        None => m,
    }
}

/// What is stored of a sender in a private network that was not guessed before
/// and is no known device: by the time to live of its packet, and up to 64 by
/// the window.
pub proof fn law_first_guess(
    m: Map<IpAddr, (Seq<char>, u8)>,
    src: u32,
    ttl: u8,
    window: Option<u16>,
    devices: Map<IpAddr, InfoView>,
)
    requires
        0x0A00_0000 <= src <= 0x0AFF_FFFF || 0xAC10_0000 <= src <= 0xAC1F_FFFF || 0xC0A8_0000 <= src
            <= 0xC0A8_FFFF,
        !m.dom().contains(IpAddr::V4(src)),
        !devices.dom().contains(IpAddr::V4(src)),
        ttl > 0,
    ensures
        ({
            let after = guesses_after(m, IpAddr::V4(src), Some(ttl), window, devices);
            &&& after.dom() == m.dom().insert(IpAddr::V4(src))
            &&& ttl <= 64 && window is None ==> after[IpAddr::V4(src)] == ("[Lin]"@, 1u8)
            &&& ttl <= 64 && window is Some && window->0 != 65535 && window->0 != 64240
                ==> after[IpAddr::V4(src)] == ("[Lin]"@, 1u8)
            &&& ttl <= 64 && window == Some(65535u16) ==> after[IpAddr::V4(src)] == ("[Mac]"@, 1u8)
            &&& ttl <= 64 && window == Some(64240u16) ==> after[IpAddr::V4(src)] == ("[Win]"@, 1u8)
            &&& 65 <= ttl <= 128 ==> after[IpAddr::V4(src)] == ("[Win]"@, 1u8)
            &&& 129 <= ttl ==> after[IpAddr::V4(src)] == ("[Net]"@, 1u8)
        }),
{
    net::law_private_ranges(src);
}

/// A second packet of the same kind confirms a guess; one of another kind
/// replaces it only while it was not confirmed.
pub proof fn law_later_guess(
    m: Map<IpAddr, (Seq<char>, u8)>,
    src: u32,
    ttl: u8,
    devices: Map<IpAddr, InfoView>,
    kept: Seq<char>,
    sure: u8,
)
    requires
        0x0A00_0000 <= src <= 0x0AFF_FFFF || 0xAC10_0000 <= src <= 0xAC1F_FFFF || 0xC0A8_0000 <= src
            <= 0xC0A8_FFFF,
        m.dom().contains(IpAddr::V4(src)),
        m[IpAddr::V4(src)] == (kept, sure),
        !devices.dom().contains(IpAddr::V4(src)),
        ttl > 128,
    ensures
        ({
            let after = guesses_after(m, IpAddr::V4(src), Some(ttl), None, devices);
            &&& kept == "[Net]"@ && sure < 255 ==> after == m.insert(
                IpAddr::V4(src),
                ("[Net]"@, (sure + 1) as u8),
            )
            &&& kept == "[Net]"@ && sure == 255 ==> after == m
            &&& kept != "[Net]"@ && sure <= 1 ==> after == m.insert(
                IpAddr::V4(src),
                ("[Net]"@, 1u8),
            )
            &&& kept != "[Net]"@ && sure > 1 ==> after == m
        }),
{
    net::law_private_ranges(src);
    let after = guesses_after(m, IpAddr::V4(src), Some(ttl), None, devices);
    if kept == "[Net]"@ && sure == 255 {
        assert(after =~= m);
    }
}

/// Nothing is guessed of a sender outside of the private networks, nor without
/// a time to live.
pub proof fn law_no_guess(
    m: Map<IpAddr, (Seq<char>, u8)>,
    src: u32,
    ttl: Option<u8>,
    window: Option<u16>,
    devices: Map<IpAddr, InfoView>,
)
    requires
        ttl is None || ttl == Some(0u8) || !(0x0A00_0000 <= src <= 0x0AFF_FFFF || 0xAC10_0000 <= src
            <= 0xAC1F_FFFF || 0xC0A8_0000 <= src <= 0xC0A8_FFFF),
    ensures
        guesses_after(m, IpAddr::V4(src), ttl, window, devices) == m,
{
    net::law_private_ranges(src);
}

/// The names of makers that decide a guess.
pub open spec fn maker_names() -> Seq<Seq<char>> {
    seq![
        "apple"@,
        "samsung"@,
        "murata"@,
        "nintendo"@,
        "sony"@,
        "ericsson"@,
        "microsoft"@,
        "google"@,
        "oneplus"@,
        "xiaomi"@,
        "huawei"@,
        "oppo"@,
        "vivo"@,
        "realme"@,
        "amazon"@,
        "roku"@,
        "sonos"@,
    ]
}

/// `name` is the only name of a maker that stands in `vendor`.
pub open spec fn only_maker(vendor: Seq<char>, name: Seq<char>) -> bool {
    &&& text::contains(vendor, name)
    &&& forall|i: int|
        0 <= i < 17 && #[trigger] maker_names()[i] != name ==> !text::contains(
            vendor,
            maker_names()[i],
        )
}

proof fn lemma_other_makers(vendor: Seq<char>, name: Seq<char>)
    requires
        only_maker(vendor, name),
    ensures
        "apple"@ != name ==> !text::contains(vendor, "apple"@),
        "samsung"@ != name ==> !text::contains(vendor, "samsung"@),
        "murata"@ != name ==> !text::contains(vendor, "murata"@),
        "nintendo"@ != name ==> !text::contains(vendor, "nintendo"@),
        "sony"@ != name ==> !text::contains(vendor, "sony"@),
        "ericsson"@ != name ==> !text::contains(vendor, "ericsson"@),
        "microsoft"@ != name ==> !text::contains(vendor, "microsoft"@),
        "google"@ != name ==> !text::contains(vendor, "google"@),
        "oneplus"@ != name ==> !text::contains(vendor, "oneplus"@),
        "xiaomi"@ != name ==> !text::contains(vendor, "xiaomi"@),
        "huawei"@ != name ==> !text::contains(vendor, "huawei"@),
        "oppo"@ != name ==> !text::contains(vendor, "oppo"@),
        "vivo"@ != name ==> !text::contains(vendor, "vivo"@),
        "realme"@ != name ==> !text::contains(vendor, "realme"@),
        "amazon"@ != name ==> !text::contains(vendor, "amazon"@),
        "roku"@ != name ==> !text::contains(vendor, "roku"@),
        "sonos"@ != name ==> !text::contains(vendor, "sonos"@),
{
    let n = maker_names();
    assert(n[0] == "apple"@ && n[1] == "samsung"@ && n[2] == "murata"@ && n[3] == "nintendo"@ && n[4]
        == "sony"@ && n[5] == "ericsson"@ && n[6] == "microsoft"@ && n[7] == "google"@ && n[8]
        == "oneplus"@ && n[9] == "xiaomi"@ && n[10] == "huawei"@ && n[11] == "oppo"@ && n[12]
        == "vivo"@ && n[13] == "realme"@ && n[14] == "amazon"@ && n[15] == "roku"@ && n[16]
        == "sonos"@);
}

proof fn lemma_phone_makers(vendor: Seq<char>)
    ensures
        text::contains_any(vendor, PHONE_MAKERS@) == (text::contains(vendor, "oneplus"@)
            || text::contains(vendor, "xiaomi"@) || text::contains(vendor, "huawei"@)
            || text::contains(vendor, "oppo"@) || text::contains(vendor, "vivo"@) || text::contains(
            vendor,
            "realme"@,
        )),
{
    let t = PHONE_MAKERS@;
    assert(t.len() == 6 && t[0]@ == "oneplus"@ && t[1]@ == "xiaomi"@ && t[2]@ == "huawei"@ && t[3]@
        == "oppo"@ && t[4]@ == "vivo"@ && t[5]@ == "realme"@);
    if text::contains_any(vendor, t) {
        let i = choose|i: int| 0 <= i < t.len() && text::contains(vendor, #[trigger] t[i]@);
        assert(i == 0 || i == 1 || i == 2 || i == 3 || i == 4 || i == 5);
    }
}

/// The maker of a known device decides what is guessed of it, where one name
/// stands in the maker's name; of Samsung, Murata and Google it depends on
/// what the packet tells.
#[verifier::rlimit(40)]
pub proof fn law_maker_decides_guess(
    src: u32,
    ttl: u8,
    window: Option<u16>,
    devices: Map<IpAddr, InfoView>,
    name: Seq<char>,
)
    requires
        0x0A00_0000 <= src <= 0x0AFF_FFFF || 0xAC10_0000 <= src <= 0xAC1F_FFFF || 0xC0A8_0000 <= src
            <= 0xC0A8_FFFF,
        ttl > 0,
        devices.dom().contains(IpAddr::V4(src)),
        only_maker(text::lowered(devices[IpAddr::V4(src)].vendor), name),
    ensures
        ({
            let tag = guessed_tag(IpAddr::V4(src), Some(ttl), window, devices);
            &&& name == "apple"@ ==> tag == Some("[Mac]"@)
            &&& name == "nintendo"@ ==> tag == Some("[Nin]"@)
            &&& name == "sony"@ ==> tag == Some("[PS]"@)
            &&& name == "microsoft"@ ==> tag == Some("[Win]"@)
            &&& name == "amazon"@ ==> tag == Some("[Amz]"@)
            &&& name == "roku"@ ==> tag == Some("[Rok]"@)
            &&& name == "sonos"@ ==> tag == Some("[Son]"@)
            &&& name == "oneplus"@ || name == "xiaomi"@ || name == "huawei"@ || name == "oppo"@
                || name == "vivo"@ || name == "realme"@ ==> tag == Some("[And]"@)
            &&& (name == "samsung"@ || name == "murata"@) && 65 <= ttl <= 128 ==> tag == Some(
                "[Win]"@,
            )
            &&& (name == "samsung"@ || name == "murata"@) && (ttl > 128 || ttl <= 64 && window is None)
                ==> tag == Some("[And]"@)
            &&& name == "google"@ && ttl <= 64 && window is None ==> tag == Some("[And]"@)
            &&& name == "google"@ && ttl > 128 ==> tag == Some("[Net]"@)
        }),
{
    net::law_private_ranges(src);
    let vendor = text::lowered(devices[IpAddr::V4(src)].vendor);
    lemma_other_makers(vendor, name);
    lemma_phone_makers(vendor);
    reveal_strlit("apple");
    reveal_strlit("samsung");
    reveal_strlit("murata");
    reveal_strlit("nintendo");
    reveal_strlit("sony");
    reveal_strlit("ericsson");
    reveal_strlit("microsoft");
    reveal_strlit("google");
    reveal_strlit("oneplus");
    reveal_strlit("xiaomi");
    reveal_strlit("huawei");
    reveal_strlit("oppo");
    reveal_strlit("vivo");
    reveal_strlit("realme");
    reveal_strlit("amazon");
    reveal_strlit("roku");
    reveal_strlit("sonos");
    reveal_strlit("[Win]");
    reveal_strlit("[Lin]");
    reveal_strlit("[Net]");
    assert("apple"@.len() == 5 && "apple"@[0] == 'a' && "apple"@[1] == 'p');
    assert("samsung"@.len() == 7 && "samsung"@[0] == 's' && "samsung"@[1] == 'a');
    assert("murata"@.len() == 6 && "murata"@[0] == 'm' && "murata"@[1] == 'u');
    assert("nintendo"@.len() == 8 && "nintendo"@[0] == 'n' && "nintendo"@[1] == 'i');
    assert("sony"@.len() == 4 && "sony"@[0] == 's' && "sony"@[1] == 'o');
    assert("ericsson"@.len() == 8 && "ericsson"@[0] == 'e' && "ericsson"@[1] == 'r');
    assert("microsoft"@.len() == 9 && "microsoft"@[0] == 'm' && "microsoft"@[1] == 'i');
    assert("google"@.len() == 6 && "google"@[0] == 'g' && "google"@[1] == 'o');
    assert("oneplus"@.len() == 7 && "oneplus"@[0] == 'o' && "oneplus"@[1] == 'n');
    assert("xiaomi"@.len() == 6 && "xiaomi"@[0] == 'x' && "xiaomi"@[1] == 'i');
    assert("huawei"@.len() == 6 && "huawei"@[0] == 'h' && "huawei"@[1] == 'u');
    assert("oppo"@.len() == 4 && "oppo"@[0] == 'o' && "oppo"@[1] == 'p');
    assert("vivo"@.len() == 4 && "vivo"@[0] == 'v' && "vivo"@[1] == 'i');
    assert("realme"@.len() == 6 && "realme"@[0] == 'r' && "realme"@[1] == 'e');
    assert("amazon"@.len() == 6 && "amazon"@[0] == 'a' && "amazon"@[1] == 'm');
    assert("roku"@.len() == 4 && "roku"@[0] == 'r' && "roku"@[1] == 'o');
    assert("sonos"@.len() == 5 && "sonos"@[0] == 's' && "sonos"@[1] == 'o');
    assert("[Lin]"@[1] != "[Win]"@[1]);
    assert("[Net]"@[1] != "[Win]"@[1]);
    assert("[Net]"@[1] != "[Lin]"@[1]);
}

/// A device of no maker that decides is guessed by its packet.
pub proof fn law_other_maker_leaves_guess(
    src: IpAddr,
    ttl: u8,
    window: Option<u16>,
    devices: Map<IpAddr, InfoView>,
)
    requires
        devices.dom().contains(src),
        forall|i: int|
            0 <= i < 17 ==> !text::contains(
                text::lowered(devices[src].vendor),
                #[trigger] maker_names()[i],
            ),
    ensures
        guessed_tag(src, Some(ttl), window, devices) == guessed_tag(
            src,
            Some(ttl),
            window,
            Map::empty(),
        ),
{
    let vendor = text::lowered(devices[src].vendor);
    let n = maker_names();
    assert(n[0] == "apple"@ && n[1] == "samsung"@ && n[2] == "murata"@ && n[3] == "nintendo"@ && n[4]
        == "sony"@ && n[5] == "ericsson"@ && n[6] == "microsoft"@ && n[7] == "google"@ && n[8]
        == "oneplus"@ && n[9] == "xiaomi"@ && n[10] == "huawei"@ && n[11] == "oppo"@ && n[12]
        == "vivo"@ && n[13] == "realme"@ && n[14] == "amazon"@ && n[15] == "roku"@ && n[16]
        == "sonos"@);
    lemma_phone_makers(vendor);
}

/// Takes the guess that a packet gives into account.
pub fn guess_os(
    guesses: &mut Table<IpAddr, (&'static str, u8)>,
    src: IpAddr,
    ttl: Option<u8>,
    window: Option<u16>,
    devices: &Table<IpAddr, DeviceInfo>,
)
    ensures
        final(guesses)@ == guesses_after(old(guesses)@, src, ttl, window, devices@),
{
    let t: u8 = match ttl {
        Some(t) => t,
        None => {
            return;
        },
    };
    if t == 0 || !is_private_ip(&src) {
        return;
    }
    let mut tag = tag_of_packet(t, window);
    if let Some(dev) = devices.get(&src) {
        tag = tag_of_maker(tag, lower_case(dev.vendor.as_str()).as_str());
    }
    match guesses.get(&src) {
        Some(g) => {
            let confidence: u8 = g.1;
            if same(g.0, tag) {
                guesses.insert(src, (tag, confidence.saturating_add(1)));
            } else if confidence <= 1 {
                guesses.insert(src, (tag, 1));
            }
        },
        None => {
            guesses.insert(src, (tag, 1));
        },
    }
}

// ---------------------------------------------------------------------------
// The tag that is shown
// ---------------------------------------------------------------------------

/// Models of hand-held and small devices of Apple.
pub const APPLE_MOBILE: [&'static str; 7] = [
    "iphone",
    "ipad",
    "watch",
    "homepod",
    "apple tv",
    "appletv",
    "audioaccessory",
];

/// Host names of hand-held and small devices of Apple.
pub const APPLE_MOBILE_HOSTS: [&'static str; 6] = [
    "iphone",
    "ipad",
    "watch",
    "homepod",
    "apple tv",
    "airpod",
];

/// Makers of things that are no computers.
pub const THING_MAKERS_EARLY: [&'static str; 3] = ["amazon", "ring", "ecobee"];

/// More makers of things that are no computers.
pub const THING_MAKERS_LATE: [&'static str; 5] = [
    "philips",
    "whirlpool",
    "leviton",
    "chamberlain",
    "texas instruments",
];

/// The tag of a model, in lower case.
pub open spec fn model_tag(model: Seq<char>) -> Option<Seq<char>> {
    if model.len() == 0 {
        None
    } else if text::contains_any(model, APPLE_MOBILE@) {
        Some("[iOS]"@)
    } else if text::contains(model, "mac"@) || text::contains(model, "book"@) || text::contains(model, "imac"@) {
        Some("[Mac]"@)
    } else if text::contains(model, "samsung"@) || text::contains(model, "galaxy"@) || text::contains(model, "sm-"@)
        || text::contains(model, "gt-"@) {
        Some("[And]"@)
    } else if text::contains(model, "nintendo"@) || text::contains(model, "switch"@) {
        Some("[Nin]"@)
    } else if text::contains(model, "playstation"@) || text::contains(model, "ps4"@) || text::contains(
        model,
        "ps5"@,
    ) {
        Some("[PS]"@)
    } else {
        None
    }
}

/// The tag of a maker and a host name, both in lower case.
pub open spec fn vendor_host_tag(vendor: Seq<char>, host: Seq<char>) -> Option<Seq<char>> {
    if text::contains(vendor, "apple"@) {
        if text::contains_any(host, APPLE_MOBILE_HOSTS@) {
            Some("[iOS]"@)
        } else if text::contains(host, "mac"@) || text::contains(host, "book"@) {
            Some("[Mac]"@)
        } else {
            Some("[Apl]"@)
        }
    } else if text::contains(vendor, "nintendo"@) {
        Some("[Nin]"@)
    } else if text::contains(vendor, "sony"@) {
        Some("[PS]"@)
    } else if text::contains(vendor, "samsung"@) || text::contains(vendor, "murata"@) {
        Some("[And]"@)
    } else if text::contains(vendor, "microsoft"@) {
        Some("[Win]"@)
    } else {
        None
    }
}

/// The hint that a maker, in lower case, gives where nothing else is known.
pub open spec fn vendor_hint(vendor: Seq<char>) -> Option<Seq<char>> {
    if text::contains(vendor, "apple"@) {
        Some("[iOS?]"@)
    } else if text::contains(vendor, "samsung"@) {
        Some("[And?]"@)
    } else if text::contains(vendor, "google"@) {
        Some("[Lin?]"@)
    } else if text::contains_any(vendor, THING_MAKERS_EARLY@) {
        Some("[?/IoT]"@)
    } else if text::contains(vendor, "sonos"@) {
        Some("[Son]"@)
    } else if text::contains_any(vendor, THING_MAKERS_LATE@) {
        Some("[?/IoT]"@)
    } else {
        None
    }
}

/// What is refined from the details and the maker of a device.
pub open spec fn refined_tag(details: Option<DetailsView>, device: Option<InfoView>) -> Option<
    Seq<char>,
> {
    let by_model = match details {
        Some(d) => match told_model(d) {
            Some(m) => model_tag(text::lowered(m)),
            None => None,
        },
        None => None,
    };
    match (by_model, device) {
        (Some(t), _) => Some(t),
        (None, Some(dev)) => vendor_host_tag(text::lowered(dev.vendor), text::lowered(dev.hostname)),
        (None, None) => None,
    }
}

/// The tag by the options that a device asks for.
pub open spec fn dhcp_tag(fp: Option<Seq<char>>) -> Option<Seq<char>> {
    match fp {
        Some(f) => match dhcp::dhcp_class(f) {
            Some(row) => Some(row.0),
            None => None,
        },
        None => None,
    }
}

/// A tag that may give way to a refined one.
pub open spec fn gives_way(tag: Seq<char>) -> bool {
    tag == "[?]"@ || tag == "[Lin]"@ || tag == "[Net]"@ || tag == "[Apl]"@ || tag == "[And]"@
}

/// The tag that is shown: by the options that the device asks for, else the
/// guess from its packets, refined by what it tells of itself and by its maker.
pub open spec fn shown_tag(
    dhcp: Option<Seq<char>>,
    details: Option<DetailsView>,
    guess: Option<Seq<char>>,
    device: Option<InfoView>,
) -> Seq<char> {
    let told = match details {
        Some(d) => dhcp_tag(d.property("dhcp_fingerprint"@)),
        None => None,
    };
    match (dhcp_tag(dhcp), told) {
        (Some(t), _) => t,
        (None, Some(t)) => t,
        (None, None) => {
            let passive = match guess {
                Some(t) => t,
                None => "[?]"@,
            };
            let tag = match refined_tag(details, device) {
                Some(t) if gives_way(passive) => t,
                _ => passive,
            };
            match device {
                Some(dev) if tag == "[?]"@ => match vendor_hint(text::lowered(dev.vendor)) {
                    Some(h) => h,
                    None => tag,
                },
                _ => tag,
            }
        },
    }
}

fn tag_of_model(model: &str) -> (r: Option<&'static str>)
    ensures
        match r {
            Some(t) => model_tag(model@) == Some(t@),
            None => model_tag(model@) is None,
        },
{
    if model.is_empty() {
        None
    } else if has_any(model, &APPLE_MOBILE) {
        Some("[iOS]")
    } else if has_part(model, "mac") || has_part(model, "book") || has_part(model, "imac") {
        Some("[Mac]")
    } else if has_part(model, "samsung") || has_part(model, "galaxy") || has_part(model, "sm-")
        || has_part(model, "gt-") {
        Some("[And]")
    } else if has_part(model, "nintendo") || has_part(model, "switch") {
        Some("[Nin]")
    } else if has_part(model, "playstation") || has_part(model, "ps4") || has_part(model, "ps5") {
        Some("[PS]")
    } else {
        None
    }
}

fn tag_of_vendor_host(vendor: &str, host: &str) -> (r: Option<&'static str>)
    ensures
        match r {
            Some(t) => vendor_host_tag(vendor@, host@) == Some(t@),
            None => vendor_host_tag(vendor@, host@) is None,
        },
{
    if has_part(vendor, "apple") {
        if has_any(host, &APPLE_MOBILE_HOSTS) {
            Some("[iOS]")
        } else if has_part(host, "mac") || has_part(host, "book") {
            Some("[Mac]")
        } else {
            Some("[Apl]")
        }
    } else if has_part(vendor, "nintendo") {
        Some("[Nin]")
    } else if has_part(vendor, "sony") {
        Some("[PS]")
    } else if has_part(vendor, "samsung") || has_part(vendor, "murata") {
        Some("[And]")
    } else if has_part(vendor, "microsoft") {
        Some("[Win]")
    } else {
        None
    }
}

fn hint_of_vendor(vendor: &str) -> (r: Option<&'static str>)
    ensures
        match r {
            Some(t) => vendor_hint(vendor@) == Some(t@),
            None => vendor_hint(vendor@) is None,
        },
{
    if has_part(vendor, "apple") {
        Some("[iOS?]")
    } else if has_part(vendor, "samsung") {
        Some("[And?]")
    } else if has_part(vendor, "google") {
        Some("[Lin?]")
    } else if has_any(vendor, &THING_MAKERS_EARLY) {
        Some("[?/IoT]")
    } else if has_part(vendor, "sonos") {
        Some("[Son]")
    } else if has_any(vendor, &THING_MAKERS_LATE) {
        Some("[?/IoT]")
    } else {
        None
    }
}

/// An optional value of a borrowed text.
pub open spec fn ref_text(o: Option<&String>) -> Option<Seq<char>> {
    match o {
        Some(s) => Some(s@),
        None => None,
    }
}

/// The device behind an optional reference.
pub open spec fn ref_device(o: Option<&DeviceInfo>) -> Option<InfoView> {
    match o {
        Some(d) => Some(d@),
        None => None,
    }
}

/// The text behind an optional reference.
pub open spec fn ref_str(o: Option<&'static str>) -> Option<Seq<char>> {
    match o {
        Some(s) => Some(s@),
        None => None,
    }
}

fn tag_of_dhcp(fp: Option<&String>) -> (r: Option<&'static str>)
    ensures
        ref_str(r) == dhcp_tag(ref_text(fp)),
{
    match fp {
        Some(f) => match classify_dhcp(f.as_str()) {
            Some((tag, _)) => Some(tag),
            None => None,
        },
        None => None,
    }
}

fn tag_refined(details: Option<&DeviceDetails>, device: Option<&DeviceInfo>) -> (r: Option<
    &'static str,
>)
    ensures
        ref_str(r) == refined_tag(category::details_view(details), ref_device(device)),
{
    if let Some(d) = details {
        if let Some(m) = model_of(d) {
            let by_model = tag_of_model(lower_case(m.as_str()).as_str());
            if by_model.is_some() {
                return by_model;
            }
        }
    }
    match device {
        Some(dev) => tag_of_vendor_host(
            lower_case(dev.vendor.as_str()).as_str(),
            lower_case(dev.hostname.as_str()).as_str(),
        ),
        None => None,
    }
}

/// The tag that is shown for a device.
pub fn resolve_os_tag(
    dhcp: Option<&String>,
    details: Option<&DeviceDetails>,
    guess: Option<&'static str>,
    device: Option<&DeviceInfo>,
) -> (r: String)
    ensures
        r@ == shown_tag(
            ref_text(dhcp),
            category::details_view(details),
            ref_str(guess),
            ref_device(device),
        ),
{
    if let Some(t) = tag_of_dhcp(dhcp) {
        return t.to_owned();
    }
    if let Some(d) = details {
        if let Some(t) = tag_of_dhcp(d.get("dhcp_fingerprint")) {
            return t.to_owned();
        }
    }
    let passive: &'static str = match guess {
        Some(t) => t,
        None => "[?]",
    };
    let way = same(passive, "[?]") || same(passive, "[Lin]") || same(passive, "[Net]") || same(
        passive,
        "[Apl]",
    ) || same(passive, "[And]");
    let tag: &'static str = match tag_refined(details, device) {
        Some(t) => if way { t } else { passive },
        None => passive,
    };
    if same(tag, "[?]") {
        if let Some(dev) = device {
            if let Some(h) = hint_of_vendor(lower_case(dev.vendor.as_str()).as_str()) {
                return h.to_owned();
            }
        }
    }
    tag.to_owned()
}

/// A tag by the options that a device asks for goes before everything else.
pub proof fn law_dhcp_first(
    dhcp: Option<Seq<char>>,
    details: Option<DetailsView>,
    guess: Option<Seq<char>>,
    device: Option<InfoView>,
)
    requires
        dhcp_tag(dhcp) is Some,
    ensures
        shown_tag(dhcp, details, guess, device) == dhcp_tag(dhcp)->0,
{
}

/// Without an answer to the options, what a packet told stands unless it is
/// one of the five that give way; with no details and no device it stands in
/// any case, and nothing at all is shown as unknown.
pub proof fn law_told_by_packet_stands(
    details: Option<DetailsView>,
    tag: Seq<char>,
    device: Option<InfoView>,
)
    requires
        details is Some ==> details->0.property("dhcp_fingerprint"@) is None,
        tag != "[?]"@,
    ensures
        tag != "[Lin]"@ && tag != "[Net]"@ && tag != "[Apl]"@ && tag != "[And]"@ ==> shown_tag(
            None,
            details,
            Some(tag),
            device,
        ) == tag,
        shown_tag(None, None, Some(tag), None) == tag,
        shown_tag(None, None, None, None) == "[?]"@,
{
}

/// The words of a model name, in lower case, that tell an Apple device other
/// than a Mac.
pub open spec fn handheld(model: Seq<char>) -> bool {
    ||| text::contains(model, "iphone"@)
    ||| text::contains(model, "ipad"@)
    ||| text::contains(model, "watch"@)
    ||| text::contains(model, "homepod"@)
    ||| text::contains(model, "apple tv"@)
    ||| text::contains(model, "appletv"@)
    ||| text::contains(model, "audioaccessory"@)
}

proof fn lemma_handheld(model: Seq<char>)
    ensures
        text::contains_any(model, APPLE_MOBILE@) == handheld(model),
{
    let t = APPLE_MOBILE@;
    assert(t.len() == 7 && t[0]@ == "iphone"@ && t[1]@ == "ipad"@ && t[2]@ == "watch"@ && t[3]@
        == "homepod"@ && t[4]@ == "apple tv"@ && t[5]@ == "appletv"@ && t[6]@ == "audioaccessory"@);
    if text::contains_any(model, t) {
        let i = choose|i: int| 0 <= i < t.len() && text::contains(model, #[trigger] t[i]@);
        assert(i == 0 || i == 1 || i == 2 || i == 3 || i == 4 || i == 5 || i == 6);
    }
}

/// The model that a device tells decides over a guess that gives way.
pub proof fn law_model_decides_tag(
    details: DetailsView,
    guess: Option<Seq<char>>,
    device: Option<InfoView>,
    told: Seq<char>,
)
    requires
        details.property("dhcp_fingerprint"@) is None,
        details.property("model"@) == Some(told),
        guess is None || guess == Some("[Lin]"@) || guess == Some("[Net]"@) || guess == Some("[Apl]"@)
            || guess == Some("[And]"@) || guess == Some("[?]"@),
        text::lowered(told).len() > 0,
    ensures
        ({
            let tag = shown_tag(None, Some(details), guess, device);
            let model = text::lowered(told);
            let mac = text::contains(model, "mac"@) || text::contains(model, "book"@);
            let samsung = text::contains(model, "samsung"@) || text::contains(model, "galaxy"@)
                || text::contains(model, "sm-"@) || text::contains(model, "gt-"@);
            &&& handheld(model) ==> tag == "[iOS]"@
            &&& !handheld(model) && mac ==> tag == "[Mac]"@
            &&& !handheld(model) && !mac && !text::contains(model, "imac"@) && samsung ==> tag
                == "[And]"@
            &&& !handheld(model) && !mac && !text::contains(model, "imac"@) && !samsung && (
            text::contains(model, "nintendo"@) || text::contains(model, "switch"@)) ==> tag == "[Nin]"@
            &&& !handheld(model) && !mac && !text::contains(model, "imac"@) && !samsung
                && !text::contains(model, "nintendo"@) && !text::contains(model, "switch"@) && (
            text::contains(model, "playstation"@) || text::contains(model, "ps4"@) || text::contains(
                model,
                "ps5"@,
            )) ==> tag == "[PS]"@
        }),
{
    lemma_handheld(text::lowered(told));
    lemma_tags_differ();
}

proof fn lemma_tags_differ()
    ensures
        "[iOS]"@ != "[?]"@,
        "[Mac]"@ != "[?]"@,
        "[And]"@ != "[?]"@,
        "[Nin]"@ != "[?]"@,
        "[PS]"@ != "[?]"@,
        "[Win]"@ != "[?]"@,
        "[Apl]"@ != "[?]"@,
        "[Lin]"@ != "[?]"@,
        "[Net]"@ != "[?]"@,
{
    reveal_strlit("[?]");
    reveal_strlit("[iOS]");
    reveal_strlit("[Mac]");
    reveal_strlit("[And]");
    reveal_strlit("[Nin]");
    reveal_strlit("[PS]");
    reveal_strlit("[Win]");
    reveal_strlit("[Apl]");
    reveal_strlit("[Lin]");
    reveal_strlit("[Net]");
    assert("[?]"@.len() == 3);
}

/// The words of a host name, in lower case, that tell an Apple device other
/// than a Mac.
pub open spec fn handheld_host(host: Seq<char>) -> bool {
    ||| text::contains(host, "iphone"@)
    ||| text::contains(host, "ipad"@)
    ||| text::contains(host, "watch"@)
    ||| text::contains(host, "homepod"@)
    ||| text::contains(host, "apple tv"@)
    ||| text::contains(host, "airpod"@)
}

proof fn lemma_handheld_host(host: Seq<char>)
    ensures
        text::contains_any(host, APPLE_MOBILE_HOSTS@) == handheld_host(host),
{
    let t = APPLE_MOBILE_HOSTS@;
    assert(t.len() == 6 && t[0]@ == "iphone"@ && t[1]@ == "ipad"@ && t[2]@ == "watch"@ && t[3]@
        == "homepod"@ && t[4]@ == "apple tv"@ && t[5]@ == "airpod"@);
    if text::contains_any(host, t) {
        let i = choose|i: int| 0 <= i < t.len() && text::contains(host, #[trigger] t[i]@);
        assert(i == 0 || i == 1 || i == 2 || i == 3 || i == 4 || i == 5);
    }
}

/// Of a device that tells no model its maker and host name decide over a guess
/// that gives way.
pub proof fn law_maker_and_host_decide_tag(guess: Option<Seq<char>>, device: InfoView)
    requires
        guess is None || guess == Some("[Lin]"@) || guess == Some("[Net]"@) || guess == Some("[Apl]"@)
            || guess == Some("[And]"@) || guess == Some("[?]"@),
    ensures
        ({
            let tag = shown_tag(None, None, guess, Some(device));
            let vendor = text::lowered(device.vendor);
            let host = text::lowered(device.hostname);
            let apple = text::contains(vendor, "apple"@);
            let mac = text::contains(host, "mac"@) || text::contains(host, "book"@);
            let nintendo = text::contains(vendor, "nintendo"@);
            let sony = text::contains(vendor, "sony"@);
            let phone = text::contains(vendor, "samsung"@) || text::contains(vendor, "murata"@);
            &&& apple && handheld_host(host) ==> tag == "[iOS]"@
            &&& apple && !handheld_host(host) && mac ==> tag == "[Mac]"@
            &&& apple && !handheld_host(host) && !mac ==> tag == "[Apl]"@
            &&& !apple && nintendo ==> tag == "[Nin]"@
            &&& !apple && !nintendo && sony ==> tag == "[PS]"@
            &&& !apple && !nintendo && !sony && phone ==> tag == "[And]"@
            &&& !apple && !nintendo && !sony && !phone && text::contains(vendor, "microsoft"@) ==> tag
                == "[Win]"@
        }),
{
    lemma_handheld_host(text::lowered(device.hostname));
    lemma_tags_differ();
}

/// Makers of household devices, by their names in lower case.
pub open spec fn household_maker(vendor: Seq<char>) -> bool {
    ||| text::contains(vendor, "amazon"@)
    ||| text::contains(vendor, "ring"@)
    ||| text::contains(vendor, "ecobee"@)
    ||| text::contains(vendor, "philips"@)
    ||| text::contains(vendor, "whirlpool"@)
    ||| text::contains(vendor, "leviton"@)
    ||| text::contains(vendor, "chamberlain"@)
    ||| text::contains(vendor, "texas instruments"@)
}

proof fn lemma_household_maker(vendor: Seq<char>)
    ensures
        (text::contains_any(vendor, THING_MAKERS_EARLY@) || text::contains_any(
            vendor,
            THING_MAKERS_LATE@,
        )) == household_maker(vendor),
{
    let t = THING_MAKERS_EARLY@;
    assert(t.len() == 3 && t[0]@ == "amazon"@ && t[1]@ == "ring"@ && t[2]@ == "ecobee"@);
    if text::contains_any(vendor, t) {
        let i = choose|i: int| 0 <= i < t.len() && text::contains(vendor, #[trigger] t[i]@);
        assert(i == 0 || i == 1 || i == 2);
    }
    let u = THING_MAKERS_LATE@;
    assert(u.len() == 5 && u[0]@ == "philips"@ && u[1]@ == "whirlpool"@ && u[2]@ == "leviton"@
        && u[3]@ == "chamberlain"@ && u[4]@ == "texas instruments"@);
    if text::contains_any(vendor, u) {
        let i = choose|i: int| 0 <= i < u.len() && text::contains(vendor, #[trigger] u[i]@);
        assert(i == 0 || i == 1 || i == 2 || i == 3 || i == 4);
    }
}

/// What is shown of a device of which nothing but its maker is known, where
/// the maker is none that decides.
pub proof fn law_maker_hint_shown(device: InfoView)
    requires
        ({
            let vendor = text::lowered(device.vendor);
            &&& !text::contains(vendor, "apple"@)
            &&& !text::contains(vendor, "nintendo"@)
            &&& !text::contains(vendor, "sony"@)
            &&& !text::contains(vendor, "samsung"@)
            &&& !text::contains(vendor, "murata"@)
            &&& !text::contains(vendor, "microsoft"@)
        }),
    ensures
        ({
            let tag = shown_tag(None, None, None, Some(device));
            let vendor = text::lowered(device.vendor);
            let google = text::contains(vendor, "google"@);
            let sonos = text::contains(vendor, "sonos"@);
            &&& google ==> tag == "[Lin?]"@
            &&& !google && !sonos && household_maker(vendor) ==> tag == "[?/IoT]"@
            &&& !google && sonos && !household_maker(vendor) ==> tag == "[Son]"@
            &&& !google && !sonos && !household_maker(vendor) ==> tag == "[?]"@
        }),
{
    lemma_household_maker(text::lowered(device.vendor));
}

/// The model that a device tells: the model, or else its friendly name, or else
/// the name of its model.
pub proof fn law_told_model(d: DetailsView, m: Seq<char>)
    ensures
        d.property("model"@) == Some(m) ==> told_model(d) == Some(m),
        d.property("model"@) is None && d.property("friendly_name"@) == Some(m) ==> told_model(d)
            == Some(m),
        d.property("model"@) is None && d.property("friendly_name"@) is None && d.property(
            "model_name"@,
        ) == Some(m) ==> told_model(d) == Some(m),
        d.property("model"@) is None && d.property("friendly_name"@) is None && d.property(
            "model_name"@,
        ) is None ==> told_model(d) is None,
{
}

} // verus!
