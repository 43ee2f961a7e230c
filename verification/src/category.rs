//! The category of a device by its maker, its name and what it announces.

use vstd::prelude::*;

use crate::device::{DetailsView, DeviceDetails};
use crate::text;
use crate::text::{has_part, lower_ascii, same, starts_with};

verus! {

/// What a device is judged by, in lower case: its maker, its host name, its
/// model, the name it gives itself, and its services.
pub struct Marks {
    pub vendor: String,
    pub host: String,
    pub model: String,
    pub friendly: String,
    pub services: Vec<String>,
}

/// What a device is judged by.
pub struct MarksView {
    pub vendor: Seq<char>,
    pub host: Seq<char>,
    pub model: Seq<char>,
    pub friendly: Seq<char>,
    pub services: Set<Seq<char>>,
}

impl MarksView {
    /// A word occurs in the maker, the host name, the model, the own name or a
    /// service.
    pub open spec fn shows(self, word: Seq<char>) -> bool {
        text::contains(self.vendor, word) || text::contains(self.host, word) || text::contains(self.model, word)
            || text::contains(self.friendly, word) || exists|s: Seq<char>|
            self.services.contains(s) && #[trigger] text::contains(s, word)
    }
}

impl View for Marks {
    type V = MarksView;

    open spec fn view(&self) -> MarksView {
        MarksView {
            vendor: self.vendor@,
            host: self.host@,
            model: self.model@,
            friendly: self.friendly@,
            services: text::texts(self.services@).to_set(),
        }
    }
}

/// A property in lower case; empty where there is none.
pub open spec fn lower_property(d: Option<DetailsView>, key: Seq<char>) -> Seq<char> {
    match d {
        Some(m) => match m.property(key) {
            Some(v) => text::ascii_lower(v),
            None => Seq::empty(),
        },
        None => Seq::empty(),
    }
}

/// The services in lower case.
pub open spec fn lower_services(d: Option<DetailsView>) -> Set<Seq<char>> {
    match d {
        Some(m) => m.services.map(|s: Seq<char>| text::ascii_lower(s)),
        None => Set::empty(),
    }
}

/// What the device with a maker, a host name and details is judged by.
pub open spec fn marks_of(
    vendor: Seq<char>,
    hostname: Seq<char>,
    d: Option<DetailsView>,
) -> MarksView {
    MarksView {
        vendor: text::ascii_lower(vendor),
        host: text::ascii_lower(hostname),
        model: lower_property(d, "model"@),
        friendly: lower_property(d, "friendly_name"@),
        services: lower_services(d),
    }
}

impl Marks {
    fn has_mark(&self, word: &str) -> (r: bool)
        ensures
            r == self@.shows(word@),
    {
        if has_part(self.vendor.as_str(), word) || has_part(self.host.as_str(), word) || has_part(
            self.model.as_str(),
            word,
        ) || has_part(self.friendly.as_str(), word) {
            return true;
        }
        let n: usize = self.services.len();
        let ghost all = text::texts(self.services@);
        for i in 0..n
            invariant
                n == self.services@.len(),
                all == text::texts(self.services@),
                forall|j: int| 0 <= j < i ==> !text::contains(#[trigger] all[j], word@),
        {
            assert(all[i as int] == self.services@[i as int]@);
            if has_part(self.services[i].as_str(), word) {
                assert(all.to_set().contains(all[i as int]));
                return true;
            }
        }
        assert forall|s: Seq<char>| all.to_set().contains(s) implies !(#[trigger] text::contains(s, word@)) by {
            let j = choose|j: int| 0 <= j < all.len() && all[j] == s;
            assert(!text::contains(all[j], word@));
        }
        false
    }
}

/// A router or gateway.
pub open spec fn is_router(t: MarksView) -> bool {
    t.shows("router"@) || t.shows("gateway"@) || t.host == "eerogw"@ || t.host == "eero gateway"@
        || text::contains(t.vendor, "eero"@) || text::contains(t.vendor, "ubiquiti"@)
        || text::contains(t.vendor, "netgear"@) && text::contains(t.host, "router"@)
        || text::contains(t.vendor, "cisco"@) && (text::contains(t.host, "router"@)
        || text::contains(t.host, "gateway"@))
}

fn seems_router(t: &Marks) -> (r: bool)
    ensures
        r == is_router(t@),
{
    t.has_mark("router") || t.has_mark("gateway") || same(t.host.as_str(), "eerogw")
        || same(t.host.as_str(), "eero gateway") || has_part(t.vendor.as_str(), "eero")
        || has_part(t.vendor.as_str(), "ubiquiti") || has_part(t.vendor.as_str(), "netgear")
        && has_part(t.host.as_str(), "router") || has_part(t.vendor.as_str(), "cisco")
        && (has_part(t.host.as_str(), "router") || has_part(t.host.as_str(), "gateway"))
}

/// A thermostat.
pub open spec fn is_thermostat(t: MarksView) -> bool {
    t.shows("thermostat"@) || text::contains(t.vendor, "ecobee"@) || text::contains(t.vendor, "nest"@)
        && text::contains(t.host, "therm"@)
}

fn seems_thermostat(t: &Marks) -> (r: bool)
    ensures
        r == is_thermostat(t@),
{
    t.has_mark("thermostat") || has_part(t.vendor.as_str(), "ecobee")
        || has_part(t.vendor.as_str(), "nest") && has_part(t.host.as_str(), "therm")
}

/// A camera or doorbell.
pub open spec fn is_camera(t: MarksView) -> bool {
    t.shows("camera"@) || t.shows("doorbell"@) || text::contains(t.vendor, "ring"@)
        || text::contains(t.vendor, "arlo"@) || text::contains(t.vendor, "wyze"@)
        || text::contains(t.vendor, "reolink"@) || text::contains(t.vendor, "hikvision"@)
        || text::contains(t.vendor, "dahua"@)
}

fn seems_camera(t: &Marks) -> (r: bool)
    ensures
        r == is_camera(t@),
{
    t.has_mark("camera") || t.has_mark("doorbell") || has_part(t.vendor.as_str(), "ring")
        || has_part(t.vendor.as_str(), "arlo") || has_part(t.vendor.as_str(), "wyze")
        || has_part(t.vendor.as_str(), "reolink") || has_part(t.vendor.as_str(), "hikvision")
        || has_part(t.vendor.as_str(), "dahua")
}

/// A printer.
pub open spec fn is_printer(t: MarksView) -> bool {
    t.shows("printer"@) || t.shows("laserjet"@) || text::contains(t.vendor, "hp inc"@)
        || text::contains(t.vendor, "canon"@) || text::contains(t.vendor, "brother"@)
        || text::contains(t.vendor, "epson"@) || text::contains(t.vendor, "lexmark"@)
        || text::starts(t.host, "npi"@)
}

fn seems_printer(t: &Marks) -> (r: bool)
    ensures
        r == is_printer(t@),
{
    t.has_mark("printer") || t.has_mark("laserjet") || has_part(t.vendor.as_str(), "hp inc")
        || has_part(t.vendor.as_str(), "canon") || has_part(t.vendor.as_str(), "brother")
        || has_part(t.vendor.as_str(), "epson") || has_part(t.vendor.as_str(), "lexmark")
        || starts_with(t.host.as_str(), "npi")
}

/// A game console.
pub open spec fn is_console(t: MarksView) -> bool {
    t.shows("playstation"@) || t.shows("xbox"@) || t.shows("nintendo"@)
        || text::contains(t.vendor, "sony interactive"@) || text::contains(t.vendor, "microsoft"@)
        && text::contains(t.host, "xbox"@)
}

fn seems_console(t: &Marks) -> (r: bool)
    ensures
        r == is_console(t@),
{
    t.has_mark("playstation") || t.has_mark("xbox") || t.has_mark("nintendo")
        || has_part(t.vendor.as_str(), "sony interactive")
        || has_part(t.vendor.as_str(), "microsoft") && has_part(t.host.as_str(), "xbox")
}

/// A device that plays streams on a screen.
pub open spec fn is_streamer(t: MarksView) -> bool {
    t.shows("apple tv"@) || t.shows("appletv"@) || t.shows("fire tv"@) || t.shows("chromecast"@)
        || t.shows("roku"@) || text::contains(t.vendor, "google"@) && text::contains(t.host, "tv"@)
        || text::contains(t.vendor, "amazon"@) && text::contains(t.host, "tv"@) || t.shows("shield"@)
}

fn seems_streamer(t: &Marks) -> (r: bool)
    ensures
        r == is_streamer(t@),
{
    t.has_mark("apple tv") || t.has_mark("appletv") || t.has_mark("fire tv")
        || t.has_mark("chromecast") || t.has_mark("roku") || has_part(t.vendor.as_str(), "google")
        && has_part(t.host.as_str(), "tv") || has_part(t.vendor.as_str(), "amazon")
        && has_part(t.host.as_str(), "tv") || t.has_mark("shield")
}

/// A loudspeaker.
pub open spec fn is_speaker(t: MarksView) -> bool {
    t.shows("homepod"@) || t.shows("sonos"@) || t.shows("bose soundbar"@) || t.shows("airplay"@)
        && !t.shows("iphone"@) && !t.shows("macbook"@) || text::contains(t.vendor, "sonos"@)
        || text::contains(t.vendor, "bose"@) && t.shows("speaker"@) || text::contains(t.vendor, "denon"@)
        || text::contains(t.vendor, "harman"@) || text::contains(t.vendor, "bang & olufsen"@)
}

fn seems_speaker(t: &Marks) -> (r: bool)
    ensures
        r == is_speaker(t@),
{
    t.has_mark("homepod") || t.has_mark("sonos") || t.has_mark("bose soundbar")
        || t.has_mark("airplay") && !t.has_mark("iphone") && !t.has_mark("macbook")
        || has_part(t.vendor.as_str(), "sonos") || has_part(t.vendor.as_str(), "bose")
        && t.has_mark("speaker") || has_part(t.vendor.as_str(), "denon")
        || has_part(t.vendor.as_str(), "harman") || has_part(t.vendor.as_str(), "bang & olufsen")
}

/// A television set.
pub open spec fn is_tv(t: MarksView) -> bool {
    t.shows("samsung tv"@) || t.shows("lg tv"@) || t.shows("vizio"@) || t.shows("tcl tv"@)
        || text::contains(t.friendly, "tv"@) && (text::contains(t.vendor, "samsung"@)
        || text::contains(t.vendor, "lg electronics"@)) || text::contains(t.vendor, "samsung electronics"@)
        && ( text::contains(t.host, "frame"@) || text::contains(t.host, "qled"@) || text::contains(t.host, "oled"@)
        || text::contains(t.host, "crystal"@) || text::contains(t.host, "serif"@)
        || text::contains(t.host, "terrace"@) || text::starts(t.host, "samsung q"@)
        || text::starts(t.host, "samsung un"@) || text::starts(t.host, "samsung the"@)
        || text::starts(t.host, "samsung s9"@) ) || text::contains(t.vendor, "lg electronics"@)
        && (text::contains(t.host, "oled"@) || text::contains(t.host, "nanocell"@)
        || text::contains(t.host, "qned"@))
}

fn seems_tv(t: &Marks) -> (r: bool)
    ensures
        r == is_tv(t@),
{
    t.has_mark("samsung tv") || t.has_mark("lg tv") || t.has_mark("vizio") || t.has_mark("tcl tv")
        || has_part(t.friendly.as_str(), "tv") && (has_part(t.vendor.as_str(), "samsung")
        || has_part(t.vendor.as_str(), "lg electronics"))
        || has_part(t.vendor.as_str(), "samsung electronics")
        && ( has_part(t.host.as_str(), "frame") || has_part(t.host.as_str(), "qled")
        || has_part(t.host.as_str(), "oled") || has_part(t.host.as_str(), "crystal")
        || has_part(t.host.as_str(), "serif") || has_part(t.host.as_str(), "terrace")
        || starts_with(t.host.as_str(), "samsung q") || starts_with(t.host.as_str(), "samsung un")
        || starts_with(t.host.as_str(), "samsung the")
        || starts_with(t.host.as_str(), "samsung s9") )
        || has_part(t.vendor.as_str(), "lg electronics") && (has_part(t.host.as_str(), "oled")
        || has_part(t.host.as_str(), "nanocell") || has_part(t.host.as_str(), "qned"))
}

/// A voice assistant of Amazon.
pub open spec fn is_echo(t: MarksView) -> bool {
    t.shows("echo"@) && (text::contains(t.vendor, "amazon"@) || text::contains(t.host, "echo"@))
        || t.shows("alexa"@) || text::starts(t.host, "echo-"@) || text::starts(t.host, "echo "@)
}

fn seems_echo(t: &Marks) -> (r: bool)
    ensures
        r == is_echo(t@),
{
    t.has_mark("echo") && (has_part(t.vendor.as_str(), "amazon")
        || has_part(t.host.as_str(), "echo")) || t.has_mark("alexa")
        || starts_with(t.host.as_str(), "echo-") || starts_with(t.host.as_str(), "echo ")
}

/// A switchable outlet.
pub open spec fn is_smartplug(t: MarksView) -> bool {
    t.shows("smart plug"@) || t.shows("outlet"@) || t.shows("kasa"@)
        || text::contains(t.vendor, "tp-link"@) && t.shows("plug"@) || text::contains(t.vendor, "wemo"@)
        || text::contains(t.vendor, "belkin"@)
}

fn seems_smartplug(t: &Marks) -> (r: bool)
    ensures
        r == is_smartplug(t@),
{
    t.has_mark("smart plug") || t.has_mark("outlet") || t.has_mark("kasa")
        || has_part(t.vendor.as_str(), "tp-link") && t.has_mark("plug")
        || has_part(t.vendor.as_str(), "wemo") || has_part(t.vendor.as_str(), "belkin")
}

/// A hub or bridge of a smart home.
pub open spec fn is_hub(t: MarksView) -> bool {
    t.shows("hub"@) || t.shows("bridge"@) && !text::contains(t.host, "air"@)
        || text::contains(t.vendor, "phillips"@) || text::contains(t.vendor, "philips lighting"@)
        || text::contains(t.vendor, "signify"@) || text::contains(t.vendor, "samsung smarthings"@)
        || text::contains(t.vendor, "smartthings"@) || text::contains(t.host, "hue bridge"@)
        || text::contains(t.host, "hue hub"@)
}

fn seems_hub(t: &Marks) -> (r: bool)
    ensures
        r == is_hub(t@),
{
    t.has_mark("hub") || t.has_mark("bridge") && !has_part(t.host.as_str(), "air")
        || has_part(t.vendor.as_str(), "phillips")
        || has_part(t.vendor.as_str(), "philips lighting")
        || has_part(t.vendor.as_str(), "signify")
        || has_part(t.vendor.as_str(), "samsung smarthings")
        || has_part(t.vendor.as_str(), "smartthings") || has_part(t.host.as_str(), "hue bridge")
        || has_part(t.host.as_str(), "hue hub")
}

/// A sprinkler.
pub open spec fn is_sprinkler(t: MarksView) -> bool {
    t.shows("sprinkler"@) || t.shows("rachio"@) || text::contains(t.vendor, "rachio"@)
}

fn seems_sprinkler(t: &Marks) -> (r: bool)
    ensures
        r == is_sprinkler(t@),
{
    t.has_mark("sprinkler") || t.has_mark("rachio") || has_part(t.vendor.as_str(), "rachio")
}

/// A garage door opener.
pub open spec fn is_garage(t: MarksView) -> bool {
    t.shows("garage"@) || text::contains(t.vendor, "chamberlain"@) || text::contains(t.vendor, "liftmaster"@)
}

fn seems_garage(t: &Marks) -> (r: bool)
    ensures
        r == is_garage(t@),
{
    t.has_mark("garage") || has_part(t.vendor.as_str(), "chamberlain")
        || has_part(t.vendor.as_str(), "liftmaster")
}

/// A kitchen or laundry appliance.
pub open spec fn is_appliance(t: MarksView) -> bool {
    t.shows("washer"@) || t.shows("dryer"@) || t.shows("refrigerator"@) || t.shows("dishwasher"@)
        || t.shows("oven"@) || t.shows("microwave"@)
}

fn seems_appliance(t: &Marks) -> (r: bool)
    ensures
        r == is_appliance(t@),
{
    t.has_mark("washer") || t.has_mark("dryer") || t.has_mark("refrigerator")
        || t.has_mark("dishwasher") || t.has_mark("oven") || t.has_mark("microwave")
}

/// A telephone.
pub open spec fn is_phone(t: MarksView) -> bool {
    t.shows("iphone"@) || t.shows("galaxy"@) || t.shows("pixel phone"@)
        || text::contains(t.host, "android"@) && (text::contains(t.host, "phone"@)
        || text::contains(t.host, "mobile"@))
}

fn seems_phone(t: &Marks) -> (r: bool)
    ensures
        r == is_phone(t@),
{
    t.has_mark("iphone") || t.has_mark("galaxy") || t.has_mark("pixel phone")
        || has_part(t.host.as_str(), "android") && (has_part(t.host.as_str(), "phone")
        || has_part(t.host.as_str(), "mobile"))
}

/// A computer or tablet.
pub open spec fn is_pc(t: MarksView) -> bool {
    t.shows("ipad"@) || t.shows("macbook"@) || t.shows("imac"@) || t.shows("mac mini"@)
        || t.shows("mac pro"@) || t.shows("windows"@) || t.shows("linux"@) && !t.shows("router"@)
        || t.shows("android"@)
}

fn seems_pc(t: &Marks) -> (r: bool)
    ensures
        r == is_pc(t@),
{
    t.has_mark("ipad") || t.has_mark("macbook") || t.has_mark("imac") || t.has_mark("mac mini")
        || t.has_mark("mac pro") || t.has_mark("windows") || t.has_mark("linux")
        && !t.has_mark("router") || t.has_mark("android")
}

/// A small device on a common controller.
pub open spec fn is_iot(t: MarksView) -> bool {
    text::contains(t.vendor, "espressif"@) || text::contains(t.vendor, "arduino"@) || t.shows("iot"@)
}

fn seems_iot(t: &Marks) -> (r: bool)
    ensures
        r == is_iot(t@),
{
    has_part(t.vendor.as_str(), "espressif") || has_part(t.vendor.as_str(), "arduino")
        || t.has_mark("iot")
}

/// The category of a device: the first that it seems to be.
pub open spec fn category(t: MarksView) -> Option<Seq<char>> {
    if is_router(t) {
        Some("Router"@)
    } else if is_thermostat(t) {
        Some("Thermostat"@)
    } else if is_camera(t) {
        Some("Camera"@)
    } else if is_printer(t) {
        Some("Printer"@)
    } else if is_console(t) {
        Some("Console"@)
    } else if is_streamer(t) {
        Some("Streamer"@)
    } else if is_speaker(t) {
        Some("Speaker"@)
    } else if is_tv(t) {
        Some("TV"@)
    } else if is_echo(t) {
        Some("Echo"@)
    } else if is_smartplug(t) {
        Some("SmartPlug"@)
    } else if is_hub(t) {
        Some("Hub"@)
    } else if is_sprinkler(t) {
        Some("Sprinkler"@)
    } else if is_garage(t) {
        Some("Garage"@)
    } else if is_appliance(t) {
        Some("Appliance"@)
    } else if is_phone(t) {
        Some("Phone"@)
    } else if is_pc(t) {
        Some("PC"@)
    } else if is_iot(t) {
        Some("IoT"@)
    } else {
        None
    }
}

/// All categories.
pub const CATEGORIES: [&'static str; 17] = [
    "Router",
    "Thermostat",
    "Camera",
    "Printer",
    "Console",
    "Streamer",
    "Speaker",
    "TV",
    "Echo",
    "SmartPlug",
    "Hub",
    "Sprinkler",
    "Garage",
    "Appliance",
    "Phone",
    "PC",
    "IoT",
];

/// A device has no category but one of these.
pub proof fn law_category_known(t: MarksView)
    ensures
        category(t) matches Some(c) ==> exists|i: int|
            0 <= i < CATEGORIES@.len() && #[trigger] CATEGORIES@[i]@ == c,
{
    let all = CATEGORIES@;
    assert(all[0]@ == "Router"@);
    assert(all[1]@ == "Thermostat"@);
    assert(all[2]@ == "Camera"@);
    assert(all[3]@ == "Printer"@);
    assert(all[4]@ == "Console"@);
    assert(all[5]@ == "Streamer"@);
    assert(all[6]@ == "Speaker"@);
    assert(all[7]@ == "TV"@);
    assert(all[8]@ == "Echo"@);
    assert(all[9]@ == "SmartPlug"@);
    assert(all[10]@ == "Hub"@);
    assert(all[11]@ == "Sprinkler"@);
    assert(all[12]@ == "Garage"@);
    assert(all[13]@ == "Appliance"@);
    assert(all[14]@ == "Phone"@);
    assert(all[15]@ == "PC"@);
    assert(all[16]@ == "IoT"@);
}

fn lower_of(d: Option<&DeviceDetails>, key: &str) -> (r: String)
    ensures
        r@ == lower_property(details_view(d), key@),
{
    match d {
        Some(m) => match m.get(key) {
            Some(v) => lower_ascii(v.as_str()),
            None => String::new(),
        },
        None => String::new(),
    }
}

/// Optional details.
pub open spec fn details_view(d: Option<&DeviceDetails>) -> Option<DetailsView> {
    match d {
        Some(m) => Some(m@),
        None => None,
    }
}

fn services_of(d: Option<&DeviceDetails>) -> (r: Vec<String>)
    ensures
        text::texts(r@).to_set() == lower_services(details_view(d)),
{
    let mut r: Vec<String> = Vec::new();
    match d {
        None => {
            assert(text::texts(r@).to_set() =~= Set::<Seq<char>>::empty());
        },
        Some(m) => {
            let n: usize = m.services.len();
            for i in 0..n
                invariant
                    n == m.services.list().len(),
                    r@.len() == i,
                    forall|j: int|
                        0 <= j < i ==> (#[trigger] r@[j])@ == text::ascii_lower(m.services.list()[j]),
            {
                r.push(lower_ascii(m.services.at(i).as_str()));
            }
            proof {
                let all = text::texts(r@);
                let f = |s: Seq<char>| text::ascii_lower(s);
                assert forall|x: Seq<char>| all.to_set().contains(x) == m@.services.map(
                    f,
                ).contains(x) by {
                    if all.to_set().contains(x) {
                        let j = choose|j: int| 0 <= j < all.len() && all[j] == x;
                        let s = m.services.list()[j];
                        assert(m@.services.contains(s));
                        assert(f(s) == x);
                    }
                    if m@.services.map(f).contains(x) {
                        let s = choose|s: Seq<char>| m@.services.contains(s) && f(s) == x;
                        let j = choose|j: int|
                            0 <= j < m.services.list().len() && m.services.list()[j] == s;
                        assert(all[j] == x);
                    }
                }
                assert(all.to_set() =~= m@.services.map(f));
            }
        },
    }
    r
}

/// The category of the device with a maker, a host name and details.
pub fn classify_device_category(
    vendor: &str,
    hostname: &str,
    meta: Option<&DeviceDetails>,
) -> (r: Option<&'static str>)
    ensures
        match r {
            Some(c) => category(marks_of(vendor@, hostname@, details_view(meta))) == Some(c@),
            None => category(marks_of(vendor@, hostname@, details_view(meta))) is None,
        },
{
    let t = Marks {
        vendor: lower_ascii(vendor),
        host: lower_ascii(hostname),
        model: lower_of(meta, "model"),
        friendly: lower_of(meta, "friendly_name"),
        services: services_of(meta),
    };
    assert(t@ == marks_of(vendor@, hostname@, details_view(meta)));
    if seems_router(&t) {
        Some("Router")
    } else if seems_thermostat(&t) {
        Some("Thermostat")
    } else if seems_camera(&t) {
        Some("Camera")
    } else if seems_printer(&t) {
        Some("Printer")
    } else if seems_console(&t) {
        Some("Console")
    } else if seems_streamer(&t) {
        Some("Streamer")
    } else if seems_speaker(&t) {
        Some("Speaker")
    } else if seems_tv(&t) {
        Some("TV")
    } else if seems_echo(&t) {
        Some("Echo")
    } else if seems_smartplug(&t) {
        Some("SmartPlug")
    } else if seems_hub(&t) {
        Some("Hub")
    } else if seems_sprinkler(&t) {
        Some("Sprinkler")
    } else if seems_garage(&t) {
        Some("Garage")
    } else if seems_appliance(&t) {
        Some("Appliance")
    } else if seems_phone(&t) {
        Some("Phone")
    } else if seems_pc(&t) {
        Some("PC")
    } else if seems_iot(&t) {
        Some("IoT")
    } else {
        None
    }
}

/// The category is one of the first ones in the order in which they are tried,
/// up to the one at `k`.
pub open spec fn tried_by(c: Option<Seq<char>>, k: int) -> bool {
    ||| k >= 0 && c == Some("Router"@)
    ||| k >= 1 && c == Some("Thermostat"@)
    ||| k >= 2 && c == Some("Camera"@)
    ||| k >= 3 && c == Some("Printer"@)
    ||| k >= 4 && c == Some("Console"@)
    ||| k >= 5 && c == Some("Streamer"@)
    ||| k >= 6 && c == Some("Speaker"@)
    ||| k >= 7 && c == Some("TV"@)
    ||| k >= 8 && c == Some("Echo"@)
    ||| k >= 9 && c == Some("SmartPlug"@)
    ||| k >= 10 && c == Some("Hub"@)
    ||| k >= 11 && c == Some("Sprinkler"@)
    ||| k >= 12 && c == Some("Garage"@)
    ||| k >= 13 && c == Some("Appliance"@)
    ||| k >= 14 && c == Some("Phone"@)
    ||| k >= 15 && c == Some("PC"@)
    ||| k >= 16 && c == Some("IoT"@)
}

/// Each word that tells a category gives that category, unless one that is
/// tried before it is told as well: words that may stand in any mark.
pub proof fn law_words_tell_category(t: MarksView)
    ensures
        t.shows("router"@) ==> tried_by(category(t), 0),
        t.shows("gateway"@) ==> tried_by(category(t), 0),
        t.shows("thermostat"@) ==> tried_by(category(t), 1),
        t.shows("camera"@) ==> tried_by(category(t), 2),
        t.shows("doorbell"@) ==> tried_by(category(t), 2),
        t.shows("printer"@) ==> tried_by(category(t), 3),
        t.shows("laserjet"@) ==> tried_by(category(t), 3),
        t.shows("playstation"@) ==> tried_by(category(t), 4),
        t.shows("xbox"@) ==> tried_by(category(t), 4),
        t.shows("nintendo"@) ==> tried_by(category(t), 4),
        t.shows("apple tv"@) ==> tried_by(category(t), 5),
        t.shows("appletv"@) ==> tried_by(category(t), 5),
        t.shows("fire tv"@) ==> tried_by(category(t), 5),
        t.shows("chromecast"@) ==> tried_by(category(t), 5),
        t.shows("roku"@) ==> tried_by(category(t), 5),
        t.shows("shield"@) ==> tried_by(category(t), 5),
        t.shows("homepod"@) ==> tried_by(category(t), 6),
        t.shows("sonos"@) ==> tried_by(category(t), 6),
        t.shows("bose soundbar"@) ==> tried_by(category(t), 6),
        t.shows("samsung tv"@) ==> tried_by(category(t), 7),
        t.shows("lg tv"@) ==> tried_by(category(t), 7),
        t.shows("vizio"@) ==> tried_by(category(t), 7),
        t.shows("tcl tv"@) ==> tried_by(category(t), 7),
        t.shows("alexa"@) ==> tried_by(category(t), 8),
        t.shows("smart plug"@) ==> tried_by(category(t), 9),
        t.shows("outlet"@) ==> tried_by(category(t), 9),
        t.shows("kasa"@) ==> tried_by(category(t), 9),
        t.shows("hub"@) ==> tried_by(category(t), 10),
        t.shows("sprinkler"@) ==> tried_by(category(t), 11),
        t.shows("rachio"@) ==> tried_by(category(t), 11),
        t.shows("garage"@) ==> tried_by(category(t), 12),
        t.shows("washer"@) ==> tried_by(category(t), 13),
        t.shows("dryer"@) ==> tried_by(category(t), 13),
        t.shows("refrigerator"@) ==> tried_by(category(t), 13),
        t.shows("dishwasher"@) ==> tried_by(category(t), 13),
        t.shows("oven"@) ==> tried_by(category(t), 13),
        t.shows("microwave"@) ==> tried_by(category(t), 13),
        t.shows("iphone"@) ==> tried_by(category(t), 14),
        t.shows("galaxy"@) ==> tried_by(category(t), 14),
        t.shows("pixel phone"@) ==> tried_by(category(t), 14),
        t.shows("ipad"@) ==> tried_by(category(t), 15),
        t.shows("macbook"@) ==> tried_by(category(t), 15),
        t.shows("imac"@) ==> tried_by(category(t), 15),
        t.shows("mac mini"@) ==> tried_by(category(t), 15),
        t.shows("mac pro"@) ==> tried_by(category(t), 15),
        t.shows("windows"@) ==> tried_by(category(t), 15),
        t.shows("android"@) ==> tried_by(category(t), 15),
        t.shows("iot"@) ==> tried_by(category(t), 16),
{
}

/// Each maker that tells a category gives that category, unless one that is
/// tried before it is told as well.
pub proof fn law_makers_tell_category(t: MarksView)
    ensures
        text::contains(t.vendor, "eero"@) ==> tried_by(category(t), 0),
        text::contains(t.vendor, "ubiquiti"@) ==> tried_by(category(t), 0),
        text::contains(t.vendor, "ecobee"@) ==> tried_by(category(t), 1),
        text::contains(t.vendor, "ring"@) ==> tried_by(category(t), 2),
        text::contains(t.vendor, "arlo"@) ==> tried_by(category(t), 2),
        text::contains(t.vendor, "wyze"@) ==> tried_by(category(t), 2),
        text::contains(t.vendor, "reolink"@) ==> tried_by(category(t), 2),
        text::contains(t.vendor, "hikvision"@) ==> tried_by(category(t), 2),
        text::contains(t.vendor, "dahua"@) ==> tried_by(category(t), 2),
        text::contains(t.vendor, "hp inc"@) ==> tried_by(category(t), 3),
        text::contains(t.vendor, "canon"@) ==> tried_by(category(t), 3),
        text::contains(t.vendor, "brother"@) ==> tried_by(category(t), 3),
        text::contains(t.vendor, "epson"@) ==> tried_by(category(t), 3),
        text::contains(t.vendor, "lexmark"@) ==> tried_by(category(t), 3),
        text::contains(t.vendor, "sony interactive"@) ==> tried_by(category(t), 4),
        text::contains(t.vendor, "denon"@) ==> tried_by(category(t), 6),
        text::contains(t.vendor, "harman"@) ==> tried_by(category(t), 6),
        text::contains(t.vendor, "bang & olufsen"@) ==> tried_by(category(t), 6),
        text::contains(t.vendor, "wemo"@) ==> tried_by(category(t), 9),
        text::contains(t.vendor, "belkin"@) ==> tried_by(category(t), 9),
        text::contains(t.vendor, "phillips"@) ==> tried_by(category(t), 10),
        text::contains(t.vendor, "philips lighting"@) ==> tried_by(category(t), 10),
        text::contains(t.vendor, "signify"@) ==> tried_by(category(t), 10),
        text::contains(t.vendor, "samsung smarthings"@) ==> tried_by(category(t), 10),
        text::contains(t.vendor, "smartthings"@) ==> tried_by(category(t), 10),
        text::contains(t.vendor, "chamberlain"@) ==> tried_by(category(t), 12),
        text::contains(t.vendor, "liftmaster"@) ==> tried_by(category(t), 12),
        text::contains(t.vendor, "espressif"@) ==> tried_by(category(t), 16),
        text::contains(t.vendor, "arduino"@) ==> tried_by(category(t), 16),
        text::contains(t.vendor, "nest"@) && text::contains(t.host, "therm"@) ==> tried_by(
            category(t),
            1,
        ),
        text::starts(t.host, "npi"@) ==> tried_by(category(t), 3),
        text::contains(t.vendor, "google"@) && text::contains(t.host, "tv"@) ==> tried_by(
            category(t),
            5,
        ),
        text::contains(t.vendor, "amazon"@) && text::contains(t.host, "tv"@) ==> tried_by(
            category(t),
            5,
        ),
        t.shows("airplay"@) && !t.shows("iphone"@) && !t.shows("macbook"@) ==> tried_by(
            category(t),
            6,
        ),
        text::contains(t.vendor, "samsung electronics"@) && text::contains(t.host, "qled"@)
            ==> tried_by(category(t), 7),
        text::contains(t.vendor, "lg electronics"@) && text::contains(t.host, "oled"@) ==> tried_by(
            category(t),
            7,
        ),
        text::starts(t.host, "echo-"@) ==> tried_by(category(t), 8),
        text::contains(t.vendor, "tp-link"@) && t.shows("plug"@) ==> tried_by(category(t), 9),
        t.shows("bridge"@) && !text::contains(t.host, "air"@) ==> tried_by(category(t), 10),
        text::contains(t.host, "android"@) && text::contains(t.host, "phone"@) ==> tried_by(
            category(t),
            14,
        ),
        t.shows("linux"@) ==> tried_by(category(t), 15),
{
}

/// A category is told by a word for it, in any of the marks: without any of
/// these words there is none.
pub proof fn law_no_word_no_category(t: MarksView)
    requires
        !t.shows("router"@),
        !t.shows("gateway"@),
        !t.shows("eero"@),
        !t.shows("ubiquiti"@),
        !t.shows("thermostat"@),
        !t.shows("ecobee"@),
        !t.shows("camera"@),
        !t.shows("doorbell"@),
        !t.shows("ring"@),
        !t.shows("arlo"@),
        !t.shows("wyze"@),
        !t.shows("reolink"@),
        !t.shows("hikvision"@),
        !t.shows("dahua"@),
        !t.shows("printer"@),
        !t.shows("laserjet"@),
        !t.shows("hp inc"@),
        !t.shows("canon"@),
        !t.shows("brother"@),
        !t.shows("epson"@),
        !t.shows("lexmark"@),
        !t.shows("playstation"@),
        !t.shows("xbox"@),
        !t.shows("nintendo"@),
        !t.shows("sony interactive"@),
        !t.shows("apple tv"@),
        !t.shows("appletv"@),
        !t.shows("fire tv"@),
        !t.shows("chromecast"@),
        !t.shows("roku"@),
        !t.shows("shield"@),
        !t.shows("homepod"@),
        !t.shows("sonos"@),
        !t.shows("bose soundbar"@),
        !t.shows("denon"@),
        !t.shows("harman"@),
        !t.shows("bang & olufsen"@),
        !t.shows("samsung tv"@),
        !t.shows("lg tv"@),
        !t.shows("vizio"@),
        !t.shows("tcl tv"@),
        !t.shows("alexa"@),
        !t.shows("smart plug"@),
        !t.shows("outlet"@),
        !t.shows("kasa"@),
        !t.shows("wemo"@),
        !t.shows("belkin"@),
        !t.shows("hub"@),
        !t.shows("phillips"@),
        !t.shows("philips lighting"@),
        !t.shows("signify"@),
        !t.shows("samsung smarthings"@),
        !t.shows("smartthings"@),
        !t.shows("sprinkler"@),
        !t.shows("rachio"@),
        !t.shows("garage"@),
        !t.shows("chamberlain"@),
        !t.shows("liftmaster"@),
        !t.shows("washer"@),
        !t.shows("dryer"@),
        !t.shows("refrigerator"@),
        !t.shows("dishwasher"@),
        !t.shows("oven"@),
        !t.shows("microwave"@),
        !t.shows("iphone"@),
        !t.shows("galaxy"@),
        !t.shows("pixel phone"@),
        !t.shows("ipad"@),
        !t.shows("macbook"@),
        !t.shows("imac"@),
        !t.shows("mac mini"@),
        !t.shows("mac pro"@),
        !t.shows("windows"@),
        !t.shows("android"@),
        !t.shows("iot"@),
        !t.shows("espressif"@),
        !t.shows("arduino"@),
        !t.shows("netgear"@),
        !t.shows("cisco"@),
        !t.shows("nest"@),
        !t.shows("npi"@),
        !t.shows("microsoft"@),
        !t.shows("tv"@),
        !t.shows("airplay"@),
        !t.shows("bose"@),
        !t.shows("speaker"@),
        !t.shows("echo"@),
        !t.shows("plug"@),
        !t.shows("bridge"@),
        !t.shows("air"@),
        !t.shows("hue bridge"@),
        !t.shows("hue hub"@),
        !t.shows("linux"@),
        !t.shows("samsung"@),
        !t.shows("lg electronics"@),
        !t.shows("eerogw"@),
        !t.shows("eero gateway"@),
        !t.shows("phone"@),
        !t.shows("mobile"@),
        t.host != "eerogw"@,
        t.host != "eero gateway"@,
        !text::starts(t.host, "npi"@),
        !text::starts(t.host, "echo-"@),
        !text::starts(t.host, "echo "@),
        !text::contains(t.vendor, "samsung electronics"@),
    ensures
        category(t) is None,
{
}

/// A word counts wherever it stands: in the maker's name, the host name, the
/// model, the friendly name or the name of a service, in any letters.
pub proof fn law_words_count_anywhere(
    vendor: Seq<char>,
    hostname: Seq<char>,
    d: DetailsView,
    word: Seq<char>,
    service: Seq<char>,
)
    ensures
        ({
            let t = marks_of(vendor, hostname, Some(d));
            &&& text::contains(text::ascii_lower(vendor), word) ==> t.shows(word)
            &&& text::contains(text::ascii_lower(hostname), word) ==> t.shows(word)
            &&& d.property("model"@) is Some && text::contains(
                text::ascii_lower(d.property("model"@)->0),
                word,
            ) ==> t.shows(word)
            &&& d.property("friendly_name"@) is Some && text::contains(
                text::ascii_lower(d.property("friendly_name"@)->0),
                word,
            ) ==> t.shows(word)
            &&& d.services.contains(service) && text::contains(text::ascii_lower(service), word)
                ==> t.shows(word)
        }),
{
    let t = marks_of(vendor, hostname, Some(d));
    if d.services.contains(service) {
        assert(t.services.contains(text::ascii_lower(service)));
    }
}

} // verus!
