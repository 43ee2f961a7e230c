//! What is known of a device on the local network.

use vstd::prelude::*;
use vstd::string::*;

use crate::table::{Dup, KeySet, Table};

verus! {

/// The services that a device offers and the properties that it tells of itself.
pub struct DeviceDetails {
    pub services: KeySet<String>,
    pub properties: Table<String, String>,
}

/// The services and properties of a device.
pub struct DetailsView {
    pub services: Set<Seq<char>>,
    pub properties: Map<Seq<char>, Seq<char>>,
}

impl View for DeviceDetails {
    type V = DetailsView;

    open spec fn view(&self) -> DetailsView {
        DetailsView { services: self.services@, properties: self.properties@ }
    }
}

/// No services and no properties.
pub open spec fn no_details() -> DetailsView {
    DetailsView { services: Set::empty(), properties: Map::empty() }
}

impl DetailsView {
    /// The property of a name.
    pub open spec fn property(self, key: Seq<char>) -> Option<Seq<char>> {
        if self.properties.dom().contains(key) {
            Some(self.properties[key])
        } else {
            None
        }
    }

    /// With a property of a name.
    pub open spec fn with(self, key: Seq<char>, value: Seq<char>) -> DetailsView {
        DetailsView { properties: self.properties.insert(key, value), ..self }
    }

    /// With a property of a name, where there was none of that name.
    pub open spec fn with_new(self, key: Seq<char>, value: Seq<char>) -> DetailsView {
        if self.properties.dom().contains(key) {
            self
        } else {
            self.with(key, value)
        }
    }

    /// With a service.
    pub open spec fn offering(self, service: Seq<char>) -> DetailsView {
        DetailsView { services: self.services.insert(service), ..self }
    }
}

impl Default for DeviceDetails {
    fn default() -> (r: DeviceDetails)
        ensures
            r@ == no_details(),
    {
        DeviceDetails { services: KeySet::new(), properties: Table::new() }
    }
}

impl Dup for DeviceDetails {
    fn dup(&self) -> (r: Self) {
        DeviceDetails { services: self.services.dup(), properties: self.properties.dup() }
    }
}

impl DeviceDetails {
    /// The property of a name.
    pub fn get(&self, key: &str) -> (r: Option<&String>)
        ensures
            match r {
                Some(v) => self@.property(key@) == Some(v@),
                None => self@.property(key@) is None,
            },
    {
        self.properties.get(&key.to_owned())
    }

    /// Whether nothing is known: no service and no property.
    pub fn is_empty(&self) -> (r: bool)
        ensures
            r == (self@ == no_details()),
    {
        let a: usize = self.services.len();
        let b: usize = self.properties.len();
        proof {
            if self@.services.len() == 0 {
                assert(self@.services =~= Set::empty());
            }
            if self.properties.items().len() == 0 {
                assert(self@.properties =~= Map::empty());
            } else {
                let k = self.properties.items()[0].0;
                assert(self.properties@.dom().contains(k));
            }
        }
        a == 0 && b == 0
    }

    /// Gives a property a value.
    pub fn set(&mut self, key: &str, value: &str)
        ensures
            final(self)@ == old(self)@.with(key@, value@),
    {
        self.properties.insert(key.to_owned(), value.to_owned());
    }

    /// Gives a property a value, where it has none.
    pub fn set_new(&mut self, key: &str, value: &str)
        ensures
            final(self)@ == old(self)@.with_new(key@, value@),
    {
        if self.get(key).is_none() {
            self.set(key, value);
        }
    }

    /// Adds a service.
    pub fn offer(&mut self, service: &str)
        ensures
            final(self)@ == old(self)@.offering(service@),
    {
        self.services.insert(service.to_owned());
    }
}

/// What a property was set to is what it has; every other property stays.
pub proof fn law_property_set(d: DetailsView, key: Seq<char>, value: Seq<char>, other: Seq<char>)
    ensures
        d.with(key, value).property(key) == Some(value),
        other != key ==> d.with(key, value).property(other) == d.property(other),
        d.with(key, value).services == d.services,
{
}

/// A device: its hardware address, maker and name, and when it was last seen.
pub struct DeviceInfo {
    pub mac: String,
    pub vendor: String,
    pub hostname: String,
    /// The number of scans in a row that did not find the device.
    pub miss_count: u32,
    /// When the device was last seen, in nanoseconds of the steady clock.
    pub last_seen: u64,
    /// When the device was last seen, in seconds of the wall clock.
    pub last_seen_unix: u64,
}

/// A device with its texts as character sequences.
pub struct InfoView {
    pub mac: Seq<char>,
    pub vendor: Seq<char>,
    pub hostname: Seq<char>,
    pub miss_count: u32,
    pub last_seen: u64,
    pub last_seen_unix: u64,
}

impl View for DeviceInfo {
    type V = InfoView;

    open spec fn view(&self) -> InfoView {
        InfoView {
            mac: self.mac@,
            vendor: self.vendor@,
            hostname: self.hostname@,
            miss_count: self.miss_count,
            last_seen: self.last_seen,
            last_seen_unix: self.last_seen_unix,
        }
    }
}

impl Dup for DeviceInfo {
    fn dup(&self) -> (r: Self) {
        DeviceInfo {
            mac: self.mac.dup(),
            vendor: self.vendor.dup(),
            hostname: self.hostname.dup(),
            miss_count: self.miss_count,
            last_seen: self.last_seen,
            last_seen_unix: self.last_seen_unix,
        }
    }
}

/// `SystemTime::now`, measured from `UNIX_EPOCH` with `duration_since`, in
/// whole seconds; nothing where the clock is set before that. Nothing is
/// claimed of the value: it is the time of the call.
#[verifier::external_body]
fn since_epoch() -> (r: Option<u64>)
{
    std::time::SystemTime::now().duration_since(std::time::UNIX_EPOCH).ok().map(|d| d.as_secs())
}

/// The time of the wall clock in seconds; zero where it is before the epoch.
pub fn unix_seconds(since: Option<u64>) -> (r: u64)
    ensures
        r == (match since {
            Some(s) => s,
            None => 0,
        }),
{
    match since {
        Some(s) => s,
        None => 0,
    }
}

/// The present time of the wall clock in seconds.
pub fn default_unix_now() -> u64 {
    unix_seconds(since_epoch())
}

} // verus!
