//! Which program owns a local port.

use dashmap::DashMap;
use vstd::prelude::*;
use vstd::string::*;

use crate::packet::Protocol;
use crate::text;

verus! {

/// The concurrent hash map of the `dashmap` crate.
#[verifier::external_type_specification]
#[verifier::external_body]
#[verifier::reject_recursive_types(K)]
#[verifier::reject_recursive_types(V)]
#[verifier::reject_recursive_types(S)]
pub struct ExDashMap<K, V, S>(DashMap<K, V, S>);

/// What a map from ports to program names holds.
pub uninterp spec fn program_names(m: DashMap<u32, String>) -> Map<u32, Seq<char>>;

/// `DashMap::new`: a map that holds nothing.
#[verifier::external_body]
fn names_new() -> (r: DashMap<u32, String>)
    ensures
        (program_names(r) == Map::<u32, Seq<char>>::empty()),
{
    DashMap::new()
}

/// `DashMap::insert`: puts a value at a key, in place of the one that was there.
#[verifier::external_body]
fn names_insert(m: &mut DashMap<u32, String>, k: u32, v: String)
    ensures
        program_names(*final(m)) == program_names(*old(m)).insert(k, v@),
{
    m.insert(k, v);
}

/// `DashMap::get`: a copy of the value at a key.
#[verifier::external_body]
fn names_get(m: &DashMap<u32, String>, k: u32) -> (r: Option<String>)
    ensures
        match r {
            Some(v) => program_names(*m).dom().contains(k) && v@ == program_names(*m)[k],
            None => !program_names(*m).dom().contains(k),
        },
{
    m.get(&k).map(|v| v.clone())
}

/// `DashMap::contains_key`: whether there is a value at a key.
#[verifier::external_body]
fn names_have(m: &DashMap<u32, String>, k: u32) -> (r: bool)
    ensures
        r == program_names(*m).dom().contains(k),
{
    m.contains_key(&k)
}

/// A number for a protocol, different for any two.
pub open spec fn protocol_code(p: Protocol) -> u32 {
    match p {
        Protocol::Tcp => 256,
        Protocol::Udp => 257,
        Protocol::Icmp => 258,
        Protocol::Unknown(n) => byte_code(n),
    }
}

/// The number for a protocol that is known by its number only.
pub open spec fn byte_code(n: u8) -> u32 {
    n as u32
}

fn code_of_byte(n: u8) -> (r: u32)
    ensures
        r == byte_code(n),
        r < 256,
{
    n as u32
}

fn code_of(p: &Protocol) -> (r: u32)
    ensures
        r == protocol_code(*p),
        r <= 258,
{
    match p {
        Protocol::Tcp => 256,
        Protocol::Udp => 257,
        Protocol::Icmp => 258,
        Protocol::Unknown(n) => code_of_byte(*n),
    }
}

/// A number for a port of a protocol.
pub open spec fn port_key(port: u16, p: Protocol) -> u32 {
    numbered_key(port, protocol_code(p))
}

/// A number for a port and the number of a protocol.
pub open spec fn numbered_key(port: u16, code: u32) -> u32 {
    (port * 1024 + code) as u32
}

/// Two ports of two protocols have different numbers.
pub proof fn law_port_keys_differ(a: u16, p: Protocol, b: u16, q: Protocol)
    ensures
        port_key(a, p) == port_key(b, q) <==> a == b && p == q,
{
    assert(protocol_code(p) <= 258);
    assert(protocol_code(q) <= 258);
}

fn key_number(port: u16, code: u32) -> (r: u32)
    requires
        code <= 258,
    ensures
        r == numbered_key(port, code),
{
    (port as u32) * 1024 + code
}

/// The programs that own local ports.
pub struct ProcessCache {
    names: DashMap<u32, String>,
}

impl View for ProcessCache {
    type V = Map<u32, Seq<char>>;

    closed spec fn view(&self) -> Map<u32, Seq<char>> {
        program_names(self.names)
    }
}

/// The name at a key, if any.
pub open spec fn known_name(m: Map<u32, Seq<char>>, k: u32) -> Option<Seq<char>> {
    if m.dom().contains(k) {
        Some(m[k])
    } else {
        None
    }
}

impl ProcessCache {
    /// A cache without names.
    pub fn new() -> (r: ProcessCache)
        ensures
            r@ == Map::<u32, Seq<char>>::empty(),
    {
        ProcessCache { names: names_new() }
    }

    /// The program that owns a port, if it is known.
    pub fn get(&self, port: u16, protocol: &Protocol) -> (r: Option<String>)
        ensures
            text::text_view(r) == known_name(self@, port_key(port, *protocol)),
    {
        names_get(&self.names, key_number(port, code_of(protocol)))
    }

    /// Whether the program that owns a port is known.
    pub fn contains(&self, port: u16, protocol: &Protocol) -> (r: bool)
        ensures
            r == self@.dom().contains(port_key(port, *protocol)),
    {
        names_have(&self.names, key_number(port, code_of(protocol)))
    }

    /// Notes the program that owns a port.
    pub fn insert(&mut self, port: u16, protocol: &Protocol, name: String)
        ensures
            final(self)@ == old(self)@.insert(port_key(port, *protocol), name@),
    {
        names_insert(&mut self.names, key_number(port, code_of(protocol)), name);
    }
}

/// What the cache knows after rows of ports with program names, as far as the
/// names could be found: a name that is known already stays.
pub open spec fn refreshed(
    m: Map<u32, Seq<char>>,
    protocol: Protocol,
    rows: Seq<(u16, Option<String>)>,
) -> Map<u32, Seq<char>>
    decreases rows.len(),
{
    if rows.len() == 0 {
        m
    } else {
        let before = refreshed(m, protocol, rows.drop_last());
        let key = port_key(rows.last().0, protocol);
        match rows.last().1 {
            Some(name) if !before.dom().contains(key) => before.insert(key, name@),
            _ => before,
        }
    }
}

/// Adds the programs of ports of one protocol to the cache.
pub fn refresh_process_cache(
    cache: &mut ProcessCache,
    protocol: Protocol,
    rows: &Vec<(u16, Option<String>)>,
)
    ensures
        final(cache)@ == refreshed(old(cache)@, protocol, rows@),
{
    let n: usize = rows.len();
    for i in 0..n
        invariant
            n == rows@.len(),
            cache@ == refreshed(old(cache)@, protocol, rows@.take(i as int)),
    {
        assert(rows@.take(i + 1).drop_last() =~= rows@.take(i as int));
        let row = &rows[i];
        if let Some(name) = &row.1 {
            if !cache.contains(row.0, &protocol) {
                cache.insert(row.0, &protocol, name.as_str().to_owned());
            }
        }
    }
    assert(rows@.take(n as int) =~= rows@);
}

/// A name that the cache knows stays when programs are added.
pub proof fn law_known_names_stay(
    m: Map<u32, Seq<char>>,
    protocol: Protocol,
    rows: Seq<(u16, Option<String>)>,
    k: u32,
)
    requires
        m.dom().contains(k),
    ensures
        refreshed(m, protocol, rows).dom().contains(k),
        refreshed(m, protocol, rows)[k] == m[k],
    decreases rows.len(),
{
    if rows.len() > 0 {
        law_known_names_stay(m, protocol, rows.drop_last(), k);
    }
}

/// The port of a row of the connection table, which holds it in network order
/// in its low half.
pub open spec fn row_port(raw: u32) -> u16 {
    ((raw % 256) * 256 + (raw / 256) % 256) as u16
}

/// The port of a row of the connection table.
pub fn local_port(raw: u32) -> (r: u16)
    ensures
        r == row_port(raw),
{
    ((raw % 256) * 256 + (raw / 256) % 256) as u16
}

/// The name of the processes that are part of the operating system.
pub fn system_process(pid: u32) -> (r: Option<String>)
    ensures
        match r {
            Some(s) => (pid == 0 || pid == 4) && s@ == "System"@,
            None => pid != 0 && pid != 4,
        },
{
    if pid == 0 || pid == 4 {
        Some("System".to_owned())
    } else {
        None
    }
}

/// The port in a row of the system's table stands there with its higher byte
/// first: in the lowest byte of the number.
pub proof fn law_row_port(high: u8, low: u8, rest: u16)
    ensures
        row_port((rest * 0x1_0000 + low * 0x100 + high) as u32) == high * 256 + low,
{
    let raw = (rest * 0x1_0000 + low * 0x100 + high) as u32;
    assert(raw % 256 == high);
    assert(raw / 256 == rest * 256 + low);
    assert((raw / 256) % 256 == low);
}

} // verus!
