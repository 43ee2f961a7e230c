//! Multicast DNS: the queries that find devices, and the records of the
//! responses.

use vstd::prelude::*;
use vstd::string::*;
use vstd::utf8::*;

use crate::bytes;
use crate::bytes::{push16, push_bytes, read16, read32, slice_of};
use crate::dns;
use crate::net;
use crate::net::{IpAddr, octets, v4};
use crate::text;
use crate::text::{
    chars_of, dec_text, find_char, has_part, join_texts, lossy_text, lower_case, parse_u8, part,
    split_chars, utf8_text,
};

verus! {

// ---------------------------------------------------------------------------
// Names
// ---------------------------------------------------------------------------

/// The position behind the name at `pos`, if the name ends inside the message.
pub open spec fn mdns_end(data: Seq<u8>, pos: int) -> Option<int>
    decreases data.len() - pos,
{
    if pos < 0 || pos >= data.len() {
        None
    } else if data[pos] == 0 {
        Some(pos + 1)
    } else if data[pos] >= 0xC0 {
        if pos + 1 >= data.len() {
            None
        } else {
            Some(pos + 2)
        }
    } else if pos + 1 + data[pos] > data.len() {
        None
    } else {
        mdns_end(data, pos + 1 + data[pos])
    }
}

/// The labels of the name at `pos`, with replacement characters for bytes that
/// are not text; none where the name leaves the message or follows more than
/// ten compression pointers.
pub open spec fn mdns_labels(data: Seq<u8>, pos: int, jumps: nat) -> Option<Seq<Seq<char>>>
    decreases 11 - jumps, data.len() - pos,
{
    if jumps > 10 || pos < 0 || pos >= data.len() {
        None
    } else if data[pos] == 0 {
        Some(Seq::empty())
    } else if data[pos] >= 0xC0 {
        if pos + 1 >= data.len() {
            None
        } else {
            mdns_labels(data, (data[pos] % 64) * 256 + data[pos + 1], jumps + 1)
        }
    } else if pos + 1 + data[pos] > data.len() {
        None
    } else {
        match mdns_labels(data, pos + 1 + data[pos], jumps) {
            Some(rest) => Some(
                seq![text::lenient(data.subrange(pos + 1, pos + 1 + data[pos]))] + rest,
            ),
            None => None,
        }
    }
}

/// The name at `pos`: its labels with dots between them.
pub open spec fn mdns_name(data: Seq<u8>, pos: int) -> Option<Seq<char>> {
    match mdns_labels(data, pos, 0) {
        Some(l) => Some(text::join(l, "."@)),
        None => None,
    }
}

/// The position behind the name at `offset`.
pub fn skip_mdns_name(data: &[u8], offset: usize) -> (r: Option<usize>)
    requires
        bytes::in_memory(data@),
    ensures
        match r {
            Some(p) => mdns_end(data@, offset as int) == Some(p as int),
            None => mdns_end(data@, offset as int) is None,
        },
        r is Some ==> r->0 <= data@.len(),
{
    let mut pos: usize = offset;
    loop
        invariant
            bytes::in_memory(data@),
            mdns_end(data@, offset as int) == mdns_end(data@, pos as int),
        decreases data@.len() - pos,
    {
        if pos >= data.len() {
            return None;
        }
        let len: usize = data[pos] as usize;
        if len == 0 {
            return Some(pos + 1);
        }
        if len >= 0xC0 {
            if pos + 1 >= data.len() {
                return None;
            }
            return Some(pos + 2);
        }
        if pos + 1 + len > data.len() {
            return None;
        }
        pos = pos + 1 + len;
    }
}

spec fn behind(seen: Seq<Seq<char>>, rest: Option<Seq<Seq<char>>>) -> Option<Seq<Seq<char>>> {
    match rest {
        Some(r) => Some(seen + r),
        None => None,
    }
}

/// The name at `offset` and the position behind it. Compression pointers are
/// followed, at most ten.
pub fn read_mdns_name(data: &[u8], offset: usize) -> (r: Option<(String, usize)>)
    requires
        bytes::in_memory(data@),
    ensures
        match r {
            Some((n, p)) => mdns_name(data@, offset as int) == Some(n@) && mdns_end(
                data@,
                offset as int,
            ) == Some(p as int),
            None => mdns_name(data@, offset as int) is None,
        },
        r matches Some((_, p)) ==> p <= data@.len(),
{
    let mut found: Vec<String> = Vec::new();
    let mut pos: usize = offset;
    let mut jumps: usize = 0;
    let mut end: usize = 0;
    assert(behind(text::texts(found@), mdns_labels(data@, offset as int, 0)) == mdns_labels(
        data@,
        offset as int,
        0,
    )) by {
        assert(text::texts(found@) =~= Seq::<Seq<char>>::empty());
        match mdns_labels(data@, offset as int, 0) {
            Some(l) => assert(Seq::<Seq<char>>::empty() + l =~= l),
            None => {},
        }
    }
    loop
        invariant
            bytes::in_memory(data@),
            jumps <= 11,
            mdns_labels(data@, offset as int, 0) == behind(
                text::texts(found@),
                mdns_labels(data@, pos as int, jumps as nat),
            ),
            jumps == 0 ==> mdns_end(data@, offset as int) == mdns_end(data@, pos as int),
            jumps > 0 ==> mdns_end(data@, offset as int) == Some(end as int),
            jumps > 0 ==> end <= data@.len(),
        decreases 12 - jumps, data@.len() - pos,
    {
        if pos >= data.len() || jumps > 10 {
            return None;
        }
        let len: usize = data[pos] as usize;
        if len == 0 {
            if jumps == 0 {
                end = pos + 1;
            }
            assert(text::texts(found@) + Seq::<Seq<char>>::empty() =~= text::texts(found@));
            return Some((join_texts(&found, "."), end));
        }
        if len >= 0xC0 {
            if pos + 1 >= data.len() {
                return None;
            }
            if jumps == 0 {
                end = pos + 2;
            }
            pos = (len % 64) * 256 + data[pos + 1] as usize;
            jumps = jumps + 1;
            continue ;
        }
        if pos + 1 + len > data.len() {
            return None;
        }
        let ghost raw = data@.subrange(pos + 1, pos + 1 + len);
        let label = lossy_text(slice_of(data, pos + 1, pos + 1 + len));
        proof {
            let rest = mdns_labels(data@, pos + 1 + len, jumps as nat);
            let seen = text::texts(found@);
            let more = text::texts(found@.push(label));
            assert(more =~= seen.push(text::lenient(raw)));
            if rest is Some {
                assert(seen + (seq![text::lenient(raw)] + rest->0) =~= more + rest->0);
            }
        }
        found.push(label);
        pos = pos + 1 + len;
    }
}

// ---------------------------------------------------------------------------
// Records
// ---------------------------------------------------------------------------

/// A resource record: the name it is about, its type, and where its data
/// stands in the message.
pub struct MdnsRecord {
    pub name: String,
    pub kind: u16,
    pub body: usize,
    pub len: usize,
}

/// What a record says.
pub struct RecordView {
    pub name: Seq<char>,
    pub kind: u16,
    pub body: int,
    pub len: int,
}

impl View for MdnsRecord {
    type V = RecordView;

    open spec fn view(&self) -> RecordView {
        RecordView {
            name: self.name@,
            kind: self.kind,
            body: self.body as int,
            len: self.len as int,
        }
    }
}

/// The views of records.
pub open spec fn record_views(v: Seq<MdnsRecord>) -> Seq<RecordView> {
    v.map_values(|r: MdnsRecord| r@)
}

/// The position behind `n` questions.
pub open spec fn mdns_questions_end(data: Seq<u8>, pos: int, n: nat) -> Option<int>
    decreases n,
{
    if n == 0 {
        Some(pos)
    } else {
        match mdns_end(data, pos) {
            Some(p) => mdns_questions_end(data, p + 4, (n - 1) as nat),
            None => None,
        }
    }
}

/// The records from `pos` on, at most `n`, up to the first that the message
/// does not hold.
pub open spec fn records_from(data: Seq<u8>, pos: int, n: nat) -> Seq<RecordView>
    decreases n,
{
    if n == 0 {
        Seq::empty()
    } else {
        match (mdns_name(data, pos), mdns_end(data, pos)) {
            (Some(name), Some(next)) => if next + 10 > data.len() {
                Seq::empty()
            } else {
                let len = bytes::be16(data, next + 8) as int;
                seq![
                    RecordView { name, kind: bytes::be16(data, next), body: next + 10, len },
                ] + records_from(data, next + 10 + len, (n - 1) as nat)
            },
            _ => Seq::empty(),
        }
    }
}

/// The records of a response; a message that is no response has none.
pub open spec fn response_records(data: Seq<u8>) -> Seq<RecordView> {
    if data.len() < 12 || data[2] < 128 {
        Seq::empty()
    } else {
        match mdns_questions_end(data, 12, bytes::be16(data, 4) as nat) {
            Some(p) => records_from(
                data,
                p,
                (bytes::be16(data, 6) + bytes::be16(data, 8) + bytes::be16(data, 10)) as nat,
            ),
            None => Seq::empty(),
        }
    }
}

/// The records of a response.
pub fn read_records(data: &[u8]) -> (r: Vec<MdnsRecord>)
    requires
        bytes::in_memory(data@),
    ensures
        record_views(r@) == response_records(data@),
        forall|i: int| 0 <= i < r@.len() ==> (#[trigger] r@[i]).body <= data@.len(),
        forall|i: int| 0 <= i < r@.len() ==> (#[trigger] r@[i]).len <= 65535,
{
    let mut r: Vec<MdnsRecord> = Vec::new();
    if data.len() < 12 || data[2] < 128 {
        assert(record_views(r@) =~= Seq::<RecordView>::empty());
        return r;
    }
    let mut questions: u16 = read16(data, 4);
    let mut pos: usize = 12;
    while questions > 0
        invariant
            bytes::in_memory(data@),
            pos <= data@.len() + 4,
            mdns_questions_end(data@, 12, bytes::be16(data@, 4) as nat) == mdns_questions_end(
                data@,
                pos as int,
                questions as nat,
            ),
        decreases questions,
    {
        match skip_mdns_name(data, pos) {
            Some(next) => {
                pos = next + 4;
            },
            None => {
                let none: Vec<MdnsRecord> = Vec::new();
                assert(record_views(none@) =~= Seq::<RecordView>::empty());
                return none;
            },
        }
        questions = questions - 1;
    }
    let total: u32 = read16(data, 6) as u32 + read16(data, 8) as u32 + read16(data, 10) as u32;
    let mut left: u32 = total;
    let ghost all = records_from(data@, pos as int, total as nat);
    assert(record_views(r@) + records_from(data@, pos as int, left as nat) =~= all);
    while left > 0
        invariant
            bytes::in_memory(data@),
            pos <= data@.len() + 65535,
            record_views(r@) + records_from(data@, pos as int, left as nat) == all,
            forall|i: int| 0 <= i < r@.len() ==> (#[trigger] r@[i]).body <= data@.len(),
            forall|i: int| 0 <= i < r@.len() ==> (#[trigger] r@[i]).len <= 65535,
        ensures
            record_views(r@) == all,
        decreases left,
    {
        match read_mdns_name(data, pos) {
            None => {
                assert(record_views(r@) + Seq::<RecordView>::empty() =~= record_views(r@));
                break;
            },
            Some((name, next)) => {
                if next + 10 > data.len() {
                    assert(record_views(r@) + Seq::<RecordView>::empty() =~= record_views(r@));
                    break;
                }
                let len: usize = read16(data, next + 8) as usize;
                let record = MdnsRecord { name, kind: read16(data, next), body: next + 10, len };
                proof {
                    let before = record_views(r@);
                    let rest = records_from(data@, next + 10 + len, (left - 1) as nat);
                    assert(record_views(r@.push(record)) =~= before.push(record@));
                    assert(before + (seq![record@] + rest) =~= before.push(record@) + rest);
                }
                r.push(record);
                pos = next + 10 + len;
            },
        }
        left = left - 1;
    }
    r
}

/// The address that a record gives for a name.
pub open spec fn address_record(data: Seq<u8>, r: RecordView) -> Option<(Seq<char>, IpAddr)> {
    if r.kind == 1 && r.len == 4 && r.body + 4 <= data.len() {
        Some((r.name, IpAddr::V4(bytes::be32(data, r.body))))
    } else {
        None
    }
}

/// The addresses that a response gives, with their names.
pub open spec fn address_records(data: Seq<u8>) -> Seq<(Seq<char>, IpAddr)> {
    response_records(data).filter_map(|r: RecordView| address_record(data, r))
}

/// Named addresses.
pub open spec fn named_views(v: Seq<(String, IpAddr)>) -> Seq<(Seq<char>, IpAddr)> {
    v.map_values(|p: (String, IpAddr)| (p.0@, p.1))
}

/// The addresses that a response gives, with their names.
pub fn parse_mdns_a_records(data: &[u8]) -> (r: Vec<(String, IpAddr)>)
    requires
        bytes::in_memory(data@),
    ensures
        named_views(r@) == address_records(data@),
{
    let records = read_records(data);
    let ghost views = record_views(records@);
    let ghost f = |r: RecordView| address_record(data@, r);
    let mut r: Vec<(String, IpAddr)> = Vec::new();
    let n: usize = records.len();
    assert(named_views(r@) =~= views.take(0).filter_map(f));
    for i in 0..n
        invariant
            n == records@.len(),
            views == record_views(records@),
            f == (|r: RecordView| address_record(data@, r)),
            bytes::in_memory(data@),
            forall|j: int| 0 <= j < n ==> (#[trigger] records@[j]).body <= data@.len(),
            named_views(r@) == views.take(i as int).filter_map(f),
    {
        proof {
            views.lemma_filter_map_take_succ(f, i as int);
            assert(views[i as int] == records@[i as int]@);
        }
        let ghost before = named_views(r@);
        let one = &records[i];
        if one.kind == 1 && one.len == 4 && one.body + 4 <= data.len() {
            let ip = IpAddr::V4(read32(data, one.body));
            r.push((one.name.as_str().to_owned(), ip));
            assert(named_views(r@) =~= before + seq![(one.name@, ip)]);
        } else {
            assert(before + Seq::<(Seq<char>, IpAddr)>::empty() =~= before);
        }
    }
    assert(views.take(n as int) =~= views);
    r
}

/// The service instance that a pointer record names.
pub open spec fn instance_record(data: Seq<u8>, r: RecordView) -> Option<Seq<char>> {
    match mdns_name(data, r.body) {
        Some(n) if r.kind == 12 && text::contains(n, "._"@) => Some(n),
        _ => None,
    }
}

/// The service instances that a response names.
pub open spec fn service_instances(data: Seq<u8>) -> Seq<Seq<char>> {
    response_records(data).filter_map(|r: RecordView| instance_record(data, r))
}

/// The service instances that a response names.
pub fn parse_mdns_service_instances(data: &[u8]) -> (r: Vec<String>)
    requires
        bytes::in_memory(data@),
    ensures
        text::texts(r@) == service_instances(data@),
{
    let records = read_records(data);
    let ghost views = record_views(records@);
    let ghost f = |r: RecordView| instance_record(data@, r);
    let mut r: Vec<String> = Vec::new();
    let n: usize = records.len();
    assert(text::texts(r@) =~= views.take(0).filter_map(f));
    for i in 0..n
        invariant
            n == records@.len(),
            views == record_views(records@),
            f == (|r: RecordView| instance_record(data@, r)),
            bytes::in_memory(data@),
            text::texts(r@) == views.take(i as int).filter_map(f),
    {
        proof {
            views.lemma_filter_map_take_succ(f, i as int);
            assert(views[i as int] == records@[i as int]@);
        }
        let ghost before = text::texts(r@);
        assert(before + Seq::<Seq<char>>::empty() =~= before);
        if records[i].kind == 12 {
            match read_mdns_name(data, records[i].body) {
                Some((instance, _)) => {
                    if has_part(instance.as_str(), "._") {
                        let ghost v = instance@;
                        r.push(instance);
                        assert(text::texts(r@) =~= before + seq![v]);
                    }
                },
                None => {},
            }
        }
    }
    assert(views.take(n as int) =~= views);
    r
}

/// The key, in lower case, and the value of a property.
pub open spec fn property_pair(raw: Seq<u8>) -> Option<(Seq<char>, Seq<char>)> {
    let s = decode_utf8(raw);
    let e = text::char_from(s, '=', 0);
    if valid_utf8(raw) && e < s.len() && text::lowered(s.take(e)).len() > 0 {
        Some((text::lowered(s.take(e)), s.skip(e + 1)))
    } else {
        None
    }
}

/// The properties between `pos` and `end`: strings, each behind its length, up
/// to the first that does not fit.
pub open spec fn property_pairs(data: Seq<u8>, pos: int, end: int) -> Seq<(Seq<char>, Seq<char>)>
    decreases end - pos,
{
    if pos < 0 || pos >= end || pos + 1 + data[pos] > end {
        Seq::empty()
    } else {
        let next = pos + 1 + data[pos];
        match property_pair(data.subrange(pos + 1, next)) {
            Some(p) => seq![p] + property_pairs(data, next, end),
            None => property_pairs(data, next, end),
        }
    }
}

/// Pairs of texts.
pub open spec fn pair_views(v: Seq<(String, String)>) -> Seq<(Seq<char>, Seq<char>)> {
    v.map_values(|p: (String, String)| (p.0@, p.1@))
}

fn parse_property(raw: &[u8]) -> (r: Option<(String, String)>)
    ensures
        match r {
            Some((k, v)) => property_pair(raw@) == Some((k@, v@)),
            None => property_pair(raw@) is None,
        },
{
    match utf8_text(raw) {
        None => None,
        Some(s) => {
            let c = chars_of(s.as_str());
            let e: usize = find_char(c.as_slice(), '=', 0);
            if e == c.len() {
                return None;
            }
            let name = part(c.as_slice(), 0, e);
            let value = part(c.as_slice(), e + 1, c.len());
            assert(name@ =~= s@.take(e as int));
            assert(value@ =~= s@.skip(e + 1));
            let key = lower_case(name.as_str());
            if key.as_str().unicode_len() == 0 {
                None
            } else {
                Some((key, value))
            }
        },
    }
}

fn parse_properties(data: &[u8], from: usize, end: usize) -> (r: Vec<(String, String)>)
    requires
        bytes::in_memory(data@),
        from <= end <= data@.len(),
    ensures
        pair_views(r@) == property_pairs(data@, from as int, end as int),
{
    let mut r: Vec<(String, String)> = Vec::new();
    let mut pos: usize = from;
    let ghost all = property_pairs(data@, from as int, end as int);
    assert(pair_views(r@) + all =~= all);
    while pos < end
        invariant
            bytes::in_memory(data@),
            pos <= end <= data@.len(),
            pair_views(r@) + property_pairs(data@, pos as int, end as int) == all,
        ensures
            pair_views(r@) == all,
        decreases end - pos,
    {
        let len: usize = data[pos] as usize;
        let ghost before = pair_views(r@);
        assert(before + Seq::<(Seq<char>, Seq<char>)>::empty() =~= before);
        if pos + 1 + len > end {
            break;
        }
        match parse_property(slice_of(data, pos + 1, pos + 1 + len)) {
            Some((k, v)) => {
                let ghost one = (k@, v@);
                let ghost rest = property_pairs(data@, pos + 1 + len, end as int);
                r.push((k, v));
                assert(pair_views(r@) =~= before.push(one));
                assert(before + (seq![one] + rest) =~= before.push(one) + rest);
            },
            None => {},
        }
        pos = pos + 1 + len;
        assert(pair_views(r@) + Seq::<(Seq<char>, Seq<char>)>::empty() =~= pair_views(r@));
    }
    r
}

/// The properties that a text record gives for a name.
pub open spec fn text_record(
    data: Seq<u8>,
    r: RecordView,
) -> Option<(Seq<char>, Seq<(Seq<char>, Seq<char>)>)> {
    let pairs = property_pairs(data, r.body, r.body + r.len);
    if r.kind == 16 && r.len > 0 && r.body + r.len <= data.len() && pairs.len() > 0 {
        Some((r.name, pairs))
    } else {
        None
    }
}

/// The properties that a response gives, by name.
pub open spec fn text_records(data: Seq<u8>) -> Seq<(Seq<char>, Seq<(Seq<char>, Seq<char>)>)> {
    response_records(data).filter_map(|r: RecordView| text_record(data, r))
}

/// Named lists of properties.
pub open spec fn listed_views(
    v: Seq<(String, Vec<(String, String)>)>,
) -> Seq<(Seq<char>, Seq<(Seq<char>, Seq<char>)>)> {
    v.map_values(|p: (String, Vec<(String, String)>)| (p.0@, pair_views(p.1@)))
}

/// The properties that a response gives, by name.
pub fn parse_mdns_txt_records(data: &[u8]) -> (r: Vec<(String, Vec<(String, String)>)>)
    requires
        bytes::in_memory(data@),
    ensures
        listed_views(r@) == text_records(data@),
{
    let records = read_records(data);
    let ghost views = record_views(records@);
    let ghost f = |r: RecordView| text_record(data@, r);
    let mut r: Vec<(String, Vec<(String, String)>)> = Vec::new();
    let n: usize = records.len();
    assert(listed_views(r@) =~= views.take(0).filter_map(f));
    for i in 0..n
        invariant
            n == records@.len(),
            views == record_views(records@),
            f == (|r: RecordView| text_record(data@, r)),
            bytes::in_memory(data@),
            forall|j: int| 0 <= j < n ==> (#[trigger] records@[j]).body <= data@.len(),
            forall|j: int| 0 <= j < n ==> (#[trigger] records@[j]).len <= 65535,
            listed_views(r@) == views.take(i as int).filter_map(f),
    {
        proof {
            views.lemma_filter_map_take_succ(f, i as int);
            assert(views[i as int] == records@[i as int]@);
        }
        let ghost before = listed_views(r@);
        assert(before + Seq::<(Seq<char>, Seq<(Seq<char>, Seq<char>)>)>::empty() =~= before);
        let one = &records[i];
        if one.kind == 16 && one.len > 0 && one.body + one.len <= data.len() {
            let pairs = parse_properties(data, one.body, one.body + one.len);
            if pairs.len() > 0 {
                let ghost v = (one.name@, pair_views(pairs@));
                r.push((one.name.as_str().to_owned(), pairs));
                assert(listed_views(r@) =~= before + seq![v]);
            }
        }
    }
    assert(views.take(n as int) =~= views);
    r
}

/// The address that a reverse name is about: its first four parts are the
/// numbers of the address, the last number first.
pub open spec fn reverse_address(name: Seq<char>) -> Option<IpAddr> {
    let p = text::split(name, '.');
    if p.len() < 4 {
        None
    } else {
        match (text::signed_number(p[3]), text::signed_number(p[2]), text::signed_number(p[1]), text::signed_number(p[0])) {
            (Some(a), Some(b), Some(c), Some(d)) => Some(
                IpAddr::V4(net::quad(a as u8, b as u8, c as u8, d as u8)),
            ),
            _ => None,
        }
    }
}

/// The host name that a pointer record gives for an address.
pub open spec fn pointer_record(data: Seq<u8>, r: RecordView) -> Option<(IpAddr, Seq<char>)> {
    match (reverse_address(r.name), mdns_name(data, r.body)) {
        (Some(ip), Some(host)) if r.kind == 12 => Some((ip, host)),
        _ => None,
    }
}

/// The host names that a response gives for addresses.
pub open spec fn pointer_records(data: Seq<u8>) -> Seq<(IpAddr, Seq<char>)> {
    response_records(data).filter_map(|r: RecordView| pointer_record(data, r))
}

/// Host names by address.
pub open spec fn host_views(v: Seq<(IpAddr, String)>) -> Seq<(IpAddr, Seq<char>)> {
    v.map_values(|p: (IpAddr, String)| (p.0, p.1@))
}

fn address_of_reverse(name: &str) -> (r: Option<IpAddr>)
    ensures
        r == reverse_address(name@),
{
    let c = chars_of(name);
    let p = split_chars(c.as_slice(), '.');
    proof {
        assert(text::texts(p@).len() == p@.len());
    }
    if p.len() < 4 {
        return None;
    }
    proof {
        assert(text::texts(p@)[0] == p@[0]@);
        assert(text::texts(p@)[1] == p@[1]@);
        assert(text::texts(p@)[2] == p@[2]@);
        assert(text::texts(p@)[3] == p@[3]@);
    }
    match (
        parse_u8(p[3].as_str()),
        parse_u8(p[2].as_str()),
        parse_u8(p[1].as_str()),
        parse_u8(p[0].as_str()),
    ) {
        (Some(a), Some(b), Some(c), Some(d)) => Some(v4(a, b, c, d)),
        _ => None,
    }
}

/// The host names that a response gives for addresses.
pub fn parse_mdns_ptr_responses(data: &[u8]) -> (r: Vec<(IpAddr, String)>)
    requires
        bytes::in_memory(data@),
    ensures
        host_views(r@) == pointer_records(data@),
{
    let records = read_records(data);
    let ghost views = record_views(records@);
    let ghost f = |r: RecordView| pointer_record(data@, r);
    let mut r: Vec<(IpAddr, String)> = Vec::new();
    let n: usize = records.len();
    assert(host_views(r@) =~= views.take(0).filter_map(f));
    for i in 0..n
        invariant
            n == records@.len(),
            views == record_views(records@),
            f == (|r: RecordView| pointer_record(data@, r)),
            bytes::in_memory(data@),
            host_views(r@) == views.take(i as int).filter_map(f),
    {
        proof {
            views.lemma_filter_map_take_succ(f, i as int);
            assert(views[i as int] == records@[i as int]@);
        }
        let ghost before = host_views(r@);
        assert(before + Seq::<(IpAddr, Seq<char>)>::empty() =~= before);
        let one = &records[i];
        if one.kind == 12 {
            match (address_of_reverse(one.name.as_str()), read_mdns_name(data, one.body)) {
                (Some(ip), Some((host, _))) => {
                    let ghost v = (ip, host@);
                    r.push((ip, host));
                    assert(host_views(r@) =~= before + seq![v]);
                },
                _ => {},
            }
        }
    }
    assert(views.take(n as int) =~= views);
    r
}

// ---------------------------------------------------------------------------
// Queries
// ---------------------------------------------------------------------------

/// Labels in a message: each that is not empty, behind the number of its
/// bytes.
pub open spec fn label_bytes(parts: Seq<Seq<char>>) -> Seq<u8>
    decreases parts.len(),
{
    if parts.len() == 0 {
        Seq::empty()
    } else if parts[0].len() == 0 {
        label_bytes(parts.skip(1))
    } else {
        seq![(encode_utf8(parts[0]).len() % 256) as u8] + encode_utf8(parts[0]) + label_bytes(
            parts.skip(1),
        )
    }
}

/// A query with one question: a name, the type that is asked for, and the
/// request for an answer to the sender alone.
pub open spec fn query(name: Seq<char>, id: u16, kind: u8) -> Seq<u8> {
    bytes::bytes16(id) + seq![0u8, 0, 0, 1, 0, 0, 0, 0, 0, 0] + label_bytes(text::split(name, '.')) + seq![
        0u8,
        0,
        kind,
        0x80,
        1,
    ]
}

fn build_query(name: &str, id: u16, kind: u8) -> (r: Vec<u8>)
    ensures
        r@ == query(name@, id, kind),
{
    broadcast use encode_utf8_decode_utf8;

    let mut pkt: Vec<u8> = Vec::new();
    push16(&mut pkt, id);
    push_bytes(&mut pkt, vec![0u8, 0, 0, 1, 0, 0, 0, 0, 0, 0].as_slice());
    let ghost head = pkt@;
    assert(head =~= bytes::bytes16(id) + seq![0u8, 0, 0, 1, 0, 0, 0, 0, 0, 0]);
    let c = chars_of(name);
    let parts = split_chars(c.as_slice(), '.');
    let ghost all = text::texts(parts@);
    let n: usize = parts.len();
    assert(all.skip(0) =~= all);
    for i in 0..n
        invariant
            n == parts@.len(),
            all == text::texts(parts@),
            pkt@ + label_bytes(all.skip(i as int)) == head + label_bytes(all),
    {
        let ghost before = pkt@;
        let one = parts[i].as_str();
        assert(all.skip(i as int)[0] == one@);
        assert(all.skip(i as int).skip(1) =~= all.skip(i + 1));
        if one.unicode_len() > 0 {
            let b = one.as_bytes();
            assert(b@ == encode_utf8(one@));
            pkt.push((b.len() % 256) as u8);
            push_bytes(&mut pkt, b);
            assert(pkt@ + label_bytes(all.skip(i + 1)) =~= before + (seq![
                (b@.len() % 256) as u8,
            ] + b@ + label_bytes(all.skip(i + 1))));
        }
    }
    assert(all.skip(n as int) =~= Seq::<Seq<char>>::empty());
    assert(pkt@ =~= head + label_bytes(all));
    push_bytes(&mut pkt, vec![0u8, 0, kind, 0x80, 1].as_slice());
    pkt
}

/// A query for the instances of a service, or for the name of an address.
pub fn build_mdns_service_query(service: &str, id: u16) -> (r: Vec<u8>)
    ensures
        r@ == query(service@, id, 12),
{
    build_query(service, id, 12)
}

/// A query for the instances of a service, to be sent to one device.
pub fn build_mdns_qu_query(service: &str, id: u16) -> (r: Vec<u8>)
    ensures
        r@ == query(service@, id, 12),
{
    build_query(service, id, 12)
}

/// A query for the address of a host.
pub fn build_mdns_a_query(hostname: &str, id: u16) -> (r: Vec<u8>)
    ensures
        r@ == query(hostname@, id, 1),
{
    build_query(hostname, id, 1)
}

/// Every part of a name can be a label: it is not empty and has fewer than 192
/// bytes.
pub open spec fn labelled(name: Seq<char>) -> bool {
    forall|i: int|
        0 <= i < text::split(name, '.').len() ==> 0 < (#[trigger] text::split(name, '.')[i]).len()
            && encode_utf8(text::split(name, '.')[i]).len() < 192
}

proof fn lemma_labels_written(before: Seq<u8>, parts: Seq<Seq<char>>, after: Seq<u8>)
    requires
        forall|i: int|
            0 <= i < parts.len() ==> 0 < (#[trigger] parts[i]).len() && encode_utf8(
                parts[i],
            ).len() < 192,
    ensures
        dns::labels(before + label_bytes(parts) + seq![0u8] + after, before.len() as int, 0) == Some(
            parts,
        ),
    decreases parts.len(),
{
    let data = before + label_bytes(parts) + seq![0u8] + after;
    let pos = before.len() as int;
    if parts.len() == 0 {
        assert(data[pos] == 0u8);
        assert(parts =~= Seq::<Seq<char>>::empty());
    } else {
        let raw = encode_utf8(parts[0]);
        encode_utf8_valid_utf8(parts[0]);
        encode_utf8_decode_utf8(parts[0]);
        assert(raw.len() > 0) by {
            if raw.len() == 0 {
                assert(raw =~= Seq::<u8>::empty());
                assert(decode_utf8(Seq::<u8>::empty()).len() == 0);
            }
        }
        let rest = parts.skip(1);
        let head = before + (seq![raw.len() as u8] + raw);
        assert(data =~= head + label_bytes(rest) + seq![0u8] + after);
        lemma_labels_written(head, rest, after);
        assert(data[pos] == raw.len());
        assert(data.subrange(pos + 1, pos + 1 + raw.len()) =~= raw);
        assert(head.len() == pos + 1 + raw.len());
        assert(seq![parts[0]] + rest =~= parts);
    }
}

proof fn lemma_labels_read(before: Seq<u8>, parts: Seq<Seq<char>>, after: Seq<u8>)
    requires
        forall|i: int|
            0 <= i < parts.len() ==> 0 < (#[trigger] parts[i]).len() && encode_utf8(
                parts[i],
            ).len() < 192,
    ensures
        mdns_labels(before + label_bytes(parts) + seq![0u8] + after, before.len() as int, 0)
            == Some(parts),
        mdns_end(before + label_bytes(parts) + seq![0u8] + after, before.len() as int) == Some(
            (before.len() + label_bytes(parts).len() + 1) as int,
        ),
    decreases parts.len(),
{
    let data = before + label_bytes(parts) + seq![0u8] + after;
    let pos = before.len() as int;
    if parts.len() == 0 {
        assert(data[pos] == 0u8);
        assert(parts =~= Seq::<Seq<char>>::empty());
    } else {
        let raw = encode_utf8(parts[0]);
        encode_utf8_valid_utf8(parts[0]);
        encode_utf8_decode_utf8(parts[0]);
        assert(raw.len() > 0) by {
            if raw.len() == 0 {
                assert(raw =~= Seq::<u8>::empty());
                assert(decode_utf8(Seq::<u8>::empty()).len() == 0);
            }
        }
        let rest = parts.skip(1);
        let head = before + (seq![raw.len() as u8] + raw);
        assert(data =~= head + label_bytes(rest) + seq![0u8] + after);
        lemma_labels_read(head, rest, after);
        assert(data[pos] == raw.len());
        assert(data.subrange(pos + 1, pos + 1 + raw.len()) =~= raw);
        assert(head.len() == pos + 1 + raw.len());
        assert(seq![parts[0]] + rest =~= parts);
    }
}

proof fn lemma_labels_len(parts: Seq<Seq<char>>)
    requires
        parts.len() > 0,
        forall|i: int| 0 <= i < parts.len() ==> 0 < (#[trigger] parts[i]).len(),
    ensures
        label_bytes(parts).len() == text::byte_len(text::join(parts, "."@)) + 1,
    decreases parts.len(),
{
    let rest = parts.skip(1);
    if parts.len() == 1 {
        assert(label_bytes(rest).len() == 0);
        assert(text::join(parts, "."@) == parts[0]);
    } else {
        lemma_labels_len(rest);
        assert(seq![parts[0]] + rest =~= parts);
        text::lemma_join_first(parts[0], rest, "."@);
        text::lemma_encode_concat(parts[0] + "."@, text::join(rest, "."@));
        text::lemma_encode_concat(parts[0], "."@);
        reveal_strlit(".");
        is_ascii_chars_encode_utf8("."@);
    }
}

/// What the reader of announcements finds in a query: the name that it was
/// built for, and where the question goes on behind it.
pub proof fn law_query_names_service(name: Seq<char>, id: u16, kind: u8)
    requires
        labelled(name),
    ensures
        mdns_name(query(name, id, kind), 12) == Some(name),
        mdns_end(query(name, id, kind), 12) == Some(14 + text::byte_len(name)),
        query(name, id, kind).len() == 18 + text::byte_len(name),
{
    let parts = text::split(name, '.');
    let head = bytes::bytes16(id) + seq![0u8, 0, 0, 1, 0, 0, 0, 0, 0, 0];
    let tail = seq![0u8, kind, 0x80, 1];
    assert(query(name, id, kind) =~= head + label_bytes(parts) + seq![0u8] + tail);
    lemma_labels_read(head, parts, tail);
    text::lemma_split_nonempty(name, '.', 0);
    text::law_join_split(name, '.');
    reveal_strlit(".");
    assert("."@ =~= seq!['.']);
    lemma_labels_len(parts);
}

/// A query asks for the name that it was built for: whoever reads its question
/// finds that name.
pub proof fn law_query_asks_for_name(name: Seq<char>, id: u16, kind: u8)
    requires
        labelled(name),
    ensures
        dns::name_at(query(name, id, kind), 12) == Some(name),
{
    let parts = text::split(name, '.');
    let head = bytes::bytes16(id) + seq![0u8, 0, 0, 1, 0, 0, 0, 0, 0, 0];
    let tail = seq![0u8, kind, 0x80, 1];
    assert(query(name, id, kind) =~= head + label_bytes(parts) + seq![0u8] + tail);
    lemma_labels_written(head, parts, tail);
    text::lemma_split_nonempty(name, '.', 0);
    text::law_join_split(name, '.');
    reveal_strlit(".");
    assert("."@ =~= seq!['.']);
}

/// The services that are asked for, in order.
pub const BROWSE_SERVICES: [&'static str; 27] = [
    "_services._dns-sd._udp.local",
    "_airplay._tcp.local",
    "_companion-link._tcp.local",
    "_raop._tcp.local",
    "_sonos._tcp.local",
    "_hap._tcp.local",
    "_sleep-proxy._udp.local",
    "_apple-mobdev2._tcp.local",
    "_apple-tv._tcp.local",
    "_home-sharing._tcp.local",
    "_device-info._tcp.local",
    "_googlecast._tcp.local",
    "_spotify-connect._tcp.local",
    "_smb._tcp.local",
    "_ssh._tcp.local",
    "_http._tcp.local",
    "_printer._tcp.local",
    "_ipp._tcp.local",
    "_scanner._tcp.local",
    "_airdrop._tcp.local",
    "_remotepairing._tcp.local",
    "_apple-pairable._tcp.local",
    "_continuity._tcp.local",
    "_rdlink._tcp.local",
    "_nse._tcp.local",
    "_matter._tcp.local",
    "_meshcop._udp.local",
];

/// Messages.
pub open spec fn message_views(v: Seq<Vec<u8>>) -> Seq<Seq<u8>> {
    v.map_values(|m: Vec<u8>| m@)
}

/// The queries for all services, with identifiers from `base` on.
pub open spec fn service_queries(base: u16) -> Seq<Seq<u8>> {
    Seq::new(
        BROWSE_SERVICES@.len(),
        |i: int| query(BROWSE_SERVICES@[i]@, (base + i) as u16, 12),
    )
}

/// Whether services are asked for again when no answer has come for a while:
/// until two seconds before listening ends. `millis` is how long it has lasted,
/// `seconds` how long it lasts in all.
pub fn asks_again(millis: u64, seconds: u64) -> (r: bool)
    ensures
        r == (seconds >= 2 && millis < (seconds - 2) * 1000),
{
    seconds >= 2 && millis / 1000 < seconds - 2
}

/// The queries for all services, with identifiers from `base` on: 200 at
/// first, 300 when they are repeated.
pub fn browse_queries(base: u16) -> (r: Vec<Vec<u8>>)
    requires
        base <= 65509,
    ensures
        message_views(r@) == service_queries(base),
{
    let mut r: Vec<Vec<u8>> = Vec::new();
    let n: usize = BROWSE_SERVICES.len();
    for i in 0..n
        invariant
            base <= 65509,
            n == BROWSE_SERVICES@.len(),
            n == 27,
            r@.len() == i,
            forall|j: int|
                0 <= j < i ==> (#[trigger] r@[j])@ == query(
                    BROWSE_SERVICES@[j]@,
                    (base + j) as u16,
                    12,
                ),
    {
        r.push(build_mdns_service_query(BROWSE_SERVICES[i], base + i as u16));
    }
    assert(message_views(r@) =~= service_queries(base));
    r
}

/// The name that is asked for to learn the host name of an address.
pub open spec fn reverse_name(ip: u32) -> Seq<char> {
    text::dec(net::octet(ip, 3) as nat) + "."@ + text::dec(net::octet(ip, 2) as nat) + "."@ + text::dec(
        net::octet(ip, 1) as nat,
    ) + "."@ + text::dec(net::octet(ip, 0) as nat) + ".in-addr.arpa"@
}

/// The query for the host name of an address; only IPv4 addresses are asked
/// for.
pub open spec fn reverse_query(ip: IpAddr) -> Option<Seq<u8>> {
    match ip {
        IpAddr::V4(a) => Some(query(reverse_name(a), (net::octet(a, 3) + 100) as u16, 12)),
        IpAddr::V6(_) => None,
    }
}

/// The queries for the host names of addresses.
pub fn reverse_queries(ips: &Vec<IpAddr>) -> (r: Vec<Vec<u8>>)
    ensures
        message_views(r@) == ips@.filter_map(|ip: IpAddr| reverse_query(ip)),
{
    let ghost f = |ip: IpAddr| reverse_query(ip);
    let mut r: Vec<Vec<u8>> = Vec::new();
    let n: usize = ips.len();
    assert(message_views(r@) =~= ips@.take(0).filter_map(f));
    for i in 0..n
        invariant
            n == ips@.len(),
            f == (|ip: IpAddr| reverse_query(ip)),
            message_views(r@) == ips@.take(i as int).filter_map(f),
    {
        proof {
            ips@.lemma_filter_map_take_succ(f, i as int);
        }
        let ghost before = message_views(r@);
        assert(before + Seq::<Seq<u8>>::empty() =~= before);
        match ips[i] {
            IpAddr::V4(a) => {
                let o = octets(a);
                let mut name = dec_text(o[3] as u64);
                name.append(".");
                name.append(dec_text(o[2] as u64).as_str());
                name.append(".");
                name.append(dec_text(o[1] as u64).as_str());
                name.append(".");
                name.append(dec_text(o[0] as u64).as_str());
                name.append(".in-addr.arpa");
                let q = build_mdns_service_query(name.as_str(), o[3] as u16 + 100);
                let ghost v = q@;
                r.push(q);
                assert(message_views(r@) =~= before + seq![v]);
            },
            IpAddr::V6(_) => {},
        }
    }
    assert(ips@.take(n as int) =~= ips@);
    r
}

proof fn lemma_octet_text(n: u8)
    ensures
        text::signed_number(text::dec(n as nat)) == Some(n as nat),
        forall|i: int| 0 <= i < text::dec(n as nat).len() ==> text::dec(n as nat)[i] != '.',
{
    text::law_number_read(n as nat);
    assert forall|i: int| 0 <= i < text::dec(n as nat).len() implies text::dec(n as nat)[i] != '.' by {
        assert(text::is_digit(text::dec(n as nat)[i]));
    }
    assert(text::is_digit(text::dec(n as nat)[0]));
}

/// The name that is asked for an address reads back as that address: an answer
/// that repeats the name is an answer for the address.
pub proof fn law_reverse_name(ip: u32)
    ensures
        reverse_address(reverse_name(ip)) == Some(IpAddr::V4(ip)),
{
    let (a, b, c, d) = (net::octet(ip, 0), net::octet(ip, 1), net::octet(ip, 2), net::octet(ip, 3));
    lemma_octet_text(a);
    lemma_octet_text(b);
    lemma_octet_text(c);
    lemma_octet_text(d);
    net::law_quad_of_octets(ip);
    reveal_strlit(".");
    reveal_strlit(".in-addr.arpa");
    let dot = seq!['.'];
    let last = ".in-addr.arpa"@.skip(1);
    assert("."@ =~= dot);
    assert(".in-addr.arpa"@ =~= dot + last);
    let t1 = text::dec(a as nat) + dot + last;
    let t2 = text::dec(b as nat) + dot + t1;
    let t3 = text::dec(c as nat) + dot + t2;
    let t4 = text::dec(d as nat) + dot + t3;
    assert(reverse_name(ip) =~= t4);
    text::lemma_split_first(text::dec(a as nat), last, '.');
    text::lemma_split_first(text::dec(b as nat), t1, '.');
    text::lemma_split_first(text::dec(c as nat), t2, '.');
    text::lemma_split_first(text::dec(d as nat), t3, '.');
    let p = text::split(t4, '.');
    assert(p[0] == text::dec(d as nat));
    assert(p[1] == text::dec(c as nat));
    assert(p[2] == text::dec(b as nat));
    assert(p[3] == text::dec(a as nat));
}

// ---------------------------------------------------------------------------
// What is read of an answer
// ---------------------------------------------------------------------------

/// An answer with one record: a header that says so, the name of the record,
/// its kind, its class, how long it holds, and its body.
pub open spec fn one_record(
    id: Seq<u8>,
    parts: Seq<Seq<char>>,
    kind: u8,
    class: Seq<u8>,
    life: Seq<u8>,
    body: Seq<u8>,
) -> Seq<u8> {
    id + seq![0x84u8, 0, 0, 0, 0, 1, 0, 0, 0, 0] + label_bytes(parts) + seq![0u8] + seq![0u8, kind]
        + class + life + bytes::bytes16(body.len() as u16) + body
}

/// The labels of a name: none of them empty or too long.
pub open spec fn proper(parts: Seq<Seq<char>>) -> bool {
    forall|i: int|
        0 <= i < parts.len() ==> 0 < (#[trigger] parts[i]).len() && encode_utf8(parts[i]).len() < 192
}

#[verifier::rlimit(40)]
proof fn lemma_one_record(
    id: Seq<u8>,
    parts: Seq<Seq<char>>,
    kind: u8,
    class: Seq<u8>,
    life: Seq<u8>,
    body: Seq<u8>,
) -> (r: RecordView)
    requires
        id.len() == 2,
        class.len() == 2,
        life.len() == 4,
        proper(parts),
        body.len() < 0x1_0000,
    ensures
        ({
            let data = one_record(id, parts, kind, class, life, body);
            &&& response_records(data) == seq![r]
            &&& r.name == text::join(parts, "."@)
            &&& r.kind == kind
            &&& r.len == body.len()
            &&& r.body + body.len() == data.len()
            &&& r.body >= 0
            &&& data.skip(r.body) == body
        }),
{
    let data = one_record(id, parts, kind, class, life, body);
    let head = id + seq![0x84u8, 0, 0, 0, 0, 1, 0, 0, 0, 0];
    let tail = seq![0u8, kind] + class + life + bytes::bytes16(body.len() as u16) + body;
    assert(data =~= head + label_bytes(parts) + seq![0u8] + tail);
    lemma_labels_read(head, parts, tail);
    let next = 12 + label_bytes(parts).len() + 1;
    assert(data[2] == 0x84 && data[4] == 0 && data[5] == 0 && data[6] == 0 && data[7] == 1 && data[8]
        == 0 && data[9] == 0 && data[10] == 0 && data[11] == 0);
    let before = head + label_bytes(parts) + seq![0u8] + seq![0u8, kind] + class + life;
    assert(data =~= before + bytes::bytes16(body.len() as u16) + body);
    bytes::law_read_written(before, 0, body.len() as u16, body);
    assert(before.len() == next + 8);
    assert(data[next as int] == 0 && data[next + 1int] == kind);
    let r = RecordView {
        name: text::join(parts, "."@),
        kind: bytes::be16(data, next as int),
        body: next + 10int,
        len: body.len() as int,
    };
    reveal_with_fuel(records_from, 2);
    reveal_with_fuel(mdns_questions_end, 1);
    assert(records_from(data, 12, 1) =~= seq![r]);
    assert(data.skip(next + 10int) =~= body);
    r
}

proof fn lemma_one_kept<A>(r: RecordView, f: spec_fn(RecordView) -> Option<A>)
    ensures
        f(r) is Some ==> seq![r].filter_map(f) == seq![f(r)->0],
        f(r) is None ==> seq![r].filter_map(f) == Seq::<A>::empty(),
{
    reveal_with_fuel(Seq::filter_map, 2);
    assert(seq![r].drop_last() =~= Seq::<RecordView>::empty());
    assert(seq![r].last() == r);
    assert(Seq::<RecordView>::empty().filter_map(f) =~= Seq::<A>::empty());
    if f(r) is Some {
        assert(seq![r].filter_map(f) =~= seq![f(r)->0]);
    }
}

/// An answer with an address names it by the labels of the record, with full
/// stops between them; it lists no instance and no properties.
pub proof fn law_address_told(
    id: Seq<u8>,
    parts: Seq<Seq<char>>,
    class: Seq<u8>,
    life: Seq<u8>,
    a: u8,
    b: u8,
    c: u8,
    d: u8,
)
    requires
        id.len() == 2,
        class.len() == 2,
        life.len() == 4,
        proper(parts),
    ensures
        ({
            let data = one_record(id, parts, 1, class, life, seq![a, b, c, d]);
            let ip = IpAddr::V4((a * 0x0100_0000 + b * 0x0001_0000 + c * 0x0100 + d) as u32);
            &&& address_records(data) == seq![(text::join(parts, "."@), ip)]
            &&& service_instances(data) == Seq::<Seq<char>>::empty()
            &&& text_records(data) == Seq::<(Seq<char>, Seq<(Seq<char>, Seq<char>)>)>::empty()
        }),
{
    let body = seq![a, b, c, d];
    let data = one_record(id, parts, 1, class, life, body);
    let r = lemma_one_record(id, parts, 1, class, life, body);
    assert(data[r.body] == data.skip(r.body)[0] && data[r.body + 1] == data.skip(r.body)[1]
        && data[r.body + 2] == data.skip(r.body)[2] && data[r.body + 3] == data.skip(r.body)[3]);
    lemma_one_kept(r, |r: RecordView| address_record(data, r));
    lemma_one_kept(r, |r: RecordView| instance_record(data, r));
    lemma_one_kept(r, |r: RecordView| text_record(data, r));
}

/// An answer that points from a service to an instance of it lists the
/// instance by its whole name.
pub proof fn law_instance_told(
    id: Seq<u8>,
    parts: Seq<Seq<char>>,
    class: Seq<u8>,
    life: Seq<u8>,
    instance: Seq<Seq<char>>,
)
    requires
        id.len() == 2,
        class.len() == 2,
        life.len() == 4,
        proper(parts),
        proper(instance),
        label_bytes(instance).len() < 0xFFFF,
        text::contains(text::join(instance, "."@), "._"@),
    ensures
        ({
            let body = label_bytes(instance) + seq![0u8];
            let data = one_record(id, parts, 12, class, life, body);
            &&& service_instances(data) == seq![text::join(instance, "."@)]
            &&& address_records(data) == Seq::<(Seq<char>, IpAddr)>::empty()
        }),
{
    let body = label_bytes(instance) + seq![0u8];
    let data = one_record(id, parts, 12, class, life, body);
    let r = lemma_one_record(id, parts, 12, class, life, body);
    let before = data.take(r.body);
    assert(data =~= before + label_bytes(instance) + seq![0u8] + Seq::<u8>::empty()) by {
        assert(data =~= before + data.skip(r.body));
    }
    lemma_labels_read(before, instance, Seq::empty());
    lemma_one_kept(r, |r: RecordView| address_record(data, r));
    lemma_one_kept(r, |r: RecordView| instance_record(data, r));
}

/// A property is told by a name and a value with an equals sign between them,
/// the name in lower case; what has no equals sign or no name is none.
pub proof fn law_property_told(key: Seq<char>, value: Seq<char>)
    requires
        forall|i: int| 0 <= i < key.len() ==> key[i] != '=',
    ensures
        text::lowered(key).len() > 0 ==> property_pair(encode_utf8(key + seq!['='] + value)) == Some(
            (text::lowered(key), value),
        ),
        text::lowered(key).len() == 0 ==> property_pair(encode_utf8(key + seq!['='] + value)) is None,
        property_pair(encode_utf8(key)) is None,
{
    let s = key + seq!['='] + value;
    encode_utf8_valid_utf8(s);
    encode_utf8_decode_utf8(s);
    encode_utf8_valid_utf8(key);
    encode_utf8_decode_utf8(key);
    text::lemma_char_from(s, '=', 0);
    text::lemma_char_from(key, '=', 0);
    let e = text::char_from(s, '=', 0);
    assert(s[key.len() as int] == '=');
    if e < key.len() {
        assert(s[e] == key[e]);
    }
    assert(e == key.len());
    assert(s.take(e) =~= key);
    assert(s.skip(e + 1) =~= value);
}

/// An answer with the properties of an instance tells them under its name, in
/// their order: here one after another with the length of each before it.
pub proof fn law_properties_told(
    id: Seq<u8>,
    parts: Seq<Seq<char>>,
    class: Seq<u8>,
    life: Seq<u8>,
    key: Seq<char>,
    value: Seq<char>,
)
    requires
        id.len() == 2,
        class.len() == 2,
        life.len() == 4,
        proper(parts),
        forall|i: int| 0 <= i < key.len() ==> key[i] != '=',
        text::lowered(key).len() > 0,
        encode_utf8(key + seq!['='] + value).len() < 256,
    ensures
        ({
            let raw = encode_utf8(key + seq!['='] + value);
            let data = one_record(id, parts, 16, class, life, seq![raw.len() as u8] + raw);
            text_records(data) == seq![
                (text::join(parts, "."@), seq![(text::lowered(key), value)]),
            ]
        }),
{
    let raw = encode_utf8(key + seq!['='] + value);
    let n = raw.len() as int;
    let body = seq![n as u8] + raw;
    let data = one_record(id, parts, 16, class, life, body);
    let r = lemma_one_record(id, parts, 16, class, life, body);
    let at = r.body;
    assert(data[at] == data.skip(at)[0]);
    assert(data.subrange(at + 1, at + 1 + n) =~= raw) by {
        assert(data.skip(at) =~= body);
        assert(data.skip(at).subrange(1, 1 + n) =~= raw);
        assert(data.subrange(at + 1, at + 1 + n) =~= data.skip(at).subrange(1, 1 + n));
    }
    law_property_told(key, value);
    reveal_with_fuel(property_pairs, 2);
    let pair = (text::lowered(key), value);
    assert(property_pairs(data, at + 1 + n, at + 1 + n) =~= Seq::<(Seq<char>, Seq<char>)>::empty());
    assert(property_pairs(data, at, at + 1 + n) =~= seq![pair]);
    lemma_one_kept(r, |r: RecordView| text_record(data, r));
}

/// A question is no answer: it tells nothing.
pub proof fn law_questions_tell_nothing(data: Seq<u8>)
    requires
        data.len() < 12 || data[2] < 128,
    ensures
        address_records(data) == Seq::<(Seq<char>, IpAddr)>::empty(),
        service_instances(data) == Seq::<Seq<char>>::empty(),
        text_records(data) == Seq::<(Seq<char>, Seq<(Seq<char>, Seq<char>)>)>::empty(),
        pointer_records(data) == Seq::<(IpAddr, Seq<char>)>::empty(),
{
    assert(response_records(data) =~= Seq::<RecordView>::empty());
}

} // verus!
