//! DHCP: which operating system asks for which options, and the requests that
//! make a host tell.

use vstd::prelude::*;
use vstd::string::*;
use vstd::utf8::*;

use crate::bytes;
use crate::bytes::{push32, push_bytes, push_zeros, read32, slice_of};
use crate::net::IpAddr;
use crate::text;
use crate::text::{dec_text, join_texts, same, starts_with, trim, utf8_text};

verus! {

// ---------------------------------------------------------------------------
// Fingerprints
// ---------------------------------------------------------------------------

/// Option lists that are known as a whole, with their tag and description.
pub const EXACT_LISTS: [(&'static str, &'static str, &'static str); 22] = [
    ("1,3,6,15,31,33,43,44,46,47,119,121,249,252", "[Win]", "Windows 10/11"),
    ("1,15,3,6,44,46,47,31,33,121,249,43,252", "[Win]", "Windows 10/11"),
    ("1,3,6,15,31,33,43,44,46,47,119,121,249", "[Win]", "Windows 10/11"),
    ("1,15,3,6,44,46,47,31,33,121,249,43", "[Win]", "Windows 7/8"),
    ("1,121,3,6,15,119,252", "[Mac]", "macOS"),
    ("1,121,3,6,15,119,252,95", "[Mac]", "macOS Ventura/Sonoma"),
    ("1,3,6,15,119,252", "[Mac]", "macOS (older)"),
    ("1,121,3,6,15,119,252,95,44,46,47", "[iOS]", "iOS/iPadOS"),
    ("1,121,3,6,15,119,252,95,44", "[iOS]", "iOS/iPadOS"),
    ("1,121,3,6,15,119,252,44,46,47", "[iOS]", "iOS/iPadOS"),
    ("1,3,6,15,119,252,44,46,47", "[iOS]", "iOS/iPadOS"),
    ("1,121,3,6,15,119,252,95", "[iOS]", "iOS/iPadOS"),
    ("1,121,3,6,15,119,252,95,44,46", "[iOS]", "iOS/iPadOS"),
    ("1,3,6,15,119,252,95,44,46,47", "[iOS]", "iOS/iPadOS"),
    ("1,3,6,15,26,28,51,58,59,43", "[And]", "Android"),
    ("1,3,6,15,26,28,51,58,59", "[And]", "Android"),
    ("1,3,6,15,26,28,51,58,59,43,114", "[And]", "Android"),
    ("1,28,2,3,15,6,119,12,44,47,26,121,42", "[Lin]", "Linux (dhclient)"),
    ("1,3,6,12,15,17,23,28,29,31,33,40,41,42,119", "[Lin]", "Linux (dhcpcd)"),
    ("1,3,6,12,15,17,28,42,119", "[Lin]", "Linux (dhcpcd)"),
    ("1,3,6,15,44,46,47", "[Net]", "Network Device"),
    ("1,3,6", "[Net]", "Embedded/Router"),
];

/// Beginnings of option lists, for devices that add options of their own.
pub const LIST_PREFIXES: [(&'static str, &'static str, &'static str); 7] = [
    ("1,3,6,15,31,33,43,44,46,47", "[Win]", "Windows"),
    ("1,15,3,6,44,46,47", "[Win]", "Windows"),
    ("1,121,3,6,15,119,252,95", "[iOS]", "iOS (modern)"),
    ("1,121,3,6,15,119", "[Mac]", "macOS/iOS"),
    ("1,3,6,15,26,28", "[And]", "Android"),
    ("1,28,2,3,15,6", "[Lin]", "Linux (dhclient)"),
    ("1,3,6,12,15,17", "[Lin]", "Linux (dhcpcd)"),
];

/// The tag and description of the first known list from `i` on that is `fp`.
pub open spec fn exact_list(fp: Seq<char>, i: int) -> Option<(Seq<char>, Seq<char>)>
    decreases EXACT_LISTS@.len() - i,
{
    if i < 0 || i >= EXACT_LISTS@.len() {
        None
    } else if EXACT_LISTS@[i].0@ == fp {
        Some((EXACT_LISTS@[i].1@, EXACT_LISTS@[i].2@))
    } else {
        exact_list(fp, i + 1)
    }
}

/// The tag and description of the first known beginning from `i` on with
/// which `fp` begins.
pub open spec fn list_prefix(fp: Seq<char>, i: int) -> Option<(Seq<char>, Seq<char>)>
    decreases LIST_PREFIXES@.len() - i,
{
    if i < 0 || i >= LIST_PREFIXES@.len() {
        None
    } else if text::starts(fp, LIST_PREFIXES@[i].0@) {
        Some((LIST_PREFIXES@[i].1@, LIST_PREFIXES@[i].2@))
    } else {
        list_prefix(fp, i + 1)
    }
}

/// The tag and description of the system that asks for a list of options: of a
/// list known as a whole before one known by its beginning.
pub open spec fn dhcp_class(fingerprint: Seq<char>) -> Option<(Seq<char>, Seq<char>)> {
    let fp = text::trimmed(fingerprint);
    match exact_list(fp, 0) {
        Some(row) => Some(row),
        None => list_prefix(fp, 0),
    }
}

/// The tag and description of the system that asks for a list of options.
pub fn classify_dhcp(fingerprint: &str) -> (r: Option<(&'static str, &'static str)>)
    ensures
        match r {
            Some((tag, desc)) => dhcp_class(fingerprint@) == Some((tag@, desc@)),
            None => dhcp_class(fingerprint@) is None,
        },
{
    let fp = trim(fingerprint);
    let mut i: usize = 0;
    while i < EXACT_LISTS.len()
        invariant
            i <= EXACT_LISTS@.len(),
            exact_list(fp@, 0) == exact_list(fp@, i as int),
            fp@ == text::trimmed(fingerprint@),
        decreases EXACT_LISTS@.len() - i,
    {
        if same(fp.as_str(), EXACT_LISTS[i].0) {
            return Some((EXACT_LISTS[i].1, EXACT_LISTS[i].2));
        }
        i = i + 1;
    }
    let mut k: usize = 0;
    while k < LIST_PREFIXES.len()
        invariant
            k <= LIST_PREFIXES@.len(),
            exact_list(fp@, 0) is None,
            list_prefix(fp@, 0) == list_prefix(fp@, k as int),
            fp@ == text::trimmed(fingerprint@),
        decreases LIST_PREFIXES@.len() - k,
    {
        if starts_with(fp.as_str(), LIST_PREFIXES[k].0) {
            return Some((LIST_PREFIXES[k].1, LIST_PREFIXES[k].2));
        }
        k = k + 1;
    }
    None
}

/// A text that begins with a list of options, and with more options behind it.
pub open spec fn longer_list(fp: Seq<char>, list: Seq<char>) -> bool {
    text::starts(fp, list + ","@)
}

proof fn lemma_exact_list(fp: Seq<char>, i: int, tag: Seq<char>)
    requires
        0 <= i,
        forall|k: int|
            0 <= k < EXACT_LISTS@.len() && (#[trigger] EXACT_LISTS@[k]).0@ == fp
                ==> EXACT_LISTS@[k].1@ == tag,
    ensures
        exact_list(fp, i) matches Some(row) ==> row.0 == tag,
    decreases EXACT_LISTS@.len() - i,
{
    if i < EXACT_LISTS@.len() {
        lemma_exact_list(fp, i + 1, tag);
    }
}

proof fn lemma_list_prefix(fp: Seq<char>, i: int, b: int)
    requires
        0 <= i <= b < LIST_PREFIXES@.len(),
        text::starts(fp, LIST_PREFIXES@[b].0@),
        forall|k: int|
            0 <= k < b && text::starts(fp, (#[trigger] LIST_PREFIXES@[k]).0@)
                ==> LIST_PREFIXES@[k].1@ == LIST_PREFIXES@[b].1@,
    ensures
        list_prefix(fp, i) matches Some(row) && row.0 == LIST_PREFIXES@[b].1@,
    decreases b - i,
{
    if i < b && !text::starts(fp, LIST_PREFIXES@[i].0@) {
        lemma_list_prefix(fp, i + 1, b);
    }
}

proof fn lemma_longer_list(fp: Seq<char>, list: Seq<char>)
    requires
        longer_list(fp, list),
    ensures
        fp.len() > list.len(),
        fp[list.len() as int] == ',',
        forall|j: int| 0 <= j < list.len() ==> #[trigger] fp[j] == list[j],
        text::starts(fp, list),
{
    reveal_strlit(",");
    let all = list + ","@;
    let front = fp.take(all.len() as int);
    assert(front[list.len() as int] == all[list.len() as int]);
    assert forall|j: int| 0 <= j < list.len() implies #[trigger] fp[j] == list[j] by {
        assert(front[j] == all[j]);
    }
    assert(fp.take(list.len() as int) =~= list);
}

proof fn lemma_beginning(fp: Seq<char>, list: Seq<char>)
    requires
        text::starts(fp, list),
    ensures
        forall|j: int| 0 <= j < list.len() ==> fp[j] == #[trigger] list[j],
{
    assert forall|j: int| 0 <= j < list.len() implies fp[j] == #[trigger] list[j] by {
        assert(fp.take(list.len() as int)[j] == list[j]);
    }
}

proof fn lemma_more_options(fp: Seq<char>, i: int)
    requires
        0 <= i < LIST_PREFIXES@.len(),
        i != 3,
        longer_list(fp, LIST_PREFIXES@[i].0@),
    ensures
        exact_list(fp, 0) matches Some(row) ==> row.0 == LIST_PREFIXES@[i].1@,
        list_prefix(fp, 0) matches Some(row) && row.0 == LIST_PREFIXES@[i].1@,
{
    reveal_strlit("1,3,6,15,31,33,43,44,46,47,119,121,249,252");
    reveal_strlit("1,15,3,6,44,46,47,31,33,121,249,43,252");
    reveal_strlit("1,3,6,15,31,33,43,44,46,47,119,121,249");
    reveal_strlit("1,15,3,6,44,46,47,31,33,121,249,43");
    reveal_strlit("1,121,3,6,15,119,252");
    reveal_strlit("1,121,3,6,15,119,252,95");
    reveal_strlit("1,3,6,15,119,252");
    reveal_strlit("1,121,3,6,15,119,252,95,44,46,47");
    reveal_strlit("1,121,3,6,15,119,252,95,44");
    reveal_strlit("1,121,3,6,15,119,252,44,46,47");
    reveal_strlit("1,3,6,15,119,252,44,46,47");
    reveal_strlit("1,121,3,6,15,119,252,95,44,46");
    reveal_strlit("1,3,6,15,119,252,95,44,46,47");
    reveal_strlit("1,3,6,15,26,28,51,58,59,43");
    reveal_strlit("1,3,6,15,26,28,51,58,59");
    reveal_strlit("1,3,6,15,26,28,51,58,59,43,114");
    reveal_strlit("1,28,2,3,15,6,119,12,44,47,26,121,42");
    reveal_strlit("1,3,6,12,15,17,23,28,29,31,33,40,41,42,119");
    reveal_strlit("1,3,6,12,15,17,28,42,119");
    reveal_strlit("1,3,6,15,44,46,47");
    reveal_strlit("1,3,6");
    reveal_strlit("1,3,6,15,31,33,43,44,46,47");
    reveal_strlit("1,15,3,6,44,46,47");
    reveal_strlit("1,121,3,6,15,119");
    reveal_strlit("1,3,6,15,26,28");
    reveal_strlit("1,28,2,3,15,6");
    reveal_strlit("1,3,6,12,15,17");
    let list = LIST_PREFIXES@[i].0@;
    lemma_longer_list(fp, list);
    assert(fp[2] == list[2] && fp[3] == list[3] && fp[7] == list[7] && fp[9] == list[9] && fp[10]
        == list[10]);
    assert(i == 0 || i == 1 || i == 2 || i == 4 || i == 5 || i == 6);
    assert(EXACT_LISTS@.len() == 22 && LIST_PREFIXES@.len() == 7);
    assert forall|k: int|
        0 <= k < EXACT_LISTS@.len() && (#[trigger] EXACT_LISTS@[k]).0@ == fp implies EXACT_LISTS@[k].1@
        == LIST_PREFIXES@[i].1@ by {
        let l = EXACT_LISTS@[k].0@;
        assert(l[2] == fp[2] && l[3] == fp[3] && l[7] == fp[7] && l[9] == fp[9] && l[10] == fp[10]);
        assert(k == 0 || k == 1 || k == 2 || k == 3 || k == 4 || k == 5 || k == 6 || k == 7 || k == 8
            || k == 9 || k == 10 || k == 11 || k == 12 || k == 13 || k == 14 || k == 15 || k == 16
            || k == 17 || k == 18 || k == 19 || k == 20 || k == 21);
    }
    assert forall|k: int|
        0 <= k < i && text::starts(fp, (#[trigger] LIST_PREFIXES@[k]).0@) implies LIST_PREFIXES@[k].1@
        == LIST_PREFIXES@[i].1@ by {
        let l = LIST_PREFIXES@[k].0@;
        lemma_beginning(fp, l);
        assert(l[2] == fp[2] && l[3] == fp[3] && l[7] == fp[7] && l[9] == fp[9]);
    }
    lemma_exact_list(fp, 0, LIST_PREFIXES@[i].1@);
    lemma_list_prefix(fp, 0, i);
}

/// Options behind a list that is known by its beginning never change the tag.
/// The one list that is left out is the beginning of another that has a tag of
/// its own.
pub proof fn law_more_options_keep_tag(i: int, rest: Seq<char>)
    requires
        0 <= i < LIST_PREFIXES@.len(),
        i != 3,
    ensures
        dhcp_class(LIST_PREFIXES@[i].0@ + ","@ + rest) matches Some(row) && row.0
            == LIST_PREFIXES@[i].1@,
{
    let list = LIST_PREFIXES@[i].0@;
    reveal_strlit("1,3,6,15,31,33,43,44,46,47");
    reveal_strlit("1,15,3,6,44,46,47");
    reveal_strlit("1,121,3,6,15,119,252,95");
    reveal_strlit("1,121,3,6,15,119");
    reveal_strlit("1,3,6,15,26,28");
    reveal_strlit("1,28,2,3,15,6");
    reveal_strlit("1,3,6,12,15,17");
    reveal_strlit(",");
    assert(list.len() > 0 && list[0] == '1');
    text::lemma_trimmed_begins(list + ","@, rest);
    lemma_more_options(text::trimmed(list + ","@ + rest), i);
}

// ---------------------------------------------------------------------------
// Messages
// ---------------------------------------------------------------------------

/// The four bytes that begin the options of a DHCP message.
pub open spec fn has_cookie(data: Seq<u8>) -> bool {
    data.len() >= 240 && data[236] == 99 && data[237] == 130 && data[238] == 83 && data[239] == 99
}

fn cookie(data: &[u8]) -> (r: bool)
    ensures
        r == has_cookie(data@),
{
    data.len() >= 240 && data[236] == 99 && data[237] == 130 && data[238] == 83 && data[239] == 99
}

/// What the first option with a code among those from `pos` on holds, if that
/// is anything. Options end with an end mark, or where one leaves the message.
pub open spec fn option_value(data: Seq<u8>, pos: int, code: u8) -> Option<Seq<u8>>
    decreases data.len() - pos,
{
    if pos < 0 || pos >= data.len() || data[pos] == 255 {
        None
    } else if data[pos] == 0 {
        option_value(data, pos + 1, code)
    } else if pos + 1 >= data.len() || pos + 2 + data[pos + 1] > data.len() {
        None
    } else if data[pos] == code && data[pos + 1] > 0 {
        Some(data.subrange(pos + 2, pos + 2 + data[pos + 1]))
    } else {
        option_value(data, pos + 2 + data[pos + 1], code)
    }
}

fn find_option(data: &[u8], code: u8) -> (r: Option<(usize, usize)>)
    requires
        bytes::in_memory(data@),
        has_cookie(data@),
    ensures
        match r {
            Some((a, b)) => a < b <= data@.len() && option_value(data@, 240, code) == Some(
                data@.subrange(a as int, b as int),
            ),
            None => option_value(data@, 240, code) is None,
        },
{
    let mut pos: usize = 240;
    while pos < data.len()
        invariant
            bytes::in_memory(data@),
            option_value(data@, 240, code) == option_value(data@, pos as int, code),
        decreases data@.len() + 512 - pos,
    {
        let here: u8 = data[pos];
        if here == 255 {
            return None;
        }
        if here == 0 {
            pos = pos + 1;
            continue ;
        }
        if pos + 1 >= data.len() {
            return None;
        }
        let len: usize = data[pos + 1] as usize;
        if pos + 2 + len > data.len() {
            return None;
        }
        if here == code && len > 0 {
            return Some((pos + 2, pos + 2 + len));
        }
        pos = pos + 2 + len;
    }
    None
}

/// Bytes in decimal.
pub open spec fn dec_each(b: Seq<u8>) -> Seq<Seq<char>> {
    Seq::new(b.len(), |i: int| text::dec(b[i] as nat))
}

/// The option codes of a parameter request list in decimal, with commas
/// between them.
pub open spec fn list_text(b: Seq<u8>) -> Seq<char> {
    text::join(dec_each(b), ","@)
}

/// The text of the parameter request list of a DHCP message.
pub open spec fn option55(data: Seq<u8>) -> Option<Seq<char>> {
    if !has_cookie(data) {
        None
    } else {
        match option_value(data, 240, 55) {
            Some(b) => Some(list_text(b)),
            None => None,
        }
    }
}

/// The text of the parameter request list that a client sent.
pub open spec fn client_fingerprint(data: Seq<u8>) -> Option<Seq<char>> {
    if data.len() > 0 && data[0] == 1 {
        option55(data)
    } else {
        None
    }
}

/// The text of the parameter request list of a DHCP message.
pub fn parse_option55(data: &[u8]) -> (r: Option<String>)
    requires
        bytes::in_memory(data@),
    ensures
        text::text_view(r) == option55(data@),
{
    if !cookie(data) {
        return None;
    }
    match find_option(data, 55) {
        None => None,
        Some((from, to)) => {
            let ghost raw = data@.subrange(from as int, to as int);
            let mut parts: Vec<String> = Vec::new();
            let len: usize = to - from;
            for i in 0..len
                invariant
                    from < to <= data@.len(),
                    len == to - from,
                    raw == data@.subrange(from as int, to as int),
                    parts@.len() == i,
                    forall|j: int| 0 <= j < i ==> (#[trigger] parts@[j])@ == text::dec(raw[j] as nat),
            {
                parts.push(dec_text(data[from + i] as u64));
            }
            assert(text::texts(parts@) =~= dec_each(raw));
            Some(join_texts(&parts, ","))
        },
    }
}

/// The text of the parameter request list that a client sent.
pub fn parse_dhcp_fingerprint(data: &[u8]) -> (r: Option<String>)
    requires
        bytes::in_memory(data@),
    ensures
        text::text_view(r) == client_fingerprint(data@),
{
    if data.len() < 240 || data[0] != 1 {
        return None;
    }
    parse_option55(data)
}

/// The name that a client gives itself in a message, without white space
/// around it.
pub open spec fn client_name(data: Seq<u8>) -> Option<Seq<char>> {
    if !has_cookie(data) || data[0] != 1 {
        None
    } else {
        match option_value(data, 240, 12) {
            Some(b) => if valid_utf8(b) && text::trimmed(decode_utf8(b)).len() > 0 {
                Some(text::trimmed(decode_utf8(b)))
            } else {
                None
            },
            None => None,
        }
    }
}

/// The address of the client that sent a message from `source`: the address
/// that it has, or the one that it asks for.
pub open spec fn client_address(data: Seq<u8>, source: u32) -> Option<IpAddr> {
    if source != 0 {
        Some(IpAddr::V4(source))
    } else if !has_cookie(data) {
        None
    } else {
        match option_value(data, 240, 50) {
            Some(b) => if b.len() == 4 && bytes::be32(b, 0) != 0 {
                Some(IpAddr::V4(bytes::be32(b, 0)))
            } else {
                None
            },
            None => None,
        }
    }
}

/// The name that a client gives itself in a message.
pub fn parse_dhcp_hostname(data: &[u8]) -> (r: Option<String>)
    requires
        bytes::in_memory(data@),
    ensures
        text::text_view(r) == client_name(data@),
{
    if !cookie(data) || data[0] != 1 {
        return None;
    }
    match find_option(data, 12) {
        None => None,
        Some((from, to)) => match utf8_text(slice_of(data, from, to)) {
            None => None,
            Some(s) => {
                let name = trim(s.as_str());
                if name.as_str().unicode_len() > 0 {
                    Some(name)
                } else {
                    None
                }
            },
        },
    }
}

/// The address of the client that sent a message from `source`.
pub fn find_client(data: &[u8], source: u32) -> (r: Option<IpAddr>)
    requires
        bytes::in_memory(data@),
    ensures
        r == client_address(data@, source),
{
    if source != 0 {
        return Some(IpAddr::V4(source));
    }
    if !cookie(data) {
        return None;
    }
    match find_option(data, 50) {
        Some((from, to)) if to - from == 4 => {
            let a: u32 = read32(slice_of(data, from, to), 0);
            if a != 0 {
                Some(IpAddr::V4(a))
            } else {
                None
            }
        },
        _ => None,
    }
}

// ---------------------------------------------------------------------------
// Probing
// ---------------------------------------------------------------------------

/// The transaction number of the first probe of a batch.
pub const FIRST_XID: u32 = 0xD0C0_0000;

/// The most hosts that one batch can probe.
pub const MAX_BATCH: u32 = 0x2F40_0000;

/// The options that a probe asks for.
pub open spec fn probe_list() -> Seq<u8> {
    seq![1u8, 3, 6, 15, 31, 33, 43, 44, 46, 47, 119, 121, 249, 252]
}

/// A DHCP inform message that makes a host tell its parameter request list.
pub open spec fn inform(target: u32, mac: Seq<u8>, xid: u32) -> Seq<u8> {
    seq![1u8, 1, 6, 0] + bytes::bytes32(xid) + bytes::zeros(4) + bytes::bytes32(target) + bytes::zeros(12) + mac + bytes::zeros(202)
        + seq![99u8, 130, 83, 99] + seq![53u8, 1, 8] + seq![55u8, 14] + probe_list() + seq![255u8]
}

/// A DHCP inform message that makes a host tell its parameter request list.
pub fn build_dhcp_inform(target_ip: u32, source_mac: [u8; 6], xid: u32) -> (r: Vec<u8>)
    ensures
        r@ == inform(target_ip, source_mac@, xid),
{
    let mut r: Vec<u8> = Vec::new();
    push_bytes(&mut r, &[1, 1, 6, 0]);
    assert(r@ =~= seq![1u8, 1, 6, 0]);
    push32(&mut r, xid);
    push_zeros(&mut r, 4);
    push32(&mut r, target_ip);
    push_zeros(&mut r, 12);
    push_bytes(&mut r, &source_mac);
    push_zeros(&mut r, 202);
    assert([99u8, 130, 83, 99]@ =~= seq![99u8, 130, 83, 99]);
    push_bytes(&mut r, &[99, 130, 83, 99]);
    assert([53u8, 1, 8]@ =~= seq![53u8, 1, 8]);
    push_bytes(&mut r, &[53, 1, 8]);
    assert([55u8, 14]@ =~= seq![55u8, 14]);
    push_bytes(&mut r, &[55, 14]);
    assert([1u8, 3, 6, 15, 31, 33, 43, 44, 46, 47, 119, 121, 249, 252]@ =~= probe_list());
    push_bytes(&mut r, &[1, 3, 6, 15, 31, 33, 43, 44, 46, 47, 119, 121, 249, 252]);
    assert([255u8]@ =~= seq![255u8]);
    push_bytes(&mut r, &[255]);
    r
}

/// What a probe asks for is what a reader of the message finds in it.
pub proof fn law_inform_fingerprint(target: u32, mac: Seq<u8>, xid: u32)
    requires
        mac.len() == 6,
    ensures
        client_fingerprint(inform(target, mac, xid)) == Some(list_text(probe_list())),
        bytes::be32(inform(target, mac, xid), 4) == xid,
{
    let m = inform(target, mac, xid);
    assert(m.len() == 260);
    assert(m[0] == 1);
    assert(has_cookie(m));
    assert(m[240] == 53 && m[241] == 1);
    assert(m[243] == 55 && m[244] == 14);
    assert(m.subrange(245, 259) =~= probe_list());
    assert(option_value(m, 240, 55) == option_value(m, 243, 55));
    assert(option_value(m, 243, 55) == Some(probe_list()));
}

/// The fingerprint that a reply to one of `n` probes gives: a server message
/// with a transaction number of the batch and a parameter request list.
pub open spec fn probe_reply(data: Seq<u8>, n: nat) -> Option<Seq<char>> {
    if !has_cookie(data) || data[0] != 2 || bytes::be32(data, 4) < FIRST_XID || bytes::be32(data, 4) >= FIRST_XID
        + n {
        None
    } else {
        option55(data)
    }
}

/// The fingerprint that a reply to one of `n` probes gives.
pub fn accept_probe_reply(data: &[u8], n: u32) -> (r: Option<String>)
    requires
        bytes::in_memory(data@),
        n < MAX_BATCH,
    ensures
        text::text_view(r) == probe_reply(data@, n as nat),
{
    if !cookie(data) || data[0] != 2 {
        return None;
    }
    let xid: u32 = read32(data, 4);
    if xid < FIRST_XID || xid >= FIRST_XID + n {
        return None;
    }
    parse_option55(data)
}

/// The transaction number of the probe at a position of a batch.
pub fn probe_xid(i: u32) -> (r: u32)
    requires
        i < MAX_BATCH,
    ensures
        r == FIRST_XID + i,
{
    FIRST_XID + i
}

// ---------------------------------------------------------------------------
// What is read of a message
// ---------------------------------------------------------------------------

/// Options one behind the other: of each its code, its length and its value.
pub open spec fn options_bytes(options: Seq<(u8, Seq<u8>)>) -> Seq<u8>
    decreases options.len(),
{
    if options.len() == 0 {
        Seq::empty()
    } else {
        let (code, value) = options[0];
        seq![code, value.len() as u8] + value + options_bytes(options.skip(1))
    }
}

proof fn lemma_option_found(
    before: Seq<u8>,
    options: Seq<(u8, Seq<u8>)>,
    after: Seq<u8>,
    k: int,
)
    requires
        0 <= k < options.len(),
        forall|i: int|
            0 <= i <= k ==> 0 < (#[trigger] options[i]).0 < 255 && options[i].1.len() < 256,
        forall|i: int| 0 <= i < k ==> (#[trigger] options[i]).0 != options[k].0,
        options[k].1.len() > 0,
    ensures
        option_value(
            before + options_bytes(options) + after,
            before.len() as int,
            options[k].0,
        ) == Some(options[k].1),
    decreases options.len(),
{
    let data = before + options_bytes(options) + after;
    let pos = before.len() as int;
    let (code, value) = options[0];
    let rest = options.skip(1);
    let head = seq![code, value.len() as u8] + value;
    assert(options_bytes(options) =~= head + options_bytes(rest));
    assert(data =~= (before + head) + options_bytes(rest) + after);
    assert(data[pos] == code);
    assert(data[pos + 1] == value.len());
    assert(data.subrange(pos + 2, pos + 2 + value.len()) =~= value);
    if k > 0 {
        assert forall|i: int| 0 <= i <= k - 1 implies 0 < (#[trigger] rest[i]).0 < 255
            && rest[i].1.len() < 256 by {
            assert(rest[i] == options[i + 1]);
        }
        assert forall|i: int| 0 <= i < k - 1 implies (#[trigger] rest[i]).0 != rest[k - 1].0 by {
            assert(rest[i] == options[i + 1]);
            assert(rest[k - 1] == options[k]);
        }
        assert(rest[k - 1] == options[k]);
        lemma_option_found(before + head, rest, after, k - 1);
    }
}

/// A request of a client tells the options that it asks for, in decimal, in
/// their order and with commas between them: the value of the first option 55
/// behind the fixed part.
pub proof fn law_request_tells_options(
    fixed: Seq<u8>,
    options: Seq<(u8, Seq<u8>)>,
    after: Seq<u8>,
    k: int,
)
    requires
        fixed.len() == 236,
        fixed[0] == 1,
        0 <= k < options.len(),
        options[k].0 == 55,
        options[k].1.len() > 0,
        forall|i: int|
            0 <= i <= k ==> 0 < (#[trigger] options[i]).0 < 255 && options[i].1.len() < 256,
        forall|i: int| 0 <= i < k ==> (#[trigger] options[i]).0 != 55,
    ensures
        client_fingerprint(
            fixed + seq![99u8, 130, 83, 99] + options_bytes(options) + after,
        ) == Some(
            text::join(
                Seq::new(options[k].1.len(), |i: int| text::dec(options[k].1[i] as nat)),
                ","@,
            ),
        ),
{
    let before = fixed + seq![99u8, 130, 83, 99];
    let data = before + options_bytes(options) + after;
    assert(data[0] == 1 && data[236] == 99 && data[237] == 130 && data[238] == 83 && data[239] == 99);
    lemma_option_found(before, options, after, k);
    let value = options[k].1;
    assert(dec_each(value) =~= Seq::new(value.len(), |i: int| text::dec(value[i] as nat)));
}

/// A request of a client tells its name, without white space around it: the
/// value of the first option 12.
pub proof fn law_request_tells_name(
    fixed: Seq<u8>,
    options: Seq<(u8, Seq<u8>)>,
    after: Seq<u8>,
    k: int,
    name: Seq<char>,
)
    requires
        fixed.len() == 236,
        fixed[0] == 1,
        0 <= k < options.len(),
        options[k].0 == 12,
        options[k].1 == encode_utf8(name),
        name.len() > 0,
        !text::is_white(name[0]),
        !text::is_white(name.last()),
        forall|i: int|
            0 <= i <= k ==> 0 < (#[trigger] options[i]).0 < 255 && options[i].1.len() < 256,
        forall|i: int| 0 <= i < k ==> (#[trigger] options[i]).0 != 12,
    ensures
        client_name(
            fixed + seq![99u8, 130, 83, 99] + options_bytes(options) + after,
        ) == Some(name),
{
    let before = fixed + seq![99u8, 130, 83, 99];
    let data = before + options_bytes(options) + after;
    assert(data[0] == 1 && data[236] == 99 && data[237] == 130 && data[238] == 83 && data[239] == 99);
    text::lemma_byte_len(name);
    lemma_option_found(before, options, after, k);
    encode_utf8_valid_utf8(name);
    encode_utf8_decode_utf8(name);
    let none = Seq::<char>::empty();
    assert(none + name + none =~= name);
    text::law_trimmed(none, name, none);
}

/// A client is known by the address that it sends from, and without one by the
/// address that it asks for in option 50.
pub proof fn law_client_known_by_address(
    fixed: Seq<u8>,
    options: Seq<(u8, Seq<u8>)>,
    after: Seq<u8>,
    k: int,
    source: u32,
    a: u8,
    b: u8,
    c: u8,
    d: u8,
)
    requires
        fixed.len() == 236,
        0 <= k < options.len(),
        options[k].0 == 50,
        options[k].1 == seq![a, b, c, d],
        forall|i: int|
            0 <= i <= k ==> 0 < (#[trigger] options[i]).0 < 255 && options[i].1.len() < 256,
        forall|i: int| 0 <= i < k ==> (#[trigger] options[i]).0 != 50,
        a > 0,
    ensures
        ({
            let data = fixed + seq![99u8, 130, 83, 99] + options_bytes(options) + after;
            &&& source != 0 ==> client_address(data, source) == Some(IpAddr::V4(source))
            &&& source == 0 ==> client_address(data, source) == Some(
                IpAddr::V4((a * 0x0100_0000 + b * 0x0001_0000 + c * 0x0100 + d) as u32),
            )
        }),
{
    let before = fixed + seq![99u8, 130, 83, 99];
    let data = before + options_bytes(options) + after;
    assert(data[236] == 99 && data[237] == 130 && data[238] == 83 && data[239] == 99);
    lemma_option_found(before, options, after, k);
}

/// Only a request tells the options of a client, and only behind the marks of
/// the protocol.
pub proof fn law_only_requests_tell(data: Seq<u8>)
    requires
        data.len() < 240 || data[0] != 1 || data[236] != 99 || data[237] != 130 || data[238] != 83
            || data[239] != 99,
    ensures
        client_fingerprint(data) is None,
        client_name(data) is None,
{
}

/// The families of systems that the lists of options stand for.
pub proof fn law_lists_by_family(i: int)
    ensures
        0 <= i < 4 ==> EXACT_LISTS@[i].1@ == "[Win]"@,
        4 <= i < 7 ==> EXACT_LISTS@[i].1@ == "[Mac]"@,
        7 <= i < 14 ==> EXACT_LISTS@[i].1@ == "[iOS]"@,
        14 <= i < 17 ==> EXACT_LISTS@[i].1@ == "[And]"@,
        17 <= i < 20 ==> EXACT_LISTS@[i].1@ == "[Lin]"@,
        20 <= i < 22 ==> EXACT_LISTS@[i].1@ == "[Net]"@,
        0 <= i < 2 ==> LIST_PREFIXES@[i].1@ == "[Win]"@,
        i == 2 ==> LIST_PREFIXES@[i].1@ == "[iOS]"@,
        i == 3 ==> LIST_PREFIXES@[i].1@ == "[Mac]"@,
        i == 4 ==> LIST_PREFIXES@[i].1@ == "[And]"@,
        5 <= i < 7 ==> LIST_PREFIXES@[i].1@ == "[Lin]"@,
{
    let t = EXACT_LISTS@;
    assert(t[0].1@ == "[Win]"@ && t[1].1@ == "[Win]"@ && t[2].1@ == "[Win]"@ && t[3].1@ == "[Win]"@);
    assert(t[4].1@ == "[Mac]"@ && t[5].1@ == "[Mac]"@ && t[6].1@ == "[Mac]"@);
    assert(t[7].1@ == "[iOS]"@ && t[8].1@ == "[iOS]"@ && t[9].1@ == "[iOS]"@ && t[10].1@ == "[iOS]"@
        && t[11].1@ == "[iOS]"@ && t[12].1@ == "[iOS]"@ && t[13].1@ == "[iOS]"@);
    assert(t[14].1@ == "[And]"@ && t[15].1@ == "[And]"@ && t[16].1@ == "[And]"@);
    assert(t[17].1@ == "[Lin]"@ && t[18].1@ == "[Lin]"@ && t[19].1@ == "[Lin]"@);
    assert(t[20].1@ == "[Net]"@ && t[21].1@ == "[Net]"@);
    let u = LIST_PREFIXES@;
    assert(u[0].1@ == "[Win]"@ && u[1].1@ == "[Win]"@ && u[2].1@ == "[iOS]"@ && u[3].1@ == "[Mac]"@
        && u[4].1@ == "[And]"@ && u[5].1@ == "[Lin]"@ && u[6].1@ == "[Lin]"@);
}

/// A list of options begins with one of those that a family of systems asks
/// for: the family is told by it, where no exact list is known. The first two
/// lists of a kind are those of Windows.
pub proof fn law_windows_list(rest: Seq<char>)
    requires
        exact_list(
            text::trimmed("1,3,6,15,31,33,43,44,46,47"@ + rest),
            0,
        ) is None,
        rest.len() > 0 && !text::is_white(rest.last()),
    ensures
        dhcp_class("1,3,6,15,31,33,43,44,46,47"@ + rest) == Some(("[Win]"@, "Windows"@)),
{
    reveal_strlit("1,3,6,15,31,33,43,44,46,47");
    let list = "1,3,6,15,31,33,43,44,46,47"@;
    let fp = list + rest;
    let none = Seq::<char>::empty();
    assert(none + fp + none =~= fp);
    text::law_trimmed(none, fp, none);
    assert(LIST_PREFIXES@[0].0@ == list);
    assert(fp.subrange(0, list.len() as int) =~= list);
    assert(text::starts(fp, list));
}

/// An answer to a probe is one with the number of one of the probes that were
/// sent.
pub proof fn law_probes_answered(data: Seq<u8>, n: nat)
    requires
        data.len() >= 240,
    ensures
        ({
            let number = data[4] * 0x0100_0000 + data[5] * 0x0001_0000 + data[6] * 0x0100 + data[7];
            let marked = data[236] == 99 && data[237] == 130 && data[238] == 83 && data[239] == 99;
            let sent = 0xD0C0_0000 <= number < 0xD0C0_0000 + n;
            &&& marked && data[0] == 2 && sent ==> probe_reply(data, n) == option55(data)
            &&& !marked || data[0] != 2 || !sent ==> probe_reply(data, n) is None
        }),
{
}

} // verus!
