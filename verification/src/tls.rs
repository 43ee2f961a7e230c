//! TLS client hellos: the server name and a fingerprint of the client.

use vstd::multiset::*;
use vstd::prelude::*;
use vstd::relations::*;
use vstd::seq_lib::*;
use vstd::string::*;
use vstd::utf8::*;

use crate::bytes;
use crate::bytes::{read16, slice_of};
use crate::text;
use crate::text::{dec_text, hex_text, lower_case, utf8_text, zero_padded};

verus! {

// ---------------------------------------------------------------------------
// Fingerprint hash
// ---------------------------------------------------------------------------

/// One step of the 64-bit FNV-1a hash.
pub open spec fn fnv_step(h: u64, b: u8) -> u64 {
    (h ^ (b as u64)).wrapping_mul(0x100000001b3)
}

/// The FNV-1a hash of numbers, high byte first.
pub open spec fn fnv(values: Seq<u16>) -> u64
    decreases values.len(),
{
    if values.len() == 0 {
        0xcbf29ce484222325
    } else {
        let v = values.last();
        fnv_step(fnv_step(fnv(values.drop_last()), (v / 256) as u8), (v % 256) as u8)
    }
}

/// The low forty-eight bits of the hash as twelve hexadecimal digits.
pub open spec fn fnv_text(values: Seq<u16>) -> Seq<char> {
    text::zero_pad(text::hex((fnv(values) % 0x1_0000_0000_0000) as nat), 12)
}

/// The low forty-eight bits of the FNV-1a hash of numbers as twelve
/// hexadecimal digits.
pub fn fnv1a_hash_u16(values: &[u16]) -> (r: String)
    ensures
        r@ == fnv_text(values@),
{
    let mut hash: u64 = 0xcbf29ce484222325;
    let n: usize = values.len();
    for i in 0..n
        invariant
            n == values@.len(),
            hash == fnv(values@.take(i as int)),
    {
        let v: u16 = values[i];
        assert(values@.take(i + 1).drop_last() =~= values@.take(i as int));
        hash = (hash ^ ((v / 256) as u8 as u64)).wrapping_mul(0x100000001b3);
        hash = (hash ^ ((v % 256) as u8 as u64)).wrapping_mul(0x100000001b3);
    }
    assert(values@.take(n as int) =~= values@);
    zero_padded(hex_text(hash % 0x1_0000_0000_0000).as_str(), 12)
}

// ---------------------------------------------------------------------------
// Sorting
// ---------------------------------------------------------------------------

/// Numbers in ascending order.
pub open spec fn ascending(s: Seq<u16>) -> Seq<u16> {
    s.sort_by(|a: u16, b: u16| a <= b)
}

/// Numbers in ascending order.
pub fn sorted(v: &Vec<u16>) -> (r: Vec<u16>)
    ensures
        r@ == ascending(v@),
{
    let ghost leq = |a: u16, b: u16| a <= b;
    let mut r: Vec<u16> = Vec::new();
    let n: usize = v.len();
    proof {
        assert(v@.take(0) =~= r@);
    }
    for i in 0..n
        invariant
            n == v@.len(),
            r@.len() == i,
            forall|a: int, b: int| 0 <= a < b < r@.len() ==> r@[a] <= r@[b],
            r@.to_multiset() == v@.take(i as int).to_multiset(),
    {
        let x: u16 = v[i];
        let mut k: usize = 0;
        while k < r.len() && r[k] <= x
            invariant
                k <= r@.len(),
                forall|a: int| 0 <= a < k ==> r@[a] <= x,
            decreases r@.len() - k,
        {
            k = k + 1;
        }
        proof {
            broadcast use group_to_multiset_ensures;

            to_multiset_insert(r@, k as int, x);
            assert(v@.take(i + 1) =~= v@.take(i as int).push(x));
        }
        r.insert(k, x);
    }
    proof {
        assert(v@.take(n as int) =~= v@);
        assert(sorted_by(r@, leq));
        assert(total_ordering(leq));
        v@.lemma_sort_by_ensures(leq);
        lemma_sorted_unique(r@, v@.sort_by(leq), leq);
    }
    r
}

// ---------------------------------------------------------------------------
// The layout of a client hello
// ---------------------------------------------------------------------------

/// The handshake message of a record with a client hello in it.
pub open spec fn handshake(data: Seq<u8>) -> Option<Seq<u8>> {
    if data.len() < 43 || data[0] != 0x16 || data.len() < 5 + bytes::be16(data, 3) {
        None
    } else {
        let hs = data.subrange(5, 5 + bytes::be16(data, 3));
        if hs.len() == 0 || hs[0] != 1 {
            None
        } else {
            Some(hs)
        }
    }
}

/// The body of a client hello.
pub open spec fn hello_body(data: Seq<u8>) -> Option<Seq<u8>> {
    match handshake(data) {
        None => None,
        Some(hs) => {
            let n = hs[1] * 65536 + hs[2] * 256 + hs[3];
            if hs.len() < 4 + n || n < 34 {
                None
            } else {
                Some(hs.subrange(4, 4 + n))
            }
        },
    }
}

/// Where the cipher suites of a client hello begin and end, and where its
/// extensions begin and end.
pub open spec fn hello_layout(ch: Seq<u8>) -> Option<(int, int, int, int)> {
    let sid = if ch.len() > 34 { 35 + ch[34] } else { ch.len() as int };
    if sid + 2 > ch.len() {
        None
    } else {
        let suites_end = sid + 2 + bytes::be16(ch, sid);
        if suites_end >= ch.len() {
            None
        } else {
            let compressed = suites_end + 1 + ch[suites_end];
            if compressed + 2 > ch.len() {
                None
            } else {
                let end = compressed + 2 + bytes::be16(ch, compressed);
                if end > ch.len() {
                    None
                } else {
                    Some((sid + 2, suites_end, compressed + 2, end))
                }
            }
        }
    }
}

/// Values that clients send only to keep servers tolerant.
pub open spec fn grease(v: u16) -> bool {
    v & 0x0f0f == 0x0a0a
}

/// The cipher suites in a range, without tolerance values.
pub open spec fn suites(ch: Seq<u8>, pos: int, end: int) -> Seq<u16>
    decreases end - pos,
{
    if pos + 2 > end {
        Seq::empty()
    } else {
        let here = if grease(bytes::be16(ch, pos)) {
            Seq::empty()
        } else {
            seq![bytes::be16(ch, pos)]
        };
        here + suites(ch, pos + 2, end)
    }
}

/// There is a whole extension at `pos`.
pub open spec fn extension_at(ch: Seq<u8>, pos: int, end: int) -> bool {
    pos + 4 <= end && pos + 4 + bytes::be16(ch, pos + 2) <= end
}

/// The position behind the extension at `pos`.
pub open spec fn extension_next(ch: Seq<u8>, pos: int) -> int {
    pos + 4 + bytes::be16(ch, pos + 2)
}

/// The types of the extensions in a range, without tolerance values.
pub open spec fn kinds(ch: Seq<u8>, pos: int, end: int) -> Seq<u16>
    decreases end - pos,
{
    if !extension_at(ch, pos, end) {
        Seq::empty()
    } else {
        let here = if grease(bytes::be16(ch, pos)) {
            Seq::empty()
        } else {
            seq![bytes::be16(ch, pos)]
        };
        here + kinds(ch, extension_next(ch, pos), end)
    }
}

/// The extension at `pos` names a server, and the name ends before `end`.
pub open spec fn names_server(ch: Seq<u8>, pos: int, end: int) -> bool {
    &&& bytes::be16(ch, pos) == 0
    &&& bytes::be16(ch, pos + 2) >= 5
    &&& ch[pos + 6] == 0
    &&& pos + 9 + bytes::be16(ch, pos + 7) <= end
}

/// The server name of the extension at `pos`, in lower case.
pub open spec fn server_name(ch: Seq<u8>, pos: int) -> Option<Seq<char>> {
    let raw = ch.subrange(pos + 9, pos + 9 + bytes::be16(ch, pos + 7));
    if valid_utf8(raw) {
        Some(text::lowered(decode_utf8(raw)))
    } else {
        None
    }
}

/// The server name that the last extension that names one gives; `found` where
/// none does.
pub open spec fn last_server(ch: Seq<u8>, pos: int, end: int, found: Option<Seq<char>>) -> Option<
    Seq<char>,
>
    decreases end - pos,
{
    if !extension_at(ch, pos, end) {
        found
    } else if names_server(ch, pos, end) {
        last_server(ch, extension_next(ch, pos), end, server_name(ch, pos))
    } else {
        last_server(ch, extension_next(ch, pos), end, found)
    }
}

/// The extension at `pos` lists supported versions.
pub open spec fn lists_versions(ch: Seq<u8>, pos: int) -> bool {
    bytes::be16(ch, pos) == 0x002b && bytes::be16(ch, pos + 2) >= 3
}

/// The version list of the extension at `pos` ends inside the hello.
pub open spec fn versions_whole(ch: Seq<u8>, pos: int) -> bool {
    pos + 5 + 2 * (ch[pos + 4] / 2) <= ch.len()
}

/// The version list of the extension at `pos` has TLS 1.3 in it.
pub open spec fn has_tls13(ch: Seq<u8>, pos: int) -> bool {
    exists|j: int|
        0 <= j < ch[pos + 4] / 2 && #[trigger] bytes::be16(ch, pos + 5 + 2 * j) == 0x0304
}

/// Some extension in a range offers TLS 1.3.
pub open spec fn offers_tls13(ch: Seq<u8>, pos: int, end: int) -> bool
    decreases end - pos,
{
    extension_at(ch, pos, end) && (lists_versions(ch, pos) && has_tls13(ch, pos) || offers_tls13(
        ch,
        extension_next(ch, pos),
        end,
    ))
}

/// Every version list in a range ends inside the hello.
pub open spec fn version_lists_whole(ch: Seq<u8>, pos: int, end: int) -> bool
    decreases end - pos,
{
    extension_at(ch, pos, end) ==> (lists_versions(ch, pos) ==> versions_whole(ch, pos))
        && version_lists_whole(ch, extension_next(ch, pos), end)
}

/// A record can be read: a client hello in it is not cut off inside its header
/// or inside a version list.
pub open spec fn hello_readable(data: Seq<u8>) -> bool {
    match handshake(data) {
        None => true,
        Some(hs) => hs.len() >= 4 && match hello_body(data) {
            None => true,
            Some(ch) => match hello_layout(ch) {
                None => true,
                Some((_, _, from, end)) => version_lists_whole(ch, from, end),
            },
        },
    }
}

/// The two digits of the highest version that a client offers.
pub open spec fn version_digits(ch: Seq<u8>, from: int, end: int) -> Seq<char> {
    if offers_tls13(ch, from, end) {
        "13"@
    } else if bytes::be16(ch, 0) == 0x0303 {
        "12"@
    } else if bytes::be16(ch, 0) == 0x0302 {
        "11"@
    } else if bytes::be16(ch, 0) == 0x0301 {
        "10"@
    } else {
        "00"@
    }
}

/// A count of at most ninety-nine, in two digits.
pub open spec fn two_digits(n: nat) -> Seq<char> {
    text::zero_pad(text::dec(if n < 99 { n } else { 99 }), 2)
}

/// The fingerprint of a client: version, number of cipher suites, number of
/// extensions, and the hashes of both in ascending order.
pub open spec fn fingerprint(version: Seq<char>, ciphers: Seq<u16>, extensions: Seq<u16>) -> Seq<
    char,
> {
    "t"@ + version + "d"@ + two_digits(ciphers.len()) + two_digits(extensions.len()) + "_"@
        + fnv_text(ascending(ciphers)) + "_"@ + fnv_text(ascending(extensions))
}

/// The server name and the fingerprint of a client hello.
pub open spec fn client_hello(data: Seq<u8>) -> (Option<Seq<char>>, Option<Seq<char>>) {
    match hello_body(data) {
        None => (None, None),
        Some(ch) => match hello_layout(ch) {
            None => (None, None),
            Some((c0, c1, from, end)) => (
                last_server(ch, from, end, None),
                Some(
                    fingerprint(version_digits(ch, from, end), suites(ch, c0, c1), kinds(
                        ch,
                        from,
                        end,
                    )),
                ),
            ),
        },
    }
}

// ---------------------------------------------------------------------------
// Reading a client hello
// ---------------------------------------------------------------------------

fn is_grease(v: u16) -> (r: bool)
    ensures
        r == grease(v),
{
    v & 0x0f0f == 0x0a0a
}

fn read_suites(ch: &[u8], from: usize, end: usize) -> (r: Vec<u16>)
    requires
        from <= end <= ch@.len(),
        bytes::in_memory(ch@),
    ensures
        r@ == suites(ch@, from as int, end as int),
{
    let mut r: Vec<u16> = Vec::new();
    let mut pos: usize = from;
    assert(r@ + suites(ch@, from as int, end as int) =~= suites(ch@, from as int, end as int));
    while pos + 2 <= end
        invariant
            pos <= end <= ch@.len(),
            bytes::in_memory(ch@),
            r@ + suites(ch@, pos as int, end as int) == suites(ch@, from as int, end as int),
        decreases end - pos,
    {
        let suite: u16 = read16(ch, pos);
        let ghost before = r@;
        let ghost rest = suites(ch@, pos + 2, end as int);
        if !is_grease(suite) {
            r.push(suite);
            assert(before + (seq![suite] + rest) =~= r@ + rest);
        } else {
            assert(before + (Seq::<u16>::empty() + rest) =~= r@ + rest);
        }
        pos = pos + 2;
    }
    assert(r@ + Seq::<u16>::empty() =~= r@);
    r
}

fn versions_have_tls13(ch: &[u8], pos: usize) -> (r: bool)
    requires
        pos + 5 <= ch@.len(),
        bytes::in_memory(ch@),
        versions_whole(ch@, pos as int),
    ensures
        r == has_tls13(ch@, pos as int),
{
    let n: usize = (ch[pos + 4] / 2) as usize;
    for j in 0..n
        invariant
            n == ch@[pos + 4] / 2,
            bytes::in_memory(ch@),
            pos + 5 + 2 * n <= ch@.len(),
            forall|i: int| 0 <= i < j ==> #[trigger] bytes::be16(ch@, pos + 5 + 2 * i) != 0x0304,
    {
        if read16(ch, pos + 5 + 2 * j) == 0x0304 {
            assert(bytes::be16(ch@, pos + 5 + 2 * (j as int)) == 0x0304);
            return true;
        }
    }
    false
}

/// What a client hello says, or nothing where the hello is cut off.
fn read_hello(ch: &[u8]) -> (r: Option<(Option<String>, Option<String>)>)
    requires
        bytes::in_memory(ch@),
        ch@.len() >= 34,
    ensures
        match hello_layout(ch@) {
            None => r == Some((None::<String>, None::<String>)),
            Some((c0, c1, from, end)) => match r {
                None => !version_lists_whole(ch@, from, end),
                Some((sni, ja4)) => version_lists_whole(ch@, from, end) && text::text_view(sni)
                    == last_server(ch@, from, end, None) && text::text_view(ja4) == Some(
                    fingerprint(
                        version_digits(ch@, from, end),
                        suites(ch@, c0, c1),
                        kinds(ch@, from, end),
                    ),
                ),
            },
        },
{
    if ch.len() <= 34 {
        return Some((None, None));
    }
    let sid: usize = 35 + ch[34] as usize;
    if sid + 2 > ch.len() {
        return Some((None, None));
    }
    let suites_end: usize = sid + 2 + read16(ch, sid) as usize;
    if suites_end >= ch.len() {
        return Some((None, None));
    }
    let compressed: usize = suites_end + 1 + ch[suites_end] as usize;
    if compressed + 2 > ch.len() {
        return Some((None, None));
    }
    let from: usize = compressed + 2;
    let end: usize = from + read16(ch, compressed) as usize;
    if end > ch.len() {
        return Some((None, None));
    }
    let ciphers = read_suites(ch, sid + 2, suites_end);
    let mut extensions: Vec<u16> = Vec::new();
    let mut sni: Option<String> = None;
    let mut tls13 = false;
    let mut pos: usize = from;
    assert(extensions@ + kinds(ch@, from as int, end as int) =~= kinds(
        ch@,
        from as int,
        end as int,
    ));
    while pos + 4 <= end
        invariant_except_break
            bytes::in_memory(ch@),
            from <= pos <= end <= ch@.len(),
            extensions@ + kinds(ch@, pos as int, end as int) == kinds(
                ch@,
                from as int,
                end as int,
            ),
            last_server(ch@, pos as int, end as int, text::text_view(sni)) == last_server(
                ch@,
                from as int,
                end as int,
                None,
            ),
            (tls13 || offers_tls13(ch@, pos as int, end as int)) == offers_tls13(
                ch@,
                from as int,
                end as int,
            ),
            version_lists_whole(ch@, pos as int, end as int) == version_lists_whole(
                ch@,
                from as int,
                end as int,
            ),
            hello_layout(ch@) == Some((sid + 2, suites_end as int, from as int, end as int)),
        ensures
            extensions@ == kinds(ch@, from as int, end as int),
            text::text_view(sni) == last_server(ch@, from as int, end as int, None),
            tls13 == offers_tls13(ch@, from as int, end as int),
            version_lists_whole(ch@, from as int, end as int),
        decreases end - pos,
    {
        let kind: u16 = read16(ch, pos);
        let len: usize = read16(ch, pos + 2) as usize;
        if pos + 4 + len > end {
            assert(extensions@ + Seq::<u16>::empty() =~= extensions@);
            break ;
        }
        let ghost before = extensions@;
        let ghost rest = kinds(ch@, pos + 4 + len, end as int);
        if !is_grease(kind) {
            extensions.push(kind);
            assert(before + (seq![kind] + rest) =~= extensions@ + rest);
        } else {
            assert(before + (Seq::<u16>::empty() + rest) =~= extensions@ + rest);
        }
        if kind == 0 && len >= 5 && ch[pos + 6] == 0 {
            let name_len: usize = read16(ch, pos + 7) as usize;
            if pos + 9 + name_len <= end {
                sni = match utf8_text(slice_of(ch, pos + 9, pos + 9 + name_len)) {
                    Some(s) => Some(lower_case(s.as_str())),
                    None => None,
                };
            }
        }
        if kind == 0x002b && len >= 3 {
            let n: usize = (ch[pos + 4] / 2) as usize;
            if pos + 5 + 2 * n > ch.len() {
                return None;
            }
            if versions_have_tls13(ch, pos) {
                tls13 = true;
            }
        }
        pos = pos + 4 + len;
        proof {
            if pos + 4 > end {
                assert(extensions@ + Seq::<u16>::empty() =~= extensions@);
            }
        }
    }
    let version: u16 = read16(ch, 0);
    let digits = if tls13 {
        "13"
    } else if version == 0x0303 {
        "12"
    } else if version == 0x0302 {
        "11"
    } else if version == 0x0301 {
        "10"
    } else {
        "00"
    };
    let n_ciphers: usize = ciphers.len();
    let n_extensions: usize = extensions.len();
    let mut ja4 = "t".to_owned();
    ja4.append(digits);
    ja4.append("d");
    ja4.append(count_digits(n_ciphers).as_str());
    ja4.append(count_digits(n_extensions).as_str());
    ja4.append("_");
    ja4.append(fnv1a_hash_u16(sorted(&ciphers).as_slice()).as_str());
    ja4.append("_");
    ja4.append(fnv1a_hash_u16(sorted(&extensions).as_slice()).as_str());
    Some((sni, Some(ja4)))
}

fn count_digits(n: usize) -> (r: String)
    ensures
        r@ == two_digits(n as nat),
{
    let m: u64 = if n < 99 { n as u64 } else { 99 };
    zero_padded(dec_text(m).as_str(), 2)
}

/// The server name and the fingerprint of a client hello, or nothing where the
/// record cannot be read.
pub fn try_tls_client_hello(data: &[u8]) -> (r: Option<(Option<String>, Option<String>)>)
    requires
        bytes::in_memory(data@),
    ensures
        match r {
            None => !hello_readable(data@),
            Some((sni, ja4)) => hello_readable(data@) && (text::text_view(sni), text::text_view(ja4))
                == client_hello(data@),
        },
{
    if data.len() < 43 || data[0] != 0x16 {
        return Some((None, None));
    }
    let record_len: usize = read16(data, 3) as usize;
    if data.len() < 5 + record_len {
        return Some((None, None));
    }
    let hs = slice_of(data, 5, 5 + record_len);
    if hs.len() == 0 || hs[0] != 1 {
        return Some((None, None));
    }
    if hs.len() < 4 {
        return None;
    }
    let n: usize = (hs[1] as usize) * 65536 + (hs[2] as usize) * 256 + hs[3] as usize;
    if hs.len() < 4 + n || n < 34 {
        return Some((None, None));
    }
    let ch = slice_of(hs, 4, 4 + n);
    read_hello(ch)
}

/// The server name and the fingerprint of a client hello.
pub fn parse_tls_client_hello(data: &[u8]) -> (r: (Option<String>, Option<String>))
    requires
        bytes::in_memory(data@),
        hello_readable(data@),
    ensures
        (text::text_view(r.0), text::text_view(r.1)) == client_hello(data@),
{
    match try_tls_client_hello(data) {
        Some(r) => r,
        None => (None, None),
    }
}

// ---------------------------------------------------------------------------
// What a fingerprint depends on
// ---------------------------------------------------------------------------

/// All cipher suites in a range.
pub open spec fn all_suites(ch: Seq<u8>, pos: int, end: int) -> Seq<u16>
    decreases end - pos,
{
    if pos + 2 > end {
        Seq::empty()
    } else {
        seq![bytes::be16(ch, pos)] + all_suites(ch, pos + 2, end)
    }
}

/// The types of all extensions in a range.
pub open spec fn all_kinds(ch: Seq<u8>, pos: int, end: int) -> Seq<u16>
    decreases end - pos,
{
    if !extension_at(ch, pos, end) {
        Seq::empty()
    } else {
        seq![bytes::be16(ch, pos)] + all_kinds(ch, extension_next(ch, pos), end)
    }
}

/// How often each number occurs that is no tolerance value.
pub open spec fn telling(s: Seq<u16>) -> Multiset<u16> {
    s.to_multiset().filter(|v: u16| !grease(v))
}

proof fn lemma_telling_first(x: u16, rest: Seq<u16>, kept: Seq<u16>)
    requires
        kept.to_multiset() == telling(rest),
    ensures
        ((if grease(x) {
            Seq::<u16>::empty()
        } else {
            seq![x]
        }) + kept).to_multiset() == telling(seq![x] + rest),
{
    broadcast use group_to_multiset_ensures;

    let here = if grease(x) {
        Seq::<u16>::empty()
    } else {
        seq![x]
    };
    lemma_multiset_commutative(here, kept);
    lemma_multiset_commutative(seq![x], rest);
    let f = |v: u16| !grease(v);
    assert(seq![x] =~= Seq::<u16>::empty().push(x));
    assert(seq![x].to_multiset() =~= Multiset::empty().insert(x));
    assert(here.to_multiset() =~= seq![x].to_multiset().filter(f));
    assert((here + kept).to_multiset() =~= (seq![x] + rest).to_multiset().filter(f));
}

proof fn lemma_suites_telling(ch: Seq<u8>, pos: int, end: int)
    ensures
        suites(ch, pos, end).to_multiset() == telling(all_suites(ch, pos, end)),
    decreases end - pos,
{
    if pos + 2 > end {
        broadcast use group_to_multiset_ensures;

        assert(Seq::<u16>::empty().to_multiset() =~= Multiset::empty());
        assert(telling(Seq::<u16>::empty()) =~= Multiset::empty());
    } else {
        lemma_suites_telling(ch, pos + 2, end);
        lemma_telling_first(
            bytes::be16(ch, pos),
            all_suites(ch, pos + 2, end),
            suites(ch, pos + 2, end),
        );
    }
}

proof fn lemma_kinds_telling(ch: Seq<u8>, pos: int, end: int)
    ensures
        kinds(ch, pos, end).to_multiset() == telling(all_kinds(ch, pos, end)),
    decreases end - pos,
{
    if !extension_at(ch, pos, end) {
        broadcast use group_to_multiset_ensures;

        assert(Seq::<u16>::empty().to_multiset() =~= Multiset::empty());
        assert(telling(Seq::<u16>::empty()) =~= Multiset::empty());
    } else {
        let next = extension_next(ch, pos);
        lemma_kinds_telling(ch, next, end);
        lemma_telling_first(
            bytes::be16(ch, pos),
            all_kinds(ch, next, end),
            kinds(ch, next, end),
        );
    }
}

proof fn lemma_ascending_same(a: Seq<u16>, b: Seq<u16>)
    requires
        a.to_multiset() == b.to_multiset(),
    ensures
        ascending(a) == ascending(b),
        a.len() == b.len(),
{
    broadcast use group_to_multiset_ensures;

    let leq = |x: u16, y: u16| x <= y;
    assert(total_ordering(leq));
    a.lemma_sort_by_ensures(leq);
    b.lemma_sort_by_ensures(leq);
    lemma_sorted_unique(a.sort_by(leq), b.sort_by(leq), leq);
    assert(a.len() == a.to_multiset().len());
    assert(b.len() == b.to_multiset().len());
}

/// A fingerprint does not depend on the order of cipher suites and extensions.
pub proof fn law_fingerprint_ignores_order(
    version: Seq<char>,
    a: Seq<u16>,
    b: Seq<u16>,
    x: Seq<u16>,
    y: Seq<u16>,
)
    requires
        a.to_multiset() == b.to_multiset(),
        x.to_multiset() == y.to_multiset(),
    ensures
        fingerprint(version, a, x) == fingerprint(version, b, y),
{
    lemma_ascending_same(a, b);
    lemma_ascending_same(x, y);
}

/// Two client hellos with the same version whose cipher suites and extension
/// types are the same, but for their order and for tolerance values, have the
/// same fingerprint.
pub proof fn law_fingerprint_of_client(a: Seq<u8>, b: Seq<u8>)
    requires
        hello_body(a) is Some,
        hello_body(b) is Some,
        hello_layout(hello_body(a)->0) is Some,
        hello_layout(hello_body(b)->0) is Some,
        ({
            let (p, q) = (hello_body(a)->0, hello_body(b)->0);
            let (l, m) = (hello_layout(p)->0, hello_layout(q)->0);
            &&& version_digits(p, l.2, l.3) == version_digits(q, m.2, m.3)
            &&& telling(all_suites(p, l.0, l.1)) == telling(all_suites(q, m.0, m.1))
            &&& telling(all_kinds(p, l.2, l.3)) == telling(all_kinds(q, m.2, m.3))
        }),
    ensures
        client_hello(a).1 is Some,
        client_hello(a).1 == client_hello(b).1,
{
    let (p, q) = (hello_body(a)->0, hello_body(b)->0);
    let (l, m) = (hello_layout(p)->0, hello_layout(q)->0);
    lemma_suites_telling(p, l.0, l.1);
    lemma_suites_telling(q, m.0, m.1);
    lemma_kinds_telling(p, l.2, l.3);
    lemma_kinds_telling(q, m.2, m.3);
    law_fingerprint_ignores_order(
        version_digits(p, l.2, l.3),
        suites(p, l.0, l.1),
        suites(q, m.0, m.1),
        kinds(p, l.2, l.3),
        kinds(q, m.2, m.3),
    );
}

// ---------------------------------------------------------------------------
// What is read of a greeting
// ---------------------------------------------------------------------------

/// The bytes of a greeting: the version of the protocol, 32 arbitrary bytes,
/// the session, the ciphers, the ways to compress, and the extensions.
pub open spec fn greeting(
    high: u8,
    low: u8,
    random: Seq<u8>,
    session: Seq<u8>,
    ciphers: Seq<u8>,
    ways: Seq<u8>,
    extensions: Seq<u8>,
) -> Seq<u8> {
    seq![high, low] + random + seq![session.len() as u8] + session + bytes::bytes16(
        ciphers.len() as u16,
    ) + ciphers + seq![ways.len() as u8] + ways + bytes::bytes16(extensions.len() as u16)
        + extensions
}

/// A greeting as it is sent: in a message of its kind in a record.
pub open spec fn greeting_sent(minor: u8, ch: Seq<u8>) -> Seq<u8> {
    seq![0x16u8, 3, minor] + bytes::bytes16((ch.len() + 4) as u16) + seq![1u8, 0] + bytes::bytes16(
        ch.len() as u16,
    ) + ch
}

/// The extension that names the server.
pub open spec fn server_extension(name: Seq<char>) -> Seq<u8> {
    let n = encode_utf8(name).len();
    seq![0u8, 0] + bytes::bytes16((n + 5) as u16) + bytes::bytes16((n + 3) as u16) + seq![0u8]
        + bytes::bytes16(n as u16) + encode_utf8(name)
}

#[verifier::rlimit(40)]
proof fn lemma_greeting_laid_out(
    high: u8,
    low: u8,
    random: Seq<u8>,
    session: Seq<u8>,
    ciphers: Seq<u8>,
    ways: Seq<u8>,
    extensions: Seq<u8>,
)
    requires
        random.len() == 32,
        session.len() < 256,
        ciphers.len() < 0x1_0000,
        ways.len() < 256,
        extensions.len() < 0x1_0000,
    ensures
        ({
            let ch = greeting(high, low, random, session, ciphers, ways, extensions);
            let c0 = 37 + session.len();
            let c1 = c0 + ciphers.len();
            let from = c1 + 3 + ways.len();
            &&& ch.len() == from + extensions.len()
            &&& hello_layout(ch) == Some((c0 as int, c1 as int, from as int, ch.len() as int))
            &&& bytes::be16(ch, 0) == high * 256 + low
            &&& ch.skip(from as int) == extensions
        }),
{
    let ch = greeting(high, low, random, session, ciphers, ways, extensions);
    let a = seq![high, low] + random + seq![session.len() as u8] + session;
    let n = bytes::bytes16(ciphers.len() as u16);
    let rest = ciphers + seq![ways.len() as u8] + ways + bytes::bytes16(extensions.len() as u16)
        + extensions;
    assert(ch =~= a + n + rest);
    bytes::law_read_written(a, 0, ciphers.len() as u16, rest);
    assert(ch[34] == session.len());
    let b = a + n + ciphers;
    let more = ways + bytes::bytes16(extensions.len() as u16) + extensions;
    assert(ch =~= b + seq![ways.len() as u8] + more);
    assert(ch[b.len() as int] == ways.len());
    let c = b + seq![ways.len() as u8] + ways;
    assert(ch =~= c + bytes::bytes16(extensions.len() as u16) + extensions);
    bytes::law_read_written(c, 0, extensions.len() as u16, extensions);
    assert(ch[0] == high && ch[1] == low);
    assert(ch.skip(c.len() + 2int) =~= extensions);
}

proof fn lemma_greeting_received(minor: u8, ch: Seq<u8>)
    requires
        38 <= ch.len() < 0xFFFC,
    ensures
        hello_body(greeting_sent(minor, ch)) == Some(ch),
{
    let data = greeting_sent(minor, ch);
    let size = bytes::bytes16((ch.len() + 4) as u16);
    let count = bytes::bytes16(ch.len() as u16);
    let hs = seq![1u8, 0] + count + ch;
    assert(data =~= seq![0x16u8, 3, minor] + size + hs);
    bytes::law_read_written(seq![0x16u8, 3, minor], 0, (ch.len() + 4) as u16, hs);
    assert(data[0] == 0x16);
    assert(data.subrange(5, 5int + hs.len()) =~= hs);
    assert(hs[0] == 1 && hs[1] == 0);
    bytes::law_read_written(seq![1u8, 0], 0, ch.len() as u16, ch);
    assert(hs[2] * 256 + hs[3] == ch.len());
    assert(hs.subrange(4, 4int + ch.len()) =~= ch);
}

/// A greeting that names the server it is meant for tells that name in lower
/// case, and a fingerprint that begins with the version of the protocol.
#[verifier::rlimit(40)]
pub proof fn law_greeting_tells_server(
    minor: u8,
    low: u8,
    random: Seq<u8>,
    session: Seq<u8>,
    ciphers: Seq<u8>,
    ways: Seq<u8>,
    name: Seq<char>,
)
    requires
        random.len() == 32,
        session.len() < 256,
        ciphers.len() < 0x4000,
        ways.len() < 256,
        encode_utf8(name).len() < 0x4000,
    ensures
        ({
            let ch = greeting(3, low, random, session, ciphers, ways, server_extension(name));
            let told = client_hello(greeting_sent(minor, ch));
            &&& told.0 == Some(text::lowered(name))
            &&& told.1 is Some
            &&& low == 3 ==> text::starts(told.1->0, "t"@ + "12"@ + "d"@)
            &&& low == 2 ==> text::starts(told.1->0, "t"@ + "11"@ + "d"@)
            &&& low == 1 ==> text::starts(told.1->0, "t"@ + "10"@ + "d"@)
            &&& low == 0 || low > 3 ==> text::starts(told.1->0, "t"@ + "00"@ + "d"@)
        }),
{
    let ext = server_extension(name);
    let ch = greeting(3, low, random, session, ciphers, ways, ext);
    let from = (40 + session.len() + ciphers.len() + ways.len()) as int;
    assert(ext.len() == 9 + encode_utf8(name).len());
    lemma_greeting_laid_out(3, low, random, session, ciphers, ways, ext);
    lemma_greeting_received(minor, ch);
    lemma_server_read(ch, from, name);
    lemma_told(greeting_sent(minor, ch), ch, from);
}

proof fn lemma_told(data: Seq<u8>, ch: Seq<u8>, from: int)
    requires
        hello_body(data) == Some(ch),
        hello_layout(ch) is Some,
        hello_layout(ch)->0 matches (_, _, at, end) && at == from && end == ch.len(),
    ensures
        client_hello(data).0 == last_server(ch, from, ch.len() as int, None),
        client_hello(data).1 is Some,
        text::starts(
            client_hello(data).1->0,
            "t"@ + version_digits(ch, from, ch.len() as int) + "d"@,
        ),
{
    let print = client_hello(data).1->0;
    let head = "t"@ + version_digits(ch, from, ch.len() as int) + "d"@;
    assert(print.subrange(0, head.len() as int) =~= head);
}

proof fn lemma_server_read(ch: Seq<u8>, from: int, name: Seq<char>)
    requires
        0 <= from <= ch.len(),
        ch.skip(from) == server_extension(name),
        encode_utf8(name).len() < 0x4000,
    ensures
        last_server(ch, from, ch.len() as int, None) == Some(text::lowered(name)),
        !offers_tls13(ch, from, ch.len() as int),
{
    let ext = server_extension(name);
    let raw = encode_utf8(name);
    let n = raw.len() as int;
    let end = ch.len() as int;
    lemma_behind(ch, ext, from);
    assert(ext.len() == 9 + n);
    assert(ext[0] == 0 && ext[1] == 0 && ext[6] == 0);
    assert(ext[2] * 256 + ext[3] == n + 5);
    assert(ext[7] * 256 + ext[8] == n);
    assert(bytes::be16(ch, from) == 0);
    assert(bytes::be16(ch, from + 2) == n + 5);
    assert(bytes::be16(ch, from + 7) == n);
    assert(ext.subrange(9, 9 + n) =~= raw);
    assert(ch.subrange(from + 9, from + 9 + n) =~= ext.subrange(9, 9 + n));
    encode_utf8_valid_utf8(name);
    encode_utf8_decode_utf8(name);
    assert(extension_next(ch, from) == end);
    assert(last_server(ch, end, end, Some(text::lowered(name))) == Some(text::lowered(name)));
    assert(names_server(ch, from, end));
    assert(!offers_tls13(ch, end, end));
}

proof fn lemma_behind(ch: Seq<u8>, ext: Seq<u8>, from: int)
    requires
        0 <= from <= ch.len(),
        ch.skip(from) == ext,
    ensures
        ch.len() == from + ext.len(),
        forall|i: int| 0 <= i < ext.len() ==> #[trigger] ext[i] == ch[from + i],
        forall|i: int, j: int|
            0 <= i <= j <= ext.len() ==> #[trigger] ext.subrange(i, j) == ch.subrange(
                from + i,
                from + j,
            ),
{
    assert forall|i: int| 0 <= i < ext.len() implies #[trigger] ext[i] == ch[from + i] by {
        assert(ch.skip(from)[i] == ch[from + i]);
    }
    assert forall|i: int, j: int| 0 <= i <= j <= ext.len() implies #[trigger] ext.subrange(i, j)
        == ch.subrange(from + i, from + j) by {
        assert(ext.subrange(i, j) =~= ch.subrange(from + i, from + j));
    }
}

/// A greeting that offers version 1.3 among others in the extension for it has
/// a fingerprint that says so, whatever version it begins with.
#[verifier::rlimit(40)]
pub proof fn law_newest_version_told(
    minor: u8,
    high: u8,
    low: u8,
    random: Seq<u8>,
    session: Seq<u8>,
    ciphers: Seq<u8>,
    ways: Seq<u8>,
    older: u8,
)
    requires
        random.len() == 32,
        session.len() < 256,
        ciphers.len() < 0x4000,
        ways.len() < 256,
    ensures
        ({
            let versions = seq![0u8, 0x2B, 0, 5, 4, 3, older, 3, 4];
            let ch = greeting(high, low, random, session, ciphers, ways, versions);
            let told = client_hello(greeting_sent(minor, ch));
            told.1 is Some && text::starts(told.1->0, "t"@ + "13"@ + "d"@)
        }),
{
    let ext = seq![0u8, 0x2B, 0, 5, 4, 3, older, 3, 4];
    let ch = greeting(high, low, random, session, ciphers, ways, ext);
    let from = (40 + session.len() + ciphers.len() + ways.len()) as int;
    lemma_greeting_laid_out(high, low, random, session, ciphers, ways, ext);
    lemma_greeting_received(minor, ch);
    lemma_newest_offered(ch, from, older);
    lemma_told(greeting_sent(minor, ch), ch, from);
}

proof fn lemma_newest_offered(ch: Seq<u8>, from: int, older: u8)
    requires
        0 <= from <= ch.len(),
        ch.skip(from) == seq![0u8, 0x2B, 0, 5, 4, 3, older, 3, 4],
    ensures
        offers_tls13(ch, from, ch.len() as int),
{
    let ext = seq![0u8, 0x2B, 0, 5, 4, 3, older, 3, 4];
    lemma_behind(ch, ext, from);
    assert(ext[0] == 0 && ext[1] == 0x2B && ext[2] == 0 && ext[3] == 5 && ext[4] == 4 && ext[7] == 3
        && ext[8] == 4);
    assert(bytes::be16(ch, from) == 0x2B);
    assert(bytes::be16(ch, from + 2) == 5);
    assert(bytes::be16(ch, from + 5 + 2 * 1) == 0x0304);
    assert(has_tls13(ch, from));
}

} // verus!
