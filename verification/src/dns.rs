//! DNS messages: names with compression pointers, and the addresses that a
//! response gives.

use vstd::prelude::*;
use vstd::string::*;
use vstd::utf8::*;

use crate::bytes;
use crate::bytes::{read128, read16, read32, slice_of};
use crate::net::IpAddr;
use crate::text;
use crate::text::{join_texts, utf8_text};

verus! {

/// The position behind the name at `pos`, if the name ends inside the message.
pub open spec fn name_end(data: Seq<u8>, pos: int) -> Option<int>
    decreases data.len() + 256 - pos,
{
    if pos < 0 || pos >= data.len() {
        None
    } else if data[pos] == 0 {
        Some(pos + 1)
    } else if data[pos] >= 0xC0 {
        Some(pos + 2)
    } else {
        name_end(data, pos + 1 + data[pos])
    }
}

/// The labels of the name at `pos`; none where the name leaves the message,
/// is not text, or follows more than ten compression pointers.
pub open spec fn labels(data: Seq<u8>, pos: int, jumps: nat) -> Option<Seq<Seq<char>>>
    decreases 11 - jumps, data.len() - pos,
{
    if jumps > 10 || pos < 0 || pos >= data.len() {
        None
    } else if data[pos] == 0 {
        Some(Seq::empty())
    } else if data[pos] >= 0xC0 {
        if pos + 1 >= data.len() || jumps == 10 {
            None
        } else {
            labels(data, (data[pos] % 64) * 256 + data[pos + 1], jumps + 1)
        }
    } else if pos + 1 + data[pos] > data.len() {
        None
    } else {
        let label = data.subrange(pos + 1, pos + 1 + data[pos]);
        match labels(data, pos + 1 + data[pos], jumps) {
            Some(rest) if valid_utf8(label) => Some(seq![decode_utf8(label)] + rest),
            _ => None,
        }
    }
}

/// The name at `pos`: its labels with dots between them. A name without
/// labels is none.
pub open spec fn name_at(data: Seq<u8>, pos: int) -> Option<Seq<char>> {
    match labels(data, pos, 0) {
        Some(l) if l.len() > 0 => Some(text::join(l, "."@)),
        _ => None,
    }
}

/// The position behind the name at `offset`.
pub fn skip_dns_name(data: &[u8], offset: usize) -> (r: Option<usize>)
    requires
        bytes::in_memory(data@),
    ensures
        match r {
            Some(p) => name_end(data@, offset as int) == Some(p as int),
            None => name_end(data@, offset as int) is None,
        },
        r is Some ==> r->0 <= data@.len() + 1,
{
    let mut pos: usize = offset;
    loop
        invariant
            bytes::in_memory(data@),
            name_end(data@, offset as int) == name_end(data@, pos as int),
        decreases data@.len() + 256 - pos,
    {
        if pos >= data.len() {
            return None;
        }
        let len: usize = data[pos] as usize;
        if len == 0 {
            return Some(pos + 1);
        }
        if len >= 0xC0 {
            return Some(pos + 2);
        }
        pos = pos + 1 + len;
    }
}

spec fn after(seen: Seq<Seq<char>>, rest: Option<Seq<Seq<char>>>) -> Option<Seq<Seq<char>>> {
    match rest {
        Some(r) => Some(seen + r),
        None => None,
    }
}

/// The name at `offset` and the position behind it. Compression pointers are
/// followed, at most ten.
pub fn read_dns_name(data: &[u8], offset: usize) -> (r: Option<(String, usize)>)
    requires
        bytes::in_memory(data@),
    ensures
        match r {
            Some((n, p)) => name_at(data@, offset as int) == Some(n@) && name_end(
                data@,
                offset as int,
            ) == Some(p as int),
            None => name_at(data@, offset as int) is None,
        },
        r matches Some((_, p)) ==> p <= data@.len() + 1,
{
    let mut found: Vec<String> = Vec::new();
    let mut pos: usize = offset;
    let mut jumps: usize = 0;
    let mut end: usize = 0;
    assert(after(text::texts(found@), labels(data@, offset as int, 0)) == labels(data@, offset as int, 0))
        by {
        assert(text::texts(found@) =~= Seq::<Seq<char>>::empty());
        match labels(data@, offset as int, 0) {
            Some(l) => assert(Seq::<Seq<char>>::empty() + l =~= l),
            None => {},
        }
    }
    loop
        invariant
            bytes::in_memory(data@),
            jumps <= 10,
            labels(data@, offset as int, 0) == after(
                text::texts(found@),
                labels(data@, pos as int, jumps as nat),
            ),
            jumps == 0 ==> name_end(data@, offset as int) == name_end(data@, pos as int),
            jumps > 0 ==> name_end(data@, offset as int) == Some(end as int),
            jumps > 0 ==> end <= data@.len() + 1,
        decreases 11 - jumps, data@.len() + 256 - pos,
    {
        if pos >= data.len() {
            return None;
        }
        let len: usize = data[pos] as usize;
        if len == 0 {
            if jumps == 0 {
                end = pos + 1;
            }
            assert(text::texts(found@) + Seq::<Seq<char>>::empty() =~= text::texts(found@));
            if found.len() == 0 {
                return None;
            }
            return Some((join_texts(&found, "."), end));
        }
        if len >= 0xC0 {
            if pos + 1 >= data.len() {
                return None;
            }
            if jumps == 0 {
                end = pos + 2;
            }
            if jumps == 10 {
                return None;
            }
            pos = (len % 64) * 256 + data[pos + 1] as usize;
            jumps = jumps + 1;
            continue ;
        }
        if pos + 1 + len > data.len() {
            return None;
        }
        let ghost raw = data@.subrange(pos + 1, pos + 1 + len);
        match utf8_text(slice_of(data, pos + 1, pos + 1 + len)) {
            None => {
                return None;
            },
            Some(label) => {
                proof {
                    let rest = labels(data@, pos + 1 + len, jumps as nat);
                    let seen = text::texts(found@);
                    let more = text::texts(found@.push(label));
                    assert(more =~= seen.push(decode_utf8(raw)));
                    if rest is Some {
                        assert(seen + (seq![decode_utf8(raw)] + rest->0) =~= more + rest->0);
                    }
                }
                found.push(label);
            },
        }
        pos = pos + 1 + len;
    }
}

// ---------------------------------------------------------------------------
// Responses
// ---------------------------------------------------------------------------

/// The position behind `n` questions.
pub open spec fn questions_end(data: Seq<u8>, pos: int, n: nat) -> Option<int>
    decreases n,
{
    if n == 0 {
        Some(pos)
    } else {
        match name_end(data, pos) {
            Some(p) => questions_end(data, p + 4, (n - 1) as nat),
            None => None,
        }
    }
}

/// The address that a record of a type with the given data holds.
pub open spec fn record_ip(kind: u16, body: Seq<u8>) -> Option<IpAddr> {
    if kind == 1 && body.len() == 4 {
        Some(IpAddr::V4(bytes::be32(body, 0)))
    } else if kind == 28 && body.len() == 16 {
        Some(IpAddr::V6(bytes::be_number(body) as u128))
    } else {
        None
    }
}

/// The addresses in `n` records from `pos` on. A record that leaves the message
/// makes the whole unreadable.
pub open spec fn answer_ips(data: Seq<u8>, pos: int, n: nat) -> Option<Seq<IpAddr>>
    decreases n,
{
    if n == 0 {
        Some(Seq::empty())
    } else {
        match name_end(data, pos) {
            None => None,
            Some(p) => if p + 10 > data.len() || p + 10 + bytes::be16(data, p + 8) > data.len() {
                None
            } else {
                let next = p + 10 + bytes::be16(data, p + 8);
                let here = match record_ip(bytes::be16(data, p), data.subrange(p + 10, next)) {
                    Some(ip) => seq![ip],
                    None => Seq::empty(),
                };
                match answer_ips(data, next, (n - 1) as nat) {
                    Some(rest) => Some(here + rest),
                    None => None,
                }
            },
        }
    }
}

/// The name that a DNS response answers and the addresses that it gives: none
/// for a query, without questions or answers, where it cannot be read, and
/// without any address.
pub open spec fn dns_answers(data: Seq<u8>) -> Option<(Seq<char>, Seq<IpAddr>)> {
    if data.len() < 12 || data[2] < 128 || bytes::be16(data, 4) == 0 || bytes::be16(data, 6) == 0 {
        None
    } else {
        match (name_at(data, 12), questions_end(data, 12, bytes::be16(data, 4) as nat)) {
            (Some(name), Some(pos)) => match answer_ips(data, pos, bytes::be16(data, 6) as nat) {
                Some(ips) if ips.len() > 0 => Some((name, ips)),
                _ => None,
            },
            _ => None,
        }
    }
}

/// The name that a DNS response answers and the addresses that it gives.
pub fn parse_dns_answers(data: &[u8]) -> (r: Option<(String, Vec<IpAddr>)>)
    requires
        bytes::in_memory(data@),
    ensures
        match r {
            Some((name, ips)) => dns_answers(data@) == Some((name@, ips@)),
            None => dns_answers(data@) is None,
        },
{
    if data.len() < 12 || data[2] < 128 {
        return None;
    }
    let qdcount: u16 = read16(data, 4);
    let ancount: u16 = read16(data, 6);
    if qdcount == 0 || ancount == 0 {
        return None;
    }
    let (qname, after_name) = match read_dns_name(data, 12) {
        Some(x) => x,
        None => {
            return None;
        },
    };
    let mut offset: usize = after_name + 4;
    let mut left: u16 = qdcount - 1;
    while left > 0
        invariant
            bytes::in_memory(data@),
            offset <= data@.len() + 5,
            questions_end(data@, 12, qdcount as nat) == questions_end(
                data@,
                offset as int,
                left as nat,
            ),
            data@.len() >= 12,
            data@[2] >= 128,
            qdcount == bytes::be16(data@, 4),
            qdcount != 0,
        decreases left,
    {
        match skip_dns_name(data, offset) {
            Some(p) => {
                offset = p + 4;
            },
            None => {
                return None;
            },
        }
        left = left - 1;
    }
    let mut ips: Vec<IpAddr> = Vec::new();
    let mut more: u16 = ancount;
    let ghost start = offset as int;
    proof {
        lemma_onto_empty(answer_ips(data@, start, ancount as nat));
        assert(ips@ =~= Seq::<IpAddr>::empty());
    }
    while more > 0
        invariant
            bytes::in_memory(data@),
            offset <= data@.len() + 5,
            answer_ips(data@, start, ancount as nat) == onto(
                ips@,
                answer_ips(data@, offset as int, more as nat),
            ),
            data@.len() >= 12,
            data@[2] >= 128,
            bytes::be16(data@, 4) != 0,
            ancount == bytes::be16(data@, 6),
            ancount != 0,
            questions_end(data@, 12, bytes::be16(data@, 4) as nat) == Some(start),
        decreases more,
    {
        let p: usize = match skip_dns_name(data, offset) {
            Some(p) => p,
            None => {
                return None;
            },
        };
        if p + 10 > data.len() {
            return None;
        }
        let rtype: u16 = read16(data, p);
        let rdlength: usize = read16(data, p + 8) as usize;
        let body: usize = p + 10;
        if body + rdlength > data.len() {
            return None;
        }
        let ghost raw = data@.subrange(body as int, body + rdlength);
        let ghost before = ips@;
        let ghost rest = answer_ips(data@, body + rdlength, (more - 1) as nat);
        if rtype == 1 && rdlength == 4 {
            assert(bytes::be32(raw, 0) == bytes::be32(data@, body as int));
            ips.push(IpAddr::V4(read32(data, body)));
            proof {
                if rest is Some {
                    assert(before + (seq![IpAddr::V4(bytes::be32(raw, 0))] + rest->0) =~= ips@ + rest->0);
                }
            }
        } else if rtype == 28 && rdlength == 16 {
            ips.push(IpAddr::V6(read128(data, body)));
            proof {
                if rest is Some {
                    assert(before + (seq![IpAddr::V6(bytes::be_number(raw) as u128)] + rest->0) =~= ips@
                        + rest->0);
                }
            }
        } else {
            proof {
                if rest is Some {
                    assert(before + (Seq::<IpAddr>::empty() + rest->0) =~= ips@ + rest->0);
                }
            }
        }
        offset = body + rdlength;
        more = more - 1;
    }
    assert(ips@ + Seq::<IpAddr>::empty() =~= ips@);
    if ips.len() == 0 {
        None
    } else {
        Some((qname, ips))
    }
}

spec fn onto(seen: Seq<IpAddr>, rest: Option<Seq<IpAddr>>) -> Option<Seq<IpAddr>> {
    match rest {
        Some(r) => Some(seen + r),
        None => None,
    }
}

proof fn lemma_onto_empty(rest: Option<Seq<IpAddr>>)
    ensures
        onto(Seq::empty(), rest) == rest,
{
    if rest is Some {
        assert(Seq::<IpAddr>::empty() + rest->0 =~= rest->0);
    }
}

// ---------------------------------------------------------------------------
// What is read of an answer
// ---------------------------------------------------------------------------

/// The bytes of the labels of a name: before each its length in bytes.
pub open spec fn written(parts: Seq<Seq<char>>) -> Seq<u8>
    decreases parts.len(),
{
    if parts.len() == 0 {
        Seq::empty()
    } else {
        seq![encode_utf8(parts[0]).len() as u8] + encode_utf8(parts[0]) + written(parts.skip(1))
    }
}

proof fn lemma_labels_written(
    before: Seq<u8>,
    parts: Seq<Seq<char>>,
    after: Seq<u8>,
    jumps: nat,
)
    requires
        jumps <= 10,
        forall|i: int|
            0 <= i < parts.len() ==> 0 < encode_utf8(#[trigger] parts[i]).len() < 0xC0,
    ensures
        labels(before + written(parts) + seq![0u8] + after, before.len() as int, jumps) == Some(parts),
        name_end(before + written(parts) + seq![0u8] + after, before.len() as int) == Some(
            before.len() + written(parts).len() + 1int,
        ),
    decreases parts.len(),
{
    let data = before + written(parts) + seq![0u8] + after;
    let pos = before.len() as int;
    if parts.len() == 0 {
        assert(data[pos] == 0);
        assert(parts =~= Seq::<Seq<char>>::empty());
    } else {
        let raw = encode_utf8(parts[0]);
        let n = raw.len() as int;
        let rest = parts.skip(1);
        let head = seq![n as u8] + raw;
        assert(written(parts) =~= head + written(rest));
        assert(data =~= (before + head) + written(rest) + seq![0u8] + after);
        assert forall|i: int| 0 <= i < rest.len() implies 0 < encode_utf8(#[trigger] rest[i]).len()
            < 0xC0 by {
            assert(rest[i] == parts[i + 1]);
        }
        lemma_labels_written(before + head, rest, after, jumps);
        assert(data[pos] == n);
        assert(data.subrange(pos + 1, pos + 1 + n) =~= raw);
        encode_utf8_valid_utf8(parts[0]);
        encode_utf8_decode_utf8(parts[0]);
        assert(seq![parts[0]] + rest =~= parts);
    }
}

/// A response to one question with one address names the address: the name is
/// that of the question, its labels with full stops between them. `head` is
/// the header, with the numbers of questions and answers in it, `asked` the
/// type and class of the question, and `life` how long the answer holds.
#[verifier::rlimit(40)]
pub proof fn law_answer_names_address(
    head: Seq<u8>,
    parts: Seq<Seq<char>>,
    asked: Seq<u8>,
    life: Seq<u8>,
    a: u8,
    b: u8,
    c: u8,
    d: u8,
)
    requires
        head.len() == 12,
        head[2] >= 128,
        head[4] == 0 && head[5] == 1,
        head[6] == 0 && head[7] == 1,
        parts.len() > 0,
        forall|i: int|
            0 <= i < parts.len() ==> 0 < encode_utf8(#[trigger] parts[i]).len() < 0xC0,
        asked.len() == 4,
        life.len() == 4,
    ensures
        dns_answers(
            head + written(parts) + seq![0u8] + asked + seq![0xC0u8, 12, 0, 1, 0, 1] + life + seq![
                0u8,
                4,
                a,
                b,
                c,
                d,
            ],
        ) == Some(
            (
                text::join(parts, "."@),
                seq![
                    IpAddr::V4(
                        (a * 0x0100_0000 + b * 0x0001_0000 + c * 0x0100 + d) as u32,
                    ),
                ],
            ),
        ),
{
    let record = seq![0xC0u8, 12, 0, 1, 0, 1] + life + seq![0u8, 4, a, b, c, d];
    let data = head + written(parts) + seq![0u8] + asked + seq![0xC0u8, 12, 0, 1, 0, 1] + life
        + seq![0u8, 4, a, b, c, d];
    assert(data =~= head + written(parts) + seq![0u8] + (asked + record));
    lemma_labels_written(head, parts, asked + record, 0);
    let p: int = 12 + written(parts).len() + 5int;
    assert(data[2] == head[2] && data[4] == head[4] && data[5] == head[5] && data[6] == head[6]
        && data[7] == head[7]);
    reveal_with_fuel(questions_end, 2);
    assert(questions_end(data, 12, 1) == Some(p));
    assert(data[p] == 0xC0);
    assert(name_end(data, p) == Some(p + 2));
    let q = p + 2;
    assert(data[q] == 0 && data[q + 1] == 1 && data[q + 8] == 0 && data[q + 9] == 4);
    assert(data.len() == q + 14);
    let body = data.subrange(q + 10, q + 14);
    assert(body =~= seq![a, b, c, d]);
    reveal_with_fuel(answer_ips, 2);
    let ip = IpAddr::V4((a * 0x0100_0000 + b * 0x0001_0000 + c * 0x0100 + d) as u32);
    assert(record_ip(bytes::be16(data, q), body) == Some(ip));
    assert(answer_ips(data, q + 14, 0) =~= Some(Seq::<IpAddr>::empty()));
    assert(answer_ips(data, p, 1) == Some(seq![ip])) by {
        assert(seq![ip] + Seq::<IpAddr>::empty() =~= seq![ip]);
    }
}

/// A question is no answer, nor is a message without questions or answers.
pub proof fn law_only_answers_name(data: Seq<u8>)
    requires
        data.len() < 12 || data[2] < 128 || data[4] == 0 && data[5] == 0 || data[6] == 0 && data[7]
            == 0,
    ensures
        dns_answers(data) is None,
{
}

/// A name that points to itself, at once or in a circle of two, is no name.
pub proof fn law_circular_name_refused(data: Seq<u8>, pos: int, other: int, jumps: nat)
    requires
        0 <= pos < 0x4000,
        0 <= other < 0x4000,
        pos + 1 < data.len(),
        other + 1 < data.len(),
        data[pos] >= 0xC0 && (data[pos] % 64) * 256 + data[pos + 1] == other,
        data[other] >= 0xC0 && (data[other] % 64) * 256 + data[other + 1] == pos,
        jumps <= 11,
    ensures
        labels(data, pos, jumps) is None,
        jumps == 0 ==> name_at(data, pos) is None,
    decreases 11 - jumps,
{
    if jumps < 10 {
        law_circular_name_refused(data, other, pos, jumps + 1);
    }
}

} // verus!
