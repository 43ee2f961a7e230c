//! HTTP requests: the host that a request is for.

use vstd::prelude::*;
use vstd::string::*;
use vstd::utf8::*;

use crate::bytes::slice_of;
use crate::text;
use crate::text::{
    chars_of, line_texts, lower_ascii, lower_case, part, same, text_before, trim, utf8_text,
};

verus! {

/// How a request begins.
pub const VERBS: [&'static str; 7] = [
    "GET ",
    "POST ",
    "PUT ",
    "HEAD ",
    "DELETE ",
    "PATCH ",
    "OPTIONS ",
];

/// The first bytes are the characters of `v`.
pub open spec fn begins(data: Seq<u8>, v: Seq<char>) -> bool {
    v.len() <= data.len() && forall|i: int| 0 <= i < v.len() ==> #[trigger] data[i] as char == v[i]
}

/// The bytes begin as a request does.
pub open spec fn is_request(data: Seq<u8>) -> bool {
    exists|i: int| 0 <= i < VERBS@.len() && begins(data, #[trigger] VERBS@[i]@)
}

fn begins_with(data: &[u8], v: &str) -> (r: bool)
    ensures
        r == begins(data@, v@),
{
    let c = chars_of(v);
    if c.len() > data.len() {
        return false;
    }
    let n: usize = c.len();
    for i in 0..n
        invariant
            n == c@.len(),
            n <= data@.len(),
            c@ == v@,
            forall|j: int| 0 <= j < i ==> #[trigger] data@[j] as char == v@[j],
    {
        if data[i] as char != c[i] {
            assert(data@[i as int] as char != v@[i as int]);
            return false;
        }
    }
    true
}

fn request(data: &[u8]) -> (r: bool)
    ensures
        r == is_request(data@),
{
    let mut i: usize = 0;
    while i < VERBS.len()
        invariant
            i <= VERBS@.len(),
            forall|j: int| 0 <= j < i ==> !begins(data@, #[trigger] VERBS@[j]@),
        decreases VERBS@.len() - i,
    {
        if begins_with(data, VERBS[i]) {
            return true;
        }
        i = i + 1;
    }
    false
}

/// A line that names the host, in any letter case.
pub open spec fn host_line(line: Seq<char>) -> bool {
    text::byte_len(line) > 6 && line.len() >= 5 && text::ascii_lower(line.take(5)) == "host:"@
}

/// What a line that names the host says, without port and white space.
pub open spec fn host_part(line: Seq<char>) -> Seq<char> {
    text::before_char(text::trimmed(line.skip(5)), ':')
}

/// The host that the first line from `i` on gives that names one.
pub open spec fn first_host(lines: Seq<Seq<char>>, i: int) -> Option<Seq<char>>
    decreases lines.len() - i,
{
    if i < 0 || i >= lines.len() {
        None
    } else if host_line(lines[i]) && host_part(lines[i]).len() > 0 {
        Some(text::lowered(host_part(lines[i])))
    } else {
        first_host(lines, i + 1)
    }
}

/// Up to the line that gives the host, no line of more than six bytes has a
/// character across its fifth byte.
pub open spec fn lines_readable(lines: Seq<Seq<char>>, i: int) -> bool
    decreases lines.len() - i,
{
    if i < 0 || i >= lines.len() {
        true
    } else {
        (text::byte_len(lines[i]) > 6 ==> text::cut_ok(lines[i], 5)) && (host_line(lines[i]) && host_part(
            lines[i],
        ).len() > 0 || lines_readable(lines, i + 1))
    }
}

/// The part of a request in which the host is looked for.
pub open spec fn scanned(data: Seq<u8>) -> Seq<u8> {
    if data.len() < 512 {
        data
    } else {
        data.take(512)
    }
}

/// A request can be read.
pub open spec fn request_readable(data: Seq<u8>) -> bool {
    is_request(data) && valid_utf8(scanned(data)) ==> lines_readable(
        text::lines(decode_utf8(scanned(data))),
        0,
    )
}

/// The host that a request is for.
pub open spec fn request_host(data: Seq<u8>) -> Option<Seq<char>> {
    if is_request(data) && valid_utf8(scanned(data)) {
        first_host(text::lines(decode_utf8(scanned(data))), 0)
    } else {
        None
    }
}

/// The host that a request is for, or nothing where the request cannot be read.
pub fn try_http_host(data: &[u8]) -> (r: Option<Option<String>>)
    ensures
        match r {
            None => !request_readable(data@),
            Some(h) => request_readable(data@) && text::text_view(h) == request_host(data@),
        },
{
    if !request(data) {
        return Some(None);
    }
    let scan = if data.len() < 512 {
        data
    } else {
        slice_of(data, 0, 512)
    };
    assert(scan@ =~= scanned(data@));
    let text = match utf8_text(scan) {
        Some(t) => t,
        None => {
            return Some(None);
        },
    };
    let all = line_texts(text.as_str());
    let ghost ls = text::lines(text@);
    let n: usize = all.len();
    for i in 0..n
        invariant
            n == all@.len(),
            text::texts(all@) == ls,
            ls == text::lines(decode_utf8(scanned(data@))),
            is_request(data@),
            valid_utf8(scanned(data@)),
            first_host(ls, 0) == first_host(ls, i as int),
            lines_readable(ls, 0) == lines_readable(ls, i as int),
    {
        let line = all[i].as_str();
        assert(ls[i as int] == line@);
        let bytes: usize = line.as_bytes().len();
        if bytes > 6 {
            if !line.is_char_boundary(5) {
                return None;
            }
            let c = chars_of(line);
            if c.len() >= 5 {
                let head = part(c.as_slice(), 0, 5);
                assert(head@ =~= line@.take(5));
                if same(lower_ascii(head.as_str()).as_str(), "host:") {
                    let rest = part(c.as_slice(), 5, c.len());
                    assert(rest@ =~= line@.skip(5));
                    let host = text_before(trim(rest.as_str()).as_str(), ':');
                    if !host.as_str().is_empty() {
                        return Some(Some(lower_case(host.as_str())));
                    }
                }
            }
        }
    }
    Some(None)
}

/// The host that a request is for.
pub fn parse_http_host(data: &[u8]) -> (r: Option<String>)
    requires
        request_readable(data@),
    ensures
        text::text_view(r) == request_host(data@),
{
    match try_http_host(data) {
        Some(r) => r,
        None => None,
    }
}

/// A method of a request with the space behind it.
pub open spec fn method(verb: Seq<char>) -> bool {
    ||| verb == "GET "@
    ||| verb == "POST "@
    ||| verb == "PUT "@
    ||| verb == "HEAD "@
    ||| verb == "DELETE "@
    ||| verb == "PATCH "@
    ||| verb == "OPTIONS "@
}

proof fn lemma_method(verb: Seq<char>, before: Seq<char>, tail: Seq<char>)
    requires
        method(verb),
    ensures
        is_request(encode_utf8(verb + before + tail)),
{
    let rest = before + tail;
    assert(verb + before + tail =~= verb + rest);
    reveal_strlit("GET ");
    reveal_strlit("POST ");
    reveal_strlit("PUT ");
    reveal_strlit("HEAD ");
    reveal_strlit("DELETE ");
    reveal_strlit("PATCH ");
    reveal_strlit("OPTIONS ");
    let data = encode_utf8(verb + rest);
    text::lemma_encode_concat(verb, rest);
    assert(forall|i: int| 0 <= i < verb.len() ==> '\0' <= #[trigger] verb[i] <= '\u{7f}');
    is_ascii_chars_encode_utf8(verb);
    assert(begins(data, verb));
    let t = VERBS@;
    assert(t[0]@ == "GET "@ && t[1]@ == "POST "@ && t[2]@ == "PUT "@ && t[3]@ == "HEAD "@ && t[4]@
        == "DELETE "@ && t[5]@ == "PATCH "@ && t[6]@ == "OPTIONS "@);
    assert(begins(data, t[0]@) || begins(data, t[1]@) || begins(data, t[2]@) || begins(data, t[3]@)
        || begins(data, t[4]@) || begins(data, t[5]@) || begins(data, t[6]@));
}

proof fn lemma_first_host(lines: Seq<Seq<char>>, i: int, k: int)
    requires
        0 <= i <= k < lines.len(),
        forall|j: int| i <= j < k ==> !host_line(#[trigger] lines[j]),
        host_line(lines[k]),
        host_part(lines[k]).len() > 0,
    ensures
        first_host(lines, i) == Some(text::lowered(host_part(lines[k]))),
    decreases k - i,
{
    if i < k {
        assert(!host_line(lines[i]));
        lemma_first_host(lines, i + 1, k);
    }
}

/// A request of less than 512 bytes that names its host tells it, in lower
/// case and without a port: the first line that begins with `host:` in any
/// letters names it, with spaces before it and perhaps a port behind it.
#[verifier::rlimit(40)]
pub proof fn law_request_tells_host(
    verb: Seq<char>,
    before: Seq<char>,
    field: Seq<char>,
    spaces: Seq<char>,
    host: Seq<char>,
    port: Seq<char>,
    after: Seq<char>,
)
    requires
        method(verb),
        before.len() > 0 && before.last() == '\n',
        forall|i: int|
            0 <= i < text::lines(verb + before).len() ==> !text::starts(
                text::ascii_lower(#[trigger] text::lines(verb + before)[i]),
                "host:"@,
            ),
        text::ascii_lower(field) == "host:"@,
        forall|i: int| 0 <= i < spaces.len() ==> #[trigger] spaces[i] == ' ',
        host.len() > 0,
        forall|i: int| 0 <= i < host.len() ==> #[trigger] host[i] != ':' && !text::is_white(host[i]),
        port.len() > 0 ==> port[0] == ':' && forall|i: int|
            0 <= i < port.len() ==> !text::is_white(#[trigger] port[i]),
        spaces.len() + host.len() + port.len() >= 2,
        encode_utf8(
            verb + before + (field + spaces + host + port + seq!['\r', '\n'] + after),
        ).len() < 512,
    ensures
        request_host(
            encode_utf8(verb + before + (field + spaces + host + port + seq!['\r', '\n'] + after)),
        ) == Some(text::lowered(host)),
{
    let head = verb + before;
    let line = field + spaces + host + port;
    let tail = line + seq!['\r', '\n'] + after;
    lemma_method(verb, before, tail);
    encode_utf8_valid_utf8(head + tail);
    encode_utf8_decode_utf8(head + tail);
    lemma_host_line(field, spaces, host, port);
    lemma_lines_tell_host(head, line, after);
}

proof fn lemma_lines_tell_host(head: Seq<char>, line: Seq<char>, after: Seq<char>)
    requires
        head.len() > 0 && head.last() == '\n',
        forall|i: int|
            0 <= i < text::lines(head).len() ==> !text::starts(
                text::ascii_lower(#[trigger] text::lines(head)[i]),
                "host:"@,
            ),
        forall|i: int| 0 <= i < line.len() ==> line[i] != '\n',
        host_line(line),
        host_part(line).len() > 0,
    ensures
        first_host(text::lines(head + (line + seq!['\r', '\n'] + after)), 0) == Some(
            text::lowered(host_part(line)),
        ),
{
    let tail = line + seq!['\r', '\n'] + after;
    text::law_lines_of_parts(head, tail);
    text::law_first_line(line, after);
    let all = text::lines(head + tail);
    let k = text::lines(head).len() as int;
    assert(all[k] == line);
    reveal_strlit("host:");
    assert forall|j: int| 0 <= j < k implies !host_line(#[trigger] all[j]) by {
        let l = text::lines(head)[j];
        assert(all[j] == l);
        if host_line(l) {
            assert(text::ascii_lower(l).subrange(0, 5) =~= text::ascii_lower(l.take(5)));
            assert(text::starts(text::ascii_lower(l), "host:"@));
        }
    }
    lemma_first_host(all, 0, k);
}

proof fn lemma_host_line(field: Seq<char>, spaces: Seq<char>, host: Seq<char>, port: Seq<char>)
    requires
        text::ascii_lower(field) == "host:"@,
        forall|i: int| 0 <= i < spaces.len() ==> #[trigger] spaces[i] == ' ',
        host.len() > 0,
        forall|i: int| 0 <= i < host.len() ==> #[trigger] host[i] != ':' && !text::is_white(host[i]),
        port.len() > 0 ==> port[0] == ':' && forall|i: int|
            0 <= i < port.len() ==> !text::is_white(#[trigger] port[i]),
        spaces.len() + host.len() + port.len() >= 2,
    ensures
        ({
            let line = field + spaces + host + port;
            &&& host_line(line)
            &&& host_part(line) == host
            &&& forall|i: int| 0 <= i < line.len() ==> line[i] != '\n'
        }),
{
    let line = field + spaces + host + port;
    reveal_strlit("host:");
    assert(text::ascii_lower(field).len() == field.len());
    assert forall|i: int| 0 <= i < line.len() implies line[i] != '\n' by {
        if i < 5 {
            assert(line[i] == field[i]);
            assert(text::ascii_lower(field)[i] == "host:"@[i]);
        } else if i < 5 + spaces.len() {
            assert(line[i] == spaces[i - 5]);
        } else if i < 5 + spaces.len() + host.len() {
            assert(line[i] == host[i - 5 - spaces.len()]);
        } else {
            assert(line[i] == port[i - 5 - spaces.len() - host.len()]);
        }
    }
    let rest = host + port;
    let none = Seq::<char>::empty();
    assert(line.skip(5) =~= spaces + rest + none);
    assert(rest[0] == host[0]);
    if port.len() > 0 {
        assert(rest.last() == port[port.len() - 1]);
    } else {
        assert(rest.last() == host[host.len() - 1]);
    }
    text::law_trimmed(spaces, rest, none);
    if port.len() > 0 {
        let behind = port.skip(1);
        assert(rest =~= host + seq![':'] + behind);
        text::law_before_char(host, ':', behind);
    } else {
        assert(rest =~= host);
        text::law_before_char(host, ':', none);
    }
    assert(line.take(5) =~= field);
    text::lemma_byte_len(line);
}

/// Only a request tells a host.
pub proof fn law_only_requests_tell_host(data: Seq<u8>)
    requires
        data.len() == 0 || data[0] != 71 && data[0] != 80 && data[0] != 72 && data[0] != 68 && data[0]
            != 79,
    ensures
        request_host(data) is None,
{
    reveal_strlit("GET ");
    reveal_strlit("POST ");
    reveal_strlit("PUT ");
    reveal_strlit("HEAD ");
    reveal_strlit("DELETE ");
    reveal_strlit("PATCH ");
    reveal_strlit("OPTIONS ");
    if is_request(data) {
        let i = choose|i: int| 0 <= i < VERBS@.len() && begins(data, #[trigger] VERBS@[i]@);
        let v = VERBS@[i]@;
        assert(i == 0 || i == 1 || i == 2 || i == 3 || i == 4 || i == 5 || i == 6);
        assert(data[0] as char == v[0]);
        assert(v[0] == 'G' || v[0] == 'P' || v[0] == 'H' || v[0] == 'D' || v[0] == 'O');
    }
}

} // verus!
