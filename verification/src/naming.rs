//! Which addresses get names, and which of several names is shown.

use vstd::prelude::*;
use vstd::string::*;

use crate::mdns;
use crate::net;
use crate::net::{IpAddr, ip_string, octets};
use crate::text;
use crate::text::{
    chars_of, find_char, has_part, hex_char, join_texts, line_texts, lossy_text, part, same,
    text_before, trim, upper_case,
};

verus! {

/// An address in a private network, or an IPv6 address of the own link.
pub open spec fn resolvable(ip: IpAddr) -> bool {
    match ip {
        IpAddr::V4(a) => {
            let (b, c) = (net::octet(a, 0), net::octet(a, 1));
            b == 192 && c == 168 || b == 10 || b == 172 && 16 <= c && c <= 31
        },
        IpAddr::V6(_) => link_local(ip),
    }
}

/// An IPv6 address of the own link.
pub open spec fn link_local(ip: IpAddr) -> bool {
    match ip {
        IpAddr::V4(_) => false,
        IpAddr::V6(n) => n / 0x1_0000_0000_0000_0000_0000_0000_0000 == 0xfe80,
    }
}

/// An IPv6 address of the own link.
pub fn is_link_local(ip: &IpAddr) -> (r: bool)
    ensures
        r == link_local(*ip),
{
    match ip {
        IpAddr::V4(_) => false,
        IpAddr::V6(n) => *n / 0x1_0000_0000_0000_0000_0000_0000_0000 == 0xfe80,
    }
}

/// Whether the host name of an address is looked for.
pub fn should_resolve_hostname(ip: &IpAddr) -> (r: bool)
    ensures
        r == resolvable(*ip),
{
    match ip {
        IpAddr::V4(a) => {
            let o = octets(*a);
            o[0] == 192 && o[1] == 168 || o[0] == 10 || o[0] == 172 && 16 <= o[1] && o[1] <= 31
        },
        IpAddr::V6(_) => is_link_local(ip),
    }
}

/// Ten hexadecimal digits in a row from a position on.
pub open spec fn hex_run(s: Seq<char>, i: int) -> bool {
    0 <= i && i + 10 <= s.len() && forall|j: int| i <= j < i + 10 ==> text::is_hex(#[trigger] s[j])
}

/// Ten hexadecimal digits in a row somewhere in a name.
pub open spec fn hexlike(s: Seq<char>) -> bool {
    exists|i: int| hex_run(s, i)
}

/// Whether ten hexadecimal digits in a row stand in a name, as in a name that
/// was made from a hardware address.
pub fn has_hex_segment(name: &str) -> (r: bool)
    ensures
        r == hexlike(name@),
{
    let c = chars_of(name);
    let n: usize = c.len();
    let mut run: usize = 0;
    for i in 0..n
        invariant
            n == c@.len(),
            c@ == name@,
            run <= i,
            run < 10,
            forall|j: int| i - run <= j < i ==> text::is_hex(#[trigger] c@[j]),
            i - run > 0 ==> !text::is_hex(c@[i - run - 1]),
            forall|k: int| k + 10 <= i ==> !hex_run(name@, k),
    {
        if hex_char(c[i]) {
            run = run + 1;
            if run == 10 {
                assert(hex_run(name@, i - 9));
                return true;
            }
        } else {
            run = 0;
        }
        assert forall|k: int| k + 10 <= i + 1 implies !hex_run(name@, k) by {
            if k + 10 == i + 1 && hex_run(name@, k) {
                assert(text::is_hex(c@[i as int]));
                assert(k <= i - run < k + 10);
                assert(text::is_hex(name@[i - run]));
            }
        }
    }
    assert forall|k: int| !hex_run(name@, k) by {
        if hex_run(name@, k) {
            assert(k + 10 <= n);
        }
    }
    false
}

/// The first of the longest names among the first `n` that do not look like
/// hardware addresses.
pub open spec fn best_of(names: Seq<Seq<char>>, n: int) -> Option<int>
    decreases n,
{
    if n <= 0 || n > names.len() {
        None
    } else {
        let before = best_of(names, n - 1);
        if hexlike(names[n - 1]) {
            before
        } else {
            match before {
                Some(i) if text::byte_len(names[n - 1]) <= text::byte_len(names[i]) => before,
                _ => Some(n - 1),
            }
        }
    }
}

/// The name that is chosen among several.
pub open spec fn best_name(names: Seq<Seq<char>>) -> Option<Seq<char>> {
    match best_of(names, names.len() as int) {
        Some(i) => Some(names[i]),
        None => None,
    }
}

/// The name that is chosen among several: the longest that does not look like
/// a hardware address, and of those the first.
pub fn select_best_hostname(candidates: &Vec<String>) -> (r: Option<String>)
    ensures
        text::text_view(r) == best_name(text::texts(candidates@)),
{
    let ghost names = text::texts(candidates@);
    let n: usize = candidates.len();
    let mut best: Option<usize> = None;
    for i in 0..n
        invariant
            n == candidates@.len(),
            names == text::texts(candidates@),
            match best {
                Some(b) => b < i && best_of(names, i as int) == Some(b as int),
                None => best_of(names, i as int) is None,
            },
    {
        assert(names[i as int] == candidates@[i as int]@);
        if !has_hex_segment(candidates[i].as_str()) {
            match best {
                Some(b) => {
                    assert(names[b as int] == candidates@[b as int]@);
                    if candidates[i].as_str().as_bytes().len()
                        > candidates[b].as_str().as_bytes().len() {
                        best = Some(i);
                    }
                },
                None => {
                    best = Some(i);
                },
            }
        }
    }
    match best {
        Some(b) => {
            assert(names[b as int] == candidates@[b as int]@);
            Some(candidates[b].as_str().to_owned())
        },
        None => None,
    }
}

proof fn lemma_best_of(names: Seq<Seq<char>>, n: int)
    requires
        0 <= n <= names.len(),
    ensures
        match best_of(names, n) {
            Some(b) => 0 <= b < n && !hexlike(names[b]) && forall|i: int|
                0 <= i < n && !hexlike(#[trigger] names[i]) ==> text::byte_len(names[i]) < text::byte_len(
                    names[b],
                ) || text::byte_len(names[i]) == text::byte_len(names[b]) && b <= i,
            None => forall|i: int| 0 <= i < n ==> hexlike(#[trigger] names[i]),
        },
    decreases n,
{
    if n > 0 {
        lemma_best_of(names, n - 1);
    }
}

/// A name does not look like a hardware address, no other such name is longer,
/// and none that is as long stands before it.
pub open spec fn is_best(names: Seq<Seq<char>>, b: int) -> bool {
    &&& 0 <= b < names.len()
    &&& !hexlike(names[b])
    &&& forall|i: int|
        0 <= i < names.len() && !hexlike(#[trigger] names[i]) ==> text::byte_len(names[i])
            < text::byte_len(names[b]) || text::byte_len(names[i]) == text::byte_len(names[b])
            && b <= i
}

/// The chosen name does not look like a hardware address, no other such name is
/// longer, and it is the first of those that are as long. None is chosen only
/// where all look like hardware addresses.
pub proof fn law_best_name(names: Seq<Seq<char>>)
    ensures
        match best_name(names) {
            Some(name) => exists|b: int| #[trigger] is_best(names, b) && names[b] == name,
            None => forall|i: int| 0 <= i < names.len() ==> hexlike(#[trigger] names[i]),
        },
{
    lemma_best_of(names, names.len() as int);
    if best_name(names) is Some {
        assert(is_best(names, best_of(names, names.len() as int)->0));
    }
}

// ---------------------------------------------------------------------------
// Names from other services
// ---------------------------------------------------------------------------

/// The name that a line of a NetBIOS name table gives: the one of the machine.
pub open spec fn table_name(line: Seq<char>, own: Seq<char>) -> Option<Seq<char>> {
    let name = text::trimmed(text::before_char(line, '<'));
    if text::contains(text::uppered(line), "<00>"@) && text::contains(text::uppered(line), "UNIQUE"@) && name.len() > 0
        && name != own {
        Some(name)
    } else {
        None
    }
}

/// The first name that lines of a NetBIOS name table give, from line `from` on.
pub open spec fn table_name_from(
    lines: Seq<Seq<char>>,
    own: Seq<char>,
    from: int,
) -> Option<Seq<char>>
    decreases lines.len() - from,
{
    if from < 0 || from >= lines.len() {
        None
    } else if table_name(lines[from], own) is Some {
        table_name(lines[from], own)
    } else {
        table_name_from(lines, own, from + 1)
    }
}

fn name_of_line(line: &str, own: &str) -> (r: Option<String>)
    ensures
        text::text_view(r) == table_name(line@, own@),
{
    let upper = upper_case(line);
    if !(has_part(upper.as_str(), "<00>") && has_part(upper.as_str(), "UNIQUE")) {
        return None;
    }
    let front = text_before(line, '<');
    let name = trim(front.as_str());
    if name.as_str().unicode_len() > 0 && !same(name.as_str(), own) {
        Some(name)
    } else {
        None
    }
}

/// The name of the machine with an address in the NetBIOS name table that it
/// gave.
pub fn read_name_table(output: &str, ip: &IpAddr) -> (r: Option<String>)
    ensures
        text::text_view(r) == table_name_from(text::lines(output@), net::ip_text(*ip), 0),
{
    let own = ip_string(ip);
    let l = line_texts(output);
    let ghost all = text::lines(output@);
    let mut i: usize = 0;
    while i < l.len()
        invariant
            i <= l@.len(),
            all == text::texts(l@),
            all == text::lines(output@),
            own@ == net::ip_text(*ip),
            table_name_from(all, own@, 0) == table_name_from(all, own@, i as int),
        decreases l@.len() - i,
    {
        assert(all[i as int] == l@[i as int]@);
        match name_of_line(l[i].as_str(), own.as_str()) {
            Some(n) => {
                return Some(n);
            },
            None => {},
        }
        i = i + 1;
    }
    None
}

/// The name of the machine with an address in the output of the command that
/// asked it for its NetBIOS name table.
pub fn told_name(output: &[u8], ip: &IpAddr) -> (r: Option<String>)
    ensures
        text::text_view(r) == table_name_from(
            text::lines(text::lenient(output@)),
            net::ip_text(*ip),
            0,
        ),
{
    read_name_table(lossy_text(output).as_str(), ip)
}

/// Addresses in quotes with commas between them.
pub open spec fn quoted_list(ips: Seq<IpAddr>) -> Seq<char> {
    text::join(ips.map_values(|ip: IpAddr| "'"@ + net::ip_text(ip) + "'"@), ","@)
}

/// What stands in the script before the addresses.
pub const SCRIPT_HEAD: &'static str = "foreach ($ip in @(";

/// What stands in the script behind the addresses.
pub const SCRIPT_TAIL: &'static str =
    ")) { try { $h = (Resolve-DnsName -Name $ip -DnsOnly -EA Stop).NameHost | Select-Object -First 1; if ($h) { \"$ip=$h\" } } catch {} }";

/// The script that asks for the names of addresses, and prints each address
/// with its name.
pub fn names_script(ips: &Vec<IpAddr>) -> (r: String)
    ensures
        r@ == SCRIPT_HEAD@ + quoted_list(ips@) + SCRIPT_TAIL@,
{
    let mut quoted: Vec<String> = Vec::new();
    let n: usize = ips.len();
    for i in 0..n
        invariant
            n == ips@.len(),
            quoted@.len() == i,
            forall|j: int|
                0 <= j < i ==> (#[trigger] quoted@[j])@ == "'"@ + net::ip_text(ips@[j]) + "'"@,
    {
        let mut q = "'".to_owned();
        q.append(ip_string(&ips[i]).as_str());
        q.append("'");
        quoted.push(q);
    }
    assert(text::texts(quoted@) =~= ips@.map_values(|ip: IpAddr| "'"@ + net::ip_text(ip) + "'"@));
    let list = join_texts(&quoted, ",");
    let mut r = SCRIPT_HEAD.to_owned();
    r.append(list.as_str());
    r.append(SCRIPT_TAIL);
    r
}

/// How long the names of addresses are waited for, in seconds.
pub fn names_wait(n: usize) -> (r: u64)
    ensures
        r == (if n / 5 > 10 { n / 5 + 10 } else { 20 }),
{
    let fifth: u64 = (n / 5) as u64;
    if fifth > 10 {
        fifth + 10
    } else {
        20
    }
}

/// The address, in text, and the host name that a printed line gives.
pub open spec fn printed_name(line: Seq<char>) -> Option<(Seq<char>, Seq<char>)> {
    let l = text::trimmed(line);
    let e = text::char_from(l, '=', 0);
    if e >= l.len() {
        None
    } else {
        let address = l.take(e);
        let host = text::trimmed(l.skip(e + 1));
        let first = text::before_char(host, '.');
        if host.len() == 0 || text::contains(host, "Error"@) || first.len() == 0 || first == address {
            None
        } else {
            Some((address, first))
        }
    }
}

fn read_printed(line: &str) -> (r: Option<(String, String)>)
    ensures
        match r {
            Some((a, h)) => printed_name(line@) == Some((a@, h@)),
            None => printed_name(line@) is None,
        },
{
    let l = trim(line);
    let c = chars_of(l.as_str());
    let e: usize = find_char(c.as_slice(), '=', 0);
    if e == c.len() {
        return None;
    }
    let address = part(c.as_slice(), 0, e);
    let rest = part(c.as_slice(), e + 1, c.len());
    assert(address@ =~= l@.take(e as int));
    assert(rest@ =~= l@.skip(e + 1));
    let host = trim(rest.as_str());
    if host.as_str().unicode_len() == 0 || has_part(host.as_str(), "Error") {
        return None;
    }
    let first = text_before(host.as_str(), '.');
    if first.as_str().unicode_len() == 0 || same(first.as_str(), address.as_str()) {
        None
    } else {
        Some((address, first))
    }
}

/// The addresses, in text, and the host names that the script printed.
pub fn read_printed_names(output: &str) -> (r: Vec<(String, String)>)
    ensures
        mdns::pair_views(r@) == text::lines(output@).filter_map(|l: Seq<char>| printed_name(l)),
{
    let all = line_texts(output);
    let ghost views = text::texts(all@);
    let ghost f = |l: Seq<char>| printed_name(l);
    let mut r: Vec<(String, String)> = Vec::new();
    let n: usize = all.len();
    assert(mdns::pair_views(r@) =~= views.take(0).filter_map(f));
    for i in 0..n
        invariant
            n == all@.len(),
            views == text::texts(all@),
            f == (|l: Seq<char>| printed_name(l)),
            mdns::pair_views(r@) == views.take(i as int).filter_map(f),
    {
        proof {
            views.lemma_filter_map_take_succ(f, i as int);
            assert(views[i as int] == all@[i as int]@);
        }
        let ghost before = mdns::pair_views(r@);
        assert(before + Seq::<(Seq<char>, Seq<char>)>::empty() =~= before);
        match read_printed(all[i].as_str()) {
            Some((a, h)) => {
                let ghost one = (a@, h@);
                r.push((a, h));
                assert(mdns::pair_views(r@) =~= before + seq![one]);
            },
            None => {},
        }
    }
    assert(views.take(n as int) =~= views);
    r
}

/// The addresses, in text, and the host names in the output of the command that
/// ran the script.
pub fn printed_names(output: &[u8]) -> (r: Vec<(String, String)>)
    ensures
        mdns::pair_views(r@) == text::lines(text::lenient(output@)).filter_map(
            |l: Seq<char>| printed_name(l),
        ),
{
    read_printed_names(lossy_text(output).as_str())
}

// ---------------------------------------------------------------------------
// Names of files
// ---------------------------------------------------------------------------

/// What `char::is_alphanumeric` says of a character.
pub uninterp spec fn alphanumeric(c: char) -> bool;

/// `char::is_alphanumeric`: whether a character is a letter or a number by the
/// Unicode tables. Of the ASCII characters those are the digits and letters.
#[verifier::external_body]
fn is_alphanumeric(c: char) -> (r: bool)
    ensures
        r == alphanumeric(c),
        (c as u32) < 128 ==> r == ('0' <= c <= '9' || 'A' <= c <= 'Z' || 'a' <= c <= 'z'),
{
    c.is_alphanumeric()
}

/// A character that stands for one in a file name.
pub open spec fn file_char(c: char) -> char {
    if alphanumeric(c) || c == '-' || c == '_' {
        c
    } else {
        '_'
    }
}

/// A character that neither leads to another directory nor ends the name of a
/// file.
pub open spec fn in_file_name(c: char) -> bool {
    c != '/' && c != '\\' && c != '.'
}

/// The name of the file in which the devices of a network are kept.
pub open spec fn baseline_file(network: Seq<char>) -> Seq<char> {
    network.map_values(|c: char| file_char(c)) + ".json"@
}

/// The name of the file in which the devices of a network are kept.
pub fn baseline_file_name(network: &str) -> (r: String)
    ensures
        r@ == baseline_file(network@),
        r@.len() == network@.len() + 5,
        forall|i: int| 0 <= i < network@.len() ==> in_file_name(#[trigger] r@[i]),
{
    proof {
        reveal_strlit(".json");
    }
    let c = chars_of(network);
    let n: usize = c.len();
    let mut r = String::new();
    for i in 0..n
        invariant
            n == c@.len(),
            r@.len() == i,
            forall|j: int| 0 <= j < i ==> #[trigger] r@[j] == file_char(c@[j]),
            forall|j: int| 0 <= j < i ==> in_file_name(#[trigger] r@[j]),
    {
        if is_alphanumeric(c[i]) || c[i] == '-' || c[i] == '_' {
            r.push(c[i]);
        } else {
            r.push('_');
        }
    }
    assert(r@ =~= network@.map_values(|c: char| file_char(c)));
    r.append(".json");
    r
}

/// Names are asked for of addresses in private networks, and of the longer
/// addresses that begin with fe80.
pub proof fn law_names_asked_for(n: u32, long: u128)
    ensures
        resolvable(IpAddr::V4(n)) <==> 0x0A00_0000 <= n <= 0x0AFF_FFFF || 0xAC10_0000 <= n
            <= 0xAC1F_FFFF || 0xC0A8_0000 <= n <= 0xC0A8_FFFF,
        resolvable(IpAddr::V6(long)) <==> 0xFE80_0000_0000_0000_0000_0000_0000_0000 <= long
            <= 0xFE80_FFFF_FFFF_FFFF_FFFF_FFFF_FFFF_FFFF,
{
    net::law_private_ranges(n);
}

/// A line that a name is printed on tells the address before the equals sign,
/// and of the name behind it what stands before the first full stop.
pub proof fn law_printed_line_read(
    left: Seq<char>,
    address: Seq<char>,
    host: Seq<char>,
    domain: Seq<char>,
    right: Seq<char>,
)
    requires
        forall|i: int| 0 <= i < left.len() ==> text::is_white(#[trigger] left[i]),
        forall|i: int| 0 <= i < right.len() ==> text::is_white(#[trigger] right[i]),
        address.len() > 0,
        forall|i: int|
            0 <= i < address.len() ==> #[trigger] address[i] != '=' && !text::is_white(address[i]),
        host.len() > 0,
        forall|i: int|
            0 <= i < host.len() ==> #[trigger] host[i] != '.' && !text::is_white(host[i]),
        domain.len() > 0 ==> domain[0] == '.' && !text::is_white(domain.last()),
        !text::contains(host + domain, "Error"@),
        host != address,
    ensures
        printed_name(left + (address + seq!['='] + (host + domain)) + right) == Some((address, host)),
{
    let l = address + seq!['='] + (host + domain);
    let none = Seq::<char>::empty();
    assert(l[0] == address[0]);
    if domain.len() > 0 {
        assert(l.last() == domain.last());
    } else {
        assert(l.last() == host[host.len() - 1]);
    }
    text::law_trimmed(left, l, right);
    text::lemma_char_from(l, '=', 0);
    let e = text::char_from(l, '=', 0);
    assert(l[address.len() as int] == '=');
    if e < address.len() {
        assert(l[e] == address[e]);
    }
    assert(e == address.len());
    assert(l.take(e) =~= address);
    let full = host + domain;
    assert(l.skip(e + 1) =~= none + full + none);
    assert(full[0] == host[0]);
    if domain.len() > 0 {
        assert(full.last() == domain.last());
    } else {
        assert(full.last() == host[host.len() - 1]);
    }
    text::law_trimmed(none, full, none);
    if domain.len() > 0 {
        assert(full =~= host + seq!['.'] + domain.skip(1));
        text::law_before_char(host, '.', domain.skip(1));
    } else {
        assert(full =~= host);
        text::law_before_char(host, '.', none);
    }
}

/// A line of a table of names tells the name before the first angle bracket
/// when it stands for a single host, unless it is the own one.
pub proof fn law_table_line_read(
    left: Seq<char>,
    name: Seq<char>,
    right: Seq<char>,
    rest: Seq<char>,
    own: Seq<char>,
)
    requires
        forall|i: int| 0 <= i < left.len() ==> text::is_white(#[trigger] left[i]),
        forall|i: int| 0 <= i < right.len() ==> text::is_white(#[trigger] right[i]),
        name.len() > 0,
        forall|i: int| 0 <= i < name.len() ==> #[trigger] name[i] != '<',
        !text::is_white(name[0]),
        !text::is_white(name.last()),
    ensures
        ({
            let line = left + name + right + seq!['<'] + rest;
            let single = text::contains(text::uppered(line), "<00>"@) && text::contains(
                text::uppered(line),
                "UNIQUE"@,
            );
            &&& single && name != own ==> table_name(line, own) == Some(name)
            &&& !single || name == own ==> table_name(line, own) is None
        }),
{
    let head = left + name + right;
    assert forall|i: int| 0 <= i < head.len() implies head[i] != '<' by {
        if i < left.len() {
            assert(head[i] == left[i]);
        } else if i < left.len() + name.len() {
            assert(head[i] == name[i - left.len()]);
        } else {
            assert(head[i] == right[i - left.len() - name.len()]);
        }
    }
    text::law_before_char(head, '<', rest);
    text::law_trimmed(left, name, right);
}

/// The file of a network has its name with every character but letters,
/// numbers, hyphens and underscores replaced.
pub proof fn law_baseline_file_named(network: Seq<char>, i: int)
    requires
        0 <= i < network.len(),
    ensures
        baseline_file(network).len() == network.len() + 5,
        baseline_file(network).skip(network.len() as int) == ".json"@,
        baseline_file(network)[i] == if alphanumeric(network[i]) || network[i] == '-' || network[i]
            == '_' {
            network[i]
        } else {
            '_'
        },
{
    reveal_strlit(".json");
    assert(baseline_file(network).skip(network.len() as int) =~= ".json"@);
}

} // verus!
