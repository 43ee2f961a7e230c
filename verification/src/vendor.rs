//! Makers of network devices by the first bytes of their hardware addresses.

use vstd::prelude::*;
use vstd::string::*;

use crate::text;
use crate::text::{
    before_part, chars_of, cut, drop_char, find_chars, hex_char, hex_digit, line_texts, part,
    same, starts_with, trim, upper_case,
};

verus! {

/// A list of makers in the textual form of the IEEE registry, in its order.
pub struct VendorList {
    pub entries: Vec<(String, String)>,
}

/// A prefix and its maker, for each entry.
pub open spec fn entry_views(v: Seq<(String, String)>) -> Seq<(Seq<char>, Seq<char>)> {
    v.map_values(|e: (String, String)| (e.0@, e.1@))
}

impl View for VendorList {
    type V = Seq<(Seq<char>, Seq<char>)>;

    open spec fn view(&self) -> Seq<(Seq<char>, Seq<char>)> {
        entry_views(self.entries@)
    }
}

/// The prefix and the maker that a line of the registry gives: what stands
/// before and behind the mark `(hex)`.
pub open spec fn registry_line(line: Seq<char>) -> Option<(Seq<char>, Seq<char>)> {
    match text::find_from(line, "(hex)"@, 0) {
        None => None,
        Some(i) => {
            let prefix = text::uppered(text::without_char(text::trimmed(line.take(i)), '-'));
            let maker = text::trimmed(text::before_text(line.skip(i + 5), "(hex)"@));
            if prefix.len() > 0 && maker.len() > 0 {
                Some((prefix, maker))
            } else {
                None
            }
        },
    }
}

/// The entries of the registry.
pub open spec fn registry(text: Seq<char>) -> Seq<(Seq<char>, Seq<char>)> {
    text::lines(text).filter_map(|l: Seq<char>| registry_line(l))
}

/// The maker of a prefix: the last that the list gives, if any.
pub open spec fn maker_of(
    list: Seq<(Seq<char>, Seq<char>)>,
    prefix: Seq<char>,
) -> Option<Seq<char>>
    decreases list.len(),
{
    if list.len() == 0 {
        None
    } else if list.last().0 == prefix {
        Some(list.last().1)
    } else {
        maker_of(list.drop_last(), prefix)
    }
}

fn read_line(line: &str) -> (r: Option<(String, String)>)
    ensures
        match r {
            Some((p, m)) => registry_line(line@) == Some((p@, m@)),
            None => registry_line(line@) is None,
        },
{
    let c = chars_of(line);
    let mark = chars_of("(hex)");
    proof {
        reveal_strlit("(hex)");
        text::lemma_find_from(line@, mark@, 0);
    }
    let total: usize = c.len();
    match find_chars(c.as_slice(), mark.as_slice(), 0) {
        None => None,
        Some(i) => {
            let front = part(c.as_slice(), 0, i);
            let back = part(c.as_slice(), i + 5, total);
            assert(front@ =~= line@.take(i as int));
            assert(back@ =~= line@.skip(i + 5));
            let bare = trim(front.as_str());
            let joined = drop_char(bare.as_str(), '-');
            let prefix = upper_case(joined.as_str());
            let name = before_part(back.as_str(), "(hex)");
            let maker = trim(name.as_str());
            if prefix.as_str().unicode_len() > 0 && maker.as_str().unicode_len() > 0 {
                Some((prefix, maker))
            } else {
                None
            }
        },
    }
}

impl VendorList {
    /// The list that the text of the registry gives.
    pub fn parse(data: &str) -> (r: VendorList)
        ensures
            r@ == registry(data@),
    {
        let all = line_texts(data);
        let ghost views = text::texts(all@);
        let ghost f = |l: Seq<char>| registry_line(l);
        let mut entries: Vec<(String, String)> = Vec::new();
        let n: usize = all.len();
        assert(entry_views(entries@) =~= views.take(0).filter_map(f));
        for i in 0..n
            invariant
                n == all@.len(),
                views == text::texts(all@),
                f == (|l: Seq<char>| registry_line(l)),
                entry_views(entries@) == views.take(i as int).filter_map(f),
        {
            proof {
                views.lemma_filter_map_take_succ(f, i as int);
                assert(views[i as int] == all@[i as int]@);
            }
            let ghost before = entry_views(entries@);
            assert(before + Seq::<(Seq<char>, Seq<char>)>::empty() =~= before);
            match read_line(all[i].as_str()) {
                Some((p, m)) => {
                    let ghost one = (p@, m@);
                    entries.push((p, m));
                    assert(entry_views(entries@) =~= before + seq![one]);
                },
                None => {},
            }
        }
        assert(views.take(n as int) =~= views);
        VendorList { entries }
    }

    fn maker(&self, prefix: &str) -> (r: Option<&String>)
        ensures
            match r {
                Some(m) => maker_of(self@, prefix@) == Some(m@),
                None => maker_of(self@, prefix@) is None,
            },
    {
        let mut i: usize = self.entries.len();
        assert(self@.take(i as int) =~= self@);
        while i > 0
            invariant
                i <= self.entries@.len(),
                maker_of(self@, prefix@) == maker_of(self@.take(i as int), prefix@),
            decreases i,
        {
            assert(self@.take(i as int).last() == (
                self.entries@[i - 1].0@,
                self.entries@[i - 1].1@,
            ));
            assert(self@.take(i as int).drop_last() =~= self@.take(i - 1));
            i = i - 1;
            if same(self.entries[i].0.as_str(), prefix) {
                return Some(&self.entries[i].1);
            }
        }
        None
    }
}

/// A hardware address in upper case without the signs between its bytes.
pub open spec fn bare_mac(mac: Seq<char>) -> Seq<char> {
    text::uppered(text::without_char(text::without_char(mac, ':'), '-'))
}

/// The first bytes of a hardware address in text can be told apart.
pub open spec fn mac_readable(mac: Seq<char>) -> bool {
    text::byte_len(bare_mac(mac)) >= 6 ==> text::cut_ok(bare_mac(mac), 6) && text::cut_ok(bare_mac(mac), 2)
}

/// Two hexadecimal digits, or a sign and a digit, are a byte that marks an
/// address as given locally.
pub open spec fn given_locally(two: Seq<char>) -> bool {
    two.len() == 2 && (text::is_hex(two[0]) || two[0] == '+') && text::is_hex(two[1]) && (text::hex_value(two[1]) / 2)
        % 2 == 1
}

/// The maker of the device with a hardware address.
pub open spec fn vendor_of(list: Seq<(Seq<char>, Seq<char>)>, mac: Seq<char>) -> Seq<char> {
    let bare = bare_mac(mac);
    let prefix = text::first_bytes(bare, 6);
    if text::byte_len(bare) < 6 {
        "Unknown"@
    } else if bare == "FFFFFFFFFFFF"@ {
        "Broadcast"@
    } else if prefix == "01005E"@ {
        "IPv4 Multicast"@
    } else if text::starts(prefix, "3333"@) {
        "IPv6 Multicast"@
    } else if given_locally(text::first_bytes(bare, 2)) {
        "Randomized MAC"@
    } else {
        match maker_of(list, prefix) {
            Some(m) => m,
            None => "Unknown"@,
        }
    }
}

/// A hardware address in upper case without the signs between its bytes.
pub fn strip_mac(mac: &str) -> (r: String)
    ensures
        r@ == bare_mac(mac@),
        text::all_ascii(mac@) ==> text::all_ascii(r@),
{
    let a = drop_char(mac, ':');
    let b = drop_char(a.as_str(), '-');
    let r = upper_case(b.as_str());
    proof {
        if text::all_ascii(mac@) {
            text::lemma_without_char_ascii(mac@, ':');
            text::lemma_without_char_ascii(a@, '-');
            assert forall|i: int| 0 <= i < r@.len() implies (#[trigger] r@[i] as u32) < 128 by {
                assert((b@[i] as u32) < 128);
            }
        }
    }
    r
}

fn is_given_locally(two: &str) -> (r: bool)
    ensures
        r == given_locally(two@),
{
    let c = chars_of(two);
    c.len() == 2 && (hex_char(c[0]) || c[0] == '+') && hex_char(c[1]) && (hex_digit(c[1]) / 2) % 2
        == 1
}

/// The maker of the device with a hardware address.
pub fn get_vendor(list: &VendorList, mac: &str) -> (r: String)
    requires
        mac_readable(mac@),
    ensures
        r@ == vendor_of(list@, mac@),
{
    let bare = strip_mac(mac);
    if bare.as_str().as_bytes().len() < 6 {
        return "Unknown".to_owned();
    }
    let prefix = cut(bare.as_str(), 6);
    if same(bare.as_str(), "FFFFFFFFFFFF") {
        return "Broadcast".to_owned();
    }
    if same(prefix.as_str(), "01005E") {
        return "IPv4 Multicast".to_owned();
    }
    if starts_with(prefix.as_str(), "3333") {
        return "IPv6 Multicast".to_owned();
    }
    let two = cut(bare.as_str(), 2);
    if is_given_locally(two.as_str()) {
        return "Randomized MAC".to_owned();
    }
    match list.maker(prefix.as_str()) {
        Some(m) => m.as_str().to_owned(),
        None => "Unknown".to_owned(),
    }
}

/// The maker of the device with a hardware address, where the first bytes of
/// the address can be told apart.
pub fn try_get_vendor(list: &VendorList, mac: &str) -> (r: Option<String>)
    ensures
        match r {
            Some(v) => mac_readable(mac@) && v@ == vendor_of(list@, mac@),
            None => !mac_readable(mac@),
        },
        text::all_ascii(mac@) ==> r is Some,
{
    let bare = strip_mac(mac);
    let s = bare.as_str();
    proof {
        if text::all_ascii(mac@) && bare@.len() >= 6 {
            text::lemma_ascii_cut(bare@, 6);
            text::lemma_ascii_cut(bare@, 2);
        } else if text::all_ascii(mac@) {
            text::lemma_ascii_cut(bare@, 0);
        }
    }
    if s.as_bytes().len() >= 6 && !(s.is_char_boundary(6) && s.is_char_boundary(2)) {
        return None;
    }
    Some(get_vendor(list, mac))
}

/// A line of the registry names the maker behind the mark, and the numbers
/// before it without hyphens in upper case.
pub proof fn law_registry_line_read(numbers: Seq<char>, white: Seq<char>, gap: Seq<char>, maker: Seq<char>)
    requires
        forall|i: int|
            0 <= i < numbers.len() ==> #[trigger] numbers[i] != '(' && !text::is_white(numbers[i]),
        forall|i: int| 0 <= i < white.len() ==> text::is_white(#[trigger] white[i]),
        forall|i: int| 0 <= i < gap.len() ==> text::is_white(#[trigger] gap[i]),
        numbers.len() > 0,
        maker.len() > 0,
        !text::is_white(maker[0]),
        !text::is_white(maker.last()),
        forall|i: int| 0 <= i < maker.len() ==> #[trigger] maker[i] != '(',
        text::uppered(text::without_char(numbers, '-')).len() > 0,
    ensures
        registry_line(numbers + white + "(hex)"@ + gap + maker) == Some(
            (text::uppered(text::without_char(numbers, '-')), maker),
        ),
{
    reveal_strlit("(hex)");
    let mark = "(hex)"@;
    let line = numbers + white + mark + gap + maker;
    let n = (numbers.len() + white.len()) as int;
    assert(line.subrange(n, n + 5) =~= mark);
    assert(text::occurs_at(line, mark, n));
    text::lemma_find_from(line, mark, 0);
    let i = text::find_from(line, mark, 0)->0;
    if i < n {
        assert(line.subrange(i, i + 5)[0] == line[i]);
        if i < numbers.len() {
            assert(line[i] == numbers[i]);
        } else {
            assert(line[i] == white[i - numbers.len()]);
        }
    }
    let none = Seq::<char>::empty();
    assert(line.take(n) =~= none + numbers + white);
    assert(!text::is_white(numbers[0]) && !text::is_white(numbers[numbers.len() - 1]));
    text::law_trimmed(none, numbers, white);
    let rest = gap + maker;
    assert(line.skip(n + 5) =~= rest);
    text::lemma_find_from(rest, mark, 0);
    match text::find_from(rest, mark, 0) {
        Some(j) => {
            assert(rest.subrange(j, j + 5)[0] == rest[j]);
            if j < gap.len() {
                assert(rest[j] == gap[j]);
            } else {
                assert(rest[j] == maker[j - gap.len()]);
            }
        },
        None => {},
    }
    assert(rest =~= gap + maker + none);
    text::law_trimmed(gap, maker, none);
}

/// The maker of a prefix is the one of the last entry with it.
pub proof fn law_last_entry_counts(
    list: Seq<(Seq<char>, Seq<char>)>,
    prefix: Seq<char>,
    maker: Seq<char>,
    other: Seq<char>,
)
    ensures
        maker_of(list.push((prefix, maker)), prefix) == Some(maker),
        other != prefix ==> maker_of(list.push((prefix, maker)), other) == maker_of(list, other),
        maker_of(Seq::empty(), prefix) is None,
{
    assert(list.push((prefix, maker)).drop_last() =~= list);
}

/// An address that is one of no single device, or one that the device made up,
/// has no maker; any other has the maker that the registry names.
pub proof fn law_kinds_of_addresses(
    list: Seq<(Seq<char>, Seq<char>)>,
    mac: Seq<char>,
    head: Seq<char>,
    rest: Seq<char>,
)
    requires
        bare_mac(mac) == head + rest,
        head.len() == 6,
        text::all_ascii(head),
        text::all_ascii(rest),
    ensures
        head + rest == "FFFFFFFFFFFF"@ ==> vendor_of(list, mac) == "Broadcast"@,
        head == "01005E"@ ==> vendor_of(list, mac) == "IPv4 Multicast"@,
        head[0] == '3' && head[1] == '3' && head[2] == '3' && head[3] == '3' ==> vendor_of(list, mac)
            == "IPv6 Multicast"@,
        ({
            let made_up = text::is_hex(head[0]) && (head[1] == '2' || head[1] == '3' || head[1] == '6'
                || head[1] == '7' || head[1] == 'A' || head[1] == 'B' || head[1] == 'E' || head[1]
                == 'F');
            let group = head + rest == "FFFFFFFFFFFF"@ || head == "01005E"@ || head[0] == '3'
                && head[1] == '3' && head[2] == '3' && head[3] == '3';
            &&& made_up && !group ==> vendor_of(list, mac) == "Randomized MAC"@
            &&& !group && text::is_hex(head[0]) && (head[1] == '0' || head[1] == '1' || head[1] == '4'
                || head[1] == '5' || head[1] == '8' || head[1] == '9' || head[1] == 'C' || head[1]
                == 'D') ==> vendor_of(list, mac) == (match maker_of(list, head) {
                Some(m) => m,
                None => "Unknown"@,
            })
        }),
{
    let bare = head + rest;
    assert(text::all_ascii(bare)) by {
        assert forall|i: int| 0 <= i < bare.len() implies (#[trigger] bare[i] as u32) < 128 by {
            if i < 6 {
                assert(bare[i] == head[i]);
            } else {
                assert(bare[i] == rest[i - 6]);
            }
        }
    }
    text::lemma_ascii_cut(bare, 6);
    text::lemma_ascii_cut(bare, 2);
    assert(bare.take(6) =~= head);
    let two = bare.take(2);
    assert(two[0] == head[0] && two[1] == head[1] && two.len() == 2);
    reveal_strlit("3333");
    reveal_strlit("01005E");
    reveal_strlit("FFFFFFFFFFFF");
    assert("01005E"@[0] == '0' && "01005E"@[1] == '1');
    assert("FFFFFFFFFFFF"@[0] == 'F' && "FFFFFFFFFFFF"@[1] == 'F');
    if bare == "FFFFFFFFFFFF"@ {
        assert(bare[0] == head[0]);
    }
    assert(text::starts(head, "3333"@) == (head[0] == '3' && head[1] == '3' && head[2] == '3'
        && head[3] == '3')) by {
        let four = head.subrange(0, 4);
        if head[0] == '3' && head[1] == '3' && head[2] == '3' && head[3] == '3' {
            assert(four =~= "3333"@);
        }
        if text::starts(head, "3333"@) {
            assert(four[0] == head[0] && four[1] == head[1] && four[2] == head[2] && four[3]
                == head[3]);
        }
    }
}

/// An address of fewer than six digits has no maker.
pub proof fn law_short_address_unknown(list: Seq<(Seq<char>, Seq<char>)>, mac: Seq<char>)
    requires
        text::all_ascii(bare_mac(mac)),
        bare_mac(mac).len() < 6,
    ensures
        vendor_of(list, mac) == "Unknown"@,
{
    text::lemma_ascii_cut(bare_mac(mac), 0);
}

} // verus!
