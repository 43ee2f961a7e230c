//! Names of hosts as they are shown: without identifiers that machines made up.

use regex::Regex;
use vstd::prelude::*;
use vstd::string::*;

use crate::text;
use crate::text::{
    chars_of, find_last_chars, has_part, lower_ascii, lower_case, part, same, starts_with, trim,
};

verus! {

/// The dash that stands for a name that is not worth showing.
pub const DASH: &'static str = "\u{2014}";

/// Patterns of host names that are rewritten or not shown.
pub const PATTERNS: [&'static str; 16] = [
    "^[\\d\\.]+\\s+-\\s+(.+?)\\s+-\\s+RINCON_[0-9A-Fa-f]+$",
    "^sonosRINCON_[0-9A-Fa-f]+$",
    "^Google-TV-Streamer-[0-9a-fA-F]{16,}$",
    "^[0-9a-fA-F]{8}-[0-9a-fA-F]{4}-[0-9a-fA-F]{4}-[0-9a-fA-F]{4}-[0-9a-fA-F]{12}$",
    "(?i)^[a-z][-a-z]*-[0-9a-fA-F]{6,12}$",
    "^NPI[0-9A-Fa-f]{6}$",
    "^[A-Z]{2,4}[0-9A-F]{6,8}$",
    "(?i)^dp-[0-9a-z]{6,}$",
    "^[0-9a-fA-F]{8,}$",
    "^[0-9a-fA-F]{8,}-[0-9a-fA-F]{8,}$",
    "^HomePodSensor\\s+\\d+$",
    "\\s+\\(\\d{1,3}\\.\\d{1,3}\\.\\d{1,3}\\.\\d{1,3}[^)]*\\)$",
    "\\s+\\([A-Z0-9][A-Z0-9\\-]{2,}\\)$",
    "\\s+\\([a-z][a-z0-9_]*\\)$",
    "\\s+\\(\\d+(?:,\\s*\\d+)*\\)$",
    "^\\d+(?:,\\d+)+$",
];

/// The place among the patterns of names that a speaker makes up.
pub const SPEAKER: usize = 0;

/// The place among the patterns of the short form of such names.
pub const SPEAKER_SHORT: usize = 1;

/// The place among the patterns of names of television sticks.
pub const STREAMER: usize = 2;

/// The place among the patterns of the first one for a made-up identifier.
pub const FIRST_ID: usize = 3;

/// The place among the patterns behind the last one for a made-up identifier.
pub const END_ID: usize = 11;

/// The place among the patterns of an address in parentheses.
pub const ADDRESS_PAREN: usize = 11;

/// The place among the patterns of a model code in parentheses.
pub const MODEL_PAREN: usize = 12;

/// The place among the patterns of a code name in parentheses.
pub const SNAKE_PAREN: usize = 13;

/// The place among the patterns of a list of numbers in parentheses.
pub const ZONE_PAREN: usize = 14;

/// The place among the patterns of a list of numbers.
pub const ZONE_ONLY: usize = 15;

/// What `Regex::is_match` says of a pattern and a text.
pub uninterp spec fn regex_matches(pattern: Seq<char>, text: Seq<char>) -> bool;

/// What `Regex::captures` gives as the first group of a pattern in a text.
pub uninterp spec fn regex_group(pattern: Seq<char>, text: Seq<char>) -> Option<Seq<char>>;

/// What `Regex::replace` leaves of a text when it puts nothing in place of the
/// first match of a pattern.
pub uninterp spec fn regex_without(pattern: Seq<char>, text: Seq<char>) -> Seq<char>;

/// `r` is `text` without one contiguous part of it, which may be empty.
pub open spec fn leaves_part_out(text: Seq<char>, r: Seq<char>) -> bool {
    exists|a: int, b: int|
        #![trigger text.take(a), text.skip(b)]
        0 <= a <= b <= text.len() && r == text.take(a) + text.skip(b)
}

/// One of the patterns. Each of them is a regular expression.
pub open spec fn is_pattern(p: Seq<char>) -> bool {
    exists|i: int| 0 <= i < PATTERNS@.len() && #[trigger] PATTERNS@[i]@ == p
}

/// `Regex::new` and `Regex::is_match`: whether a text matches a pattern.
#[verifier::external_body]
fn matches_pattern(pattern: &str, text: &str) -> (r: bool)
    requires
        is_pattern(pattern@),
    ensures
        r == regex_matches(pattern@, text@),
{
    Regex::new(pattern).unwrap().is_match(text)
}

/// `Regex::new` and `Regex::captures`: the first group of the speaker pattern,
/// which every match of that pattern has.
#[verifier::external_body]
fn speaker_group(pattern: &str, text: &str) -> (r: Option<String>)
    requires
        pattern@ == PATTERNS@[SPEAKER as int]@,
    ensures
        text::text_view(r) == regex_group(pattern@, text@),
{
    Regex::new(pattern).unwrap().captures(text).map(|c| c[1].to_string())
}

/// `Regex::new` and `Regex::replace`: a text without the first match of a
/// pattern. A contiguous part of the text is left out, or none.
#[verifier::external_body]
fn without_pattern(pattern: &str, text: &str) -> (r: String)
    requires
        is_pattern(pattern@),
    ensures
        r@ == regex_without(pattern@, text@),
        leaves_part_out(text@, r@),
{
    Regex::new(pattern).unwrap().replace(text, "").to_string()
}

/// Names of services, which are no names of hosts.
pub const SERVICE_NAMES: [&'static str; 11] = [
    "spotify-connect",
    "spotifyconnect",
    "airplay",
    "sftp-ssh",
    "dial",
    "homekit",
    "sftp",
    "ftp",
    "ssh",
    "http",
    "https",
];

/// A name of a service.
pub open spec fn is_service(s: Seq<char>) -> bool {
    exists|i: int| 0 <= i < SERVICE_NAMES@.len() && #[trigger] SERVICE_NAMES@[i]@ == s
}

fn service(s: &str) -> (r: bool)
    ensures
        r == is_service(s@),
{
    let mut i: usize = 0;
    while i < SERVICE_NAMES.len()
        invariant
            i <= SERVICE_NAMES@.len(),
            forall|j: int| 0 <= j < i ==> #[trigger] SERVICE_NAMES@[j]@ != s@,
        decreases SERVICE_NAMES@.len() - i,
    {
        if same(s, SERVICE_NAMES[i]) {
            return true;
        }
        i = i + 1;
    }
    false
}

/// Some pattern for a made-up identifier from place `i` on matches.
pub open spec fn made_up(h: Seq<char>, i: int) -> bool
    decreases END_ID - i,
{
    0 <= i < END_ID && (regex_matches(PATTERNS@[i]@, h) || made_up(h, i + 1))
}

fn is_made_up(h: &str) -> (r: bool)
    ensures
        r == made_up(h@, FIRST_ID as int),
{
    let mut i: usize = FIRST_ID;
    while i < END_ID
        invariant
            FIRST_ID <= i <= END_ID,
            made_up(h@, FIRST_ID as int) == made_up(h@, i as int),
        decreases END_ID - i,
    {
        if matches_pattern(PATTERNS[i], h) {
            return true;
        }
        i = i + 1;
    }
    false
}

/// What is decided of a name before anything is taken out of it: an address
/// and a made-up identifier are not shown, names of known devices are rewritten.
/// `group`, `short`, `streamer` and `made` are what the patterns say of it.
pub open spec fn decided(
    h: Seq<char>,
    group: Option<Seq<char>>,
    short: bool,
    streamer: bool,
    made: bool,
) -> Option<Seq<char>> {
    if text::starts(h, "["@) || text::starts(h, "fe80"@) || text::contains(h, "::"@) {
        Some(DASH@)
    } else if group is Some {
        Some(text::trimmed(group->0))
    } else if short {
        Some("Sonos Device"@)
    } else if streamer || text::starts(h, "Google-TV-Streamer-"@) {
        Some("Google TV Streamer"@)
    } else if is_service(text::lowered(h)) || made {
        Some(DASH@)
    } else {
        None
    }
}

/// What is decided of a name before anything is taken out of it.
pub fn decide_name(h: &str, group: Option<String>, short: bool, streamer: bool, made: bool) -> (r:
    Option<String>)
    ensures
        text::text_view(r) == decided(h@, text::text_view(group), short, streamer, made),
{
    if starts_with(h, "[") || starts_with(h, "fe80") || has_part(h, "::") {
        return Some(DASH.to_owned());
    }
    match group {
        Some(g) => {
            return Some(trim(g.as_str()));
        },
        None => {},
    }
    if short {
        Some("Sonos Device".to_owned())
    } else if streamer || starts_with(h, "Google-TV-Streamer-") {
        Some("Google TV Streamer".to_owned())
    } else if service(lower_case(h).as_str()) || made {
        Some(DASH.to_owned())
    } else {
        None
    }
}

/// A text without its last matches of an address in parentheses.
pub open spec fn without_addresses(h: Seq<char>) -> Seq<char>
    decreases h.len(),
{
    let r = regex_without(PATTERNS@[ADDRESS_PAREN as int]@, h);
    if r.len() >= h.len() {
        r
    } else {
        without_addresses(r)
    }
}

fn drop_addresses(h: String) -> (r: String)
    ensures
        r@ == without_addresses(h@),
{
    let mut cur = h;
    loop
        invariant
            without_addresses(cur@) == without_addresses(h@),
        decreases cur@.len(),
    {
        let next = without_pattern(PATTERNS[ADDRESS_PAREN], cur.as_str());
        proof {
            let (a, b) = choose|a: int, b: int|
                #![trigger cur@.take(a), cur@.skip(b)]
                0 <= a <= b <= cur@.len() && next@ == cur@.take(a) + cur@.skip(b);
            if next@.len() >= cur@.len() {
                assert(cur@.take(a) + cur@.skip(b) =~= cur@);
            }
        }
        if same(next.as_str(), cur.as_str()) {
            return next;
        }
        cur = next;
    }
}

/// The name before parentheses at the end of a text that repeat it, in any
/// letter case; the text itself where there are none.
pub open spec fn without_repetition(s: Seq<char>) -> Seq<char> {
    match text::find_last(s, " ("@, s.len() as int) {
        Some(i) => {
            let head = text::trimmed(s.take(i));
            let tail = s.skip(i + 2);
            if tail.len() > 0 && tail.last() == ')' && text::ascii_lower(text::trimmed(tail.drop_last()))
                == text::ascii_lower(head) {
                head
            } else {
                s
            }
        },
        None => s,
    }
}

/// The name before parentheses at the end of a text that repeat it.
pub fn strip_duplicate_parens(s: &str) -> (r: String)
    ensures
        r@ == without_repetition(s@),
{
    let c = chars_of(s);
    let open = chars_of(" (");
    proof {
        reveal_strlit(" (");
    }
    if let Some(i) = find_last_chars(c.as_slice(), open.as_slice()) {
        let head = trim(part(c.as_slice(), 0, i).as_str());
        assert(s@.subrange(0, i as int) =~= s@.take(i as int));
        let n: usize = c.len();
        if n > i + 2 && c[n - 1] == ')' {
            let inner = trim(part(c.as_slice(), i + 2, n - 1).as_str());
            assert(s@.subrange(i + 2, n - 1) =~= s@.skip(i + 2).drop_last());
            if same(lower_ascii(inner.as_str()).as_str(), lower_ascii(head.as_str()).as_str()) {
                return head;
            }
        }
    }
    s.to_owned()
}

/// What is left of a name after everything that is not part of it was taken
/// out; `zones` says whether that is a mere list of numbers.
pub open spec fn remaining(h: Seq<char>, zones: bool) -> Seq<char> {
    if zones {
        DASH@
    } else {
        text::trimmed(h)
    }
}

/// What is left of a name after everything that is not part of it was taken out.
pub fn remaining_name(h: &str, zones: bool) -> (r: String)
    ensures
        r@ == remaining(h@, zones),
{
    if zones {
        DASH.to_owned()
    } else {
        trim(h)
    }
}

/// A name with what is not part of it taken out of its end.
pub open spec fn bare(h: Seq<char>) -> Seq<char> {
    let a = without_repetition(without_addresses(h));
    let b = regex_without(PATTERNS@[MODEL_PAREN as int]@, a);
    let c = regex_without(PATTERNS@[SNAKE_PAREN as int]@, b);
    regex_without(PATTERNS@[ZONE_PAREN as int]@, c)
}

/// The name of a host as it is shown.
pub open spec fn cleaned(raw: Seq<char>) -> Seq<char> {
    let h = text::trimmed(raw);
    match decided(
        h,
        regex_group(PATTERNS@[SPEAKER as int]@, h),
        regex_matches(PATTERNS@[SPEAKER_SHORT as int]@, h),
        regex_matches(PATTERNS@[STREAMER as int]@, h),
        made_up(h, FIRST_ID as int),
    ) {
        Some(name) => name,
        None => remaining(bare(h), regex_matches(PATTERNS@[ZONE_ONLY as int]@, bare(h))),
    }
}

/// The name of a host as it is shown.
pub fn clean_hostname(raw: &str) -> (r: String)
    ensures
        r@ == cleaned(raw@),
{
    let h = trim(raw);
    let group = speaker_group(PATTERNS[SPEAKER], h.as_str());
    let short = matches_pattern(PATTERNS[SPEAKER_SHORT], h.as_str());
    let streamer = matches_pattern(PATTERNS[STREAMER], h.as_str());
    let made = is_made_up(h.as_str());
    if let Some(name) = decide_name(h.as_str(), group, short, streamer, made) {
        return name;
    }
    let a = strip_duplicate_parens(drop_addresses(h).as_str());
    let b = without_pattern(PATTERNS[MODEL_PAREN], a.as_str());
    let c = without_pattern(PATTERNS[SNAKE_PAREN], b.as_str());
    let d = without_pattern(PATTERNS[ZONE_PAREN], c.as_str());
    let zones = matches_pattern(PATTERNS[ZONE_ONLY], d.as_str());
    remaining_name(d.as_str(), zones)
}

/// A name that is worth showing.
pub open spec fn worth_showing(name: Seq<char>) -> bool {
    name != DASH@ && name != "Resolving..."@ && name.len() > 0
}

/// Whether a name is worth showing.
pub fn is_worth_showing(name: &str) -> (r: bool)
    ensures
        r == worth_showing(name@),
{
    !same(name, DASH) && !same(name, "Resolving...") && !name.is_empty()
}

/// An IPv6 address in brackets or of the local link is never shown as a name.
pub proof fn law_addresses_not_shown(raw: Seq<char>)
    requires
        text::starts(text::trimmed(raw), "["@) || text::starts(text::trimmed(raw), "fe80"@) || text::contains(
            text::trimmed(raw),
            "::"@,
        ),
    ensures
        cleaned(raw) == DASH@,
        !worth_showing(cleaned(raw)),
{
}

/// The names of services are no names of hosts.
pub proof fn law_services_are_no_hosts(s: Seq<char>)
    ensures
        is_service(s) <==> s == "spotify-connect"@ || s == "spotifyconnect"@ || s == "airplay"@ || s
            == "sftp-ssh"@ || s == "dial"@ || s == "homekit"@ || s == "sftp"@ || s == "ftp"@ || s
            == "ssh"@ || s == "http"@ || s == "https"@,
{
    let t = SERVICE_NAMES@;
    assert(t.len() == 11);
    assert(t[0]@ == "spotify-connect"@ && t[1]@ == "spotifyconnect"@ && t[2]@ == "airplay"@ && t[3]@
        == "sftp-ssh"@ && t[4]@ == "dial"@ && t[5]@ == "homekit"@ && t[6]@ == "sftp"@ && t[7]@
        == "ftp"@ && t[8]@ == "ssh"@ && t[9]@ == "http"@ && t[10]@ == "https"@);
    if is_service(s) {
        let i = choose|i: int| 0 <= i < t.len() && #[trigger] t[i]@ == s;
        assert(i == 0 || i == 1 || i == 2 || i == 3 || i == 4 || i == 5 || i == 6 || i == 7 || i == 8
            || i == 9 || i == 10);
    }
}

/// What a raw name stands for, by what was found in it: a name that is an
/// address or that of a service or that was made up is no name.
pub proof fn law_raw_names_decided(
    h: Seq<char>,
    group: Option<Seq<char>>,
    short: bool,
    streamer: bool,
    made: bool,
)
    ensures
        ({
            let r = decided(h, group, short, streamer, made);
            let address = text::starts(h, "["@) || text::starts(h, "fe80"@) || text::contains(
                h,
                "::"@,
            );
            let named = text::starts(h, "Google-TV-Streamer-"@);
            &&& address ==> r == Some("\u{2014}"@)
            &&& !address && group is Some ==> r == Some(text::trimmed(group->0))
            &&& !address && group is None && short ==> r == Some("Sonos Device"@)
            &&& !address && group is None && !short && (streamer || named) ==> r == Some(
                "Google TV Streamer"@,
            )
            &&& !address && group is None && !short && !streamer && !named && (made || text::lowered(h)
                == "airplay"@) ==> r == Some("\u{2014}"@)
            &&& !address && group is None && !short && !streamer && !named && !made && !is_service(
                text::lowered(h),
            ) ==> r is None
        }),
{
    law_services_are_no_hosts(text::lowered(h));
}

/// A name that is repeated in brackets behind itself is shown once.
pub proof fn law_repetition_left_out(name: Seq<char>, again: Seq<char>)
    requires
        name.len() > 0,
        !text::is_white(name[0]),
        !text::is_white(name.last()),
        text::ascii_lower(again) == text::ascii_lower(name),
        forall|i: int| 0 <= i < again.len() ==> again[i] != '(',
    ensures
        without_repetition(name + " ("@ + again + seq![')']) == name,
{
    reveal_strlit(" (");
    let mark = " ("@;
    let s = name + mark + again + seq![')'];
    let n = name.len() as int;
    assert(text::ascii_lower(again).len() == again.len());
    assert(text::ascii_lower(name).len() == name.len());
    assert(s.subrange(n, n + 2) =~= mark);
    assert(text::occurs_at(s, mark, n));
    assert forall|i: int| n < i implies !text::occurs_at(s, mark, i) by {
        if text::occurs_at(s, mark, i) {
            assert(s.subrange(i, i + 2)[1] == s[i + 1]);
            if i == n + 1 {
                assert(s.subrange(i, i + 2)[0] == s[i]);
            } else if i + 1 < s.len() - 1 {
                assert(s[i + 1] == again[i + 1 - n - 2]);
            }
        }
    }
    lemma_last_place(s, mark, s.len() as int, n);
    let none = Seq::<char>::empty();
    assert(s.take(n) =~= none + name + none);
    text::law_trimmed(none, name, none);
    assert(s.skip(n + 2) =~= again + seq![')']);
    assert((again + seq![')']).drop_last() =~= again);
    let (a, b) = (again, name);
    assert(text::ascii_lower(a)[0] == text::ascii_lower(b)[0]);
    assert(text::ascii_lower(a)[a.len() - 1] == text::ascii_lower(b)[a.len() - 1]);
    assert(!text::is_white(a[0]) && !text::is_white(a.last()));
    assert(none + again + none =~= again);
    text::law_trimmed(none, again, none);
}

proof fn lemma_last_place(s: Seq<char>, mark: Seq<char>, to: int, n: int)
    requires
        0 <= n <= to,
        text::occurs_at(s, mark, n),
        forall|i: int| n < i ==> !text::occurs_at(s, mark, i),
    ensures
        text::find_last(s, mark, to) == Some(n),
    decreases to - n,
{
    if to > n {
        lemma_last_place(s, mark, to - 1, n);
    }
}

} // verus!
