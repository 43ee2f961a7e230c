//! What the web pages of devices tell of them.

use vstd::prelude::*;
use vstd::string::*;

use crate::category;
use crate::device::{DetailsView, DeviceDetails};
use crate::net;
use crate::net::{IpAddr, ip_string};
use crate::ssdp;
use crate::ssdp::extract_xml_tag;
use crate::text;
use crate::text::{
    chars_of, copy_text, cut, dec_text, find_chars, line_texts, lower_ascii, part, starts_with,
    trim,
};

verus! {

/// The content of the first title of a page, without white space around it;
/// nothing where nothing is left. Tags count in upper and in lower case.
pub open spec fn html_title(html: Seq<char>) -> Option<Seq<char>> {
    let lower = text::ascii_lower(html);
    match text::find_from(lower, "<title>"@, 0) {
        None => None,
        Some(s) => match text::find_from(lower, "</title>"@, s + 7) {
            None => None,
            Some(e) => {
                let title = text::trimmed(html.subrange(s + 7, e));
                if title.len() > 0 {
                    Some(title)
                } else {
                    None
                }
            },
        },
    }
}

/// The content of the first title of a page.
pub fn extract_html_title(html: &str) -> (r: Option<String>)
    ensures
        text::text_view(r) == html_title(html@),
{
    let c = chars_of(html);
    let lower = lower_ascii(html);
    let l = chars_of(lower.as_str());
    let o = chars_of("<title>");
    let q = chars_of("</title>");
    let total: usize = c.len();
    proof {
        reveal_strlit("<title>");
        text::lemma_find_from(lower@, o@, 0);
    }
    match find_chars(l.as_slice(), o.as_slice(), 0) {
        None => None,
        Some(s) => {
            assert(s + 7 <= total);
            let a: usize = s + 7;
            proof {
                text::lemma_find_from(lower@, q@, a as int);
            }
            match find_chars(l.as_slice(), q.as_slice(), a) {
                None => None,
                Some(e) => {
                    let title = trim(part(c.as_slice(), a, e).as_str());
                    if title.as_str().unicode_len() > 0 {
                        Some(title)
                    } else {
                        None
                    }
                },
            }
        },
    }
}

/// The number of bytes of a page that are looked at.
pub const PREVIEW: usize = 8192;

/// The beginning of a page that is looked at.
pub open spec fn preview(body: Seq<char>) -> Seq<char> {
    if text::byte_len(body) > PREVIEW {
        text::first_bytes(body, PREVIEW as int)
    } else {
        body
    }
}

/// The beginning of a page can be told apart.
pub open spec fn previewable(body: Seq<char>) -> bool {
    text::byte_len(body) > PREVIEW ==> text::cut_ok(body, PREVIEW as int)
}

/// The beginning of a page that is looked at.
pub fn body_preview(body: &str) -> (r: String)
    requires
        previewable(body@),
    ensures
        r@ == preview(body@),
{
    if body.as_bytes().len() > PREVIEW {
        cut(body, PREVIEW)
    } else {
        body.to_owned()
    }
}

/// The headers of an answer that are looked at, in text.
pub fn header_text(server: &str, content_type: &str) -> (r: String)
    ensures
        r@ == "Server: "@ + server@ + "\nContent-Type: "@ + content_type@,
{
    let mut r = "Server: ".to_owned();
    r.append(server);
    r.append("\nContent-Type: ");
    r.append(content_type);
    r
}

/// The first line that begins as the header of the server does, from line
/// `from` on.
pub open spec fn server_line(lines: Seq<Seq<char>>, from: int) -> Option<Seq<char>>
    decreases lines.len() - from,
{
    if from < 0 || from >= lines.len() {
        None
    } else if text::starts(lines[from], "Server: "@) {
        Some(lines[from])
    } else {
        server_line(lines, from + 1)
    }
}

/// The server that headers name.
pub open spec fn server_of(headers: Seq<char>) -> Option<Seq<char>> {
    match server_line(text::lines(headers), 0) {
        Some(l) if text::trimmed(l.skip(8)).len() > 0 => Some(text::trimmed(l.skip(8))),
        _ => None,
    }
}

/// The server that headers name.
pub fn find_server(headers: &str) -> (r: Option<String>)
    ensures
        text::text_view(r) == server_of(headers@),
{
    let l = line_texts(headers);
    let ghost all = text::lines(headers@);
    let mut i: usize = 0;
    while i < l.len()
        invariant
            i <= l@.len(),
            all == text::texts(l@),
            all == text::lines(headers@),
            server_line(all, 0) == server_line(all, i as int),
        decreases l@.len() - i,
    {
        assert(all[i as int] == l@[i as int]@);
        if starts_with(l[i].as_str(), "Server: ") {
            proof {
                reveal_strlit("Server: ");
            }
            let c = chars_of(l[i].as_str());
            let rest = part(c.as_slice(), 8, c.len());
            assert(rest@ =~= all[i as int].skip(8));
            let name = trim(rest.as_str());
            return if name.as_str().unicode_len() > 0 {
                Some(name)
            } else {
                None
            };
        }
        i = i + 1;
    }
    None
}

/// A device is asked for its pages, unless they told something before.
pub open spec fn unasked(d: Option<DetailsView>) -> bool {
    match d {
        Some(m) => m.property("http_server"@) is None && m.property("html_title"@) is None
            && m.property("friendly_name"@) is None,
        None => true,
    }
}

/// Whether a device is asked for its pages.
pub fn needs_banner(d: Option<&DeviceDetails>) -> (r: bool)
    ensures
        r == unasked(category::details_view(d)),
{
    match d {
        Some(m) => m.get("http_server").is_none() && m.get("html_title").is_none() && m.get(
            "friendly_name",
        ).is_none(),
        None => true,
    }
}

/// The friendly name, the model and the maker that a description gives.
pub fn parse_xml_description(xml: &str) -> (r: (Option<String>, Option<String>, Option<String>))
    ensures
        text::text_view(r.0) == ssdp::xml_tag(xml@, "friendlyName"@),
        text::text_view(r.1) == ssdp::xml_tag(xml@, "modelName"@),
        text::text_view(r.2) == ssdp::xml_tag(xml@, "manufacturer"@),
{
    (
        extract_xml_tag(xml, "friendlyName"),
        extract_xml_tag(xml, "modelName"),
        extract_xml_tag(xml, "manufacturer"),
    )
}

/// With a property where it has a value and there was none.
pub open spec fn with_found(
    d: DetailsView,
    key: Seq<char>,
    value: Option<Seq<char>>,
) -> DetailsView {
    match value {
        Some(v) => d.with_new(key, v),
        None => d,
    }
}

/// What is known of a device once its description was read.
pub open spec fn with_description(d: DetailsView, xml: Seq<char>) -> DetailsView {
    with_found(
        with_found(
            with_found(d, "friendly_name"@, ssdp::xml_tag(xml, "friendlyName"@)),
            "model"@,
            ssdp::xml_tag(xml, "modelName"@),
        ),
        "manufacturer"@,
        ssdp::xml_tag(xml, "manufacturer"@),
    )
}

fn set_found(d: &mut DeviceDetails, key: &str, value: Option<String>)
    ensures
        final(d)@ == with_found(old(d)@, key@, text::text_view(value)),
{
    match value {
        Some(v) => d.set_new(key, v.as_str()),
        None => {},
    }
}

/// Notes what the description of a device tells.
pub fn note_description(d: &mut DeviceDetails, xml: &str)
    ensures
        final(d)@ == with_description(old(d)@, xml@),
{
    let (friendly, model, maker) = parse_xml_description(xml);
    set_found(d, "friendly_name", friendly);
    set_found(d, "model", model);
    set_found(d, "manufacturer", maker);
}

/// What is known of a device once its first page was read.
pub open spec fn with_page(d: DetailsView, headers: Seq<char>, body: Seq<char>) -> DetailsView {
    with_found(
        with_found(d, "http_server"@, server_of(headers)),
        "html_title"@,
        html_title(body),
    )
}

/// A page tells something.
pub open spec fn page_tells(headers: Seq<char>, body: Seq<char>) -> bool {
    server_of(headers) is Some || html_title(body) is Some
}

/// Notes what the first page of a device tells, and gives its title.
pub fn note_page(d: &mut DeviceDetails, headers: &str, body: &str) -> (r: Option<String>)
    ensures
        final(d)@ == with_page(old(d)@, headers@, body@),
        text::text_view(r) == html_title(body@),
{
    let server = find_server(headers);
    set_found(d, "http_server", server);
    let title = extract_html_title(body);
    let copy = copy_text(&title);
    set_found(d, "html_title", copy);
    title
}

/// Where the description of a device is looked for.
pub fn description_url(ip: &IpAddr, port: u16) -> (r: String)
    ensures
        r@ == "http://"@ + net::ip_text(*ip) + ":"@ + text::dec(port as nat)
            + "/xml/device_description.xml"@,
{
    let mut r = "http://".to_owned();
    r.append(ip_string(ip).as_str());
    r.append(":");
    r.append(dec_text(port as u64).as_str());
    r.append("/xml/device_description.xml");
    r
}

/// Where the first page of a device is looked for.
pub fn root_url(ip: &IpAddr, port: u16) -> (r: String)
    ensures
        r@ == "http://"@ + net::ip_text(*ip) + ":"@ + text::dec(port as nat) + "/"@,
{
    let mut r = "http://".to_owned();
    r.append(ip_string(ip).as_str());
    r.append(":");
    r.append(dec_text(port as u64).as_str());
    r.append("/");
    r
}

/// The next page that a device is asked for.
#[derive(Clone, Copy, PartialEq, Eq, Structural, Debug)]
pub enum PageStep {
    /// The description of a loudspeaker.
    Speaker,
    /// The description at a port.
    Description(u16),
    /// The first page at a port.
    Root(u16),
    /// None.
    Done,
}

/// What is asked for after a page that came, or did not: descriptions first,
/// then the first page at the common ports, until one comes.
pub open spec fn next_step(step: PageStep, came: bool) -> PageStep {
    match step {
        PageStep::Speaker => PageStep::Description(80),
        PageStep::Description(p) => PageStep::Root(p),
        PageStep::Root(p) => if !came && p == 80 {
            PageStep::Description(8080)
        } else {
            PageStep::Done
        },
        PageStep::Done => PageStep::Done,
    }
}

/// What is asked for after a page that came, or did not.
pub fn next_page(step: PageStep, came: bool) -> (r: PageStep)
    ensures
        r == next_step(step, came),
{
    match step {
        PageStep::Speaker => PageStep::Description(80),
        PageStep::Description(p) => PageStep::Root(p),
        PageStep::Root(p) => if !came && p == 80 {
            PageStep::Description(8080)
        } else {
            PageStep::Done
        },
        PageStep::Done => PageStep::Done,
    }
}

/// Whatever comes, the pages of a device are at an end after five.
pub proof fn law_pages_end(a: bool, b: bool, c: bool, d: bool, e: bool)
    ensures
        next_step(
            next_step(
                next_step(next_step(next_step(PageStep::Speaker, a), b), c),
                d,
            ),
            e,
        ) == PageStep::Done,
{
}

/// Progress is shown after every eighth device and after the last.
pub fn shows_progress(done: usize, total: usize) -> (r: bool)
    ensures
        r == (done % 8 == 0 || done == total),
{
    done % 8 == 0 || done == total
}

/// What is shown of the progress.
pub fn banner_status(done: usize, total: usize) -> (r: String)
    ensures
        r@ == "HTTP banner scan ("@ + text::dec(done as nat) + "/"@ + text::dec(total as nat) + ")..."@,
{
    let mut r = "HTTP banner scan (".to_owned();
    r.append(dec_text(done as u64).as_str());
    r.append("/");
    r.append(dec_text(total as u64).as_str());
    r.append(")...");
    r
}

/// The title of a page is what stands between the first tag that opens it and
/// the tag that closes it behind that, in any letters, without the white space
/// around it.
#[verifier::rlimit(40)]
pub proof fn law_title_read(
    before: Seq<char>,
    open: Seq<char>,
    left: Seq<char>,
    title: Seq<char>,
    right: Seq<char>,
    close: Seq<char>,
    after: Seq<char>,
)
    requires
        text::ascii_lower(open) == "<title>"@,
        text::ascii_lower(close) == "</title>"@,
        forall|i: int| 0 <= i < before.len() ==> before[i] != '<',
        forall|i: int| 0 <= i < title.len() ==> title[i] != '<',
        forall|i: int| 0 <= i < left.len() ==> text::is_white(#[trigger] left[i]),
        forall|i: int| 0 <= i < right.len() ==> text::is_white(#[trigger] right[i]),
        title.len() > 0,
        !text::is_white(title[0]),
        !text::is_white(title.last()),
    ensures
        html_title(before + open + (left + title + right) + close + after) == Some(title),
{
    reveal_strlit("<title>");
    reveal_strlit("</title>");
    let middle = left + title + right;
    let html = before + open + middle + close + after;
    let lower = text::ascii_lower(html);
    assert(text::ascii_lower(open).len() == open.len());
    assert(text::ascii_lower(close).len() == close.len());
    let n = before.len() as int;
    let a = n + 7;
    let e = a + middle.len();
    assert forall|i: int| 0 <= i < middle.len() implies middle[i] != '<' by {
        if i < left.len() {
            assert(middle[i] == left[i]);
        } else if i < left.len() + title.len() {
            assert(middle[i] == title[i - left.len()]);
        } else {
            assert(middle[i] == right[i - left.len() - title.len()]);
        }
    }
    assert(lower.subrange(n, n + 7) =~= "<title>"@) by {
        assert forall|i: int| 0 <= i < 7 implies lower[n + i] == "<title>"@[i] by {
            assert(html[n + i] == open[i]);
            assert(text::ascii_lower(open)[i] == "<title>"@[i]);
        }
    }
    text::lemma_find_from(lower, "<title>"@, 0);
    assert(text::occurs_at(lower, "<title>"@, n));
    let s = text::find_from(lower, "<title>"@, 0)->0;
    if s < n {
        assert(lower.subrange(s, s + 7)[0] == lower[s]);
        assert(html[s] == before[s]);
    }
    assert(lower.subrange(e, e + 8) =~= "</title>"@) by {
        assert forall|i: int| 0 <= i < 8 implies lower[e + i] == "</title>"@[i] by {
            assert(html[e + i] == close[i]);
            assert(text::ascii_lower(close)[i] == "</title>"@[i]);
        }
    }
    text::lemma_find_from(lower, "</title>"@, a);
    assert(text::occurs_at(lower, "</title>"@, e));
    let f = text::find_from(lower, "</title>"@, a)->0;
    if f < e {
        assert(lower.subrange(f, f + 8)[0] == lower[f]);
        assert(html[f] == middle[f - a]);
    }
    assert(html.subrange(a, e) =~= middle);
    text::law_trimmed(left, title, right);
}

/// The server of a page is named by the first header of that name.
pub proof fn law_server_read(before: Seq<char>, server: Seq<char>, after: Seq<char>)
    requires
        before.len() > 0 ==> before.last() == '\n',
        forall|i: int|
            0 <= i < text::lines(before).len() ==> !text::starts(
                #[trigger] text::lines(before)[i],
                "Server: "@,
            ),
        server.len() > 0,
        !text::is_white(server[0]),
        !text::is_white(server.last()),
        forall|i: int| 0 <= i < server.len() ==> server[i] != '\n',
    ensures
        server_of(before + ("Server: "@ + server + seq!['\r', '\n'] + after)) == Some(server),
{
    reveal_strlit("Server: ");
    let line = "Server: "@ + server;
    let tail = line + seq!['\r', '\n'] + after;
    text::law_lines_of_parts(before, tail);
    assert forall|i: int| 0 <= i < line.len() implies line[i] != '\n' by {
        if i >= 8 {
            assert(line[i] == server[i - 8]);
        }
    }
    text::law_first_line(line, after);
    let all = text::lines(before + tail);
    let k = text::lines(before).len() as int;
    assert(all[k] == line);
    assert(line.subrange(0, 8) =~= "Server: "@);
    assert(text::starts(line, "Server: "@));
    assert forall|i: int| 0 <= i < k implies !text::starts(#[trigger] all[i], "Server: "@) by {
        assert(all[i] == text::lines(before)[i]);
    }
    lemma_server_line(all, 0, k);
    let none = Seq::<char>::empty();
    assert(line.skip(8) =~= none + server + none);
    text::law_trimmed(none, server, none);
}

proof fn lemma_server_line(lines: Seq<Seq<char>>, from: int, k: int)
    requires
        0 <= from <= k < lines.len(),
        forall|i: int| from <= i < k ==> !text::starts(#[trigger] lines[i], "Server: "@),
        text::starts(lines[k], "Server: "@),
    ensures
        server_line(lines, from) == Some(lines[k]),
    decreases k - from,
{
    if from < k {
        assert(!text::starts(lines[from], "Server: "@));
        lemma_server_line(lines, from + 1, k);
    }
}

/// What a page tells is kept where nothing was known, and what was known stays.
pub proof fn law_page_recorded(d: DetailsView, headers: Seq<char>, body: Seq<char>, key: Seq<char>)
    ensures
        ({
            let e = with_page(d, headers, body);
            &&& d.property("http_server"@) is None ==> e.property("http_server"@) == server_of(headers)
            &&& d.property("html_title"@) is None ==> e.property("html_title"@) == html_title(body)
            &&& d.property(key) is Some ==> e.property(key) == d.property(key)
            &&& key != "http_server"@ && key != "html_title"@ ==> e.property(key) == d.property(key)
        }),
{
    reveal_strlit("http_server");
    reveal_strlit("html_title");
    assert("http_server"@.len() != "html_title"@.len());
}

/// What a description tells is kept where nothing was known.
pub proof fn law_page_description_recorded(d: DetailsView, xml: Seq<char>, key: Seq<char>)
    ensures
        ({
            let e = with_description(d, xml);
            &&& d.property("friendly_name"@) is None ==> e.property("friendly_name"@)
                == ssdp::xml_tag(xml, "friendlyName"@)
            &&& d.property("model"@) is None ==> e.property("model"@) == ssdp::xml_tag(
                xml,
                "modelName"@,
            )
            &&& d.property("manufacturer"@) is None ==> e.property("manufacturer"@) == ssdp::xml_tag(
                xml,
                "manufacturer"@,
            )
            &&& d.property(key) is Some ==> e.property(key) == d.property(key)
        }),
{
    reveal_strlit("friendly_name");
    reveal_strlit("model");
    reveal_strlit("manufacturer");
    assert("friendly_name"@.len() == 13 && "model"@.len() == 5 && "manufacturer"@.len() == 12);
}

/// The pages of a device are asked for in this order: the description of a
/// loudspeaker, the description and the first page at port 80, and those at
/// port 8080 where port 80 has no first page.
pub proof fn law_pages_in_order(came: bool)
    ensures
        next_step(PageStep::Speaker, came) == PageStep::Description(80),
        next_step(PageStep::Description(80), came) == PageStep::Root(80),
        next_step(PageStep::Root(80), false) == PageStep::Description(8080),
        next_step(PageStep::Root(80), true) == PageStep::Done,
        next_step(PageStep::Description(8080), came) == PageStep::Root(8080),
        next_step(PageStep::Root(8080), came) == PageStep::Done,
{
}

} // verus!
