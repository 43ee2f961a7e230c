//! Where an address is in the world.

use vstd::prelude::*;
use vstd::string::*;
use vstd::utf8::*;

use crate::net;
use crate::net::{IpAddr, ip_string};
use crate::text;
use crate::text::same;

verus! {

/// Where an address is, and whose it is.
pub struct GeoInfo {
    pub country_code: String,
    pub city: Option<String>,
    pub region: Option<String>,
    pub org: String,
}

/// Where an address is, with texts as character sequences.
pub struct GeoView {
    pub country_code: Seq<char>,
    pub city: Option<Seq<char>>,
    pub region: Option<Seq<char>>,
    pub org: Seq<char>,
}

impl View for GeoInfo {
    type V = GeoView;

    open spec fn view(&self) -> GeoView {
        GeoView {
            country_code: self.country_code@,
            city: text::text_view(self.city),
            region: text::text_view(self.region),
            org: self.org@,
        }
    }
}

/// The request that asks where an address is.
pub open spec fn geo_request(ip: IpAddr) -> Seq<char> {
    "http://ip-api.com/json/"@ + net::ip_text(ip) + "?fields=status,countryCode,region,city,org"@
}

/// The request that asks where an address is.
pub fn geo_url(ip: &IpAddr) -> (r: String)
    ensures
        r@ == geo_request(*ip),
{
    let mut r = "http://ip-api.com/json/".to_owned();
    r.append(ip_string(ip).as_str());
    r.append("?fields=status,countryCode,region,city,org");
    r
}

/// What a reply to the request says.
pub struct GeoReply {
    pub status: String,
    pub country_code: Option<String>,
    pub region: Option<String>,
    pub city: Option<String>,
    pub org: Option<String>,
}

/// `o`, or `other` where it is none.
pub open spec fn or_text(o: Option<Seq<char>>, other: Seq<char>) -> Seq<char> {
    match o {
        Some(s) => s,
        None => other,
    }
}

/// The place that a reply gives; none where the request did not succeed.
pub open spec fn geo_place(reply: GeoReply) -> Option<GeoView> {
    if reply.status@ == "success"@ {
        Some(
            GeoView {
                country_code: or_text(text::text_view(reply.country_code), "??"@),
                city: text::text_view(reply.city),
                region: text::text_view(reply.region),
                org: or_text(text::text_view(reply.org), "Unknown"@),
            },
        )
    } else {
        None
    }
}

/// The place that a reply gives.
pub fn geo_from_reply(reply: GeoReply) -> (r: Option<GeoInfo>)
    ensures
        match r {
            Some(g) => geo_place(reply) == Some(g@),
            None => geo_place(reply) is None,
        },
{
    if same(reply.status.as_str(), "success") {
        let country_code = match reply.country_code {
            Some(c) => c,
            None => "??".to_owned(),
        };
        let org = match reply.org {
            Some(o) => o,
            None => "Unknown".to_owned(),
        };
        Some(GeoInfo { country_code, city: reply.city, region: reply.region, org })
    } else {
        None
    }
}

/// The first fifteen bytes of the name of a city, as far as they are text.
pub open spec fn short_city(city: Seq<char>) -> Seq<char> {
    if text::byte_len(city) > 15 {
        decode_utf8(encode_utf8(city).take(15))
    } else {
        city
    }
}

/// The name of a city can be cut behind its fifteenth byte, if it is longer.
pub open spec fn city_readable(geo: GeoView) -> bool {
    geo.city matches Some(city) ==> text::byte_len(city) > 15 ==> text::cut_ok(city, 15)
}

/// A short tag for a place: city and region, city and country, or country.
pub open spec fn geo_tag(geo: GeoView) -> Seq<char> {
    match geo.city {
        Some(city) if city.len() > 0 => "["@ + short_city(city) + ", "@ + or_text(
            geo.region,
            geo.country_code,
        ) + "]"@,
        _ => "["@ + geo.country_code + "]"@,
    }
}

/// Whether the tag of a place can be written.
pub fn is_city_readable(geo: &GeoInfo) -> (r: bool)
    ensures
        r == city_readable(geo@),
{
    match &geo.city {
        Some(city) => city.as_str().as_bytes().len() <= 15 || city.as_str().is_char_boundary(15),
        None => true,
    }
}

/// A short tag for a place.
pub fn format_geo_tag(geo: &GeoInfo) -> (r: String)
    requires
        city_readable(geo@),
    ensures
        r@ == geo_tag(geo@),
{
    let mut r = "[".to_owned();
    if let Some(city) = &geo.city {
        if !city.as_str().is_empty() {
            let text = city.as_str();
            if text.as_bytes().len() > 15 {
                let (head, _) = text.split_at(15);
                proof {
                    encode_utf8_decode_utf8(head@);
                    assert(encode_utf8(text@).take(15) =~= encode_utf8(text@).subrange(0, 15));
                }
                r.append(head);
            } else {
                r.append(text);
            }
            r.append(", ");
            match &geo.region {
                Some(region) => r.append(region.as_str()),
                None => r.append(geo.country_code.as_str()),
            }
            r.append("]");
            return r;
        }
    }
    r.append(geo.country_code.as_str());
    r.append("]");
    r
}

/// A place reads as its city and region in square brackets; the country stands
/// in for a region that is not known, and alone where the city is not. Of a
/// city the first fifteen bytes are shown.
pub proof fn law_place_reads(country: Seq<char>, city: Seq<char>, region: Seq<char>, org: Seq<char>)
    requires
        city.len() > 0,
    ensures
        encode_utf8(city).len() <= 15 ==> geo_tag(
            GeoView { country_code: country, city: Some(city), region: Some(region), org },
        ) == "["@ + city + ", "@ + region + "]"@,
        encode_utf8(city).len() <= 15 ==> geo_tag(
            GeoView { country_code: country, city: Some(city), region: None, org },
        ) == "["@ + city + ", "@ + country + "]"@,
        geo_tag(GeoView { country_code: country, city: None, region: Some(region), org }) == "["@
            + country + "]"@,
        geo_tag(
            GeoView {
                country_code: country,
                city: Some(Seq::empty()),
                region: Some(region),
                org,
            },
        ) == "["@ + country + "]"@,
{
}

/// Of a city of more than fifteen bytes, whose first characters make fifteen,
/// these characters are shown.
pub proof fn law_long_city_cut(head: Seq<char>, rest: Seq<char>)
    requires
        encode_utf8(head).len() == 15,
        rest.len() > 0,
    ensures
        short_city(head + rest) == head,
{
    text::lemma_encode_concat(head, rest);
    text::lemma_byte_len(rest);
    encode_utf8_decode_utf8(head);
    assert(encode_utf8(head + rest).take(15) =~= encode_utf8(head));
}

/// A reply that tells of success gives the place that it names; what it leaves
/// out reads as unknown. Any other reply gives none.
pub proof fn law_reply_gives_place(reply: GeoReply)
    ensures
        geo_place(reply) is Some <==> reply.status@ == "success"@,
        reply.status@ == "success"@ ==> {
            let g = geo_place(reply)->0;
            &&& reply.country_code is Some ==> g.country_code == reply.country_code->0@
            &&& reply.country_code is None ==> g.country_code == "??"@
            &&& reply.city is Some ==> g.city == Some(reply.city->0@)
            &&& reply.city is None ==> g.city is None
            &&& reply.region is Some ==> g.region == Some(reply.region->0@)
            &&& reply.region is None ==> g.region is None
            &&& reply.org is Some ==> g.org == reply.org->0@
            &&& reply.org is None ==> g.org == "Unknown"@
        },
{
}

} // verus!
