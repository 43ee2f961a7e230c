//! Names of Apple devices by their model codes.

use vstd::prelude::*;

use crate::text;
use crate::text::{drop_suffixes, same, starts_with, trim};

verus! {

/// Model codes and the devices they stand for.
pub const APPLE_MODELS: [(&'static str, &'static str); 170] = [
    ("iPhone17,1", "iPhone 16 Pro"),
    ("iPhone17,2", "iPhone 16 Pro Max"),
    ("iPhone17,3", "iPhone 16"),
    ("iPhone17,4", "iPhone 16 Plus"),
    ("iPhone16,3", "iPhone SE (4th gen)"),
    ("iPhone16,2", "iPhone 15 Pro Max"),
    ("iPhone16,1", "iPhone 15 Pro"),
    ("iPhone15,5", "iPhone 15 Plus"),
    ("iPhone15,4", "iPhone 15"),
    ("iPhone15,3", "iPhone 14 Pro Max"),
    ("iPhone15,2", "iPhone 14 Pro"),
    ("iPhone14,8", "iPhone 14 Plus"),
    ("iPhone14,7", "iPhone 14"),
    ("iPhone14,6", "iPhone SE (3rd gen)"),
    ("iPhone14,5", "iPhone 13"),
    ("iPhone14,4", "iPhone 13 mini"),
    ("iPhone14,3", "iPhone 13 Pro Max"),
    ("iPhone14,2", "iPhone 13 Pro"),
    ("iPhone13,4", "iPhone 12 Pro Max"),
    ("iPhone13,3", "iPhone 12 Pro"),
    ("iPhone13,2", "iPhone 12"),
    ("iPhone13,1", "iPhone 12 mini"),
    ("iPhone12,8", "iPhone SE (2nd gen)"),
    ("iPhone12,5", "iPhone 11 Pro Max"),
    ("iPhone12,3", "iPhone 11 Pro"),
    ("iPhone12,1", "iPhone 11"),
    ("iPhone11,2", "iPhone XS"),
    ("iPhone11,4", "iPhone XS Max"),
    ("iPhone11,6", "iPhone XS Max"),
    ("iPhone11,8", "iPhone XR"),
    ("iPhone10,3", "iPhone X"),
    ("iPhone10,6", "iPhone X"),
    ("iPhone10,1", "iPhone 8"),
    ("iPhone10,4", "iPhone 8"),
    ("iPhone10,2", "iPhone 8 Plus"),
    ("iPhone10,5", "iPhone 8 Plus"),
    ("iPhone9,1", "iPhone 7"),
    ("iPhone9,3", "iPhone 7"),
    ("iPhone9,2", "iPhone 7 Plus"),
    ("iPhone9,4", "iPhone 7 Plus"),
    ("iPhone8,1", "iPhone 6s"),
    ("iPhone8,2", "iPhone 6s Plus"),
    ("iPhone8,4", "iPhone SE (1st gen)"),
    ("iPhone7,2", "iPhone 6"),
    ("iPhone7,1", "iPhone 6 Plus"),
    ("iPad16,3", "iPad Pro 11\" (M4)"),
    ("iPad16,4", "iPad Pro 11\" (M4)"),
    ("iPad16,5", "iPad Pro 13\" (M4)"),
    ("iPad16,6", "iPad Pro 13\" (M4)"),
    ("iPad14,8", "iPad Air 11\" (M2)"),
    ("iPad14,9", "iPad Air 11\" (M2)"),
    ("iPad14,10", "iPad Air 13\" (M2)"),
    ("iPad14,11", "iPad Air 13\" (M2)"),
    ("iPad14,1", "iPad mini (6th gen)"),
    ("iPad14,2", "iPad mini (6th gen)"),
    ("iPad13,18", "iPad (10th gen)"),
    ("iPad13,19", "iPad (10th gen)"),
    ("iPad13,16", "iPad Air (5th gen)"),
    ("iPad13,17", "iPad Air (5th gen)"),
    ("iPad13,8", "iPad Pro 12.9\" (5th gen)"),
    ("iPad13,9", "iPad Pro 12.9\" (5th gen)"),
    ("iPad13,10", "iPad Pro 12.9\" (5th gen)"),
    ("iPad13,11", "iPad Pro 12.9\" (5th gen)"),
    ("iPad13,4", "iPad Pro 11\" (3rd gen)"),
    ("iPad13,5", "iPad Pro 11\" (3rd gen)"),
    ("iPad13,6", "iPad Pro 11\" (3rd gen)"),
    ("iPad13,7", "iPad Pro 11\" (3rd gen)"),
    ("iPad13,1", "iPad Air (4th gen)"),
    ("iPad13,2", "iPad Air (4th gen)"),
    ("iPad12,1", "iPad (9th gen)"),
    ("iPad12,2", "iPad (9th gen)"),
    ("iPad11,1", "iPad mini (5th gen)"),
    ("iPad11,2", "iPad mini (5th gen)"),
    ("iPad11,3", "iPad Air (3rd gen)"),
    ("iPad11,4", "iPad Air (3rd gen)"),
    ("iPad11,6", "iPad (8th gen)"),
    ("iPad11,7", "iPad (8th gen)"),
    ("iPad8,9", "iPad Pro 11\" (2nd gen)"),
    ("iPad8,10", "iPad Pro 11\" (2nd gen)"),
    ("iPad8,11", "iPad Pro 12.9\" (4th gen)"),
    ("iPad8,12", "iPad Pro 12.9\" (4th gen)"),
    ("iPad8,1", "iPad Pro 11\" (1st gen)"),
    ("iPad8,2", "iPad Pro 11\" (1st gen)"),
    ("iPad8,3", "iPad Pro 11\" (1st gen)"),
    ("iPad8,4", "iPad Pro 11\" (1st gen)"),
    ("iPad8,5", "iPad Pro 12.9\" (3rd gen)"),
    ("iPad8,6", "iPad Pro 12.9\" (3rd gen)"),
    ("iPad8,7", "iPad Pro 12.9\" (3rd gen)"),
    ("iPad8,8", "iPad Pro 12.9\" (3rd gen)"),
    ("iPad7,11", "iPad (7th gen)"),
    ("iPad7,12", "iPad (7th gen)"),
    ("MacBookPro18,4", "MacBook Pro 14\" (M1 Max)"),
    ("MacBookPro18,3", "MacBook Pro 16\" (M1 Pro)"),
    ("MacBookPro18,2", "MacBook Pro 16\" (M1 Max)"),
    ("MacBookPro18,1", "MacBook Pro 16\" (M1 Pro)"),
    ("MacBookPro17,1", "MacBook Pro 13\" (M1)"),
    ("MacBookAir10,1", "MacBook Air (M1)"),
    ("Mac14,2", "MacBook Air (M2)"),
    ("Mac14,7", "MacBook Pro 13\" (M2)"),
    ("Mac14,5", "MacBook Pro 14\" (M2 Pro)"),
    ("Mac14,9", "MacBook Pro 14\" (M2 Pro)"),
    ("Mac14,6", "MacBook Pro 16\" (M2 Max)"),
    ("Mac14,10", "MacBook Pro 16\" (M2 Max)"),
    ("Mac15,3", "MacBook Pro 14\" (M3)"),
    ("Mac15,12", "MacBook Air 13\" (M3)"),
    ("Mac15,13", "MacBook Air 15\" (M3)"),
    ("Mac15,6", "MacBook Pro 14\" (M3 Pro)"),
    ("Mac15,8", "MacBook Pro 14\" (M3 Pro)"),
    ("Mac15,10", "MacBook Pro 14\" (M3 Pro)"),
    ("Mac15,7", "MacBook Pro 16\" (M3 Max)"),
    ("Mac15,9", "MacBook Pro 16\" (M3 Max)"),
    ("Mac15,11", "MacBook Pro 16\" (M3 Max)"),
    ("Mac16,1", "MacBook Pro 14\" (M4)"),
    ("Mac16,5", "MacBook Pro 16\" (M4 Max)"),
    ("Mac16,6", "MacBook Pro 14\" (M4 Max)"),
    ("Mac16,7", "MacBook Pro 16\" (M4 Pro)"),
    ("Mac16,8", "MacBook Pro 14\" (M4 Pro)"),
    ("Mac16,12", "MacBook Air 13\" (M4)"),
    ("Mac16,13", "MacBook Air 15\" (M4)"),
    ("iMac21,1", "iMac 24\" (M1)"),
    ("iMac21,2", "iMac 24\" (M1)"),
    ("Mac14,3", "Mac mini (M2)"),
    ("Mac13,1", "Mac Studio (M1 Max)"),
    ("Mac13,2", "Mac Studio (M1 Ultra)"),
    ("Mac14,13", "Mac Studio (M2)"),
    ("Mac14,14", "Mac Studio (M2)"),
    ("Mac14,8", "Mac Pro (2023)"),
    ("Mac15,4", "iMac 24\" (M3)"),
    ("Mac15,5", "iMac 24\" (M3)"),
    ("Mac15,14", "Mac Studio (M3)"),
    ("Mac16,2", "iMac 24\" (M4)"),
    ("Mac16,3", "iMac 24\" (M4)"),
    ("Mac16,9", "Mac Studio (M4 Max)"),
    ("Mac16,10", "Mac mini (M4)"),
    ("Mac16,11", "Mac mini (M4 Pro)"),
    ("AppleTV6,2", "Apple TV 4K (1st gen)"),
    ("AppleTV11,1", "Apple TV 4K (2nd gen)"),
    ("AppleTV14,1", "Apple TV 4K (3rd gen)"),
    ("AppleTV5,3", "Apple TV (4th gen)"),
    ("AudioAccessory1,1", "HomePod"),
    ("AudioAccessory1,2", "HomePod"),
    ("AudioAccessory5,1", "HomePod mini"),
    ("AudioAccessory6,1", "HomePod (2nd gen)"),
    ("Watch6,1", "Apple Watch Series 6"),
    ("Watch6,2", "Apple Watch Series 6"),
    ("Watch6,3", "Apple Watch Series 6"),
    ("Watch6,4", "Apple Watch Series 6"),
    ("Watch6,6", "Apple Watch Series 8"),
    ("Watch6,7", "Apple Watch Series 8"),
    ("Watch6,8", "Apple Watch Series 8"),
    ("Watch6,9", "Apple Watch Series 8"),
    ("Watch6,10", "Apple Watch SE (2nd gen)"),
    ("Watch6,11", "Apple Watch SE (2nd gen)"),
    ("Watch6,12", "Apple Watch SE (2nd gen)"),
    ("Watch6,13", "Apple Watch SE (2nd gen)"),
    ("Watch6,14", "Apple Watch Ultra"),
    ("Watch6,15", "Apple Watch Ultra"),
    ("Watch6,16", "Apple Watch Ultra"),
    ("Watch6,17", "Apple Watch Ultra"),
    ("Watch6,18", "Apple Watch Ultra 2"),
    ("Watch6,19", "Apple Watch Ultra 2"),
    ("Watch7,1", "Apple Watch Series 9"),
    ("Watch7,2", "Apple Watch Series 9"),
    ("Watch7,3", "Apple Watch Series 9"),
    ("Watch7,4", "Apple Watch Series 9"),
    ("Watch7,5", "Apple Watch Series 10"),
    ("Watch7,6", "Apple Watch Series 10"),
    ("Watch7,7", "Apple Watch Series 10"),
    ("Watch7,8", "Apple Watch Series 10"),
    ("RealityDevice14,1", "Apple Vision Pro"),
];

/// Beginnings of model codes that are not listed, in the order in which they
/// are tried.
pub const APPLE_FAMILIES: [(&'static str, &'static str); 10] = [
    ("iPhone", "iPhone (unknown model)"),
    ("iPad", "iPad (unknown model)"),
    ("MacBook", "MacBook (unknown model)"),
    ("Mac16,", "Mac (unknown model)"),
    ("Mac", "Mac (unknown model)"),
    ("AppleTV", "Apple TV (unknown model)"),
    ("AudioAccessory", "HomePod (unknown model)"),
    ("Watch", "Apple Watch (unknown model)"),
    ("HomePod", "HomePod"),
    ("RealityDevice", "Apple Vision Pro (unknown)"),
];

/// The device that the list has for a code, from entry `from` on.
pub open spec fn listed_from(code: Seq<char>, from: int) -> Option<Seq<char>>
    decreases APPLE_MODELS@.len() - from,
{
    if from < 0 || from >= APPLE_MODELS@.len() {
        None
    } else if APPLE_MODELS@[from].0@ == code {
        Some(APPLE_MODELS@[from].1@)
    } else {
        listed_from(code, from + 1)
    }
}

/// The family that a code belongs to by its beginning, from entry `from` on.
pub open spec fn family_from(code: Seq<char>, from: int) -> Option<Seq<char>>
    decreases APPLE_FAMILIES@.len() - from,
{
    if from < 0 || from >= APPLE_FAMILIES@.len() {
        None
    } else if text::starts(code, APPLE_FAMILIES@[from].0@) {
        Some(APPLE_FAMILIES@[from].1@)
    } else {
        family_from(code, from + 1)
    }
}

/// The device that a code stands for. White space around the code and commas
/// behind it do not count.
pub open spec fn apple_model(code: Seq<char>) -> Option<Seq<char>> {
    let bare = text::without_suffixes(text::trimmed(code), ","@);
    match listed_from(bare, 0) {
        Some(m) => Some(m),
        None => family_from(bare, 0),
    }
}

/// The device that an Apple model code stands for.
pub fn resolve_apple_model(code: &str) -> (r: Option<&'static str>)
    ensures
        match r {
            Some(m) => apple_model(code@) == Some(m@),
            None => apple_model(code@) is None,
        },
{
    let inner = trim(code);
    let bare = drop_suffixes(inner.as_str(), ",");
    let mut i: usize = 0;
    while i < APPLE_MODELS.len()
        invariant
            i <= APPLE_MODELS@.len(),
            listed_from(bare@, 0) == listed_from(bare@, i as int),
            bare@ == text::without_suffixes(text::trimmed(code@), ","@),
        decreases APPLE_MODELS@.len() - i,
    {
        let entry = APPLE_MODELS[i];
        if same(entry.0, bare.as_str()) {
            return Some(entry.1);
        }
        i = i + 1;
    }
    let mut j: usize = 0;
    while j < APPLE_FAMILIES.len()
        invariant
            j <= APPLE_FAMILIES@.len(),
            listed_from(bare@, 0) is None,
            family_from(bare@, 0) == family_from(bare@, j as int),
            bare@ == text::without_suffixes(text::trimmed(code@), ","@),
        decreases APPLE_FAMILIES@.len() - j,
    {
        let entry = APPLE_FAMILIES[j];
        if starts_with(bare.as_str(), entry.0) {
            return Some(entry.1);
        }
        j = j + 1;
    }
    None
}

/// The family of a device that is not listed, by how its code begins.
pub proof fn law_families(code: Seq<char>, rest: Seq<char>)
    requires
        rest.len() > 0,
        !text::is_white(rest.last()),
        rest.last() != ',',
        listed_from(code, 0) is None,
    ensures
        code == "iPhone"@ + rest ==> apple_model(code) == Some("iPhone (unknown model)"@),
        code == "iPad"@ + rest ==> apple_model(code) == Some("iPad (unknown model)"@),
        code == "MacBook"@ + rest ==> apple_model(code) == Some("MacBook (unknown model)"@),
        code == "AppleTV"@ + rest ==> apple_model(code) == Some("Apple TV (unknown model)"@),
        code == "AudioAccessory"@ + rest ==> apple_model(code) == Some("HomePod (unknown model)"@),
        code == "Watch"@ + rest ==> apple_model(code) == Some("Apple Watch (unknown model)"@),
        code == "RealityDevice"@ + rest ==> apple_model(code) == Some("Apple Vision Pro (unknown)"@),
{
    reveal_strlit("iPhone");
    reveal_strlit("iPad");
    reveal_strlit("MacBook");
    reveal_strlit("Mac16,");
    reveal_strlit("Mac");
    reveal_strlit("AppleTV");
    reveal_strlit("AudioAccessory");
    reveal_strlit("Watch");
    reveal_strlit("HomePod");
    reveal_strlit("RealityDevice");
    reveal_strlit(",");
    let t = APPLE_FAMILIES@;
    assert(t.len() == 10);
    assert(t[0].0@ == "iPhone"@ && t[1].0@ == "iPad"@ && t[2].0@ == "MacBook"@ && t[3].0@
        == "Mac16,"@ && t[4].0@ == "Mac"@ && t[5].0@ == "AppleTV"@ && t[6].0@ == "AudioAccessory"@
        && t[7].0@ == "Watch"@ && t[8].0@ == "HomePod"@ && t[9].0@ == "RealityDevice"@);
    assert(t[0].1@ == "iPhone (unknown model)"@ && t[1].1@ == "iPad (unknown model)"@ && t[2].1@
        == "MacBook (unknown model)"@ && t[5].1@ == "Apple TV (unknown model)"@ && t[6].1@
        == "HomePod (unknown model)"@ && t[7].1@ == "Apple Watch (unknown model)"@ && t[9].1@
        == "Apple Vision Pro (unknown)"@);
    if code == "iPhone"@ + rest {
        lemma_family(code, "iPhone"@, rest, 0);
    } else if code == "iPad"@ + rest {
        lemma_family(code, "iPad"@, rest, 1);
    } else if code == "MacBook"@ + rest {
        lemma_family(code, "MacBook"@, rest, 2);
    } else if code == "AppleTV"@ + rest {
        lemma_family(code, "AppleTV"@, rest, 5);
    } else if code == "AudioAccessory"@ + rest {
        lemma_family(code, "AudioAccessory"@, rest, 6);
    } else if code == "Watch"@ + rest {
        lemma_family(code, "Watch"@, rest, 7);
    } else if code == "RealityDevice"@ + rest {
        lemma_family(code, "RealityDevice"@, rest, 9);
    }
}

proof fn lemma_family(code: Seq<char>, head: Seq<char>, rest: Seq<char>, k: int)
    requires
        code == head + rest,
        0 <= k < APPLE_FAMILIES@.len(),
        head == APPLE_FAMILIES@[k].0@,
        head.len() > 2,
        !text::is_white(head[0]),
        rest.len() > 0,
        !text::is_white(rest.last()),
        rest.last() != ',',
        listed_from(code, 0) is None,
        forall|i: int|
            0 <= i < k ==> {
                let other = (#[trigger] APPLE_FAMILIES@[i]).0@;
                other.len() > 2 && (other[0] != head[0] || other[1] != head[1] || other[2] != head[2])
            },
    ensures
        apple_model(code) == Some(APPLE_FAMILIES@[k].1@),
{
    reveal_strlit(",");
    let none = Seq::<char>::empty();
    assert(none + code + none =~= code);
    assert(code[0] == head[0] && code[1] == head[1] && code[2] == head[2]);
    assert(code.last() == rest.last());
    text::law_trimmed(none, code, none);
    if text::ends(code, ","@) {
        assert(code.subrange(code.len() - 1, code.len() as int)[0] == code.last());
    }
    assert(text::without_suffixes(code, ","@) == code);
    assert(code.subrange(0, head.len() as int) =~= head);
    assert forall|i: int| 0 <= i < k implies !text::starts(code, (#[trigger] APPLE_FAMILIES@[i]).0@) by {
        let other = APPLE_FAMILIES@[i].0@;
        if text::starts(code, other) {
            assert(code.subrange(0, other.len() as int)[0] == code[0]);
            assert(code.subrange(0, other.len() as int)[1] == code[1]);
            assert(code.subrange(0, other.len() as int)[2] == code[2]);
        }
    }
    lemma_family_from(code, 0, k);
}

proof fn lemma_family_from(code: Seq<char>, from: int, k: int)
    requires
        0 <= from <= k < APPLE_FAMILIES@.len(),
        text::starts(code, APPLE_FAMILIES@[k].0@),
        forall|i: int|
            from <= i < k ==> !text::starts(code, (#[trigger] APPLE_FAMILIES@[i]).0@),
    ensures
        family_from(code, from) == Some(APPLE_FAMILIES@[k].1@),
    decreases k - from,
{
    if from < k {
        assert(!text::starts(code, APPLE_FAMILIES@[from].0@));
        lemma_family_from(code, from + 1, k);
    }
}

} // verus!
