//! Text as sequences of characters: comparing, searching, trimming, splitting,
//! joining, and the decimal and hexadecimal forms of numbers.

use vstd::prelude::*;
use vstd::string::*;
use vstd::utf8::*;

verus! {

/// `String::push`: appends one character to the text.
pub assume_specification[ String::push ](s: &mut String, c: char)
    ensures
        final(s)@ == old(s)@.push(c),
;

/// The characters of `s`, in order.
pub fn chars_of(s: &str) -> (r: Vec<char>)
    ensures
        r@ == s@,
{
    let mut r: Vec<char> = Vec::new();
    for c in it: s.chars()
        invariant
            r@ == it.seq().take(it.index()),
            it.seq() == s@,
    {
        r.push(c);
    }
    r
}

/// The text made of the characters `v`.
pub fn string_of(v: &[char]) -> (r: String)
    ensures
        r@ == v@,
{
    let mut r = String::new();
    let n: usize = v.len();
    for i in 0..n
        invariant
            n == v@.len(),
            r@ == v@.take(i as int),
    {
        r.push(v[i]);
    }
    r
}

/// Whether two texts are the same.
pub fn same(a: &str, b: &str) -> (r: bool)
    ensures
        r == (a@ == b@),
{
    broadcast use vstd::utf8::encode_utf8_decode_utf8;

    let x = a.as_bytes();
    let y = b.as_bytes();
    assert(a@ == vstd::utf8::decode_utf8(x@));
    assert(b@ == vstd::utf8::decode_utf8(y@));
    if x.len() != y.len() {
        return false;
    }
    let n: usize = x.len();
    for i in 0..n
        invariant
            n == x@.len(),
            n == y@.len(),
            x@.take(i as int) == y@.take(i as int),
            x@ == a.spec_bytes(),
            y@ == b.spec_bytes(),
    {
        if x[i] != y[i] {
            return false;
        }
        assert(x@.take(i + 1) == x@.take(i as int).push(x@[i as int]));
        assert(y@.take(i + 1) == y@.take(i as int).push(y@[i as int]));
    }
    assert(x@.take(n as int) == x@);
    assert(y@.take(n as int) == y@);
    true
}

/// An owned copy of an optional text.
pub fn copy_text(o: &Option<String>) -> (r: Option<String>)
    ensures
        text_view(r) == text_view(*o),
{
    match o {
        Some(s) => Some(s.as_str().to_owned()),
        None => None,
    }
}

/// The characters of an optional text.
pub open spec fn text_view(o: Option<String>) -> Option<Seq<char>> {
    match o {
        Some(s) => Some(s@),
        None => None,
    }
}

/// The characters of each of several texts.
pub open spec fn texts(v: Seq<String>) -> Seq<Seq<char>> {
    Seq::new(v.len(), |i: int| v[i]@)
}

// ---------------------------------------------------------------------------
// Searching
// ---------------------------------------------------------------------------

/// `n` stands in `h` at position `i`.
pub open spec fn occurs_at(h: Seq<char>, n: Seq<char>, i: int) -> bool {
    0 <= i && i + n.len() <= h.len() && h.subrange(i, i + n.len()) == n
}

/// Some part of `h` is `n`.
pub open spec fn contains(h: Seq<char>, n: Seq<char>) -> bool {
    exists|i: int| occurs_at(h, n, i)
}

/// The first position from `from` on at which `n` stands in `h`.
pub open spec fn find_from(h: Seq<char>, n: Seq<char>, from: int) -> Option<int>
    decreases h.len() - from + 1,
{
    if from < 0 || from + n.len() > h.len() {
        None
    } else if occurs_at(h, n, from) {
        Some(from)
    } else {
        find_from(h, n, from + 1)
    }
}

/// What `find_from` gives is the least position at which `n` stands.
pub proof fn lemma_find_from(h: Seq<char>, n: Seq<char>, from: int)
    requires
        from >= 0,
    ensures
        match find_from(h, n, from) {
            Some(i) => from <= i && occurs_at(h, n, i) && forall|j: int|
                from <= j < i ==> !occurs_at(h, n, j),
            None => forall|j: int| from <= j ==> !occurs_at(h, n, j),
        },
    decreases h.len() - from + 1,
{
    if from + n.len() > h.len() {
    } else if occurs_at(h, n, from) {
    } else {
        lemma_find_from(h, n, from + 1);
    }
}

/// Whether `n` stands in `h` at position `i`.
pub fn stands_at(h: &[char], n: &[char], i: usize) -> (r: bool)
    ensures
        r == occurs_at(h@, n@, i as int),
{
    if i > h.len() || n.len() > h.len() - i {
        return false;
    }
    let m: usize = n.len();
    for k in 0..m
        invariant
            m == n@.len(),
            i + m <= h.len(),
            forall|j: int| 0 <= j < k ==> h@[i + j] == n@[j],
    {
        if h[i + k] != n[k] {
            assert(h@.subrange(i as int, i + n@.len())[k as int] == h@[i + k]);
            return false;
        }
    }
    assert(h@.subrange(i as int, i + n@.len()) =~= n@);
    true
}

/// The first position from `from` on at which `n` stands in `h`.
pub fn find_chars(h: &[char], n: &[char], from: usize) -> (r: Option<usize>)
    ensures
        match r {
            Some(i) => find_from(h@, n@, from as int) == Some(i as int),
            None => find_from(h@, n@, from as int) is None,
        },
{
    if from > h.len() || n.len() > h.len() {
        return None;
    }
    let last: usize = h.len() - n.len();
    let mut i: usize = from;
    while i <= last
        invariant
            from <= i,
            i <= h@.len(),
            last == h@.len() - n@.len(),
            find_from(h@, n@, from as int) == find_from(h@, n@, i as int),
        decreases h@.len() - i,
    {
        if stands_at(h, n, i) {
            return Some(i);
        }
        assert(i < h.len()) by {
            if i == h@.len() {
                assert(h@.subrange(i as int, i as int) =~= n@);
            }
        }
        i = i + 1;
    }
    None
}

/// Whether some part of `h` is `n`.
pub fn has_part(h: &str, n: &str) -> (r: bool)
    ensures
        r == contains(h@, n@),
{
    let hc = chars_of(h);
    let nc = chars_of(n);
    proof {
        lemma_find_from(h@, n@, 0);
    }
    let r = find_chars(hc.as_slice(), nc.as_slice(), 0);
    match r {
        Some(i) => {
            assert(occurs_at(h@, n@, i as int));
            true
        },
        None => {
            assert(forall|j: int| !occurs_at(h@, n@, j));
            false
        },
    }
}

/// Whether one of several texts is part of `h`.
pub open spec fn contains_any(h: Seq<char>, needles: Seq<&'static str>) -> bool {
    exists|i: int| 0 <= i < needles.len() && contains(h, #[trigger] needles[i]@)
}

/// Whether one of several texts is part of `h`.
pub fn has_any(h: &str, needles: &[&'static str]) -> (r: bool)
    ensures
        r == contains_any(h@, needles@),
{
    let n: usize = needles.len();
    for i in 0..n
        invariant
            n == needles@.len(),
            forall|j: int| 0 <= j < i ==> !contains(h@, #[trigger] needles@[j]@),
    {
        if has_part(h, needles[i]) {
            return true;
        }
    }
    false
}

/// Whether `h` begins with `n`.
pub open spec fn starts(h: Seq<char>, n: Seq<char>) -> bool {
    occurs_at(h, n, 0)
}

/// Whether `h` ends with `n`.
pub open spec fn ends(h: Seq<char>, n: Seq<char>) -> bool {
    occurs_at(h, n, h.len() - n.len())
}

/// Whether `h` begins with `n`.
pub fn starts_with(h: &str, n: &str) -> (r: bool)
    ensures
        r == starts(h@, n@),
{
    let hc = chars_of(h);
    let nc = chars_of(n);
    stands_at(hc.as_slice(), nc.as_slice(), 0)
}

/// The characters of `s` from position `from` up to `to`.
pub fn part(s: &[char], from: usize, to: usize) -> (r: String)
    requires
        from <= to <= s@.len(),
    ensures
        r@ == s@.subrange(from as int, to as int),
{
    let mut r = String::new();
    for i in from..to
        invariant
            from <= to <= s@.len(),
            r@ == s@.subrange(from as int, i as int),
    {
        r.push(s[i]);
        assert(s@.subrange(from as int, i + 1) == s@.subrange(from as int, i as int).push(
            s@[i as int],
        ));
    }
    r
}

/// Whether the character `c` is part of `s`.
pub fn has_char(s: &[char], c: char) -> (r: bool)
    ensures
        r == s@.contains(c),
{
    let n: usize = s.len();
    for i in 0..n
        invariant
            n == s@.len(),
            forall|j: int| 0 <= j < i ==> s@[j] != c,
    {
        if s[i] == c {
            assert(s@[i as int] == c);
            return true;
        }
    }
    false
}

/// The first position from `from` on that holds `c`, or the length.
pub open spec fn char_from(s: Seq<char>, c: char, from: int) -> int
    decreases s.len() - from,
{
    if from < 0 || from >= s.len() {
        s.len() as int
    } else if s[from] == c {
        from
    } else {
        char_from(s, c, from + 1)
    }
}

/// The first position from `from` on that holds `c`, or the length.
pub fn find_char(s: &[char], c: char, from: usize) -> (r: usize)
    requires
        from <= s@.len(),
    ensures
        r == char_from(s@, c, from as int),
        from <= r <= s@.len(),
        r < s@.len() ==> s@[r as int] == c,
        forall|j: int| from <= j < r ==> s@[j] != c,
{
    let mut i: usize = from;
    while i < s.len()
        invariant
            from <= i <= s@.len(),
            char_from(s@, c, from as int) == char_from(s@, c, i as int),
            forall|j: int| from <= j < i ==> s@[j] != c,
        decreases s@.len() - i,
    {
        if s[i] == c {
            return i;
        }
        i = i + 1;
    }
    i
}

/// The last position up to `to` at which `n` stands in `h`.
pub open spec fn find_last(h: Seq<char>, n: Seq<char>, to: int) -> Option<int>
    decreases to + 1,
{
    if to < 0 {
        None
    } else if occurs_at(h, n, to) {
        Some(to)
    } else {
        find_last(h, n, to - 1)
    }
}

/// The last position at which `n` stands in `h`.
pub fn find_last_chars(h: &[char], n: &[char]) -> (r: Option<usize>)
    ensures
        match r {
            Some(i) => find_last(h@, n@, h@.len() as int) == Some(i as int) && occurs_at(
                h@,
                n@,
                i as int,
            ),
            None => find_last(h@, n@, h@.len() as int) is None,
        },
{
    let mut i: usize = h.len();
    loop
        invariant
            i <= h@.len(),
            find_last(h@, n@, h@.len() as int) == find_last(h@, n@, i as int),
        decreases i,
    {
        if stands_at(h, n, i) {
            return Some(i);
        }
        if i == 0 {
            assert(find_last(h@, n@, -1) is None);
            return None;
        }
        i = i - 1;
    }
}

// ---------------------------------------------------------------------------
// Splitting and joining
// ---------------------------------------------------------------------------

/// The pieces of `s` from position `from` on between the occurrences of `c`.
pub open spec fn split_from(s: Seq<char>, c: char, from: int) -> Seq<Seq<char>>
    decreases s.len() - from,
{
    let i = char_from(s, c, from);
    if from < 0 || from >= s.len() || i <= from - 1 || i >= s.len() {
        seq![s.subrange(from, s.len() as int)]
    } else {
        seq![s.subrange(from, i)] + split_from(s, c, i + 1)
    }
}

/// The pieces of `s` between the occurrences of `c`; always at least one.
pub open spec fn split(s: Seq<char>, c: char) -> Seq<Seq<char>> {
    split_from(s, c, 0)
}

/// The pieces of `s` between the occurrences of `c`.
pub fn split_chars(s: &[char], c: char) -> (r: Vec<String>)
    ensures
        texts(r@) == split(s@, c),
{
    let mut r: Vec<String> = Vec::new();
    let mut from: usize = 0;
    assert(texts(r@) + split_from(s@, c, 0) =~= split(s@, c));
    loop
        invariant
            from <= s@.len(),
            texts(r@) + split_from(s@, c, from as int) == split(s@, c),
        decreases s@.len() - from,
    {
        let i: usize = find_char(s, c, from);
        let piece = part(s, from, i);
        let ghost before = texts(r@);
        r.push(piece);
        assert(texts(r@) =~= before.push(s@.subrange(from as int, i as int)));
        if i >= s.len() {
            assert(texts(r@) =~= before + split_from(s@, c, from as int));
            return r;
        }
        assert(before + (seq![s@.subrange(from as int, i as int)] + split_from(s@, c, i + 1))
            =~= texts(r@) + split_from(s@, c, i + 1));
        from = i + 1;
    }
}

/// Several texts one after another with `sep` between them.
pub open spec fn join(parts: Seq<Seq<char>>, sep: Seq<char>) -> Seq<char>
    decreases parts.len(),
{
    if parts.len() == 0 {
        Seq::empty()
    } else if parts.len() == 1 {
        parts[0]
    } else {
        join(parts.drop_last(), sep) + sep + parts.last()
    }
}

/// Several texts one after another with `sep` between them.
pub fn join_texts(parts: &Vec<String>, sep: &str) -> (r: String)
    ensures
        r@ == join(texts(parts@), sep@),
{
    let mut r = String::new();
    let n: usize = parts.len();
    for i in 0..n
        invariant
            n == parts@.len(),
            r@ == join(texts(parts@).take(i as int), sep@),
    {
        let ghost t = texts(parts@).take(i + 1);
        assert(t.drop_last() =~= texts(parts@).take(i as int));
        assert(t.last() == parts@[i as int]@);
        if i > 0 {
            r.append(sep);
            r.append(parts[i].as_str());
        } else {
            r.append(parts[i].as_str());
            assert(Seq::<char>::empty() + parts@[0]@ =~= parts@[0]@);
        }
    }
    assert(texts(parts@).take(n as int) =~= texts(parts@));
    r
}

// ---------------------------------------------------------------------------
// Letter case and white space
// ---------------------------------------------------------------------------

/// The lower-case form of an ASCII letter; any other character as it is.
pub open spec fn ascii_lower_char(c: char) -> char {
    if 'A' <= c && c <= 'Z' {
        ((c as u32) + 32) as char
    } else {
        c
    }
}

/// `s` with its ASCII letters in lower case.
pub open spec fn ascii_lower(s: Seq<char>) -> Seq<char> {
    s.map_values(|c: char| ascii_lower_char(c))
}

/// The lower-case form of an ASCII letter; any other character as it is.
pub fn lower_char(c: char) -> (r: char)
    ensures
        r == ascii_lower_char(c),
{
    if 'A' <= c && c <= 'Z' {
        ((c as u8) + 32) as char
    } else {
        c
    }
}

/// `s` with its ASCII letters in lower case.
pub fn lower_ascii(s: &str) -> (r: String)
    ensures
        r@ == ascii_lower(s@),
{
    let v = chars_of(s);
    let mut r = String::new();
    let n: usize = v.len();
    for i in 0..n
        invariant
            n == v@.len(),
            v@ == s@,
            r@ == ascii_lower(s@).take(i as int),
    {
        r.push(lower_char(v[i]));
        assert(ascii_lower(s@).take(i + 1) =~= ascii_lower(s@).take(i as int).push(
            ascii_lower(s@)[i as int],
        ));
    }
    assert(ascii_lower(s@).take(n as int) =~= ascii_lower(s@));
    r
}

/// `s` holds ASCII characters only.
pub open spec fn all_ascii(s: Seq<char>) -> bool {
    forall|i: int| 0 <= i < s.len() ==> (#[trigger] s[i] as u32) < 128
}

/// What `str::to_lowercase` gives for a text.
pub uninterp spec fn lowered(s: Seq<char>) -> Seq<char>;

/// `str::to_lowercase`: the text in lower case by the Unicode tables. For a
/// text of ASCII characters only that is the ASCII letters in lower case.
#[verifier::external_body]
pub(crate) fn lower_case(s: &str) -> (r: String)
    ensures
        r@ == lowered(s@),
        all_ascii(s@) ==> r@ == ascii_lower(s@),
{
    s.to_lowercase()
}

/// The characters that separate words: the Unicode property `White_Space`.
pub open spec fn is_white(c: char) -> bool {
    let u = c as u32;
    ||| 9 <= u && u <= 13
    ||| u == 32
    ||| u == 0x85
    ||| u == 0xA0
    ||| u == 0x1680
    ||| 0x2000 <= u && u <= 0x200A
    ||| u == 0x2028
    ||| u == 0x2029
    ||| u == 0x202F
    ||| u == 0x205F
    ||| u == 0x3000
}

/// Whether `c` separates words.
pub fn white(c: char) -> (r: bool)
    ensures
        r == is_white(c),
{
    let u: u32 = c as u32;
    9 <= u && u <= 13 || u == 32 || u == 0x85 || u == 0xA0 || u == 0x1680 || 0x2000 <= u && u
        <= 0x200A || u == 0x2028 || u == 0x2029 || u == 0x202F || u == 0x205F || u == 0x3000
}

/// `s` without the white space at its beginning.
pub open spec fn trim_start(s: Seq<char>) -> Seq<char>
    decreases s.len(),
{
    if s.len() > 0 && is_white(s[0]) {
        trim_start(s.drop_first())
    } else {
        s
    }
}

/// `s` without the white space at its end.
pub open spec fn trim_end(s: Seq<char>) -> Seq<char>
    decreases s.len(),
{
    if s.len() > 0 && is_white(s.last()) {
        trim_end(s.drop_last())
    } else {
        s
    }
}

/// `s` without the white space at its two ends.
pub open spec fn trimmed(s: Seq<char>) -> Seq<char> {
    trim_end(trim_start(s))
}

/// `s` without the white space at its two ends.
pub fn trim_chars(s: &[char]) -> (r: String)
    ensures
        r@ == trimmed(s@),
{
    let mut a: usize = 0;
    let n: usize = s.len();
    assert(s@.subrange(0, n as int) =~= s@);
    while a < n && white(s[a])
        invariant
            a <= n,
            n == s@.len(),
            trim_start(s@) == trim_start(s@.subrange(a as int, n as int)),
        decreases n - a,
    {
        assert(s@.subrange(a as int, n as int).drop_first() =~= s@.subrange(a + 1, n as int));
        a = a + 1;
    }
    let mut b: usize = n;
    assert(trim_start(s@) == s@.subrange(a as int, b as int));
    while b > a && white(s[b - 1])
        invariant
            a <= b <= n,
            n == s@.len(),
            trim_end(trim_start(s@)) == trim_end(s@.subrange(a as int, b as int)),
        decreases b,
    {
        assert(s@.subrange(a as int, b as int).drop_last() =~= s@.subrange(a as int, b - 1));
        b = b - 1;
    }
    part(s, a, b)
}

/// `s` without the white space at its two ends.
pub fn trim(s: &str) -> (r: String)
    ensures
        r@ == trimmed(s@),
{
    let v = chars_of(s);
    trim_chars(v.as_slice())
}

// ---------------------------------------------------------------------------
// Numbers as text
// ---------------------------------------------------------------------------

/// The digit of value `d` in a base up to sixteen, lower case.
pub open spec fn digit(d: nat) -> char {
    if d < 10 {
        (d + 48) as char
    } else {
        (d + 87) as char
    }
}

/// The digit of value `d` in a base up to sixteen, upper case.
pub open spec fn upper_digit(d: nat) -> char {
    if d < 10 {
        (d + 48) as char
    } else {
        (d + 55) as char
    }
}

/// The digit of value `d`, lower case.
pub fn digit_char(d: u8) -> (r: char)
    requires
        d < 16,
    ensures
        r == digit(d as nat),
{
    if d < 10 {
        (d + 48) as char
    } else {
        (d + 87) as char
    }
}

/// The digit of value `d`, upper case.
pub fn upper_digit_char(d: u8) -> (r: char)
    requires
        d < 16,
    ensures
        r == upper_digit(d as nat),
{
    if d < 10 {
        (d + 48) as char
    } else {
        (d + 55) as char
    }
}

/// `n` in decimal.
pub open spec fn dec(n: nat) -> Seq<char>
    decreases n,
{
    if n < 10 {
        seq![digit(n)]
    } else {
        dec(n / 10).push(digit(n % 10))
    }
}

/// `n` in decimal.
pub fn dec_text(n: u64) -> (r: String)
    ensures
        r@ == dec(n as nat),
    decreases n,
{
    if n < 10 {
        let mut r = String::new();
        r.push(digit_char(n as u8));
        assert(r@ =~= dec(n as nat));
        r
    } else {
        let mut r = dec_text(n / 10);
        r.push(digit_char((n % 10) as u8));
        r
    }
}

/// `n` in hexadecimal, lower case.
pub open spec fn hex(n: nat) -> Seq<char>
    decreases n,
{
    if n < 16 {
        seq![digit(n)]
    } else {
        hex(n / 16).push(digit(n % 16))
    }
}

/// `n` in hexadecimal, lower case.
pub fn hex_text(n: u64) -> (r: String)
    ensures
        r@ == hex(n as nat),
    decreases n,
{
    if n < 16 {
        let mut r = String::new();
        r.push(digit_char(n as u8));
        assert(r@ =~= hex(n as nat));
        r
    } else {
        let mut r = hex_text(n / 16);
        r.push(digit_char((n % 16) as u8));
        r
    }
}

/// A byte as two hexadecimal digits, upper case.
pub open spec fn hex2(b: u8) -> Seq<char> {
    seq![upper_digit((b / 16) as nat), upper_digit((b % 16) as nat)]
}

/// Appends a byte as two hexadecimal digits, upper case.
pub fn push_hex2(s: &mut String, b: u8)
    ensures
        final(s)@ == old(s)@ + hex2(b),
{
    s.push(upper_digit_char(b / 16));
    s.push(upper_digit_char(b % 16));
    assert(s@ =~= old(s)@ + hex2(b));
}

/// `n` copies of `c`.
pub open spec fn repeat(c: char, n: nat) -> Seq<char> {
    Seq::new(n, |i: int| c)
}

/// Appends `n` copies of `c`.
pub fn push_repeat(s: &mut String, c: char, n: usize)
    ensures
        final(s)@ == old(s)@ + repeat(c, n as nat),
{
    assert(s@ =~= old(s)@ + repeat(c, 0));
    for i in 0..n
        invariant
            s@ == old(s)@ + repeat(c, i as nat),
    {
        let ghost before = s@;
        s.push(c);
        assert(s@ =~= old(s)@ + repeat(c, (i + 1) as nat));
    }
}

/// `s` followed by spaces up to a width of `w` characters.
pub open spec fn pad_right(s: Seq<char>, w: nat) -> Seq<char> {
    if s.len() >= w {
        s
    } else {
        s + repeat(' ', (w - s.len()) as nat)
    }
}

/// `s` followed by spaces up to a width of `w` characters.
pub fn padded_right(s: &str, w: usize) -> (r: String)
    ensures
        r@ == pad_right(s@, w as nat),
{
    let n: usize = chars_of(s).len();
    let mut r = s.to_owned();
    if n < w {
        push_repeat(&mut r, ' ', w - n);
    }
    r
}

// ---------------------------------------------------------------------------
// Lines and bytes
// ---------------------------------------------------------------------------

/// `s` without a carriage return at its end.
pub open spec fn strip_cr(s: Seq<char>) -> Seq<char> {
    if s.len() > 0 && s.last() == '\r' {
        s.drop_last()
    } else {
        s
    }
}

/// The lines of `s`: what a line feed ends, without a carriage return before
/// it, and what follows the last line feed, if anything.
pub open spec fn lines(s: Seq<char>) -> Seq<Seq<char>> {
    let p = split(s, '\n');
    let ended = Seq::new((p.len() - 1) as nat, |i: int| strip_cr(p[i]));
    if p.last().len() == 0 {
        ended
    } else {
        ended.push(p.last())
    }
}

/// There is always a piece.
pub proof fn lemma_split_nonempty(s: Seq<char>, c: char, from: int)
    ensures
        split_from(s, c, from).len() > 0,
    decreases s.len() - from,
{
    let i = char_from(s, c, from);
    if from < 0 || from >= s.len() || i <= from - 1 || i >= s.len() {
    } else {
        lemma_split_nonempty(s, c, i + 1);
    }
}

/// The lines of `s`.
pub fn line_texts(s: &str) -> (r: Vec<String>)
    ensures
        texts(r@) == lines(s@),
{
    let v = chars_of(s);
    let p = split_chars(v.as_slice(), '\n');
    proof {
        lemma_split_nonempty(s@, '\n', 0);
    }
    let ghost pieces = split(s@, '\n');
    let mut r: Vec<String> = Vec::new();
    let last: usize = p.len() - 1;
    for i in 0..last
        invariant
            last == p@.len() - 1,
            texts(p@) == pieces,
            r@.len() == i,
            forall|j: int| 0 <= j < i ==> (#[trigger] r@[j])@ == strip_cr(pieces[j]),
    {
        let c = chars_of(p[i].as_str());
        assert(texts(p@)[i as int] == p@[i as int]@);
        let n: usize = c.len();
        if n > 0 && c[n - 1] == '\r' {
            let line = part(c.as_slice(), 0, n - 1);
            assert(line@ =~= strip_cr(pieces[i as int]));
            r.push(line);
        } else {
            let line = string_of(c.as_slice());
            assert(line@ =~= strip_cr(pieces[i as int]));
            r.push(line);
        }
    }
    assert(texts(p@)[last as int] == p@[last as int]@);
    if p[last].as_str().is_empty() {
        assert(texts(r@) =~= lines(s@));
        r
    } else {
        r.push(p[last].as_str().to_owned());
        assert(texts(r@) =~= lines(s@));
        r
    }
}

/// `std::str::from_utf8`: the text whose UTF-8 encoding `b` is, if `b` is one.
#[verifier::external_body]
pub(crate) fn utf8_text(b: &[u8]) -> (r: Option<String>)
    ensures
        match r {
            Some(s) => valid_utf8(b@) && s@ == decode_utf8(b@),
            None => !valid_utf8(b@),
        },
{
    std::str::from_utf8(b).ok().map(|s| s.to_string())
}

/// What `String::from_utf8_lossy` gives for bytes.
pub uninterp spec fn lossy(b: Seq<u8>) -> Seq<char>;

/// `String::from_utf8_lossy`: the text that `b` encodes, with a replacement
/// character for each invalid part. Valid bytes give the text that they encode.
#[verifier::external_body]
pub(crate) fn lossy_text(b: &[u8]) -> (r: String)
    ensures
        r@ == lossy(b@),
        valid_utf8(b@) ==> r@ == decode_utf8(b@),
{
    String::from_utf8_lossy(b).to_string()
}

/// The text that bytes encode; where they encode none, what takes its place.
pub open spec fn lenient(b: Seq<u8>) -> Seq<char> {
    if valid_utf8(b) {
        decode_utf8(b)
    } else {
        lossy(b)
    }
}

/// The number of bytes of a text in UTF-8.
pub open spec fn byte_len(s: Seq<char>) -> int {
    encode_utf8(s).len() as int
}

/// The first `n` bytes of a text end between two characters.
pub open spec fn cut_ok(s: Seq<char>, n: int) -> bool {
    is_char_boundary(encode_utf8(s), n)
}

/// Zeros up to a width of `w` characters, followed by `s`.
pub open spec fn zero_pad(s: Seq<char>, w: nat) -> Seq<char> {
    if s.len() >= w {
        s
    } else {
        repeat('0', (w - s.len()) as nat) + s
    }
}

/// Zeros up to a width of `w` characters, followed by `s`.
pub fn zero_padded(s: &str, w: usize) -> (r: String)
    ensures
        r@ == zero_pad(s@, w as nat),
{
    let n: usize = chars_of(s).len();
    if n < w {
        let mut r = String::new();
        push_repeat(&mut r, '0', w - n);
        assert(r@ =~= repeat('0', (w - n) as nat));
        r.append(s);
        r
    } else {
        s.to_owned()
    }
}

/// The first piece of `s` before `c`: all of `s` where there is no `c`.
pub open spec fn before_char(s: Seq<char>, c: char) -> Seq<char> {
    s.subrange(0, char_from(s, c, 0))
}

/// The first piece of `s` before `c`.
pub fn text_before(s: &str, c: char) -> (r: String)
    ensures
        r@ == before_char(s@, c),
{
    let v = chars_of(s);
    let i: usize = find_char(v.as_slice(), c, 0);
    part(v.as_slice(), 0, i)
}

// ---------------------------------------------------------------------------
// Ends, words and numbers in text
// ---------------------------------------------------------------------------

/// `s` without `suffix` at its end, however often it stands there.
pub open spec fn without_suffixes(s: Seq<char>, suffix: Seq<char>) -> Seq<char>
    decreases s.len(),
{
    if suffix.len() > 0 && ends(s, suffix) {
        without_suffixes(s.take(s.len() - suffix.len()), suffix)
    } else {
        s
    }
}

/// `s` without `prefix` at its beginning, however often it stands there.
pub open spec fn without_prefixes(s: Seq<char>, prefix: Seq<char>) -> Seq<char>
    decreases s.len(),
{
    if prefix.len() > 0 && starts(s, prefix) {
        without_prefixes(s.skip(prefix.len() as int), prefix)
    } else {
        s
    }
}

/// `s` without `suffix` at its end, however often it stands there.
pub fn drop_suffixes(s: &str, suffix: &str) -> (r: String)
    ensures
        r@ == without_suffixes(s@, suffix@),
{
    let c = chars_of(s);
    let t = chars_of(suffix);
    let m: usize = t.len();
    let mut n: usize = c.len();
    assert(s@.take(n as int) =~= s@);
    while m > 0 && n >= m && stands_at(c.as_slice(), t.as_slice(), n - m)
        invariant
            m == t@.len(),
            n <= c@.len(),
            c@ == s@,
            t@ == suffix@,
            without_suffixes(s@, suffix@) == without_suffixes(s@.take(n as int), suffix@),
        decreases n,
    {
        let ghost head = s@.take(n as int);
        assert(head.subrange(n - m, n as int) =~= s@.subrange(n - m, n as int));
        assert(ends(head, suffix@));
        assert(head.take(head.len() - suffix@.len()) =~= s@.take(n - m));
        n = n - m;
    }
    proof {
        let head = s@.take(n as int);
        if m > 0 && ends(head, suffix@) {
            assert(head.subrange(n - m, n as int) =~= s@.subrange(n - m, n as int));
            assert(occurs_at(s@, suffix@, n - m));
        }
    }
    let r = part(c.as_slice(), 0, n);
    assert(r@ =~= s@.take(n as int));
    r
}

/// `s` without `prefix` at its beginning, however often it stands there.
pub fn drop_prefixes(s: &str, prefix: &str) -> (r: String)
    ensures
        r@ == without_prefixes(s@, prefix@),
{
    let c = chars_of(s);
    let t = chars_of(prefix);
    let m: usize = t.len();
    let total: usize = c.len();
    let mut n: usize = 0;
    assert(s@.skip(0) =~= s@);
    while m > 0 && stands_at(c.as_slice(), t.as_slice(), n)
        invariant
            m == t@.len(),
            total == c@.len(),
            n <= total,
            c@ == s@,
            t@ == prefix@,
            without_prefixes(s@, prefix@) == without_prefixes(s@.skip(n as int), prefix@),
        decreases c@.len() - n,
    {
        let ghost tail = s@.skip(n as int);
        assert(tail.subrange(0, m as int) =~= s@.subrange(n as int, n + m));
        assert(starts(tail, prefix@));
        assert(tail.skip(m as int) =~= s@.skip(n + m));
        n = n + m;
    }
    proof {
        let tail = s@.skip(n as int);
        if m > 0 && starts(tail, prefix@) {
            assert(tail.subrange(0, m as int) =~= s@.subrange(n as int, n + m));
            assert(occurs_at(s@, prefix@, n as int));
        }
    }
    let r = part(c.as_slice(), n, c.len());
    assert(r@ =~= s@.skip(n as int));
    r
}

/// The part of `s` before the first `n`; all of `s` where there is none.
pub open spec fn before_text(s: Seq<char>, n: Seq<char>) -> Seq<char> {
    match find_from(s, n, 0) {
        Some(i) => s.take(i),
        None => s,
    }
}

/// The part of `s` before the first `n`.
pub fn before_part(s: &str, n: &str) -> (r: String)
    ensures
        r@ == before_text(s@, n@),
{
    let c = chars_of(s);
    let t = chars_of(n);
    proof {
        lemma_find_from(s@, n@, 0);
    }
    match find_chars(c.as_slice(), t.as_slice(), 0) {
        Some(i) => {
            let r = part(c.as_slice(), 0, i);
            assert(r@ =~= s@.take(i as int));
            r
        },
        None => s.to_owned(),
    }
}

/// The last piece of `s` between the occurrences of `c`.
pub open spec fn last_piece(s: Seq<char>, c: char) -> Seq<char> {
    split(s, c).last()
}

/// The last piece of `s` between the occurrences of `c`.
pub fn after_last(s: &str, c: char) -> (r: String)
    ensures
        r@ == last_piece(s@, c),
{
    let v = chars_of(s);
    let mut p = split_chars(v.as_slice(), c);
    proof {
        lemma_split_nonempty(s@, c, 0);
        assert(texts(p@).len() == p@.len());
        assert(texts(p@).last() == p@.last()@);
    }
    match p.pop() {
        Some(x) => x,
        None => String::new(),
    }
}

/// The words of `s` from position `from` on: what stands between white space.
pub open spec fn words_from(s: Seq<char>, from: int) -> Seq<Seq<char>>
    decreases s.len() - from,
{
    if from < 0 || from >= s.len() {
        Seq::empty()
    } else if is_white(s[from]) {
        words_from(s, from + 1)
    } else {
        let end = word_end(s, from);
        if end <= from || end > s.len() {
            Seq::empty()
        } else {
            seq![s.subrange(from, end)] + words_from(s, end)
        }
    }
}

/// The first position from `from` on that holds white space, or the length.
pub open spec fn word_end(s: Seq<char>, from: int) -> int
    decreases s.len() - from,
{
    if from < 0 || from >= s.len() || is_white(s[from]) {
        from
    } else {
        word_end(s, from + 1)
    }
}

/// The words of `s`.
pub open spec fn words(s: Seq<char>) -> Seq<Seq<char>> {
    words_from(s, 0)
}

fn find_word_end(s: &[char], from: usize) -> (r: usize)
    requires
        from <= s@.len(),
    ensures
        r == word_end(s@, from as int),
        from <= r <= s@.len(),
{
    let mut i: usize = from;
    while i < s.len() && !white(s[i])
        invariant
            from <= i <= s@.len(),
            word_end(s@, from as int) == word_end(s@, i as int),
        decreases s@.len() - i,
    {
        i = i + 1;
    }
    i
}

/// The words of `s`.
pub fn word_texts(s: &str) -> (r: Vec<String>)
    ensures
        texts(r@) == words(s@),
{
    let c = chars_of(s);
    let mut r: Vec<String> = Vec::new();
    let mut i: usize = 0;
    assert(texts(r@) + words_from(s@, 0) =~= words(s@));
    while i < c.len()
        invariant
            i <= c@.len(),
            c@ == s@,
            texts(r@) + words_from(s@, i as int) == words(s@),
        decreases c@.len() - i,
    {
        if white(c[i]) {
            i = i + 1;
        } else {
            let end: usize = find_word_end(c.as_slice(), i);
            assert(word_end(s@, i as int) == word_end(s@, i + 1));
            assert(end > i) by {
                lemma_word_end(s@, i + 1);
            }
            let w = part(c.as_slice(), i, end);
            let ghost before = texts(r@);
            let ghost rest = words_from(s@, end as int);
            r.push(w);
            assert(texts(r@) =~= before.push(s@.subrange(i as int, end as int)));
            assert(before + (seq![s@.subrange(i as int, end as int)] + rest) =~= texts(r@) + rest);
            i = end;
        }
    }
    assert(texts(r@) + Seq::<Seq<char>>::empty() =~= texts(r@));
    r
}

proof fn lemma_word_end(s: Seq<char>, from: int)
    requires
        0 <= from <= s.len(),
    ensures
        from <= word_end(s, from) <= s.len(),
    decreases s.len() - from,
{
    if from < s.len() && !is_white(s[from]) {
        lemma_word_end(s, from + 1);
    }
}

/// A decimal digit.
pub open spec fn is_digit(c: char) -> bool {
    '0' <= c && c <= '9'
}

/// Decimal digits only, at least one.
pub open spec fn all_digits(s: Seq<char>) -> bool {
    s.len() > 0 && forall|i: int| 0 <= i < s.len() ==> is_digit(#[trigger] s[i])
}

/// The number that decimal digits form.
pub open spec fn number(s: Seq<char>) -> nat
    decreases s.len(),
{
    if s.len() == 0 {
        0
    } else {
        number(s.drop_last()) * 10 + (s.last() as nat - 48) as nat
    }
}

/// A number of at most `max`, if a text is decimal digits that form one.
pub open spec fn number_up_to(s: Seq<char>, max: nat) -> Option<nat> {
    if all_digits(s) && number(s) <= max {
        Some(number(s))
    } else {
        None
    }
}

/// A number of at most 255, if a text is decimal digits that form one.
pub fn small_number(s: &[char]) -> (r: Option<u8>)
    ensures
        match r {
            Some(n) => number_up_to(s@, 255) == Some(n as nat),
            None => number_up_to(s@, 255) is None,
        },
{
    let n: usize = s.len();
    if n == 0 {
        return None;
    }
    let mut v: u32 = 0;
    let mut over = false;
    for i in 0..n
        invariant
            n == s@.len(),
            forall|j: int| 0 <= j < i ==> is_digit(#[trigger] s@[j]),
            over ==> number(s@.take(i as int)) > 255,
            !over ==> v == number(s@.take(i as int)) && v <= 255,
    {
        assert(s@.take(i + 1).drop_last() =~= s@.take(i as int));
        assert(s@.take(i + 1).last() == s@[i as int]);
        if !('0' <= s[i] && s[i] <= '9') {
            assert(!is_digit(s@[i as int]));
            return None;
        }
        if !over {
            v = v * 10 + (s[i] as u32 - 48);
            if v > 255 {
                over = true;
            }
        }
    }
    assert(s@.take(n as int) =~= s@);
    if over {
        None
    } else {
        Some(v as u8)
    }
}

/// A number of at most 255 with an optional plus sign before it.
pub open spec fn signed_number(s: Seq<char>) -> Option<nat> {
    if s.len() > 0 && s[0] == '+' {
        number_up_to(s.skip(1), 255)
    } else {
        number_up_to(s, 255)
    }
}

/// A number of at most 255 with an optional plus sign before it.
pub fn parse_u8(s: &str) -> (r: Option<u8>)
    ensures
        match r {
            Some(n) => signed_number(s@) == Some(n as nat),
            None => signed_number(s@) is None,
        },
{
    let c = chars_of(s);
    if c.len() > 0 && c[0] == '+' {
        let d = chars_of(part(c.as_slice(), 1, c.len()).as_str());
        assert(d@ =~= s@.skip(1));
        small_number(d.as_slice())
    } else {
        small_number(c.as_slice())
    }
}

/// What `str::to_uppercase` gives for a text.
pub uninterp spec fn uppered(s: Seq<char>) -> Seq<char>;

/// The upper-case form of an ASCII letter; any other character as it is.
pub open spec fn ascii_upper_char(c: char) -> char {
    if 'a' <= c && c <= 'z' {
        ((c as u32) - 32) as char
    } else {
        c
    }
}

/// `s` with its ASCII letters in upper case.
pub open spec fn ascii_upper(s: Seq<char>) -> Seq<char> {
    s.map_values(|c: char| ascii_upper_char(c))
}

/// `str::to_uppercase`: the text in upper case by the Unicode tables. For a
/// text of ASCII characters only that is the ASCII letters in upper case.
#[verifier::external_body]
pub(crate) fn upper_case(s: &str) -> (r: String)
    ensures
        r@ == uppered(s@),
        all_ascii(s@) ==> r@ == ascii_upper(s@),
{
    s.to_uppercase()
}

/// Texts that are joined one after another begin with the first of them.
pub proof fn lemma_join_first(first: Seq<char>, rest: Seq<Seq<char>>, sep: Seq<char>)
    requires
        rest.len() > 0,
    ensures
        join(seq![first] + rest, sep) == first + sep + join(rest, sep),
    decreases rest.len(),
{
    let all = seq![first] + rest;
    if rest.len() == 1 {
        assert(all.drop_last() =~= seq![first]);
        assert(join(all.drop_last(), sep) == first);
        assert(all.last() == rest[0]);
    } else {
        assert(all.drop_last() =~= seq![first] + rest.drop_last());
        lemma_join_first(first, rest.drop_last(), sep);
        assert(all.last() == rest.last());
        assert(first + sep + join(rest.drop_last(), sep) + sep + rest.last() =~= first + sep + (join(
            rest.drop_last(),
            sep,
        ) + sep + rest.last()));
    }
}

proof fn lemma_join_split_from(s: Seq<char>, c: char, from: int)
    requires
        0 <= from <= s.len(),
    ensures
        join(split_from(s, c, from), seq![c]) == s.skip(from),
    decreases s.len() - from,
{
    lemma_char_from(s, c, from);
    let i = char_from(s, c, from);
    if from >= s.len() || i >= s.len() {
        assert(s.subrange(from, s.len() as int) =~= s.skip(from));
    } else {
        lemma_join_split_from(s, c, i + 1);
        lemma_split_nonempty(s, c, i + 1);
        lemma_join_first(s.subrange(from, i), split_from(s, c, i + 1), seq![c]);
        assert(s.subrange(from, i) + seq![c] + s.skip(i + 1) =~= s.skip(from));
    }
}

/// The first `c` from a position on: there is none before it.
pub proof fn lemma_char_from(s: Seq<char>, c: char, from: int)
    requires
        0 <= from <= s.len(),
    ensures
        from <= char_from(s, c, from) <= s.len(),
        char_from(s, c, from) < s.len() ==> s[char_from(s, c, from)] == c,
        forall|i: int| from <= i < char_from(s, c, from) ==> s[i] != c,
    decreases s.len() - from,
{
    if from < s.len() && s[from] != c {
        lemma_char_from(s, c, from + 1);
    }
}

/// The pieces of a text, joined by the character that parts them, are the text.
pub proof fn law_join_split(s: Seq<char>, c: char)
    ensures
        join(split(s, c), seq![c]) == s,
{
    lemma_join_split_from(s, c, 0);
    assert(s.skip(0) =~= s);
}

/// A number in decimal consists of digits, and reads as the number.
pub proof fn law_number_read(n: nat)
    ensures
        all_digits(dec(n)),
        number(dec(n)) == n,
    decreases n,
{
    if n < 10 {
        assert(dec(n) =~= seq![digit(n)]);
        assert(dec(n).drop_last() =~= Seq::<char>::empty());
        assert(number(dec(n).drop_last()) == 0);
    } else {
        law_number_read(n / 10);
        assert(dec(n).drop_last() =~= dec(n / 10));
        assert(dec(n).last() == digit(n % 10));
        assert forall|i: int| 0 <= i < dec(n).len() implies is_digit(#[trigger] dec(n)[i]) by {
            if i < dec(n / 10).len() {
                assert(dec(n)[i] == dec(n / 10)[i]);
            }
        }
    }
}

proof fn lemma_split_from_later(s: Seq<char>, t: Seq<char>, c: char, from: int)
    requires
        0 <= from <= t.len(),
    ensures
        char_from(s + t, c, s.len() + from) == s.len() + char_from(t, c, from),
        split_from(s + t, c, s.len() + from) == split_from(t, c, from),
    decreases t.len() - from,
{
    let u = s + t;
    lemma_char_from_later(s, t, c, from);
    lemma_char_from(t, c, from);
    let i = char_from(t, c, from);
    if from >= t.len() || i >= t.len() {
        assert(u.subrange(s.len() + from, u.len() as int) =~= t.subrange(from, t.len() as int));
    } else {
        lemma_split_from_later(s, t, c, i + 1);
        assert(u.subrange(s.len() + from, s.len() + i) =~= t.subrange(from, i));
    }
}

proof fn lemma_char_from_later(s: Seq<char>, t: Seq<char>, c: char, from: int)
    requires
        0 <= from <= t.len(),
    ensures
        char_from(s + t, c, s.len() + from) == s.len() + char_from(t, c, from),
    decreases t.len() - from,
{
    if from < t.len() && t[from] != c {
        lemma_char_from_later(s, t, c, from + 1);
    }
}

proof fn lemma_char_from_absent(s: Seq<char>, t: Seq<char>, c: char, from: int)
    requires
        0 <= from <= s.len(),
        forall|i: int| 0 <= i < s.len() ==> s[i] != c,
    ensures
        char_from(s + seq![c] + t, c, from) == s.len(),
    decreases s.len() - from,
{
    let u = s + seq![c] + t;
    if from < s.len() {
        assert(u[from] == s[from]);
        lemma_char_from_absent(s, t, c, from + 1);
    } else {
        assert(u[from] == c);
    }
}

/// The first piece of a text ends at the first character that parts pieces.
pub proof fn lemma_split_first(s: Seq<char>, t: Seq<char>, c: char)
    requires
        forall|i: int| 0 <= i < s.len() ==> s[i] != c,
    ensures
        split(s + seq![c] + t, c) == seq![s] + split(t, c),
{
    let u = s + seq![c] + t;
    lemma_char_from_absent(s, t, c, 0);
    assert(u.subrange(0, s.len() as int) =~= s);
    assert(u =~= (s + seq![c]) + t);
    lemma_split_from_later(s + seq![c], t, c, 0);
}

/// A text without the character that parts pieces is one piece.
pub proof fn lemma_split_single(s: Seq<char>, c: char)
    requires
        forall|i: int| 0 <= i < s.len() ==> s[i] != c,
    ensures
        split(s, c) == seq![s],
{
    lemma_char_from(s, c, 0);
    assert(s.subrange(0, s.len() as int) =~= s);
}

/// Hexadecimal digits.
pub open spec fn is_hex(c: char) -> bool {
    ('0' <= c && c <= '9') || ('a' <= c && c <= 'f') || ('A' <= c && c <= 'F')
}

/// Whether a character is a hexadecimal digit.
pub fn hex_char(c: char) -> (r: bool)
    ensures
        r == is_hex(c),
{
    ('0' <= c && c <= '9') || ('a' <= c && c <= 'f') || ('A' <= c && c <= 'F')
}

/// The value of a hexadecimal digit.
pub open spec fn hex_value(c: char) -> nat {
    if 'a' <= c {
        (c as nat - 87) as nat
    } else if 'A' <= c {
        (c as nat - 55) as nat
    } else {
        (c as nat - 48) as nat
    }
}

/// The value of a hexadecimal digit.
pub fn hex_digit(c: char) -> (r: u8)
    requires
        is_hex(c),
    ensures
        r == hex_value(c),
        r < 16,
{
    if 'a' <= c {
        (c as u8) - 87
    } else if 'A' <= c {
        (c as u8) - 55
    } else {
        (c as u8) - 48
    }
}

/// The first `n` bytes of a text, as far as they are text.
pub open spec fn first_bytes(s: Seq<char>, n: int) -> Seq<char> {
    decode_utf8(encode_utf8(s).take(n))
}

/// The first `n` bytes of a text.
pub fn cut(s: &str, n: usize) -> (r: String)
    requires
        cut_ok(s@, n as int),
        n <= byte_len(s@),
    ensures
        r@ == first_bytes(s@, n as int),
{
    let (head, _) = s.split_at(n);
    proof {
        encode_utf8_decode_utf8(head@);
        assert(encode_utf8(s@).take(n as int) =~= encode_utf8(s@).subrange(0, n as int));
    }
    head.to_owned()
}

proof fn lemma_ascii_char(c: char)
    requires
        (c as u32) < 128,
    ensures
        '\0' <= c <= '\u{7f}',
{
}

/// In a text of ASCII characters every character is a byte.
pub proof fn lemma_ascii_cut(s: Seq<char>, n: int)
    requires
        all_ascii(s),
        0 <= n <= s.len(),
    ensures
        byte_len(s) == s.len(),
        cut_ok(s, n),
        first_bytes(s, n) == s.take(n),
{
    assert forall|i: int| 0 <= i < s.len() implies '\0' <= #[trigger] s[i] <= '\u{7f}' by {
        lemma_ascii_char(s[i]);
    }
    assert forall|i: int| 0 <= i < n implies '\0' <= #[trigger] s.take(n)[i] <= '\u{7f}' by {
        assert(s.take(n)[i] == s[i]);
    }
    is_ascii_chars_encode_utf8(s);
    is_ascii_chars_encode_utf8(s.take(n));
    assert(encode_utf8(s).take(n) =~= encode_utf8(s.take(n)));
    encode_utf8_decode_utf8(s.take(n));
    encode_utf8_valid_utf8(s);
    if n < s.len() {
        let b = encode_utf8(s)[n];
        assert(b == s[n] as u8);
        assert(b < 128);
        utf8_byte_ranges_bitwise(b);
        is_char_boundary_iff_not_is_continuation_byte(encode_utf8(s), n);
    } else {
        is_char_boundary_start_end_of_seq(encode_utf8(s));
    }
}

/// `s` without every `c`.
pub open spec fn without_char(s: Seq<char>, c: char) -> Seq<char>
    decreases s.len(),
{
    if s.len() == 0 {
        s
    } else if s.last() == c {
        without_char(s.drop_last(), c)
    } else {
        without_char(s.drop_last(), c).push(s.last())
    }
}

/// `s` without every `c`.
pub fn drop_char(s: &str, c: char) -> (r: String)
    ensures
        r@ == without_char(s@, c),
{
    let v = chars_of(s);
    let mut r = String::new();
    let n: usize = v.len();
    for i in 0..n
        invariant
            n == v@.len(),
            r@ == without_char(v@.take(i as int), c),
    {
        assert(v@.take(i + 1).drop_last() =~= v@.take(i as int));
        if v[i] != c {
            r.push(v[i]);
        }
    }
    assert(v@.take(n as int) =~= v@);
    r
}

/// What is left of ASCII text is ASCII text.
pub proof fn lemma_without_char_ascii(s: Seq<char>, c: char)
    requires
        all_ascii(s),
    ensures
        all_ascii(without_char(s, c)),
    decreases s.len(),
{
    if s.len() > 0 {
        assert(all_ascii(s.drop_last())) by {
            assert forall|i: int| 0 <= i < s.len() - 1 implies (#[trigger] s.drop_last()[i] as u32)
                < 128 by {
                assert(s.drop_last()[i] == s[i]);
            }
        }
        assert((s[s.len() - 1] as u32) < 128);
        lemma_without_char_ascii(s.drop_last(), c);
    }
}

/// No character takes more than four bytes.
pub proof fn lemma_byte_len(s: Seq<char>)
    ensures
        s.len() <= byte_len(s) <= 4 * s.len(),
    decreases s.len(),
{
    if s.len() > 0 {
        lemma_byte_len(s.drop_first());
    }
}

/// The bytes of two texts one behind the other are the bytes of each.
pub proof fn lemma_encode_concat(a: Seq<char>, b: Seq<char>)
    ensures
        encode_utf8(a + b) == encode_utf8(a) + encode_utf8(b),
    decreases a.len(),
{
    if a.len() == 0 {
        assert(a + b =~= b);
        assert(encode_utf8(a) + encode_utf8(b) =~= encode_utf8(b));
    } else {
        let rest = a.drop_first();
        lemma_encode_concat(rest, b);
        assert((a + b).drop_first() =~= rest + b);
        assert((a + b)[0] == a[0]);
        assert(encode_utf8(a + b) =~= encode_utf8(a) + encode_utf8(b));
    }
}

proof fn lemma_trim_end_begins(a: Seq<char>, b: Seq<char>)
    requires
        a.len() > 0,
        !is_white(a.last()),
    ensures
        starts(trim_end(a + b), a),
    decreases b.len(),
{
    if b.len() == 0 {
        assert(a + b =~= a);
        assert(a.take(a.len() as int) =~= a);
    } else if is_white(b.last()) {
        lemma_trim_end_begins(a, b.drop_last());
        assert((a + b).drop_last() =~= a + b.drop_last());
    } else {
        assert((a + b).take(a.len() as int) =~= a);
    }
}

/// White space is only taken from the ends of a text: what begins and ends with
/// something else stays at its beginning.
pub proof fn lemma_trimmed_begins(a: Seq<char>, b: Seq<char>)
    requires
        a.len() > 0,
        !is_white(a[0]),
        !is_white(a.last()),
    ensures
        starts(trimmed(a + b), a),
{
    assert((a + b)[0] == a[0]);
    lemma_trim_end_begins(a, b);
}

proof fn lemma_trim_start(left: Seq<char>, s: Seq<char>)
    requires
        forall|i: int| 0 <= i < left.len() ==> is_white(#[trigger] left[i]),
        s.len() > 0,
        !is_white(s[0]),
    ensures
        trim_start(left + s) == s,
    decreases left.len(),
{
    if left.len() == 0 {
        assert(left + s =~= s);
    } else {
        assert((left + s)[0] == left[0]);
        assert((left + s).drop_first() =~= left.drop_first() + s);
        lemma_trim_start(left.drop_first(), s);
    }
}

proof fn lemma_trim_end(s: Seq<char>, right: Seq<char>)
    requires
        forall|i: int| 0 <= i < right.len() ==> is_white(#[trigger] right[i]),
        s.len() > 0,
        !is_white(s.last()),
    ensures
        trim_end(s + right) == s,
    decreases right.len(),
{
    if right.len() == 0 {
        assert(s + right =~= s);
    } else {
        assert((s + right).last() == right.last());
        assert((s + right).drop_last() =~= s + right.drop_last());
        lemma_trim_end(s, right.drop_last());
    }
}

/// Of a text with white space around it the white space goes and nothing else.
pub proof fn law_trimmed(left: Seq<char>, s: Seq<char>, right: Seq<char>)
    requires
        forall|i: int| 0 <= i < left.len() ==> is_white(#[trigger] left[i]),
        forall|i: int| 0 <= i < right.len() ==> is_white(#[trigger] right[i]),
        s.len() > 0,
        !is_white(s[0]),
        !is_white(s.last()),
    ensures
        trimmed(left + s + right) == s,
{
    assert(left + s + right =~= left + (s + right));
    lemma_trim_start(left, s + right);
    lemma_trim_end(s, right);
}

/// What stands before the first `c` is all up to it; without a `c` it is the
/// whole text.
pub proof fn law_before_char(a: Seq<char>, c: char, b: Seq<char>)
    requires
        forall|i: int| 0 <= i < a.len() ==> a[i] != c,
    ensures
        before_char(a + seq![c] + b, c) == a,
        before_char(a, c) == a,
{
    lemma_char_from_absent(a, b, c, 0);
    lemma_char_from(a, c, 0);
    assert((a + seq![c] + b).subrange(0, a.len() as int) =~= a);
    assert(a.subrange(0, a.len() as int) =~= a);
}

/// The first line of a text ends at the first line feed, and a carriage return
/// before it does not belong to it; the other lines are those of the rest.
pub proof fn law_first_line(first: Seq<char>, rest: Seq<char>)
    requires
        forall|i: int| 0 <= i < first.len() ==> first[i] != '\n',
    ensures
        lines(first + seq!['\r', '\n'] + rest) == seq![first] + lines(rest),
        first.len() == 0 || first.last() != '\r' ==> lines(first + seq!['\n'] + rest) == seq![first]
            + lines(rest),
{
    let a = first + seq!['\r'];
    let u = a + seq!['\n'] + rest;
    assert(first + seq!['\r', '\n'] + rest =~= u);
    lemma_split_first(a, rest, '\n');
    lemma_split_nonempty(rest, '\n', 0);
    let q = split(rest, '\n');
    let p = split(u, '\n');
    assert(p == seq![a] + q);
    assert(p.last() == q.last());
    assert(strip_cr(a) =~= first);
    assert(lines(u) =~= seq![first] + lines(rest));
    let v = first + seq!['\n'] + rest;
    lemma_split_first(first, rest, '\n');
    let r = split(v, '\n');
    assert(r == seq![first] + q);
    assert(r.last() == q.last());
    if first.len() == 0 || first.last() != '\r' {
        assert(lines(v) =~= seq![first] + lines(rest));
    }
}

/// A text without a line feed is one line, and an empty text none.
pub proof fn law_last_line(s: Seq<char>)
    requires
        forall|i: int| 0 <= i < s.len() ==> s[i] != '\n',
    ensures
        s.len() > 0 ==> lines(s) == seq![s],
        s.len() == 0 ==> lines(s) == Seq::<Seq<char>>::empty(),
{
    lemma_split_single(s, '\n');
    if s.len() > 0 {
        assert(lines(s) =~= seq![s]);
    } else {
        assert(lines(s) =~= Seq::<Seq<char>>::empty());
    }
}

/// The lines of whole lines and a text behind them are the lines of each.
pub proof fn law_lines_of_parts(head: Seq<char>, tail: Seq<char>)
    requires
        head.len() > 0 ==> head.last() == '\n',
    ensures
        lines(head + tail) == lines(head) + lines(tail),
    decreases head.len(),
{
    if head.len() == 0 {
        assert(head + tail =~= tail);
        law_last_line(head);
        assert(lines(head) + lines(tail) =~= lines(tail));
    } else {
        let i = char_from(head, '\n', 0);
        lemma_char_from(head, '\n', 0);
        assert(head[head.len() - 1] == '\n');
        assert(0 <= i < head.len() && head[i] == '\n');
        let first = head.take(i);
        let rest = head.skip(i + 1);
        assert(head =~= first + seq!['\n'] + rest);
        assert(head + tail =~= first + seq!['\n'] + (rest + tail));
        law_lines_of_parts(rest, tail);
        lemma_line_then(first, rest);
        lemma_line_then(first, rest + tail);
        assert(lines(head + tail) =~= lines(head) + lines(tail));
    }
}

proof fn lemma_line_then(first: Seq<char>, rest: Seq<char>)
    requires
        forall|i: int| 0 <= i < first.len() ==> first[i] != '\n',
    ensures
        lines(first + seq!['\n'] + rest) == seq![strip_cr(first)] + lines(rest),
{
    if first.len() > 0 && first.last() == '\r' {
        assert(first + seq!['\n'] + rest =~= first.drop_last() + seq!['\r', '\n'] + rest);
        law_first_line(first.drop_last(), rest);
    } else {
        law_first_line(first, rest);
    }
}

/// A number below ten is written as its digit, and ten times a number and a
/// digit as the number with the digit behind it.
pub proof fn law_decimal(n: nat, d: nat)
    requires
        d < 10,
    ensures
        dec(d) == seq![(48 + d) as char],
        n > 0 ==> dec(10 * n + d) == dec(n) + dec(d),
{
    assert((10 * n + d) / 10 == n);
    assert((10 * n + d) % 10 == d);
    if n > 0 {
        assert(dec(10 * n + d) =~= dec(n) + dec(d));
    }
}

/// A number below sixteen is written in hexadecimal as its digit, a letter in
/// lower case from ten on, and sixteen times a number and a digit as the
/// number with the digit behind it.
pub proof fn law_hexadecimal(n: nat, d: nat)
    requires
        d < 16,
    ensures
        d < 10 ==> hex(d) == seq![(48 + d) as char],
        d >= 10 ==> hex(d) == seq![(97 + d - 10) as char],
        n > 0 ==> hex(16 * n + d) == hex(n) + hex(d),
{
    assert((16 * n + d) / 16 == n);
    assert((16 * n + d) % 16 == d);
    if n > 0 {
        assert(hex(16 * n + d) =~= hex(n) + hex(d));
    }
}

/// A text that is padded is the text and spaces behind it, as wide as is asked
/// for or as the text is.
pub proof fn law_padded(s: Seq<char>, w: nat)
    ensures
        pad_right(s, w).len() == if s.len() < w { w } else { s.len() },
        pad_right(s, w).take(s.len() as int) == s,
        forall|i: int| s.len() <= i < pad_right(s, w).len() ==> #[trigger] pad_right(s, w)[i] == ' ',
{
    assert(pad_right(s, w).take(s.len() as int) =~= s);
}

/// A text stands in another when the other is the text with something around
/// it, and only in that case.
pub proof fn law_contains(h: Seq<char>, n: Seq<char>)
    ensures
        contains(h, n) <==> exists|a: Seq<char>, b: Seq<char>| h == #[trigger] ((a + n) + b),
        starts(h, n) <==> exists|b: Seq<char>| h == #[trigger] (n + b),
{
    if contains(h, n) {
        let i = choose|i: int| occurs_at(h, n, i);
        let a = h.take(i);
        let b = h.skip(i + n.len());
        assert(h =~= (a + n) + b);
    }
    if exists|a: Seq<char>, b: Seq<char>| h == #[trigger] ((a + n) + b) {
        let (a, b) = choose|a: Seq<char>, b: Seq<char>| h == #[trigger] ((a + n) + b);
        assert(h.subrange(a.len() as int, (a.len() + n.len()) as int) =~= n);
        assert(occurs_at(h, n, a.len() as int));
    }
    if starts(h, n) {
        let b = h.skip(n.len() as int);
        assert(h =~= n + b);
    }
    if exists|b: Seq<char>| h == #[trigger] (n + b) {
        let b = choose|b: Seq<char>| h == #[trigger] (n + b);
        assert(h.subrange(0, n.len() as int) =~= n);
    }
}

/// Only the letters from A to Z change when a text is put in lower case.
pub proof fn law_ascii_lower(s: Seq<char>, i: int)
    requires
        0 <= i < s.len(),
    ensures
        ascii_lower(s).len() == s.len(),
        'A' <= s[i] <= 'Z' ==> ascii_lower(s)[i] as u32 == s[i] as u32 + 32,
        !('A' <= s[i] <= 'Z') ==> ascii_lower(s)[i] == s[i],
{
}

/// A text without white space is one word.
pub proof fn law_one_word(w: Seq<char>)
    requires
        w.len() > 0,
        forall|i: int| 0 <= i < w.len() ==> !is_white(#[trigger] w[i]),
    ensures
        words(w) == seq![w],
{
    lemma_word_to(w, 0, w.len() as int);
    assert(w.subrange(0, w.len() as int) =~= w);
    assert(words_from(w, w.len() as int) =~= Seq::<Seq<char>>::empty());
    assert(words(w) =~= seq![w]);
}

proof fn lemma_word_to(s: Seq<char>, from: int, to: int)
    requires
        0 <= from <= to <= s.len(),
        forall|i: int| from <= i < to ==> !is_white(#[trigger] s[i]),
        to < s.len() ==> is_white(s[to]),
    ensures
        word_end(s, from) == to,
    decreases to - from,
{
    if from < to {
        assert(!is_white(s[from]));
        lemma_word_to(s, from + 1, to);
    }
}

proof fn lemma_words_later(s: Seq<char>, t: Seq<char>, from: int)
    requires
        0 <= from <= t.len(),
    ensures
        words_from(s + t, s.len() + from) == words_from(t, from),
    decreases t.len() - from,
{
    let u = s + t;
    if from < t.len() {
        assert(u[s.len() + from] == t[from]);
        if is_white(t[from]) {
            lemma_words_later(s, t, from + 1);
        } else {
            lemma_word_end_later(s, t, from);
            let end = word_end(t, from);
            lemma_word_end(t, from);
            if end > from && end <= t.len() {
                lemma_words_later(s, t, end);
                assert(u.subrange(s.len() + from, s.len() + end) =~= t.subrange(from, end));
            }
        }
    }
}

proof fn lemma_word_end_later(s: Seq<char>, t: Seq<char>, from: int)
    requires
        0 <= from <= t.len(),
    ensures
        word_end(s + t, s.len() + from) == s.len() + word_end(t, from),
    decreases t.len() - from,
{
    if from < t.len() {
        assert((s + t)[s.len() + from] == t[from]);
        if !is_white(t[from]) {
            lemma_word_end_later(s, t, from + 1);
        }
    }
}

/// The words of a text are its first word and the words of what follows the
/// white space behind it.
pub proof fn law_first_word(w: Seq<char>, white: char, rest: Seq<char>)
    requires
        w.len() > 0,
        forall|i: int| 0 <= i < w.len() ==> !is_white(#[trigger] w[i]),
        is_white(white),
    ensures
        words(w + seq![white] + rest) == seq![w] + words(rest),
{
    let s = w + seq![white];
    let u = s + rest;
    assert forall|i: int| 0 <= i < w.len() implies !is_white(#[trigger] u[i]) by {
        assert(u[i] == w[i]);
    }
    assert(u[w.len() as int] == white);
    assert(u[0] == w[0]);
    lemma_word_to(u, 0, w.len() as int);
    assert(u.subrange(0, w.len() as int) =~= w);
    lemma_words_later(s, rest, 0);
    assert(words_from(u, w.len() as int) == words_from(u, w.len() + 1int));
}

/// A byte reads as two hexadecimal digits, the higher one first, with capital
/// letters from ten on.
pub proof fn law_two_hexadecimal_digits(high: u8, low: u8)
    requires
        high < 16,
        low < 16,
    ensures
        ({
            let s = hex2((high * 16 + low) as u8);
            &&& s.len() == 2
            &&& high < 10 ==> s[0] as u32 == 48 + high
            &&& high >= 10 ==> s[0] as u32 == 65 + (high - 10)
            &&& low < 10 ==> s[1] as u32 == 48 + low
            &&& low >= 10 ==> s[1] as u32 == 65 + (low - 10)
        }),
{
    let b = (high * 16 + low) as u8;
    assert(b / 16 == high);
    assert(b % 16 == low);
}

} // verus!
