//! Drawings in text: the icon of this host and the logo.

use vstd::prelude::*;
use vstd::string::*;

use crate::order;
use crate::text;
use crate::text::{chars_of, drop_char, drop_suffixes, part, push_repeat, split_chars, trim};

verus! {

// ---------------------------------------------------------------------------
// The icon
// ---------------------------------------------------------------------------

/// The empty character of braille drawings.
pub const BLANK: char = '\u{2800}';

/// A character that shows nothing.
pub open spec fn is_blank(c: char) -> bool {
    c == BLANK || c == ' '
}

/// A line of a drawing shows something.
pub open spec fn shows(line: Seq<char>) -> bool {
    text::trimmed(text::without_char(line, BLANK)).len() > 0
}

/// The number of characters at the beginning of a line that show nothing.
pub open spec fn leading_blanks(line: Seq<char>) -> nat
    decreases line.len(),
{
    if line.len() > 0 && is_blank(line[0]) {
        1 + leading_blanks(line.skip(1))
    } else {
        0
    }
}

/// A line without the characters at its end that show nothing.
pub open spec fn without_blank_end(line: Seq<char>) -> Seq<char>
    decreases line.len(),
{
    if line.len() > 0 && is_blank(line.last()) {
        without_blank_end(line.drop_last())
    } else {
        line
    }
}

/// The lines of a drawing that show something.
pub open spec fn drawn_lines(raw: Seq<char>) -> Seq<Seq<char>> {
    text::split(raw, '\n').filter_map(
        |l: Seq<char>|
            if shows(text::without_suffixes(l, "\r"@)) {
                Some(text::without_suffixes(l, "\r"@))
            } else {
                None
            },
    )
}

/// The number of characters by which all of the first `n` lines are indented.
pub open spec fn indent(lines: Seq<Seq<char>>, n: int) -> nat
    decreases n,
{
    if n <= 0 || n > lines.len() {
        0
    } else if n == 1 || leading_blanks(lines[n - 1]) < indent(lines, n - 1) {
        leading_blanks(lines[n - 1])
    } else {
        indent(lines, n - 1)
    }
}

/// A drawing without what is empty around it.
pub open spec fn cropped(raw: Seq<char>) -> Seq<Seq<char>> {
    let lines = drawn_lines(raw);
    if lines.len() == 0 {
        seq!["[HOST]"@]
    } else {
        lines.map_values(
            |l: Seq<char>| without_blank_end(l.skip(indent(lines, lines.len() as int) as int)),
        )
    }
}

fn draw_line(l: &str) -> (r: Option<String>)
    ensures
        text::text_view(r) == (if shows(text::without_suffixes(l@, "\r"@)) {
            Some(text::without_suffixes(l@, "\r"@))
        } else {
            None
        }),
{
    let line = drop_suffixes(l, "\r");
    let bare = drop_char(line.as_str(), BLANK);
    if trim(bare.as_str()).as_str().unicode_len() > 0 {
        Some(line)
    } else {
        None
    }
}

fn draw_lines(raw: &str) -> (r: Vec<String>)
    ensures
        text::texts(r@) == drawn_lines(raw@),
{
    let c = chars_of(raw);
    let pieces = split_chars(c.as_slice(), '\n');
    let ghost all = text::texts(pieces@);
    let ghost f = |l: Seq<char>|
        if shows(text::without_suffixes(l, "\r"@)) {
            Some(text::without_suffixes(l, "\r"@))
        } else {
            None
        };
    let mut r: Vec<String> = Vec::new();
    let n: usize = pieces.len();
    assert(text::texts(r@) =~= all.take(0).filter_map(f));
    for i in 0..n
        invariant
            n == pieces@.len(),
            all == text::texts(pieces@),
            f == (|l: Seq<char>|
                if shows(text::without_suffixes(l, "\r"@)) {
                    Some(text::without_suffixes(l, "\r"@))
                } else {
                    None
                }),
            text::texts(r@) == all.take(i as int).filter_map(f),
    {
        proof {
            all.lemma_filter_map_take_succ(f, i as int);
            assert(all[i as int] == pieces@[i as int]@);
        }
        let ghost before = text::texts(r@);
        assert(before + Seq::<Seq<char>>::empty() =~= before);
        match draw_line(pieces[i].as_str()) {
            Some(l) => {
                let ghost v = l@;
                r.push(l);
                assert(text::texts(r@) =~= before + seq![v]);
            },
            None => {},
        }
    }
    assert(all.take(n as int) =~= all);
    r
}

fn count_leading(line: &str) -> (r: usize)
    ensures
        r == leading_blanks(line@),
        r <= line@.len(),
{
    let c = chars_of(line);
    let mut i: usize = 0;
    assert(line@.skip(0) =~= line@);
    while i < c.len() && (c[i] == BLANK || c[i] == ' ')
        invariant
            i <= c@.len(),
            c@ == line@,
            leading_blanks(line@) == i + leading_blanks(line@.skip(i as int)),
        decreases c@.len() - i,
    {
        assert(line@.skip(i as int).skip(1) =~= line@.skip(i + 1));
        i = i + 1;
    }
    i
}

fn strip_end(c: &[char], from: usize) -> (r: String)
    requires
        from <= c@.len(),
    ensures
        r@ == without_blank_end(c@.skip(from as int)),
{
    let ghost line = c@.skip(from as int);
    let mut n: usize = c.len();
    assert(c@.subrange(from as int, n as int) =~= line);
    while n > from && (c[n - 1] == BLANK || c[n - 1] == ' ')
        invariant
            from <= n <= c@.len(),
            without_blank_end(line) == without_blank_end(c@.subrange(from as int, n as int)),
        decreases n,
    {
        assert(c@.subrange(from as int, n as int).drop_last() =~= c@.subrange(
            from as int,
            n - 1,
        ));
        n = n - 1;
    }
    part(c, from, n)
}

proof fn lemma_indent(lines: Seq<Seq<char>>, n: int, i: int)
    requires
        0 <= i < n <= lines.len(),
    ensures
        indent(lines, n) <= leading_blanks(lines[i]),
    decreases n,
{
    if i < n - 1 {
        lemma_indent(lines, n - 1, i);
    }
}

proof fn lemma_leading(line: Seq<char>)
    ensures
        leading_blanks(line) <= line.len(),
    decreases line.len(),
{
    if line.len() > 0 && is_blank(line[0]) {
        lemma_leading(line.skip(1));
    }
}

/// A drawing without what is empty around it, line by line.
pub fn crop_icon(raw: &str) -> (r: Vec<String>)
    ensures
        text::texts(r@) == cropped(raw@),
{
    let lines = draw_lines(raw);
    let ghost all = drawn_lines(raw@);
    let n: usize = lines.len();
    assert(all.len() == lines@.len());
    let mut r: Vec<String> = Vec::new();
    if n == 0 {
        r.push("[HOST]".to_owned());
        assert(text::texts(r@) =~= seq!["[HOST]"@]);
        return r;
    }
    let mut by: usize = 0;
    for i in 0..n
        invariant
            n == lines@.len(),
            all == text::texts(lines@),
            by == indent(all, i as int),
    {
        assert(all[i as int] == lines@[i as int]@);
        let own: usize = count_leading(lines[i].as_str());
        if i == 0 || own < by {
            by = own;
        }
    }
    for i in 0..n
        invariant
            n == lines@.len(),
            all == text::texts(lines@),
            by == indent(all, n as int),
            r@.len() == i,
            forall|j: int|
                0 <= j < i ==> (#[trigger] r@[j])@ == without_blank_end(all[j].skip(by as int)),
    {
        assert(all[i as int] == lines@[i as int]@);
        proof {
            lemma_indent(all, n as int, i as int);
            lemma_leading(all[i as int]);
        }
        let c = chars_of(lines[i].as_str());
        r.push(strip_end(c.as_slice(), by));
    }
    assert(text::texts(r@) =~= cropped(raw@));
    r
}

// ---------------------------------------------------------------------------
// The logo
// ---------------------------------------------------------------------------

/// The lines of the logo.
pub const LOGO: [&'static str; 10] = [
    "",
    " _    ______  ____  ___           ",
    "| |  / / __ \\/ __ \\/   |          ",
    "| | / / / / / /_/ / /| |          ",
    "| |/ / /_/ / _, _/ ___ |          ",
    "|___/\\____/_/_|_/_/__|_|__  _   __",
    "   / __ \\/ ____/ ____/ __ \\/ | / /",
    "  / /_/ / __/ / /   / / / /  |/ / ",
    " / _, _/ /___/ /___/ /_/ / /|  /  ",
    "/_/ |_/_____/\\____/\\____/_/ |_/   ",
];

/// The first `n` lines of the logo, each behind a space.
pub open spec fn logo_lines(n: int) -> Seq<char>
    decreases n,
{
    if n <= 0 || n > LOGO@.len() {
        Seq::empty()
    } else {
        logo_lines(n - 1) + " "@ + LOGO@[n - 1]@ + "\n"@
    }
}

/// The number of empty lines above the logo in an area of some rows.
pub open spec fn logo_space(height: u16) -> int {
    order::above(order::above(height as int, 2), LOGO@.len() as int) / 2
}

/// The logo, in the middle of an area of some rows.
pub fn logo_text(height: u16) -> (r: String)
    ensures
        r@ == text::repeat('\n', logo_space(height) as nat) + logo_lines(LOGO@.len() as int),
{
    let inner: u16 = height.saturating_sub(2);
    let n: usize = LOGO.len();
    let space: usize = if inner as usize > n {
        (inner as usize - n) / 2
    } else {
        0
    };
    let mut r = String::new();
    push_repeat(&mut r, '\n', space);
    let ghost head = text::repeat('\n', space as nat);
    assert(r@ =~= head + logo_lines(0));
    for i in 0..n
        invariant
            n == LOGO@.len(),
            r@ == head + logo_lines(i as int),
    {
        let ghost before = logo_lines(i as int);
        r.append(" ");
        r.append(LOGO[i]);
        r.append("\n");
        assert(r@ =~= head + (before + " "@ + LOGO@[i as int]@ + "\n"@));
    }
    r
}

/// A cropped drawing ends no line with a blank; what is cut off at the left is
/// blank in every line, and nothing more can be.
pub proof fn law_drawing_cropped(lines: Seq<Seq<char>>, n: int, i: int)
    requires
        0 <= i < n <= lines.len(),
    ensures
        indent(lines, n) <= leading_blanks(lines[i]),
        exists|k: int| 0 <= k < n && indent(lines, n) == leading_blanks(#[trigger] lines[k]),
        without_blank_end(lines[i]).len() > 0 ==> without_blank_end(lines[i]).last() != ' '
            && without_blank_end(lines[i]).last() != '\u{2800}',
        without_blank_end(lines[i]).is_prefix_of(lines[i]),
    decreases n,
{
    lemma_blank_end(lines[i]);
    if n == 1 {
        assert(indent(lines, 1) == leading_blanks(lines[0]));
    } else {
        let j = if i < n - 1 { i } else { 0 };
        law_drawing_cropped(lines, n - 1, j);
        let k = choose|k: int|
            0 <= k < n - 1 && indent(lines, n - 1) == leading_blanks(#[trigger] lines[k]);
        if leading_blanks(lines[n - 1]) < indent(lines, n - 1) {
            assert(indent(lines, n) == leading_blanks(lines[n - 1]));
        } else {
            assert(indent(lines, n) == leading_blanks(lines[k]));
        }
    }
}

proof fn lemma_blank_end(line: Seq<char>)
    ensures
        without_blank_end(line).len() > 0 ==> without_blank_end(line).last() != ' '
            && without_blank_end(line).last() != '\u{2800}',
        without_blank_end(line).is_prefix_of(line),
    decreases line.len(),
{
    if line.len() > 0 && is_blank(line.last()) {
        lemma_blank_end(line.drop_last());
    }
}

} // verus!
