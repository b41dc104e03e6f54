//! The lines that a build shows.

use vstd::prelude::*;
use vstd::string::*;

verus! {

/// The width that what is done is aligned to.
pub const STATUS_WIDTH: usize = 15;

/// The width of a header.
pub const HEADER_WIDTH: usize = 44;

/// The width of a text on a terminal, in columns.
pub uninterp spec fn text_width(s: Seq<char>) -> nat;

/// `console::measure_text_width`: the width of a text in columns.
#[verifier::external_body]
fn measure_text_width(s: &str) -> (r: usize)
    ensures
        r as nat == text_width(s@),
{
    console::measure_text_width(s)
}

/// Whether `r` is the text, or the text in bright bold magenta.
pub open spec fn is_highlighted(text: Seq<char>, r: Seq<char>) -> bool {
    r == text || r == "\x1b[38;5;13m\x1b[1m"@ + text + "\x1b[0m"@
}

/// Whether `r` is the text, or the text dimmed.
pub open spec fn is_dimmed(text: Seq<char>, r: Seq<char>) -> bool {
    r == text || r == "\x1b[2m"@ + text + "\x1b[0m"@
}

/// `console::style` with `magenta`, `bright` and `bold`, as text: the text alone where colours
/// are switched off, which depends on the terminal, else between the codes for the style and the
/// code that ends it.
#[verifier::external_body]
fn highlight(text: &str) -> (r: String)
    ensures
        is_highlighted(text@, r@),
{
    console::style(text).magenta().bright().bold().to_string()
}

/// `console::style` with `dim`, as text: the text alone where colours are switched off, which
/// depends on the terminal, else between the code for the style and the code that ends it.
#[verifier::external_body]
fn dim(text: &str) -> (r: String)
    ensures
        is_dimmed(text@, r@),
{
    console::style(text).dim().to_string()
}

/// A number of equal characters.
pub open spec fn repeated(c: char, n: nat) -> Seq<char> {
    Seq::new(n, |i: int| c)
}

/// A text with spaces before it, up to a width.
pub open spec fn aligned(s: Seq<char>, width: nat) -> Seq<char> {
    repeated(
        ' ',
        if s.len() < width {
            (width - s.len()) as nat
        } else {
            0
        },
    ) + s
}

fn push_repeated(out: &mut String, c: char, n: usize)
    ensures
        final(out)@ == old(out)@ + repeated(c, n as nat),
{
    let ghost start = out@;
    let mut i: usize = 0;
    assert(out@ =~= start + repeated(c, 0));
    while i < n
        invariant
            i <= n,
            out@ == start + repeated(c, i as nat),
        decreases n - i,
    {
        out.push(c);
        assert(out@ =~= start + repeated(c, (i + 1) as nat));
        i = i + 1;
    }
}

/// Puts spaces before a text, up to [`STATUS_WIDTH`].
pub fn align(s: &str) -> (r: String)
    ensures
        r@ == aligned(s@, STATUS_WIDTH as nat),
{
    let n: usize = s.unicode_len();
    let mut out = String::new();
    if n < STATUS_WIDTH {
        push_repeated(&mut out, ' ', STATUS_WIDTH - n);
    }
    out.append(s);
    assert(out@ =~= aligned(s@, STATUS_WIDTH as nat));
    out
}

/// A line that says what is done: the verb, aligned and highlighted, and the rest.
pub fn format_status(verb: &str, message: &str) -> (r: String)
    ensures
        exists|styled: Seq<char>| #[trigger]
            is_highlighted(aligned(verb@, STATUS_WIDTH as nat), styled) && r@ == styled + " "@
                + message@,
{
    let mut out = highlight(align(verb).as_str());
    let ghost styled = out@;
    out.append(" ");
    out.append(message);
    assert(is_highlighted(aligned(verb@, STATUS_WIDTH as nat), styled));
    out
}

/// A line that says a detail: its label, aligned and dimmed, and its value.
pub fn format_detail(label: &str, value: &str) -> (r: String)
    ensures
        exists|styled: Seq<char>| #[trigger]
            is_dimmed(aligned(label@, STATUS_WIDTH as nat), styled) && r@ == styled + " "@ + value@,
{
    let mut out = dim(align(label).as_str());
    let ghost styled = out@;
    out.append(" ");
    out.append(value);
    assert(is_dimmed(aligned(label@, STATUS_WIDTH as nat), styled));
    out
}

/// What a header begins with.
pub open spec fn header_prefix(text: Seq<char>) -> Seq<char> {
    "  ── "@ + text + " "@
}

/// A header whose beginning has the given width: a line goes on up to [`HEADER_WIDTH`].
pub open spec fn header_text(text: Seq<char>, width: nat) -> Seq<char> {
    header_prefix(text) + repeated(
        '─',
        if width < HEADER_WIDTH {
            (HEADER_WIDTH - width) as nat
        } else {
            0
        },
    )
}

fn prefix_of_header(text: &str) -> (r: String)
    ensures
        r@ == header_prefix(text@),
{
    let mut out = String::from_str("  ── ");
    out.append(text);
    out.append(" ");
    out
}

/// A header whose beginning has the given width.
pub fn header_line(text: &str, width: usize) -> (r: String)
    ensures
        r@ == header_text(text@, width as nat),
{
    let mut out = prefix_of_header(text);
    if width < HEADER_WIDTH {
        push_repeated(&mut out, '─', HEADER_WIDTH - width);
    }
    assert(out@ =~= header_text(text@, width as nat));
    out
}

/// A header: an empty line, and the text in a dimmed line.
pub fn format_header(text: &str) -> (r: String)
    ensures
        exists|styled: Seq<char>| #[trigger]
            is_dimmed(header_text(text@, text_width(header_prefix(text@))), styled) && r@ == "\n"@
                + styled,
{
    let prefix = prefix_of_header(text);
    let width: usize = measure_text_width(prefix.as_str());
    let line = header_line(text, width);
    let styled = dim(line.as_str());
    let mut out = String::from_str("\n");
    out.append(styled.as_str());
    assert(is_dimmed(header_text(text@, text_width(header_prefix(text@))), styled@));
    out
}


/// An aligned text ends in the text and begins with spaces alone; it is as wide as asked for, and
/// wider only where the text is.
pub proof fn law_aligned(s: Seq<char>, width: nat)
    ensures
        ({
            let r = aligned(s, width);
            &&& s.is_suffix_of(r)
            &&& r.len() >= width && r.len() >= s.len()
            &&& r.len() == width || r.len() == s.len()
            &&& forall|i: int| 0 <= i < r.len() - s.len() ==> #[trigger] r[i] == ' '
        }),
{
    let r = aligned(s, width);
    assert(r.skip(r.len() - s.len()) =~= s);
}

/// What is shown is aligned to fifteen columns and a header to forty-four.
pub proof fn law_widths(s: &str, r: String)
    requires
        call_ensures(align, (s,), r),
    ensures
        s@.len() <= 15 ==> r@.len() == 15,
        s@.len() >= 15 ==> r@ == s@,
        s@.is_suffix_of(r@),
{
    law_aligned(s@, 15);
    if s@.len() >= 15 {
        assert(aligned(s@, 15) =~= s@);
    }
}

/// A header begins alike whatever its width, ends in a line alone, and the line makes up for what
/// the beginning leaves of the forty-four columns.
pub proof fn law_header_line(text: &str, width: usize, r: String)
    requires
        call_ensures(header_line, (text, width), r),
    ensures
        header_prefix(text@).is_prefix_of(r@),
        text@.len() + 6 == header_prefix(text@).len(),
        header_prefix(text@).subrange(5, text@.len() as int + 5) == text@,
        width <= 44 ==> r@.len() - header_prefix(text@).len() + width == 44,
        width >= 44 ==> r@ == header_prefix(text@),
        forall|i: int|
            header_prefix(text@).len() <= i < r@.len() ==> #[trigger] r@[i] == '─',
{
    reveal_strlit("  ── ");
    reveal_strlit(" ");
    let p = header_prefix(text@);
    assert(r@.take(p.len() as int) =~= p);
    assert(p.subrange(5, text@.len() as int + 5) =~= text@);
    if width >= 44 {
        assert(r@ =~= p);
    }
}

} // verus!
