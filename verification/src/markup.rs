//! Text as it stands in HTML: escaped characters and numbers, written by
//! `maud`.

use vstd::prelude::*;

verus! {

/// What one character of text becomes in HTML: the four characters that
/// HTML reads as markup turn into entities, every other stays as it is.
pub open spec fn escaped_char(c: char) -> Seq<char> {
    if c == '&' {
        seq!['&', 'a', 'm', 'p', ';']
    } else if c == '<' {
        seq!['&', 'l', 't', ';']
    } else if c == '>' {
        seq!['&', 'g', 't', ';']
    } else if c == '"' {
        seq!['&', 'q', 'u', 'o', 't', ';']
    } else {
        seq![c]
    }
}

/// Text escaped for HTML, character by character.
pub open spec fn html_escaped(text: Seq<char>) -> Seq<char> {
    text.map_values(|c: char| escaped_char(c)).flatten()
}

/// HTML reads the character as the start or the end of markup.
pub open spec fn is_markup(c: char) -> bool {
    c == '<' || c == '>' || c == '"'
}

/// Escaped text holds no character that HTML reads as markup: whatever the
/// text, a page shows it as text.
pub proof fn lemma_escaped_is_text(text: Seq<char>, i: int)
    requires
        0 <= i < html_escaped(text).len(),
    ensures
        !is_markup(html_escaped(text)[i]),
    decreases text.len(),
{
    let escape = |c: char| escaped_char(c);
    if text.len() > 0 {
        let rest = text.drop_last();
        assert(text.map_values(escape) =~= rest.map_values(escape).push(escaped_char(text.last())));
        rest.map_values(escape).lemma_flatten_push(escaped_char(text.last()));
        if i < html_escaped(rest).len() {
            lemma_escaped_is_text(rest, i);
        }
    }
}

/// The character that writes a digit below sixteen.
pub open spec fn digit_char(digit: nat) -> char {
    seq!['0', '1', '2', '3', '4', '5', '6', '7', '8', '9', 'a', 'b', 'c', 'd', 'e', 'f'][digit as int]
}

/// A number in decimal, without leading zeros.
pub open spec fn decimal(n: nat) -> Seq<char>
    decreases n,
{
    if n < 10 {
        seq![digit_char(n)]
    } else {
        decimal(n / 10).push(digit_char(n % 10))
    }
}

/// A number in lower-case hexadecimal, without leading zeros.
pub open spec fn hexadecimal(n: nat) -> Seq<char>
    decreases n,
{
    if n < 16 {
        seq![digit_char(n)]
    } else {
        hexadecimal(n / 16).push(digit_char(n % 16))
    }
}

/// Appends `text` to `out`, escaped for HTML.
///
/// Calls `maud::Render::render_to` on a `str`, which walks the text and
/// writes `&amp;` for `&`, `&lt;` for `<`, `&gt;` for `>`, `&quot;` for `"`,
/// and every other character unchanged.
#[verifier::external_body]
pub(crate) fn push_escaped(out: &mut String, text: &str)
    ensures
        final(out)@ == old(out)@ + html_escaped(text@),
{
    maud::Render::render_to(text, out);
}

/// Appends `n` to `out` in decimal.
///
/// Calls `maud::Render::render_to` on a `usize`, which writes the number
/// as `itoa` formats it: in decimal, without sign or leading zeros.
#[verifier::external_body]
pub(crate) fn push_number(out: &mut String, n: usize)
    ensures
        final(out)@ == old(out)@ + decimal(n as nat),
{
    maud::Render::render_to(&n, out);
}

/// The document type declaration that opens an HTML page.
///
/// Hands out `maud::DOCTYPE`, the literal `<!DOCTYPE html>`.
#[verifier::external_body]
pub(crate) fn doctype() -> (tag: &'static str)
    ensures
        tag@ == "<!DOCTYPE html>"@,
{
    maud::DOCTYPE.0
}

/// The text that writes one digit below sixteen.
fn digit_text(digit: usize) -> (text: &'static str)
    requires
        digit < 16,
    ensures
        text@ == seq![digit_char(digit as nat)],
{
    proof {
        reveal_strlit("0123456789abcdef");
    }
    "0123456789abcdef".substring_ascii(digit, digit + 1)
}

/// Appends `n` to `out` in lower-case hexadecimal.
pub fn push_hexadecimal(out: &mut String, n: usize)
    ensures
        final(out)@ == old(out)@ + hexadecimal(n as nat),
    decreases n,
{
    if n < 16 {
        out.append(digit_text(n));
    } else {
        push_hexadecimal(out, n / 16);
        out.append(digit_text(n % 16));
    }
}

} // verus!
