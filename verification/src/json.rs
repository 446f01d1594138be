//! Building JSON text: string escaping, quoting, and serialization of the
//! payload types to their JSON object form.

use vstd::prelude::*;
use vstd::string::StrSliceExecFns;
use vstd::string::StringExecFns;

verus! {

/// Relies on `alloc::string::String::push`: appends the given char to the
/// end of the string.
pub assume_specification[ String::push ](s: &mut String, c: char)
    ensures
        final(s)@ == old(s)@.push(c),
;

/// The lowercase hex digit for a value below 16.
pub open spec fn spec_hex_digit(d: u32) -> char {
    if d == 0 {
        '0'
    } else if d == 1 {
        '1'
    } else if d == 2 {
        '2'
    } else if d == 3 {
        '3'
    } else if d == 4 {
        '4'
    } else if d == 5 {
        '5'
    } else if d == 6 {
        '6'
    } else if d == 7 {
        '7'
    } else if d == 8 {
        '8'
    } else if d == 9 {
        '9'
    } else if d == 10 {
        'a'
    } else if d == 11 {
        'b'
    } else if d == 12 {
        'c'
    } else if d == 13 {
        'd'
    } else if d == 14 {
        'e'
    } else {
        'f'
    }
}

/// How one character appears inside a JSON string literal: quotes and
/// backslashes get a two-character escape, the common control characters get
/// their short escape, the remaining control characters get a `\u00xy`
/// escape, and every other character stands for itself.
pub open spec fn spec_escape_char(c: char) -> Seq<char> {
    if c == '"' {
        seq!['\\', '"']
    } else if c == '\\' {
        seq!['\\', '\\']
    } else if c == '\u{8}' {
        seq!['\\', 'b']
    } else if c == '\t' {
        seq!['\\', 't']
    } else if c == '\n' {
        seq!['\\', 'n']
    } else if c == '\u{c}' {
        seq!['\\', 'f']
    } else if c == '\r' {
        seq!['\\', 'r']
    } else if (c as u32) < 32 {
        seq!['\\', 'u', '0', '0', spec_hex_digit((c as u32) / 16), spec_hex_digit((c as u32) % 16)]
    } else {
        seq![c]
    }
}

/// The body of a JSON string literal for `s`: each character escaped.
pub open spec fn spec_escape(s: Seq<char>) -> Seq<char>
    decreases s.len(),
{
    if s.len() == 0 {
        Seq::empty()
    } else {
        spec_escape_char(s[0]) + spec_escape(s.skip(1))
    }
}

/// The JSON string literal for `s`: the escaped body between double quotes.
pub open spec fn spec_quote(s: Seq<char>) -> Seq<char> {
    seq!['"'] + spec_escape(s) + seq!['"']
}

/// Escaping distributes over concatenation.
pub proof fn lemma_escape_append(a: Seq<char>, b: Seq<char>)
    ensures
        spec_escape(a + b) == spec_escape(a) + spec_escape(b),
    decreases a.len(),
{
    if a.len() == 0 {
        assert(a + b =~= b);
        assert(spec_escape(a) + spec_escape(b) =~= spec_escape(b));
    } else {
        assert((a + b).skip(1) =~= a.skip(1) + b);
        lemma_escape_append(a.skip(1), b);
        assert(spec_escape_char((a + b)[0]) == spec_escape_char(a[0]));
        assert(spec_escape_char(a[0]) + (spec_escape(a.skip(1)) + spec_escape(b)) =~= (
        spec_escape_char(a[0]) + spec_escape(a.skip(1))) + spec_escape(b));
    }
}

/// Escaping a one-character sequence is escaping that character.
pub proof fn lemma_escape_one(c: char)
    ensures
        spec_escape(seq![c]) == spec_escape_char(c),
{
    assert(seq![c].skip(1) =~= Seq::<char>::empty());
    assert(spec_escape(Seq::<char>::empty()) == Seq::<char>::empty());
    assert(spec_escape(seq![c]) == spec_escape_char(c) + Seq::<char>::empty());
    assert(spec_escape_char(c) + Seq::<char>::empty() =~= spec_escape_char(c));
}

/// The lowercase hex digit for `d`, which must be below 16.
fn hex_digit(d: u32) -> (c: char)
    requires
        d < 16,
    ensures
        c == spec_hex_digit(d),
{
    if d == 0 {
        '0'
    } else if d == 1 {
        '1'
    } else if d == 2 {
        '2'
    } else if d == 3 {
        '3'
    } else if d == 4 {
        '4'
    } else if d == 5 {
        '5'
    } else if d == 6 {
        '6'
    } else if d == 7 {
        '7'
    } else if d == 8 {
        '8'
    } else if d == 9 {
        '9'
    } else if d == 10 {
        'a'
    } else if d == 11 {
        'b'
    } else if d == 12 {
        'c'
    } else if d == 13 {
        'd'
    } else if d == 14 {
        'e'
    } else {
        'f'
    }
}

/// Append the escaped form of one character to `out`.
fn push_escaped_char(out: &mut String, c: char)
    ensures
        final(out)@ == old(out)@ + spec_escape_char(c),
{
    if c == '"' {
        out.push('\\');
        out.push('"');
    } else if c == '\\' {
        out.push('\\');
        out.push('\\');
    } else if c == '\u{8}' {
        out.push('\\');
        out.push('b');
    } else if c == '\t' {
        out.push('\\');
        out.push('t');
    } else if c == '\n' {
        out.push('\\');
        out.push('n');
    } else if c == '\u{c}' {
        out.push('\\');
        out.push('f');
    } else if c == '\r' {
        out.push('\\');
        out.push('r');
    } else if (c as u32) < 32 {
        let n: u32 = c as u32;
        out.push('\\');
        out.push('u');
        out.push('0');
        out.push('0');
        let hi = hex_digit(n / 16);
        let lo = hex_digit(n % 16);
        out.push(hi);
        out.push(lo);
        assert(final(out)@ =~= old(out)@ + spec_escape_char(c));
    } else {
        out.push(c);
    }
    assert(final(out)@ =~= old(out)@ + spec_escape_char(c));
}

/// Append the JSON string literal for `s` (quotes included) to `out`.
pub fn write_json_string(out: &mut String, s: &str)
    ensures
        final(out)@ == old(out)@ + spec_quote(s@),
{
    out.push('"');
    let len = s.unicode_len();
    let mut i: usize = 0;
    while i < len
        invariant
            len == s@.len(),
            i <= len,
            out@ == old(out)@ + seq!['"'] + spec_escape(s@.take(i as int)),
        decreases len - i,
    {
        let c = s.get_char(i);
        push_escaped_char(out, c);
        proof {
            assert(s@.take(i + 1) =~= s@.take(i as int) + seq![s@[i as int]]);
            lemma_escape_append(s@.take(i as int), seq![s@[i as int]]);
            lemma_escape_one(s@[i as int]);
            assert((old(out)@ + seq!['"'] + spec_escape(s@.take(i as int))) + spec_escape_char(
                s@[i as int],
            ) =~= old(out)@ + seq!['"'] + (spec_escape(s@.take(i as int)) + spec_escape_char(
                s@[i as int],
            )));
        }
        i = i + 1;
    }
    out.push('"');
    proof {
        assert(s@.take(len as int) =~= s@);
        assert((old(out)@ + seq!['"'] + spec_escape(s@)).push('"') =~= old(out)@ + spec_quote(s@));
    }
}

/// The JSON texts of the given strings, each quoted, separated by commas.
pub open spec fn spec_quoted_list(items: Seq<Seq<char>>) -> Seq<char>
    decreases items.len(),
{
    if items.len() == 0 {
        Seq::empty()
    } else if items.len() == 1 {
        spec_quote(items[0])
    } else {
        spec_quote(items[0]) + ","@ + spec_quoted_list(items.skip(1))
    }
}

/// Appending one string to a non-empty list appends a comma and its quoted
/// form to the list's text.
pub proof fn lemma_quoted_list_push(items: Seq<Seq<char>>, x: Seq<char>)
    requires
        items.len() >= 1,
    ensures
        spec_quoted_list(items.push(x)) == spec_quoted_list(items) + ","@ + spec_quote(x),
    decreases items.len(),
{
    if items.len() == 1 {
        assert(items.push(x).skip(1) =~= seq![x]);
        assert(spec_quoted_list(seq![x]) == spec_quote(x));
    } else {
        assert(items.push(x).skip(1) =~= items.skip(1).push(x));
        lemma_quoted_list_push(items.skip(1), x);
        assert(items.push(x)[0] == items[0]);
        assert(spec_quote(items[0]) + ","@ + (spec_quoted_list(items.skip(1)) + ","@ + spec_quote(
            x,
        )) =~= (spec_quote(items[0]) + ","@ + spec_quoted_list(items.skip(1))) + ","@ + spec_quote(
            x,
        ));
    }
}

/// A quoted list's text is at least as long as its element count.
pub proof fn lemma_quoted_list_len(items: Seq<Seq<char>>)
    ensures
        spec_quoted_list(items).len() >= items.len(),
    decreases items.len(),
{
    if items.len() <= 1 {
    } else {
        lemma_quoted_list_len(items.skip(1));
    }
}

/// Append the comma-separated quoted forms of `items` to `out`.
pub fn write_quoted_list(out: &mut String, items: &Vec<String>)
    ensures
        final(out)@ == old(out)@ + spec_quoted_list(items@.map_values(|e: String| e@)),
{
    let ghost views = items@.map_values(|e: String| e@);
    if items.len() == 0 {
        proof {
            assert(old(out)@ + spec_quoted_list(views) =~= old(out)@);
        }
        return ;
    }
    write_json_string(out, items[0].as_str());
    let mut i: usize = 1;
    while i < items.len()
        invariant
            1 <= i <= items.len(),
            views == items@.map_values(|e: String| e@),
            views.len() == items@.len(),
            out@ == old(out)@ + spec_quoted_list(views.take(i as int)),
        decreases items@.len() - i,
    {
        out.append(",");
        write_json_string(out, items[i].as_str());
        proof {
            assert(views.take(i + 1) =~= views.take(i as int).push(views[i as int]));
            lemma_quoted_list_push(views.take(i as int), views[i as int]);
            reveal_strlit(",");
            assert(","@ =~= seq![',']);
            assert((old(out)@ + spec_quoted_list(views.take(i as int))) + ","@ + spec_quote(
                views[i as int],
            ) =~= old(out)@ + spec_quoted_list(views.take(i + 1)));
        }
        i = i + 1;
    }
    proof {
        assert(views.take(items@.len() as int) =~= views);
    }
}

/// A payload that can serialize itself as a JSON value.
pub trait ToJson {
    /// The exact JSON text this payload serializes to.
    spec fn json_spec(&self) -> Seq<char>;

    /// Append the JSON text of this payload to `out`.
    fn write_json(&self, out: &mut String)
        ensures
            final(out)@ == old(out)@ + self.json_spec(),
    ;
}

impl ToJson for () {
    /// A unit payload serializes as JSON `null`.
    open spec fn json_spec(&self) -> Seq<char> {
        "null"@
    }

    fn write_json(&self, out: &mut String)
        ensures
            final(out)@ == old(out)@ + self.json_spec(),
    {
        out.append("null");
    }
}

} // verus!
