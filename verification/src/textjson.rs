//! Framing of the rendering context as JSON text.
//!
//! The bundler hands the template engine its context as one JSON object. The
//! object is framed here: account objects arrive as raw JSON text and are
//! spliced in verbatim, while keys and rendered string values are escaped by
//! the rules of JSON string literals.
use vstd::prelude::*;
use vstd::string::StrSliceExecFns;
use vstd::string::StringExecFns;
use crate::types::AuthAccount;

verus! {

/// Lower-case hex digit of a value below 16.
pub open spec fn hex_digit(n: int) -> char {
    if n == 0 { '0' } else if n == 1 { '1' } else if n == 2 { '2' } else if n == 3 { '3' }
    else if n == 4 { '4' } else if n == 5 { '5' } else if n == 6 { '6' } else if n == 7 { '7' }
    else if n == 8 { '8' } else if n == 9 { '9' } else if n == 10 { 'a' } else if n == 11 { 'b' }
    else if n == 12 { 'c' } else if n == 13 { 'd' } else if n == 14 { 'e' } else { 'f' }
}

/// How one character reads inside a JSON string literal: quote and backslash
/// are escaped, control characters take their short or `\u00..` escape, and
/// every other character stands as itself.
pub open spec fn escaped_char(c: char) -> Seq<char> {
    if c == '"' {
        seq!['\\', '"']
    } else if c == '\\' {
        seq!['\\', '\\']
    } else if c == '\n' {
        seq!['\\', 'n']
    } else if c == '\r' {
        seq!['\\', 'r']
    } else if c == '\t' {
        seq!['\\', 't']
    } else if (c as u32) < 32 {
        seq!['\\', 'u', '0', '0', hex_digit((c as u32) as int / 16), hex_digit((c as u32) as int % 16)]
    } else {
        seq![c]
    }
}

/// A character sequence escaped for a JSON string literal.
pub open spec fn escaped(s: Seq<char>) -> Seq<char>
    decreases s.len(),
{
    if s.len() == 0 {
        Seq::empty()
    } else {
        escaped_char(s[0]) + escaped(s.drop_first())
    }
}

/// A character sequence as a JSON string literal, quotes included.
pub open spec fn quoted(s: Seq<char>) -> Seq<char> {
    seq!['"'] + escaped(s) + seq!['"']
}

proof fn lemma_escaped_snoc(t: Seq<char>, x: char)
    ensures
        escaped(t.push(x)) == escaped(t) + escaped_char(x),
    decreases t.len(),
{
    if t.len() == 0 {
        assert(t.push(x)[0] == x);
        assert(t.push(x).drop_first() =~= Seq::<char>::empty());
        assert(escaped(Seq::<char>::empty()) =~= Seq::<char>::empty());
        assert(escaped(t.push(x)) == escaped_char(x) + escaped(Seq::<char>::empty()));
        assert(escaped(t.push(x)) =~= escaped(t) + escaped_char(x));
    } else {
        lemma_escaped_snoc(t.drop_first(), x);
        assert(t.push(x)[0] == t[0]);
        assert(t.push(x).drop_first() =~= t.drop_first().push(x));
        assert(escaped(t.push(x)) =~= escaped(t) + escaped_char(x));
    }
}

/// Relies on `String::push`: appends exactly one character to the string.
#[verifier::external_body]
fn push_char(s: &mut String, c: char)
    ensures
        final(s)@ == old(s)@ + seq![c],
{
    s.push(c);
}

fn hex_digit_char(n: u32) -> (r: char)
    requires
        n < 16,
    ensures
        r == hex_digit(n as int),
{
    if n == 0 { '0' } else if n == 1 { '1' } else if n == 2 { '2' } else if n == 3 { '3' }
    else if n == 4 { '4' } else if n == 5 { '5' } else if n == 6 { '6' } else if n == 7 { '7' }
    else if n == 8 { '8' } else if n == 9 { '9' } else if n == 10 { 'a' } else if n == 11 { 'b' }
    else if n == 12 { 'c' } else if n == 13 { 'd' } else if n == 14 { 'e' } else { 'f' }
}

/// Appends a character sequence escaped for a JSON string literal.
fn append_escaped(out: &mut String, s: &str)
    ensures
        final(out)@ == old(out)@ + escaped(s@),
{
    let n = s.unicode_len();
    let mut i: usize = 0;
    while i < n
        invariant
            i <= n,
            n == s@.len(),
            out@ == old(out)@ + escaped(s@.take(i as int)),
        decreases n - i,
    {
        let c = s.get_char(i);
        if c == '"' {
            push_char(out, '\\');
            push_char(out, '"');
        } else if c == '\\' {
            push_char(out, '\\');
            push_char(out, '\\');
        } else if c == '\n' {
            push_char(out, '\\');
            push_char(out, 'n');
        } else if c == '\r' {
            push_char(out, '\\');
            push_char(out, 'r');
        } else if c == '\t' {
            push_char(out, '\\');
            push_char(out, 't');
        } else if (c as u32) < 32 {
            push_char(out, '\\');
            push_char(out, 'u');
            push_char(out, '0');
            push_char(out, '0');
            push_char(out, hex_digit_char((c as u32) / 16));
            push_char(out, hex_digit_char((c as u32) % 16));
        } else {
            push_char(out, c);
        }
        proof {
            lemma_escaped_snoc(s@.take(i as int), s@[i as int]);
            assert(s@.take(i as int).push(s@[i as int]) =~= s@.take(i as int + 1));
            assert(out@ =~= old(out)@ + escaped(s@.take(i as int + 1)));
        }
        i = i + 1;
    }
    proof {
        assert(s@.take(n as int) =~= s@);
    }
}

/// Appends a character sequence as a JSON string literal, quotes included.
fn append_quoted(out: &mut String, s: &str)
    ensures
        final(out)@ == old(out)@ + quoted(s@),
{
    push_char(out, '"');
    append_escaped(out, s);
    push_char(out, '"');
    proof {
        assert(out@ =~= old(out)@ + quoted(s@));
    }
}

/// One entry of the accounts object: the quoted slug, a colon, and the account
/// object's JSON text spliced in verbatim.
pub open spec fn account_entry_text(slug: Seq<char>, json: Seq<char>) -> Seq<char> {
    quoted(slug) + seq![':'] + json
}

/// The body of the accounts object: its entries joined by commas, in the order
/// the accounts were given.
pub open spec fn accounts_body_text(accounts: Seq<AuthAccount>) -> Seq<char>
    decreases accounts.len(),
{
    if accounts.len() == 0 {
        Seq::empty()
    } else if accounts.len() == 1 {
        account_entry_text(accounts[0].slug@, accounts[0].payload_json@)
    } else {
        accounts_body_text(accounts.drop_last()) + seq![','] + account_entry_text(
            accounts.last().slug@,
            accounts.last().payload_json@,
        )
    }
}

/// The whole context as JSON text: the accounts object keyed by slug, and,
/// once the variables template has been rendered, its rendered text under the
/// key `variables`.
pub open spec fn spec_context_text(accounts: Seq<AuthAccount>, vars: Option<Seq<char>>) -> Seq<
    char,
> {
    "{\"accounts\":{"@ + accounts_body_text(accounts) + "}"@ + (match vars {
        Some(v) => ",\"variables\":"@ + quoted(v),
        None => Seq::<char>::empty(),
    }) + "}"@
}

/// Frames the rendering context as one JSON object: every account object under
/// `accounts.<slug>`, and the rendered variables, when present, under
/// `variables`.
pub fn frame_context(accounts: &Vec<AuthAccount>, variables: Option<&String>) -> (r: String)
    ensures
        r@ == spec_context_text(
            accounts@,
            match variables {
                Some(v) => Some(v@),
                None => None,
            },
        ),
{
    let mut out = String::new();
    out.append("{\"accounts\":{");
    let n = accounts.len();
    let mut i: usize = 0;
    while i < n
        invariant
            i <= n,
            n == accounts.len(),
            out@ == "{\"accounts\":{"@ + accounts_body_text(accounts@.take(i as int)),
        decreases n - i,
    {
        if i > 0 {
            push_char(&mut out, ',');
        }
        append_quoted(&mut out, accounts[i].slug.as_str());
        push_char(&mut out, ':');
        out.append(accounts[i].payload_json.as_str());
        proof {
            assert(accounts@.take(i as int + 1).drop_last() =~= accounts@.take(i as int));
            assert(out@ =~= "{\"accounts\":{"@ + accounts_body_text(accounts@.take(i as int + 1)));
        }
        i = i + 1;
    }
    proof {
        assert(accounts@.take(n as int) =~= accounts@);
    }
    out.append("}");
    match variables {
        Some(v) => {
            out.append(",\"variables\":");
            append_quoted(&mut out, v.as_str());
        },
        None => {},
    }
    out.append("}");
    proof {
        assert(out@ =~= spec_context_text(
            accounts@,
            match variables {
                Some(v) => Some(v@),
                None => None,
            },
        ));
    }
    out
}

} // verus!
