use vstd::prelude::*;
use vstd::string::{StringExecFns, StringSliceAdditionalSpecFns};

use crate::benchmark::{has_prefix, starts_with_bytes};
use crate::bytes::{BACKSLASH, CARRIAGE_RETURN, COMMA, DOUBLE_QUOTE, LINE_FEED, TAB};

verus! {

/// Whether a path names a web resource: it starts with `http://` or `https://`.
pub fn is_url(path: &str) -> (r: bool)
    ensures
        r == (has_prefix(path.spec_bytes(), "http://".spec_bytes()) || has_prefix(
            path.spec_bytes(),
            "https://".spec_bytes(),
        )),
{
    starts_with_bytes(path.as_bytes(), "http://".as_bytes()) || starts_with_bytes(
        path.as_bytes(),
        "https://".as_bytes(),
    )
}

/// What `str::replace` makes of `s` when it doubles every `"`.
pub uninterp spec fn quotes_doubled(s: Seq<char>) -> Seq<char>;

/// Relies on str::replace: `s` with each `"` replaced by `""`.
#[verifier::external_body]
fn double_quotes(s: &str) -> (r: String)
    ensures
        r@ == quotes_doubled(s@),
{
    s.replace('"', "\"\"")
}

/// A CSV value needs quoting when it holds a comma, a quote or a line break.
pub open spec fn needs_csv_quoting(b: Seq<u8>) -> bool {
    exists|i: int|
        0 <= i < b.len() && (#[trigger] b[i] == COMMA || b[i] == DOUBLE_QUOTE || b[i] == LINE_FEED
            || b[i] == CARRIAGE_RETURN)
}

fn has_csv_special(b: &[u8]) -> (r: bool)
    ensures
        r == needs_csv_quoting(b@),
{
    let mut i: usize = 0;
    while i < b.len()
        invariant
            0 <= i <= b@.len(),
            forall|k: int|
                0 <= k < i ==> !(#[trigger] b@[k] == COMMA || b@[k] == DOUBLE_QUOTE || b@[k]
                    == LINE_FEED || b@[k] == CARRIAGE_RETURN),
        decreases b@.len() - i,
    {
        let c = b[i];
        if c == COMMA || c == DOUBLE_QUOTE || c == LINE_FEED || c == CARRIAGE_RETURN {
            return true;
        }
        i = i + 1;
    }
    false
}

/// A value as a CSV field: quoted, with its quotes doubled, when it holds a
/// comma, a quote or a line break; unchanged otherwise.
pub fn escape_csv(s: &str) -> (r: String)
    ensures
        r@ == (if needs_csv_quoting(s.spec_bytes()) {
            "\""@ + quotes_doubled(s@) + "\""@
        } else {
            s@
        }),
{
    if has_csv_special(s.as_bytes()) {
        let inner = double_quotes(s);
        let mut r = String::from_str("\"");
        r.append(inner.as_str());
        r.append("\"");
        r
    } else {
        String::from_str(s)
    }
}

/// The lower-case hexadecimal digit of `d`.
pub open spec fn hex_digit(d: u8) -> u8 {
    if d < 10 {
        (48 + d) as u8
    } else {
        (87 + d) as u8
    }
}

/// `\u00` and two hexadecimal digits of `c`.
pub open spec fn unicode_escape(c: u8) -> Seq<u8> {
    seq![92u8, 117u8, 48u8, 48u8, hex_digit(c / 16), hex_digit(c % 16)]
}

/// JSON string escaping of the UTF-8 text `b` from position `i` on: quote,
/// backslash, newline, carriage return and tab get their short escapes; other
/// control characters (U+0000 to U+001F, U+007F to U+009F) get `\u00XX`.
pub open spec fn json_escaped(b: Seq<u8>, i: int) -> Seq<u8>
    decreases b.len() - i,
{
    if i < 0 || i >= b.len() {
        Seq::empty()
    } else {
        let c = b[i];
        if c == DOUBLE_QUOTE {
            seq![92u8, 34u8] + json_escaped(b, i + 1)
        } else if c == BACKSLASH {
            seq![92u8, 92u8] + json_escaped(b, i + 1)
        } else if c == LINE_FEED {
            seq![92u8, 110u8] + json_escaped(b, i + 1)
        } else if c == CARRIAGE_RETURN {
            seq![92u8, 114u8] + json_escaped(b, i + 1)
        } else if c == TAB {
            seq![92u8, 116u8] + json_escaped(b, i + 1)
        } else if c < 32 || c == 127 {
            unicode_escape(c) + json_escaped(b, i + 1)
        } else if c == 0xC2u8 && i + 1 < b.len() && 0x80u8 <= b[i + 1] <= 0x9Fu8 {
            unicode_escape(b[i + 1]) + json_escaped(b, i + 2)
        } else {
            seq![c] + json_escaped(b, i + 1)
        }
    }
}

fn hex(d: u8) -> (r: u8)
    requires
        d < 16,
    ensures
        r == hex_digit(d),
{
    if d < 10 {
        48 + d
    } else {
        87 + d
    }
}

fn push_unicode_escape(out: &mut Vec<u8>, c: u8)
    ensures
        final(out)@ == old(out)@ + unicode_escape(c),
{
    out.push(92);
    out.push(117);
    out.push(48);
    out.push(48);
    out.push(hex(c / 16));
    out.push(hex(c % 16));
    assert(final(out)@ =~= old(out)@ + unicode_escape(c));
}

/// The UTF-8 bytes of `s` escaped for a JSON string.
pub fn escape_json(s: &str) -> (r: Vec<u8>)
    ensures
        r@ == json_escaped(s.spec_bytes(), 0),
{
    let b = s.as_bytes();
    let mut out: Vec<u8> = Vec::new();
    let mut i: usize = 0;
    while i < b.len()
        invariant
            b@ == s.spec_bytes(),
            0 <= i <= b@.len(),
            out@ + json_escaped(b@, i as int) == json_escaped(b@, 0),
        decreases b@.len() - i,
    {
        let c = b[i];
        let ghost before = out@;
        let mut step: usize = 1;
        if c == DOUBLE_QUOTE {
            out.push(92);
            out.push(34);
        } else if c == BACKSLASH {
            out.push(92);
            out.push(92);
        } else if c == LINE_FEED {
            out.push(92);
            out.push(110);
        } else if c == CARRIAGE_RETURN {
            out.push(92);
            out.push(114);
        } else if c == TAB {
            out.push(92);
            out.push(116);
        } else if c < 32 || c == 127 {
            push_unicode_escape(&mut out, c);
        } else if c == 0xC2 && i + 1 < b.len() && 0x80 <= b[i + 1] && b[i + 1] <= 0x9F {
            push_unicode_escape(&mut out, b[i + 1]);
            step = 2;
        } else {
            out.push(c);
        }
        proof {
            let rest = json_escaped(b@, i + step);
            assert(json_escaped(b@, i as int) == (out@.subrange(before.len() as int, out@.len() as int)) + rest);
            assert(out@ + rest =~= before + json_escaped(b@, i as int));
        }
        i = i + step;
    }
    assert(out@ =~= out@ + json_escaped(b@, i as int));
    out
}

} // verus!
