use vstd::prelude::*;

use crate::bytes::{
    copy_range,
    AMPERSAND, CARET, COMMA, DOUBLE_QUOTE, HASH, PIPE, SECTION_SIGN, SEMICOLON, SINGLE_QUOTE, SLASH,
    SPACE, TAB, TILDE,
};
use crate::metadata::Quote;

verus! {

/// Line terminator of a file.
#[derive(Debug, Clone, Copy, PartialEq, Eq, Structural, Hash)]
pub enum LineTerminator {
    /// `\n`
    LF,
    /// `\r\n`
    CRLF,
    /// `\r`
    CR,
}

impl LineTerminator {
    pub open spec fn spec_bytes(self) -> Seq<u8> {
        match self {
            LineTerminator::LF => seq![10u8],
            LineTerminator::CRLF => seq![13u8, 10u8],
            LineTerminator::CR => seq![13u8],
        }
    }

    /// The bytes of the terminator.
    pub fn as_bytes(&self) -> (r: Vec<u8>)
        ensures
            r@ == self.spec_bytes(),
    {
        match self {
            LineTerminator::LF => vec![10u8],
            LineTerminator::CRLF => vec![13u8, 10u8],
            LineTerminator::CR => vec![13u8],
        }
    }

    /// The terminator written with escapes, as in source text.
    pub fn as_str(&self) -> (r: &'static str)
        ensures
            r@ == (match *self {
                LineTerminator::LF => "\\n"@,
                LineTerminator::CRLF => "\\r\\n"@,
                LineTerminator::CR => "\\r"@,
            }),
    {
        match self {
            LineTerminator::LF => "\\n",
            LineTerminator::CRLF => "\\r\\n",
            LineTerminator::CR => "\\r",
        }
    }
}

/// One candidate dialect: delimiter, quoting and line terminator.
#[derive(Debug, Clone, Copy, PartialEq, Eq, Structural, Hash)]
pub struct PotentialDialect {
    pub delimiter: u8,
    pub quote: Quote,
    pub line_terminator: LineTerminator,
}

impl PotentialDialect {
    pub fn new(delimiter: u8, quote: Quote, line_terminator: LineTerminator) -> (r:
        PotentialDialect)
        ensures
            r == (PotentialDialect { delimiter, quote, line_terminator }),
    {
        PotentialDialect { delimiter, quote, line_terminator }
    }
}

/// The delimiters that are tried, in generation order. Colon is left out: it
/// occurs in time values.
pub open spec fn spec_delimiters() -> Seq<u8> {
    seq![COMMA, SEMICOLON, TAB, PIPE, SPACE, CARET, TILDE, HASH, AMPERSAND, SECTION_SIGN, SLASH]
}

/// The quote settings that are tried, in generation order.
pub open spec fn spec_quotes() -> Seq<Quote> {
    seq![Quote::Char(DOUBLE_QUOTE), Quote::Char(SINGLE_QUOTE), Quote::NoQuote]
}

/// The terminators that are tried by the full search, in generation order.
pub open spec fn spec_terminators() -> Seq<LineTerminator> {
    seq![LineTerminator::CRLF, LineTerminator::LF, LineTerminator::CR]
}

/// The delimiters that are tried, in generation order.
pub fn delimiters() -> (r: Vec<u8>)
    ensures
        r@ == spec_delimiters(),
{
    let r = vec![COMMA, SEMICOLON, TAB, PIPE, SPACE, CARET, TILDE, HASH, AMPERSAND, SECTION_SIGN, SLASH];
    assert(r@ =~= spec_delimiters());
    r
}

/// The quote settings that are tried, in generation order.
pub fn quotes() -> (r: Vec<Quote>)
    ensures
        r@ == spec_quotes(),
{
    let r = vec![Quote::Char(DOUBLE_QUOTE), Quote::Char(SINGLE_QUOTE), Quote::NoQuote];
    assert(r@ =~= spec_quotes());
    r
}

/// Candidate number `i` of the search with a fixed terminator: delimiters vary
/// slowest, quotes fastest.
pub open spec fn spec_dialect_with_terminator(i: int, lt: LineTerminator) -> PotentialDialect {
    PotentialDialect {
        delimiter: spec_delimiters()[i / 3],
        quote: spec_quotes()[i % 3],
        line_terminator: lt,
    }
}

/// Candidate number `i` of the full search: delimiter, then quote, then terminator.
pub open spec fn spec_potential_dialect(i: int) -> PotentialDialect {
    PotentialDialect {
        delimiter: spec_delimiters()[i / 9],
        quote: spec_quotes()[(i / 3) % 3],
        line_terminator: spec_terminators()[i % 3],
    }
}

/// Every combination of delimiter, quote and line terminator.
pub fn generate_potential_dialects() -> (r: Vec<PotentialDialect>)
    ensures
        r@.len() == 99,
        forall|i: int| 0 <= i < 99 ==> r@[i] == spec_potential_dialect(i),
{
    let ds = delimiters();
    let qs = quotes();
    let ts = vec![LineTerminator::CRLF, LineTerminator::LF, LineTerminator::CR];
    assert(ts@ =~= spec_terminators());
    let mut r: Vec<PotentialDialect> = Vec::new();
    let mut a: usize = 0;
    while a < 11
        invariant
            0 <= a <= 11,
            ds@ == spec_delimiters(),
            qs@ == spec_quotes(),
            ts@ == spec_terminators(),
            r@.len() == 9 * a,
            forall|i: int| 0 <= i < 9 * a ==> r@[i] == spec_potential_dialect(i),
        decreases 11 - a,
    {
        let mut b: usize = 0;
        while b < 3
            invariant
                0 <= a < 11,
                0 <= b <= 3,
                ds@ == spec_delimiters(),
                qs@ == spec_quotes(),
                ts@ == spec_terminators(),
                r@.len() == 9 * a + 3 * b,
                forall|i: int| 0 <= i < 9 * a + 3 * b ==> r@[i] == spec_potential_dialect(i),
            decreases 3 - b,
        {
            let mut c: usize = 0;
            while c < 3
                invariant
                    0 <= a < 11,
                    0 <= b < 3,
                    0 <= c <= 3,
                    ds@ == spec_delimiters(),
                    qs@ == spec_quotes(),
                    ts@ == spec_terminators(),
                    r@.len() == 9 * a + 3 * b + c,
                    forall|i: int|
                        0 <= i < 9 * a + 3 * b + c ==> r@[i] == spec_potential_dialect(i),
                decreases 3 - c,
            {
                let d = PotentialDialect::new(ds[a], qs[b], ts[c]);
                proof {
                    let k = 9 * a + 3 * b + c;
                    assert(k / 9 == a) by (nonlinear_arith)
                        requires
                            k == 9 * a + 3 * b + c,
                            0 <= b < 3,
                            0 <= c < 3,
                    ;
                    assert((k / 3) % 3 == b) by (nonlinear_arith)
                        requires
                            k == 9 * a + 3 * b + c,
                            0 <= b < 3,
                            0 <= c < 3,
                            0 <= a,
                    ;
                    assert(k % 3 == c) by (nonlinear_arith)
                        requires
                            k == 9 * a + 3 * b + c,
                            0 <= b < 3,
                            0 <= c < 3,
                            0 <= a,
                    ;
                }
                r.push(d);
                c = c + 1;
            }
            b = b + 1;
        }
        a = a + 1;
    }
    r
}

/// Every combination of delimiter and quote, with the given terminator.
pub fn generate_dialects_with_terminator(line_terminator: LineTerminator) -> (r: Vec<
    PotentialDialect,
>)
    ensures
        r@.len() == 33,
        forall|i: int|
            0 <= i < 33 ==> r@[i] == spec_dialect_with_terminator(i, line_terminator),
{
    let ds = delimiters();
    let qs = quotes();
    let mut r: Vec<PotentialDialect> = Vec::new();
    let mut a: usize = 0;
    while a < 11
        invariant
            0 <= a <= 11,
            ds@ == spec_delimiters(),
            qs@ == spec_quotes(),
            r@.len() == 3 * a,
            forall|i: int|
                0 <= i < 3 * a ==> r@[i] == spec_dialect_with_terminator(i, line_terminator),
        decreases 11 - a,
    {
        let mut b: usize = 0;
        while b < 3
            invariant
                0 <= a < 11,
                0 <= b <= 3,
                ds@ == spec_delimiters(),
                qs@ == spec_quotes(),
                r@.len() == 3 * a + b,
                forall|i: int|
                    0 <= i < 3 * a + b ==> r@[i] == spec_dialect_with_terminator(
                        i,
                        line_terminator,
                    ),
            decreases 3 - b,
        {
            let d = PotentialDialect::new(ds[a], qs[b], line_terminator);
            proof {
                let k = 3 * a + b;
                assert(k / 3 == a && k % 3 == b) by (nonlinear_arith)
                    requires
                        k == 3 * a + b,
                        0 <= b < 3,
                        0 <= a,
                ;
            }
            r.push(d);
            b = b + 1;
        }
        a = a + 1;
    }
    r
}

/// Counts of (CRLF, LF, CR) terminators in `d` from position `i` on. A `\r\n`
/// pair counts once, as CRLF.
pub open spec fn terminator_counts(d: Seq<u8>, i: int) -> (nat, nat, nat)
    decreases d.len() - i,
{
    if i < 0 || i >= d.len() {
        (0, 0, 0)
    } else if d[i] == 13u8 && i + 1 < d.len() && d[i + 1] == 10u8 {
        let t = terminator_counts(d, i + 2);
        (t.0 + 1, t.1, t.2)
    } else if d[i] == 13u8 {
        let t = terminator_counts(d, i + 1);
        (t.0, t.1, t.2 + 1)
    } else if d[i] == 10u8 {
        let t = terminator_counts(d, i + 1);
        (t.0, t.1 + 1, t.2)
    } else {
        terminator_counts(d, i + 1)
    }
}

/// The terminator that a buffer uses most; ties prefer CRLF, then LF, then CR.
pub open spec fn spec_line_terminator(d: Seq<u8>) -> LineTerminator {
    let t = terminator_counts(d, 0);
    if t.0 > 0 && t.0 >= t.1 && t.0 >= t.2 {
        LineTerminator::CRLF
    } else if t.1 >= t.2 {
        LineTerminator::LF
    } else {
        LineTerminator::CR
    }
}

/// Detect the line terminator that `data` uses most.
pub fn detect_line_terminator(data: &[u8]) -> (r: LineTerminator)
    ensures
        r == spec_line_terminator(data@),
{
    let mut crlf: usize = 0;
    let mut lf: usize = 0;
    let mut cr: usize = 0;
    let mut i: usize = 0;
    while i < data.len()
        invariant
            0 <= i <= data@.len(),
            crlf + lf + cr <= i,
            ({
                let t = terminator_counts(data@, i as int);
                let a = terminator_counts(data@, 0);
                a.0 == t.0 + crlf && a.1 == t.1 + lf && a.2 == t.2 + cr
            }),
        decreases data@.len() - i,
    {
        if data[i] == 13u8 {
            if i + 1 < data.len() && data[i + 1] == 10u8 {
                crlf = crlf + 1;
                i = i + 2;
                continue;
            }
            cr = cr + 1;
        } else if data[i] == 10u8 {
            lf = lf + 1;
        }
        i = i + 1;
    }
    if crlf > 0 && crlf >= lf && crlf >= cr {
        LineTerminator::CRLF
    } else if lf >= cr {
        LineTerminator::LF
    } else {
        LineTerminator::CR
    }
}

/// `d` from position `i` on, with each `\r\n` pair replaced by `\n`.
pub open spec fn crlf_to_lf(d: Seq<u8>, i: int) -> Seq<u8>
    decreases d.len() - i,
{
    if i < 0 || i >= d.len() {
        Seq::empty()
    } else if i + 1 < d.len() && d[i] == 13u8 && d[i + 1] == 10u8 {
        seq![10u8] + crlf_to_lf(d, i + 2)
    } else {
        seq![d[i]] + crlf_to_lf(d, i + 1)
    }
}

/// `d` with every `\r` replaced by `\n`.
pub open spec fn cr_to_lf(d: Seq<u8>) -> Seq<u8> {
    d.map_values(|b: u8| if b == 13u8 { 10u8 } else { b })
}

/// `d` with the given terminator mapped to `\n`.
pub open spec fn spec_normalized(d: Seq<u8>, lt: LineTerminator) -> Seq<u8> {
    match lt {
        LineTerminator::LF => d,
        LineTerminator::CRLF => crlf_to_lf(d, 0),
        LineTerminator::CR => cr_to_lf(d),
    }
}

/// Map the given line terminator to `\n` throughout `data`, into a new buffer;
/// the parsing and scoring functions use LF data as it is instead.
pub fn normalize_line_endings(data: &[u8], line_terminator: LineTerminator) -> (r: Vec<u8>)
    ensures
        r@ == spec_normalized(data@, line_terminator),
{
    match line_terminator {
        LineTerminator::LF => {
            let r = copy_range(data, 0, data.len());
            assert(r@ =~= data@);
            r
        },
        LineTerminator::CRLF => {
            let mut result: Vec<u8> = Vec::new();
            let mut i: usize = 0;
            while i < data.len()
                invariant
                    0 <= i <= data@.len(),
                    result@ + crlf_to_lf(data@, i as int) == crlf_to_lf(data@, 0),
                decreases data@.len() - i,
            {
                if i + 1 < data.len() && data[i] == 13u8 && data[i + 1] == 10u8 {
                    assert(crlf_to_lf(data@, i as int) == seq![10u8] + crlf_to_lf(
                        data@,
                        i + 2,
                    ));
                    assert(result@.push(10u8) + crlf_to_lf(data@, i + 2) =~= result@ + (seq![
                        10u8,
                    ] + crlf_to_lf(data@, i + 2)));
                    result.push(10u8);
                    i = i + 2;
                } else {
                    let b = data[i];
                    assert(crlf_to_lf(data@, i as int) == seq![b] + crlf_to_lf(data@, i + 1));
                    assert(result@.push(b) + crlf_to_lf(data@, i + 1) =~= result@ + (seq![b]
                        + crlf_to_lf(data@, i + 1)));
                    result.push(b);
                    i = i + 1;
                }
            }
            assert(result@ =~= result@ + crlf_to_lf(data@, i as int));
            result
        },
        LineTerminator::CR => {
            let mut result: Vec<u8> = Vec::new();
            let mut i: usize = 0;
            while i < data.len()
                invariant
                    0 <= i <= data@.len(),
                    result@ =~= cr_to_lf(data@).take(i as int),
                decreases data@.len() - i,
            {
                let b = data[i];
                if b == 13u8 {
                    result.push(10u8);
                } else {
                    result.push(b);
                }
                i = i + 1;
            }
            assert(result@ =~= cr_to_lf(data@));
            result
        },
    }
}

} // verus!
