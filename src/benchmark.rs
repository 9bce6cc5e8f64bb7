use vstd::prelude::*;
use vstd::string::StringSliceAdditionalSpecFns;
use vstd::utf8::encode_utf8;

use crate::bytes::{
    BACKSLASH, COLON, COMMA, DOUBLE_QUOTE, HASH, PIPE, SEMICOLON, SINGLE_QUOTE, SPACE, TAB, TILDE,
};
use crate::metadata::Quote;
use crate::type_detection::{bytes_equal, trim, trimmed};

verus! {

/// Line terminator named in an annotation.
#[derive(Debug, Clone, Copy, PartialEq, Eq, Structural)]
pub enum LineTerminator {
    Lf,
    Cr,
    CrLf,
}

/// The dialect that an annotation gives for a file.
#[derive(Debug, Clone)]
pub struct ExpectedDialect {
    pub file_name: String,
    pub encoding: String,
    pub delimiter: u8,
    pub quote_char: Option<u8>,
    pub escape_char: Option<u8>,
    pub line_terminator: LineTerminator,
}

/// Outcome of sniffing one annotated file.
#[derive(Debug, Clone)]
pub struct FileResult {
    pub file_name: String,
    pub passed: bool,
    pub delimiter_match: bool,
    pub quote_match: bool,
    pub expected_delimiter: u8,
    pub detected_delimiter: u8,
    pub expected_quote: Option<u8>,
    pub detected_quote: Option<u8>,
    pub error: Option<String>,
}

/// Tallies over a set of annotated files.
#[derive(Debug, Clone)]
pub struct BenchmarkResult {
    pub total: usize,
    pub passed: usize,
    pub failed: usize,
    pub errors: usize,
    pub delimiter_matches: usize,
    pub quote_matches: usize,
    pub file_results: Vec<FileResult>,
}

/// What `str::to_lowercase` makes of `s`.
pub uninterp spec fn lowercase_of(s: Seq<char>) -> Seq<char>;

/// Relies on str::to_lowercase: `s` in lower case.
#[verifier::external_body]
fn to_lowercase(s: &str) -> (r: String)
    ensures
        r@ == lowercase_of(s@),
{
    s.to_lowercase()
}

/// Whether `s` spells the literal `lit`.
fn is_word(s: &str, lit: &str) -> (r: bool)
    ensures
        r == (s.spec_bytes() == lit.spec_bytes()),
{
    bytes_equal(s.as_bytes(), lit.as_bytes())
}

/// The delimiter a lower-case annotation name stands for; comma when unknown.
pub open spec fn spec_delimiter_named(b: Seq<u8>) -> u8 {
    if b == "comma".spec_bytes() {
        COMMA
    } else if b == "semicolon".spec_bytes() {
        SEMICOLON
    } else if b == "tab".spec_bytes() {
        TAB
    } else if b == "space".spec_bytes() {
        SPACE
    } else if b == "vslash".spec_bytes() || b == "pipe".spec_bytes() {
        PIPE
    } else if b == "colon".spec_bytes() {
        COLON
    } else {
        COMMA
    }
}

/// The delimiter a lower-case annotation name stands for; comma when unknown.
pub fn delimiter_from_lowercase(name: &str) -> (r: u8)
    ensures
        r == spec_delimiter_named(name.spec_bytes()),
{
    if is_word(name, "comma") {
        COMMA
    } else if is_word(name, "semicolon") {
        SEMICOLON
    } else if is_word(name, "tab") {
        TAB
    } else if is_word(name, "space") {
        SPACE
    } else if is_word(name, "vslash") || is_word(name, "pipe") {
        PIPE
    } else if is_word(name, "colon") {
        COLON
    } else {
        COMMA
    }
}

/// The delimiter an annotation names, in any letter case.
pub fn parse_delimiter(name: &str) -> (r: u8)
    ensures
        r == spec_delimiter_named(encode_utf8(lowercase_of(name@))),
{
    let lower = to_lowercase(name);
    delimiter_from_lowercase(lower.as_str())
}

/// The quote a lower-case annotation name stands for; double quote when unknown.
pub open spec fn spec_quote_named(b: Seq<u8>) -> Option<u8> {
    if b == "doublequote".spec_bytes() || b == "double".spec_bytes() {
        Some(DOUBLE_QUOTE)
    } else if b == "singlequote".spec_bytes() || b == "single".spec_bytes() {
        Some(SINGLE_QUOTE)
    } else if b == "tilde".spec_bytes() {
        Some(TILDE)
    } else if b == "".spec_bytes() || b == "none".spec_bytes() {
        None
    } else {
        Some(DOUBLE_QUOTE)
    }
}

pub fn quote_from_lowercase(name: &str) -> (r: Option<u8>)
    ensures
        r == spec_quote_named(name.spec_bytes()),
{
    if is_word(name, "doublequote") || is_word(name, "double") {
        Some(DOUBLE_QUOTE)
    } else if is_word(name, "singlequote") || is_word(name, "single") {
        Some(SINGLE_QUOTE)
    } else if is_word(name, "tilde") {
        Some(TILDE)
    } else if is_word(name, "") || is_word(name, "none") {
        None
    } else {
        Some(DOUBLE_QUOTE)
    }
}

/// The quote an annotation names, in any letter case.
pub fn parse_quote(name: &str) -> (r: Option<u8>)
    ensures
        r == spec_quote_named(encode_utf8(lowercase_of(name@))),
{
    let lower = to_lowercase(name);
    quote_from_lowercase(lower.as_str())
}

/// The escape a lower-case annotation name stands for; none when unknown.
pub open spec fn spec_escape_named(b: Seq<u8>) -> Option<u8> {
    if b == "doublequote".spec_bytes() || b == "double".spec_bytes() {
        Some(DOUBLE_QUOTE)
    } else if b == "singlequote".spec_bytes() || b == "single".spec_bytes() {
        Some(SINGLE_QUOTE)
    } else if b == "backslash".spec_bytes() {
        Some(BACKSLASH)
    } else {
        None
    }
}

pub fn escape_from_lowercase(name: &str) -> (r: Option<u8>)
    ensures
        r == spec_escape_named(name.spec_bytes()),
{
    if is_word(name, "doublequote") || is_word(name, "double") {
        Some(DOUBLE_QUOTE)
    } else if is_word(name, "singlequote") || is_word(name, "single") {
        Some(SINGLE_QUOTE)
    } else if is_word(name, "backslash") {
        Some(BACKSLASH)
    } else {
        None
    }
}

/// The escape an annotation names, in any letter case.
pub fn parse_escape(name: &str) -> (r: Option<u8>)
    ensures
        r == spec_escape_named(encode_utf8(lowercase_of(name@))),
{
    let lower = to_lowercase(name);
    escape_from_lowercase(lower.as_str())
}

/// The terminator a lower-case annotation name stands for; LF when unknown.
pub open spec fn spec_terminator_named(b: Seq<u8>) -> LineTerminator {
    if b == "cr".spec_bytes() {
        LineTerminator::Cr
    } else if b == "crlf".spec_bytes() {
        LineTerminator::CrLf
    } else {
        LineTerminator::Lf
    }
}

pub fn line_terminator_from_lowercase(name: &str) -> (r: LineTerminator)
    ensures
        r == spec_terminator_named(name.spec_bytes()),
{
    if is_word(name, "cr") {
        LineTerminator::Cr
    } else if is_word(name, "crlf") {
        LineTerminator::CrLf
    } else {
        LineTerminator::Lf
    }
}

/// The line terminator an annotation names, in any letter case.
pub fn parse_line_terminator(name: &str) -> (r: LineTerminator)
    ensures
        r == spec_terminator_named(encode_utf8(lowercase_of(name@))),
{
    let lower = to_lowercase(name);
    line_terminator_from_lowercase(lower.as_str())
}

/// The `|`-separated pieces of `s`.
pub uninterp spec fn bar_fields(s: Seq<char>) -> Seq<Seq<char>>;

/// Relies on str::split with `'|'`: the pieces of `s` between bars.
#[verifier::external_body]
fn split_bars(s: &str) -> (r: Vec<String>)
    ensures
        r.deep_view() == bar_fields(s@),
{
    s.split('|').map(String::from).collect()
}

/// Whether `b` starts with the bytes `p`.
pub open spec fn has_prefix(b: Seq<u8>, p: Seq<u8>) -> bool {
    p.len() <= b.len() && b.subrange(0, p.len() as int) == p
}

pub(crate) fn starts_with_bytes(b: &[u8], p: &[u8]) -> (r: bool)
    ensures
        r == has_prefix(b@, p@),
{
    if p.len() > b.len() {
        return false;
    }
    let head = &b[0..p.len()];
    bytes_equal(head, p)
}

/// An annotation line says nothing: blank, a `#` comment, or the column header.
pub open spec fn is_skipped_line(t: Seq<char>) -> bool {
    let b = encode_utf8(t);
    b.len() == 0 || b[0] == HASH || has_prefix(b, "file_name|".spec_bytes())
}

/// Parse one line `file_name|encoding|delimiter|quote|escape|line_terminator`
/// of an annotation file; `None` for blank, comment and header lines and for
/// lines with fewer than six fields.
pub fn parse_annotation_line(line: &str) -> (r: Option<ExpectedDialect>)
    ensures
        ({
            let t = trimmed(line@);
            let parts = bar_fields(t);
            if is_skipped_line(t) || parts.len() < 6 {
                r is None
            } else {
                r matches Some(e) && e.file_name@ == parts[0] && e.encoding@ == parts[1]
                    && e.delimiter == spec_delimiter_named(encode_utf8(lowercase_of(parts[2])))
                    && e.quote_char == spec_quote_named(encode_utf8(lowercase_of(parts[3])))
                    && e.escape_char == spec_escape_named(encode_utf8(lowercase_of(parts[4])))
                    && e.line_terminator == spec_terminator_named(
                    encode_utf8(lowercase_of(parts[5])),
                )
            }
        }),
{
    let t = trim(line);
    let b = t.as_bytes();
    if b.len() == 0 || b[0] == HASH || starts_with_bytes(b, "file_name|".as_bytes()) {
        return None;
    }
    let parts = split_bars(t);
    if parts.len() < 6 {
        return None;
    }
    Some(ExpectedDialect {
        file_name: parts[0].clone(),
        encoding: parts[1].clone(),
        delimiter: parse_delimiter(parts[2].as_str()),
        quote_char: parse_quote(parts[3].as_str()),
        escape_char: parse_escape(parts[4].as_str()),
        line_terminator: parse_line_terminator(parts[5].as_str()),
    })
}

impl FileResult {
    /// The result for an annotated file, from what was detected for it: its
    /// delimiter and quote, or the error that sniffing gave.
    pub fn from_detection(expected: &ExpectedDialect, detected: Result<(u8, Quote), String>) -> (r:
        FileResult)
        ensures
            r.file_name@ == expected.file_name@,
            r.expected_delimiter == expected.delimiter,
            r.expected_quote == expected.quote_char,
            match detected {
                Ok((d, q)) => {
                    &&& r.detected_delimiter == d
                    &&& r.detected_quote == q.spec_char()
                    &&& r.delimiter_match == (d == expected.delimiter)
                    &&& r.quote_match == (q.spec_char() == expected.quote_char)
                    &&& r.passed == (r.delimiter_match && r.quote_match)
                    &&& r.error is None
                },
                Err(e) => {
                    &&& r.detected_delimiter == 0
                    &&& r.detected_quote is None
                    &&& !r.delimiter_match && !r.quote_match && !r.passed
                    &&& r.error matches Some(m) && m@ == e@
                },
            },
    {
        match detected {
            Ok((d, q)) => {
                let detected_quote = q.char();
                let delimiter_match = d == expected.delimiter;
                let quote_match = detected_quote == expected.quote_char;
                FileResult {
                    file_name: expected.file_name.clone(),
                    passed: delimiter_match && quote_match,
                    delimiter_match,
                    quote_match,
                    expected_delimiter: expected.delimiter,
                    detected_delimiter: d,
                    expected_quote: expected.quote_char,
                    detected_quote,
                    error: None,
                }
            },
            Err(e) => FileResult {
                file_name: expected.file_name.clone(),
                passed: false,
                delimiter_match: false,
                quote_match: false,
                expected_delimiter: expected.delimiter,
                detected_delimiter: 0,
                expected_quote: expected.quote_char,
                detected_quote: None,
                error: Some(e),
            },
        }
    }
}

impl BenchmarkResult {
    pub fn new() -> (r: BenchmarkResult)
        ensures
            r.total == 0 && r.passed == 0 && r.failed == 0 && r.errors == 0,
            r.delimiter_matches == 0 && r.quote_matches == 0,
            r.file_results@.len() == 0,
    {
        BenchmarkResult {
            total: 0,
            passed: 0,
            failed: 0,
            errors: 0,
            delimiter_matches: 0,
            quote_matches: 0,
            file_results: Vec::new(),
        }
    }

    /// Count one file: an error, a pass (both matches), or a failure with the
    /// matches it has.
    pub fn record(&mut self, result: FileResult)
        requires
            old(self).total < usize::MAX,
            old(self).passed < usize::MAX,
            old(self).failed < usize::MAX,
            old(self).errors < usize::MAX,
            old(self).delimiter_matches < usize::MAX,
            old(self).quote_matches < usize::MAX,
        ensures
            final(self).total == old(self).total + 1,
            final(self).errors == old(self).errors + (if result.error is Some { 1int } else { 0 }),
            final(self).passed == old(self).passed + (if result.error is None && result.passed { 1int } else { 0 }),
            final(self).failed == old(self).failed + (if result.error is None && !result.passed { 1int } else { 0 }),
            final(self).delimiter_matches == old(self).delimiter_matches + (if result.error is None
                && (result.passed || result.delimiter_match) { 1int } else { 0 }),
            final(self).quote_matches == old(self).quote_matches + (if result.error is None && (
            result.passed || result.quote_match) { 1int } else { 0 }),
            final(self).file_results@ == old(self).file_results@.push(result),
    {
        self.total = self.total + 1;
        if result.error.is_some() {
            self.errors = self.errors + 1;
        } else if result.passed {
            self.passed = self.passed + 1;
            self.delimiter_matches = self.delimiter_matches + 1;
            self.quote_matches = self.quote_matches + 1;
        } else {
            self.failed = self.failed + 1;
            if result.delimiter_match {
                self.delimiter_matches = self.delimiter_matches + 1;
            }
            if result.quote_match {
                self.quote_matches = self.quote_matches + 1;
            }
        }
        self.file_results.push(result);
    }
}

/// Byte-wise lexicographic order, the order in which `str` values compare.
pub open spec fn bytes_le(a: Seq<u8>, b: Seq<u8>) -> bool
    decreases a.len(),
{
    if a.len() == 0 {
        true
    } else if b.len() == 0 {
        false
    } else if a[0] != b[0] {
        a[0] < b[0]
    } else {
        bytes_le(a.drop_first(), b.drop_first())
    }
}

proof fn lemma_bytes_le_total(a: Seq<u8>, b: Seq<u8>)
    ensures
        bytes_le(a, b) || bytes_le(b, a),
    decreases a.len(),
{
    if a.len() > 0 && b.len() > 0 && a[0] == b[0] {
        lemma_bytes_le_total(a.drop_first(), b.drop_first());
    }
}

proof fn lemma_bytes_le_transitive(a: Seq<u8>, b: Seq<u8>, c: Seq<u8>)
    requires
        bytes_le(a, b),
        bytes_le(b, c),
    ensures
        bytes_le(a, c),
    decreases a.len(),
{
    if a.len() > 0 && b.len() > 0 && c.len() > 0 && a[0] == b[0] && b[0] == c[0] {
        lemma_bytes_le_transitive(a.drop_first(), b.drop_first(), c.drop_first());
    }
}

fn bytes_le_exec(a: &[u8], b: &[u8]) -> (r: bool)
    ensures
        r == bytes_le(a@, b@),
{
    let mut i: usize = 0;
    assert(a@.subrange(0, a@.len() as int) =~= a@);
    assert(b@.subrange(0, b@.len() as int) =~= b@);
    while i < a.len() && i < b.len()
        invariant
            0 <= i <= a@.len(),
            i <= b@.len(),
            bytes_le(a@, b@) == bytes_le(
                a@.subrange(i as int, a@.len() as int),
                b@.subrange(i as int, b@.len() as int),
            ),
        decreases a@.len() - i,
    {
        let ghost sa = a@.subrange(i as int, a@.len() as int);
        let ghost sb = b@.subrange(i as int, b@.len() as int);
        assert(sa[0] == a@[i as int] && sb[0] == b@[i as int]);
        if a[i] != b[i] {
            return a[i] < b[i];
        }
        assert(sa.drop_first() =~= a@.subrange(i + 1, a@.len() as int));
        assert(sb.drop_first() =~= b@.subrange(i + 1, b@.len() as int));
        i = i + 1;
    }
    i == a.len()
}

/// The file name of a result as UTF-8 bytes.
pub open spec fn name_bytes(r: FileResult) -> Seq<u8> {
    encode_utf8(r.file_name@)
}

/// The results ordered by file name; equal names keep no particular order.
pub fn sort_by_file_name(results: Vec<FileResult>) -> (r: Vec<FileResult>)
    ensures
        r@.to_multiset() == results@.to_multiset(),
        forall|i: int, j: int|
            0 <= i < j < r@.len() ==> bytes_le(name_bytes(r@[i]), name_bytes(r@[j])),
{
    broadcast use vstd::seq_lib::group_to_multiset_ensures, vstd::multiset::group_multiset_axioms;

    let ghost original = results@;
    let mut rest = results;
    let mut out: Vec<FileResult> = Vec::new();
    assert(out@.to_multiset() =~= vstd::multiset::Multiset::empty());
    assert(out@.to_multiset().add(rest@.to_multiset()) =~= original.to_multiset());
    while rest.len() > 0
        invariant
            out@.to_multiset().add(rest@.to_multiset()) == original.to_multiset(),
            forall|i: int, j: int|
                0 <= i < j < out@.len() ==> bytes_le(name_bytes(out@[i]), name_bytes(out@[j])),
            forall|i: int, y: int|
                0 <= i < out@.len() && 0 <= y < rest@.len() ==> bytes_le(
                    name_bytes(out@[i]),
                    name_bytes(rest@[y]),
                ),
        decreases rest@.len(),
    {
        let mut best: usize = 0;
        let mut j: usize = 1;
        proof {
            lemma_bytes_le_total(name_bytes(rest@[0]), name_bytes(rest@[0]));
        }
        while j < rest.len()
            invariant
                0 <= best < j <= rest@.len(),
                forall|x: int| 0 <= x < j ==> bytes_le(name_bytes(rest@[best as int]), name_bytes(#[trigger] rest@[x])),
            decreases rest@.len() - j,
        {
            let le = bytes_le_exec(rest[best].file_name.as_str().as_bytes(), rest[j].file_name.as_str().as_bytes());
            if !le {
                proof {
                    let nb = name_bytes(rest@[best as int]);
                    let nj = name_bytes(rest@[j as int]);
                    lemma_bytes_le_total(nb, nj);
                    assert forall|x: int| 0 <= x < j + 1 implies bytes_le(nj, name_bytes(#[trigger] rest@[x])) by {
                        if x < j {
                            lemma_bytes_le_transitive(nj, nb, name_bytes(rest@[x]));
                        } else {
                            lemma_bytes_le_total(nj, nj);
                        }
                    }
                }
                best = j;
            } else {
                proof {
                    assert(bytes_le(name_bytes(rest@[best as int]), name_bytes(rest@[j as int])));
                }
            }
            j = j + 1;
        }
        let ghost old_rest = rest@;
        let ghost old_out = out@;
        let item = rest.remove(best);
        proof {
            assert(item == old_rest[best as int]);
            assert(forall|y: int| 0 <= y < rest@.len() ==> #[trigger] rest@[y] == old_rest[if y < best { y } else { y + 1 }]);
        }
        out.push(item);
        proof {
            assert(out@ == old_out.push(item));
            assert(rest@ == old_rest.remove(best as int));
            assert(old_rest.contains(item));
            vstd::seq_lib::to_multiset_contains(old_rest, item);
            vstd::seq_lib::to_multiset_remove(old_rest, best as int);
            vstd::seq_lib::to_multiset_build(old_out, item);
            assert(old_rest.to_multiset().count(item) > 0);
            assert(rest@.to_multiset() == old_rest.to_multiset().remove(item));
            assert(out@.to_multiset() == old_out.to_multiset().insert(item));
            assert(out@.to_multiset().add(rest@.to_multiset()) =~= old_out.to_multiset().add(
                old_rest.to_multiset(),
            ));
            assert forall|i: int, y: int|
                0 <= i < out@.len() && 0 <= y < rest@.len() implies bytes_le(
                    name_bytes(out@[i]),
                    name_bytes(rest@[y]),
                ) by {
                let oy = if y < best { y } else { y + 1 };
                assert(rest@[y] == old_rest[oy]);
                if i < old_out.len() {
                    assert(out@[i] == old_out[i]);
                } else {
                    assert(out@[i] == old_rest[best as int]);
                }
            }
            assert forall|i: int, k: int| 0 <= i < k < out@.len() implies bytes_le(
                name_bytes(out@[i]),
                name_bytes(out@[k]),
            ) by {
                if k == old_out.len() {
                    assert(out@[k] == old_rest[best as int]);
                    assert(out@[i] == old_out[i]);
                } else {
                    assert(out@[i] == old_out[i] && out@[k] == old_out[k]);
                }
            }
        }
    }
    assert(rest@.to_multiset() =~= vstd::multiset::Multiset::empty());
    assert(out@.to_multiset() =~= original.to_multiset());
    out
}

} // verus!
