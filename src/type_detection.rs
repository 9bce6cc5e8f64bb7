use vstd::prelude::*;

use vstd::string::StringSliceAdditionalSpecFns;
use vstd::utf8::encode_utf8;

use crate::field_type::Type;
use crate::table::Table;

verus! {

/// Scores are fixed-point numbers: `SCALE` stands for 1.
pub const SCALE: u64 = 1_000_000;

/// Recognisers of cell formats, as regular expressions.
pub const EMPTY_PATTERN: &'static str = "^$";

pub const NULL_PATTERN: &'static str = "(?i)^(null|nil|none|na|n/a|\\?|nan|-|--|\\.|\\.\\.|#n/a|#value!|#ref!|#div/0!)$";

pub const BOOLEAN_PATTERN: &'static str = "(?i)^(true|false|yes|no|y|n|t|f|1|0|on|off)$";

pub const UNSIGNED_PATTERN: &'static str = "^[+]?\\d{1,20}$";

pub const SIGNED_PATTERN: &'static str = "^[-+]?\\d{1,20}$";

pub const FLOAT_PATTERN: &'static str = "^[-+]?(?:\\d+\\.?\\d*|\\d*\\.?\\d+)(?:[eE][-+]?\\d+)?$";

pub const FLOAT_EURO_PATTERN: &'static str = "^[-+]?\\d+,\\d+$";

pub const FLOAT_THOUSANDS_PATTERN: &'static str = "^[-+]?(?:\\d{1,3}(?:,\\d{3})*(?:\\.\\d+)?|\\d+(?:\\.\\d+)?)$";

pub const DATE_ISO_PATTERN: &'static str = "^\\d{4}[-/]\\d{1,2}[-/]\\d{1,2}$";

pub const DATE_US_PATTERN: &'static str = "^\\d{1,2}[-/]\\d{1,2}[-/]\\d{2,4}$";

pub const DATE_EURO_PATTERN: &'static str = "^\\d{1,2}\\.\\d{1,2}\\.\\d{2,4}$";

pub const DATETIME_ISO_PATTERN: &'static str = "^\\d{4}[-/]\\d{1,2}[-/]\\d{1,2}[T ]\\d{1,2}:\\d{2}(:\\d{2})?(\\.\\d+)?(Z|[+-]\\d{2}:?\\d{2})?$";

pub const DATETIME_GENERAL_PATTERN: &'static str = "^\\d{1,4}[-/\\.]\\d{1,2}[-/\\.]\\d{1,4}[T ]?\\d{1,2}:\\d{2}(:\\d{2})?(\\s*(AM|PM|am|pm))?$";

pub const TIME_PATTERN: &'static str = "^\\d{1,2}:\\d{2}(:\\d{2})?(\\.\\d+)?(\\s*(AM|PM|am|pm))?$";

pub const EMAIL_PATTERN: &'static str = "^[a-zA-Z0-9._%+-]+@[a-zA-Z0-9.-]+\\.[a-zA-Z]{2,}$";

pub const URL_PATTERN: &'static str = "^(https?|ftp)://[^\\s/$.?#].[^\\s]*$";

pub const IPV4_PATTERN: &'static str = "^\\d{1,3}\\.\\d{1,3}\\.\\d{1,3}\\.\\d{1,3}$";

pub const CURRENCY_PATTERN: &'static str = "^[$\u{20ac}\u{a3}\u{a5}\u{20b9}]?\\s*[-+]?[\\d,]+\\.?\\d*$|^[-+]?[\\d,]+\\.?\\d*\\s*[$\u{20ac}\u{a3}\u{a5}\u{20b9}]$";

pub const PERCENTAGE_PATTERN: &'static str = "^[-+]?\\d+\\.?\\d*\\s*%$";

pub const UUID_PATTERN: &'static str = "^[0-9a-fA-F]{8}-[0-9a-fA-F]{4}-[0-9a-fA-F]{4}-[0-9a-fA-F]{4}-[0-9a-fA-F]{12}$";

pub const ALPHANUM_PATTERN: &'static str = "^[A-Za-z0-9_-]+$";

/// What `str::trim` leaves of `s`.
pub uninterp spec fn trimmed(s: Seq<char>) -> Seq<char>;

/// Characters with the Unicode White_Space property, which `char::is_whitespace` tests.
pub open spec fn is_white_space(c: char) -> bool {
    let u = c as u32;
    (9 <= u <= 13) || u == 32 || u == 0x85 || u == 0xA0 || u == 0x1680 || (0x2000 <= u <= 0x200A)
        || u == 0x2028 || u == 0x2029 || u == 0x202F || u == 0x205F || u == 0x3000
}

/// Relies on str::trim: `s` without leading and trailing white space, so a
/// text that neither starts nor ends with white space comes back unchanged.
#[verifier::external_body]
pub(crate) fn trim(s: &str) -> (r: &str)
    ensures
        r@ == trimmed(s@),
        s@.len() == 0 || (!is_white_space(s@[0]) && !is_white_space(s@.last())) ==> r@ == s@,
        r@.len() > 0 ==> !is_white_space(r@[0]) && !is_white_space(r@.last()),
{
    s.trim()
}

/// Whether `text` matches the regular expression `pattern`; false for every
/// text when the pattern does not compile.
pub uninterp spec fn regex_matches(pattern: Seq<char>, text: Seq<char>) -> bool;

/// regex::Regex, a compiled pattern; `regex_source` names the text it was built from.
#[verifier::external_type_specification]
#[verifier::external_body]
pub struct ExRegex(regex::Regex);

/// The pattern that a compiled regular expression was built from.
pub uninterp spec fn regex_source(re: regex::Regex) -> Seq<char>;

/// Relies on regex::Regex::new: the compiled pattern; `None` when it does not
/// compile, and then `regex_matches` holds of no text for it.
#[verifier::external_body]
fn compile(pattern: &str) -> (r: Option<regex::Regex>)
    ensures
        r matches Some(re) ==> regex_source(re) == pattern@,
        r is None ==> forall|t: Seq<char>| !regex_matches(pattern@, t),
{
    regex::Regex::new(pattern).ok()
}

/// Relies on regex::Regex::is_match: whether `text` matches the compiled pattern.
#[verifier::external_body]
fn run(re: &regex::Regex, text: &str) -> (r: bool)
    ensures
        r == regex_matches(regex_source(*re), text@),
{
    re.is_match(text)
}

/// Whether `text` matches the regular expression `pattern` (false when the
/// pattern does not compile).
pub fn matches_pattern(pattern: &str, text: &str) -> (r: bool)
    ensures
        r == regex_matches(pattern@, text@),
{
    match compile(pattern) {
        Some(re) => run(&re, text),
        None => false,
    }
}

/// The recognisers of `pattern_table`, compiled once and shared by every cell.
pub struct Recognizers {
    pub compiled: Vec<Option<regex::Regex>>,
}

impl Recognizers {
    /// Entry `i` is compiled from pattern `i` of the table.
    pub open spec fn wf(&self) -> bool {
        &&& self.compiled@.len() == pattern_table().len()
        &&& forall|i: int|
            0 <= i < pattern_table().len() ==> match #[trigger] self.compiled@[i] {
                Some(re) => regex_source(re) == pattern_table()[i].0@,
                None => forall|t: Seq<char>| !regex_matches(pattern_table()[i].0@, t),
            }
    }

    pub fn new() -> (r: Recognizers)
        ensures
            r.wf(),
    {
        let ps = patterns();
        let mut compiled: Vec<Option<regex::Regex>> = Vec::new();
        let mut i: usize = 0;
        while i < ps.len()
            invariant
                ps@ == pattern_table(),
                0 <= i <= ps@.len(),
                compiled@.len() == i,
                forall|k: int|
                    0 <= k < i ==> match #[trigger] compiled@[k] {
                        Some(re) => regex_source(re) == pattern_table()[k].0@,
                        None => forall|t: Seq<char>| !regex_matches(pattern_table()[k].0@, t),
                    },
            decreases ps@.len() - i,
        {
            let (p, _w) = ps[i];
            compiled.push(compile(p));
            i = i + 1;
        }
        Recognizers { compiled }
    }

    /// Whether `text` matches pattern `i` of the table.
    pub fn matches(&self, i: usize, text: &str) -> (r: bool)
        requires
            self.wf(),
            i < pattern_table().len(),
        ensures
            r == regex_matches(pattern_table()[i as int].0@, text@),
    {
        match &self.compiled[i] {
            Some(re) => run(re, text),
            None => false,
        }
    }
}

/// ASCII letters in lower case, other bytes unchanged.
pub open spec fn ascii_lower(b: Seq<u8>) -> Seq<u8> {
    b.map_values(|c: u8| if 65 <= c <= 90 { (c + 32) as u8 } else { c })
}

/// Texts that stand for a missing value, compared without regard to ASCII case.
pub open spec fn null_tokens() -> Seq<&'static str> {
    seq![
        "", "-", "--", ".", "..", "?", "null", "nil", "none", "na", "n/a", "nan", "#n/a",
        "#value!", "#ref!", "#div/0!",
    ]
}

/// Texts that stand for a truth value, compared without regard to ASCII case.
pub open spec fn boolean_tokens() -> Seq<&'static str> {
    seq!["true", "false", "yes", "no", "y", "n", "t", "f", "1", "0", "on", "off"]
}

/// Whether the bytes `b`, lower-cased, spell one of `tokens`.
pub open spec fn is_token(b: Seq<u8>, tokens: Seq<&'static str>) -> bool {
    exists|i: int| 0 <= i < tokens.len() && ascii_lower(b) == tokens[i].spec_bytes()
}

pub open spec fn all_digits(b: Seq<u8>) -> bool {
    forall|i: int| 0 <= i < b.len() ==> 48 <= #[trigger] b[i] <= 57
}

/// One to nineteen ASCII digits, after an optional `+`.
pub open spec fn spec_is_unsigned(b: Seq<u8>) -> bool {
    let d = if b.len() > 0 && b[0] == 43u8 {
        b.drop_first()
    } else {
        b
    };
    1 <= d.len() <= 19 && all_digits(d)
}

/// A `-` and then one to nineteen ASCII digits.
pub open spec fn spec_is_signed(b: Seq<u8>) -> bool {
    b.len() > 0 && b[0] == 45u8 && 1 <= b.drop_first().len() <= 19 && all_digits(b.drop_first())
}

pub open spec fn has_float_mark(b: Seq<u8>) -> bool {
    exists|i: int| 0 <= i < b.len() && (b[i] == 46u8 || b[i] == 101u8 || b[i] == 69u8)
}

/// The type of one cell, from its text with surrounding white space removed.
pub open spec fn spec_cell_type(value: Seq<char>) -> Type {
    let t = trimmed(value);
    let b = encode_utf8(t);
    if is_token(b, null_tokens()) {
        Type::NULL
    } else if spec_is_unsigned(b) {
        Type::Unsigned
    } else if spec_is_signed(b) {
        Type::Signed
    } else if is_token(b, boolean_tokens()) {
        Type::Boolean
    } else if regex_matches(FLOAT_PATTERN@, t) && has_float_mark(b) {
        Type::Float
    } else if regex_matches(FLOAT_THOUSANDS_PATTERN@, t) {
        Type::Float
    } else if regex_matches(DATETIME_ISO_PATTERN@, t) || regex_matches(
        DATETIME_GENERAL_PATTERN@,
        t,
    ) {
        Type::DateTime
    } else if regex_matches(DATE_ISO_PATTERN@, t) || regex_matches(DATE_US_PATTERN@, t)
        || regex_matches(DATE_EURO_PATTERN@, t) {
        Type::Date
    } else {
        Type::Text
    }
}

pub fn bytes_equal(a: &[u8], b: &[u8]) -> (r: bool)
    ensures
        r == (a@ == b@),
{
    if a.len() != b.len() {
        return false;
    }
    let mut i: usize = 0;
    while i < a.len()
        invariant
            a@.len() == b@.len(),
            0 <= i <= a@.len(),
            a@.take(i as int) == b@.take(i as int),
        decreases a@.len() - i,
    {
        if a[i] != b[i] {
            assert(a@[i as int] != b@[i as int]);
            return false;
        }
        assert(a@.take(i + 1) =~= a@.take(i as int).push(a@[i as int]));
        assert(b@.take(i + 1) =~= b@.take(i as int).push(b@[i as int]));
        i = i + 1;
    }
    assert(a@ =~= a@.take(i as int));
    assert(b@ =~= b@.take(i as int));
    true
}

/// `b` with ASCII letters in lower case.
pub fn to_ascii_lower(b: &[u8]) -> (r: Vec<u8>)
    ensures
        r@ == ascii_lower(b@),
{
    let mut r: Vec<u8> = Vec::new();
    let mut i: usize = 0;
    while i < b.len()
        invariant
            0 <= i <= b@.len(),
            r@ =~= ascii_lower(b@).take(i as int),
        decreases b@.len() - i,
    {
        let c = b[i];
        if 65 <= c && c <= 90 {
            r.push(c + 32);
        } else {
            r.push(c);
        }
        i = i + 1;
    }
    assert(r@ =~= ascii_lower(b@));
    r
}

fn in_tokens(b: &[u8], tokens: &Vec<&'static str>) -> (r: bool)
    ensures
        r == is_token(b@, tokens@),
{
    let lower = to_ascii_lower(b);
    let mut i: usize = 0;
    while i < tokens.len()
        invariant
            0 <= i <= tokens@.len(),
            lower@ == ascii_lower(b@),
            forall|k: int| 0 <= k < i ==> ascii_lower(b@) != tokens@[k].spec_bytes(),
        decreases tokens@.len() - i,
    {
        let tok: &str = tokens[i];
        if bytes_equal(lower.as_slice(), tok.as_bytes()) {
            return true;
        }
        i = i + 1;
    }
    false
}

/// Whether the (trimmed) bytes of a cell spell a missing value.
pub fn is_null_value(b: &[u8]) -> (r: bool)
    ensures
        r == is_token(b@, null_tokens()),
{
    let tokens: Vec<&'static str> = vec![
        "", "-", "--", ".", "..", "?", "null", "nil", "none", "na", "n/a", "nan", "#n/a",
        "#value!", "#ref!", "#div/0!",
    ];
    assert(tokens@ =~= null_tokens());
    in_tokens(b, &tokens)
}

/// Whether the (trimmed) bytes of a cell spell a truth value.
pub fn is_boolean(b: &[u8]) -> (r: bool)
    ensures
        r == is_token(b@, boolean_tokens()),
{
    let tokens: Vec<&'static str> = vec![
        "true", "false", "yes", "no", "y", "n", "t", "f", "1", "0", "on", "off",
    ];
    assert(tokens@ =~= boolean_tokens());
    in_tokens(b, &tokens)
}

fn digits_between(b: &[u8], start: usize) -> (r: bool)
    requires
        start <= b@.len(),
    ensures
        r == (1 <= b@.len() - start <= 19 && all_digits(b@.subrange(start as int, b@.len() as int))),
{
    let n = b.len() - start;
    if n < 1 || n > 19 {
        return false;
    }
    let mut i: usize = start;
    while i < b.len()
        invariant
            start <= i <= b@.len(),
            forall|k: int| start <= k < i ==> 48 <= #[trigger] b@[k] <= 57,
        decreases b@.len() - i,
    {
        if b[i] < 48 || b[i] > 57 {
            assert(b@.subrange(start as int, b@.len() as int)[i - start] == b@[i as int]);
            return false;
        }
        i = i + 1;
    }
    assert forall|k: int| 0 <= k < b@.subrange(start as int, b@.len() as int).len() implies 48
        <= #[trigger] b@.subrange(start as int, b@.len() as int)[k] <= 57 by {
        assert(b@.subrange(start as int, b@.len() as int)[k] == b@[start + k]);
    }
    true
}

/// Whether the bytes are an unsigned integer: an optional `+`, then one to
/// nineteen digits.
pub fn is_unsigned_int(b: &[u8]) -> (r: bool)
    ensures
        r == spec_is_unsigned(b@),
{
    if b.len() > 0 && b[0] == 43 {
        assert(b@.drop_first() =~= b@.subrange(1, b@.len() as int));
        digits_between(b, 1)
    } else {
        assert(b@ =~= b@.subrange(0, b@.len() as int));
        digits_between(b, 0)
    }
}

/// Whether the bytes are a negative integer: `-`, then one to nineteen digits.
pub fn is_signed_int(b: &[u8]) -> (r: bool)
    ensures
        r == spec_is_signed(b@),
{
    if b.len() > 0 && b[0] == 45 {
        assert(b@.drop_first() =~= b@.subrange(1, b@.len() as int));
        digits_between(b, 1)
    } else {
        false
    }
}

fn has_float_marker(b: &[u8]) -> (r: bool)
    ensures
        r == has_float_mark(b@),
{
    let mut i: usize = 0;
    while i < b.len()
        invariant
            0 <= i <= b@.len(),
            forall|k: int| 0 <= k < i ==> !(b@[k] == 46u8 || b@[k] == 101u8 || b@[k] == 69u8),
        decreases b@.len() - i,
    {
        if b[i] == 46 || b[i] == 101 || b[i] == 69 {
            return true;
        }
        i = i + 1;
    }
    false
}

/// Classify one cell.
pub fn detect_cell_type(value: &str) -> (r: Type)
    ensures
        r == spec_cell_type(value@),
{
    let rec = Recognizers::new();
    detect_cell_type_with(&rec, value)
}

/// Classify one cell with compiled recognisers.
pub fn detect_cell_type_with(rec: &Recognizers, value: &str) -> (r: Type)
    requires
        rec.wf(),
    ensures
        r == spec_cell_type(value@),
{
    let t = trim(value);
    let b = t.as_bytes();
    if is_null_value(b) {
        return Type::NULL;
    }
    if is_unsigned_int(b) {
        return Type::Unsigned;
    }
    if is_signed_int(b) {
        return Type::Signed;
    }
    if is_boolean(b) {
        return Type::Boolean;
    }
    if rec.matches(5, t) && has_float_marker(
        b,
    ) {
        return Type::Float;
    }
    if rec.matches(7, t) {
        return Type::Float;
    }
    if rec.matches(11, t) || rec.matches(12, t) {
        return Type::DateTime;
    }
    if rec.matches(8, t) || rec.matches(9, t) || rec.matches(10, t) {
        return Type::Date;
    }
    Type::Text
}

/// The cells of column `c`: the `c`-th field of every row that has one.
pub open spec fn column_cells(rows: Seq<Seq<Seq<char>>>, c: int) -> Seq<Seq<char>>
    decreases rows.len(),
{
    if rows.len() == 0 {
        Seq::empty()
    } else {
        let p = column_cells(rows.drop_last(), c);
        if 0 <= c < rows.last().len() {
            p.push(rows.last()[c])
        } else {
            p
        }
    }
}

/// Number of cells of type `t`.
pub open spec fn type_count(cells: Seq<Seq<char>>, t: Type) -> nat
    decreases cells.len(),
{
    if cells.len() == 0 {
        0
    } else {
        type_count(cells.drop_last(), t) + (if spec_cell_type(cells.last()) == t {
            1nat
        } else {
            0nat
        })
    }
}

/// The merge of the types of all cells; NULL for none.
pub open spec fn merged_type(cells: Seq<Seq<char>>) -> Type
    decreases cells.len(),
{
    if cells.len() == 0 {
        Type::NULL
    } else {
        merged_type(cells.drop_last()).spec_merge(spec_cell_type(cells.last()))
    }
}

pub open spec fn max_nat(a: nat, b: nat) -> nat {
    if a >= b {
        a
    } else {
        b
    }
}

/// The largest number of cells that share one non-NULL type.
pub open spec fn max_non_null(cells: Seq<Seq<char>>) -> nat {
    max_nat(
        type_count(cells, Type::Boolean),
        max_nat(
            type_count(cells, Type::Unsigned),
            max_nat(
                type_count(cells, Type::Signed),
                max_nat(
                    type_count(cells, Type::Float),
                    max_nat(
                        type_count(cells, Type::Date),
                        max_nat(type_count(cells, Type::DateTime), type_count(cells, Type::Text)),
                    ),
                ),
            ),
        ),
    )
}

/// Type consistency of one column, scaled by `SCALE`: the share of non-NULL
/// cells that have the most common non-NULL type; one half when every cell is
/// NULL.
pub open spec fn column_score(cells: Seq<Seq<char>>) -> nat {
    let non_null = cells.len() - type_count(cells, Type::NULL);
    if non_null <= 0 {
        (SCALE / 2) as nat
    } else {
        ((SCALE as int) * (max_non_null(cells) as int) / non_null) as nat
    }
}

/// Sum of the scores of columns `0..n` that have at least one cell, and their number.
pub open spec fn column_score_sum(rows: Seq<Seq<Seq<char>>>, n: int) -> (nat, nat)
    decreases n,
{
    if n <= 0 {
        (0, 0)
    } else {
        let p = column_score_sum(rows, n - 1);
        let cells = column_cells(rows, n - 1);
        if cells.len() > 0 {
            (p.0 + column_score(cells), p.1 + 1)
        } else {
            p
        }
    }
}

/// Type consistency of a table, scaled by `SCALE`: the mean column score over
/// the first `ncols` columns that have cells.
pub open spec fn spec_type_score(rows: Seq<Seq<Seq<char>>>, ncols: int) -> nat {
    let s = column_score_sum(rows, ncols);
    if rows.len() == 0 || ncols == 0 || s.1 == 0 {
        0
    } else {
        s.0 / s.1
    }
}

proof fn lemma_type_count_bounded(cells: Seq<Seq<char>>, t: Type)
    ensures
        type_count(cells, t) <= cells.len(),
    decreases cells.len(),
{
    if cells.len() > 0 {
        lemma_type_count_bounded(cells.drop_last(), t);
    }
}

proof fn lemma_type_counts_sum(cells: Seq<Seq<char>>)
    ensures
        type_count(cells, Type::NULL) + type_count(cells, Type::Boolean) + type_count(
            cells,
            Type::Unsigned,
        ) + type_count(cells, Type::Signed) + type_count(cells, Type::Float) + type_count(
            cells,
            Type::Date,
        ) + type_count(cells, Type::DateTime) + type_count(cells, Type::Text) == cells.len(),
    decreases cells.len(),
{
    if cells.len() > 0 {
        lemma_type_counts_sum(cells.drop_last());
    }
}

proof fn lemma_column_cells_step(rows: Seq<Seq<Seq<char>>>, i: int, c: int)
    requires
        0 <= i < rows.len(),
    ensures
        column_cells(rows.take(i + 1), c) == (if 0 <= c < rows[i].len() {
            column_cells(rows.take(i), c).push(rows[i][c])
        } else {
            column_cells(rows.take(i), c)
        }),
{
    assert(rows.take(i + 1).drop_last() =~= rows.take(i));
}

proof fn lemma_column_cells_len(rows: Seq<Seq<Seq<char>>>, c: int)
    ensures
        column_cells(rows, c).len() <= rows.len(),
    decreases rows.len(),
{
    if rows.len() > 0 {
        lemma_column_cells_len(rows.drop_last(), c);
    }
}

/// Tally of cell types in column `c`, indexed by type priority, and the number of cells.
fn tally_column(rec: &Recognizers, table: &Table, c: usize) -> (r: (Vec<usize>, usize))
    requires
        rec.wf(),
    ensures
        r.0@.len() == 8,
        forall|t: Type|
            #![trigger t.spec_priority()]
            r.0@[t.spec_priority() as int] == type_count(
                column_cells(table.rows.deep_view(), c as int),
                t,
            ),
        r.1 == column_cells(table.rows.deep_view(), c as int).len(),
{
    let ghost rows = table.rows.deep_view();
    let mut counts: Vec<usize> = vec![0, 0, 0, 0, 0, 0, 0, 0];
    let mut total: usize = 0;
    let mut i: usize = 0;
    assert(rows.take(0) =~= Seq::<Seq<Seq<char>>>::empty());
    while i < table.rows.len()
        invariant
            rec.wf(),
            rows == table.rows.deep_view(),
            0 <= i <= rows.len(),
            counts@.len() == 8,
            forall|t: Type|
                #![trigger t.spec_priority()]
                counts@[t.spec_priority() as int] == type_count(
                    column_cells(rows.take(i as int), c as int),
                    t,
                ),
            total == column_cells(rows.take(i as int), c as int).len(),
        decreases rows.len() - i,
    {
        proof {
            lemma_column_cells_step(rows, i as int, c as int);
            lemma_column_cells_len(rows.take(i as int), c as int);
        }
        let row = &table.rows[i];
        if c < row.len() {
            let ty = detect_cell_type_with(rec, row[c].as_str());
            let k = ty.as_index();
            proof {
                let cells = column_cells(rows.take(i as int), c as int);
                let cells2 = column_cells(rows.take(i + 1), c as int);
                assert(cells2.drop_last() == cells);
                assert(cells2.last() == rows[i as int][c as int]);
                lemma_type_count_bounded(cells, ty);
            }
            counts.set(k, counts[k] + 1);
            total = total + 1;
        }
        i = i + 1;
    }
    assert(rows.take(rows.len() as int) =~= rows);
    (counts, total)
}

/// Type consistency of column `c`, scaled by `SCALE`, and whether it has cells.
fn column_consistency(rec: &Recognizers, table: &Table, c: usize) -> (r: (u64, bool))
    requires
        rec.wf(),
    ensures
        r.1 == (column_cells(table.rows.deep_view(), c as int).len() > 0),
        r.1 ==> r.0 == column_score(column_cells(table.rows.deep_view(), c as int)),
        r.0 <= SCALE,
{
    let ghost cells = column_cells(table.rows.deep_view(), c as int);
    let (counts, total) = tally_column(rec, table, c);
    if total == 0 {
        return (0, false);
    }
    proof {
        lemma_type_counts_sum(cells);
        assert(counts@[0] == type_count(cells, Type::NULL)) by {
            assert(Type::NULL.spec_priority() == 0);
        }
        assert(counts@[1] == type_count(cells, Type::Boolean)) by {
            assert(Type::Boolean.spec_priority() == 1);
        }
        assert(counts@[2] == type_count(cells, Type::Unsigned)) by {
            assert(Type::Unsigned.spec_priority() == 2);
        }
        assert(counts@[3] == type_count(cells, Type::Signed)) by {
            assert(Type::Signed.spec_priority() == 3);
        }
        assert(counts@[4] == type_count(cells, Type::Float)) by {
            assert(Type::Float.spec_priority() == 4);
        }
        assert(counts@[5] == type_count(cells, Type::Date)) by {
            assert(Type::Date.spec_priority() == 5);
        }
        assert(counts@[6] == type_count(cells, Type::DateTime)) by {
            assert(Type::DateTime.spec_priority() == 6);
        }
        assert(counts@[7] == type_count(cells, Type::Text)) by {
            assert(Type::Text.spec_priority() == 7);
        }
    }
    let non_null = total - counts[0];
    if non_null == 0 {
        return (SCALE / 2, true);
    }
    let mut best: usize = counts[1];
    let mut k: usize = 2;
    while k < 8
        invariant
            rec.wf(),
            2 <= k <= 8,
            counts@.len() == 8,
            forall|j: int| 1 <= j < k ==> counts@[j] <= best,
            exists|j: int| 1 <= j < k && counts@[j] == best,
        decreases 8 - k,
    {
        if counts[k] > best {
            best = counts[k];
        }
        k = k + 1;
    }
    proof {
        assert(best == max_non_null(cells));
        assert(best <= non_null);
    }
    let score = ((SCALE as u128) * (best as u128) / (non_null as u128)) as u64;
    proof {
        let sb = (SCALE as int) * (best as int);
        assert(sb / (non_null as int) <= SCALE as int) by (nonlinear_arith)
            requires
                best <= non_null,
                non_null > 0,
                sb == (SCALE as int) * (best as int),
        ;
    }
    (score, true)
}

/// Type consistency of a table, scaled by `SCALE`: for each of the first
/// modal-field-count columns, the share of non-NULL cells of the most common
/// type (one half for an all-NULL column); the mean over columns with cells.
pub fn calculate_type_score(table: &Table) -> (r: u64)
    ensures
        r == spec_type_score(table.rows.deep_view(), table.spec_modal_field_count() as int),
        r <= SCALE,
{
    let rec = Recognizers::new();
    calculate_type_score_with(&rec, table)
}

/// Type consistency of a table, with compiled recognisers.
pub fn calculate_type_score_with(rec: &Recognizers, table: &Table) -> (r: u64)
    requires
        rec.wf(),
    ensures
        r == spec_type_score(table.rows.deep_view(), table.spec_modal_field_count() as int),
        r <= SCALE,
{
    let ghost rows = table.rows.deep_view();
    let ncols = table.modal_field_count();
    if table.is_empty() || ncols == 0 {
        return 0;
    }
    let mut sum: u128 = 0;
    let mut valid: u128 = 0;
    let mut c: usize = 0;
    while c < ncols
        invariant
            rec.wf(),
            rows == table.rows.deep_view(),
            ncols == table.spec_modal_field_count(),
            0 <= c <= ncols,
            column_score_sum(rows, c as int) == (sum as nat, valid as nat),
            sum <= valid * SCALE,
            valid <= c,
        decreases ncols - c,
    {
        let (score, has_cells) = column_consistency(rec, table, c);
        if has_cells {
            sum = sum + score as u128;
            valid = valid + 1;
        }
        c = c + 1;
    }
    if valid == 0 {
        return 0;
    }
    proof {
        assert(sum / valid <= SCALE) by (nonlinear_arith)
            requires
                sum <= valid * SCALE,
                valid > 0,
        ;
    }
    (sum / valid) as u64
}

/// The merged type of column `col` over all rows that have it.
pub fn infer_single_column_type(rec: &Recognizers, table: &Table, col: usize) -> (r: Type)
    requires
        rec.wf(),
    ensures
        r == merged_type(column_cells(table.rows.deep_view(), col as int)),
{
    let ghost rows = table.rows.deep_view();
    let mut merged = Type::NULL;
    let mut i: usize = 0;
    assert(rows.take(0) =~= Seq::<Seq<Seq<char>>>::empty());
    while i < table.rows.len()
        invariant
            rec.wf(),
            rows == table.rows.deep_view(),
            0 <= i <= rows.len(),
            merged == merged_type(column_cells(rows.take(i as int), col as int)),
        decreases rows.len() - i,
    {
        proof {
            lemma_column_cells_step(rows, i as int, col as int);
        }
        let row = &table.rows[i];
        if col < row.len() {
            let ty = detect_cell_type_with(rec, row[col].as_str());
            proof {
                let cells2 = column_cells(rows.take(i + 1), col as int);
                assert(cells2.drop_last() == column_cells(rows.take(i as int), col as int));
                assert(cells2.last() == rows[i as int][col as int]);
            }
            merged = merged.merge(ty);
        }
        i = i + 1;
    }
    assert(rows.take(rows.len() as int) =~= rows);
    merged
}

/// The merged type of each of the first modal-field-count columns.
pub fn infer_column_types(table: &Table) -> (r: Vec<Type>)
    ensures
        r@.len() == table.spec_modal_field_count(),
        forall|c: int|
            0 <= c < r@.len() ==> #[trigger] r@[c] == merged_type(
                column_cells(table.rows.deep_view(), c),
            ),
{
    let rec = Recognizers::new();
    let ncols = table.modal_field_count();
    let mut types: Vec<Type> = Vec::new();
    let mut c: usize = 0;
    while c < ncols
        invariant
            ncols == table.spec_modal_field_count(),
            0 <= c <= ncols,
            types@.len() == c,
            forall|k: int|
                0 <= k < c ==> #[trigger] types@[k] == merged_type(
                    column_cells(table.rows.deep_view(), k),
                ),
            rec.wf(),
        decreases ncols - c,
    {
        types.push(infer_single_column_type(&rec, table, c));
        c = c + 1;
    }
    types
}

/// The ordered recognisers of cell formats, each with its weight in tenths:
/// 0. empty (0)
/// 1. null (5)
/// 2. boolean (10)
/// 3. unsigned (10)
/// 4. signed (10)
/// 5. float (10)
/// 6. float with decimal comma (9)
/// 7. float with thousands separators (9)
/// 8. ISO date (10)
/// 9. US date (9)
/// 10. European date (9)
/// 11. ISO date-time (10)
/// 12. general date-time (9)
/// 13. time (8)
/// 14. e-mail address (8)
/// 15. URL (8)
/// 16. IPv4 address (8)
/// 17. currency (9)
/// 18. percentage (9)
/// 19. UUID (8)
/// 20. alphanumeric (3)
pub open spec fn pattern_table() -> Seq<(&'static str, u64)> {
    seq![
        (EMPTY_PATTERN, 0),
        (NULL_PATTERN, 5),
        (BOOLEAN_PATTERN, 10),
        (UNSIGNED_PATTERN, 10),
        (SIGNED_PATTERN, 10),
        (FLOAT_PATTERN, 10),
        (FLOAT_EURO_PATTERN, 9),
        (FLOAT_THOUSANDS_PATTERN, 9),
        (DATE_ISO_PATTERN, 10),
        (DATE_US_PATTERN, 9),
        (DATE_EURO_PATTERN, 9),
        (DATETIME_ISO_PATTERN, 10),
        (DATETIME_GENERAL_PATTERN, 9),
        (TIME_PATTERN, 8),
        (EMAIL_PATTERN, 8),
        (URL_PATTERN, 8),
        (IPV4_PATTERN, 8),
        (CURRENCY_PATTERN, 9),
        (PERCENTAGE_PATTERN, 9),
        (UUID_PATTERN, 8),
        (ALPHANUM_PATTERN, 3),
    ]
}

fn patterns() -> (r: Vec<(&'static str, u64)>)
    ensures
        r@ == pattern_table(),
{
    let r = vec![
        (EMPTY_PATTERN, 0),
        (NULL_PATTERN, 5),
        (BOOLEAN_PATTERN, 10),
        (UNSIGNED_PATTERN, 10),
        (SIGNED_PATTERN, 10),
        (FLOAT_PATTERN, 10),
        (FLOAT_EURO_PATTERN, 9),
        (FLOAT_THOUSANDS_PATTERN, 9),
        (DATE_ISO_PATTERN, 10),
        (DATE_US_PATTERN, 9),
        (DATE_EURO_PATTERN, 9),
        (DATETIME_ISO_PATTERN, 10),
        (DATETIME_GENERAL_PATTERN, 9),
        (TIME_PATTERN, 8),
        (EMAIL_PATTERN, 8),
        (URL_PATTERN, 8),
        (IPV4_PATTERN, 8),
        (CURRENCY_PATTERN, 9),
        (PERCENTAGE_PATTERN, 9),
        (UUID_PATTERN, 8),
        (ALPHANUM_PATTERN, 3),
    ];
    assert(r@ =~= pattern_table());
    r
}

/// A recogniser of a cell format with its name and weight in tenths.
#[derive(Debug, Clone, Copy)]
pub struct PatternCategory {
    pub pattern: &'static str,
    pub category: &'static str,
    pub weight: u64,
}

/// The ordered recognisers of cell formats.
pub fn get_pattern_categories() -> (r: Vec<PatternCategory>)
    ensures
        r@.len() == pattern_table().len(),
        forall|i: int|
            0 <= i < r@.len() ==> #[trigger] r@[i].pattern == pattern_table()[i].0
                && r@[i].weight == pattern_table()[i].1,
{
    let ps = patterns();
    let names = vec![
        "empty", "null", "boolean", "unsigned", "signed", "float", "float_euro",
        "float_thousands", "date", "date", "date", "datetime", "datetime", "time", "email", "url",
        "ipv4", "currency", "percentage", "uuid", "alphanum",
    ];
    let mut r: Vec<PatternCategory> = Vec::new();
    let mut i: usize = 0;
    while i < ps.len()
        invariant
            ps@ == pattern_table(),
            names@.len() == pattern_table().len(),
            0 <= i <= ps@.len(),
            r@.len() == i,
            forall|k: int|
                0 <= k < i ==> #[trigger] r@[k].pattern == pattern_table()[k].0 && r@[k].weight
                    == pattern_table()[k].1,
        decreases ps@.len() - i,
    {
        let (p, w) = ps[i];
        r.push(PatternCategory { pattern: p, category: names[i], weight: w });
        i = i + 1;
    }
    r
}

/// Weight in tenths of the first pattern from `i` on that `t` matches; one
/// tenth when none does.
pub open spec fn first_match_weight(ps: Seq<(&'static str, u64)>, i: int, t: Seq<char>) -> nat
    decreases ps.len() - i,
{
    if i < 0 || i >= ps.len() {
        1
    } else if regex_matches(ps[i].0@, t) {
        ps[i].1 as nat
    } else {
        first_match_weight(ps, i + 1, t)
    }
}

/// How specific the format of a cell is, in tenths: zero for a blank cell.
pub open spec fn spec_pattern_weight(value: Seq<char>) -> nat {
    let t = trimmed(value);
    if t.len() == 0 {
        0
    } else {
        first_match_weight(pattern_table(), 0, t)
    }
}

/// Specificity of the format of one cell, in tenths.
pub fn pattern_specificity_score(value: &str) -> (r: u64)
    ensures
        r == spec_pattern_weight(value@),
        r <= 10,
{
    let rec = Recognizers::new();
    pattern_specificity_score_with(&rec, value)
}

/// Specificity of the format of one cell, in tenths, with compiled recognisers.
pub fn pattern_specificity_score_with(rec: &Recognizers, value: &str) -> (r: u64)
    requires
        rec.wf(),
    ensures
        r == spec_pattern_weight(value@),
        r <= 10,
{
    let t = trim(value);
    if t.is_empty() {
        return 0;
    }
    let ps = patterns();
    let mut i: usize = 0;
    while i < ps.len()
        invariant
            rec.wf(),
            ps@ == pattern_table(),
            0 <= i <= ps@.len(),
            t@ == trimmed(value@),
            t@.len() > 0,
            first_match_weight(ps@, i as int, t@) == first_match_weight(ps@, 0, t@),
        decreases ps@.len() - i,
    {
        let (_p, w) = ps[i];
        if rec.matches(i, t) {
            return w;
        }
        i = i + 1;
    }
    1
}

pub open spec fn row_weight_sum(row: Seq<Seq<char>>) -> nat
    decreases row.len(),
{
    if row.len() == 0 {
        0
    } else {
        row_weight_sum(row.drop_last()) + spec_pattern_weight(row.last())
    }
}

pub open spec fn table_weight_sum(rows: Seq<Seq<Seq<char>>>) -> nat
    decreases rows.len(),
{
    if rows.len() == 0 {
        0
    } else {
        table_weight_sum(rows.drop_last()) + row_weight_sum(rows.last())
    }
}

/// Number of cells in all rows.
pub open spec fn cell_total(rows: Seq<Seq<Seq<char>>>) -> nat
    decreases rows.len(),
{
    if rows.len() == 0 {
        0
    } else {
        cell_total(rows.drop_last()) + rows.last().len()
    }
}

/// Mean format specificity over all cells, scaled by `SCALE`.
pub open spec fn spec_pattern_score(rows: Seq<Seq<Seq<char>>>) -> nat {
    if cell_total(rows) == 0 {
        0
    } else {
        ((SCALE as int) * (table_weight_sum(rows) as int) / (10 * cell_total(rows) as int)) as nat
    }
}

proof fn lemma_row_weight_bounded(row: Seq<Seq<char>>)
    ensures
        row_weight_sum(row) <= 10 * row.len(),
    decreases row.len(),
{
    if row.len() > 0 {
        lemma_row_weight_bounded(row.drop_last());
        lemma_pattern_weight_bounded(row.last());
    }
}

proof fn lemma_first_match_bounded(ps: Seq<(&'static str, u64)>, i: int, t: Seq<char>)
    requires
        ps == pattern_table(),
    ensures
        first_match_weight(ps, i, t) <= 10,
    decreases ps.len() - i,
{
    if 0 <= i < ps.len() && !regex_matches(ps[i].0@, t) {
        lemma_first_match_bounded(ps, i + 1, t);
    }
}

proof fn lemma_pattern_weight_bounded(value: Seq<char>)
    ensures
        spec_pattern_weight(value) <= 10,
{
    lemma_first_match_bounded(pattern_table(), 0, trimmed(value));
}

proof fn lemma_table_weight_bounded(rows: Seq<Seq<Seq<char>>>)
    ensures
        table_weight_sum(rows) <= 10 * cell_total(rows),
    decreases rows.len(),
{
    if rows.len() > 0 {
        lemma_table_weight_bounded(rows.drop_last());
        lemma_row_weight_bounded(rows.last());
    }
}

proof fn lemma_cell_total_monotone(rows: Seq<Seq<Seq<char>>>, i: int)
    requires
        0 <= i <= rows.len(),
    ensures
        cell_total(rows.take(i)) <= cell_total(rows),
    decreases rows.len() - i,
{
    if i < rows.len() {
        lemma_cell_total_monotone(rows, i + 1);
        assert(rows.take(i + 1).drop_last() =~= rows.take(i));
    } else {
        assert(rows.take(i) =~= rows);
    }
}

/// Number of cells in the table, or `None` when it exceeds `u64::MAX`.
pub fn count_cells(table: &Table) -> (r: Option<u64>)
    ensures
        r matches Some(n) ==> n == cell_total(table.rows.deep_view()),
        r is None ==> cell_total(table.rows.deep_view()) > u64::MAX,
{
    let ghost rows = table.rows.deep_view();
    let mut n: u64 = 0;
    let mut i: usize = 0;
    assert(rows.take(0) =~= Seq::<Seq<Seq<char>>>::empty());
    while i < table.rows.len()
        invariant
            rows == table.rows.deep_view(),
            0 <= i <= rows.len(),
            n == cell_total(rows.take(i as int)),
        decreases rows.len() - i,
    {
        assert(rows.take(i + 1).drop_last() =~= rows.take(i as int));
        let len = table.rows[i].len() as u64;
        if n > u64::MAX - len {
            proof {
                lemma_cell_total_monotone(rows, i + 1);
            }
            return None;
        }
        n = n + len;
        i = i + 1;
    }
    assert(rows.take(rows.len() as int) =~= rows);
    Some(n)
}

/// Mean format specificity over all cells of the table, scaled by `SCALE`.
pub fn calculate_pattern_score(table: &Table) -> (r: u64)
    requires
        cell_total(table.rows.deep_view()) <= u64::MAX,
    ensures
        r == spec_pattern_score(table.rows.deep_view()),
        r <= SCALE,
{
    let rec = Recognizers::new();
    calculate_pattern_score_with(&rec, table)
}

/// Mean format specificity with compiled recognisers.
pub fn calculate_pattern_score_with(rec: &Recognizers, table: &Table) -> (r: u64)
    requires
        rec.wf(),
        cell_total(table.rows.deep_view()) <= u64::MAX,
    ensures
        r == spec_pattern_score(table.rows.deep_view()),
        r <= SCALE,
{
    let ghost rows = table.rows.deep_view();
    let mut sum: u128 = 0;
    let mut count: u128 = 0;
    let mut i: usize = 0;
    assert(rows.take(0) =~= Seq::<Seq<Seq<char>>>::empty());
    while i < table.rows.len()
        invariant
            rec.wf(),
            rows == table.rows.deep_view(),
            cell_total(rows) <= u64::MAX,
            0 <= i <= rows.len(),
            sum == table_weight_sum(rows.take(i as int)),
            count == cell_total(rows.take(i as int)),
        decreases rows.len() - i,
    {
        let row = &table.rows[i];
        let ghost r = rows[i as int];
        assert(rows.take(i + 1).drop_last() =~= rows.take(i as int));
        proof {
            lemma_cell_total_monotone(rows, i + 1);
            lemma_table_weight_bounded(rows.take(i as int));
        }
        let mut j: usize = 0;
        let mut row_sum: u128 = 0;
        assert(r.take(0) =~= Seq::<Seq<char>>::empty());
        while j < row.len()
            invariant
                rec.wf(),
                r == rows[i as int],
                r == row.deep_view(),
                0 <= j <= r.len(),
                row_sum == row_weight_sum(r.take(j as int)),
                row_sum <= 10 * j,
            decreases r.len() - j,
        {
            assert(r.take(j + 1).drop_last() =~= r.take(j as int));
            let w = pattern_specificity_score_with(rec, row[j].as_str());
            row_sum = row_sum + w as u128;
            j = j + 1;
        }
        assert(r.take(r.len() as int) =~= r);
        sum = sum + row_sum;
        count = count + row.len() as u128;
        i = i + 1;
    }
    assert(rows.take(rows.len() as int) =~= rows);
    if count == 0 {
        return 0;
    }
    proof {
        lemma_table_weight_bounded(rows);
        assert((SCALE as int) * (sum as int) / (10 * count as int) <= SCALE as int)
            by (nonlinear_arith)
            requires
                sum <= 10 * count,
                count > 0,
        ;
    }
    ((SCALE as u128) * sum / (10 * count)) as u64
}

} // verus!
