use vstd::prelude::*;
use vstd::string::{StringExecFns, StringSliceAdditionalSpecFns};
use vstd::utf8::{encode_utf8, valid_utf8};

use crate::bytes::{CARRIAGE_RETURN, DOUBLE_QUOTE, HASH, LINE_FEED, SINGLE_QUOTE, SPACE, TAB};
use crate::dialects::{
    detect_line_terminator, generate_dialects_with_terminator, spec_dialect_with_terminator,
    spec_line_terminator, spec_normalized, LineTerminator, PotentialDialect,
};
use crate::encoding::{detect_and_transcode, detect_encoding, skip_bom, spec_skip_bom, spec_transcode};
use crate::error::SnifferError;
use crate::field_type::Type;
use crate::metadata::{DatePreference, Dialect, Header, Metadata, MetadataView, Quote, SampleSize};
use crate::score::{
    best_dialect_index, byte_count, count_byte, score_all_dialects_with_best_table,
    spec_best_index, spec_quote_counts, spec_score_of_rows, DialectScore,
};
use crate::table::{count_in, occurrences, spec_field_counts, spec_modal, spec_parse_rows, Table};
use crate::type_detection::{
    column_cells, detect_cell_type_with, infer_column_types, merged_type, spec_cell_type, Recognizers,
};

verus! {

/// The decimal digits of `n`.
pub open spec fn decimal(n: nat) -> Seq<char>
    decreases n,
{
    if n < 10 {
        seq![digit_char(n)]
    } else {
        decimal(n / 10) + seq![digit_char(n % 10)]
    }
}

pub open spec fn digit_char(d: nat) -> char {
    if d == 0 { '0' } else if d == 1 { '1' } else if d == 2 { '2' } else if d == 3 { '3' }
    else if d == 4 { '4' } else if d == 5 { '5' } else if d == 6 { '6' } else if d == 7 { '7' }
    else if d == 8 { '8' } else { '9' }
}

fn digit_str(d: u64) -> (r: &'static str)
    requires
        d < 10,
    ensures
        r@ == seq![digit_char(d as nat)],
{
    if d == 0 {
        proof { reveal_strlit("0"); }
        "0"
    } else if d == 1 {
        proof { reveal_strlit("1"); }
        "1"
    } else if d == 2 {
        proof { reveal_strlit("2"); }
        "2"
    } else if d == 3 {
        proof { reveal_strlit("3"); }
        "3"
    } else if d == 4 {
        proof { reveal_strlit("4"); }
        "4"
    } else if d == 5 {
        proof { reveal_strlit("5"); }
        "5"
    } else if d == 6 {
        proof { reveal_strlit("6"); }
        "6"
    } else if d == 7 {
        proof { reveal_strlit("7"); }
        "7"
    } else if d == 8 {
        proof { reveal_strlit("8"); }
        "8"
    } else {
        proof { reveal_strlit("9"); }
        "9"
    }
}

fn push_decimal(s: &mut String, n: u64)
    ensures
        final(s)@ == old(s)@ + decimal(n as nat),
    decreases n,
{
    if n >= 10 {
        push_decimal(s, n / 10);
    }
    let ghost before = s@;
    s.append(digit_str(n % 10));
    assert(s@ =~= old(s)@ + decimal(n as nat)) by {
        if n >= 10 {
            assert(before == old(s)@ + decimal((n / 10) as nat));
        }
    }
}

/// `field_N`, the name given to column `N - 1` of a file without a header.
pub open spec fn field_name(i: nat) -> Seq<char> {
    "field_"@ + decimal(i + 1)
}

fn make_field_name(i: usize) -> (r: String)
    requires
        i < usize::MAX,
    ensures
        r@ == field_name(i as nat),
{
    proof {
        reveal_strlit("field_");
    }
    let mut s = String::new();
    s.append("field_");
    push_decimal(&mut s, (i + 1) as u64);
    s
}

/// A line that starts, after spaces and tabs, with `#`.
pub open spec fn is_comment_start(d: Seq<u8>, start: int) -> bool {
    let k = first_non_blank(d, start);
    k < d.len() && d[k] == HASH
}

/// First position from `start` on that holds neither a space nor a tab.
pub open spec fn first_non_blank(d: Seq<u8>, start: int) -> int
    decreases d.len() - start,
{
    if start < 0 || start >= d.len() {
        if start < 0 { 0 } else { start }
    } else if d[start] == SPACE || d[start] == TAB {
        first_non_blank(d, start + 1)
    } else {
        start
    }
}

/// First position from `start` on that holds a line terminator byte.
pub open spec fn spec_line_end(d: Seq<u8>, start: int) -> int
    decreases d.len() - start,
{
    if start < 0 || start >= d.len() {
        if start < 0 { 0 } else { start }
    } else if d[start] == LINE_FEED || d[start] == CARRIAGE_RETURN {
        start
    } else {
        spec_line_end(d, start + 1)
    }
}

/// The position after the comment line that starts at `start` and its terminator
/// (`\r`, `\n` or `\r\n`).
pub open spec fn after_line(d: Seq<u8>, start: int) -> int {
    let e = spec_line_end(d, first_non_blank(d, start));
    let e1 = if e < d.len() && d[e] == CARRIAGE_RETURN { e + 1 } else { e };
    if e1 < d.len() && d[e1] == LINE_FEED { e1 + 1 } else { e1 }
}

/// Comment lines from `start` on, and the position after them.
pub open spec fn comment_lines(d: Seq<u8>, start: int) -> (nat, int)
    decreases d.len() - start,
{
    if 0 <= start < d.len() && is_comment_start(d, start) && start < after_line(d, start) <= d.len() {
        let r = comment_lines(d, after_line(d, start));
        (r.0 + 1, r.1)
    } else {
        (0, start)
    }
}

proof fn lemma_first_non_blank(d: Seq<u8>, start: int)
    requires
        0 <= start <= d.len(),
    ensures
        start <= first_non_blank(d, start) <= d.len(),
    decreases d.len() - start,
{
    if start < d.len() && (d[start] == SPACE || d[start] == TAB) {
        lemma_first_non_blank(d, start + 1);
    }
}

proof fn lemma_line_end(d: Seq<u8>, start: int)
    requires
        0 <= start <= d.len(),
    ensures
        start <= spec_line_end(d, start) <= d.len(),
    decreases d.len() - start,
{
    if start < d.len() && !(d[start] == LINE_FEED || d[start] == CARRIAGE_RETURN) {
        lemma_line_end(d, start + 1);
    }
}

/// Count the leading comment lines (first non-blank byte `#`) and return the
/// rest of the data.
pub fn skip_preamble(data: &[u8]) -> (r: (usize, &[u8]))
    ensures
        r.0 == comment_lines(data@, 0).0,
        r.1@ == data@.subrange(comment_lines(data@, 0).1, data@.len() as int),
{
    let ghost d = data@;
    let mut rows: usize = 0;
    let mut offset: usize = 0;
    let mut done = false;
    while !done && offset < data.len()
        invariant
            d == data@,
            done ==> comment_lines(d, offset as int) == (0nat, offset as int),
            0 <= offset <= d.len(),
            rows <= offset,
            comment_lines(d, 0) == ((comment_lines(d, offset as int).0 + rows) as nat, comment_lines(d, offset as int).1),
        decreases d.len() - offset + (if done { 0int } else { 1int }),
    {
        let mut line_start = offset;
        while line_start < data.len() && (data[line_start] == SPACE || data[line_start] == TAB)
            invariant
                d == data@,
                offset <= line_start <= d.len(),
                first_non_blank(d, offset as int) == first_non_blank(d, line_start as int),
            decreases d.len() - line_start,
        {
            line_start = line_start + 1;
        }
        proof {
            lemma_first_non_blank(d, offset as int);
            assert(first_non_blank(d, line_start as int) == line_start as int);
        }
        if line_start < data.len() && data[line_start] == HASH {
            let mut line_end = line_start;
            while line_end < data.len() && data[line_end] != LINE_FEED && data[line_end] != CARRIAGE_RETURN
                invariant
                    d == data@,
                    line_start < line_end <= d.len() || line_start == line_end,
                    line_start < d.len(),
                    d[line_start as int] == HASH,
                    line_start <= line_end <= d.len(),
                    spec_line_end(d, line_start as int) == spec_line_end(d, line_end as int),
                decreases d.len() - line_end,
            {
                line_end = line_end + 1;
            }
            assert(spec_line_end(d, line_end as int) == line_end as int);
            if line_end < data.len() && data[line_end] == CARRIAGE_RETURN {
                line_end = line_end + 1;
            }
            if line_end < data.len() && data[line_end] == LINE_FEED {
                line_end = line_end + 1;
            }
            assert(after_line(d, offset as int) == line_end as int);
            assert(is_comment_start(d, offset as int));
            assert(comment_lines(d, offset as int).0 == comment_lines(d, line_end as int).0 + 1);
            rows = rows + 1;
            offset = line_end;
        } else {
            assert(!is_comment_start(d, offset as int));
            done = true;
        }
    }
    (rows, &data[offset..data.len()])
}

/// Rows from `i` on whose field count is `m`.
pub open spec fn suffix_matches(fc: Seq<usize>, m: usize, i: int) -> int {
    occurrences(fc, m) - occurrences(fc.take(i), m)
}

/// The first row from `i` on that has the modal count and from which at least
/// 80% of the remaining rows have it; zero when there is none.
pub open spec fn first_consistent(fc: Seq<usize>, m: usize, i: int) -> int
    decreases fc.len() - i,
{
    if i < 0 || i >= fc.len() {
        0
    } else if fc[i] == m && 5 * suffix_matches(fc, m, i) >= 4 * (fc.len() - i) {
        i
    } else {
        first_consistent(fc, m, i + 1)
    }
}

/// Number of leading rows whose field counts depart from the modal count `m`:
/// the earliest row from which at least 80% of the rows match it; zero for
/// fewer than three rows.
pub open spec fn spec_structural_preamble(fc: Seq<usize>, m: usize) -> int {
    if fc.len() < 3 {
        0
    } else {
        first_consistent(fc, m, 0)
    }
}

/// Leading rows (titles, notes) whose field counts depart from the modal count.
pub fn detect_structural_preamble(table: &Table) -> (r: usize)
    ensures
        r == spec_structural_preamble(table.field_counts@, table.spec_modal_field_count()),
        r == 0 || r < table.field_counts@.len(),
{
    let ghost fc = table.field_counts@;
    let n = table.field_counts.len();
    if n < 3 {
        return 0;
    }
    let m = table.modal_field_count();
    let total = count_in(&table.field_counts, m);
    let mut prefix: usize = 0;
    let mut i: usize = 0;
    assert(fc.take(0) =~= Seq::<usize>::empty());
    while i < n
        invariant
            fc == table.field_counts@,
            n == fc.len(),
            m == table.spec_modal_field_count(),
            n >= 3,
            total == occurrences(fc, m),
            0 <= i <= n,
            prefix == occurrences(fc.take(i as int), m),
            first_consistent(fc, m, 0) == first_consistent(fc, m, i as int),
        decreases n - i,
    {
        proof {
            assert(fc.take(i + 1).drop_last() =~= fc.take(i as int));
            crate::table::lemma_occurrences_bounded(fc.take(i as int), m);
            lemma_occurrences_prefix(fc, m, i as int);
        }
        if table.field_counts[i] == m {
            let matching = total - prefix;
            assert(matching as int == suffix_matches(fc, m, i as int));
            if 5 * (matching as u128) >= 4 * ((n - i) as u128) {
                assert(first_consistent(fc, m, i as int) == i as int);
                assert(fc.len() >= 3);
                assert(first_consistent(fc, m, 0) == i as int);
                return i;
            }
        }
        if table.field_counts[i] == m {
            prefix = prefix + 1;
        }
        i = i + 1;
    }
    0
}

proof fn lemma_occurrences_prefix(s: Seq<usize>, v: usize, i: int)
    requires
        0 <= i <= s.len(),
    ensures
        occurrences(s.take(i), v) <= occurrences(s, v),
    decreases s.len() - i,
{
    if i < s.len() {
        lemma_occurrences_prefix(s, v, i + 1);
        assert(s.take(i + 1).drop_last() =~= s.take(i));
    } else {
        assert(s.take(i) =~= s);
    }
}

/// Cells of `row` of type Text.
pub open spec fn text_count(row: Seq<Seq<char>>) -> nat
    decreases row.len(),
{
    if row.len() == 0 {
        0
    } else {
        text_count(row.drop_last()) + (if spec_cell_type(row.last()) == Type::Text {
            1nat
        } else {
            0nat
        })
    }
}

/// Cells of `row` of a numeric type.
pub open spec fn numeric_count(row: Seq<Seq<char>>) -> nat
    decreases row.len(),
{
    if row.len() == 0 {
        0
    } else {
        numeric_count(row.drop_last()) + (if spec_cell_type(row.last()) == Type::Unsigned
            || spec_cell_type(row.last()) == Type::Signed || spec_cell_type(row.last())
            == Type::Float {
            1nat
        } else {
            0nat
        })
    }
}

/// Total UTF-8 length of the cells of `row`.
pub open spec fn byte_length(row: Seq<Seq<char>>) -> nat
    decreases row.len(),
{
    if row.len() == 0 {
        0
    } else {
        byte_length(row.drop_last()) + encode_utf8(row.last()).len()
    }
}

pub open spec fn all_distinct(row: Seq<Seq<char>>) -> bool {
    forall|i: int, j: int| 0 <= i < j < row.len() ==> row[i] != row[j]
}

pub open spec fn at_least_one(n: nat) -> nat {
    if n == 0 {
        1
    } else {
        n
    }
}

/// Evidence, in tenths, that the first row is a header: more Text cells than the
/// second row (1.0), more Text than numeric cells (0.5), no repeated value
/// (0.5), average cell length not above the second row's (0.3).
pub open spec fn header_evidence(first: Seq<Seq<char>>, second: Seq<Seq<char>>) -> nat {
    (if text_count(first) > text_count(second) {
        10nat
    } else {
        0nat
    }) + (if text_count(first) > numeric_count(first) {
        5nat
    } else {
        0nat
    }) + (if all_distinct(first) {
        5nat
    } else {
        0nat
    }) + (if byte_length(first) * at_least_one(second.len()) <= byte_length(second)
        * at_least_one(first.len()) {
        3nat
    } else {
        0nat
    })
}

/// The first row is a header when the mean evidence of the four checks exceeds 0.4.
pub open spec fn spec_has_header(rows: Seq<Seq<Seq<char>>>) -> bool {
    rows.len() >= 2 && header_evidence(rows[0], rows[1]) > 16
}

struct RowFacts {
    text: usize,
    numeric: usize,
    bytes: u128,
}

fn row_facts(rec: &Recognizers, row: &Vec<String>) -> (r: RowFacts)
    requires
        rec.wf(),
    ensures
        r.text == text_count(row.deep_view()),
        r.numeric == numeric_count(row.deep_view()),
        r.bytes == byte_length(row.deep_view()),
{
    let ghost v = row.deep_view();
    let mut text: usize = 0;
    let mut numeric: usize = 0;
    let mut bytes: u128 = 0;
    let mut i: usize = 0;
    assert(v.take(0) =~= Seq::<Seq<char>>::empty());
    while i < row.len()
        invariant
            rec.wf(),
            v == row.deep_view(),
            0 <= i <= v.len(),
            text == text_count(v.take(i as int)),
            numeric == numeric_count(v.take(i as int)),
            bytes == byte_length(v.take(i as int)),
            text <= i,
            numeric <= i,
            bytes <= i * 0xFFFF_FFFF_FFFF_FFFFu128,
        decreases v.len() - i,
    {
        assert(v.take(i + 1).drop_last() =~= v.take(i as int));
        let t = detect_cell_type_with(rec, row[i].as_str());
        if t == Type::Text {
            text = text + 1;
        }
        if t.is_numeric() {
            numeric = numeric + 1;
        }
        let st = row[i].as_str();
        let len = st.as_bytes().len();
        assert(st@ == row@[i as int]@);
        assert(len == encode_utf8(st@).len());
        assert(v[i as int] == row@[i as int]@);
        assert(v.take(i + 1).last() == v[i as int]);
        assert(bytes + len <= (i + 1) * 0xFFFF_FFFF_FFFF_FFFFu128) by (nonlinear_arith)
            requires
                bytes <= i * 0xFFFF_FFFF_FFFF_FFFFu128,
                len <= 0xFFFF_FFFF_FFFF_FFFFu128,
        ;
        bytes = bytes + len as u128;
        i = i + 1;
    }
    assert(v.take(v.len() as int) =~= v);
    RowFacts { text, numeric, bytes }
}

fn row_all_distinct(row: &Vec<String>) -> (r: bool)
    ensures
        r == all_distinct(row.deep_view()),
{
    let ghost v = row.deep_view();
    let mut j: usize = 0;
    while j < row.len()
        invariant
            v == row.deep_view(),
            0 <= j <= v.len(),
            forall|a: int, b: int| 0 <= a < b < j ==> v[a] != v[b],
        decreases v.len() - j,
    {
        let mut i: usize = 0;
        while i < j
            invariant
                v == row.deep_view(),
                0 <= i <= j < v.len(),
                forall|a: int| 0 <= a < i ==> v[a] != v[j as int],
            decreases j - i,
        {
            if row[i] == row[j] {
                assert(v[i as int] == v[j as int]);
                return false;
            }
            i = i + 1;
        }
        j = j + 1;
    }
    true
}

/// Whether `a / n1 <= b / n2`, compared exactly.
fn mean_not_above(a: u128, n1: u128, b: u128, n2: u128) -> (r: bool)
    requires
        0 < n1 <= 0xFFFF_FFFF_FFFF_FFFFu128,
        0 < n2 <= 0xFFFF_FFFF_FFFF_FFFFu128,
    ensures
        r == (a as int * n2 as int <= b as int * n1 as int),
{
    let q1 = a / n1;
    let r1 = a % n1;
    let q2 = b / n2;
    let r2 = b % n2;
    assert(r1 * n2 <= u128::MAX && r2 * n1 <= u128::MAX) by (nonlinear_arith)
        requires
            r1 < n1 <= 0xFFFF_FFFF_FFFF_FFFFu128,
            r2 < n2 <= 0xFFFF_FFFF_FFFF_FFFFu128,
    ;
    let r = q1 < q2 || (q1 == q2 && r1 * n2 <= r2 * n1);
    proof {
        let (ai, bi, m1, m2) = (a as int, b as int, n1 as int, n2 as int);
        let (x1, y1, x2, y2) = (q1 as int, r1 as int, q2 as int, r2 as int);
        assert(ai == x1 * m1 + y1 && bi == x2 * m2 + y2) by (nonlinear_arith)
            requires
                x1 == ai / m1,
                y1 == ai % m1,
                x2 == bi / m2,
                y2 == bi % m2,
                m1 > 0,
                m2 > 0,
        ;
        assert(r == (ai * m2 <= bi * m1)) by (nonlinear_arith)
            requires
                ai == x1 * m1 + y1,
                bi == x2 * m2 + y2,
                0 <= y1 < m1,
                0 <= y2 < m2,
                x1 >= 0,
                x2 >= 0,
                r == (x1 < x2 || (x1 == x2 && y1 * m2 <= y2 * m1)),
        ;
    }
    r
}

/// Whether the first row of the table looks like a header, compared with the
/// second; the preamble count is passed through.
pub fn detect_header(table: &Table, _dialect: &PotentialDialect, preamble_rows: usize) -> (r: Header)
    ensures
        r == Header::spec_new(spec_has_header(table.rows.deep_view()), preamble_rows),
{
    if table.rows.len() < 2 {
        return Header::new(false, preamble_rows);
    }
    let rec = Recognizers::new();
    let first = row_facts(&rec, &table.rows[0]);
    let second = row_facts(&rec, &table.rows[1]);
    let mut score: u64 = 0;
    if first.text > second.text {
        score = score + 10;
    }
    if first.text > first.numeric {
        score = score + 5;
    }
    if row_all_distinct(&table.rows[0]) {
        score = score + 5;
    }
    let n1: u128 = if table.rows[0].len() == 0 {
        1
    } else {
        table.rows[0].len() as u128
    };
    let n2: u128 = if table.rows[1].len() == 0 {
        1
    } else {
        table.rows[1].len() as u128
    };
    if mean_not_above(first.bytes, n1, second.bytes, n2) {
        score = score + 3;
    }
    Header::new(score > 16, preamble_rows)
}

/// Total length of a parsed record set: field bytes, one byte per delimiter
/// and two for each line terminator.
pub open spec fn record_bytes(rows: Seq<Seq<Seq<char>>>) -> nat
    decreases rows.len(),
{
    if rows.len() == 0 {
        0
    } else {
        let row = rows.last();
        record_bytes(rows.drop_last()) + byte_length(row) + (if row.len() >= 1 {
            (row.len() - 1) as nat
        } else {
            0nat
        }) + 2
    }
}

/// Average record length in bytes (saturating at `usize::MAX`).
pub open spec fn spec_avg_record_len(rows: Seq<Seq<Seq<char>>>) -> nat {
    if rows.len() == 0 {
        0
    } else if record_bytes(rows) / rows.len() > usize::MAX {
        usize::MAX as nat
    } else {
        record_bytes(rows) / rows.len()
    }
}

fn row_bytes(row: &Vec<String>) -> (r: u128)
    ensures
        r == byte_length(row.deep_view()),
        r <= row@.len() * 0xFFFF_FFFF_FFFF_FFFFu128,
{
    let ghost v = row.deep_view();
    let mut bytes: u128 = 0;
    let mut i: usize = 0;
    assert(v.take(0) =~= Seq::<Seq<char>>::empty());
    while i < row.len()
        invariant
            v == row.deep_view(),
            0 <= i <= v.len(),
            bytes == byte_length(v.take(i as int)),
            bytes <= i * 0xFFFF_FFFF_FFFF_FFFFu128,
        decreases v.len() - i,
    {
        assert(v.take(i + 1).drop_last() =~= v.take(i as int));
        let st = row[i].as_str();
        let len = st.as_bytes().len();
        assert(v[i as int] == row@[i as int]@);
        assert(v.take(i + 1).last() == v[i as int]);
        assert(bytes + len <= (i + 1) * 0xFFFF_FFFF_FFFF_FFFFu128) by (nonlinear_arith)
            requires
                bytes <= i * 0xFFFF_FFFF_FFFF_FFFFu128,
                len <= 0xFFFF_FFFF_FFFF_FFFFu128,
        ;
        bytes = bytes + len as u128;
        i = i + 1;
    }
    assert(v.take(v.len() as int) =~= v);
    bytes
}

/// Average record length over the parsed rows, from field bytes, delimiters
/// and an allowance of two bytes per terminator.
pub fn calculate_avg_record_len(table: &Table) -> (r: usize)
    ensures
        r == spec_avg_record_len(table.rows.deep_view()),
{
    let ghost rows = table.rows.deep_view();
    let n = table.rows.len();
    if n == 0 {
        return 0;
    }
    let mut total: u128 = 0;
    let mut i: usize = 0;
    let mut overflow = false;
    assert(rows.take(0) =~= Seq::<Seq<Seq<char>>>::empty());
    while i < n && !overflow
        invariant
            rows == table.rows.deep_view(),
            n == rows.len(),
            0 <= i <= n,
            !overflow ==> total == record_bytes(rows.take(i as int)),
            overflow ==> record_bytes(rows) > u128::MAX,
        decreases n - i + (if overflow { 0int } else { 1int }),
    {
        assert(rows.take(i + 1).drop_last() =~= rows.take(i as int));
        let row = &table.rows[i];
        let b = row_bytes(row);
        let delims: u128 = if row.len() >= 1 {
            (row.len() - 1) as u128
        } else {
            0
        };
        assert(b + delims + 2 <= u128::MAX) by (nonlinear_arith)
            requires
                b <= row@.len() * 0xFFFF_FFFF_FFFF_FFFFu128,
                delims < 0x1_0000_0000_0000_0000u128,
                row@.len() <= 0xFFFF_FFFF_FFFF_FFFFu128,
        ;
        let row_total = b + delims + 2;
        match total.checked_add(row_total) {
            Some(t) => {
                total = t;
                i = i + 1;
            },
            None => {
                proof {
                    lemma_record_bytes_monotone(rows, i + 1);
                }
                overflow = true;
            },
        }
    }
    if overflow {
        proof {
            let rb = record_bytes(rows) as int;
            let nn = n as int;
            assert(rb / nn > usize::MAX) by (nonlinear_arith)
                requires
                    rb > u128::MAX,
                    0 < nn <= usize::MAX,
            ;
        }
        return usize::MAX;
    }
    assert(rows.take(n as int) =~= rows);
    let avg = total / (n as u128);
    if avg > usize::MAX as u128 {
        usize::MAX
    } else {
        avg as usize
    }
}

proof fn lemma_record_bytes_monotone(rows: Seq<Seq<Seq<char>>>, i: int)
    requires
        0 <= i <= rows.len(),
    ensures
        record_bytes(rows.take(i)) <= record_bytes(rows),
    decreases rows.len() - i,
{
    if i < rows.len() {
        lemma_record_bytes_monotone(rows, i + 1);
        assert(rows.take(i + 1).drop_last() =~= rows.take(i));
    } else {
        assert(rows.take(i) =~= rows);
    }
}

/// Rows after the structural preamble, when it leaves any.
pub open spec fn effective_rows(rows: Seq<Seq<Seq<char>>>, structural: int) -> Seq<Seq<Seq<char>>> {
    if structural > 0 && rows.len() > structural {
        rows.subrange(structural, rows.len() as int)
    } else {
        rows
    }
}

/// Rows after the header, when there is one and data follows it.
pub open spec fn data_rows(rows: Seq<Seq<Seq<char>>>, has_header: bool) -> Seq<Seq<Seq<char>>> {
    if has_header && rows.len() > 1 {
        rows.subrange(1, rows.len() as int)
    } else {
        rows
    }
}

/// Column names: the header row, or `field_1`, `field_2`, ...
pub open spec fn spec_fields(rows: Seq<Seq<Seq<char>>>, has_header: bool, num_fields: nat) -> Seq<
    Seq<char>,
> {
    if has_header && rows.len() > 0 {
        rows[0]
    } else {
        Seq::new(num_fields, |i: int| field_name(i as nat))
    }
}

/// The merged type of each of the first modal-field-count columns.
pub open spec fn spec_types(rows: Seq<Seq<Seq<char>>>) -> Seq<Type> {
    Seq::new(
        spec_modal(spec_field_counts(rows)) as nat,
        |c: int| merged_type(column_cells(rows, c)),
    )
}

/// The metadata built from the winning candidate's score and parse.
pub open spec fn spec_metadata(
    score: DialectScore,
    is_utf8: bool,
    structural: int,
    total_preamble: usize,
    rows: Seq<Seq<Seq<char>>>,
) -> MetadataView {
    let eff = effective_rows(rows, structural);
    let has_header = spec_has_header(eff);
    MetadataView {
        dialect: Dialect {
            delimiter: score.dialect.delimiter,
            header: Header::spec_new(has_header, total_preamble),
            quote: score.dialect.quote,
            flexible: !score.is_uniform,
            is_utf8,
        },
        avg_record_len: spec_avg_record_len(rows) as usize,
        num_fields: score.num_fields,
        fields: spec_fields(eff, has_header, score.num_fields as nat),
        types: spec_types(data_rows(eff, has_header)),
    }
}

fn clone_row(row: &Vec<String>) -> (r: Vec<String>)
    ensures
        r.deep_view() == row.deep_view(),
{
    let mut r: Vec<String> = Vec::new();
    let mut i: usize = 0;
    while i < row.len()
        invariant
            0 <= i <= row@.len(),
            r@.len() == i,
            forall|k: int| 0 <= k < i ==> #[trigger] r@[k]@ == row@[k]@,
        decreases row@.len() - i,
    {
        r.push(row[i].clone());
        i = i + 1;
    }
    assert(r.deep_view() =~= row.deep_view());
    r
}

/// The table of rows `start..` of `table`.
fn table_from(table: &Table, start: usize) -> (r: Table)
    requires
        start <= table.rows@.len(),
    ensures
        r.wf(),
        r.rows.deep_view() == table.rows.deep_view().subrange(
            start as int,
            table.rows@.len() as int,
        ),
{
    let ghost v = table.rows.deep_view();
    let mut rows: Vec<Vec<String>> = Vec::new();
    let mut i: usize = start;
    while i < table.rows.len()
        invariant
            v == table.rows.deep_view(),
            start <= i <= v.len(),
            rows@.len() == i - start,
            forall|k: int| 0 <= k < i - start ==> #[trigger] rows@[k].deep_view() == v[start + k],
        decreases v.len() - i,
    {
        rows.push(clone_row(&table.rows[i]));
        i = i + 1;
    }
    assert(rows.deep_view() =~= v.subrange(start as int, v.len() as int));
    Table::from_rows(rows)
}

fn field_names(n: usize) -> (r: Vec<String>)
    ensures
        r.deep_view() == Seq::new(n as nat, |i: int| field_name(i as nat)),
{
    let mut r: Vec<String> = Vec::new();
    let mut i: usize = 0;
    while i < n
        invariant
            0 <= i <= n,
            r@.len() == i,
            forall|k: int| 0 <= k < i ==> #[trigger] r@[k]@ == field_name(k as nat),
        decreases n - i,
    {
        r.push(make_field_name(i));
        i = i + 1;
    }
    assert(r.deep_view() =~= Seq::new(n as nat, |i: int| field_name(i as nat)));
    r
}

/// Result of sniffing, as the contract states it.
pub enum SniffOutcome {
    Found(MetadataView),
    EmptyData,
    NoDialectDetected,
}

/// Whether a result of sniffing is the outcome the contract gives.
pub open spec fn result_is(r: Result<Metadata, SnifferError>, o: SniffOutcome) -> bool {
    match r {
        Ok(m) => o matches SniffOutcome::Found(v) && m@ == v,
        Err(e) => match e {
            SnifferError::EmptyData => o is EmptyData,
            SnifferError::NoDialectDetected(_) => o is NoDialectDetected,
            _ => false,
        },
    }
}

/// Sniffing is idempotent: two results that meet the contract of `sniff_bytes`
/// for the same configuration and bytes are the same metadata, or the same
/// kind of error.
pub proof fn lemma_sniff_idempotent(
    s: Sniffer,
    data: Seq<u8>,
    r1: Result<Metadata, SnifferError>,
    r2: Result<Metadata, SnifferError>,
)
    requires
        result_is(r1, s.spec_sniff(data)),
        result_is(r2, s.spec_sniff(data)),
    ensures
        r1 is Ok <==> r2 is Ok,
        r1 matches Ok(m1) ==> (r2 matches Ok(m2) && m1@ == m2@),
        r1 matches Err(SnifferError::EmptyData) <==> r2 matches Err(SnifferError::EmptyData),
        r1 matches Err(SnifferError::NoDialectDetected(_)) <==> r2 matches Err(
            SnifferError::NoDialectDetected(_),
        ),
{
}

/// Configurable sniffer of delimited-text dialects.
#[derive(Debug, Clone, Copy, PartialEq, Eq, Structural)]
pub struct Sniffer {
    pub sample_size: SampleSize,
    /// Kept with the configuration; the date recognisers accept both orders.
    pub date_preference: DatePreference,
    pub forced_delimiter: Option<u8>,
    /// Applies together with a forced delimiter.
    pub forced_quote: Option<Quote>,
}

impl Default for Sniffer {
    fn default() -> (r: Sniffer)
        ensures
            r == (Sniffer {
                sample_size: SampleSize::Records(100),
                date_preference: DatePreference::MdyFormat,
                forced_delimiter: None,
                forced_quote: None,
            }),
    {
        Sniffer::new()
    }
}

impl Sniffer {
    pub fn new() -> (r: Sniffer)
        ensures
            r == (Sniffer {
                sample_size: SampleSize::Records(100),
                date_preference: DatePreference::MdyFormat,
                forced_delimiter: None,
                forced_quote: None,
            }),
    {
        Sniffer {
            sample_size: SampleSize::Records(100),
            date_preference: DatePreference::MdyFormat,
            forced_delimiter: None,
            forced_quote: None,
        }
    }

    pub fn sample_size(&mut self, sample_size: SampleSize) -> (r: &mut Sniffer)
        ensures
            *r == (Sniffer { sample_size, ..*old(self) }),
            *final(self) == *final(r),
    {
        self.sample_size = sample_size;
        self
    }

    pub fn date_preference(&mut self, date_preference: DatePreference) -> (r: &mut Sniffer)
        ensures
            *r == (Sniffer { date_preference, ..*old(self) }),
            *final(self) == *final(r),
    {
        self.date_preference = date_preference;
        self
    }

    /// Force the delimiter; only quote settings are then searched.
    pub fn delimiter(&mut self, delimiter: u8) -> (r: &mut Sniffer)
        ensures
            *r == (Sniffer { forced_delimiter: Some(delimiter), ..*old(self) }),
            *final(self) == *final(r),
    {
        self.forced_delimiter = Some(delimiter);
        self
    }

    /// Force the quote setting, together with a forced delimiter.
    pub fn quote(&mut self, quote: Quote) -> (r: &mut Sniffer)
        ensures
            *r == (Sniffer { forced_quote: Some(quote), ..*old(self) }),
            *final(self) == *final(r),
    {
        self.forced_quote = Some(quote);
        self
    }

    /// The candidates searched: every delimiter and quote, or the quote
    /// settings of a forced delimiter (one, when the quote is forced too).
    pub open spec fn spec_candidates(self, lt: LineTerminator) -> Seq<PotentialDialect> {
        match self.forced_delimiter {
            Some(dl) => match self.forced_quote {
                Some(q) => seq![PotentialDialect { delimiter: dl, quote: q, line_terminator: lt }],
                None => seq![
                    PotentialDialect { delimiter: dl, quote: Quote::Char(DOUBLE_QUOTE), line_terminator: lt },
                    PotentialDialect { delimiter: dl, quote: Quote::Char(SINGLE_QUOTE), line_terminator: lt },
                    PotentialDialect { delimiter: dl, quote: Quote::NoQuote, line_terminator: lt },
                ],
            },
            None => Seq::new(33, |i: int| spec_dialect_with_terminator(i, lt)),
        }
    }

    fn candidates(&self, lt: LineTerminator) -> (r: Vec<PotentialDialect>)
        ensures
            r@ == self.spec_candidates(lt),
    {
        match self.forced_delimiter {
            Some(dl) => match self.forced_quote {
                Some(q) => {
                    let r = vec![PotentialDialect::new(dl, q, lt)];
                    assert(r@ =~= self.spec_candidates(lt));
                    r
                },
                None => {
                    let r = vec![
                        PotentialDialect::new(dl, Quote::Char(DOUBLE_QUOTE), lt),
                        PotentialDialect::new(dl, Quote::Char(SINGLE_QUOTE), lt),
                        PotentialDialect::new(dl, Quote::NoQuote, lt),
                    ];
                    assert(r@ =~= self.spec_candidates(lt));
                    r
                },
            },
            None => {
                let r = generate_dialects_with_terminator(lt);
                assert(r@ =~= self.spec_candidates(lt));
                r
            },
        }
    }

    /// Assemble the metadata from the winning score and its parse.
    fn build_metadata(
        &self,
        score: &DialectScore,
        is_utf8: bool,
        structural_preamble: usize,
        total_preamble_rows: usize,
        table: Table,
    ) -> (r: Result<Metadata, SnifferError>)
        requires
            table.wf(),
        ensures
            table.rows@.len() == 0 ==> r matches Err(SnifferError::EmptyData),
            table.rows@.len() > 0 ==> (r matches Ok(m) && m@ == spec_metadata(
                *score,
                is_utf8,
                structural_preamble as int,
                total_preamble_rows,
                table.rows.deep_view(),
            )),
    {
        if table.is_empty() {
            return Err(SnifferError::EmptyData);
        }
        let ghost rows = table.rows.deep_view();
        let effective = if structural_preamble > 0 && table.rows.len() > structural_preamble {
            table_from(&table, structural_preamble)
        } else {
            table_from(&table, 0)
        };
        assert(rows.subrange(0, rows.len() as int) =~= rows);
        let ghost eff = effective_rows(rows, structural_preamble as int);
        assert(effective.rows.deep_view() == eff);
        let header = detect_header(&effective, &score.dialect, total_preamble_rows);
        let has_header = header.has_header_row;
        let fields = if has_header && effective.rows.len() > 0 {
            clone_row(&effective.rows[0])
        } else {
            field_names(score.num_fields)
        };
        let data_table = if has_header && effective.rows.len() > 1 {
            table_from(&effective, 1)
        } else {
            effective
        };
        let types = infer_column_types(&data_table);
        proof {
            data_table.lemma_wf_determined();
            assert(types@ =~= spec_types(data_rows(eff, has_header)));
        }
        let dialect = Dialect {
            delimiter: score.dialect.delimiter,
            header,
            quote: score.dialect.quote,
            flexible: !score.is_uniform,
            is_utf8,
        };
        let avg_record_len = calculate_avg_record_len(&table);
        Ok(Metadata { dialect, avg_record_len, num_fields: score.num_fields, fields, types })
    }

    /// What sniffing `data` yields: transcode to UTF-8, drop a byte order mark
    /// and leading comment lines, detect the line terminator, score every
    /// candidate on the rest, pick the winner, drop its structural preamble and
    /// build the metadata from its parse.
    pub open spec fn spec_sniff(self, data: Seq<u8>) -> SniffOutcome {
        if data.len() == 0 {
            SniffOutcome::EmptyData
        } else {
            let (t, transcoded) = spec_transcode(data);
            let is_utf8 = !transcoded || valid_utf8(spec_skip_bom(t));
            let d0 = spec_skip_bom(t);
            let comments = comment_lines(d0, 0);
            let d = d0.subrange(comments.1, d0.len() as int);
            if d.len() == 0 {
                SniffOutcome::EmptyData
            } else {
                let lt = spec_line_terminator(d);
                let cands = self.spec_candidates(lt);
                let max_rows = self.spec_max_rows();
                let norm = spec_normalized(d, lt);
                let scores = Seq::new(
                    cands.len(),
                    |i: int|
                        spec_score_of_rows(
                            cands[i],
                            spec_parse_rows(norm, cands[i], max_rows),
                            spec_quote_counts(d),
                            norm,
                        ),
                );
                match spec_best_index(scores) {
                    None => SniffOutcome::NoDialectDetected,
                    Some(w) => {
                        let rows = spec_parse_rows(norm, cands[w], max_rows);
                        let fc = spec_field_counts(rows);
                        let structural = spec_structural_preamble(fc, spec_modal(fc));
                        let total = if comments.0 + structural > usize::MAX {
                            usize::MAX
                        } else {
                            (comments.0 + structural) as usize
                        };
                        if rows.len() == 0 {
                            SniffOutcome::EmptyData
                        } else {
                            SniffOutcome::Found(
                                spec_metadata(scores[w], is_utf8, structural, total, rows),
                            )
                        }
                    },
                }
            }
        }
    }

    /// Infer the dialect, header, field names and types of a sample.
    pub fn sniff_bytes(&self, data: &[u8]) -> (r: Result<Metadata, SnifferError>)
        ensures
            result_is(r, self.spec_sniff(data@)),
    {
        if data.len() == 0 {
            return Err(SnifferError::EmptyData);
        }
        let (transcoded_data, was_transcoded) = detect_and_transcode(data);
        let info = detect_encoding(transcoded_data.as_slice());
        let is_utf8 = !was_transcoded || info.is_utf8;
        let d0 = skip_bom(transcoded_data.as_slice());
        let (comment_rows, d) = skip_preamble(d0);
        if d.len() == 0 {
            return Err(SnifferError::EmptyData);
        }
        let lt = detect_line_terminator(d);
        let dialects = self.candidates(lt);
        let max_rows = match self.sample_size {
            SampleSize::Records(n) => n,
            _ => 0,
        };
        let (scores, best_table) = score_all_dialects_with_best_table(d, &dialects, max_rows);
        let ghost cands = self.spec_candidates(lt);
        let ghost norm = spec_normalized(d@, lt);
        let ghost spec_scores = Seq::new(
            cands.len(),
            |i: int|
                spec_score_of_rows(
                    cands[i],
                    spec_parse_rows(norm, cands[i], max_rows),
                    spec_quote_counts(d@),
                    norm,
                ),
        );
        assert(dialects@.len() > 0);
        assert(scores@ =~= spec_scores);
        let best = best_dialect_index(scores.as_slice());
        match best_table {
            Some(table) => {
                let w = best.unwrap();
                let structural = detect_structural_preamble(&table);
                proof {
                    table.lemma_wf_determined();
                }
                let total = comment_rows.saturating_add(structural);
                self.build_metadata(&scores[w], is_utf8, structural, total, table)
            },
            None => Err(SnifferError::NoDialectDetected(String::from_str("No valid dialect found"))),
        }
    }

    /// Rows to parse per candidate: the record count of the sample size, no
    /// limit (zero) otherwise.
    pub open spec fn spec_max_rows(self) -> usize {
        match self.sample_size {
            SampleSize::Records(n) => n,
            _ => 0,
        }
    }

    /// Bytes to read first: `None` for the whole input; for a record count,
    /// 1 KiB per record and at least 8 KiB.
    pub fn initial_read_size(&self) -> (r: Option<usize>)
        ensures
            r == (match self.sample_size {
                SampleSize::Bytes(n) => Some(n),
                SampleSize::All => None,
                SampleSize::Records(n) => Some(
                    if n * 1024 > usize::MAX {
                        usize::MAX
                    } else if n * 1024 < 8192 {
                        8192
                    } else {
                        (n * 1024) as usize
                    },
                ),
            }),
    {
        match self.sample_size {
            SampleSize::Bytes(n) => Some(n),
            SampleSize::All => None,
            SampleSize::Records(n) => {
                let est = if n > usize::MAX / 1024 {
                    usize::MAX
                } else {
                    n * 1024
                };
                Some(if est < 8192 { 8192 } else { est })
            },
        }
    }

    /// Bytes to read after a first read of `buffer` that filled the whole
    /// request: 2 KiB for each record still missing, judged by newlines.
    /// Zero when the request was not filled or enough records are there.
    pub fn additional_read_size(&self, buffer: &[u8], requested: usize) -> (r: usize)
        ensures
            r == (match self.sample_size {
                SampleSize::Records(n) => if buffer@.len() == requested && byte_count(buffer@, LINE_FEED) < n {
                    if (n - byte_count(buffer@, LINE_FEED)) * 2048 > usize::MAX {
                        usize::MAX as int
                    } else {
                        (n - byte_count(buffer@, LINE_FEED)) * 2048
                    }
                } else {
                    0
                },
                _ => 0,
            }),
    {
        match self.sample_size {
            SampleSize::Records(n) => {
                if buffer.len() == requested {
                    let newlines = count_byte(buffer, LINE_FEED);
                    if newlines < n {
                        let missing = n - newlines;
                        return if missing > usize::MAX / 2048 {
                            usize::MAX
                        } else {
                            missing * 2048
                        };
                    }
                }
                0
            },
            _ => 0,
        }
    }
}

} // verus!
