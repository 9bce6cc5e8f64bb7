use vstd::prelude::*;

use crate::dialects::{normalize_line_endings, spec_normalized, LineTerminator, PotentialDialect};
use crate::metadata::Quote;

verus! {

/// Number of times `v` occurs in `s`.
pub open spec fn occurrences(s: Seq<usize>, v: usize) -> nat
    decreases s.len(),
{
    if s.len() == 0 {
        0
    } else {
        occurrences(s.drop_last(), v) + (if s.last() == v {
            1nat
        } else {
            0nat
        })
    }
}

/// `m` is the modal value of `s`: no value occurs more often, and among the
/// values that occur as often, `m` is the largest. Zero for an empty `s`.
pub open spec fn is_modal(s: Seq<usize>, m: usize) -> bool {
    if s.len() == 0 {
        m == 0
    } else {
        &&& occurrences(s, m) > 0
        &&& forall|v: usize|
            #![trigger occurrences(s, v)]
            occurrences(s, v) < occurrences(s, m) || (occurrences(s, v) == occurrences(s, m)
                && v <= m)
    }
}

/// The smallest value of `s`, zero when empty.
pub open spec fn is_min_of(s: Seq<usize>, m: usize) -> bool {
    if s.len() == 0 {
        m == 0
    } else {
        (exists|i: int| 0 <= i < s.len() && s[i] == m) && (forall|i: int|
            0 <= i < s.len() ==> m <= s[i])
    }
}

/// The largest value of `s`, zero when empty.
pub open spec fn is_max_of(s: Seq<usize>, m: usize) -> bool {
    if s.len() == 0 {
        m == 0
    } else {
        (exists|i: int| 0 <= i < s.len() && s[i] == m) && (forall|i: int|
            0 <= i < s.len() ==> s[i] <= m)
    }
}

pub proof fn lemma_occurrences_bounded(s: Seq<usize>, v: usize)
    ensures
        occurrences(s, v) <= s.len(),
    decreases s.len(),
{
    if s.len() > 0 {
        lemma_occurrences_bounded(s.drop_last(), v);
    }
}

pub proof fn lemma_occurrences_positive(s: Seq<usize>, v: usize)
    ensures
        occurrences(s, v) > 0 <==> exists|i: int| 0 <= i < s.len() && s[i] == v,
    decreases s.len(),
{
    if s.len() > 0 {
        lemma_occurrences_positive(s.drop_last(), v);
        if occurrences(s.drop_last(), v) > 0 {
            let i = choose|i: int| 0 <= i < s.drop_last().len() && s.drop_last()[i] == v;
            assert(s[i] == v);
        }
        if exists|i: int| 0 <= i < s.len() && s[i] == v {
            let i = choose|i: int| 0 <= i < s.len() && s[i] == v;
            if i < s.len() - 1 {
                assert(s.drop_last()[i] == v);
            }
        }
    }
}

/// A sequence has one modal value.
pub proof fn lemma_modal_unique(s: Seq<usize>, a: usize, b: usize)
    requires
        is_modal(s, a),
        is_modal(s, b),
    ensures
        a == b,
{
    if s.len() > 0 {
        assert(occurrences(s, a) < occurrences(s, b) || (occurrences(s, a) == occurrences(s, b)
            && a <= b));
        assert(occurrences(s, b) < occurrences(s, a) || (occurrences(s, b) == occurrences(s, a)
            && b <= a));
    }
}

/// The field count of each row.
pub open spec fn spec_field_counts(rows: Seq<Seq<Seq<char>>>) -> Seq<usize> {
    rows.map_values(|r: Seq<Seq<char>>| r.len() as usize)
}

/// The modal value of `s`.
pub open spec fn spec_modal(s: Seq<usize>) -> usize {
    choose|m: usize| is_modal(s, m)
}

impl Table {
    /// A well-formed table is determined by its rows.
    pub proof fn lemma_wf_determined(&self)
        requires
            self.wf(),
        ensures
            self.field_counts@ == spec_field_counts(self.rows.deep_view()),
            self.spec_modal_field_count() == spec_modal(self.field_counts@),
    {
        assert(self.field_counts@ =~= spec_field_counts(self.rows.deep_view()));
        lemma_modal_unique(
            self.field_counts@,
            self.spec_modal_field_count(),
            spec_modal(self.field_counts@),
        );
    }
}

/// Rows read from `data` with the given delimiter and quoting: no header row,
/// rows of any width, up to the first record that cannot be read.
pub uninterp spec fn csv_rows(data: Seq<u8>, delimiter: u8, quoting: bool, quote: u8) -> Seq<
    Seq<Seq<char>>,
>;

/// Relies on csv::ReaderBuilder and csv::Reader::records: reads records of
/// `data` with the given delimiter and quoting, no header row, flexible widths,
/// and stops at the end or at the first error.
#[verifier::external_body]
fn read_csv_rows(data: &[u8], delimiter: u8, quoting: bool, quote: u8) -> (r: Vec<Vec<String>>)
    ensures
        r.deep_view() == csv_rows(data@, delimiter, quoting, quote),
{
    let mut builder = csv::ReaderBuilder::new();
    builder.delimiter(delimiter).has_headers(false).flexible(true).quoting(quoting).quote(quote);
    let mut reader = builder.from_reader(data);
    reader.records().map_while(Result::ok).map(|rec| rec.iter().map(String::from).collect()).collect()
}

/// The rows that a dialect reads from LF-normalised data, at most `max_rows` of
/// them (no limit when zero).
pub open spec fn spec_parse_rows(data: Seq<u8>, dialect: PotentialDialect, max_rows: usize) -> Seq<
    Seq<Seq<char>>,
> {
    let all = match dialect.quote {
        Quote::NoQuote => csv_rows(data, dialect.delimiter, false, 34u8),
        Quote::Char(q) => csv_rows(data, dialect.delimiter, true, q),
    };
    if max_rows > 0 && all.len() > max_rows {
        all.take(max_rows as int)
    } else {
        all
    }
}

/// A parsed sample: rows of fields, with the field count of each row.
#[derive(Debug, Clone)]
pub struct Table {
    pub rows: Vec<Vec<String>>,
    pub field_counts: Vec<usize>,
    /// Modal field count as last computed; `update_modal_field_count` renews it.
    pub cached_modal_field_count: usize,
}

impl Default for Table {
    fn default() -> (r: Table)
        ensures
            r.rows@.len() == 0,
            r.field_counts@.len() == 0,
            r.wf(),
    {
        Table::new()
    }
}

impl Table {
    /// The field counts agree with the rows and the cached modal count is current.
    pub open spec fn wf(&self) -> bool {
        &&& self.rows@.len() == self.field_counts@.len()
        &&& forall|i: int|
            0 <= i < self.rows@.len() ==> #[trigger] self.field_counts@[i] == self.rows@[i]@.len()
        &&& self.cache_current()
    }

    /// The cached modal count is the modal value of the field counts.
    pub open spec fn cache_current(&self) -> bool {
        is_modal(self.field_counts@, self.spec_modal_field_count())
    }

    pub open spec fn spec_modal_field_count(&self) -> usize {
        self.cached_modal_field_count
    }

    pub fn new() -> (r: Table)
        ensures
            r.rows@.len() == 0,
            r.field_counts@.len() == 0,
            r.wf(),
            r.spec_modal_field_count() == 0,
    {
        Table { rows: Vec::new(), field_counts: Vec::new(), cached_modal_field_count: 0 }
    }

    pub fn is_empty(&self) -> (r: bool)
        ensures
            r == (self.rows@.len() == 0),
    {
        self.rows.len() == 0
    }

    pub fn num_rows(&self) -> (r: usize)
        ensures
            r == self.rows@.len(),
    {
        self.rows.len()
    }

    /// The most common field count, as last computed.
    pub fn modal_field_count(&self) -> (r: usize)
        ensures
            r == self.spec_modal_field_count(),
            self.cache_current() ==> is_modal(self.field_counts@, r),
    {
        self.cached_modal_field_count
    }

    /// Recompute the cached modal field count after `field_counts` changed.
    pub fn update_modal_field_count(&mut self)
        ensures
            final(self).rows == old(self).rows,
            final(self).field_counts == old(self).field_counts,
            final(self).cache_current(),
    {
        self.cached_modal_field_count = compute_modal(&self.field_counts);
    }

    pub fn min_field_count(&self) -> (r: usize)
        ensures
            is_min_of(self.field_counts@, r),
    {
        min_of(&self.field_counts)
    }

    pub fn max_field_count(&self) -> (r: usize)
        ensures
            is_max_of(self.field_counts@, r),
    {
        max_of(&self.field_counts)
    }

    /// A table of the given rows, with their field counts and modal count.
    pub fn from_rows(rows: Vec<Vec<String>>) -> (r: Table)
        ensures
            r.rows.deep_view() == rows.deep_view(),
            r.wf(),
    {
        let mut counts: Vec<usize> = Vec::new();
        let mut i: usize = 0;
        while i < rows.len()
            invariant
                0 <= i <= rows@.len(),
                counts@.len() == i,
                forall|k: int| 0 <= k < i ==> #[trigger] counts@[k] == rows@[k]@.len(),
            decreases rows@.len() - i,
        {
            counts.push(rows[i].len());
            i = i + 1;
        }
        let m = compute_modal(&counts);
        Table { rows, field_counts: counts, cached_modal_field_count: m }
    }
}

pub fn min_of(s: &Vec<usize>) -> (r: usize)
    ensures
        is_min_of(s@, r),
{
    if s.len() == 0 {
        return 0;
    }
    let mut m = s[0];
    let mut i: usize = 1;
    while i < s.len()
        invariant
            1 <= i <= s@.len(),
            exists|k: int| 0 <= k < i && s@[k] == m,
            forall|k: int| 0 <= k < i ==> m <= s@[k],
        decreases s@.len() - i,
    {
        if s[i] < m {
            m = s[i];
        }
        i = i + 1;
    }
    m
}

pub fn max_of(s: &Vec<usize>) -> (r: usize)
    ensures
        is_max_of(s@, r),
{
    if s.len() == 0 {
        return 0;
    }
    let mut m = s[0];
    let mut i: usize = 1;
    while i < s.len()
        invariant
            1 <= i <= s@.len(),
            exists|k: int| 0 <= k < i && s@[k] == m,
            forall|k: int| 0 <= k < i ==> s@[k] <= m,
        decreases s@.len() - i,
    {
        if s[i] > m {
            m = s[i];
        }
        i = i + 1;
    }
    m
}

/// The modal value of `s`: the most frequent, the largest among equally frequent.
pub fn compute_modal(s: &Vec<usize>) -> (r: usize)
    ensures
        is_modal(s@, r),
{
    if s.len() == 0 {
        return 0;
    }
    let max = max_of(s);
    if max == usize::MAX {
        return compute_modal_by_scan(s);
    }
    let mut freq: Vec<usize> = Vec::new();
    let mut j: usize = 0;
    while j <= max
        invariant
            max < usize::MAX,
            0 <= j <= max + 1,
            freq@.len() == j,
            forall|v: int| 0 <= v < j ==> freq@[v] == 0,
        decreases max + 1 - j,
    {
        freq.push(0);
        j = j + 1;
    }
    let mut i: usize = 0;
    while i < s.len()
        invariant
            0 <= i <= s@.len(),
            is_max_of(s@, max),
            freq@.len() == max + 1,
            forall|v: usize| v <= max ==> #[trigger] freq@[v as int] == occurrences(
                s@.take(i as int),
                v,
            ),
        decreases s@.len() - i,
    {
        let v = s[i];
        proof {
            assert(s@.take(i + 1).drop_last() =~= s@.take(i as int));
            lemma_occurrences_bounded(s@.take(i as int), v);
        }
        freq.set(v, freq[v] + 1);
        proof {
            assert forall|w: usize| w <= max implies #[trigger] freq@[w as int] == occurrences(
                s@.take(i + 1),
                w,
            ) by {
                assert(s@.take(i + 1).drop_last() =~= s@.take(i as int));
            }
        }
        i = i + 1;
    }
    assert(s@.take(s@.len() as int) =~= s@);
    let mut best: usize = 0;
    let mut best_count: usize = freq[0];
    let mut v: usize = 1;
    while v <= max
        invariant
            max < usize::MAX,
            1 <= v <= max + 1,
            best < v,
            is_max_of(s@, max),
            freq@.len() == max + 1,
            forall|w: usize| w <= max ==> #[trigger] freq@[w as int] == occurrences(s@, w),
            best_count == occurrences(s@, best),
            forall|w: usize|
                w < v ==> occurrences(s@, w) < occurrences(s@, best) || (occurrences(s@, w)
                    == occurrences(s@, best) && w <= best),
        decreases max + 1 - v,
    {
        if freq[v] >= best_count {
            best = v;
            best_count = freq[v];
        }
        v = v + 1;
    }
    proof {
        assert forall|w: usize| max < w implies occurrences(s@, w) == 0 by {
            lemma_occurrences_positive(s@, w);
        }
        lemma_occurrences_positive(s@, max);
        assert(occurrences(s@, best) >= occurrences(s@, max));
        assert forall|w: usize|
            occurrences(s@, w) < occurrences(s@, best) || (occurrences(s@, w) == occurrences(
                s@,
                best,
            ) && w <= best) by {
            if w > max {
                assert(occurrences(s@, w) == 0);
            }
        }
    }
    best
}

/// The modal value of `s` by counting each value in turn; used where the
/// values are too large to index a tally.
fn compute_modal_by_scan(s: &Vec<usize>) -> (r: usize)
    requires
        s@.len() > 0,
    ensures
        is_modal(s@, r),
{
    let mut best: usize = s[0];
    let mut best_count: usize = count_in(s, best);
    let mut i: usize = 1;
    proof {
        lemma_occurrences_positive(s@, best);
    }
    while i < s.len()
        invariant
            1 <= i <= s@.len(),
            best_count == occurrences(s@, best),
            occurrences(s@, best) > 0,
            forall|k: int|
                0 <= k < i ==> occurrences(s@, #[trigger] s@[k]) < occurrences(s@, best) || (
                occurrences(s@, s@[k]) == occurrences(s@, best) && s@[k] <= best),
        decreases s@.len() - i,
    {
        let v = s[i];
        let c = count_in(s, v);
        if c > best_count || (c == best_count && v > best) {
            best = v;
            best_count = c;
        }
        i = i + 1;
    }
    proof {
        assert forall|w: usize|
            occurrences(s@, w) < occurrences(s@, best) || (occurrences(s@, w) == occurrences(
                s@,
                best,
            ) && w <= best) by {
            lemma_occurrences_positive(s@, w);
            if occurrences(s@, w) > 0 {
                let k = choose|k: int| 0 <= k < s@.len() && s@[k] == w;
                assert(occurrences(s@, s@[k]) < occurrences(s@, best) || (occurrences(s@, s@[k])
                    == occurrences(s@, best) && s@[k] <= best));
            }
        }
    }
    best
}

pub fn count_in(s: &Vec<usize>, v: usize) -> (r: usize)
    ensures
        r == occurrences(s@, v),
{
    let mut c: usize = 0;
    let mut i: usize = 0;
    while i < s.len()
        invariant
            0 <= i <= s@.len(),
            c == occurrences(s@.take(i as int), v),
        decreases s@.len() - i,
    {
        proof {
            assert(s@.take(i + 1).drop_last() =~= s@.take(i as int));
            lemma_occurrences_bounded(s@.take(i as int), v);
        }
        if s[i] == v {
            c = c + 1;
        }
        i = i + 1;
    }
    assert(s@.take(s@.len() as int) =~= s@);
    c
}

/// Parse `data` with the given dialect, mapping its line terminator to `\n`
/// first. At most `max_rows` rows are read (no limit when zero).
pub fn parse_table(data: &[u8], dialect: &PotentialDialect, max_rows: usize) -> (r: Table)
    ensures
        r.wf(),
        r.rows.deep_view() == spec_parse_rows(
            spec_normalized(data@, dialect.line_terminator),
            *dialect,
            max_rows,
        ),
{
    if dialect.line_terminator == LineTerminator::LF {
        // Already normalised: parsed as it is, without a copy.
        return parse_table_normalized(data, dialect, max_rows);
    }
    let normalized = normalize_line_endings(data, dialect.line_terminator);
    parse_table_normalized(normalized.as_slice(), dialect, max_rows)
}

/// Parse data whose line terminators are already `\n`. At most `max_rows` rows
/// are read (no limit when zero).
pub fn parse_table_normalized(data: &[u8], dialect: &PotentialDialect, max_rows: usize) -> (r:
    Table)
    ensures
        r.wf(),
        r.rows.deep_view() == spec_parse_rows(data@, *dialect, max_rows),
{
    let mut rows = match dialect.quote {
        Quote::NoQuote => read_csv_rows(data, dialect.delimiter, false, 34u8),
        Quote::Char(q) => read_csv_rows(data, dialect.delimiter, true, q),
    };
    if max_rows > 0 && rows.len() > max_rows {
        let ghost before = rows.deep_view();
        rows.truncate(max_rows);
        assert(rows.deep_view() =~= before.take(max_rows as int));
    }
    Table::from_rows(rows)
}

} // verus!
