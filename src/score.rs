use vstd::prelude::*;

use vstd::utf8::encode_utf8;

use crate::dialects::PotentialDialect;
use crate::metadata::Quote;
use crate::dialects::{normalize_line_endings, spec_normalized, LineTerminator};
use crate::table::{parse_table_normalized, spec_field_counts, spec_modal, spec_parse_rows, Table};
use crate::type_detection::{
    calculate_pattern_score_with, calculate_type_score_with, cell_total, count_cells,
    is_white_space, spec_pattern_score, spec_type_score, Recognizers, SCALE,
};
use crate::uniformity::{
    calculate_tau_0, calculate_tau_1, counts_fit, is_uniform, isqrt, spec_is_uniform, spec_isqrt,
    spec_tau_0, spec_tau_1,
};
use crate::bytes::{
    AMPERSAND, BACKSLASH, CARET, COLON, COMMA, DOUBLE_QUOTE, HASH, PIPE, SECTION_SIGN, SEMICOLON,
    SINGLE_QUOTE, SLASH, SPACE, TAB, TILDE,
};

verus! {

/// Number of bytes of `d` equal to `b`.
pub open spec fn byte_count(d: Seq<u8>, b: u8) -> nat
    decreases d.len(),
{
    if d.len() == 0 {
        0
    } else {
        byte_count(d.drop_last(), b) + (if d.last() == b {
            1nat
        } else {
            0nat
        })
    }
}

/// Relies on bytecount::count: the number of bytes of `data` equal to `b`.
#[verifier::external_body]
pub(crate) fn count_byte(data: &[u8], b: u8) -> (r: usize)
    ensures
        r == byte_count(data@, b),
{
    bytecount::count(data, b)
}

/// Number of positions `i` with `i + 1 < k` where `d[i] == a` and `d[i + 1] == b`.
pub open spec fn pair_count(d: Seq<u8>, a: u8, b: u8, k: int) -> nat
    decreases k,
{
    if k <= 1 || k > d.len() {
        0
    } else {
        pair_count(d, a, b, k - 1) + (if d[k - 2] == a && d[k - 1] == b {
            1nat
        } else {
            0nat
        })
    }
}

/// Number of adjacent byte pairs `a b` in `d`.
pub open spec fn pairs(d: Seq<u8>, a: u8, b: u8) -> nat {
    pair_count(d, a, b, d.len() as int)
}

proof fn lemma_pair_count_bounded(d: Seq<u8>, a: u8, b: u8, k: int)
    ensures
        pair_count(d, a, b, k) <= if k < 0 {
            0
        } else {
            k
        },
    decreases k,
{
    if k > 1 && k <= d.len() {
        lemma_pair_count_bounded(d, a, b, k - 1);
    }
}

/// Quote statistics of a whole sample, shared by every candidate.
#[derive(Debug, Clone, Copy)]
pub struct QuoteCounts {
    pub double: usize,
    pub single: usize,
    /// Number of `\'` byte pairs.
    pub backslash_single: usize,
    /// Number of `\"` byte pairs.
    pub backslash_double: usize,
    pub data_len: usize,
}

impl QuoteCounts {
    pub open spec fn describes(self, d: Seq<u8>) -> bool {
        &&& self.double == byte_count(d, DOUBLE_QUOTE)
        &&& self.single == byte_count(d, SINGLE_QUOTE)
        &&& self.backslash_single == pairs(d, BACKSLASH, SINGLE_QUOTE)
        &&& self.backslash_double == pairs(d, BACKSLASH, DOUBLE_QUOTE)
        &&& self.data_len == d.len()
    }

    pub fn new(data: &[u8]) -> (r: QuoteCounts)
        ensures
            r.describes(data@),
    {
        let mut bs_single: usize = 0;
        let mut bs_double: usize = 0;
        let mut i: usize = 1;
        while i < data.len()
            invariant
                1 <= i <= data@.len() || (i == 1 && data@.len() == 0),
                bs_single == pair_count(data@, BACKSLASH, SINGLE_QUOTE, i as int),
                bs_double == pair_count(data@, BACKSLASH, DOUBLE_QUOTE, i as int),
            decreases data@.len() - i,
        {
            proof {
                lemma_pair_count_bounded(data@, BACKSLASH, SINGLE_QUOTE, i as int);
                lemma_pair_count_bounded(data@, BACKSLASH, DOUBLE_QUOTE, i as int);
            }
            if data[i - 1] == BACKSLASH {
                if data[i] == SINGLE_QUOTE {
                    bs_single = bs_single + 1;
                } else if data[i] == DOUBLE_QUOTE {
                    bs_double = bs_double + 1;
                }
            }
            i = i + 1;
        }
        QuoteCounts {
            double: count_byte(data, DOUBLE_QUOTE),
            single: count_byte(data, SINGLE_QUOTE),
            backslash_single: bs_single,
            backslash_double: bs_double,
            data_len: data.len(),
        }
    }
}

/// For each byte value, how often it stands right before or right after each
/// quote character; shared by every candidate.
#[derive(Debug, Clone)]
pub struct QuoteBoundaryCounts {
    /// `[b]`: pairs `b "`.
    pub double_after: Vec<usize>,
    /// `[b]`: pairs `" b`.
    pub double_before: Vec<usize>,
    /// `[b]`: pairs `b '`.
    pub single_after: Vec<usize>,
    /// `[b]`: pairs `' b`.
    pub single_before: Vec<usize>,
    pub starts_with_double: bool,
    pub starts_with_single: bool,
}

/// Whether `d` starts with `q`.
pub open spec fn starts_with(d: Seq<u8>, q: u8) -> bool {
    d.len() > 0 && d[0] == q
}

pub open spec fn is_newline(b: u8) -> bool {
    b == 10u8 || b == 13u8
}

/// Quote boundaries for `q` and `delim`: the quote right after a delimiter or
/// newline, or at the very start (field opening), and right before a delimiter
/// or newline (field closing).
pub open spec fn spec_boundary_count(d: Seq<u8>, q: u8, delim: u8) -> nat {
    (if is_newline(delim) {
        0
    } else {
        pairs(d, delim, q) + pairs(d, q, delim)
    }) + pairs(d, 10u8, q) + pairs(d, 13u8, q) + pairs(d, q, 10u8) + pairs(d, q, 13u8) + (
    if starts_with(d, q) {
        1nat
    } else {
        0nat
    })
}

/// Opening boundaries of the single quote for `delim`.
pub open spec fn spec_single_opening_count(d: Seq<u8>, delim: u8) -> nat {
    (if is_newline(delim) {
        0
    } else {
        pairs(d, delim, SINGLE_QUOTE)
    }) + pairs(d, 10u8, SINGLE_QUOTE) + pairs(d, 13u8, SINGLE_QUOTE) + (if starts_with(
        d,
        SINGLE_QUOTE,
    ) {
        1nat
    } else {
        0nat
    })
}

impl QuoteBoundaryCounts {
    pub open spec fn describes(&self, d: Seq<u8>) -> bool {
        &&& self.double_after@.len() == 256
        &&& self.double_before@.len() == 256
        &&& self.single_after@.len() == 256
        &&& self.single_before@.len() == 256
        &&& forall|b: u8|
            #![trigger self.double_after@[b as int]]
            self.double_after@[b as int] == pairs(d, b, DOUBLE_QUOTE)
        &&& forall|b: u8|
            #![trigger self.double_before@[b as int]]
            self.double_before@[b as int] == pairs(d, DOUBLE_QUOTE, b)
        &&& forall|b: u8|
            #![trigger self.single_after@[b as int]]
            self.single_after@[b as int] == pairs(d, b, SINGLE_QUOTE)
        &&& forall|b: u8|
            #![trigger self.single_before@[b as int]]
            self.single_before@[b as int] == pairs(d, SINGLE_QUOTE, b)
        &&& self.starts_with_double == starts_with(d, DOUBLE_QUOTE)
        &&& self.starts_with_single == starts_with(d, SINGLE_QUOTE)
    }

    /// Count every quote boundary of `data` in one pass.
    pub fn new(data: &[u8]) -> (r: QuoteBoundaryCounts)
        ensures
            r.describes(data@),
    {
        let ghost d = data@;
        let mut da: Vec<usize> = zeros_256();
        let mut db: Vec<usize> = zeros_256();
        let mut sa: Vec<usize> = zeros_256();
        let mut sb: Vec<usize> = zeros_256();
        let mut i: usize = 1;
        while i < data.len()
            invariant
                d == data@,
                1 <= i,
                i <= d.len() || d.len() == 0,
                da@.len() == 256 && db@.len() == 256 && sa@.len() == 256 && sb@.len() == 256,
                forall|b: u8|
                    #![trigger da@[b as int]]
                    da@[b as int] == pair_count(d, b, DOUBLE_QUOTE, i as int),
                forall|b: u8|
                    #![trigger db@[b as int]]
                    db@[b as int] == pair_count(d, DOUBLE_QUOTE, b, i as int),
                forall|b: u8|
                    #![trigger sa@[b as int]]
                    sa@[b as int] == pair_count(d, b, SINGLE_QUOTE, i as int),
                forall|b: u8|
                    #![trigger sb@[b as int]]
                    sb@[b as int] == pair_count(d, SINGLE_QUOTE, b, i as int),
            decreases d.len() - i,
        {
            let a = data[i - 1];
            let c = data[i];
            proof {
                lemma_pair_count_bounded(d, a, DOUBLE_QUOTE, i as int);
                lemma_pair_count_bounded(d, DOUBLE_QUOTE, c, i as int);
                lemma_pair_count_bounded(d, a, SINGLE_QUOTE, i as int);
                lemma_pair_count_bounded(d, SINGLE_QUOTE, c, i as int);
            }
            if c == DOUBLE_QUOTE {
                da.set(a as usize, da[a as usize] + 1);
            }
            if c == SINGLE_QUOTE {
                sa.set(a as usize, sa[a as usize] + 1);
            }
            if a == DOUBLE_QUOTE {
                db.set(c as usize, db[c as usize] + 1);
            }
            if a == SINGLE_QUOTE {
                sb.set(c as usize, sb[c as usize] + 1);
            }
            i = i + 1;
        }
        proof {
            if d.len() > 0 {
                assert(i == d.len());
            }
        }
        let sd = data.len() > 0 && data[0] == DOUBLE_QUOTE;
        let ss = data.len() > 0 && data[0] == SINGLE_QUOTE;
        QuoteBoundaryCounts {
            double_after: da,
            double_before: db,
            single_after: sa,
            single_before: sb,
            starts_with_double: sd,
            starts_with_single: ss,
        }
    }

    /// Boundary count of quote `q` (the double quote, else the single quote)
    /// for a delimiter.
    pub fn get_boundary_count(&self, q: u8, delimiter: u8) -> (r: u128)
        requires
            self.double_after@.len() == 256 && self.double_before@.len() == 256,
            self.single_after@.len() == 256 && self.single_before@.len() == 256,
        ensures
            forall|d: Seq<u8>|
                self.describes(d) ==> r == spec_boundary_count(
                    d,
                    if q == DOUBLE_QUOTE {
                        DOUBLE_QUOTE
                    } else {
                        SINGLE_QUOTE
                    },
                    delimiter,
                ),
    {
        let (after, before, starts) = if q == DOUBLE_QUOTE {
            (&self.double_after, &self.double_before, self.starts_with_double)
        } else {
            (&self.single_after, &self.single_before, self.starts_with_single)
        };
        let delim_part: u128 = if delimiter == 10 || delimiter == 13 {
            0
        } else {
            after[delimiter as usize] as u128 + before[delimiter as usize] as u128
        };
        delim_part + after[10] as u128 + after[13] as u128 + before[10] as u128
            + before[13] as u128 + if starts {
            1
        } else {
            0
        }
    }

    /// Opening boundaries of the single quote for a delimiter.
    pub fn get_single_opening_boundary_count(&self, delimiter: u8) -> (r: u128)
        requires
            self.single_after@.len() == 256,
        ensures
            forall|d: Seq<u8>|
                self.describes(d) ==> r == spec_single_opening_count(d, delimiter),
    {
        let delim_part: u128 = if delimiter == 10 || delimiter == 13 {
            0
        } else {
            self.single_after[delimiter as usize] as u128
        };
        delim_part + self.single_after[10] as u128 + self.single_after[13] as u128
            + if self.starts_with_single {
            1
        } else {
            0
        }
    }
}

fn zeros_256() -> (r: Vec<usize>)
    ensures
        r@.len() == 256,
        forall|i: int| 0 <= i < 256 ==> r@[i] == 0,
{
    let mut r: Vec<usize> = Vec::new();
    let mut i: usize = 0;
    while i < 256
        invariant
            0 <= i <= 256,
            r@.len() == i,
            forall|k: int| 0 <= k < i ==> r@[k] == 0,
        decreases 256 - i,
    {
        r.push(0);
        i = i + 1;
    }
    r
}

/// Multipliers are fixed-point numbers: `MULT_ONE` stands for 1.
pub const MULT_ONE: u64 = 10_000;

/// Quote density (quotes per 1000 bytes) from which quoting counts as evidence.
pub const MIN_DENSITY: u128 = 5;

/// Quotes of a kind per 1000 bytes of the sample.
pub open spec fn density(count: usize, len: usize) -> int {
    if len == 0 {
        0
    } else {
        (count as int * 1000) / len as int
    }
}

fn density_of(count: usize, len: usize) -> (r: u128)
    ensures
        r == density(count, len),
{
    if len == 0 {
        0
    } else {
        (count as u128) * 1000 / (len as u128)
    }
}

/// Multiplier for the double quote, from its boundaries and density.
pub open spec fn spec_double_quote_multiplier(qc: QuoteCounts, boundaries: int) -> int {
    let dd = density(qc.double, qc.data_len);
    if qc.single == 0 && boundaries >= 2 && dd >= MIN_DENSITY {
        22_000
    } else if boundaries >= 2 && dd >= MIN_DENSITY {
        11_500
    } else if dd >= MIN_DENSITY {
        10_800
    } else {
        10_000
    }
}

/// Multiplier for the single quote, first rule that applies: strong evidence
/// of genuine single-quote quoting boosts it (2.2, 1.2); escaped apostrophes
/// with no boundaries, or many closing-only boundaries, boost it a little
/// (1.1); double quotes (0.9), or apostrophes with no boundaries (0.95), damp it.
pub open spec fn spec_single_quote_multiplier(qc: QuoteCounts, boundaries: int, opening: int) -> int {
    let dd = density(qc.double, qc.data_len);
    let sd = density(qc.single, qc.data_len);
    if qc.double == 0 && opening >= 2 && boundaries >= 4 && sd >= MIN_DENSITY * 2 {
        22_000
    } else if qc.double == 0 && opening >= 1 && boundaries >= 2 && sd >= MIN_DENSITY {
        12_000
    } else if qc.backslash_single > 0 && qc.backslash_double == 0 && boundaries == 0 {
        11_000
    } else if qc.double == 0 && opening == 0 && boundaries >= 20 && sd >= 50 {
        11_000
    } else if dd >= MIN_DENSITY {
        9_000
    } else if boundaries == 0 && sd > 0 {
        9_500
    } else {
        10_000
    }
}

/// Quote-evidence multiplier of a candidate, from the shared statistics of the
/// sample and of its normalised form `norm`.
pub open spec fn spec_quote_multiplier(qc: QuoteCounts, norm: Seq<u8>, dialect: PotentialDialect) -> int {
    if qc.data_len == 0 {
        10_000
    } else {
        match dialect.quote {
            Quote::Char(q) => if q == DOUBLE_QUOTE {
                spec_double_quote_multiplier(
                    qc,
                    spec_boundary_count(norm, DOUBLE_QUOTE, dialect.delimiter) as int,
                )
            } else if q == SINGLE_QUOTE {
                spec_single_quote_multiplier(
                    qc,
                    spec_boundary_count(norm, SINGLE_QUOTE, dialect.delimiter) as int,
                    spec_single_opening_count(norm, dialect.delimiter) as int,
                )
            } else {
                10_000
            },
            Quote::NoQuote => if density(qc.double, qc.data_len) >= MIN_DENSITY {
                9_000
            } else {
                10_000
            },
        }
    }
}

/// Multiplier for the single quote, in units of `MULT_ONE`.
pub fn compute_single_quote_multiplier(qc: &QuoteCounts, boundary_count: u128, opening_count: u128) -> (r: u64)
    ensures
        r == spec_single_quote_multiplier(*qc, boundary_count as int, opening_count as int),
{
    let dd = density_of(qc.double, qc.data_len);
    let sd = density_of(qc.single, qc.data_len);
    if qc.double == 0 && opening_count >= 2 && boundary_count >= 4 && sd >= MIN_DENSITY * 2 {
        22_000
    } else if qc.double == 0 && opening_count >= 1 && boundary_count >= 2 && sd >= MIN_DENSITY {
        12_000
    } else if qc.backslash_single > 0 && qc.backslash_double == 0 && boundary_count == 0 {
        11_000
    } else if qc.double == 0 && opening_count == 0 && boundary_count >= 20 && sd >= 50 {
        11_000
    } else if dd >= MIN_DENSITY {
        9_000
    } else if boundary_count == 0 && sd > 0 {
        9_500
    } else {
        10_000
    }
}

/// Quote-evidence multiplier of a candidate, in units of `MULT_ONE`.
pub fn quote_evidence_score_with_cached_boundaries(
    qc: &QuoteCounts,
    bc: &QuoteBoundaryCounts,
    dialect: &PotentialDialect,
) -> (r: u64)
    requires
        exists|d: Seq<u8>| bc.describes(d),
    ensures
        forall|d: Seq<u8>| bc.describes(d) ==> r == spec_quote_multiplier(*qc, d, *dialect),
        r <= 22_000,
{
    if qc.data_len == 0 {
        return 10_000;
    }
    let dd = density_of(qc.double, qc.data_len);
    match dialect.quote {
        Quote::Char(q) => {
            if q == DOUBLE_QUOTE {
                let b = bc.get_boundary_count(DOUBLE_QUOTE, dialect.delimiter);
                if qc.single == 0 && b >= 2 && dd >= MIN_DENSITY {
                    22_000
                } else if b >= 2 && dd >= MIN_DENSITY {
                    11_500
                } else if dd >= MIN_DENSITY {
                    10_800
                } else {
                    10_000
                }
            } else if q == SINGLE_QUOTE {
                let b = bc.get_boundary_count(SINGLE_QUOTE, dialect.delimiter);
                let o = bc.get_single_opening_boundary_count(dialect.delimiter);
                compute_single_quote_multiplier(qc, b, o)
            } else {
                10_000
            }
        },
        Quote::NoQuote => {
            if dd >= MIN_DENSITY {
                9_000
            } else {
                10_000
            }
        },
    }
}

/// Penalty of a delimiter, in percent: common ones have none, rare ones are
/// penalised; `#` less so for a table of at least 3 fields and 50 rows.
pub open spec fn delimiter_penalty(delimiter: u8, fields: int, rows: int) -> int {
    if delimiter == COMMA || delimiter == SEMICOLON || delimiter == TAB {
        100
    } else if delimiter == PIPE {
        98
    } else if delimiter == COLON {
        90
    } else if delimiter == SPACE {
        75
    } else if delimiter == CARET || delimiter == TILDE {
        80
    } else if delimiter == HASH {
        if fields >= 3 && rows >= 50 {
            85
        } else {
            60
        }
    } else if delimiter == AMPERSAND {
        60
    } else if delimiter == SECTION_SIGN {
        78
    } else if delimiter == SLASH {
        65
    } else {
        70
    }
}

fn delimiter_penalty_of(delimiter: u8, fields: usize, rows: usize) -> (r: u64)
    ensures
        r == delimiter_penalty(delimiter, fields as int, rows as int),
        r <= 100,
{
    if delimiter == COMMA || delimiter == SEMICOLON || delimiter == TAB {
        100
    } else if delimiter == PIPE {
        98
    } else if delimiter == COLON {
        90
    } else if delimiter == SPACE {
        75
    } else if delimiter == CARET || delimiter == TILDE {
        80
    } else if delimiter == HASH {
        if fields >= 3 && rows >= 50 {
            85
        } else {
            60
        }
    } else if delimiter == AMPERSAND {
        60
    } else if delimiter == SECTION_SIGN {
        78
    } else if delimiter == SLASH {
        65
    } else {
        70
    }
}

pub open spec fn min_int(a: int, b: int) -> int {
    if a <= b {
        a
    } else {
        b
    }
}

/// The weighted sum of uniformity, type, pattern, row and field evidence,
/// scaled by `SCALE`.
pub open spec fn spec_raw_score(tau_0: int, tau_1: int, type_score: int, pattern_score: int, rows: int, fields: int) -> int {
    spec_isqrt(tau_0 * tau_1) / 2 + 3 * type_score / 10 + pattern_score / 10 + SCALE * min_int(
        rows,
        20,
    ) / 200 + if fields >= 2 {
        SCALE * min_int(fields, 10) / 50
    } else {
        0
    }
}

/// The base gamma score, scaled by `SCALE`: the raw score times the penalties
/// for one field, many fields, the delimiter and a small sample (in percent).
pub open spec fn spec_gamma(
    tau_0: int,
    tau_1: int,
    type_score: int,
    pattern_score: int,
    rows: int,
    fields: int,
    delimiter: u8,
) -> int {
    if rows == 0 {
        0
    } else {
        let single: int = if fields == 1 {
            50
        } else {
            100
        };
        let high: int = if fields > 100 {
            50
        } else if fields > 50 {
            80
        } else {
            100
        };
        let small: int = if rows < 3 {
            80
        } else if rows < 5 {
            90
        } else {
            100
        };
        spec_raw_score(tau_0, tau_1, type_score, pattern_score, rows, fields) * single * high
            * delimiter_penalty(delimiter, fields, rows) * small / 100_000_000
    }
}

/// Base gamma score of a candidate, scaled by `SCALE`.
pub fn compute_gamma(
    tau_0: u64,
    tau_1: u64,
    type_score: u64,
    pattern_score: u64,
    num_rows: usize,
    field_count: usize,
    delimiter: u8,
) -> (r: u64)
    requires
        tau_0 <= SCALE,
        tau_1 <= SCALE,
        type_score <= SCALE,
        pattern_score <= SCALE,
    ensures
        r == spec_gamma(
            tau_0 as int,
            tau_1 as int,
            type_score as int,
            pattern_score as int,
            num_rows as int,
            field_count as int,
            delimiter,
        ),
        r <= 2 * SCALE,
{
    if num_rows == 0 {
        return 0;
    }
    assert((tau_0 as int) * (tau_1 as int) <= (SCALE as int) * (SCALE as int)) by (nonlinear_arith)
        requires
            tau_0 <= SCALE,
            tau_1 <= SCALE,
    ;
    let u = isqrt((tau_0 as u128) * (tau_1 as u128));
    assert(u <= SCALE) by (nonlinear_arith)
        requires
            u as int * u as int <= (tau_0 as int) * (tau_1 as int),
            (tau_0 as int) * (tau_1 as int) <= (SCALE as int) * (SCALE as int),
    ;
    let rows20: u64 = if num_rows < 20 {
        num_rows as u64
    } else {
        20
    };
    let fields10: u64 = if field_count < 10 {
        field_count as u64
    } else {
        10
    };
    let field_bonus: u64 = if field_count >= 2 {
        SCALE * fields10 / 50
    } else {
        0
    };
    let raw: u64 = u / 2 + 3 * type_score / 10 + pattern_score / 10 + SCALE * rows20 / 200
        + field_bonus;
    let single: u64 = if field_count == 1 {
        50
    } else {
        100
    };
    let high: u64 = if field_count > 100 {
        50
    } else if field_count > 50 {
        80
    } else {
        100
    };
    let small: u64 = if num_rows < 3 {
        80
    } else if num_rows < 5 {
        90
    } else {
        100
    };
    let delim = delimiter_penalty_of(delimiter, field_count, num_rows);
    assert(raw <= 2 * SCALE);
    assert(raw * single <= 2 * SCALE * 100) by (nonlinear_arith)
        requires
            raw <= 2 * SCALE,
            single <= 100,
    ;
    let with_single = raw * single;
    assert(with_single * high <= 2 * SCALE * 10_000) by (nonlinear_arith)
        requires
            with_single <= 2 * SCALE * 100,
            high <= 100,
    ;
    let with_high = with_single * high;
    assert(with_high * delim <= 2 * SCALE * 1_000_000) by (nonlinear_arith)
        requires
            with_high <= 2 * SCALE * 10_000,
            delim <= 100,
    ;
    let with_delim = with_high * delim;
    assert(with_delim * small <= 2 * SCALE * 100_000_000) by (nonlinear_arith)
        requires
            with_delim <= 2 * SCALE * 1_000_000,
            small <= 100,
    ;
    let p = with_delim * small;
    assert(p / 100_000_000 <= 2 * SCALE) by (nonlinear_arith)
        requires
            p <= 2 * SCALE * 100_000_000,
    ;
    p / 100_000_000
}

/// Score of one candidate dialect. Scores are scaled by `SCALE`.
#[derive(Debug, Clone, Copy, PartialEq, Eq, Structural)]
pub struct DialectScore {
    pub dialect: PotentialDialect,
    /// Combined ranking score; higher is better.
    pub gamma: u64,
    /// Consistency of field counts.
    pub tau_0: u64,
    /// Dispersion of field counts.
    pub tau_1: u64,
    pub type_score: u64,
    pub pattern_score: u64,
    pub num_rows: usize,
    /// Modal field count.
    pub num_fields: usize,
    pub is_uniform: bool,
}

/// The table is small enough for the fixed-point arithmetic of the scores.
pub open spec fn table_fits(rows: Seq<Seq<Seq<char>>>, fc: Seq<usize>) -> bool {
    counts_fit(fc) && cell_total(rows) <= u64::MAX
}

/// The score of a parsed table before quote evidence and corrections.
pub open spec fn spec_base_score(
    dialect: PotentialDialect,
    rows: Seq<Seq<Seq<char>>>,
    fc: Seq<usize>,
    modal: usize,
) -> DialectScore {
    let tau_0 = spec_tau_0(fc);
    let tau_1 = spec_tau_1(fc, modal);
    let type_score = spec_type_score(rows, modal as int);
    let pattern_score = spec_pattern_score(rows);
    DialectScore {
        dialect,
        gamma: spec_gamma(
            tau_0,
            tau_1,
            type_score as int,
            pattern_score as int,
            rows.len() as int,
            modal as int,
            dialect.delimiter,
        ) as u64,
        tau_0: tau_0 as u64,
        tau_1: tau_1 as u64,
        type_score: type_score as u64,
        pattern_score: pattern_score as u64,
        num_rows: rows.len() as usize,
        num_fields: modal,
        is_uniform: spec_is_uniform(fc),
    }
}

impl DialectScore {
    /// Score a parsed table without quote evidence or corrections.
    pub fn new(dialect: PotentialDialect, table: &Table, rec: &Recognizers) -> (r: DialectScore)
        requires
            rec.wf(),
            table.wf(),
            table_fits(table.rows.deep_view(), table.field_counts@),
        ensures
            r == spec_base_score(
                dialect,
                table.rows.deep_view(),
                table.field_counts@,
                table.spec_modal_field_count(),
            ),
            r.gamma <= 2 * SCALE,
    {
        let tau_0 = calculate_tau_0(table);
        let tau_1 = calculate_tau_1(table);
        let type_score = calculate_type_score_with(rec, table);
        let pattern_score = calculate_pattern_score_with(rec, table);
        let uniform = is_uniform(table);
        let gamma = compute_gamma(
            tau_0,
            tau_1,
            type_score,
            pattern_score,
            table.num_rows(),
            table.modal_field_count(),
            dialect.delimiter,
        );
        DialectScore {
            dialect,
            gamma,
            tau_0,
            tau_1,
            type_score,
            pattern_score,
            num_rows: table.num_rows(),
            num_fields: table.modal_field_count(),
            is_uniform: uniform,
        }
    }

    pub open spec fn spec_zero(dialect: PotentialDialect) -> DialectScore {
        DialectScore {
            dialect,
            gamma: 0,
            tau_0: 0,
            tau_1: 0,
            type_score: 0,
            pattern_score: 0,
            num_rows: 0,
            num_fields: 0,
            is_uniform: false,
        }
    }

    /// The score of a candidate that could not be parsed.
    pub fn zero(dialect: PotentialDialect) -> (r: DialectScore)
        ensures
            r == DialectScore::spec_zero(dialect),
    {
        DialectScore {
            dialect,
            gamma: 0,
            tau_0: 0,
            tau_1: 0,
            type_score: 0,
            pattern_score: 0,
            num_rows: 0,
            num_fields: 0,
            is_uniform: false,
        }
    }
}

/// At least three distinct field counts other than `modal` occur.
pub open spec fn has_three_other_counts(fc: Seq<usize>, modal: usize) -> bool {
    exists|i: int, j: int, k: int|
        0 <= i < fc.len() && 0 <= j < fc.len() && 0 <= k < fc.len() && fc[i] != modal && fc[j]
            != modal && fc[k] != modal && fc[i] != fc[j] && fc[i] != fc[k] && fc[j] != fc[k]
}

/// A strong quote boost on chaotic content keeps 30% of its excess: when it is
/// above 1.5, the modal count is at least 5, the table is not uniform, the first
/// row has at most one field and three other field counts occur.
pub open spec fn spec_dampened(q: int, fc: Seq<usize>, modal: usize) -> int {
    if q > 15_000 && modal >= 5 && !spec_is_uniform(fc) && fc.len() > 0 && fc[0] <= 1
        && has_three_other_counts(fc, modal) {
        10_000 + 3 * (q - 10_000) / 10
    } else {
        q
    }
}

/// Whether three distinct values other than `modal` occur in `fc`.
fn three_other_counts(fc: &Vec<usize>, modal: usize) -> (r: bool)
    ensures
        r == has_three_other_counts(fc@, modal),
{
    let mut seen: Vec<usize> = Vec::new();
    let mut idx: Vec<usize> = Vec::new();
    let mut i: usize = 0;
    while i < fc.len()
        invariant
            0 <= i <= fc@.len(),
            seen@.len() == idx@.len(),
            seen@.len() <= 2,
            forall|a: int| 0 <= a < seen@.len() ==> 0 <= #[trigger] idx@[a] < fc@.len() && fc@[idx@[a] as int] == seen@[a] && seen@[a] != modal,
            seen@.len() == 2 ==> seen@[0] != seen@[1],
            forall|k: int| 0 <= k < i && fc@[k] != modal ==> exists|a: int| 0 <= a < seen@.len() && seen@[a] == #[trigger] fc@[k],
        decreases fc@.len() - i,
    {
        let v = fc[i];
        let ghost old_seen = seen@;
        if v != modal {
            let mut known = false;
            let mut a: usize = 0;
            while a < seen.len()
                invariant
                    0 <= a <= seen@.len(),
                    known == exists|b: int| 0 <= b < a && seen@[b] == v,
                decreases seen@.len() - a,
            {
                if seen[a] == v {
                    known = true;
                }
                a = a + 1;
            }
            if !known {
                if seen.len() == 2 {
                    proof {
                        let i0 = idx@[0] as int;
                        let i1 = idx@[1] as int;
                        assert(fc@[i0] != fc@[i1]);
                        assert(fc@[i0] != fc@[i as int] && fc@[i1] != fc@[i as int]);
                        assert(has_three_other_counts(fc@, modal));
                    }
                    return true;
                }
                seen.push(v);
                idx.push(i);
                assert(seen@[seen@.len() - 1] == v);
                assert(seen@.subrange(0, old_seen.len() as int) =~= old_seen);
            }
        }
        assert forall|k: int| 0 <= k < i + 1 && fc@[k] != modal implies exists|a: int|
            0 <= a < seen@.len() && seen@[a] == #[trigger] fc@[k] by {
            if k == i {
                assert(fc@[k] == v);
                assert(exists|b: int| 0 <= b < seen@.len() && seen@[b] == v);
            } else {
                let a = choose|a: int| 0 <= a < old_seen.len() && old_seen[a] == fc@[k];
                assert(seen@[a] == old_seen[a]);
            }
        }
        i = i + 1;
    }
    proof {
        if has_three_other_counts(fc@, modal) {
            let (x, y, z) = choose|x: int, y: int, z: int|
                0 <= x < fc@.len() && 0 <= y < fc@.len() && 0 <= z < fc@.len() && fc@[x] != modal
                    && fc@[y] != modal && fc@[z] != modal && fc@[x] != fc@[y] && fc@[x] != fc@[z]
                    && fc@[y] != fc@[z];
            let ax = choose|a: int| 0 <= a < seen@.len() && seen@[a] == fc@[x];
            let ay = choose|a: int| 0 <= a < seen@.len() && seen@[a] == fc@[y];
            let az = choose|a: int| 0 <= a < seen@.len() && seen@[a] == fc@[z];
            assert(ax != ay && ax != az && ay != az);
        }
    }
    false
}

/// Rows whose first field is missing or empty.
pub open spec fn empty_first_rows(rows: Seq<Seq<Seq<char>>>) -> nat
    decreases rows.len(),
{
    if rows.len() == 0 {
        0
    } else {
        empty_first_rows(rows.drop_last()) + (if rows.last().len() == 0 || rows.last()[0].len()
            == 0 {
            1nat
        } else {
            0nat
        })
    }
}

/// For the space delimiter, when more than half of the rows start with an empty
/// field (leading padding), the quote multiplier is capped at 1.05 and the
/// result damped to 55%.
pub open spec fn spec_space_dampened(q: int, rows: Seq<Seq<Seq<char>>>, delimiter: u8) -> int {
    if delimiter == SPACE && rows.len() > 0 && 2 * empty_first_rows(rows) > rows.len() {
        min_int(q, 10_500) * 55 / 100
    } else {
        q
    }
}

/// What `str::trim_start` leaves of `s`.
pub uninterp spec fn trimmed_start(s: Seq<char>) -> Seq<char>;

/// Relies on str::trim_start: `s` without leading white space, so a text that
/// does not start with white space comes back unchanged.
#[verifier::external_body]
fn trim_start(s: &str) -> (r: &str)
    ensures
        r@ == trimmed_start(s@),
        s@.len() == 0 || !is_white_space(s@[0]) ==> r@ == s@,
        r@.len() > 0 ==> !is_white_space(r@[0]),
{
    s.trim_start()
}

/// Whether the bytes hold ` # `.
pub open spec fn has_spaced_hash(b: Seq<u8>) -> bool {
    exists|i: int| 0 <= i && i + 2 < b.len() && #[trigger] b[i] == SPACE && b[i + 1] == HASH && b[i + 2] == SPACE
}

fn contains_spaced_hash(b: &[u8]) -> (r: bool)
    ensures
        r == has_spaced_hash(b@),
{
    if b.len() < 3 {
        return false;
    }
    let mut i: usize = 0;
    while i < b.len() - 2
        invariant
            b@.len() >= 3,
            forall|k: int| 0 <= k < i && k + 2 < b@.len() ==> !(#[trigger] b@[k] == SPACE && b@[k + 1] == HASH && b@[k + 2] == SPACE),
        decreases b@.len() - i,
    {
        if b[i] == SPACE && b[i + 1] == HASH && b[i + 2] == SPACE {
            return true;
        }
        i = i + 1;
    }
    false
}

/// Rows whose first field, without leading white space, holds ` # `.
pub open spec fn hash_separated_rows(rows: Seq<Seq<Seq<char>>>) -> nat
    decreases rows.len(),
{
    if rows.len() == 0 {
        0
    } else {
        hash_separated_rows(rows.drop_last()) + (if rows.last().len() > 0 && has_spaced_hash(
            encode_utf8(trimmed_start(rows.last()[0])),
        ) {
            1nat
        } else {
            0nat
        })
    }
}

/// For the comma with exactly two modal fields, when more than 90% of the rows
/// hold ` # ` in their first field, the comma likely splits inside `#`-delimited
/// fields: gamma is taken to 82%.
pub open spec fn spec_comma_hash_penalised(
    g: int,
    rows: Seq<Seq<Seq<char>>>,
    modal: usize,
    delimiter: u8,
) -> int {
    if delimiter == COMMA && modal == 2 && rows.len() > 0 && 10
        * hash_separated_rows(rows) > 9 * rows.len() {
        g * 82 / 100
    } else {
        g
    }
}

/// The final score of a candidate whose parse has rows `rows`, field counts
/// `fc` and modal field count `modal`; `norm` is the normalised sample and `qc`
/// the quote statistics of the sample.
pub open spec fn spec_candidate_score(
    dialect: PotentialDialect,
    rows: Seq<Seq<Seq<char>>>,
    fc: Seq<usize>,
    modal: usize,
    qc: QuoteCounts,
    norm: Seq<u8>,
) -> DialectScore {
    if rows.len() == 0 || !table_fits(rows, fc) {
        DialectScore::spec_zero(dialect)
    } else {
        let base = spec_base_score(dialect, rows, fc, modal);
        let q = spec_quote_multiplier(qc, norm, dialect);
        let m = spec_space_dampened(spec_dampened(q, fc, modal), rows, dialect.delimiter);
        let g = spec_comma_hash_penalised(
            base.gamma as int * m / MULT_ONE as int,
            rows,
            modal,
            dialect.delimiter,
        );
        DialectScore { gamma: g as u64, ..base }
    }
}

fn count_empty_first(table: &Table) -> (r: usize)
    ensures
        r == empty_first_rows(table.rows.deep_view()),
{
    let ghost rows = table.rows.deep_view();
    let mut c: usize = 0;
    let mut i: usize = 0;
    while i < table.rows.len()
        invariant
            rows == table.rows.deep_view(),
            0 <= i <= rows.len(),
            c == empty_first_rows(rows.take(i as int)),
            c <= i,
        decreases rows.len() - i,
    {
        assert(rows.take(i + 1).drop_last() =~= rows.take(i as int));
        let row = &table.rows[i];
        if row.len() == 0 || row[0].as_str().is_empty() {
            c = c + 1;
        }
        i = i + 1;
    }
    assert(rows.take(rows.len() as int) =~= rows);
    c
}

fn count_hash_separated(table: &Table) -> (r: usize)
    ensures
        r == hash_separated_rows(table.rows.deep_view()),
{
    let ghost rows = table.rows.deep_view();
    let mut c: usize = 0;
    let mut i: usize = 0;
    while i < table.rows.len()
        invariant
            rows == table.rows.deep_view(),
            0 <= i <= rows.len(),
            c == hash_separated_rows(rows.take(i as int)),
            c <= i,
        decreases rows.len() - i,
    {
        assert(rows.take(i + 1).drop_last() =~= rows.take(i as int));
        let row = &table.rows[i];
        if row.len() > 0 && contains_spaced_hash(trim_start(row[0].as_str()).as_bytes()) {
            c = c + 1;
        }
        i = i + 1;
    }
    assert(rows.take(rows.len() as int) =~= rows);
    c
}

/// Score the parse `table` of a candidate: base score, then the quote
/// multiplier with its two dampening rules, then the comma-hash penalty.
pub fn score_table(
    dialect: &PotentialDialect,
    table: &Table,
    qc: &QuoteCounts,
    bc: &QuoteBoundaryCounts,
    rec: &Recognizers,
) -> (r: DialectScore)
    requires
        rec.wf(),
        table.wf(),
        exists|d: Seq<u8>| bc.describes(d),
    ensures
        forall|d: Seq<u8>|
            bc.describes(d) ==> r == spec_candidate_score(
                *dialect,
                table.rows.deep_view(),
                table.field_counts@,
                table.spec_modal_field_count(),
                *qc,
                d,
            ),
{
    if table.is_empty() {
        return DialectScore::zero(*dialect);
    }
    let cells = count_cells(table);
    if cells.is_none() || !fits_counts(table) {
        return DialectScore::zero(*dialect);
    }
    let mut score = DialectScore::new(*dialect, table, rec);
    let q = quote_evidence_score_with_cached_boundaries(qc, bc, dialect);
    let fc = &table.field_counts;
    let mut m: u64 = q;
    if q > 15_000 && score.num_fields >= 5 && !score.is_uniform && fc[0] <= 1 && three_other_counts(
        fc,
        score.num_fields,
    ) {
        m = 10_000 + 3 * (q - 10_000) / 10;
    }
    if dialect.delimiter == SPACE {
        let empty_first = count_empty_first(table);
        if empty_first as u128 * 2 > table.rows.len() as u128 {
            let capped: u64 = if m < 10_500 {
                m
            } else {
                10_500
            };
            m = capped * 55 / 100;
        }
    }
    let ghost base_gamma = score.gamma;
    assert(m <= 22_000);
    assert(score.gamma * m <= 2 * SCALE * 22_000) by (nonlinear_arith)
        requires
            score.gamma <= 2 * SCALE,
            m <= 22_000,
    ;
    score.gamma = score.gamma * m / MULT_ONE;
    if dialect.delimiter == COMMA && score.num_fields == 2 {
        let hashed = count_hash_separated(table);
        if hashed as u128 * 10 > table.rows.len() as u128 * 9 {
            score.gamma = score.gamma * 82 / 100;
        }
    }
    score
}

/// Whether the row count and every field count are below `SIZE_LIMIT`.
fn fits_counts(table: &Table) -> (r: bool)
    ensures
        r == counts_fit(table.field_counts@),
{
    if table.field_counts.len() as u64 >= crate::uniformity::SIZE_LIMIT {
        return false;
    }
    let mut i: usize = 0;
    while i < table.field_counts.len()
        invariant
            0 <= i <= table.field_counts@.len(),
            forall|k: int| 0 <= k < i ==> #[trigger] table.field_counts@[k] < crate::uniformity::SIZE_LIMIT,
        decreases table.field_counts@.len() - i,
    {
        if table.field_counts[i] as u64 >= crate::uniformity::SIZE_LIMIT {
            return false;
        }
        i = i + 1;
    }
    true
}

/// The score of a candidate from the rows its parse yields.
#[verifier::opaque]
pub open spec fn spec_score_of_rows(
    dialect: PotentialDialect,
    rows: Seq<Seq<Seq<char>>>,
    qc: QuoteCounts,
    norm: Seq<u8>,
) -> DialectScore {
    let fc = spec_field_counts(rows);
    spec_candidate_score(dialect, rows, fc, spec_modal(fc), qc, norm)
}

/// Parse LF-normalised data with a candidate and score it.
pub fn score_dialect_with_normalized_data(
    normalized_data: &[u8],
    dialect: &PotentialDialect,
    max_rows: usize,
    qc: &QuoteCounts,
    bc: &QuoteBoundaryCounts,
    rec: &Recognizers,
) -> (r: (DialectScore, Table))
    requires
        rec.wf(),
        bc.describes(normalized_data@),
    ensures
        r.1.wf(),
        r.1.rows.deep_view() == spec_parse_rows(normalized_data@, *dialect, max_rows),
        r.0 == spec_score_of_rows(*dialect, r.1.rows.deep_view(), *qc, normalized_data@),
{
    let table = parse_table_normalized(normalized_data, dialect, max_rows);
    let score = score_table(dialect, &table, qc, bc, rec);
    proof {
        table.lemma_wf_determined();
        reveal(spec_score_of_rows);
    }
    (score, table)
}

/// Priority of a delimiter in tie-breaks: comma, then semicolon, then tab and
/// pipe, then colon, caret and tilde, section sign, slash and space, hash and
/// ampersand; others last.
pub open spec fn spec_delimiter_priority(d: u8) -> u8 {
    if d == COMMA {
        10
    } else if d == SEMICOLON {
        9
    } else if d == TAB || d == PIPE {
        8
    } else if d == COLON {
        4
    } else if d == CARET || d == TILDE {
        3
    } else if d == SECTION_SIGN || d == SLASH || d == SPACE {
        2
    } else if d == HASH || d == AMPERSAND {
        1
    } else {
        0
    }
}

pub fn delimiter_priority(d: u8) -> (r: u8)
    ensures
        r == spec_delimiter_priority(d),
{
    if d == COMMA {
        10
    } else if d == SEMICOLON {
        9
    } else if d == TAB || d == PIPE {
        8
    } else if d == COLON {
        4
    } else if d == CARET || d == TILDE {
        3
    } else if d == SECTION_SIGN || d == SLASH || d == SPACE {
        2
    } else if d == HASH || d == AMPERSAND {
        1
    } else {
        0
    }
}

/// Priority of a quote setting in tie-breaks: double, single, none, others.
pub open spec fn spec_quote_priority(q: Quote) -> u8 {
    match q {
        Quote::Char(c) => if c == DOUBLE_QUOTE {
            3
        } else if c == SINGLE_QUOTE {
            2
        } else {
            0
        },
        Quote::NoQuote => 1,
    }
}

pub fn quote_priority(q: Quote) -> (r: u8)
    ensures
        r == spec_quote_priority(q),
{
    match q {
        Quote::Char(c) => if c == DOUBLE_QUOTE {
            3
        } else if c == SINGLE_QUOTE {
            2
        } else {
            0
        },
        Quote::NoQuote => 1,
    }
}

/// Rank of a candidate by the two priority tables, delimiter first.
pub open spec fn rank(d: PotentialDialect) -> int {
    10 * spec_delimiter_priority(d.delimiter) + spec_quote_priority(d.quote)
}

/// Two gammas within 5% of each other: the smaller over the larger exceeds 0.95.
pub open spec fn near_tie(a: u64, b: u64) -> bool {
    if a >= b {
        100 * b > 95 * a
    } else {
        100 * a > 95 * b
    }
}

/// Whether candidate `a` beats candidate `b`. When every viable candidate has
/// at most one field the priority tables alone decide; otherwise near ties are
/// broken by the priority tables, then gamma, and other pairs by gamma.
pub open spec fn prefers(a: DialectScore, b: DialectScore, all_single: bool) -> bool {
    if all_single {
        rank(a.dialect) > rank(b.dialect)
    } else if near_tie(a.gamma, b.gamma) {
        rank(a.dialect) > rank(b.dialect) || (rank(a.dialect) == rank(b.dialect) && a.gamma
            > b.gamma)
    } else {
        a.gamma > b.gamma
    }
}

/// Every candidate with a positive gamma has at most one field.
pub open spec fn all_single_field(scores: Seq<DialectScore>) -> bool {
    forall|i: int| 0 <= i < scores.len() && scores[i].gamma > 0 ==> #[trigger] scores[i].num_fields <= 1
}

/// The winner among the first `n` candidates: candidates are visited in
/// generation order and a later one replaces the current winner only when it
/// is strictly preferred, so ties go to the earlier candidate.
pub open spec fn best_upto(scores: Seq<DialectScore>, n: int, all_single: bool) -> Option<int>
    decreases n,
{
    if n <= 0 || n > scores.len() {
        None
    } else {
        let p = best_upto(scores, n - 1, all_single);
        let c = scores[n - 1];
        if c.gamma == 0 {
            p
        } else {
            match p {
                None => Some(n - 1),
                Some(b) => if prefers(c, scores[b], all_single) {
                    Some(n - 1)
                } else {
                    p
                },
            }
        }
    }
}

/// The index of the winning candidate, if any candidate has a positive gamma.
pub open spec fn spec_best_index(scores: Seq<DialectScore>) -> Option<int> {
    best_upto(scores, scores.len() as int, all_single_field(scores))
}

fn prefers_exec(a: &DialectScore, b: &DialectScore, all_single: bool) -> (r: bool)
    ensures
        r == prefers(*a, *b, all_single),
{
    let ra = 10 * (delimiter_priority(a.dialect.delimiter) as u64) + quote_priority(
        a.dialect.quote,
    ) as u64;
    let rb = 10 * (delimiter_priority(b.dialect.delimiter) as u64) + quote_priority(
        b.dialect.quote,
    ) as u64;
    if all_single {
        return ra > rb;
    }
    let (hi, lo) = if a.gamma >= b.gamma {
        (a.gamma as u128, b.gamma as u128)
    } else {
        (b.gamma as u128, a.gamma as u128)
    };
    if 100 * lo > 95 * hi {
        ra > rb || (ra == rb && a.gamma > b.gamma)
    } else {
        a.gamma > b.gamma
    }
}

/// Index of the winning candidate, or `None` when no candidate has a positive gamma.
pub fn best_dialect_index(scores: &[DialectScore]) -> (r: Option<usize>)
    ensures
        r matches Some(i) ==> i < scores@.len(),
        r matches Some(i) ==> spec_best_index(scores@) == Some(i as int),
        r is None ==> spec_best_index(scores@) is None,
{
    let mut all_single = true;
    let mut i: usize = 0;
    while i < scores.len()
        invariant
            0 <= i <= scores@.len(),
            all_single == forall|k: int|
                0 <= k < i && scores@[k].gamma > 0 ==> #[trigger] scores@[k].num_fields <= 1,
        decreases scores@.len() - i,
    {
        if scores[i].gamma > 0 && scores[i].num_fields > 1 {
            all_single = false;
        }
        i = i + 1;
    }
    let ghost as_ = all_single_field(scores@);
    assert(all_single == as_);
    let mut best: Option<usize> = None;
    let mut j: usize = 0;
    while j < scores.len()
        invariant
            0 <= j <= scores@.len(),
            all_single == as_,
            as_ == all_single_field(scores@),
            best matches Some(b) ==> best_upto(scores@, j as int, as_) == Some(b as int) && b < j,
            best is None ==> best_upto(scores@, j as int, as_) is None,
        decreases scores@.len() - j,
    {
        if scores[j].gamma > 0 {
            match best {
                None => {
                    best = Some(j);
                },
                Some(b) => {
                    if prefers_exec(&scores[j], &scores[b], all_single) {
                        best = Some(j);
                    }
                },
            }
        }
        j = j + 1;
    }
    best
}

/// The winning candidate, or `None` when no candidate has a positive gamma.
pub fn find_best_dialect(scores: &[DialectScore]) -> (r: Option<&DialectScore>)
    ensures
        r matches Some(s) ==> (spec_best_index(scores@) matches Some(i) && *s == scores@[i]),
        r is None ==> spec_best_index(scores@) is None,
{
    match best_dialect_index(scores) {
        Some(i) => Some(&scores[i]),
        None => None,
    }
}

proof fn lemma_best_upto_max_rank(scores: Seq<DialectScore>, n: int)
    requires
        0 <= n <= scores.len(),
    ensures
        best_upto(scores, n, true) matches Some(b) ==> 0 <= b < n && scores[b].gamma > 0,
        forall|k: int|
            0 <= k < n && scores[k].gamma > 0 ==> (best_upto(scores, n, true) matches Some(b)
                && rank(scores[k].dialect) <= rank(scores[b].dialect)),
    decreases n,
{
    if n > 0 {
        lemma_best_upto_max_rank(scores, n - 1);
    }
}

/// When every viable candidate has at most one field, the priority tables
/// decide alone: if comma with double quote is viable, it wins.
pub proof fn lemma_single_field_fallback(scores: Seq<DialectScore>, k: int)
    requires
        all_single_field(scores),
        0 <= k < scores.len(),
        scores[k].gamma > 0,
        scores[k].dialect.delimiter == COMMA,
        scores[k].dialect.quote == Quote::Char(DOUBLE_QUOTE),
    ensures
        (spec_best_index(scores) matches Some(w) && scores[w].dialect.delimiter == COMMA
            && scores[w].dialect.quote == Quote::Char(DOUBLE_QUOTE)),
{
    lemma_best_upto_max_rank(scores, scores.len() as int);
    let w = spec_best_index(scores)->0;
    let d = scores[w].dialect;
    assert(rank(d) >= 103);
    assert(spec_delimiter_priority(d.delimiter) <= 10);
    assert(spec_quote_priority(d.quote) <= 3);
    assert(spec_delimiter_priority(d.delimiter) == 10);
    assert(spec_quote_priority(d.quote) == 3);
    assert(d.quote is Char);
    assert(d.quote->Char_0 == DOUBLE_QUOTE);
}

/// Score every candidate on the sample and keep the winner's parse. Candidates
/// share the terminator of the first; the sample is normalised and its quote
/// statistics gathered once.
pub fn score_all_dialects_with_best_table(
    data: &[u8],
    dialects: &Vec<PotentialDialect>,
    max_rows: usize,
) -> (r: (Vec<DialectScore>, Option<Table>))
    ensures
        r.0@.len() == dialects@.len(),
        ({
            let lt = if dialects@.len() > 0 {
                dialects@[0].line_terminator
            } else {
                LineTerminator::LF
            };
            let norm = spec_normalized(data@, lt);
            let qc = spec_quote_counts(data@);
            forall|i: int|
                0 <= i < dialects@.len() ==> #[trigger] r.0@[i] == spec_score_of_rows(
                    dialects@[i],
                    spec_parse_rows(norm, dialects@[i], max_rows),
                    qc,
                    norm,
                )
        }),
        r.1 is Some <==> spec_best_index(r.0@) is Some,
        r.1 matches Some(t) ==> t.wf() && (spec_best_index(r.0@) matches Some(w) && t.rows.deep_view()
            == spec_parse_rows(
            spec_normalized(
                data@,
                if dialects@.len() > 0 {
                    dialects@[0].line_terminator
                } else {
                    LineTerminator::LF
                },
            ),
            dialects@[w],
            max_rows,
        )),
{
    let qc = QuoteCounts::new(data);
    proof {
        lemma_quote_counts_determined(qc, data@);
    }
    let lt = if dialects.len() > 0 {
        dialects[0].line_terminator
    } else {
        LineTerminator::LF
    };
    // LF data is already normalised: it is used as it is, without a copy.
    let owned: Vec<u8> = if lt == LineTerminator::LF {
        Vec::new()
    } else {
        normalize_line_endings(data, lt)
    };
    let norm: &[u8] = if lt == LineTerminator::LF {
        data
    } else {
        owned.as_slice()
    };
    assert(norm@ == spec_normalized(data@, lt));
    let bc = QuoteBoundaryCounts::new(norm);
    let rec = Recognizers::new();
    let mut scores: Vec<DialectScore> = Vec::new();
    let mut tables: Vec<Table> = Vec::new();
    let mut i: usize = 0;
    while i < dialects.len()
        invariant
            0 <= i <= dialects@.len(),
            bc.describes(norm@),
            rec.wf(),
            norm@ == spec_normalized(data@, lt),
            qc == spec_quote_counts(data@),
            scores@.len() == i,
            tables@.len() == i,
            forall|k: int|
                0 <= k < i ==> #[trigger] scores@[k] == spec_score_of_rows(
                    dialects@[k],
                    spec_parse_rows(norm@, dialects@[k], max_rows),
                    qc,
                    norm@,
                ),
            forall|k: int|
                #![trigger tables@[k]]
                0 <= k < i ==> tables@[k].wf() && tables@[k].rows.deep_view() == spec_parse_rows(
                    norm@,
                    dialects@[k],
                    max_rows,
                ),
        decreases dialects@.len() - i,
    {
        let (score, table) = score_dialect_with_normalized_data(
            norm,
            &dialects[i],
            max_rows,
            &qc,
            &bc,
            &rec,
        );
        scores.push(score);
        tables.push(table);
        i = i + 1;
    }
    let best = best_dialect_index(scores.as_slice());
    match best {
        Some(w) => {
            let ghost old_tables = tables@;
            let t = tables.swap_remove(w);
            assert(t == old_tables[w as int]);
            assert(t.wf() && t.rows.deep_view() == spec_parse_rows(norm@, dialects@[w as int], max_rows));
            (scores, Some(t))
        },
        None => (scores, None),
    }
}

/// The quote statistics of a sample.
pub open spec fn spec_quote_counts(d: Seq<u8>) -> QuoteCounts {
    QuoteCounts {
        double: byte_count(d, DOUBLE_QUOTE) as usize,
        single: byte_count(d, SINGLE_QUOTE) as usize,
        backslash_single: pairs(d, BACKSLASH, SINGLE_QUOTE) as usize,
        backslash_double: pairs(d, BACKSLASH, DOUBLE_QUOTE) as usize,
        data_len: d.len() as usize,
    }
}

proof fn lemma_quote_counts_determined(qc: QuoteCounts, d: Seq<u8>)
    requires
        qc.describes(d),
    ensures
        qc == spec_quote_counts(d),
{
}

/// Score every candidate on the sample.
pub fn score_all_dialects(data: &[u8], dialects: &Vec<PotentialDialect>, max_rows: usize) -> (r:
    Vec<DialectScore>)
    ensures
        r@.len() == dialects@.len(),
        ({
            let lt = if dialects@.len() > 0 {
                dialects@[0].line_terminator
            } else {
                LineTerminator::LF
            };
            let norm = spec_normalized(data@, lt);
            forall|i: int|
                0 <= i < dialects@.len() ==> #[trigger] r@[i] == spec_score_of_rows(
                    dialects@[i],
                    spec_parse_rows(norm, dialects@[i], max_rows),
                    spec_quote_counts(data@),
                    norm,
                )
        }),
{
    let (scores, _best) = score_all_dialects_with_best_table(data, dialects, max_rows);
    scores
}

/// Score one candidate on the sample.
pub fn score_dialect(data: &[u8], dialect: &PotentialDialect, max_rows: usize) -> (r:
    DialectScore)
    ensures
        ({
            let norm = spec_normalized(data@, dialect.line_terminator);
            r == spec_score_of_rows(
                *dialect,
                spec_parse_rows(norm, *dialect, max_rows),
                spec_quote_counts(data@),
                norm,
            )
        }),
{
    let dialects = vec![*dialect];
    let scores = score_all_dialects(data, &dialects, max_rows);
    scores[0]
}

} // verus!
