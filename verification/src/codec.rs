//! The result-log document format: a JSON array of per-command records with
//! optional fields omitted when absent. The grammar is defined by the spec
//! parsing functions here; the executable parser returns exactly what they
//! say, and the writer only returns text that parses back to its input.
use vstd::prelude::*;
use crate::log::{LogFile, LogFileItem, Measurement, MeasurementValue};
use crate::types::{CacheHit, ExecutionStatus};

verus! {

/// Relies on std's String::push: appends the given character to the end of
/// the string.
pub assume_specification[ String::push ](s: &mut String, ch: char)
    ensures
        final(s)@ == old(s)@.push(ch),
;

pub open spec fn is_digit(c: char) -> bool {
    '0' <= c && c <= '9'
}

pub open spec fn digit_val(c: char) -> int {
    c as int - '0' as int
}

/// The exact literal `lit` at `pos`; yields the position after it.
pub open spec fn parse_lit(s: Seq<char>, pos: int, lit: Seq<char>) -> Option<int> {
    if 0 <= pos && pos + lit.len() <= s.len() && s.subrange(pos, pos + lit.len() as int) == lit {
        Some(pos + lit.len() as int)
    } else {
        None
    }
}

/// The body of a quoted string starting at `pos` (after the opening quote):
/// any characters, with `"` and `\` escaped by a backslash, up to the
/// closing quote.
pub open spec fn parse_string_body(s: Seq<char>, pos: int) -> Option<(Seq<char>, int)>
    decreases s.len() - pos,
{
    if pos < 0 || pos >= s.len() {
        None
    } else if s[pos] == '"' {
        Some((Seq::empty(), pos + 1))
    } else if s[pos] == '\\' {
        if pos + 1 < s.len() && (s[pos + 1] == '"' || s[pos + 1] == '\\') {
            match parse_string_body(s, pos + 2) {
                Some(p) => Some((seq![s[pos + 1]] + p.0, p.1)),
                None => None,
            }
        } else {
            None
        }
    } else {
        match parse_string_body(s, pos + 1) {
            Some(p) => Some((seq![s[pos]] + p.0, p.1)),
            None => None,
        }
    }
}

/// A quoted string at `pos`.
pub open spec fn parse_string(s: Seq<char>, pos: int) -> Option<(Seq<char>, int)> {
    if 0 <= pos < s.len() && s[pos] == '"' {
        parse_string_body(s, pos + 1)
    } else {
        None
    }
}

/// Greedy decimal digits with accumulator; fails on a value over `u64::MAX`.
pub open spec fn parse_u64_digits(s: Seq<char>, pos: int, acc: u64) -> Option<(u64, int)>
    decreases s.len() - pos,
{
    if 0 <= pos < s.len() && is_digit(s[pos]) {
        if acc as int * 10 + digit_val(s[pos]) > u64::MAX as int {
            None
        } else {
            parse_u64_digits(s, pos + 1, (acc as int * 10 + digit_val(s[pos])) as u64)
        }
    } else {
        Some((acc, pos))
    }
}

/// A canonical decimal `u64`: a single `0`, or digits without a leading
/// zero.
pub open spec fn parse_u64(s: Seq<char>, pos: int) -> Option<(u64, int)> {
    if 0 <= pos < s.len() && is_digit(s[pos]) {
        if s[pos] == '0' {
            Some((0u64, pos + 1))
        } else {
            parse_u64_digits(s, pos, 0u64)
        }
    } else {
        None
    }
}

pub open spec fn parse_u32(s: Seq<char>, pos: int) -> Option<(u32, int)> {
    match parse_u64(s, pos) {
        Some(p) => if p.0 <= u32::MAX as u64 {
            Some((p.0 as u32, p.1))
        } else {
            None
        },
        None => None,
    }
}

/// A canonical decimal `i64`, an optional minus sign before the magnitude.
pub open spec fn parse_i64(s: Seq<char>, pos: int) -> Option<(i64, int)> {
    if 0 <= pos < s.len() && s[pos] == '-' {
        match parse_u64(s, pos + 1) {
            Some(p) => if 0 < p.0 <= i64::MAX as u64 + 1 {
                Some(((-(p.0 as int)) as i64, p.1))
            } else {
                None
            },
            None => None,
        }
    } else {
        match parse_u64(s, pos) {
            Some(p) => if p.0 <= i64::MAX as u64 {
                Some((p.0 as i64, p.1))
            } else {
                None
            },
            None => None,
        }
    }
}

/// Any successful parse lands inside the text, past where it began.
pub proof fn lemma_string_body_bounds(s: Seq<char>, pos: int)
    ensures
        parse_string_body(s, pos) matches Some(p) ==> pos < p.1 <= s.len(),
    decreases s.len() - pos,
{
    if 0 <= pos < s.len() {
        if s[pos] == '"' {
        } else if s[pos] == '\\' {
            if pos + 1 < s.len() && (s[pos + 1] == '"' || s[pos + 1] == '\\') {
                lemma_string_body_bounds(s, pos + 2);
            }
        } else {
            lemma_string_body_bounds(s, pos + 1);
        }
    }
}

pub proof fn lemma_u64_digits_bounds(s: Seq<char>, pos: int, acc: u64)
    requires
        0 <= pos <= s.len(),
    ensures
        parse_u64_digits(s, pos, acc) matches Some(p) ==> pos <= p.1 <= s.len(),
    decreases s.len() - pos,
{
    if 0 <= pos < s.len() && is_digit(s[pos]) {
        if !(acc as int * 10 + digit_val(s[pos]) > u64::MAX as int) {
            lemma_u64_digits_bounds(s, pos + 1, (acc as int * 10 + digit_val(s[pos])) as u64);
        }
    }
}

/// Executable twin of `parse_lit`, for a literal given as `&str`.
#[verifier::loop_isolation(false)]
pub fn parse_lit_exec(s: &Vec<char>, pos: usize, lit: &str) -> (r: Option<usize>)
    ensures
        match r {
            Some(p) => parse_lit(s@, pos as int, lit@) == Some(p as int) && p <= s@.len(),
            None => parse_lit(s@, pos as int, lit@) is None,
        },
{
    let n = lit.unicode_len();
    if n > s.len() || pos > s.len() - n {
        proof {
            assert(parse_lit(s@, pos as int, lit@) is None);
        }
        return None;
    }
    let mut k: usize = 0;
    while k < n
        invariant
            k <= n,
            n == lit@.len(),
            pos + n <= s@.len(),
            s@.subrange(pos as int, pos + k as int) == lit@.subrange(0, k as int),
        decreases n - k,
    {
        if s[pos + k] != lit.get_char(k) {
            proof {
                assert(s@.subrange(pos as int, pos + n as int)[k as int] != lit@[k as int]);
            }
            return None;
        }
        proof {
            assert(s@.subrange(pos as int, pos + k as int + 1) == s@.subrange(
                pos as int,
                pos + k as int,
            ).push(s@[pos + k]));
            assert(lit@.subrange(0, k as int + 1) == lit@.subrange(0, k as int).push(
                lit@[k as int],
            ));
        }
        k += 1;
    }
    proof {
        assert(lit@.subrange(0, n as int) == lit@);
        assert(s@.subrange(pos as int, pos + n as int) == lit@);
    }
    Some(pos + n)
}

/// Executable twin of `parse_string` (including the opening quote).
pub fn parse_string_exec(s: &Vec<char>, pos: usize) -> (r: Option<(String, usize)>)
    ensures
        match r {
            Some(p) => parse_string(s@, pos as int) == Some((p.0@, p.1 as int)) && p.1 <= s@.len(),
            None => parse_string(s@, pos as int) is None,
        },
{
    if pos < s.len() && s[pos] == '"' {
        parse_string_body_exec(s, pos + 1)
    } else {
        None
    }
}

fn parse_string_body_exec(s: &Vec<char>, pos: usize) -> (r: Option<(String, usize)>)
    ensures
        match r {
            Some(p) => parse_string_body(s@, pos as int) == Some((p.0@, p.1 as int)) && p.1
                <= s@.len(),
            None => parse_string_body(s@, pos as int) is None,
        },
    decreases s@.len() - pos,
{
    if pos >= s.len() {
        return None;
    }
    let c = s[pos];
    if c == '"' {
        let out = String::new();
        proof {
            assert(out@ == Seq::<char>::empty());
        }
        Some((out, pos + 1))
    } else if c == '\\' {
        if pos + 1 < s.len() && (s[pos + 1] == '"' || s[pos + 1] == '\\') {
            match parse_string_body_exec(s, pos + 2) {
                Some((rest, p2)) => {
                    let mut out = String::new();
                    out.push(s[pos + 1]);
                    out.append(rest.as_str());
                    proof {
                        assert(out@ == seq![s@[pos + 1]] + rest@);
                    }
                    Some((out, p2))
                },
                None => None,
            }
        } else {
            None
        }
    } else {
        match parse_string_body_exec(s, pos + 1) {
            Some((rest, p2)) => {
                let mut out = String::new();
                out.push(c);
                out.append(rest.as_str());
                proof {
                    assert(out@ == seq![s@[pos as int]] + rest@);
                }
                Some((out, p2))
            },
            None => None,
        }
    }
}

fn parse_u64_digits_exec(s: &Vec<char>, pos: usize, acc: u64) -> (r: Option<(u64, usize)>)
    requires
        pos <= s@.len(),
    ensures
        match r {
            Some(p) => parse_u64_digits(s@, pos as int, acc) == Some((p.0, p.1 as int)) && p.1
                <= s@.len(),
            None => parse_u64_digits(s@, pos as int, acc) is None,
        },
    decreases s@.len() - pos,
{
    if pos < s.len() && '0' <= s[pos] && s[pos] <= '9' {
        let d = (s[pos] as u32 - '0' as u32) as u64;
        proof {
            assert(d == digit_val(s@[pos as int]));
        }
        if acc > (u64::MAX - d) / 10 {
            proof {
                assert(acc as int * 10 + d > u64::MAX as int) by (nonlinear_arith)
                    requires
                        acc > (u64::MAX - d) / 10,
                        d <= 9,
                ;
            }
            None
        } else {
            proof {
                assert(acc as int * 10 + d <= u64::MAX as int) by (nonlinear_arith)
                    requires
                        acc <= (u64::MAX - d) / 10,
                        d <= 9,
                ;
            }
            parse_u64_digits_exec(s, pos + 1, acc * 10 + d)
        }
    } else {
        Some((acc, pos))
    }
}

/// Executable twin of `parse_u64`.
pub fn parse_u64_exec(s: &Vec<char>, pos: usize) -> (r: Option<(u64, usize)>)
    ensures
        match r {
            Some(p) => parse_u64(s@, pos as int) == Some((p.0, p.1 as int)) && p.1 <= s@.len(),
            None => parse_u64(s@, pos as int) is None,
        },
{
    if pos < s.len() && '0' <= s[pos] && s[pos] <= '9' {
        if s[pos] == '0' {
            Some((0, pos + 1))
        } else {
            parse_u64_digits_exec(s, pos, 0)
        }
    } else {
        None
    }
}

/// Executable twin of `parse_u32`.
pub fn parse_u32_exec(s: &Vec<char>, pos: usize) -> (r: Option<(u32, usize)>)
    ensures
        match r {
            Some(p) => parse_u32(s@, pos as int) == Some((p.0, p.1 as int)) && p.1 <= s@.len(),
            None => parse_u32(s@, pos as int) is None,
        },
{
    match parse_u64_exec(s, pos) {
        Some((v, p)) => {
            if v <= u32::MAX as u64 {
                Some((v as u32, p))
            } else {
                None
            }
        },
        None => None,
    }
}

/// Executable twin of `parse_i64`.
pub fn parse_i64_exec(s: &Vec<char>, pos: usize) -> (r: Option<(i64, usize)>)
    ensures
        match r {
            Some(p) => parse_i64(s@, pos as int) == Some((p.0, p.1 as int)) && p.1 <= s@.len(),
            None => parse_i64(s@, pos as int) is None,
        },
{
    if pos < s.len() && s[pos] == '-' {
        match parse_u64_exec(s, pos + 1) {
            Some((v, p)) => {
                if 0 < v && v <= i64::MAX as u64 + 1 {
                    let m = (v - 1) as i64;
                    Some(((-m) - 1, p))
                } else {
                    None
                }
            },
            None => None,
        }
    } else {
        match parse_u64_exec(s, pos) {
            Some((v, p)) => {
                if v <= i64::MAX as u64 {
                    Some((v as i64, p))
                } else {
                    None
                }
            },
            None => None,
        }
    }
}

/// The characters of a string, for position-indexed parsing.
pub fn str_to_chars(s: &str) -> (v: Vec<char>)
    ensures
        v@ == s@,
{
    let n = s.unicode_len();
    let mut v: Vec<char> = Vec::new();
    let mut k: usize = 0;
    while k < n
        invariant
            k <= n,
            n == s@.len(),
            v@ == s@.subrange(0, k as int),
        decreases n - k,
    {
        v.push(s.get_char(k));
        proof {
            assert(s@.subrange(0, k as int + 1) == s@.subrange(0, k as int).push(s@[k as int]));
        }
        k += 1;
    }
    proof {
        assert(s@.subrange(0, n as int) == s@);
    }
    v
}


/// Ghost image of one log record: every field at view level.
pub struct LogItemView {
    pub name: Seq<char>,
    pub tags: Seq<Seq<char>>,
    pub status: ExecutionStatus,
    pub cache: Option<CacheHit>,
    pub exec_ms: Option<u32>,
    pub total_ms: Option<u32>,
    pub output_size: Option<u64>,
    pub measurements: Seq<(Seq<char>, MeasurementView)>,
}

pub enum MeasurementView {
    Int(i64),
    Str(Seq<char>),
}

pub open spec fn value_view(v: MeasurementValue) -> MeasurementView {
    match v {
        MeasurementValue::Int(i) => MeasurementView::Int(i),
        MeasurementValue::Str(t) => MeasurementView::Str(t@),
    }
}

pub open spec fn item_view(i: LogFileItem) -> LogItemView {
    LogItemView {
        name: i.name@,
        tags: i.tags@.map_values(|t: String| t@),
        status: i.status,
        cache: i.cache,
        exec_ms: i.exec_ms,
        total_ms: i.total_ms,
        output_size: i.output_size,
        measurements: i.measurements@.map_values(
            |m: Measurement| (m.key@, value_view(m.value)),
        ),
    }
}

pub open spec fn log_view(items: Seq<LogFileItem>) -> Seq<LogItemView> {
    items.map_values(|i: LogFileItem| item_view(i))
}

pub open spec fn parse_status(s: Seq<char>, pos: int) -> Option<(ExecutionStatus, int)> {
    if parse_lit(s, pos, "\"NotStarted\""@) is Some {
        Some((ExecutionStatus::NotStarted, parse_lit(s, pos, "\"NotStarted\""@)->0))
    } else if parse_lit(s, pos, "\"Skipped\""@) is Some {
        Some((ExecutionStatus::Skipped, parse_lit(s, pos, "\"Skipped\""@)->0))
    } else if parse_lit(s, pos, "\"Success\""@) is Some {
        Some((ExecutionStatus::Success, parse_lit(s, pos, "\"Success\""@)->0))
    } else if parse_lit(s, pos, "\"Failed\""@) is Some {
        Some((ExecutionStatus::Failed, parse_lit(s, pos, "\"Failed\""@)->0))
    } else {
        None
    }
}

pub open spec fn parse_cache_value(s: Seq<char>, pos: int) -> Option<(CacheHit, int)> {
    if parse_lit(s, pos, "\"Local\""@) is Some {
        Some((CacheHit::Local, parse_lit(s, pos, "\"Local\""@)->0))
    } else if parse_lit(s, pos, "\"Remote\""@) is Some {
        Some((CacheHit::Remote, parse_lit(s, pos, "\"Remote\""@)->0))
    } else if parse_lit(s, pos, "\"Mixed\""@) is Some {
        Some((CacheHit::Mixed, parse_lit(s, pos, "\"Mixed\""@)->0))
    } else {
        None
    }
}

/// After the first string of a list: `,` string ... `]`.
pub open spec fn parse_string_list_rest(s: Seq<char>, pos: int) -> Option<(Seq<Seq<char>>, int)>
    decreases s.len() - pos,
    when 0 <= pos <= s.len()
    via parse_string_list_rest_dec
{
    if pos < s.len() && s[pos] == ']' {
        Some((Seq::empty(), pos + 1))
    } else if pos < s.len() && s[pos] == ',' {
        match parse_string(s, pos + 1) {
            Some(p) => match parse_string_list_rest(s, p.1) {
                Some(q) => Some((seq![p.0] + q.0, q.1)),
                None => None,
            },
            None => None,
        }
    } else {
        None
    }
}

#[via_fn]
proof fn parse_string_list_rest_dec(s: Seq<char>, pos: int) {
    if pos < s.len() && s[pos] != ']' && s[pos] == ',' {
        lemma_string_body_bounds(s, pos + 2);
    }
}

/// A measurement value: a string or a decimal integer.
pub open spec fn parse_value(s: Seq<char>, pos: int) -> Option<(MeasurementView, int)> {
    if 0 <= pos < s.len() && s[pos] == '"' {
        match parse_string(s, pos) {
            Some(p) => Some((MeasurementView::Str(p.0), p.1)),
            None => None,
        }
    } else {
        match parse_i64(s, pos) {
            Some(p) => Some((MeasurementView::Int(p.0), p.1)),
            None => None,
        }
    }
}

pub open spec fn parse_pair(s: Seq<char>, pos: int) -> Option<((Seq<char>, MeasurementView), int)> {
    match parse_string(s, pos) {
        Some(p) => match parse_lit(s, p.1, ":"@) {
            Some(p2) => match parse_value(s, p2) {
                Some(p3) => Some(((p.0, p3.0), p3.1)),
                None => None,
            },
            None => None,
        },
        None => None,
    }
}

pub proof fn lemma_pair_bounds(s: Seq<char>, pos: int)
    ensures
        parse_pair(s, pos) matches Some(p) ==> pos < p.1 <= s.len(),
{
    if parse_pair(s, pos) is Some {
        lemma_string_body_bounds(s, pos + 1);
        let p = parse_string(s, pos)->0;
        let p2 = parse_lit(s, p.1, ":"@)->0;
        if p2 < s.len() && s[p2] == '"' {
            lemma_string_body_bounds(s, p2 + 1);
        } else {
            if p2 < s.len() && s[p2] == '-' {
                lemma_u64_digits_bounds(s, p2 + 1, 0);
            } else {
                lemma_u64_digits_bounds(s, p2, 0);
            }
        }
    }
}

/// After the first pair of a measurements object: `,` pair ... `}`.
pub open spec fn parse_pair_list_rest(s: Seq<char>, pos: int) -> Option<
    (Seq<(Seq<char>, MeasurementView)>, int),
>
    decreases s.len() - pos,
    when 0 <= pos <= s.len()
    via parse_pair_list_rest_dec
{
    if pos < s.len() && s[pos] == '}' {
        Some((Seq::empty(), pos + 1))
    } else if pos < s.len() && s[pos] == ',' {
        match parse_pair(s, pos + 1) {
            Some(p) => match parse_pair_list_rest(s, p.1) {
                Some(q) => Some((seq![p.0] + q.0, q.1)),
                None => None,
            },
            None => None,
        }
    } else {
        None
    }
}

#[via_fn]
proof fn parse_pair_list_rest_dec(s: Seq<char>, pos: int) {
    if pos < s.len() && s[pos] != '}' && s[pos] == ',' {
        lemma_pair_bounds(s, pos + 1);
    }
}

pub open spec fn parse_opt_tags(s: Seq<char>, pos: int) -> Option<(Seq<Seq<char>>, int)> {
    match parse_lit(s, pos, ",\"tags\":["@) {
        Some(p) => match parse_string(s, p) {
            Some(p2) => match parse_string_list_rest(s, p2.1) {
                Some(q) => Some((seq![p2.0] + q.0, q.1)),
                None => None,
            },
            None => None,
        },
        None => Some((Seq::empty(), pos)),
    }
}

pub open spec fn parse_opt_cache(s: Seq<char>, pos: int) -> Option<(Option<CacheHit>, int)> {
    match parse_lit(s, pos, ",\"cache\":"@) {
        Some(p) => match parse_cache_value(s, p) {
            Some(p2) => Some((Some(p2.0), p2.1)),
            None => None,
        },
        None => Some((None, pos)),
    }
}

pub open spec fn parse_opt_millis(s: Seq<char>, pos: int, field: Seq<char>) -> Option<
    (Option<u32>, int),
> {
    match parse_lit(s, pos, field) {
        Some(p) => match parse_u32(s, p) {
            Some(p2) => Some((Some(p2.0), p2.1)),
            None => None,
        },
        None => Some((None, pos)),
    }
}

pub open spec fn parse_output_size(s: Seq<char>, pos: int) -> Option<(Option<u64>, int)> {
    match parse_lit(s, pos, ",\"output_size\":"@) {
        Some(p) => if parse_lit(s, p, "null"@) is Some {
            Some((None, parse_lit(s, p, "null"@)->0))
        } else {
            match parse_u64(s, p) {
                Some(p2) => Some((Some(p2.0), p2.1)),
                None => None,
            }
        },
        None => None,
    }
}

pub open spec fn parse_opt_measurements(s: Seq<char>, pos: int) -> Option<
    (Seq<(Seq<char>, MeasurementView)>, int),
> {
    match parse_lit(s, pos, ",\"measurements\":{"@) {
        Some(p) => match parse_pair(s, p) {
            Some(p2) => match parse_pair_list_rest(s, p2.1) {
                Some(q) => Some((seq![p2.0] + q.0, q.1)),
                None => None,
            },
            None => None,
        },
        None => Some((Seq::empty(), pos)),
    }
}

/// One record. Fields appear in a fixed order; `tags`, `cache`, `exec`,
/// `total` and `measurements` are omitted when absent or empty, and
/// `output_size` is `null` when unknown.
pub open spec fn parse_item(s: Seq<char>, pos: int) -> Option<(LogItemView, int)> {
    match parse_lit(s, pos, "{\"name\":"@) {
        Some(p1) => match parse_string(s, p1) {
            Some(name) => match parse_opt_tags(s, name.1) {
                Some(tags) => match parse_lit(s, tags.1, ",\"status\":"@) {
                    Some(p4) => match parse_status(s, p4) {
                        Some(st) => match parse_opt_cache(s, st.1) {
                            Some(ca) => match parse_opt_millis(s, ca.1, ",\"exec\":"@) {
                                Some(ex) => match parse_opt_millis(s, ex.1, ",\"total\":"@) {
                                    Some(to) => match parse_output_size(s, to.1) {
                                        Some(os) => match parse_opt_measurements(s, os.1) {
                                            Some(ms) => match parse_lit(s, ms.1, "}"@) {
                                                Some(p11) => Some(
                                                    (
                                                        LogItemView {
                                                            name: name.0,
                                                            tags: tags.0,
                                                            status: st.0,
                                                            cache: ca.0,
                                                            exec_ms: ex.0,
                                                            total_ms: to.0,
                                                            output_size: os.0,
                                                            measurements: ms.0,
                                                        },
                                                        p11,
                                                    ),
                                                ),
                                                None => None,
                                            },
                                            None => None,
                                        },
                                        None => None,
                                    },
                                    None => None,
                                },
                                None => None,
                            },
                            None => None,
                        },
                        None => None,
                    },
                    None => None,
                },
                None => None,
            },
            None => None,
        },
        None => None,
    }
}

pub proof fn lemma_string_list_rest_bounds(s: Seq<char>, pos: int)
    requires
        0 <= pos <= s.len(),
    ensures
        parse_string_list_rest(s, pos) matches Some(p) ==> pos < p.1 <= s.len(),
    decreases s.len() - pos,
{
    if pos < s.len() && s[pos] != ']' && s[pos] == ',' {
        lemma_string_body_bounds(s, pos + 2);
        if parse_string(s, pos + 1) is Some {
            let p = parse_string(s, pos + 1)->0;
            lemma_string_list_rest_bounds(s, p.1);
        }
    }
}

pub proof fn lemma_pair_list_rest_bounds(s: Seq<char>, pos: int)
    requires
        0 <= pos <= s.len(),
    ensures
        parse_pair_list_rest(s, pos) matches Some(p) ==> pos < p.1 <= s.len(),
    decreases s.len() - pos,
{
    if pos < s.len() && s[pos] != '}' && s[pos] == ',' {
        lemma_pair_bounds(s, pos + 1);
        if parse_pair(s, pos + 1) is Some {
            let p = parse_pair(s, pos + 1)->0;
            lemma_pair_list_rest_bounds(s, p.1);
        }
    }
}

pub proof fn lemma_item_bounds(s: Seq<char>, pos: int)
    ensures
        parse_item(s, pos) matches Some(p) ==> pos < p.1 <= s.len(),
{
    if parse_item(s, pos) is Some {
        let p1 = parse_lit(s, pos, "{\"name\":"@)->0;
        lemma_string_body_bounds(s, p1 + 1);
        let name = parse_string(s, p1)->0;
        if parse_lit(s, name.1, ",\"tags\":["@) is Some {
            let pt = parse_lit(s, name.1, ",\"tags\":["@)->0;
            lemma_string_body_bounds(s, pt + 1);
            let p2 = parse_string(s, pt)->0;
            lemma_string_list_rest_bounds(s, p2.1);
        }
        let tags = parse_opt_tags(s, name.1)->0;
        let p4 = parse_lit(s, tags.1, ",\"status\":"@)->0;
        let st = parse_status(s, p4)->0;
        let ca = parse_opt_cache(s, st.1)->0;
        if parse_lit(s, ca.1, ",\"exec\":"@) is Some {
            let pe = parse_lit(s, ca.1, ",\"exec\":"@)->0;
            if pe < s.len() && is_digit(s[pe]) && s[pe] != '0' {
                lemma_u64_digits_bounds(s, pe, 0);
            }
        }
        let ex = parse_opt_millis(s, ca.1, ",\"exec\":"@)->0;
        if parse_lit(s, ex.1, ",\"total\":"@) is Some {
            let pe = parse_lit(s, ex.1, ",\"total\":"@)->0;
            if pe < s.len() && is_digit(s[pe]) && s[pe] != '0' {
                lemma_u64_digits_bounds(s, pe, 0);
            }
        }
        let to = parse_opt_millis(s, ex.1, ",\"total\":"@)->0;
        let po = parse_lit(s, to.1, ",\"output_size\":"@)->0;
        if !(parse_lit(s, po, "null"@) is Some) {
            if po < s.len() && is_digit(s[po]) && s[po] != '0' {
                lemma_u64_digits_bounds(s, po, 0);
            }
        }
        let os = parse_output_size(s, to.1)->0;
        if parse_lit(s, os.1, ",\"measurements\":{"@) is Some {
            let pm = parse_lit(s, os.1, ",\"measurements\":{"@)->0;
            lemma_pair_bounds(s, pm);
            let pr = parse_pair(s, pm)->0;
            lemma_pair_list_rest_bounds(s, pr.1);
        }
    }
}

/// After the first item of the array: `,` item ... `]`.
pub open spec fn parse_items_rest(s: Seq<char>, pos: int) -> Option<(Seq<LogItemView>, int)>
    decreases s.len() - pos,
    when 0 <= pos <= s.len()
    via parse_items_rest_dec
{
    if pos < s.len() && s[pos] == ']' {
        Some((Seq::empty(), pos + 1))
    } else if pos < s.len() && s[pos] == ',' {
        match parse_item(s, pos + 1) {
            Some(p) => match parse_items_rest(s, p.1) {
                Some(q) => Some((seq![p.0] + q.0, q.1)),
                None => None,
            },
            None => None,
        }
    } else {
        None
    }
}

#[via_fn]
proof fn parse_items_rest_dec(s: Seq<char>, pos: int) {
    if pos < s.len() && s[pos] != ']' && s[pos] == ',' {
        lemma_item_bounds(s, pos + 1);
    }
}

/// The whole document: a JSON array of records, consuming all input.
pub open spec fn parse_log(s: Seq<char>) -> Option<Seq<LogItemView>> {
    if s == "[]"@ {
        Some(Seq::empty())
    } else {
        match parse_lit(s, 0, "["@) {
            Some(p0) => match parse_item(s, p0) {
                Some(p1) => match parse_items_rest(s, p1.1) {
                    Some(p2) => if p2.1 == s.len() {
                        Some(seq![p1.0] + p2.0)
                    } else {
                        None
                    },
                    None => None,
                },
                None => None,
            },
            None => None,
        }
    }
}


fn parse_status_exec(s: &Vec<char>, pos: usize) -> (r: Option<(ExecutionStatus, usize)>)
    ensures
        match r {
            Some(p) => parse_status(s@, pos as int) == Some((p.0, p.1 as int)) && p.1 <= s@.len(),
            None => parse_status(s@, pos as int) is None,
        },
{
    match parse_lit_exec(s, pos, "\"NotStarted\"") {
        Some(p) => Some((ExecutionStatus::NotStarted, p)),
        None => match parse_lit_exec(s, pos, "\"Skipped\"") {
            Some(p) => Some((ExecutionStatus::Skipped, p)),
            None => match parse_lit_exec(s, pos, "\"Success\"") {
                Some(p) => Some((ExecutionStatus::Success, p)),
                None => match parse_lit_exec(s, pos, "\"Failed\"") {
                    Some(p) => Some((ExecutionStatus::Failed, p)),
                    None => None,
                },
            },
        },
    }
}

fn parse_cache_value_exec(s: &Vec<char>, pos: usize) -> (r: Option<(CacheHit, usize)>)
    ensures
        match r {
            Some(p) => parse_cache_value(s@, pos as int) == Some((p.0, p.1 as int)) && p.1
                <= s@.len(),
            None => parse_cache_value(s@, pos as int) is None,
        },
{
    match parse_lit_exec(s, pos, "\"Local\"") {
        Some(p) => Some((CacheHit::Local, p)),
        None => match parse_lit_exec(s, pos, "\"Remote\"") {
            Some(p) => Some((CacheHit::Remote, p)),
            None => match parse_lit_exec(s, pos, "\"Mixed\"") {
                Some(p) => Some((CacheHit::Mixed, p)),
                None => None,
            },
        },
    }
}

pub(crate) fn parse_string_list_rest_exec(s: &Vec<char>, pos: usize) -> (r: Option<(Vec<String>, usize)>)
    requires
        pos <= s@.len(),
    ensures
        match r {
            Some(p) => parse_string_list_rest(s@, pos as int) == Some(
                (p.0@.map_values(|t: String| t@), p.1 as int),
            ) && p.1 <= s@.len(),
            None => parse_string_list_rest(s@, pos as int) is None,
        },
    decreases s@.len() - pos,
{
    if pos < s.len() && s[pos] == ']' {
        let out: Vec<String> = Vec::new();
        proof {
            assert(out@.map_values(|t: String| t@) =~= Seq::<Seq<char>>::empty());
        }
        Some((out, pos + 1))
    } else if pos < s.len() && s[pos] == ',' {
        match parse_string_exec(s, pos + 1) {
            Some((t, p2)) => {
                proof {
                    lemma_string_body_bounds(s@, pos + 2);
                }
                match parse_string_list_rest_exec(s, p2) {
                    Some((mut rest, p3)) => {
                        let ghost rest_view = rest@;
                        let mut out: Vec<String> = Vec::new();
                        out.push(t);
                        out.append(&mut rest);
                        proof {
                            assert(out@.map_values(|t2: String| t2@) =~= seq![t@]
                                + rest_view.map_values(|t2: String| t2@));
                        }
                        Some((out, p3))
                    },
                    None => None,
                }
            },
            None => None,
        }
    } else {
        None
    }
}

fn parse_value_exec(s: &Vec<char>, pos: usize) -> (r: Option<(MeasurementValue, usize)>)
    ensures
        match r {
            Some(p) => parse_value(s@, pos as int) == Some((value_view(p.0), p.1 as int)) && p.1
                <= s@.len(),
            None => parse_value(s@, pos as int) is None,
        },
{
    if pos < s.len() && s[pos] == '"' {
        match parse_string_exec(s, pos) {
            Some((t, p)) => Some((MeasurementValue::Str(t), p)),
            None => None,
        }
    } else {
        match parse_i64_exec(s, pos) {
            Some((v, p)) => Some((MeasurementValue::Int(v), p)),
            None => None,
        }
    }
}

fn parse_pair_exec(s: &Vec<char>, pos: usize) -> (r: Option<(Measurement, usize)>)
    ensures
        match r {
            Some(p) => parse_pair(s@, pos as int) == Some(
                ((p.0.key@, value_view(p.0.value)), p.1 as int),
            ) && p.1 <= s@.len(),
            None => parse_pair(s@, pos as int) is None,
        },
{
    match parse_string_exec(s, pos) {
        Some((key, p1)) => match parse_lit_exec(s, p1, ":") {
            Some(p2) => match parse_value_exec(s, p2) {
                Some((value, p3)) => Some((Measurement { key, value }, p3)),
                None => None,
            },
            None => None,
        },
        None => None,
    }
}

fn parse_pair_list_rest_exec(s: &Vec<char>, pos: usize) -> (r: Option<(Vec<Measurement>, usize)>)
    requires
        pos <= s@.len(),
    ensures
        match r {
            Some(p) => parse_pair_list_rest(s@, pos as int) == Some(
                (p.0@.map_values(|m: Measurement| (m.key@, value_view(m.value))), p.1 as int),
            ) && p.1 <= s@.len(),
            None => parse_pair_list_rest(s@, pos as int) is None,
        },
    decreases s@.len() - pos,
{
    if pos < s.len() && s[pos] == '}' {
        let out: Vec<Measurement> = Vec::new();
        proof {
            assert(out@.map_values(|m: Measurement| (m.key@, value_view(m.value))) =~= Seq::<
                (Seq<char>, MeasurementView),
            >::empty());
        }
        Some((out, pos + 1))
    } else if pos < s.len() && s[pos] == ',' {
        match parse_pair_exec(s, pos + 1) {
            Some((m, p2)) => {
                proof {
                    lemma_pair_bounds(s@, pos + 1);
                }
                match parse_pair_list_rest_exec(s, p2) {
                    Some((mut rest, p3)) => {
                        let ghost mview = (m.key@, value_view(m.value));
                        let ghost rest_view = rest@;
                        let mut out: Vec<Measurement> = Vec::new();
                        out.push(m);
                        out.append(&mut rest);
                        proof {
                            assert(out@.map_values(|m2: Measurement| (m2.key@, value_view(
                                m2.value,
                            ))) =~= seq![mview] + rest_view.map_values(|m2: Measurement| (m2.key@,
                            value_view(m2.value))));
                        }
                        Some((out, p3))
                    },
                    None => None,
                }
            },
            None => None,
        }
    } else {
        None
    }
}

/// One record, mirrored from the grammar; returns the parsed item and the
/// position after it.
#[verifier::rlimit(100)]
fn parse_item_exec(s: &Vec<char>, pos: usize) -> (r: Option<(LogFileItem, usize)>)
    ensures
        match r {
            Some(p) => parse_item(s@, pos as int) == Some((item_view(p.0), p.1 as int))
                && pos < p.1 <= s@.len(),
            None => parse_item(s@, pos as int) is None,
        },
{
    let p1 = match parse_lit_exec(s, pos, "{\"name\":") {
        Some(p) => p,
        None => {
            return None;
        },
    };
    let (name, p2) = match parse_string_exec(s, p1) {
        Some(x) => x,
        None => {
            return None;
        },
    };
    let (tags, p3) = match parse_lit_exec(s, p2, ",\"tags\":[") {
        Some(pt) => {
            proof {
                lemma_string_body_bounds(s@, pt + 1);
            }
            match parse_string_exec(s, pt) {
                Some((t0, pt2)) => match parse_string_list_rest_exec(s, pt2) {
                    Some((mut rest, pt3)) => {
                        let ghost rest_view = rest@;
                        let mut out: Vec<String> = Vec::new();
                        out.push(t0);
                        out.append(&mut rest);
                        proof {
                            assert(out@.map_values(|t2: String| t2@) =~= seq![t0@]
                                + rest_view.map_values(|t2: String| t2@));
                        }
                        (out, pt3)
                    },
                    None => {
                        return None;
                    },
                },
                None => {
                    return None;
                },
            }
        },
        None => (Vec::new(), p2),
    };
    proof {
        assert(parse_opt_tags(s@, p2 as int) == Some(
            (tags@.map_values(|t2: String| t2@), p3 as int),
        ));
    }
    let p4 = match parse_lit_exec(s, p3, ",\"status\":") {
        Some(p) => p,
        None => {
            return None;
        },
    };
    let (status, p5) = match parse_status_exec(s, p4) {
        Some(x) => x,
        None => {
            return None;
        },
    };
    let (cache, p6) = match parse_lit_exec(s, p5, ",\"cache\":") {
        Some(pc) => match parse_cache_value_exec(s, pc) {
            Some((cv, pc2)) => (Some(cv), pc2),
            None => {
                return None;
            },
        },
        None => (None, p5),
    };
    let (exec_ms, p7) = match parse_lit_exec(s, p6, ",\"exec\":") {
        Some(pe) => match parse_u32_exec(s, pe) {
            Some((v, pe2)) => (Some(v), pe2),
            None => {
                return None;
            },
        },
        None => (None, p6),
    };
    let (total_ms, p8) = match parse_lit_exec(s, p7, ",\"total\":") {
        Some(pe) => match parse_u32_exec(s, pe) {
            Some((v, pe2)) => (Some(v), pe2),
            None => {
                return None;
            },
        },
        None => (None, p7),
    };
    let (output_size, p9) = match parse_lit_exec(s, p8, ",\"output_size\":") {
        Some(po) => match parse_lit_exec(s, po, "null") {
            Some(po2) => (None, po2),
            None => match parse_u64_exec(s, po) {
                Some((v, po2)) => (Some(v), po2),
                None => {
                    return None;
                },
            },
        },
        None => {
            return None;
        },
    };
    let (measurements, p10) = match parse_lit_exec(s, p9, ",\"measurements\":{") {
        Some(pm) => {
            proof {
                lemma_pair_bounds(s@, pm as int);
            }
            match parse_pair_exec(s, pm) {
                Some((m0, pm2)) => match parse_pair_list_rest_exec(s, pm2) {
                    Some((mut rest, pm3)) => {
                        let ghost m0view = (m0.key@, value_view(m0.value));
                        let ghost rest_view = rest@;
                        let mut out: Vec<Measurement> = Vec::new();
                        out.push(m0);
                        out.append(&mut rest);
                        proof {
                            assert(out@.map_values(|m2: Measurement| (m2.key@, value_view(
                                m2.value,
                            ))) =~= seq![m0view] + rest_view.map_values(|m2: Measurement| (m2.key@,
                            value_view(m2.value))));
                        }
                        (out, pm3)
                    },
                    None => {
                        return None;
                    },
                },
                None => {
                    return None;
                },
            }
        },
        None => (Vec::new(), p9),
    };
    proof {
        assert(parse_opt_measurements(s@, p9 as int) == Some(
            (measurements@.map_values(|m2: Measurement| (m2.key@, value_view(m2.value))),
            p10 as int),
        ));
    }
    let p11 = match parse_lit_exec(s, p10, "}") {
        Some(p) => p,
        None => {
            return None;
        },
    };
    let item = LogFileItem { name, tags, status, cache, exec_ms, total_ms, output_size,
        measurements };
    proof {
        lemma_item_bounds(s@, pos as int);
    }
    Some((item, p11))
}

fn parse_items_rest_exec(s: &Vec<char>, pos: usize) -> (r: Option<(Vec<LogFileItem>, usize)>)
    requires
        pos <= s@.len(),
    ensures
        match r {
            Some(p) => parse_items_rest(s@, pos as int) == Some((log_view(p.0@), p.1 as int))
                && p.1 <= s@.len(),
            None => parse_items_rest(s@, pos as int) is None,
        },
    decreases s@.len() - pos,
{
    if pos < s.len() && s[pos] == ']' {
        let out: Vec<LogFileItem> = Vec::new();
        proof {
            assert(log_view(out@) =~= Seq::<LogItemView>::empty());
        }
        Some((out, pos + 1))
    } else if pos < s.len() && s[pos] == ',' {
        match parse_item_exec(s, pos + 1) {
            Some((it, p2)) => {
                match parse_items_rest_exec(s, p2) {
                    Some((mut rest, p3)) => {
                        let ghost iview = item_view(it);
                        let ghost rest_view = rest@;
                        let mut out: Vec<LogFileItem> = Vec::new();
                        out.push(it);
                        out.append(&mut rest);
                        proof {
                            assert(log_view(out@) =~= seq![iview] + log_view(rest_view));
                        }
                        Some((out, p3))
                    },
                    None => None,
                }
            },
            None => None,
        }
    } else {
        None
    }
}

/// The document could not be parsed as a result-log.
#[derive(Copy, Clone, Debug, PartialEq, Eq, Structural)]
pub struct LogParseError {}

/// The log could not be rendered into text that parses back to itself.
#[derive(Copy, Clone, Debug, PartialEq, Eq, Structural)]
pub struct LogWriteError {}

/// Loads a result-log document. Succeeds exactly on texts that the grammar
/// accepts, returning precisely the recorded items.
pub fn log_from_text(text: &str) -> (r: Result<LogFile, LogParseError>)
    ensures
        r matches Ok(l) ==> parse_log(text@) == Some(log_view(l.items@)),
        r is Err ==> parse_log(text@) is None,
{
    let chars = str_to_chars(text);
    if chars.len() == 2 && chars[0] == '[' && chars[1] == ']' {
        proof {
            reveal_strlit("[]");
            assert(text@ =~= "[]"@);
        }
        let empty = LogFile { items: Vec::new() };
        proof {
            assert(log_view(empty.items@) =~= Seq::<LogItemView>::empty());
        }
        return Ok(empty);
    }
    proof {
        reveal_strlit("[]");
        assert(text@ != "[]"@) by {
            if text@ == "[]"@ {
                assert(chars@.len() == 2 && chars@[0] == '[' && chars@[1] == ']');
            }
        }
    }
    match parse_lit_exec(&chars, 0, "[") {
        Some(p0) => match parse_item_exec(&chars, p0) {
            Some((it, p1)) => match parse_items_rest_exec(&chars, p1) {
                Some((mut rest, p2)) => {
                    if p2 == chars.len() {
                        let ghost iview = item_view(it);
                        let ghost rest_view = rest@;
                        let mut items: Vec<LogFileItem> = Vec::new();
                        items.push(it);
                        items.append(&mut rest);
                        proof {
                            assert(log_view(items@) =~= seq![iview] + log_view(rest_view));
                        }
                        Ok(LogFile { items })
                    } else {
                        Err(LogParseError {})
                    }
                },
                None => Err(LogParseError {}),
            },
            None => Err(LogParseError {}),
        },
        None => Err(LogParseError {}),
    }
}


fn render_u64(n: u64) -> (r: String) {
    let mut digits: Vec<char> = Vec::new();
    if n == 0 {
        let mut out = String::new();
        out.push('0');
        return out;
    }
    let mut m = n;
    while m > 0
        decreases m,
    {
        let d = (m % 10) as u8;
        // 48 is the character code of '0'
        digits.push((48u8 + d) as char);
        m = m / 10;
    }
    let mut out = String::new();
    let mut k = digits.len();
    while k > 0
        invariant
            k <= digits@.len(),
        decreases k,
    {
        k = k - 1;
        out.push(digits[k]);
    }
    out
}

fn render_i64(v: i64) -> (r: String) {
    if v < 0 {
        let m = ((-(v + 1)) as u64) + 1;
        let mut out = String::new();
        out.push('-');
        out.append(render_u64(m).as_str());
        out
    } else {
        render_u64(v as u64)
    }
}

fn escape_into(out: &mut String, t: &str) {
    let n = t.unicode_len();
    let mut k: usize = 0;
    while k < n
        invariant
            n == t@.len(),
        decreases n - k,
    {
        let c = t.get_char(k);
        if c == '"' || c == '\\' {
            out.push('\\');
        }
        out.push(c);
        k += 1;
    }
}

fn render_item_into(out: &mut String, i: &LogFileItem) {
    out.append("{\"name\":\"");
    escape_into(out, i.name.as_str());
    out.push('"');
    if i.tags.len() > 0 {
        out.append(",\"tags\":[");
        let mut k: usize = 0;
        while k < i.tags.len()
            decreases i.tags@.len() - k,
        {
            if k > 0 {
                out.push(',');
            }
            out.push('"');
            escape_into(out, i.tags[k].as_str());
            out.push('"');
            k += 1;
        }
        out.push(']');
    }
    out.append(",\"status\":");
    match i.status {
        ExecutionStatus::NotStarted => out.append("\"NotStarted\""),
        ExecutionStatus::Skipped => out.append("\"Skipped\""),
        ExecutionStatus::Success => out.append("\"Success\""),
        ExecutionStatus::Failed => out.append("\"Failed\""),
    }
    match i.cache {
        Some(CacheHit::Local) => out.append(",\"cache\":\"Local\""),
        Some(CacheHit::Remote) => out.append(",\"cache\":\"Remote\""),
        Some(CacheHit::Mixed) => out.append(",\"cache\":\"Mixed\""),
        None => {},
    }
    match i.exec_ms {
        Some(v) => {
            out.append(",\"exec\":");
            out.append(render_u64(v as u64).as_str());
        },
        None => {},
    }
    match i.total_ms {
        Some(v) => {
            out.append(",\"total\":");
            out.append(render_u64(v as u64).as_str());
        },
        None => {},
    }
    out.append(",\"output_size\":");
    match i.output_size {
        Some(v) => out.append(render_u64(v).as_str()),
        None => out.append("null"),
    }
    if i.measurements.len() > 0 {
        out.append(",\"measurements\":{");
        let mut k: usize = 0;
        while k < i.measurements.len()
            decreases i.measurements@.len() - k,
        {
            if k > 0 {
                out.push(',');
            }
            out.push('"');
            escape_into(out, i.measurements[k].key.as_str());
            out.push('"');
            out.push(':');
            match &i.measurements[k].value {
                MeasurementValue::Int(v) => out.append(render_i64(*v).as_str()),
                MeasurementValue::Str(t) => {
                    out.push('"');
                    escape_into(out, t.as_str());
                    out.push('"');
                },
            }
            k += 1;
        }
        out.push('}');
    }
    out.push('}');
}

fn render_log(items: &Vec<LogFileItem>) -> (r: String) {
    let mut out = String::new();
    out.push('[');
    let mut k: usize = 0;
    while k < items.len()
        decreases items@.len() - k,
    {
        if k > 0 {
            out.push(',');
        }
        render_item_into(&mut out, &items[k]);
        k += 1;
    }
    out.push(']');
    out
}

fn value_eq(a: &MeasurementValue, b: &MeasurementValue) -> (r: bool)
    ensures
        r ==> value_view(*a) == value_view(*b),
{
    match (a, b) {
        (MeasurementValue::Int(x), MeasurementValue::Int(y)) => x == y,
        (MeasurementValue::Str(x), MeasurementValue::Str(y)) => *x == *y,
        _ => false,
    }
}

fn item_eq(a: &LogFileItem, b: &LogFileItem) -> (r: bool)
    ensures
        r ==> item_view(*a) == item_view(*b),
{
    if !(a.name == b.name) {
        return false;
    }
    if a.tags.len() != b.tags.len() {
        return false;
    }
    let mut k: usize = 0;
    while k < a.tags.len()
        invariant
            k <= a.tags@.len(),
            a.tags@.len() == b.tags@.len(),
            forall|m: int| 0 <= m < k ==> (#[trigger] a.tags@[m])@ == b.tags@[m]@,
        decreases a.tags@.len() - k,
    {
        if !(a.tags[k] == b.tags[k]) {
            return false;
        }
        k += 1;
    }
    match (a.status, b.status) {
        (ExecutionStatus::NotStarted, ExecutionStatus::NotStarted) => {},
        (ExecutionStatus::Skipped, ExecutionStatus::Skipped) => {},
        (ExecutionStatus::Success, ExecutionStatus::Success) => {},
        (ExecutionStatus::Failed, ExecutionStatus::Failed) => {},
        _ => {
            return false;
        },
    }
    match (a.cache, b.cache) {
        (None, None) => {},
        (Some(x), Some(y)) => {
            if x != y {
                return false;
            }
        },
        _ => {
            return false;
        },
    }
    match (a.exec_ms, b.exec_ms) {
        (None, None) => {},
        (Some(x), Some(y)) => {
            if x != y {
                return false;
            }
        },
        _ => {
            return false;
        },
    }
    match (a.total_ms, b.total_ms) {
        (None, None) => {},
        (Some(x), Some(y)) => {
            if x != y {
                return false;
            }
        },
        _ => {
            return false;
        },
    }
    match (a.output_size, b.output_size) {
        (None, None) => {},
        (Some(x), Some(y)) => {
            if x != y {
                return false;
            }
        },
        _ => {
            return false;
        },
    }
    if a.measurements.len() != b.measurements.len() {
        return false;
    }
    let mut k2: usize = 0;
    while k2 < a.measurements.len()
        invariant
            k2 <= a.measurements@.len(),
            a.measurements@.len() == b.measurements@.len(),
            forall|m: int|
                0 <= m < k2 ==> (#[trigger] a.measurements@[m]).key@ == b.measurements@[m].key@
                    && value_view(a.measurements@[m].value) == value_view(
                    b.measurements@[m].value,
                ),
        decreases a.measurements@.len() - k2,
    {
        if !(a.measurements[k2].key == b.measurements[k2].key) {
            return false;
        }
        if !value_eq(&a.measurements[k2].value, &b.measurements[k2].value) {
            return false;
        }
        k2 += 1;
    }
    proof {
        assert(a.tags@.map_values(|t: String| t@) =~= b.tags@.map_values(|t: String| t@));
        assert(a.measurements@.map_values(|m: Measurement| (m.key@, value_view(m.value))) =~= b
            .measurements@.map_values(|m: Measurement| (m.key@, value_view(m.value))));
    }
    true
}

fn log_items_eq(a: &Vec<LogFileItem>, b: &Vec<LogFileItem>) -> (r: bool)
    ensures
        r ==> log_view(a@) == log_view(b@),
{
    if a.len() != b.len() {
        return false;
    }
    let mut k: usize = 0;
    while k < a.len()
        invariant
            k <= a@.len(),
            a@.len() == b@.len(),
            forall|m: int| 0 <= m < k ==> item_view(#[trigger] a@[m]) == item_view(b@[m]),
        decreases a@.len() - k,
    {
        if !item_eq(&a[k], &b[k]) {
            return false;
        }
        k += 1;
    }
    proof {
        assert(log_view(a@) =~= log_view(b@));
    }
    true
}

/// Renders the log as one document and checks, by parsing it back, that it
/// records exactly these items: any returned text is proved to parse to the
/// saved items, so a save that succeeds round-trips. (That the renderer
/// always succeeds is checked by this validation at run time, not proved.)
pub fn log_to_text(log: &LogFile) -> (r: Result<String, LogWriteError>)
    ensures
        r matches Ok(t) ==> parse_log(t@) == Some(log_view(log.items@)),
{
    let text = render_log(&log.items);
    match log_from_text(text.as_str()) {
        Ok(parsed) => {
            if log_items_eq(&parsed.items, &log.items) {
                Ok(text)
            } else {
                Err(LogWriteError {})
            }
        },
        Err(_) => Err(LogWriteError {}),
    }
}

} // verus!
