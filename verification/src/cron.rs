//! A small cron parser: five fields (minute, hour, day of month, month, day
//! of week) or six (with seconds first), each a list of `*`, values, ranges
//! `a-b` and steps `x/n`.

use vstd::prelude::*;
use crate::text::{parse_u32, parse_u32_spec, split_char, split_on, string_from_chars};

verus! {

/// Why a cron expression was refused.
#[derive(Debug, Clone, PartialEq, Eq)]
pub enum CronError {
    /// The text after `/` is not a number (`invalid step: {text}`).
    InvalidStep(String),
    /// A step of zero (`step cannot be 0`).
    ZeroStep,
    /// A range whose start lies above its end (`range {start}-{end} is invalid`).
    InvalidRange { start: u32, end: u32 },
    /// A value that is not a number (`invalid value: {text}`).
    InvalidValue(String),
    /// A value outside the field's bounds (`value {value} out of range {min}-{max}`).
    OutOfRange { value: u32, min: u32, max: u32 },
    /// Neither five nor six fields (`expected 5 or 6 fields, got {n}`).
    FieldCount(usize),
}

/// The mathematical content of a [`CronError`].
pub enum CronErrorView {
    InvalidStep(Seq<char>),
    ZeroStep,
    InvalidRange { start: u32, end: u32 },
    InvalidValue(Seq<char>),
    OutOfRange { value: u32, min: u32, max: u32 },
    FieldCount(nat),
}

impl View for CronError {
    type V = CronErrorView;

    open spec fn view(&self) -> CronErrorView {
        match self {
            CronError::InvalidStep(s) => CronErrorView::InvalidStep(s@),
            CronError::ZeroStep => CronErrorView::ZeroStep,
            CronError::InvalidRange { start, end } => CronErrorView::InvalidRange {
                start: *start,
                end: *end,
            },
            CronError::InvalidValue(s) => CronErrorView::InvalidValue(s@),
            CronError::OutOfRange { value, min, max } => CronErrorView::OutOfRange {
                value: *value,
                min: *min,
                max: *max,
            },
            CronError::FieldCount(n) => CronErrorView::FieldCount(*n as nat),
        }
    }
}

/// The text of a cron error.
pub open spec fn cron_error_text(e: CronErrorView) -> Seq<char> {
    match e {
        CronErrorView::InvalidStep(t) => "invalid step: "@ + t,
        CronErrorView::ZeroStep => "step cannot be 0"@,
        CronErrorView::InvalidRange { start, end } => "range "@ + crate::text::nat_decimal(start as nat) + "-"@
            + crate::text::nat_decimal(end as nat) + " is invalid"@,
        CronErrorView::InvalidValue(t) => "invalid value: "@ + t,
        CronErrorView::OutOfRange { value, min, max } => "value "@ + crate::text::nat_decimal(value as nat)
            + " out of range "@ + crate::text::nat_decimal(min as nat) + "-"@ + crate::text::nat_decimal(
            max as nat,
        ),
        CronErrorView::FieldCount(n) => "expected 5 or 6 fields, got "@ + crate::text::nat_decimal(n),
    }
}

impl CronError {
    /// The error's text.
    pub fn message(&self) -> (s: String)
        ensures
            s@ == cron_error_text(self@),
    {
        let mut v: Vec<char> = Vec::new();
        match self {
            CronError::InvalidStep(t) => {
                crate::text::append_str(&mut v, "invalid step: ");
                crate::text::append_str(&mut v, t.as_str());
            },
            CronError::ZeroStep => {
                crate::text::append_str(&mut v, "step cannot be 0");
            },
            CronError::InvalidRange { start, end } => {
                crate::text::append_str(&mut v, "range ");
                crate::text::append_chars(&mut v, &crate::text::fmt_u64(*start as u64));
                crate::text::append_str(&mut v, "-");
                crate::text::append_chars(&mut v, &crate::text::fmt_u64(*end as u64));
                crate::text::append_str(&mut v, " is invalid");
            },
            CronError::InvalidValue(t) => {
                crate::text::append_str(&mut v, "invalid value: ");
                crate::text::append_str(&mut v, t.as_str());
            },
            CronError::OutOfRange { value, min, max } => {
                crate::text::append_str(&mut v, "value ");
                crate::text::append_chars(&mut v, &crate::text::fmt_u64(*value as u64));
                crate::text::append_str(&mut v, " out of range ");
                crate::text::append_chars(&mut v, &crate::text::fmt_u64(*min as u64));
                crate::text::append_str(&mut v, "-");
                crate::text::append_chars(&mut v, &crate::text::fmt_u64(*max as u64));
            },
            CronError::FieldCount(n) => {
                crate::text::append_str(&mut v, "expected 5 or 6 fields, got ");
                crate::text::append_chars(&mut v, &crate::text::fmt_u64(*n as u64));
            },
        }
        assert(v@ =~= cron_error_text(self@));
        string_from_chars(&v)
    }
}

// ── Specification ───────────────────────────────────────────────

pub open spec fn has_char(s: Seq<char>, c: char) -> bool {
    exists|i: int| 0 <= i < s.len() && s[i] == c
}

pub open spec fn is_first_index(s: Seq<char>, c: char, i: int) -> bool {
    &&& 0 <= i < s.len()
    &&& s[i] == c
    &&& forall|j: int| 0 <= j < i ==> s[j] != c
}

/// Position of the first `c` in `s` (meaningful when `has_char(s, c)`).
pub open spec fn first_index(s: Seq<char>, c: char) -> int {
    choose|i: int| is_first_index(s, c, i)
}

pub proof fn lemma_first_index(s: Seq<char>, c: char, i: int)
    requires
        is_first_index(s, c, i),
    ensures
        first_index(s, c) == i,
        has_char(s, c),
{
    let k = first_index(s, c);
    assert(is_first_index(s, c, k));
    if k < i {
        assert(s[k] != c);
    }
    if i < k {
        assert(s[i] != c);
    }
}

/// `parse_field_value`: a number within `[min, max]`.
pub open spec fn value_spec(s: Seq<char>, min: u32, max: u32) -> Result<u32, CronErrorView> {
    match parse_u32_spec(s) {
        None => Err(CronErrorView::InvalidValue(s)),
        Some(v) => if v < min || v > max {
            Err(CronErrorView::OutOfRange { value: v, min, max })
        } else {
            Ok(v)
        },
    }
}

pub open spec fn range_set(a: u32, b: u32) -> Set<u32> {
    Set::new(|v: u32| a <= v && v <= b)
}

pub open spec fn step_set(start: u32, step: u32, max: u32) -> Set<u32> {
    Set::new(|v: u32| start <= v && v <= max && (v - start) % (step as int) == 0)
}

pub open spec fn star() -> Seq<char> {
    seq!['*']
}

/// The values named by one comma-separated piece of a field.
pub open spec fn part_spec(part: Seq<char>, min: u32, max: u32) -> Result<Set<u32>, CronErrorView> {
    if has_char(part, '/') {
        let k = first_index(part, '/');
        let start_s = part.take(k);
        let rest = part.skip(k + 1);
        let start_r = if start_s == star() {
            Ok(min)
        } else {
            value_spec(start_s, min, max)
        };
        match start_r {
            Err(e) => Err(e),
            Ok(start) => match parse_u32_spec(rest) {
                None => Err(CronErrorView::InvalidStep(rest)),
                Some(step) => if step == 0 {
                    Err(CronErrorView::ZeroStep)
                } else {
                    Ok(step_set(start, step, max))
                },
            },
        }
    } else if has_char(part, '-') {
        let k = first_index(part, '-');
        match value_spec(part.take(k), min, max) {
            Err(e) => Err(e),
            Ok(start) => match value_spec(part.skip(k + 1), min, max) {
                Err(e) => Err(e),
                Ok(end) => if start > end {
                    Err(CronErrorView::InvalidRange { start, end })
                } else {
                    Ok(range_set(start, end))
                },
            },
        }
    } else if part == star() {
        Ok(range_set(min, max))
    } else {
        match value_spec(part, min, max) {
            Err(e) => Err(e),
            Ok(v) => Ok(set![v]),
        }
    }
}

/// The union of the pieces' values; the first refused piece decides the error.
pub open spec fn parts_spec(parts: Seq<Seq<char>>, min: u32, max: u32) -> Result<Set<u32>, CronErrorView>
    decreases parts.len(),
{
    if parts.len() == 0 {
        Ok(Set::empty())
    } else {
        match parts_spec(parts.drop_last(), min, max) {
            Err(e) => Err(e),
            Ok(s) => match part_spec(parts.last(), min, max) {
                Err(e) => Err(e),
                Ok(t) => Ok(s.union(t)),
            },
        }
    }
}

pub proof fn lemma_parts_spec_err_prefix(p: Seq<Seq<char>>, i: int)
    requires
        0 <= i <= p.len(),
    ensures
        forall|min: u32, max: u32| #[trigger] parts_spec(p.take(i), min, max) is Err ==> parts_spec(p, min, max) == parts_spec(p.take(i), min, max),
    decreases p.len(),
{
    if i == p.len() {
        assert(p.take(i) =~= p);
    } else {
        lemma_parts_spec_err_prefix(p.drop_last(), i);
        assert(p.drop_last().take(i) =~= p.take(i));
    }
}

pub proof fn lemma_part_nonempty(part: Seq<char>, min: u32, max: u32)
    requires
        min <= max,
        part_spec(part, min, max) is Ok,
    ensures
        exists|v: u32| (#[trigger] part_spec(part, min, max)->Ok_0.contains(v)),
{
    let s = part_spec(part, min, max)->Ok_0;
    if has_char(part, '/') {
        let k = first_index(part, '/');
        let start_s = part.take(k);
        let start: u32 = if start_s == star() { min } else { value_spec(start_s, min, max)->Ok_0 };
        let st: u32 = parse_u32_spec(part.skip(k + 1))->Some_0;
        assert(st > 0);
        vstd::arithmetic::div_mod::lemma_small_mod(0, st as nat);
        assert(((start - start) as int) % (st as int) == 0);
        assert(s.contains(start));
    } else if has_char(part, '-') {
        let k = first_index(part, '-');
        let start = value_spec(part.take(k), min, max)->Ok_0;
        assert(s.contains(start));
    } else if part == star() {
        assert(s.contains(min));
    } else {
        assert(s.contains(value_spec(part, min, max)->Ok_0));
    }
}

pub proof fn lemma_parts_nonempty(parts: Seq<Seq<char>>, min: u32, max: u32)
    requires
        min <= max,
        parts.len() >= 1,
        parts_spec(parts, min, max) is Ok,
    ensures
        exists|v: u32| (#[trigger] parts_spec(parts, min, max)->Ok_0.contains(v)),
{
    lemma_part_nonempty(parts.last(), min, max);
    let v = choose|v: u32| (#[trigger] part_spec(parts.last(), min, max)->Ok_0.contains(v));
    assert(parts_spec(parts, min, max)->Ok_0.contains(v));
}

/// What a field expression such as `*/5`, `1,3,5` or `10-20` denotes.
pub open spec fn field_spec(expr: Seq<char>, min: u32, max: u32) -> Result<Set<u32>, CronErrorView> {
    parts_spec(split_char(expr, ','), min, max)
}

pub open spec fn strictly_increasing(s: Seq<u32>) -> bool {
    forall|i: int, j: int| 0 <= i < j < s.len() ==> s[i] < s[j]
}

// ── Fields ──────────────────────────────────────────────────────

/// The values one cron field accepts, ascending and without repeats.
#[derive(Debug, Clone)]
pub struct CronField {
    pub values: Vec<u32>,
}

impl CronField {
    pub open spec fn wf(&self) -> bool {
        strictly_increasing(self.values@)
    }

    /// Whether the field accepts `value`.
    pub fn matches(&self, value: u32) -> (b: bool)
        ensures
            b == self.values@.contains(value),
    {
        let mut i: usize = 0;
        while i < self.values.len()
            invariant
                i <= self.values@.len(),
                forall|j: int| 0 <= j < i ==> self.values@[j] != value,
            decreases self.values.len() - i,
        {
            if self.values[i] == value {
                return true;
            }
            i = i + 1;
        }
        false
    }
}

/// Adds `x` to an ascending list without repeats, keeping it so.
fn insert_sorted(values: &mut Vec<u32>, x: u32)
    requires
        strictly_increasing(old(values)@),
    ensures
        strictly_increasing(final(values)@),
        forall|v: u32| final(values)@.contains(v) <==> (old(values)@.contains(v) || v == x),
{
    let mut i: usize = 0;
    while i < values.len() && values[i] < x
        invariant
            i <= values@.len(),
            values@ == old(values)@,
            strictly_increasing(values@),
            forall|j: int| 0 <= j < i ==> values@[j] < x,
        decreases values.len() - i,
    {
        i = i + 1;
    }
    if i < values.len() && values[i] == x {
        assert(values@[i as int] == x);
        return;
    }
    let ghost old_v = values@;
    assert(forall|j: int| i <= j < old_v.len() ==> old_v[j] > x) by {
        assert forall|j: int| i <= j < old_v.len() implies old_v[j] > x by {
            if j > i {
                assert(old_v[i as int] < old_v[j]);
            }
        }
    }
    values.insert(i, x);
    assert(strictly_increasing(values@)) by {
        assert forall|a: int, b: int| 0 <= a < b < values@.len() implies values@[a] < values@[b] by {
            if b < i {
                assert(values@[a] == old_v[a] && values@[b] == old_v[b]);
            } else if b == i {
                assert(values@[a] == old_v[a]);
            } else if a < i {
                assert(values@[a] == old_v[a] && values@[b] == old_v[b - 1]);
            } else if a == i {
                assert(values@[b] == old_v[b - 1]);
            } else {
                assert(values@[a] == old_v[a - 1] && values@[b] == old_v[b - 1]);
            }
        }
    }
    assert forall|v: u32| values@.contains(v) <==> (old_v.contains(v) || v == x) by {
        if values@.contains(v) {
            let k = choose|k: int| 0 <= k < values@.len() && values@[k] == v;
            if k < i {
                assert(old_v[k] == v);
            } else if k > i {
                assert(old_v[k - 1] == v);
            }
        }
        if old_v.contains(v) {
            let k = choose|k: int| 0 <= k < old_v.len() && old_v[k] == v;
            if k < i {
                assert(values@[k] == v);
            } else {
                assert(values@[k + 1] == v);
            }
        }
        if v == x {
            assert(values@[i as int] == v);
        }
    }
}

pub proof fn lemma_push_contains(s: Seq<u32>, a: u32, v: u32)
    ensures
        s.push(a).contains(v) <==> (s.contains(v) || v == a),
{
    let t = s.push(a);
    if t.contains(v) {
        let k = choose|k: int| 0 <= k < t.len() && t[k] == v;
        if k < s.len() {
            assert(s[k] == v);
        }
    }
    if s.contains(v) {
        let k = choose|k: int| 0 <= k < s.len() && s[k] == v;
        assert(t[k] == v);
    }
    if v == a {
        assert(t[s.len() as int] == v);
    }
}

fn insert_all(values: &mut Vec<u32>, more: &Vec<u32>)
    requires
        strictly_increasing(old(values)@),
    ensures
        strictly_increasing(final(values)@),
        forall|v: u32| final(values)@.contains(v) <==> (old(values)@.contains(v) || more@.contains(v)),
{
    let ghost start = values@;
    let mut i: usize = 0;
    while i < more.len()
        invariant
            i <= more@.len(),
            strictly_increasing(values@),
            forall|v: u32| #[trigger] values@.contains(v) <==> (start.contains(v) || more@.take(i as int).contains(v)),
        decreases more.len() - i,
    {
        let ghost before = values@;
        let ghost pre = more@.take(i as int);
        insert_sorted(values, more[i]);
        assert(more@.take(i + 1) =~= pre.push(more@[i as int]));
        assert forall|v: u32| #[trigger] values@.contains(v) <==> (start.contains(v) || more@.take(i + 1).contains(v)) by {
            lemma_push_contains(pre, more@[i as int], v);
            assert(before.contains(v) <==> (start.contains(v) || pre.contains(v)));
        }
        i = i + 1;
    }
    assert(more@.take(more@.len() as int) =~= more@);
}

pub proof fn lemma_step_next(start: u32, step: u32, k: nat, v: int)
    requires
        step > 0,
        start + k * step <= v < start + (k + 1) * step,
        (v - start) % (step as int) == 0,
    ensures
        v == start + k * step,
{
    let d: int = v - start;
    let s: int = step as int;
    let kk: int = k as int;
    vstd::arithmetic::div_mod::lemma_fundamental_div_mod(d, s);
    let q: int = d / s;
    assert(d == s * q);
    assert(kk * s <= s * q) by (nonlinear_arith)
        requires
            kk * s <= d,
            d == s * q,
    ;
    assert(s * q < (kk + 1) * s) by (nonlinear_arith)
        requires
            d < (kk + 1) * s,
            d == s * q,
    ;
    assert(q == kk) by (nonlinear_arith)
        requires
            kk * s <= s * q,
            s * q < (kk + 1) * s,
            s > 0,
    ;
    assert(d == kk * s) by (nonlinear_arith)
        requires
            d == s * q,
            q == kk,
    ;
}

pub proof fn lemma_step_mod(start: u32, step: u32, k: nat)
    requires
        step > 0,
    ensures
        ((start + k * step) - start) % (step as int) == 0,
{
    assert((k * step) % (step as int) == 0) by (nonlinear_arith)
        requires
            step > 0,
    ;
}

fn first_index_of(s: &[char], c: char) -> (r: Option<usize>)
    ensures
        r matches Some(i) ==> is_first_index(s@, c, i as int),
        r is None ==> !has_char(s@, c),
{
    let mut i: usize = 0;
    while i < s.len()
        invariant
            i <= s@.len(),
            forall|j: int| 0 <= j < i ==> s@[j] != c,
        decreases s.len() - i,
    {
        if s[i] == c {
            return Some(i);
        }
        i = i + 1;
    }
    None
}

fn is_star(s: &[char]) -> (b: bool)
    ensures
        b == (s@ == star()),
{
    if s.len() == 1 && s[0] == '*' {
        assert(s@ =~= star());
        true
    } else {
        false
    }
}

/// Parses one number of a field and checks it against the field's bounds.
pub fn parse_field_value(s: &[char], min: u32, max: u32) -> (r: Result<u32, CronError>)
    ensures
        match r {
            Ok(v) => value_spec(s@, min, max) == Ok::<u32, CronErrorView>(v),
            Err(e) => value_spec(s@, min, max) == Err::<u32, CronErrorView>(e@),
        },
{
    match parse_u32(s) {
        None => Err(CronError::InvalidValue(string_from_chars(s))),
        Some(v) => {
            if v < min || v > max {
                Err(CronError::OutOfRange { value: v, min, max })
            } else {
                Ok(v)
            }
        },
    }
}

fn all_values(lo: u32, hi: u32) -> (r: Vec<u32>)
    ensures
        strictly_increasing(r@),
        forall|v: u32| r@.contains(v) <==> range_set(lo, hi).contains(v),
{
    let mut r: Vec<u32> = Vec::new();
    if lo > hi {
        return r;
    }
    let mut v: u64 = lo as u64;
    while v <= hi as u64
        invariant
            lo <= hi,
            lo <= v <= hi as u64 + 1,
            r@.len() == v - lo,
            forall|j: int| 0 <= j < r@.len() ==> r@[j] == lo + j,
        decreases hi as u64 + 1 - v,
    {
        r.push(v as u32);
        v = v + 1;
    }
    assert forall|v: u32| r@.contains(v) <==> range_set(lo, hi).contains(v) by {
        if lo <= v && v <= hi {
            assert(r@[v - lo] == v);
        }
    }
    r
}

fn step_values(start: u32, step: u32, max: u32) -> (r: Vec<u32>)
    requires
        step > 0,
    ensures
        strictly_increasing(r@),
        forall|v: u32| r@.contains(v) <==> step_set(start, step, max).contains(v),
{
    let mut r: Vec<u32> = Vec::new();
    let mut val: u64 = start as u64;
    let ghost mut k: nat = 0;
    while val <= max as u64
        invariant
            step > 0,
            val == start + k * step,
            forall|j: int| 0 <= j < r@.len() ==> r@[j] < val,
            strictly_increasing(r@),
            forall|v: u32| r@.contains(v) <==> (start <= v && v < val && v <= max && (v - start) % (step as int) == 0),
        decreases (if val <= max as u64 { (max as int) + 1 - (val as int) } else { 0 }),
    {
        let ghost before = r@;
        r.push(val as u32);
        proof {
            lemma_step_mod(start, step, k);
            assert forall|v: u32| r@.contains(v) <==> (start <= v && v < val + step && v <= max && (v - start) % (step as int) == 0) by {
                if start <= v && v < val + step && v <= max && (v - start) % (step as int) == 0 && v >= val {
                    assert((k + 1) * step == k * step + step) by (nonlinear_arith);
                    lemma_step_next(start, step, k, v as int);
                    assert(r@[before.len() as int] == v);
                }
                if r@.contains(v) {
                    let j = choose|j: int| 0 <= j < r@.len() && r@[j] == v;
                    if j < before.len() {
                        assert(before.contains(v));
                    }
                }
                if before.contains(v) {
                    let j = choose|j: int| 0 <= j < before.len() && before[j] == v;
                    assert(r@[j] == v);
                }
            }
            assert((k + 1) * step == k * step + step) by (nonlinear_arith);
            k = k + 1;
        }
        val = val + step as u64;
    }
    r
}

/// Parses one comma-separated piece.
fn parse_part(part: &[char], min: u32, max: u32) -> (r: Result<Vec<u32>, CronError>)
    ensures
        match r {
            Ok(vals) => part_spec(part@, min, max) matches Ok(s) && strictly_increasing(vals@)
                && forall|v: u32| vals@.contains(v) <==> s.contains(v),
            Err(e) => part_spec(part@, min, max) == Err::<Set<u32>, CronErrorView>(e@),
        },
{
    match first_index_of(part, '/') {
        Some(k) => {
            proof {
                lemma_first_index(part@, '/', k as int);
            }
            assert(k < part.len());
            let start_s = slice_prefix(part, k);
            let rest = slice_suffix(part, k + 1);
            let start = if is_star(&start_s) {
                min
            } else {
                match parse_field_value(&start_s, min, max) {
                    Ok(v) => v,
                    Err(e) => {
                        return Err(e);
                    },
                }
            };
            match parse_u32(&rest) {
                None => Err(CronError::InvalidStep(string_from_chars(&rest))),
                Some(step) => {
                    if step == 0 {
                        Err(CronError::ZeroStep)
                    } else {
                        Ok(step_values(start, step, max))
                    }
                },
            }
        },
        None => match first_index_of(part, '-') {
            Some(k) => {
                proof {
                    lemma_first_index(part@, '-', k as int);
                }
                assert(k < part.len());
                let start_s = slice_prefix(part, k);
                let end_s = slice_suffix(part, k + 1);
                let start = match parse_field_value(&start_s, min, max) {
                    Ok(v) => v,
                    Err(e) => {
                        return Err(e);
                    },
                };
                let end = match parse_field_value(&end_s, min, max) {
                    Ok(v) => v,
                    Err(e) => {
                        return Err(e);
                    },
                };
                if start > end {
                    Err(CronError::InvalidRange { start, end })
                } else {
                    Ok(all_values(start, end))
                }
            },
            None => {
                if is_star(part) {
                    Ok(all_values(min, max))
                } else {
                    match parse_field_value(part, min, max) {
                        Ok(v) => {
                            let mut r: Vec<u32> = Vec::new();
                            r.push(v);
                            assert forall|x: u32| r@.contains(x) <==> set![v].contains(x) by {
                                if x == v {
                                    assert(r@[0] == x);
                                }
                            }
                            Ok(r)
                        },
                        Err(e) => Err(e),
                    }
                }
            },
        },
    }
}

/// The chars of `s` before position `k`.
pub fn slice_prefix(s: &[char], k: usize) -> (r: Vec<char>)
    requires
        k <= s@.len(),
    ensures
        r@ == s@.take(k as int),
{
    let mut r: Vec<char> = Vec::new();
    let mut i: usize = 0;
    while i < k
        invariant
            i <= k <= s@.len(),
            r@ == s@.take(i as int),
        decreases k - i,
    {
        r.push(s[i]);
        i = i + 1;
        assert(r@ =~= s@.take(i as int));
    }
    r
}

/// The chars of `s` from position `k` on.
pub fn slice_suffix(s: &[char], k: usize) -> (r: Vec<char>)
    requires
        k <= s@.len(),
    ensures
        r@ == s@.skip(k as int),
{
    let mut r: Vec<char> = Vec::new();
    let mut i: usize = k;
    while i < s.len()
        invariant
            k <= i <= s@.len(),
            r@ == s@.subrange(k as int, i as int),
        decreases s.len() - i,
    {
        r.push(s[i]);
        i = i + 1;
        assert(r@ =~= s@.subrange(k as int, i as int));
    }
    r
}

/// Parses a single cron field (e.g. `*/5`, `1,3,5`, `10-20`, `0`) whose values lie in `[min, max]`.
pub fn parse_field(expr: &[char], min: u32, max: u32) -> (r: Result<CronField, CronError>)
    ensures
        match r {
            Ok(f) => field_spec(expr@, min, max) matches Ok(s) && f.wf()
                && forall|v: u32| f.values@.contains(v) <==> s.contains(v),
            Err(e) => field_spec(expr@, min, max) == Err::<Set<u32>, CronErrorView>(e@),
        },
        min <= max ==> (r matches Ok(f) ==> f.values@.len() > 0),
{
    let parts = split_on(expr, ',');
    let ghost pv = parts.deep_view();
    let mut values: Vec<u32> = Vec::new();
    let mut i: usize = 0;
    while i < parts.len()
        invariant
            pv == parts.deep_view(),
            pv == split_char(expr@, ','),
            i <= parts@.len(),
            strictly_increasing(values@),
            parts_spec(pv.take(i as int), min, max) matches Ok(s) && forall|v: u32|
                values@.contains(v) <==> s.contains(v),
        decreases parts.len() - i,
    {
        assert(pv.take(i + 1).drop_last() =~= pv.take(i as int));
        assert(pv.take(i + 1).last() == pv[i as int]);
        assert(parts@[i as int].deep_view() =~= parts@[i as int]@);
        assert(pv[i as int] == parts@[i as int]@);
        let ghost s = parts_spec(pv.take(i as int), min, max)->Ok_0;
        match parse_part(&parts[i], min, max) {
            Ok(more) => {
                let ghost t = part_spec(pv[i as int], min, max)->Ok_0;
                let ghost before = values@;
                insert_all(&mut values, &more);
                assert(parts_spec(pv.take(i + 1), min, max) == Ok::<Set<u32>, CronErrorView>(s.union(t)));
                assert forall|v: u32| values@.contains(v) <==> s.union(t).contains(v) by {
                    assert(before.contains(v) <==> s.contains(v));
                    assert(more@.contains(v) <==> t.contains(v));
                }
            },
            Err(e) => {
                proof {
                    assert(parts_spec(pv.take(i + 1), min, max) == Err::<Set<u32>, CronErrorView>(e@));
                    lemma_parts_spec_err_prefix(pv, i + 1);
                    assert(parts_spec(pv, min, max) == Err::<Set<u32>, CronErrorView>(e@));
                }
                return Err(e);
            },
        }
        i = i + 1;
    }
    assert(pv.take(pv.len() as int) =~= pv);
    proof {
        if min <= max {
            crate::text::lemma_split_char_len(expr@, ',');
            lemma_parts_nonempty(pv, min, max);
            let v = choose|v: u32| (#[trigger] parts_spec(pv, min, max)->Ok_0.contains(v));
            assert(values@.contains(v));
        }
    }
    Ok(CronField { values })
}

} // verus!

verus! {

// ── Expressions ─────────────────────────────────────────────────

/// The six value sets a cron expression denotes.
pub struct CronSpec {
    pub second: Set<u32>,
    pub minute: Set<u32>,
    pub hour: Set<u32>,
    pub day_of_month: Set<u32>,
    pub month: Set<u32>,
    pub day_of_week: Set<u32>,
}

pub open spec fn zero_text() -> Seq<char> {
    seq!['0']
}

/// Day-of-week values with 7 read as Sunday, which is 0.
pub open spec fn sunday_folded(s: Set<u32>) -> Set<u32> {
    Set::new(|v: u32| (s.contains(v) && v != 7) || (v == 0 && s.contains(7)))
}

/// Parses the six field texts in order; the first refused field decides the error.
pub open spec fn fields_spec(
    se: Seq<char>,
    mi: Seq<char>,
    ho: Seq<char>,
    dm: Seq<char>,
    mo: Seq<char>,
    dw: Seq<char>,
) -> Result<CronSpec, CronErrorView> {
    match field_spec(se, 0, 59) {
        Err(e) => Err(e),
        Ok(second) => match field_spec(mi, 0, 59) {
            Err(e) => Err(e),
            Ok(minute) => match field_spec(ho, 0, 23) {
                Err(e) => Err(e),
                Ok(hour) => match field_spec(dm, 1, 31) {
                    Err(e) => Err(e),
                    Ok(day_of_month) => match field_spec(mo, 1, 12) {
                        Err(e) => Err(e),
                        Ok(month) => match field_spec(dw, 0, 7) {
                            Err(e) => Err(e),
                            Ok(dow) => Ok(
                                CronSpec {
                                    second,
                                    minute,
                                    hour,
                                    day_of_month,
                                    month,
                                    day_of_week: sunday_folded(dow),
                                },
                            ),
                        },
                    },
                },
            },
        },
    }
}

/// What a whole expression denotes: five fields get second `0`, six fields
/// start with the seconds; any other count is refused.
pub open spec fn cron_spec(s: Seq<char>) -> Result<CronSpec, CronErrorView> {
    let w = crate::text::words(s);
    if w.len() == 5 {
        fields_spec(zero_text(), w[0], w[1], w[2], w[3], w[4])
    } else if w.len() == 6 {
        fields_spec(w[0], w[1], w[2], w[3], w[4], w[5])
    } else {
        Err(CronErrorView::FieldCount(w.len()))
    }
}

pub open spec fn field_denotes(f: CronField, s: Set<u32>) -> bool {
    f.wf() && forall|v: u32| f.values@.contains(v) <==> s.contains(v)
}

/// Reads day-of-week 7 as Sunday (0), keeping the values ascending and
/// without repeats.
pub fn fold_sunday(f: CronField) -> (g: CronField)
    requires
        f.wf(),
        f.values@.len() > 0,
    ensures
        g.wf(),
        g.values@.len() > 0,
        forall|v: u32| g.values@.contains(v) <==> ((f.values@.contains(v) && v != 7) || (v == 0 && f.values@.contains(7))),
{
    let has7 = f.matches(7);
    let has0 = f.matches(0);
    let pushed0 = has7 && !has0;
    let mut out: Vec<u32> = Vec::new();
    if pushed0 {
        out.push(0);
    }
    proof {
        assert forall|v: u32| out@.contains(v) <==> ((exists|j: int| 0 <= j < 0 && f.values@[j] == v) && v != 7) || (v == 0 && pushed0) by {
            if out@.contains(v) {
                let k = choose|k: int| 0 <= k < out@.len() && out@[k] == v;
            }
            if v == 0 && pushed0 {
                assert(out@[0] == v);
            }
        }
        assert forall|k: int, j: int| 0 <= k < out@.len() && 0 <= j < f.values@.len() implies out@[k] < f.values@[j] by {
            assert(f.values@[j] != 0);
        }
    }
    let mut i: usize = 0;
    while i < f.values.len()
        invariant
            f.wf(),
            has7 == f.values@.contains(7),
            has0 == f.values@.contains(0),
            pushed0 == (has7 && !has0),
            i <= f.values@.len(),
            strictly_increasing(out@),
            forall|k: int, j: int| 0 <= k < out@.len() && i <= j < f.values@.len() ==> out@[k] < f.values@[j],
            forall|v: u32| out@.contains(v) <==> ((exists|j: int| 0 <= j < i && f.values@[j] == v) && v != 7) || (v == 0 && pushed0),
        decreases f.values.len() - i,
    {
        let v = f.values[i];
        if v != 7 {
            let ghost before = out@;
            out.push(v);
            proof {
                assert forall|w: u32| out@.contains(w) <==> ((exists|j: int| 0 <= j < i + 1 && f.values@[j] == w) && w != 7) || (w == 0 && pushed0) by {
                    if out@.contains(w) {
                        let k = choose|k: int| 0 <= k < out@.len() && out@[k] == w;
                        if k < before.len() {
                            assert(before.contains(w));
                        } else {
                            assert(f.values@[i as int] == w);
                        }
                    }
                    if (exists|j: int| 0 <= j < i + 1 && f.values@[j] == w) && w != 7 {
                        let j = choose|j: int| 0 <= j < i + 1 && f.values@[j] == w;
                        if j < i {
                            assert(before.contains(w));
                            let k = choose|k: int| 0 <= k < before.len() && before[k] == w;
                            assert(out@[k] == w);
                        } else {
                            assert(out@[before.len() as int] == w);
                        }
                    }
                    if w == 0 && pushed0 {
                        assert(before.contains(w));
                        let k = choose|k: int| 0 <= k < before.len() && before[k] == w;
                        assert(out@[k] == w);
                    }
                }
            }
        } else {
            proof {
                assert forall|w: u32| out@.contains(w) <==> ((exists|j: int| 0 <= j < i + 1 && f.values@[j] == w) && w != 7) || (w == 0 && pushed0) by {
                    if (exists|j: int| 0 <= j < i + 1 && f.values@[j] == w) && w != 7 {
                        let j = choose|j: int| 0 <= j < i + 1 && f.values@[j] == w;
                        assert(j < i);
                    }
                }
            }
        }
        i = i + 1;
    }
    proof {
        assert forall|v: u32| out@.contains(v) <==> ((f.values@.contains(v) && v != 7) || (v == 0 && f.values@.contains(7))) by {
            if f.values@.contains(v) && v != 7 {
                let j = choose|j: int| 0 <= j < f.values@.len() && f.values@[j] == v;
                assert(exists|j: int| 0 <= j < i && f.values@[j] == v);
            }
            if (exists|j: int| 0 <= j < i && f.values@[j] == v) {
                let j = choose|j: int| 0 <= j < i && f.values@[j] == v;
                assert(f.values@.contains(v));
            }
        }
        if !pushed0 {
            let w = f.values@[0];
            if w == 7 {
                assert(f.values@.contains(7));
                assert(has0);
                let j = choose|j: int| 0 <= j < f.values@.len() && f.values@[j] == 0;
                assert(out@.contains(0u32));
            } else {
                assert(out@.contains(w));
            }
        } else {
            assert(out@.contains(0u32));
        }
    }
    CronField { values: out }
}

/// A parsed cron expression.
#[derive(Debug, Clone)]
pub struct CronExpression {
    pub second: CronField,
    pub minute: CronField,
    pub hour: CronField,
    pub day_of_month: CronField,
    pub month: CronField,
    pub day_of_week: CronField,
}

impl CronExpression {
    pub open spec fn denotes(&self, s: CronSpec) -> bool {
        &&& field_denotes(self.second, s.second)
        &&& field_denotes(self.minute, s.minute)
        &&& field_denotes(self.hour, s.hour)
        &&& field_denotes(self.day_of_month, s.day_of_month)
        &&& field_denotes(self.month, s.month)
        &&& field_denotes(self.day_of_week, s.day_of_week)
    }

    /// Every field ascending, without repeats, and not empty.
    pub open spec fn wf(&self) -> bool {
        &&& self.second.wf() && self.second.values@.len() > 0
        &&& self.minute.wf() && self.minute.values@.len() > 0
        &&& self.hour.wf() && self.hour.values@.len() > 0
        &&& self.day_of_month.wf() && self.day_of_month.values@.len() > 0
        &&& self.month.wf() && self.month.values@.len() > 0
        &&& self.day_of_week.wf() && self.day_of_week.values@.len() > 0
    }

    fn parse_fields(
        se: &[char],
        mi: &[char],
        ho: &[char],
        dm: &[char],
        mo: &[char],
        dw: &[char],
    ) -> (r: Result<CronExpression, CronError>)
        ensures
            match r {
                Ok(c) => fields_spec(se@, mi@, ho@, dm@, mo@, dw@) matches Ok(s) && c.denotes(s) && c.wf(),
                Err(e) => fields_spec(se@, mi@, ho@, dm@, mo@, dw@) == Err::<CronSpec, CronErrorView>(e@),
            },
    {
        let second = match parse_field(se, 0, 59) {
            Ok(f) => f,
            Err(e) => {
                return Err(e);
            },
        };
        let minute = match parse_field(mi, 0, 59) {
            Ok(f) => f,
            Err(e) => {
                return Err(e);
            },
        };
        let hour = match parse_field(ho, 0, 23) {
            Ok(f) => f,
            Err(e) => {
                return Err(e);
            },
        };
        let day_of_month = match parse_field(dm, 1, 31) {
            Ok(f) => f,
            Err(e) => {
                return Err(e);
            },
        };
        let month = match parse_field(mo, 1, 12) {
            Ok(f) => f,
            Err(e) => {
                return Err(e);
            },
        };
        let day_of_week = match parse_field(dw, 0, 7) {
            Ok(f) => fold_sunday(f),
            Err(e) => {
                return Err(e);
            },
        };
        Ok(CronExpression { second, minute, hour, day_of_month, month, day_of_week })
    }

    /// Parses a 5-field (`min hour dom month dow`) or 6-field (`sec min hour dom month dow`)
    /// cron expression; fields are separated by whitespace.
    pub fn parse(expr: &str) -> (r: Result<CronExpression, CronError>)
        ensures
            match r {
                Ok(c) => cron_spec(expr@) matches Ok(s) && c.denotes(s) && c.wf(),
                Err(e) => cron_spec(expr@) == Err::<CronSpec, CronErrorView>(e@),
            },
    {
        let chars = crate::text::chars_of(expr);
        let fields = crate::text::split_words(&chars);
        let ghost w = fields.deep_view();
        let n: usize = fields.len();
        if n == 5 {
            let mut zero: Vec<char> = Vec::new();
            zero.push('0');
            assert(zero@ =~= zero_text());
            proof {
                assert forall|j: int| 0 <= j < 5 implies w[j] == fields@[j]@ by {
                    assert(fields@[j].deep_view() =~= fields@[j]@);
                }
            }
            Self::parse_fields(&zero, &fields[0], &fields[1], &fields[2], &fields[3], &fields[4])
        } else if n == 6 {
            proof {
                assert forall|j: int| 0 <= j < 6 implies w[j] == fields@[j]@ by {
                    assert(fields@[j].deep_view() =~= fields@[j]@);
                }
            }
            Self::parse_fields(&fields[0], &fields[1], &fields[2], &fields[3], &fields[4], &fields[5])
        } else {
            Err(CronError::FieldCount(n))
        }
    }
}

} // verus!
