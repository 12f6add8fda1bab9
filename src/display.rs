use vstd::prelude::*;
use crate::profiler::Profiler;
use crate::table::has_width;
use crate::text::{chars_of, push_str, string_of};
use vstd::arithmetic::div_mod::{lemma_fundamental_div_mod, lemma_fundamental_div_mod_converse};

verus! {

/// The character of a decimal digit.
pub open spec fn digit_char(d: int) -> char {
    ((48 + d) as u8) as char
}

/// The decimal digits of `n`, most significant first, with no leading zeros.
pub open spec fn decimal_digits(n: nat) -> Seq<char>
    decreases n,
{
    if n < 10 {
        seq![digit_char(n as int)]
    } else {
        decimal_digits(n / 10).push(digit_char((n % 10) as int))
    }
}

/// Digits with `sep` between each group of three, counted from the right.
pub open spec fn group_thousands(d: Seq<char>, sep: char) -> Seq<char>
    decreases d.len(),
{
    if d.len() <= 3 {
        d
    } else {
        group_thousands(d.take(d.len() - 3), sep).push(sep) + d.skip(d.len() - 3)
    }
}

/// `n` in decimal, with `sep` between groups of three digits.
pub open spec fn thousands(n: nat, sep: char) -> Seq<char> {
    group_thousands(decimal_digits(n), sep)
}

/// The three digits of `m < 1000`, with leading zeros.
pub open spec fn three_digits(m: nat) -> Seq<char> {
    seq![digit_char((m / 100) as int), digit_char(((m / 10) % 10) as int), digit_char((m % 10) as int)]
}

proof fn lemma_digits_split(n: nat)
    requires
        n >= 1000,
    ensures
        decimal_digits(n) == decimal_digits(n / 1000) + three_digits(n % 1000),
{
    let q = n / 1000;
    let m = n % 1000;
    assert(n / 10 / 10 == n / 100);
    assert(n / 100 / 10 == n / 1000);
    assert((n / 10) % 10 == (m / 10) % 10);
    assert((n / 100) % 10 == m / 100);
    assert(n % 10 == m % 10);
    assert(decimal_digits(n / 100) == decimal_digits(q).push(digit_char((m / 100) as int)));
    assert(decimal_digits(n / 10) == decimal_digits(n / 100).push(
        digit_char(((m / 10) % 10) as int),
    ));
    assert(decimal_digits(n) =~= decimal_digits(q) + three_digits(m));
}

proof fn lemma_digits_nonempty(n: nat)
    ensures
        decimal_digits(n).len() >= 1,
    decreases n,
{
    if n >= 10 {
        lemma_digits_nonempty(n / 10);
    }
}

proof fn lemma_thousands_split(n: nat, sep: char)
    requires
        n >= 1000,
    ensures
        thousands(n, sep) == thousands(n / 1000, sep).push(sep) + three_digits(n % 1000),
{
    lemma_digits_split(n);
    lemma_digits_nonempty(n / 1000);
    let d = decimal_digits(n);
    let hi = decimal_digits(n / 1000);
    assert(d.take(d.len() - 3) =~= hi);
    assert(d.skip(d.len() - 3) =~= three_digits(n % 1000));
}

fn digit(d: u128) -> (r: char)
    requires
        d < 10,
    ensures
        r == digit_char(d as int),
{
    ((48 + d) as u8) as char
}

/// Appends `decimal_digits(n)`.
fn push_decimal(n: u128, out: &mut Vec<char>)
    ensures
        final(out)@ == old(out)@ + decimal_digits(n as nat),
    decreases n,
{
    if n < 10 {
        out.push(digit(n));
        assert(final(out)@ =~= old(out)@ + decimal_digits(n as nat));
    } else {
        push_decimal(n / 10, out);
        out.push(digit(n % 10));
        assert(out@ =~= old(out)@ + decimal_digits(n as nat));
    }
}

/// Appends `thousands(n, sep)`.
fn push_grouped(n: u128, sep: char, out: &mut Vec<char>)
    ensures
        final(out)@ == old(out)@ + thousands(n as nat, sep),
    decreases n,
{
    if n < 1000 {
        push_decimal(n, out);
        proof {
            assert(n / 10 < 100);
            assert(n / 100 < 10);
            if n >= 10 {
                lemma_digits_nonempty((n / 10) as nat);
                if n >= 100 {
                    assert(decimal_digits((n / 100) as nat).len() == 1);
                    assert(n / 10 / 10 == n / 100);
                }
            }
            assert(decimal_digits(n as nat).len() <= 3);
        }
    } else {
        push_grouped(n / 1000, sep, out);
        let m = n % 1000;
        out.push(sep);
        out.push(digit(m / 100));
        out.push(digit((m / 10) % 10));
        out.push(digit(m % 10));
        proof {
            lemma_thousands_split(n as nat, sep);
            assert(out@ =~= old(out)@ + thousands(n as nat, sep));
        }
    }
}

/// Formats `n` in decimal with `sep` between groups of three digits, counted from the
/// right: `1234567` gives `1,234,567`, and `999` gives `999`.
pub fn fmt_thousands_sep(n: u128, sep: char) -> (r: String)
    ensures
        r@ == thousands(n as nat, sep),
{
    let mut out: Vec<char> = Vec::new();
    push_grouped(n, sep, &mut out);
    assert(out@ =~= thousands(n as nat, sep));
    string_of(&out)
}


/// `a / b` rounded to the nearest integer, halves rounded up.
pub open spec fn rounded_div(a: nat, b: nat) -> nat {
    if 2 * (a % b) >= b {
        a / b + 1
    } else {
        a / b
    }
}

/// `h / 10^places` in decimal with `places` (one or two) digits after the point.
pub open spec fn fixed_point(h: nat, places: nat) -> Seq<char> {
    if places == 1 {
        decimal_digits(h / 10).push('.').push(digit_char((h % 10) as int))
    } else {
        decimal_digits(h / 100).push('.').push(digit_char(((h % 100) / 10) as int)).push(
            digit_char((h % 10) as int),
        )
    }
}

/// `v / t` with `places` digits after the point, rounded half up; `NaN` for `0 / 0` and
/// `inf` for any other division by zero, as a float division would print.
pub open spec fn quotient_text(v: nat, t: nat, scale: nat, places: nat) -> Seq<char> {
    if t == 0 {
        if v == 0 {
            "NaN"@
        } else {
            "inf"@
        }
    } else {
        fixed_point(rounded_div(scale * v, t), places)
    }
}

/// Appends `quotient_text(v, t, scale, places)`.
fn push_quotient(out: &mut Vec<char>, v: u64, t: u128, scale: u128, places: u128)
    requires
        scale == 100 && places == 2 || scale == 1000 && places == 1,
    ensures
        final(out)@ == old(out)@ + quotient_text(v as nat, t as nat, scale as nat, places as nat),
{
    if t == 0 {
        if v == 0 {
            push_str(out, "NaN");
        } else {
            push_str(out, "inf");
        }
        return;
    }
    let a = scale * (v as u128);
    let rem = a % t;
    let h = if rem >= t - rem {
        a / t + 1
    } else {
        a / t
    };
    assert(h == rounded_div(a as nat, t as nat));
    if places == 1 {
        push_decimal(h / 10, out);
        out.push('.');
        out.push(digit(h % 10));
    } else {
        push_decimal(h / 100, out);
        out.push('.');
        out.push(digit((h % 100) / 10));
        out.push(digit(h % 10));
    }
    assert(final(out)@ =~= old(out)@ + quotient_text(
        v as nat,
        t as nat,
        scale as nat,
        places as nat,
    ));
}

/// `v / t` with two digits after the point, rounded half up (`NaN` or `inf` where `t` is 0).
pub fn fmt_ratio(v: u64, t: u128) -> (r: String)
    ensures
        r@ == quotient_text(v as nat, t as nat, 100, 2),
{
    let mut out: Vec<char> = Vec::new();
    push_quotient(&mut out, v, t, 100, 2);
    assert(out@ =~= quotient_text(v as nat, t as nat, 100, 2));
    string_of(&out)
}

/// `v` as a percentage of `t` with one digit after the point, rounded half up (`NaN` or
/// `inf` where `t` is 0).
pub fn fmt_percent(v: u64, t: u128) -> (r: String)
    ensures
        r@ == quotient_text(v as nat, t as nat, 1000, 1),
{
    let mut out: Vec<char> = Vec::new();
    push_quotient(&mut out, v, t, 1000, 1);
    assert(out@ =~= quotient_text(v as nat, t as nat, 1000, 1));
    string_of(&out)
}

/// How a row's share of the total is presented.
#[derive(Clone, Copy, Debug, PartialEq, Eq, Structural)]
pub enum Severity {
    /// At least half of the total.
    High,
    /// At least 30% of the total, and less than half.
    Medium,
    /// Less than 30% of the total, or nothing of a zero total.
    Low,
}

/// The tier of `v` as a percentage of `t`: 50% and above, 30% and above, the rest.
/// The percentage is `100 * v / t` exactly, and each tier includes its lower bound; a
/// nonzero count of a zero total is an infinite percentage, and `0` of `0` none at all.
pub open spec fn severity_of(v: nat, t: nat) -> Severity {
    if t == 0 {
        if v == 0 {
            Severity::Low
        } else {
            Severity::High
        }
    } else if 100 * v >= 50 * t {
        Severity::High
    } else if 100 * v >= 30 * t {
        Severity::Medium
    } else {
        Severity::Low
    }
}

/// The tier of `v` as a percentage of `t`.
pub fn severity(v: u64, t: u128) -> (r: Severity)
    ensures
        r == severity_of(v as nat, t as nat),
{
    if t == 0 {
        return if v == 0 {
            Severity::Low
        } else {
            Severity::High
        };
    }
    let twice = 2 * (v as u128);
    if twice >= t {
        return Severity::High;
    }
    let tenfold = 10 * (v as u128);
    if t <= tenfold / 3 {
        Severity::Medium
    } else {
        Severity::Low
    }
}

/// `m * r / b` and its remainder, for `r < b`, without overflow.
fn scale_fraction(r: u128, b: u128, m: u128) -> (res: (u128, u128))
    requires
        r < b,
    ensures
        res.0 * b + res.1 == m * r,
        res.1 < b,
{
    let mut q: u128 = 0;
    let mut acc: u128 = 0;
    let mut k: u128 = 0;
    while k < m
        invariant
            r < b,
            k <= m,
            q <= k,
            acc < b,
            q * b + acc == k * r,
        decreases m - k,
    {
        if acc >= b - r {
            assert((q + 1) * b + (acc - (b - r)) == (k + 1) * r) by (nonlinear_arith)
                requires
                    q * b + acc == k * r,
            ;
            acc = acc - (b - r);
            q = q + 1;
        } else {
            assert(q * b + (acc + r) == (k + 1) * r) by (nonlinear_arith)
                requires
                    q * b + acc == k * r,
            ;
            acc = acc + r;
        }
        k = k + 1;
    }
    (q, acc)
}

/// `100 * a / b` rounded down, or 0 where `b` is 0, capped at `u128::MAX`.
pub open spec fn percent_floor(a: nat, b: nat) -> nat {
    if b == 0 {
        0
    } else if 100 * a / b > u128::MAX {
        u128::MAX as nat
    } else {
        100 * a / b
    }
}

/// `percent_floor(a, b)`.
pub fn percent_of(a: u128, b: u128) -> (r: u128)
    ensures
        r == percent_floor(a as nat, b as nat),
{
    if b == 0 {
        return 0;
    }
    let q = a / b;
    let (f, rem) = scale_fraction(a % b, b, 100);
    proof {
        lemma_fundamental_div_mod(a as int, b as int);
        assert(a == q * b + a % b) by (nonlinear_arith)
            requires
                a == b * (a / b) + a % b,
                q == a / b,
        ;
        assert(100 * a == (100 * q + f) * b + rem) by (nonlinear_arith)
            requires
                a == q * b + a % b,
                f * b + rem == 100 * (a % b),
        ;
        lemma_fundamental_div_mod_converse(100 * a, b as int, 100 * q + f, rem as int);
    }
    if q > (u128::MAX - f) / 100 {
        assert(100 * q + f > u128::MAX) by (nonlinear_arith)
            requires
                q > (u128::MAX - f) / 100,
        ;
        u128::MAX
    } else {
        assert(100 * q + f <= u128::MAX) by (nonlinear_arith)
            requires
                q <= (u128::MAX - f) / 100,
                f <= u128::MAX,
        ;
        100 * q + f
    }
}


/// The separator between two rows of a report.
pub const DASHES: &'static str =
    "-----------------------------------------------------------------------";

/// The heading of the columns of a cache report.
pub const CACHE_COLUMNS: &'static str = " Ir  I1mr ILmr  Dr  D1mr DLmr  Dw  D1mw DLmw";

/// One line of a rendered report, with the tier of the row it shows, if any.
pub struct DisplayLine {
    pub text: String,
    pub severity: Option<Severity>,
}

/// What a sequence of lines reads.
pub open spec fn line_views(v: Seq<DisplayLine>) -> Seq<(Seq<char>, Option<Severity>)> {
    v.map_values(|l: DisplayLine| (l.text@, l.severity))
}

/// `a + b`, capped at `u128::MAX`.
pub open spec fn sat_sum(a: nat, b: nat) -> nat {
    if a + b > u128::MAX {
        u128::MAX as nat
    } else {
        a + b
    }
}

/// A total and its share of `base` in whole percent: `label 1,234 (12%)`.
pub open spec fn labelled_share(label: Seq<char>, a: nat, base: nat) -> Seq<char> {
    label + thousands(a, ',') + " ("@ + thousands(percent_floor(a, base), ',') + "%)"@
}

/// The first `k` values of a cache row, each as a share of its column's total and
/// followed by a space.
pub open spec fn ratios_text(x: Seq<u64>, totals: Seq<u128>, k: int) -> Seq<char>
    decreases k,
{
    if k <= 0 {
        Seq::empty()
    } else {
        ratios_text(x, totals, k - 1) + quotient_text(
            x[k - 1] as nat,
            totals[k - 1] as nat,
            100,
            2,
        ) + " "@
    }
}

/// The lines of a report: its totals, then each shown row followed by a separator.
/// A cache row shows each value as a share of its column's total, then the name; a
/// call row shows its count, its percentage of the total and the name, with its tier.
pub open spec fn report_lines(p: Profiler) -> Seq<(Seq<char>, Option<Severity>)> {
    match p {
        Profiler::CacheGrind { ir, i1mr, ilmr, dr, d1mr, dlmr, dw, d1mw, dlmw, data, functs } => {
            let acc = sat_sum(sat_sum(ir as nat, dr as nat), dw as nat);
            let totals = seq![ir, i1mr, ilmr, dr, d1mr, dlmr, dw, d1mw, dlmw];
            let k = if data@.len() < functs@.len() {
                data@.len()
            } else {
                functs@.len()
            };
            seq![
                (""@, None::<Severity>),
                ("Total Memory Accesses..."@ + thousands(acc, ','), None),
                (""@, None),
                (labelled_share("Total L1 I-Cache Misses..."@, i1mr as nat, acc), None),
                (labelled_share("Total LL I-Cache Misses..."@, ilmr as nat, acc), None),
                (
                    labelled_share(
                        "Total L1 D-Cache Misses..."@,
                        sat_sum(d1mr as nat, d1mw as nat),
                        acc,
                    ),
                    None,
                ),
                (
                    labelled_share(
                        "Total LL D-Cache Misses..."@,
                        sat_sum(dlmr as nat, dlmw as nat),
                        acc,
                    ),
                    None,
                ),
                (""@, None),
                (CACHE_COLUMNS@, None),
            ] + Seq::new(
                (2 * k) as nat,
                |i: int|
                    if i % 2 == 0 {
                        (ratios_text(data@[i / 2], totals, 9) + functs@[i / 2]@, None)
                    } else {
                        (DASHES@, None)
                    },
            )
        },
        Profiler::CallGrind { total_instructions, instructions, functs } => {
            let k = if instructions@.len() < functs@.len() {
                instructions@.len()
            } else {
                functs@.len()
            };
            seq![
                (""@, None::<Severity>),
                ("Total Instructions..."@ + thousands(total_instructions as nat, ','), None),
                (""@, None),
            ] + Seq::new(
                (2 * k) as nat,
                |i: int|
                    if i % 2 == 0 {
                        (
                            thousands(instructions@[i / 2] as nat, ',') + " ("@ + quotient_text(
                                instructions@[i / 2] as nat,
                                total_instructions as nat,
                                1000,
                                1,
                            ) + "%) "@ + functs@[i / 2]@,
                            Some(severity_of(instructions@[i / 2] as nat, total_instructions as nat)),
                        )
                    } else {
                        (DASHES@, None)
                    },
            )
        },
    }
}

fn plain_line(out: &Vec<char>) -> (r: DisplayLine)
    ensures
        r.text@ == out@,
        r.severity is None,
{
    DisplayLine { text: string_of(out), severity: None }
}

fn push_share(out: &mut Vec<char>, label: &str, a: u128, base: u128)
    ensures
        final(out)@ == old(out)@ + labelled_share(label@, a as nat, base as nat),
{
    push_str(out, label);
    push_grouped(a, ',', out);
    push_str(out, " (");
    push_grouped(percent_of(a, base), ',', out);
    push_str(out, "%)");
    assert(final(out)@ =~= old(out)@ + labelled_share(label@, a as nat, base as nat));
}

fn share_line(label: &str, a: u128, base: u128) -> (r: DisplayLine)
    ensures
        r.text@ == labelled_share(label@, a as nat, base as nat),
        r.severity is None,
{
    let mut out: Vec<char> = Vec::new();
    push_share(&mut out, label, a, base);
    assert(out@ =~= labelled_share(label@, a as nat, base as nat));
    plain_line(&out)
}

fn text_line(s: &str) -> (r: DisplayLine)
    ensures
        r.text@ == s@,
        r.severity is None,
{
    plain_line(&chars_of(s))
}

/// Appends `ratios_text(x, totals, 9)`.
fn push_ratios(out: &mut Vec<char>, x: &Vec<u64>, totals: &Vec<u128>)
    requires
        x@.len() == 9,
        totals@.len() == 9,
    ensures
        final(out)@ == old(out)@ + ratios_text(x@, totals@, 9),
{
    let mut j: usize = 0;
    while j < 9
        invariant
            x@.len() == 9,
            totals@.len() == 9,
            j <= 9,
            out@ == old(out)@ + ratios_text(x@, totals@, j as int),
        decreases 9 - j,
    {
        push_quotient(out, x[j], totals[j], 100, 2);
        push_str(out, " ");
        j = j + 1;
        assert(out@ =~= old(out)@ + ratios_text(x@, totals@, j as int));
    }
}

impl Profiler {
    /// The report as lines of text: the totals, then each shown row and a separator.
    pub fn display_lines(&self) -> (r: Vec<DisplayLine>)
        requires
            self matches Profiler::CacheGrind { data, .. } ==> has_width(data@, 9),
        ensures
            line_views(r@) == report_lines(*self),
    {
        let mut lines: Vec<DisplayLine> = Vec::new();
        match self {
            Profiler::CacheGrind { ir, i1mr, ilmr, dr, d1mr, dlmr, dw, d1mw, dlmw, data, functs } => {
                let acc = ir.saturating_add(*dr).saturating_add(*dw);
                let totals = vec![*ir, *i1mr, *ilmr, *dr, *d1mr, *dlmr, *dw, *d1mw, *dlmw];
                let mut head: Vec<char> = Vec::new();
                push_str(&mut head, "Total Memory Accesses...");
                push_grouped(acc, ',', &mut head);
                lines.push(text_line(""));
                lines.push(plain_line(&head));
                lines.push(text_line(""));
                lines.push(share_line("Total L1 I-Cache Misses...", *i1mr, acc));
                lines.push(share_line("Total LL I-Cache Misses...", *ilmr, acc));
                lines.push(share_line("Total L1 D-Cache Misses...", d1mr.saturating_add(*d1mw), acc));
                lines.push(share_line("Total LL D-Cache Misses...", dlmr.saturating_add(*dlmw), acc));
                lines.push(text_line(""));
                lines.push(text_line(CACHE_COLUMNS));
                let ghost all = report_lines(*self);
                assert(line_views(lines@) =~= all.take(9));
                let n = data.len();
                let k = if n < functs.len() {
                    n
                } else {
                    functs.len()
                };
                let mut i: usize = 0;
                while i < k
                    invariant
                        all == report_lines(*self),
                        *self == (Profiler::CacheGrind {
                            ir: *ir,
                            i1mr: *i1mr,
                            ilmr: *ilmr,
                            dr: *dr,
                            d1mr: *d1mr,
                            dlmr: *dlmr,
                            dw: *dw,
                            d1mw: *d1mw,
                            dlmw: *dlmw,
                            data: *data,
                            functs: *functs,
                        }),
                        has_width(data@, 9),
                        totals@ == seq![*ir, *i1mr, *ilmr, *dr, *d1mr, *dlmr, *dw, *d1mw, *dlmw],
                        k <= data@.len(),
                        k <= functs@.len(),
                        k == (if data@.len() < functs@.len() { data@.len() } else { functs@.len() }),
                        i <= k,
                        all.len() == 9 + 2 * k,
                        line_views(lines@) == all.take(9 + 2 * i),
                    decreases k - i,
                {
                    let x = data.row(i);
                    let mut text: Vec<char> = Vec::new();
                    push_ratios(&mut text, &x, &totals);
                    push_str(&mut text, functs[i].as_str());
                    let ghost before = line_views(lines@);
                    lines.push(plain_line(&text));
                    lines.push(text_line(DASHES));
                    proof {
                        assert(x@ == data@[i as int]);
                        assert((2 * i) % 2 == 0 && (2 * i) / 2 == i);
                        assert((2 * i + 1) % 2 == 1);
                        assert(all[9 + 2 * i] == (text@, None::<Severity>));
                        assert(all[9 + 2 * i + 1] == (DASHES@, None::<Severity>));
                        assert(line_views(lines@) =~= before.push((text@, None::<Severity>)).push(
                            (DASHES@, None::<Severity>),
                        ));
                        assert(all.take(9 + 2 * (i + 1)) =~= all.take(9 + 2 * i).push(
                            all[9 + 2 * i],
                        ).push(all[9 + 2 * i + 1]));
                    }
                    i = i + 1;
                }
                assert(all.take(9 + 2 * k) =~= all);
            },
            Profiler::CallGrind { total_instructions, instructions, functs } => {
                let mut head: Vec<char> = Vec::new();
                push_str(&mut head, "Total Instructions...");
                push_grouped(*total_instructions, ',', &mut head);
                lines.push(text_line(""));
                lines.push(plain_line(&head));
                lines.push(text_line(""));
                let ghost all = report_lines(*self);
                assert(line_views(lines@) =~= all.take(3));
                let k = if instructions.len() < functs.len() {
                    instructions.len()
                } else {
                    functs.len()
                };
                let mut i: usize = 0;
                while i < k
                    invariant
                        all == report_lines(*self),
                        *self == (Profiler::CallGrind {
                            total_instructions: *total_instructions,
                            instructions: *instructions,
                            functs: *functs,
                        }),
                        k <= instructions@.len(),
                        k <= functs@.len(),
                        k == (if instructions@.len() < functs@.len() { instructions@.len() } else { functs@.len() }),
                        i <= k,
                        all.len() == 3 + 2 * k,
                        line_views(lines@) == all.take(3 + 2 * i),
                    decreases k - i,
                {
                    let x = instructions[i];
                    let mut text: Vec<char> = Vec::new();
                    push_grouped(x as u128, ',', &mut text);
                    push_str(&mut text, " (");
                    push_quotient(&mut text, x, *total_instructions, 1000, 1);
                    push_str(&mut text, "%) ");
                    push_str(&mut text, functs[i].as_str());
                    let tier = severity(x, *total_instructions);
                    let ghost before = line_views(lines@);
                    lines.push(DisplayLine { text: string_of(&text), severity: Some(tier) });
                    lines.push(text_line(DASHES));
                    proof {
                        assert((2 * i) % 2 == 0 && (2 * i) / 2 == i);
                        assert((2 * i + 1) % 2 == 1);
                        assert(all[3 + 2 * i] == (text@, Some(tier)));
                        assert(all[3 + 2 * i + 1] == (DASHES@, None::<Severity>));
                        assert(line_views(lines@) =~= before.push((text@, Some(tier))).push(
                            (DASHES@, None::<Severity>),
                        ));
                        assert(all.take(3 + 2 * (i + 1)) =~= all.take(3 + 2 * i).push(
                            all[3 + 2 * i],
                        ).push(all[3 + 2 * i + 1]));
                    }
                    i = i + 1;
                }
                assert(all.take(3 + 2 * k) =~= all);
            },
        }
        lines
    }
}

} // verus!
