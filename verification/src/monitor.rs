//! What the monitor shows on each update, as text: the CPU load gauges,
//! the memory use and the uptime. The caller adds the colours and prints.
use vstd::prelude::*;
use rounded_div::RoundedDiv;
use crate::memory::{
    f32_difference, lemma_small_amounts_exact, memory_text, nearest_f32, nearest_f32_value, Memory,
};
use crate::text::{
    all_digits, digits_value, is_canonical_numeral, lemma_decimal_len, lemma_decimal_reads_back,
    lemma_skip_spaces, skip_spaces, spaces,
    align_left, align_right, decimal, push_align_left, push_align_right, push_char, push_decimal,
    push_repeated, push_zero_padded, zero_padded,
};

verus! {

/// The command line of the monitor.
pub struct Args {
    /// Colour scheme: 'w' for white, 'b' for black, 's' for standard.
    pub color: char,
    /// Whether to monitor the GPU temperature.
    pub gpu: bool,
    /// Seconds between updates; 0 asks for the default.
    pub delay: usize,
}

/// The seconds between updates: the given delay, or 2 for 0.
pub fn effective_delay(delay: usize) -> (d: usize)
    ensures
        d == if delay == 0 {
            2
        } else {
            delay
        },
        d > 0,
{
    match delay {
        0 => 2,
        _ => delay,
    }
}

/// `dividend / divisor`, rounded.
///
/// Trusted: wraps `<usize as rounded_div::RoundedDiv>::rounded_div` of
/// rounded-div 0.1.4, whose source computes the quotient plus one exactly
/// when twice the remainder, shifted left within the word, is at least the
/// divisor. It divides by `divisor`, so 0 is not taken.
#[verifier::external_body]
fn rounded_div(dividend: usize, divisor: usize) -> (r: usize)
    requires
        divisor > 0,
    ensures
        r == dividend / divisor + if (2 * (dividend % divisor)) % (usize::MAX as int + 1) >= divisor {
            1int
        } else {
            0int
        },
{
    dividend.rounded_div(divisor)
}

/// The number of bars for a load of `percent`: `percent / 5`, rounded to
/// the nearest, a half rounded up.
pub open spec fn bar_count(percent: nat) -> nat {
    percent / 5 + if 2 * (percent % 5) >= 5 {
        1nat
    } else {
        0nat
    }
}

/// The load of a CPU in percent: the time it worked between two samples,
/// divided by the seconds between them.
pub open spec fn load_percent(time: nat, time_prev: nat, delay: nat) -> nat {
    ((time - time_prev) as nat) / delay
}

/// The label of CPU `i`: "CPU" and the numeral of `i + 1`.
pub open spec fn cpu_label(i: nat) -> Seq<char> {
    seq!['C', 'P', 'U'] + decimal(i + 1)
}

/// The gauge for a load of `percent`: its bars left-aligned in a column of
/// 20 between brackets, then the percentage right-aligned in 3 and '%'.
pub open spec fn cpu_gauge(percent: nat) -> Seq<char> {
    seq!['['] + align_left(Seq::new(bar_count(percent), |k: int| '|'), 20) + seq![']'] + align_right(
        decimal(percent),
        3,
    ) + seq!['%']
}

/// One line of the CPU load display: a label to print in the CPU colour,
/// and a gauge to print after it.
pub struct CpuLoadLine {
    pub label: String,
    pub gauge: String,
}

proof fn lemma_short_decimal(n: nat)
    requires
        n < 1000,
    ensures
        decimal(n).len() <= 3,
{
    if n >= 10 {
        let m = n / 10;
        assert(m < 100);
        if m >= 10 {
            assert(m / 10 < 10);
            assert(decimal(m / 10).len() == 1);
            assert(decimal(m).len() == 2);
        } else {
            assert(decimal(m).len() == 1);
        }
        assert(decimal(n) == decimal(m).push(crate::text::digit_char(n % 10)));
    }
}

/// Up to 100 percent every gauge has the same width, 26 characters, so
/// the gauges of all CPUs line up.
pub proof fn lemma_gauge_width(percent: nat)
    requires
        percent <= 100,
    ensures
        cpu_gauge(percent).len() == 26,
{
    lemma_short_decimal(percent);
    assert(bar_count(percent) <= 20);
}

/// The load line of each CPU, from the CPU times of this sample and of the
/// previous one, taken `delay` seconds apart.
pub fn cpu_load_lines(delay: usize, cpu_time: &[usize], cpu_time_prev: &[usize]) -> (lines: Vec<
    CpuLoadLine,
>)
    requires
        delay > 0,
        cpu_time_prev.len() >= cpu_time.len(),
        forall|i: int| 0 <= i < cpu_time.len() ==> cpu_time_prev[i] <= #[trigger] cpu_time[i],
    ensures
        lines.len() == cpu_time.len(),
        forall|i: int|
            0 <= i < cpu_time.len() ==> {
                &&& (#[trigger] lines[i]).label@ == cpu_label(i as nat)
                &&& lines[i].gauge@ == cpu_gauge(
                    load_percent(cpu_time[i] as nat, cpu_time_prev[i] as nat, delay as nat),
                )
            },
{
    let mut lines: Vec<CpuLoadLine> = Vec::new();
    let mut i: usize = 0;
    while i < cpu_time.len()
        invariant
            delay > 0,
            cpu_time_prev.len() >= cpu_time.len(),
            forall|i: int| 0 <= i < cpu_time.len() ==> cpu_time_prev[i] <= #[trigger] cpu_time[i],
            i <= cpu_time.len(),
            lines.len() == i,
            forall|j: int|
                0 <= j < i ==> {
                    &&& (#[trigger] lines[j]).label@ == cpu_label(j as nat)
                    &&& lines[j].gauge@ == cpu_gauge(
                        load_percent(cpu_time[j] as nat, cpu_time_prev[j] as nat, delay as nat),
                    )
                },
        decreases cpu_time.len() - i,
    {
        let percent = (cpu_time[i] - cpu_time_prev[i]) / delay;
        let bars = rounded_div(percent, 5);
        proof {
            vstd::arithmetic::div_mod::lemma_small_mod(
                (2 * (percent % 5)) as nat,
                (usize::MAX as int + 1) as nat,
            );
        }
        assert(bars == bar_count(percent as nat));
        let mut label = String::new();
        push_char(&mut label, 'C');
        push_char(&mut label, 'P');
        push_char(&mut label, 'U');
        push_decimal(&mut label, i as u128 + 1);
        assert(label@ =~= cpu_label(i as nat));
        let mut bar_text = String::new();
        push_repeated(&mut bar_text, '|', bars);
        assert(bar_text@ =~= Seq::new(bar_count(percent as nat), |k: int| '|'));
        let mut number = String::new();
        push_decimal(&mut number, percent as u128);
        let mut gauge = String::new();
        push_char(&mut gauge, '[');
        push_align_left(&mut gauge, bar_text.as_str(), 20);
        push_char(&mut gauge, ']');
        push_align_right(&mut gauge, number.as_str(), 3);
        push_char(&mut gauge, '%');
        assert(gauge@ =~= cpu_gauge(percent as nat));
        lines.push(CpuLoadLine { label, gauge });
        i = i + 1;
    }
    lines
}

/// The integer value of the `f32` that subtracting `b` from `a` gives.
fn f32_difference_value(a: u128, b: u128) -> (r: i128)
    requires
        a <= 0x4_0000_0000_0000_0000,
        b <= 0x4_0000_0000_0000_0000,
    ensures
        r == f32_difference(a as nat, b as nat),
{
    if a >= b {
        nearest_f32_value(a - b) as i128
    } else {
        -(nearest_f32_value(b - a) as i128)
    }
}

/// The amount in use, `total - available` KiB, as the monitor's `f32`
/// arithmetic gives it.
pub open spec fn used_amount(total: nat, available: nat) -> int {
    f32_difference(nearest_f32(total), nearest_f32(available))
}

/// The text after the memory label: ':' and, right-aligned in a column of
/// `width`, the amount in use, '/' and the total.
pub open spec fn memory_use_text(used: int, total: Seq<char>, width: nat) -> Seq<char> {
    seq![':'] + align_right(memory_text(used) + seq!['/'] + total, width)
}

fn push_memory_use(s: &mut String, total: u64, available: u64, total_text: String, width: usize)
    requires
        used_amount(total as nat, available as nat) >= -16777216,
    ensures
        final(s)@ == old(s)@ + memory_use_text(
            used_amount(total as nat, available as nat),
            total_text@,
            width as nat,
        ),
{
    let t = nearest_f32_value(total as u128);
    let a = nearest_f32_value(available as u128);
    let used = f32_difference_value(t, a);
    let mut fraction = Memory::format(used);
    push_char(&mut fraction, '/');
    fraction.append(total_text.as_str());
    let ghost start = s@;
    push_char(s, ':');
    push_align_right(s, fraction.as_str(), width);
    assert(s@ =~= start + memory_use_text(
        used_amount(total as nat, available as nat),
        total_text@,
        width as nat,
    ));
}

/// The texts after the "RAM" and "Swap" labels: the memory in use out of
/// the total, right-aligned so that the lines end in the same column. The
/// total shown is the saved text where there is one, which is always the
/// total formatted: the lines are the same whether or not the totals were
/// saved.
pub fn memory_use_lines(mem_available: &Memory, mem_total: &Memory) -> (lines: (String, String))
    requires
        used_amount(mem_total.ram_kib(), mem_available.ram_kib()) >= -16777216,
        used_amount(mem_total.swap_kib(), mem_available.swap_kib()) >= -16777216,
    ensures
        lines.0@ == memory_use_text(
            used_amount(mem_total.ram_kib(), mem_available.ram_kib()),
            memory_text(nearest_f32(mem_total.ram_kib()) as int),
            26,
        ),
        lines.1@ == memory_use_text(
            used_amount(mem_total.swap_kib(), mem_available.swap_kib()),
            memory_text(nearest_f32(mem_total.swap_kib()) as int),
            25,
        ),
{
    let mut ram = String::new();
    push_memory_use(&mut ram, mem_total.ram(), mem_available.ram(), mem_total.ram_text(), 26);
    let mut swap = String::new();
    push_memory_use(&mut swap, mem_total.swap(), mem_available.swap(), mem_total.swap_text(), 25);
    (ram, swap)
}

/// The text after the "Uptime" label: ": ", the hours right-aligned in a
/// column of 16, then the minutes and the seconds in two digits each.
pub open spec fn uptime_display(secs: nat) -> Seq<char> {
    seq![':', ' '] + align_right(decimal(secs / 3600), 16) + seq![':'] + zero_padded(
        (secs / 60) % 60,
        2,
    ) + seq![':'] + zero_padded(secs % 60, 2)
}

/// The uptime line's text for `uptime_sec` whole seconds since boot.
pub fn uptime_line(uptime_sec: u64) -> (s: String)
    ensures
        s@ == uptime_display(uptime_sec as nat),
{
    let hours = uptime_sec / (60 * 60);
    let minutes = uptime_sec / 60 % 60;
    let seconds = uptime_sec % 60;
    let mut s = String::new();
    push_char(&mut s, ':');
    push_char(&mut s, ' ');
    let mut hour_text = String::new();
    push_decimal(&mut hour_text, hours as u128);
    push_align_right(&mut s, hour_text.as_str(), 16);
    push_char(&mut s, ':');
    push_zero_padded(&mut s, minutes as u128, 2);
    push_char(&mut s, ':');
    push_zero_padded(&mut s, seconds as u128, 2);
    assert(s@ =~= uptime_display(uptime_sec as nat));
    s
}

/// The hours, minutes and seconds shown add up to the uptime, and the
/// minutes and seconds stay below 60.
pub proof fn lemma_uptime_parts(secs: nat)
    ensures
        (secs / 3600) * 3600 + ((secs / 60) % 60) * 60 + secs % 60 == secs,
        (secs / 60) % 60 < 60,
        secs % 60 < 60,
{
    assert((secs / 3600) * 3600 + ((secs / 60) % 60) * 60 + secs % 60 == secs) by (nonlinear_arith);
}

/// A number below 100 padded to two digits reads back as itself.
proof fn lemma_two_digits(m: nat)
    requires
        m < 100,
    ensures
        zero_padded(m, 2).len() == 2,
        all_digits(zero_padded(m, 2)),
        digits_value(zero_padded(m, 2)) == m,
{
    lemma_decimal_reads_back(m);
    if m < 10 {
        let z = zero_padded(m, 2);
        assert(z =~= seq!['0'].push(crate::text::digit_char(m)));
        assert(seq!['0'].drop_last() =~= Seq::<char>::empty());
        assert(digits_value(Seq::<char>::empty()) == 0);
        assert(seq!['0'].last() == '0');
        assert(digits_value(seq!['0']) == 0);
        assert(z.drop_last() =~= seq!['0']);
    } else {
        vstd::arithmetic::power::lemma_pow1(10);
        vstd::arithmetic::power::lemma_pow_adds(10, 1, 1);
        lemma_decimal_len(m, 2, 100);
        assert(decimal(m) == decimal(m / 10).push(crate::text::digit_char(m % 10)));
        lemma_decimal_reads_back(m / 10);
        assert(zero_padded(m, 2) == decimal(m));
    }
}

/// The uptime line reads back as the uptime: after ": " come the hours,
/// a full numeral without leading zeros right-aligned in a column of 16,
/// then ':' and the minutes in two digits, then ':' and the seconds in two
/// digits; hours * 3600 + minutes * 60 + seconds is the uptime, with
/// minutes and seconds below 60.
pub proof fn lemma_uptime_reads_back(secs: nat)
    requires
        secs <= u64::MAX,
    ensures
        ({
            let t = uptime_display(secs);
            let hours = skip_spaces(t.subrange(2, 18));
            let minutes = t.subrange(19, 21);
            let seconds = t.subrange(22, 24);
            &&& t.len() == 24
            &&& t[0] == ':' && t[1] == ' ' && t[18] == ':' && t[21] == ':'
            &&& t.subrange(2, 18) == spaces((16 - hours.len()) as nat) + hours
            &&& is_canonical_numeral(hours)
            &&& all_digits(minutes)
            &&& all_digits(seconds)
            &&& digits_value(hours) * 3600 + digits_value(minutes) * 60 + digits_value(seconds)
                == secs
            &&& digits_value(minutes) < 60
            &&& digits_value(seconds) < 60
        }),
{
    let h = decimal(secs / 3600);
    let m = (secs / 60) % 60;
    let sec = secs % 60;
    lemma_decimal_reads_back(secs / 3600);
    assert(vstd::arithmetic::power::pow(10, 16) == 10000000000000000) by {
        reveal_with_fuel(vstd::arithmetic::power::pow, 17);
    }
    lemma_decimal_len(secs / 3600, 16, 10000000000000000);
    lemma_two_digits(m);
    lemma_two_digits(sec);
    lemma_uptime_parts(secs);
    let field = spaces((16 - h.len()) as nat) + h;
    assert(align_right(h, 16) == field || h.len() == 16);
    assert(h.len() == 16 ==> field =~= h);
    let t = uptime_display(secs);
    assert(t =~= seq![':', ' '] + field + seq![':'] + zero_padded(m, 2) + seq![':'] + zero_padded(
        sec,
        2,
    ));
    assert(t.subrange(2, 18) =~= field);
    assert(t.subrange(19, 21) =~= zero_padded(m, 2));
    assert(t.subrange(22, 24) =~= zero_padded(sec, 2));
    lemma_skip_spaces((16 - h.len()) as nat, h);
}

/// Each CPU's label is "CPU" and then the full numeral of its number,
/// counting from 1: the rest of the label reads back as `i + 1`.
pub proof fn lemma_cpu_label_reads_back(i: nat)
    ensures
        cpu_label(i).take(3) == seq!['C', 'P', 'U'],
        is_canonical_numeral(cpu_label(i).skip(3)),
        digits_value(cpu_label(i).skip(3)) == i + 1,
{
    lemma_decimal_reads_back(i + 1);
    assert(cpu_label(i).take(3) =~= seq!['C', 'P', 'U']);
    assert(cpu_label(i).skip(3) =~= decimal(i + 1));
}

/// Different CPUs get different labels, so the lines of all CPUs are told
/// apart.
pub proof fn lemma_cpu_labels_distinct(i: nat, j: nat)
    requires
        i != j,
    ensures
        cpu_label(i) != cpu_label(j),
{
    lemma_cpu_label_reads_back(i);
    lemma_cpu_label_reads_back(j);
}

/// The line drawn above and below the display: 30 dashes.
pub fn separator_line() -> (s: String)
    ensures
        s@ == Seq::new(30, |i: int| '-'),
{
    let mut s = String::new();
    push_repeated(&mut s, '-', 30);
    assert(s@ =~= Seq::new(30, |i: int| '-'));
    s
}

} // verus!
