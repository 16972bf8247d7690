//! Amounts of memory, as `/proc/meminfo` reports them in KiB, and their
//! display with a binary unit.
//!
//! The monitor keeps each amount as an `f32` and does its arithmetic in
//! that type. An integer amount of KiB becomes an `f32` by rounding to the
//! nearest value with a 24-bit significand, ties to an even significand; the
//! difference of two such values is rounded the same way. Every such value
//! is an integer, so this module computes with integers what the monitor
//! computes in `f32`, and says exactly which digits it shows.
use vstd::prelude::*;
use vstd::arithmetic::div_mod::lemma_fundamental_div_mod_converse;
use crate::error::{Fault, InfoError};
use crate::text::{
    chars_of, copy_chars, decimal, digit_char, first_index, keep_non_empty, non_empty, parse_unsigned,
    parse_unsigned_upto, position_of, push_char, push_decimal, split, split_at_any, string_of,
    views,
};

verus! {

/// The largest integer below which every integer is an `f32`.
pub open spec fn f32_exact_limit() -> nat {
    0x100_0000
}

/// The distance between neighbouring `f32` values around `v`: 1 below
/// 2^24, doubling with every further binary digit of `v`.
pub open spec fn f32_unit(v: nat) -> nat
    decreases v,
{
    if v < f32_exact_limit() {
        1
    } else {
        2 * f32_unit(v / 2)
    }
}

/// `n / d` rounded to the nearest integer, a tie going to the even one.
#[verifier::opaque]
pub open spec fn round_half_even(n: nat, d: nat) -> nat {
    let q = n / d;
    let r = n % d;
    if 2 * r > d || (2 * r == d && q % 2 == 1) {
        q + 1
    } else {
        q
    }
}

/// The `f32` nearest to the integer `v`, ties to an even significand: the
/// value that `v as f32` holds.
pub open spec fn nearest_f32(v: nat) -> nat {
    round_half_even(v, f32_unit(v)) * f32_unit(v)
}

/// The `f32` that subtracting the `f32` value `b` from the `f32` value `a`
/// gives: the exact difference, rounded as above.
pub open spec fn f32_difference(a: nat, b: nat) -> int {
    if a >= b {
        nearest_f32((a - b) as nat) as int
    } else {
        -(nearest_f32((b - a) as nat) as int)
    }
}

/// Every amount below 2^24 KiB is held exactly.
pub proof fn lemma_small_amounts_exact(v: nat)
    requires
        v < f32_exact_limit(),
    ensures
        nearest_f32(v) == v,
{
    reveal(round_half_even);
    assert(f32_unit(v) == 1);
    assert(v / 1 == v && v % 1 == 0) by (nonlinear_arith);
}

/// The value that `v as f32` holds, as an integer.
pub fn nearest_f32_value(v: u128) -> (r: u128)
    requires
        v < 0x8000_0000_0000_0000_0000_0000_0000_0000,
    ensures
        r == nearest_f32(v as nat),
        r <= 2 * v,
{
    let mut m: u128 = v;
    let mut unit: u128 = 1;
    while m >= 0x100_0000
        invariant
            unit >= 1,
            unit * m <= v,
            unit == 1 || unit * 0x80_0000 <= v,
            v < 0x8000_0000_0000_0000_0000_0000_0000_0000,
            f32_unit(v as nat) == unit * f32_unit(m as nat),
        decreases m,
    {
        assert(unit * 2 <= v) by (nonlinear_arith)
            requires
                unit * m <= v,
                m >= 0x100_0000,
                unit >= 1,
        ;
        assert(unit * 2 * 0x80_0000 <= v) by (nonlinear_arith)
            requires
                unit * m <= v,
                m >= 0x100_0000,
                unit >= 1,
        ;
        assert(unit * 2 * (m / 2) <= unit * m) by (nonlinear_arith)
            requires
                unit >= 1,
        ;
        assert(f32_unit(m as nat) == 2 * f32_unit((m / 2) as nat));
        assert(unit * f32_unit(m as nat) == (unit * 2) * f32_unit((m / 2) as nat)) by (nonlinear_arith)
            requires
                f32_unit(m as nat) == 2 * f32_unit((m / 2) as nat),
        ;
        m = m / 2;
        unit = unit * 2;
    }
    assert(f32_unit(m as nat) == 1);
    assert(unit * f32_unit(m as nat) == unit) by (nonlinear_arith)
        requires
            f32_unit(m as nat) == 1,
    ;
    assert(f32_unit(v as nat) == unit);
    let q = v / unit;
    let rem = v % unit;
    proof {
        vstd::arithmetic::div_mod::lemma_fundamental_div_mod(v as int, unit as int);
    }
    reveal(round_half_even);
    let up = 2 * rem > unit || (2 * rem == unit && q % 2 == 1);
    assert(v == unit * q + rem);
    if up {
        assert(unit <= v) by (nonlinear_arith)
            requires
                unit == 1 || unit * 0x80_0000 <= v,
                unit >= 1,
                v == unit * q + rem,
                rem < unit,
                2 * rem >= unit,
        ;
        assert((q + 1) * unit <= 2 * v) by (nonlinear_arith)
            requires
                v == unit * q + rem,
                unit <= v,
                rem < unit,
        ;
        (q + 1) * unit
    } else {
        assert(q * unit <= v) by (nonlinear_arith)
            requires
                v == unit * q + rem,
                rem >= 0,
        ;
        q * unit
    }
}


/// `n` with two decimals: the numeral of `n / 100`, a point, and the two
/// digits of `n % 100`, as `{:.2}` writes the number `n / 100`.
pub open spec fn two_decimals(n: nat) -> Seq<char> {
    decimal(n / 100) + seq!['.', digit_char((n % 100) / 10), digit_char(n % 10)]
}

/// The numeral of the integer `x`, with a minus sign when it is negative.
pub open spec fn signed_decimal(x: int) -> Seq<char> {
    if x < 0 {
        seq!['-'] + decimal((-x) as nat)
    } else {
        decimal(x as nat)
    }
}

/// What the monitor shows for `x` KiB: above 1000000 the number of GiB
/// (`x / 2^20`) with two decimals and "Gi"; above 1000 the number of MiB
/// (`x / 1024`) with two decimals and "Mi"; else the number of KiB and "Ki".
/// The decimals are rounded to the nearest, a tie going to the even digit.
pub open spec fn memory_text(x: int) -> Seq<char> {
    if x > 1000000 {
        two_decimals(round_half_even((100 * x) as nat, 1048576)) + seq!['G', 'i']
    } else if x > 1000 {
        two_decimals(round_half_even((100 * x) as nat, 1024)) + seq!['M', 'i']
    } else {
        signed_decimal(x) + seq!['K', 'i']
    }
}

/// Rounding `100 * x / d` splits into the whole units of `x` and the
/// rounded hundredths of what is left over.
proof fn lemma_scaled_rounding(x: nat, d: nat)
    requires
        d > 0,
    ensures
        round_half_even(100 * x, d) == 100 * (x / d) + round_half_even(100 * (x % d), d),
        round_half_even(100 * (x % d), d) <= 100,
{
    reveal(round_half_even);
    let q = x / d;
    let r = x % d;
    vstd::arithmetic::div_mod::lemma_fundamental_div_mod(x as int, d as int);
    let q2 = (100 * r) / d;
    let r2 = (100 * r) % d;
    vstd::arithmetic::div_mod::lemma_fundamental_div_mod((100 * r) as int, d as int);
    assert(100 * x == (100 * q + q2) * d + r2) by (nonlinear_arith)
        requires
            x == d * q + r,
            100 * r == d * q2 + r2,
    ;
    lemma_fundamental_div_mod_converse((100 * x) as int, d as int, (100 * q + q2) as int, r2 as int);
    assert((100 * q + q2) % 2 == q2 % 2) by (nonlinear_arith);
    assert(q2 < 100) by (nonlinear_arith)
        requires
            r < d,
            100 * r == d * q2 + r2,
            r2 >= 0,
            d > 0,
    ;
}

fn round_half_even_small(n: u64, d: u64) -> (r: u64)
    requires
        d > 0,
        n <= 0xffff_ffff,
        d <= 0xffff_ffff,
    ensures
        r == round_half_even(n as nat, d as nat),
{
    reveal(round_half_even);
    let q = n / d;
    let rem = n % d;
    if 2 * rem > d || (2 * rem == d && q % 2 == 1) {
        q + 1
    } else {
        q
    }
}

/// The whole part and the hundredths of `x / d`, rounded to hundredths.
proof fn lemma_hundredths(x: nat, d: nat, t: nat)
    requires
        d > 0,
        t == round_half_even(100 * (x % d), d),
    ensures
        ({
            let n = round_half_even(100 * x, d);
            &&& n / 100 == x / d + t / 100
            &&& n % 100 == t % 100
        }),
{
    lemma_scaled_rounding(x, d);
    let n = round_half_even(100 * x, d);
    assert(n == 100 * (x / d) + t);
    lemma_fundamental_div_mod_converse(n as int, 100, (x / d + t / 100) as int, (t % 100) as int);
}

/// Appends `x / d` with two decimals, rounded as `memory_text` says.
fn push_hundredths(s: &mut String, x: u128, d: u64)
    requires
        d == 1024 || d == 1048576,
    ensures
        final(s)@ == old(s)@ + two_decimals(round_half_even((100 * x) as nat, d as nat)),
{
    let q = x / (d as u128);
    let r = (x % (d as u128)) as u64;
    let t = round_half_even_small(100 * r, d);
    proof {
        lemma_hundredths(x as nat, d as nat, t as nat);
    }
    let ghost n = round_half_even((100 * x) as nat, d as nat);
    let whole = q + (t / 100) as u128;
    let frac = t % 100;
    assert(whole == n / 100 && frac == n % 100);
    let ghost start = s@;
    push_decimal(s, whole);
    push_char(s, '.');
    push_char(s, crate::text::digit_to_char((frac / 10) as u8));
    push_char(s, crate::text::digit_to_char((frac % 10) as u8));
    assert(s@ =~= start + two_decimals(n));
}

/// The separators between the words of `/proc/meminfo`.
pub open spec fn meminfo_separators() -> Seq<char> {
    seq![':', ' ', '\n']
}

/// The words of a `/proc/meminfo` report: the non-empty pieces between its
/// colons, spaces and line ends.
pub open spec fn meminfo_words(content: Seq<char>) -> Seq<Seq<char>> {
    non_empty(split(content, meminfo_separators()))
}

/// The text of the word at `at` of `words`; `word` names what it belongs to.
pub open spec fn field_at(words: Seq<Seq<char>>, at: int, word: Seq<char>) -> Result<Seq<char>, Fault> {
    if at >= words.len() {
        Err(Fault::NoValue(word))
    } else {
        Ok(words[at])
    }
}

/// The texts that a `/proc/meminfo` report gives after the words
/// `ram_word` and `swap_word`: each word's first occurrence is found (RAM
/// first), then the word after it is taken (RAM first).
pub open spec fn memory_fields(content: Seq<char>, ram_word: Seq<char>, swap_word: Seq<char>) -> Result<
    (Seq<char>, Seq<char>),
    Fault,
> {
    let words = meminfo_words(content);
    match first_index(words, ram_word) {
        None => Err(Fault::NotFound(ram_word)),
        Some(i) => match first_index(words, swap_word) {
            None => Err(Fault::NotFound(swap_word)),
            Some(j) => match field_at(words, i + 1, ram_word) {
                Err(e) => Err(e),
                Ok(ram) => match field_at(words, j + 1, swap_word) {
                    Err(e) => Err(e),
                    Ok(swap) => Ok((ram, swap)),
                },
            },
        },
    }
}

/// The amount that a numeral of the report gives, where it is an integer
/// numeral (an optional `+`, then ASCII digits) of at most `u64::MAX`.
/// Every such numeral reads as an `f32` to the `f32` nearest its integer,
/// which is how this library holds it. Other numerals (fractions, signs,
/// exponents, infinities, larger integers) are `NotAnInteger`: the caller
/// reads those as floating-point numbers itself.
pub open spec fn amount_of(numeral: Seq<char>) -> Result<nat, Fault> {
    match parse_unsigned(numeral, u64::MAX as nat) {
        Some(v) => Ok(v),
        None => Err(Fault::NotAnInteger(numeral)),
    }
}

/// The RAM and swap amounts that a `/proc/meminfo` report gives after the
/// words `ram_word` and `swap_word`, in the order in which the monitor reads
/// them: both words are found (RAM first); then the word after the RAM word
/// is taken and read, then the word after the swap word.
pub open spec fn memory_values(content: Seq<char>, ram_word: Seq<char>, swap_word: Seq<char>) -> Result<
    (nat, nat),
    Fault,
> {
    let words = meminfo_words(content);
    match first_index(words, ram_word) {
        None => Err(Fault::NotFound(ram_word)),
        Some(i) => match first_index(words, swap_word) {
            None => Err(Fault::NotFound(swap_word)),
            Some(j) => match field_at(words, i + 1, ram_word) {
                Err(e) => Err(e),
                Ok(ram_text) => match amount_of(ram_text) {
                    Err(e) => Err(e),
                    Ok(ram) => match field_at(words, j + 1, swap_word) {
                        Err(e) => Err(e),
                        Ok(swap_text) => match amount_of(swap_text) {
                            Err(e) => Err(e),
                            Ok(swap) => Ok((ram, swap)),
                        },
                    },
                },
            },
        },
    }
}

/// Wherever both words occur in a report and each is followed by a word of
/// digits whose value fits `u64`, the amounts read are exactly the values
/// of those words, zero included; each word is looked up at its first
/// occurrence.
pub proof fn lemma_memory_values_read_numerals(
    content: Seq<char>,
    ram_word: Seq<char>,
    swap_word: Seq<char>,
    i: int,
    j: int,
)
    requires
        ({
            let words = meminfo_words(content);
            &&& 0 <= i && i + 1 < words.len()
            &&& 0 <= j && j + 1 < words.len()
            &&& words[i] == ram_word
            &&& words[j] == swap_word
            &&& forall|k: int| 0 <= k < i ==> words[k] != ram_word
            &&& forall|k: int| 0 <= k < j ==> words[k] != swap_word
            &&& words[i + 1].len() >= 1 && crate::text::all_digits(words[i + 1])
            &&& words[j + 1].len() >= 1 && crate::text::all_digits(words[j + 1])
            &&& crate::text::digits_value(words[i + 1]) <= u64::MAX
            &&& crate::text::digits_value(words[j + 1]) <= u64::MAX
        }),
    ensures
        ({
            let words = meminfo_words(content);
            memory_values(content, ram_word, swap_word) == Ok::<(nat, nat), Fault>(
                (
                    crate::text::digits_value(words[i + 1]),
                    crate::text::digits_value(words[j + 1]),
                ),
            )
        }),
{
    let words = meminfo_words(content);
    crate::text::lemma_first_index_is_first(words, ram_word, i);
    crate::text::lemma_first_index_is_first(words, swap_word, j);
    crate::text::lemma_parse_digits(words[i + 1], u64::MAX as nat);
    crate::text::lemma_parse_digits(words[j + 1], u64::MAX as nat);
}

/// Takes the word at `at` of `words`, as `field_at` says.
fn field_at_exec(words: &Vec<Vec<char>>, at: usize, word: &[char]) -> (r: Result<Vec<char>, InfoError>)
    ensures
        r matches Ok(t) ==> field_at(views(words@), at as int, word@) == Ok::<Seq<char>, Fault>(t@),
        r matches Err(e) ==> field_at(views(words@), at as int, word@) == Err::<Seq<char>, Fault>(e@),
{
    if at >= words.len() {
        return Err(InfoError::NoValue(string_of(word)));
    }
    assert(views(words@)[at as int] == words@[at as int]@);
    Ok(copy_chars(words[at].as_slice()))
}

/// Reads the amount that `numeral` gives, as `amount_of` says.
fn amount_of_exec(numeral: &[char]) -> (r: Result<u64, InfoError>)
    ensures
        r matches Ok(v) ==> amount_of(numeral@) == Ok::<nat, Fault>(v as nat),
        r matches Err(e) ==> amount_of(numeral@) == Err::<nat, Fault>(e@),
{
    match parse_unsigned_upto(numeral, u64::MAX as u128) {
        Some(v) => Ok(v as u64),
        None => Err(InfoError::NotAnInteger(string_of(numeral))),
    }
}

/// The words of a `/proc/meminfo` report and the positions of two of them.
fn find_words(meminfo_content: &str, ram_word: &[char], swap_word: &[char]) -> (r: Result<
    (Vec<Vec<char>>, usize, usize),
    InfoError,
>)
    ensures
        r matches Ok((words, i, j)) ==> {
            &&& views(words@) == meminfo_words(meminfo_content@)
            &&& first_index(views(words@), ram_word@) == Some(i as int)
            &&& first_index(views(words@), swap_word@) == Some(j as int)
            &&& i < words.len()
            &&& j < words.len()
        },
        r matches Err(e) ==> {
            let words = meminfo_words(meminfo_content@);
            ||| first_index(words, ram_word@) is None && e@ == Fault::NotFound(ram_word@)
            ||| first_index(words, ram_word@) is Some && first_index(words, swap_word@) is None
                && e@ == Fault::NotFound(swap_word@)
        },
{
    let content = chars_of(meminfo_content);
    let separators = [':', ' ', '\n'];
    assert(separators@ == meminfo_separators());
    let pieces = split_at_any(&content, &separators);
    let words = keep_non_empty(&pieces);
    let i = match position_of(&words, ram_word) {
        Some(i) => i,
        None => {
            return Err(InfoError::NotFound(string_of(ram_word)));
        },
    };
    let j = match position_of(&words, swap_word) {
        Some(j) => j,
        None => {
            return Err(InfoError::NotFound(string_of(swap_word)));
        },
    };
    Ok((words, i, j))
}

/// The texts after the RAM word and the swap word of a report.
pub struct MemoryFields {
    pub ram: String,
    pub swap: String,
}

/// Total or available RAM and swap, in KiB. Once saved, the texts of the
/// amounts with their units are kept; they are always the amounts
/// formatted.
pub struct Memory {
    /// RAM in KiB, as the report gives it.
    ram: u64,
    /// Swap in KiB, as the report gives it.
    swap: u64,
    /// RAM formatted with a suitable unit, once saved.
    ram_with_unit: Option<String>,
    /// Swap formatted with a suitable unit, once saved.
    swap_with_unit: Option<String>,
}

impl Memory {
    /// A saved text is the amount formatted.
    #[verifier::type_invariant]
    spec fn saved_texts_are_formatted(self) -> bool {
        &&& (self.ram_with_unit matches Some(t) ==> t@ == memory_text(
            nearest_f32(self.ram as nat) as int,
        ))
        &&& (self.swap_with_unit matches Some(t) ==> t@ == memory_text(
            nearest_f32(self.swap as nat) as int,
        ))
    }

    /// RAM in KiB.
    pub closed spec fn ram_kib(self) -> nat {
        self.ram as nat
    }

    /// Swap in KiB.
    pub closed spec fn swap_kib(self) -> nat {
        self.swap as nat
    }

    /// Whether the RAM text with its unit has been saved.
    pub closed spec fn ram_saved(self) -> bool {
        self.ram_with_unit is Some
    }

    /// Whether the swap text with its unit has been saved.
    pub closed spec fn swap_saved(self) -> bool {
        self.swap_with_unit is Some
    }

    /// `ram` KiB of RAM and `swap` KiB of swap, with no text saved.
    pub fn from_kib(ram: u64, swap: u64) -> (m: Memory)
        ensures
            m.ram_kib() == ram,
            m.swap_kib() == swap,
            !m.ram_saved(),
            !m.swap_saved(),
    {
        Memory { ram, swap, ram_with_unit: None, swap_with_unit: None }
    }

    /// RAM in KiB, the exact integer the report gives. The monitor
    /// computes with the `f32` nearest to it: see `ram_as_f32`.
    pub fn ram(&self) -> (r: u64)
        ensures
            r == self.ram_kib(),
    {
        self.ram
    }

    /// Swap in KiB, the exact integer the report gives. The monitor
    /// computes with the `f32` nearest to it: see `swap_as_f32`.
    pub fn swap(&self) -> (r: u64)
        ensures
            r == self.swap_kib(),
    {
        self.swap
    }

    /// The value that the monitor holds of the RAM: the `f32` nearest to
    /// the amount in KiB, as an integer. It differs from `ram()` only above
    /// 2^24 KiB, where not every integer is an `f32`.
    pub fn ram_as_f32(&self) -> (r: u128)
        ensures
            r == nearest_f32(self.ram_kib()),
    {
        nearest_f32_value(self.ram as u128)
    }

    /// The value that the monitor holds of the swap: the `f32` nearest to
    /// the amount in KiB, as an integer.
    pub fn swap_as_f32(&self) -> (r: u128)
        ensures
            r == nearest_f32(self.swap_kib()),
    {
        nearest_f32_value(self.swap as u128)
    }

    /// The texts that follow the words `search_word_ram` and
    /// `search_word_swap` in the text of `/proc/meminfo`.
    pub fn fields(meminfo_content: &str, search_word_ram: &str, search_word_swap: &str) -> (r:
        Result<MemoryFields, InfoError>)
        ensures
            r matches Ok(f) ==> memory_fields(meminfo_content@, search_word_ram@, search_word_swap@)
                == Ok::<(Seq<char>, Seq<char>), Fault>((f.ram@, f.swap@)),
            r matches Err(e) ==> memory_fields(meminfo_content@, search_word_ram@, search_word_swap@)
                == Err::<(Seq<char>, Seq<char>), Fault>(e@),
    {
        let ram_word = chars_of(search_word_ram);
        let swap_word = chars_of(search_word_swap);
        let (words, i, j) = match find_words(meminfo_content, &ram_word, &swap_word) {
            Ok(found) => found,
            Err(e) => {
                return Err(e);
            },
        };
        let ram = match field_at_exec(&words, i + 1, &ram_word) {
            Ok(t) => t,
            Err(e) => {
                return Err(e);
            },
        };
        let swap = match field_at_exec(&words, j + 1, &swap_word) {
            Ok(t) => t,
            Err(e) => {
                return Err(e);
            },
        };
        Ok(MemoryFields { ram: string_of(&ram), swap: string_of(&swap) })
    }

    /// Reads from the text of `/proc/meminfo` the amounts of RAM and swap
    /// that follow the words `search_word_ram` and `search_word_swap`, where
    /// they are integer numerals (see `amount_of`).
    pub fn new(meminfo_content: &str, search_word_ram: &str, search_word_swap: &str) -> (r: Result<
        Memory,
        InfoError,
    >)
        ensures
            r matches Ok(m) ==> {
                &&& memory_values(meminfo_content@, search_word_ram@, search_word_swap@) == Ok::<
                    (nat, nat),
                    Fault,
                >((m.ram_kib(), m.swap_kib()))
                &&& !m.ram_saved()
                &&& !m.swap_saved()
            },
            r matches Err(e) ==> memory_values(meminfo_content@, search_word_ram@, search_word_swap@)
                == Err::<(nat, nat), Fault>(e@),
    {
        let ram_word = chars_of(search_word_ram);
        let swap_word = chars_of(search_word_swap);
        let (words, i, j) = match find_words(meminfo_content, &ram_word, &swap_word) {
            Ok(found) => found,
            Err(e) => {
                return Err(e);
            },
        };
        let ram_text = match field_at_exec(&words, i + 1, &ram_word) {
            Ok(t) => t,
            Err(e) => {
                return Err(e);
            },
        };
        let ram = match amount_of_exec(&ram_text) {
            Ok(v) => v,
            Err(e) => {
                return Err(e);
            },
        };
        let swap_text = match field_at_exec(&words, j + 1, &swap_word) {
            Ok(t) => t,
            Err(e) => {
                return Err(e);
            },
        };
        let swap = match amount_of_exec(&swap_text) {
            Ok(v) => v,
            Err(e) => {
                return Err(e);
            },
        };
        Ok(Memory::from_kib(ram, swap))
    }

    /// The amounts that `fields` give, where both are integer numerals
    /// (see `amount_of`); the RAM field is read first.
    pub fn from_fields(fields: &MemoryFields) -> (r: Result<Memory, InfoError>)
        ensures
            r matches Ok(m) ==> {
                &&& amount_of(fields.ram@) == Ok::<nat, Fault>(m.ram_kib())
                &&& amount_of(fields.swap@) == Ok::<nat, Fault>(m.swap_kib())
                &&& !m.ram_saved()
                &&& !m.swap_saved()
            },
            r matches Err(e) ==> {
                ||| amount_of(fields.ram@) == Err::<nat, Fault>(e@)
                ||| (amount_of(fields.ram@) is Ok && amount_of(fields.swap@) == Err::<nat, Fault>(
                    e@,
                ))
            },
    {
        let ram_text = chars_of(fields.ram.as_str());
        let ram = match amount_of_exec(&ram_text) {
            Ok(v) => v,
            Err(e) => {
                return Err(e);
            },
        };
        let swap_text = chars_of(fields.swap.as_str());
        let swap = match amount_of_exec(&swap_text) {
            Ok(v) => v,
            Err(e) => {
                return Err(e);
            },
        };
        Ok(Memory::from_kib(ram, swap))
    }

    /// Available RAM and free swap, from the text of `/proc/meminfo`.
    pub fn get_free(meminfo_content: &str) -> (r: Result<Memory, InfoError>)
        ensures
            r matches Ok(m) ==> {
                &&& memory_values(meminfo_content@, "MemAvailable"@, "SwapFree"@) == Ok::<
                    (nat, nat),
                    Fault,
                >((m.ram_kib(), m.swap_kib()))
                &&& !m.ram_saved()
                &&& !m.swap_saved()
            },
            r matches Err(e) ==> memory_values(meminfo_content@, "MemAvailable"@, "SwapFree"@)
                == Err::<(nat, nat), Fault>(e@),
    {
        Self::new(meminfo_content, "MemAvailable", "SwapFree")
    }

    /// Total RAM and total swap, from the text of `/proc/meminfo`.
    pub fn get_total(meminfo_content: &str) -> (r: Result<Memory, InfoError>)
        ensures
            r matches Ok(m) ==> {
                &&& memory_values(meminfo_content@, "MemTotal"@, "SwapTotal"@) == Ok::<
                    (nat, nat),
                    Fault,
                >((m.ram_kib(), m.swap_kib()))
                &&& !m.ram_saved()
                &&& !m.swap_saved()
            },
            r matches Err(e) ==> memory_values(meminfo_content@, "MemTotal"@, "SwapTotal"@) == Err::<
                (nat, nat),
                Fault,
            >(e@),
    {
        Self::new(meminfo_content, "MemTotal", "SwapTotal")
    }

    /// `mem_in_kb` KiB formatted with a suitable unit, as `memory_text`
    /// says. `mem_in_kb` is the integer value of the monitor's `f32`.
    /// Below -2^24 the `f32` display leaves exact integers, so such
    /// amounts are not taken.
    pub fn format(mem_in_kb: i128) -> (s: String)
        requires
            mem_in_kb >= -16777216,
        ensures
            s@ == memory_text(mem_in_kb as int),
    {
        let mut s = String::new();
        if mem_in_kb > 1000000 {
            push_hundredths(&mut s, mem_in_kb as u128, 1048576);
            push_char(&mut s, 'G');
            push_char(&mut s, 'i');
        } else if mem_in_kb > 1000 {
            push_hundredths(&mut s, mem_in_kb as u128, 1024);
            push_char(&mut s, 'M');
            push_char(&mut s, 'i');
        } else {
            if mem_in_kb < 0 {
                push_char(&mut s, '-');
                push_decimal(&mut s, (-mem_in_kb) as u128);
            } else {
                push_decimal(&mut s, mem_in_kb as u128);
            }
            push_char(&mut s, 'K');
            push_char(&mut s, 'i');
        }
        assert(s@ =~= memory_text(mem_in_kb as int));
        s
    }

    /// Formats RAM and swap with suitable units and keeps the results.
    pub fn save_with_unit(&mut self)
        ensures
            final(self).ram_kib() == old(self).ram_kib(),
            final(self).swap_kib() == old(self).swap_kib(),
            final(self).ram_saved(),
            final(self).swap_saved(),
    {
        proof {
            use_type_invariant(&*self);
        }
        let ram = nearest_f32_value(self.ram as u128);
        let swap = nearest_f32_value(self.swap as u128);
        self.ram_with_unit = Some(Self::format(ram as i128));
        self.swap_with_unit = Some(Self::format(swap as i128));
    }

    /// The RAM formatted with its unit, as saved.
    pub fn get_ram_with_unit(&self) -> (s: &str)
        requires
            self.ram_saved(),
        ensures
            s@ == memory_text(nearest_f32(self.ram_kib()) as int),
    {
        proof {
            use_type_invariant(self);
        }
        match &self.ram_with_unit {
            Some(t) => t.as_str(),
            None => "",
        }
    }

    /// The swap formatted with its unit, as saved.
    pub fn get_swap_with_unit(&self) -> (s: &str)
        requires
            self.swap_saved(),
        ensures
            s@ == memory_text(nearest_f32(self.swap_kib()) as int),
    {
        proof {
            use_type_invariant(self);
        }
        match &self.swap_with_unit {
            Some(t) => t.as_str(),
            None => "",
        }
    }

    /// The RAM with its unit: the saved text where there is one, else the
    /// amount formatted.
    pub fn ram_text(&self) -> (s: String)
        ensures
            s@ == memory_text(nearest_f32(self.ram_kib()) as int),
    {
        proof {
            use_type_invariant(self);
        }
        match &self.ram_with_unit {
            Some(t) => crate::text::string_of(crate::text::chars_of(t.as_str()).as_slice()),
            None => Self::format(nearest_f32_value(self.ram as u128) as i128),
        }
    }

    /// The swap with its unit: the saved text where there is one, else the
    /// amount formatted.
    pub fn swap_text(&self) -> (s: String)
        ensures
            s@ == memory_text(nearest_f32(self.swap_kib()) as int),
    {
        proof {
            use_type_invariant(self);
        }
        match &self.swap_with_unit {
            Some(t) => crate::text::string_of(crate::text::chars_of(t.as_str()).as_slice()),
            None => Self::format(nearest_f32_value(self.swap as u128) as i128),
        }
    }
}

} // verus!
