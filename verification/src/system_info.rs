//! Reading the kernel's reports on CPUs, temperatures and uptime. The
//! caller reads the files and command outputs; these functions pick out of
//! their text what the monitor shows.
use vstd::prelude::*;
use crate::error::{Fault, InfoError};
use crate::memory::{memory_values, Memory};
use crate::text::{
    chars_of, decimal, first_index, parse_unsigned, parse_unsigned_upto, position_of, push_decimal,
    split, split_at_any, string_of, trim_end, trimmed_end, views,
};

verus! {

/// The number that the word at `at` of `words` denotes, read in a type
/// whose largest value is `max`; `word` names what the number belongs to.
pub open spec fn number_at(words: Seq<Seq<char>>, at: int, word: Seq<char>, max: nat) -> Result<
    nat,
    Fault,
> {
    if at >= words.len() {
        Err(Fault::NoValue(word))
    } else {
        match parse_unsigned(words[at], max) {
            Some(v) => Ok(v),
            None => Err(Fault::NotANumber(words[at])),
        }
    }
}

/// Reads the number at `at` of `words`, as `number_at` says.
fn number_at_exec(words: &Vec<Vec<char>>, at: usize, word: &[char], max: u128) -> (r:
    Result<u128, InfoError>)
    requires
        max <= u64::MAX,
    ensures
        r matches Ok(v) ==> v <= max && number_at(views(words@), at as int, word@, max as nat)
            == Ok::<nat, Fault>(v as nat),
        r matches Err(e) ==> number_at(views(words@), at as int, word@, max as nat) == Err::<
            nat,
            Fault,
        >(e@),
{
    if at >= words.len() {
        return Err(InfoError::NoValue(string_of(word)));
    }
    assert(views(words@)[at as int] == words@[at as int]@);
    match parse_unsigned_upto(words[at].as_slice(), max) {
        Some(v) => Ok(v),
        None => Err(InfoError::NotANumber(string_of(words[at].as_slice()))),
    }
}

/// The number of CPUs that `nproc` printed: its output without trailing
/// white space, read as a `usize`.
pub open spec fn cpu_count(nproc_output: Seq<char>) -> Option<nat> {
    parse_unsigned(trim_end(nproc_output), usize::MAX as nat)
}


/// The separators between the words of `/proc/stat`.
pub open spec fn stat_separators() -> Seq<char> {
    seq![' ', '\n']
}

/// The word that starts the line of CPU `i` in `/proc/stat`: "cpu" and
/// the numeral of `i`.
pub open spec fn cpu_word(i: nat) -> Seq<char> {
    seq!['c', 'p', 'u'] + decimal(i)
}

/// The time CPU `i` has spent in user and system mode, as the words of
/// `/proc/stat` give it: the first and the third number after the CPU's
/// word (the second counts niced user time), added up.
pub open spec fn cpu_time(words: Seq<Seq<char>>, i: nat) -> Result<nat, Fault> {
    let word = cpu_word(i);
    match first_index(words, word) {
        None => Err(Fault::NotFound(word)),
        Some(k) => match number_at(words, k + 1, word, usize::MAX as nat) {
            Err(e) => Err(e),
            Ok(user) => match number_at(words, k + 3, word, usize::MAX as nat) {
                Err(e) => Err(e),
                Ok(system) => if user + system > usize::MAX {
                    Err(Fault::TooLarge)
                } else {
                    Ok(user + system)
                },
            },
        },
    }
}

/// The times of CPUs `0` to `n - 1`, or the fault at the first CPU whose
/// time cannot be read.
pub open spec fn cpu_times(words: Seq<Seq<char>>, n: nat) -> Result<Seq<nat>, Fault>
    decreases n,
{
    if n == 0 {
        Ok(seq![])
    } else {
        match cpu_times(words, (n - 1) as nat) {
            Err(e) => Err(e),
            Ok(times) => match cpu_time(words, (n - 1) as nat) {
                Err(e) => Err(e),
                Ok(t) => Ok(times.push(t)),
            },
        }
    }
}

/// Once the time of some CPU cannot be read, the times of more CPUs cannot
/// be read either, for the same fault.
proof fn lemma_cpu_times_fault_stays(words: Seq<Seq<char>>, i: nat, n: nat)
    requires
        i <= n,
        cpu_times(words, i) is Err,
    ensures
        cpu_times(words, n) == cpu_times(words, i),
    decreases n - i,
{
    if i < n {
        lemma_cpu_times_fault_stays(words, i, (n - 1) as nat);
    }
}

/// A successful read gives one time per CPU.
pub proof fn lemma_one_time_per_cpu(words: Seq<Seq<char>>, n: nat)
    requires
        cpu_times(words, n) is Ok,
    ensures
        cpu_times(words, n)->Ok_0.len() == n,
    decreases n,
{
    if n > 0 {
        lemma_one_time_per_cpu(words, (n - 1) as nat);
    }
}

/// The word looked for to read CPU `i` is "cpu" and the full numeral of
/// `i`: the rest of the word reads back as `i`.
pub proof fn lemma_cpu_word_reads_back(i: nat)
    ensures
        cpu_word(i).take(3) == seq!['c', 'p', 'u'],
        crate::text::is_canonical_numeral(cpu_word(i).skip(3)),
        crate::text::digits_value(cpu_word(i).skip(3)) == i,
{
    crate::text::lemma_decimal_reads_back(i);
    assert(cpu_word(i).take(3) =~= seq!['c', 'p', 'u']);
    assert(cpu_word(i).skip(3) =~= decimal(i));
}

/// Different CPUs are read from different lines: their words differ.
pub proof fn lemma_cpu_words_distinct(i: nat, j: nat)
    requires
        i != j,
    ensures
        cpu_word(i) != cpu_word(j),
{
    lemma_cpu_word_reads_back(i);
    lemma_cpu_word_reads_back(j);
}

/// `nproc` printing the numeral of any `usize` count, followed by any
/// white space (such as its line end), reads as that count.
pub proof fn lemma_cpu_count_reads_numeral(n: nat, w: Seq<char>)
    requires
        n <= usize::MAX,
        forall|i: int| 0 <= i < w.len() ==> crate::text::is_white_space(#[trigger] w[i]),
    ensures
        cpu_count(decimal(n) + w) == Some(n),
{
    crate::text::lemma_decimal_reads_back(n);
    crate::text::lemma_trim_end_white_suffix(decimal(n), w);
    let d = decimal(n);
    assert('0' <= d.last() && d.last() <= '9');
    assert(trim_end(d) == d);
    crate::text::lemma_parse_digits(d, usize::MAX as nat);
}

/// The numbers in `v`, as mathematical integers.
pub open spec fn as_nats(v: Seq<usize>) -> Seq<nat> {
    v.map_values(|x: usize| x as nat)
}

fn cpu_word_exec(i: usize) -> (w: Vec<char>)
    ensures
        w@ == cpu_word(i as nat),
{
    let mut s = String::new();
    crate::text::push_char(&mut s, 'c');
    crate::text::push_char(&mut s, 'p');
    crate::text::push_char(&mut s, 'u');
    push_decimal(&mut s, i as u128);
    assert(s@ =~= cpu_word(i as nat));
    chars_of(s.as_str())
}

fn cpu_time_exec(words: &Vec<Vec<char>>, i: usize) -> (r: Result<usize, InfoError>)
    ensures
        r matches Ok(t) ==> cpu_time(views(words@), i as nat) == Ok::<nat, Fault>(t as nat),
        r matches Err(e) ==> cpu_time(views(words@), i as nat) == Err::<nat, Fault>(e@),
{
    let word = cpu_word_exec(i);
    let k = match position_of(words, &word) {
        Some(k) => k,
        None => {
            return Err(InfoError::NotFound(string_of(&word)));
        },
    };
    let user = match number_at_exec(words, k + 1, &word, usize::MAX as u128) {
        Ok(v) => v as usize,
        Err(e) => {
            return Err(e);
        },
    };
    if words.len() - k <= 3 {
        return Err(InfoError::NoValue(string_of(&word)));
    }
    let system = match number_at_exec(words, k + 3, &word, usize::MAX as u128) {
        Ok(v) => v as usize,
        Err(e) => {
            return Err(e);
        },
    };
    if user > usize::MAX - system {
        return Err(InfoError::TooLarge);
    }
    Ok(user + system)
}


/// The temperature field of what `vcgencmd measure_temp` printed: the
/// second piece between its '=' and '\'' characters, if there is one.
pub open spec fn gpu_temp_text(output: Seq<char>) -> Option<Seq<char>> {
    let pieces = split(output, seq!['=', '\'']);
    if pieces.len() >= 2 {
        Some(pieces[1])
    } else {
        None
    }
}


/// The uptime field of `/proc/uptime`: the text before its first space.
pub open spec fn uptime_text(content: Seq<char>) -> Seq<char> {
    split(content, seq![' '])[0]
}

proof fn lemma_split_from_nonempty(cur: Seq<char>, rest: Seq<char>, seps: Seq<char>)
    ensures
        crate::text::split_from(cur, rest, seps).len() >= 1,
    decreases rest.len(),
{
    if rest.len() > 0 {
        if seps.contains(rest[0]) {
            lemma_split_from_nonempty(seq![], rest.drop_first(), seps);
        } else {
            lemma_split_from_nonempty(cur.push(rest[0]), rest.drop_first(), seps);
        }
    }
}



/// What one sample of the system holds that the monitor computes with:
/// the CPU times, the available memory and the whole seconds since boot.
pub struct SystemInfo {
    /// Time each CPU has spent in user and system mode since boot.
    pub cpu_time: Vec<usize>,
    /// Available RAM and free swap.
    pub mem_free: Memory,
    /// Whole seconds since boot.
    pub uptime: u64,
}

impl SystemInfo {
    /// A sample from the texts of `/proc/stat` and `/proc/meminfo`, for
    /// `num_cpus` CPUs, and the whole seconds since boot: the CPU times are
    /// read first, then the available memory.
    pub fn new(proc_stat_content: &str, num_cpus: usize, meminfo_content: &str, uptime: u64) -> (r:
        Result<SystemInfo, InfoError>)
        ensures
            r matches Ok(info) ==> {
                &&& cpu_times(split(proc_stat_content@, stat_separators()), num_cpus as nat) == Ok::<
                    Seq<nat>,
                    Fault,
                >(as_nats(info.cpu_time@))
                &&& memory_values(meminfo_content@, "MemAvailable"@, "SwapFree"@) == Ok::<
                    (nat, nat),
                    Fault,
                >((info.mem_free.ram_kib(), info.mem_free.swap_kib()))
                &&& !info.mem_free.ram_saved()
                &&& !info.mem_free.swap_saved()
                &&& info.uptime == uptime
            },
            r matches Err(e) ==> {
                ||| cpu_times(split(proc_stat_content@, stat_separators()), num_cpus as nat)
                    == Err::<Seq<nat>, Fault>(e@)
                ||| (cpu_times(split(proc_stat_content@, stat_separators()), num_cpus as nat) is Ok
                    && memory_values(meminfo_content@, "MemAvailable"@, "SwapFree"@) == Err::<
                    (nat, nat),
                    Fault,
                >(e@))
            },
    {
        let cpu_time = match Self::get_cpu_time(proc_stat_content, num_cpus) {
            Ok(t) => t,
            Err(e) => {
                return Err(e);
            },
        };
        let mem_free = match Memory::get_free(meminfo_content) {
            Ok(m) => m,
            Err(e) => {
                return Err(e);
            },
        };
        Ok(SystemInfo { cpu_time, mem_free, uptime })
    }

    /// Reads the number of CPUs from what `nproc` printed.
    pub fn get_cpus(nproc_output: &str) -> (r: Result<usize, InfoError>)
        ensures
            r matches Ok(n) ==> cpu_count(nproc_output@) == Some(n as nat),
            r matches Err(e) ==> cpu_count(nproc_output@) is None && e@ == Fault::NotANumber(
                trim_end(nproc_output@),
            ),
    {
        let text = chars_of(nproc_output);
        let trimmed = trimmed_end(&text);
        match parse_unsigned_upto(&trimmed, usize::MAX as u128) {
            Some(n) => Ok(n as usize),
            None => Err(InfoError::NotANumber(string_of(&trimmed))),
        }
    }

    /// Reads from the text of `/proc/stat` the time each of CPUs `0` to
    /// `num_cpus - 1` has spent in user and system mode since boot.
    pub fn get_cpu_time(proc_stat_content: &str, num_cpus: usize) -> (r: Result<Vec<usize>, InfoError>)
        ensures
            r matches Ok(v) ==> cpu_times(split(proc_stat_content@, stat_separators()), num_cpus as nat)
                == Ok::<Seq<nat>, Fault>(as_nats(v@)),
            r matches Err(e) ==> cpu_times(split(proc_stat_content@, stat_separators()), num_cpus as nat)
                == Err::<Seq<nat>, Fault>(e@),
    {
        let content = chars_of(proc_stat_content);
        let separators = [' ', '\n'];
        assert(separators@ == stat_separators());
        let words = split_at_any(&content, &separators);
        let ghost w = views(words@);
        let mut times: Vec<usize> = Vec::new();
        let mut i: usize = 0;
        assert(as_nats(times@) =~= Seq::<nat>::empty());
        while i < num_cpus
            invariant
                i <= num_cpus,
                w == views(words@),
                w == split(proc_stat_content@, stat_separators()),
                cpu_times(w, i as nat) == Ok::<Seq<nat>, Fault>(as_nats(times@)),
            decreases num_cpus - i,
        {
            let ghost before = as_nats(times@);
            match cpu_time_exec(&words, i) {
                Ok(t) => {
                    times.push(t);
                    assert(as_nats(times@) =~= before.push(t as nat));
                    assert(cpu_times(w, (i + 1) as nat) == Ok::<Seq<nat>, Fault>(before.push(t as nat)));
                },
                Err(e) => {
                    assert(cpu_times(w, (i + 1) as nat) == Err::<Seq<nat>, Fault>(e@));
                    proof {
                        lemma_cpu_times_fault_stays(w, (i + 1) as nat, num_cpus as nat);
                    }
                    return Err(e);
                },
            }
            i = i + 1;
        }
        Ok(times)
    }

    /// Picks the temperature out of what `vcgencmd measure_temp` printed
    /// (such as "temp=45.6'C").
    pub fn get_gpu_temp_text(output: &str) -> (r: Option<String>)
        ensures
            r matches Some(t) ==> gpu_temp_text(output@) == Some(t@),
            r is None ==> gpu_temp_text(output@) is None,
    {
        let text = chars_of(output);
        let separators = ['=', '\''];
        assert(separators@ == seq!['=', '\'']);
        let pieces = split_at_any(&text, &separators);
        if pieces.len() >= 2 {
            assert(views(pieces@)[1] == pieces@[1]@);
            Some(string_of(pieces[1].as_slice()))
        } else {
            None
        }
    }

    /// Picks the seconds since boot out of the text of `/proc/uptime`.
    pub fn get_uptime_text(content: &str) -> (t: String)
        ensures
            t@ == uptime_text(content@),
    {
        let text = chars_of(content);
        let separators = [' '];
        assert(separators@ == seq![' ']);
        let pieces = split_at_any(&text, &separators);
        proof {
            lemma_split_from_nonempty(seq![], content@, seq![' ']);
        }
        assert(views(pieces@)[0] == pieces@[0]@);
        string_of(pieces[0].as_slice())
    }

    /// The text of the CPU temperature file without its trailing white space.
    pub fn get_cpu_temp_text(content: &str) -> (t: String)
        ensures
            t@ == trim_end(content@),
    {
        let text = chars_of(content);
        let trimmed = trimmed_end(&text);
        string_of(&trimmed)
    }
}

} // verus!
