//! Character-level helpers: decimal numerals, column alignment, splitting
//! text at separator characters, trimming and parsing unsigned numbers.
use vstd::prelude::*;

verus! {

/// Appends `c` to `s`.
///
/// Trusted: wraps `String::push`, which std documents as appending the
/// given char to the end of the string.
#[verifier::external_body]
pub(crate) fn push_char(s: &mut String, c: char)
    ensures
        final(s)@ == old(s)@.push(c),
{
    s.push(c);
}

/// The characters of `s`, in order.
pub fn chars_of(s: &str) -> (v: Vec<char>)
    ensures
        v@ == s@,
{
    broadcast use vstd::string::group_string_axioms;
    let mut v: Vec<char> = Vec::new();
    for c in it: s.chars()
        invariant
            v@ == it.seq().take(it.index()),
    {
        v.push(c);
    }
    v
}

/// A string holding the characters `cs`.
pub fn string_of(cs: &[char]) -> (s: String)
    ensures
        s@ == cs@,
{
    let mut s = String::new();
    let mut i: usize = 0;
    while i < cs.len()
        invariant
            i <= cs.len(),
            s@ == cs@.take(i as int),
        decreases cs.len() - i,
    {
        push_char(&mut s, cs[i]);
        i = i + 1;
        assert(s@ =~= cs@.take(i as int));
    }
    assert(cs@.take(cs@.len() as int) =~= cs@);
    s
}

/// The character of the decimal digit `d` (`0 <= d < 10`).
pub open spec fn digit_char(d: nat) -> char {
    ('0' as nat + d) as char
}

/// The decimal numeral of `n`: no leading zeros, "0" for zero.
pub open spec fn decimal(n: nat) -> Seq<char>
    decreases n,
{
    if n < 10 {
        seq![digit_char(n)]
    } else {
        decimal(n / 10).push(digit_char(n % 10))
    }
}

/// The numeral of `n` padded on the left with zeros to at least `width`
/// characters, as Rust's `{:0w}` writes an unsigned number.
pub open spec fn zero_padded(n: nat, width: nat) -> Seq<char> {
    let d = decimal(n);
    if d.len() < width {
        Seq::new((width - d.len()) as nat, |i: int| '0') + d
    } else {
        d
    }
}

/// `n` spaces.
pub open spec fn spaces(n: nat) -> Seq<char> {
    Seq::new(n, |i: int| ' ')
}

/// `t` aligned right in a column of `width` characters, as `{:>width}`
/// lays it out: spaces first when `t` is shorter, `t` unchanged otherwise.
pub open spec fn align_right(t: Seq<char>, width: nat) -> Seq<char> {
    if t.len() < width {
        spaces((width - t.len()) as nat) + t
    } else {
        t
    }
}

/// `t` aligned left in a column of `width` characters, as `{:<width}`
/// lays it out.
pub open spec fn align_left(t: Seq<char>, width: nat) -> Seq<char> {
    if t.len() < width {
        t + spaces((width - t.len()) as nat)
    } else {
        t
    }
}

pub(crate) fn digit_to_char(d: u8) -> (c: char)
    requires
        d < 10,
    ensures
        c == digit_char(d as nat),
{
    (48u8 + d) as char
}

/// Appends the decimal numeral of `n` to `s`.
pub fn push_decimal(s: &mut String, n: u128)
    ensures
        final(s)@ == old(s)@ + decimal(n as nat),
    decreases n,
{
    if n >= 10 {
        push_decimal(s, n / 10);
    }
    let d = (n % 10) as u8;
    push_char(s, digit_to_char(d));
    assert(final(s)@ =~= old(s)@ + decimal(n as nat)) by {
        if n >= 10 {
            assert(decimal(n as nat) == decimal((n / 10) as nat).push(digit_char((n % 10) as nat)));
        }
    }
}

/// Appends `n` copies of `c` to `s`.
pub fn push_repeated(s: &mut String, c: char, n: usize)
    ensures
        final(s)@ == old(s)@ + Seq::new(n as nat, |i: int| c),
{
    let ghost start = s@;
    let mut i: usize = 0;
    while i < n
        invariant
            i <= n,
            s@ == start + Seq::new(i as nat, |j: int| c),
        decreases n - i,
    {
        push_char(s, c);
        i = i + 1;
        assert(s@ =~= start + Seq::new(i as nat, |j: int| c));
    }
}


/// Whether `c` is white space as `char::is_whitespace` decides it: the
/// characters with Unicode's `White_Space` property.
pub open spec fn is_white_space(c: char) -> bool {
    ||| ('\u{9}' <= c && c <= '\u{d}')
    ||| c == ' '
    ||| c == '\u{85}'
    ||| c == '\u{a0}'
    ||| c == '\u{1680}'
    ||| ('\u{2000}' <= c && c <= '\u{200a}')
    ||| c == '\u{2028}'
    ||| c == '\u{2029}'
    ||| c == '\u{202f}'
    ||| c == '\u{205f}'
    ||| c == '\u{3000}'
}

/// `s` without its trailing white space, as `str::trim_end` gives it.
pub open spec fn trim_end(s: Seq<char>) -> Seq<char>
    decreases s.len(),
{
    if s.len() > 0 && is_white_space(s.last()) {
        trim_end(s.drop_last())
    } else {
        s
    }
}

fn white_space(c: char) -> (b: bool)
    ensures
        b == is_white_space(c),
{
    ('\u{9}' <= c && c <= '\u{d}') || c == ' ' || c == '\u{85}' || c == '\u{a0}' || c
        == '\u{1680}' || ('\u{2000}' <= c && c <= '\u{200a}') || c == '\u{2028}' || c
        == '\u{2029}' || c == '\u{202f}' || c == '\u{205f}' || c == '\u{3000}'
}

/// `s` without its trailing white space.
pub fn trimmed_end(s: &[char]) -> (t: Vec<char>)
    ensures
        t@ == trim_end(s@),
{
    let mut n: usize = s.len();
    assert(s@.take(n as int) =~= s@);
    while n > 0 && white_space(s[n - 1])
        invariant
            n <= s.len(),
            trim_end(s@) == trim_end(s@.take(n as int)),
        decreases n,
    {
        assert(s@.take(n as int).drop_last() =~= s@.take(n - 1));
        n = n - 1;
    }
    let mut t: Vec<char> = Vec::new();
    let mut i: usize = 0;
    while i < n
        invariant
            n <= s.len(),
            i <= n,
            t@ == s@.take(i as int),
        decreases n - i,
    {
        t.push(s[i]);
        i = i + 1;
        assert(t@ =~= s@.take(i as int));
    }
    t
}

/// Whether `a` and `b` hold the same characters.
pub fn same_chars(a: &[char], b: &[char]) -> (r: bool)
    ensures
        r == (a@ == b@),
{
    if a.len() != b.len() {
        return false;
    }
    let mut i: usize = 0;
    while i < a.len()
        invariant
            a.len() == b.len(),
            i <= a.len(),
            forall|j: int| 0 <= j < i ==> a@[j] == b@[j],
        decreases a.len() - i,
    {
        if a[i] != b[i] {
            return false;
        }
        i = i + 1;
    }
    assert(a@ =~= b@);
    true
}

/// Whether `c` is one of `set`.
pub fn is_one_of(c: char, set: &[char]) -> (r: bool)
    ensures
        r == set@.contains(c),
{
    let mut i: usize = 0;
    while i < set.len()
        invariant
            i <= set.len(),
            forall|j: int| 0 <= j < i ==> set@[j] != c,
        decreases set.len() - i,
    {
        if set[i] == c {
            assert(set@[i as int] == c);
            return true;
        }
        i = i + 1;
    }
    false
}

/// The pieces of `rest`, cut at every character of `seps`, the first piece
/// starting with `cur`. Consecutive separators give empty pieces, and there
/// is always one more piece than separators.
pub open spec fn split_from(cur: Seq<char>, rest: Seq<char>, seps: Seq<char>) -> Seq<Seq<char>>
    decreases rest.len(),
{
    if rest.len() == 0 {
        seq![cur]
    } else if seps.contains(rest[0]) {
        seq![cur] + split_from(seq![], rest.drop_first(), seps)
    } else {
        split_from(cur.push(rest[0]), rest.drop_first(), seps)
    }
}

/// The pieces of `s` between the characters of `seps`, as
/// `str::split` with a slice of separator chars yields them.
pub open spec fn split(s: Seq<char>, seps: Seq<char>) -> Seq<Seq<char>> {
    split_from(seq![], s, seps)
}

/// The views of the pieces in `v`.
pub open spec fn views(v: Seq<Vec<char>>) -> Seq<Seq<char>> {
    v.map_values(|p: Vec<char>| p@)
}

/// Cuts `s` at every character of `seps`.
pub fn split_at_any(s: &[char], seps: &[char]) -> (pieces: Vec<Vec<char>>)
    ensures
        views(pieces@) == split(s@, seps@),
{
    let mut done: Vec<Vec<char>> = Vec::new();
    let mut cur: Vec<char> = Vec::new();
    let mut i: usize = 0;
    assert(s@.skip(0) =~= s@);
    while i < s.len()
        invariant
            i <= s.len(),
            views(done@) + split_from(cur@, s@.skip(i as int), seps@) == split(s@, seps@),
        decreases s.len() - i,
    {
        let c = s[i];
        let ghost rest = s@.skip(i as int);
        assert(rest.drop_first() =~= s@.skip(i + 1));
        if is_one_of(c, seps) {
            let ghost old_done = views(done@);
            let ghost old_cur = cur@;
            done.push(cur);
            cur = Vec::new();
            assert(views(done@) =~= old_done + seq![old_cur]);
            assert(split_from(old_cur, rest, seps@) == seq![old_cur] + split_from(cur@, rest.drop_first(), seps@)) by {
                assert(cur@ =~= Seq::<char>::empty());
            }
            assert(views(done@) + split_from(cur@, rest.drop_first(), seps@) =~= old_done
                + split_from(old_cur, rest, seps@));
        } else {
            cur.push(c);
        }
        i = i + 1;
    }
    let ghost old_done = views(done@);
    let ghost old_cur = cur@;
    assert(s@.skip(i as int) =~= Seq::<char>::empty());
    done.push(cur);
    assert(views(done@) =~= old_done + seq![old_cur]);
    done
}

/// The index of the first piece of `tokens`, from `i` on, equal to `w`.
pub open spec fn find_from(tokens: Seq<Seq<char>>, w: Seq<char>, i: int) -> Option<int>
    decreases tokens.len() - i,
{
    if i < 0 || i >= tokens.len() {
        None
    } else if tokens[i] == w {
        Some(i)
    } else {
        find_from(tokens, w, i + 1)
    }
}

/// The index of the first piece of `tokens` equal to `w`, as
/// `Iterator::position` finds it.
pub open spec fn first_index(tokens: Seq<Seq<char>>, w: Seq<char>) -> Option<int> {
    find_from(tokens, w, 0)
}

/// Finds the first piece of `tokens` equal to `w`.
pub fn position_of(tokens: &Vec<Vec<char>>, w: &[char]) -> (r: Option<usize>)
    ensures
        r matches Some(i) ==> i < tokens.len() && first_index(views(tokens@), w@) == Some(i as int),
        r is None ==> first_index(views(tokens@), w@) is None,
{
    let ghost t = views(tokens@);
    let mut i: usize = 0;
    while i < tokens.len()
        invariant
            i <= tokens.len(),
            t == views(tokens@),
            first_index(t, w@) == find_from(t, w@, i as int),
        decreases tokens.len() - i,
    {
        assert(t[i as int] == tokens@[i as int]@);
        if same_chars(tokens[i].as_slice(), w) {
            return Some(i);
        }
        i = i + 1;
    }
    None
}

/// Whether every character of `d` is an ASCII decimal digit.
pub open spec fn all_digits(d: Seq<char>) -> bool {
    forall|i: int| 0 <= i < d.len() ==> '0' <= #[trigger] d[i] && d[i] <= '9'
}

/// The number that the decimal digits `d` denote.
pub open spec fn digits_value(d: Seq<char>) -> nat
    decreases d.len(),
{
    if d.len() == 0 {
        0
    } else {
        digits_value(d.drop_last()) * 10 + (d.last() as nat - '0' as nat) as nat
    }
}

/// The number that `s` denotes, as `str::parse` reads an unsigned integer
/// type whose largest value is `max`: an optional `+`, then one or more
/// ASCII digits; `None` for anything else or for a value above `max`.
pub open spec fn parse_unsigned(s: Seq<char>, max: nat) -> Option<nat> {
    let d = if s.len() > 0 && s[0] == '+' {
        s.drop_first()
    } else {
        s
    };
    if d.len() == 0 || !all_digits(d) || digits_value(d) > max {
        None
    } else {
        Some(digits_value(d))
    }
}

/// A longer run of digits never denotes less than its prefix.
proof fn lemma_digits_value_prefix(d: Seq<char>, i: int)
    requires
        0 <= i <= d.len(),
        all_digits(d),
    ensures
        digits_value(d.take(i)) <= digits_value(d),
    decreases d.len(),
{
    if i < d.len() {
        assert(d.drop_last().take(i) =~= d.take(i));
        assert(all_digits(d.drop_last()));
        lemma_digits_value_prefix(d.drop_last(), i);
    } else {
        assert(d.take(i) =~= d);
    }
}

/// Reads the number that `s` denotes, in an unsigned type whose largest
/// value is `max`.
pub fn parse_unsigned_upto(s: &[char], max: u128) -> (r: Option<u128>)
    requires
        max <= u64::MAX,
    ensures
        r matches Some(v) ==> parse_unsigned(s@, max as nat) == Some(v as nat),
        r is None ==> parse_unsigned(s@, max as nat) is None,
{
    let start: usize = if s.len() > 0 && s[0] == '+' { 1 } else { 0 };
    let ghost d = if s@.len() > 0 && s@[0] == '+' { s@.drop_first() } else { s@ };
    assert(d =~= s@.skip(start as int));
    if start == s.len() {
        return None;
    }
    let mut acc: u128 = 0;
    let mut i: usize = start;
    assert(d.take(0) =~= Seq::<char>::empty());
    while i < s.len()
        invariant
            start <= i <= s.len(),
            max <= u64::MAX,
            d =~= s@.skip(start as int),
            d == (if s@.len() > 0 && s@[0] == '+' { s@.drop_first() } else { s@ }),
            all_digits(d.take(i - start)),
            acc == digits_value(d.take(i - start)),
            acc <= max,
        decreases s.len() - i,
    {
        let c = s[i];
        assert(d[i - start] == c);
        if c < '0' || c > '9' {
            assert(!all_digits(d));
            return None;
        }
        let dig = (c as u32 - '0' as u32) as u128;
        let ghost k = i - start;
        assert(d.take(k + 1).drop_last() =~= d.take(k));
        assert(all_digits(d.take(k + 1)));
        let next = acc * 10 + dig;
        i = i + 1;
        if next > max {
            proof {
                if all_digits(d) {
                    lemma_digits_value_prefix(d, k + 1);
                }
            }
            return None;
        }
        acc = next;
    }
    assert(d.take(i - start) =~= d);
    Some(acc)
}


/// The pieces of `p` that are not empty, in order.
pub open spec fn non_empty(p: Seq<Seq<char>>) -> Seq<Seq<char>>
    decreases p.len(),
{
    if p.len() == 0 {
        seq![]
    } else if p.last().len() > 0 {
        non_empty(p.drop_last()).push(p.last())
    } else {
        non_empty(p.drop_last())
    }
}

/// A copy of `cs`.
pub fn copy_chars(cs: &[char]) -> (v: Vec<char>)
    ensures
        v@ == cs@,
{
    let mut v: Vec<char> = Vec::new();
    let mut i: usize = 0;
    while i < cs.len()
        invariant
            i <= cs.len(),
            v@ == cs@.take(i as int),
        decreases cs.len() - i,
    {
        v.push(cs[i]);
        i = i + 1;
        assert(v@ =~= cs@.take(i as int));
    }
    assert(cs@.take(cs@.len() as int) =~= cs@);
    v
}

/// The pieces of `pieces` that are not empty, as `Vec::retain` keeps them.
pub fn keep_non_empty(pieces: &Vec<Vec<char>>) -> (kept: Vec<Vec<char>>)
    ensures
        views(kept@) == non_empty(views(pieces@)),
{
    let ghost all = views(pieces@);
    let mut kept: Vec<Vec<char>> = Vec::new();
    let mut i: usize = 0;
    assert(all.take(0) =~= Seq::<Seq<char>>::empty());
    while i < pieces.len()
        invariant
            i <= pieces.len(),
            all == views(pieces@),
            views(kept@) == non_empty(all.take(i as int)),
        decreases pieces.len() - i,
    {
        let ghost before = views(kept@);
        assert(all.take(i + 1).drop_last() =~= all.take(i as int));
        assert(all.take(i + 1).last() == pieces@[i as int]@);
        if pieces[i].len() > 0 {
            let p = copy_chars(pieces[i].as_slice());
            kept.push(p);
            assert(views(kept@) =~= before.push(all.take(i + 1).last()));
        }
        i = i + 1;
    }
    assert(all.take(pieces.len() as int) =~= all);
    kept
}


/// Appends `t` aligned left in a column of `width` characters.
pub fn push_align_left(s: &mut String, t: &str, width: usize)
    ensures
        final(s)@ == old(s)@ + align_left(t@, width as nat),
{
    let ghost start = s@;
    let len = t.unicode_len();
    s.append(t);
    if len < width {
        push_repeated(s, ' ', width - len);
    }
    assert(s@ =~= start + align_left(t@, width as nat));
}

/// Appends `t` aligned right in a column of `width` characters.
pub fn push_align_right(s: &mut String, t: &str, width: usize)
    ensures
        final(s)@ == old(s)@ + align_right(t@, width as nat),
{
    let ghost start = s@;
    let len = t.unicode_len();
    if len < width {
        push_repeated(s, ' ', width - len);
    }
    s.append(t);
    assert(s@ =~= start + align_right(t@, width as nat));
}

/// Appends the numeral of `n` padded on the left with zeros to `width`.
pub fn push_zero_padded(s: &mut String, n: u128, width: usize)
    ensures
        final(s)@ == old(s)@ + zero_padded(n as nat, width as nat),
{
    let ghost start = s@;
    let mut digits = String::new();
    push_decimal(&mut digits, n);
    assert(digits@ =~= decimal(n as nat));
    let len = digits.as_str().unicode_len();
    if len < width {
        push_repeated(s, '0', width - len);
    }
    s.append(digits.as_str());
    assert(s@ =~= start + zero_padded(n as nat, width as nat));
}


/// `s` without its leading spaces.
pub open spec fn skip_spaces(s: Seq<char>) -> Seq<char>
    decreases s.len(),
{
    if s.len() > 0 && s[0] == ' ' {
        skip_spaces(s.drop_first())
    } else {
        s
    }
}

/// Whether `d` is a numeral as Rust writes an unsigned number: one or more
/// ASCII digits, with no leading zero unless it is "0" itself.
pub open spec fn is_canonical_numeral(d: Seq<char>) -> bool {
    &&& d.len() >= 1
    &&& all_digits(d)
    &&& (d.len() == 1 || d[0] != '0')
}

/// Adding a digit at the end of a run of digits.
proof fn lemma_digits_value_push(d: Seq<char>, c: char)
    ensures
        digits_value(d.push(c)) == digits_value(d) * 10 + (c as nat - '0' as nat) as nat,
{
    assert(d.push(c).drop_last() =~= d);
}

/// The decimal numeral of `n` is a canonical numeral, and it reads back
/// as `n`.
pub proof fn lemma_decimal_reads_back(n: nat)
    ensures
        is_canonical_numeral(decimal(n)),
        digits_value(decimal(n)) == n,
        n >= 1 ==> decimal(n)[0] != '0',
    decreases n,
{
    if n < 10 {
        assert(decimal(n) =~= seq![digit_char(n)]);
        lemma_digits_value_push(Seq::<char>::empty(), digit_char(n));
        assert(seq![digit_char(n)] =~= Seq::<char>::empty().push(digit_char(n)));
    } else {
        lemma_decimal_reads_back(n / 10);
        let d = decimal(n / 10);
        lemma_digits_value_push(d, digit_char(n % 10));
        assert(decimal(n) == d.push(digit_char(n % 10)));
        assert(decimal(n)[0] == d[0]);
        assert forall|i: int| 0 <= i < decimal(n).len() implies '0' <= #[trigger] decimal(n)[i]
            && decimal(n)[i] <= '9' by {
            if i < d.len() {
                assert(decimal(n)[i] == d[i]);
            }
        }
    }
}

/// Numerals shorter than `k + 1` digits: a number below `10^k` has at most
/// `k` digits (for `k >= 1`).
pub proof fn lemma_decimal_len(n: nat, k: nat, bound: nat)
    requires
        k >= 1,
        bound == vstd::arithmetic::power::pow(10, k),
        n < bound,
    ensures
        decimal(n).len() <= k,
    decreases k,
{
    vstd::arithmetic::power::lemma_pow_positive(10, k);
    if n >= 10 {
        assert(k >= 2) by {
            if k == 1 {
                vstd::arithmetic::power::lemma_pow1(10);
            }
        }
        let b2 = vstd::arithmetic::power::pow(10, (k - 1) as nat) as nat;
        vstd::arithmetic::power::lemma_pow_positive(10, (k - 1) as nat);
        assert(bound == 10 * b2) by {
            vstd::arithmetic::power::lemma_pow_adds(10, 1, (k - 1) as nat);
            vstd::arithmetic::power::lemma_pow1(10);
        }
        assert(n / 10 < b2) by (nonlinear_arith)
            requires
                n < 10 * b2,
        ;
        lemma_decimal_len(n / 10, (k - 1) as nat, b2);
    }
}

/// Spaces before a numeral are skipped exactly.
pub proof fn lemma_skip_spaces(k: nat, d: Seq<char>)
    requires
        d.len() == 0 || d[0] != ' ',
    ensures
        skip_spaces(spaces(k) + d) == d,
    decreases k,
{
    if k > 0 {
        assert((spaces(k) + d).drop_first() =~= spaces((k - 1) as nat) + d);
        lemma_skip_spaces((k - 1) as nat, d);
    } else {
        assert(spaces(0) + d =~= d);
    }
}

/// White space at the end is trimmed exactly.
pub proof fn lemma_trim_end_white_suffix(s: Seq<char>, w: Seq<char>)
    requires
        forall|i: int| 0 <= i < w.len() ==> is_white_space(#[trigger] w[i]),
    ensures
        trim_end(s + w) == trim_end(s),
    decreases w.len(),
{
    if w.len() > 0 {
        assert((s + w).drop_last() =~= s + w.drop_last());
        assert((s + w).last() == w.last());
        lemma_trim_end_white_suffix(s, w.drop_last());
    } else {
        assert(s + w =~= s);
    }
}

/// A numeral of digits reads with `parse_unsigned` as its value, when the
/// value fits.
pub proof fn lemma_parse_digits(d: Seq<char>, max: nat)
    requires
        d.len() >= 1,
        all_digits(d),
        digits_value(d) <= max,
    ensures
        parse_unsigned(d, max) == Some(digits_value(d)),
{
    assert('0' <= d[0] && d[0] <= '9');
}


/// The search finds the first piece equal to `w`: where piece `i` is `w`
/// and no piece before it is, the search gives `i`.
pub proof fn lemma_first_index_is_first(tokens: Seq<Seq<char>>, w: Seq<char>, i: int)
    requires
        0 <= i < tokens.len(),
        tokens[i] == w,
        forall|k: int| 0 <= k < i ==> tokens[k] != w,
    ensures
        first_index(tokens, w) == Some(i),
{
    lemma_find_from(tokens, w, 0, i);
}

proof fn lemma_find_from(tokens: Seq<Seq<char>>, w: Seq<char>, start: int, i: int)
    requires
        0 <= start <= i < tokens.len(),
        tokens[i] == w,
        forall|k: int| start <= k < i ==> tokens[k] != w,
    ensures
        find_from(tokens, w, start) == Some(i),
    decreases i - start,
{
    if start < i {
        lemma_find_from(tokens, w, start + 1, i);
    }
}

} // verus!
