//! Character-level helpers shared by the parsers and request builders.
use vstd::prelude::*;

verus! {

/// The decimal digit character for `d` (`0 <= d < 10`).
pub open spec fn digit_char(d: nat) -> char {
    (d + 48) as char
}

/// The decimal rendering of `n`, without sign or leading zeros.
pub open spec fn decimal(n: nat) -> Seq<char>
    decreases n,
{
    if n < 10 {
        seq![digit_char(n)]
    } else {
        decimal(n / 10).push(digit_char(n % 10))
    }
}

/// The number that a string of decimal digits stands for, most
/// significant digit first.
pub open spec fn digits_value(s: Seq<char>) -> int
    decreases s.len(),
{
    if s.len() == 0 {
        0
    } else {
        digits_value(s.drop_last()) * 10 + (s.last() as int - 48)
    }
}

/// Law: the decimal rendering of `n` is a non-empty string of the digits
/// `0` to `9`, without a leading zero (save for `0` itself), and read back in
/// base 10 it is `n`; so it has one digit per base-10 place of `n`.
pub proof fn law_decimal_reads_back(n: nat)
    ensures
        decimal(n).len() >= 1,
        forall|i: int| 0 <= i < decimal(n).len() ==> 48 <= #[trigger] (decimal(n)[i] as int) <= 57,
        digits_value(decimal(n)) == n,
        decimal(n)[0] as int == 48 ==> n == 0,
    decreases n,
{
    if n < 10 {
        let c = digit_char(n);
        assert(c as int == n + 48);
        assert(decimal(n) =~= seq![c]);
        assert(decimal(n).drop_last() =~= Seq::<char>::empty());
        assert(decimal(n).last() == c);
        assert(digits_value(Seq::<char>::empty()) == 0);
        assert(digits_value(decimal(n)) == 0 * 10 + (c as int - 48));
    } else {
        law_decimal_reads_back(n / 10);
        let init = decimal(n / 10);
        let c = digit_char(n % 10);
        assert(c as int == n % 10 + 48);
        assert(decimal(n) == init.push(c));
        assert(init.push(c).drop_last() =~= init);
        assert(decimal(n)[0] == init[0]);
        assert(init.push(c).last() == c);
        assert(digits_value(decimal(n)) == digits_value(init) * 10 + (c as int - 48));
        assert((n / 10) * 10 + n % 10 == n) by (nonlinear_arith);
        assert forall|i: int| 0 <= i < decimal(n).len() implies 48 <= #[trigger] (decimal(n)[i] as int)
            <= 57 by {
            if i < init.len() {
                assert(decimal(n)[i] == init[i]);
            }
        }
    }
}

fn digit_str(d: u64) -> (s: &'static str)
    requires
        d < 10,
    ensures
        s@ == seq![digit_char(d as nat)],
{
    let digits = "0123456789";
    proof {
        reveal_strlit("0123456789");
    }
    let i = d as usize;
    digits.substring_char(i, i + 1)
}

/// Renders `n` in decimal, as `Display` does for unsigned integers.
pub fn decimal_string(n: u64) -> (s: String)
    ensures
        s@ == decimal(n as nat),
    decreases n,
{
    if n < 10 {
        String::from_str(digit_str(n))
    } else {
        let mut s = decimal_string(n / 10);
        s.append(digit_str(n % 10));
        s
    }
}

/// The characters of `s`, in order.
pub fn chars_of(s: &str) -> (v: Vec<char>)
    ensures
        v@ == s@,
{
    broadcast use vstd::string::group_string_axioms;
    let mut v: Vec<char> = Vec::new();
    for c in it: s.chars()
        invariant
            v@ == it.seq().take(it.index()),
            it.seq() == s@,
    {
        v.push(c);
    }
    v
}

/// The pieces of `s` between occurrences of `sep`, as `str::split` with a
/// `char` pattern yields them: always at least one, empty ones included.
pub open spec fn split_char(s: Seq<char>, sep: char) -> Seq<Seq<char>>
    decreases s.len(),
{
    if s.len() == 0 {
        seq![Seq::empty()]
    } else {
        let init = split_char(s.drop_last(), sep);
        if s.last() == sep {
            init.push(Seq::empty())
        } else {
            init.update(init.len() - 1, init.last().push(s.last()))
        }
    }
}

/// Whether `chars[from..to]` holds exactly the characters of `word`.
pub fn range_equals(chars: &Vec<char>, from: usize, to: usize, word: &str) -> (b: bool)
    requires
        from <= to <= chars@.len(),
    ensures
        b == (chars@.subrange(from as int, to as int) == word@),
{
    let w = chars_of(word);
    if to - from != w.len() {
        return false;
    }
    let mut k: usize = 0;
    while k < w.len()
        invariant
            from <= to <= chars@.len(),
            to - from == w@.len(),
            w@ == word@,
            k <= w@.len(),
            forall|m: int| 0 <= m < k ==> chars@[from + m] == w@[m],
        decreases w@.len() - k,
    {
        if chars[from + k] != w[k] {
            assert(chars@.subrange(from as int, to as int)[k as int] != w@[k as int]);
            return false;
        }
        k = k + 1;
    }
    assert(chars@.subrange(from as int, to as int) =~= w@);
    true
}

/// Whether `p` occurs in `s` starting at index `i`.
pub open spec fn occurs_at(s: Seq<char>, p: Seq<char>, i: int) -> bool {
    0 <= i && i + p.len() <= s.len() && s.subrange(i, i + p.len()) == p
}

/// The first index at or after `from` where `p` occurs in `s`, if any.
pub open spec fn find_from(s: Seq<char>, p: Seq<char>, from: int) -> Option<int>
    decreases s.len() + 1 - from,
{
    if from < 0 || from + p.len() > s.len() {
        None
    } else if occurs_at(s, p, from) {
        Some(from)
    } else {
        find_from(s, p, from + 1)
    }
}

/// A found position is at or after the start and holds the pattern.
pub proof fn lemma_find_from_found(s: Seq<char>, p: Seq<char>, from: int)
    ensures
        find_from(s, p, from) matches Some(k) ==> from <= k && occurs_at(s, p, k),
    decreases s.len() + 1 - from,
{
    if !(from < 0 || from + p.len() > s.len()) && !occurs_at(s, p, from) {
        lemma_find_from_found(s, p, from + 1);
    }
}

/// Skipping positions where `p` does not occur leaves the search result unchanged.
pub proof fn lemma_find_from_skip(s: Seq<char>, p: Seq<char>, from: int, k: int)
    requires
        0 <= from <= k,
        forall|m: int| from <= m < k ==> !occurs_at(s, p, m),
    ensures
        find_from(s, p, from) == find_from(s, p, k),
    decreases k - from,
{
    if from < k {
        lemma_find_from_skip(s, p, from + 1, k);
        if from + p.len() > s.len() {
            assert(find_from(s, p, k) is None);
        }
    }
}

/// Searches `chars` for `pattern`, starting at index `from`.
pub fn find_pattern_from(chars: &Vec<char>, pattern: &str, from: usize) -> (r: Option<usize>)
    ensures
        match r {
            Some(k) => find_from(chars@, pattern@, from as int) == Some(k as int),
            None => find_from(chars@, pattern@, from as int) is None,
        },
{
    let n = chars.len();
    let plen = pattern.unicode_len();
    if from > n || plen > n - from {
        return None;
    }
    if plen == 0 {
        assert(chars@.subrange(from as int, from as int) =~= pattern@);
        return Some(from);
    }
    let mut k: usize = from;
    while k <= n - plen
        invariant
            n == chars@.len(),
            plen == pattern@.len(),
            1 <= plen <= n,
            from <= k <= n - plen + 1,
            forall|m: int| from <= m < k ==> !occurs_at(chars@, pattern@, m),
        decreases n - plen + 1 - k,
    {
        if range_equals(chars, k, k + plen, pattern) {
            proof {
                lemma_find_from_skip(chars@, pattern@, from as int, k as int);
            }
            return Some(k);
        }
        k = k + 1;
    }
    proof {
        lemma_find_from_skip(chars@, pattern@, from as int, k as int);
    }
    None
}

} // verus!
