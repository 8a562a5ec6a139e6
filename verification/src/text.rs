//! Character-level string utilities: trimming, separator splitting,
//! equality, substring search and decimal parsing, each pinned to a spec
//! function over `Seq<char>`.

use vstd::prelude::*;
use vstd::string::*;

verus! {

/// Whitespace recognized when trimming manifest tokens.
pub open spec fn is_space(c: char) -> bool {
    c == ' ' || c == '\t' || c == '\r' || c == '\n'
}

pub open spec fn spec_trim_start(s: Seq<char>) -> Seq<char>
    decreases s.len(),
{
    if s.len() > 0 && is_space(s[0]) {
        spec_trim_start(s.drop_first())
    } else {
        s
    }
}

pub open spec fn spec_trim_end(s: Seq<char>) -> Seq<char>
    decreases s.len(),
{
    if s.len() > 0 && is_space(s[s.len() - 1]) {
        spec_trim_end(s.drop_last())
    } else {
        s
    }
}

/// The string without leading and trailing whitespace.
pub open spec fn spec_trim(s: Seq<char>) -> Seq<char> {
    spec_trim_end(spec_trim_start(s))
}

proof fn lemma_trim_start_at(s: Seq<char>, a: int)
    requires
        0 <= a <= s.len(),
        forall|k: int| 0 <= k < a ==> is_space(s[k]),
        a < s.len() ==> !is_space(s[a]),
    ensures
        spec_trim_start(s) == s.subrange(a, s.len() as int),
    decreases a,
{
    if a == 0 {
        assert(s.subrange(0, s.len() as int) =~= s);
    } else {
        assert(is_space(s[0]));
        lemma_trim_start_at(s.drop_first(), a - 1);
        assert(s.drop_first().subrange(a - 1, s.drop_first().len() as int) =~= s.subrange(
            a,
            s.len() as int,
        ));
    }
}

proof fn lemma_trim_end_at(s: Seq<char>, b: int)
    requires
        0 <= b <= s.len(),
        forall|k: int| b <= k < s.len() ==> is_space(s[k]),
        b > 0 ==> !is_space(s[b - 1]),
    ensures
        spec_trim_end(s) == s.subrange(0, b),
    decreases s.len() - b,
{
    if b == s.len() {
        assert(s.subrange(0, s.len() as int) =~= s);
    } else {
        assert(is_space(s[s.len() - 1]));
        lemma_trim_end_at(s.drop_last(), b);
        assert(s.drop_last().subrange(0, b) =~= s.subrange(0, b));
    }
}

proof fn lemma_trim_start_le(s: Seq<char>)
    ensures
        spec_trim_start(s).len() <= s.len(),
        spec_trim_start(s).len() == s.len() ==> spec_trim_start(s) == s,
    decreases s.len(),
{
    if s.len() > 0 && is_space(s[0]) {
        lemma_trim_start_le(s.drop_first());
    }
}

proof fn lemma_trim_end_le(s: Seq<char>)
    ensures
        spec_trim_end(s).len() <= s.len(),
        spec_trim_end(s).len() == s.len() ==> spec_trim_end(s) == s,
    decreases s.len(),
{
    if s.len() > 0 && is_space(s[s.len() - 1]) {
        lemma_trim_end_le(s.drop_last());
    }
}

/// A string whose ends are not whitespace is its own trim.
pub proof fn lemma_trim_stable(s: Seq<char>)
    requires
        s.len() == 0 || (!is_space(s[0]) && !is_space(s[s.len() - 1])),
    ensures
        spec_trim(s) == s,
{
    lemma_trim_start_at(s, 0);
    assert(s.subrange(0, s.len() as int) =~= s);
    lemma_trim_end_at(s, s.len() as int);
}

/// A string that is its own trim has no whitespace at either end.
pub proof fn lemma_trim_stable_ends(s: Seq<char>)
    requires
        spec_trim(s) == s,
        s.len() > 0,
    ensures
        !is_space(s[0]),
        !is_space(s[s.len() - 1]),
{
    lemma_trim_start_le(s);
    lemma_trim_end_le(s);
    if is_space(s[0]) {
        lemma_trim_start_le(s.drop_first());
        lemma_trim_end_le(spec_trim_start(s));
        assert(spec_trim(s).len() < s.len());
    }
    lemma_trim_end_le(spec_trim_start(s));
    assert(spec_trim_start(s).len() == s.len());
    assert(spec_trim_start(s) == s);
    if is_space(s[s.len() - 1]) {
        lemma_trim_end_le(s.drop_last());
        assert(spec_trim(s).len() < s.len());
    }
}

pub fn is_space_char(c: char) -> (r: bool)
    ensures
        r == is_space(c),
{
    c == ' ' || c == '\t' || c == '\r' || c == '\n'
}

/// The slice with leading and trailing whitespace removed.
pub fn trim(s: &str) -> (r: &str)
    ensures
        r@ == spec_trim(s@),
{
    let n = s.unicode_len();
    let mut a: usize = 0;
    while a < n && is_space_char(s.get_char(a))
        invariant
            0 <= a <= n,
            n == s@.len(),
            forall|k: int| 0 <= k < a ==> is_space(s@[k]),
        decreases n - a,
    {
        a = a + 1;
    }
    let mut b: usize = n;
    while b > a && is_space_char(s.get_char(b - 1))
        invariant
            a <= b <= n,
            n == s@.len(),
            forall|k: int| b <= k < n ==> is_space(s@[k]),
        decreases b,
    {
        b = b - 1;
    }
    proof {
        lemma_trim_start_at(s@, a as int);
        let t = s@.subrange(a as int, n as int);
        assert(forall|k: int| b - a <= k < t.len() ==> is_space(t[k]));
        lemma_trim_end_at(t, b - a);
        assert(t.subrange(0, b - a) =~= s@.subrange(a as int, b as int));
    }
    s.substring_char(a, b)
}

/// Character-for-character string equality.
pub fn str_eq(a: &str, b: &str) -> (r: bool)
    ensures
        r == (a@ == b@),
{
    let an = a.unicode_len();
    let bn = b.unicode_len();
    if an != bn {
        proof {
            if a@ == b@ {
                assert(a@.len() == b@.len());
            }
        }
        return false;
    }
    let mut i: usize = 0;
    while i < an
        invariant
            0 <= i <= an,
            an == a@.len(),
            an == b@.len(),
            forall|k: int| 0 <= k < i ==> a@[k] == b@[k],
        decreases an - i,
    {
        if a.get_char(i) != b.get_char(i) {
            return false;
        }
        i = i + 1;
    }
    proof {
        assert(a@ =~= b@);
    }
    true
}

/// The first position at or after `i` holding `sep`, or the length when
/// none does.
pub open spec fn next_sep(s: Seq<char>, sep: char, i: int) -> int
    decreases s.len() - i when 0 <= i <= s.len()
{
    if i >= s.len() {
        s.len() as int
    } else if s[i] == sep {
        i
    } else {
        next_sep(s, sep, i + 1)
    }
}

pub proof fn lemma_next_sep(s: Seq<char>, sep: char, i: int)
    requires
        0 <= i <= s.len(),
    ensures
        i <= next_sep(s, sep, i) <= s.len(),
        next_sep(s, sep, i) < s.len() ==> s[next_sep(s, sep, i)] == sep,
        forall|k: int| i <= k < next_sep(s, sep, i) ==> s[k] != sep,
    decreases s.len() - i,
{
    if i < s.len() && s[i] != sep {
        lemma_next_sep(s, sep, i + 1);
    }
}

/// The position of a first occurrence pins `next_sep` down.
pub proof fn lemma_next_sep_is(s: Seq<char>, c: char, i: int, j: int)
    requires
        0 <= i <= j <= s.len(),
        forall|k: int| i <= k < j ==> s[k] != c,
        j < s.len() ==> s[j] == c,
    ensures
        next_sep(s, c, i) == j,
{
    lemma_next_sep(s, c, i);
}

/// Finding a separator later in a longer string: positions past a prefix
/// behave as in the rest alone.
pub proof fn lemma_next_sep_shift(pre: Seq<char>, rest: Seq<char>, c: char, i: int)
    requires
        0 <= i <= rest.len(),
    ensures
        next_sep(pre + rest, c, pre.len() + i) == pre.len() + next_sep(rest, c, i),
{
    let s = pre + rest;
    let j = next_sep(rest, c, i);
    lemma_next_sep(rest, c, i);
    assert(forall|k: int| pre.len() + i <= k < pre.len() + j ==> s[k] == rest[k - pre.len()]);
    if j < rest.len() {
        assert(s[pre.len() + j] == rest[j]);
    }
    lemma_next_sep_is(s, c, pre.len() + i, pre.len() + j);
}

/// Finds the next occurrence of `sep` at or after `from`.
pub fn find_sep(s: &str, sep: char, from: usize) -> (r: usize)
    requires
        from <= s@.len(),
    ensures
        r == next_sep(s@, sep, from as int),
        from <= r <= s@.len(),
{
    let ghost gs = s@;
    let n = s.unicode_len();
    let mut i: usize = from;
    while i < n
        invariant
            from <= i <= n,
            n == gs.len(),
            gs == s@,
            forall|k: int| from <= k < i ==> gs[k] != sep,
        decreases n - i,
    {
        if s.get_char(i) == sep {
            proof {
                lemma_next_sep(gs, sep, from as int);
            }
            return i;
        }
        i = i + 1;
    }
    proof {
        lemma_next_sep(gs, sep, from as int);
    }
    n
}

/// The comma-separated tokens of `s` starting at `i`: each piece is
/// trimmed, and empty pieces are dropped.
pub open spec fn spec_tokens_from(s: Seq<char>, i: int) -> Seq<Seq<char>>
    decreases s.len() - i,
    when 0 <= i <= s.len()
{
    proof {
        lemma_next_sep(s, ',', i);
    }
    let j = next_sep(s, ',', i);
    let t = spec_trim(s.subrange(i, j));
    let rest = if j == s.len() {
        Seq::<Seq<char>>::empty()
    } else {
        spec_tokens_from(s, j + 1)
    };
    if t.len() > 0 {
        seq![t] + rest
    } else {
        rest
    }
}

/// Comma-separated list semantics of the manifest format: split on commas,
/// trim each piece, drop the empty ones.
pub open spec fn spec_token_list(s: Seq<char>) -> Seq<Seq<char>> {
    spec_tokens_from(s, 0)
}

/// Splits a comma-separated value into its trimmed, non-empty tokens.
pub fn token_list(s: &str) -> (r: Vec<String>)
    ensures
        r.deep_view() == spec_token_list(s@),
{
    let n = s.unicode_len();
    let mut out: Vec<String> = Vec::new();
    let mut i: usize = 0;
    let mut done = false;
    while !done
        invariant
            0 <= i <= n,
            n == s@.len(),
            !done ==> spec_token_list(s@) == out.deep_view() + spec_tokens_from(s@, i as int),
            done ==> spec_token_list(s@) == out.deep_view(),
        decreases n - i + (if done { 0int } else { 1int }),
    {
        let ghost prev = out.deep_view();
        let j = find_sep(s, ',', i);
        let piece = s.substring_char(i, j);
        let t = trim(piece);
        proof {
            lemma_next_sep(s@, ',', i as int);
        }
        if t.unicode_len() > 0 {
            out.push(String::from_str(t));
            proof {
                assert(out.deep_view() =~= prev + seq![t@]);
            }
        }
        if j == n {
            done = true;
        } else {
            i = j + 1;
        }
    }
    out
}

/// Decimal digit test.
pub open spec fn is_digit(c: char) -> bool {
    48 <= c as u32 <= 57
}

/// Value of a digit string, most significant digit first.
pub open spec fn spec_digits_val(s: Seq<char>) -> int
    decreases s.len(),
{
    if s.len() == 0 {
        0
    } else {
        spec_digits_val(s.drop_last()) * 10 + (s[s.len() - 1] as u32 - 48)
    }
}

/// Every character is a decimal digit.
pub open spec fn all_digits(d: Seq<char>) -> bool {
    forall|k: int| 0 <= k < d.len() ==> is_digit(#[trigger] d[k])
}

/// The digits of an unsigned decimal literal: an optional leading `+` is
/// not part of the value.
pub open spec fn spec_unsigned_body(s: Seq<char>) -> Seq<char> {
    if s.len() > 0 && s[0] == '+' {
        s.drop_first()
    } else {
        s
    }
}

/// Unsigned decimal parsing: an optional leading `+`, then one or more
/// digits whose value fits in `u32`; anything else is no number.
pub open spec fn spec_parse_u32(s: Seq<char>) -> Option<u32> {
    let d = spec_unsigned_body(s);
    if d.len() > 0 && all_digits(d) && spec_digits_val(d) <= u32::MAX {
        Some(spec_digits_val(d) as u32)
    } else {
        None
    }
}

proof fn lemma_digits_val_nonneg(s: Seq<char>)
    requires
        all_digits(s),
    ensures
        spec_digits_val(s) >= 0,
    decreases s.len(),
{
    if s.len() > 0 {
        assert(forall|k: int| 0 <= k < s.len() - 1 ==> #[trigger] s.drop_last()[k] == s[k]);
        lemma_digits_val_nonneg(s.drop_last());
    }
}

proof fn lemma_digits_val_prefix_le(s: Seq<char>, m: int)
    requires
        0 <= m <= s.len(),
        all_digits(s),
    ensures
        spec_digits_val(s.take(m)) <= spec_digits_val(s),
    decreases s.len() - m,
{
    if m == s.len() {
        assert(s.take(m) =~= s);
    } else {
        assert(s.take(m + 1).drop_last() =~= s.take(m));
        assert(forall|k: int| 0 <= k < m ==> #[trigger] s.take(m)[k] == s[k]);
        lemma_digits_val_nonneg(s.take(m));
        assert(spec_digits_val(s.take(m + 1)) == spec_digits_val(s.take(m)) * 10 + (s[m] as u32
            - 48));
        lemma_digits_val_prefix_le(s, m + 1);
    }
}

/// Parses an unsigned decimal number, yielding nothing on any malformed
/// or overflowing input.
pub fn parse_u32(s: &str) -> (r: Option<u32>)
    ensures
        r == spec_parse_u32(s@),
{
    let n = s.unicode_len();
    let start: usize = if n > 0 && s.get_char(0) == '+' {
        1
    } else {
        0
    };
    let ghost d = spec_unsigned_body(s@);
    assert(d.len() == n - start);
    assert(forall|k: int| 0 <= k < d.len() ==> d[k] == s@[k + start]);
    if n == start {
        return None;
    }
    let mut val: u64 = 0;
    let mut i: usize = start;
    while i < n
        invariant
            start <= i <= n,
            start == 0 || start == 1,
            n == s@.len(),
            d == spec_unsigned_body(s@),
            d.len() == n - start,
            forall|k: int| 0 <= k < d.len() ==> d[k] == s@[k + start],
            forall|k: int| 0 <= k < i - start ==> is_digit(#[trigger] d[k]),
            val == spec_digits_val(d.take(i - start)),
            val <= u32::MAX,
        decreases n - i,
    {
        let c = s.get_char(i);
        let cv = c as u32;
        proof {
            assert(d[i - start] == s@[i as int]);
        }
        if cv < 48 || cv > 57 {
            proof {
                assert(!is_digit(d[i - start]));
                assert(!all_digits(d));
            }
            return None;
        }
        proof {
            assert(is_digit(d[i - start]));
            assert(d.take(i + 1 - start).drop_last() =~= d.take(i - start));
            assert(d.take(i + 1 - start)[i - start] == d[i - start]);
        }
        val = val * 10 + (cv - 48) as u64;
        proof {
            assert(spec_digits_val(d.take(i + 1 - start)) == spec_digits_val(d.take(i - start))
                * 10 + (d[i - start] as u32 - 48));
            assert(val == spec_digits_val(d.take(i + 1 - start)));
        }
        if val > u32::MAX as u64 {
            proof {
                if all_digits(d) {
                    lemma_digits_val_prefix_le(d, i + 1 - start);
                    assert(spec_digits_val(d) > u32::MAX);
                }
                assert(spec_parse_u32(s@) is None);
            }
            return None;
        }
        i = i + 1;
    }
    proof {
        assert(d.take(n - start) =~= d);
        assert(all_digits(d));
    }
    Some(val as u32)
}

/// `n` occurs as a contiguous substring of `h`.
pub open spec fn spec_contains(h: Seq<char>, n: Seq<char>) -> bool {
    exists|i: int| 0 <= i <= h.len() - n.len() && #[trigger] h.subrange(i, i + n.len()) == n
}

/// Substring search.
pub fn contains_sub(h: &str, ndl: &str) -> (r: bool)
    ensures
        r == spec_contains(h@, ndl@),
{
    let hn = h.unicode_len();
    let nn = ndl.unicode_len();
    if nn > hn {
        return false;
    }
    if nn == 0 {
        assert(h@.subrange(0, 0 + ndl@.len() as int) =~= ndl@);
        return true;
    }
    let mut i: usize = 0;
    while i <= hn - nn
        invariant
            0 <= i <= hn - nn + 1,
            1 <= nn <= hn,
            hn == h@.len(),
            nn == ndl@.len(),
            forall|k: int| 0 <= k < i ==> #[trigger] h@.subrange(k, k + nn) != ndl@,
        decreases hn - nn - i + 1,
    {
        let piece = h.substring_char(i, i + nn);
        if str_eq(piece, ndl) {
            assert(h@.subrange(i as int, i as int + ndl@.len() as int) == ndl@);
            return true;
        }
        i = i + 1;
    }
    false
}

/// `p` is a prefix of `s`.
pub open spec fn spec_starts_with(s: Seq<char>, p: Seq<char>) -> bool {
    s.len() >= p.len() && s.subrange(0, p.len() as int) == p
}

/// Prefix test.
pub fn starts_with_str(s: &str, p: &str) -> (r: bool)
    ensures
        r == spec_starts_with(s@, p@),
{
    let sn = s.unicode_len();
    let pn = p.unicode_len();
    if pn > sn {
        return false;
    }
    str_eq(s.substring_char(0, pn), p)
}

/// The last position holding `c`, or `-1` when none does.
pub open spec fn last_ix(s: Seq<char>, c: char) -> int
    decreases s.len(),
{
    if s.len() == 0 {
        -1
    } else if s[s.len() - 1] == c {
        s.len() - 1
    } else {
        last_ix(s.drop_last(), c)
    }
}

pub proof fn lemma_last_ix(s: Seq<char>, c: char)
    ensures
        -1 <= last_ix(s, c) < s.len(),
        last_ix(s, c) >= 0 ==> s[last_ix(s, c)] == c,
        forall|k: int| last_ix(s, c) < k < s.len() ==> s[k] != c,
    decreases s.len(),
{
    if s.len() > 0 && s[s.len() - 1] != c {
        lemma_last_ix(s.drop_last(), c);
        assert(forall|k: int| 0 <= k < s.len() - 1 ==> s.drop_last()[k] == s[k]);
    }
}

/// Finds the last occurrence of `c`.
pub fn find_last(s: &str, c: char) -> (r: Option<usize>)
    ensures
        match r {
            Some(ix) => ix == last_ix(s@, c),
            None => last_ix(s@, c) == -1,
        },
{
    let n = s.unicode_len();
    let mut i: usize = n;
    while i > 0
        invariant
            0 <= i <= n,
            n == s@.len(),
            forall|k: int| i <= k < n ==> s@[k] != c,
        decreases i,
    {
        if s.get_char(i - 1) == c {
            proof {
                lemma_last_ix(s@, c);
            }
            return Some(i - 1);
        }
        i = i - 1;
    }
    proof {
        lemma_last_ix(s@, c);
    }
    None
}

/// The character of one decimal digit.
pub open spec fn digit_char(d: int) -> char {
    if d == 0 {
        '0'
    } else if d == 1 {
        '1'
    } else if d == 2 {
        '2'
    } else if d == 3 {
        '3'
    } else if d == 4 {
        '4'
    } else if d == 5 {
        '5'
    } else if d == 6 {
        '6'
    } else if d == 7 {
        '7'
    } else if d == 8 {
        '8'
    } else {
        '9'
    }
}

/// Decimal rendering of an unsigned number, most significant digit first.
pub open spec fn spec_u32_str(n: int) -> Seq<char>
    decreases n,
    when n >= 0
{
    if n < 10 {
        seq![digit_char(n)]
    } else {
        spec_u32_str(n / 10).push(digit_char(n % 10))
    }
}

/// A rendered number is non-empty and all digits.
pub proof fn lemma_u32_str_digits(n: int)
    requires
        n >= 0,
    ensures
        all_digits(spec_u32_str(n)),
        spec_u32_str(n).len() > 0,
    decreases n,
{
    if n < 10 {
        assert(is_digit(digit_char(n)));
        assert(spec_u32_str(n) =~= seq![digit_char(n)]);
    } else {
        lemma_u32_str_digits(n / 10);
        let front = spec_u32_str(n / 10);
        assert(is_digit(digit_char(n % 10)));
        assert(forall|k: int|
            0 <= k < front.len() ==> #[trigger] front.push(digit_char(n % 10))[k] == front[k]);
        assert(front.push(digit_char(n % 10))[front.len() as int] == digit_char(n % 10));
    }
}

fn digit_str(d: u32) -> (r: &'static str)
    requires
        d < 10,
    ensures
        r@ == seq![digit_char(d as int)],
{
    let s: &'static str = if d == 0 {
        "0"
    } else if d == 1 {
        "1"
    } else if d == 2 {
        "2"
    } else if d == 3 {
        "3"
    } else if d == 4 {
        "4"
    } else if d == 5 {
        "5"
    } else if d == 6 {
        "6"
    } else if d == 7 {
        "7"
    } else if d == 8 {
        "8"
    } else {
        "9"
    };
    proof {
        reveal_strlit("0");
        reveal_strlit("1");
        reveal_strlit("2");
        reveal_strlit("3");
        reveal_strlit("4");
        reveal_strlit("5");
        reveal_strlit("6");
        reveal_strlit("7");
        reveal_strlit("8");
        reveal_strlit("9");
        assert(s@ =~= seq![digit_char(d as int)]);
    }
    s
}

/// Renders a number in decimal.
pub fn u32_to_string(n: u32) -> (r: String)
    ensures
        r@ == spec_u32_str(n as int),
    decreases n,
{
    let d = n % 10;
    let ds = digit_str(d);
    if n < 10 {
        String::from_str(ds)
    } else {
        let front = u32_to_string(n / 10);
        let r = front.concat(ds);
        proof {
            assert(r@ =~= spec_u32_str(n as int / 10).push(digit_char(n as int % 10)));
        }
        r
    }
}

/// The lowercase folding of a string, named but not written out: it is
/// whatever the standard library's case folding returns for these
/// characters, the same in every run.
pub uninterp spec fn lower_of(s: Seq<char>) -> Seq<char>;

/// Relies on str::to_lowercase: the result depends on the characters
/// alone.
#[verifier::external_body]
pub fn lowercase(s: &str) -> (r: String)
    ensures
        r@ == lower_of(s@),
{
    s.to_lowercase()
}

/// Membership of a string in a list, byte-for-byte.
pub fn vec_contains_str(v: &Vec<String>, s: &str) -> (r: bool)
    ensures
        r == v.deep_view().contains(s@),
{
    let n = v.len();
    let mut i: usize = 0;
    while i < n
        invariant
            0 <= i <= n,
            n == v.len(),
            forall|k: int| 0 <= k < i ==> v.deep_view()[k] != s@,
        decreases n - i,
    {
        if str_eq(v[i].as_str(), s) {
            assert(v.deep_view()[i as int] == s@);
            return true;
        }
        assert(v.deep_view()[i as int] == v[i as int]@);
        i = i + 1;
    }
    assert(forall|k: int| 0 <= k < v.deep_view().len() ==> v.deep_view()[k] != s@);
    false
}

/// Joins two path segments with a slash.
pub fn path_join(a: &str, b: &str) -> (r: String)
    ensures
        r@ == a@ + seq!['/'] + b@,
{
    proof {
        reveal_strlit("/");
    }
    let s = String::from_str(a);
    let s = s.concat("/");
    let r = s.concat(b);
    proof {
        assert(r@ =~= a@ + seq!['/'] + b@);
    }
    r
}

/// Joins a file stem and an extension with a dot.
pub fn ext_join(a: &str, b: &str) -> (r: String)
    ensures
        r@ == a@ + seq!['.'] + b@,
{
    proof {
        reveal_strlit(".");
    }
    let s = String::from_str(a);
    let s = s.concat(".");
    let r = s.concat(b);
    proof {
        assert(r@ =~= a@ + seq!['.'] + b@);
    }
    r
}

} // verus!
