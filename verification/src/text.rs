use vstd::prelude::*;
use crate::unicode::{is_whitespace, whitespace};

verus! {

/// `p` occurs in `s` starting at position `i`.
pub open spec fn occurs_at(s: Seq<char>, p: Seq<char>, i: int) -> bool {
    0 <= i && i + p.len() <= s.len() && s.subrange(i, i + p.len()) == p
}

/// `p` occurs somewhere in `s`.
pub open spec fn contains_seq(s: Seq<char>, p: Seq<char>) -> bool {
    exists|i: int| occurs_at(s, p, i)
}

/// Every non-overlapping occurrence of `from` in `s`, found from left to right,
/// replaced by `to`.
pub open spec fn replaced(s: Seq<char>, from: Seq<char>, to: Seq<char>) -> Seq<char>
    decreases s.len(),
{
    if s.len() == 0 {
        s
    } else if 0 < from.len() && occurs_at(s, from, 0) {
        to + replaced(s.skip(from.len() as int), from, to)
    } else {
        seq![s[0]] + replaced(s.skip(1), from, to)
    }
}

/// Whether `p` occurs in `s` at position `i`.
pub fn occurs_at_exec(s: &Vec<char>, p: &Vec<char>, i: usize) -> (res: bool)
    ensures
        res == occurs_at(s@, p@, i as int),
{
    if i > s.len() || p.len() > s.len() - i {
        return false;
    }
    let mut k: usize = 0;
    while k < p.len()
        invariant
            k <= p@.len(),
            i + p@.len() <= s@.len(),
            s@.len() == s.len(),
            forall|j: int| 0 <= j < k ==> s@[i + j] == p@[j],
        decreases p@.len() - k,
    {
        if s[i + k] != p[k] {
            assert(s@.subrange(i as int, i + p@.len())[k as int] != p@[k as int]);
            return false;
        }
        k = k + 1;
    }
    assert(s@.subrange(i as int, i + p@.len()) =~= p@);
    true
}

/// Whether `p` occurs anywhere in `s`.
pub fn contains_exec(s: &Vec<char>, p: &Vec<char>) -> (res: bool)
    ensures
        res == contains_seq(s@, p@),
{
    if p.len() > s.len() {
        return false;
    }
    if p.len() == 0 {
        assert(s@.subrange(0, 0) =~= p@);
        assert(occurs_at(s@, p@, 0));
        return true;
    }
    let mut i: usize = 0;
    while i <= s.len() - p.len()
        invariant
            p@.len() > 0,
            p@.len() <= s@.len(),
            i <= s@.len() - p@.len() + 1,
            forall|j: int| 0 <= j < i ==> !occurs_at(s@, p@, j),
        decreases s@.len() - p@.len() + 1 - i,
    {
        if occurs_at_exec(s, p, i) {
            return true;
        }
        i = i + 1;
    }
    assert forall|j: int| !occurs_at(s@, p@, j) by {
        if 0 <= j && j + p@.len() <= s@.len() {
            assert(j < i);
        }
    }
    false
}

proof fn lemma_replaced_step(s: Seq<char>, from: Seq<char>, to: Seq<char>, i: int)
    requires
        0 <= i < s.len(),
        from.len() > 0,
    ensures
        occurs_at(s, from, i) ==> replaced(s.skip(i), from, to) == to + replaced(
            s.skip(i + from.len()),
            from,
            to,
        ),
        !occurs_at(s, from, i) ==> replaced(s.skip(i), from, to) == seq![s[i]] + replaced(
            s.skip(i + 1),
            from,
            to,
        ),
{
    let t = s.skip(i);
    assert(t.len() > 0);
    if occurs_at(s, from, i) {
        assert(t.subrange(0, from.len() as int) =~= s.subrange(i, i + from.len()));
        assert(t.skip(from.len() as int) =~= s.skip(i + from.len()));
    } else {
        if occurs_at(t, from, 0) {
            assert(t.subrange(0, from.len() as int) =~= s.subrange(i, i + from.len()));
        }
        assert(t.skip(1) =~= s.skip(i + 1));
    }
}

/// `s` with every occurrence of `from` replaced by `to`, as `str::replace` does.
pub fn replace_exec(s: &Vec<char>, from: &Vec<char>, to: &Vec<char>) -> (res: Vec<char>)
    requires
        from@.len() > 0,
    ensures
        res@ == replaced(s@, from@, to@),
{
    let mut res: Vec<char> = Vec::new();
    let mut i: usize = 0;
    assert(s@.skip(0) =~= s@);
    while i < s.len()
        invariant
            i <= s@.len(),
            from@.len() > 0,
            res@ + replaced(s@.skip(i as int), from@, to@) == replaced(s@, from@, to@),
        decreases s@.len() - i,
    {
        proof {
            lemma_replaced_step(s@, from@, to@, i as int);
        }
        if occurs_at_exec(s, from, i) {
            let ghost before = res@;
            let mut k: usize = 0;
            while k < to.len()
                invariant
                    k <= to@.len(),
                    res@ == before + to@.take(k as int),
                decreases to@.len() - k,
            {
                res.push(to[k]);
                k = k + 1;
                assert(res@ =~= before + to@.take(k as int));
            }
            assert(to@.take(to@.len() as int) =~= to@);
            assert(res@ + replaced(s@.skip(i + from@.len()), from@, to@) =~= before + (to@
                + replaced(s@.skip(i + from@.len()), from@, to@)));
            i = i + from.len();
        } else {
            let ghost before = res@;
            res.push(s[i]);
            assert(res@ + replaced(s@.skip(i + 1), from@, to@) =~= before + (seq![s@[i as int]]
                + replaced(s@.skip(i + 1), from@, to@)));
            i = i + 1;
        }
    }
    assert(s@.skip(i as int) =~= Seq::<char>::empty());
    assert(res@ + Seq::<char>::empty() =~= res@);
    res
}

} // verus!

verus! {

/// The decimal digit character for `d` (`0 <= d < 10`).
pub open spec fn digit_char(d: int) -> char {
    (48 + d) as char
}

/// `c` is one of the ASCII digits `0`..`9`.
pub open spec fn is_ascii_digit(c: char) -> bool {
    '0' <= c && c <= '9'
}

/// The decimal notation of `n`, without sign or leading zeros, as integers are
/// displayed.
pub open spec fn decimal_text(n: nat) -> Seq<char>
    decreases n,
{
    if n < 10 {
        seq![digit_char(n as int)]
    } else {
        decimal_text(n / 10).push(digit_char((n % 10) as int))
    }
}

/// The value of a sequence of ASCII digits read in base ten.
pub open spec fn digits_value(s: Seq<char>) -> int
    decreases s.len(),
{
    if s.len() == 0 {
        0
    } else {
        digits_value(s.drop_last()) * 10 + ((s.last() as int) - 48)
    }
}

/// Every character of `s` is an ASCII digit.
pub open spec fn all_ascii_digits(s: Seq<char>) -> bool {
    forall|i: int| 0 <= i < s.len() ==> is_ascii_digit(#[trigger] s[i])
}

/// What parsing `s` as an unsigned integer gives, with no bound on its size:
/// an optional leading `+`, then at least one ASCII digit and nothing else.
pub open spec fn unsigned_value(s: Seq<char>) -> Option<int> {
    let digits = if s.len() > 0 && s[0] == '+' {
        s.drop_first()
    } else {
        s
    };
    if digits.len() > 0 && all_ascii_digits(digits) {
        Some(digits_value(digits))
    } else {
        None
    }
}

/// What `str::parse` gives for an unsigned integer type whose largest value is `max`.
pub open spec fn parsed_unsigned(s: Seq<char>, max: int) -> Option<int> {
    match unsigned_value(s) {
        Some(v) => if v <= max {
            Some(v)
        } else {
            None
        },
        None => None,
    }
}

/// `s` preceded by as many `fill` characters as it takes to reach `width`
/// characters, as `format!("{:0>width$}", s)` does for the fill `0`.
pub open spec fn padded_left(s: Seq<char>, fill: char, width: nat) -> Seq<char> {
    if s.len() < width {
        Seq::new((width - s.len()) as nat, |_i: int| fill) + s
    } else {
        s
    }
}

/// The position of the last `c` in `s`, if any.
pub open spec fn last_index_of(s: Seq<char>, c: char) -> Option<int>
    decreases s.len(),
{
    if s.len() == 0 {
        None
    } else if s.last() == c {
        Some(s.len() - 1)
    } else {
        last_index_of(s.drop_last(), c)
    }
}

/// The number of times `c` occurs in `s`.
pub open spec fn count_char(s: Seq<char>, c: char) -> nat
    decreases s.len(),
{
    if s.len() == 0 {
        0
    } else {
        count_char(s.drop_last(), c) + if s.last() == c {
            1nat
        } else {
            0nat
        }
    }
}

/// The stem and extension of a file name, as `Path::file_stem` and
/// `Path::extension` give them: the parts before and after the last `.`, where
/// there is an extension at all (not for `..`, nor where the only `.` comes first).
pub open spec fn stem_and_extension(name: Seq<char>) -> Option<(Seq<char>, Seq<char>)> {
    if name == seq!['.', '.'] {
        None
    } else {
        match last_index_of(name, '.') {
            Some(k) => if k > 0 {
                Some((name.take(k), name.skip(k + 1)))
            } else {
                None
            },
            None => None,
        }
    }
}

proof fn lemma_last_index_of_bounds(s: Seq<char>, c: char)
    ensures
        last_index_of(s, c) matches Some(k) ==> 0 <= k < s.len() && s[k] == c && forall|j: int|
            k < j < s.len() ==> s[j] != c,
        last_index_of(s, c) is None ==> forall|j: int| 0 <= j < s.len() ==> s[j] != c,
    decreases s.len(),
{
    if s.len() > 0 && s.last() != c {
        let t = s.drop_last();
        lemma_last_index_of_bounds(t, c);
        assert forall|j: int| 0 <= j < t.len() implies t[j] == s[j] by {}
    }
}

/// The position of the last `c` in `s`, if any.
pub fn last_index_of_exec(s: &Vec<char>, c: char) -> (res: Option<usize>)
    ensures
        match res {
            Some(k) => last_index_of(s@, c) == Some(k as int),
            None => last_index_of(s@, c) is None,
        },
{
    let mut i: usize = s.len();
    assert(s@.take(i as int) =~= s@);
    while i > 0
        invariant
            i <= s@.len(),
            last_index_of(s@, c) == last_index_of(s@.take(i as int), c),
        decreases i,
    {
        let ghost t = s@.take(i as int);
        assert(t.drop_last() =~= s@.take(i - 1));
        if s[i - 1] == c {
            return Some(i - 1);
        }
        i = i - 1;
    }
    assert(s@.take(0) =~= Seq::<char>::empty());
    None
}

/// The number of times `c` occurs in `s`.
pub fn count_char_exec(s: &Vec<char>, c: char) -> (res: usize)
    ensures
        res == count_char(s@, c),
{
    let mut n: usize = 0;
    let mut i: usize = 0;
    while i < s.len()
        invariant
            i <= s@.len(),
            n == count_char(s@.take(i as int), c),
            n <= i,
        decreases s@.len() - i,
    {
        assert(s@.take(i + 1).drop_last() =~= s@.take(i as int));
        if s[i] == c {
            n = n + 1;
        }
        i = i + 1;
    }
    assert(s@.take(s@.len() as int) =~= s@);
    n
}

/// The decimal digit character for `d`.
fn digit_char_exec(d: usize) -> (c: char)
    requires
        d < 10,
    ensures
        c == digit_char(d as int),
{
    let b: u8 = 48 + (d as u8);
    b as char
}

/// The decimal notation of `n`, as integers are displayed.
pub fn decimal_chars(n: usize) -> (res: Vec<char>)
    ensures
        res@ == decimal_text(n as nat),
    decreases n,
{
    if n < 10 {
        let mut v: Vec<char> = Vec::new();
        v.push(digit_char_exec(n));
        v
    } else {
        let mut v = decimal_chars(n / 10);
        v.push(digit_char_exec(n % 10));
        v
    }
}

proof fn lemma_digits_value_prefix(s: Seq<char>, k: int)
    requires
        all_ascii_digits(s),
        0 <= k <= s.len(),
    ensures
        digits_value(s.take(k)) <= digits_value(s),
        0 <= digits_value(s.take(k)),
    decreases s.len(),
{
    if s.len() == 0 {
        assert(s.take(k) =~= s);
    } else if k == s.len() {
        assert(s.take(k) =~= s);
        lemma_digits_value_nonneg(s);
    } else {
        assert(all_ascii_digits(s.drop_last()));
        assert(s.drop_last().take(k) =~= s.take(k));
        lemma_digits_value_prefix(s.drop_last(), k);
        lemma_digits_value_nonneg(s.drop_last());
    }
}

proof fn lemma_digits_value_nonneg(s: Seq<char>)
    requires
        all_ascii_digits(s),
    ensures
        0 <= digits_value(s),
    decreases s.len(),
{
    if s.len() > 0 {
        assert(all_ascii_digits(s.drop_last()));
        lemma_digits_value_nonneg(s.drop_last());
    }
}

/// Parses `s` as an unsigned integer no larger than `max`, as `str::parse` does
/// for an unsigned integer type whose largest value is `max`.
pub fn parse_unsigned(s: &Vec<char>, max: usize) -> (res: Option<usize>)
    ensures
        match res {
            Some(v) => parsed_unsigned(s@, max as int) == Some(v as int),
            None => parsed_unsigned(s@, max as int) is None,
        },
{
    let start: usize = if s.len() > 0 && s[0] == '+' {
        1
    } else {
        0
    };
    let ghost digits = if s@.len() > 0 && s@[0] == '+' {
        s@.drop_first()
    } else {
        s@
    };
    assert(digits =~= s@.skip(start as int));
    assert(unsigned_value(s@) == (if digits.len() > 0 && all_ascii_digits(digits) {
        Some(digits_value(digits))
    } else {
        None
    }));
    if start >= s.len() {
        assert(digits.len() == 0);
        return None;
    }
    let mut i: usize = start;
    while i < s.len()
        invariant
            start <= i <= s@.len(),
            digits =~= s@.skip(start as int),
            unsigned_value(s@) == (if digits.len() > 0 && all_ascii_digits(digits) {
                Some(digits_value(digits))
            } else {
                None
            }),
            forall|j: int| start <= j < i ==> is_ascii_digit(#[trigger] s@[j]),
        decreases s@.len() - i,
    {
        if !('0' <= s[i] && s[i] <= '9') {
            assert(!is_ascii_digit(digits[i - start]));
            assert(!all_ascii_digits(digits));
            assert(unsigned_value(s@) is None);
            return None;
        }
        i = i + 1;
    }
    assert(all_ascii_digits(digits));
    let mut value: usize = 0;
    let mut k: usize = start;
    while k < s.len()
        invariant
            start <= k <= s@.len(),
            digits =~= s@.skip(start as int),
            unsigned_value(s@) == (if digits.len() > 0 && all_ascii_digits(digits) {
                Some(digits_value(digits))
            } else {
                None
            }),
            all_ascii_digits(digits),
            value as int == digits_value(digits.take(k - start)),
            value <= max,
        decreases s@.len() - k,
    {
        assert(is_ascii_digit(digits[k - start]));
        assert(digits[k - start] == s@[k as int]);
        let d: usize = ((s[k] as u32) - 48) as usize;
        assert(digits.take(k + 1 - start).drop_last() =~= digits.take(k - start));
        if d > max || value > (max - d) / 10 {
            proof {
                lemma_digits_value_prefix(digits, k + 1 - start);
                assert(digits.take(k + 1 - start).last() == digits[k - start]);
                assert(digits_value(digits.take(k + 1 - start)) == value * 10 + d);
                assert(value * 10 + d > max) by (nonlinear_arith)
                    requires
                        d > max || value > (max - d) / 10,
                        d < 10,
                        value >= 0,
                        max >= 0,
                ;
                assert(digits_value(digits) > max);
                assert(unsigned_value(s@) == Some(digits_value(digits)));
            }
            return None;
        }
        assert(value * 10 + d <= max) by (nonlinear_arith)
            requires
                value <= (max - d) / 10,
                d <= max,
        ;
        value = value * 10 + d;
        k = k + 1;
    }
    assert(digits.take(k - start) =~= digits);
    Some(value)
}

/// `s` preceded by `fill` characters up to `width` characters in all.
pub fn pad_left_exec(s: &Vec<char>, fill: char, width: usize) -> (res: Vec<char>)
    ensures
        res@ == padded_left(s@, fill, width as nat),
{
    if s.len() >= width {
        return s.clone();
    }
    let mut res: Vec<char> = Vec::new();
    let n: usize = width - s.len();
    let mut i: usize = 0;
    while i < n
        invariant
            i <= n,
            res@ == Seq::new(i as nat, |_j: int| fill),
        decreases n - i,
    {
        res.push(fill);
        i = i + 1;
        assert(res@ =~= Seq::new(i as nat, |_j: int| fill));
    }
    let mut k: usize = 0;
    let ghost pad = res@;
    while k < s.len()
        invariant
            k <= s@.len(),
            res@ == pad + s@.take(k as int),
        decreases s@.len() - k,
    {
        res.push(s[k]);
        k = k + 1;
        assert(res@ =~= pad + s@.take(k as int));
    }
    assert(s@.take(s@.len() as int) =~= s@);
    res
}

} // verus!

verus! {

/// `c` does not occur in `s`.
pub open spec fn lacks_char(s: Seq<char>, c: char) -> bool {
    forall|i: int| 0 <= i < s.len() ==> s[i] != c
}

/// The part of `s` before the first `c` (all of `s` where there is none), the
/// first piece that `str::split` gives.
pub open spec fn prefix_before(s: Seq<char>, c: char) -> Seq<char>
    decreases s.len(),
{
    if s.len() == 0 {
        s
    } else if s[0] == c {
        Seq::empty()
    } else {
        seq![s[0]] + prefix_before(s.drop_first(), c)
    }
}

/// `s` without its leading whitespace.
pub open spec fn trimmed_start(s: Seq<char>) -> Seq<char>
    decreases s.len(),
{
    if s.len() > 0 && whitespace(s[0]) {
        trimmed_start(s.drop_first())
    } else {
        s
    }
}

/// `s` without its trailing whitespace.
pub open spec fn trimmed_end(s: Seq<char>) -> Seq<char>
    decreases s.len(),
{
    if s.len() > 0 && whitespace(s.last()) {
        trimmed_end(s.drop_last())
    } else {
        s
    }
}

/// `s` without leading and trailing whitespace, as `str::trim` gives it.
pub open spec fn trimmed(s: Seq<char>) -> Seq<char> {
    trimmed_end(trimmed_start(s))
}

/// The part of `s` before the first `c`.
pub fn prefix_before_exec(s: &Vec<char>, c: char) -> (res: Vec<char>)
    ensures
        res@ == prefix_before(s@, c),
{
    let mut res: Vec<char> = Vec::new();
    let mut i: usize = 0;
    assert(s@.skip(0) =~= s@);
    while i < s.len() && s[i] != c
        invariant
            i <= s@.len(),
            res@ + prefix_before(s@.skip(i as int), c) == prefix_before(s@, c),
        decreases s@.len() - i,
    {
        let ghost before = res@;
        assert(s@.skip(i as int).drop_first() =~= s@.skip(i + 1));
        res.push(s[i]);
        i = i + 1;
        assert(res@ + prefix_before(s@.skip(i as int), c) =~= before + (seq![s@[i - 1]]
            + prefix_before(s@.skip(i as int), c)));
    }
    assert(prefix_before(s@.skip(i as int), c) =~= Seq::<char>::empty());
    assert(res@ + Seq::<char>::empty() =~= res@);
    res
}

/// `s` without leading and trailing whitespace.
pub fn trim_exec(s: &Vec<char>) -> (res: Vec<char>)
    ensures
        res@ == trimmed(s@),
{
    let mut a: usize = 0;
    assert(s@.skip(0) =~= s@);
    while a < s.len() && is_whitespace(s[a])
        invariant
            a <= s@.len(),
            trimmed_start(s@) == trimmed_start(s@.skip(a as int)),
        decreases s@.len() - a,
    {
        assert(s@.skip(a as int).drop_first() =~= s@.skip(a + 1));
        a = a + 1;
    }
    let mut b: usize = s.len();
    assert(s@.skip(a as int) =~= s@.subrange(a as int, b as int));
    while b > a && is_whitespace(s[b - 1])
        invariant
            a <= b <= s@.len(),
            trimmed(s@) == trimmed_end(s@.subrange(a as int, b as int)),
        decreases b,
    {
        assert(s@.subrange(a as int, b as int).drop_last() =~= s@.subrange(a as int, b - 1));
        b = b - 1;
    }
    let mut res: Vec<char> = Vec::new();
    let mut k: usize = a;
    while k < b
        invariant
            a <= k <= b <= s@.len(),
            res@ == s@.subrange(a as int, k as int),
        decreases b - k,
    {
        res.push(s[k]);
        k = k + 1;
        assert(res@ =~= s@.subrange(a as int, k as int));
    }
    res
}

} // verus!

verus! {

proof fn lemma_lacks_concat(a: Seq<char>, b: Seq<char>, x: char)
    requires
        lacks_char(a, x),
        lacks_char(b, x),
    ensures
        lacks_char(a + b, x),
{
    assert forall|i: int| 0 <= i < (a + b).len() implies (a + b)[i] != x by {
        if i >= a.len() {
            assert((a + b)[i] == b[i - a.len()]);
        }
    }
}

/// Replacing every single `x` by a text without `x` leaves no `x` behind.
pub proof fn lemma_replaced_removes(s: Seq<char>, x: char, to: Seq<char>)
    requires
        lacks_char(to, x),
    ensures
        lacks_char(replaced(s, seq![x], to), x),
    decreases s.len(),
{
    if s.len() > 0 {
        lemma_replaced_removes(s.skip(1), x, to);
        if occurs_at(s, seq![x], 0) {
            lemma_lacks_concat(to, replaced(s.skip(1), seq![x], to), x);
        } else {
            if s[0] == x {
                assert(s.subrange(0, 1) =~= seq![x]);
            }
            lemma_lacks_concat(seq![s[0]], replaced(s.skip(1), seq![x], to), x);
        }
    }
}

/// A replacement brings in no character that neither the text nor the
/// replacement holds.
pub proof fn lemma_replaced_keeps_absent(s: Seq<char>, from: Seq<char>, to: Seq<char>, x: char)
    requires
        lacks_char(s, x),
        lacks_char(to, x),
    ensures
        lacks_char(replaced(s, from, to), x),
    decreases s.len(),
{
    if s.len() > 0 {
        if 0 < from.len() && occurs_at(s, from, 0) {
            lemma_replaced_keeps_absent(s.skip(from.len() as int), from, to, x);
            lemma_lacks_concat(to, replaced(s.skip(from.len() as int), from, to), x);
        } else {
            lemma_replaced_keeps_absent(s.skip(1), from, to, x);
            lemma_lacks_concat(seq![s[0]], replaced(s.skip(1), from, to), x);
        }
    }
}

/// The part before the first `c` holds no `c`.
pub proof fn lemma_prefix_before_lacks(s: Seq<char>, c: char)
    ensures
        lacks_char(prefix_before(s, c), c),
    decreases s.len(),
{
    if s.len() > 0 && s[0] != c {
        lemma_prefix_before_lacks(s.drop_first(), c);
        lemma_lacks_concat(seq![s[0]], prefix_before(s.drop_first(), c), c);
    }
}

/// Leading whitespace removal keeps a suffix of the text.
pub proof fn lemma_trimmed_start_suffix(s: Seq<char>)
    ensures
        exists|k: int| 0 <= k <= s.len() && trimmed_start(s) == s.skip(k),
    decreases s.len(),
{
    if s.len() > 0 && whitespace(s[0]) {
        lemma_trimmed_start_suffix(s.drop_first());
        let k = choose|k: int|
            0 <= k <= s.drop_first().len() && trimmed_start(s.drop_first()) == s.drop_first().skip(
                k,
            );
        assert(s.drop_first().skip(k) =~= s.skip(k + 1));
    } else {
        assert(s.skip(0) =~= s);
    }
}

/// Trailing whitespace removal keeps a prefix of the text.
pub proof fn lemma_trimmed_end_prefix(s: Seq<char>)
    ensures
        exists|k: int| 0 <= k <= s.len() && trimmed_end(s) == s.take(k),
    decreases s.len(),
{
    if s.len() > 0 && whitespace(s.last()) {
        lemma_trimmed_end_prefix(s.drop_last());
        let k = choose|k: int|
            0 <= k <= s.drop_last().len() && trimmed_end(s.drop_last()) == s.drop_last().take(k);
        assert(s.drop_last().take(k) =~= s.take(k));
    } else {
        assert(s.take(s.len() as int) =~= s);
    }
}

/// Trimming brings in no character.
pub proof fn lemma_trimmed_keeps_absent(s: Seq<char>, x: char)
    requires
        lacks_char(s, x),
    ensures
        lacks_char(trimmed(s), x),
{
    lemma_trimmed_start_suffix(s);
    let k = choose|k: int| 0 <= k <= s.len() && trimmed_start(s) == s.skip(k);
    let t = s.skip(k);
    assert(lacks_char(t, x)) by {
        assert forall|i: int| 0 <= i < t.len() implies t[i] != x by {
            assert(t[i] == s[i + k]);
        }
    }
    lemma_trimmed_end_prefix(t);
}

} // verus!

verus! {

/// Whether `a` and `b` hold the same characters.
pub fn chars_equal(a: &Vec<char>, b: &Vec<char>) -> (res: bool)
    ensures
        res == (a@ == b@),
{
    if a.len() != b.len() {
        return false;
    }
    let mut i: usize = 0;
    while i < a.len()
        invariant
            i <= a@.len(),
            a@.len() == b@.len(),
            forall|j: int| 0 <= j < i ==> a@[j] == b@[j],
        decreases a@.len() - i,
    {
        if a[i] != b[i] {
            return false;
        }
        i = i + 1;
    }
    assert(a@ =~= b@);
    true
}

/// The first `n` characters of `s`.
pub fn prefix_exec(s: &Vec<char>, n: usize) -> (res: Vec<char>)
    requires
        n <= s@.len(),
    ensures
        res@ == s@.take(n as int),
{
    let mut res: Vec<char> = Vec::new();
    let mut i: usize = 0;
    while i < n
        invariant
            i <= n <= s@.len(),
            res@ == s@.take(i as int),
        decreases n - i,
    {
        res.push(s[i]);
        i = i + 1;
        assert(res@ =~= s@.take(i as int));
    }
    res
}

/// `a` followed by `b`.
pub fn concat_exec(a: &Vec<char>, b: &Vec<char>) -> (res: Vec<char>)
    ensures
        res@ == a@ + b@,
{
    let mut res: Vec<char> = a.clone();
    let mut i: usize = 0;
    while i < b.len()
        invariant
            i <= b@.len(),
            res@ == a@ + b@.take(i as int),
        decreases b@.len() - i,
    {
        res.push(b[i]);
        i = i + 1;
        assert(res@ =~= a@ + b@.take(i as int));
    }
    assert(b@.take(b@.len() as int) =~= b@);
    res
}

} // verus!

verus! {

/// The characters of `s` from position `start` on.
pub fn suffix_exec(s: &Vec<char>, start: usize) -> (res: Vec<char>)
    requires
        start <= s@.len(),
    ensures
        res@ == s@.skip(start as int),
{
    let mut res: Vec<char> = Vec::new();
    let mut i: usize = start;
    while i < s.len()
        invariant
            start <= i <= s@.len(),
            res@ == s@.subrange(start as int, i as int),
        decreases s@.len() - i,
    {
        res.push(s[i]);
        i = i + 1;
        assert(res@ =~= s@.subrange(start as int, i as int));
    }
    assert(s@.subrange(start as int, i as int) =~= s@.skip(start as int));
    res
}

/// The stem and extension of a file name, as `Path::file_stem` and
/// `Path::extension` give them, where it has an extension.
pub fn stem_and_extension_exec(name: &Vec<char>) -> (res: Option<(Vec<char>, Vec<char>)>)
    ensures
        match res {
            Some((stem, extension)) => stem_and_extension(name@) == Some((stem@, extension@)),
            None => stem_and_extension(name@) is None,
        },
{
    if name.len() == 2 && name[0] == '.' && name[1] == '.' {
        assert(name@ =~= seq!['.', '.']);
        return None;
    }
    assert(name@ != seq!['.', '.']) by {
        if name@ == seq!['.', '.'] {
            assert(name@[0] == '.' && name@[1] == '.');
        }
    }
    match last_index_of_exec(name, '.') {
        Some(k) => {
            proof {
                lemma_last_index_of_bounds(name@, '.');
            }
            if k > 0 {
                Some((prefix_exec(name, k), suffix_exec(name, k + 1)))
            } else {
                None
            }
        },
        None => None,
    }
}

} // verus!

verus! {

/// Counting a character over two texts side by side adds up.
pub proof fn lemma_count_char_concat(a: Seq<char>, b: Seq<char>, c: char)
    ensures
        count_char(a + b, c) == count_char(a, c) + count_char(b, c),
    decreases b.len(),
{
    if b.len() == 0 {
        assert(a + b =~= a);
    } else {
        assert((a + b).drop_last() =~= a + b.drop_last());
        lemma_count_char_concat(a, b.drop_last(), c);
    }
}

/// A character that does not occur is counted zero times.
pub proof fn lemma_count_char_lacking(s: Seq<char>, c: char)
    requires
        lacks_char(s, c),
    ensures
        count_char(s, c) == 0,
    decreases s.len(),
{
    if s.len() > 0 {
        assert(lacks_char(s.drop_last(), c));
        lemma_count_char_lacking(s.drop_last(), c);
    }
}

/// Decimal notation holds only ASCII digits.
pub proof fn lemma_decimal_text_digits(n: nat)
    ensures
        decimal_text(n).len() > 0,
        all_ascii_digits(decimal_text(n)),
    decreases n,
{
    if n >= 10 {
        lemma_decimal_text_digits(n / 10);
    }
}

/// Decimal notation holds no character but digits.
pub proof fn lemma_decimal_text_lacks(n: nat, c: char)
    requires
        !is_ascii_digit(c),
    ensures
        lacks_char(decimal_text(n), c),
{
    lemma_decimal_text_digits(n);
}

proof fn lemma_digits_value_of_decimal(n: nat)
    ensures
        digits_value(decimal_text(n)) == n,
    decreases n,
{
    if n >= 10 {
        lemma_digits_value_of_decimal(n / 10);
        assert(decimal_text(n).drop_last() =~= decimal_text(n / 10));
        assert((digit_char((n % 10) as int) as int) == 48 + n % 10);
        assert(decimal_text(n).last() == digit_char((n % 10) as int));
        assert((n / 10) * 10 + n % 10 == n) by (nonlinear_arith);
        assert(digits_value(decimal_text(n)) == digits_value(decimal_text(n / 10)) * 10 + (n % 10));
    } else {
        assert((digit_char(n as int) as int) == 48 + n);
        assert(decimal_text(n).drop_last() =~= Seq::<char>::empty());
        assert(digits_value(Seq::<char>::empty()) == 0);
        assert(digits_value(decimal_text(n)) == 0 * 10 + n);
    }
}

/// A number written in decimal reads back as the same number wherever it fits.
pub proof fn lemma_decimal_text_parses_back(n: nat, max: int)
    requires
        n <= max,
    ensures
        parsed_unsigned(decimal_text(n), max) == Some(n as int),
{
    lemma_decimal_text_digits(n);
    lemma_digits_value_of_decimal(n);
    assert(decimal_text(n)[0] != '+') by {
        assert(is_ascii_digit(decimal_text(n)[0]));
    }
}

/// Replacing a text that does not occur changes nothing.
pub proof fn lemma_replaced_absent(s: Seq<char>, from: Seq<char>, to: Seq<char>)
    requires
        from.len() > 0,
        !contains_seq(s, from),
    ensures
        replaced(s, from, to) == s,
    decreases s.len(),
{
    if s.len() > 0 {
        assert(!occurs_at(s, from, 0));
        assert(!contains_seq(s.skip(1), from)) by {
            if contains_seq(s.skip(1), from) {
                let i = choose|i: int| occurs_at(s.skip(1), from, i);
                assert(s.skip(1).subrange(i, i + from.len()) =~= s.subrange(i + 1, i + 1 + from.len()));
                assert(occurs_at(s, from, i + 1));
            }
        }
        lemma_replaced_absent(s.skip(1), from, to);
        assert(seq![s[0]] + s.skip(1) =~= s);
    }
}

/// Padding keeps the text at the end and reaches the width, and leaves a text
/// already as wide alone.
pub proof fn lemma_padded_left(s: Seq<char>, fill: char, width: nat)
    ensures
        padded_left(s, fill, width).len() == if s.len() < width {
            width
        } else {
            s.len()
        },
        padded_left(s, fill, width).skip(padded_left(s, fill, width).len() - s.len()) == s,
        s.len() >= width ==> padded_left(s, fill, width) == s,
{
    let p = padded_left(s, fill, width);
    if s.len() < width {
        assert(p.skip(p.len() - s.len()) =~= s);
    } else {
        assert(p.skip(0) =~= s);
    }
}

/// Every text occurs in itself.
pub proof fn lemma_contains_itself(s: Seq<char>)
    ensures
        contains_seq(s, s),
{
    assert(s.subrange(0, s.len() as int) =~= s);
    assert(occurs_at(s, s, 0));
}

/// A file name with an extension is its stem, a `.` and its extension.
pub proof fn lemma_stem_and_extension_rejoin(name: Seq<char>)
    requires
        stem_and_extension(name) is Some,
    ensures
        ({
            let (stem, extension) = stem_and_extension(name)->Some_0;
            stem + seq!['.'] + extension == name
        }),
{
    lemma_last_index_of_bounds(name, '.');
    let k = last_index_of(name, '.')->Some_0;
    assert(name.take(k) + seq!['.'] + name.skip(k + 1) =~= name);
}

} // verus!

verus! {

/// A one-character text counts that character once and any other not at all.
pub proof fn lemma_count_char_single(x: char, c: char)
    ensures
        count_char(seq![x], c) == if x == c {
            1nat
        } else {
            0nat
        },
{
    assert(seq![x].drop_last() =~= Seq::<char>::empty());
    assert(count_char(Seq::<char>::empty(), c) == 0);
}

} // verus!

verus! {

proof fn lemma_decimal_text_first_digit(n: nat)
    ensures
        n >= 1 ==> decimal_text(n)[0] != '0',
        decimal_text(n).len() >= 1,
    decreases n,
{
    if n >= 10 {
        lemma_decimal_text_first_digit(n / 10);
        assert(decimal_text(n)[0] == decimal_text(n / 10)[0]);
    } else {
        assert((digit_char(n as int) as int) == 48 + n);
    }
}

/// Integers are written the way `to_string` writes them: ASCII digits only, no
/// leading zero (but for zero itself, written `0`), reading back as the number.
pub proof fn lemma_decimal_text_is_canonical(n: nat)
    ensures
        decimal_text(n).len() >= 1,
        all_ascii_digits(decimal_text(n)),
        digits_value(decimal_text(n)) == n,
        decimal_text(n).len() > 1 ==> decimal_text(n)[0] != '0',
        n == 0 ==> decimal_text(n) == seq!['0'],
{
    lemma_decimal_text_digits(n);
    lemma_digits_value_of_decimal(n);
    lemma_decimal_text_first_digit(n);
    if n == 0 {
        assert(decimal_text(0) =~= seq!['0']);
    }
}

/// Replacing a single character distributes over concatenation.
pub proof fn lemma_replaced_char_concat(a: Seq<char>, b: Seq<char>, c: char, to: Seq<char>)
    ensures
        replaced(a + b, seq![c], to) == replaced(a, seq![c], to) + replaced(b, seq![c], to),
    decreases a.len(),
{
    let pat = seq![c];
    if a.len() == 0 {
        assert(a + b =~= b);
        assert(replaced(a, pat, to) =~= Seq::<char>::empty());
        assert(Seq::<char>::empty() + replaced(b, pat, to) =~= replaced(b, pat, to));
    } else {
        let s = a + b;
        assert(s[0] == a[0]);
        assert(s.subrange(0, 1) =~= seq![s[0]]);
        assert(a.subrange(0, 1) =~= seq![a[0]]);
        if a[0] == c {
            assert(s.subrange(0, 1) =~= pat);
            assert(a.subrange(0, 1) =~= pat);
        } else {
            assert(s.subrange(0, 1)[0] != pat[0]);
            assert(a.subrange(0, 1)[0] != pat[0]);
        }
        assert(occurs_at(s, pat, 0) == (a[0] == c));
        assert(occurs_at(a, pat, 0) == (a[0] == c));
        assert(s.skip(1) =~= a.skip(1) + b);
        lemma_replaced_char_concat(a.skip(1), b, c, to);
        if a[0] == c {
            assert(to + (replaced(a.skip(1), pat, to) + replaced(b, pat, to)) =~= (to + replaced(
                a.skip(1),
                pat,
                to,
            )) + replaced(b, pat, to));
        } else {
            assert(seq![a[0]] + (replaced(a.skip(1), pat, to) + replaced(b, pat, to)) =~= (seq![
                a[0],
            ] + replaced(a.skip(1), pat, to)) + replaced(b, pat, to));
        }
    }
}

/// A text without `c` does not hold the one-character text `c`.
pub proof fn lemma_lacks_char_not_contained(s: Seq<char>, c: char)
    requires
        lacks_char(s, c),
    ensures
        !contains_seq(s, seq![c]),
{
    if contains_seq(s, seq![c]) {
        let i = choose|i: int| occurs_at(s, seq![c], i);
        assert(s.subrange(i, i + 1)[0] == s[i]);
    }
}

} // verus!
