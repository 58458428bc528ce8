//! Character-level building blocks of the text formats: whitespace and
//! trimming as `str::trim` does them, splitting on a separator as
//! `str::split` does it, and unsigned decimal numbers as `u64::from_str`
//! reads them.

use vstd::prelude::*;
use vstd::string::*;

verus! {

/// The characters of Unicode's `White_Space` property, which is what
/// `char::is_whitespace` and `str::trim` go by.
pub open spec fn is_ws(c: char) -> bool {
    ||| ('\u{9}' <= c && c <= '\u{d}')
    ||| c == ' '
    ||| c == '\u{85}'
    ||| c == '\u{a0}'
    ||| c == '\u{1680}'
    ||| ('\u{2000}' <= c && c <= '\u{200a}')
    ||| c == '\u{2028}'
    ||| c == '\u{2029}'
    ||| c == '\u{202f}'
    ||| c == '\u{205f}'
    ||| c == '\u{3000}'
}

pub fn is_whitespace_char(c: char) -> (r: bool)
    ensures
        r == is_ws(c),
{
    ('\u{9}' <= c && c <= '\u{d}') || c == ' ' || c == '\u{85}' || c == '\u{a0}' || c == '\u{1680}'
        || ('\u{2000}' <= c && c <= '\u{200a}') || c == '\u{2028}' || c == '\u{2029}' || c
        == '\u{202f}' || c == '\u{205f}' || c == '\u{3000}'
}

/// `s` without its leading whitespace.
pub open spec fn trim_start(s: Seq<char>) -> Seq<char>
    decreases s.len(),
{
    if s.len() > 0 && is_ws(s[0]) {
        trim_start(s.drop_first())
    } else {
        s
    }
}

/// `s` without its trailing whitespace.
pub open spec fn trim_end(s: Seq<char>) -> Seq<char>
    decreases s.len(),
{
    if s.len() > 0 && is_ws(s.last()) {
        trim_end(s.drop_last())
    } else {
        s
    }
}

/// `s` without leading and trailing whitespace, as `str::trim` gives it.
pub open spec fn trim(s: Seq<char>) -> Seq<char> {
    trim_end(trim_start(s))
}

/// A sequence that neither starts nor ends with whitespace.
pub open spec fn is_trimmed(s: Seq<char>) -> bool {
    s.len() > 0 ==> !is_ws(s[0]) && !is_ws(s.last())
}

/// The index of the first `c` in `s`, or `s.len()` where there is none.
pub open spec fn find_char(s: Seq<char>, c: char) -> int
    decreases s.len(),
{
    if s.len() == 0 {
        0
    } else if s[0] == c {
        0
    } else {
        1 + find_char(s.drop_first(), c)
    }
}

pub proof fn lemma_find_char_bounds(s: Seq<char>, c: char)
    ensures
        0 <= find_char(s, c) <= s.len(),
        find_char(s, c) < s.len() ==> s[find_char(s, c)] == c,
        forall|j: int| 0 <= j < find_char(s, c) ==> s[j] != c,
    decreases s.len(),
{
    if s.len() > 0 && s[0] != c {
        lemma_find_char_bounds(s.drop_first(), c);
        assert forall|j: int| 0 <= j < find_char(s, c) implies s[j] != c by {
            if j > 0 {
                assert(s[j] == s.drop_first()[j - 1]);
            }
        }
    }
}

/// The pieces of `s` between the occurrences of `sep`, as `str::split` with a
/// `char` gives them.
pub open spec fn split_on(s: Seq<char>, sep: char) -> Seq<Seq<char>>
    decreases s.len(),
{
    let i = find_char(s, sep);
    proof {
        lemma_find_char_bounds(s, sep);
    }
    if i >= s.len() {
        seq![s]
    } else {
        seq![s.take(i)] + split_on(s.skip(i + 1), sep)
    }
}

/// The index of the first occurrence of the two characters `a`, `b` in `s`,
/// or `s.len()` where there is none.
pub open spec fn find_pair(s: Seq<char>, a: char, b: char) -> int
    decreases s.len(),
{
    if s.len() < 2 {
        s.len() as int
    } else if s[0] == a && s[1] == b {
        0
    } else {
        1 + find_pair(s.drop_first(), a, b)
    }
}

pub proof fn lemma_find_pair_bounds(s: Seq<char>, a: char, b: char)
    ensures
        0 <= find_pair(s, a, b) <= s.len(),
        find_pair(s, a, b) < s.len() ==> find_pair(s, a, b) + 2 <= s.len(),
    decreases s.len(),
{
    if s.len() >= 2 && !(s[0] == a && s[1] == b) {
        lemma_find_pair_bounds(s.drop_first(), a, b);
    }
}

/// The pieces of `s` between the occurrences of the two-character pattern
/// `a b`, as `str::split` with a two-character `&str` gives them.
pub open spec fn split_on_pair(s: Seq<char>, a: char, b: char) -> Seq<Seq<char>>
    decreases s.len(),
{
    let i = find_pair(s, a, b);
    proof {
        lemma_find_pair_bounds(s, a, b);
    }
    if i >= s.len() {
        seq![s]
    } else {
        seq![s.take(i)] + split_on_pair(s.skip(i + 2), a, b)
    }
}

pub open spec fn is_digit(c: char) -> bool {
    '0' <= c && c <= '9'
}

pub open spec fn digit_value(c: char) -> nat {
    (c as int - '0' as int) as nat
}

pub open spec fn all_digits(s: Seq<char>) -> bool {
    forall|i: int| 0 <= i < s.len() ==> is_digit(#[trigger] s[i])
}

/// Whether a run of characters read as decimal digits, after the value `acc`
/// read so far, passes `u64::MAX` before it meets a character that is not a
/// digit.
pub open spec fn overflows_first(d: Seq<char>, acc: nat) -> bool
    decreases d.len(),
{
    if d.len() == 0 {
        false
    } else if !is_digit(d[0]) {
        false
    } else if acc * 10 + digit_value(d[0]) > u64::MAX {
        true
    } else {
        overflows_first(d.drop_first(), acc * 10 + digit_value(d[0]))
    }
}

/// What `u64::from_str` says, as `{}` shows its error, of a text it refuses:
/// an empty text is one kind of error; otherwise, after a leading `+` that is
/// not the whole text, the digits are read from the left, and the first
/// character that is not a digit, or the first digit that takes the value
/// past `u64::MAX`, decides which of the two other kinds it is.
pub open spec fn u64_error_text(s: Seq<char>) -> Seq<char> {
    if s.len() == 0 {
        "cannot parse integer from empty string"@
    } else {
        let d = if s.len() > 1 && s[0] == '+' {
            s.drop_first()
        } else {
            s
        };
        if overflows_first(d, 0) {
            "number too large to fit in target type"@
        } else {
            "invalid digit found in string"@
        }
    }
}

/// The number that the decimal digits `s` write.
pub open spec fn digits_value(s: Seq<char>) -> nat
    decreases s.len(),
{
    if s.len() == 0 {
        0
    } else {
        digits_value(s.drop_last()) * 10 + digit_value(s.last())
    }
}

/// What `u64::from_str` accepts: an optional `+`, then at least one decimal
/// digit, for a value that fits in 64 bits.
pub open spec fn parse_u64_spec(s: Seq<char>) -> Option<u64> {
    let d = if s.len() > 0 && s[0] == '+' {
        s.drop_first()
    } else {
        s
    };
    if d.len() > 0 && all_digits(d) && digits_value(d) <= u64::MAX {
        Some(digits_value(d) as u64)
    } else {
        None
    }
}

pub open spec fn digit_char(d: nat) -> char {
    ((d + '0' as nat) as u32) as char
}

/// The shortest decimal writing of `n`, as `{}` formats an unsigned integer.
pub open spec fn decimal(n: nat) -> Seq<char>
    decreases n,
{
    if n < 10 {
        seq![digit_char(n)]
    } else {
        decimal(n / 10).push(digit_char(n % 10))
    }
}

pub proof fn lemma_digit_char(d: nat)
    requires
        d < 10,
    ensures
        is_digit(digit_char(d)),
        digit_value(digit_char(d)) == d,
        !is_ws(digit_char(d)),
{
}

/// The decimal writing of `n` is digits only, and reads back as `n`.
pub proof fn lemma_decimal(n: nat)
    ensures
        decimal(n).len() > 0,
        all_digits(decimal(n)),
        digits_value(decimal(n)) == n,
    decreases n,
{
    if n < 10 {
        lemma_digit_char(n);
        let d = decimal(n);
        assert(d.drop_last() =~= Seq::<char>::empty());
        assert(d.last() == digit_char(n));
        assert(digits_value(d) == digits_value(d.drop_last()) * 10 + digit_value(d.last()));
    } else {
        lemma_decimal(n / 10);
        lemma_digit_char(n % 10);
        let d = decimal(n);
        assert(d.drop_last() =~= decimal(n / 10));
        assert(d.last() == digit_char(n % 10));
        assert(digits_value(d) == digits_value(decimal(n / 10)) * 10 + digit_value(digit_char(n % 10)));
        assert(digits_value(d) == n);
        assert forall|i: int| 0 <= i < d.len() implies is_digit(#[trigger] d[i]) by {
            if i < d.len() - 1 {
                assert(d[i] == decimal(n / 10)[i]);
            }
        }
    }
}

/// `u64::from_str` reads the decimal writing of `n` back as `n`.
pub proof fn lemma_parse_decimal(n: u64)
    ensures
        parse_u64_spec(decimal(n as nat)) == Some(n),
        is_trimmed(decimal(n as nat)),
{
    lemma_decimal(n as nat);
    let d = decimal(n as nat);
    assert(is_digit(d[0]));
    assert(is_digit(d[d.len() - 1]));
}

/// A prefix of digits is worth no more than the whole.
pub proof fn lemma_digits_value_prefix(s: Seq<char>, k: int)
    requires
        0 <= k <= s.len(),
    ensures
        digits_value(s.take(k)) <= digits_value(s),
    decreases s.len() - k,
{
    if k < s.len() {
        lemma_digits_value_prefix(s.drop_last(), k);
        assert(s.drop_last().take(k) =~= s.take(k));
    } else {
        assert(s.take(k) =~= s);
    }
}

/// The first `k` characters of `s` when none of them is `c` and the next one
/// is, or when there is no next one.
pub proof fn lemma_find_char(s: Seq<char>, c: char, k: int)
    requires
        0 <= k <= s.len(),
        forall|j: int| 0 <= j < k ==> s[j] != c,
        k < s.len() ==> s[k] == c,
    ensures
        find_char(s, c) == k,
    decreases k,
{
    if k > 0 {
        lemma_find_char(s.drop_first(), c, k - 1);
    }
}

pub proof fn lemma_find_pair(s: Seq<char>, a: char, b: char, k: int)
    requires
        0 <= k <= s.len(),
        forall|j: int| 0 <= j < k && j + 1 < s.len() ==> !(#[trigger] s[j] == a && s[j + 1] == b),
        k < s.len() ==> k + 1 < s.len() && s[k] == a && s[k + 1] == b,
        k == s.len() ==> s.len() < 2 || !(s[s.len() - 2] == a && s[s.len() - 1] == b),
    ensures
        find_pair(s, a, b) == k,
    decreases k,
{
    if s.len() < 2 {
    } else if k > 0 {
        lemma_find_pair(s.drop_first(), a, b, k - 1);
    }
}

/// Splitting `a`, a piece without `sep`, then `sep`, then `b`.
pub proof fn lemma_split_on_cons(a: Seq<char>, b: Seq<char>, sep: char)
    requires
        !a.contains(sep),
    ensures
        split_on(a.push(sep) + b, sep) == seq![a] + split_on(b, sep),
{
    let s = a.push(sep) + b;
    lemma_find_char(s, sep, a.len() as int);
    assert(s.take(a.len() as int) =~= a);
    assert(s.skip(a.len() as int + 1) =~= b);
}

/// Splitting a piece without `sep`.
pub proof fn lemma_split_on_single(a: Seq<char>, sep: char)
    requires
        !a.contains(sep),
    ensures
        split_on(a, sep) == seq![a],
{
    lemma_find_char(a, sep, a.len() as int);
}

/// Trimming a sequence whose ends are not whitespace leaves it alone.
pub proof fn lemma_trim_trimmed(s: Seq<char>)
    requires
        is_trimmed(s),
    ensures
        trim(s) == s,
{
}

/// Every character of `a` is one of `b`.
pub open spec fn within(a: Seq<char>, b: Seq<char>) -> bool {
    forall|i: int| 0 <= i < a.len() ==> b.contains(#[trigger] a[i])
}

/// A character that `b` lacks, a sequence within it lacks too.
pub proof fn lemma_within_lacks(a: Seq<char>, b: Seq<char>, c: char)
    requires
        within(a, b),
        !b.contains(c),
    ensures
        !a.contains(c),
{
    if a.contains(c) {
        let j = choose|j: int| 0 <= j < a.len() && a[j] == c;
        assert(b.contains(a[j]));
    }
}

/// A part of a sequence is within it.
pub proof fn lemma_subrange_within(s: Seq<char>, i: int, j: int)
    requires
        0 <= i <= j <= s.len(),
    ensures
        within(s.subrange(i, j), s),
{
    assert forall|k: int| 0 <= k < j - i implies s.contains(#[trigger] s.subrange(i, j)[k]) by {
        assert(s[i + k] == s.subrange(i, j)[k]);
    }
}

pub proof fn lemma_within_trans(a: Seq<char>, b: Seq<char>, c: Seq<char>)
    requires
        within(a, b),
        within(b, c),
    ensures
        within(a, c),
{
    assert forall|k: int| 0 <= k < a.len() implies c.contains(#[trigger] a[k]) by {
        assert(b.contains(a[k]));
        let j = choose|j: int| 0 <= j < b.len() && b[j] == a[k];
        assert(c.contains(b[j]));
    }
}

/// Trimming keeps a part of the sequence.
pub proof fn lemma_trim_start_part(s: Seq<char>)
    ensures
        exists|i: int| 0 <= i <= s.len() && trim_start(s) == s.subrange(i, s.len() as int),
    decreases s.len(),
{
    if s.len() > 0 && is_ws(s[0]) {
        lemma_trim_start_part(s.drop_first());
        let i = choose|i: int| 0 <= i <= s.drop_first().len() && trim_start(s.drop_first()) == s.drop_first().subrange(i, s.drop_first().len() as int);
        assert(s.drop_first().subrange(i, s.drop_first().len() as int) =~= s.subrange(i + 1, s.len() as int));
    } else {
        assert(s.subrange(0, s.len() as int) =~= s);
    }
}

pub proof fn lemma_trim_end_part(s: Seq<char>)
    ensures
        exists|j: int| 0 <= j <= s.len() && trim_end(s) == s.subrange(0, j),
    decreases s.len(),
{
    if s.len() > 0 && is_ws(s.last()) {
        lemma_trim_end_part(s.drop_last());
        let j = choose|j: int| 0 <= j <= s.drop_last().len() && trim_end(s.drop_last()) == s.drop_last().subrange(0, j);
        assert(s.drop_last().subrange(0, j) =~= s.subrange(0, j));
    } else {
        assert(s.subrange(0, s.len() as int) =~= s);
    }
}

/// What trimming gives is within the sequence and is trimmed.
pub proof fn lemma_trim_facts(s: Seq<char>)
    ensures
        within(trim(s), s),
        is_trimmed(trim(s)),
{
    lemma_trim_start_part(s);
    let i = choose|i: int| 0 <= i <= s.len() && trim_start(s) == s.subrange(i, s.len() as int);
    let t = trim_start(s);
    lemma_trim_end_part(t);
    let j = choose|j: int| 0 <= j <= t.len() && trim_end(t) == t.subrange(0, j);
    lemma_subrange_within(s, i, s.len() as int);
    lemma_subrange_within(t, 0, j);
    lemma_within_trans(trim(s), t, s);
    lemma_trim_start_first(s);
    lemma_trim_end_last(t);
    if trim(s).len() > 0 {
        assert(trim(s)[0] == t[0]);
    }
}

pub proof fn lemma_trim_start_first(s: Seq<char>)
    ensures
        trim_start(s).len() > 0 ==> !is_ws(trim_start(s)[0]),
    decreases s.len(),
{
    if s.len() > 0 && is_ws(s[0]) {
        lemma_trim_start_first(s.drop_first());
    }
}

pub proof fn lemma_trim_end_last(s: Seq<char>)
    ensures
        trim_end(s).len() > 0 ==> !is_ws(trim_end(s).last()),
    decreases s.len(),
{
    if s.len() > 0 && is_ws(s.last()) {
        lemma_trim_end_last(s.drop_last());
    }
}

/// The pieces of a split hold no separator and are within the sequence;
/// the last piece ends as the sequence does.
pub proof fn lemma_split_on_pieces(s: Seq<char>, sep: char)
    ensures
        split_on(s, sep).len() > 0,
        forall|i: int| 0 <= i < split_on(s, sep).len() ==> !(#[trigger] split_on(s, sep)[i]).contains(sep)
            && within(split_on(s, sep)[i], s),
        split_on(s, sep).last().len() > 0 ==> split_on(s, sep).last().last() == s.last(),
    decreases s.len(),
{
    let i = find_char(s, sep);
    lemma_find_char_bounds(s, sep);
    if i >= s.len() {
        assert(!s.contains(sep)) by {
            if s.contains(sep) {
                let j = choose|j: int| 0 <= j < s.len() && s[j] == sep;
            }
        }
        assert(s.subrange(0, s.len() as int) =~= s);
        lemma_subrange_within(s, 0, s.len() as int);
    } else {
        let rest = s.skip(i + 1);
        lemma_split_on_pieces(rest, sep);
        let f = split_on(s, sep);
        let fr = split_on(rest, sep);
        assert(f == seq![s.take(i)] + fr);
        assert(s.take(i) =~= s.subrange(0, i));
        assert(rest =~= s.subrange(i + 1, s.len() as int));
        lemma_subrange_within(s, 0, i);
        lemma_subrange_within(s, i + 1, s.len() as int);
        assert(!s.take(i).contains(sep)) by {
            if s.take(i).contains(sep) {
                let j = choose|j: int| 0 <= j < s.take(i).len() && s.take(i)[j] == sep;
                assert(s[j] == sep);
            }
        }
        assert forall|k: int| 0 <= k < f.len() implies !(#[trigger] f[k]).contains(sep) && within(f[k], s) by {
            if k > 0 {
                assert(f[k] == fr[k - 1]);
                lemma_within_trans(fr[k - 1], rest, s);
            }
        }
        assert(f.last() == fr.last());
        if fr.last().len() > 0 {
            assert(rest.len() > 0);
            assert(rest.last() == s.last());
        }
    }
}

/// The bounds of `v[lo..hi]` with its leading and trailing whitespace cut off.
pub fn trim_bounds(v: &Vec<char>, lo: usize, hi: usize) -> (r: (usize, usize))
    requires
        lo <= hi <= v@.len(),
    ensures
        lo <= r.0 <= r.1 <= hi,
        v@.subrange(r.0 as int, r.1 as int) == trim(v@.subrange(lo as int, hi as int)),
{
    let mut i = lo;
    while i < hi && is_whitespace_char(v[i])
        invariant
            lo <= i <= hi <= v@.len(),
            trim_start(v@.subrange(lo as int, hi as int)) == trim_start(
                v@.subrange(i as int, hi as int),
            ),
        decreases hi - i,
    {
        assert(v@.subrange(i as int, hi as int).drop_first() =~= v@.subrange(i + 1, hi as int));
        i = i + 1;
    }
    assert(trim_start(v@.subrange(i as int, hi as int)) == v@.subrange(i as int, hi as int));
    let mut j = hi;
    while j > i && is_whitespace_char(v[j - 1])
        invariant
            lo <= i <= j <= hi <= v@.len(),
            trim_end(v@.subrange(i as int, hi as int)) == trim_end(v@.subrange(i as int, j as int)),
        decreases j - i,
    {
        assert(v@.subrange(i as int, j as int).drop_last() =~= v@.subrange(i as int, j - 1));
        j = j - 1;
    }
    (i, j)
}

/// The index of the first `c` in `v[lo..hi]`, counted from `lo`, or `hi`.
pub fn find_char_in(v: &Vec<char>, lo: usize, hi: usize, c: char) -> (r: usize)
    requires
        lo <= hi <= v@.len(),
    ensures
        lo <= r <= hi,
        r - lo == find_char(v@.subrange(lo as int, hi as int), c),
        forall|j: int| lo <= j < r ==> v@[j] != c,
        r < hi ==> v@[r as int] == c,
{
    let mut k = lo;
    while k < hi && v[k] != c
        invariant
            lo <= k <= hi <= v@.len(),
            forall|j: int| lo <= j < k ==> v@[j] != c,
        decreases hi - k,
    {
        k = k + 1;
    }
    proof {
        let s = v@.subrange(lo as int, hi as int);
        lemma_find_char(s, c, k - lo);
    }
    k
}

/// The bounds of the pieces of `v[lo..hi]` between the occurrences of `sep`.
pub fn split_bounds(v: &Vec<char>, lo: usize, hi: usize, sep: char) -> (r: Vec<(usize, usize)>)
    requires
        lo <= hi <= v@.len(),
    ensures
        r@.len() == split_on(v@.subrange(lo as int, hi as int), sep).len(),
        forall|i: int|
            0 <= i < r@.len() ==> {
                &&& lo <= (#[trigger] r@[i]).0 <= r@[i].1 <= hi
                &&& v@.subrange(r@[i].0 as int, r@[i].1 as int) == split_on(
                    v@.subrange(lo as int, hi as int),
                    sep,
                )[i]
            },
{
    let mut out: Vec<(usize, usize)> = Vec::new();
    let mut start = lo;
    let ghost whole = v@.subrange(lo as int, hi as int);
    let ghost mut done: Seq<Seq<char>> = Seq::empty();
    loop
        invariant
            lo <= start <= hi <= v@.len(),
            whole == v@.subrange(lo as int, hi as int),
            out@.len() == done.len(),
            split_on(whole, sep) == done + split_on(v@.subrange(start as int, hi as int), sep),
            forall|i: int|
                0 <= i < out@.len() ==> {
                    &&& lo <= (#[trigger] out@[i]).0 <= out@[i].1 <= hi
                    &&& v@.subrange(out@[i].0 as int, out@[i].1 as int) == done[i]
                },
        decreases hi - start,
    {
        let k = find_char_in(v, start, hi, sep);
        let ghost rest = v@.subrange(start as int, hi as int);
        if k == hi {
            proof {
                assert(rest.take(rest.len() as int) =~= rest);
            }
            out.push((start, hi));
            proof {
                done = done.push(rest);
                assert(split_on(whole, sep) =~= done);
            }
            return out;
        }
        proof {
            assert(rest.take(k - start) =~= v@.subrange(start as int, k as int));
            assert(rest.skip(k - start + 1) =~= v@.subrange(k + 1, hi as int));
            assert(split_on(rest, sep) == seq![v@.subrange(start as int, k as int)] + split_on(
                v@.subrange(k + 1, hi as int),
                sep,
            ));
            done = done.push(v@.subrange(start as int, k as int));
            assert(split_on(whole, sep) =~= done + split_on(v@.subrange(k + 1, hi as int), sep));
        }
        out.push((start, k));
        start = k + 1;
    }
}

/// The index of the first `a b` in `v[lo..hi]`, counted from `lo`, or `hi`.
pub fn find_pair_in(v: &Vec<char>, lo: usize, hi: usize, a: char, b: char) -> (r: usize)
    requires
        lo <= hi <= v@.len(),
    ensures
        lo <= r <= hi,
        r - lo == find_pair(v@.subrange(lo as int, hi as int), a, b),
        r < hi ==> r + 1 < hi,
{
    let mut k = lo;
    while hi - k >= 2 && !(v[k] == a && v[k + 1] == b)
        invariant
            lo <= k <= hi <= v@.len(),
            forall|j: int| lo <= j < k && j + 1 < hi ==> !(#[trigger] v@[j] == a && v@[j + 1] == b),
        decreases hi - k,
    {
        k = k + 1;
    }
    let r = if hi - k >= 2 {
        k
    } else {
        hi
    };
    proof {
        let s = v@.subrange(lo as int, hi as int);
        assert forall|j: int| 0 <= j < r - lo && j + 1 < s.len() implies !(#[trigger] s[j] == a
            && s[j + 1] == b) by {
            assert(s[j] == v@[lo + j] && s[j + 1] == v@[lo + j + 1]);
        }
        lemma_find_pair(s, a, b, r - lo);
    }
    r
}

/// The bounds of the pieces of `v[lo..hi]` between the occurrences of `a b`.
pub fn split_pair_bounds(v: &Vec<char>, lo: usize, hi: usize, a: char, b: char) -> (r: Vec<
    (usize, usize),
>)
    requires
        lo <= hi <= v@.len(),
    ensures
        r@.len() == split_on_pair(v@.subrange(lo as int, hi as int), a, b).len(),
        forall|i: int|
            0 <= i < r@.len() ==> {
                &&& lo <= (#[trigger] r@[i]).0 <= r@[i].1 <= hi
                &&& v@.subrange(r@[i].0 as int, r@[i].1 as int) == split_on_pair(
                    v@.subrange(lo as int, hi as int),
                    a,
                    b,
                )[i]
            },
{
    let mut out: Vec<(usize, usize)> = Vec::new();
    let mut start = lo;
    let ghost whole = v@.subrange(lo as int, hi as int);
    let ghost mut done: Seq<Seq<char>> = Seq::empty();
    loop
        invariant
            lo <= start <= hi <= v@.len(),
            whole == v@.subrange(lo as int, hi as int),
            out@.len() == done.len(),
            split_on_pair(whole, a, b) == done + split_on_pair(
                v@.subrange(start as int, hi as int),
                a,
                b,
            ),
            forall|i: int|
                0 <= i < out@.len() ==> {
                    &&& lo <= (#[trigger] out@[i]).0 <= out@[i].1 <= hi
                    &&& v@.subrange(out@[i].0 as int, out@[i].1 as int) == done[i]
                },
        decreases hi - start,
    {
        let k = find_pair_in(v, start, hi, a, b);
        let ghost rest = v@.subrange(start as int, hi as int);
        if k == hi {
            out.push((start, hi));
            proof {
                done = done.push(rest);
                assert(split_on_pair(whole, a, b) =~= done);
            }
            return out;
        }
        proof {
            assert(rest.take(k - start) =~= v@.subrange(start as int, k as int));
            assert(rest.skip(k - start + 2) =~= v@.subrange(k + 2, hi as int));
            done = done.push(v@.subrange(start as int, k as int));
            assert(split_on_pair(whole, a, b) =~= done + split_on_pair(
                v@.subrange(k + 2, hi as int),
                a,
                b,
            ));
        }
        out.push((start, k));
        start = k + 2;
    }
}

/// `u64::from_str` on the characters `v[lo..hi]`.
pub fn parse_u64_in(v: &Vec<char>, lo: usize, hi: usize) -> (r: Option<u64>)
    requires
        lo <= hi <= v@.len(),
    ensures
        r == parse_u64_spec(v@.subrange(lo as int, hi as int)),
{
    let ghost s = v@.subrange(lo as int, hi as int);
    let mut i = lo;
    if i < hi && v[i] == '+' {
        i = i + 1;
    }
    let ghost d = v@.subrange(i as int, hi as int);
    assert(d =~= (if s.len() > 0 && s[0] == '+' {
        s.drop_first()
    } else {
        s
    }));
    assert(parse_u64_spec(s) == (if d.len() > 0 && all_digits(d) && digits_value(d) <= u64::MAX {
        Some(digits_value(d) as u64)
    } else {
        None::<u64>
    }));
    if i == hi {
        return None;
    }
    let start = i;
    let mut acc: u64 = 0;
    while i < hi
        invariant
            lo <= start <= i <= hi <= v@.len(),
            d == v@.subrange(start as int, hi as int),
            d.len() > 0,
            parse_u64_spec(v@.subrange(lo as int, hi as int)) == (if all_digits(d) && digits_value(d)
                <= u64::MAX {
                Some(digits_value(d) as u64)
            } else {
                None::<u64>
            }),
            forall|j: int| start <= j < i ==> is_digit(v@[j]),
            acc == digits_value(v@.subrange(start as int, i as int)),
        decreases hi - i,
    {
        let c = v[i];
        if !('0' <= c && c <= '9') {
            assert(!is_digit(d[i - start]));
            return None;
        }
        let dv = (c as u32 - '0' as u32) as u64;
        assert(v@.subrange(start as int, i + 1).drop_last() =~= v@.subrange(start as int, i as int));
        if acc > (u64::MAX - dv) / 10 {
            proof {
                lemma_digits_value_prefix(d, i + 1 - start);
                assert(d.take(i + 1 - start) =~= v@.subrange(start as int, i + 1));
                assert(digits_value(d) > u64::MAX) by (nonlinear_arith)
                    requires
                        acc > (u64::MAX - dv) / 10,
                        digits_value(d) >= acc * 10 + dv,
                        dv <= 9,
                ;
            }
            return None;
        }
        acc = acc * 10 + dv;
        i = i + 1;
    }
    assert(v@.subrange(start as int, hi as int) =~= d);
    Some(acc)
}

/// The error text of `u64::from_str` on the characters `v[lo..hi]`, as
/// `u64_error_text` states it.
pub fn u64_error_text_in(v: &Vec<char>, lo: usize, hi: usize) -> (r: String)
    requires
        lo <= hi <= v@.len(),
    ensures
        r@ == u64_error_text(v@.subrange(lo as int, hi as int)),
{
    let ghost s = v@.subrange(lo as int, hi as int);
    if lo == hi {
        return "cannot parse integer from empty string".to_owned();
    }
    let mut i = lo;
    if hi - lo > 1 && v[lo] == '+' {
        i = lo + 1;
    }
    assert(v@.subrange(i as int, hi as int) =~= (if s.len() > 1 && s[0] == '+' {
        s.drop_first()
    } else {
        s
    }));
    let ghost d = v@.subrange(i as int, hi as int);
    let mut acc: u64 = 0;
    while i < hi
        invariant
            lo <= i <= hi <= v@.len(),
            s == v@.subrange(lo as int, hi as int),
            overflows_first(d, 0) == overflows_first(v@.subrange(i as int, hi as int), acc as nat),
            u64_error_text(s) == (if overflows_first(d, 0) {
                "number too large to fit in target type"@
            } else {
                "invalid digit found in string"@
            }),
        decreases hi - i,
    {
        let c = v[i];
        let ghost rest = v@.subrange(i as int, hi as int);
        assert(rest[0] == c);
        assert(rest.drop_first() =~= v@.subrange(i + 1, hi as int));
        if !('0' <= c && c <= '9') {
            assert(!overflows_first(rest, acc as nat));
            return "invalid digit found in string".to_owned();
        }
        let dv = (c as u32 - '0' as u32) as u64;
        assert(digit_value(c) == dv);
        if acc > (u64::MAX - dv) / 10 {
            assert(acc * 10 + dv > u64::MAX) by (nonlinear_arith)
                requires
                    acc > (u64::MAX - dv) / 10,
                    dv <= 9,
            ;
            assert(overflows_first(rest, acc as nat));
            return "number too large to fit in target type".to_owned();
        }
        assert(acc * 10 + dv <= u64::MAX) by (nonlinear_arith)
            requires
                acc <= (u64::MAX - dv) / 10,
                dv <= 9,
        ;
        acc = acc * 10 + dv;
        i = i + 1;
    }
    "invalid digit found in string".to_owned()
}

/// The one-character string of the decimal digit `d`.
pub fn digit_str(d: u64) -> (r: &'static str)
    requires
        d < 10,
    ensures
        r@ == seq![digit_char(d as nat)],
{
    proof {
        reveal_strlit("0");
        reveal_strlit("1");
        reveal_strlit("2");
        reveal_strlit("3");
        reveal_strlit("4");
        reveal_strlit("5");
        reveal_strlit("6");
        reveal_strlit("7");
        reveal_strlit("8");
        reveal_strlit("9");
    }
    match d {
        0 => "0",
        1 => "1",
        2 => "2",
        3 => "3",
        4 => "4",
        5 => "5",
        6 => "6",
        7 => "7",
        8 => "8",
        _ => "9",
    }
}

/// Appends the decimal writing of `n` to `out`.
pub fn push_decimal(out: &mut String, n: u64)
    ensures
        final(out)@ == old(out)@ + decimal(n as nat),
    decreases n,
{
    if n >= 10 {
        push_decimal(out, n / 10);
    }
    out.append(digit_str(n % 10));
    assert(decimal(n as nat) == (if n < 10 {
        seq![digit_char(n as nat)]
    } else {
        decimal((n / 10) as nat).push(digit_char((n % 10) as nat))
    }));
}

/// The characters of `s`.
pub fn chars_of(s: &str) -> (v: Vec<char>)
    ensures
        v@ == s@,
{
    let mut v: Vec<char> = Vec::new();
    for c in it: s.chars()
        invariant
            v@ == it.seq().take(it.index() as int),
            it.seq() == s@,
    {
        v.push(c);
    }
    v
}

/// Whether the characters `v[lo..hi]` are those of `w`.
pub fn range_is(v: &Vec<char>, lo: usize, hi: usize, w: &str) -> (r: bool)
    requires
        lo <= hi <= v@.len(),
    ensures
        r == (v@.subrange(lo as int, hi as int) == w@),
{
    let n = w.unicode_len();
    if hi - lo != n {
        return false;
    }
    let mut i: usize = 0;
    while i < n
        invariant
            n == w@.len(),
            hi - lo == n,
            lo <= hi <= v@.len(),
            i <= n,
            forall|j: int| 0 <= j < i ==> v@[lo + j] == w@[j],
        decreases n - i,
    {
        if v[lo + i] != w.get_char(i) {
            assert(v@.subrange(lo as int, hi as int)[i as int] != w@[i as int]);
            return false;
        }
        i = i + 1;
    }
    assert(v@.subrange(lo as int, hi as int) =~= w@);
    true
}

} // verus!
