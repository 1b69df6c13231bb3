//! Operations on text held as a slice of characters, each with its meaning as
//! a function on `Seq<char>`.
use crate::views::views;
use vstd::prelude::*;
use vstd::slice::slice_subrange;

verus! {

/// Whether `c` has the Unicode property White_Space.
pub open spec fn is_space(c: char) -> bool {
    let n = c as u32;
    ||| 0x09 <= n <= 0x0D
    ||| n == 0x20
    ||| n == 0x85
    ||| n == 0xA0
    ||| n == 0x1680
    ||| 0x2000 <= n <= 0x200A
    ||| n == 0x2028
    ||| n == 0x2029
    ||| n == 0x202F
    ||| n == 0x205F
    ||| n == 0x3000
}

/// `s` without its leading white space.
pub open spec fn trimmed_start(s: Seq<char>) -> Seq<char>
    decreases s.len(),
{
    if s.len() > 0 && is_space(s[0]) {
        trimmed_start(s.drop_first())
    } else {
        s
    }
}

/// `s` without its trailing white space.
pub open spec fn trimmed_end(s: Seq<char>) -> Seq<char>
    decreases s.len(),
{
    if s.len() > 0 && is_space(s.last()) {
        trimmed_end(s.drop_last())
    } else {
        s
    }
}

/// `s` without its leading and trailing white space.
pub open spec fn trimmed(s: Seq<char>) -> Seq<char> {
    trimmed_end(trimmed_start(s))
}

/// Tells whether a character is white space.
pub fn is_whitespace(c: char) -> (b: bool)
    ensures
        b == is_space(c),
{
    let n: u32 = c as u32;
    (0x09 <= n && n <= 0x0D) || n == 0x20 || n == 0x85 || n == 0xA0 || n == 0x1680 || (0x2000 <= n
        && n <= 0x200A) || n == 0x2028 || n == 0x2029 || n == 0x202F || n == 0x205F || n == 0x3000
}

/// The characters of a string.
pub fn chars_of(s: &str) -> (v: Vec<char>)
    ensures
        v@ == s@,
{
    let mut v: Vec<char> = Vec::new();
    for c in it: s.chars()
        invariant
            it.seq() == s@,
            v@ == s@.take(it.index() as int),
    {
        v.push(c);
    }
    v
}

/// Removes leading and trailing white space.
pub fn trim<'a>(s: &'a [char]) -> (r: &'a [char])
    ensures
        r@ == trimmed(s@),
{
    let n: usize = s.len();
    let mut a: usize = 0;
    assert(s@.skip(0) =~= s@);
    while a < n && is_whitespace(s[a])
        invariant
            a <= n == s@.len(),
            trimmed_start(s@) == trimmed_start(s@.skip(a as int)),
        decreases n - a,
    {
        assert(s@.skip(a as int).drop_first() =~= s@.skip(a + 1));
        a += 1;
    }
    let mut b: usize = n;
    assert(s@.skip(a as int) =~= s@.subrange(a as int, b as int));
    while b > a && is_whitespace(s[b - 1])
        invariant
            a <= b <= n == s@.len(),
            trimmed(s@) == trimmed_end(s@.subrange(a as int, b as int)),
        decreases b - a,
    {
        assert(s@.subrange(a as int, b as int).drop_last() =~= s@.subrange(a as int, b - 1));
        b -= 1;
    }
    slice_subrange(s, a, b)
}

/// Taken on trust from the standard library: `String::push` appends the
/// character `c` to the end of the string and changes nothing else of it.
pub assume_specification[ String::push ](s: &mut String, c: char)
    ensures
        final(s)@ == old(s)@.push(c),
;

/// The string made of the given characters.
pub fn string_of(s: &[char]) -> (r: String)
    ensures
        r@ == s@,
{
    let mut r = String::new();
    let mut i: usize = 0;
    while i < s.len()
        invariant
            i <= s@.len(),
            r@ == s@.take(i as int),
        decreases s@.len() - i,
    {
        r.push(s[i]);
        assert(s@.take(i + 1) =~= s@.take(i as int).push(s@[i as int]));
        i += 1;
    }
    assert(s@.take(i as int) =~= s@);
    r
}

/// Tells whether `s` begins with `prefix`.
pub fn starts_with(s: &[char], prefix: &str) -> (b: bool)
    ensures
        b == prefix@.is_prefix_of(s@),
{
    let mut i: usize = 0;
    for c in it: prefix.chars()
        invariant
            it.seq() == prefix@,
            i == it.index(),
            i <= s@.len(),
            s@.take(i as int) == prefix@.take(i as int),
    {
        if i >= s.len() || s[i] != c {
            assert(!prefix@.is_prefix_of(s@)) by {
                if prefix@.is_prefix_of(s@) {
                    assert(s@.subrange(0, prefix@.len() as int)[i as int] == prefix@[i as int]);
                }
            }
            return false;
        }
        assert(s@.take(i + 1) =~= s@.take(i as int).push(s@[i as int]));
        assert(prefix@.take(i + 1) =~= prefix@.take(i as int).push(prefix@[i as int]));
        i += 1;
    }
    assert(prefix@.take(i as int) =~= prefix@);
    true
}

/// `s` without `prefix` in front, where it begins with `prefix`; else `s`.
pub open spec fn without_prefix(s: Seq<char>, prefix: Seq<char>) -> Seq<char> {
    if prefix.is_prefix_of(s) {
        s.skip(prefix.len() as int)
    } else {
        s
    }
}

/// Removes `prefix` from the front of `s`, if it stands there.
pub fn strip_prefix<'a>(s: &'a [char], prefix: &str) -> (r: &'a [char])
    ensures
        r@ == without_prefix(s@, prefix@),
{
    if starts_with(s, prefix) {
        let k: usize = prefix.unicode_len();
        slice_subrange(s, k, s.len())
    } else {
        s
    }
}

/// `s` without any occurrence of the character `c`.
pub open spec fn without_char(s: Seq<char>, c: char) -> Seq<char>
    decreases s.len(),
{
    if s.len() == 0 {
        s
    } else if s.last() == c {
        without_char(s.drop_last(), c)
    } else {
        without_char(s.drop_last(), c).push(s.last())
    }
}

/// Removes every occurrence of the character `c`.
pub fn remove_char(s: &[char], c: char) -> (r: Vec<char>)
    ensures
        r@ == without_char(s@, c),
{
    let mut r: Vec<char> = Vec::new();
    let mut i: usize = 0;
    while i < s.len()
        invariant
            i <= s@.len(),
            r@ == without_char(s@.take(i as int), c),
        decreases s@.len() - i,
    {
        assert(s@.take(i + 1).drop_last() =~= s@.take(i as int));
        if s[i] != c {
            r.push(s[i]);
        }
        i += 1;
    }
    assert(s@.take(i as int) =~= s@);
    r
}

/// Whether `sep` stands in `s` at position `i`.
pub open spec fn occurs_at(s: Seq<char>, sep: Seq<char>, i: int) -> bool {
    0 <= i && i + sep.len() <= s.len() && s.subrange(i, i + sep.len()) == sep
}

/// Whether `i` is the first position at which `sep` stands in `s`.
pub open spec fn first_at(s: Seq<char>, sep: Seq<char>, i: int) -> bool {
    occurs_at(s, sep, i) && forall|j: int| 0 <= j < i ==> !occurs_at(s, sep, j)
}

/// The first position at which `sep` stands in `s`, if there is one.
pub open spec fn find(s: Seq<char>, sep: Seq<char>) -> Option<int> {
    if exists|i: int| first_at(s, sep, i) {
        Some(choose|i: int| first_at(s, sep, i))
    } else {
        None
    }
}

/// The parts of `s` between the occurrences of a non-empty `sep`, found from
/// left to right without overlap. With no occurrence, `s` is the one part.
pub open spec fn pieces(s: Seq<char>, sep: Seq<char>) -> Seq<Seq<char>>
    decreases s.len(),
{
    if sep.len() == 0 {
        seq![s]
    } else {
        match find(s, sep) {
            Some(i) => seq![s.take(i)] + pieces(s.skip(i + sep.len()), sep),
            None => seq![s],
        }
    }
}

/// The position at which `sep` first stands is the one that `find` gives.
pub proof fn lemma_find_some(s: Seq<char>, sep: Seq<char>, i: int)
    requires
        first_at(s, sep, i),
    ensures
        find(s, sep) == Some(i),
{
    let j = choose|j: int| first_at(s, sep, j);
    assert(first_at(s, sep, j));
    if j < i {
        assert(!occurs_at(s, sep, j));
    }
    if i < j {
        assert(!occurs_at(s, sep, i));
    }
}

/// Where `sep` stands nowhere in `s`, `find` gives nothing and `s` is one piece.
pub proof fn lemma_find_none(s: Seq<char>, sep: Seq<char>)
    requires
        forall|j: int| !occurs_at(s, sep, j),
    ensures
        find(s, sep) is None,
        pieces(s, sep) == seq![s],
{
}

/// Splitting gives at least one piece.
pub proof fn lemma_pieces_nonempty(s: Seq<char>, sep: Seq<char>)
    ensures
        pieces(s, sep).len() >= 1,
{
}

fn matches_at(s: &[char], p: usize, pat: &Vec<char>) -> (b: bool)
    requires
        p + pat@.len() <= s@.len(),
    ensures
        b == occurs_at(s@, pat@, p as int),
{
    let k: usize = pat.len();
    let n: usize = s.len();
    let mut j: usize = 0;
    while j < k
        invariant
            j <= k == pat@.len(),
            p + k <= n == s@.len(),
            forall|m: int| 0 <= m < j ==> s@[p + m] == pat@[m],
        decreases k - j,
    {
        if s[p + j] != pat[j] {
            assert(s@.subrange(p as int, p + k)[j as int] != pat@[j as int]);
            return false;
        }
        j += 1;
    }
    assert(s@.subrange(p as int, p + k) =~= pat@);
    true
}

/// Splits `s` at each occurrence of `sep`, from left to right. With an empty
/// `sep`, or one that does not occur, the result is `s` alone.
pub fn split<'a>(s: &'a [char], sep: &str) -> (r: Vec<&'a [char]>)
    ensures
        views(r@) == pieces(s@, sep@),
{
    let pat = chars_of(sep);
    let k: usize = pat.len();
    let n: usize = s.len();
    let mut out: Vec<&'a [char]> = Vec::new();
    if k == 0 || k > n {
        proof {
            if k > n {
                lemma_find_none(s@, sep@);
            }
            assert(views(seq![s]) =~= seq![s@]);
        }
        out.push(s);
        return out;
    }
    let mut start: usize = 0;
    let mut p: usize = 0;
    proof {
        assert(s@.skip(0) =~= s@);
        assert(views(out@) + pieces(s@, sep@) =~= pieces(s@, sep@));
    }
    while p <= n - k
        invariant
            start <= p <= n == s@.len(),
            0 < k <= n,
            k == sep@.len(),
            pat@ == sep@,
            views(out@) + pieces(s@.skip(start as int), sep@) == pieces(s@, sep@),
            forall|j: int| 0 <= j < p - start ==> !occurs_at(s@.skip(start as int), sep@, j),
        decreases n - p,
    {
        let ghost rest = s@.skip(start as int);
        assert(rest.subrange(p - start, p - start + k) =~= s@.subrange(p as int, p + k));
        if matches_at(s, p, &pat) {
            let piece = slice_subrange(s, start, p);
            proof {
                lemma_find_some(rest, sep@, p - start);
                assert(rest.take(p - start) =~= piece@);
                assert(rest.skip(p - start + k) =~= s@.skip(p + k));
                assert(views(out@.push(piece)) =~= views(out@).push(piece@));
                assert(views(out@).push(piece@) + pieces(s@.skip(p + k), sep@) =~= views(out@) + (
                seq![piece@] + pieces(s@.skip(p + k), sep@)));
            }
            out.push(piece);
            start = p + k;
            p = start;
        } else {
            p += 1;
        }
    }
    let last = slice_subrange(s, start, n);
    proof {
        let rest = s@.skip(start as int);
        assert(rest =~= last@);
        lemma_find_none(rest, sep@);
        assert(views(out@.push(last)) =~= views(out@).push(last@));
        assert(views(out@).push(last@) =~= views(out@) + seq![last@]);
    }
    out.push(last);
    out
}

/// Whether `c` is one of the decimal digits `0` to `9`.
pub open spec fn is_digit(c: char) -> bool {
    0x30 <= c as u32 <= 0x39
}

/// Whether `s` holds decimal digits only.
pub open spec fn all_digits(s: Seq<char>) -> bool {
    forall|i: int| 0 <= i < s.len() ==> is_digit(#[trigger] s[i])
}

/// The number that a string of decimal digits denotes.
pub open spec fn decimal(s: Seq<char>) -> int
    decreases s.len(),
{
    if s.len() == 0 {
        0
    } else {
        10 * decimal(s.drop_last()) + (s.last() as u32 - 0x30)
    }
}

/// Whether `s` begins with a plus or minus sign.
pub open spec fn has_sign(s: Seq<char>) -> bool {
    s.len() > 0 && (s[0] == '+' || s[0] == '-')
}

/// The integer that `s` denotes in decimal notation: an optional sign, then
/// one or more digits and nothing else.
pub open spec fn integer(s: Seq<char>) -> Option<int> {
    let digits = if has_sign(s) {
        s.drop_first()
    } else {
        s
    };
    if digits.len() > 0 && all_digits(digits) {
        Some(
            if has_sign(s) && s[0] == '-' {
                -decimal(digits)
            } else {
                decimal(digits)
            },
        )
    } else {
        None
    }
}

/// The integer that `s` denotes, where it fits the type `isize`.
pub open spec fn integer_isize(s: Seq<char>) -> Option<isize> {
    match integer(s) {
        Some(n) => if isize::MIN <= n <= isize::MAX {
            Some(n as isize)
        } else {
            None
        },
        None => None,
    }
}

/// A string of digits denotes no less than any of its prefixes, and none
/// denotes a negative number.
pub proof fn lemma_decimal_prefix(s: Seq<char>, k: int)
    requires
        all_digits(s),
        0 <= k <= s.len(),
    ensures
        0 <= decimal(s.take(k)) <= decimal(s),
    decreases s.len(),
{
    if s.len() == 0 {
        assert(s.take(k) =~= s);
    } else if k == s.len() {
        assert(s.take(k) =~= s);
        assert(all_digits(s.drop_last()));
        lemma_decimal_prefix(s.drop_last(), k - 1);
        assert(is_digit(s[s.len() - 1]));
    } else {
        assert(all_digits(s.drop_last()));
        assert(s.drop_last().take(k) =~= s.take(k));
        lemma_decimal_prefix(s.drop_last(), k);
        assert(s.drop_last().take(s.len() - 1) =~= s.drop_last());
        lemma_decimal_prefix(s.drop_last(), s.len() - 1);
        assert(is_digit(s[s.len() - 1]));
    }
}

/// Reads a decimal integer: an optional sign, then digits. Gives nothing
/// where `s` is not of that form or the number does not fit.
pub fn parse_isize(s: &[char]) -> (r: Option<isize>)
    ensures
        r == integer_isize(s@),
{
    let n: usize = s.len();
    if n == 0 {
        return None;
    }
    let negative: bool = s[0] == '-';
    let first: usize = if s[0] == '-' || s[0] == '+' {
        1
    } else {
        0
    };
    if first == n {
        return None;
    }
    let limit: i128 = if negative {
        -(isize::MIN as i128)
    } else {
        isize::MAX as i128
    };
    let ghost digits = s@.skip(first as int);
    assert(digits == if has_sign(s@) {
        s@.drop_first()
    } else {
        s@
    }) by {
        assert(s@.skip(0) =~= s@);
    }
    let mut acc: i128 = 0;
    let mut i: usize = first;
    while i < n
        invariant
            first <= i <= n == s@.len(),
            first < n,
            digits == s@.skip(first as int),
            digits == if has_sign(s@) {
                s@.drop_first()
            } else {
                s@
            },
            negative == (s@[0] == '-'),
            limit == if negative {
                -isize::MIN
            } else {
                isize::MAX as int
            },
            all_digits(digits.take(i - first)),
            acc == decimal(digits.take(i - first)),
            0 <= acc <= limit <= 0x8000_0000_0000_0000,
        decreases n - i,
    {
        let c: u32 = s[i] as u32;
        if c < 0x30 || c > 0x39 {
            assert(!is_digit(digits[i - first]));
            return None;
        }
        let d: i128 = (c - 0x30) as i128;
        assert(digits.take(i - first + 1).drop_last() =~= digits.take(i - first));
        acc = acc * 10 + d;
        if acc > limit {
            proof {
                if all_digits(digits) {
                    lemma_decimal_prefix(digits, i - first + 1);
                }
            }
            return None;
        }
        i += 1;
    }
    assert(digits.take(i - first) =~= digits);
    let v: i128 = if negative {
        -acc
    } else {
        acc
    };
    Some(v as isize)
}

/// Trimming at the front leaves an end piece of `s` that does not begin with
/// white space.
pub proof fn lemma_trimmed_start(s: Seq<char>) -> (k: int)
    ensures
        0 <= k <= s.len(),
        trimmed_start(s) == s.skip(k),
        k < s.len() ==> !is_space(s[k]),
    decreases s.len(),
{
    if s.len() > 0 && is_space(s[0]) {
        let k = lemma_trimmed_start(s.drop_first());
        assert(s.drop_first().skip(k) =~= s.skip(k + 1));
        k + 1
    } else {
        assert(s.skip(0) =~= s);
        0
    }
}

/// Trimming at the back leaves a front piece of `s` that does not end with
/// white space.
pub proof fn lemma_trimmed_end(s: Seq<char>) -> (k: int)
    ensures
        0 <= k <= s.len(),
        trimmed_end(s) == s.take(k),
        k > 0 ==> !is_space(s[k - 1]),
    decreases s.len(),
{
    if s.len() > 0 && is_space(s.last()) {
        let k = lemma_trimmed_end(s.drop_last());
        assert(s.drop_last().take(k) =~= s.take(k));
        k
    } else {
        assert(s.take(s.len() as int) =~= s);
        s.len() as int
    }
}

/// Trimming leaves a piece of `s` that neither begins nor ends with white
/// space.
pub proof fn lemma_trimmed(s: Seq<char>) -> (r: (int, int))
    ensures
        0 <= r.0 <= r.1 <= s.len(),
        trimmed(s) == s.subrange(r.0, r.1),
        r.0 < r.1 ==> !is_space(s[r.0]) && !is_space(s[r.1 - 1]),
{
    let a = lemma_trimmed_start(s);
    let k = lemma_trimmed_end(s.skip(a));
    assert(s.skip(a).take(k) =~= s.subrange(a, a + k));
    (a, a + k)
}

/// Trimming what is trimmed changes nothing.
pub proof fn lemma_trimmed_twice(s: Seq<char>)
    ensures
        trimmed(trimmed(s)) == trimmed(s),
{
    let (a, b) = lemma_trimmed(s);
    let t = trimmed(s);
    if t.len() > 0 {
        assert(t[0] == s[a]);
        assert(t.last() == s[b - 1]);
    }
}

/// Nothing of the removed character is left.
pub proof fn lemma_without_char(s: Seq<char>, c: char)
    ensures
        forall|i: int|
            0 <= i < without_char(s, c).len() ==> #[trigger] without_char(s, c)[i] != c,
    decreases s.len(),
{
    if s.len() > 0 {
        lemma_without_char(s.drop_last(), c);
        let front = without_char(s.drop_last(), c);
        assert forall|i: int| 0 <= i < without_char(s, c).len() implies #[trigger] without_char(
            s,
            c,
        )[i] != c by {
            if i < front.len() {
                assert(without_char(s, c)[i] == front[i]);
            }
        }
    }
}

} // verus!
