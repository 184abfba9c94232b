//! Character sequences: white space, trimming, splitting, searching and
//! decimal numerals.
//!
//! Text is modelled as `Seq<char>`. The executable functions work on slices
//! of characters, so that every position is a character index.

use vstd::prelude::*;

verus! {

/// Whether `c` has the Unicode property `White_Space`.
pub open spec fn is_space(c: char) -> bool {
    ||| '\u{9}' <= c <= '\u{D}'
    ||| c == ' '
    ||| c == '\u{85}'
    ||| c == '\u{A0}'
    ||| c == '\u{1680}'
    ||| '\u{2000}' <= c <= '\u{200A}'
    ||| c == '\u{2028}'
    ||| c == '\u{2029}'
    ||| c == '\u{202F}'
    ||| c == '\u{205F}'
    ||| c == '\u{3000}'
}

/// `s` without its leading white space.
pub open spec fn trim_start(s: Seq<char>) -> Seq<char>
    decreases s.len(),
{
    if s.len() > 0 && is_space(s.first()) {
        trim_start(s.drop_first())
    } else {
        s
    }
}

/// `s` without its trailing white space.
pub open spec fn trim_end(s: Seq<char>) -> Seq<char>
    decreases s.len(),
{
    if s.len() > 0 && is_space(s.last()) {
        trim_end(s.drop_last())
    } else {
        s
    }
}

/// `s` without leading and trailing white space.
pub open spec fn trim(s: Seq<char>) -> Seq<char> {
    trim_end(trim_start(s))
}

/// The pieces of `s` between occurrences of `sep`, in order. There is always
/// at least one piece; `k` separators give `k + 1` pieces, some of which may
/// be empty.
pub open spec fn split(s: Seq<char>, sep: char) -> Seq<Seq<char>>
    decreases s.len(),
{
    if s.len() == 0 {
        seq![Seq::<char>::empty()]
    } else {
        let before = split(s.drop_last(), sep);
        if s.last() == sep {
            before.push(Seq::<char>::empty())
        } else {
            before.drop_last().push(before.last().push(s.last()))
        }
    }
}

/// The pieces joined again, with `sep` between neighbours.
pub open spec fn join(pieces: Seq<Seq<char>>, sep: char) -> Seq<char>
    decreases pieces.len(),
{
    if pieces.len() == 0 {
        Seq::<char>::empty()
    } else if pieces.len() == 1 {
        pieces[0]
    } else {
        join(pieces.drop_last(), sep).push(sep) + pieces.last()
    }
}

/// Whether `pattern` occurs in `s` starting at index `i`.
pub open spec fn occurs_at(s: Seq<char>, pattern: Seq<char>, i: int) -> bool {
    &&& 0 <= i
    &&& i + pattern.len() <= s.len()
    &&& s.subrange(i, i + pattern.len()) == pattern
}

/// Whether `pattern` occurs somewhere in `s`.
pub open spec fn occurs_in(s: Seq<char>, pattern: Seq<char>) -> bool {
    exists|i: int| occurs_at(s, pattern, i)
}

/// `s` without `prefix` in front, or `s` itself where it does not start
/// with `prefix`.
pub open spec fn without_prefix(s: Seq<char>, prefix: Seq<char>) -> Seq<char> {
    if prefix.is_prefix_of(s) {
        s.skip(prefix.len() as int)
    } else {
        s
    }
}

/// The character of the decimal digit `d`.
pub open spec fn digit_char(d: nat) -> char
    recommends
        d < 10,
{
    ('0' as nat + d) as char
}

/// The decimal numeral of `n`, without leading zeros.
pub open spec fn decimal(n: nat) -> Seq<char>
    decreases n,
{
    if n < 10 {
        seq![digit_char(n)]
    } else {
        decimal(n / 10).push(digit_char(n % 10))
    }
}

/// The number that a sequence of decimal digits stands for.
pub open spec fn numeral_value(digits: Seq<char>) -> nat
    decreases digits.len(),
{
    if digits.len() == 0 {
        0
    } else {
        (10 * numeral_value(digits.drop_last()) + (digits.last() as int - '0' as int)) as nat
    }
}

/// Splitting always gives at least one piece.
pub proof fn lemma_split_nonempty(s: Seq<char>, sep: char)
    ensures
        split(s, sep).len() >= 1,
    decreases s.len(),
{
    if s.len() > 0 {
        lemma_split_nonempty(s.drop_last(), sep);
    }
}

/// Splitting loses nothing: no piece holds the separator, and joining the
/// pieces with the separator gives the text back.
pub proof fn lemma_split_join(s: Seq<char>, sep: char)
    ensures
        join(split(s, sep), sep) == s,
        forall|i: int| 0 <= i < split(s, sep).len() ==> !(#[trigger] split(s, sep)[i]).contains(sep),
    decreases s.len(),
{
    let pieces = split(s, sep);
    if s.len() == 0 {
        assert(pieces[0] =~= Seq::<char>::empty());
    } else {
        let before = split(s.drop_last(), sep);
        lemma_split_join(s.drop_last(), sep);
        lemma_split_nonempty(s.drop_last(), sep);
        assert(s.drop_last().push(s.last()) =~= s);
        if s.last() == sep {
            assert(pieces.drop_last() =~= before);
            assert(join(pieces, sep) =~= join(before, sep).push(sep));
        } else {
            let grown = before.last().push(s.last());
            assert(pieces.last() == grown);
            if before.len() == 1 {
                assert(join(pieces, sep) =~= join(before, sep).push(s.last()));
            } else {
                assert(pieces.drop_last() =~= before.drop_last());
                assert(join(pieces, sep) =~= join(before, sep).push(s.last()));
            }
            assert forall|i: int| 0 <= i < pieces.len() implies !(#[trigger] pieces[i]).contains(
                sep,
            ) by {
                if i < pieces.len() - 1 {
                    assert(pieces[i] == before[i]);
                } else {
                    assert(!before[before.len() - 1].contains(sep));
                }
            }
        }
    }
}

/// What trimming leaves is a stretch of the text that neither begins nor
/// ends with white space, and all that is cut off is white space.
pub proof fn lemma_trim(s: Seq<char>)
    ensures
        exists|a: int, b: int|
            #![trigger s.subrange(a, b)]
            {
                &&& 0 <= a <= b <= s.len()
                &&& trim(s) == s.subrange(a, b)
                &&& forall|j: int| 0 <= j < a ==> is_space(#[trigger] s[j])
                &&& forall|j: int| b <= j < s.len() ==> is_space(#[trigger] s[j])
            },
        trim(s).len() > 0 ==> !is_space(trim(s).first()) && !is_space(trim(s).last()),
{
    let a = leading_spaces(s);
    lemma_leading_spaces(s);
    lemma_trim_start_skip(s, a);
    let t = s.skip(a);
    assert(trim_start(t) == t);
    let back = trailing_spaces(t);
    lemma_trailing_spaces(t);
    let b = s.len() - back;
    lemma_trim_end_take(t, t.len() - back);
    let u = t.take(t.len() - back);
    assert(trim_end(u) == u);
    assert(u =~= s.subrange(a, b));
    assert forall|j: int| b <= j < s.len() implies is_space(#[trigger] s[j]) by {
        assert(t[j - a] == s[j]);
    }
    if u.len() > 0 {
        assert(u.first() == t[0]);
        assert(u.last() == t[t.len() - back - 1]);
    }
}

/// A numeral is made of decimal digits, begins with `0` only for the number
/// zero, and stands for its number.
pub proof fn lemma_decimal(n: nat)
    ensures
        decimal(n).len() >= 1,
        forall|i: int| 0 <= i < decimal(n).len() ==> '0' <= #[trigger] decimal(n)[i] <= '9',
        decimal(n)[0] == '0' <==> n == 0,
        numeral_value(decimal(n)) == n,
    decreases n,
{
    let d = decimal(n);
    assert(d.last() as int - '0' as int == n % 10);
    if n >= 10 {
        lemma_decimal(n / 10);
        assert(d.drop_last() =~= decimal(n / 10));
        assert(d[0] == decimal(n / 10)[0]);
        assert(numeral_value(d) == 10 * numeral_value(d.drop_last()) + n % 10);
    } else {
        assert(d.drop_last() =~= Seq::<char>::empty());
        assert(numeral_value(d.drop_last()) == 0);
        assert(numeral_value(d) == 10 * numeral_value(d.drop_last()) + n % 10);
    }
}

/// The number of white space characters at the beginning of `s`.
spec fn leading_spaces(s: Seq<char>) -> int
    decreases s.len(),
{
    if s.len() > 0 && is_space(s.first()) {
        1 + leading_spaces(s.drop_first())
    } else {
        0
    }
}

/// The number of white space characters at the end of `s`.
spec fn trailing_spaces(s: Seq<char>) -> int
    decreases s.len(),
{
    if s.len() > 0 && is_space(s.last()) {
        1 + trailing_spaces(s.drop_last())
    } else {
        0
    }
}

/// The leading white space ends before the first other character.
proof fn lemma_leading_spaces(s: Seq<char>)
    ensures
        0 <= leading_spaces(s) <= s.len(),
        forall|j: int| 0 <= j < leading_spaces(s) ==> is_space(#[trigger] s[j]),
        leading_spaces(s) < s.len() ==> !is_space(s[leading_spaces(s)]),
    decreases s.len(),
{
    if s.len() > 0 && is_space(s.first()) {
        lemma_leading_spaces(s.drop_first());
        assert forall|j: int| 0 <= j < leading_spaces(s) implies is_space(#[trigger] s[j]) by {
            if j > 0 {
                assert(s[j] == s.drop_first()[j - 1]);
            }
        }
        if leading_spaces(s) < s.len() {
            assert(s[leading_spaces(s)] == s.drop_first()[leading_spaces(s.drop_first())]);
        }
    }
}

/// The trailing white space begins after the last other character.
proof fn lemma_trailing_spaces(s: Seq<char>)
    ensures
        0 <= trailing_spaces(s) <= s.len(),
        forall|j: int| s.len() - trailing_spaces(s) <= j < s.len() ==> is_space(#[trigger] s[j]),
        trailing_spaces(s) < s.len() ==> !is_space(s[s.len() - trailing_spaces(s) - 1]),
    decreases s.len(),
{
    if s.len() > 0 && is_space(s.last()) {
        lemma_trailing_spaces(s.drop_last());
        assert forall|j: int| s.len() - trailing_spaces(s) <= j < s.len() implies is_space(
            #[trigger] s[j],
        ) by {
            if j < s.len() - 1 {
                assert(s[j] == s.drop_last()[j]);
            }
        }
        if trailing_spaces(s) < s.len() {
            let d = s.drop_last();
            assert(s[s.len() - trailing_spaces(s) - 1] == d[d.len() - trailing_spaces(d) - 1]);
        }
    }
}

/// The front of `s` that `trim_start` removes may be removed in steps.
proof fn lemma_trim_start_skip(s: Seq<char>, i: int)
    requires
        0 <= i <= s.len(),
        forall|j: int| 0 <= j < i ==> is_space(#[trigger] s[j]),
    ensures
        trim_start(s) == trim_start(s.skip(i)),
    decreases i,
{
    if i == 0 {
        assert(s.skip(0) =~= s);
    } else {
        lemma_trim_start_skip(s, i - 1);
        let t = s.skip(i - 1);
        assert(is_space(s[i - 1]));
        assert(t.first() == s[i - 1]);
        assert(t.drop_first() =~= s.skip(i));
    }
}

/// The back of `s` that `trim_end` removes may be removed in steps.
proof fn lemma_trim_end_take(s: Seq<char>, i: int)
    requires
        0 <= i <= s.len(),
        forall|j: int| i <= j < s.len() ==> is_space(#[trigger] s[j]),
    ensures
        trim_end(s) == trim_end(s.take(i)),
    decreases s.len() - i,
{
    if i == s.len() {
        assert(s.take(i) =~= s);
    } else {
        lemma_trim_end_take(s, i + 1);
        let t = s.take(i + 1);
        assert(is_space(s[i]));
        assert(t.last() == s[i]);
        assert(t.drop_last() =~= s.take(i));
    }
}

/// Whether `c` is white space.
pub fn is_whitespace(c: char) -> (r: bool)
    ensures
        r == is_space(c),
{
    ('\u{9}' <= c && c <= '\u{D}') || c == ' ' || c == '\u{85}' || c == '\u{A0}' || c
        == '\u{1680}' || ('\u{2000}' <= c && c <= '\u{200A}') || c == '\u{2028}' || c
        == '\u{2029}' || c == '\u{202F}' || c == '\u{205F}' || c == '\u{3000}'
}

/// The characters of `s`, in order.
pub fn chars_of(s: &str) -> (v: Vec<char>)
    ensures
        v@ == s@,
{
    let mut v: Vec<char> = Vec::new();
    for c in it: s.chars()
        invariant
            it.seq() == s@,
            v@ == it.seq().take(it.index() as int),
    {
        v.push(c);
    }
    v
}

/// Builds a `String` with `String::from_iter`, which collects the items of
/// an iterator over characters: the string holds exactly the characters of
/// `chars`, in order.
#[verifier::external_body]
pub(crate) fn string_of(chars: &[char]) -> (s: String)
    ensures
        s@ == chars@,
{
    String::from_iter(chars)
}

/// The part of `s` that is left when white space is trimmed from both ends.
pub fn trimmed(s: &[char]) -> (r: &[char])
    ensures
        r@ == trim(s@),
{
    let n: usize = s.len();
    let mut a: usize = 0;
    while a < n && is_whitespace(s[a])
        invariant
            a <= n,
            n == s@.len(),
            forall|j: int| 0 <= j < a ==> is_space(#[trigger] s@[j]),
        decreases n - a,
    {
        a += 1;
    }
    let mut b: usize = n;
    while b > a && is_whitespace(s[b - 1])
        invariant
            a <= b <= n,
            n == s@.len(),
            forall|j: int| b <= j < n ==> is_space(#[trigger] s@[j]),
        decreases b,
    {
        b -= 1;
    }
    proof {
        lemma_trim_start_skip(s@, a as int);
        let t = s@.skip(a as int);
        assert(trim_start(t) == t);
        lemma_trim_end_take(t, b - a);
        let u = t.take(b - a);
        assert(u =~= s@.subrange(a as int, b as int));
        assert(trim_end(u) == u);
    }
    vstd::slice::slice_subrange(s, a, b)
}

/// The index of the first `c` in `s`.
pub fn find_first(s: &[char], c: char) -> (r: Option<usize>)
    ensures
        match r {
            Some(i) => s@.index_of_first(c) == Some(i as int),
            None => s@.index_of_first(c) is None,
        },
{
    let n: usize = s.len();
    let mut i: usize = 0;
    while i < n
        invariant
            i <= n,
            n == s@.len(),
            forall|j: int| 0 <= j < i ==> s@[j] != c,
        decreases n - i,
    {
        if s[i] == c {
            proof {
                s@.index_of_first_ensures(c);
            }
            return Some(i);
        }
        i += 1;
    }
    proof {
        s@.index_of_first_ensures(c);
    }
    None
}

/// The index of the last `c` in `s`.
pub fn find_last(s: &[char], c: char) -> (r: Option<usize>)
    ensures
        match r {
            Some(i) => s@.index_of_last(c) == Some(i as int),
            None => s@.index_of_last(c) is None,
        },
{
    let n: usize = s.len();
    let mut i: usize = n;
    while i > 0
        invariant
            i <= n,
            n == s@.len(),
            forall|j: int| i <= j < n ==> s@[j] != c,
        decreases i,
    {
        if s[i - 1] == c {
            proof {
                s@.index_of_last_ensures(c);
            }
            return Some(i - 1);
        }
        i -= 1;
    }
    proof {
        s@.index_of_last_ensures(c);
    }
    None
}

/// Whether `s` begins with `prefix`.
pub fn starts_with(s: &[char], prefix: &str) -> (r: bool)
    ensures
        r == prefix@.is_prefix_of(s@),
{
    let n: usize = s.len();
    let mut i: usize = 0;
    for c in it: prefix.chars()
        invariant
            it.seq() == prefix@,
            i == it.index(),
            i <= n,
            n == s@.len(),
            s@.take(i as int) == prefix@.take(i as int),
    {
        if i >= n {
            return false;
        }
        if s[i] != c {
            assert(s@[i as int] != prefix@[i as int]);
            return false;
        }
        assert(s@.take(i + 1) =~= s@.take(i as int).push(s@[i as int]));
        assert(prefix@.take(i + 1) =~= prefix@.take(i as int).push(prefix@[i as int]));
        i += 1;
    }
    assert(prefix@.take(i as int) =~= prefix@);
    assert(s@.take(i as int) =~= s@.subrange(0, i as int));
    true
}

/// `s` without `prefix` in front, where it starts with `prefix`; otherwise
/// `s` itself.
pub fn strip_prefix<'a>(s: &'a [char], prefix: &str) -> (r: &'a [char])
    ensures
        r@ == without_prefix(s@, prefix@),
{
    if starts_with(s, prefix) {
        let k: usize = prefix.unicode_len();
        assert(s@.skip(k as int) =~= s@.subrange(k as int, s@.len() as int));
        vstd::slice::slice_subrange(s, k, s.len())
    } else {
        s
    }
}

/// Whether `pattern` occurs in `s` at index `at`.
pub fn matches_at(s: &[char], pattern: &[char], at: usize) -> (r: bool)
    ensures
        r == occurs_at(s@, pattern@, at as int),
{
    let n: usize = s.len();
    let m: usize = pattern.len();
    if at > n || m > n - at {
        return false;
    }
    let mut k: usize = 0;
    while k < m
        invariant
            k <= m,
            m == pattern@.len(),
            n == s@.len(),
            at + m <= n,
            forall|j: int| 0 <= j < k ==> s@[at + j] == pattern@[j],
        decreases m - k,
    {
        if s[at + k] != pattern[k] {
            assert(s@.subrange(at as int, at + m)[k as int] == s@[at + k]);
            return false;
        }
        k += 1;
    }
    assert(s@.subrange(at as int, at + m) =~= pattern@);
    true
}

/// Whether `pattern` occurs somewhere in `s`.
pub fn contains(s: &[char], pattern: &[char]) -> (r: bool)
    ensures
        r == occurs_in(s@, pattern@),
{
    let n: usize = s.len();
    let m: usize = pattern.len();
    if m > n {
        return false;
    }
    let last: usize = n - m;
    let mut i: usize = 0;
    while i < last
        invariant
            i <= last,
            last == n - m,
            n == s@.len(),
            m == pattern@.len(),
            forall|j: int| 0 <= j < i ==> !occurs_at(s@, pattern@, j),
        decreases last - i,
    {
        if matches_at(s, pattern, i) {
            return true;
        }
        i += 1;
    }
    matches_at(s, pattern, last)
}

/// Adds the characters of `more` at the end of `chars`.
pub fn append_chars(chars: &mut Vec<char>, more: &[char])
    ensures
        final(chars)@ == old(chars)@ + more@,
{
    let n: usize = more.len();
    let mut i: usize = 0;
    while i < n
        invariant
            i <= n,
            n == more@.len(),
            chars@ == old(chars)@ + more@.take(i as int),
        decreases n - i,
    {
        chars.push(more[i]);
        assert(more@.take(i + 1) =~= more@.take(i as int).push(more@[i as int]));
        i += 1;
    }
    assert(more@.take(n as int) =~= more@);
}

/// The decimal numeral of `n`.
pub fn decimal_digits(n: u64) -> (v: Vec<char>)
    ensures
        v@ == decimal(n as nat),
    decreases n,
{
    let d: u8 = (n % 10) as u8;
    let c: char = (48u8 + d) as char;
    assert(c == digit_char((n % 10) as nat));
    if n < 10 {
        let mut v: Vec<char> = Vec::new();
        v.push(c);
        assert(v@ =~= seq![c]);
        v
    } else {
        let mut v: Vec<char> = decimal_digits(n / 10);
        v.push(c);
        v
    }
}

} // verus!
