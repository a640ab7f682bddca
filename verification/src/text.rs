//! Character-level helpers shared by the textual identifiers and parsers.

use vstd::prelude::*;
use vstd::std_specs::iter::IteratorSpec;

verus! {

/// Collects the characters of a string slice.
pub fn chars_of(s: &str) -> (v: Vec<char>)
    ensures
        v@ == s@,
{
    broadcast use vstd::string::axiom_spec_iter, vstd::string::next_postcondition;

    let mut v: Vec<char> = Vec::new();
    let mut it = s.chars();
    loop
        invariant
            s@ == v@ + it.remaining(),
            it.decrease() is Some,
        ensures
            v@ == s@,
        decreases it.decrease()->0,
    {
        let ghost before = it.remaining();
        match it.next() {
            Some(c) => {
                v.push(c);
                assert(s@ == v@ + it.remaining()) by {
                    assert(before == seq![c] + before.drop_first());
                }
            },
            None => {
                assert(v@ == s@);
                break ;
            },
        }
    }
    v
}


/// Appends one character to a string.
#[verifier::external_body]
pub fn push_char(s: &mut String, c: char)
    ensures
        final(s)@ == old(s)@.push(c),
{
    s.push(c);
}

/// Builds a string from its characters.
pub fn string_from_chars(v: &[char]) -> (s: String)
    ensures
        s@ == v@,
{
    let mut s = String::new();
    let mut i: usize = 0;
    while i < v.len()
        invariant
            i <= v@.len(),
            s@ == v@.take(i as int),
        decreases v@.len() - i,
    {
        push_char(&mut s, v[i]);
        assert(v@.take(i + 1) == v@.take(i as int).push(v@[i as int]));
        i = i + 1;
    }
    assert(v@.take(i as int) == v@);
    s
}

/// True for an ASCII decimal digit.
pub open spec fn is_digit(c: char) -> bool {
    '0' <= c <= '9'
}

/// True for an ASCII lowercase letter.
pub open spec fn is_lower(c: char) -> bool {
    'a' <= c <= 'z'
}

/// True for an ASCII uppercase letter.
pub open spec fn is_upper(c: char) -> bool {
    'A' <= c <= 'Z'
}

/// True for an ASCII letter or digit.
pub open spec fn is_alphanumeric(c: char) -> bool {
    is_digit(c) || is_lower(c) || is_upper(c)
}

/// Numeric value of an ASCII digit.
pub open spec fn digit_value(c: char) -> nat {
    (c as int - '0' as int) as nat
}

/// The Unicode `White_Space` characters, as `char::is_whitespace` documents them.
pub open spec fn is_whitespace(c: char) -> bool {
    ||| '\u{9}' <= c <= '\u{d}'
    ||| c == ' '
    ||| c == '\u{85}'
    ||| c == '\u{a0}'
    ||| c == '\u{1680}'
    ||| '\u{2000}' <= c <= '\u{200a}'
    ||| c == '\u{2028}'
    ||| c == '\u{2029}'
    ||| c == '\u{202f}'
    ||| c == '\u{205f}'
    ||| c == '\u{3000}'
}

/// Exec form of [`is_digit`].
pub fn char_is_digit(c: char) -> (b: bool)
    ensures
        b == is_digit(c),
{
    '0' <= c && c <= '9'
}

/// Exec form of [`is_whitespace`].
pub fn char_is_whitespace(c: char) -> (b: bool)
    ensures
        b == is_whitespace(c),
{
    ('\u{9}' <= c && c <= '\u{d}') || c == ' ' || c == '\u{85}' || c == '\u{a0}' || c == '\u{1680}'
        || ('\u{2000}' <= c && c <= '\u{200a}') || c == '\u{2028}' || c == '\u{2029}' || c
        == '\u{202f}' || c == '\u{205f}' || c == '\u{3000}'
}

/// Removes leading whitespace.
pub open spec fn trim_start(s: Seq<char>) -> Seq<char>
    decreases s.len(),
{
    if s.len() > 0 && is_whitespace(s[0]) {
        trim_start(s.drop_first())
    } else {
        s
    }
}

/// Removes trailing whitespace.
pub open spec fn trim_end(s: Seq<char>) -> Seq<char>
    decreases s.len(),
{
    if s.len() > 0 && is_whitespace(s.last()) {
        trim_end(s.drop_last())
    } else {
        s
    }
}

/// Removes leading and trailing whitespace, as `str::trim` does.
pub open spec fn trim(s: Seq<char>) -> Seq<char> {
    trim_end(trim_start(s))
}

/// Index of the first non-whitespace character of `s[from..to]`, or `to`.
pub fn first_non_whitespace(s: &[char], from: usize, to: usize) -> (i: usize)
    requires
        from <= to <= s@.len(),
    ensures
        from <= i <= to,
        trim_start(s@.subrange(from as int, to as int)) == s@.subrange(i as int, to as int),
{
    let mut i = from;
    while i < to && char_is_whitespace(s[i])
        invariant
            from <= i <= to,
            to <= s@.len(),
            trim_start(s@.subrange(from as int, to as int)) == trim_start(
                s@.subrange(i as int, to as int),
            ),
        decreases to - i,
    {
        assert(s@.subrange(i + 1, to as int) == s@.subrange(i as int, to as int).drop_first());
        i = i + 1;
    }
    i
}

/// Exclusive end of `s[from..to]` once trailing whitespace is removed.
pub fn last_non_whitespace(s: &[char], from: usize, to: usize) -> (j: usize)
    requires
        from <= to <= s@.len(),
    ensures
        from <= j <= to,
        trim_end(s@.subrange(from as int, to as int)) == s@.subrange(from as int, j as int),
{
    let mut j = to;
    while j > from && char_is_whitespace(s[j - 1])
        invariant
            from <= j <= to,
            to <= s@.len(),
            trim_end(s@.subrange(from as int, to as int)) == trim_end(
                s@.subrange(from as int, j as int),
            ),
        decreases j,
    {
        assert(s@.subrange(from as int, j - 1) == s@.subrange(from as int, j as int).drop_last());
        j = j - 1;
    }
    j
}

/// Bounds of `trim(s[from..to])` inside `s`.
pub fn trim_range(s: &[char], from: usize, to: usize) -> (r: (usize, usize))
    requires
        from <= to <= s@.len(),
    ensures
        from <= r.0 <= r.1 <= to,
        trim(s@.subrange(from as int, to as int)) == s@.subrange(r.0 as int, r.1 as int),
{
    let i = first_non_whitespace(s, from, to);
    let j = last_non_whitespace(s, i, to);
    (i, j)
}

/// True when two character slices hold the same characters.
pub fn chars_equal(a: &[char], b: &[char]) -> (r: bool)
    ensures
        r == (a@ == b@),
{
    if a.len() != b.len() {
        return false;
    }
    let mut i: usize = 0;
    while i < a.len()
        invariant
            a@.len() == b@.len(),
            i <= a@.len(),
            forall|k: int| 0 <= k < i ==> a@[k] == b@[k],
        decreases a@.len() - i,
    {
        if a[i] != b[i] {
            return false;
        }
        i = i + 1;
    }
    assert(a@ =~= b@);
    true
}

/// True when the characters of `a[from..to]` are those of `b`.
pub fn chars_equal_at(a: &[char], from: usize, to: usize, b: &str) -> (r: bool)
    requires
        from <= to <= a@.len(),
    ensures
        r == (a@.subrange(from as int, to as int) == b@),
{
    let bv = chars_of(b);
    if to - from != bv.len() {
        return false;
    }
    let mut i: usize = 0;
    while i < bv.len()
        invariant
            to - from == bv@.len(),
            from <= to <= a@.len(),
            bv@ == b@,
            i <= bv@.len(),
            forall|k: int| 0 <= k < i ==> a@[from + k] == bv@[k],
        decreases bv@.len() - i,
    {
        if a[from + i] != bv[i] {
            return false;
        }
        i = i + 1;
    }
    assert(a@.subrange(from as int, to as int) =~= bv@);
    true
}

/// The character of a decimal digit value.
pub open spec fn digit_char(d: nat) -> char {
    if d == 0 {
        '0'
    } else if d == 1 {
        '1'
    } else if d == 2 {
        '2'
    } else if d == 3 {
        '3'
    } else if d == 4 {
        '4'
    } else if d == 5 {
        '5'
    } else if d == 6 {
        '6'
    } else if d == 7 {
        '7'
    } else if d == 8 {
        '8'
    } else {
        '9'
    }
}

/// Decimal text of a natural number, without leading zeros.
pub open spec fn decimal(n: nat) -> Seq<char>
    decreases n,
{
    if n < 10 {
        seq![digit_char(n)]
    } else {
        decimal(n / 10).push(digit_char(n % 10))
    }
}

/// Value of a sequence of decimal digits.
pub open spec fn digits_value(s: Seq<char>) -> nat
    decreases s.len(),
{
    if s.len() == 0 {
        0
    } else {
        digits_value(s.drop_last()) * 10 + digit_value(s.last())
    }
}

/// True when every character is an ASCII digit.
pub open spec fn all_digits(s: Seq<char>) -> bool {
    forall|i: int| 0 <= i < s.len() ==> #[trigger] is_digit(s[i])
}

/// Decimal text consists of digits, is nonempty, and reads back as the number.
pub proof fn lemma_decimal(n: nat)
    ensures
        all_digits(decimal(n)),
        decimal(n).len() >= 1,
        digits_value(decimal(n)) == n,
    decreases n,
{
    if n >= 10 {
        lemma_decimal(n / 10);
        let d = decimal(n / 10);
        assert(decimal(n).drop_last() == d);
        assert(digit_value(digit_char(n % 10)) == n % 10);
        assert(decimal(n).last() == digit_char(n % 10));
        assert(digits_value(decimal(n)) == digits_value(d) * 10 + digit_value(digit_char(n % 10)));
        assert((n / 10) * 10 + n % 10 == n) by (nonlinear_arith);
    } else {
        assert(decimal(n).drop_last() =~= Seq::<char>::empty());
        assert(digit_value(digit_char(n)) == n);
        assert(digits_value(Seq::<char>::empty()) == 0);
        assert(digits_value(decimal(n)) == digits_value(decimal(n).drop_last()) * 10
            + digit_value(decimal(n).last()));
    }
}

/// Appends the decimal text of `n` to `s`.
pub fn push_decimal(s: &mut String, n: u64)
    ensures
        final(s)@ == old(s)@ + decimal(n as nat),
    decreases n,
{
    if n >= 10 {
        push_decimal(s, n / 10);
    }
    let d = (n % 10) as u32;
    let c = char_from_digit(d);
    push_char(s, c);
    proof {
        if n >= 10 {
            assert(old(s)@ + decimal(n as nat) == old(s)@ + decimal((n / 10) as nat) + seq![c]);
        } else {
            assert(decimal(n as nat) == seq![c]);
        }
    }
}

/// Appends the decimal text of a 128-bit `n` to `s`.
pub fn push_decimal_wide(s: &mut String, n: u128)
    ensures
        final(s)@ == old(s)@ + decimal(n as nat),
    decreases n,
{
    if n >= 10 {
        push_decimal_wide(s, n / 10);
    }
    let d = (n % 10) as u32;
    let c = char_from_digit(d);
    push_char(s, c);
    proof {
        if n >= 10 {
            assert(old(s)@ + decimal(n as nat) == old(s)@ + decimal((n / 10) as nat) + seq![c]);
        } else {
            assert(decimal(n as nat) == seq![c]);
        }
    }
}

/// The character of one decimal digit.
pub fn char_from_digit(d: u32) -> (c: char)
    requires
        d < 10,
    ensures
        c == digit_char(d as nat),
        is_digit(c),
        digit_value(c) == d,
{
    if d == 0 { '0' }
    else if d == 1 { '1' }
    else if d == 2 { '2' }
    else if d == 3 { '3' }
    else if d == 4 { '4' }
    else if d == 5 { '5' }
    else if d == 6 { '6' }
    else if d == 7 { '7' }
    else if d == 8 { '8' }
    else { '9' }
}

/// The value of one decimal digit character.
pub fn digit_of(c: char) -> (d: u32)
    requires
        is_digit(c),
    ensures
        d == digit_value(c),
        d < 10,
{
    (c as u32) - ('0' as u32)
}

/// A prefix of a digit string is worth no more than the whole string.
pub proof fn lemma_digits_prefix_le(s: Seq<char>, j: int)
    requires
        0 <= j <= s.len(),
    ensures
        digits_value(s.take(j)) <= digits_value(s),
    decreases s.len(),
{
    if j < s.len() {
        lemma_digits_prefix_le(s.drop_last(), j);
        assert(s.drop_last().take(j) == s.take(j));
    } else {
        assert(s.take(j) == s);
    }
}

/// Extending a digit string by one digit multiplies by ten and adds the digit.
pub proof fn lemma_digits_step(v: Seq<char>, from: int, i: int)
    requires
        0 <= from <= i < v.len(),
    ensures
        digits_value(v.subrange(from, i + 1)) == digits_value(v.subrange(from, i)) * 10
            + digit_value(v[i]),
{
    assert(v.subrange(from, i + 1).drop_last() == v.subrange(from, i));
}

/// Parses `v[from..to]` as an unbounded decimal number held in 128 bits.
pub fn parse_digits_u128(v: &[char], from: usize, to: usize) -> (r: Option<u128>)
    requires
        from <= to <= v@.len(),
        forall|i: int| from <= i < to ==> is_digit(#[trigger] v@[i]),
    ensures
        match r {
            Some(x) => x == digits_value(v@.subrange(from as int, to as int)),
            None => digits_value(v@.subrange(from as int, to as int)) > u128::MAX,
        },
{
    let mut acc: u128 = 0;
    let mut i = from;
    assert(v@.subrange(from as int, from as int) =~= Seq::<char>::empty());
    while i < to
        invariant
            from <= i <= to,
            to <= v@.len(),
            forall|j: int| from <= j < to ==> is_digit(#[trigger] v@[j]),
            acc == digits_value(v@.subrange(from as int, i as int)),
        decreases to - i,
    {
        assert(is_digit(v@[i as int]));
        let d = digit_of(v[i]) as u128;
        proof {
            lemma_digits_step(v@, from as int, i as int);
        }
        if acc > (u128::MAX - d) / 10 {
            proof {
                assert(acc * 10 + d > u128::MAX) by (nonlinear_arith)
                    requires
                        acc > (u128::MAX - d) / 10,
                        d < 10,
                ;
                let s = v@.subrange(from as int, to as int);
                lemma_digits_prefix_le(s, i + 1 - from);
                assert(s.take(i + 1 - from) == v@.subrange(from as int, i + 1));
            }
            return None;
        }
        acc = acc * 10 + d;
        i = i + 1;
    }
    Some(acc)
}

} // verus!
