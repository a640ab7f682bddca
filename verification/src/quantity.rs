//! Checked integer quantities and their textual forms.

use vstd::prelude::*;

use crate::error::CoreError;
use crate::text::{
    all_digits, char_is_digit, chars_equal_at, chars_of, decimal, digit_value, digits_value,
    is_digit, is_whitespace, lemma_decimal, parse_digits_u128, push_char, push_decimal, trim,
    trim_end, trim_range, trim_start,
};

verus! {

/// One SI kilobyte.
pub const KB: u64 = 1_000;
/// One SI megabyte.
pub const MB: u64 = 1_000_000;
/// One SI gigabyte.
pub const GB: u64 = 1_000_000_000;
/// One IEC kibibyte.
pub const KIB: u64 = 1_024;
/// One IEC mebibyte.
pub const MIB: u64 = 1_048_576;
/// One IEC gibibyte.
pub const GIB: u64 = 1_073_741_824;

/// A byte count. SI and IEC suffixes retain their distinct multipliers when parsed.
#[derive(Debug, Clone, Copy, Default, PartialEq, Eq, PartialOrd, Ord, Hash)]
pub struct Bytes(u64);

impl View for Bytes {
    type V = u64;

    closed spec fn view(&self) -> u64 {
        self.0
    }
}

/// Byte counts are equal exactly when their raw values are.
pub broadcast proof fn lemma_bytes_view_injective(a: Bytes, b: Bytes)
    ensures
        #![trigger a@, b@]
        a@ == b@ <==> a == b,
{
}

/// Why a quantity text was rejected.
#[derive(Debug, Clone, Copy, PartialEq, Eq)]
pub enum QuantityFault {
    /// The text is not a well-formed quantity.
    Invalid,
    /// The quantity does not fit the integer type.
    Overflow,
}

/// Length of the leading run of digits and decimal points.
pub open spec fn leading_number_len(s: Seq<char>) -> nat
    decreases s.len(),
{
    if s.len() > 0 && (is_digit(s[0]) || s[0] == '.') {
        1 + leading_number_len(s.drop_first())
    } else {
        0
    }
}

/// Length of the text before the first decimal point.
pub open spec fn before_point_len(s: Seq<char>) -> nat
    decreases s.len(),
{
    if s.len() > 0 && s[0] != '.' {
        1 + before_point_len(s.drop_first())
    } else {
        0
    }
}

/// Ten to the power `n`.
pub open spec fn pow10(n: nat) -> nat
    decreases n,
{
    if n == 0 {
        1
    } else {
        10 * pow10((n - 1) as nat)
    }
}

/// Multiplier named by a byte-unit suffix.
pub open spec fn byte_unit(suffix: Seq<char>) -> Option<u64> {
    if suffix.len() == 0 || suffix == "B"@ {
        Some(1)
    } else if suffix == "KB"@ {
        Some(KB)
    } else if suffix == "MB"@ {
        Some(MB)
    } else if suffix == "GB"@ {
        Some(GB)
    } else if suffix == "KiB"@ {
        Some(KIB)
    } else if suffix == "MiB"@ {
        Some(MIB)
    } else if suffix == "GiB"@ {
        Some(GIB)
    } else {
        None
    }
}

/// Exact value of a decimal `number` times `m`.
///
/// The number is a nonempty run of ASCII digits, optionally followed by one point and a
/// run of at most nine ASCII digits; anything else is invalid text. The scaled fraction
/// must be whole, and intermediate values are held in 128 bits.
pub open spec fn scaled_value(number: Seq<char>, m: nat) -> Result<nat, QuantityFault> {
    let k = before_point_len(number);
    let whole = number.take(k as int);
    let rest = number.skip(k as int);
    let fraction = if rest.len() == 0 {
        rest
    } else {
        rest.drop_first()
    };
    let w = digits_value(whole);
    if rest.len() > 0 && fraction.contains('.') {
        Err(QuantityFault::Invalid)
    } else if whole.len() == 0 || !all_digits(whole) || !all_digits(fraction) {
        Err(QuantityFault::Invalid)
    } else if fraction.len() > 9 || w > u128::MAX {
        Err(QuantityFault::Invalid)
    } else if w * m > u128::MAX {
        Err(QuantityFault::Overflow)
    } else if fraction.len() == 0 {
        if w * m > u64::MAX {
            Err(QuantityFault::Overflow)
        } else {
            Ok(w * m)
        }
    } else {
        let d = pow10(fraction.len());
        let scaled = digits_value(fraction) * m;
        if scaled % d != 0 {
            Err(QuantityFault::Invalid)
        } else if w * m + scaled / d > u64::MAX {
            Err(QuantityFault::Overflow)
        } else {
            Ok(w * m + scaled / d)
        }
    }
}

/// The byte count that `input` denotes, as `Bytes::parse` reads it.
pub open spec fn parse_bytes_spec(input: Seq<char>) -> Result<u64, QuantityFault> {
    let t = trim(input);
    let k = leading_number_len(t);
    if t.len() > 0 && (t[0] == '-' || t[0] == '+') {
        Err(QuantityFault::Invalid)
    } else if k == 0 {
        Err(QuantityFault::Invalid)
    } else {
        match byte_unit(trim(t.skip(k as int))) {
            None => Err(QuantityFault::Invalid),
            Some(m) => match scaled_value(t.take(k as int), m as nat) {
                Ok(v) => Ok(v as u64),
                Err(f) => Err(f),
            },
        }
    }
}

/// The text `Bytes::to_string` produces: the largest exact binary unit, else plain bytes.
pub open spec fn display_bytes(v: u64) -> Seq<char> {
    if v >= GIB && v % GIB == 0 {
        decimal((v / GIB) as nat) + seq![' ', 'G', 'i', 'B']
    } else if v >= MIB && v % MIB == 0 {
        decimal((v / MIB) as nat) + seq![' ', 'M', 'i', 'B']
    } else if v >= KIB && v % KIB == 0 {
        decimal((v / KIB) as nat) + seq![' ', 'K', 'i', 'B']
    } else {
        decimal(v as nat) + seq![' ', 'B']
    }
}

/// True when a parse error matches the spec's fault for the given quantity kind.
pub open spec fn fault_matches(e: CoreError, f: QuantityFault, kind: Seq<char>) -> bool {
    match f {
        QuantityFault::Invalid => e is InvalidText && e->InvalidText_kind@ == kind,
        QuantityFault::Overflow => e.is_overflow(kind),
    }
}

/// A run of digits holds no decimal point.
proof fn lemma_digits_before_point(s: Seq<char>)
    requires
        all_digits(s),
    ensures
        before_point_len(s) == s.len(),
    decreases s.len(),
{
    if s.len() > 0 {
        assert(is_digit(s[0]));
        assert(all_digits(s.drop_first())) by {
            assert forall|i: int| 0 <= i < s.drop_first().len() implies is_digit(
                #[trigger] s.drop_first()[i],
            ) by {
                assert(is_digit(s[i + 1]));
            }
        }
        lemma_digits_before_point(s.drop_first());
    }
}

/// The number run of digits followed by a non-number character ends at the digits.
proof fn lemma_leading_number_concat(a: Seq<char>, b: Seq<char>)
    requires
        all_digits(a),
        b.len() > 0,
        !is_digit(b[0]),
        b[0] != '.',
    ensures
        leading_number_len(a + b) == a.len(),
    decreases a.len(),
{
    if a.len() > 0 {
        assert(is_digit(a[0]));
        assert((a + b).drop_first() == a.drop_first() + b);
        assert(all_digits(a.drop_first())) by {
            assert forall|i: int| 0 <= i < a.drop_first().len() implies is_digit(
                #[trigger] a.drop_first()[i],
            ) by {
                assert(is_digit(a[i + 1]));
            }
        }
        lemma_leading_number_concat(a.drop_first(), b);
    } else {
        assert(a + b == b);
    }
}

/// How the rendered text `decimal(n) + suffix` is read back.
proof fn lemma_read_rendered(n: nat, suffix: Seq<char>, unit: u64)
    requires
        suffix.len() >= 2,
        suffix[0] == ' ',
        !is_whitespace(suffix[1]),
        !is_digit(suffix[1]),
        !is_whitespace(suffix.last()),
        byte_unit(suffix.drop_first()) == Some(unit),
        unit >= 1,
        n * unit <= u64::MAX,
    ensures
        parse_bytes_spec(decimal(n) + suffix) == Ok::<u64, QuantityFault>((n * unit) as u64),
{
    let d = decimal(n);
    let t = d + suffix;
    lemma_decimal(n);
    assert(is_digit(d[0]));
    assert(t[0] == d[0]);
    assert(trim_start(t) == t);
    assert(t.last() == suffix.last());
    assert(trim_end(t) == t);
    assert(trim(t) == t);
    lemma_leading_number_concat(d, suffix);
    assert(t.take(d.len() as int) == d);
    assert(t.skip(d.len() as int) == suffix);
    assert(trim_start(suffix) == trim_start(suffix.drop_first()));
    assert(trim_start(suffix.drop_first()) == suffix.drop_first());
    assert(suffix.drop_first().last() == suffix.last());
    assert(trim_end(suffix.drop_first()) == suffix.drop_first());
    lemma_digits_before_point(d);
    assert(d.skip(d.len() as int) =~= Seq::<char>::empty());
    assert(all_digits(Seq::<char>::empty()));
    assert(d.take(d.len() as int) == d);
    assert(d.skip(d.len() as int).len() == 0);
    assert(n <= u64::MAX) by (nonlinear_arith)
        requires
            n * unit <= u64::MAX,
            unit >= 1,
    ;
}

/// Rendering a byte count and parsing the text gives the same count back.
pub proof fn lemma_display_round_trip(v: u64)
    ensures
        parse_bytes_spec(display_bytes(v)) == Ok::<u64, QuantityFault>(v),
{
    reveal_strlit("GiB");
    reveal_strlit("MiB");
    reveal_strlit("KiB");
    reveal_strlit("B");
    reveal_strlit("KB");
    reveal_strlit("MB");
    reveal_strlit("GB");
    assert("KiB"@[0] == 'K' && "MiB"@[0] == 'M' && "GiB"@[0] == 'G');
    assert("B"@.len() == 1 && "KB"@.len() == 2 && "MB"@.len() == 2 && "GB"@.len() == 2);
    if v >= GIB && v % GIB == 0 {
        let suffix = seq![' ', 'G', 'i', 'B'];
        assert(suffix.drop_first() == "GiB"@);
        assert("GiB"@ != "KiB"@ && "GiB"@ != "MiB"@ && "GiB"@.len() == 3);
        assert(byte_unit("GiB"@) == Some(GIB));
        assert((v / GIB) * GIB == v);
        lemma_read_rendered((v / GIB) as nat, suffix, GIB);
    } else if v >= MIB && v % MIB == 0 {
        let suffix = seq![' ', 'M', 'i', 'B'];
        assert(suffix.drop_first() == "MiB"@);
        assert("MiB"@ != "KiB"@ && "MiB"@.len() == 3);
        assert(byte_unit("MiB"@) == Some(MIB));
        assert((v / MIB) * MIB == v);
        lemma_read_rendered((v / MIB) as nat, suffix, MIB);
    } else if v >= KIB && v % KIB == 0 {
        let suffix = seq![' ', 'K', 'i', 'B'];
        assert(suffix.drop_first() == "KiB"@);
        assert((v / KIB) * KIB == v);
        lemma_read_rendered((v / KIB) as nat, suffix, KIB);
    } else {
        let suffix = seq![' ', 'B'];
        assert(suffix.drop_first() == "B"@);
        lemma_read_rendered(v as nat, suffix, 1);
    }
}

impl Bytes {
    /// One SI kilobyte.
    pub const KB: u64 = 1_000;
    /// One SI megabyte.
    pub const MB: u64 = 1_000_000;
    /// One SI gigabyte.
    pub const GB: u64 = 1_000_000_000;
    /// One IEC kibibyte.
    pub const KIB: u64 = 1_024;
    /// One IEC mebibyte.
    pub const MIB: u64 = 1_048_576;
    /// One IEC gibibyte.
    pub const GIB: u64 = 1_073_741_824;

    /// Creates a byte count.
    pub fn new(value: u64) -> (b: Self)
        ensures
            b@ == value,
    {
        Bytes(value)
    }

    /// Returns the raw byte count.
    pub fn get(self) -> (v: u64)
        ensures
            v == self@,
    {
        self.0
    }

    /// Checked addition.
    pub fn checked_add(self, other: Self) -> (r: Result<Self, CoreError>)
        ensures
            self@ + other@ <= u64::MAX ==> r == Ok::<Bytes, CoreError>(
                Bytes::spec_new((self@ + other@) as u64),
            ),
            self@ + other@ > u64::MAX ==> r is Err && r->Err_0.is_overflow("bytes"@),
    {
        if self.0 <= u64::MAX - other.0 {
            Ok(Bytes(self.0 + other.0))
        } else {
            Err(CoreError::ArithmeticOverflow { kind: "bytes" })
        }
    }

    /// Checked subtraction.
    pub fn checked_sub(self, other: Self) -> (r: Result<Self, CoreError>)
        ensures
            other@ <= self@ ==> r == Ok::<Bytes, CoreError>(
                Bytes::spec_new((self@ - other@) as u64),
            ),
            other@ > self@ ==> r is Err && r->Err_0.is_overflow("bytes"@),
    {
        if other.0 <= self.0 {
            Ok(Bytes(self.0 - other.0))
        } else {
            Err(CoreError::ArithmeticOverflow { kind: "bytes" })
        }
    }

    /// Checked multiplication by an integer.
    pub fn checked_mul(self, factor: u64) -> (r: Result<Self, CoreError>)
        ensures
            self@ * factor <= u64::MAX ==> r == Ok::<Bytes, CoreError>(
                Bytes::spec_new((self@ * factor) as u64),
            ),
            self@ * factor > u64::MAX ==> r is Err && r->Err_0.is_overflow("bytes"@),
    {
        if factor == 0 || self.0 <= u64::MAX / factor {
            proof {
                if factor != 0 {
                    assert(self@ * factor <= (u64::MAX / factor) * factor) by (nonlinear_arith)
                        requires
                            self@ <= u64::MAX / factor,
                            factor > 0,
                    ;
                    assert((u64::MAX / factor) * factor <= u64::MAX) by (nonlinear_arith)
                        requires
                            factor > 0,
                    ;
                }
            }
            Ok(Bytes(self.0 * factor))
        } else {
            proof {
                assert(self@ * factor > u64::MAX) by (nonlinear_arith)
                    requires
                        self@ > u64::MAX / factor,
                        factor > 0,
                ;
            }
            Err(CoreError::ArithmeticOverflow { kind: "bytes" })
        }
    }

    /// The byte count holding `v`.
    pub closed spec fn spec_new(v: u64) -> Bytes {
        Bytes(v)
    }

    /// The raw value of [`Bytes::spec_new`].
    pub broadcast proof fn lemma_spec_new(v: u64)
        ensures
            #[trigger] Bytes::spec_new(v)@ == v,
    {
    }

    /// Renders the count with the largest binary unit that divides it exactly.
    pub fn to_string(&self) -> (s: String)
        ensures
            s@ == display_bytes(self@),
    {
        let v = self.0;
        let mut s = String::new();
        if v >= GIB && v % GIB == 0 {
            push_decimal(&mut s, v / GIB);
            push_unit(&mut s, 'G');
        } else if v >= MIB && v % MIB == 0 {
            push_decimal(&mut s, v / MIB);
            push_unit(&mut s, 'M');
        } else if v >= KIB && v % KIB == 0 {
            push_decimal(&mut s, v / KIB);
            push_unit(&mut s, 'K');
        } else {
            push_decimal(&mut s, v);
            push_char(&mut s, ' ');
            push_char(&mut s, 'B');
            assert(s@ == decimal(v as nat) + seq![' ', 'B']);
        }
        s
    }

    /// Parses a decimal count with an optional SI or IEC unit suffix.
    pub fn parse(input: &str) -> (r: Result<Self, CoreError>)
        ensures
            match parse_bytes_spec(input@) {
                Ok(v) => r == Ok::<Bytes, CoreError>(Bytes::spec_new(v)),
                Err(f) => r is Err && fault_matches(r->Err_0, f, "bytes"@),
            },
    {
        match parse_quantity_text(input) {
            Ok(v) => Ok(Bytes(v)),
            Err(f) => Err(quantity_error(f, input)),
        }
    }
}

/// A quantity parse failure as a core error of kind "bytes".
fn quantity_error(f: QuantityFault, input: &str) -> (e: CoreError)
    ensures
        fault_matches(e, f, "bytes"@),
{
    match f {
        QuantityFault::Invalid => CoreError::InvalidText {
            kind: "bytes",
            value: input.to_owned(),
            reason: "expected a decimal byte count with a B, KB, MB, GB, KiB, MiB, or GiB suffix",
        },
        QuantityFault::Overflow => CoreError::ArithmeticOverflow { kind: "bytes" },
    }
}

/// Appends " KiB", " MiB", or " GiB" for the given prefix letter.
fn push_unit(s: &mut String, prefix: char)
    ensures
        final(s)@ == old(s)@ + seq![' ', prefix, 'i', 'B'],
{
    push_char(s, ' ');
    push_char(s, prefix);
    push_char(s, 'i');
    push_char(s, 'B');
}

impl std::str::FromStr for Bytes {
    type Err = CoreError;

    fn from_str(input: &str) -> (r: Result<Self, Self::Err>)
        ensures
            match parse_bytes_spec(input@) {
                Ok(v) => r == Ok::<Bytes, CoreError>(Bytes::spec_new(v)),
                Err(f) => r is Err && fault_matches(r->Err_0, f, "bytes"@),
            },
    {
        Bytes::parse(input)
    }
}

/// Scans the run of digits and points starting at `from`, stopping at `to`.
fn scan_number(v: &[char], from: usize, to: usize) -> (k: usize)
    requires
        from <= to <= v@.len(),
    ensures
        from <= k <= to,
        k - from == leading_number_len(v@.subrange(from as int, to as int)),
        forall|i: int| from <= i < k ==> is_digit(#[trigger] v@[i]) || v@[i] == '.',
{
    let mut k = from;
    while k < to && (char_is_digit(v[k]) || v[k] == '.')
        invariant
            from <= k <= to,
            to <= v@.len(),
            forall|i: int| from <= i < k ==> is_digit(#[trigger] v@[i]) || v@[i] == '.',
            leading_number_len(v@.subrange(from as int, to as int)) == (k - from)
                + leading_number_len(v@.subrange(k as int, to as int)),
        decreases to - k,
    {
        assert(v@.subrange(k + 1, to as int) == v@.subrange(k as int, to as int).drop_first());
        k = k + 1;
    }
    k
}

/// Scans from `from` to the first decimal point, stopping at `to`.
fn scan_to_point(v: &[char], from: usize, to: usize) -> (k: usize)
    requires
        from <= to <= v@.len(),
    ensures
        from <= k <= to,
        k - from == before_point_len(v@.subrange(from as int, to as int)),
        forall|i: int| from <= i < k ==> #[trigger] v@[i] != '.',
        k < to ==> v@[k as int] == '.',
{
    let mut k = from;
    while k < to && v[k] != '.'
        invariant
            from <= k <= to,
            to <= v@.len(),
            forall|i: int| from <= i < k ==> #[trigger] v@[i] != '.',
            before_point_len(v@.subrange(from as int, to as int)) == (k - from)
                + before_point_len(v@.subrange(k as int, to as int)),
        decreases to - k,
    {
        assert(v@.subrange(k + 1, to as int) == v@.subrange(k as int, to as int).drop_first());
        k = k + 1;
    }
    k
}

/// Whether `v[from..to]` holds only ASCII digits.
fn digits_only(v: &[char], from: usize, to: usize) -> (r: bool)
    requires
        from <= to <= v@.len(),
    ensures
        r == all_digits(v@.subrange(from as int, to as int)),
{
    let mut i = from;
    while i < to
        invariant
            from <= i <= to,
            to <= v@.len(),
            forall|j: int| from <= j < i ==> is_digit(#[trigger] v@[j]),
        decreases to - i,
    {
        if !char_is_digit(v[i]) {
            proof {
                assert(!is_digit(v@.subrange(from as int, to as int)[i - from]));
            }
            return false;
        }
        i = i + 1;
    }
    proof {
        assert forall|j: int| 0 <= j < v@.subrange(from as int, to as int).len() implies is_digit(
            #[trigger] v@.subrange(from as int, to as int)[j],
        ) by {
            assert(is_digit(v@[from + j]));
        }
    }
    true
}

/// Exec form of [`pow10`] for up to nine digits.
fn pow10_u64(n: usize) -> (p: u64)
    requires
        n <= 9,
    ensures
        p == pow10(n as nat),
        p >= 1,
        p <= 1_000_000_000,
{
    let mut p: u64 = 1;
    let mut i: usize = 0;
    proof {
        lemma_pow10_9();
    }
    while i < n
        invariant
            i <= n <= 9,
            p == pow10(i as nat),
            pow10(9) == 1_000_000_000,
        decreases n - i,
    {
        proof {
            lemma_pow10_monotone((i + 1) as nat, 9);
        }
        p = p * 10;
        i = i + 1;
    }
    proof {
        lemma_pow10_monotone(n as nat, 9);
    }
    p
}

/// Ten to the ninth.
proof fn lemma_pow10_9()
    ensures
        pow10(9) == 1_000_000_000,
{
    reveal_with_fuel(pow10, 10);
}

/// Powers of ten grow with the exponent.
proof fn lemma_pow10_monotone(a: nat, b: nat)
    requires
        a <= b,
    ensures
        pow10(a) <= pow10(b),
        pow10(a) >= 1,
    decreases b,
{
    if b > 0 {
        if a < b {
            lemma_pow10_monotone(a, (b - 1) as nat);
        }
        lemma_pow10_monotone((b - 1) as nat, (b - 1) as nat);
    }
}

/// Computes [`scaled_value`] for `v[from..to]`.
fn parse_scaled(v: &[char], from: usize, to: usize, m: u64) -> (r: Result<u64, QuantityFault>)
    requires
        from <= to <= v@.len(),
    ensures
        match scaled_value(v@.subrange(from as int, to as int), m as nat) {
            Ok(x) => r == Ok::<u64, QuantityFault>(x as u64),
            Err(f) => r == Err::<u64, QuantityFault>(f),
        },
{
    let ghost number = v@.subrange(from as int, to as int);
    let k = scan_to_point(v, from, to);
    let ghost kk = (k - from) as int;
    assert(number.take(kk) == v@.subrange(from as int, k as int));
    assert(number.skip(kk) == v@.subrange(k as int, to as int));
    let mut frac_start = k;
    if k < to {
        // v[k] is the decimal point; any further point is an error.
        frac_start = k + 1;
        let mut j = k + 1;
        while j < to
            invariant
                k + 1 <= j <= to,
                to <= v@.len(),
                from <= k,
                kk == k - from,
                number == v@.subrange(from as int, to as int),
                number.skip(kk) == v@.subrange(k as int, to as int),
                k - from == before_point_len(number),
                forall|i: int| k + 1 <= i < j ==> v@[i] != '.',
            decreases to - j,
        {
            if v[j] == '.' {
                proof {
                    let fraction = v@.subrange(k as int, to as int).drop_first();
                    assert(fraction[j - k - 1] == '.');
                    assert(fraction.contains('.'));
                }
                return Err(QuantityFault::Invalid);
            }
            j = j + 1;
        }
        proof {
            let fraction = v@.subrange(k as int, to as int).drop_first();
            assert(fraction == v@.subrange(k + 1, to as int));
            assert(!fraction.contains('.'));
        }
    }
    let ghost fraction = v@.subrange(frac_start as int, to as int);
    assert(fraction == (if number.skip(kk).len() == 0 {
        number.skip(kk)
    } else {
        number.skip(kk).drop_first()
    }));
    if k == from || !digits_only(v, from, k) || !digits_only(v, frac_start, to) {
        return Err(QuantityFault::Invalid);
    }
    if to - frac_start > 9 {
        return Err(QuantityFault::Invalid);
    }
    assert forall|i: int| from <= i < k implies is_digit(#[trigger] v@[i]) by {
        assert(is_digit(v@.subrange(from as int, k as int)[i - from]));
    }
    assert forall|i: int| frac_start <= i < to implies is_digit(#[trigger] v@[i]) by {
        assert(is_digit(fraction[i - frac_start]));
    }
    let whole = match parse_digits_u128(v, from, k) {
        Some(w) => w,
        None => {
            return Err(QuantityFault::Invalid);
        },
    };
    let m128 = m as u128;
    let base = match whole.checked_mul(m128) {
        Some(b) => b,
        None => {
            return Err(QuantityFault::Overflow);
        },
    };
    if frac_start == to {
        if base > u64::MAX as u128 {
            return Err(QuantityFault::Overflow);
        }
        return Ok(base as u64);
    }
    let numerator = match parse_digits_u128(v, frac_start, to) {
        Some(x) => x,
        None => {
            proof {
                lemma_digits_bound(fraction);
            }
            return Err(QuantityFault::Invalid);
        },
    };
    proof {
        lemma_digits_bound(fraction);
    }
    let denominator = pow10_u64(to - frac_start) as u128;
    assert(numerator * m128 <= 1_000_000_000u128 * 18_446_744_073_709_551_615u128) by (nonlinear_arith)
        requires
            numerator < 1_000_000_000,
            m128 <= 18_446_744_073_709_551_615u128,
    ;
    let scaled = numerator * m128;
    if scaled % denominator != 0 {
        return Err(QuantityFault::Invalid);
    }
    let part = scaled / denominator;
    if base > u64::MAX as u128 || part > u64::MAX as u128 - base {
        return Err(QuantityFault::Overflow);
    }
    Ok((base + part) as u64)
}

/// A digit string is worth less than ten to the power of its length.
proof fn lemma_digits_bound(s: Seq<char>)
    requires
        s.len() <= 9,
        all_digits(s),
    ensures
        digits_value(s) < pow10(s.len()),
        pow10(s.len()) <= 1_000_000_000,
    decreases s.len(),
{
    lemma_pow10_monotone(s.len(), 9);
    lemma_pow10_9();
    if s.len() > 0 {
        let p = pow10((s.len() - 1) as nat);
        let dv = digits_value(s.drop_last());
        assert(all_digits(s.drop_last())) by {
            assert forall|i: int| 0 <= i < s.drop_last().len() implies is_digit(
                #[trigger] s.drop_last()[i],
            ) by {
                assert(is_digit(s[i]));
            }
        }
        lemma_digits_bound(s.drop_last());
        assert(is_digit(s[s.len() - 1]));
        let d = digit_value(s.last());
        assert(d < 10);
        assert(dv * 10 + d < p * 10) by (nonlinear_arith)
            requires
                dv < p,
                d < 10,
        ;
    } else {
        assert(digits_value(s) == 0);
    }
}

/// Multiplier for the unit suffix `v[i..j]`.
fn unit_multiplier(v: &[char], i: usize, j: usize) -> (m: Option<u64>)
    requires
        i <= j <= v@.len(),
    ensures
        m == byte_unit(v@.subrange(i as int, j as int)),
{
    if i == j || chars_equal_at(v, i, j, "B") {
        Some(1)
    } else if chars_equal_at(v, i, j, "KB") {
        Some(KB)
    } else if chars_equal_at(v, i, j, "MB") {
        Some(MB)
    } else if chars_equal_at(v, i, j, "GB") {
        Some(GB)
    } else if chars_equal_at(v, i, j, "KiB") {
        Some(KIB)
    } else if chars_equal_at(v, i, j, "MiB") {
        Some(MIB)
    } else if chars_equal_at(v, i, j, "GiB") {
        Some(GIB)
    } else {
        None
    }
}

/// Reads the byte count that `input` denotes.
fn parse_quantity_text(input: &str) -> (r: Result<u64, QuantityFault>)
    ensures
        match parse_bytes_spec(input@) {
            Ok(v) => r == Ok::<u64, QuantityFault>(v),
            Err(f) => r == Err::<u64, QuantityFault>(f),
        },
{
    let v = chars_of(input);
    let ghost s = v@;
    assert(s.subrange(0, s.len() as int) == s);
    let (a, b) = trim_range(v.as_slice(), 0, v.len());
    let ghost t = s.subrange(a as int, b as int);
    if a < b && (v[a] == '-' || v[a] == '+') {
        return Err(QuantityFault::Invalid);
    }
    let k = scan_number(v.as_slice(), a, b);
    if k == a {
        return Err(QuantityFault::Invalid);
    }
    assert(t.skip(k - a) == s.subrange(k as int, b as int));
    assert(t.take(k - a) == s.subrange(a as int, k as int));
    let (i, j) = trim_range(v.as_slice(), k, b);
    let m = match unit_multiplier(v.as_slice(), i, j) {
        Some(m) => m,
        None => {
            return Err(QuantityFault::Invalid);
        },
    };
    parse_scaled(v.as_slice(), a, k, m)
}

/// A monetary amount in millionths of a US dollar.
#[derive(Debug, Clone, Copy, Default, PartialEq, Eq, PartialOrd, Ord, Hash)]
pub struct MicroUsd(u64);

impl View for MicroUsd {
    type V = u64;

    closed spec fn view(&self) -> u64 {
        self.0
    }
}

/// Amounts are equal exactly when their raw values are.
pub broadcast proof fn lemma_micro_usd_view_injective(a: MicroUsd, b: MicroUsd)
    ensures
        #![trigger a@, b@]
        a@ == b@ <==> a == b,
{
}

impl MicroUsd {
    /// Creates an amount from integer microdollars.
    pub fn new(value: u64) -> (m: Self)
        ensures
            m@ == value,
    {
        MicroUsd(value)
    }

    /// Returns integer microdollars.
    pub fn get(self) -> (v: u64)
        ensures
            v == self@,
    {
        self.0
    }

    /// The amount holding `v`.
    pub closed spec fn spec_new(v: u64) -> MicroUsd {
        MicroUsd(v)
    }

    /// The raw value of [`MicroUsd::spec_new`].
    pub broadcast proof fn lemma_spec_new(v: u64)
        ensures
            #[trigger] MicroUsd::spec_new(v)@ == v,
    {
    }

    /// Checked addition.
    pub fn checked_add(self, other: Self) -> (r: Result<Self, CoreError>)
        ensures
            self@ + other@ <= u64::MAX ==> r == Ok::<MicroUsd, CoreError>(
                MicroUsd::spec_new((self@ + other@) as u64),
            ),
            self@ + other@ > u64::MAX ==> r is Err && r->Err_0.is_overflow("micro-USD"@),
    {
        if self.0 <= u64::MAX - other.0 {
            Ok(MicroUsd(self.0 + other.0))
        } else {
            Err(CoreError::ArithmeticOverflow { kind: "micro-USD" })
        }
    }

    /// Renders the amount as `<n> microUSD`.
    pub fn to_string(&self) -> (s: String)
        ensures
            s@ == decimal(self@ as nat) + " microUSD"@,
    {
        let mut s = String::new();
        push_decimal(&mut s, self.0);
        let suffix = chars_of(" microUSD");
        let mut i: usize = 0;
        let ghost start = s@;
        while i < suffix.len()
            invariant
                i <= suffix@.len(),
                suffix@ == " microUSD"@,
                s@ == start + suffix@.take(i as int),
            decreases suffix@.len() - i,
        {
            push_char(&mut s, suffix[i]);
            assert(suffix@.take(i + 1) == suffix@.take(i as int).push(suffix@[i as int]));
            i = i + 1;
        }
        assert(suffix@.take(i as int) == suffix@);
        s
    }
}

/// A duration in whole milliseconds.
#[derive(Debug, Clone, Copy, Default, PartialEq, Eq, PartialOrd, Ord, Hash)]
pub struct Millis(u64);

impl View for Millis {
    type V = u64;

    closed spec fn view(&self) -> u64 {
        self.0
    }
}

/// Durations are equal exactly when their raw values are.
pub broadcast proof fn lemma_millis_view_injective(a: Millis, b: Millis)
    ensures
        #![trigger a@, b@]
        a@ == b@ <==> a == b,
{
}

impl Millis {
    /// Creates a millisecond duration.
    pub fn new(value: u64) -> (m: Self)
        ensures
            m@ == value,
    {
        Millis(value)
    }

    /// Returns the millisecond count.
    pub fn get(self) -> (v: u64)
        ensures
            v == self@,
    {
        self.0
    }

    /// The duration holding `v`.
    pub closed spec fn spec_new(v: u64) -> Millis {
        Millis(v)
    }

    /// The raw value of [`Millis::spec_new`].
    pub broadcast proof fn lemma_spec_new(v: u64)
        ensures
            #[trigger] Millis::spec_new(v)@ == v,
    {
    }

    /// Checked addition.
    pub fn checked_add(self, other: Self) -> (r: Result<Self, CoreError>)
        ensures
            self@ + other@ <= u64::MAX ==> r == Ok::<Millis, CoreError>(
                Millis::spec_new((self@ + other@) as u64),
            ),
            self@ + other@ > u64::MAX ==> r is Err && r->Err_0.is_overflow("milliseconds"@),
    {
        if self.0 <= u64::MAX - other.0 {
            Ok(Millis(self.0 + other.0))
        } else {
            Err(CoreError::ArithmeticOverflow { kind: "milliseconds" })
        }
    }
}

} // verus!
