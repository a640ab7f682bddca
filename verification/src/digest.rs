//! Algorithm-specific content digests.

use sha2::Digest;
use vstd::prelude::*;

use crate::error::CoreError;
use crate::text::{chars_of, digit_char, is_digit};

verus! {

/// The SHA-256 digest of `data`.
pub uninterp spec fn sha256(data: Seq<u8>) -> Seq<u8>;

/// Calls `sha2::Sha256::digest`, which returns the 32-byte SHA-256 digest of `data`.
#[verifier::external_body]
fn sha256_bytes(data: &[u8]) -> (d: [u8; 32])
    ensures
        d@ == sha256(data@),
{
    sha2::Sha256::digest(data).into()
}

#[verifier::external_type_specification]
#[verifier::external_body]
pub struct ExFromHexError(hex::FromHexError);

/// The lowercase hexadecimal digit for a value below sixteen.
pub open spec fn hex_digit(n: nat) -> char {
    if n < 10 {
        digit_char(n)
    } else if n == 10 {
        'a'
    } else if n == 11 {
        'b'
    } else if n == 12 {
        'c'
    } else if n == 13 {
        'd'
    } else if n == 14 {
        'e'
    } else {
        'f'
    }
}

/// Lowercase hexadecimal text of bytes, two digits per byte, high nibble first.
pub open spec fn hex_text(b: Seq<u8>) -> Seq<char>
    decreases b.len(),
{
    if b.len() == 0 {
        Seq::empty()
    } else {
        hex_text(b.drop_last()) + seq![hex_digit((b.last() / 16) as nat), hex_digit((b.last() % 16) as nat)]
    }
}

/// A lowercase hexadecimal digit.
pub open spec fn is_lower_hex(c: char) -> bool {
    is_digit(c) || 'a' <= c <= 'f'
}

/// A hexadecimal digit of either case.
pub open spec fn is_hex(c: char) -> bool {
    is_lower_hex(c) || 'A' <= c <= 'F'
}

/// Value of a hexadecimal digit.
pub open spec fn hex_value(c: char) -> nat {
    if is_digit(c) {
        (c as int - '0' as int) as nat
    } else if 'a' <= c <= 'f' {
        (c as int - 'a' as int + 10) as nat
    } else {
        (c as int - 'A' as int + 10) as nat
    }
}

/// Bytes denoted by hexadecimal text of even length.
pub open spec fn hex_bytes(s: Seq<char>) -> Seq<u8>
    decreases s.len(),
{
    if s.len() < 2 {
        Seq::empty()
    } else {
        hex_bytes(s.subrange(0, s.len() - 2)) + seq![
            (hex_value(s[s.len() - 2]) * 16 + hex_value(s[s.len() - 1])) as u8,
        ]
    }
}

/// Calls `hex::encode`, which writes each byte as two lowercase hexadecimal digits.
#[verifier::external_body]
fn hex_encode(data: &[u8]) -> (s: String)
    ensures
        s@ == hex_text(data@),
{
    hex::encode(data)
}

/// Calls `hex::decode` on the bytes of `s`; it accepts an even number of hexadecimal
/// digits of either case and rejects anything else.
#[verifier::external_body]
fn hex_decode(s: &str) -> (r: Result<Vec<u8>, hex::FromHexError>)
    ensures
        r is Ok <==> (s@.len() % 2 == 0 && forall|i: int| 0 <= i < s@.len() ==> #[trigger] is_hex(s@[i])),
        r matches Ok(v) ==> v@ == hex_bytes(s@),
{
    hex::decode(s)
}

/// The digest bytes that canonical digest text denotes: exactly 64 lowercase hexadecimal digits.
pub open spec fn digest_from_text(s: Seq<char>) -> Option<Seq<u8>> {
    if s.len() == 64 && forall|i: int| 0 <= i < s.len() ==> #[trigger] is_lower_hex(s[i]) {
        Some(hex_bytes(s))
    } else {
        None
    }
}

/// A SHA-256 digest with exactly 32 bytes and canonical lowercase hexadecimal text.
#[derive(Debug, Clone, Copy, PartialEq, Eq, PartialOrd, Ord, Hash)]
pub struct Sha256Digest([u8; 32]);

impl View for Sha256Digest {
    type V = Seq<u8>;

    closed spec fn view(&self) -> Seq<u8> {
        self.0@
    }
}

/// Digests are equal exactly when their bytes are.
pub broadcast proof fn lemma_digest_view_injective(a: Sha256Digest, b: Sha256Digest)
    ensures
        #![trigger a@, b@]
        a@ == b@ <==> a == b,
{
    broadcast use vstd::array::axiom_array_ext_equal;

    if a@ == b@ {
        assert(a.0 =~= b.0);
    }
}

/// Every digest holds 32 bytes.
pub broadcast proof fn lemma_digest_len(d: Sha256Digest)
    ensures
        #[trigger] d@.len() == 32,
{
}

impl Sha256Digest {
    /// True when both digests hold the same bytes.
    pub fn same_as(&self, other: &Sha256Digest) -> (r: bool)
        ensures
            r == (self == other),
    {
        let mut i: usize = 0;
        while i < 32
            invariant
                i <= 32,
                forall|j: int| 0 <= j < i ==> self.0@[j] == other.0@[j],
            decreases 32 - i,
        {
            if self.0[i] != other.0[i] {
                return false;
            }
            i = i + 1;
        }
        proof {
            broadcast use vstd::array::axiom_array_ext_equal;

            assert(self.0 =~= other.0);
        }
        true
    }

    /// Hashes bytes.
    pub fn of_bytes(bytes: &[u8]) -> (d: Self)
        ensures
            d@ == sha256(bytes@),
    {
        Sha256Digest(sha256_bytes(bytes))
    }

    /// Creates a digest from its exact bytes.
    pub fn from_bytes(bytes: [u8; 32]) -> (d: Self)
        ensures
            d@ == bytes@,
    {
        Sha256Digest(bytes)
    }

    /// Returns the exact digest bytes.
    pub fn as_bytes(&self) -> (b: &[u8; 32])
        ensures
            b@ == self@,
    {
        &self.0
    }

    /// Returns canonical lowercase hexadecimal text.
    pub fn to_hex(self) -> (s: String)
        ensures
            s@ == hex_text(self@),
    {
        hex_encode(&self.0)
    }

    /// Returns canonical lowercase hexadecimal text.
    pub fn to_string(&self) -> (s: String)
        ensures
            s@ == hex_text(self@),
    {
        hex_encode(&self.0)
    }

    /// Parses canonical text: exactly 64 lowercase hexadecimal digits.
    pub fn parse(input: &str) -> (r: Result<Self, CoreError>)
        ensures
            match digest_from_text(input@) {
                Some(b) => r is Ok && r->Ok_0@ == b,
                None => r is Err && r->Err_0.is_invalid_text("SHA-256 digest"@, input@),
            },
    {
        let v = chars_of(input);
        if v.len() != 64 {
            return Err(digest_error(input));
        }
        let mut i: usize = 0;
        while i < v.len()
            invariant
                i <= v@.len(),
                v@ == input@,
                forall|j: int| 0 <= j < i ==> #[trigger] is_lower_hex(v@[j]),
            decreases v@.len() - i,
        {
            let c = v[i];
            if !(('0' <= c && c <= '9') || ('a' <= c && c <= 'f')) {
                assert(!is_lower_hex(v@[i as int]));
                return Err(digest_error(input));
            }
            i = i + 1;
        }
        let decoded = hex_decode(input);
        match decoded {
            Ok(bytes) => {
                proof {
                    lemma_hex_bytes_len(input@);
                }
                Ok(Sha256Digest(array32(&bytes)))
            },
            Err(_) => Err(digest_error(input)),
        }
    }
}

impl std::str::FromStr for Sha256Digest {
    type Err = CoreError;

    fn from_str(input: &str) -> (r: Result<Self, Self::Err>)
        ensures
            match digest_from_text(input@) {
                Some(b) => r is Ok && r->Ok_0@ == b,
                None => r is Err && r->Err_0.is_invalid_text("SHA-256 digest"@, input@),
            },
    {
        Sha256Digest::parse(input)
    }
}

/// The error for non-canonical digest text.
fn digest_error(input: &str) -> (e: CoreError)
    ensures
        e.is_invalid_text("SHA-256 digest"@, input@),
{
    CoreError::InvalidText {
        kind: "SHA-256 digest",
        value: input.to_owned(),
        reason: "expected exactly 64 lowercase hexadecimal digits",
    }
}

/// Hexadecimal text of even length denotes half as many bytes.
proof fn lemma_hex_bytes_len(s: Seq<char>)
    requires
        s.len() % 2 == 0,
    ensures
        hex_bytes(s).len() == s.len() / 2,
    decreases s.len(),
{
    if s.len() >= 2 {
        lemma_hex_bytes_len(s.subrange(0, s.len() - 2));
    }
}

/// Copies exactly 32 bytes into an array.
fn array32(v: &Vec<u8>) -> (a: [u8; 32])
    requires
        v@.len() == 32,
    ensures
        a@ == v@,
{
    let a = [
        v[0], v[1], v[2], v[3], v[4], v[5], v[6], v[7], v[8], v[9], v[10], v[11], v[12], v[13],
        v[14], v[15], v[16], v[17], v[18], v[19], v[20], v[21], v[22], v[23], v[24], v[25], v[26],
        v[27], v[28], v[29], v[30], v[31],
    ];
    assert(a@ =~= v@);
    a
}

/// Canonical text of any 32 bytes parses back to the same bytes.
pub proof fn lemma_digest_text_round_trip(b: Seq<u8>)
    requires
        b.len() == 32,
    ensures
        digest_from_text(hex_text(b)) == Some(b),
{
    lemma_hex_round_trip(b);
}

/// Hexadecimal text of bytes is lowercase, twice as long, and decodes to the bytes.
pub proof fn lemma_hex_round_trip(b: Seq<u8>)
    ensures
        hex_text(b).len() == 2 * b.len(),
        forall|i: int| 0 <= i < hex_text(b).len() ==> #[trigger] is_lower_hex(hex_text(b)[i]),
        hex_bytes(hex_text(b)) == b,
    decreases b.len(),
{
    if b.len() > 0 {
        let prev = b.drop_last();
        lemma_hex_round_trip(prev);
        let t = hex_text(b);
        let hi = (b.last() / 16) as nat;
        let lo = (b.last() % 16) as nat;
        assert(t == hex_text(prev) + seq![hex_digit(hi), hex_digit(lo)]);
        assert(t.subrange(0, t.len() - 2) == hex_text(prev));
        assert(hex_value(hex_digit(hi)) == hi);
        assert(hex_value(hex_digit(lo)) == lo);
        assert(is_lower_hex(hex_digit(hi)) && is_lower_hex(hex_digit(lo)));
        assert(hi * 16 + lo == b.last() as nat);
        assert(b == prev.push(b.last()));
    } else {
        assert(hex_text(b) =~= Seq::<char>::empty());
        assert(hex_bytes(Seq::<char>::empty()) =~= Seq::<u8>::empty());
    }
}

} // verus!
