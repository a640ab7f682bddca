//! Stable, domain-separated content identities.

use vstd::prelude::*;

use crate::canonical::{owned, push_str};
use crate::digest::{digest_from_text, hex_text, lemma_digest_text_round_trip, sha256, Sha256Digest};
use crate::error::CoreError;
use crate::text::{chars_of, push_char, string_from_chars};

verus! {

/// The eight big-endian bytes of a 64-bit length, most significant first.
pub open spec fn be_digits(n: nat, k: nat) -> Seq<u8>
    decreases k,
{
    if k == 0 {
        Seq::empty()
    } else {
        be_digits(n / 256, (k - 1) as nat).push((n % 256) as u8)
    }
}

/// One part as hashed: its length as a big-endian `u64`, then its bytes.
pub open spec fn frame(part: Seq<u8>) -> Seq<u8> {
    be_digits(part.len(), 8) + part
}

/// All parts, each framed by its length, in order.
pub open spec fn framed(parts: Seq<Seq<u8>>) -> Seq<u8> {
    parts.map_values(|p: Seq<u8>| frame(p)).flatten()
}

/// The bytes hashed for an identity: the UTF-8 domain prefix, a zero byte, then the framed parts.
pub open spec fn id_preimage(prefix: Seq<char>, parts: Seq<Seq<u8>>) -> Seq<u8> {
    vstd::utf8::encode_utf8(prefix).push(0u8) + framed(parts)
}

/// The text of a derived identity: the prefix, '_', and the lowercase hexadecimal SHA-256 of the preimage.
pub open spec fn stable_id_text(prefix: Seq<char>, parts: Seq<Seq<u8>>) -> Seq<char> {
    prefix + seq!['_'] + hex_text(sha256(id_preimage(prefix, parts)))
}

/// The byte views of borrowed parts.
pub open spec fn parts_view(parts: Seq<&[u8]>) -> Seq<Seq<u8>> {
    parts.map_values(|p: &[u8]| p@)
}

/// The digest text after `prefix` and '_', when `s` starts with them.
pub open spec fn id_digest_part(prefix: Seq<char>, s: Seq<char>) -> Option<Seq<char>> {
    if prefix.len() < s.len() && s.take(prefix.len() as int) == prefix && s[prefix.len() as int] == '_' {
        Some(s.skip(prefix.len() as int + 1))
    } else {
        None
    }
}

/// Canonical identity text of one domain: the prefix, '_', and 64 lowercase hexadecimal digits.
pub open spec fn id_text_valid(prefix: Seq<char>, s: Seq<char>) -> bool {
    &&& id_digest_part(prefix, s) is Some
    &&& digest_from_text(id_digest_part(prefix, s)->0) is Some
}

/// Appends the `k` low-order bytes of `n`, most significant first.
pub(crate) fn push_be(out: &mut Vec<u8>, n: u64, k: usize)
    requires
        k <= 8,
    ensures
        final(out)@ == old(out)@ + be_digits(n as nat, k as nat),
    decreases k,
{
    if k > 0 {
        push_be(out, n / 256, k - 1);
        let b = (n % 256) as u8;
        out.push(b);
        assert(be_digits(n as nat, k as nat) == be_digits((n / 256) as nat, (k - 1) as nat).push(b));
        assert(old(out)@ + be_digits(n as nat, k as nat) =~= (old(out)@ + be_digits(
            (n / 256) as nat,
            (k - 1) as nat,
        )).push(b));
    } else {
        assert(old(out)@ + be_digits(n as nat, 0) =~= old(out)@);
    }
}

/// Appends every byte of `src`.
fn push_all(out: &mut Vec<u8>, src: &[u8])
    ensures
        final(out)@ == old(out)@ + src@,
{
    let ghost start = out@;
    let mut i: usize = 0;
    while i < src.len()
        invariant
            i <= src@.len(),
            out@ == start + src@.take(i as int),
        decreases src@.len() - i,
    {
        out.push(src[i]);
        assert(src@.take(i + 1) == src@.take(i as int).push(src@[i as int]));
        i = i + 1;
    }
    assert(src@.take(i as int) == src@);
}

/// Derives the identity text of `prefix` over length-framed `parts`.
fn derive_id(prefix: &str, parts: &[&[u8]]) -> (s: String)
    ensures
        s@ == stable_id_text(prefix@, parts_view(parts@)),
        sha256(id_preimage(prefix@, parts_view(parts@))).len() == 32,
{
    let ghost pv = parts_view(parts@);
    let mut bytes: Vec<u8> = Vec::new();
    push_all(&mut bytes, prefix.as_bytes());
    bytes.push(0u8);
    let mut i: usize = 0;
    while i < parts.len()
        invariant
            i <= parts@.len(),
            pv == parts_view(parts@),
            bytes@ == vstd::utf8::encode_utf8(prefix@).push(0u8) + framed(pv.take(i as int)),
        decreases parts@.len() - i,
    {
        let part: &[u8] = parts[i];
        let ghost before = bytes@;
        push_be(&mut bytes, part.len() as u64, 8);
        push_all(&mut bytes, part);
        proof {
            let f = |p: Seq<u8>| frame(p);
            assert(pv.take(i + 1) == pv.take(i as int).push(part@));
            assert(pv.take(i + 1).map_values(f) == pv.take(i as int).map_values(f).push(frame(part@)));
            pv.take(i as int).map_values(f).lemma_flatten_push(frame(part@));
            assert(bytes@ =~= before + frame(part@));
        }
        i = i + 1;
    }
    assert(pv.take(i as int) == pv);
    let digest = Sha256Digest::of_bytes(bytes.as_slice());
    let hex = digest.to_hex();
    let mut s = owned(prefix);
    push_char(&mut s, '_');
    push_str(&mut s, hex.as_str());
    proof {
        crate::digest::lemma_digest_len(digest);
    }
    s
}

/// Checks that `input` is `prefix`, '_', and canonical digest text.
fn validate_id(prefix: &str, input: &str) -> (r: Result<(), CoreError>)
    ensures
        match id_digest_part(prefix@, input@) {
            None => r is Err && r->Err_0.is_invalid_text("stable ID"@, input@),
            Some(d) => match digest_from_text(d) {
                Some(_) => r is Ok,
                None => r is Err && r->Err_0.is_invalid_text("SHA-256 digest"@, d),
            },
        },
{
    let p = chars_of(prefix);
    let v = chars_of(input);
    let mut ok = p.len() < v.len();
    let mut i: usize = 0;
    while ok && i < p.len()
        invariant
            p@ == prefix@,
            v@ == input@,
            i <= p@.len(),
            ok ==> p@.len() < v@.len() && forall|j: int| 0 <= j < i ==> v@[j] == p@[j],
            !ok ==> id_digest_part(prefix@, input@) is None,
        decreases p@.len() - i,
    {
        if v[i] != p[i] {
            assert(v@.take(p@.len() as int)[i as int] != p@[i as int]);
            ok = false;
        }
        i = i + 1;
    }
    if ok {
        assert(v@.take(p@.len() as int) =~= p@);
    }
    if !ok || v[p.len()] != '_' {
        return Err(
            CoreError::InvalidText {
                kind: "stable ID",
                value: input.to_owned(),
                reason: "invalid domain prefix",
            },
        );
    }
    let mut rest: Vec<char> = Vec::new();
    let mut k: usize = p.len() + 1;
    while k < v.len()
        invariant
            p@.len() as int + 1 <= k <= v@.len(),
            rest@ == v@.subrange(p@.len() as int + 1, k as int),
        decreases v@.len() - k,
    {
        rest.push(v[k]);
        assert(v@.subrange(p@.len() as int + 1, k + 1) == v@.subrange(p@.len() as int + 1, k as int).push(v@[k as int]));
        k = k + 1;
    }
    assert(rest@ =~= input@.skip(prefix@.len() as int + 1));
    let digest = string_from_chars(rest.as_slice());
    match Sha256Digest::parse(digest.as_str()) {
        Ok(_) => Ok(()),
        Err(e) => Err(e),
    }
}

/// Canonical identity text has the prefix, the separator, and 64 digest digits.
proof fn lemma_id_text_len(prefix: Seq<char>, s: Seq<char>)
    requires
        id_text_valid(prefix, s),
    ensures
        s.len() == prefix.len() + 65,
{
}

/// A derived identity text is canonical for its own domain.
proof fn lemma_derived_is_valid(prefix: Seq<char>, parts: Seq<Seq<u8>>)
    requires
        sha256(id_preimage(prefix, parts)).len() == 32,
    ensures
        id_text_valid(prefix, stable_id_text(prefix, parts)),
        id_digest_part(prefix, stable_id_text(prefix, parts)) == Some(
            hex_text(sha256(id_preimage(prefix, parts))),
        ),
{
    let h = hex_text(sha256(id_preimage(prefix, parts)));
    let s = stable_id_text(prefix, parts);
    lemma_digest_text_round_trip(sha256(id_preimage(prefix, parts)));
    crate::digest::lemma_hex_round_trip(sha256(id_preimage(prefix, parts)));
    assert(s.take(prefix.len() as int) =~= prefix);
    assert(s.skip(prefix.len() as int + 1) =~= h);
}

/// 256 to the power `k`: the count of values `k` bytes can hold.
spec fn byte_range(k: nat) -> nat
    decreases k,
{
    if k == 0 {
        1
    } else {
        256 * byte_range((k - 1) as nat)
    }
}

/// Big-endian encodings of numbers below 256^k are distinct.
proof fn lemma_be_digits_injective(n: nat, m: nat, k: nat)
    requires
        n < byte_range(k),
        m < byte_range(k),
        be_digits(n, k) == be_digits(m, k),
    ensures
        n == m,
    decreases k,
{
    if k > 0 {
        let a = be_digits(n / 256, (k - 1) as nat);
        let b = be_digits(m / 256, (k - 1) as nat);
        assert(be_digits(n, k) == a.push((n % 256) as u8));
        assert(be_digits(m, k) == b.push((m % 256) as u8));
        assert(a == be_digits(n, k).drop_last());
        assert(b == be_digits(m, k).drop_last());
        lemma_be_digits_len(n / 256, (k - 1) as nat);
        lemma_be_digits_len(m / 256, (k - 1) as nat);
        assert(be_digits(n, k).last() == (n % 256) as u8);
        assert(be_digits(m, k).last() == (m % 256) as u8);
        assert(n % 256 == m % 256);
        let p = byte_range((k - 1) as nat);
        assert(n / 256 < p) by (nonlinear_arith)
            requires
                n < 256 * p,
        ;
        assert(m / 256 < p) by (nonlinear_arith)
            requires
                m < 256 * p,
        ;
        lemma_be_digits_injective(n / 256, m / 256, (k - 1) as nat);
        assert(n == 256 * (n / 256) + n % 256);
        assert(m == 256 * (m / 256) + m % 256);
    }
}

/// Every encoding has exactly `k` bytes.
proof fn lemma_be_digits_len(n: nat, k: nat)
    ensures
        be_digits(n, k).len() == k,
    decreases k,
{
    if k > 0 {
        lemma_be_digits_len(n / 256, (k - 1) as nat);
    }
}

/// Framing is injective: two part lists with equal framed bytes are the same list.
///
/// This is what keeps `["a", "bc"]` and `["ab", "c"]` apart before hashing.
pub proof fn lemma_framing_injective(a: Seq<Seq<u8>>, b: Seq<Seq<u8>>)
    requires
        forall|i: int| 0 <= i < a.len() ==> (#[trigger] a[i]).len() <= u64::MAX,
        forall|i: int| 0 <= i < b.len() ==> (#[trigger] b[i]).len() <= u64::MAX,
        framed(a) == framed(b),
    ensures
        a == b,
    decreases a.len() + b.len(),
{
    let f = |p: Seq<u8>| frame(p);
    if a.len() == 0 || b.len() == 0 {
        if a.len() > 0 {
            lemma_framed_nonempty(a);
        }
        if b.len() > 0 {
            lemma_framed_nonempty(b);
        }
        assert(a =~= b);
    } else {
        lemma_framed_first(a);
        lemma_framed_first(b);
        let fa = framed(a);
        lemma_be_digits_len(a[0].len(), 8);
        lemma_be_digits_len(b[0].len(), 8);
        assert(fa.take(8) == be_digits(a[0].len(), 8));
        assert(fa.take(8) == be_digits(b[0].len(), 8));
        assert(byte_range(8) == 0x1_0000_0000_0000_0000) by {
            reveal_with_fuel(byte_range, 9);
        }
        lemma_be_digits_injective(a[0].len(), b[0].len(), 8);
        let n = a[0].len();
        assert(fa.subrange(8, 8 + n as int) == a[0]);
        assert(fa.subrange(8, 8 + n as int) == b[0]);
        assert(fa.skip(8 + n as int) == framed(a.drop_first()));
        assert(fa.skip(8 + n as int) == framed(b.drop_first()));
        lemma_framing_injective(a.drop_first(), b.drop_first());
        assert(a =~= seq![a[0]] + a.drop_first());
        assert(b =~= seq![b[0]] + b.drop_first());
    }
}

/// Framed bytes start with the first part's frame.
proof fn lemma_framed_first(a: Seq<Seq<u8>>)
    requires
        a.len() > 0,
    ensures
        framed(a) == frame(a[0]) + framed(a.drop_first()),
        frame(a[0]).len() == 8 + a[0].len(),
{
    let f = |p: Seq<u8>| frame(p);
    assert(a.map_values(f).drop_first() =~= a.drop_first().map_values(f));
    assert(a.map_values(f).first() == frame(a[0]));
    lemma_be_digits_len(a[0].len(), 8);
}

/// A nonempty part list frames to at least eight bytes.
proof fn lemma_framed_nonempty(a: Seq<Seq<u8>>)
    requires
        a.len() > 0,
    ensures
        framed(a).len() >= 8,
{
    lemma_framed_first(a);
}

/// Canonical identity text determines its domain: text canonical for two prefixes
/// has the same prefix in both, so no text is an identity of two kinds.
pub proof fn lemma_stable_ids_are_domain_separated(p: Seq<char>, q: Seq<char>, s: Seq<char>)
    requires
        id_text_valid(p, s),
        id_text_valid(q, s),
    ensures
        p == q,
{
    lemma_id_text_len(p, s);
    lemma_id_text_len(q, s);
    assert(p =~= s.take(p.len() as int));
    assert(q =~= s.take(q.len() as int));
}

/// The domain prefix of DocumentId.
pub open spec fn document_prefix() -> Seq<char> {
    seq!['d', 'o', 'c']
}

/// Stable document identity.
#[derive(Debug, PartialEq, Eq, PartialOrd, Ord, Hash)]
pub struct DocumentId(String);

impl View for DocumentId {
    type V = Seq<char>;

    closed spec fn view(&self) -> Seq<char> {
        self.0@
    }
}

impl Clone for DocumentId {
    fn clone(&self) -> (r: Self)
        ensures
            r == *self,
            r@ == self@,
    {
        proof {
            use_type_invariant(self);
        }
        DocumentId(self.0.clone())
    }
}

impl DocumentId {
    #[verifier::type_invariant]
    spec fn well_formed(self) -> bool {
        id_text_valid(document_prefix(), self.0@)
    }

    /// Derives an ID from domain-separated, length-prefixed deterministic bytes.
    pub fn derive(parts: &[&[u8]]) -> (id: Self)
        ensures
            id@ == stable_id_text(document_prefix(), parts_view(parts@)),
            id_text_valid(document_prefix(), id@),
    {
        let prefix = "doc";
        proof {
            reveal_strlit("doc");
            assert(prefix@ == document_prefix());
        }
        let s = derive_id(prefix, parts);
        proof {
            lemma_derived_is_valid(document_prefix(), parts_view(parts@));
        }
        DocumentId(s)
    }

    /// Returns the canonical textual ID.
    pub fn as_str(&self) -> (s: &str)
        ensures
            s@ == self@,
            id_text_valid(document_prefix(), s@),
    {
        proof {
            use_type_invariant(self);
        }
        self.0.as_str()
    }

    /// Returns the canonical textual ID.
    pub fn to_string(&self) -> (s: String)
        ensures
            s@ == self@,
    {
        self.0.clone()
    }

    /// True when both IDs are the same text.
    pub fn same_as(&self, other: &Self) -> (r: bool)
        ensures
            r == (self@ == other@),
    {
        self.0 == other.0
    }

    /// Parses canonical text: the domain prefix, '_', and 64 lowercase hexadecimal digits.
    pub fn parse(input: &str) -> (r: Result<Self, CoreError>)
        ensures
            id_text_valid(document_prefix(), input@) <==> r is Ok,
            r matches Ok(id) ==> id@ == input@,
            id_digest_part(document_prefix(), input@) is None ==> r is Err && r->Err_0.is_invalid_text(
                "stable ID"@,
                input@,
            ),
    {
        let prefix = "doc";
        proof {
            reveal_strlit("doc");
            assert(prefix@ == document_prefix());
        }
        match validate_id(prefix, input) {
            Ok(()) => Ok(DocumentId(input.to_owned())),
            Err(e) => Err(e),
        }
    }
}

impl std::str::FromStr for DocumentId {
    type Err = CoreError;

    fn from_str(input: &str) -> (r: Result<Self, Self::Err>)
        ensures
            id_text_valid(document_prefix(), input@) <==> r is Ok,
            r matches Ok(id) ==> id@ == input@,
            id_digest_part(document_prefix(), input@) is None ==> r is Err && r->Err_0.is_invalid_text(
                "stable ID"@,
                input@,
            ),
    {
        DocumentId::parse(input)
    }
}

/// The domain prefix of PageId.
pub open spec fn page_prefix() -> Seq<char> {
    seq!['p', 'a', 'g', 'e']
}

/// Stable page identity.
#[derive(Debug, PartialEq, Eq, PartialOrd, Ord, Hash)]
pub struct PageId(String);

impl View for PageId {
    type V = Seq<char>;

    closed spec fn view(&self) -> Seq<char> {
        self.0@
    }
}

impl Clone for PageId {
    fn clone(&self) -> (r: Self)
        ensures
            r == *self,
            r@ == self@,
    {
        proof {
            use_type_invariant(self);
        }
        PageId(self.0.clone())
    }
}

impl PageId {
    #[verifier::type_invariant]
    spec fn well_formed(self) -> bool {
        id_text_valid(page_prefix(), self.0@)
    }

    /// Derives an ID from domain-separated, length-prefixed deterministic bytes.
    pub fn derive(parts: &[&[u8]]) -> (id: Self)
        ensures
            id@ == stable_id_text(page_prefix(), parts_view(parts@)),
            id_text_valid(page_prefix(), id@),
    {
        let prefix = "page";
        proof {
            reveal_strlit("page");
            assert(prefix@ == page_prefix());
        }
        let s = derive_id(prefix, parts);
        proof {
            lemma_derived_is_valid(page_prefix(), parts_view(parts@));
        }
        PageId(s)
    }

    /// Returns the canonical textual ID.
    pub fn as_str(&self) -> (s: &str)
        ensures
            s@ == self@,
            id_text_valid(page_prefix(), s@),
    {
        proof {
            use_type_invariant(self);
        }
        self.0.as_str()
    }

    /// Returns the canonical textual ID.
    pub fn to_string(&self) -> (s: String)
        ensures
            s@ == self@,
    {
        self.0.clone()
    }

    /// True when both IDs are the same text.
    pub fn same_as(&self, other: &Self) -> (r: bool)
        ensures
            r == (self@ == other@),
    {
        self.0 == other.0
    }

    /// Parses canonical text: the domain prefix, '_', and 64 lowercase hexadecimal digits.
    pub fn parse(input: &str) -> (r: Result<Self, CoreError>)
        ensures
            id_text_valid(page_prefix(), input@) <==> r is Ok,
            r matches Ok(id) ==> id@ == input@,
            id_digest_part(page_prefix(), input@) is None ==> r is Err && r->Err_0.is_invalid_text(
                "stable ID"@,
                input@,
            ),
    {
        let prefix = "page";
        proof {
            reveal_strlit("page");
            assert(prefix@ == page_prefix());
        }
        match validate_id(prefix, input) {
            Ok(()) => Ok(PageId(input.to_owned())),
            Err(e) => Err(e),
        }
    }
}

impl std::str::FromStr for PageId {
    type Err = CoreError;

    fn from_str(input: &str) -> (r: Result<Self, Self::Err>)
        ensures
            id_text_valid(page_prefix(), input@) <==> r is Ok,
            r matches Ok(id) ==> id@ == input@,
            id_digest_part(page_prefix(), input@) is None ==> r is Err && r->Err_0.is_invalid_text(
                "stable ID"@,
                input@,
            ),
    {
        PageId::parse(input)
    }
}

/// The domain prefix of RegionId.
pub open spec fn region_prefix() -> Seq<char> {
    seq!['r', 'e', 'g', 'i', 'o', 'n']
}

/// Stable region identity.
#[derive(Debug, PartialEq, Eq, PartialOrd, Ord, Hash)]
pub struct RegionId(String);

impl View for RegionId {
    type V = Seq<char>;

    closed spec fn view(&self) -> Seq<char> {
        self.0@
    }
}

impl Clone for RegionId {
    fn clone(&self) -> (r: Self)
        ensures
            r == *self,
            r@ == self@,
    {
        proof {
            use_type_invariant(self);
        }
        RegionId(self.0.clone())
    }
}

impl RegionId {
    #[verifier::type_invariant]
    spec fn well_formed(self) -> bool {
        id_text_valid(region_prefix(), self.0@)
    }

    /// Derives an ID from domain-separated, length-prefixed deterministic bytes.
    pub fn derive(parts: &[&[u8]]) -> (id: Self)
        ensures
            id@ == stable_id_text(region_prefix(), parts_view(parts@)),
            id_text_valid(region_prefix(), id@),
    {
        let prefix = "region";
        proof {
            reveal_strlit("region");
            assert(prefix@ == region_prefix());
        }
        let s = derive_id(prefix, parts);
        proof {
            lemma_derived_is_valid(region_prefix(), parts_view(parts@));
        }
        RegionId(s)
    }

    /// Returns the canonical textual ID.
    pub fn as_str(&self) -> (s: &str)
        ensures
            s@ == self@,
            id_text_valid(region_prefix(), s@),
    {
        proof {
            use_type_invariant(self);
        }
        self.0.as_str()
    }

    /// Returns the canonical textual ID.
    pub fn to_string(&self) -> (s: String)
        ensures
            s@ == self@,
    {
        self.0.clone()
    }

    /// True when both IDs are the same text.
    pub fn same_as(&self, other: &Self) -> (r: bool)
        ensures
            r == (self@ == other@),
    {
        self.0 == other.0
    }

    /// Parses canonical text: the domain prefix, '_', and 64 lowercase hexadecimal digits.
    pub fn parse(input: &str) -> (r: Result<Self, CoreError>)
        ensures
            id_text_valid(region_prefix(), input@) <==> r is Ok,
            r matches Ok(id) ==> id@ == input@,
            id_digest_part(region_prefix(), input@) is None ==> r is Err && r->Err_0.is_invalid_text(
                "stable ID"@,
                input@,
            ),
    {
        let prefix = "region";
        proof {
            reveal_strlit("region");
            assert(prefix@ == region_prefix());
        }
        match validate_id(prefix, input) {
            Ok(()) => Ok(RegionId(input.to_owned())),
            Err(e) => Err(e),
        }
    }
}

impl std::str::FromStr for RegionId {
    type Err = CoreError;

    fn from_str(input: &str) -> (r: Result<Self, Self::Err>)
        ensures
            id_text_valid(region_prefix(), input@) <==> r is Ok,
            r matches Ok(id) ==> id@ == input@,
            id_digest_part(region_prefix(), input@) is None ==> r is Err && r->Err_0.is_invalid_text(
                "stable ID"@,
                input@,
            ),
    {
        RegionId::parse(input)
    }
}

/// The domain prefix of EvidenceId.
pub open spec fn evidence_prefix() -> Seq<char> {
    seq!['e', 'v', 'i', 'd', 'e', 'n', 'c', 'e']
}

/// Stable evidence identity.
#[derive(Debug, PartialEq, Eq, PartialOrd, Ord, Hash)]
pub struct EvidenceId(String);

impl View for EvidenceId {
    type V = Seq<char>;

    closed spec fn view(&self) -> Seq<char> {
        self.0@
    }
}

impl Clone for EvidenceId {
    fn clone(&self) -> (r: Self)
        ensures
            r == *self,
            r@ == self@,
    {
        proof {
            use_type_invariant(self);
        }
        EvidenceId(self.0.clone())
    }
}

impl EvidenceId {
    #[verifier::type_invariant]
    spec fn well_formed(self) -> bool {
        id_text_valid(evidence_prefix(), self.0@)
    }

    /// Derives an ID from domain-separated, length-prefixed deterministic bytes.
    pub fn derive(parts: &[&[u8]]) -> (id: Self)
        ensures
            id@ == stable_id_text(evidence_prefix(), parts_view(parts@)),
            id_text_valid(evidence_prefix(), id@),
    {
        let prefix = "evidence";
        proof {
            reveal_strlit("evidence");
            assert(prefix@ == evidence_prefix());
        }
        let s = derive_id(prefix, parts);
        proof {
            lemma_derived_is_valid(evidence_prefix(), parts_view(parts@));
        }
        EvidenceId(s)
    }

    /// Returns the canonical textual ID.
    pub fn as_str(&self) -> (s: &str)
        ensures
            s@ == self@,
            id_text_valid(evidence_prefix(), s@),
    {
        proof {
            use_type_invariant(self);
        }
        self.0.as_str()
    }

    /// Returns the canonical textual ID.
    pub fn to_string(&self) -> (s: String)
        ensures
            s@ == self@,
    {
        self.0.clone()
    }

    /// True when both IDs are the same text.
    pub fn same_as(&self, other: &Self) -> (r: bool)
        ensures
            r == (self@ == other@),
    {
        self.0 == other.0
    }

    /// Parses canonical text: the domain prefix, '_', and 64 lowercase hexadecimal digits.
    pub fn parse(input: &str) -> (r: Result<Self, CoreError>)
        ensures
            id_text_valid(evidence_prefix(), input@) <==> r is Ok,
            r matches Ok(id) ==> id@ == input@,
            id_digest_part(evidence_prefix(), input@) is None ==> r is Err && r->Err_0.is_invalid_text(
                "stable ID"@,
                input@,
            ),
    {
        let prefix = "evidence";
        proof {
            reveal_strlit("evidence");
            assert(prefix@ == evidence_prefix());
        }
        match validate_id(prefix, input) {
            Ok(()) => Ok(EvidenceId(input.to_owned())),
            Err(e) => Err(e),
        }
    }
}

impl std::str::FromStr for EvidenceId {
    type Err = CoreError;

    fn from_str(input: &str) -> (r: Result<Self, Self::Err>)
        ensures
            id_text_valid(evidence_prefix(), input@) <==> r is Ok,
            r matches Ok(id) ==> id@ == input@,
            id_digest_part(evidence_prefix(), input@) is None ==> r is Err && r->Err_0.is_invalid_text(
                "stable ID"@,
                input@,
            ),
    {
        EvidenceId::parse(input)
    }
}

/// The domain prefix of ModelId.
pub open spec fn model_prefix() -> Seq<char> {
    seq!['m', 'o', 'd', 'e', 'l']
}

/// Stable model identity.
#[derive(Debug, PartialEq, Eq, PartialOrd, Ord, Hash)]
pub struct ModelId(String);

impl View for ModelId {
    type V = Seq<char>;

    closed spec fn view(&self) -> Seq<char> {
        self.0@
    }
}

impl Clone for ModelId {
    fn clone(&self) -> (r: Self)
        ensures
            r == *self,
            r@ == self@,
    {
        proof {
            use_type_invariant(self);
        }
        ModelId(self.0.clone())
    }
}

impl ModelId {
    #[verifier::type_invariant]
    spec fn well_formed(self) -> bool {
        id_text_valid(model_prefix(), self.0@)
    }

    /// Derives an ID from domain-separated, length-prefixed deterministic bytes.
    pub fn derive(parts: &[&[u8]]) -> (id: Self)
        ensures
            id@ == stable_id_text(model_prefix(), parts_view(parts@)),
            id_text_valid(model_prefix(), id@),
    {
        let prefix = "model";
        proof {
            reveal_strlit("model");
            assert(prefix@ == model_prefix());
        }
        let s = derive_id(prefix, parts);
        proof {
            lemma_derived_is_valid(model_prefix(), parts_view(parts@));
        }
        ModelId(s)
    }

    /// Returns the canonical textual ID.
    pub fn as_str(&self) -> (s: &str)
        ensures
            s@ == self@,
            id_text_valid(model_prefix(), s@),
    {
        proof {
            use_type_invariant(self);
        }
        self.0.as_str()
    }

    /// Returns the canonical textual ID.
    pub fn to_string(&self) -> (s: String)
        ensures
            s@ == self@,
    {
        self.0.clone()
    }

    /// True when both IDs are the same text.
    pub fn same_as(&self, other: &Self) -> (r: bool)
        ensures
            r == (self@ == other@),
    {
        self.0 == other.0
    }

    /// Parses canonical text: the domain prefix, '_', and 64 lowercase hexadecimal digits.
    pub fn parse(input: &str) -> (r: Result<Self, CoreError>)
        ensures
            id_text_valid(model_prefix(), input@) <==> r is Ok,
            r matches Ok(id) ==> id@ == input@,
            id_digest_part(model_prefix(), input@) is None ==> r is Err && r->Err_0.is_invalid_text(
                "stable ID"@,
                input@,
            ),
    {
        let prefix = "model";
        proof {
            reveal_strlit("model");
            assert(prefix@ == model_prefix());
        }
        match validate_id(prefix, input) {
            Ok(()) => Ok(ModelId(input.to_owned())),
            Err(e) => Err(e),
        }
    }
}

impl std::str::FromStr for ModelId {
    type Err = CoreError;

    fn from_str(input: &str) -> (r: Result<Self, Self::Err>)
        ensures
            id_text_valid(model_prefix(), input@) <==> r is Ok,
            r matches Ok(id) ==> id@ == input@,
            id_digest_part(model_prefix(), input@) is None ==> r is Err && r->Err_0.is_invalid_text(
                "stable ID"@,
                input@,
            ),
    {
        ModelId::parse(input)
    }
}

/// The domain prefix of RequestId.
pub open spec fn request_prefix() -> Seq<char> {
    seq!['r', 'e', 'q', 'u', 'e', 's', 't']
}

/// Stable request identity.
#[derive(Debug, PartialEq, Eq, PartialOrd, Ord, Hash)]
pub struct RequestId(String);

impl View for RequestId {
    type V = Seq<char>;

    closed spec fn view(&self) -> Seq<char> {
        self.0@
    }
}

impl Clone for RequestId {
    fn clone(&self) -> (r: Self)
        ensures
            r == *self,
            r@ == self@,
    {
        proof {
            use_type_invariant(self);
        }
        RequestId(self.0.clone())
    }
}

impl RequestId {
    #[verifier::type_invariant]
    spec fn well_formed(self) -> bool {
        id_text_valid(request_prefix(), self.0@)
    }

    /// Derives an ID from domain-separated, length-prefixed deterministic bytes.
    pub fn derive(parts: &[&[u8]]) -> (id: Self)
        ensures
            id@ == stable_id_text(request_prefix(), parts_view(parts@)),
            id_text_valid(request_prefix(), id@),
    {
        let prefix = "request";
        proof {
            reveal_strlit("request");
            assert(prefix@ == request_prefix());
        }
        let s = derive_id(prefix, parts);
        proof {
            lemma_derived_is_valid(request_prefix(), parts_view(parts@));
        }
        RequestId(s)
    }

    /// Returns the canonical textual ID.
    pub fn as_str(&self) -> (s: &str)
        ensures
            s@ == self@,
            id_text_valid(request_prefix(), s@),
    {
        proof {
            use_type_invariant(self);
        }
        self.0.as_str()
    }

    /// Returns the canonical textual ID.
    pub fn to_string(&self) -> (s: String)
        ensures
            s@ == self@,
    {
        self.0.clone()
    }

    /// True when both IDs are the same text.
    pub fn same_as(&self, other: &Self) -> (r: bool)
        ensures
            r == (self@ == other@),
    {
        self.0 == other.0
    }

    /// Parses canonical text: the domain prefix, '_', and 64 lowercase hexadecimal digits.
    pub fn parse(input: &str) -> (r: Result<Self, CoreError>)
        ensures
            id_text_valid(request_prefix(), input@) <==> r is Ok,
            r matches Ok(id) ==> id@ == input@,
            id_digest_part(request_prefix(), input@) is None ==> r is Err && r->Err_0.is_invalid_text(
                "stable ID"@,
                input@,
            ),
    {
        let prefix = "request";
        proof {
            reveal_strlit("request");
            assert(prefix@ == request_prefix());
        }
        match validate_id(prefix, input) {
            Ok(()) => Ok(RequestId(input.to_owned())),
            Err(e) => Err(e),
        }
    }
}

impl std::str::FromStr for RequestId {
    type Err = CoreError;

    fn from_str(input: &str) -> (r: Result<Self, Self::Err>)
        ensures
            id_text_valid(request_prefix(), input@) <==> r is Ok,
            r matches Ok(id) ==> id@ == input@,
            id_digest_part(request_prefix(), input@) is None ==> r is Err && r->Err_0.is_invalid_text(
                "stable ID"@,
                input@,
            ),
    {
        RequestId::parse(input)
    }
}

/// The domain prefix of LayerId.
pub open spec fn layer_prefix() -> Seq<char> {
    seq!['l', 'a', 'y', 'e', 'r']
}

/// Stable source layer identity.
#[derive(Debug, PartialEq, Eq, PartialOrd, Ord, Hash)]
pub struct LayerId(String);

impl View for LayerId {
    type V = Seq<char>;

    closed spec fn view(&self) -> Seq<char> {
        self.0@
    }
}

impl Clone for LayerId {
    fn clone(&self) -> (r: Self)
        ensures
            r == *self,
            r@ == self@,
    {
        proof {
            use_type_invariant(self);
        }
        LayerId(self.0.clone())
    }
}

impl LayerId {
    #[verifier::type_invariant]
    spec fn well_formed(self) -> bool {
        id_text_valid(layer_prefix(), self.0@)
    }

    /// Derives an ID from domain-separated, length-prefixed deterministic bytes.
    pub fn derive(parts: &[&[u8]]) -> (id: Self)
        ensures
            id@ == stable_id_text(layer_prefix(), parts_view(parts@)),
            id_text_valid(layer_prefix(), id@),
    {
        let prefix = "layer";
        proof {
            reveal_strlit("layer");
            assert(prefix@ == layer_prefix());
        }
        let s = derive_id(prefix, parts);
        proof {
            lemma_derived_is_valid(layer_prefix(), parts_view(parts@));
        }
        LayerId(s)
    }

    /// Returns the canonical textual ID.
    pub fn as_str(&self) -> (s: &str)
        ensures
            s@ == self@,
            id_text_valid(layer_prefix(), s@),
    {
        proof {
            use_type_invariant(self);
        }
        self.0.as_str()
    }

    /// Returns the canonical textual ID.
    pub fn to_string(&self) -> (s: String)
        ensures
            s@ == self@,
    {
        self.0.clone()
    }

    /// True when both IDs are the same text.
    pub fn same_as(&self, other: &Self) -> (r: bool)
        ensures
            r == (self@ == other@),
    {
        self.0 == other.0
    }

    /// Parses canonical text: the domain prefix, '_', and 64 lowercase hexadecimal digits.
    pub fn parse(input: &str) -> (r: Result<Self, CoreError>)
        ensures
            id_text_valid(layer_prefix(), input@) <==> r is Ok,
            r matches Ok(id) ==> id@ == input@,
            id_digest_part(layer_prefix(), input@) is None ==> r is Err && r->Err_0.is_invalid_text(
                "stable ID"@,
                input@,
            ),
    {
        let prefix = "layer";
        proof {
            reveal_strlit("layer");
            assert(prefix@ == layer_prefix());
        }
        match validate_id(prefix, input) {
            Ok(()) => Ok(LayerId(input.to_owned())),
            Err(e) => Err(e),
        }
    }
}

impl std::str::FromStr for LayerId {
    type Err = CoreError;

    fn from_str(input: &str) -> (r: Result<Self, Self::Err>)
        ensures
            id_text_valid(layer_prefix(), input@) <==> r is Ok,
            r matches Ok(id) ==> id@ == input@,
            id_digest_part(layer_prefix(), input@) is None ==> r is Err && r->Err_0.is_invalid_text(
                "stable ID"@,
                input@,
            ),
    {
        LayerId::parse(input)
    }
}

/// The domain prefix of ArtifactId.
pub open spec fn artifact_prefix() -> Seq<char> {
    seq!['a', 'r', 't', 'i', 'f', 'a', 'c', 't']
}

/// Stable render artifact identity.
#[derive(Debug, PartialEq, Eq, PartialOrd, Ord, Hash)]
pub struct ArtifactId(String);

impl View for ArtifactId {
    type V = Seq<char>;

    closed spec fn view(&self) -> Seq<char> {
        self.0@
    }
}

impl Clone for ArtifactId {
    fn clone(&self) -> (r: Self)
        ensures
            r == *self,
            r@ == self@,
    {
        proof {
            use_type_invariant(self);
        }
        ArtifactId(self.0.clone())
    }
}

impl ArtifactId {
    #[verifier::type_invariant]
    spec fn well_formed(self) -> bool {
        id_text_valid(artifact_prefix(), self.0@)
    }

    /// Derives an ID from domain-separated, length-prefixed deterministic bytes.
    pub fn derive(parts: &[&[u8]]) -> (id: Self)
        ensures
            id@ == stable_id_text(artifact_prefix(), parts_view(parts@)),
            id_text_valid(artifact_prefix(), id@),
    {
        let prefix = "artifact";
        proof {
            reveal_strlit("artifact");
            assert(prefix@ == artifact_prefix());
        }
        let s = derive_id(prefix, parts);
        proof {
            lemma_derived_is_valid(artifact_prefix(), parts_view(parts@));
        }
        ArtifactId(s)
    }

    /// Returns the canonical textual ID.
    pub fn as_str(&self) -> (s: &str)
        ensures
            s@ == self@,
            id_text_valid(artifact_prefix(), s@),
    {
        proof {
            use_type_invariant(self);
        }
        self.0.as_str()
    }

    /// Returns the canonical textual ID.
    pub fn to_string(&self) -> (s: String)
        ensures
            s@ == self@,
    {
        self.0.clone()
    }

    /// True when both IDs are the same text.
    pub fn same_as(&self, other: &Self) -> (r: bool)
        ensures
            r == (self@ == other@),
    {
        self.0 == other.0
    }

    /// Parses canonical text: the domain prefix, '_', and 64 lowercase hexadecimal digits.
    pub fn parse(input: &str) -> (r: Result<Self, CoreError>)
        ensures
            id_text_valid(artifact_prefix(), input@) <==> r is Ok,
            r matches Ok(id) ==> id@ == input@,
            id_digest_part(artifact_prefix(), input@) is None ==> r is Err && r->Err_0.is_invalid_text(
                "stable ID"@,
                input@,
            ),
    {
        let prefix = "artifact";
        proof {
            reveal_strlit("artifact");
            assert(prefix@ == artifact_prefix());
        }
        match validate_id(prefix, input) {
            Ok(()) => Ok(ArtifactId(input.to_owned())),
            Err(e) => Err(e),
        }
    }
}

impl std::str::FromStr for ArtifactId {
    type Err = CoreError;

    fn from_str(input: &str) -> (r: Result<Self, Self::Err>)
        ensures
            id_text_valid(artifact_prefix(), input@) <==> r is Ok,
            r matches Ok(id) ==> id@ == input@,
            id_digest_part(artifact_prefix(), input@) is None ==> r is Err && r->Err_0.is_invalid_text(
                "stable ID"@,
                input@,
            ),
    {
        ArtifactId::parse(input)
    }
}

/// The domain prefix of DocumentStateId.
pub open spec fn document_state_prefix() -> Seq<char> {
    seq!['s', 't', 'a', 't', 'e']
}

/// Stable logical document-state identity.
#[derive(Debug, PartialEq, Eq, PartialOrd, Ord, Hash)]
pub struct DocumentStateId(String);

impl View for DocumentStateId {
    type V = Seq<char>;

    closed spec fn view(&self) -> Seq<char> {
        self.0@
    }
}

impl Clone for DocumentStateId {
    fn clone(&self) -> (r: Self)
        ensures
            r == *self,
            r@ == self@,
    {
        proof {
            use_type_invariant(self);
        }
        DocumentStateId(self.0.clone())
    }
}

impl DocumentStateId {
    #[verifier::type_invariant]
    spec fn well_formed(self) -> bool {
        id_text_valid(document_state_prefix(), self.0@)
    }

    /// Derives an ID from domain-separated, length-prefixed deterministic bytes.
    pub fn derive(parts: &[&[u8]]) -> (id: Self)
        ensures
            id@ == stable_id_text(document_state_prefix(), parts_view(parts@)),
            id_text_valid(document_state_prefix(), id@),
    {
        let prefix = "state";
        proof {
            reveal_strlit("state");
            assert(prefix@ == document_state_prefix());
        }
        let s = derive_id(prefix, parts);
        proof {
            lemma_derived_is_valid(document_state_prefix(), parts_view(parts@));
        }
        DocumentStateId(s)
    }

    /// Returns the canonical textual ID.
    pub fn as_str(&self) -> (s: &str)
        ensures
            s@ == self@,
            id_text_valid(document_state_prefix(), s@),
    {
        proof {
            use_type_invariant(self);
        }
        self.0.as_str()
    }

    /// Returns the canonical textual ID.
    pub fn to_string(&self) -> (s: String)
        ensures
            s@ == self@,
    {
        self.0.clone()
    }

    /// True when both IDs are the same text.
    pub fn same_as(&self, other: &Self) -> (r: bool)
        ensures
            r == (self@ == other@),
    {
        self.0 == other.0
    }

    /// Parses canonical text: the domain prefix, '_', and 64 lowercase hexadecimal digits.
    pub fn parse(input: &str) -> (r: Result<Self, CoreError>)
        ensures
            id_text_valid(document_state_prefix(), input@) <==> r is Ok,
            r matches Ok(id) ==> id@ == input@,
            id_digest_part(document_state_prefix(), input@) is None ==> r is Err && r->Err_0.is_invalid_text(
                "stable ID"@,
                input@,
            ),
    {
        let prefix = "state";
        proof {
            reveal_strlit("state");
            assert(prefix@ == document_state_prefix());
        }
        match validate_id(prefix, input) {
            Ok(()) => Ok(DocumentStateId(input.to_owned())),
            Err(e) => Err(e),
        }
    }
}

impl std::str::FromStr for DocumentStateId {
    type Err = CoreError;

    fn from_str(input: &str) -> (r: Result<Self, Self::Err>)
        ensures
            id_text_valid(document_state_prefix(), input@) <==> r is Ok,
            r matches Ok(id) ==> id@ == input@,
            id_digest_part(document_state_prefix(), input@) is None ==> r is Err && r->Err_0.is_invalid_text(
                "stable ID"@,
                input@,
            ),
    {
        DocumentStateId::parse(input)
    }
}

/// The domain prefix of EvidenceDeltaId.
pub open spec fn evidence_delta_prefix() -> Seq<char> {
    seq!['d', 'e', 'l', 't', 'a']
}

/// Stable logical evidence-delta identity.
#[derive(Debug, PartialEq, Eq, PartialOrd, Ord, Hash)]
pub struct EvidenceDeltaId(String);

impl View for EvidenceDeltaId {
    type V = Seq<char>;

    closed spec fn view(&self) -> Seq<char> {
        self.0@
    }
}

impl Clone for EvidenceDeltaId {
    fn clone(&self) -> (r: Self)
        ensures
            r == *self,
            r@ == self@,
    {
        proof {
            use_type_invariant(self);
        }
        EvidenceDeltaId(self.0.clone())
    }
}

impl EvidenceDeltaId {
    #[verifier::type_invariant]
    spec fn well_formed(self) -> bool {
        id_text_valid(evidence_delta_prefix(), self.0@)
    }

    /// Derives an ID from domain-separated, length-prefixed deterministic bytes.
    pub fn derive(parts: &[&[u8]]) -> (id: Self)
        ensures
            id@ == stable_id_text(evidence_delta_prefix(), parts_view(parts@)),
            id_text_valid(evidence_delta_prefix(), id@),
    {
        let prefix = "delta";
        proof {
            reveal_strlit("delta");
            assert(prefix@ == evidence_delta_prefix());
        }
        let s = derive_id(prefix, parts);
        proof {
            lemma_derived_is_valid(evidence_delta_prefix(), parts_view(parts@));
        }
        EvidenceDeltaId(s)
    }

    /// Returns the canonical textual ID.
    pub fn as_str(&self) -> (s: &str)
        ensures
            s@ == self@,
            id_text_valid(evidence_delta_prefix(), s@),
    {
        proof {
            use_type_invariant(self);
        }
        self.0.as_str()
    }

    /// Returns the canonical textual ID.
    pub fn to_string(&self) -> (s: String)
        ensures
            s@ == self@,
    {
        self.0.clone()
    }

    /// True when both IDs are the same text.
    pub fn same_as(&self, other: &Self) -> (r: bool)
        ensures
            r == (self@ == other@),
    {
        self.0 == other.0
    }

    /// Parses canonical text: the domain prefix, '_', and 64 lowercase hexadecimal digits.
    pub fn parse(input: &str) -> (r: Result<Self, CoreError>)
        ensures
            id_text_valid(evidence_delta_prefix(), input@) <==> r is Ok,
            r matches Ok(id) ==> id@ == input@,
            id_digest_part(evidence_delta_prefix(), input@) is None ==> r is Err && r->Err_0.is_invalid_text(
                "stable ID"@,
                input@,
            ),
    {
        let prefix = "delta";
        proof {
            reveal_strlit("delta");
            assert(prefix@ == evidence_delta_prefix());
        }
        match validate_id(prefix, input) {
            Ok(()) => Ok(EvidenceDeltaId(input.to_owned())),
            Err(e) => Err(e),
        }
    }
}

impl std::str::FromStr for EvidenceDeltaId {
    type Err = CoreError;

    fn from_str(input: &str) -> (r: Result<Self, Self::Err>)
        ensures
            id_text_valid(evidence_delta_prefix(), input@) <==> r is Ok,
            r matches Ok(id) ==> id@ == input@,
            id_digest_part(evidence_delta_prefix(), input@) is None ==> r is Err && r->Err_0.is_invalid_text(
                "stable ID"@,
                input@,
            ),
    {
        EvidenceDeltaId::parse(input)
    }
}

} // verus!
