//! PDF input policy and the page facts gathered before rasterization.
//!
//! Parsing and rendering stay with the host's PDF libraries; the limits, the input
//! admission, and the text-derived page hints live here.

use vstd::prelude::*;

use crate::blob::ScopedBlob;
use crate::canonical::owned;
use crate::digest::Sha256Digest;
use crate::quantity::Bytes;
use crate::digest::{hex_digit, sha256};
use crate::ranking::{
    key_before, key_precedes, key_view, lemma_key_asymmetric, lemma_key_irreflexive,
    lemma_key_total, lemma_key_transitive, TextKey,
};
use crate::text::{
    char_from_digit, chars_equal, chars_of, push_char, string_from_chars, trim, trim_range,
};
use vstd::arithmetic::power2::pow2;
use vstd::utf8::encode_utf8;

verus! {

broadcast use Bytes::lemma_spec_new;

/// Resource limits applied while parsing and rendering a PDF.
#[derive(Debug, Clone, PartialEq, Eq)]
pub struct PdfLimits {
    /// Maximum input byte count.
    pub maximum_input_bytes: Bytes,
    /// Maximum accepted page count.
    pub maximum_pages: u32,
    /// Maximum loaded indirect objects.
    pub maximum_objects: u64,
    /// Maximum inherited page-tree walk depth.
    pub maximum_depth: u32,
    /// Maximum raster pixels for one page.
    pub maximum_page_pixels: u64,
}

impl Default for PdfLimits {
    /// 256 MiB of input, 10 000 pages, two million objects, depth 128, and 200 million
    /// pixels per page.
    fn default() -> (l: Self)
        ensures
            l.maximum_input_bytes@ == 256 * Bytes::MIB,
            l.maximum_pages == 10_000,
            l.maximum_objects == 2_000_000,
            l.maximum_depth == 128,
            l.maximum_page_pixels == 200_000_000,
    {
        PdfLimits {
            maximum_input_bytes: Bytes::new(256 * Bytes::MIB),
            maximum_pages: 10_000,
            maximum_objects: 2_000_000,
            maximum_depth: 128,
            maximum_page_pixels: 200_000_000,
        }
    }
}

/// PDF acquisition, parsing, or rendering failure.
#[derive(Debug, Clone, PartialEq, Eq)]
pub enum PdfError {
    /// A configured parser limit was exceeded.
    LimitExceeded {
        /// Limit name.
        limit: &'static str,
        /// Observed value.
        actual: u64,
        /// Configured maximum.
        maximum: u64,
    },
    /// The input is not a structurally valid PDF.
    Malformed(String),
    /// Encrypted input requires credentials and is not accepted by the offline path.
    Encrypted,
    /// The valid PDF uses an unsupported feature or render size.
    Unsupported(String),
    /// Requested page does not exist.
    PageOutOfRange(u32),
}

/// Acquired immutable PDF identity.
#[derive(Debug, Clone, PartialEq, Eq)]
pub struct PdfInput {
    /// Host-scoped input bytes.
    pub blob: ScopedBlob,
    /// Verified whole-input digest.
    pub digest: Sha256Digest,
}

/// Refuses an input larger than the byte limit.
fn check_input_size(actual: u64, limits: &PdfLimits) -> (r: Result<(), PdfError>)
    ensures
        actual <= limits.maximum_input_bytes@ ==> r is Ok,
        actual > limits.maximum_input_bytes@ ==> r == Err::<(), PdfError>(
            PdfError::LimitExceeded {
                limit: "maximum_input_bytes",
                actual,
                maximum: limits.maximum_input_bytes@,
            },
        ),
{
    if actual > limits.maximum_input_bytes.get() {
        Err(
            PdfError::LimitExceeded {
                limit: "maximum_input_bytes",
                actual,
                maximum: limits.maximum_input_bytes.get(),
            },
        )
    } else {
        Ok(())
    }
}

impl PdfInput {
    /// Applies input-size policy before parsing: the scoped range may not exceed the
    /// byte limit.
    pub fn validate(&self, limits: &PdfLimits) -> (r: Result<(), PdfError>)
        ensures
            self.blob.range@.1 <= limits.maximum_input_bytes@ ==> r is Ok,
            self.blob.range@.1 > limits.maximum_input_bytes@ ==> r == Err::<(), PdfError>(
                PdfError::LimitExceeded {
                    limit: "maximum_input_bytes",
                    actual: self.blob.range@.1,
                    maximum: limits.maximum_input_bytes@,
                },
            ),
    {
        check_input_size(self.blob.range.len(), limits)
    }
}

/// Cheap, deterministic classification of a PDF page before OCR.
#[derive(Debug, Clone, Copy, PartialEq, Eq)]
pub enum PageContentHint {
    /// No native text, image invocation, or painted vector path was observed.
    Blank,
    /// Native text was observed without image invocations.
    BornDigital,
    /// Image invocations were observed without native text.
    Scanned,
    /// Native text and image invocations were both observed.
    Hybrid,
    /// Content operators were observed but native text and image evidence were inconclusive.
    OtherContent,
}

/// The snake-case name of a content hint.
pub open spec fn content_hint_text(hint: PageContentHint) -> Seq<char> {
    match hint {
        PageContentHint::Blank => "blank"@,
        PageContentHint::BornDigital => "born_digital"@,
        PageContentHint::Scanned => "scanned"@,
        PageContentHint::Hybrid => "hybrid"@,
        PageContentHint::OtherContent => "other_content"@,
    }
}

/// The snake-case name of a content hint.
pub fn content_hint_name(hint: PageContentHint) -> (s: &'static str)
    ensures
        s@ == content_hint_text(hint),
{
    match hint {
        PageContentHint::Blank => "blank",
        PageContentHint::BornDigital => "born_digital",
        PageContentHint::Scanned => "scanned",
        PageContentHint::Hybrid => "hybrid",
        PageContentHint::OtherContent => "other_content",
    }
}

/// Exact repeated first/last native-line hint across pages; this is not a header/footer decision.
#[derive(Debug, Clone, PartialEq, Eq)]
pub struct RepeatedMarginTextHint {
    /// `first_native_line` or `last_native_line`.
    pub position: String,
    /// Exact normalized line fingerprint; source text is not duplicated in the survey.
    pub text_sha256: Sha256Digest,
    /// Pages on which the exact line occurs in that position.
    pub page_indexes: Vec<u32>,
}

/// Deterministic RGBA8 page raster.
#[derive(Debug, Clone, PartialEq, Eq)]
pub struct RasterPage {
    /// Zero-based page index.
    pub page_index: u32,
    /// Pixel width.
    pub width: u32,
    /// Pixel height.
    pub height: u32,
    /// Row-major opaque RGBA8 bytes.
    pub rgba: Vec<u8>,
}

/// Text without its NUL characters.
pub open spec fn without_nul(s: Seq<char>) -> Seq<char>
    decreases s.len(),
{
    if s.len() == 0 {
        Seq::empty()
    } else if s.last() == '\0' {
        without_nul(s.drop_last())
    } else {
        without_nul(s.drop_last()).push(s.last())
    }
}

/// Native text as recorded: NUL characters removed, then surrounding whitespace trimmed.
pub fn normalize_native_text(text: &str) -> (r: String)
    ensures
        r@ == trim(without_nul(text@)),
{
    let v = chars_of(text);
    let mut kept: Vec<char> = Vec::new();
    let mut i: usize = 0;
    while i < v.len()
        invariant
            i <= v@.len(),
            kept@ == without_nul(v@.take(i as int)),
        decreases v@.len() - i,
    {
        assert(v@.take(i + 1).drop_last() == v@.take(i as int));
        if v[i] != '\0' {
            kept.push(v[i]);
        }
        i = i + 1;
    }
    assert(v@.take(i as int) == v@);
    let (a, b) = trim_range(kept.as_slice(), 0, kept.len());
    assert(kept@.subrange(0, kept@.len() as int) == kept@);
    let mut out: Vec<char> = Vec::new();
    let mut k = a;
    while k < b
        invariant
            a <= k <= b <= kept@.len(),
            out@ == kept@.subrange(a as int, k as int),
        decreases b - k,
    {
        out.push(kept[k]);
        assert(kept@.subrange(a as int, k + 1) == kept@.subrange(a as int, k as int).push(kept@[k as int]));
        k = k + 1;
    }
    string_from_chars(out.as_slice())
}

/// The page-level candidate kinds, in name order: a figure when image or form objects
/// were invoked, a formula when the text holds `=`, `∑`, `∫`, or `√`, a table when it
/// holds `|` or a tab, and a vector graphic when paths were painted.
pub open spec fn candidate_kind_names(text: Seq<char>, xobjects: u64, painted_paths: u64) -> Seq<Seq<char>> {
    (if xobjects > 0 {
        seq!["figure"@]
    } else {
        Seq::empty()
    }) + (if text.contains('=') || text.contains('∑') || text.contains('∫') || text.contains('√') {
        seq!["formula"@]
    } else {
        Seq::empty()
    }) + (if text.contains('|') || text.contains('\t') {
        seq!["table"@]
    } else {
        Seq::empty()
    }) + (if painted_paths > 0 {
        seq!["vector_graphic"@]
    } else {
        Seq::empty()
    })
}

/// The texts of strings.
pub open spec fn string_texts(v: Seq<String>) -> Seq<Seq<char>> {
    Seq::new(v.len(), |i: int| v[i]@)
}

/// True when `v` holds one of the characters.
fn holds_any(v: &Vec<char>, cs: &[char]) -> (r: bool)
    ensures
        r == exists|j: int| 0 <= j < cs@.len() && v@.contains(#[trigger] cs@[j]),
{
    let mut i: usize = 0;
    while i < v.len()
        invariant
            i <= v@.len(),
            forall|k: int, j: int| 0 <= k < i && 0 <= j < cs@.len() ==> v@[k] != cs@[j],
        decreases v@.len() - i,
    {
        let mut j: usize = 0;
        while j < cs.len()
            invariant
                i < v@.len(),
                j <= cs@.len(),
                forall|k: int, l: int| 0 <= k < i && 0 <= l < cs@.len() ==> v@[k] != cs@[l],
                forall|l: int| 0 <= l < j ==> v@[i as int] != cs@[l],
            decreases cs@.len() - j,
        {
            if v[i] == cs[j] {
                assert(v@.contains(cs@[j as int]));
                return true;
            }
            j = j + 1;
        }
        i = i + 1;
    }
    false
}

/// Conservative page-level candidate kinds for later region refinement, in name order.
pub fn candidate_kinds(text: &str, xobjects: u64, painted_paths: u64) -> (r: Vec<String>)
    ensures
        string_texts(r@) == candidate_kind_names(text@, xobjects, painted_paths),
{
    let v = chars_of(text);
    let mut kinds: Vec<String> = Vec::new();
    if xobjects > 0 {
        kinds.push(owned("figure"));
    }
    let ghost k1 = string_texts(kinds@);
    let formula = holds_any(&v, &['=', '∑', '∫', '√']);
    if formula {
        kinds.push(owned("formula"));
    }
    let ghost k2 = string_texts(kinds@);
    let table = holds_any(&v, &['|', '\t']);
    if table {
        kinds.push(owned("table"));
    }
    let ghost k3 = string_texts(kinds@);
    if painted_paths > 0 {
        kinds.push(owned("vector_graphic"));
    }
    proof {
        let f = seq!['=', '∑', '∫', '√'];
        let t = seq!['|', '\t'];
        assert(formula == (text@.contains('=') || text@.contains('∑') || text@.contains('∫')
            || text@.contains('√'))) by {
            if text@.contains('=') {
                assert(f[0] == '=');
            }
            if text@.contains('∑') {
                assert(f[1] == '∑');
            }
            if text@.contains('∫') {
                assert(f[2] == '∫');
            }
            if text@.contains('√') {
                assert(f[3] == '√');
            }
        }
        assert(table == (text@.contains('|') || text@.contains('\t'))) by {
            if text@.contains('|') {
                assert(t[0] == '|');
            }
            if text@.contains('\t') {
                assert(t[1] == '\t');
            }
        }
        assert(string_texts(kinds@) =~= candidate_kind_names(text@, xobjects, painted_paths));
    }
    kinds
}

} // verus!

verus! {

/// A content operator that invokes an external object such as an image.
pub open spec fn invokes_xobject(op: Seq<char>) -> bool {
    op == "Do"@
}

/// A content operator that paints a vector path.
pub open spec fn paints_path(op: Seq<char>) -> bool {
    op == "S"@ || op == "s"@ || op == "f"@ || op == "F"@ || op == "f*"@ || op == "B"@ || op
        == "B*"@ || op == "b"@ || op == "b*"@
}

/// A content operator that shows text.
pub open spec fn shows_text(op: Seq<char>) -> bool {
    op == "Tj"@ || op == "TJ"@ || op == "'"@ || op == "\""@
}

/// How many of the first `n` operators satisfy `pred`.
pub open spec fn count_ops(ops: Seq<String>, n: nat, pred: spec_fn(Seq<char>) -> bool) -> nat
    decreases n,
{
    if n == 0 {
        0
    } else {
        count_ops(ops, (n - 1) as nat, pred) + if pred(ops[n - 1]@) {
            1nat
        } else {
            0nat
        }
    }
}

/// Counts of the content operators a page survey reads.
#[derive(Debug, Clone, Copy, PartialEq, Eq)]
pub struct OperatorCounts {
    /// External-object invocations (`Do`).
    pub xobject_invocations: u64,
    /// Painted vector paths (stroke and fill operators).
    pub painted_vector_paths: u64,
    /// Text-showing operators.
    pub text_show_operations: u64,
}

/// True when `v` holds exactly the text `lit`.
fn is_op(v: &Vec<char>, lit: &str) -> (r: bool)
    ensures
        r == (v@ == lit@),
{
    assert(v@.subrange(0, v@.len() as int) == v@);
    crate::text::chars_equal_at(v.as_slice(), 0, v.len(), lit)
}

/// Counts the external-object, path-painting and text-showing operators of a page's
/// content stream, given its operator names in order.
pub fn count_operators(operators: &[String]) -> (c: OperatorCounts)
    requires
        operators@.len() <= u64::MAX,
    ensures
        c.xobject_invocations == count_ops(operators@, operators@.len(), |o| invokes_xobject(o)),
        c.painted_vector_paths == count_ops(operators@, operators@.len(), |o| paints_path(o)),
        c.text_show_operations == count_ops(operators@, operators@.len(), |o| shows_text(o)),
{
    let ghost xp: spec_fn(Seq<char>) -> bool = |o| invokes_xobject(o);
    let ghost pp: spec_fn(Seq<char>) -> bool = |o| paints_path(o);
    let ghost tp: spec_fn(Seq<char>) -> bool = |o| shows_text(o);
    let mut x: u64 = 0;
    let mut p: u64 = 0;
    let mut t: u64 = 0;
    let mut i: usize = 0;
    while i < operators.len()
        invariant
            i <= operators@.len(),
            operators@.len() <= u64::MAX,
            xp == (|o| invokes_xobject(o)),
            pp == (|o| paints_path(o)),
            tp == (|o| shows_text(o)),
            x == count_ops(operators@, i as nat, xp),
            p == count_ops(operators@, i as nat, pp),
            t == count_ops(operators@, i as nat, tp),
            x <= i && p <= i && t <= i,
        decreases operators@.len() - i,
    {
        let v = chars_of(operators[i].as_str());
        if is_op(&v, "Do") {
            x = x + 1;
        }
        if is_op(&v, "S") || is_op(&v, "s") || is_op(&v, "f") || is_op(&v, "F") || is_op(&v, "f*")
            || is_op(&v, "B") || is_op(&v, "B*") || is_op(&v, "b") || is_op(&v, "b*") {
            p = p + 1;
        }
        if is_op(&v, "Tj") || is_op(&v, "TJ") || is_op(&v, "'") || is_op(&v, "\"") {
            t = t + 1;
        }
        i = i + 1;
    }
    OperatorCounts { xobject_invocations: x, painted_vector_paths: p, text_show_operations: t }
}

/// The content hint of a page: native text and image invocations decide; with neither,
/// painted paths or text-showing operators make it other content, else it is blank.
pub open spec fn content_hint_of(native_characters: u64, c: OperatorCounts) -> PageContentHint {
    if native_characters > 0 && c.xobject_invocations > 0 {
        PageContentHint::Hybrid
    } else if native_characters > 0 {
        PageContentHint::BornDigital
    } else if c.xobject_invocations > 0 {
        PageContentHint::Scanned
    } else if c.painted_vector_paths > 0 || c.text_show_operations > 0 {
        PageContentHint::OtherContent
    } else {
        PageContentHint::Blank
    }
}

/// Classifies a page before OCR.
pub fn content_hint(native_characters: u64, counts: &OperatorCounts) -> (h: PageContentHint)
    ensures
        h == content_hint_of(native_characters, *counts),
{
    match (native_characters > 0, counts.xobject_invocations > 0) {
        (true, true) => PageContentHint::Hybrid,
        (true, false) => PageContentHint::BornDigital,
        (false, true) => PageContentHint::Scanned,
        (false, false) => if counts.painted_vector_paths > 0 || counts.text_show_operations > 0 {
            PageContentHint::OtherContent
        } else {
            PageContentHint::Blank
        },
    }
}

/// Pages worth a closer, more expensive look: anything but plain native text or blank.
pub open spec fn high_value(h: PageContentHint) -> bool {
    h == PageContentHint::Scanned || h == PageContentHint::Hybrid || h
        == PageContentHint::OtherContent
}

/// True for scanned, hybrid and other-content pages.
pub fn high_value_candidate(hint: PageContentHint) -> (r: bool)
    ensures
        r == high_value(hint),
{
    match hint {
        PageContentHint::Scanned | PageContentHint::Hybrid | PageContentHint::OtherContent => true,
        PageContentHint::Blank | PageContentHint::BornDigital => false,
    }
}

/// How many of the first `n` characters are not whitespace.
pub open spec fn visible_count(s: Seq<char>, n: nat) -> nat
    decreases n,
{
    if n == 0 {
        0
    } else {
        visible_count(s, (n - 1) as nat) + if crate::text::is_whitespace(s[n - 1]) {
            0nat
        } else {
            1nat
        }
    }
}

/// The number of characters of native text that are not whitespace.
pub fn native_character_count(text: &str) -> (n: u64)
    ensures
        n == visible_count(text@, text@.len()),
{
    let v = chars_of(text);
    let mut n: u64 = 0;
    let mut i: usize = 0;
    while i < v.len()
        invariant
            v@ == text@,
            i <= v@.len(),
            n == visible_count(text@, i as nat),
            n <= i,
        decreases v@.len() - i,
    {
        if !crate::text::char_is_whitespace(v[i]) {
            n = n + 1;
        }
        i = i + 1;
    }
    n
}

/// A page of native text and no image is never sent for OCR review, and a page with an
/// image invocation always is.
pub proof fn lemma_content_hint_routes_images(native_characters: u64, c: OperatorCounts)
    ensures
        c.xobject_invocations > 0 ==> high_value(content_hint_of(native_characters, c)),
        native_characters > 0 && c.xobject_invocations == 0 ==> content_hint_of(native_characters, c)
            == PageContentHint::BornDigital,
{
}

/// Counting over a prefix does not see what is appended after it.
proof fn lemma_count_ops_prefix(ops: Seq<String>, x: String, n: nat, pred: spec_fn(Seq<char>) -> bool)
    requires
        n <= ops.len(),
    ensures
        count_ops(ops.push(x), n, pred) == count_ops(ops, n, pred),
    decreases n,
{
    if n > 0 {
        lemma_count_ops_prefix(ops, x, (n - 1) as nat, pred);
        assert(ops.push(x)[n - 1] == ops[n - 1]);
    }
}

/// The painted-path count of a content stream counts exactly the PDF path-painting
/// operators `S`, `s`, `f`, `F`, `f*`, `B`, `B*`, `b` and `b*`: none for no operators, and
/// appending an operator adds one exactly when it is one of them.
pub proof fn lemma_painted_paths_are_painting_operators(ops: Seq<String>, op: String)
    ensures
        count_ops(Seq::<String>::empty(), 0, |o| paints_path(o)) == 0,
        count_ops(ops.push(op), ops.len() + 1, |o| paints_path(o)) == count_ops(
            ops,
            ops.len(),
            |o| paints_path(o),
        ) + if op@ == "S"@ || op@ == "s"@ || op@ == "f"@ || op@ == "F"@ || op@ == "f*"@ || op@
            == "B"@ || op@ == "B*"@ || op@ == "b"@ || op@ == "b*"@ {
            1int
        } else {
            0int
        },
{
    lemma_count_ops_prefix(ops, op, ops.len(), |o| paints_path(o));
    assert(ops.push(op)[ops.len() as int] == op);
}

/// The image-invocation count counts exactly the `Do` operators, and the text-showing
/// count exactly the `Tj`, `TJ`, `'` and `"` operators: appending an operator adds one to
/// each count exactly when it is one of its operators.
pub proof fn lemma_invocation_and_text_counts(ops: Seq<String>, op: String)
    ensures
        count_ops(ops.push(op), ops.len() + 1, |o| invokes_xobject(o)) == count_ops(
            ops,
            ops.len(),
            |o| invokes_xobject(o),
        ) + if op@ == "Do"@ {
            1int
        } else {
            0int
        },
        count_ops(ops.push(op), ops.len() + 1, |o| shows_text(o)) == count_ops(
            ops,
            ops.len(),
            |o| shows_text(o),
        ) + if op@ == "Tj"@ || op@ == "TJ"@ || op@ == "'"@ || op@ == "\""@ {
            1int
        } else {
            0int
        },
{
    lemma_count_ops_prefix(ops, op, ops.len(), |o| invokes_xobject(o));
    lemma_count_ops_prefix(ops, op, ops.len(), |o| shows_text(o));
    assert(ops.push(op)[ops.len() as int] == op);
}

/// A content stream holding any path-painting operator has at least one painted path, so
/// a page without native text or image invocations whose stream paints a path (say a
/// filled rectangle, `re` then `f`) is other content, never blank.
pub proof fn lemma_painting_operator_is_other_content(ops: Seq<String>, c: OperatorCounts)
    requires
        exists|i: int|
            0 <= i < ops.len() && {
                let o = (#[trigger] ops[i])@;
                o == "S"@ || o == "s"@ || o == "f"@ || o == "F"@ || o == "f*"@ || o == "B"@ || o
                    == "B*"@ || o == "b"@ || o == "b*"@
            },
        c.painted_vector_paths == count_ops(ops, ops.len(), |o| paints_path(o)),
        c.xobject_invocations == 0,
    ensures
        c.painted_vector_paths >= 1,
        content_hint_of(0, c) == PageContentHint::OtherContent,
    decreases ops.len(),
{
    let i = choose|i: int|
        0 <= i < ops.len() && {
            let o = (#[trigger] ops[i])@;
            o == "S"@ || o == "s"@ || o == "f"@ || o == "F"@ || o == "f*"@ || o == "B"@ || o
                == "B*"@ || o == "b"@ || o == "b*"@
        };
    let init = ops.drop_last();
    assert(ops == init.push(ops.last()));
    lemma_painted_paths_are_painting_operators(init, ops.last());
    if i < ops.len() - 1 {
        assert(init[i] == ops[i]);
        let ci = OperatorCounts {
            painted_vector_paths: count_ops(init, init.len(), |o| paints_path(o)) as u64,
            ..c
        };
        assert(count_ops(init, init.len(), |o| paints_path(o)) <= count_ops(ops, ops.len(), |o| paints_path(o)));
        lemma_painting_operator_is_other_content(init, ci);
    }
}

} // verus!

verus! {

/// Whether the character is alphabetic by the Unicode `Alphabetic` property.
pub uninterp spec fn alphabetic(c: char) -> bool;

/// Calls `char::is_alphabetic`, whose result depends on the character alone.
#[verifier::external_body]
fn char_is_alphabetic(c: char) -> (r: bool)
    ensures
        r == alphabetic(c),
{
    c.is_alphabetic()
}

/// The script family of an alphabetic character, by code point block.
pub open spec fn script_of(c: char) -> Seq<char> {
    let code = c as u32;
    if code <= 0x024f {
        "latin"@
    } else if 0x0370 <= code <= 0x03ff {
        "greek"@
    } else if 0x0400 <= code <= 0x052f {
        "cyrillic"@
    } else if 0x0590 <= code <= 0x05ff {
        "hebrew"@
    } else if 0x0600 <= code <= 0x06ff {
        "arabic"@
    } else if 0x3040 <= code <= 0x30ff {
        "japanese_kana"@
    } else if 0x3400 <= code <= 0x9fff {
        "han"@
    } else if 0xac00 <= code <= 0xd7af {
        "hangul"@
    } else {
        "other"@
    }
}

/// Index of a script family name in text order: arabic, cyrillic, greek, han, hangul,
/// hebrew, japanese_kana, latin, other.
pub open spec fn script_rank(c: char) -> int {
    let code = c as u32;
    if code <= 0x024f {
        7
    } else if 0x0370 <= code <= 0x03ff {
        2
    } else if 0x0400 <= code <= 0x052f {
        1
    } else if 0x0590 <= code <= 0x05ff {
        5
    } else if 0x0600 <= code <= 0x06ff {
        0
    } else if 0x3040 <= code <= 0x30ff {
        6
    } else if 0x3400 <= code <= 0x9fff {
        3
    } else if 0xac00 <= code <= 0xd7af {
        4
    } else {
        8
    }
}

/// The script family names in text order.
pub open spec fn script_names() -> Seq<Seq<char>> {
    seq![
        "arabic"@,
        "cyrillic"@,
        "greek"@,
        "han"@,
        "hangul"@,
        "hebrew"@,
        "japanese_kana"@,
        "latin"@,
        "other"@,
    ]
}

/// Some alphabetic character of the text belongs to the script of rank `r`.
pub open spec fn script_present(text: Seq<char>, r: int) -> bool {
    exists|i: int| 0 <= i < text.len() && alphabetic(text[i]) && #[trigger] script_rank(text[i]) == r
}

/// The script families present among the first `k` names, in text order.
pub open spec fn scripts_upto(text: Seq<char>, k: nat) -> Seq<Seq<char>>
    decreases k,
{
    if k == 0 {
        Seq::empty()
    } else if script_present(text, k - 1) {
        scripts_upto(text, (k - 1) as nat).push(script_names()[k - 1])
    } else {
        scripts_upto(text, (k - 1) as nat)
    }
}

/// The rank of a character's script family.
fn rank_of(c: char) -> (r: usize)
    ensures
        r == script_rank(c),
        r < 9,
{
    let code = c as u32;
    if code <= 0x024f {
        7
    } else if 0x0370 <= code && code <= 0x03ff {
        2
    } else if 0x0400 <= code && code <= 0x052f {
        1
    } else if 0x0590 <= code && code <= 0x05ff {
        5
    } else if 0x0600 <= code && code <= 0x06ff {
        0
    } else if 0x3040 <= code && code <= 0x30ff {
        6
    } else if 0x3400 <= code && code <= 0x9fff {
        3
    } else if 0xac00 <= code && code <= 0xd7af {
        4
    } else {
        8
    }
}

/// The script family names of the text's alphabetic characters, each once, in name order.
pub fn script_hints(text: &str) -> (r: Vec<String>)
    ensures
        string_texts(r@) == scripts_upto(text@, 9),
{
    let v = chars_of(text);
    let mut seen: Vec<bool> = vec![false, false, false, false, false, false, false, false, false];
    let mut i: usize = 0;
    while i < v.len()
        invariant
            v@ == text@,
            i <= v@.len(),
            seen@.len() == 9,
            forall|r: int|
                0 <= r < 9 ==> (#[trigger] seen@[r] <==> exists|j: int|
                    0 <= j < i && alphabetic(text@[j]) && #[trigger] script_rank(text@[j]) == r),
        decreases v@.len() - i,
    {
        if char_is_alphabetic(v[i]) {
            let r = rank_of(v[i]);
            seen.set(r, true);
        }
        proof {
            assert forall|r: int| 0 <= r < 9 implies (#[trigger] seen@[r] <==> exists|j: int|
                0 <= j < i + 1 && alphabetic(text@[j]) && #[trigger] script_rank(text@[j]) == r) by {
                if alphabetic(text@[i as int]) && script_rank(text@[i as int]) == r {
                    assert(seen@[r]);
                }
            }
        }
        i = i + 1;
    }
    let names = [
        "arabic",
        "cyrillic",
        "greek",
        "han",
        "hangul",
        "hebrew",
        "japanese_kana",
        "latin",
        "other",
    ];
    let mut out: Vec<String> = Vec::new();
    let mut k: usize = 0;
    while k < 9
        invariant
            k <= 9,
            seen@.len() == 9,
            forall|r: int|
                0 <= r < 9 ==> (#[trigger] seen@[r] <==> script_present(text@, r)),
            names@.len() == 9,
            forall|q: int| 0 <= q < 9 ==> (#[trigger] names@[q])@ == script_names()[q],
            string_texts(out@) == scripts_upto(text@, k as nat),
        decreases 9 - k,
    {
        if seen[k] {
            let ghost before = out@;
            out.push(owned(names[k]));
            assert(string_texts(out@) =~= string_texts(before).push(names@[k as int]@));
        }
        k = k + 1;
    }
    out
}

/// The name a character's script rank selects is the name of its code point block.
proof fn lemma_rank_names_block(c: char)
    ensures
        0 <= script_rank(c) < 9,
        script_names()[script_rank(c)] == script_of(c),
{
}

/// The script names are distinct.
proof fn lemma_script_names_distinct(a: int, b: int)
    requires
        0 <= a < 9,
        0 <= b < 9,
        a != b,
    ensures
        script_names()[a] != script_names()[b],
{
    reveal_strlit("arabic");
    reveal_strlit("cyrillic");
    reveal_strlit("greek");
    reveal_strlit("han");
    reveal_strlit("hangul");
    reveal_strlit("hebrew");
    reveal_strlit("japanese_kana");
    reveal_strlit("latin");
    reveal_strlit("other");
    assert(script_names()[a].len() != script_names()[b].len() || script_names()[a][0]
        != script_names()[b][0] || script_names()[a][1] != script_names()[b][1]);
}

/// A name is among the first `k` present scripts exactly when a present script of rank
/// below `k` has that name.
proof fn lemma_scripts_upto_members(text: Seq<char>, k: nat, x: Seq<char>)
    requires
        k <= 9,
    ensures
        scripts_upto(text, k).contains(x) <==> exists|r: int|
            0 <= r < k && script_present(text, r) && script_names()[r] == x,
    decreases k,
{
    if k > 0 {
        lemma_scripts_upto_members(text, (k - 1) as nat, x);
        let prev = scripts_upto(text, (k - 1) as nat);
        if script_present(text, k - 1) {
            assert(prev.push(script_names()[k - 1]).contains(x) <==> (prev.contains(x) || x
                == script_names()[k - 1])) by {
                if x == script_names()[k - 1] {
                    assert(prev.push(script_names()[k - 1])[prev.len() as int] == x);
                }
                if prev.push(script_names()[k - 1]).contains(x) && x != script_names()[k - 1] {
                    let pushed = prev.push(script_names()[k - 1]);
                    let j = choose|j: int| 0 <= j < pushed.len() && #[trigger] pushed[j] == x;
                    assert(prev[j] == x);
                }
                if prev.contains(x) {
                    let j = choose|j: int| 0 <= j < prev.len() && prev[j] == x;
                    assert(prev.push(script_names()[k - 1])[j] == x);
                }
            }
        }
    }
}

/// Script hints name exactly the code point blocks of the text's alphabetic characters:
/// every reported name is the block of some alphabetic character, and the block of every
/// alphabetic character is reported.
pub proof fn lemma_script_hints_are_blocks(text: Seq<char>)
    ensures
        forall|x: Seq<char>|
            #[trigger] scripts_upto(text, 9).contains(x) <==> exists|i: int|
                0 <= i < text.len() && alphabetic(text[i]) && script_of(text[i]) == x,
{
    assert forall|x: Seq<char>|
        #[trigger] scripts_upto(text, 9).contains(x) <==> exists|i: int|
            0 <= i < text.len() && alphabetic(text[i]) && script_of(text[i]) == x by {
        lemma_scripts_upto_members(text, 9, x);
        if scripts_upto(text, 9).contains(x) {
            let r = choose|r: int| 0 <= r < 9 && script_present(text, r) && script_names()[r] == x;
            let i = choose|i: int| 0 <= i < text.len() && alphabetic(text[i]) && #[trigger] script_rank(text[i]) == r;
            lemma_rank_names_block(text[i]);
        }
        if exists|i: int| 0 <= i < text.len() && alphabetic(text[i]) && script_of(text[i]) == x {
            let i = choose|i: int| 0 <= i < text.len() && alphabetic(text[i]) && script_of(text[i]) == x;
            lemma_rank_names_block(text[i]);
            assert(script_present(text, script_rank(text[i])));
        }
    }
}

/// The present scripts among the first `k` when exactly one rank `r0` is present.
proof fn lemma_scripts_upto_single(text: Seq<char>, k: nat, r0: int)
    requires
        k <= 9,
        0 <= r0 < 9,
        forall|r: int| 0 <= r < 9 ==> (#[trigger] script_present(text, r) <==> r == r0),
    ensures
        scripts_upto(text, k) == if r0 < k {
            seq![script_names()[r0]]
        } else {
            Seq::<Seq<char>>::empty()
        },
    decreases k,
{
    if k > 0 {
        lemma_scripts_upto_single(text, (k - 1) as nat, r0);
        assert(script_present(text, k - 1) <==> k - 1 == r0);
        if k - 1 == r0 {
            assert(Seq::<Seq<char>>::empty().push(script_names()[r0]) =~= seq![script_names()[r0]]);
        }
    }
}

/// A text whose alphabetic characters all lie in one block, and which has at least one,
/// is hinted with exactly that block's name: for instance only Hebrew letters
/// (U+0590..=U+05FF) give exactly `["hebrew"]`.
pub proof fn lemma_single_block_text(text: Seq<char>, i0: int)
    requires
        0 <= i0 < text.len(),
        alphabetic(text[i0]),
        forall|i: int| 0 <= i < text.len() && alphabetic(text[i]) ==> script_of(text[i]) == script_of(text[i0]),
    ensures
        scripts_upto(text, 9) == seq![script_of(text[i0])],
{
    let r0 = script_rank(text[i0]);
    lemma_rank_names_block(text[i0]);
    assert(script_present(text, r0));
    assert forall|r: int| 0 <= r < 9 implies (script_present(text, r) <==> r == r0) by {
        if script_present(text, r) {
            let i = choose|i: int| 0 <= i < text.len() && alphabetic(text[i]) && #[trigger] script_rank(text[i]) == r;
            lemma_rank_names_block(text[i]);
            if r != r0 {
                lemma_script_names_distinct(r, r0);
            }
        }
    }
    lemma_scripts_upto_single(text, 9, r0);
}

/// The block names of the script hints: Latin up to U+024F, Greek U+0370..=U+03FF,
/// Cyrillic U+0400..=U+052F, Hebrew U+0590..=U+05FF, Arabic U+0600..=U+06FF, kana
/// U+3040..=U+30FF, Han U+3400..=U+9FFF, Hangul U+AC00..=U+D7AF.
pub proof fn lemma_block_names(c: char)
    ensures
        c as u32 <= 0x024f ==> script_of(c) == "latin"@,
        0x0370 <= c as u32 <= 0x03ff ==> script_of(c) == "greek"@,
        0x0400 <= c as u32 <= 0x052f ==> script_of(c) == "cyrillic"@,
        0x0590 <= c as u32 <= 0x05ff ==> script_of(c) == "hebrew"@,
        0x0600 <= c as u32 <= 0x06ff ==> script_of(c) == "arabic"@,
        0x3040 <= c as u32 <= 0x30ff ==> script_of(c) == "japanese_kana"@,
        0x3400 <= c as u32 <= 0x9fff ==> script_of(c) == "han"@,
        0xac00 <= c as u32 <= 0xd7af ==> script_of(c) == "hangul"@,
{
}

} // verus!

verus! {

/// Whether the character is alphanumeric: Unicode `Alphabetic` or a numeric category.
pub uninterp spec fn alphanumeric(c: char) -> bool;

/// Calls `char::is_alphanumeric`, whose result depends on the character alone.
#[verifier::external_body]
fn char_is_alphanumeric(c: char) -> (r: bool)
    ensures
        r == alphanumeric(c),
{
    c.is_alphanumeric()
}

/// The lowercase mapping of a text, by the Unicode case tables.
pub uninterp spec fn lowercase(s: Seq<char>) -> Seq<char>;

/// Calls `str::to_lowercase`, whose result depends on the text alone.
#[verifier::external_body]
fn lowercase_text(s: &str) -> (r: String)
    ensures
        r@ == lowercase(s@),
{
    s.to_lowercase()
}

/// Scanning state after a prefix of a text: the finished words and the word being read.
pub open spec fn word_scan(s: Seq<char>) -> (Seq<Seq<char>>, Seq<char>)
    decreases s.len(),
{
    if s.len() == 0 {
        (Seq::empty(), Seq::empty())
    } else {
        let (done, current) = word_scan(s.drop_last());
        if alphanumeric(s.last()) {
            (done, current.push(s.last()))
        } else if current.len() > 0 {
            (done.push(current), Seq::empty())
        } else {
            (done, current)
        }
    }
}

/// The maximal runs of alphanumeric characters of a text, in text order.
pub open spec fn words(s: Seq<char>) -> Seq<Seq<char>> {
    let (done, current) = word_scan(s);
    if current.len() > 0 {
        done.push(current)
    } else {
        done
    }
}

/// Splits text into its maximal alphanumeric runs.
fn split_words(text: &str) -> (r: Vec<Vec<char>>)
    ensures
        r@.len() == words(text@).len(),
        forall|k: int| 0 <= k < r@.len() ==> (#[trigger] r@[k])@ == words(text@)[k],
{
    let v = chars_of(text);
    let mut done: Vec<Vec<char>> = Vec::new();
    let mut current: Vec<char> = Vec::new();
    let mut i: usize = 0;
    while i < v.len()
        invariant
            v@ == text@,
            i <= v@.len(),
            done@.len() == word_scan(v@.take(i as int)).0.len(),
            forall|k: int|
                0 <= k < done@.len() ==> (#[trigger] done@[k])@ == word_scan(v@.take(i as int)).0[k],
            current@ == word_scan(v@.take(i as int)).1,
        decreases v@.len() - i,
    {
        assert(v@.take(i + 1).drop_last() == v@.take(i as int));
        let c = v[i];
        if char_is_alphanumeric(c) {
            current.push(c);
        } else if current.len() > 0 {
            let word = current;
            done.push(word);
            current = Vec::new();
        }
        i = i + 1;
    }
    assert(v@.take(i as int) == v@);
    if current.len() > 0 {
        done.push(current);
    }
    done
}


/// The unsigned value of bytes read most significant first.
pub open spec fn big_endian_value(b: Seq<u8>) -> nat
    decreases b.len(),
{
    if b.len() == 0 {
        0
    } else {
        big_endian_value(b.drop_last()) * 256 + b.last() as nat
    }
}

/// A word's 64-bit fingerprint: the first eight bytes, most significant first, of the
/// SHA-256 digest of the UTF-8 form of its lowercase mapping.
pub open spec fn word_fingerprint(word: Seq<char>) -> nat {
    big_endian_value(sha256(encode_utf8(lowercase(word))).take(8))
}

/// The fingerprints of words, in order.
pub open spec fn word_fingerprints(ws: Seq<Seq<char>>) -> Seq<nat> {
    Seq::new(ws.len(), |k: int| word_fingerprint(ws[k]))
}

/// Bit `b` of `v`.
pub open spec fn bit_set(v: nat, b: nat) -> bool {
    (v / pow2(b)) % 2 == 1
}

/// How many of the values have bit `b` set.
pub open spec fn ones_at(fps: Seq<nat>, b: nat) -> nat
    decreases fps.len(),
{
    if fps.len() == 0 {
        0
    } else {
        ones_at(fps.drop_last(), b) + if bit_set(fps.last(), b) {
            1nat
        } else {
            0nat
        }
    }
}

/// The bits below `k` of the majority value: bit `b` is set when at least half of the
/// values set it.
pub open spec fn majority_upto(fps: Seq<nat>, k: nat) -> nat
    decreases k,
{
    if k == 0 {
        0
    } else {
        majority_upto(fps, (k - 1) as nat) + if 2 * ones_at(fps, (k - 1) as nat) >= fps.len() {
            pow2((k - 1) as nat)
        } else {
            0
        }
    }
}

/// Sixteen lowercase hexadecimal digits of a value below 2^64, most significant first.
pub open spec fn hex16(v: nat) -> Seq<char> {
    Seq::new(16, |i: int| hex_digit((v / pow2((4 * (15 - i)) as nat)) % 16))
}

/// The token similarity hash of a text: absent without words; otherwise the 64-bit
/// majority value over the word fingerprints, as sixteen hexadecimal digits.
pub open spec fn simhash_text(text: Seq<char>) -> Option<Seq<char>> {
    let ws = words(text);
    if ws.len() == 0 {
        None
    } else {
        Some(hex16(majority_upto(word_fingerprints(ws), 64)))
    }
}

/// The fingerprint of a word already in lowercase.
pub open spec fn lower_fingerprint(lower: Seq<char>) -> nat {
    big_endian_value(sha256(encode_utf8(lower)).take(8))
}

/// The lowercase mappings of the words of a text, in order.
pub open spec fn lowercase_words(text: Seq<char>) -> Seq<Seq<char>> {
    Seq::new(words(text).len(), |i: int| lowercase(words(text)[i]))
}

/// The fingerprints of lowercase words, in order.
pub open spec fn lower_fingerprints(ls: Seq<Seq<char>>) -> Seq<nat> {
    Seq::new(ls.len(), |i: int| lower_fingerprint(ls[i]))
}

/// Removing one value takes its bit out of the count.
proof fn lemma_ones_at_remove(fps: Seq<nat>, i: int, b: nat)
    requires
        0 <= i < fps.len(),
    ensures
        ones_at(fps, b) == ones_at(fps.remove(i), b) + if bit_set(fps[i], b) {
            1nat
        } else {
            0nat
        },
    decreases fps.len(),
{
    if i < fps.len() - 1 {
        lemma_ones_at_remove(fps.drop_last(), i, b);
        assert(fps.remove(i).drop_last() =~= fps.drop_last().remove(i));
        assert(fps.remove(i).last() == fps.last());
    } else {
        assert(fps.remove(i) =~= fps.drop_last());
    }
}

/// Lowercase word lists holding the same words, however ordered, have the same count of
/// set bits at every position.
proof fn lemma_ones_follow_multiset(ls: Seq<Seq<char>>, ms: Seq<Seq<char>>, b: nat)
    requires
        ls.to_multiset() == ms.to_multiset(),
    ensures
        ls.len() == ms.len(),
        ones_at(lower_fingerprints(ls), b) == ones_at(lower_fingerprints(ms), b),
    decreases ls.len(),
{
    broadcast use vstd::seq_lib::group_to_multiset_ensures;

    assert(ls.len() == ls.to_multiset().len());
    assert(ms.len() == ms.to_multiset().len());
    if ls.len() > 0 {
        let x = ls.last();
        let init = ls.drop_last();
        assert(ls =~= init.push(x));
        assert(ls.to_multiset() =~= init.to_multiset().insert(x));
        assert(ms.to_multiset().count(x) > 0);
        assert(ms.contains(x));
        let i = choose|i: int| 0 <= i < ms.len() && ms[i] == x;
        let rest = ms.remove(i);
        assert(rest.to_multiset() =~= ms.to_multiset().remove(x));
        assert(init.to_multiset() =~= ls.to_multiset().remove(x));
        lemma_ones_follow_multiset(init, rest, b);
        let fm = lower_fingerprints(ms);
        lemma_ones_at_remove(fm, i, b);
        assert(fm.remove(i) =~= lower_fingerprints(rest));
        let fl = lower_fingerprints(ls);
        assert(fl.drop_last() =~= lower_fingerprints(init));
    }
}

/// The majority value over the first `k` bits agrees for lists with the same counts.
proof fn lemma_majority_follows_counts(a: Seq<nat>, c: Seq<nat>, k: nat)
    requires
        a.len() == c.len(),
        forall|b: nat| b < k ==> #[trigger] ones_at(a, b) == ones_at(c, b),
    ensures
        majority_upto(a, k) == majority_upto(c, k),
    decreases k,
{
    if k > 0 {
        lemma_majority_follows_counts(a, c, (k - 1) as nat);
        assert(ones_at(a, (k - 1) as nat) == ones_at(c, (k - 1) as nat));
    }
}

/// The token similarity hash depends only on which lowercase words a text holds and how
/// often: texts whose lowercase words are the same multiset, in whatever order and with
/// whatever separators, hash alike.
pub proof fn lemma_simhash_ignores_order(a: Seq<char>, c: Seq<char>)
    requires
        lowercase_words(a).to_multiset() == lowercase_words(c).to_multiset(),
    ensures
        simhash_text(a) == simhash_text(c),
{
    let la = lowercase_words(a);
    let lc = lowercase_words(c);
    lemma_ones_follow_multiset(la, lc, 0);
    assert(word_fingerprints(words(a)) =~= lower_fingerprints(la));
    assert(word_fingerprints(words(c)) =~= lower_fingerprints(lc));
    assert forall|b: nat| b < 64 implies #[trigger] ones_at(lower_fingerprints(la), b) == ones_at(
        lower_fingerprints(lc),
        b,
    ) by {
        lemma_ones_follow_multiset(la, lc, b);
    }
    lemma_majority_follows_counts(lower_fingerprints(la), lower_fingerprints(lc), 64);
}

/// A token similarity hash is absent exactly for a text without words, and is otherwise
/// sixteen lowercase hexadecimal digits.
pub proof fn lemma_simhash_shape(text: Seq<char>)
    ensures
        simhash_text(text) is None <==> words(text).len() == 0,
        simhash_text(text) matches Some(h) ==> h.len() == 16 && forall|i: int|
            0 <= i < 16 ==> #[trigger] crate::digest::is_lower_hex(h[i]),
{
    if words(text).len() > 0 {
        let h = simhash_text(text)->Some_0;
        assert forall|i: int| 0 <= i < 16 implies #[trigger] crate::digest::is_lower_hex(h[i]) by {
            let v = majority_upto(word_fingerprints(words(text)), 64);
            vstd::arithmetic::power2::lemma_pow2_pos((4 * (15 - i)) as nat);
            let n = (v / pow2((4 * (15 - i)) as nat)) % 16;
            assert(n < 16);
            assert(h[i] == hex_digit(n));
        }
    }
}

/// A big-endian value of `n` bytes stays below 2^(8n).
proof fn lemma_big_endian_bound(b: Seq<u8>)
    ensures
        big_endian_value(b) < pow2(8 * b.len()),
    decreases b.len(),
{
    broadcast use vstd::arithmetic::power2::lemma_pow2_pos;

    if b.len() == 0 {
        vstd::arithmetic::power2::lemma2_to64();
    } else {
        let head = b.drop_last();
        lemma_big_endian_bound(head);
        vstd::arithmetic::power2::lemma_pow2_adds(8 * head.len(), 8);
        vstd::arithmetic::power2::lemma2_to64();
        assert(8 * head.len() + 8 == 8 * b.len());
        let p = pow2(8 * head.len());
        let h = big_endian_value(head);
        assert(h * 256 + b.last() < p * 256) by (nonlinear_arith)
            requires
                h < p,
                b.last() < 256,
        ;
    }
}

/// The fingerprint of one word.
fn fingerprint_of(word: &Vec<char>) -> (f: u64)
    ensures
        f == word_fingerprint(word@),
{
    let text = string_from_chars(word.as_slice());
    let lower = lowercase_text(text.as_str());
    let digest = Sha256Digest::of_bytes(lower.as_str().as_bytes());
    let bytes = digest.as_bytes();
    let ghost full = sha256(encode_utf8(lowercase(word@)));
    assert(bytes@ == full);
    proof {
        crate::digest::lemma_digest_len(digest);
    }
    let mut v: u64 = 0;
    let mut i: usize = 0;
    while i < 8
        invariant
            i <= 8,
            bytes@ == full,
            full.len() == 32,
            v == big_endian_value(full.take(i as int)),
        decreases 8 - i,
    {
        assert(full.take(i + 1).drop_last() == full.take(i as int));
        proof {
            lemma_big_endian_bound(full.take(i + 1));
            vstd::arithmetic::power2::lemma2_to64();
            if i + 1 < 8 {
                vstd::arithmetic::power2::lemma_pow2_strictly_increases(8 * (i + 1) as nat, 64);
            }
        }
        v = v * 256 + bytes[i] as u64;
        i = i + 1;
    }
    v
}

/// The hexadecimal digit character of a value below sixteen.
fn hex_char(d: u8) -> (c: char)
    requires
        d < 16,
    ensures
        c == hex_digit(d as nat),
{
    if d < 10 {
        char_from_digit(d as u32)
    } else if d == 10 {
        'a'
    } else if d == 11 {
        'b'
    } else if d == 12 {
        'c'
    } else if d == 13 {
        'd'
    } else if d == 14 {
        'e'
    } else {
        'f'
    }
}

/// Token similarity hash of a page's text: each maximal alphanumeric run is lowercased
/// and fingerprinted, and each of the 64 bits is set when at least half of the words set
/// it. Absent when the text has no word.
pub fn token_simhash(text: &str) -> (r: Option<String>)
    ensures
        match simhash_text(text@) {
            None => r is None,
            Some(h) => r matches Some(s) && s@ == h,
        },
{
    broadcast use vstd::arithmetic::power2::lemma_pow2_pos;

    let ws = split_words(text);
    if ws.len() == 0 {
        return None;
    }
    let ghost fps = word_fingerprints(words(text@));
    let n = ws.len();
    let mut ones: Vec<usize> = Vec::new();
    while ones.len() < 64
        invariant
            ones@.len() <= 64,
            forall|b: int| 0 <= b < ones@.len() ==> ones@[b] == 0,
        decreases 64 - ones@.len(),
    {
        ones.push(0);
    }
    proof {
        assert(fps.take(0).len() == 0);
    }
    let mut t: usize = 0;
    while t < n
        invariant
            n == ws@.len(),
            ws@.len() == words(text@).len(),
            forall|k: int| 0 <= k < ws@.len() ==> (#[trigger] ws@[k])@ == words(text@)[k],
            fps == word_fingerprints(words(text@)),
            t <= n,
            ones@.len() == 64,
            forall|b: int|
                0 <= b < 64 ==> #[trigger] ones@[b] == ones_at(fps.take(t as int), b as nat)
                    && ones@[b] <= t,
        decreases n - t,
    {
        let f = fingerprint_of(&ws[t]);
        assert(f == fps[t as int]);
        assert(fps.take(t + 1).drop_last() == fps.take(t as int));
        assert(fps.take(t + 1).last() == f);
        let mut rest: u64 = f;
        let mut b: usize = 0;
        proof {
            vstd::arithmetic::power2::lemma2_to64();
        }
        while b < 64
            invariant
                t < n,
                fps.len() == n,
                ones@.len() == 64,
                b <= 64,
                rest == (f as nat) / pow2(b as nat),
                fps.take(t + 1).drop_last() == fps.take(t as int),
                fps.take(t + 1).last() == f,
                forall|c: int|
                    0 <= c < b ==> #[trigger] ones@[c] == ones_at(fps.take(t + 1), c as nat)
                        && ones@[c] <= t + 1,
                forall|c: int|
                    b <= c < 64 ==> #[trigger] ones@[c] == ones_at(fps.take(t as int), c as nat)
                        && ones@[c] <= t,
            decreases 64 - b,
        {
            assert(ones_at(fps.take(t + 1), b as nat) == ones_at(fps.take(t as int), b as nat) + if bit_set(f as nat, b as nat) {
                1nat
            } else {
                0nat
            });
            if rest % 2 == 1 {
                let updated = ones[b] + 1;
                ones.set(b, updated);
            }
            proof {
                broadcast use vstd::arithmetic::power2::lemma_pow2_pos;

                vstd::arithmetic::div_mod::lemma_div_denominator(f as int, pow2(b as nat) as int, 2);
                vstd::arithmetic::power2::lemma_pow2_unfold((b + 1) as nat);
                assert(pow2(b as nat) * 2 == pow2((b + 1) as nat));
            }
            rest = rest / 2;
            b = b + 1;
        }
        t = t + 1;
    }
    assert(fps.take(n as int) == fps);
    let mut value: u128 = 0;
    let mut pow: u128 = 1;
    let mut b: usize = 0;
    proof {
        vstd::arithmetic::power2::lemma2_to64();
    }
    while b < 64
        invariant
            n == fps.len(),
            ones@.len() == 64,
            forall|c: int| 0 <= c < 64 ==> #[trigger] ones@[c] == ones_at(fps, c as nat) && ones@[c] <= n,
            b <= 64,
            pow == pow2(b as nat),
            value == majority_upto(fps, b as nat),
            value < pow2(b as nat),
            pow2(64) == 0x10000000000000000,
        decreases 64 - b,
    {
        proof {
            vstd::arithmetic::power2::lemma_pow2_unfold((b + 1) as nat);
            if b + 1 < 64 {
                vstd::arithmetic::power2::lemma_pow2_strictly_increases((b + 1) as nat, 64);
            }
        }
        if ones[b] >= n - ones[b] {
            value = value + pow;
        }
        pow = pow * 2;
        b = b + 1;
    }
    let mut out = String::new();
    let mut divisor: u128 = 0x1000_0000_0000_0000;
    let mut i: usize = 0;
    proof {
        vstd::arithmetic::power2::lemma2_to64_rest();
    }
    while i < 16
        invariant
            i <= 16,
            value == majority_upto(fps, 64),
            i < 16 ==> divisor == pow2((4 * (15 - i)) as nat),
            out@ == hex16(value as nat).take(i as int),
        decreases 16 - i,
    {
        proof {
            vstd::arithmetic::power2::lemma_pow2_pos((4 * (15 - i)) as nat);
        }
        let d = ((value / divisor) % 16) as u8;
        let c = hex_char(d);
        push_char(&mut out, c);
        assert(out@ == hex16(value as nat).take(i + 1));
        if i < 15 {
            proof {
                broadcast use vstd::arithmetic::power2::lemma_pow2_pos;

                let e = (4 * (14 - i)) as nat;
                vstd::arithmetic::power2::lemma_pow2_adds(e, 4);
                vstd::arithmetic::power2::lemma2_to64();
                assert(e + 4 == 4 * (15 - i));
                vstd::arithmetic::div_mod::lemma_div_by_multiple(pow2(e) as int, 16);
            }
            divisor = divisor / 16;
        }
        i = i + 1;
    }
    assert(hex16(value as nat).take(16) == hex16(value as nat));
    Some(out)
}
} // verus!

verus! {

/// Scanning state after a prefix of a text: its finished nonblank lines, trimmed, and the
/// line being read.
pub open spec fn line_scan(s: Seq<char>) -> (Seq<Seq<char>>, Seq<char>)
    decreases s.len(),
{
    if s.len() == 0 {
        (Seq::empty(), Seq::empty())
    } else {
        let (done, current) = line_scan(s.drop_last());
        if s.last() == '\n' {
            (
                if trim(current).len() > 0 {
                    done.push(trim(current))
                } else {
                    done
                },
                Seq::empty(),
            )
        } else {
            (done, current.push(s.last()))
        }
    }
}

/// The nonblank lines of a text, trimmed, in order: `str::lines`, `str::trim`, and the
/// empty ones dropped.
pub open spec fn nonblank_lines(s: Seq<char>) -> Seq<Seq<char>> {
    let (done, current) = line_scan(s);
    if trim(current).len() > 0 {
        done.push(trim(current))
    } else {
        done
    }
}

/// The trimmed characters of `v[from..to]`.
fn trimmed_copy(v: &Vec<char>, from: usize, to: usize) -> (r: Vec<char>)
    requires
        from <= to <= v@.len(),
    ensures
        r@ == trim(v@.subrange(from as int, to as int)),
{
    let (a, b) = trim_range(v.as_slice(), from, to);
    let mut out: Vec<char> = Vec::new();
    let mut k = a;
    while k < b
        invariant
            a <= k <= b <= v@.len(),
            out@ == v@.subrange(a as int, k as int),
        decreases b - k,
    {
        out.push(v[k]);
        assert(v@.subrange(a as int, k + 1) == v@.subrange(a as int, k as int).push(v@[k as int]));
        k = k + 1;
    }
    out
}

/// Splits text into its nonblank trimmed lines.
fn split_nonblank_lines(text: &str) -> (r: Vec<Vec<char>>)
    ensures
        r@.len() == nonblank_lines(text@).len(),
        forall|k: int| 0 <= k < r@.len() ==> (#[trigger] r@[k])@ == nonblank_lines(text@)[k],
{
    let v = chars_of(text);
    let mut done: Vec<Vec<char>> = Vec::new();
    let mut start: usize = 0;
    let mut i: usize = 0;
    while i < v.len()
        invariant
            v@ == text@,
            start <= i <= v@.len(),
            done@.len() == line_scan(v@.take(i as int)).0.len(),
            forall|k: int|
                0 <= k < done@.len() ==> (#[trigger] done@[k])@ == line_scan(v@.take(i as int)).0[k],
            v@.subrange(start as int, i as int) == line_scan(v@.take(i as int)).1,
        decreases v@.len() - i,
    {
        assert(v@.take(i + 1).drop_last() == v@.take(i as int));
        if v[i] == '\n' {
            let line = trimmed_copy(&v, start, i);
            if line.len() > 0 {
                done.push(line);
            }
            start = i + 1;
        } else {
            assert(v@.subrange(start as int, i + 1) == v@.subrange(start as int, i as int).push(v@[i as int]));
        }
        i = i + 1;
    }
    assert(v@.take(i as int) == v@);
    let line = trimmed_copy(&v, start, i);
    if line.len() > 0 {
        done.push(line);
    }
    done
}


/// The pages recorded for `key` in a keyed list, or none when no entry has the key.
pub open spec fn entry_pages(entries: Seq<(TextKey, Vec<u32>)>, key: (Seq<char>, Seq<char>, Seq<char>)) -> Seq<u32> {
    if exists|a: int| 0 <= a < entries.len() && key_view(entries[a].0) == key {
        entries[choose|a: int| 0 <= a < entries.len() && key_view(entries[a].0) == key].1@
    } else {
        Seq::empty()
    }
}

/// The entries' keys come in strictly increasing order.
pub open spec fn keys_increasing(entries: Seq<(TextKey, Vec<u32>)>) -> bool {
    forall|a: int, b: int|
        0 <= a < b < entries.len() ==> key_before(
            key_view(#[trigger] entries[a].0),
            key_view(#[trigger] entries[b].0),
        )
}

/// In a list of increasing keys, the entry with a key is the one `entry_pages` reads.
proof fn lemma_entry_pages_at(entries: Seq<(TextKey, Vec<u32>)>, a: int)
    requires
        keys_increasing(entries),
        0 <= a < entries.len(),
    ensures
        entry_pages(entries, key_view(entries[a].0)) == entries[a].1@,
{
    let key = key_view(entries[a].0);
    let c = choose|c: int| 0 <= c < entries.len() && key_view(entries[c].0) == key;
    if c != a {
        lemma_key_irreflexive(key);
        if c < a {
            assert(key_before(key_view(entries[c].0), key_view(entries[a].0)));
        } else {
            assert(key_before(key_view(entries[a].0), key_view(entries[c].0)));
        }
    }
}

/// A copy of a page list.
fn copy_pages(v: &Vec<u32>) -> (r: Vec<u32>)
    ensures
        r@ == v@,
{
    let mut r: Vec<u32> = Vec::new();
    let mut i: usize = 0;
    while i < v.len()
        invariant
            i <= v@.len(),
            r@ == v@.take(i as int),
        decreases v@.len() - i,
    {
        r.push(v[i]);
        assert(v@.take(i + 1) == v@.take(i as int).push(v@[i as int]));
        i = i + 1;
    }
    assert(v@.take(i as int) == v@);
    r
}

/// A copy of the characters of a key.
fn copy_key(k: &TextKey) -> (r: TextKey)
    ensures
        key_view(r) == key_view(*k),
{
    (copy_chars(&k.0), copy_chars(&k.1), copy_chars(&k.2))
}

/// A copy of characters.
fn copy_chars(v: &Vec<char>) -> (r: Vec<char>)
    ensures
        r@ == v@,
{
    let mut r: Vec<char> = Vec::new();
    let mut i: usize = 0;
    while i < v.len()
        invariant
            i <= v@.len(),
            r@ == v@.take(i as int),
        decreases v@.len() - i,
    {
        r.push(v[i]);
        assert(v@.take(i + 1) == v@.take(i as int).push(v@[i as int]));
        i = i + 1;
    }
    assert(v@.take(i as int) == v@);
    r
}

/// Records `page` under `key`, keeping the keys increasing and every entry nonempty.
fn add_keyed_page(entries: &mut Vec<(TextKey, Vec<u32>)>, key: TextKey, page: u32)
    requires
        keys_increasing(old(entries)@),
        forall|a: int| 0 <= a < old(entries)@.len() ==> (#[trigger] old(entries)@[a]).1@.len() > 0,
    ensures
        keys_increasing(final(entries)@),
        forall|a: int| 0 <= a < final(entries)@.len() ==> (#[trigger] final(entries)@[a]).1@.len() > 0,
        entry_pages(final(entries)@, key_view(key)) == entry_pages(old(entries)@, key_view(key)).push(
            page,
        ),
        forall|k: (Seq<char>, Seq<char>, Seq<char>)|
            k != key_view(key) ==> #[trigger] entry_pages(final(entries)@, k) == entry_pages(
                old(entries)@,
                k,
            ),
{
    let ghost before = entries@;
    let ghost kv = key_view(key);
    let mut j: usize = 0;
    while j < entries.len() && key_precedes(&entries[j].0, &key)
        invariant
            entries@ == before,
            kv == key_view(key),
            j <= before.len(),
            forall|a: int| 0 <= a < j ==> key_before(key_view(#[trigger] before[a].0), kv),
        decreases before.len() - j,
    {
        j = j + 1;
    }
    let same = j < entries.len() && chars_equal(entries[j].0.0.as_slice(), key.0.as_slice())
        && chars_equal(entries[j].0.1.as_slice(), key.1.as_slice()) && chars_equal(
        entries[j].0.2.as_slice(),
        key.2.as_slice(),
    );
    if same {
        assert(key_view(before[j as int].0) == kv);
        proof {
            lemma_entry_pages_at(before, j as int);
        }
        let mut pages = copy_pages(&entries[j].1);
        pages.push(page);
        let k2 = copy_key(&entries[j].0);
        entries.set(j, (k2, pages));
        proof {
            assert(keys_increasing(entries@)) by {
                assert forall|a: int, b: int| 0 <= a < b < entries@.len() implies key_before(
                    key_view(#[trigger] entries@[a].0),
                    key_view(#[trigger] entries@[b].0),
                ) by {
                    assert(key_view(entries@[a].0) == key_view(before[a].0));
                    assert(key_view(entries@[b].0) == key_view(before[b].0));
                }
            }
            lemma_entry_pages_at(entries@, j as int);
            assert forall|k: (Seq<char>, Seq<char>, Seq<char>)| k != kv implies #[trigger] entry_pages(
                entries@,
                k,
            ) == entry_pages(before, k) by {
                if exists|a: int| 0 <= a < before.len() && key_view(before[a].0) == k {
                    let a = choose|a: int| 0 <= a < before.len() && key_view(before[a].0) == k;
                    lemma_entry_pages_at(before, a);
                    assert(a != j);
                    assert(entries@[a] == before[a]);
                    lemma_entry_pages_at(entries@, a);
                } else {
                    assert forall|a: int| 0 <= a < entries@.len() implies key_view(
                        #[trigger] entries@[a].0,
                    ) != k by {
                        if a != j {
                            assert(entries@[a] == before[a]);
                        }
                    }
                }
            }
        }
    } else {
        proof {
            if j < before.len() {
                lemma_key_total(key_view(before[j as int].0), kv);
                assert(key_before(kv, key_view(before[j as int].0)));
            }
            assert forall|a: int| 0 <= a < before.len() implies key_view(#[trigger] before[a].0) != kv by {
                if a < j {
                    lemma_key_asymmetric(key_view(before[a].0), kv);
                } else {
                    if a > j {
                        lemma_key_transitive(kv, key_view(before[j as int].0), key_view(before[a].0));
                    }
                    lemma_key_asymmetric(kv, key_view(before[a].0));
                }
            }
        }
        let mut pages: Vec<u32> = Vec::new();
        pages.push(page);
        entries.insert(j, (key, pages));
        proof {
            assert(entries@ == before.insert(j as int, entries@[j as int]));
            assert(key_view(entries@[j as int].0) == kv);
            assert(keys_increasing(entries@)) by {
                assert forall|a: int, b: int| 0 <= a < b < entries@.len() implies key_before(
                    key_view(#[trigger] entries@[a].0),
                    key_view(#[trigger] entries@[b].0),
                ) by {
                    if b < j {
                        assert(entries@[a] == before[a] && entries@[b] == before[b]);
                    } else if b == j {
                        assert(entries@[a] == before[a]);
                    } else if a == j {
                        assert(entries@[b] == before[b - 1]);
                        if b - 1 > j {
                            lemma_key_transitive(kv, key_view(before[j as int].0), key_view(before[b - 1].0));
                        }
                    } else if a < j {
                        assert(entries@[a] == before[a] && entries@[b] == before[b - 1]);
                    } else {
                        assert(entries@[a] == before[a - 1] && entries@[b] == before[b - 1]);
                    }
                }
            }
            lemma_entry_pages_at(entries@, j as int);
            assert(entries@[j as int].1@ == seq![page]);
            assert(entry_pages(before, kv) == Seq::<u32>::empty());
            assert forall|k: (Seq<char>, Seq<char>, Seq<char>)| k != kv implies #[trigger] entry_pages(
                entries@,
                k,
            ) == entry_pages(before, k) by {
                if exists|a: int| 0 <= a < before.len() && key_view(before[a].0) == k {
                    let a = choose|a: int| 0 <= a < before.len() && key_view(before[a].0) == k;
                    lemma_entry_pages_at(before, a);
                    let a2 = if a < j { a } else { a + 1 };
                    assert(entries@[a2] == before[a]);
                    lemma_entry_pages_at(entries@, a2);
                } else {
                    assert forall|a: int| 0 <= a < entries@.len() implies key_view(
                        #[trigger] entries@[a].0,
                    ) != k by {
                        if a < j {
                            assert(entries@[a] == before[a]);
                        } else if a > j {
                            assert(entries@[a] == before[a - 1]);
                        }
                    }
                }
            }
        }
    }
}

/// `key` names a margin line of a page: its first nonblank line under
/// `first_native_line`, or its last one, when that differs from the first, under
/// `last_native_line`.
pub open spec fn margin_key(text: Seq<char>, key: (Seq<char>, Seq<char>, Seq<char>)) -> bool {
    let ls = nonblank_lines(text);
    &&& key.2.len() == 0
    &&& ls.len() > 0
    &&& (key.0 == "first_native_line"@ && key.1 == ls[0] || key.0 == "last_native_line"@ && key.1
        == ls.last() && ls.last() != ls[0])
}

/// The indexes of the pages on which `key` names a margin line, in page order.
pub open spec fn margin_pages(texts: Seq<Seq<char>>, key: (Seq<char>, Seq<char>, Seq<char>)) -> Seq<u32>
    decreases texts.len(),
{
    if texts.len() == 0 {
        Seq::empty()
    } else {
        let before = margin_pages(texts.drop_last(), key);
        if margin_key(texts.last(), key) {
            before.push((texts.len() - 1) as u32)
        } else {
            before
        }
    }
}

/// `keys` lists, in increasing order, exactly the margin keys found on more than one page.
pub open spec fn repeated_margin_keys(
    texts: Seq<Seq<char>>,
    keys: Seq<(Seq<char>, Seq<char>, Seq<char>)>,
) -> bool {
    &&& forall|a: int, b: int|
        0 <= a < b < keys.len() ==> key_before(#[trigger] keys[a], #[trigger] keys[b])
    &&& forall|k: (Seq<char>, Seq<char>, Seq<char>)|
        #[trigger] keys.contains(k) <==> margin_pages(texts, k).len() > 1
}

/// Exact first and last nonblank lines that repeat across pages, ordered by position name
/// and then line text, each with the digest of its UTF-8 text and the pages it occurs on.
pub fn repeated_margin_text_hints(texts: &[String]) -> (r: Vec<RepeatedMarginTextHint>)
    ensures
        exists|keys: Seq<(Seq<char>, Seq<char>, Seq<char>)>|
            {
                &&& #[trigger] repeated_margin_keys(string_texts(texts@), keys)
                &&& keys.len() == r@.len()
                &&& forall|k: int|
                    0 <= k < keys.len() ==> {
                        &&& (#[trigger] r@[k]).position@ == keys[k].0
                        &&& r@[k].text_sha256@ == sha256(encode_utf8(keys[k].1))
                        &&& r@[k].page_indexes@ == margin_pages(string_texts(texts@), keys[k])
                    }
            },
{
    let ghost ts = string_texts(texts@);
    proof {
        reveal_strlit("first_native_line");
        reveal_strlit("last_native_line");
        assert("first_native_line"@ != "last_native_line"@) by {
            assert("first_native_line"@[0] != "last_native_line"@[0]);
        }
    }
    let mut entries: Vec<(TextKey, Vec<u32>)> = Vec::new();
    let mut i: usize = 0;
    while i < texts.len()
        invariant
            ts == string_texts(texts@),
            "first_native_line"@ != "last_native_line"@,
            i <= texts@.len(),
            keys_increasing(entries@),
            forall|a: int| 0 <= a < entries@.len() ==> (#[trigger] entries@[a]).1@.len() > 0,
            forall|k: (Seq<char>, Seq<char>, Seq<char>)|
                #[trigger] entry_pages(entries@, k) == margin_pages(ts.take(i as int), k),
        decreases texts@.len() - i,
    {
        let lines = split_nonblank_lines(texts[i].as_str());
        let page = i as u32;
        let ghost before = entries@;
        let ghost ls = nonblank_lines(ts[i as int]);
        let ghost first_kv = ("first_native_line"@, ls[0], Seq::<char>::empty());
        let ghost last_kv = ("last_native_line"@, ls.last(), Seq::<char>::empty());
        assert(ts[i as int] == texts@[i as int]@);
        let mut distinct_last = false;
        if lines.len() > 0 {
            let first_key: TextKey = (chars_of("first_native_line"), copy_chars(&lines[0]), Vec::new());
            assert(key_view(first_key) == first_kv);
            add_keyed_page(&mut entries, first_key, page);
            let last = lines.len() - 1;
            if !chars_equal(lines[last].as_slice(), lines[0].as_slice()) {
                distinct_last = true;
                let last_key: TextKey = (chars_of("last_native_line"), copy_chars(&lines[last]), Vec::new());
                assert(key_view(last_key) == last_kv);
                add_keyed_page(&mut entries, last_key, page);
            }
        }
        assert(distinct_last <==> (ls.len() > 0 && ls.last() != ls[0]));
        proof {
            let next = ts.take(i + 1);
            assert(next.drop_last() == ts.take(i as int));
            assert(next.last() == ts[i as int]);
            assert((next.len() - 1) as u32 == page);
            assert forall|k: (Seq<char>, Seq<char>, Seq<char>)| #[trigger] entry_pages(entries@, k) == margin_pages(
                next,
                k,
            ) by {
                if k.2.len() == 0 {
                    assert(k.2 =~= Seq::<char>::empty());
                }
                assert(margin_key(ts[i as int], k) <==> (ls.len() > 0 && (k == first_kv || (
                distinct_last && k == last_kv))));
            }
        }
        i = i + 1;
    }
    assert(ts.take(texts@.len() as int) == ts);
    let mut out: Vec<RepeatedMarginTextHint> = Vec::new();
    let ghost mut keys: Seq<(Seq<char>, Seq<char>, Seq<char>)> = Seq::empty();
    let ghost mut kpos: Seq<int> = Seq::empty();
    let mut e: usize = 0;
    while e < entries.len()
        invariant
            keys_increasing(entries@),
            forall|k: (Seq<char>, Seq<char>, Seq<char>)|
                #[trigger] entry_pages(entries@, k) == margin_pages(ts, k),
            e <= entries@.len(),
            keys.len() == kpos.len(),
            keys.len() == out@.len(),
            forall|a: int|
                0 <= a < kpos.len() ==> 0 <= #[trigger] kpos[a] < e && keys[a] == key_view(
                    entries@[kpos[a]].0,
                ) && entries@[kpos[a]].1@.len() > 1,
            forall|a: int, b: int| 0 <= a < b < kpos.len() ==> kpos[a] < kpos[b],
            forall|p: int|
                0 <= p < e && (#[trigger] entries@[p]).1@.len() > 1 ==> keys.contains(
                    key_view(entries@[p].0),
                ),
            forall|k: int|
                0 <= k < keys.len() ==> {
                    &&& (#[trigger] out@[k]).position@ == keys[k].0
                    &&& out@[k].text_sha256@ == sha256(encode_utf8(keys[k].1))
                    &&& out@[k].page_indexes@ == margin_pages(ts, keys[k])
                },
        decreases entries@.len() - e,
    {
        if entries[e].1.len() > 1 {
            let key = &entries[e].0;
            let position = string_from_chars(key.0.as_slice());
            let text = string_from_chars(key.1.as_slice());
            let digest = Sha256Digest::of_bytes(text.as_str().as_bytes());
            let pages = copy_pages(&entries[e].1);
            proof {
                lemma_entry_pages_at(entries@, e as int);
            }
            out.push(RepeatedMarginTextHint { position, text_sha256: digest, page_indexes: pages });
            proof {
                let ghost old_keys = keys;
                keys = keys.push(key_view(entries@[e as int].0));
                kpos = kpos.push(e as int);
                assert forall|p: int|
                    0 <= p < e + 1 && (#[trigger] entries@[p]).1@.len() > 1 implies keys.contains(
                    key_view(entries@[p].0),
                ) by {
                    if p == e {
                        assert(keys[keys.len() - 1] == key_view(entries@[p].0));
                    } else {
                        assert(old_keys.contains(key_view(entries@[p].0)));
                        let w = choose|w: int| 0 <= w < old_keys.len() && old_keys[w] == key_view(entries@[p].0);
                        assert(keys[w] == old_keys[w]);
                    }
                }
            }
        }
        e = e + 1;
    }
    proof {
        assert forall|a: int, b: int| 0 <= a < b < keys.len() implies key_before(
            #[trigger] keys[a],
            #[trigger] keys[b],
        ) by {
            assert(kpos[a] < kpos[b]);
        }
        assert forall|k: (Seq<char>, Seq<char>, Seq<char>)| #[trigger] keys.contains(k) <==> margin_pages(
            ts,
            k,
        ).len() > 1 by {
            if keys.contains(k) {
                let a = choose|a: int| 0 <= a < keys.len() && keys[a] == k;
                lemma_entry_pages_at(entries@, kpos[a]);
            }
            if margin_pages(ts, k).len() > 1 {
                assert(entry_pages(entries@, k).len() > 1);
                let p = choose|p: int| 0 <= p < entries@.len() && key_view(entries@[p].0) == k;
                lemma_entry_pages_at(entries@, p);
                assert(entries@[p].1@.len() > 1);
            }
        }
        assert(repeated_margin_keys(ts, keys));
    }
    out
}
} // verus!
