//! Canonical textual identifiers used by schemas, manifests, and protocol messages.

use vstd::prelude::*;

use crate::error::CoreError;
use crate::text::{
    all_digits, char_is_digit, chars_equal_at, chars_of, decimal, digit_of, digit_value,
    digits_value, is_digit, is_lower, is_upper, lemma_decimal, push_char, push_decimal,
    string_from_chars,
};

verus! {

/// A capability an engine can provide.
#[derive(Debug, Clone, Copy, PartialEq, Eq, PartialOrd, Ord, Hash, Structural)]
pub enum Capability {
    /// Open and inspect a document container.
    DocumentOpen,
    /// Render a document page.
    PageRender,
    /// Extract native text.
    TextExtract,
    /// Detect layout regions.
    LayoutDetect,
    /// Determine reading order.
    ReadingOrderDetect,
    /// OCR a complete page.
    OcrPage,
    /// OCR one region.
    OcrRegion,
    /// Recognize a table.
    TableRecognize,
    /// Recognize a formula.
    FormulaRecognize,
    /// Score evidence quality.
    QualityScore,
}

/// The canonical dotted name of a capability.
pub open spec fn capability_text(c: Capability) -> Seq<char> {
    match c {
        Capability::DocumentOpen => "document.open"@,
        Capability::PageRender => "page.render"@,
        Capability::TextExtract => "text.extract"@,
        Capability::LayoutDetect => "layout.detect"@,
        Capability::ReadingOrderDetect => "reading-order.detect"@,
        Capability::OcrPage => "ocr.page"@,
        Capability::OcrRegion => "ocr.region"@,
        Capability::TableRecognize => "table.recognize"@,
        Capability::FormulaRecognize => "formula.recognize"@,
        Capability::QualityScore => "quality.score"@,
    }
}

/// The capability whose canonical name is `s`, if any.
pub open spec fn capability_from_text(s: Seq<char>) -> Option<Capability> {
    if s == "document.open"@ {
        Some(Capability::DocumentOpen)
    } else if s == "page.render"@ {
        Some(Capability::PageRender)
    } else if s == "text.extract"@ {
        Some(Capability::TextExtract)
    } else if s == "layout.detect"@ {
        Some(Capability::LayoutDetect)
    } else if s == "reading-order.detect"@ {
        Some(Capability::ReadingOrderDetect)
    } else if s == "ocr.page"@ {
        Some(Capability::OcrPage)
    } else if s == "ocr.region"@ {
        Some(Capability::OcrRegion)
    } else if s == "table.recognize"@ {
        Some(Capability::TableRecognize)
    } else if s == "formula.recognize"@ {
        Some(Capability::FormulaRecognize)
    } else if s == "quality.score"@ {
        Some(Capability::QualityScore)
    } else {
        None
    }
}

/// The capability a user-facing alias or canonical name denotes.
pub open spec fn capability_from_cli(s: Seq<char>) -> Option<Capability> {
    if s == "ocr"@ {
        Some(Capability::OcrPage)
    } else if s == "table"@ {
        Some(Capability::TableRecognize)
    } else if s == "formula"@ {
        Some(Capability::FormulaRecognize)
    } else if s == "quality"@ {
        Some(Capability::QualityScore)
    } else {
        capability_from_text(s)
    }
}

/// True when `s` is exactly the literal `lit`.
fn text_is(v: &Vec<char>, lit: &str) -> (r: bool)
    ensures
        r == (v@ == lit@),
{
    assert(v@.subrange(0, v@.len() as int) == v@);
    chars_equal_at(v.as_slice(), 0, v.len(), lit)
}

/// Appends the characters of `lit`.
pub fn push_str(s: &mut String, lit: &str)
    ensures
        final(s)@ == old(s)@ + lit@,
{
    let v = chars_of(lit);
    let ghost start = s@;
    let mut i: usize = 0;
    while i < v.len()
        invariant
            i <= v@.len(),
            v@ == lit@,
            s@ == start + v@.take(i as int),
        decreases v@.len() - i,
    {
        push_char(s, v[i]);
        assert(v@.take(i + 1) == v@.take(i as int).push(v@[i as int]));
        i = i + 1;
    }
    assert(v@.take(i as int) == v@);
}

/// Builds a string holding the characters of `lit`.
pub fn owned(lit: &str) -> (s: String)
    ensures
        s@ == lit@,
{
    let mut s = String::new();
    push_str(&mut s, lit);
    s
}

impl Capability {
    /// The canonical dotted name.
    pub fn to_string(&self) -> (s: String)
        ensures
            s@ == capability_text(*self),
    {
        owned(
            match self {
                Capability::DocumentOpen => "document.open",
                Capability::PageRender => "page.render",
                Capability::TextExtract => "text.extract",
                Capability::LayoutDetect => "layout.detect",
                Capability::ReadingOrderDetect => "reading-order.detect",
                Capability::OcrPage => "ocr.page",
                Capability::OcrRegion => "ocr.region",
                Capability::TableRecognize => "table.recognize",
                Capability::FormulaRecognize => "formula.recognize",
                Capability::QualityScore => "quality.score",
            },
        )
    }

    /// Parses a canonical dotted capability name.
    pub fn parse(input: &str) -> (r: Result<Self, CoreError>)
        ensures
            match capability_from_text(input@) {
                Some(c) => r == Ok::<Capability, CoreError>(c),
                None => r is Err && r->Err_0.is_invalid_text("capability"@, input@),
            },
    {
        let v = chars_of(input);
        if text_is(&v, "document.open") {
            Ok(Capability::DocumentOpen)
        } else if text_is(&v, "page.render") {
            Ok(Capability::PageRender)
        } else if text_is(&v, "text.extract") {
            Ok(Capability::TextExtract)
        } else if text_is(&v, "layout.detect") {
            Ok(Capability::LayoutDetect)
        } else if text_is(&v, "reading-order.detect") {
            Ok(Capability::ReadingOrderDetect)
        } else if text_is(&v, "ocr.page") {
            Ok(Capability::OcrPage)
        } else if text_is(&v, "ocr.region") {
            Ok(Capability::OcrRegion)
        } else if text_is(&v, "table.recognize") {
            Ok(Capability::TableRecognize)
        } else if text_is(&v, "formula.recognize") {
            Ok(Capability::FormulaRecognize)
        } else if text_is(&v, "quality.score") {
            Ok(Capability::QualityScore)
        } else {
            Err(
                CoreError::InvalidText {
                    kind: "capability",
                    value: input.to_owned(),
                    reason: "expected a canonical dotted capability",
                },
            )
        }
    }

    /// Parses user-facing aliases at a CLI boundary. Serialization remains canonical.
    pub fn parse_cli(input: &str) -> (r: Result<Self, CoreError>)
        ensures
            match capability_from_cli(input@) {
                Some(c) => r == Ok::<Capability, CoreError>(c),
                None => r is Err && r->Err_0.is_invalid_text("capability"@, input@),
            },
    {
        let v = chars_of(input);
        if text_is(&v, "ocr") {
            Ok(Capability::OcrPage)
        } else if text_is(&v, "table") {
            Ok(Capability::TableRecognize)
        } else if text_is(&v, "formula") {
            Ok(Capability::FormulaRecognize)
        } else if text_is(&v, "quality") {
            Ok(Capability::QualityScore)
        } else {
            Capability::parse(input)
        }
    }
}

impl std::str::FromStr for Capability {
    type Err = CoreError;

    fn from_str(input: &str) -> (r: Result<Self, Self::Err>)
        ensures
            match capability_from_text(input@) {
                Some(c) => r == Ok::<Capability, CoreError>(c),
                None => r is Err && r->Err_0.is_invalid_text("capability"@, input@),
            },
    {
        Capability::parse(input)
    }
}

/// Each capability's canonical name parses back to that capability.
pub proof fn lemma_capability_text_round_trip(c: Capability)
    ensures
        capability_from_text(capability_text(c)) == Some(c),
{
    reveal_strlit("document.open");
    reveal_strlit("page.render");
    reveal_strlit("text.extract");
    reveal_strlit("layout.detect");
    reveal_strlit("reading-order.detect");
    reveal_strlit("ocr.page");
    reveal_strlit("ocr.region");
    reveal_strlit("table.recognize");
    reveal_strlit("formula.recognize");
    reveal_strlit("quality.score");
    let names = seq![
        "document.open"@,
        "page.render"@,
        "text.extract"@,
        "layout.detect"@,
        "reading-order.detect"@,
        "ocr.page"@,
        "ocr.region"@,
        "table.recognize"@,
        "formula.recognize"@,
        "quality.score"@,
    ];
    assert forall|i: int, j: int| 0 <= i < j < 10 implies names[i] != names[j] by {
        assert(names[i].len() != names[j].len() || names[i][0] != names[j][0] || names[i][1]
            != names[j][1] || names[i][4] != names[j][4]);
    }
}

/// A built-in planning profile name.
#[derive(Debug, Clone, Copy, PartialEq, Eq, PartialOrd, Ord, Hash)]
pub enum Profile {
    /// Prefer minimum latency.
    Fast,
    /// Balance quality and resource use.
    Balanced,
    /// Prefer quality.
    Accurate,
    /// Restrict work to CPU devices.
    Cpu,
    /// Enforce a small explicit VRAM budget.
    LowVram,
    /// Reject network-dependent candidates.
    Offline,
    /// Reject candidates that disclose document content.
    Private,
    /// Prefer minimum monetary cost.
    Cheap,
}

/// The canonical kebab-case name of a profile.
pub open spec fn profile_text(p: Profile) -> Seq<char> {
    match p {
        Profile::Fast => "fast"@,
        Profile::Balanced => "balanced"@,
        Profile::Accurate => "accurate"@,
        Profile::Cpu => "cpu"@,
        Profile::LowVram => "low-vram"@,
        Profile::Offline => "offline"@,
        Profile::Private => "private"@,
        Profile::Cheap => "cheap"@,
    }
}

/// The profile whose canonical name is `s`, if any.
pub open spec fn profile_from_text(s: Seq<char>) -> Option<Profile> {
    if s == "fast"@ {
        Some(Profile::Fast)
    } else if s == "balanced"@ {
        Some(Profile::Balanced)
    } else if s == "accurate"@ {
        Some(Profile::Accurate)
    } else if s == "cpu"@ {
        Some(Profile::Cpu)
    } else if s == "low-vram"@ {
        Some(Profile::LowVram)
    } else if s == "offline"@ {
        Some(Profile::Offline)
    } else if s == "private"@ {
        Some(Profile::Private)
    } else if s == "cheap"@ {
        Some(Profile::Cheap)
    } else {
        None
    }
}

impl Profile {
    /// The canonical kebab-case name.
    pub fn to_string(&self) -> (s: String)
        ensures
            s@ == profile_text(*self),
    {
        owned(
            match self {
                Profile::Fast => "fast",
                Profile::Balanced => "balanced",
                Profile::Accurate => "accurate",
                Profile::Cpu => "cpu",
                Profile::LowVram => "low-vram",
                Profile::Offline => "offline",
                Profile::Private => "private",
                Profile::Cheap => "cheap",
            },
        )
    }

    /// Parses a canonical profile name.
    pub fn parse(input: &str) -> (r: Result<Self, CoreError>)
        ensures
            match profile_from_text(input@) {
                Some(p) => r == Ok::<Profile, CoreError>(p),
                None => r is Err && r->Err_0.is_invalid_text("profile"@, input@),
            },
    {
        let v = chars_of(input);
        if text_is(&v, "fast") {
            Ok(Profile::Fast)
        } else if text_is(&v, "balanced") {
            Ok(Profile::Balanced)
        } else if text_is(&v, "accurate") {
            Ok(Profile::Accurate)
        } else if text_is(&v, "cpu") {
            Ok(Profile::Cpu)
        } else if text_is(&v, "low-vram") {
            Ok(Profile::LowVram)
        } else if text_is(&v, "offline") {
            Ok(Profile::Offline)
        } else if text_is(&v, "private") {
            Ok(Profile::Private)
        } else if text_is(&v, "cheap") {
            Ok(Profile::Cheap)
        } else {
            Err(
                CoreError::InvalidText {
                    kind: "profile",
                    value: input.to_owned(),
                    reason: "expected a canonical profile name",
                },
            )
        }
    }
}

impl std::str::FromStr for Profile {
    type Err = CoreError;

    fn from_str(input: &str) -> (r: Result<Self, Self::Err>)
        ensures
            match profile_from_text(input@) {
                Some(p) => r == Ok::<Profile, CoreError>(p),
                None => r is Err && r->Err_0.is_invalid_text("profile"@, input@),
            },
    {
        Profile::parse(input)
    }
}

impl DeepView for Capability {
    type V = Capability;

    open spec fn deep_view(&self) -> Capability {
        *self
    }
}

/// A physical device family, separate from inference backend and placement policy.
#[derive(Debug, Clone, Copy, PartialEq, Eq, PartialOrd, Ord, Hash, Structural)]
pub enum DeviceKind {
    /// Host CPU.
    Cpu,
    /// NVIDIA CUDA device.
    Cuda,
    /// Vulkan compute device.
    Vulkan,
    /// Apple Metal device.
    Metal,
    /// WebGPU-compatible device.
    Wgpu,
}

impl DeepView for DeviceKind {
    type V = DeviceKind;

    open spec fn deep_view(&self) -> DeviceKind {
        *self
    }
}

/// CPU and Metal devices are unindexed; CUDA, Vulkan, and WGPU devices require an index.
pub open spec fn device_shape_valid(kind: DeviceKind, index: Option<u32>) -> bool {
    match kind {
        DeviceKind::Cpu | DeviceKind::Metal => index is None,
        DeviceKind::Cuda | DeviceKind::Vulkan | DeviceKind::Wgpu => index is Some,
    }
}

/// A canonical physical device identifier such as `cpu` or `cuda:0`.
#[derive(Debug, Clone, Copy, PartialEq, Eq, PartialOrd, Ord, Hash, Structural)]
pub struct DeviceId {
    kind: DeviceKind,
    index: Option<u32>,
}

impl View for DeviceId {
    type V = (DeviceKind, Option<u32>);

    closed spec fn view(&self) -> (DeviceKind, Option<u32>) {
        (self.kind, self.index)
    }
}

/// Devices are equal exactly when their family and index are.
pub broadcast proof fn lemma_device_view_injective(a: DeviceId, b: DeviceId)
    ensures
        #![trigger a@, b@]
        a@ == b@ <==> a == b,
{
}

/// The canonical text of a device: `cpu`, `metal`, or `<family>:<index>`.
pub open spec fn device_text(kind: DeviceKind, index: Option<u32>) -> Seq<char> {
    match (kind, index) {
        (DeviceKind::Cpu, _) => "cpu"@,
        (DeviceKind::Metal, _) => "metal"@,
        (DeviceKind::Cuda, Some(i)) => "cuda:"@ + decimal(i as nat),
        (DeviceKind::Vulkan, Some(i)) => "vulkan:"@ + decimal(i as nat),
        (DeviceKind::Wgpu, Some(i)) => "wgpu:"@ + decimal(i as nat),
        (_, None) => Seq::empty(),
    }
}

/// Index of the first occurrence of `c` in `s`.
pub open spec fn index_of(s: Seq<char>, c: char) -> Option<nat>
    decreases s.len(),
{
    if s.len() == 0 {
        None
    } else if s[0] == c {
        Some(0)
    } else {
        match index_of(s.drop_first(), c) {
            Some(i) => Some(i + 1),
            None => None,
        }
    }
}

/// The unsigned integer that `u32::from_str` reads from `s`: an optional `+`, then digits.
pub open spec fn parse_u32_spec(s: Seq<char>) -> Option<u32> {
    let digits = if s.len() > 0 && s[0] == '+' {
        s.drop_first()
    } else {
        s
    };
    if digits.len() == 0 || !all_digits(digits) || digits_value(digits) > u32::MAX {
        None
    } else {
        Some(digits_value(digits) as u32)
    }
}

/// The unsigned integer that `u64::from_str` reads from `s`: an optional `+`, then digits.
pub open spec fn parse_u64_spec(s: Seq<char>) -> Option<u64> {
    let digits = if s.len() > 0 && s[0] == '+' {
        s.drop_first()
    } else {
        s
    };
    if digits.len() == 0 || !all_digits(digits) || digits_value(digits) > u64::MAX {
        None
    } else {
        Some(digits_value(digits) as u64)
    }
}

/// The indexed device family named by `s`.
pub open spec fn indexed_family(s: Seq<char>) -> Option<DeviceKind> {
    if s == "cuda"@ {
        Some(DeviceKind::Cuda)
    } else if s == "vulkan"@ {
        Some(DeviceKind::Vulkan)
    } else if s == "wgpu"@ {
        Some(DeviceKind::Wgpu)
    } else {
        None
    }
}

/// The device that `DeviceId::parse` reads from `s`.
pub open spec fn device_from_text(s: Seq<char>) -> Option<(DeviceKind, Option<u32>)> {
    if s == "cpu"@ {
        Some((DeviceKind::Cpu, None))
    } else if s == "metal"@ {
        Some((DeviceKind::Metal, None))
    } else {
        match index_of(s, ':') {
            None => None,
            Some(p) => match (indexed_family(s.take(p as int)), parse_u32_spec(s.skip(p as int + 1))) {
                (Some(kind), Some(i)) => Some((kind, Some(i))),
                _ => None,
            },
        }
    }
}

impl DeviceId {
    #[verifier::type_invariant]
    spec fn well_shaped(self) -> bool {
        device_shape_valid(self.kind, self.index)
    }

    /// Creates a device while enforcing which families require an index.
    pub fn new(kind: DeviceKind, index: Option<u32>) -> (r: Result<Self, CoreError>)
        ensures
            device_shape_valid(kind, index) ==> r is Ok && r->Ok_0@ == (kind, index),
            !device_shape_valid(kind, index) ==> r is Err && r->Err_0 is InvalidText
                && r->Err_0->InvalidText_kind@ == "device"@,
    {
        let valid = match kind {
            DeviceKind::Cpu | DeviceKind::Metal => index.is_none(),
            DeviceKind::Cuda | DeviceKind::Vulkan | DeviceKind::Wgpu => index.is_some(),
        };
        if !valid {
            return Err(
                CoreError::InvalidText {
                    kind: "device",
                    value: owned("unindexed CPU/Metal or indexed CUDA/Vulkan/WGPU expected"),
                    reason: "CPU and Metal are unindexed; CUDA, Vulkan, and WGPU require an index",
                },
            );
        }
        Ok(DeviceId { kind, index })
    }

    /// Returns the physical device family.
    pub fn kind(&self) -> (k: DeviceKind)
        ensures
            k == self@.0,
    {
        self.kind
    }

    /// Returns the device index when the family is indexed.
    pub fn index(&self) -> (i: Option<u32>)
        ensures
            i == self@.1,
            device_shape_valid(self@.0, i),
    {
        proof {
            use_type_invariant(self);
        }
        self.index
    }

    /// The canonical text of the device.
    pub fn to_string(&self) -> (s: String)
        ensures
            s@ == device_text(self@.0, self@.1),
            device_shape_valid(self@.0, self@.1),
    {
        proof {
            use_type_invariant(self);
        }
        match (self.kind, self.index) {
            (DeviceKind::Cpu, _) => owned("cpu"),
            (DeviceKind::Metal, _) => owned("metal"),
            (DeviceKind::Cuda, Some(i)) => {
                let mut s = owned("cuda:");
                push_decimal(&mut s, i as u64);
                s
            },
            (DeviceKind::Vulkan, Some(i)) => {
                let mut s = owned("vulkan:");
                push_decimal(&mut s, i as u64);
                s
            },
            (DeviceKind::Wgpu, Some(i)) => {
                let mut s = owned("wgpu:");
                push_decimal(&mut s, i as u64);
                s
            },
            (_, None) => String::new(),
        }
    }

    /// Parses `cpu`, `metal`, or a `kind:index` pair.
    pub fn parse(input: &str) -> (r: Result<Self, CoreError>)
        ensures
            match device_from_text(input@) {
                Some(d) => r is Ok && r->Ok_0@ == d,
                None => r is Err && r->Err_0.is_invalid_text("device"@, input@),
            },
    {
        let v = chars_of(input);
        if text_is(&v, "cpu") {
            return Ok(DeviceId { kind: DeviceKind::Cpu, index: None });
        }
        if text_is(&v, "metal") {
            return Ok(DeviceId { kind: DeviceKind::Metal, index: None });
        }
        let colon = find_char(&v, ':');
        if colon.is_none() {
            return Err(device_error(input));
        }
        let p = colon.unwrap();
        assert(p < v@.len());
        assert(v@.take(p as int) == v@.subrange(0, p as int));
        assert(v@.skip(p + 1) == v@.subrange(p + 1, v@.len() as int));
        let kind = if chars_equal_at(v.as_slice(), 0, p, "cuda") {
            DeviceKind::Cuda
        } else if chars_equal_at(v.as_slice(), 0, p, "vulkan") {
            DeviceKind::Vulkan
        } else if chars_equal_at(v.as_slice(), 0, p, "wgpu") {
            DeviceKind::Wgpu
        } else {
            return Err(device_error(input));
        };
        match parse_u32_at(v.as_slice(), p + 1, v.len()) {
            Some(i) => Ok(DeviceId { kind, index: Some(i) }),
            None => Err(device_error(input)),
        }
    }
}

impl std::str::FromStr for DeviceId {
    type Err = CoreError;

    fn from_str(input: &str) -> (r: Result<Self, Self::Err>)
        ensures
            match device_from_text(input@) {
                Some(d) => r is Ok && r->Ok_0@ == d,
                None => r is Err && r->Err_0.is_invalid_text("device"@, input@),
            },
    {
        DeviceId::parse(input)
    }
}

/// The error for an unreadable device text.
fn device_error(input: &str) -> (e: CoreError)
    ensures
        e.is_invalid_text("device"@, input@),
{
    CoreError::InvalidText {
        kind: "device",
        value: input.to_owned(),
        reason: "expected cpu, metal, or a cuda/vulkan/wgpu:index pair",
    }
}

/// Index of the first `c` in `v`.
pub fn find_char(v: &Vec<char>, c: char) -> (r: Option<usize>)
    ensures
        match index_of(v@, c) {
            Some(i) => r == Some(i as usize) && i < v@.len(),
            None => r is None,
        },
        r matches Some(p) ==> p < v@.len() && v@[p as int] == c,
        r is None ==> !v@.contains(c),
{
    let mut i: usize = 0;
    while i < v.len()
        invariant
            i <= v@.len(),
            forall|j: int| 0 <= j < i ==> v@[j] != c,
        decreases v@.len() - i,
    {
        if v[i] == c {
            proof {
                lemma_index_of_first(v@, c, i as int);
            }
            return Some(i);
        }
        i = i + 1;
    }
    proof {
        lemma_index_of_absent(v@, c);
    }
    None
}

/// `index_of` finds the first occurrence.
pub proof fn lemma_index_of_first(s: Seq<char>, c: char, i: int)
    requires
        0 <= i < s.len(),
        s[i] == c,
        forall|j: int| 0 <= j < i ==> s[j] != c,
    ensures
        index_of(s, c) == Some(i as nat),
    decreases i,
{
    if i > 0 {
        lemma_index_of_first(s.drop_first(), c, i - 1);
    }
}

/// `index_of` finds nothing when the character is absent.
pub proof fn lemma_index_of_absent(s: Seq<char>, c: char)
    requires
        forall|j: int| 0 <= j < s.len() ==> s[j] != c,
    ensures
        index_of(s, c) is None,
    decreases s.len(),
{
    if s.len() > 0 {
        lemma_index_of_absent(s.drop_first(), c);
    }
}

/// Reads `v[from..to]` as `u32::from_str` does.
pub fn parse_u32_at(v: &[char], from: usize, to: usize) -> (r: Option<u32>)
    requires
        from <= to <= v@.len(),
    ensures
        r == parse_u32_spec(v@.subrange(from as int, to as int)),
{
    let ghost s = v@.subrange(from as int, to as int);
    let mut start = from;
    if from < to && v[from] == '+' {
        start = from + 1;
        assert(s.drop_first() == v@.subrange(start as int, to as int));
    }
    let ghost digits = v@.subrange(start as int, to as int);
    assert(digits == (if s.len() > 0 && s[0] == '+' {
        s.drop_first()
    } else {
        s
    }));
    if start == to {
        return None;
    }
    let mut i = start;
    while i < to
        invariant
            start <= i <= to,
            to <= v@.len(),
            digits == v@.subrange(start as int, to as int),
            s == v@.subrange(from as int, to as int),
            digits == (if s.len() > 0 && s[0] == '+' {
                s.drop_first()
            } else {
                s
            }),
            forall|j: int| start <= j < i ==> is_digit(#[trigger] v@[j]),
        decreases to - i,
    {
        if !char_is_digit(v[i]) {
            proof {
                assert(!is_digit(digits[i - start]));
            }
            return None;
        }
        i = i + 1;
    }
    assert(all_digits(digits)) by {
        assert forall|j: int| 0 <= j < digits.len() implies is_digit(#[trigger] digits[j]) by {
            assert(is_digit(v@[start + j]));
        }
    }
    match crate::text::parse_digits_u128(v, start, to) {
        Some(x) => {
            if x > u32::MAX as u128 {
                None
            } else {
                Some(x as u32)
            }
        },
        None => None,
    }
}

/// Reads `v[from..to]` as `u64::from_str` does.
pub fn parse_u64_at(v: &[char], from: usize, to: usize) -> (r: Option<u64>)
    requires
        from <= to <= v@.len(),
    ensures
        r == parse_u64_spec(v@.subrange(from as int, to as int)),
{
    let ghost s = v@.subrange(from as int, to as int);
    let mut start = from;
    if from < to && v[from] == '+' {
        start = from + 1;
        assert(s.drop_first() == v@.subrange(start as int, to as int));
    }
    let ghost digits = v@.subrange(start as int, to as int);
    assert(digits == (if s.len() > 0 && s[0] == '+' {
        s.drop_first()
    } else {
        s
    }));
    if start == to {
        return None;
    }
    let mut i = start;
    while i < to
        invariant
            start <= i <= to,
            to <= v@.len(),
            digits == v@.subrange(start as int, to as int),
            s == v@.subrange(from as int, to as int),
            digits == (if s.len() > 0 && s[0] == '+' {
                s.drop_first()
            } else {
                s
            }),
            forall|j: int| start <= j < i ==> is_digit(#[trigger] v@[j]),
        decreases to - i,
    {
        if !char_is_digit(v[i]) {
            proof {
                assert(!is_digit(digits[i - start]));
            }
            return None;
        }
        i = i + 1;
    }
    assert(all_digits(digits)) by {
        assert forall|j: int| 0 <= j < digits.len() implies is_digit(#[trigger] digits[j]) by {
            assert(is_digit(v@[start + j]));
        }
    }
    match crate::text::parse_digits_u128(v, start, to) {
        Some(x) => {
            if x > u64::MAX as u128 {
                None
            } else {
                Some(x as u64)
            }
        },
        None => None,
    }
}

/// The text of every device parses back to that device.
pub proof fn lemma_device_text_round_trip(kind: DeviceKind, index: Option<u32>)
    requires
        device_shape_valid(kind, index),
    ensures
        device_from_text(device_text(kind, index)) == Some((kind, index)),
{
    reveal_strlit("cpu");
    reveal_strlit("metal");
    reveal_strlit("cuda");
    reveal_strlit("vulkan");
    reveal_strlit("wgpu");
    reveal_strlit("cuda:");
    reveal_strlit("vulkan:");
    reveal_strlit("wgpu:");
    match index {
        Some(i) => {
            let family = match kind {
                DeviceKind::Cuda => "cuda"@,
                DeviceKind::Vulkan => "vulkan"@,
                _ => "wgpu"@,
            };
            let d = decimal(i as nat);
            lemma_decimal(i as nat);
            let t = family + seq![':'] + d;
            assert(device_text(kind, index) == t);
            assert(forall|j: int| 0 <= j < family.len() ==> family[j] != ':');
            lemma_index_of_first(t, ':', family.len() as int);
            assert(t.take(family.len() as int) == family);
            assert(t.skip(family.len() as int + 1) == d);
            assert(is_digit(d[0]));
            assert(d[0] != '+');
            assert(t != "cpu"@ && t != "metal"@) by {
                assert(t[0] == family[0]);
                assert(t.len() != 3 || t[0] != 'c' || t[1] != 'p');
            }
        },
        None => {},
    }
}

/// A character allowed in backend identifiers and media-type tokens.
pub open spec fn token_char(c: char) -> bool {
    is_lower(c) || is_digit(c) || c == '.' || c == '_' || c == '-' || c == '+'
}

/// A nonempty lowercase token that starts with a letter or digit.
pub open spec fn valid_token(s: Seq<char>) -> bool {
    &&& s.len() > 0
    &&& forall|i: int| 0 <= i < s.len() ==> #[trigger] token_char(s[i])
    &&& is_lower(s[0]) || is_upper(s[0]) || is_digit(s[0])
}

/// Checks [`valid_token`] for `v[from..to]`.
pub fn token_at(v: &[char], from: usize, to: usize) -> (r: bool)
    requires
        from <= to <= v@.len(),
    ensures
        r == valid_token(v@.subrange(from as int, to as int)),
{
    let ghost s = v@.subrange(from as int, to as int);
    if from == to {
        return false;
    }
    let mut i = from;
    while i < to
        invariant
            from <= i <= to,
            to <= v@.len(),
            s == v@.subrange(from as int, to as int),
            forall|j: int| 0 <= j < i - from ==> #[trigger] token_char(s[j]),
        decreases to - i,
    {
        let c = v[i];
        let ok = ('a' <= c && c <= 'z') || ('0' <= c && c <= '9') || c == '.' || c == '_' || c
            == '-' || c == '+';
        if !ok {
            assert(!token_char(s[i - from]));
            return false;
        }
        i = i + 1;
    }
    let c = v[from];
    ('a' <= c && c <= 'z') || ('A' <= c && c <= 'Z') || ('0' <= c && c <= '9')
}

/// A validated inference backend identifier, independent of physical device.
#[derive(Debug, PartialEq, Eq, PartialOrd, Ord, Hash)]
pub struct BackendId(String);

impl Clone for BackendId {
    fn clone(&self) -> (r: Self)
        ensures
            r == *self,
            r@ == self@,
    {
        proof {
            use_type_invariant(self);
        }
        BackendId(self.0.clone())
    }
}

impl View for BackendId {
    type V = Seq<char>;

    closed spec fn view(&self) -> Seq<char> {
        self.0@
    }
}

impl BackendId {
    #[verifier::type_invariant]
    spec fn well_formed(self) -> bool {
        valid_token(self.0@)
    }

    /// Creates a lowercase backend identifier.
    pub fn new(input: &str) -> (r: Result<Self, CoreError>)
        ensures
            valid_token(input@) ==> r is Ok && r->Ok_0@ == input@,
            !valid_token(input@) ==> r is Err && r->Err_0.is_invalid_text(
                "backend identifier"@,
                input@,
            ),
    {
        let v = chars_of(input);
        assert(v@.subrange(0, v@.len() as int) == v@);
        if token_at(v.as_slice(), 0, v.len()) {
            Ok(BackendId(input.to_owned()))
        } else {
            Err(
                CoreError::InvalidText {
                    kind: "backend identifier",
                    value: input.to_owned(),
                    reason: "expected lowercase ASCII letters, digits, '.', '_', or '-'",
                },
            )
        }
    }

    /// Returns the canonical identifier.
    pub fn as_str(&self) -> (s: &str)
        ensures
            s@ == self@,
            valid_token(s@),
    {
        proof {
            use_type_invariant(self);
        }
        self.0.as_str()
    }

    /// True when both identifiers are the same text.
    pub fn same_as(&self, other: &BackendId) -> (r: bool)
        ensures
            r == (self@ == other@),
    {
        self.0 == other.0
    }
}

/// ASCII lowercase of one character; other characters are unchanged.
pub open spec fn lower_char(c: char) -> char {
    if is_upper(c) {
        ((c as u32) + 32) as char
    } else {
        c
    }
}

/// ASCII lowercase of a text, as `str::to_ascii_lowercase` computes it.
pub open spec fn ascii_lowercase(s: Seq<char>) -> Seq<char> {
    s.map_values(|c: char| lower_char(c))
}

/// The normalized media type that `MediaType::new` accepts for `input`.
pub open spec fn media_type_from(input: Seq<char>) -> Option<Seq<char>> {
    let n = ascii_lowercase(input);
    match index_of(n, '/') {
        None => None,
        Some(p) => if valid_token(n.take(p as int)) && valid_token(n.skip(p as int + 1))
            && !n.contains(';') {
            Some(n)
        } else {
            None
        },
    }
}

/// Lowercases the ASCII letters of `v`.
fn lowercase_chars(v: &Vec<char>) -> (r: Vec<char>)
    ensures
        r@ == ascii_lowercase(v@),
{
    let mut r: Vec<char> = Vec::new();
    let mut i: usize = 0;
    while i < v.len()
        invariant
            i <= v@.len(),
            r@ == ascii_lowercase(v@).take(i as int),
        decreases v@.len() - i,
    {
        let c = v[i];
        let l = if 'A' <= c && c <= 'Z' {
            ((c as u8) + 32) as char
        } else {
            c
        };
        assert(l == lower_char(c)) by {
            if 'A' <= c && c <= 'Z' {
                assert((c as u8) as u32 == c as u32);
            }
        }
        r.push(l);
        assert(ascii_lowercase(v@).take(i + 1) == ascii_lowercase(v@).take(i as int).push(l));
        i = i + 1;
    }
    assert(ascii_lowercase(v@).take(i as int) == ascii_lowercase(v@));
    r
}

/// Why a text is no media type: it has no `/`, or its parts are no tokens or it has
/// parameters.
pub open spec fn media_type_reason(input: Seq<char>) -> Seq<char> {
    if !ascii_lowercase(input).contains('/') {
        "expected type/subtype"@
    } else {
        "expected an ASCII type/subtype without parameters"@
    }
}

/// A normalized lowercase media type without parameters.
#[derive(Debug, PartialEq, Eq, PartialOrd, Ord, Hash)]
pub struct MediaType(String);

impl Clone for MediaType {
    fn clone(&self) -> (r: Self)
        ensures
            r@ == self@,
    {
        proof {
            use_type_invariant(self);
        }
        MediaType(self.0.clone())
    }
}

impl View for MediaType {
    type V = Seq<char>;

    closed spec fn view(&self) -> Seq<char> {
        self.0@
    }
}

impl MediaType {
    #[verifier::type_invariant]
    spec fn normalized(self) -> bool {
        media_type_from(self.0@) == Some(self.0@)
    }

    /// Parses and normalizes an Internet media type.
    pub fn new(input: &str) -> (r: Result<Self, CoreError>)
        ensures
            match media_type_from(input@) {
                Some(n) => r is Ok && r->Ok_0@ == n,
                None => r is Err && r->Err_0.is_invalid_text("media type"@, input@)
                    && r->Err_0->InvalidText_reason@ == media_type_reason(input@),
            },
    {
        let v = chars_of(input);
        let n = lowercase_chars(&v);
        let slash = find_char(&n, '/');
        if slash.is_none() {
            return Err(media_type_error(input, "expected type/subtype"));
        }
        let p = slash.unwrap();
        assert(p < n@.len());
        assert(n@.take(p as int) == n@.subrange(0, p as int));
        assert(n@.skip(p as int + 1) == n@.subrange(p + 1, n@.len() as int));
        let ok = token_at(n.as_slice(), 0, p) && token_at(n.as_slice(), p + 1, n.len())
            && find_char(&n, ';').is_none();
        if !ok {
            assert(ascii_lowercase(input@).contains('/'));
            return Err(media_type_error(input, "expected an ASCII type/subtype without parameters"));
        }
        proof {
            lemma_lowercase_idempotent(v@);
        }
        Ok(MediaType(string_from_chars(n.as_slice())))
    }

    /// Returns the canonical lowercase representation.
    pub fn as_str(&self) -> (s: &str)
        ensures
            s@ == self@,
            media_type_from(s@) == Some(s@),
    {
        proof {
            use_type_invariant(self);
        }
        self.0.as_str()
    }
}

/// Lowercasing twice is lowercasing once.
proof fn lemma_lowercase_idempotent(s: Seq<char>)
    ensures
        ascii_lowercase(ascii_lowercase(s)) == ascii_lowercase(s),
{
    assert forall|i: int| 0 <= i < s.len() implies lower_char(lower_char(s[i])) == lower_char(
        s[i],
    ) by {
        let c = s[i];
        if is_upper(c) {
            assert(!is_upper(lower_char(c)));
        }
    }
    assert(ascii_lowercase(ascii_lowercase(s)) =~= ascii_lowercase(s));
}

/// The error for an unacceptable media type.
fn media_type_error(input: &str, reason: &'static str) -> (e: CoreError)
    ensures
        e.is_invalid_text("media type"@, input@),
        e->InvalidText_reason@ == reason@,
{
    CoreError::InvalidText { kind: "media type", value: input.to_owned(), reason }
}

/// Planner placement intent, distinct from backend compatibility and devices.
#[derive(Debug, Clone, Copy, PartialEq, Eq)]
pub enum PlacementPolicy {
    /// Let the planner select a compatible placement.
    Auto,
    /// Restrict execution to CPU.
    CpuOnly,
    /// Require one physical device.
    Require(DeviceId),
    /// Prefer one device but permit another compatible placement.
    Prefer(DeviceId),
}

} // verus!
