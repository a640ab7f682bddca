//! Persistent model manifest contracts.

use vstd::prelude::*;

use crate::canonical::{owned, MediaType};
use crate::digest::Sha256Digest;
use crate::error::CoreError;
use crate::id::ModelId;
use crate::quantity::Bytes;
use crate::schema::{SchemaVersion, CURRENT_SCHEMA_MAJOR};
use crate::text::{chars_of, decimal, push_char, push_decimal, trim, trim_range};

verus! {

/// A character that may not appear in a logical path: a backslash, NUL, or a drive colon.
pub open spec fn forbidden_path_char(c: char) -> bool {
    c == '\\' || c == '\0' || c == ':'
}

/// Position `p` is where a segment begins: the start, or just after a '/'.
pub open spec fn segment_begins(s: Seq<char>, p: int) -> bool {
    p == 0 || s[p - 1] == '/'
}

/// Position `p` is where a segment stops: the end, or at a '/'.
pub open spec fn segment_stops(s: Seq<char>, p: int) -> bool {
    p == s.len() || s[p] == '/'
}

/// The segment beginning at `p` is "." or "..".
pub open spec fn dot_segment_at(s: Seq<char>, p: int) -> bool {
    &&& segment_begins(s, p)
    &&& p < s.len()
    &&& s[p] == '.'
    &&& (segment_stops(s, p + 1) || (p + 1 < s.len() && s[p + 1] == '.' && segment_stops(
        s,
        p + 2,
    )))
}

/// Nonempty slash-separated segments, none of them empty, "." or "..", and no
/// backslash, NUL, or ':' anywhere; so no leading or trailing '/' either.
pub open spec fn valid_relative_path(s: Seq<char>) -> bool {
    &&& forall|i: int| 0 <= i < s.len() ==> !#[trigger] forbidden_path_char(s[i])
    &&& forall|p: int| 0 <= p <= s.len() ==> !(#[trigger] segment_begins(s, p) && segment_stops(s, p))
    &&& forall|p: int| 0 <= p < s.len() ==> !#[trigger] dot_segment_at(s, p)
}

/// The error refusing a logical path.
fn path_error(input: &str) -> (e: CoreError)
    ensures
        e.is_invalid_text("relative path"@, input@),
{
    CoreError::InvalidText {
        kind: "relative path",
        value: input.to_owned(),
        reason: "expected normalized slash-separated segments without traversal or prefix",
    }
}

/// A normalized logical path inside an immutable model view.
#[derive(Debug, PartialEq, Eq, PartialOrd, Ord, Hash)]
pub struct RelativePath(String);

impl View for RelativePath {
    type V = Seq<char>;

    closed spec fn view(&self) -> Seq<char> {
        self.0@
    }
}

impl Clone for RelativePath {
    fn clone(&self) -> (r: Self)
        ensures
            r == *self,
            r@ == self@,
    {
        proof {
            use_type_invariant(self);
        }
        RelativePath(self.0.clone())
    }
}

impl RelativePath {
    #[verifier::type_invariant]
    spec fn well_formed(self) -> bool {
        valid_relative_path(self.0@)
    }

    /// Creates a slash-separated relative path with no traversal or platform prefix.
    pub fn new(input: &str) -> (r: Result<Self, CoreError>)
        ensures
            valid_relative_path(input@) ==> r is Ok && r->Ok_0@ == input@,
            !valid_relative_path(input@) ==> r is Err && r->Err_0.is_invalid_text(
                "relative path"@,
                input@,
            ),
    {
        let v = chars_of(input);
        let n = v.len();
        let mut p: usize = 0;
        while p < n
            invariant
                v@ == input@,
                n == v@.len(),
                p <= n,
                forall|i: int| 0 <= i < p ==> !#[trigger] forbidden_path_char(v@[i]),
                forall|q: int| 0 <= q < p ==> !(#[trigger] segment_begins(v@, q) && segment_stops(v@, q)),
                forall|q: int| 0 <= q < p ==> !#[trigger] dot_segment_at(v@, q),
            decreases n - p,
        {
            let begins = p == 0 || v[p - 1] == '/';
            let stops = v[p] == '/';
            let c = v[p];
            if begins && stops {
                assert(segment_begins(v@, p as int) && segment_stops(v@, p as int));
                return Err(path_error(input));
            }
            if c == '\\' || c == '\0' || c == ':' {
                assert(forbidden_path_char(v@[p as int]));
                return Err(path_error(input));
            }
            if begins && c == '.' {
                let single = p + 1 == n || v[p + 1] == '/';
                let double = p + 1 < n && v[p + 1] == '.' && (p + 2 == n || v[p + 2] == '/');
                if single || double {
                    assert(dot_segment_at(v@, p as int));
                    return Err(path_error(input));
                }
            }
            assert(!dot_segment_at(v@, p as int));
            p = p + 1;
        }
        if n == 0 || v[n - 1] == '/' {
            assert(segment_begins(v@, n as int) && segment_stops(v@, n as int));
            return Err(path_error(input));
        }
        assert forall|q: int| 0 <= q <= v@.len() implies !(#[trigger] segment_begins(v@, q)
            && segment_stops(v@, q)) by {
            if q == n {
                assert(!segment_begins(v@, q));
            }
        }
        Ok(RelativePath(input.to_owned()))
    }

    /// Returns the normalized logical path.
    pub fn as_str(&self) -> (s: &str)
        ensures
            s@ == self@,
            valid_relative_path(s@),
    {
        proof {
            use_type_invariant(self);
        }
        self.0.as_str()
    }

    /// Returns the normalized logical path.
    pub fn to_string(&self) -> (s: String)
        ensures
            s@ == self@,
    {
        self.0.clone()
    }

    /// True when both paths hold the same text.
    pub fn same_as(&self, other: &RelativePath) -> (r: bool)
        ensures
            r == (self@ == other@),
    {
        self.0 == other.0
    }
}

impl std::str::FromStr for RelativePath {
    type Err = CoreError;

    fn from_str(input: &str) -> (r: Result<Self, Self::Err>)
        ensures
            valid_relative_path(input@) ==> r is Ok && r->Ok_0@ == input@,
            !valid_relative_path(input@) ==> r is Err && r->Err_0.is_invalid_text(
                "relative path"@,
                input@,
            ),
    {
        RelativePath::new(input)
    }
}

/// License and source metadata displayed before model installation.
#[derive(Debug, Clone, PartialEq, Eq)]
pub struct LicenseMetadata {
    /// SPDX license expression or `LicenseRef-*` identifier.
    pub expression: String,
    /// Human-readable source location.
    pub source: String,
    /// Optional notice text that must accompany the logical view.
    pub notice: Option<String>,
}

/// An explicit acceptance gate for model installation.
#[derive(Debug, Clone, PartialEq, Eq)]
pub enum AcceptanceRequirement {
    /// The caller must affirm the stated license terms.
    License {
        /// Stable acceptance prompt.
        prompt: String,
    },
    /// The caller must affirm a use restriction supplied by the distributor.
    UsageTerms {
        /// Stable acceptance prompt.
        prompt: String,
    },
}

/// One immutable file in a model manifest.
#[derive(Debug, PartialEq, Eq)]
pub struct ModelFile {
    path: RelativePath,
    digest: Sha256Digest,
    bytes: Bytes,
    media_type: MediaType,
}

impl Clone for ModelFile {
    fn clone(&self) -> (r: Self)
        ensures
            r.path_view() == self.path_view(),
            r.digest_view() == self.digest_view(),
            r.bytes_view() == self.bytes_view(),
            r.media_type_view() == self.media_type_view(),
    {
        proof {
            use_type_invariant(self);
        }
        ModelFile {
            path: self.path.clone(),
            digest: self.digest,
            bytes: self.bytes,
            media_type: self.media_type.clone(),
        }
    }
}

impl ModelFile {
    #[verifier::type_invariant]
    spec fn nonempty(self) -> bool {
        self.bytes@ > 0
    }

    /// The logical path.
    pub closed spec fn path_view(&self) -> Seq<char> {
        self.path@
    }

    /// The expected digest bytes.
    pub closed spec fn digest_view(&self) -> Seq<u8> {
        self.digest@
    }

    /// The expected byte count.
    pub closed spec fn bytes_view(&self) -> u64 {
        self.bytes@
    }

    /// The declared media type.
    pub closed spec fn media_type_view(&self) -> Seq<char> {
        self.media_type@
    }

    /// Creates a nonempty model file record.
    pub fn new(path: RelativePath, digest: Sha256Digest, bytes: Bytes, media_type: MediaType) -> (r:
        Result<Self, CoreError>)
        ensures
            bytes@ == 0 <==> r is Err,
            r is Err ==> r->Err_0.is_invalid_text("model file size"@, "0"@),
            r matches Ok(f) ==> f.path_view() == path@ && f.digest_view() == digest@
                && f.bytes_view() == bytes@ && f.media_type_view() == media_type@,
    {
        if bytes.get() == 0 {
            return Err(
                CoreError::InvalidText {
                    kind: "model file size",
                    value: owned("0"),
                    reason: "model files must be nonempty",
                },
            );
        }
        Ok(ModelFile { path, digest, bytes, media_type })
    }

    /// Logical relative path.
    pub fn path(&self) -> (p: &RelativePath)
        ensures
            p@ == self.path_view(),
    {
        &self.path
    }

    /// Expected content digest.
    pub fn digest(&self) -> (d: Sha256Digest)
        ensures
            d@ == self.digest_view(),
    {
        self.digest
    }

    /// Expected byte count; never zero.
    pub fn bytes(&self) -> (b: Bytes)
        ensures
            b@ == self.bytes_view(),
            b@ > 0,
    {
        proof {
            use_type_invariant(self);
        }
        self.bytes
    }

    /// Declared media type.
    pub fn media_type(&self) -> (m: &MediaType)
        ensures
            m@ == self.media_type_view(),
    {
        &self.media_type
    }
}

/// No two files share a logical path.
pub open spec fn paths_unique(files: Seq<ModelFile>) -> bool {
    forall|i: int, j: int|
        0 <= i < j < files.len() ==> #[trigger] files[i].path_view() != #[trigger] files[j].path_view()
}

/// The kind and rejected value of the first rule a manifest breaks, if any: a foreign
/// major version, a blank revision, no files, a blank license expression or source, or
/// a repeated path, checked in that order.
pub open spec fn manifest_refusal(
    schema_version: SchemaVersion,
    revision: Seq<char>,
    files: Seq<ModelFile>,
    license: LicenseMetadata,
) -> Option<(Seq<char>, Seq<char>)> {
    if schema_version.major != CURRENT_SCHEMA_MAJOR {
        Some(
            (
                "model manifest schema"@,
                decimal(schema_version.major as nat) + seq!['.'] + decimal(
                    schema_version.minor as nat,
                ),
            ),
        )
    } else if trim(revision).len() == 0 {
        Some(("model revision"@, revision))
    } else if files.len() == 0 {
        Some(("model files"@, "[]"@))
    } else if trim(license.expression@).len() == 0 || trim(license.source@).len() == 0 {
        Some(("model license"@, license.expression@))
    } else if !paths_unique(files) {
        Some(("model files"@, "duplicate path"@))
    } else {
        None
    }
}

/// A versioned, content-addressed model manifest.
#[derive(Debug, PartialEq, Eq)]
pub struct ModelManifest {
    schema_version: SchemaVersion,
    id: ModelId,
    revision: String,
    files: Vec<ModelFile>,
    license: LicenseMetadata,
    acceptance: Option<AcceptanceRequirement>,
}

/// True when `s` is empty once surrounding whitespace is removed.
pub(crate) fn is_blank(s: &str) -> (r: bool)
    ensures
        r == (trim(s@).len() == 0),
{
    let v = chars_of(s);
    assert(v@.subrange(0, v@.len() as int) == v@);
    let (i, j) = trim_range(v.as_slice(), 0, v.len());
    i == j
}

/// Index pair of two files with the same path, if any.
fn first_duplicate_path(files: &Vec<ModelFile>) -> (r: bool)
    ensures
        r == !paths_unique(files@),
{
    let mut i: usize = 0;
    while i < files.len()
        invariant
            i <= files@.len(),
            forall|a: int, b: int|
                0 <= a < i && a < b < files@.len() ==> #[trigger] files@[a].path_view()
                    != #[trigger] files@[b].path_view(),
        decreases files@.len() - i,
    {
        let mut j: usize = i + 1;
        while j < files.len()
            invariant
                i < files@.len(),
                i + 1 <= j <= files@.len(),
                forall|a: int, b: int|
                    0 <= a < i && a < b < files@.len() ==> #[trigger] files@[a].path_view()
                        != #[trigger] files@[b].path_view(),
                forall|b: int| i < b < j ==> files@[i as int].path_view() != #[trigger] files@[b].path_view(),
            decreases files@.len() - j,
        {
            if files[i].path.same_as(&files[j].path) {
                assert(files@[i as int].path_view() == files@[j as int].path_view());
                return true;
            }
            j = j + 1;
        }
        i = i + 1;
    }
    false
}

/// The error for the manifest rule named by `kind`, about `value`.
fn manifest_error(kind: &'static str, value: String, reason: &'static str) -> (e: CoreError)
    ensures
        e.is_invalid_text(kind@, value@),
{
    CoreError::InvalidText { kind, value, reason }
}

impl ModelManifest {
    #[verifier::type_invariant]
    spec fn well_formed(self) -> bool {
        manifest_refusal(self.schema_version, self.revision@, self.files@, self.license) is None
    }

    /// The schema version.
    pub closed spec fn schema_view(&self) -> SchemaVersion {
        self.schema_version
    }

    /// The model identity text.
    pub closed spec fn id_view(&self) -> Seq<char> {
        self.id@
    }

    /// The source revision.
    pub closed spec fn revision_view(&self) -> Seq<char> {
        self.revision@
    }

    /// The files, in manifest order.
    pub closed spec fn files_view(&self) -> Seq<ModelFile> {
        self.files@
    }

    /// The license metadata.
    pub closed spec fn license_view(&self) -> LicenseMetadata {
        self.license
    }

    /// The acceptance requirement.
    pub closed spec fn acceptance_view(&self) -> Option<AcceptanceRequirement> {
        self.acceptance
    }

    /// Creates a manifest and validates version, metadata, nonempty files, and unique paths.
    pub fn new(
        schema_version: SchemaVersion,
        id: ModelId,
        revision: &str,
        files: Vec<ModelFile>,
        license: LicenseMetadata,
        acceptance: Option<AcceptanceRequirement>,
    ) -> (r: Result<Self, CoreError>)
        ensures
            match manifest_refusal(schema_version, revision@, files@, license) {
                Some((kind, value)) => r is Err && r->Err_0.is_invalid_text(kind, value),
                None => r is Ok,
            },
            r matches Ok(m) ==> {
                &&& m.schema_view() == schema_version
                &&& m.id_view() == id@
                &&& m.revision_view() == revision@
                &&& m.files_view() == files@
                &&& m.license_view() == license
                &&& m.acceptance_view() == acceptance
            },
    {
        if schema_version.major != CURRENT_SCHEMA_MAJOR {
            let mut value = String::new();
            push_decimal(&mut value, schema_version.major as u64);
            push_char(&mut value, '.');
            push_decimal(&mut value, schema_version.minor as u64);
            proof {
                assert(value@ == decimal(schema_version.major as nat) + seq!['.'] + decimal(
                    schema_version.minor as nat,
                ));
            }
            return Err(manifest_error("model manifest schema", value, "unsupported major version"));
        }
        if is_blank(revision) {
            return Err(manifest_error("model revision", revision.to_owned(), "revision must be nonempty"));
        }
        if files.len() == 0 {
            return Err(manifest_error("model files", owned("[]"), "at least one file is required"));
        }
        if is_blank(license.expression.as_str()) || is_blank(license.source.as_str()) {
            return Err(
                manifest_error(
                    "model license",
                    license.expression.clone(),
                    "license expression and source must be nonempty",
                ),
            );
        }
        if first_duplicate_path(&files) {
            return Err(
                manifest_error("model files", owned("duplicate path"), "logical paths must be unique"),
            );
        }
        Ok(
            ModelManifest {
                schema_version,
                id,
                revision: revision.to_owned(),
                files,
                license,
                acceptance,
            },
        )
    }

    /// Schema version; its major version is always the current one.
    pub fn schema_version(&self) -> (v: SchemaVersion)
        ensures
            v == self.schema_view(),
            v.major == CURRENT_SCHEMA_MAJOR,
    {
        proof {
            use_type_invariant(self);
        }
        self.schema_version
    }

    /// Stable model identity.
    pub fn id(&self) -> (i: &ModelId)
        ensures
            i@ == self.id_view(),
    {
        &self.id
    }

    /// Immutable source revision; never blank.
    pub fn revision(&self) -> (s: &str)
        ensures
            s@ == self.revision_view(),
            trim(s@).len() > 0,
    {
        proof {
            use_type_invariant(self);
        }
        self.revision.as_str()
    }

    /// Manifest files: at least one, with distinct paths.
    pub fn files(&self) -> (f: &[ModelFile])
        ensures
            f@ == self.files_view(),
            f@.len() > 0,
            paths_unique(f@),
    {
        proof {
            use_type_invariant(self);
        }
        self.files.as_slice()
    }

    /// License metadata, with a nonblank expression and source.
    pub fn license(&self) -> (l: &LicenseMetadata)
        ensures
            *l == self.license_view(),
            trim(l.expression@).len() > 0,
            trim(l.source@).len() > 0,
    {
        proof {
            use_type_invariant(self);
        }
        &self.license
    }

    /// Optional acceptance requirement.
    pub fn acceptance(&self) -> (a: Option<&AcceptanceRequirement>)
        ensures
            match a {
                Some(x) => self.acceptance_view() == Some(*x),
                None => self.acceptance_view() is None,
            },
    {
        match &self.acceptance {
            Some(x) => Some(x),
            None => None,
        }
    }
}

} // verus!
