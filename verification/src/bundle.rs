//! Evidence bundles: a manifest of the copied state files with their hashes, an
//! optional Ed25519 signature over the manifest, and the offline check of both.
use vstd::prelude::*;
use crate::adr::{Error, strs};
use crate::evidence::sha256_hex;
use crate::roots::{RootsView, VerificationRoots, components, join_slash};
use crate::sorting::{Ordered, sorted_le};
use crate::text::{cat, cat3, decimal, is_trim_ws, own, seq_lt, str_eq, str_lt, trim, lemma_lt_total, lemma_lt_transitive};

verus! {

/// One file of a bundle: its path below the state root, its hash and its length.
#[derive(Debug)]
pub struct BundleFile {
    pub path: String,
    pub sha256: String,
    pub bytes: u64,
}

/// The manifest of a bundle.
#[derive(Debug)]
pub struct BundleManifest {
    pub schema_version: String,
    pub adrproof_version: String,
    pub created_at_unix_nanos: u128,
    pub roots: RootsView,
    pub files: Vec<BundleFile>,
    pub authority: String,
}

/// The outcome of checking a bundle.
#[derive(Debug)]
pub struct BundleVerification {
    pub schema_version: String,
    pub valid: bool,
    pub verified_files: usize,
    pub diagnostics: Vec<String>,
    pub signature: BundleSignatureVerification,
}

/// The signature envelope of a bundle.
#[derive(Debug)]
pub struct BundleSignature {
    pub schema_version: String,
    pub algorithm: String,
    pub manifest_sha256: String,
    pub public_key: String,
    pub key_id: String,
    pub signature: String,
}

/// The outcome of checking a bundle's signature.
#[derive(Debug)]
pub struct BundleSignatureVerification {
    pub present: bool,
    pub cryptographically_valid: bool,
    pub trusted_key_match: Option<bool>,
    pub key_id: Option<String>,
}

impl Ordered for BundleFile {
    open spec fn le(&self, other: &Self) -> bool {
        seq_lt(self.path@, other.path@) || self.path@ == other.path@
    }

    proof fn lemma_le_total(a: &Self, b: &Self) {
        lemma_lt_total(a.path@, b.path@);
    }

    proof fn lemma_le_transitive(a: &Self, b: &Self, c: &Self) {
        if seq_lt(a.path@, b.path@) && seq_lt(b.path@, c.path@) {
            lemma_lt_transitive(a.path@, b.path@, c.path@);
        }
    }

    fn le_exec(&self, other: &Self) -> (r: bool) {
        str_lt(self.path.as_str(), other.path.as_str()) || str_eq(self.path.as_str(), other.path.as_str())
    }
}

// ---------------------------------------------------------------------------
// Outside operations
// ---------------------------------------------------------------------------

/// The Ed25519 public key of a secret key.
pub uninterp spec fn ed25519_public_key(secret: Seq<u8>) -> Seq<u8>;

/// The Ed25519 signature of a message under a secret key.
pub uninterp spec fn ed25519_signature(secret: Seq<u8>, message: Seq<u8>) -> Seq<u8>;

/// Whether a public key decodes to a curve point and the signature verifies
/// strictly for the message under it.
pub uninterp spec fn ed25519_verifies(public_key: Seq<u8>, message: Seq<u8>, signature: Seq<u8>) -> bool;

/// The unpadded standard base64 text of bytes.
pub uninterp spec fn base64_text(bytes: Seq<u8>) -> Seq<char>;

/// The bytes an unpadded standard base64 text decodes to, if it is one.
pub uninterp spec fn base64_bytes(text: Seq<char>) -> Option<Seq<u8>>;

/// The text of bytes read as UTF-8, each invalid sequence replaced.
pub uninterp spec fn utf8_lossy(bytes: Seq<u8>) -> Seq<char>;

/// `ed25519_dalek::SigningKey::from_bytes(secret).verifying_key().to_bytes()`: the
/// public key of the secret key; it is 32 bytes and depends on the secret alone.
#[verifier::external_body]
fn public_key_of(secret: &[u8; 32]) -> (r: Vec<u8>)
    ensures
        r@ == ed25519_public_key(secret@),
        r@.len() == 32,
{
    ed25519_dalek::SigningKey::from_bytes(secret).verifying_key().to_bytes().to_vec()
}

/// `ed25519_dalek::Signer::sign` of `SigningKey::from_bytes(secret)` on the
/// message, as bytes: Ed25519 signing is deterministic, so the 64 bytes depend on
/// the secret and the message alone.
#[verifier::external_body]
fn sign(secret: &[u8; 32], message: &[u8]) -> (r: Vec<u8>)
    ensures
        r@ == ed25519_signature(secret@, message@),
        r@.len() == 64,
{
    ed25519_dalek::Signer::sign(&ed25519_dalek::SigningKey::from_bytes(secret), message).to_bytes().to_vec()
}

/// `ed25519_dalek::VerifyingKey::from_bytes` on the key, then `verify_strict` of
/// the message and the signature: true exactly when the key decodes and the
/// signature verifies strictly.
#[verifier::external_body]
fn verify_strict(public_key: &[u8], message: &[u8], signature: &[u8]) -> (r: bool)
    requires
        public_key@.len() == 32,
        signature@.len() == 64,
    ensures
        r == ed25519_verifies(public_key@, message@, signature@),
{
    let key: [u8; 32] = public_key.try_into().unwrap();
    let bytes: [u8; 64] = signature.try_into().unwrap();
    match ed25519_dalek::VerifyingKey::from_bytes(&key) {
        Ok(key) => key.verify_strict(message, &ed25519_dalek::Signature::from_bytes(&bytes)).is_ok(),
        Err(_) => false,
    }
}

/// `base64::Engine::encode` with `STANDARD_NO_PAD`: the unpadded standard base64
/// text of the bytes (it panics only when the text's length overflows).
#[verifier::external_body]
fn base64_encode(bytes: &[u8]) -> (r: String)
    requires
        bytes@.len() <= usize::MAX / 2,
    ensures
        r@ == base64_text(bytes@),
{
    base64::Engine::encode(&base64::engine::general_purpose::STANDARD_NO_PAD, bytes)
}

/// `base64::Engine::decode` with `STANDARD_NO_PAD`: the decoded bytes, or `None`
/// where the text is not unpadded standard base64.
#[verifier::external_body]
fn base64_decode(text: &str) -> (r: Option<Vec<u8>>)
    ensures
        match r {
            Some(b) => base64_bytes(text@) == Some(b@),
            None => base64_bytes(text@) is None,
        },
{
    base64::Engine::decode(&base64::engine::general_purpose::STANDARD_NO_PAD, text).ok()
}

/// `String::from_utf8_lossy`: the bytes read as UTF-8 with invalid sequences
/// replaced; bytes that are UTF-8 come back as the text they encode.
#[verifier::external_body]
fn lossy_text(bytes: &[u8]) -> (r: String)
    ensures
        r@ == utf8_lossy(bytes@),
        vstd::utf8::valid_utf8(bytes@) ==> vstd::utf8::encode_utf8(r@) == bytes@,
{
    String::from_utf8_lossy(bytes).into_owned()
}

// ---------------------------------------------------------------------------
// Paths
// ---------------------------------------------------------------------------

/// The identity of a path below the state root: its components joined by `/`.
pub open spec fn path_identity_of(relative: Seq<char>) -> Seq<char> {
    join_slash(components(relative))
}

/// The identity of a relative path.
pub fn path_identity(relative: &str) -> (r: String)
    ensures
        r@ == path_identity_of(relative@),
{
    let parts = crate::roots::path_components(relative);
    crate::roots::join_slash_exec(&parts)
}

/// A path is unsafe in a bundle when it is absolute, starts with `.`, or has a
/// `..` component.
pub open spec fn unsafe_path(p: Seq<char>) -> bool {
    ||| crate::roots::is_absolute(p)
    ||| p == "."@
    ||| (p.len() >= 2 && p[0] == '.' && p[1] == '/')
    ||| components(p).contains(".."@)
}

/// The path, or an error when it is unsafe in a bundle.
pub fn safe_relative(value: &str) -> (r: Result<String, Error>)
    ensures
        r is Ok <==> !unsafe_path(value@),
        r matches Ok(p) ==> p@ == value@,
        r matches Err(e) ==> (e matches Error::ProviderFailure(m) && m@ == "unsafe bundle path `"@ + value@ + "`"@),
{
    let cs = crate::text::chars_of(value);
    let parts = crate::roots::path_components(value);
    let mut parent = false;
    let mut i: usize = 0;
    while i < parts.len()
        invariant
            i <= parts@.len(),
            strs(parts@) == components(value@),
            parent == exists|q: int| 0 <= q < i && parts@[q]@ == ".."@,
        decreases parts.len() - i,
    {
        if str_eq(parts[i].as_str(), "..") {
            parent = true;
        }
        i = i + 1;
    }
    proof {
        if parent {
            let q = choose|q: int| 0 <= q < parts@.len() && parts@[q]@ == ".."@;
            assert(components(value@)[q] == ".."@);
        }
        if components(value@).contains(".."@) {
            let q = choose|q: int| 0 <= q < components(value@).len() && components(value@)[q] == ".."@;
            assert(parts@[q]@ == ".."@);
        }
    }
    let leading_dot = str_eq(value, ".") || (cs.len() >= 2 && cs[0] == '.' && cs[1] == '/');
    let absolute = cs.len() > 0 && cs[0] == '/';
    if absolute || leading_dot || parent {
        return Err(Error::ProviderFailure(cat3("unsafe bundle path `", value, "`")));
    }
    Ok(own(value))
}

// ---------------------------------------------------------------------------
// Creating a bundle
// ---------------------------------------------------------------------------

/// The schema of a bundle manifest.
pub fn bundle_schema() -> (r: &'static str)
    ensures
        r@ == "adrproof-evidence-bundle-v1"@,
{
    "adrproof-evidence-bundle-v1"
}

/// The schema of a signature envelope.
pub fn signature_schema() -> (r: &'static str)
    ensures
        r@ == "adrproof-bundle-signature-v1"@,
{
    "adrproof-bundle-signature-v1"
}

/// What a bundle attests.
pub open spec fn bundle_authority() -> Seq<char> {
    "Offline integrity of the copied ADRProof evidence artifacts; verification does not rerun or independently validate the underlying tools."@
}

/// The manifest entry of a copied file: its identity, hash and length.
pub open spec fn file_entry(f: (String, Vec<u8>), e: BundleFile) -> bool {
    &&& e.path@ == path_identity_of(f.0@)
    &&& e.sha256@ == sha256_hex(f.1@)
    &&& e.bytes == f.1@.len()
}

/// The manifest entries of the copied files, in their order.
pub open spec fn entries_of(files: Seq<(String, Vec<u8>)>, entries: Seq<BundleFile>) -> bool {
    entries.len() == files.len() && forall|i: int| 0 <= i < files.len() ==> file_entry(#[trigger] files[i], entries[i])
}

/// The manifest of the copied state files: `files` are the files as copied, each
/// with its path below the state root. The entries are sorted by path.
pub fn create(roots: &VerificationRoots, files: &Vec<(String, Vec<u8>)>, adrproof_version: &str, created_at_unix_nanos: u128) -> (m: BundleManifest)
    ensures
        m.schema_version@ == "adrproof-evidence-bundle-v1"@,
        m.adrproof_version@ == adrproof_version@,
        m.created_at_unix_nanos == created_at_unix_nanos,
        crate::query::same_roots(*roots, m.roots),
        m.authority@ == bundle_authority(),
        sorted_le(m.files@),
        exists|entries: Seq<BundleFile>| #[trigger] entries_of(files@, entries) && m.files@.to_multiset() == entries.to_multiset(),
{
    let mut entries: Vec<BundleFile> = Vec::new();
    let mut i: usize = 0;
    while i < files.len()
        invariant
            i <= files@.len(),
            entries@.len() == i,
            forall|q: int| 0 <= q < i ==> file_entry(#[trigger] files@[q], entries@[q]),
        decreases files.len() - i,
    {
        let (path, bytes) = (&files[i].0, &files[i].1);
        entries.push(BundleFile {
            path: path_identity(path.as_str()),
            sha256: crate::evidence::sha256_of(bytes.as_slice()),
            bytes: bytes.len() as u64,
        });
        i = i + 1;
    }
    let ghost unsorted = entries@;
    let sorted = crate::sorting::sort_stable(entries);
    proof {
        assert(entries_of(files@, unsorted));
    }
    BundleManifest {
        schema_version: own(bundle_schema()),
        adrproof_version: own(adrproof_version),
        created_at_unix_nanos,
        roots: roots.view(),
        files: sorted,
        authority: own(
            "Offline integrity of the copied ADRProof evidence artifacts; verification does not rerun or independently validate the underlying tools.",
        ),
    }
}

/// The signature envelope of a manifest: the signature schema, `Ed25519`, the
/// manifest's hash, the public key and signature in unpadded base64, and the hash
/// of the public key as its identifier.
pub open spec fn envelope_of(secret: Seq<u8>, manifest: Seq<u8>, e: BundleSignature) -> bool {
    &&& e.schema_version@ == "adrproof-bundle-signature-v1"@
    &&& e.algorithm@ == "Ed25519"@
    &&& e.manifest_sha256@ == sha256_hex(manifest)
    &&& e.public_key@ == base64_text(ed25519_public_key(secret))
    &&& e.key_id@ == sha256_hex(ed25519_public_key(secret))
    &&& e.signature@ == base64_text(ed25519_signature(secret, manifest))
}

/// Signs the serialized manifest with the secret key.
pub fn create_signed(secret_key: &[u8; 32], manifest_bytes: &[u8]) -> (e: BundleSignature)
    ensures
        envelope_of(secret_key@, manifest_bytes@, e),
{
    let public_key = public_key_of(secret_key);
    let signature = sign(secret_key, manifest_bytes);
    BundleSignature {
        schema_version: own(signature_schema()),
        algorithm: own("Ed25519"),
        manifest_sha256: crate::evidence::sha256_of(manifest_bytes),
        public_key: base64_encode(public_key.as_slice()),
        key_id: crate::evidence::sha256_of(public_key.as_slice()),
        signature: base64_encode(signature.as_slice()),
    }
}

// ---------------------------------------------------------------------------
// Checking a bundle
// ---------------------------------------------------------------------------

/// The paths of the manifest's files.
pub open spec fn manifest_paths(files: Seq<BundleFile>) -> Seq<Seq<char>> {
    files.map_values(|f: BundleFile| f.path@)
}

/// Every item occurs once.
pub open spec fn distinct(s: Seq<Seq<char>>) -> bool {
    forall|i: int, j: int| 0 <= i < j < s.len() ==> s[i] != s[j]
}

/// The files in the bundle's data are exactly those the manifest lists.
pub open spec fn same_listing(actual: Seq<Seq<char>>, expected: Seq<Seq<char>>) -> bool {
    &&& distinct(actual)
    &&& forall|x: Seq<char>| #[trigger] actual.contains(x) <==> expected.contains(x)
}

/// `line` when `cond` holds, else nothing.
pub open spec fn when(cond: bool, line: Seq<char>) -> Seq<Seq<char>> {
    if cond {
        seq![line]
    } else {
        Seq::empty()
    }
}

/// The diagnostics of one listed file, given what reading it gave.
pub open spec fn file_diagnostics(f: BundleFile, read: Result<Vec<u8>, String>) -> Seq<Seq<char>> {
    match read {
        Ok(b) => when(b@.len() != f.bytes, f.path@ + ": byte length mismatch"@) + when(
            sha256_hex(b@) != f.sha256@,
            f.path@ + ": SHA-256 mismatch"@,
        ),
        Err(e) => seq![f.path@ + ": "@ + e@],
    }
}

/// The diagnostics of the first `n` listed files.
pub open spec fn files_diagnostics(files: Seq<BundleFile>, reads: Seq<Result<Vec<u8>, String>>, n: int) -> Seq<Seq<char>>
    decreases n,
{
    if n <= 0 {
        Seq::empty()
    } else {
        files_diagnostics(files, reads, n - 1) + file_diagnostics(files[n - 1], reads[n - 1])
    }
}

/// The diagnostics of a bundle's contents: its schema, repeated paths, every listed
/// file, and files missing from or not listed in the data.
pub open spec fn content_diagnostics(m: BundleManifest, reads: Seq<Result<Vec<u8>, String>>, actual: Seq<Seq<char>>) -> Seq<Seq<char>> {
    when(m.schema_version@ != "adrproof-evidence-bundle-v1"@, "expected schema adrproof-evidence-bundle-v1, observed "@ + m.schema_version@)
        + when(!distinct(manifest_paths(m.files@)), "manifest contains duplicate paths"@)
        + files_diagnostics(m.files@, reads, m.files@.len() as int)
        + when(!same_listing(actual, manifest_paths(m.files@)), "bundle data contains missing or unlisted files"@)
}

/// The first listed file whose path is unsafe.
pub open spec fn first_unsafe(files: Seq<BundleFile>, i: int) -> bool {
    0 <= i < files.len() && unsafe_path(files[i].path@) && forall|j: int| 0 <= j < i ==> !unsafe_path((#[trigger] files[j]).path@)
}

fn push_line(v: &mut Vec<String>, line: String)
    ensures
        strs(final(v)@) == strs(old(v)@).push(line@),
{
    let ghost v0 = v@;
    v.push(line);
    proof {
        assert(strs(v@) =~= strs(v0).push(line@));
    }
}

fn has_duplicate(v: &Vec<String>) -> (r: bool)
    ensures
        r == !distinct(strs(v@)),
{
    let mut i: usize = 0;
    while i < v.len()
        invariant
            i <= v@.len(),
            forall|a: int, b: int| 0 <= a < i && a < b < v@.len() ==> strs(v@)[a] != strs(v@)[b],
        decreases v.len() - i,
    {
        let mut j: usize = i + 1;
        while j < v.len()
            invariant
                i < v@.len(),
                i < j <= v@.len(),
                forall|a: int, b: int| 0 <= a < i && a < b < v@.len() ==> strs(v@)[a] != strs(v@)[b],
                forall|b: int| i < b < j ==> strs(v@)[i as int] != strs(v@)[b],
            decreases v.len() - j,
        {
            if str_eq(v[i].as_str(), v[j].as_str()) {
                proof {
                    assert(strs(v@)[i as int] == strs(v@)[j as int]);
                }
                return true;
            }
            j = j + 1;
        }
        i = i + 1;
    }
    false
}

fn listing_matches(actual: &Vec<String>, expected: &Vec<String>) -> (r: bool)
    ensures
        r == same_listing(strs(actual@), strs(expected@)),
{
    if has_duplicate(actual) {
        return false;
    }
    let mut i: usize = 0;
    while i < actual.len()
        invariant
            i <= actual@.len(),
            forall|q: int| 0 <= q < i ==> strs(expected@).contains(#[trigger] strs(actual@)[q]),
        decreases actual.len() - i,
    {
        if !crate::keyed::contains_str(expected, actual[i].as_str()) {
            proof {
                assert(strs(actual@).contains(strs(actual@)[i as int]));
                if strs(expected@).contains(actual@[i as int]@) {
                    let q = choose|q: int| 0 <= q < strs(expected@).len() && strs(expected@)[q] == actual@[i as int]@;
                    assert(expected@[q]@ == actual@[i as int]@);
                }
            }
            return false;
        }
        proof {
            let q = choose|q: int| 0 <= q < expected@.len() && expected@[q]@ == actual@[i as int]@;
            assert(strs(expected@)[q] == strs(actual@)[i as int]);
        }
        i = i + 1;
    }
    let mut j: usize = 0;
    while j < expected.len()
        invariant
            j <= expected@.len(),
            forall|q: int| 0 <= q < j ==> strs(actual@).contains(#[trigger] strs(expected@)[q]),
        decreases expected.len() - j,
    {
        if !crate::keyed::contains_str(actual, expected[j].as_str()) {
            proof {
                assert(strs(expected@).contains(strs(expected@)[j as int]));
                if strs(actual@).contains(expected@[j as int]@) {
                    let q = choose|q: int| 0 <= q < strs(actual@).len() && strs(actual@)[q] == expected@[j as int]@;
                    assert(actual@[q]@ == expected@[j as int]@);
                }
            }
            return false;
        }
        proof {
            let q = choose|q: int| 0 <= q < actual@.len() && actual@[q]@ == expected@[j as int]@;
            assert(strs(actual@)[q] == strs(expected@)[j as int]);
        }
        j = j + 1;
    }
    proof {
        assert forall|x: Seq<char>| #[trigger] strs(actual@).contains(x) <==> strs(expected@).contains(x) by {
            if strs(actual@).contains(x) {
                let q = choose|q: int| 0 <= q < strs(actual@).len() && strs(actual@)[q] == x;
                assert(strs(expected@).contains(strs(actual@)[q]));
            }
            if strs(expected@).contains(x) {
                let q = choose|q: int| 0 <= q < strs(expected@).len() && strs(expected@)[q] == x;
                assert(strs(actual@).contains(strs(expected@)[q]));
            }
        };
    }
    true
}

/// The diagnostics of a bundle's contents: `reads[i]` is what reading listed file
/// `i` from the bundle's data gave (its bytes, or the reason it could not be
/// read), and `actual` the paths of the files found in the data. An error names the
/// first listed path that is unsafe; such a file must not be read.
pub fn check_contents(manifest: &BundleManifest, reads: &Vec<Result<Vec<u8>, String>>, actual: &Vec<String>) -> (r: Result<Vec<String>, Error>)
    requires
        reads@.len() == manifest.files@.len(),
    ensures
        r is Err <==> exists|i: int| 0 <= i < manifest.files@.len() && unsafe_path((#[trigger] manifest.files@[i]).path@),
        r matches Err(e) ==> exists|i: int| #[trigger] first_unsafe(manifest.files@, i) && (e matches Error::ProviderFailure(m) && m@
            == "unsafe bundle path `"@ + manifest.files@[i].path@ + "`"@),
        r matches Ok(d) ==> strs(d@) == content_diagnostics(*manifest, reads@, strs(actual@)),
{
    let mut diagnostics: Vec<String> = Vec::new();
    if !str_eq(manifest.schema_version.as_str(), bundle_schema()) {
        push_line(&mut diagnostics, cat("expected schema adrproof-evidence-bundle-v1, observed ", manifest.schema_version.as_str()));
    }
    let mut paths: Vec<String> = Vec::new();
    let mut k: usize = 0;
    while k < manifest.files.len()
        invariant
            k <= manifest.files@.len(),
            strs(paths@) == manifest_paths(manifest.files@).take(k as int),
        decreases manifest.files.len() - k,
    {
        let ghost p0 = strs(paths@);
        paths.push(manifest.files[k].path.clone());
        proof {
            assert(strs(paths@) =~= p0.push(manifest.files@[k as int].path@));
            assert(manifest_paths(manifest.files@).take(k + 1) =~= manifest_paths(manifest.files@).take(k as int).push(manifest.files@[k as int].path@));
        }
        k = k + 1;
    }
    proof {
        assert(manifest_paths(manifest.files@).take(manifest.files@.len() as int) =~= manifest_paths(manifest.files@));
    }
    if has_duplicate(&paths) {
        push_line(&mut diagnostics, own("manifest contains duplicate paths"));
    }
    let ghost d0 = strs(diagnostics@);
    proof {
        assert(d0 =~= when(manifest.schema_version@ != "adrproof-evidence-bundle-v1"@, "expected schema adrproof-evidence-bundle-v1, observed "@
            + manifest.schema_version@) + when(!distinct(manifest_paths(manifest.files@)), "manifest contains duplicate paths"@));
    }
    let mut i: usize = 0;
    while i < manifest.files.len()
        invariant
            i <= manifest.files@.len(),
            reads@.len() == manifest.files@.len(),
            forall|j: int| 0 <= j < i ==> !unsafe_path((#[trigger] manifest.files@[j]).path@),
            strs(diagnostics@) == d0 + files_diagnostics(manifest.files@, reads@, i as int),
        decreases manifest.files.len() - i,
    {
        let f = &manifest.files[i];
        match safe_relative(f.path.as_str()) {
            Err(e) => {
                proof {
                    assert(first_unsafe(manifest.files@, i as int));
                }
                return Err(e);
            },
            Ok(_) => {},
        }
        let ghost before = strs(diagnostics@);
        match &reads[i] {
            Ok(bytes) => {
                if bytes.len() as u64 != f.bytes {
                    push_line(&mut diagnostics, cat(f.path.as_str(), ": byte length mismatch"));
                }
                let ghost mid = strs(diagnostics@);
                let h = crate::evidence::sha256_of(bytes.as_slice());
                if !str_eq(h.as_str(), f.sha256.as_str()) {
                    push_line(&mut diagnostics, cat(f.path.as_str(), ": SHA-256 mismatch"));
                }
                proof {
                    assert(mid =~= before + when(bytes@.len() != f.bytes, f.path@ + ": byte length mismatch"@));
                    assert(strs(diagnostics@) =~= before + file_diagnostics(*f, reads@[i as int]));
                }
            },
            Err(e) => {
                push_line(&mut diagnostics, cat3(f.path.as_str(), ": ", e.as_str()));
                proof {
                    assert(strs(diagnostics@) =~= before + file_diagnostics(*f, reads@[i as int]));
                }
            },
        }
        i = i + 1;
    }
    let ghost d1 = strs(diagnostics@);
    if !listing_matches(actual, &paths) {
        push_line(&mut diagnostics, own("bundle data contains missing or unlisted files"));
    }
    proof {
        assert(strs(diagnostics@) =~= content_diagnostics(*manifest, reads@, strs(actual@)));
    }
    Ok(diagnostics)
}

/// The decoded public key of an envelope, if it is 32 bytes of base64.
pub open spec fn decoded_key(e: BundleSignature) -> Option<Seq<u8>> {
    match base64_bytes(e.public_key@) {
        Some(b) => if b.len() == 32 {
            Some(b)
        } else {
            None
        },
        None => None,
    }
}

/// The decoded signature of an envelope, if it is 64 bytes of base64.
pub open spec fn decoded_signature(e: BundleSignature) -> Option<Seq<u8>> {
    match base64_bytes(e.signature@) {
        Some(b) => if b.len() == 64 {
            Some(b)
        } else {
            None
        },
        None => None,
    }
}

/// The diagnostics of a present envelope, before the trusted key is compared.
pub open spec fn envelope_diagnostics(e: BundleSignature, manifest: Seq<u8>) -> Seq<Seq<char>> {
    when(e.schema_version@ != "adrproof-bundle-signature-v1"@, "expected signature schema adrproof-bundle-signature-v1, observed "@
        + e.schema_version@) + when(e.algorithm@ != "Ed25519"@, "unsupported signature algorithm "@ + e.algorithm@) + when(
        e.manifest_sha256@ != sha256_hex(manifest),
        "signed manifest SHA-256 does not match bundle.json"@,
    ) + match (decoded_key(e), decoded_signature(e)) {
        (Some(k), Some(s)) => when(e.key_id@ != sha256_hex(k), "signature key_id does not match embedded public key"@) + when(
            !ed25519_verifies(k, manifest, s),
            "Ed25519 signature verification failed"@,
        ),
        _ => seq!["signature or public key is not valid unpadded base64"@],
    }
}

/// A present envelope is valid when its schema, algorithm and manifest hash are
/// right, its key and signature decode, its key identifier is the key's hash, and
/// the signature verifies.
pub open spec fn envelope_valid(e: BundleSignature, manifest: Seq<u8>) -> bool {
    &&& e.schema_version@ == "adrproof-bundle-signature-v1"@
    &&& e.algorithm@ == "Ed25519"@
    &&& e.manifest_sha256@ == sha256_hex(manifest)
    &&& decoded_key(e) matches Some(k) && decoded_signature(e) matches Some(s) && e.key_id@ == sha256_hex(k) && ed25519_verifies(
        k,
        manifest,
        s,
    )
}

/// Whether the embedded key is the trusted one.
pub open spec fn key_matches(e: BundleSignature, trusted: Seq<u8>) -> bool {
    decoded_key(e) == Some(trusted)
}

/// What checking the signature finds: without an envelope, a diagnostic when one is
/// required or a trusted key is given; with one, the diagnostics of the envelope
/// and of a signer other than the trusted key.
pub open spec fn signature_checked(
    envelope: Option<BundleSignature>,
    manifest: Seq<u8>,
    trusted: Option<Seq<u8>>,
    require_signature: bool,
    v: BundleSignatureVerification,
    diagnostics: Seq<Seq<char>>,
) -> bool {
    match envelope {
        None => {
            &&& !v.present
            &&& !v.cryptographically_valid
            &&& v.trusted_key_match == (match trusted {
                Some(_) => Some(false),
                None => None::<bool>,
            })
            &&& v.key_id is None
            &&& diagnostics == when(require_signature || trusted is Some, "bundle signature is required but bundle.sig.json is missing"@)
        },
        Some(e) => {
            &&& v.present
            &&& v.cryptographically_valid == envelope_valid(e, manifest)
            &&& v.trusted_key_match == (match trusted {
                Some(t) => Some(key_matches(e, t)),
                None => None::<bool>,
            })
            &&& v.key_id matches Some(k) && k@ == e.key_id@
            &&& diagnostics == envelope_diagnostics(e, manifest) + when(
                trusted matches Some(t) && !key_matches(e, t),
                "bundle signer does not match the trusted public key"@,
            )
        },
    }
}

fn decode_sized(text: &str, size: usize) -> (r: Option<Vec<u8>>)
    ensures
        match r {
            Some(b) => base64_bytes(text@) == Some(b@) && b@.len() == size,
            None => !(base64_bytes(text@) matches Some(b) && b.len() == size),
        },
{
    match base64_decode(text) {
        Some(b) => if b.len() == size {
            Some(b)
        } else {
            None
        },
        None => None,
    }
}

fn same_key(decoded: &Option<Vec<u8>>, trusted: &[u8; 32]) -> (r: bool)
    ensures
        r == (match decoded {
            Some(b) => b@ == trusted@,
            None => false,
        }),
{
    match decoded {
        None => false,
        Some(b) => {
            if b.len() != 32 {
                return false;
            }
            let mut i: usize = 0;
            while i < 32
                invariant
                    i <= 32,
                    b@.len() == 32,
                    trusted@.len() == 32,
                    decoded matches Some(bb) && bb@ == b@,
                    forall|q: int| 0 <= q < i ==> b@[q] == trusted@[q],
                decreases 32 - i,
            {
                if b[i] != trusted[i] {
                    proof {
                        assert(b@[i as int] != trusted@[i as int]);
                    }
                    return false;
                }
                i = i + 1;
            }
            proof {
                assert(b@ =~= trusted@);
            }
            true
        },
    }
}

/// Checks the signature envelope of a bundle (if one is present) against the
/// serialized manifest and, if given, the trusted public key; the diagnostics go
/// after `diagnostics`.
#[verifier::rlimit(40)]
pub fn verify_signature(
    envelope: Option<BundleSignature>,
    manifest_bytes: &[u8],
    trusted_public_key: Option<&[u8; 32]>,
    require_signature: bool,
    diagnostics: &mut Vec<String>,
) -> (v: BundleSignatureVerification)
    ensures
        exists|added: Seq<Seq<char>>| strs(final(diagnostics)@) == strs(old(diagnostics)@) + added && signature_checked(
            envelope,
            manifest_bytes@,
            match trusted_public_key {
                Some(t) => Some(t@),
                None => None,
            },
            require_signature,
            v,
            added,
        ),
{
    let ghost d0 = strs(diagnostics@);
    let ghost trusted = match trusted_public_key {
        Some(t) => Some(t@),
        None => None::<Seq<u8>>,
    };
    let e = match envelope {
        None => {
            if require_signature || trusted_public_key.is_some() {
                push_line(diagnostics, own("bundle signature is required but bundle.sig.json is missing"));
            }
            let v = BundleSignatureVerification {
                present: false,
                cryptographically_valid: false,
                trusted_key_match: match trusted_public_key {
                    Some(_) => Some(false),
                    None => None,
                },
                key_id: None,
            };
            proof {
                let added = when(require_signature || trusted is Some, "bundle signature is required but bundle.sig.json is missing"@);
                assert(strs(diagnostics@) =~= d0 + added);
                assert(signature_checked(envelope, manifest_bytes@, trusted, require_signature, v, added));
            }
            return v;
        },
        Some(e) => e,
    };
    let mut valid = true;
    if !str_eq(e.schema_version.as_str(), signature_schema()) {
        push_line(diagnostics, cat("expected signature schema adrproof-bundle-signature-v1, observed ", e.schema_version.as_str()));
        valid = false;
    }
    let ghost d1 = strs(diagnostics@);
    if !str_eq(e.algorithm.as_str(), "Ed25519") {
        push_line(diagnostics, cat("unsupported signature algorithm ", e.algorithm.as_str()));
        valid = false;
    }
    let ghost d2 = strs(diagnostics@);
    let manifest_hash = crate::evidence::sha256_of(manifest_bytes);
    if !str_eq(e.manifest_sha256.as_str(), manifest_hash.as_str()) {
        push_line(diagnostics, own("signed manifest SHA-256 does not match bundle.json"));
        valid = false;
    }
    let ghost d3 = strs(diagnostics@);
    let public_key = decode_sized(e.public_key.as_str(), 32);
    let signature = decode_sized(e.signature.as_str(), 64);
    proof {
        assert(match public_key {
            Some(b) => decoded_key(e) == Some(b@),
            None => decoded_key(e) is None,
        });
        assert(match signature {
            Some(b) => decoded_signature(e) == Some(b@),
            None => decoded_signature(e) is None,
        });
    }
    match (&public_key, &signature) {
        (Some(k), Some(s)) => {
            let kid = crate::evidence::sha256_of(k.as_slice());
            if !str_eq(e.key_id.as_str(), kid.as_str()) {
                push_line(diagnostics, own("signature key_id does not match embedded public key"));
                valid = false;
            }
            let ghost d4 = strs(diagnostics@);
            if !verify_strict(k.as_slice(), manifest_bytes, s.as_slice()) {
                push_line(diagnostics, own("Ed25519 signature verification failed"));
                valid = false;
            }
            proof {
                assert(d4 =~= d3 + when(e.key_id@ != sha256_hex(k@), "signature key_id does not match embedded public key"@));
            }
        },
        _ => {
            push_line(diagnostics, own("signature or public key is not valid unpadded base64"));
            valid = false;
        },
    }
    let ghost d5 = strs(diagnostics@);
    let trusted_key_match = match trusted_public_key {
        Some(t) => Some(same_key(&public_key, t)),
        None => None,
    };
    let mismatch = match trusted_key_match {
        Some(m) => !m,
        None => false,
    };
    if mismatch {
        push_line(diagnostics, own("bundle signer does not match the trusted public key"));
    }
    let v = BundleSignatureVerification { present: true, cryptographically_valid: valid, trusted_key_match, key_id: Some(e.key_id.clone()) };
    proof {
        let added = envelope_diagnostics(e, manifest_bytes@) + when(
            trusted matches Some(t) && !key_matches(e, t),
            "bundle signer does not match the trusted public key"@,
        );
        assert(d5 =~= d0 + envelope_diagnostics(e, manifest_bytes@));
        assert(strs(diagnostics@) =~= d0 + added);
        assert(signature_checked(Some(e), manifest_bytes@, trusted, require_signature, v, added));
    }
    v
}

/// Checks a bundle: its contents (see `check_contents`) and its signature (see
/// `verify_signature`). It is valid exactly when no diagnostic was found.
pub fn verify_with_key(
    manifest: &BundleManifest,
    manifest_bytes: &[u8],
    reads: &Vec<Result<Vec<u8>, String>>,
    actual: &Vec<String>,
    envelope: Option<BundleSignature>,
    trusted_public_key: Option<&[u8; 32]>,
    require_signature: bool,
) -> (r: Result<BundleVerification, Error>)
    requires
        reads@.len() == manifest.files@.len(),
    ensures
        r is Err <==> exists|i: int| 0 <= i < manifest.files@.len() && unsafe_path((#[trigger] manifest.files@[i]).path@),
        r matches Ok(b) ==> {
            &&& b.schema_version@ == manifest.schema_version@
            &&& b.verified_files == manifest.files@.len()
            &&& b.valid == (b.diagnostics@.len() == 0)
            &&& exists|added: Seq<Seq<char>>| strs(b.diagnostics@) == content_diagnostics(*manifest, reads@, strs(actual@)) + added
                && signature_checked(
                envelope,
                manifest_bytes@,
                match trusted_public_key {
                    Some(t) => Some(t@),
                    None => None,
                },
                require_signature,
                b.signature,
                added,
            )
        },
{
    let mut diagnostics = match check_contents(manifest, reads, actual) {
        Ok(d) => d,
        Err(e) => return Err(e),
    };
    let signature = verify_signature(envelope, manifest_bytes, trusted_public_key, require_signature, &mut diagnostics);
    let valid = diagnostics.len() == 0;
    Ok(BundleVerification {
        schema_version: manifest.schema_version.clone(),
        valid,
        verified_files: manifest.files.len(),
        diagnostics,
        signature,
    })
}

/// `verify_with_key` without a trusted key or a required signature.
pub fn verify(
    manifest: &BundleManifest,
    manifest_bytes: &[u8],
    reads: &Vec<Result<Vec<u8>, String>>,
    actual: &Vec<String>,
    envelope: Option<BundleSignature>,
) -> (r: Result<BundleVerification, Error>)
    requires
        reads@.len() == manifest.files@.len(),
    ensures
        r is Err <==> exists|i: int| 0 <= i < manifest.files@.len() && unsafe_path((#[trigger] manifest.files@[i]).path@),
        r matches Ok(b) ==> {
            &&& b.schema_version@ == manifest.schema_version@
            &&& b.verified_files == manifest.files@.len()
            &&& b.valid == (b.diagnostics@.len() == 0)
            &&& exists|added: Seq<Seq<char>>| strs(b.diagnostics@) == content_diagnostics(*manifest, reads@, strs(actual@)) + added
                && signature_checked(envelope, manifest_bytes@, None, false, b.signature, added)
        },
{
    verify_with_key(manifest, manifest_bytes, reads, actual, envelope, None, false)
}

// ---------------------------------------------------------------------------
// Keys
// ---------------------------------------------------------------------------

/// An ASCII hexadecimal digit.
pub open spec fn is_hex(c: char) -> bool {
    ('0' <= c && c <= '9') || ('a' <= c && c <= 'f') || ('A' <= c && c <= 'F')
}

/// The value of a hexadecimal digit.
pub open spec fn hex_value(c: char) -> int {
    if '0' <= c && c <= '9' {
        c as int - '0' as int
    } else if 'a' <= c && c <= 'f' {
        c as int - 'a' as int + 10
    } else {
        c as int - 'A' as int + 10
    }
}

/// The text of a key file: the bytes read as UTF-8 and trimmed.
pub open spec fn key_text(bytes: Seq<u8>) -> Seq<char> {
    trim(utf8_lossy(bytes))
}

/// The text is 64 hexadecimal digits.
pub open spec fn is_hex_key(t: Seq<char>) -> bool {
    t.len() == 64 && forall|i: int| 0 <= i < 64 ==> is_hex(#[trigger] t[i])
}

/// The key a file holds: 32 raw bytes, else 64 hexadecimal digits (surrounding
/// whitespace ignored), each pair one byte.
pub open spec fn key_of(bytes: Seq<u8>, key: Seq<u8>) -> bool {
    if bytes.len() == 32 {
        key == bytes
    } else {
        &&& is_hex_key(key_text(bytes))
        &&& key.len() == 32
        &&& forall|i: int| 0 <= i < 32 ==> #[trigger] key[i] == hex_value(key_text(bytes)[2 * i]) * 16 + hex_value(key_text(bytes)[2 * i + 1])
    }
}

fn hex_value_exec(c: char) -> (r: u8)
    requires
        is_hex(c),
    ensures
        r == hex_value(c),
{
    if '0' <= c && c <= '9' {
        (c as u32 - '0' as u32) as u8
    } else if 'a' <= c && c <= 'f' {
        (c as u32 - 'a' as u32 + 10) as u8
    } else {
        (c as u32 - 'A' as u32 + 10) as u8
    }
}

fn to_array(v: &Vec<u8>) -> (r: [u8; 32])
    requires
        v@.len() == 32,
    ensures
        r@ == v@,
{
    let r = [
        v[0], v[1], v[2], v[3], v[4], v[5], v[6], v[7], v[8], v[9], v[10], v[11], v[12], v[13], v[14], v[15],
        v[16], v[17], v[18], v[19], v[20], v[21], v[22], v[23], v[24], v[25], v[26], v[27], v[28], v[29], v[30], v[31],
    ];
    proof {
        assert(r@ =~= v@);
    }
    r
}

/// The key in a key file's bytes; `label` names the key and `path` the file in the
/// error for bytes that are neither 32 raw bytes nor 64 hexadecimal digits.
pub fn read_key(bytes: &[u8], label: &str, path: &str) -> (r: Result<[u8; 32], Error>)
    ensures
        r is Ok <==> bytes@.len() == 32 || is_hex_key(key_text(bytes@)),
        r matches Ok(k) ==> key_of(bytes@, k@),
        r matches Err(e) ==> (e matches Error::ProviderFailure(m) && m@ == label@
            + " must contain exactly 32 raw bytes or 64 hexadecimal characters: "@ + path@),
{
    if bytes.len() == 32 {
        let mut v: Vec<u8> = Vec::new();
        let mut i: usize = 0;
        while i < 32
            invariant
                i <= 32,
                bytes@.len() == 32,
                v@ == bytes@.take(i as int),
            decreases 32 - i,
        {
            v.push(bytes[i]);
            proof {
                assert(bytes@.take(i + 1) =~= bytes@.take(i as int).push(bytes@[i as int]));
            }
            i = i + 1;
        }
        proof {
            assert(bytes@.take(32) =~= bytes@);
        }
        return Ok(to_array(&v));
    }
    let text = lossy_text(bytes);
    let t = crate::text::trim_string(text.as_str());
    let tc = crate::text::chars_of(t.as_str());
    let mut hex = tc.len() == 64;
    let mut i: usize = 0;
    while hex && i < tc.len()
        invariant
            i <= tc@.len(),
            tc@ == key_text(bytes@),
            hex ==> forall|q: int| 0 <= q < i ==> is_hex(#[trigger] tc@[q]),
            hex ==> tc@.len() == 64,
            !hex ==> !is_hex_key(key_text(bytes@)),
        decreases tc.len() - i,
    {
        let c = tc[i];
        if !(('0' <= c && c <= '9') || ('a' <= c && c <= 'f') || ('A' <= c && c <= 'F')) {
            hex = false;
        }
        i = i + 1;
    }
    if !hex {
        let head = cat(label, " must contain exactly 32 raw bytes or 64 hexadecimal characters: ");
        return Err(Error::ProviderFailure(cat(head.as_str(), path)));
    }
    let mut key: Vec<u8> = Vec::new();
    let mut j: usize = 0;
    while j < 32
        invariant
            j <= 32,
            tc@ == key_text(bytes@),
            is_hex_key(tc@),
            key@.len() == j,
            forall|q: int| 0 <= q < j ==> #[trigger] key@[q] == hex_value(tc@[2 * q]) * 16 + hex_value(tc@[2 * q + 1]),
        decreases 32 - j,
    {
        let hi = hex_value_exec(tc[2 * j]);
        let lo = hex_value_exec(tc[2 * j + 1]);
        key.push(hi * 16 + lo);
        j = j + 1;
    }
    Ok(to_array(&key))
}

} // verus!
