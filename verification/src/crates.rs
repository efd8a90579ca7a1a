use vstd::prelude::*;
use vstd::string::StrSliceExecFns;
use vstd::string::StringExecFns;

use crate::errors::ConfigError;

verus! {

/// A package release: name and version. Both fields are compared
/// case-sensitively when the identity is used as a lookup key.
#[derive(Debug)]
pub struct CrateIdentity {
    pub name: String,
    pub version: String,
}

impl View for CrateIdentity {
    type V = (Seq<char>, Seq<char>);

    open spec fn view(&self) -> Self::V {
        (self.name@, self.version@)
    }
}

impl Clone for CrateIdentity {
    fn clone(&self) -> (r: Self)
        ensures
            r == *self,
    {
        CrateIdentity { name: self.name.clone(), version: self.version.clone() }
    }
}

/// An identity together with the SHA-256 checksum of its tarball.
#[derive(Debug)]
pub struct CrateMetadata {
    pub name: String,
    pub version: String,
    pub checksum: Vec<u8>,
}

impl View for CrateMetadata {
    type V = (Seq<char>, Seq<char>, Seq<u8>);

    open spec fn view(&self) -> Self::V {
        (self.name@, self.version@, self.checksum@)
    }
}

impl CrateMetadata {
    /// The checksum is a full SHA-256 digest.
    pub open spec fn wf(&self) -> bool {
        self.checksum@.len() == 32
    }

    /// The identity this metadata is about, without the checksum.
    pub open spec fn identity_view(&self) -> (Seq<char>, Seq<char>) {
        (self.name@, self.version@)
    }
}

impl Clone for CrateMetadata {
    fn clone(&self) -> (r: Self)
        ensures
            r@ == self@,
    {
        let checksum = clone_bytes(&self.checksum);
        CrateMetadata { name: self.name.clone(), version: self.version.clone(), checksum }
    }
}

/// A copy of a byte vector, holding the same bytes.
pub fn clone_bytes(v: &Vec<u8>) -> (r: Vec<u8>)
    ensures
        r@ == v@,
{
    let r = v.clone();
    proof {
        assert(forall|i: int| 0 <= i < v@.len() ==> r@[i] == v@[i]);
        assert(r@ =~= v@);
    }
    r
}

/// Whether two byte slices hold the same bytes.
pub fn bytes_eq(a: &[u8], b: &[u8]) -> (r: bool)
    ensures
        r == (a@ == b@),
{
    if a.len() != b.len() {
        return false;
    }
    let n = a.len();
    let mut i: usize = 0;
    while i < n
        invariant
            i <= n,
            n == a@.len(),
            n == b@.len(),
            forall|j: int| 0 <= j < i ==> a@[j] == b@[j],
        decreases n - i,
    {
        if a[i] != b[i] {
            return false;
        }
        i = i + 1;
    }
    proof {
        assert(a@ =~= b@);
    }
    true
}

/// Whether two identities name the same release.
pub fn ident_eq(a: &CrateIdentity, b: &CrateIdentity) -> (r: bool)
    ensures
        r == (a@ == b@),
{
    a.name == b.name && a.version == b.version
}

/// Whether two metadata records are the same task identity: name,
/// version and checksum all equal.
pub fn meta_eq(a: &CrateMetadata, b: &CrateMetadata) -> (r: bool)
    ensures
        r == (a@ == b@),
{
    a.name == b.name && a.version == b.version && bytes_eq(
        self_checksum(a),
        self_checksum(b),
    )
}

/// The checksum field as a slice.
fn self_checksum(m: &CrateMetadata) -> (r: &[u8])
    ensures
        r@ == m.checksum@,
{
    m.checksum.as_slice()
}

/// Whether two string slices hold the same characters.
pub fn str_eq(a: &str, b: &str) -> (r: bool)
    ensures
        r == (a@ == b@),
{
    let n = a.unicode_len();
    if n != b.unicode_len() {
        return false;
    }
    let mut i: usize = 0;
    while i < n
        invariant
            i <= n,
            n == a@.len(),
            n == b@.len(),
            forall|j: int| 0 <= j < i ==> a@[j] == b@[j],
        decreases n - i,
    {
        if a.get_char(i) != b.get_char(i) {
            return false;
        }
        i = i + 1;
    }
    proof {
        assert(a@ =~= b@);
    }
    true
}

/// The string with every occurrence of `pat` replaced by `sub`,
/// scanning left to right without overlap. A string shorter than the
/// pattern is returned unchanged.
pub open spec fn spec_replace(s: Seq<char>, pat: Seq<char>, sub: Seq<char>) -> Seq<char>
    recommends
        pat.len() > 0,
    decreases s.len(),
{
    if pat.len() == 0 || s.len() < pat.len() {
        s
    } else if s.take(pat.len() as int) == pat {
        sub + spec_replace(s.skip(pat.len() as int), pat, sub)
    } else {
        seq![s[0]] + spec_replace(s.skip(1), pat, sub)
    }
}

/// Whether `pat` occurs as a contiguous run somewhere in `s`.
pub open spec fn contains_seq(s: Seq<char>, pat: Seq<char>) -> bool {
    exists|i: int| 0 <= i && i + pat.len() <= s.len() && #[trigger] s.subrange(i, i + pat.len())
        == pat
}

/// Whether `pat` starts at position `at` of `s`.
pub fn matches_at(s: &str, at: usize, pat: &str) -> (r: bool)
    requires
        at <= s@.len(),
    ensures
        r == (at + pat@.len() <= s@.len() && s@.subrange(at as int, at + pat@.len()) == pat@),
{
    let n = s.unicode_len();
    let m = pat.unicode_len();
    if m > n - at {
        return false;
    }
    let mut j: usize = 0;
    while j < m
        invariant
            j <= m,
            at + m <= n,
            n == s@.len(),
            m == pat@.len(),
            forall|k: int| 0 <= k < j ==> s@[at + k] == pat@[k],
        decreases m - j,
    {
        if s.get_char(at + j) != pat.get_char(j) {
            proof {
                assert(s@.subrange(at as int, at + pat@.len())[j as int] != pat@[j as int]);
            }
            return false;
        }
        j = j + 1;
    }
    proof {
        assert(s@.subrange(at as int, at + pat@.len()) =~= pat@);
    }
    true
}

/// Whether `pat` occurs anywhere in `s`.
pub fn contains_pattern(s: &str, pat: &str) -> (r: bool)
    requires
        pat@.len() > 0,
    ensures
        r == contains_seq(s@, pat@),
{
    let n = s.unicode_len();
    let m = pat.unicode_len();
    if m > n {
        return false;
    }
    let limit = n - m;
    let mut i: usize = 0;
    while i <= limit
        invariant
            i <= limit + 1,
            limit == n - m,
            m <= n,
            m > 0,
            n == s@.len(),
            m == pat@.len(),
            forall|k: int| 0 <= k < i ==> #[trigger] s@.subrange(k, k + pat@.len()) != pat@,
        decreases limit - i + 1,
    {
        if matches_at(s, i, pat) {
            return true;
        }
        i = i + 1;
    }
    false
}

/// Replace every occurrence of `pat` in `s` with `sub`, scanning left
/// to right without overlap.
pub fn replace_all(s: &str, pat: &str, sub: &str) -> (r: String)
    requires
        pat@.len() > 0,
    ensures
        r@ == spec_replace(s@, pat@, sub@),
{
    let n = s.unicode_len();
    let m = pat.unicode_len();
    let mut out = String::new();
    let mut i: usize = 0;
    proof {
        assert(s@.skip(0) =~= s@);
        assert(out@ =~= Seq::<char>::empty());
        assert(Seq::<char>::empty() + spec_replace(s@, pat@, sub@) =~= spec_replace(
            s@,
            pat@,
            sub@,
        ));
    }
    while i < n
        invariant
            i <= n,
            n == s@.len(),
            m == pat@.len(),
            m > 0,
            spec_replace(s@, pat@, sub@) == out@ + spec_replace(s@.skip(i as int), pat@, sub@),
        decreases n - i,
    {
        if matches_at(s, i, pat) {
            proof {
                assert(s@.skip(i as int).take(m as int) =~= s@.subrange(i as int, i + m));
                assert(s@.skip(i as int).skip(m as int) =~= s@.skip(i + m));
            }
            out.append(sub);
            i = i + m;
        } else {
            proof {
                if i + m <= n {
                    assert(s@.skip(i as int).take(m as int) =~= s@.subrange(i as int, i + m));
                }
                assert(s@.skip(i as int).skip(1) =~= s@.skip(i + 1));
                assert(s@.skip(i as int)[0] == s@[i as int]);
            }
            let c = s.get_char(i);
            out.push(c);
            i = i + 1;
        }
        proof {
            assert(spec_replace(s@, pat@, sub@) == out@ + spec_replace(
                s@.skip(i as int),
                pat@,
                sub@,
            ));
        }
    }
    proof {
        assert(s@.skip(n as int) =~= Seq::<char>::empty());
        assert(out@ + Seq::<char>::empty() =~= out@);
    }
    out
}

/// The placeholder that the configured template must carry for the
/// crate name.
pub open spec fn crate_marker() -> Seq<char> {
    "{crate}"@
}

/// The placeholder that the configured template must carry for the
/// version.
pub open spec fn version_marker() -> Seq<char> {
    "{version}"@
}

/// The upstream URL a release is downloaded from: the configured
/// template with the crate-name placeholder replaced by `name` and the
/// version placeholder replaced by `version`.
pub open spec fn spec_upstream_url(template: Seq<char>, name: Seq<char>, version: Seq<char>) -> Seq<
    char,
> {
    spec_replace(spec_replace(template, crate_marker(), name), version_marker(), version)
}

/// Build the upstream download URL for one release from the configured
/// template.
pub fn upstream_url(template: &str, name: &str, version: &str) -> (r: String)
    ensures
        r@ == spec_upstream_url(template@, name@, version@),
{
    proof {
        reveal_strlit("{crate}");
        reveal_strlit("{version}");
    }
    let step = replace_all(template, "{crate}", name);
    replace_all(step.as_str(), "{version}", version)
}

/// Whether a character sequence parses as a URI. Decided by an outside
/// parser; the template check below reports exactly its verdict.
pub uninterp spec fn uri_ok(s: Seq<char>) -> bool;

/// Relies on http::Uri's FromStr implementation: whether a string
/// parses as a URI depends on its characters alone.
#[verifier::external_body]
fn parse_uri_ok(s: &str) -> (r: bool)
    ensures
        r == uri_ok(s@),
{
    match s.parse::<http::Uri>() {
        Ok(_) => true,
        Err(_) => false,
    }
}

/// Validate the configured download-URL template at startup: it must
/// carry both placeholders, and substituting sample values must give a
/// well-formed URI.
pub fn check_upstream_url(template: &str) -> (r: Result<(), ConfigError>)
    ensures
        r == spec_template_verdict(template@),
{
    proof {
        reveal_strlit("{crate}");
        reveal_strlit("{version}");
        reveal_strlit("foo");
        reveal_strlit("0.1.0");
    }
    if !contains_pattern(template, "{crate}") {
        return Err(ConfigError::MissingCrateMarker);
    }
    if !contains_pattern(template, "{version}") {
        return Err(ConfigError::MissingVersionMarker);
    }
    let sample = upstream_url(template, "foo", "0.1.0");
    if !parse_uri_ok(sample.as_str()) {
        return Err(ConfigError::InvalidUri);
    }
    Ok(())
}

/// The verdict the template check returns: each rejection comes on
/// exactly the stated inputs, in this order of precedence.
pub open spec fn spec_template_verdict(template: Seq<char>) -> Result<(), ConfigError> {
    if !contains_seq(template, crate_marker()) {
        Err(ConfigError::MissingCrateMarker)
    } else if !contains_seq(template, version_marker()) {
        Err(ConfigError::MissingVersionMarker)
    } else if !uri_ok(spec_upstream_url(template, "foo"@, "0.1.0"@)) {
        Err(ConfigError::InvalidUri)
    } else {
        Ok(())
    }
}

} // verus!
