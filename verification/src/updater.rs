//! The update checker's rules: reading versions, deciding whether a cycle
//! yields a download, and verifying the downloaded artifact's checksum.
//! Fetching is left to the caller; every decision is made here.
use vstd::prelude::*;
use crate::json::{
    dec_val, digits_len, hex_digit, lemma_digits_len_bounds, parse_u64,
};
use crate::text::{str_eq, string_of};

verus! {

// ---------------------------------------------------------------------------
// Versions.
// ---------------------------------------------------------------------------

/// A semantic version: `major.minor.patch`, with an optional pre-release tag
/// after a dash.
pub struct SemVer {
    pub major: u64,
    pub minor: u64,
    pub patch: u64,
    pub pre: Option<String>,
}

/// The mathematical shape of a version.
pub struct SemVerV {
    pub major: u64,
    pub minor: u64,
    pub patch: u64,
    pub pre: Option<Seq<char>>,
}

impl View for SemVer {
    type V = SemVerV;

    open spec fn view(&self) -> SemVerV {
        SemVerV {
            major: self.major,
            minor: self.minor,
            patch: self.patch,
            pre: match self.pre {
                Some(p) => Some(p@),
                None => None,
            },
        }
    }
}

/// Strict lexicographic order on character sequences, by scalar value.
pub open spec fn lex_lt(a: Seq<char>, b: Seq<char>) -> bool
    decreases a.len(),
{
    if b.len() == 0 {
        false
    } else if a.len() == 0 {
        true
    } else if a[0] != b[0] {
        (a[0] as u32) < (b[0] as u32)
    } else {
        lex_lt(a.drop_first(), b.drop_first())
    }
}

/// Version precedence: numeric on the triple; for an equal triple, a
/// pre-release precedes the release, and two pre-release tags compare
/// lexicographically.
pub open spec fn semver_lt(a: SemVerV, b: SemVerV) -> bool {
    if a.major != b.major {
        a.major < b.major
    } else if a.minor != b.minor {
        a.minor < b.minor
    } else if a.patch != b.patch {
        a.patch < b.patch
    } else {
        match (a.pre, b.pre) {
            (Some(x), None) => true,
            (None, _) => false,
            (Some(x), Some(y)) => lex_lt(x, y),
        }
    }
}

fn chars_lt(a: &Vec<char>, b: &Vec<char>) -> (r: bool)
    ensures
        r == lex_lt(a@, b@),
{
    let mut i: usize = 0;
    proof {
        assert(a@.skip(0int) =~= a@);
        assert(b@.skip(0int) =~= b@);
    }
    loop
        invariant
            i <= a@.len(),
            i <= b@.len(),
            lex_lt(a@, b@) == lex_lt(a@.skip(i as int), b@.skip(i as int)),
        decreases a@.len() - i,
    {
        if i >= b.len() {
            proof {
                assert(b@.skip(i as int).len() == 0);
            }
            return false;
        }
        if i >= a.len() {
            proof {
                assert(a@.skip(i as int).len() == 0);
                assert(b@.skip(i as int).len() > 0);
            }
            return true;
        }
        proof {
            assert(a@.skip(i as int)[0] == a@[i as int]);
            assert(b@.skip(i as int)[0] == b@[i as int]);
        }
        if a[i] != b[i] {
            return (a[i] as u32) < (b[i] as u32);
        }
        proof {
            assert(a@.skip(i as int).drop_first() =~= a@.skip(i + 1));
            assert(b@.skip(i as int).drop_first() =~= b@.skip(i + 1));
        }
        i = i + 1;
    }
}

impl SemVer {
    /// Strict precedence.
    pub fn lt(&self, other: &SemVer) -> (r: bool)
        ensures
            r == semver_lt(self@, other@),
    {
        if self.major != other.major {
            self.major < other.major
        } else if self.minor != other.minor {
            self.minor < other.minor
        } else if self.patch != other.patch {
            self.patch < other.patch
        } else {
            match (&self.pre, &other.pre) {
                (Some(x), None) => true,
                (None, _) => false,
                (Some(x), Some(y)) => {
                    let xv = crate::text::chars_of(x.as_str());
                    let yv = crate::text::chars_of(y.as_str());
                    chars_lt(&xv, &yv)
                },
            }
        }
    }
}

/// The version a string denotes: three dot-separated digit runs that fit in
/// 64 bits, optionally followed by a dash and a non-empty pre-release tag.
pub open spec fn spec_parse_semver(s: Seq<char>) -> Option<SemVerV> {
    let d1 = digits_len(s);
    let p1 = d1 + 1;
    let d2 = digits_len(s.skip(p1));
    let p2 = p1 + d2 + 1;
    let d3 = digits_len(s.skip(p2));
    let p3 = p2 + d3;
    if d1 > 0 && d1 < s.len() && s[d1] == '.' && d2 > 0 && p1 + d2 < s.len() && s[p1 + d2] == '.'
        && d3 > 0 && dec_val(s.subrange(0, d1)) <= u64::MAX && dec_val(s.subrange(p1, p1 + d2))
        <= u64::MAX && dec_val(s.subrange(p2, p2 + d3)) <= u64::MAX {
        let major = dec_val(s.subrange(0, d1)) as u64;
        let minor = dec_val(s.subrange(p1, p1 + d2)) as u64;
        let patch = dec_val(s.subrange(p2, p2 + d3)) as u64;
        if p3 == s.len() {
            Some(SemVerV { major, minor, patch, pre: None })
        } else if s[p3] == '-' && p3 + 1 < s.len() {
            Some(SemVerV { major, minor, patch, pre: Some(s.skip(p3 + 1)) })
        } else {
            None
        }
    } else {
        None
    }
}

/// Reads a version string.
pub fn parse_semver(s: &str) -> (r: Option<SemVer>)
    ensures
        match r {
            Some(v) => spec_parse_semver(s@) == Some(v@),
            None => spec_parse_semver(s@) is None,
        },
{
    let cs = crate::text::chars_of(s);
    proof {
        assert(cs@.skip(0int) =~= cs@);
        lemma_digits_len_bounds(cs@);
    }
    let d1 = crate::json::digits_run(&cs, 0);
    if d1 == 0 || d1 >= cs.len() || cs[d1] != '.' {
        return None;
    }
    let p1 = d1 + 1;
    let e2 = crate::json::digits_run(&cs, p1);
    let ghost d2 = e2 - p1;
    if e2 == p1 || e2 >= cs.len() || cs[e2] != '.' {
        return None;
    }
    let p2 = e2 + 1;
    let e3 = crate::json::digits_run(&cs, p2);
    let ghost d3 = e3 - p2;
    if e3 == p2 {
        return None;
    }
    let major = match parse_u64(string_of(&crate::json::vec_slice(&cs, 0, d1)).as_str()) {
        Some(n) => n,
        None => {
            proof {
                crate::json::lemma_digits_run_digits(cs@);
                assert(crate::json::all_digits(cs@.subrange(0, d1 as int))) by {
                    assert(forall|k: int|
                        0 <= k < d1 ==> #[trigger] cs@.subrange(0, d1 as int)[k] == cs@[k]);
                }
            }
            return None;
        },
    };
    let minor = match parse_u64(string_of(&crate::json::vec_slice(&cs, p1, e2)).as_str()) {
        Some(n) => n,
        None => {
            proof {
                crate::json::lemma_digits_run_digits(cs@.skip(p1 as int));
                assert(crate::json::all_digits(cs@.subrange(p1 as int, e2 as int))) by {
                    assert(forall|k: int|
                        0 <= k < d2 ==> #[trigger] cs@.subrange(p1 as int, e2 as int)[k]
                            == cs@.skip(p1 as int)[k]);
                }
            }
            return None;
        },
    };
    let patch = match parse_u64(string_of(&crate::json::vec_slice(&cs, p2, e3)).as_str()) {
        Some(n) => n,
        None => {
            proof {
                crate::json::lemma_digits_run_digits(cs@.skip(p2 as int));
                assert(crate::json::all_digits(cs@.subrange(p2 as int, e3 as int))) by {
                    assert(forall|k: int|
                        0 <= k < d3 ==> #[trigger] cs@.subrange(p2 as int, e3 as int)[k]
                            == cs@.skip(p2 as int)[k]);
                }
            }
            return None;
        },
    };
    if e3 == cs.len() {
        Some(SemVer { major, minor, patch, pre: None })
    } else if cs[e3] == '-' && e3 + 1 < cs.len() {
        let pre = string_of(&crate::json::vec_slice(&cs, e3 + 1, cs.len()));
        proof {
            assert(cs@.subrange(e3 + 1, cs@.len() as int) =~= cs@.skip(e3 + 1));
        }
        Some(SemVer { major, minor, patch, pre: Some(pre) })
    } else {
        None
    }
}

/// Whether a cycle should take the candidate: forced, or strictly newer —
/// where a pre-release candidate is taken only against a pre-release of the
/// same triple.
pub open spec fn spec_update_wanted(current: SemVerV, candidate: SemVerV, force: bool) -> bool {
    ||| force
    ||| (semver_lt(current, candidate) && (candidate.pre is None || (candidate.major
        == current.major && candidate.minor == current.minor && candidate.patch == current.patch
        && current.pre is Some)))
}

/// Decides whether the candidate replaces the current version.
pub fn update_wanted(current: &SemVer, candidate: &SemVer, force: bool) -> (r: bool)
    ensures
        r == spec_update_wanted(current@, candidate@, force),
{
    if force {
        return true;
    }
    if !current.lt(candidate) {
        return false;
    }
    match &candidate.pre {
        None => true,
        Some(_) => candidate.major == current.major && candidate.minor == current.minor
            && candidate.patch == current.patch && current.pre.is_some(),
    }
}


// ---------------------------------------------------------------------------
// One update cycle.
// ---------------------------------------------------------------------------

/// One downloadable artifact in the update descriptor.
pub struct FileItem {
    pub url: String,
    pub checksum: String,
    pub os: String,
}

/// The mathematical shape of a file item.
pub struct FileItemV {
    pub url: Seq<char>,
    pub checksum: Seq<char>,
    pub os: Seq<char>,
}

impl View for FileItem {
    type V = FileItemV;

    open spec fn view(&self) -> FileItemV {
        FileItemV { url: self.url@, checksum: self.checksum@, os: self.os@ }
    }
}

pub open spec fn view_files(s: Seq<FileItem>) -> Seq<FileItemV> {
    Seq::new(s.len(), |i: int| s[i]@)
}

/// The first artifact for the given platform, if any.
pub open spec fn first_for_os(files: Seq<FileItemV>, os: Seq<char>) -> Option<int>
    decreases files.len(),
{
    if files.len() == 0 {
        None
    } else if files[0].os == os {
        Some(0)
    } else {
        match first_for_os(files.drop_first(), os) {
            Some(i) => Some(i + 1),
            None => None,
        }
    }
}

/// Why an update cycle stopped without a download. Every one of these is
/// cycle-scoped: the checker logs it and waits for the next interval.
#[derive(Debug, PartialEq, Eq, Structural, Clone, Copy)]
pub enum UpdateError {
    /// The index and the descriptor disagree about the version: a hard
    /// failure of this cycle, never a retry within it.
    VersionMismatch,
    /// The descriptor offers no artifact for this platform.
    NoFileForPlatform,
    /// The descriptor's version string cannot be read.
    BadVersion,
    /// The candidate does not satisfy the `>current` requirement: the
    /// ordinary "no update available" outcome, not a failure.
    NotNewer,
}

/// A cycle that found an update: which artifact to download, and the version
/// it carries.
pub struct UpdateChoice {
    pub file_index: usize,
    pub version: SemVer,
}

/// What one cycle decides, in the order the checks run: the two reported
/// versions must be textually identical; there must be an artifact for this
/// platform; the descriptor's version must read as a version; and it must
/// satisfy the `>current` requirement unless the update is forced.
pub open spec fn spec_evaluate(
    index_version: Seq<char>,
    desc_version: Seq<char>,
    files: Seq<FileItemV>,
    current: SemVerV,
    force: bool,
    target_os: Seq<char>,
) -> Result<(int, SemVerV), UpdateError> {
    if index_version != desc_version {
        Err(UpdateError::VersionMismatch)
    } else {
        match first_for_os(files, target_os) {
            None => Err(UpdateError::NoFileForPlatform),
            Some(i) => match spec_parse_semver(desc_version) {
                None => Err(UpdateError::BadVersion),
                Some(v) => if spec_update_wanted(current, v, force) {
                    Ok((i, v))
                } else {
                    Err(UpdateError::NotNewer)
                },
            },
        }
    }
}

fn find_for_os(files: &Vec<FileItem>, target_os: &str) -> (r: Option<usize>)
    ensures
        match r {
            Some(i) => first_for_os(view_files(files@), target_os@) == Some(i as int) && i
                < files@.len(),
            None => first_for_os(view_files(files@), target_os@) is None,
        },
{
    let ghost fv = view_files(files@);
    proof {
        assert(fv.skip(0int) =~= fv);
    }
    let mut k: usize = 0;
    while k < files.len()
        invariant
            k <= files@.len(),
            fv == view_files(files@),
            fv.len() == files@.len(),
            forall|i: int| 0 <= i < fv.len() ==> fv[i] == #[trigger] files@[i]@,
            first_for_os(fv, target_os@) == match first_for_os(fv.skip(k as int), target_os@) {
                Some(i) => Some(i + k),
                None => None::<int>,
            },
        decreases files@.len() - k,
    {
        proof {
            assert(fv.skip(k as int)[0] == fv[k as int]);
        }
        if str_eq(files[k].os.as_str(), target_os) {
            return Some(k);
        }
        k = k + 1;
        proof {
            assert(fv.skip(k - 1 as int).drop_first() =~= fv.skip(k as int));
        }
    }
    proof {
        assert(fv.skip(k as int) =~= Seq::<FileItemV>::empty());
    }
    None
}

/// Runs the checks of one update cycle over what the two endpoints reported.
pub fn evaluate_update(
    index_version: &str,
    desc_version: &str,
    files: &Vec<FileItem>,
    current: &SemVer,
    force: bool,
    target_os: &str,
) -> (r: Result<UpdateChoice, UpdateError>)
    ensures
        match r {
            Ok(c) => spec_evaluate(
                index_version@,
                desc_version@,
                view_files(files@),
                current@,
                force,
                target_os@,
            ) == Ok::<_, UpdateError>((c.file_index as int, c.version@)) && c.file_index
                < files@.len(),
            Err(e) => spec_evaluate(
                index_version@,
                desc_version@,
                view_files(files@),
                current@,
                force,
                target_os@,
            ) == Err::<(int, SemVerV), _>(e),
        },
{
    if !str_eq(index_version, desc_version) {
        return Err(UpdateError::VersionMismatch);
    }
    let i = match find_for_os(files, target_os) {
        Some(i) => i,
        None => {
            return Err(UpdateError::NoFileForPlatform);
        },
    };
    let v = match parse_semver(desc_version) {
        Some(v) => v,
        None => {
            return Err(UpdateError::BadVersion);
        },
    };
    if update_wanted(current, &v, force) {
        Ok(UpdateChoice { file_index: i, version: v })
    } else {
        Err(UpdateError::NotNewer)
    }
}

// ---------------------------------------------------------------------------
// Checksum verification of the downloaded artifact.
// ---------------------------------------------------------------------------

/// The SHA-256 digest of a byte sequence: 32 bytes, a function of the input
/// alone.
pub uninterp spec fn sha256_of(data: Seq<u8>) -> Seq<u8>;

/// Relies on sha2's `Digest::digest` for `Sha256`: computes the SHA-256 hash
/// of the input, 32 bytes, depending on the input bytes alone.
#[verifier::external_body]
fn sha256(data: &[u8]) -> (r: Vec<u8>)
    ensures
        r@ == sha256_of(data@),
        r@.len() == 32,
{
    let out = <sha2::Sha256 as sha2::Digest>::digest(data);
    out.to_vec()
}

/// The lowercase hexadecimal spelling of a byte sequence, two digits a byte.
pub open spec fn hex_of(b: Seq<u8>) -> Seq<char> {
    Seq::new(
        2 * b.len(),
        |i: int|
            if i % 2 == 0 {
                hex_digit(b[i / 2] as int / 16)
            } else {
                hex_digit(b[i / 2] as int % 16)
            },
    )
}

/// Writes bytes in lowercase hexadecimal.
pub fn hex_string(b: &Vec<u8>) -> (r: String)
    ensures
        r@ == hex_of(b@),
{
    let mut out: Vec<char> = Vec::new();
    let mut k: usize = 0;
    while k < b.len()
        invariant
            k <= b@.len(),
            out@ =~= hex_of(b@.take(k as int)),
        decreases b@.len() - k,
    {
        let byte = b[k];
        crate::json::push_hex_digit(&mut out, (byte / 16) as u32);
        crate::json::push_hex_digit(&mut out, (byte % 16) as u32);
        k = k + 1;
        proof {
            assert(out@ =~= hex_of(b@.take(k as int)));
        }
    }
    proof {
        assert(b@.take(b@.len() as int) =~= b@);
    }
    string_of(&out)
}

/// What to do with the finished download.
pub enum DownloadCheck {
    /// The digest matches the declared checksum: keep the artifact and
    /// announce the update.
    Verified,
    /// The digest does not match: the partial artifact must be deleted and
    /// the failure reported.
    MismatchDeletePartial,
}

/// Verifies a download against the checksum its descriptor declared: feed the
/// bytes as they arrive, then ask for the verdict.
pub struct DownloadVerifier {
    content: Vec<u8>,
    expected_hex: String,
}

impl DownloadVerifier {
    /// The bytes fed so far.
    pub closed spec fn absorbed(&self) -> Seq<u8> {
        self.content@
    }

    /// The checksum the descriptor declared.
    pub closed spec fn expected(&self) -> Seq<char> {
        self.expected_hex@
    }

    pub fn new(expected_hex: String) -> (r: DownloadVerifier)
        ensures
            r.absorbed() == Seq::<u8>::empty(),
            r.expected() == expected_hex@,
    {
        let r = DownloadVerifier { content: Vec::new(), expected_hex };
        proof {
            assert(r.absorbed() =~= Seq::<u8>::empty());
        }
        r
    }

    /// Feeds the next downloaded chunk.
    pub fn update(&mut self, chunk: &[u8])
        ensures
            final(self).absorbed() == old(self).absorbed() + chunk@,
            final(self).expected() == old(self).expected(),
    {
        let mut k: usize = 0;
        let ghost old_content = self.content@;
        while k < chunk.len()
            invariant
                k <= chunk@.len(),
                self.content@ == old_content + chunk@.take(k as int),
                self.expected_hex == old(self).expected_hex,
            decreases chunk@.len() - k,
        {
            self.content.push(chunk[k]);
            k = k + 1;
            proof {
                assert(self.content@ =~= old_content + chunk@.take(k as int));
            }
        }
        proof {
            assert(chunk@.take(chunk@.len() as int) =~= chunk@);
        }
    }

    /// The download is kept exactly when the SHA-256 digest of the absorbed
    /// bytes, in hexadecimal, equals the declared checksum; otherwise the
    /// partial file must be deleted.
    pub fn finish(self) -> (r: DownloadCheck)
        ensures
            r == (if hex_of(sha256_of(self.absorbed())) == self.expected() {
                DownloadCheck::Verified
            } else {
                DownloadCheck::MismatchDeletePartial
            }),
    {
        let digest = sha256(self.content.as_slice());
        let actual = hex_string(&digest);
        if actual == self.expected_hex {
            DownloadCheck::Verified
        } else {
            DownloadCheck::MismatchDeletePartial
        }
    }
}

} // verus!

