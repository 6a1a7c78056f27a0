//! Downloads. Each file is written to a `.part` file, then renamed once its
//! digest has been checked: a network cut never leaves a truncated file in
//! place of a good one. The transfers themselves happen outside the library;
//! here are the decisions they rest on.

use vstd::prelude::*;

use sha2::Digest;

verus! {

/// Expected digest of a file, in hexadecimal (any case).
#[derive(Clone, Debug, PartialEq, Eq)]
pub enum Hash {
    Sha1(String),
    Sha256(String),
    /// No digest to check.
    Unchecked,
}

/// One file to fetch.
#[derive(Clone, Debug)]
pub struct Download {
    pub url: String,
    pub path: String,
    pub hash: Hash,
    pub size: Option<u64>,
    pub executable: bool,
}

/// What is expected of a file's digest, as plain text.
pub enum HashSpec {
    Sha1(Seq<char>),
    Sha256(Seq<char>),
    Unchecked,
}

/// A download as plain values.
pub struct DownloadSpec {
    pub url: Seq<char>,
    pub path: Seq<char>,
    pub hash: HashSpec,
    pub size: Option<u64>,
    pub executable: bool,
}

impl View for Hash {
    type V = HashSpec;

    open spec fn view(&self) -> HashSpec {
        match self {
            Hash::Sha1(s) => HashSpec::Sha1(s@),
            Hash::Sha256(s) => HashSpec::Sha256(s@),
            Hash::Unchecked => HashSpec::Unchecked,
        }
    }
}

impl View for Download {
    type V = DownloadSpec;

    open spec fn view(&self) -> DownloadSpec {
        DownloadSpec { url: self.url@, path: self.path@, hash: self.hash@, size: self.size, executable: self.executable }
    }
}

/// The contents of a list of downloads.
pub open spec fn downloads_view(v: Seq<Download>) -> Seq<DownloadSpec> {
    Seq::new(v.len(), |i: int| v[i]@)
}

/// The SHA-1 digest of `data` (computed by the `sha1` crate).
pub uninterp spec fn sha1_of(data: Seq<u8>) -> Seq<u8>;

/// The SHA-256 digest of `data` (computed by the `sha2` crate).
pub uninterp spec fn sha256_of(data: Seq<u8>) -> Seq<u8>;

/// `sha1::Sha1::digest`: the 20-byte SHA-1 digest of `data`. Trusted: the
/// digest itself is only named (`sha1_of`), its length is the one the
/// algorithm defines.
#[verifier::external_body]
fn sha1_digest(data: &[u8]) -> (d: Vec<u8>)
    ensures
        d@ == sha1_of(data@),
        d@.len() == 20,
{
    sha1::Sha1::digest(data).to_vec()
}

/// `sha2::Sha256::digest`: the 32-byte SHA-256 digest of `data`. Trusted:
/// the digest itself is only named (`sha256_of`), its length is the one the
/// algorithm defines.
#[verifier::external_body]
pub(crate) fn sha256_digest(data: &[u8]) -> (d: Vec<u8>)
    ensures
        d@ == sha256_of(data@),
        d@.len() == 32,
{
    sha2::Sha256::digest(data).to_vec()
}

/// Lower-case hexadecimal digit of `n` (`n < 16`).
pub open spec fn hex_digit(n: u8) -> char {
    if n < 10 {
        (('0' as u8) + n) as char
    } else {
        (('a' as u8) + (n - 10)) as char
    }
}

/// `data` in lower-case hexadecimal, two digits per byte, high digit first.
pub open spec fn spec_hex(data: Seq<u8>) -> Seq<char>
    decreases data.len(),
{
    if data.len() == 0 {
        Seq::empty()
    } else {
        spec_hex(data.drop_last()) + seq![hex_digit(data.last() >> 4u8), hex_digit(data.last() & 0xfu8)]
    }
}

/// `hex::encode`: `data` in lower-case hexadecimal, as the `hex` crate
/// documents it. Trusted to follow that documentation (`spec_hex`).
#[verifier::external_body]
pub(crate) fn hex_encode(data: &[u8]) -> (s: String)
    ensures
        s@ == spec_hex(data@),
{
    hex::encode(data)
}

/// ASCII lower case of `c` (other characters unchanged).
pub open spec fn ascii_lower(c: char) -> char {
    if 'A' <= c <= 'Z' {
        ((c as u32) + 32) as char
    } else {
        c
    }
}

pub fn to_ascii_lower(c: char) -> (r: char)
    ensures
        r == ascii_lower(c),
{
    if 'A' <= c && c <= 'Z' {
        ((c as u8) + 32) as char
    } else {
        c
    }
}

/// `a` and `b` are equal up to ASCII case (`str::eq_ignore_ascii_case`).
pub open spec fn eq_ignore_case(a: Seq<char>, b: Seq<char>) -> bool {
    &&& a.len() == b.len()
    &&& forall|i: int| 0 <= i < a.len() ==> ascii_lower(#[trigger] a[i]) == ascii_lower(b[i])
}

pub fn eq_ignore_ascii_case(a: &str, b: &str) -> (r: bool)
    ensures
        r == eq_ignore_case(a@, b@),
{
    let n = a.unicode_len();
    if n != b.unicode_len() {
        return false;
    }
    let mut i: usize = 0;
    while i < n
        invariant
            n == a@.len(),
            n == b@.len(),
            i <= n,
            forall|j: int| 0 <= j < i ==> ascii_lower(#[trigger] a@[j]) == ascii_lower(b@[j]),
        decreases n - i,
    {
        if to_ascii_lower(a.get_char(i)) != to_ascii_lower(b.get_char(i)) {
            return false;
        }
        i = i + 1;
    }
    true
}

/// Whether the content `data` has the expected digest.
pub open spec fn spec_content_matches(data: Seq<u8>, hash: Hash) -> bool {
    match hash {
        Hash::Sha1(expected) => eq_ignore_case(spec_hex(sha1_of(data)), expected@),
        Hash::Sha256(expected) => eq_ignore_case(spec_hex(sha256_of(data)), expected@),
        Hash::Unchecked => true,
    }
}

/// Whether a file's content has the expected digest (any content matches
/// `Hash::Unchecked`).
pub fn content_matches(data: &[u8], hash: &Hash) -> (r: bool)
    ensures
        r == spec_content_matches(data@, *hash),
{
    match hash {
        Hash::Sha1(expected) => {
            let d = sha1_digest(data);
            eq_ignore_ascii_case(hex_encode(d.as_slice()).as_str(), expected.as_str())
        },
        Hash::Sha256(expected) => {
            let d = sha256_digest(data);
            eq_ignore_ascii_case(hex_encode(d.as_slice()).as_str(), expected.as_str())
        },
        Hash::Unchecked => true,
    }
}

/// Is a file already there and good? When its size is known, the size alone
/// decides (reading the ~4000 asset files at each launch would take
/// seconds); otherwise its content must be checked against its digest.
#[derive(Clone, Copy, Debug, PartialEq, Eq)]
pub enum Presence {
    Missing,
    Valid,
    WrongSize,
    CheckContent,
}

/// The verdict on a file of length `file_len` (`None`: no such file).
pub fn presence(d: &Download, file_len: Option<u64>) -> (p: Presence)
    ensures
        p == (match file_len {
            None => Presence::Missing,
            Some(len) => match d.size {
                Some(size) => if len == size { Presence::Valid } else { Presence::WrongSize },
                None => Presence::CheckContent,
            },
        }),
{
    match file_len {
        None => Presence::Missing,
        Some(len) => match d.size {
            Some(size) => if len == size { Presence::Valid } else { Presence::WrongSize },
            None => Presence::CheckContent,
        },
    }
}

/// Number of attempts at each download.
pub const ATTEMPTS: u64 = 3;

/// Pause before attempt `attempt` (counted from 0): none before the first,
/// then half a second more at each attempt.
pub fn retry_delay_ms(attempt: u64) -> (ms: u64)
    requires
        attempt < ATTEMPTS,
    ensures
        ms == 500 * attempt,
{
    500 * attempt
}

/// `x.json` -> `x.json.part`: the suffix is added to the whole file name
/// (not `with_extension`: `java.policy` and `java.security`, downloaded in
/// parallel, would have shared `java.part`).
pub fn part_path(path: &str) -> (p: String)
    ensures
        p@ == path@ + ".part"@,
{
    let mut p = path.to_owned();
    p.append(".part");
    p
}

/// Two different files never share their partial download: the `.part`
/// name is told apart as the names are (`java.policy` and `java.security`,
/// fetched in parallel, once shared one).
pub proof fn lemma_part_path_distinct(a: Seq<char>, b: Seq<char>)
    requires
        a != b,
    ensures
        a + ".part"@ != b + ".part"@,
{
    if a + ".part"@ == b + ".part"@ {
        assert((a + ".part"@).len() == a.len() + ".part"@.len());
        assert((b + ".part"@).len() == b.len() + ".part"@.len());
        assert(a.len() == b.len());
        assert(a =~= (a + ".part"@).subrange(0, a.len() as int));
        assert(b =~= (b + ".part"@).subrange(0, b.len() as int));
    }
}

/// Why a fetched text was refused.
#[derive(Clone, Debug, PartialEq, Eq)]
pub enum FetchError {
    /// The server answered with this HTTP status, not a success.
    Status(u16),
    /// The server answered with an empty body (seen once: the pack site
    /// answered 200 with an empty body for everything).
    Empty,
}

/// HTTP statuses 200 to 299 are successes.
pub open spec fn is_success(status: u16) -> bool {
    200 <= status <= 299
}

/// The text of an HTTP answer, if it is a success with a non-empty body.
pub fn checked_body(status: u16, body: String) -> (r: Result<String, FetchError>)
    ensures
        !is_success(status) ==> r == Err::<String, FetchError>(FetchError::Status(status)),
        is_success(status) && body@.len() == 0 ==> r == Err::<String, FetchError>(FetchError::Empty),
        is_success(status) && body@.len() > 0 ==> r == Ok::<String, FetchError>(body),
{
    if !(200 <= status && status <= 299) {
        Err(FetchError::Status(status))
    } else if body.as_str().is_empty() {
        Err(FetchError::Empty)
    } else {
        Ok(body)
    }
}

} // verus!
