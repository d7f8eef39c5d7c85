//! Decisions taken while provisioning the workspace: which decompressor the
//! repository archive needs, and where each archive member lands.

use vstd::prelude::*;

use vstd::string::to_string_from_display_ensures;

use vstd::utf8::is_ascii_chars;

use crate::text::{ascii_lower, chars_of, contains_chars, contains_seq, occurs_at, prefixed};
use crate::tube_config::TubeConfig;

verus! {

/// The compression of a repository archive.
#[derive(Debug, Clone, Copy, PartialEq, Eq, Structural)]
pub enum ArchiveFormat {
    Gzip,
    Zstd,
}

/// What `str::to_lowercase` returns for a string with the given characters
/// (Unicode lower-casing; a function of the characters alone).
pub uninterp spec fn unicode_lowercase(s: Seq<char>) -> Seq<char>;

/// Calls `str::to_lowercase`; the result is `unicode_lowercase` of the
/// characters. Unicode lower-cases the ASCII letters A-Z to a-z one for one and
/// leaves every other ASCII character as it is, so an ASCII text comes back
/// with its letters lowered.
#[verifier::external_body]
fn to_lowercase(s: &str) -> (r: String)
    ensures
        r@ == unicode_lowercase(s@),
        is_ascii_chars(s@) ==> r@ == s@.map_values(|c: char| ascii_lower(c)),
{
    s.to_lowercase()
}

/// The format that an already lower-cased archive URL names: zstd when it
/// mentions `.tar.zst` or `.zst`, gzip otherwise.
pub open spec fn format_of_lowercase_url(lower: Seq<char>) -> ArchiveFormat {
    if contains_seq(lower, ".tar.zst"@) || contains_seq(lower, ".zst"@) {
        ArchiveFormat::Zstd
    } else {
        ArchiveFormat::Gzip
    }
}

/// Mentioning `.tar.zst` adds nothing to mentioning `.zst`: an archive URL
/// names zstd exactly when its lower-cased text contains `.zst`.
pub proof fn lemma_zstd_iff_mentions_zst(lower: Seq<char>)
    ensures
        (format_of_lowercase_url(lower) == ArchiveFormat::Zstd) <==> contains_seq(lower, ".zst"@),
{
    reveal_strlit(".tar.zst");
    reveal_strlit(".zst");
    if contains_seq(lower, ".tar.zst"@) {
        let i = choose|i: int| occurs_at(lower, ".tar.zst"@, i);
        assert(lower.subrange(i + 4, i + 8) =~= lower.subrange(i, i + 8).subrange(4, 8));
        assert(".tar.zst"@.subrange(4, 8) =~= ".zst"@);
        assert(occurs_at(lower, ".zst"@, i + 4));
    }
}

/// The format that an already lower-cased archive URL names.
pub fn format_of_lowercase(lower: &str) -> (f: ArchiveFormat)
    ensures
        f == format_of_lowercase_url(lower@),
{
    let text = chars_of(lower);
    let tar_zst = chars_of(".tar.zst");
    let zst = chars_of(".zst");
    if contains_chars(&text, &tar_zst) || contains_chars(&text, &zst) {
        ArchiveFormat::Zstd
    } else {
        ArchiveFormat::Gzip
    }
}

/// The archive format named by a download URL, compared without regard to case.
pub fn detect_format(url: &str) -> (f: ArchiveFormat)
    ensures
        f == format_of_lowercase_url(unicode_lowercase(url@)),
        is_ascii_chars(url@) ==> f == format_of_lowercase_url(
            url@.map_values(|c: char| ascii_lower(c)),
        ),
{
    let lower = to_lowercase(url);
    format_of_lowercase(lower.as_str())
}

/// Whether and how the workspace is provisioned: nothing is downloaded when no
/// archive URL is configured, else the archive is unpacked with the format its
/// URL names.
pub fn workspace_source(config: &TubeConfig) -> (f: Option<ArchiveFormat>)
    ensures
        config@.get_url.len() == 0 ==> f is None,
        config@.get_url.len() > 0 ==> f == Some(
            format_of_lowercase_url(unicode_lowercase(config@.get_url)),
        ),
{
    let url = config.get_url();
    if url.is_empty() {
        None
    } else {
        Some(detect_format(url))
    }
}

/// Where an archive member lands, given the components of its path: the
/// top-level directory the archive wraps its contents in is dropped, and a
/// member with nothing below that directory is skipped.
pub fn strip_top_level<C>(components: Vec<C>) -> (r: Option<Vec<C>>)
    ensures
        components@.len() <= 1 ==> r is None,
        components@.len() > 1 ==> (r matches Some(rest) && rest@ == components@.skip(1)),
{
    if components.len() <= 1 {
        return None;
    }
    let mut rest = components;
    rest.remove(0);
    assert(rest@ =~= components@.skip(1));
    Some(rest)
}

#[verifier::external_type_specification]
#[verifier::external_body]
pub struct ExJoinError(tokio::task::JoinError);

/// Why the workspace could not be provisioned.
#[derive(Debug)]
pub enum WorksapceError {
    /// The download request failed.
    Network(reqwest::Error),
    /// The unpacking task could not be joined.
    ThreadJoin(tokio::task::JoinError),
    /// Decompressing or unpacking failed.
    Io(std::io::Error),
    /// The store answered with this status and body.
    S3(String, String),
}

/// The error for a download that the store refused with `status`: it carries
/// the body the store answered with, or a fixed text when the body could not
/// be read.
pub fn s3_refusal(status: String, body: Option<String>) -> (e: WorksapceError)
    ensures
        e matches WorksapceError::S3(st, b) && st@ == status@ && b@ == (match body {
            Some(t) => t@,
            None => "Could not read error body"@,
        }),
{
    let text = match body {
        Some(t) => t,
        None => "Could not read error body".to_owned(),
    };
    WorksapceError::S3(status, text)
}

impl WorksapceError {
    /// `m` is this error's message: a fixed text for the kind of failure,
    /// followed by the failure's own display text.
    pub open spec fn describes(&self, m: Seq<char>) -> bool {
        match self {
            WorksapceError::Network(e) => exists|d: String|
                #[trigger] to_string_from_display_ensures::<reqwest::Error>(e, d) && m
                    == "Network request failed: "@ + d@,
            WorksapceError::ThreadJoin(e) => exists|d: String|
                #[trigger] to_string_from_display_ensures::<tokio::task::JoinError>(e, d) && m
                    == "Internal threading error: "@ + d@,
            WorksapceError::Io(e) => exists|d: String|
                #[trigger] to_string_from_display_ensures::<std::io::Error>(e, d) && m
                    == "Archive or Decompression IO failed: "@ + d@,
            WorksapceError::S3(status, body) => m == "S3 download failed with status "@ + status@
                + ": "@ + body@,
        }
    }

    /// The error's message.
    pub fn message(&self) -> (m: String)
        ensures
            self.describes(m@),
    {
        match self {
            WorksapceError::Network(e) => prefixed("Network request failed: ", e.to_string().as_str()),
            WorksapceError::ThreadJoin(e) => prefixed(
                "Internal threading error: ",
                e.to_string().as_str(),
            ),
            WorksapceError::Io(e) => prefixed(
                "Archive or Decompression IO failed: ",
                e.to_string().as_str(),
            ),
            WorksapceError::S3(status, body) => {
                let head = prefixed("S3 download failed with status ", status.as_str());
                let head = prefixed(head.as_str(), ": ");
                prefixed(head.as_str(), body.as_str())
            },
        }
    }
}

} // verus!
