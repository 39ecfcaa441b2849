//! The per-file pipeline: from the size and the bytes of one file to its
//! artifact, or to the decision that the file is left out.
//!
//! The steps are taken in this order, and the first that decides ends the
//! pipeline: an empty file is left out; a file that could not be read is
//! reported; a file over the size limit is kept as an excerpt if it is text
//! and left out if it is not; a file within the limit is left out if it
//! looks binary; what is blank is left out; what remains is sanitized, and
//! its lines and tokens are counted last.

use crate::language::{detect_language, language_of};
use crate::path::{DiscoveredPath, PathView};
use crate::sanitize::{sanitize_content, sanitized, SanitizationRuleSet};
use crate::text::{
    blank, count_lines, decimal_text, is_blank, is_white_space, join_lines, lines_of,
    push_decimal, push_joined, split_lines,
};
use vstd::prelude::*;
use vstd::string::StringExecFns;
use vstd::utf8::{decode_utf8, encode_utf8, valid_utf8};

verus! {

/// Bytes of content that count as one token in the estimate.
pub const CHARS_PER_TOKEN: usize = 4;

/// Files over this size are not kept in full.
pub const MAX_FILE_SIZE_BYTES: u64 = 1_000_000;

/// How far into a file a null byte is looked for.
pub const BINARY_PROBE_BYTES: usize = 8192;

/// A large file is shown by an excerpt only if it has more lines than this.
pub const EXCERPT_MIN_LINES: usize = 100;

/// Lines kept from the start, and as many from the end, of a large file.
pub const EXCERPT_EDGE_LINES: usize = 50;

/// One file as it goes into the output.
#[derive(Debug)]
pub struct FileArtifact {
    /// Path of the file below the root of the scan.
    pub relative_path: String,
    pub language: String,
    /// Logical lines of `content`.
    pub lines: usize,
    /// What is shown of the file, sanitized.
    pub content: String,
    /// Bytes of `content` divided by `CHARS_PER_TOKEN`.
    pub token_estimate: usize,
    /// Whether `content` stands for more than it shows.
    pub is_truncated: bool,
}

/// An artifact as contracts see it.
pub struct ArtifactView {
    pub relative_path: Seq<char>,
    pub language: Seq<char>,
    pub lines: nat,
    pub content: Seq<char>,
    pub token_estimate: nat,
    pub is_truncated: bool,
}

impl View for FileArtifact {
    type V = ArtifactView;

    open spec fn view(&self) -> ArtifactView {
        ArtifactView {
            relative_path: self.relative_path@,
            language: self.language@,
            lines: self.lines as nat,
            content: self.content@,
            token_estimate: self.token_estimate as nat,
            is_truncated: self.is_truncated,
        }
    }
}

impl ArtifactView {
    /// The counts are those of the content as it stands.
    pub open spec fn well_formed(self) -> bool {
        &&& self.lines == lines_of(self.content).len()
        &&& self.token_estimate == encode_utf8(self.content).len() / (CHARS_PER_TOKEN as nat)
    }
}

/// The artifact with the given path, language and content.
pub open spec fn artifact_of(
    relative_path: Seq<char>,
    language: Seq<char>,
    content: Seq<char>,
    is_truncated: bool,
) -> ArtifactView {
    ArtifactView {
        relative_path,
        language,
        lines: lines_of(content).len(),
        content,
        token_estimate: encode_utf8(content).len() / (CHARS_PER_TOKEN as nat),
        is_truncated,
    }
}

impl FileArtifact {
    /// An artifact whose line count and token estimate are those of
    /// `content`.
    pub fn new(relative_path: String, language: String, content: String, is_truncated: bool) -> (a:
        FileArtifact)
        ensures
            a@ == artifact_of(relative_path@, language@, content@, is_truncated),
            a@.well_formed(),
    {
        let lines = count_lines(content.as_str());
        let token_estimate = content.as_str().as_bytes().len() / CHARS_PER_TOKEN;
        FileArtifact { relative_path, language, lines, content, token_estimate, is_truncated }
    }
}

/// Whether a null byte stands among the first `BINARY_PROBE_BYTES` bytes.
pub open spec fn has_null_byte(bytes: Seq<u8>) -> bool {
    exists|i: int| 0 <= i < bytes.len() && i < BINARY_PROBE_BYTES && bytes[i] == 0
}

/// Whether the content looks binary.
pub fn is_binary(content: &[u8]) -> (r: bool)
    ensures
        r == has_null_byte(content@),
{
    let len = if content.len() < BINARY_PROBE_BYTES {
        content.len()
    } else {
        BINARY_PROBE_BYTES
    };
    let mut i: usize = 0;
    while i < len
        invariant
            i <= len <= content.len(),
            len <= BINARY_PROBE_BYTES,
            len == content.len() || len == BINARY_PROBE_BYTES,
            forall|j: int| 0 <= j < i ==> content@[j] != 0,
        decreases len - i,
    {
        if content[i] == 0 {
            return true;
        }
        i += 1;
    }
    false
}

/// What `String::from_utf8_lossy` makes of bytes: their text, with the
/// replacement character in place of what is not UTF-8.
pub uninterp spec fn lossy_text(bytes: Seq<u8>) -> Seq<char>;

/// `String::from_utf8_lossy`. The result is a function of the bytes alone,
/// and bytes that are UTF-8 come back as the text they encode.
#[verifier::external_body]
fn decode_lossy(bytes: &[u8]) -> (text: String)
    ensures
        text@ == lossy_text(bytes@),
        valid_utf8(bytes@) ==> text@ == decode_utf8(bytes@),
{
    String::from_utf8_lossy(bytes).into_owned()
}

/// `String::from_utf8`: the text that the bytes encode, where they are
/// UTF-8, and nothing where they are not.
#[verifier::external_body]
fn decode_strict(bytes: Vec<u8>) -> (r: Option<String>)
    ensures
        r is Some <==> valid_utf8(bytes@),
        r matches Some(text) ==> text@ == decode_utf8(bytes@),
{
    match String::from_utf8(bytes) {
        Ok(text) => Some(text),
        Err(_) => None,
    }
}

/// What stands for a large file with many lines: a notice with the size of
/// the file, its first lines, the number of lines left out, and its last
/// lines.
pub open spec fn excerpt(size: nat, lines: Seq<Seq<char>>) -> Seq<char> {
    "<!-- TRUNCATED: File too large ("@ + decimal_text(size)
        + " bytes). Showing first 50 and last 50 lines. -->\n"@ + join_lines(
        lines.take(EXCERPT_EDGE_LINES as int),
    ) + "\n\n... ["@ + decimal_text((lines.len() - EXCERPT_MIN_LINES) as nat)
        + " lines omitted] ...\n\n"@ + join_lines(lines.skip(lines.len() - EXCERPT_EDGE_LINES))
}

/// What stands for a large file with few lines.
pub open spec fn oversize_warning(size: nat) -> Seq<char> {
    "<!-- WARNING: File too large ("@ + decimal_text(size) + " bytes). Truncated. -->\n"@
}

/// What stands for a text file of `size` bytes that is over the limit.
pub open spec fn large_file_text(size: u64, text: Seq<char>) -> Seq<char> {
    if lines_of(text).len() > EXCERPT_MIN_LINES {
        excerpt(size as nat, lines_of(text))
    } else {
        oversize_warning(size as nat)
    }
}

/// The stand-in for the text of a file that is over the size limit: an
/// excerpt of its first and last lines where it has more than
/// `EXCERPT_MIN_LINES` lines, a warning alone where it has not.
pub fn truncate_large(size: u64, text: &str) -> (out: String)
    ensures
        out@ == large_file_text(size, text@),
{
    let lines = split_lines(text);
    let mut out = String::new();
    let n = lines.len();
    if n > EXCERPT_MIN_LINES {
        out.append("<!-- TRUNCATED: File too large (");
        push_decimal(&mut out, size);
        out.append(" bytes). Showing first 50 and last 50 lines. -->\n");
        push_joined(&mut out, &lines, 0, EXCERPT_EDGE_LINES, '\n');
        out.append("\n\n... [");
        push_decimal(&mut out, (n - EXCERPT_MIN_LINES) as u64);
        out.append(" lines omitted] ...\n\n");
        push_joined(&mut out, &lines, n - EXCERPT_EDGE_LINES, n, '\n');
        proof {
            let all = lines.deep_view();
            assert(all.subrange(0, EXCERPT_EDGE_LINES as int) =~= all.take(
                EXCERPT_EDGE_LINES as int,
            ));
            assert(all.subrange(n - EXCERPT_EDGE_LINES, n as int) =~= all.skip(
                n - EXCERPT_EDGE_LINES,
            ));
        }
    } else {
        out.append("<!-- WARNING: File too large (");
        push_decimal(&mut out, size);
        out.append(" bytes). Truncated. -->\n");
    }
    out
}

/// Whether the content of a file of `size` bytes is wanted at all. An empty
/// file is left out unread.
pub fn wants_content(size: u64) -> (r: bool)
    ensures
        r == (size != 0),
{
    size != 0
}

/// What is shown of a file of `size` bytes with the given bytes, and whether
/// that is less than the file; `None` where the file is not text.
pub open spec fn shown_text(size: u64, bytes: Seq<u8>) -> Option<(Seq<char>, bool)> {
    if size > MAX_FILE_SIZE_BYTES {
        if valid_utf8(bytes) {
            Some((large_file_text(size, decode_utf8(bytes)), true))
        } else {
            None
        }
    } else {
        if has_null_byte(bytes) {
            None
        } else {
            Some((lossy_text(bytes), false))
        }
    }
}

/// What becomes of a file: `Ok(None)` where it is left out, an error where
/// it could not be read, its artifact else. `read` is what reading the file
/// gave: its bytes, or the cause of the failure.
pub open spec fn outcome_of(
    path: PathView,
    root: PathView,
    size: u64,
    read: Result<Seq<u8>, Seq<char>>,
) -> Result<Option<ArtifactView>, Seq<char>> {
    if size == 0 {
        Ok(None)
    } else {
        match read {
            Err(cause) => Err(cause),
            Ok(bytes) => match shown_text(size, bytes) {
                None => Ok(None),
                Some((text, truncated)) => if blank(text) {
                    Ok(None)
                } else {
                    Ok(
                        Some(
                            artifact_of(
                                path.relative_text(root),
                                language_of(path.file_name()),
                                sanitized(text),
                                truncated,
                            ),
                        ),
                    )
                },
            },
        }
    }
}

/// An empty file is left out, whatever reading it gave: it yields no
/// artifact and no failure.
pub proof fn law_empty_file_is_excluded(
    path: PathView,
    root: PathView,
    read: Result<Seq<u8>, Seq<char>>,
)
    ensures
        outcome_of(path, root, 0, read) == Ok::<Option<ArtifactView>, Seq<char>>(None),
{
}

/// An artifact is marked as truncated if and only if its file is over the
/// size limit, and its counts are those of its content.
pub proof fn law_artifact_of_a_file(
    path: PathView,
    root: PathView,
    size: u64,
    read: Result<Seq<u8>, Seq<char>>,
)
    ensures
        outcome_of(path, root, size, read) matches Ok(Some(artifact)) ==> {
            &&& artifact.is_truncated == (size > MAX_FILE_SIZE_BYTES)
            &&& artifact.well_formed()
        },
{
}

/// A file over the size limit that is text always has an artifact, and the
/// artifact is marked as truncated: what stands for the file is never blank.
pub proof fn law_large_text_file_is_shown(path: PathView, root: PathView, size: u64, bytes: Seq<u8>)
    requires
        size > MAX_FILE_SIZE_BYTES,
        valid_utf8(bytes),
    ensures
        outcome_of(path, root, size, Ok(bytes)) matches Ok(Some(artifact)) && artifact.is_truncated,
{
    reveal_strlit("<!-- TRUNCATED: File too large (");
    reveal_strlit("<!-- WARNING: File too large (");
    let text = large_file_text(size, decode_utf8(bytes));
    assert(text[0] == '<');
    assert(!is_white_space(text[0]));
}

/// A file that could not be read is reported with the cause, whatever its
/// size; only an empty file, which is not read, is left out in silence.
pub proof fn law_unreadable_file(path: PathView, root: PathView, size: u64, cause: Seq<char>)
    ensures
        outcome_of(path, root, size, Err(cause)) == if size == 0 {
            Ok::<Option<ArtifactView>, Seq<char>>(None)
        } else {
            Err(cause)
        },
{
}

/// Whether `r` is the outcome `expected`.
pub open spec fn is_outcome(
    r: Result<Option<FileArtifact>, String>,
    expected: Result<Option<ArtifactView>, Seq<char>>,
) -> bool {
    match expected {
        Ok(None) => r matches Ok(None),
        Ok(Some(artifact)) => r matches Ok(Some(a)) && a@ == artifact,
        Err(cause) => r matches Err(e) && e@ == cause,
    }
}

/// What reading a file gave, as contracts see it.
pub open spec fn read_view(read: Result<Vec<u8>, String>) -> Result<Seq<u8>, Seq<char>> {
    match read {
        Ok(bytes) => Ok(bytes@),
        Err(cause) => Err(cause@),
    }
}

/// Runs the pipeline on one file. `size` is the size that the file system
/// reports and `read` what reading the file gave; for a file that
/// `wants_content` declines, `read` is not looked at.
pub fn process_file(
    rules: &SanitizationRuleSet,
    path: &DiscoveredPath,
    root: &DiscoveredPath,
    size: u64,
    read: Result<Vec<u8>, String>,
) -> (r: Result<Option<FileArtifact>, String>)
    ensures
        is_outcome(r, outcome_of(path@, root@, size, read_view(read))),
        r matches Ok(Some(a)) ==> a@.well_formed(),
{
    if !wants_content(size) {
        return Ok(None);
    }
    let relative_path = path.relative_text(root);
    let language = detect_language(path.file_name().as_str());

    let is_truncated = size > MAX_FILE_SIZE_BYTES;
    let bytes = match read {
        Ok(bytes) => bytes,
        Err(cause) => {
            return Err(cause);
        },
    };
    let content: String;
    if is_truncated {
        match decode_strict(bytes) {
            Some(full_content) => {
                content = truncate_large(size, full_content.as_str());
            },
            None => {
                return Ok(None);
            },
        }
    } else {
        if is_binary(bytes.as_slice()) {
            return Ok(None);
        }
        content = decode_lossy(bytes.as_slice());
    }

    if is_blank(content.as_str()) {
        return Ok(None);
    }
    let content = sanitize_content(rules, content.as_str());
    Ok(Some(FileArtifact::new(relative_path, language, content, is_truncated)))
}

} // verus!
