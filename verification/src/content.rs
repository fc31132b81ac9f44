//! A file's bytes as text, and text as a file's bytes.

use vstd::prelude::*;
use vstd::string::*;
use crate::allowlist::{admitted, is_path_allowed, resolution, Allowlist};
use crate::encoding::{decodable_length, decode_labelled, decoded_text, detect_encoding, detected_encoding};
use crate::error::{AccessError, IoStep, Refusal};
use crate::path::{file_name, file_name_of};
use crate::text::chars_of;
use crate::validate::{inspection, validate_write_path, write_verdict, TargetKind};

verus! {

/// How the lines of a text end.
#[derive(Debug, Clone, Copy, PartialEq, Eq, Structural)]
pub enum LineEnding {
    /// Carriage return and line feed.
    CrLf,
    /// Carriage return alone.
    Cr,
    /// Line feed, also where there is no line end at all.
    Lf,
}

impl LineEnding {
    /// The style's short name.
    pub open spec fn label(self) -> Seq<char> {
        match self {
            LineEnding::CrLf => "CRLF"@,
            LineEnding::Cr => "CR"@,
            LineEnding::Lf => "LF"@,
        }
    }

    /// The style's short name.
    pub fn name(&self) -> (name: String)
        ensures
            name@ == self.label(),
    {
        match self {
            LineEnding::CrLf => String::from_str("CRLF"),
            LineEnding::Cr => String::from_str("CR"),
            LineEnding::Lf => String::from_str("LF"),
        }
    }
}

/// Somewhere in `text` a carriage return stands.
pub open spec fn has_carriage_return(text: Seq<char>) -> bool {
    exists|i: int| 0 <= i < text.len() && #[trigger] text[i] == '\r'
}

/// Somewhere in `text` a carriage return stands right before a line feed.
pub open spec fn has_crlf(text: Seq<char>) -> bool {
    exists|i: int| 0 <= i < text.len() - 1 && #[trigger] text[i] == '\r' && text[i + 1] == '\n'
}

/// The style of a text's line ends: one carriage return with a line feed
/// behind it makes the text `CrLf`, whatever else it holds; failing that,
/// one carriage return makes it `Cr`; failing that, it is `Lf`.
pub open spec fn line_ending_of(text: Seq<char>) -> LineEnding {
    if has_crlf(text) {
        LineEnding::CrLf
    } else if has_carriage_return(text) {
        LineEnding::Cr
    } else {
        LineEnding::Lf
    }
}

/// The style of the line ends of `content`.
pub fn classify_line_ending(content: &str) -> (style: LineEnding)
    ensures
        style == line_ending_of(content@),
{
    let chars = chars_of(content);
    let mut seen_return = false;
    let mut i: usize = 0;
    while i < chars.len()
        invariant
            i <= chars.len(),
            chars@ == content@,
            seen_return == (exists|j: int| 0 <= j < i && #[trigger] chars@[j] == '\r'),
            forall|j: int| 0 <= j < i && j < chars.len() - 1 ==> !(#[trigger] chars@[j] == '\r'
                && chars@[j + 1] == '\n'),
        decreases chars.len() - i,
    {
        if chars[i] == '\r' {
            if i + 1 < chars.len() && chars[i + 1] == '\n' {
                return LineEnding::CrLf;
            }
            seen_return = true;
        }
        i += 1;
    }
    if seen_return {
        LineEnding::Cr
    } else {
        LineEnding::Lf
    }
}

/// The short name of the style of the line ends of `content`: `CRLF`,
/// `CR` or `LF`.
pub fn detect_line_ending(content: &str) -> (name: String)
    ensures
        name@ == line_ending_of(content@).label(),
{
    classify_line_ending(content).name()
}

/// A file as it is shown: its text and what was found out about it.
#[derive(Debug, PartialEq, Eq)]
pub struct FileContent {
    /// The text.
    pub content: String,
    /// The name of the encoding that the bytes were taken to be in.
    pub encoding: String,
    /// The path as it was asked for.
    pub path: String,
    /// The file's name, empty where the path names none.
    pub file_name: String,
    /// The file's size in bytes.
    pub size: u64,
    /// The short name of the style of the line ends.
    pub line_ending: String,
}

/// A file as it is shown, with its texts as sequences of characters.
pub struct Shown {
    pub content: Seq<char>,
    pub encoding: Seq<char>,
    pub path: Seq<char>,
    pub file_name: Seq<char>,
    pub size: u64,
    pub line_ending: Seq<char>,
}

impl View for FileContent {
    type V = Shown;

    open spec fn view(&self) -> Shown {
        Shown {
            content: self.content@,
            encoding: self.encoding@,
            path: self.path@,
            file_name: self.file_name@,
            size: self.size,
            line_ending: self.line_ending@,
        }
    }
}

/// The name to show for the file at `path`.
pub open spec fn shown_name(path: Seq<char>) -> Seq<char> {
    match file_name_of(path) {
        Some(name) => name,
        None => Seq::<char>::empty(),
    }
}

/// What is shown of the file at `path` whose bytes, `size` of them, were
/// taken to be in `encoding` and decoded to `content`.
pub open spec fn shown(path: Seq<char>, encoding: Seq<char>, content: Seq<char>, size: u64) -> Shown {
    Shown {
        content,
        encoding,
        path,
        file_name: shown_name(path),
        size,
        line_ending: line_ending_of(content).label(),
    }
}

/// What is refused of bytes whose encoding's name turned out to be no
/// label of any encoding.
pub open spec fn undecodable(encoding: Seq<char>) -> Refusal {
    Refusal::ReadError { step: IoStep::Decode, detail: encoding }
}

/// What reading the file at `path` comes to once its `bytes` are there.
pub open spec fn read_outcome(path: Seq<char>, bytes: Seq<u8>, size: u64) -> Result<Shown, Refusal> {
    match decoded_text(detected_encoding(bytes), bytes) {
        Some(content) => Ok(shown(path, detected_encoding(bytes), content, size)),
        None => Err(undecodable(detected_encoding(bytes))),
    }
}

/// Puts together what is shown of the file at `path`: `content` is its
/// text, `encoding` the name of the encoding it was decoded from, `size`
/// its size in bytes.
pub fn describe(path: &str, encoding: String, content: String, size: u64) -> (file: FileContent)
    ensures
        file@ == shown(path@, encoding@, content@, size),
{
    let line_ending = detect_line_ending(content.as_str());
    let file_name = match file_name(path) {
        Some(name) => name,
        None => String::new(),
    };
    FileContent { content, encoding, path: path.to_owned(), file_name, size, line_ending }
}

/// Turns the bytes of the file at `path` into what is shown of it. The
/// encoding is detected, the bytes are decoded under it, and the line ends
/// are classified. `size` is the file's size as the operating system gave
/// it. To be called once the request has been let through and the bytes
/// have been read.
pub fn read_file(path: &str, bytes: &[u8], size: u64) -> (outcome: Result<FileContent, AccessError>)
    requires
        bytes@.len() <= decodable_length(),
    ensures
        match outcome {
            Ok(file) => read_outcome(path@, bytes@, size) == Ok::<Shown, Refusal>(file@),
            Err(refusal) => read_outcome(path@, bytes@, size) == Err::<Shown, Refusal>(refusal@),
        },
{
    let encoding = detect_encoding(bytes);
    match decode_labelled(encoding.as_str(), bytes) {
        Some(content) => Ok(describe(path, encoding, content, size)),
        None => Err(AccessError::ReadError { step: IoStep::Decode, detail: encoding }),
    }
}

/// Decides whether the file at `path`, which exists, may be written over,
/// and gives the bytes to write: `content` in UTF-8, whatever encoding the
/// file was read in. `resolved` is what resolving `path` came to.
pub fn save_file<'a>(
    allowlist: &Allowlist,
    path: &str,
    resolved: &Result<String, String>,
    content: &'a str,
) -> (outcome: Result<&'a [u8], AccessError>)
    ensures
        match outcome {
            Ok(bytes) => {
                &&& admitted(allowlist@, path@, resolution(*resolved)) is Ok
                &&& bytes@ == content.spec_bytes()
            },
            Err(refusal) => admitted(allowlist@, path@, resolution(*resolved)) == Err::<
                Seq<char>,
                Refusal,
            >(refusal@),
        },
{
    match is_path_allowed(allowlist, path, resolved) {
        Ok(_) => Ok(content.as_bytes()),
        Err(refusal) => Err(refusal),
    }
}

/// Decides whether a file may be written at `path`, where none need exist
/// yet, and gives the bytes to write: `content` in UTF-8. `resolved` and
/// `kind` are about the folder that `path` lies in, as for
/// `validate_write_path`.
pub fn save_file_as<'a>(
    allowlist: &Allowlist,
    path: &str,
    resolved: &Result<String, String>,
    kind: &Result<TargetKind, String>,
    content: &'a str,
) -> (outcome: Result<&'a [u8], AccessError>)
    ensures
        match outcome {
            Ok(bytes) => {
                &&& write_verdict(allowlist@, path@, resolution(*resolved), inspection(*kind)) is Ok
                &&& bytes@ == content.spec_bytes()
            },
            Err(refusal) => write_verdict(
                allowlist@,
                path@,
                resolution(*resolved),
                inspection(*kind),
            ) == Err::<Seq<char>, Refusal>(refusal@),
        },
{
    match validate_write_path(allowlist, path, resolved, kind) {
        Ok(_) => Ok(content.as_bytes()),
        Err(refusal) => Err(refusal),
    }
}

/// A text whose line ends are line feeds alone is classified `Lf`.
pub proof fn law_line_feeds_alone(text: Seq<char>)
    requires
        forall|i: int| 0 <= i < text.len() ==> text[i] != '\r',
    ensures
        line_ending_of(text) == LineEnding::Lf,
{
}

/// One carriage return with a line feed behind it makes a text `CrLf`,
/// also where a carriage return stands alone elsewhere in it.
pub proof fn law_crlf_outweighs_cr(text: Seq<char>, at: int)
    requires
        0 <= at < text.len() - 1,
        text[at] == '\r',
        text[at + 1] == '\n',
    ensures
        line_ending_of(text) == LineEnding::CrLf,
{
}

} // verus!
