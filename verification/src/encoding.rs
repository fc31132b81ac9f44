//! Which encoding a file's bytes are in, and their text.
//!
//! A byte-order mark at the start of the bytes decides. Without one the
//! bytes are judged by their statistics. An encoding is known by its name,
//! as the Encoding Standard spells it.

use vstd::prelude::*;
use chardetng::EncodingDetector;
use encoding_rs::Encoding;

verus! {

/// The byte-order marks that are looked for.
#[derive(Debug, Clone, Copy, PartialEq, Eq, Structural)]
pub enum ByteOrderMark {
    /// `EF BB BF`
    Utf8,
    /// `FF FE`
    Utf16Le,
    /// `FE FF`
    Utf16Be,
}

impl ByteOrderMark {
    /// The name of the encoding that the mark stands for.
    pub open spec fn encoding_name(self) -> Seq<char> {
        match self {
            ByteOrderMark::Utf8 => "UTF-8"@,
            ByteOrderMark::Utf16Le => "UTF-16LE"@,
            ByteOrderMark::Utf16Be => "UTF-16BE"@,
        }
    }

    /// The name of the encoding that the mark stands for.
    pub fn name(&self) -> (name: String)
        ensures
            name@ == self.encoding_name(),
    {
        match self {
            ByteOrderMark::Utf8 => utf_8_name(),
            ByteOrderMark::Utf16Le => utf_16le_name(),
            ByteOrderMark::Utf16Be => utf_16be_name(),
        }
    }
}

/// The mark that `bytes` start with.
pub open spec fn byte_order_mark(bytes: Seq<u8>) -> Option<ByteOrderMark> {
    if bytes.len() >= 3 && bytes[0] == 0xEF && bytes[1] == 0xBB && bytes[2] == 0xBF {
        Some(ByteOrderMark::Utf8)
    } else if bytes.len() >= 2 && bytes[0] == 0xFF && bytes[1] == 0xFE {
        Some(ByteOrderMark::Utf16Le)
    } else if bytes.len() >= 2 && bytes[0] == 0xFE && bytes[1] == 0xFF {
        Some(ByteOrderMark::Utf16Be)
    } else {
        None
    }
}

/// The name of the encoding that `chardetng` guesses for a stream that
/// consists of `bytes`, with no top-level domain given and UTF-8 allowed.
pub uninterp spec fn guessed_encoding(bytes: Seq<u8>) -> Seq<char>;

/// The text that `encoding_rs` decodes `bytes` to under the encoding that
/// `label` is a label of, and nothing where `label` is the label of none.
pub uninterp spec fn decoded_text(label: Seq<char>, bytes: Seq<u8>) -> Option<Seq<char>>;

/// The name of the encoding that `bytes` are taken to be in.
pub open spec fn detected_encoding(bytes: Seq<u8>) -> Seq<char> {
    match byte_order_mark(bytes) {
        Some(mark) => mark.encoding_name(),
        None => guessed_encoding(bytes),
    }
}

/// The longest run of bytes that is decoded in one piece. The decoder sizes
/// its buffer at three times the input and a little, and may ask for as
/// much again; the sum has to stay within what a buffer can be.
pub open spec fn decodable_length() -> nat {
    (usize::MAX / 16) as nat
}

/// Calls `Encoding::name` on `encoding_rs::UTF_8`. Claims that the name is
/// `UTF-8`.
#[verifier::external_body]
fn utf_8_name() -> (name: String)
    ensures
        name@ == "UTF-8"@,
{
    encoding_rs::UTF_8.name().to_string()
}

/// Calls `Encoding::name` on `encoding_rs::UTF_16LE`. Claims that the name
/// is `UTF-16LE`.
#[verifier::external_body]
fn utf_16le_name() -> (name: String)
    ensures
        name@ == "UTF-16LE"@,
{
    encoding_rs::UTF_16LE.name().to_string()
}

/// Calls `Encoding::name` on `encoding_rs::UTF_16BE`. Claims that the name
/// is `UTF-16BE`.
#[verifier::external_body]
fn utf_16be_name() -> (name: String)
    ensures
        name@ == "UTF-16BE"@,
{
    encoding_rs::UTF_16BE.name().to_string()
}

/// Calls `chardetng::EncodingDetector`: a new detector is fed `bytes` as
/// the whole stream and asked for its guess, with no top-level domain and
/// UTF-8 allowed. Claims only that the guess depends on the bytes alone.
#[verifier::external_body]
fn guess_encoding(bytes: &[u8]) -> (name: String)
    ensures
        name@ == guessed_encoding(bytes@),
{
    let mut detector = EncodingDetector::new();
    detector.feed(bytes, true);
    detector.guess(None, true).name().to_string()
}

/// Calls `Encoding::for_label` and, on the encoding found, `Encoding::decode`.
/// Claims only that the text depends on the label and the bytes alone, and
/// that there is none exactly where the label is unknown. Bytes too many
/// for the decoder's buffer to be sized are left out: there it panics.
#[verifier::external_body]
pub(crate) fn decode_labelled(label: &str, bytes: &[u8]) -> (text: Option<String>)
    requires
        bytes@.len() <= decodable_length(),
    ensures
        match text {
            Some(text) => decoded_text(label@, bytes@) == Some(text@),
            None => decoded_text(label@, bytes@) is None,
        },
{
    let encoding = Encoding::for_label(label.as_bytes())?;
    Some(encoding.decode(bytes).0.into_owned())
}

/// The mark that `bytes` start with.
pub fn sniff_byte_order_mark(bytes: &[u8]) -> (mark: Option<ByteOrderMark>)
    ensures
        mark == byte_order_mark(bytes@),
{
    if bytes.len() >= 3 && bytes[0] == 0xEF && bytes[1] == 0xBB && bytes[2] == 0xBF {
        Some(ByteOrderMark::Utf8)
    } else if bytes.len() >= 2 && bytes[0] == 0xFF && bytes[1] == 0xFE {
        Some(ByteOrderMark::Utf16Le)
    } else if bytes.len() >= 2 && bytes[0] == 0xFE && bytes[1] == 0xFF {
        Some(ByteOrderMark::Utf16Be)
    } else {
        None
    }
}

/// The name of the encoding that `bytes` are taken to be in: that of the
/// byte-order mark where they start with one, else the one guessed from
/// their statistics.
pub fn detect_encoding(bytes: &[u8]) -> (name: String)
    ensures
        name@ == detected_encoding(bytes@),
{
    match sniff_byte_order_mark(bytes) {
        Some(mark) => mark.name(),
        None => guess_encoding(bytes),
    }
}

/// A byte-order mark outweighs the statistics: bytes that begin with
/// `EF BB BF` are taken to be UTF-8 whatever follows.
pub proof fn law_mark_outweighs_statistics(bytes: Seq<u8>)
    requires
        bytes.len() >= 3,
        bytes[0] == 0xEF,
        bytes[1] == 0xBB,
        bytes[2] == 0xBF,
    ensures
        detected_encoding(bytes) == "UTF-8"@,
{
}

/// With a mark in front, what follows it has no say in the encoding.
pub proof fn law_mark_decides(bytes: Seq<u8>, other: Seq<u8>)
    requires
        byte_order_mark(bytes) is Some,
        byte_order_mark(other) == byte_order_mark(bytes),
    ensures
        detected_encoding(other) == detected_encoding(bytes),
{
}

} // verus!
