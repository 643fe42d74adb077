//! Following the time: what a track delivers, turned into the lines to print.

use vstd::prelude::*;
use vstd::string::*;
use vstd::utf8::*;

use crate::clock::publisher::MinuteSender;

verus! {

/// What `String::from_utf8_lossy` reads out of bytes.
pub uninterp spec fn utf8_lossy(bytes: Seq<u8>) -> Seq<char>;

/// `String::from_utf8_lossy` reads bytes as UTF-8 and puts a replacement character where
/// they are not. What it reads out of valid UTF-8 is the text that the bytes encode.
#[verifier::external_body]
fn from_utf8_lossy(bytes: &[u8]) -> (text: String)
    ensures
        text@ == utf8_lossy(bytes@),
        valid_utf8(bytes@) ==> text@ == decode_utf8(bytes@),
{
    String::from_utf8_lossy(bytes).into_owned()
}

/// The text that is printed for an object: what it encodes where it is valid UTF-8.
pub open spec fn printed(object: Seq<u8>) -> Seq<char> {
    if valid_utf8(object) {
        decode_utf8(object)
    } else {
        utf8_lossy(object)
    }
}

/// Subscribes to the clock and prints what it receives.
///
/// `R` reads a track.
pub struct Subscriber<R> {
    pub track_reader: R,
}

impl<R> Subscriber<R> {
    /// A subscriber to the track that `track_reader` reads.
    pub fn new(track_reader: R) -> (subscriber: Self)
        ensures
            subscriber.track_reader == track_reader,
    {
        Self { track_reader }
    }
}

/// The line that is printed for an object of a stream, or for the payload of a datagram.
pub fn object_line(object: &[u8]) -> (line: String)
    ensures
        line@ == printed(object@),
        line@ == utf8_lossy(object@),
{
    from_utf8_lossy(object)
}

/// Why a subgroup cannot be printed.
#[derive(Clone, Copy)]
pub enum SubgroupError {
    /// The first object could not be read.
    FirstObject,
    /// There is no first object.
    Empty,
}

impl SubgroupError {
    /// The message of the error.
    pub open spec fn text(self) -> Seq<char> {
        match self {
            SubgroupError::FirstObject => "failed to get first object"@,
            SubgroupError::Empty => "empty subgroup"@,
        }
    }

    /// The message of the error.
    pub fn message(&self) -> (text: &'static str)
        ensures
            text@ == self.text(),
    {
        match self {
            SubgroupError::FirstObject => "failed to get first object",
            SubgroupError::Empty => "empty subgroup",
        }
    }
}

/// A subgroup being printed. Its first object is the base of every line.
pub struct SubgroupPrinter {
    pub base: String,
}

impl SubgroupPrinter {
    /// Starts with what reading the first object gave: the object, nothing at the end of the
    /// subgroup, or an error.
    pub fn start<E>(first: Result<Option<Vec<u8>>, E>) -> (printer: Result<Self, SubgroupError>)
        ensures
            match first {
                Ok(Some(base)) => printer matches Ok(p) && p.base@ == printed(base@) && p.base@
                    == utf8_lossy(base@),
                Ok(None) => printer == Err::<Self, SubgroupError>(SubgroupError::Empty),
                Err(_) => printer == Err::<Self, SubgroupError>(SubgroupError::FirstObject),
            },
    {
        match first {
            Ok(Some(base)) => Ok(Self { base: from_utf8_lossy(base.as_slice()) }),
            Ok(None) => Err(SubgroupError::Empty),
            Err(_) => Err(SubgroupError::FirstObject),
        }
    }

    /// The line that is printed for a later object.
    pub fn line(&self, object: &[u8]) -> (line: String)
        ensures
            line@ == self.base@ + printed(object@),
            line@ == self.base@ + utf8_lossy(object@),
    {
        self.base.clone().concat(from_utf8_lossy(object).as_str())
    }
}

/// What a text was sent as is printed as the text again.
pub proof fn law_sent_text_is_printed_back(text: Seq<char>)
    ensures
        printed(encode_utf8(text)) == text,
{
    encode_utf8_valid_utf8(text);
    encode_utf8_decode_utf8(text);
}

/// A subscriber to a minute prints the lines that the sender of the minute prints.
pub proof fn law_subgroup_lines_agree(sender: MinuteSender, printer: SubgroupPrinter)
    requires
        printer.base@ == printed(encode_utf8(sender.base@)),
    ensures
        printer.base@ + printed(encode_utf8(sender.now.second_text())) == sender.base@
            + sender.now.second_text(),
{
    law_sent_text_is_printed_back(sender.base@);
    law_sent_text_is_printed_back(sender.now.second_text());
}

/// What is printed for valid UTF-8 is the text that it encodes; for anything else it is what is
/// read with replacement characters.
pub proof fn law_objects_are_printed_whole(object: Seq<u8>)
    ensures
        valid_utf8(object) ==> printed(object) == decode_utf8(object),
        !valid_utf8(object) ==> printed(object) == utf8_lossy(object),
{
}

} // verus!
