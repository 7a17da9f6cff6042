//! Consolidated sequences as text.

use crate::msa::{AlignedSequence, AlignedToken};
use vstd::prelude::*;

verus! {

/// The payloads of `tokens`.
pub open spec fn payloads<T>(tokens: Seq<AlignedToken<T>>) -> Seq<T> {
    Seq::new(tokens.len(), |i: int| tokens[i].data)
}

/// The text that `String::from_utf8_lossy` reads from `bytes`: what they
/// encode in UTF-8, with the replacement character for each part that is no
/// UTF-8.
pub uninterp spec fn utf8_lossy(bytes: Seq<u8>) -> Seq<char>;

/// Calls `String::push`, which appends one character to the string.
#[verifier::external_body]
pub(crate) fn push_char(text: &mut String, c: char)
    ensures
        final(text)@ == old(text)@.push(c),
{
    text.push(c)
}

/// Calls `String::push_str`, which appends a string slice to the string.
#[verifier::external_body]
pub(crate) fn push_text(text: &mut String, more: &str)
    ensures
        final(text)@ == old(text)@ + more@,
{
    text.push_str(more)
}

/// Calls `String::from_utf8_lossy` and takes the text as a `String` of its
/// own. Nothing is claimed of the text but that it is the one read from
/// these bytes.
#[verifier::external_body]
pub(crate) fn text_of_bytes(bytes: &[u8]) -> (text: String)
    ensures
        text@ == utf8_lossy(bytes@),
{
    String::from_utf8_lossy(bytes).into_owned()
}

/// A payload that can be shown as text.
pub trait Printable: Copy {
    /// The text that stands for `data`.
    spec fn printed(data: Seq<Self>) -> Seq<char>;

    /// The text that stands for the payloads of `tokens`.
    fn print(tokens: &[AlignedToken<Self>]) -> (text: String)
        ensures
            text@ == Self::printed(payloads(tokens@)),
    ;
}

impl Printable for char {
    open spec fn printed(data: Seq<char>) -> Seq<char> {
        data
    }

    fn print(tokens: &[AlignedToken<char>]) -> (text: String) {
        let mut text = String::new();
        let mut i: usize = 0;
        while i < tokens.len()
            invariant
                i <= tokens.len(),
                text@ == payloads(tokens@).take(i as int),
            decreases tokens.len() - i,
        {
            push_char(&mut text, tokens[i].data);
            i += 1;
            assert(text@ =~= payloads(tokens@).take(i as int));
        }
        assert(payloads(tokens@).take(i as int) =~= payloads(tokens@));
        text
    }
}

impl Printable for u8 {
    open spec fn printed(data: Seq<u8>) -> Seq<char> {
        utf8_lossy(data)
    }

    fn print(tokens: &[AlignedToken<u8>]) -> (text: String) {
        let mut bytes: Vec<u8> = Vec::new();
        let mut i: usize = 0;
        while i < tokens.len()
            invariant
                i <= tokens.len(),
                bytes@ == payloads(tokens@).take(i as int),
            decreases tokens.len() - i,
        {
            bytes.push(tokens[i].data);
            i += 1;
            assert(bytes@ =~= payloads(tokens@).take(i as int));
        }
        assert(payloads(tokens@).take(i as int) =~= payloads(tokens@));
        text_of_bytes(bytes.as_slice())
    }
}

impl<T: Printable> AlignedSequence<T> {
    /// The sequence as text: its payloads, one after the other.
    pub fn to_string(&self) -> (text: String)
        ensures
            text@ == T::printed(payloads(self.value@)),
    {
        T::print(self.value.as_slice())
    }
}

} // verus!
