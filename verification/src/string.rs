//! File names and comments, which may or may not be text.

use vstd::prelude::*;
use vstd::string::StringSliceAdditionalSpecFns;
use vstd::utf8::{encode_utf8_valid_utf8, is_leading_byte_width_1, partial_valid_utf8};
use vstd::utf8::{partial_valid_utf8_extend_ascii_block, valid_utf8};

use crate::bytes::copy;
use crate::error::ZipError;

verus! {

/// How the bytes of a string are to be read.
#[derive(Debug, Clone, Copy, PartialEq, Eq, Structural)]
pub enum StringEncoding {
    Utf8,
    Raw,
}

/// What a [`ZipString`] stands for.
#[verifier::ext_equal]
pub struct ZipStringView {
    pub encoding: StringEncoding,
    pub raw: Seq<u8>,
    pub alternative: Option<Seq<u8>>,
}

impl ZipStringView {
    /// A string that is said to be UTF-8 is UTF-8, and only such a string has an alternative.
    pub open spec fn wf(self) -> bool {
        match self.encoding {
            StringEncoding::Utf8 => valid_utf8(self.raw),
            StringEncoding::Raw => self.alternative is None,
        }
    }

    /// UTF-8 text, without an alternative.
    pub open spec fn text(raw: Seq<u8>) -> ZipStringView {
        ZipStringView { encoding: StringEncoding::Utf8, raw, alternative: None }
    }

    /// UTF-8 text that also exists in another encoding.
    pub open spec fn text_with_alternative(raw: Seq<u8>, alternative: Seq<u8>) -> ZipStringView {
        ZipStringView { encoding: StringEncoding::Utf8, raw, alternative: Some(alternative) }
    }

    /// Bytes in an unknown encoding.
    pub open spec fn bytes(raw: Seq<u8>) -> ZipStringView {
        ZipStringView { encoding: StringEncoding::Raw, raw, alternative: None }
    }

    /// What bytes that are said to be in an encoding are taken for: bytes that are not UTF-8 are never taken for text.
    pub open spec fn decoded(raw: Seq<u8>, encoding: StringEncoding) -> ZipStringView {
        if encoding == StringEncoding::Utf8 && valid_utf8(raw) {
            ZipStringView::text(raw)
        } else {
            ZipStringView::bytes(raw)
        }
    }

    /// Whether this is UTF-8 text without an alternative.
    pub open spec fn is_plain_text(self) -> bool {
        self.encoding == StringEncoding::Utf8 && self.alternative is None
    }

    /// The bytes that stand in the header itself: the alternative where there is one.
    pub open spec fn basic(self) -> Seq<u8> {
        match self.alternative {
            Some(alternative) => alternative,
            None => self.raw,
        }
    }
}

/// A string of an archive: UTF-8 text, perhaps with the same text in another encoding, or bytes in an unknown encoding.
#[derive(Debug)]
pub struct ZipString {
    encoding: StringEncoding,
    raw: Vec<u8>,
    alternative: Option<Vec<u8>>,
}

impl View for ZipString {
    type V = ZipStringView;

    closed spec fn view(&self) -> ZipStringView {
        ZipStringView {
            encoding: self.encoding,
            raw: self.raw@,
            alternative: match self.alternative {
                Some(alternative) => Some(alternative@),
                None => None,
            },
        }
    }
}

impl Clone for ZipString {
    fn clone(&self) -> (r: ZipString)
        ensures
            r@ == self@,
    {
        proof {
            use_type_invariant(self);
        }
        let alternative = match &self.alternative {
            Some(alternative) => Some(copy(alternative.as_slice())),
            None => None,
        };
        ZipString { encoding: self.encoding, raw: copy(self.raw.as_slice()), alternative }
    }
}

/// `std::str::from_utf8` accepts exactly the bytes that are UTF-8, and returns them as text.
#[verifier::external_body]
pub(crate) fn text_of(bytes: &[u8]) -> (text: Option<&str>)
    ensures
        text is Some <==> valid_utf8(bytes@),
        text matches Some(text) ==> text.spec_bytes() == bytes@,
{
    std::str::from_utf8(bytes).ok()
}

/// Whether all bytes of a sequence are ASCII.
pub open spec fn all_ascii(bytes: Seq<u8>) -> bool {
    forall|i: int| 0 <= i < bytes.len() ==> #[trigger] bytes[i] < 0x80
}

/// ASCII is UTF-8.
pub proof fn lemma_ascii_is_utf8(bytes: Seq<u8>)
    requires
        all_ascii(bytes),
    ensures
        valid_utf8(bytes),
{
    assert(bytes.subrange(0, 0).len() == 0);
    assert(partial_valid_utf8(bytes, 0));
    assert forall|i: int| 0 <= 0 <= i < bytes.len() <= bytes.len() implies #[trigger] is_leading_byte_width_1(
        bytes[i],
    ) by {
        assert(bytes[i] < 0x80);
    }
    partial_valid_utf8_extend_ascii_block(bytes, 0, bytes.len() as int);
    assert(bytes.subrange(0, bytes.len() as int) =~= bytes);
}

/// Whether all bytes of a slice are ASCII.
pub(crate) fn is_ascii(bytes: &[u8]) -> (r: bool)
    ensures
        r <==> all_ascii(bytes@),
{
    let mut i: usize = 0;
    while i < bytes.len()
        invariant
            i <= bytes@.len(),
            forall|j: int| 0 <= j < i ==> bytes@[j] < 0x80,
        decreases bytes@.len() - i,
    {
        if bytes[i] >= 0x80 {
            return false;
        }
        i += 1;
    }
    true
}

impl ZipString {
    #[verifier::type_invariant]
    pub(crate) closed spec fn inv(&self) -> bool {
        self@.wf()
    }

    /// Constructs a new string from its raw bytes and its encoding.
    ///
    /// Where the encoding is UTF-8 but the bytes are not, the encoding defaults to [`StringEncoding::Raw`].
    pub fn new(raw: Vec<u8>, encoding: StringEncoding) -> (r: ZipString)
        ensures
            r@ == ZipStringView::decoded(raw@, encoding),
    {
        let encoding = match encoding {
            StringEncoding::Utf8 => match text_of(raw.as_slice()) {
                Some(_) => StringEncoding::Utf8,
                None => StringEncoding::Raw,
            },
            StringEncoding::Raw => StringEncoding::Raw,
        };
        ZipString { encoding, raw, alternative: None }
    }

    /// Constructs a new string from text.
    pub fn from_text(text: &str) -> (r: ZipString)
        ensures
            r@ == ZipStringView::text(text.spec_bytes()),
    {
        proof {
            encode_utf8_valid_utf8(text@);
        }
        ZipString { encoding: StringEncoding::Utf8, raw: copy(text.as_bytes()), alternative: None }
    }

    /// Constructs a new string from text and its counterpart in another encoding.
    pub fn new_with_alternative(text: &str, alternative: Vec<u8>) -> (r: ZipString)
        ensures
            r@ == ZipStringView::text_with_alternative(text.spec_bytes(), alternative@),
    {
        proof {
            encode_utf8_valid_utf8(text@);
        }
        ZipString { encoding: StringEncoding::Utf8, raw: copy(text.as_bytes()), alternative: Some(alternative) }
    }

    /// Constructs a new string from ASCII bytes.
    pub(crate) fn from_ascii(raw: Vec<u8>) -> (r: ZipString)
        requires
            all_ascii(raw@),
        ensures
            r@ == ZipStringView::text(raw@),
    {
        proof {
            lemma_ascii_is_utf8(raw@);
        }
        ZipString { encoding: StringEncoding::Utf8, raw, alternative: None }
    }

    /// Returns the raw bytes of this string.
    pub fn as_bytes(&self) -> (r: &[u8])
        ensures
            r@ == self@.raw,
    {
        self.raw.as_slice()
    }

    /// Returns the encoding of this string.
    pub fn encoding(&self) -> (r: StringEncoding)
        ensures
            r == self@.encoding,
            self@.wf(),
    {
        proof {
            use_type_invariant(self);
        }
        self.encoding
    }

    /// Returns the counterpart of this string in another encoding, if there is one.
    pub fn alternative(&self) -> (r: Option<&[u8]>)
        ensures
            r is Some <==> self@.alternative is Some,
            r matches Some(bytes) ==> self@.alternative == Some(bytes@),
    {
        match &self.alternative {
            Some(alternative) => Some(alternative.as_slice()),
            None => None,
        }
    }

    /// Returns the bytes that stand for this string in a header: the alternative where there is one.
    pub fn basic(&self) -> (r: &[u8])
        ensures
            r@ == self@.basic(),
    {
        match &self.alternative {
            Some(alternative) => alternative.as_slice(),
            None => self.raw.as_slice(),
        }
    }

    /// Returns this string as text, which succeeds exactly when its encoding is UTF-8.
    pub fn as_str(&self) -> (r: Result<&str, ZipError>)
        ensures
            r is Ok <==> self@.encoding == StringEncoding::Utf8,
            r matches Ok(text) ==> text.spec_bytes() == self@.raw,
            r matches Err(e) ==> e == ZipError::StringNotUtf8,
    {
        proof {
            use_type_invariant(self);
        }
        match self.encoding {
            StringEncoding::Raw => Err(ZipError::StringNotUtf8),
            StringEncoding::Utf8 => match text_of(self.raw.as_slice()) {
                Some(text) => Ok(text),
                None => Err(ZipError::StringNotUtf8),
            },
        }
    }

    /// Returns whether this string is UTF-8 text without an alternative.
    pub fn is_utf8_without_alternative(&self) -> (r: bool)
        ensures
            r == self@.is_plain_text(),
    {
        matches!(self.encoding, StringEncoding::Utf8) && self.alternative.is_none()
    }
}

} // verus!
