//! Compression methods.

use vstd::prelude::*;

use crate::error::ZipError;

verus! {

/// A compression method.
#[derive(Debug, Clone, Copy, PartialEq, Eq, Structural)]
pub enum Compression {
    Stored,
    Deflate,
    Deflate64,
    Bz,
    Lzma,
    Zstd,
    Xz,
}

/// How much effort a compressor makes.
#[derive(Debug, Clone, Copy, PartialEq, Eq, Structural)]
pub enum CompressionLevel {
    Fastest,
    Best,
    Default,
    Precise(i32),
}

impl Compression {
    /// The number of the method in headers.
    pub open spec fn method_spec(self) -> u16 {
        match self {
            Compression::Stored => 0,
            Compression::Deflate => 8,
            Compression::Deflate64 => 9,
            Compression::Bz => 12,
            Compression::Lzma => 14,
            Compression::Zstd => 93,
            Compression::Xz => 95,
        }
    }

    /// The method that a number in a header stands for.
    pub open spec fn of_method(method: u16) -> Option<Compression> {
        if method == 0 {
            Some(Compression::Stored)
        } else if method == 8 {
            Some(Compression::Deflate)
        } else if method == 9 {
            Some(Compression::Deflate64)
        } else if method == 12 {
            Some(Compression::Bz)
        } else if method == 14 {
            Some(Compression::Lzma)
        } else if method == 93 {
            Some(Compression::Zstd)
        } else if method == 95 {
            Some(Compression::Xz)
        } else {
            None
        }
    }

    /// Returns the number of the method in headers.
    pub fn method(self) -> (r: u16)
        ensures
            r == self.method_spec(),
    {
        match self {
            Compression::Stored => 0,
            Compression::Deflate => 8,
            Compression::Deflate64 => 9,
            Compression::Bz => 12,
            Compression::Lzma => 14,
            Compression::Zstd => 93,
            Compression::Xz => 95,
        }
    }

    /// Returns the method that a number in a header stands for.
    pub fn from_method(method: u16) -> (r: Result<Compression, ZipError>)
        ensures
            r == (match Compression::of_method(method) {
                Some(compression) => Ok(compression),
                None => Err(ZipError::CompressionNotSupported(method)),
            }),
    {
        match method {
            0 => Ok(Compression::Stored),
            8 => Ok(Compression::Deflate),
            9 => Ok(Compression::Deflate64),
            12 => Ok(Compression::Bz),
            14 => Ok(Compression::Lzma),
            93 => Ok(Compression::Zstd),
            95 => Ok(Compression::Xz),
            _ => Err(ZipError::CompressionNotSupported(method)),
        }
    }

    /// The number of a method stands for that method and no other.
    pub proof fn lemma_method_identifies(self)
        ensures
            Compression::of_method(self.method_spec()) == Some(self),
            forall|method: u16|
                Compression::of_method(method) == Some(self) ==> method == self.method_spec(),
    {
    }
}

} // verus!
