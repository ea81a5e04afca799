//! The two directions in which a caller may run the codec.

use vstd::prelude::*;
use crate::compress::{compress_json, compressed};
use crate::decompress::{decompress_json, decompressed};
use crate::error::Error;
use crate::text::{parsed, rendered};

verus! {

/// What is to be done with a document.
#[derive(Clone, Copy, Debug, PartialEq, Eq)]
pub enum Mode {
    Compress,
    Decompress,
}

/// The mode that a word names: `compress` or `decompress`, and no other.
pub open spec fn named_mode(word: Seq<char>) -> Option<Mode> {
    if word == "compress"@ {
        Some(Mode::Compress)
    } else if word == "decompress"@ {
        Some(Mode::Decompress)
    } else {
        None
    }
}

impl Mode {
    /// Runs the codec on JSON text in this direction: compresses it, or
    /// decompresses it.
    pub fn apply(&self, json: &str) -> (outcome: Result<String, Error>)
        ensures
            match parsed(json@) {
                Ok(doc) => match *self {
                    Mode::Compress => outcome matches Ok(text) && text@ == rendered(
                        compressed(doc),
                    ),
                    Mode::Decompress => match decompressed(doc) {
                        Ok(plain) => outcome matches Ok(text) && text@ == rendered(plain),
                        Err(culprit) => outcome matches Err(Error::UnknownJSONValueRef(text))
                            && text@ == rendered(culprit),
                    },
                },
                Err(message) => outcome matches Err(Error::JSONError(told)) && told@ == message,
            },
    {
        match self {
            Mode::Compress => compress_json(json),
            Mode::Decompress => decompress_json(json),
        }
    }
}

impl std::str::FromStr for Mode {
    type Err = &'static str;

    /// Reads a mode from the word that names it. Any other word fails with
    /// `no match`.
    fn from_str(s: &str) -> (outcome: Result<Mode, &'static str>)
        ensures
            match named_mode(s@) {
                Some(mode) => outcome == Ok::<Mode, &'static str>(mode),
                None => outcome matches Err(reason) && reason@ == "no match"@,
            },
    {
        let word = s.to_owned();
        if word == "compress".to_owned() {
            Ok(Mode::Compress)
        } else if word == "decompress".to_owned() {
            Ok(Mode::Decompress)
        } else {
            Err("no match")
        }
    }
}

} // verus!
