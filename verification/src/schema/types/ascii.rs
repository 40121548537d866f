//! The ASCII text type.

use crate::error::{ErrorKind, LqError};
use crate::ine_range::U64IneRange;
use crate::schema::metadata::Meta;
use vstd::prelude::*;

verus! {

/// The codes that an ASCII text may hold: a row of ranges, each from a start
/// (included) to an end (excluded), none above 128.
#[derive(Debug)]
pub struct CodeRange {
    pub codes: Vec<u8>,
}

/// Text of ASCII characters out of chosen ranges of codes.
#[derive(Debug)]
pub struct TAscii {
    pub meta: Meta,
    pub length: U64IneRange,
    pub codes: CodeRange,
}

/// Whether a code lies in one of the ranges that `codes` holds from the
/// `i`-th range on. The ranges are the pairs of `codes`; a code without a
/// partner at the end counts for nothing.
pub open spec fn code_allowed_from(codes: Seq<u8>, code: u8, i: int) -> bool
    decreases codes.len() - 2 * i,
{
    if i < 0 || 2 * i + 1 >= codes.len() {
        false
    } else {
        (codes[2 * i] <= code < codes[2 * i + 1]) || code_allowed_from(codes, code, i + 1)
    }
}

/// Whether a code lies in one of the ranges.
pub open spec fn code_allowed(codes: Seq<u8>, code: u8) -> bool {
    code_allowed_from(codes, code, 0)
}

/// Whether every byte of a text lies in one of the ranges.
pub open spec fn codes_allowed(codes: Seq<u8>, text: Seq<u8>) -> bool {
    forall|i: int| 0 <= i < text.len() ==> code_allowed(codes, #[trigger] text[i])
}

impl CodeRange {
    /// One range of codes, from `min` (included) to `max` (excluded); an
    /// error unless `min < max <= 128`.
    pub fn try_new(min: u8, max: u8) -> (r: Result<CodeRange, LqError>)
        ensures
            match r {
                Ok(c) => min < max <= 128 && c.codes@ == seq![min, max],
                Err(e) => !(min < max <= 128) && e.kind == ErrorKind::Schema,
            },
    {
        if min < max && max <= 128 {
            let mut codes = Vec::new();
            codes.push(min);
            codes.push(max);
            Ok(CodeRange { codes })
        } else {
            LqError::err_new(
                ErrorKind::Schema,
                "Invalid range of ASCII codes: need min < max <= 128.",
            )
        }
    }

    /// Adds a range of codes, from `min` (included) to `max` (excluded); an
    /// error, and no change, unless `min < max <= 128`.
    pub fn add(&mut self, min: u8, max: u8) -> (r: Result<(), LqError>)
        ensures
            match r {
                Ok(_) => min < max <= 128 && final(self).codes@ == old(self).codes@.push(min).push(
                    max,
                ),
                Err(e) => !(min < max <= 128) && final(self).codes@ == old(self).codes@ && e.kind
                    == ErrorKind::Schema,
            },
    {
        if min < max && max <= 128 {
            self.codes.push(min);
            self.codes.push(max);
            Ok(())
        } else {
            LqError::err_new(
                ErrorKind::Schema,
                "Invalid range of ASCII codes: need min < max <= 128.",
            )
        }
    }

    /// Whether a code lies in one of the ranges.
    pub fn contains(&self, code: u8) -> (b: bool)
        ensures
            b == code_allowed(self.codes@, code),
    {
        let mut index: usize = 0;
        while index + 1 < self.codes.len()
            invariant
                index % 2 == 0,
                code_allowed(self.codes@, code) == code_allowed_from(
                    self.codes@,
                    code,
                    index as int / 2,
                ),
            decreases self.codes.len() - index,
        {
            if self.codes[index] <= code && code < self.codes[index + 1] {
                return true;
            }
            index += 2;
        }
        false
    }

    /// Whether every byte of a text lies in one of the ranges.
    pub fn contains_all(&self, text: &[u8]) -> (b: bool)
        ensures
            b == codes_allowed(self.codes@, text@),
    {
        let mut index: usize = 0;
        while index < text.len()
            invariant
                index <= text@.len(),
                forall|i: int| 0 <= i < index ==> code_allowed(self.codes@, #[trigger] text@[i]),
            decreases text.len() - index,
        {
            if !self.contains(text[index]) {
                return false;
            }
            index += 1;
        }
        true
    }

    /// The number of ranges.
    pub fn len(&self) -> (n: usize)
        ensures
            n == self.codes@.len() / 2,
    {
        self.codes.len() / 2
    }
}

impl TAscii {
    /// ASCII text whose length lies in the given range, of the given codes.
    pub fn new(length: U64IneRange, codes: CodeRange) -> (t: Self)
        ensures
            t.meta.name is None && t.meta.doc is None,
            t.length == length,
            t.codes == codes,
    {
        TAscii { meta: Meta::empty(), length, codes }
    }

    /// ASCII text of `min_length` to `max_length` characters with codes from
    /// `min_code` (included) to `max_code` (excluded).
    pub fn try_new(min_length: u64, max_length: u64, min_code: u8, max_code: u8) -> (r: Result<
        Self,
        LqError,
    >)
        ensures
            r matches Ok(made) ==> made.meta.name is None && made.meta.doc is None,
            match r {
                Ok(t) => min_length <= max_length && min_code < max_code <= 128
                    && t.length.spec_start() == min_length && t.length.spec_end() == max_length
                    && t.codes.codes@ == seq![min_code, max_code],
                Err(e) => !(min_length <= max_length && min_code < max_code <= 128) && e.kind
                    == ErrorKind::Schema,
            },
    {
        let length = U64IneRange::try_new(min_length, max_length)?;
        let codes = CodeRange::try_new(min_code, max_code)?;
        Ok(TAscii::new(length, codes))
    }

    /// The range of the number of characters.
    pub fn length(&self) -> (r: &U64IneRange)
        ensures
            *r == self.length,
    {
        &self.length
    }

    /// The allowed codes: pairs of start (included) and end (excluded).
    pub fn codes(&self) -> (c: &[u8])
        ensures
            c@ == self.codes.codes@,
    {
        self.codes.codes.as_slice()
    }
}

} // verus!
