//! Identifiers: 1 to 12 segments, each of 1 to 30 characters out of `a-z`
//! and `0-9`. As text the segments are joined by `_`.

use crate::error::{ErrorKind, LqError};
use crate::slice_reader::SliceReader;
use crate::types::seq::{seq_header_at, seq_header_bytes, SeqHeader};
use crate::types::unicode::{unicode_at, unicode_bytes, Unicode};
use crate::vec_writer::VecWriter;
use vstd::prelude::*;
use vstd::string::*;
use vstd::utf8::is_ascii_chars;

verus! {

/// The least number of characters of a segment.
pub const SEGMENT_MIN_LEN: usize = 1;

/// The greatest number of characters of a segment.
pub const SEGMENT_MAX_LEN: usize = 30;

/// The least number of segments of an identifier.
pub const MIN_NUMBER_OF_SEGMENTS: usize = 1;

/// The greatest number of segments of an identifier.
pub const MAX_NUMBER_OF_SEGMENTS: usize = 12;

/// A single segment within an identifier.
#[derive(Debug)]
pub struct Segment {
    text: String,
}

/// The identifier is used to identify various parts in the system. It's very simple
/// and only supports lowercase ASCII characters and numbers (so it's simple to
/// convert that to identifiers in the target language when generating code from the
/// schema).
#[derive(Debug)]
pub struct Identifier {
    segments: Vec<Segment>,
}

/// How to format the identifier.
#[derive(Debug, Copy, Clone, PartialEq, Eq, Structural)]
pub enum Format {
    /// Snake case format (e.g. `my_identifier`, `number_of_segments`).
    SnakeCase,
}

/// Same as `Identifier` but internally stored as string.
#[derive(Debug)]
pub struct StrIdentifier {
    text: String,
}

/// Whether a character may stand in a segment.
pub open spec fn is_segment_char(c: char) -> bool {
    ('a' <= c <= 'z') || ('0' <= c <= '9')
}

/// Whether a text is a segment.
pub open spec fn segment_valid(s: Seq<char>) -> bool {
    &&& SEGMENT_MIN_LEN <= s.len() <= SEGMENT_MAX_LEN
    &&& forall|i: int| 0 <= i < s.len() ==> is_segment_char(#[trigger] s[i])
}

/// Whether a row of texts is the segments of an identifier.
pub open spec fn identifier_valid(segments: Seq<Seq<char>>) -> bool {
    &&& MIN_NUMBER_OF_SEGMENTS <= segments.len() <= MAX_NUMBER_OF_SEGMENTS
    &&& forall|i: int| 0 <= i < segments.len() ==> segment_valid(#[trigger] segments[i])
}

/// The pieces between the underscores of `s`, from the piece that starts at
/// `start` and has been scanned up to `i`.
pub open spec fn segments_from(s: Seq<char>, start: int, i: int) -> Seq<Seq<char>>
    decreases s.len() - i,
{
    if i >= s.len() || start < 0 || start > i {
        seq![s.subrange(start, s.len() as int)]
    } else if s[i] == '_' {
        seq![s.subrange(start, i)] + segments_from(s, i + 1, i + 1)
    } else {
        segments_from(s, start, i + 1)
    }
}

/// The pieces between the underscores of `s`. The empty text has one piece,
/// which is empty.
pub open spec fn split_segments(s: Seq<char>) -> Seq<Seq<char>> {
    segments_from(s, 0, 0)
}

/// Whether a text is an identifier in snake case.
pub open spec fn identifier_text_valid(s: Seq<char>) -> bool {
    is_ascii_chars(s) && identifier_valid(split_segments(s))
}

/// Whether a text is short and in snake case: of 1 to 24 of the characters
/// `a-z`, `0-9` and `_`, with no underscore at its start, at its end or
/// behind another.
pub open spec fn snake_case(s: Seq<char>) -> bool {
    &&& 1 <= s.len() <= 24
    &&& forall|i: int| 0 <= i < s.len() ==> is_segment_char(#[trigger] s[i]) || s[i] == '_'
    &&& s[0] != '_'
    &&& s[s.len() - 1] != '_'
    &&& forall|i: int| 0 <= i < s.len() - 1 ==> !(#[trigger] s[i] == '_' && s[i + 1] == '_')
}

/// The pieces of a short text in snake case, from a piece on, are segments,
/// and each but the last takes two characters at least.
pub proof fn lemma_snake_case_segments(s: Seq<char>, start: int, i: int)
    requires
        snake_case(s),
        0 <= start <= i <= s.len(),
        start < s.len(),
        start == 0 || s[start - 1] == '_',
        forall|k: int| start <= k < i ==> s[k] != '_',
    ensures
        segments_from(s, start, i).len() >= 1,
        2 * segments_from(s, start, i).len() <= s.len() - start + 1,
        forall|k: int|
            0 <= k < segments_from(s, start, i).len() ==> segment_valid(
                #[trigger] segments_from(s, start, i)[k],
            ),
    decreases s.len() - i,
{
    let r = segments_from(s, start, i);
    if i >= s.len() {
        let piece = s.subrange(start, s.len() as int);
        assert forall|k: int| 0 <= k < piece.len() implies is_segment_char(#[trigger] piece[k]) by {
            assert(piece[k] == s[start + k]);
        }
        assert(r[0] == piece);
    } else if s[i] == '_' {
        if start == i && start > 0 {
            assert(s[start - 1] == '_' && s[start - 1 + 1] == '_');
        }
        assert(start < i);
        assert(i + 1 < s.len());
        let piece = s.subrange(start, i);
        assert forall|k: int| 0 <= k < piece.len() implies is_segment_char(#[trigger] piece[k]) by {
            assert(piece[k] == s[start + k]);
        }
        lemma_snake_case_segments(s, i + 1, i + 1);
        let rest = segments_from(s, i + 1, i + 1);
        assert(r == seq![piece] + rest);
        assert forall|k: int| 0 <= k < r.len() implies segment_valid(#[trigger] r[k]) by {
            if k == 0 {
                assert(r[0] == piece);
            } else {
                assert(r[k] == rest[k - 1]);
            }
        }
    } else {
        lemma_snake_case_segments(s, start, i + 1);
    }
}

/// A short text in snake case is an identifier.
pub proof fn lemma_snake_case_is_identifier(s: Seq<char>)
    requires
        snake_case(s),
    ensures
        identifier_text_valid(s),
{
    lemma_snake_case_segments(s, 0, 0);
    assert forall|i: int| 0 <= i < s.len() implies '\0' <= #[trigger] s[i] <= '\u{7f}' by {
        assert(is_segment_char(s[i]) || s[i] == '_');
    }
}

/// The segments joined by underscores.
pub open spec fn joined(segments: Seq<Seq<char>>) -> Seq<char>
    decreases segments.len(),
{
    if segments.len() == 0 {
        Seq::empty()
    } else if segments.len() == 1 {
        segments[0]
    } else {
        joined(segments.drop_last()) + seq!['_'] + segments.last()
    }
}

/// The bytes of an identifier: a sequence of its segments as texts.
pub open spec fn identifier_bytes(segments: Seq<Seq<char>>) -> Seq<u8> {
    seq_header_bytes(segments.len() as u32) + segments_bytes(segments)
}

/// The bytes of segments as texts, one after the other.
pub open spec fn segments_bytes(segments: Seq<Seq<char>>) -> Seq<u8>
    decreases segments.len(),
{
    if segments.len() == 0 {
        Seq::empty()
    } else {
        segments_bytes(segments.drop_last()) + unicode_bytes(segments.last())
    }
}

/// The `n` segments in a row, the first at `pos`, and the position behind
/// the last; or the error of the first that cannot be read (`Codec`) or is
/// no segment (`Schema`).
pub open spec fn segments_at(data: Seq<u8>, pos: int, n: nat) -> Result<
    (Seq<Seq<char>>, int),
    ErrorKind,
>
    decreases n,
{
    if n == 0 {
        Ok((Seq::empty(), pos))
    } else {
        match segments_at(data, pos, (n - 1) as nat) {
            Ok((s, p)) => match unicode_at(data, p) {
                Some((t, e)) => if segment_valid(t) {
                    Ok((s.push(t), e))
                } else {
                    Err(ErrorKind::Schema)
                },
                None => Err(ErrorKind::Codec),
            },
            Err(e) => Err(e),
        }
    }
}

/// The identifier at `pos` and the position behind it; or the error of the
/// first thing that is wrong: no sequence header (`Codec`), a number of
/// segments outside 1 to 12 (`Schema`), a segment that is no text (`Codec`)
/// or no segment (`Schema`).
pub open spec fn identifier_at(data: Seq<u8>, pos: int) -> Result<
    (Seq<Seq<char>>, int),
    ErrorKind,
> {
    match seq_header_at(data, pos) {
        Some((n, p)) => if MIN_NUMBER_OF_SEGMENTS <= n <= MAX_NUMBER_OF_SEGMENTS {
            segments_at(data, p, n as nat)
        } else {
            Err(ErrorKind::Schema)
        },
        None => Err(ErrorKind::Codec),
    }
}

/// Reading `k` of `n` segments fails where reading `n` fails the same way
/// before the `k`-th.
pub proof fn lemma_segments_at_prefix(data: Seq<u8>, pos: int, k: nat, n: nat)
    requires
        k <= n,
        segments_at(data, pos, k) is Err,
    ensures
        segments_at(data, pos, n) == segments_at(data, pos, k),
    decreases n,
{
    if k < n {
        lemma_segments_at_prefix(data, pos, k, (n - 1) as nat);
    }
}

impl View for Segment {
    type V = Seq<char>;

    closed spec fn view(&self) -> Seq<char> {
        self.text@
    }
}

impl View for StrIdentifier {
    type V = Seq<char>;

    closed spec fn view(&self) -> Seq<char> {
        self.text@
    }
}

impl View for Identifier {
    type V = Seq<Seq<char>>;

    closed spec fn view(&self) -> Seq<Seq<char>> {
        Seq::new(self.segments@.len(), |i: int| self.segments@[i]@)
    }
}

impl Segment {
    /// The text of every segment is a segment.
    #[verifier::type_invariant]
    pub closed spec fn valid(&self) -> bool {
        segment_valid(self.text@)
    }

    /// Every segment is valid: 1 to 30 of the characters `a-z` and `0-9`.
    pub proof fn lemma_valid(&self)
        requires
            self.valid(),
        ensures
            segment_valid(self@),
    {
    }

    /// Tells whether a text is a segment.
    pub fn validate(value: &str) -> (r: Result<(), LqError>)
        ensures
            r is Ok <==> segment_valid(value@),
            r matches Err(e) ==> e.kind == ErrorKind::Schema,
    {
        if !value.is_ascii() {
            return LqError::err_new(
                ErrorKind::Schema,
                "The given segment in identifier is not valid. Only supports ASCII a-z (lower case) and 0-9",
            );
        }
        let num_chars = value.unicode_len();
        if num_chars < SEGMENT_MIN_LEN {
            return LqError::err_new(
                ErrorKind::Schema,
                "Segment in identifier is too short (min 1)",
            );
        } else if num_chars > SEGMENT_MAX_LEN {
            return LqError::err_new(
                ErrorKind::Schema,
                "Segment in identifier is too long (max 30)",
            );
        }
        let mut index: usize = 0;
        while index < num_chars
            invariant
                index <= num_chars,
                num_chars == value@.len(),
                value.is_ascii(),
                forall|i: int| 0 <= i < index ==> is_segment_char(#[trigger] value@[i]),
            decreases num_chars - index,
        {
            let byte_char = value.get_ascii(index);
            let is_valid = (byte_char >= 97 && byte_char <= 122) || (byte_char >= 48 && byte_char
                <= 57);
            if !is_valid {
                proof {
                    assert(!is_segment_char(value@[index as int]));
                }
                return LqError::err_new(
                    ErrorKind::Schema,
                    "The given segment in identifier is not valid. Only supports ASCII a-z (lower case) and 0-9",
                );
            }
            proof {
                assert(is_segment_char(value@[index as int]));
            }
            index += 1;
        }
        Ok(())
    }

    /// The segment that a text stands for.
    pub fn try_from(value: &str) -> (r: Result<Segment, LqError>)
        ensures
            match r {
                Ok(s) => segment_valid(value@) && s@ == value@,
                Err(e) => !segment_valid(value@) && e.kind == ErrorKind::Schema,
            },
    {
        Segment::validate(value)?;
        Ok(Segment { text: value.to_owned() })
    }

    /// The segment that a text stands for.
    pub fn try_from_string(value: String) -> (r: Result<Segment, LqError>)
        ensures
            match r {
                Ok(s) => segment_valid(value@) && s@ == value@,
                Err(e) => !segment_valid(value@) && e.kind == ErrorKind::Schema,
            },
    {
        Segment::validate(value.as_str())?;
        Ok(Segment { text: value })
    }

    /// The text of the segment.
    pub fn as_str(&self) -> (s: &str)
        ensures
            s@ == self@,
            segment_valid(self@),
    {
        proof {
            use_type_invariant(self);
        }
        self.text.as_str()
    }

    /// The same segment; it owns its text already.
    pub fn into_owned(self) -> (s: Segment)
        ensures
            s@ == self@,
    {
        self
    }
}

impl Identifier {
    /// Every identifier has 1 to 12 segments, each of them valid.
    #[verifier::type_invariant]
    pub closed spec fn valid(&self) -> bool {
        &&& MIN_NUMBER_OF_SEGMENTS <= self.segments@.len() <= MAX_NUMBER_OF_SEGMENTS
        &&& forall|i: int|
            0 <= i < self.segments@.len() ==> segment_valid((#[trigger] self.segments@[i]).text@)
    }

    /// Every identifier is valid: it has 1 to 12 segments, each of them 1 to
    /// 30 of the characters `a-z` and `0-9`.
    pub proof fn lemma_valid(&self)
        requires
            self.valid(),
        ensures
            identifier_valid(self@),
    {
        assert forall|i: int| 0 <= i < self@.len() implies segment_valid(#[trigger] self@[i]) by {
            assert(segment_valid(self.segments@[i].text@));
        }
    }

    /// Creates a new identifier that owns the string.
    pub fn new_owned(value: &str) -> (r: Result<Identifier, LqError>)
        ensures
            match r {
                Ok(id) => identifier_text_valid(value@) && id@ == split_segments(value@),
                Err(e) => !identifier_text_valid(value@) && e.kind == ErrorKind::Schema,
            },
    {
        Identifier::try_from(value)
    }

    /// The identifier that a text in snake case stands for.
    pub fn try_from(value: &str) -> (r: Result<Identifier, LqError>)
        ensures
            match r {
                Ok(id) => identifier_text_valid(value@) && id@ == split_segments(value@),
                Err(e) => !identifier_text_valid(value@) && e.kind == ErrorKind::Schema,
            },
    {
        if !value.is_ascii() {
            return LqError::err_new(
                ErrorKind::Schema,
                "The given identifier is not valid. Only supports ASCII a-z (lower case), 0-9 and the underscore",
            );
        }
        let len = value.unicode_len();
        let mut segments: Vec<Segment> = Vec::new();
        let mut start: usize = 0;
        let mut index: usize = 0;
        let ghost text = value@;
        let ghost mut done: Seq<Seq<char>> = Seq::empty();
        while index < len
            invariant
                text == value@,
                len == text.len(),
                value.is_ascii(),
                start <= index <= len,
                done.len() == segments@.len(),
                forall|i: int| 0 <= i < done.len() ==> done[i] == #[trigger] segments@[i]@,
                forall|i: int| 0 <= i < done.len() ==> segment_valid(#[trigger] done[i]),
                done + segments_from(text, start as int, index as int) == split_segments(text),
            decreases len - index,
        {
            let byte_char = value.get_ascii(index);
            if byte_char == 95 {
                let part = value.substring_ascii(start, index);
                let ghost rest = segments_from(text, index + 1, index + 1);
                proof {
                    assert(text[index as int] == '_');
                    assert(segments_from(text, start as int, index as int) == seq![part@] + rest);
                    assert(split_segments(text) =~= done.push(part@) + rest);
                    assert(split_segments(text)[done.len() as int] == part@);
                }
                let segment = Segment::try_from(part)?;
                segments.push(segment);
                proof {
                    done = done.push(part@);
                }
                start = index + 1;
            } else {
                proof {
                    assert(text[index as int] != '_');
                }
            }
            index += 1;
        }
        let part = value.substring_ascii(start, len);
        proof {
            assert(split_segments(text) =~= done.push(part@));
            assert(split_segments(text)[done.len() as int] == part@);
        }
        let segment = Segment::try_from(part)?;
        segments.push(segment);
        proof {
            done = done.push(part@);
            assert(done =~= split_segments(text));
        }
        let number_of_segments = segments.len();
        Identifier::validate_number_of_segments(number_of_segments)?;
        proof {
            assert forall|i: int| 0 <= i < segments@.len() implies segment_valid(
                (#[trigger] segments@[i]).text@,
            ) by {
                assert(done[i] == segments@[i]@);
            }
        }
        let identifier = Identifier { segments };
        proof {
            assert(identifier@ =~= done);
        }
        Ok(identifier)
    }

    /// The segments of this identifier.
    pub fn segments(&self) -> (s: &[Segment])
        ensures
            s@.len() == self@.len(),
            forall|i: int| 0 <= i < s@.len() ==> (#[trigger] s@[i])@ == self@[i],
            identifier_valid(self@),
    {
        proof {
            use_type_invariant(self);
        }
        self.segments.as_slice()
    }

    /// The number of segments.
    pub fn len(&self) -> (n: usize)
        ensures
            n == self@.len(),
            identifier_valid(self@),
    {
        proof {
            use_type_invariant(self);
        }
        self.segments.len()
    }

    /// The identifier as text in the given format.
    pub fn to_string(&self, format: Format) -> (r: String)
        ensures
            r@ == joined(self@),
    {
        let mut result = String::new();
        let mut index: usize = 0;
        proof {
            assert(self@.take(0) =~= Seq::<Seq<char>>::empty());
        }
        while index < self.segments.len()
            invariant
                index <= self.segments@.len(),
                self.segments@.len() == self@.len(),
                result@ == joined(self@.take(index as int)),
            decreases self.segments.len() - index,
        {
            proof {
                let before = self@.take(index as int);
                let after = self@.take(index + 1);
                assert(after.drop_last() =~= before);
                assert(after.last() == self.segments@[index as int]@);
            }
            if index > 0 {
                result.append("_");
                proof {
                    reveal_strlit("_");
                    assert("_"@ =~= seq!['_']);
                }
            }
            result.append(self.segments[index].as_str());
            proof {
                assert(result@ =~= joined(self@.take(index + 1)));
            }
            index += 1;
        }
        proof {
            assert(self@.take(index as int) =~= self@);
        }
        result
    }

    /// Adds a segment at the end, unless the identifier has 12 segments
    /// already.
    pub fn append(&mut self, segment: Segment) -> (r: Result<(), LqError>)
        ensures
            match r {
                Ok(_) => old(self)@.len() < MAX_NUMBER_OF_SEGMENTS && final(self)@ == old(
                    self,
                )@.push(segment@),
                Err(e) => old(self)@.len() >= MAX_NUMBER_OF_SEGMENTS && final(self)@ == old(
                    self,
                )@ && e.kind == ErrorKind::Schema,
            },
    {
        proof {
            use_type_invariant(&*self);
        }
        if self.segments.len() + 1 > MAX_NUMBER_OF_SEGMENTS {
            LqError::err_new(
                ErrorKind::Schema,
                "Cannot add another segment to identifier. Max number of segments reached.",
            )
        } else {
            let ghost before = self@;
            let mut segments: Vec<Segment> = Vec::new();
            let mut index: usize = 0;
            while index < self.segments.len()
                invariant
                    index <= self.segments@.len(),
                    self@ == before,
                    before.len() == self.segments@.len(),
                    segments@.len() == index,
                    forall|i: int| 0 <= i < index ==> (#[trigger] segments@[i])@ == before[i],
                decreases self.segments.len() - index,
            {
                let text = self.segments[index].as_str().to_owned();
                segments.push(Segment { text });
                index += 1;
            }
            proof {
                use_type_invariant(&segment);
            }
            segments.push(segment);
            let extended = Identifier { segments };
            proof {
                assert(extended@ =~= before.push(segment@));
            }
            *self = extended;
            Ok(())
        }
    }

    /// The same identifier; it owns its segments already.
    pub fn into_owned(self) -> (r: Identifier)
        ensures
            r@ == self@,
    {
        self
    }

    /// Tells whether an identifier may have the given number of segments.
    pub fn validate_number_of_segments(number: usize) -> (r: Result<(), LqError>)
        ensures
            r is Ok <==> MIN_NUMBER_OF_SEGMENTS <= number <= MAX_NUMBER_OF_SEGMENTS,
            r matches Err(e) ==> e.kind == ErrorKind::Schema,
    {
        if number < MIN_NUMBER_OF_SEGMENTS {
            LqError::err_new(ErrorKind::Schema, "An identifier needs at least 1 segment(s)")
        } else if number > MAX_NUMBER_OF_SEGMENTS {
            LqError::err_new(ErrorKind::Schema, "An identifier can have at max 12 segments")
        } else {
            Ok(())
        }
    }

    /// Reads an identifier: a sequence of 1 to 12 texts, each a segment.
    pub fn de_serialize(reader: &mut SliceReader) -> (r: Result<Identifier, LqError>)
        ensures
            final(reader).spec_data() == old(reader).spec_data(),
            match r {
                Ok(id) => identifier_at(old(reader).spec_data(), old(reader).spec_offset())
                    == Ok::<_, ErrorKind>((id@, final(reader).spec_offset())),
                Err(e) => identifier_at(old(reader).spec_data(), old(reader).spec_offset())
                    == Err::<(Seq<Seq<char>>, int), _>(e.kind),
            },
    {
        let ghost data = reader.spec_data();
        let list_header = SeqHeader::de_serialize(reader)?;
        let number_of_segments = list_header.length();
        if number_of_segments < MIN_NUMBER_OF_SEGMENTS as u32 || number_of_segments
            > MAX_NUMBER_OF_SEGMENTS as u32 {
            return LqError::err_new(
                ErrorKind::Schema,
                "An identifier needs at least 1 and can have at max 12 segments",
            );
        }
        let ghost first = reader.spec_offset();
        let ghost mut done: Seq<Seq<char>> = Seq::empty();
        let mut segments: Vec<Segment> = Vec::new();
        let mut index: u32 = 0;
        while index < number_of_segments
            invariant
                reader.spec_data() == data,
                data == old(reader).spec_data(),
                identifier_at(data, old(reader).spec_offset()) == segments_at(
                    data,
                    first,
                    number_of_segments as nat,
                ),
                MIN_NUMBER_OF_SEGMENTS <= number_of_segments,
                index <= number_of_segments <= MAX_NUMBER_OF_SEGMENTS,
                done.len() == segments@.len() == index,
                forall|i: int| 0 <= i < done.len() ==> done[i] == #[trigger] segments@[i]@,
                forall|i: int| 0 <= i < done.len() ==> segment_valid(#[trigger] done[i]),
                segments_at(data, first, index as nat) == Ok::<_, ErrorKind>(
                    (done, reader.spec_offset()),
                ),
            decreases number_of_segments - index,
        {
            proof {
                if segments_at(data, first, (index + 1) as nat) is Err {
                    lemma_segments_at_prefix(
                        data,
                        first,
                        (index + 1) as nat,
                        number_of_segments as nat,
                    );
                }
            }
            let segment_str = Unicode::de_serialize(reader)?;
            let segment = Segment::try_from(segment_str)?;
            proof {
                done = done.push(segment@);
            }
            segments.push(segment);
            index += 1;
        }
        proof {
            assert forall|i: int| 0 <= i < segments@.len() implies segment_valid(
                (#[trigger] segments@[i]).text@,
            ) by {
                assert(done[i] == segments@[i]@);
            }
        }
        let identifier = Identifier { segments };
        proof {
            assert(identifier@ =~= done);
        }
        Ok(identifier)
    }

    /// Writes an identifier.
    pub fn serialize(writer: &mut VecWriter, item: &Identifier)
        ensures
            final(writer)@ == old(writer)@ + identifier_bytes(item@),
    {
        let ghost before = writer@;
        let number_of_segments = item.len();
        let list_header = SeqHeader::new(number_of_segments as u32);
        SeqHeader::serialize(writer, &list_header);
        let ghost head = writer@;
        let mut index: usize = 0;
        proof {
            assert(item@.take(0) =~= Seq::<Seq<char>>::empty());
        }
        while index < item.segments.len()
            invariant
                index <= item.segments@.len(),
                item.segments@.len() == item@.len(),
                writer@ == head + segments_bytes(item@.take(index as int)),
            decreases item.segments.len() - index,
        {
            proof {
                let done = item@.take(index as int);
                let next = item@.take(index + 1);
                assert(next.drop_last() =~= done);
                assert(next.last() == item.segments@[index as int]@);
            }
            Unicode::serialize(writer, item.segments[index].as_str());
            proof {
                assert(writer@ =~= head + segments_bytes(item@.take(index + 1)));
            }
            index += 1;
        }
        proof {
            assert(item@.take(index as int) =~= item@);
            assert(writer@ =~= before + identifier_bytes(item@));
        }
    }

    /// The identifier that a validated text stands for.
    pub fn from_str_identifier(id: &StrIdentifier) -> (r: Identifier)
        ensures
            r@ == split_segments(id@),
    {
        match Identifier::try_from(id.as_string()) {
            Ok(identifier) => identifier,
            Err(_) => vstd::pervasive::unreached(),
        }
    }
}

impl StrIdentifier {
    /// The text of every identifier text is an identifier in snake case.
    #[verifier::type_invariant]
    pub closed spec fn valid(&self) -> bool {
        identifier_text_valid(self.text@)
    }

    /// Every identifier text is valid: an identifier in snake case.
    pub proof fn lemma_valid(&self)
        requires
            self.valid(),
        ensures
            identifier_text_valid(self@),
    {
    }

    /// The identifier as text.
    pub fn as_string(&self) -> (s: &str)
        ensures
            s@ == self@,
            identifier_text_valid(self@),
    {
        proof {
            use_type_invariant(self);
        }
        self.text.as_str()
    }

    /// The validated text that a text stands for.
    pub fn try_from(value: String) -> (r: Result<StrIdentifier, LqError>)
        ensures
            match r {
                Ok(id) => identifier_text_valid(value@) && id@ == value@,
                Err(e) => !identifier_text_valid(value@) && e.kind == ErrorKind::Schema,
            },
    {
        match Identifier::try_from(value.as_str()) {
            Ok(_) => Ok(StrIdentifier { text: value }),
            Err(e) => Err(e),
        }
    }

    /// Whether two identifier texts are the same.
    pub fn is_equal(&self, other: &StrIdentifier) -> (r: bool)
        ensures
            r == (self@ == other@),
    {
        self.text == other.text
    }
}

} // verus!
