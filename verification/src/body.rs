//! The body that follows the head of an HTTP message: gathered as it is read, or sent in chunks.

use vstd::prelude::*;
use vstd::utf8::*;

use crate::number::{
    digits_value, hexadecimal, law_number_is_read, law_number_round_trip,
    lemma_digits_are_alphanumeric, parse_number, read_number,
};
use crate::protocol::BodyReader;
use crate::text::{chars_of, is_whitespace, law_trim, lemma_trim_line_break, trim, trimmed};

verus! {

/// What of a body comes next.
#[derive(Clone, Copy, Debug, PartialEq, Eq, Structural)]
pub enum Stage {
    /// The whole body, of this length.
    Fixed(usize),
    /// The line with the size of a chunk.
    SizeLine,
    /// The bytes of a chunk of this size.
    Chunk(usize),
    /// The line break behind a chunk.
    ChunkEnd,
    /// The line break behind the size of the last chunk.
    LastEnd,
    /// Nothing: the body is whole.
    Done,
}

/// What is to be read next.
#[derive(Clone, Copy, Debug, PartialEq, Eq, Structural)]
pub enum Need {
    /// Exactly so many bytes.
    Exact(usize),
    /// A line of text.
    Line,
    /// Nothing.
    Nothing,
}

/// The line with the size of a chunk does not hold a number.
#[derive(Clone, Copy, Debug, PartialEq, Eq, Structural)]
pub struct InvalidChunkSize;

/// A body of which a part has been read.
pub struct BodyAssembly {
    stage: Stage,
    body: Vec<u8>,
}

/// What stands for a body of which a part has been read.
pub struct BodyState {
    pub stage: Stage,
    pub body: Seq<u8>,
}

/// A body of which nothing has been read.
pub open spec fn body_start(reader: BodyReader) -> BodyState {
    BodyState {
        stage: match reader {
            BodyReader::Fixed(length) => Stage::Fixed(length),
            BodyReader::Chunked => Stage::SizeLine,
        },
        body: seq![],
    }
}

/// What is to be read next at a stage.
pub open spec fn need_at(stage: Stage) -> Need {
    match stage {
        Stage::Fixed(length) => Need::Exact(length),
        Stage::SizeLine => Need::Line,
        Stage::Chunk(size) => Need::Exact(size),
        Stage::ChunkEnd => Need::Exact(2),
        Stage::LastEnd => Need::Exact(2),
        Stage::Done => Need::Nothing,
    }
}

/// The body once the bytes that were needed have been read.
pub open spec fn after_bytes(state: BodyState, bytes: Seq<u8>) -> BodyState {
    match state.stage {
        Stage::Fixed(_) => BodyState { stage: Stage::Done, body: state.body + bytes },
        Stage::Chunk(_) => BodyState { stage: Stage::ChunkEnd, body: state.body + bytes },
        Stage::ChunkEnd => BodyState { stage: Stage::SizeLine, body: state.body },
        Stage::LastEnd => BodyState { stage: Stage::Done, body: state.body },
        _ => state,
    }
}

/// The size of a chunk, as its line writes it.
pub open spec fn chunk_size(line: Seq<char>) -> Option<nat> {
    parse_number(trim(line), 16, usize::MAX as nat)
}

/// The body once the size of the next chunk has been read.
pub open spec fn after_size(state: BodyState, size: nat) -> BodyState {
    BodyState {
        stage: if size == 0 {
            Stage::LastEnd
        } else {
            Stage::Chunk(size as usize)
        },
        body: state.body,
    }
}

impl View for BodyAssembly {
    type V = BodyState;

    closed spec fn view(&self) -> BodyState {
        BodyState { stage: self.stage, body: self.body@ }
    }
}

impl BodyAssembly {
    /// A body of which nothing has been read.
    pub fn new(reader: BodyReader) -> (assembly: Self)
        ensures
            assembly@ == body_start(reader),
    {
        let stage = match reader {
            BodyReader::Fixed(length) => Stage::Fixed(length),
            BodyReader::Chunked => Stage::SizeLine,
        };
        let assembly = BodyAssembly { stage, body: Vec::new() };
        assert(assembly@.body == Seq::<u8>::empty());
        assembly
    }

    /// What is to be read next.
    pub fn need(&self) -> (need: Need)
        ensures
            need == need_at(self@.stage),
    {
        match self.stage {
            Stage::Fixed(length) => Need::Exact(length),
            Stage::SizeLine => Need::Line,
            Stage::Chunk(size) => Need::Exact(size),
            Stage::ChunkEnd => Need::Exact(2),
            Stage::LastEnd => Need::Exact(2),
            Stage::Done => Need::Nothing,
        }
    }

    /// Takes the bytes that were needed.
    pub fn supply_bytes(&mut self, bytes: &[u8])
        requires
            need_at(old(self)@.stage) matches Need::Exact(count) && count == bytes@.len(),
        ensures
            final(self)@ == after_bytes(old(self)@, bytes@),
    {
        match self.stage {
            Stage::Fixed(_) => {
                self.body.extend_from_slice(bytes);
                self.stage = Stage::Done;
            },
            Stage::Chunk(_) => {
                self.body.extend_from_slice(bytes);
                self.stage = Stage::ChunkEnd;
            },
            Stage::ChunkEnd => {
                self.stage = Stage::SizeLine;
            },
            Stage::LastEnd => {
                self.stage = Stage::Done;
            },
            _ => {},
        }
        assert(self@.body == after_bytes(old(self)@, bytes@).body);
    }

    /// Takes the line with the size of the next chunk.
    pub fn supply_line(&mut self, line: &str) -> (taken: Result<(), InvalidChunkSize>)
        requires
            need_at(old(self)@.stage) == Need::Line,
        ensures
            match chunk_size(line@) {
                Some(size) => taken is Ok && final(self)@ == after_size(old(self)@, size),
                None => taken == Err::<(), InvalidChunkSize>(InvalidChunkSize) && final(self)@
                    == old(self)@,
            },
    {
        let chars = chars_of(line);
        match read_number(trimmed(chars.as_slice()), 16, usize::MAX as u64) {
            Some(size) => {
                self.stage = if size == 0 {
                    Stage::LastEnd
                } else {
                    Stage::Chunk(size as usize)
                };
                Ok(())
            },
            None => Err(InvalidChunkSize),
        }
    }

    /// The body, once it is whole.
    pub fn finish(self) -> (body: Vec<u8>)
        requires
            need_at(self@.stage) == Need::Nothing,
        ensures
            body@ == self@.body,
    {
        self.body
    }
}

/// The length of the first line of `input`, its line feed included.
pub open spec fn line_length(input: Seq<u8>) -> nat
    decreases input.len(),
{
    if input.len() == 0 {
        0
    } else if input[0] == 10 {
        1
    } else {
        1 + line_length(input.drop_first())
    }
}

/// How far a stage is from the end, where no more input is taken.
pub open spec fn rank(stage: Stage) -> nat {
    match stage {
        Stage::Done => 0,
        Stage::Chunk(_) => 2,
        _ => 1,
    }
}

/// A line is no longer than the input, and not empty where the input is not.
pub proof fn lemma_line_length_bounds(input: Seq<u8>)
    ensures
        line_length(input) <= input.len(),
        input.len() > 0 ==> line_length(input) > 0,
    decreases input.len(),
{
    if input.len() > 0 {
        lemma_line_length_bounds(input.drop_first());
    }
}

/// The body that reading as `need_at` asks gathers from `input`, and what is left of the input.
///
/// Nothing where the input ends too early, where a line is not UTF-8, or where it holds no size.
pub open spec fn read_body(state: BodyState, input: Seq<u8>) -> Option<(Seq<u8>, Seq<u8>)>
    decreases input.len(), rank(state.stage),
{
    match need_at(state.stage) {
        Need::Nothing => Some((state.body, input)),
        Need::Exact(count) => if input.len() < count {
            None
        } else {
            read_body(after_bytes(state, input.take(count as int)), input.skip(count as int))
        },
        Need::Line => {
            let count = line_length(input);
            let line = input.take(count as int);
            if input.len() == 0 || !valid_utf8(line) {
                None
            } else {
                match chunk_size(decode_utf8(line)) {
                    None => None,
                    Some(size) => {
                        proof {
                            lemma_line_length_bounds(input);
                        }
                        read_body(after_size(state, size), input.skip(count as int))
                    },
                }
            }
        },
    }
}

/// A line break.
pub open spec fn line_break() -> Seq<u8> {
    seq![13u8, 10u8]
}

/// How a part of a body is sent: its size in hexadecimal on a line, then its bytes, then a line
/// break. An empty part is not sent, for an empty chunk would end the body.
pub open spec fn chunk_frame(data: Seq<u8>) -> Seq<u8> {
    if data.len() == 0 {
        seq![]
    } else {
        encode_utf8(hexadecimal(data.len()) + seq!['\r', '\n']) + data + line_break()
    }
}

/// The chunk that ends a body.
pub open spec fn last_chunk() -> Seq<u8> {
    seq![48u8, 13u8, 10u8, 13u8, 10u8]
}

/// How the parts of a body are sent, one behind the other.
pub open spec fn chunk_frames(parts: Seq<Seq<u8>>) -> Seq<u8>
    decreases parts.len(),
{
    if parts.len() == 0 {
        seq![]
    } else {
        chunk_frames(parts.drop_last()) + chunk_frame(parts.last())
    }
}

/// What byte strings stand for.
pub open spec fn bytes_view(items: Seq<Vec<u8>>) -> Seq<Seq<u8>> {
    items.map_values(|item: Vec<u8>| item@)
}

/// The parts of a body, one behind the other.
pub open spec fn joined(parts: Seq<Seq<u8>>) -> Seq<u8>
    decreases parts.len(),
{
    if parts.len() == 0 {
        seq![]
    } else {
        joined(parts.drop_last()) + parts.last()
    }
}

/// The first line ends with the first line feed.
proof fn lemma_line_length(front: Seq<u8>, rest: Seq<u8>)
    requires
        forall|i: int| 0 <= i < front.len() ==> front[i] != 10,
    ensures
        line_length(front + seq![10u8] + rest) == front.len() + 1,
    decreases front.len(),
{
    let input = front + seq![10u8] + rest;
    if front.len() > 0 {
        lemma_line_length(front.drop_first(), rest);
        assert(input.drop_first() == front.drop_first() + seq![10u8] + rest);
    }
}

/// The size line of a chunk is a line, and its size is read back from it.
proof fn lemma_size_line(size: nat, rest: Seq<u8>)
    requires
        size <= usize::MAX,
    ensures
        ({
            let line = encode_utf8(hexadecimal(size) + seq!['\r', '\n']);
            &&& line_length(line + rest) == line.len()
            &&& valid_utf8(line)
            &&& chunk_size(decode_utf8(line)) == Some(size)
        }),
{
    let digits = hexadecimal(size);
    let chars = digits + seq!['\r', '\n'];
    let line = encode_utf8(chars);
    lemma_digits_are_alphanumeric(size, 16);
    assert(is_ascii_chars(chars)) by {
        assert forall|i: int| 0 <= i < chars.len() implies '\0' <= #[trigger] chars[i]
            <= '\u{7f}' by {
            if i < digits.len() {
                assert(chars[i] == digits[i]);
            }
        }
    }
    is_ascii_chars_encode_utf8(chars);
    let front = line.drop_last();
    assert(line[line.len() - 1] == chars[chars.len() - 1] as u8);
    assert(line == front + seq![10u8]);
    assert forall|i: int| 0 <= i < front.len() implies front[i] != 10 by {
        assert(line[i] == chars[i] as u8);
        if i < digits.len() {
            assert(chars[i] == digits[i]);
        }
    }
    lemma_line_length(front, rest);
    encode_utf8_valid_utf8(chars);
    encode_utf8_decode_utf8(chars);
    assert(!is_whitespace(digits[0]) && !is_whitespace(digits.last()));
    lemma_trim_line_break(digits);
    law_number_round_trip(size, 16, usize::MAX as nat);
}

/// A part that is sent as a chunk is read back as that part.
proof fn lemma_read_chunk(state: BodyState, data: Seq<u8>, rest: Seq<u8>)
    requires
        state.stage == Stage::SizeLine,
        data.len() <= usize::MAX,
    ensures
        read_body(state, chunk_frame(data) + rest) == read_body(
            BodyState { stage: Stage::SizeLine, body: state.body + data },
            rest,
        ),
{
    if data.len() == 0 {
        assert(chunk_frame(data) + rest == rest);
        assert(state.body + data == state.body);
    } else {
        let line = encode_utf8(hexadecimal(data.len()) + seq!['\r', '\n']);
        let input = chunk_frame(data) + rest;
        let behind_line = data + line_break() + rest;
        let behind_data = line_break() + rest;
        lemma_size_line(data.len(), behind_line);
        assert(input == line + behind_line);
        assert(input.take(line.len() as int) == line);
        assert(input.skip(line.len() as int) == behind_line);
        lemma_line_length_bounds(input);
        let sized = after_size(state, data.len());
        assert(read_body(state, input) == read_body(sized, behind_line));
        assert(behind_line.take(data.len() as int) == data);
        assert(behind_line.skip(data.len() as int) == behind_data);
        let filled = after_bytes(sized, data);
        assert(read_body(sized, behind_line) == read_body(filled, behind_data));
        assert(behind_data.skip(2) == rest);
        assert(read_body(filled, behind_data) == read_body(
            after_bytes(filled, behind_data.take(2)),
            rest,
        ));
    }
}

/// The last chunk ends the body and nothing more is read.
proof fn lemma_read_last_chunk(state: BodyState, rest: Seq<u8>)
    requires
        state.stage == Stage::SizeLine,
    ensures
        read_body(state, last_chunk() + rest) == Some((state.body, rest)),
{
    let input = last_chunk() + rest;
    let line = encode_utf8(hexadecimal(0) + seq!['\r', '\n']);
    let behind_line = line_break() + rest;
    let chars = seq!['0', '\r', '\n'];
    assert(hexadecimal(0) + seq!['\r', '\n'] == chars);
    is_ascii_chars_encode_utf8(chars);
    assert(chars[0] as u8 == 48 && chars[1] as u8 == 13 && chars[2] as u8 == 10);
    assert(line == seq![48u8, 13u8, 10u8]);
    lemma_size_line(0, behind_line);
    assert(input == line + behind_line);
    assert(input.take(line.len() as int) == line);
    assert(input.skip(line.len() as int) == behind_line);
    lemma_line_length_bounds(input);
    let sized = after_size(state, 0);
    assert(read_body(state, input) == read_body(sized, behind_line));
    assert(behind_line.skip(2) == rest);
    assert(read_body(sized, behind_line) == read_body(
        after_bytes(sized, behind_line.take(2)),
        rest,
    ));
}

/// The parts of a body that are sent as chunks are read back, one behind the other.
proof fn lemma_read_chunks(state: BodyState, parts: Seq<Seq<u8>>, rest: Seq<u8>)
    requires
        state.stage == Stage::SizeLine,
        forall|i: int| 0 <= i < parts.len() ==> (#[trigger] parts[i]).len() <= usize::MAX,
    ensures
        read_body(state, chunk_frames(parts) + rest) == read_body(
            BodyState { stage: Stage::SizeLine, body: state.body + joined(parts) },
            rest,
        ),
    decreases parts.len(),
{
    if parts.len() == 0 {
        assert(chunk_frames(parts) + rest == rest);
        assert(state.body + joined(parts) == state.body);
    } else {
        let front = parts.drop_last();
        let last = chunk_frame(parts.last());
        assert(chunk_frames(parts) + rest == chunk_frames(front) + (last + rest));
        lemma_read_chunks(state, front, last + rest);
        let between = BodyState { stage: Stage::SizeLine, body: state.body + joined(front) };
        lemma_read_chunk(between, parts.last(), rest);
        assert(between.body + parts.last() == state.body + joined(parts));
    }
}

/// A body that is sent in chunks and ended is read back as its parts, one behind the other,
/// however it was cut, and nothing that follows it is read.
pub proof fn law_chunked_round_trip(parts: Seq<Seq<u8>>, rest: Seq<u8>)
    requires
        forall|i: int| 0 <= i < parts.len() ==> (#[trigger] parts[i]).len() <= usize::MAX,
    ensures
        read_body(body_start(BodyReader::Chunked), chunk_frames(parts) + last_chunk() + rest)
            == Some((joined(parts), rest)),
{
    let start = body_start(BodyReader::Chunked);
    lemma_read_chunks(start, parts, last_chunk() + rest);
    let end = BodyState { stage: Stage::SizeLine, body: start.body + joined(parts) };
    lemma_read_last_chunk(end, rest);
    assert(chunk_frames(parts) + last_chunk() + rest == chunk_frames(parts) + (last_chunk()
        + rest));
    assert(start.body + joined(parts) == joined(parts));
}

/// A body of known length is read back as the bytes that were sent, and nothing that follows.
pub proof fn law_fixed_round_trip(body: Seq<u8>, rest: Seq<u8>)
    requires
        body.len() <= usize::MAX,
    ensures
        read_body(body_start(BodyReader::Fixed(body.len() as usize)), body + rest) == Some(
            (body, rest),
        ),
{
    let start = body_start(BodyReader::Fixed(body.len() as usize));
    let input = body + rest;
    assert(input.take(body.len() as int) == body);
    assert(input.skip(body.len() as int) == rest);
    let end = after_bytes(start, body);
    assert(read_body(start, input) == read_body(end, rest));
    assert(end.body == body);
}

/// A part that is sent as a chunk is a line with its size in hexadecimal, then the part as it is,
/// then a line break: of any size, and nothing of an empty one. The last chunk is that of size
/// zero.
pub proof fn law_chunk_holds_part(data: Seq<u8>)
    requires
        data.len() > 0,
    ensures
        ({
            let size = hexadecimal(data.len());
            let chunk = chunk_frame(data);
            &&& chunk.len() == size.len() + data.len() + 4
            &&& forall|i: int| 0 <= i < size.len() ==> #[trigger] chunk[i] as nat == size[i] as nat
            &&& chunk[size.len() as int] == 13 && chunk[size.len() as int + 1] == 10
            &&& chunk.subrange(size.len() as int + 2, size.len() + 2 + data.len() as int) == data
            &&& chunk[chunk.len() - 2] == 13 && chunk[chunk.len() - 1] == 10
        }),
        chunk_frame(Seq::<u8>::empty()).len() == 0,
        last_chunk().len() == 5 && last_chunk()[0] == 48,
        last_chunk().subrange(1, 3) == line_break() && last_chunk().subrange(3, 5) == line_break(),
        line_break() == seq![13u8, 10u8],
{
    let size = hexadecimal(data.len());
    let chars = size + seq!['\r', '\n'];
    let line = encode_utf8(chars);
    lemma_digits_are_alphanumeric(data.len(), 16);
    assert(is_ascii_chars(chars)) by {
        assert forall|i: int| 0 <= i < chars.len() implies '\0' <= #[trigger] chars[i]
            <= '\u{7f}' by {
            if i < size.len() {
                assert(chars[i] == size[i]);
            }
        }
    }
    is_ascii_chars_encode_utf8(chars);
    let chunk = chunk_frame(data);
    assert(chunk == line + data + line_break());
    assert forall|i: int| 0 <= i < size.len() implies #[trigger] chunk[i] as nat == size[i] as nat by {
        assert(chunk[i] == line[i]);
        assert(line[i] == chars[i] as u8);
        assert(chars[i] == size[i]);
    }
    assert(line[size.len() as int] == chars[size.len() as int] as u8);
    assert(line[size.len() as int + 1] == chars[size.len() as int + 1] as u8);
    assert(chunk.subrange(size.len() as int + 2, size.len() + 2 + data.len() as int) == data);
    assert(last_chunk().subrange(1, 3) == line_break());
    assert(last_chunk().subrange(3, 5) == line_break());
}

/// The parts of a body are sent one behind the other, and joined one behind the other, however
/// many there are.
pub proof fn law_parts_follow_each_other(a: Seq<Seq<u8>>, b: Seq<Seq<u8>>, part: Seq<u8>)
    ensures
        chunk_frames(a + b) == chunk_frames(a) + chunk_frames(b),
        joined(a + b) == joined(a) + joined(b),
        chunk_frames(seq![part]) == chunk_frame(part),
        joined(seq![part]) == part,
        chunk_frames(Seq::<Seq<u8>>::empty()).len() == 0,
        joined(Seq::<Seq<u8>>::empty()).len() == 0,
    decreases b.len(),
{
    let one = seq![part];
    assert(one.drop_last() == Seq::<Seq<u8>>::empty());
    assert(chunk_frames(one.drop_last()) == Seq::<u8>::empty());
    assert(joined(one.drop_last()) == Seq::<u8>::empty());
    assert(chunk_frames(one) == chunk_frame(part));
    assert(joined(one) == part);
    if b.len() == 0 {
        assert(a + b == a);
        assert(chunk_frames(a) + chunk_frames(b) == chunk_frames(a));
        assert(joined(a) + joined(b) == joined(a));
    } else {
        let front = b.drop_last();
        law_parts_follow_each_other(a, front, part);
        assert((a + b).drop_last() == a + front);
        assert((a + b).last() == b.last());
        assert(chunk_frames(a + b) == chunk_frames(a) + chunk_frames(b));
        assert(joined(a + b) == joined(a) + joined(b));
    }
}

/// A body in chunks is read whoever wrote the sizes: whatever digits stand for a size, with white
/// space around them, so many bytes are taken and what follows a line break is read on; a size of
/// zero ends the body.
pub proof fn law_any_chunk_is_read(
    body: Seq<u8>,
    front: Seq<char>,
    digits: Seq<char>,
    back: Seq<char>,
    data: Seq<u8>,
    ends: Seq<u8>,
    rest: Seq<u8>,
)
    requires
        digits.len() > 0 && digits[0] != '+',
        digits_value(digits, 16) == Some(data.len()),
        data.len() <= usize::MAX,
        forall|i: int| 0 <= i < front.len() ==> is_whitespace(#[trigger] front[i]),
        forall|i: int| 0 <= i < back.len() ==> is_whitespace(#[trigger] back[i]),
        !is_whitespace(digits[0]) && !is_whitespace(digits.last()),
        !(front + digits + back).contains('\n'),
        ends.len() == 2,
    ensures
        ({
            let line = encode_utf8(front + digits + back + seq!['\n']);
            let state = BodyState { stage: Stage::SizeLine, body };
            read_body(state, line + data + ends + rest) == if data.len() == 0 {
                Some((body, rest))
            } else {
                read_body(BodyState { stage: Stage::SizeLine, body: body + data }, rest)
            }
        }),
{
    let text = front + digits + back;
    let chars = text + seq!['\n'];
    let line = encode_utf8(chars);
    let state = BodyState { stage: Stage::SizeLine, body };
    let behind_line = data + ends + rest;
    let input = line + data + ends + rest;
    assert(input == line + behind_line);
    lemma_line_of_text(text, behind_line);
    lemma_line_length_bounds(input);
    assert(input.take(line.len() as int) == line);
    assert(input.skip(line.len() as int) == behind_line);
    encode_utf8_valid_utf8(chars);
    encode_utf8_decode_utf8(chars);
    let longer = back + seq!['\n'];
    assert(chars == front + digits + longer);
    assert forall|i: int| 0 <= i < longer.len() implies is_whitespace(#[trigger] longer[i]) by {
        if i < back.len() {
            assert(longer[i] == back[i]);
        }
    }
    law_trim(front, digits, longer);
    law_number_is_read(digits, 16, usize::MAX as nat);
    assert(chunk_size(chars) == Some(data.len()));
    let sized = after_size(state, data.len());
    assert(read_body(state, input) == read_body(sized, behind_line));
    if data.len() == 0 {
        assert(behind_line == ends + rest);
        assert(behind_line.skip(2) == rest);
        let done = after_bytes(sized, behind_line.take(2));
        assert(read_body(sized, behind_line) == read_body(done, rest));
    } else {
        assert(behind_line.take(data.len() as int) == data);
        assert(behind_line.skip(data.len() as int) == ends + rest);
        let filled = after_bytes(sized, data);
        assert(read_body(sized, behind_line) == read_body(filled, ends + rest));
        assert((ends + rest).skip(2) == rest);
        assert(read_body(filled, ends + rest) == read_body(
            after_bytes(filled, (ends + rest).take(2)),
            rest,
        ));
    }
}

/// No character but the line feed has a line feed among its bytes.
proof fn lemma_scalar_has_no_line_feed(c: char)
    requires
        c != '\n',
    ensures
        forall|i: int|
            0 <= i < encode_scalar(c as u32).len() ==> #[trigger] encode_scalar(c as u32)[i] != 10,
{
    let v = c as u32;
    assert(v <= 0x7f && v != 10 ==> leading_byte_width_1(v) != 10) by (bit_vector);
    assert(leading_byte_width_2(v) != 10) by (bit_vector);
    assert(leading_byte_width_3(v) != 10) by (bit_vector);
    assert(leading_byte_width_4(v) != 10) by (bit_vector);
    assert(last_continuation_byte(v) != 10) by (bit_vector);
    assert(second_last_continuation_byte(v) != 10) by (bit_vector);
    assert(third_last_continuation_byte(v) != 10) by (bit_vector);
}

/// The bytes of a text without a line feed, and a line feed, are a line.
proof fn lemma_line_of_text(text: Seq<char>, rest: Seq<u8>)
    requires
        !text.contains('\n'),
    ensures
        line_length(encode_utf8(text + seq!['\n']) + rest) == encode_utf8(text + seq!['\n']).len(),
        encode_utf8(text + seq!['\n']).len() > 0,
    decreases text.len(),
{
    let chars = text + seq!['\n'];
    let bytes = encode_utf8(chars);
    if text.len() == 0 {
        assert(chars == seq!['\n']);
        assert(is_ascii_chars(chars));
        is_ascii_chars_encode_utf8(chars);
        assert(chars[0] as u8 == 10);
        assert(bytes[0] == 10);
        assert((bytes + rest)[0] == 10);
    } else {
        let tail = text.drop_first();
        assert(!tail.contains('\n')) by {
            assert forall|i: int| 0 <= i < tail.len() implies tail[i] != '\n' by {
                assert(tail[i] == text[i + 1]);
            }
        }
        lemma_line_of_text(tail, rest);
        let first = encode_scalar(chars[0] as u32);
        assert(chars.drop_first() == tail + seq!['\n']);
        assert(bytes == first + encode_utf8(tail + seq!['\n']));
        assert(text[0] != '\n');
        lemma_scalar_has_no_line_feed(chars[0]);
        lemma_skip_to_line(first, encode_utf8(tail + seq!['\n']) + rest);
        assert(bytes + rest == first + (encode_utf8(tail + seq!['\n']) + rest));
    }
}

/// Bytes without a line feed only lengthen the line that they begin.
proof fn lemma_skip_to_line(front: Seq<u8>, rest: Seq<u8>)
    requires
        forall|i: int| 0 <= i < front.len() ==> #[trigger] front[i] != 10,
    ensures
        line_length(front + rest) == front.len() + line_length(rest),
    decreases front.len(),
{
    if front.len() == 0 {
        assert(front + rest == rest);
    } else {
        assert((front + rest).drop_first() == front.drop_first() + rest);
        assert((front + rest)[0] == front[0]);
        lemma_skip_to_line(front.drop_first(), rest);
    }
}

/// What is too short is not taken for a body, and a size that is none ends the reading: neither
/// gives a body that was not sent.
pub proof fn law_broken_body_is_not_read(input: Seq<u8>, length: usize, body: Seq<u8>)
    ensures
        input.len() < length ==> read_body(body_start(BodyReader::Fixed(length)), input) is None,
        input.len() == 0 ==> read_body(BodyState { stage: Stage::SizeLine, body }, input) is None,
        ({
            let line = input.take(line_length(input) as int);
            valid_utf8(line) && chunk_size(decode_utf8(line)) is None ==> read_body(
                BodyState { stage: Stage::SizeLine, body },
                input,
            ) is None
        }),
{
}

/// Byte strings stand for their bytes, one by one.
pub proof fn law_byte_strings(items: Seq<Vec<u8>>, i: int)
    ensures
        bytes_view(items).len() == items.len(),
        0 <= i < items.len() ==> bytes_view(items)[i] == items[i]@,
{
}

} // verus!
