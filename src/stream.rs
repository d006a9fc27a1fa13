use vstd::prelude::*;

use crate::writers::{
    canonical_line, char_fields, octal_fields, offset_field, spaced_line, word_fields, CanonicalWriter,
    ChunkData, DecimalWriter, LineWriter, OneByteChar, OneByteOctal, TwoBytesHex, TwoBytesOctal,
};

verus! {

/// The size of every window but the last.
pub const CHUNK_SIZE: usize = 16;

/// One of the line formats of the dump.
#[derive(Copy, Clone, Debug, PartialEq, Eq, Structural)]
pub enum Format {
    OneByteOctal,
    OneByteChar,
    Canonical,
    Decimal,
    TwoBytesOctal,
    TwoBytesHex,
}

/// What format `f` writes for `chunk` after the offset.
pub open spec fn payload_of(f: Format, chunk: Seq<u8>) -> Seq<u8> {
    match f {
        Format::OneByteOctal => spaced_line(octal_fields(chunk)),
        Format::OneByteChar => spaced_line(char_fields(chunk)),
        Format::Canonical => canonical_line(chunk),
        Format::Decimal => spaced_line(word_fields(chunk, 10, 5)),
        Format::TwoBytesOctal => spaced_line(word_fields(chunk, 8, 6)),
        Format::TwoBytesHex => spaced_line(word_fields(chunk, 16, 4)),
    }
}

/// The lines that `formats` write for one chunk, in their order.
pub open spec fn chunk_lines(formats: Seq<Format>, offset: nat, chunk: Seq<u8>) -> Seq<u8>
    decreases formats.len(),
{
    if formats.len() == 0 {
        Seq::empty()
    } else {
        chunk_lines(formats.drop_last(), offset, chunk) + offset_field(offset) + payload_of(
            formats.last(),
            chunk,
        )
    }
}

/// Appends the line of `f` for `data`.
pub fn print_line(f: Format, data: &ChunkData<'_>, w: &mut Vec<u8>)
    ensures
        final(w)@ == old(w)@ + offset_field(data.offset as nat) + payload_of(f, data.chunk@),
{
    match f {
        Format::OneByteOctal => {
            OneByteOctal.print_idx(data, w);
            OneByteOctal.print_chunk(data, w);
        },
        Format::OneByteChar => {
            OneByteChar.print_idx(data, w);
            OneByteChar.print_chunk(data, w);
        },
        Format::Canonical => {
            CanonicalWriter.print_idx(data, w);
            CanonicalWriter.print_chunk(data, w);
        },
        Format::Decimal => {
            DecimalWriter.print_idx(data, w);
            DecimalWriter.print_chunk(data, w);
        },
        Format::TwoBytesOctal => {
            TwoBytesOctal.print_idx(data, w);
            TwoBytesOctal.print_chunk(data, w);
        },
        Format::TwoBytesHex => {
            TwoBytesHex.print_idx(data, w);
            TwoBytesHex.print_chunk(data, w);
        },
    }
}

/// Appends the line of every format in `formats` for `data`, in order.
pub fn print_chunk_lines(formats: &[Format], data: &ChunkData<'_>, w: &mut Vec<u8>)
    ensures
        final(w)@ == old(w)@ + chunk_lines(formats@, data.offset as nat, data.chunk@),
{
    let ghost start = w@;
    let mut i: usize = 0;
    assert(formats@.take(0) =~= Seq::<Format>::empty());
    assert(w@ =~= start + chunk_lines(formats@.take(0), data.offset as nat, data.chunk@));
    while i < formats.len()
        invariant
            i <= formats@.len(),
            w@ == start + chunk_lines(formats@.take(i as int), data.offset as nat, data.chunk@),
        decreases formats@.len() - i,
    {
        print_line(formats[i], data, w);
        assert(formats@.take(i + 1).drop_last() =~= formats@.take(i as int));
        i += 1;
        assert(w@ =~= start + chunk_lines(formats@.take(i as int), data.offset as nat, data.chunk@));
    }
    assert(formats@.take(i as int) =~= formats@);
}

/// Hands out the successive windows of a stream with their offsets: the
/// first at the skipped length, each next sixteen further on, until a window
/// shorter than sixteen bytes ends the stream.
pub struct ChunkSource {
    next_offset: u128,
    finished: bool,
    start: Ghost<nat>,
    offsets: Ghost<Seq<nat>>,
    lengths: Ghost<Seq<nat>>,
}

impl ChunkSource {
    pub closed spec fn next_offset(&self) -> nat {
        self.next_offset as nat
    }

    pub closed spec fn finished(&self) -> bool {
        self.finished
    }

    /// Where the stream starts.
    pub closed spec fn start(&self) -> nat {
        self.start@
    }

    /// The offsets of the chunks handed out so far, in order.
    pub closed spec fn offsets(&self) -> Seq<nat> {
        self.offsets@
    }

    /// The lengths of the chunks handed out so far, in order.
    pub closed spec fn lengths(&self) -> Seq<nat> {
        self.lengths@
    }

    pub closed spec fn wf(&self) -> bool {
        &&& self.offsets@.len() == self.lengths@.len()
        &&& forall|i: int|
            0 <= i < self.offsets@.len() ==> #[trigger] self.offsets@[i] == self.start@ + 16 * i
        &&& forall|i: int| 0 <= i < self.lengths@.len() ==> #[trigger] self.lengths@[i] <= 16
        &&& forall|i: int|
            0 <= i < self.lengths@.len() - 1 ==> #[trigger] self.lengths@[i] == 16
        &&& self.finished <==> (self.lengths@.len() > 0 && self.lengths@.last() < 16)
        &&& !self.finished ==> self.next_offset as nat == self.start@ + 16 * self.offsets@.len()
        &&& self.finished ==> self.next_offset as nat == self.offsets@.last()
    }

    /// A source whose first chunk stands at `skip`.
    pub fn new(skip: u128) -> (r: ChunkSource)
        ensures
            r.wf(),
            r.start() == skip as nat,
            r.next_offset() == skip as nat,
            !r.finished(),
            r.offsets() == Seq::<nat>::empty(),
    {
        ChunkSource {
            next_offset: skip,
            finished: false,
            start: Ghost(skip as nat),
            offsets: Ghost(Seq::empty()),
            lengths: Ghost(Seq::empty()),
        }
    }

    /// Whether a short window has ended the stream.
    pub fn is_finished(&self) -> (r: bool)
        ensures
            r == self.finished(),
    {
        self.finished
    }

    /// Whether the next window may be a full one without its offset
    /// running past `u128::MAX`.
    pub fn has_room(&self) -> (r: bool)
        ensures
            r == (self.next_offset() + 16 <= u128::MAX),
    {
        self.next_offset <= u128::MAX - 16
    }

    /// Hands out `window`, the next bytes of the stream, as a chunk.
    pub fn next_chunk<'a>(&mut self, window: &'a [u8]) -> (r: ChunkData<'a>)
        requires
            old(self).wf(),
            !old(self).finished(),
            window@.len() <= 16,
            window@.len() == 16 ==> old(self).next_offset() + 16 <= u128::MAX,
        ensures
            final(self).wf(),
            r.offset as nat == old(self).next_offset(),
            r.chunk@ == window@,
            final(self).start() == old(self).start(),
            final(self).offsets() == old(self).offsets().push(r.offset as nat),
            final(self).lengths() == old(self).lengths().push(window@.len()),
            final(self).finished() == (window@.len() < 16),
            final(self).next_offset() == if window@.len() < 16 {
                old(self).next_offset()
            } else {
                old(self).next_offset() + 16
            },
    {
        let offset = self.next_offset;
        let full = window.len() == CHUNK_SIZE;
        self.offsets = Ghost(self.offsets@.push(offset as nat));
        self.lengths = Ghost(self.lengths@.push(window@.len()));
        self.finished = !full;
        if full {
            self.next_offset = offset + 16;
        }
        ChunkData { offset, chunk: window }
    }
}

/// Consecutive chunks of a stream stand sixteen bytes apart, starting where
/// the stream starts, and every chunk but the last is a full one.
pub proof fn lemma_offsets_increase(src: &ChunkSource, i: int)
    requires
        src.wf(),
        0 <= i,
        i + 1 < src.offsets().len(),
    ensures
        src.offsets()[i + 1] == src.offsets()[i] + 16,
        src.offsets()[0] == src.start(),
        src.lengths()[i] == 16,
{
    assert(src.offsets()[i + 1] == src.start() + 16 * (i + 1));
    assert(src.offsets()[i] == src.start() + 16 * i);
    assert(src.offsets()[0] == src.start() + 16 * 0);
}

/// What one read of the input gave.
#[derive(Copy, Clone, Debug, PartialEq, Eq, Structural)]
pub enum ReadOutcome {
    /// That many bytes; none at the end of the input.
    Bytes(usize),
    /// The read was interrupted before it gave anything.
    Interrupted,
    /// The read failed.
    Failed,
}

/// What to do after a read while filling a window.
#[derive(Copy, Clone, Debug, PartialEq, Eq, Structural)]
pub enum FillStep {
    /// Read again; this many bytes are in the window.
    Continue(usize),
    /// The window holds this many bytes: all of it, or all that the input had.
    Done(usize),
    /// Give up and report the failure of the read.
    Fail,
}

/// Decides, from the `filled` bytes of a window of `capacity` and the outcome
/// of the last read, whether the window is done: reads are retried after an
/// interruption and until the window is full or the input ends.
pub fn fill_step(filled: usize, capacity: usize, outcome: ReadOutcome) -> (r: FillStep)
    requires
        filled < capacity,
        outcome matches ReadOutcome::Bytes(n) ==> n <= capacity - filled,
    ensures
        r == match outcome {
            ReadOutcome::Bytes(n) => if n == 0 {
                FillStep::Done(filled)
            } else if filled + n == capacity {
                FillStep::Done(capacity)
            } else {
                FillStep::Continue((filled + n) as usize)
            },
            ReadOutcome::Interrupted => FillStep::Continue(filled),
            ReadOutcome::Failed => FillStep::Fail,
        },
{
    match outcome {
        ReadOutcome::Bytes(n) => {
            if n == 0 {
                FillStep::Done(filled)
            } else if filled + n == capacity {
                FillStep::Done(capacity)
            } else {
                FillStep::Continue(filled + n)
            }
        },
        ReadOutcome::Interrupted => FillStep::Continue(filled),
        ReadOutcome::Failed => FillStep::Fail,
    }
}

#[verifier::external_type_specification]
#[verifier::external_body]
pub struct ExPathBuf(std::path::PathBuf);

/// What the user asked of one run.
pub struct Options {
    /// One-byte octal display.
    pub one_byte_octal: bool,
    /// One-byte character display.
    pub one_byte_char: bool,
    /// Two-byte octal display.
    pub two_bytes_octal: bool,
    /// Two-byte hexadecimal display.
    pub two_bytes_hex: bool,
    /// Canonical hex+ASCII display.
    pub canonical: bool,
    /// Two-byte decimal display.
    pub decimal: bool,
    /// Interpret only this many bytes of input.
    pub length: Option<u128>,
    /// Skip this many bytes from the beginning of the input.
    pub skip: Option<u128>,
    /// The input file.
    pub input: std::path::PathBuf,
}

pub open spec fn when(on: bool, f: Format) -> Seq<Format> {
    if on {
        seq![f]
    } else {
        Seq::empty()
    }
}

/// The formats that the flags select, in output order; the canonical one
/// where none is selected.
pub open spec fn selected_formats(o: Options) -> Seq<Format> {
    let chosen = when(o.one_byte_octal, Format::OneByteOctal) + when(o.one_byte_char, Format::OneByteChar)
        + when(o.canonical, Format::Canonical) + when(o.decimal, Format::Decimal) + when(
        o.two_bytes_octal,
        Format::TwoBytesOctal,
    ) + when(o.two_bytes_hex, Format::TwoBytesHex);
    if chosen.len() == 0 {
        seq![Format::Canonical]
    } else {
        chosen
    }
}

fn push_when(v: &mut Vec<Format>, on: bool, f: Format)
    ensures
        final(v)@ == old(v)@ + when(on, f),
{
    if on {
        v.push(f);
    }
    assert(final(v)@ =~= old(v)@ + when(on, f));
}

impl Options {
    /// The formats to write each chunk in, in order.
    pub fn formats(&self) -> (r: Vec<Format>)
        ensures
            r@ == selected_formats(*self),
            r@.len() > 0,
    {
        let mut v: Vec<Format> = Vec::new();
        push_when(&mut v, self.one_byte_octal, Format::OneByteOctal);
        push_when(&mut v, self.one_byte_char, Format::OneByteChar);
        push_when(&mut v, self.canonical, Format::Canonical);
        push_when(&mut v, self.decimal, Format::Decimal);
        push_when(&mut v, self.two_bytes_octal, Format::TwoBytesOctal);
        push_when(&mut v, self.two_bytes_hex, Format::TwoBytesHex);
        assert(v@ =~= Seq::<Format>::empty() + when(self.one_byte_octal, Format::OneByteOctal) + when(
            self.one_byte_char,
            Format::OneByteChar,
        ) + when(self.canonical, Format::Canonical) + when(self.decimal, Format::Decimal) + when(
            self.two_bytes_octal,
            Format::TwoBytesOctal,
        ) + when(self.two_bytes_hex, Format::TwoBytesHex));
        if v.len() == 0 {
            v.push(Format::Canonical);
            assert(v@ =~= seq![Format::Canonical]);
        }
        v
    }
}

} // verus!
