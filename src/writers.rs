use vstd::prelude::*;

use crate::render::{join, lemma_join_len, lemma_join_step, push_radix, push_spaces, radix, spaces};

verus! {

/// One window of the input: its bytes and the position of the first of them.
pub struct ChunkData<'a> {
    pub offset: u128,
    pub chunk: &'a [u8],
}

/// What opens every line: `0x`, the offset in lower-case hex of at least
/// eight digits, and a tab.
pub open spec fn offset_field(offset: nat) -> Seq<u8> {
    seq![48u8, 120u8] + radix(offset, 16, 8, false) + seq![9u8]
}

/// The fields joined by spaces, then a newline.
pub open spec fn spaced_line(fields: Seq<Seq<u8>>) -> Seq<u8> {
    join(fields) + seq![10u8]
}

pub open spec fn octal_fields(chunk: Seq<u8>) -> Seq<Seq<u8>> {
    chunk.map_values(|b: u8| radix(b as nat, 8, 3, false))
}

/// How the escaped-character format writes one byte before alignment.
pub open spec fn escape(b: u8) -> Seq<u8> {
    if b == 9 {
        seq![92u8, 116u8]
    } else if b == 10 {
        seq![92u8, 110u8]
    } else if b == 13 {
        seq![92u8, 114u8]
    } else if b == 0 {
        seq![92u8, 48u8]
    } else if 0x20 <= b <= 0x7e {
        seq![b]
    } else {
        radix(b as nat, 8, 0, false)
    }
}

/// `s` right-aligned in three columns.
pub open spec fn align3(s: Seq<u8>) -> Seq<u8> {
    if s.len() < 3 {
        spaces((3 - s.len()) as nat) + s
    } else {
        s
    }
}

pub open spec fn char_fields(chunk: Seq<u8>) -> Seq<Seq<u8>> {
    chunk.map_values(|b: u8| align3(escape(b)))
}

pub open spec fn hex_fields(chunk: Seq<u8>) -> Seq<Seq<u8>> {
    chunk.map_values(|b: u8| radix(b as nat, 16, 2, true))
}

/// The hex bytes of the canonical format, with a second space after the
/// eighth.
pub open spec fn hex_bytes(chunk: Seq<u8>) -> Seq<u8> {
    if chunk.len() > 8 {
        join(hex_fields(chunk.take(8))) + seq![32u8, 32u8] + join(hex_fields(chunk.skip(8)))
    } else {
        join(hex_fields(chunk))
    }
}

/// The width of the hex column of the canonical format: that of sixteen bytes.
pub open spec fn hex_column_width() -> nat {
    48
}

/// The hex bytes, padded with spaces to the width of a full chunk.
pub open spec fn hex_column(chunk: Seq<u8>) -> Seq<u8> {
    let h = hex_bytes(chunk);
    if h.len() < hex_column_width() {
        h + spaces((hex_column_width() - h.len()) as nat)
    } else {
        h
    }
}

/// A byte as the ASCII gutter shows it.
pub open spec fn gutter_char(b: u8) -> u8 {
    if 0x20 <= b <= 0x7e {
        b
    } else {
        46u8
    }
}

pub open spec fn canonical_line(chunk: Seq<u8>) -> Seq<u8> {
    hex_column(chunk) + seq![9u8, 124u8] + chunk.map_values(|b: u8| gutter_char(b)) + seq![124u8, 10u8]
}

/// The `i`th 16-bit word of `chunk`, first byte low; a last odd byte
/// stands alone.
pub open spec fn word_at(chunk: Seq<u8>, i: int) -> nat {
    if 2 * i + 1 < chunk.len() {
        (chunk[2 * i] + 256 * chunk[2 * i + 1]) as nat
    } else {
        chunk[2 * i] as nat
    }
}

pub open spec fn words(chunk: Seq<u8>) -> Seq<nat> {
    Seq::new(((chunk.len() + 1) / 2) as nat, |i: int| word_at(chunk, i))
}

pub open spec fn word_fields(chunk: Seq<u8>, base: nat, width: nat) -> Seq<Seq<u8>> {
    words(chunk).map_values(|v: nat| radix(v, base, width, true))
}

/// Relies on byteorder's `LittleEndian::read_u16`: the first byte is the
/// low half of the word.
#[verifier::external_body]
fn read_le_u16(lo: u8, hi: u8) -> (r: u16)
    ensures
        r == lo + 256 * hi,
{
    <byteorder::LittleEndian as byteorder::ByteOrder>::read_u16(&[lo, hi])
}

/// Appends `0x`, the offset in hex and a tab.
pub fn push_offset(w: &mut Vec<u8>, offset: u128)
    ensures
        final(w)@ == old(w)@ + offset_field(offset as nat),
{
    let ghost start = w@;
    w.push(48u8);
    w.push(120u8);
    push_radix(w, offset, 16, 8, false);
    w.push(9u8);
    assert(w@ =~= start + offset_field(offset as nat));
}

/// A line format of the dump.
pub trait LineWriter {
    /// What this format writes for `chunk` after the offset.
    spec fn payload(&self, chunk: Seq<u8>) -> Seq<u8>;

    /// Appends the offset that opens the line of `data`.
    fn print_idx(&self, data: &ChunkData<'_>, w: &mut Vec<u8>)
        ensures
            final(w)@ == old(w)@ + offset_field(data.offset as nat),
    {
        push_offset(w, data.offset)
    }

    /// Appends the rest of the line of `data`.
    fn print_chunk(&self, data: &ChunkData<'_>, w: &mut Vec<u8>)
        ensures
            final(w)@ == old(w)@ + self.payload(data.chunk@),
    ;
}

/// Appends each byte of `chunk` in three octal digits, one space between each two.
fn push_octal_bytes(w: &mut Vec<u8>, chunk: &[u8])
    ensures
        final(w)@ == old(w)@ + join(octal_fields(chunk@)),
{
    let ghost start = w@;
    let ghost fields = octal_fields(chunk@);
    let n = chunk.len();
    let mut i: usize = 0;
    assert(w@ =~= start + join(fields.take(0)));
    while i < n
        invariant
            i <= n,
            n == chunk@.len(),
            fields == octal_fields(chunk@),
            w@ == start + join(fields.take(i as int)),
        decreases n - i,
    {
        proof {
            lemma_join_step(fields, i as int);
        }
        if i > 0 {
            w.push(32u8);
        }
        push_radix(w, chunk[i] as u128, 8, 3, false);
        i += 1;
        assert(w@ =~= start + join(fields.take(i as int)));
    }
    assert(fields.take(n as int) =~= fields);
}

fn escape_bytes(b: u8) -> (r: Vec<u8>)
    ensures
        r@ == escape(b),
{
    let mut e: Vec<u8> = Vec::new();
    if b == 9 {
        e.push(92u8);
        e.push(116u8);
    } else if b == 10 {
        e.push(92u8);
        e.push(110u8);
    } else if b == 13 {
        e.push(92u8);
        e.push(114u8);
    } else if b == 0 {
        e.push(92u8);
        e.push(48u8);
    } else if 0x20 <= b && b <= 0x7e {
        e.push(b);
    } else {
        push_radix(&mut e, b as u128, 8, 0, false);
    }
    assert(e@ =~= escape(b));
    e
}

fn push_char_bytes(w: &mut Vec<u8>, chunk: &[u8])
    ensures
        final(w)@ == old(w)@ + join(char_fields(chunk@)),
{
    let ghost start = w@;
    let ghost fields = char_fields(chunk@);
    let n = chunk.len();
    let mut i: usize = 0;
    assert(w@ =~= start + join(fields.take(0)));
    while i < n
        invariant
            i <= n,
            n == chunk@.len(),
            fields == char_fields(chunk@),
            w@ == start + join(fields.take(i as int)),
        decreases n - i,
    {
        proof {
            lemma_join_step(fields, i as int);
        }
        if i > 0 {
            w.push(32u8);
        }
        let ghost before = w@;
        let mut e = escape_bytes(chunk[i]);
        if e.len() < 3 {
            push_spaces(w, 3 - e.len());
        }
        w.append(&mut e);
        assert(w@ =~= before + align3(escape(chunk@[i as int])));
        i += 1;
        assert(w@ =~= start + join(fields.take(i as int)));
    }
    assert(fields.take(n as int) =~= fields);
}

/// Appends the hex bytes of `chunk` from `from` to `to`, one space between each two.
fn push_hex_bytes(w: &mut Vec<u8>, chunk: &[u8], from: usize, to: usize)
    requires
        from <= to <= chunk@.len(),
    ensures
        final(w)@ == old(w)@ + join(hex_fields(chunk@.subrange(from as int, to as int))),
{
    let ghost start = w@;
    let ghost part = chunk@.subrange(from as int, to as int);
    let ghost fields = hex_fields(part);
    let mut i: usize = from;
    assert(w@ =~= start + join(fields.take(0)));
    while i < to
        invariant
            from <= i <= to <= chunk@.len(),
            part == chunk@.subrange(from as int, to as int),
            fields == hex_fields(part),
            w@ == start + join(fields.take(i - from)),
        decreases to - i,
    {
        proof {
            lemma_join_step(fields, i - from);
        }
        if i > from {
            w.push(32u8);
        }
        push_radix(w, chunk[i] as u128, 16, 2, true);
        assert(fields[i - from] == radix(chunk@[i as int] as nat, 16, 2, true));
        i += 1;
        assert(w@ =~= start + join(fields.take(i - from)));
    }
    assert(fields.take(to - from) =~= fields);
}

/// Appends the 16-bit words of `chunk`, each in `base` with `width` digits,
/// one space between each two.
fn push_words(w: &mut Vec<u8>, chunk: &[u8], base: u128, width: usize)
    requires
        2 <= base <= 16,
    ensures
        final(w)@ == old(w)@ + join(word_fields(chunk@, base as nat, width as nat)),
{
    let ghost start = w@;
    let ghost fields = word_fields(chunk@, base as nat, width as nat);
    let n = chunk.len();
    let count = n / 2 + n % 2;
    assert(count == (n + 1) / 2);
    let mut i: usize = 0;
    assert(w@ =~= start + join(fields.take(0)));
    while i < count
        invariant
            i <= count,
            count == (chunk@.len() + 1) / 2,
            n == chunk@.len(),
            2 <= base <= 16,
            fields == word_fields(chunk@, base as nat, width as nat),
            fields.len() == count,
            w@ == start + join(fields.take(i as int)),
        decreases count - i,
    {
        proof {
            lemma_join_step(fields, i as int);
        }
        if i > 0 {
            w.push(32u8);
        }
        let k = 2 * i;
        let v: u16 = if k + 1 < n {
            read_le_u16(chunk[k], chunk[k + 1])
        } else {
            chunk[k] as u16
        };
        assert(v as nat == word_at(chunk@, i as int));
        push_radix(w, v as u128, base, width, true);
        i += 1;
        assert(w@ =~= start + join(fields.take(i as int)));
    }
    assert(fields.take(count as int) =~= fields);
}

/// Appends the canonical line of `chunk` after its offset.
fn push_canonical(w: &mut Vec<u8>, chunk: &[u8])
    ensures
        final(w)@ == old(w)@ + canonical_line(chunk@),
{
    let ghost start = w@;
    let start_len = w.len();
    let n = chunk.len();
    if n > 8 {
        push_hex_bytes(w, chunk, 0, 8);
        w.push(32u8);
        w.push(32u8);
        push_hex_bytes(w, chunk, 8, n);
        assert(chunk@.subrange(0, 8) =~= chunk@.take(8));
        assert(chunk@.subrange(8, n as int) =~= chunk@.skip(8));
    } else {
        push_hex_bytes(w, chunk, 0, n);
        assert(chunk@.subrange(0, n as int) =~= chunk@);
    }
    assert(w@ =~= start + hex_bytes(chunk@));
    let size = w.len() - start_len;
    if size < 48 {
        push_spaces(w, 48 - size);
    }
    assert(w@ =~= start + hex_column(chunk@));
    let ghost mid = w@;
    w.push(9u8);
    w.push(124u8);
    let mut i: usize = 0;
    while i < n
        invariant
            i <= n,
            n == chunk@.len(),
            w@ == mid + seq![9u8, 124u8] + chunk@.take(i as int).map_values(|b: u8| gutter_char(b)),
        decreases n - i,
    {
        let b = chunk[i];
        if 0x20 <= b && b <= 0x7e {
            w.push(b);
        } else {
            w.push(46u8);
        }
        i += 1;
        assert(w@ =~= mid + seq![9u8, 124u8] + chunk@.take(i as int).map_values(
            |b: u8| gutter_char(b),
        ));
    }
    w.push(124u8);
    w.push(10u8);
    assert(chunk@.take(n as int) =~= chunk@);
    assert(w@ =~= start + canonical_line(chunk@));
}

/// Hex bytes and their ASCII characters: `hexdump -C`.
pub struct CanonicalWriter;

impl LineWriter for CanonicalWriter {
    open spec fn payload(&self, chunk: Seq<u8>) -> Seq<u8> {
        canonical_line(chunk)
    }

    fn print_chunk(&self, data: &ChunkData<'_>, w: &mut Vec<u8>) {
        push_canonical(w, data.chunk)
    }
}

/// Each byte in three octal digits.
pub struct OneByteOctal;

impl LineWriter for OneByteOctal {
    open spec fn payload(&self, chunk: Seq<u8>) -> Seq<u8> {
        spaced_line(octal_fields(chunk))
    }

    fn print_chunk(&self, data: &ChunkData<'_>, w: &mut Vec<u8>) {
        push_octal_bytes(w, data.chunk);
        w.push(10u8);
    }
}

/// Each byte as a character, an escape or octal digits, in three columns.
pub struct OneByteChar;

impl LineWriter for OneByteChar {
    open spec fn payload(&self, chunk: Seq<u8>) -> Seq<u8> {
        spaced_line(char_fields(chunk))
    }

    fn print_chunk(&self, data: &ChunkData<'_>, w: &mut Vec<u8>) {
        push_char_bytes(w, data.chunk);
        w.push(10u8);
    }
}

/// Each 16-bit word in five decimal digits.
pub struct DecimalWriter;

impl LineWriter for DecimalWriter {
    open spec fn payload(&self, chunk: Seq<u8>) -> Seq<u8> {
        spaced_line(word_fields(chunk, 10, 5))
    }

    fn print_chunk(&self, data: &ChunkData<'_>, w: &mut Vec<u8>) {
        push_words(w, data.chunk, 10, 5);
        w.push(10u8);
    }
}

/// Each 16-bit word in six octal digits.
pub struct TwoBytesOctal;

impl LineWriter for TwoBytesOctal {
    open spec fn payload(&self, chunk: Seq<u8>) -> Seq<u8> {
        spaced_line(word_fields(chunk, 8, 6))
    }

    fn print_chunk(&self, data: &ChunkData<'_>, w: &mut Vec<u8>) {
        push_words(w, data.chunk, 8, 6);
        w.push(10u8);
    }
}

/// Each 16-bit word in four upper-case hex digits.
pub struct TwoBytesHex;

impl LineWriter for TwoBytesHex {
    open spec fn payload(&self, chunk: Seq<u8>) -> Seq<u8> {
        spaced_line(word_fields(chunk, 16, 4))
    }

    fn print_chunk(&self, data: &ChunkData<'_>, w: &mut Vec<u8>) {
        push_words(w, data.chunk, 16, 4);
        w.push(10u8);
    }
}

proof fn lemma_hex_byte_len(b: u8)
    ensures
        radix(b as nat, 16, 2, true).len() == 2,
{
    let hi = b as nat / 16;
    assert(hi < 16);
    assert(hi / 16 == 0);
    assert(radix(hi / 16, 16, 0, true).len() == 0);
    assert(radix(hi, 16, 1, true).len() == 1);
}

proof fn lemma_hex_bytes_len(chunk: Seq<u8>)
    requires
        chunk.len() > 0,
    ensures
        join(hex_fields(chunk)).len() == 3 * chunk.len() - 1,
{
    let fields = hex_fields(chunk);
    assert forall|i: int| 0 <= i < fields.len() implies (#[trigger] fields[i]).len() == 2 by {
        lemma_hex_byte_len(chunk[i]);
    }
    lemma_join_len(fields, 2);
    assert(fields.len() == chunk.len());
    assert(fields.len() * (2 + 1) == 3 * chunk.len()) by (nonlinear_arith)
        requires
            fields.len() == chunk.len(),
    ;
}

/// Whatever its length up to sixteen bytes, a chunk's canonical line holds
/// its hex bytes first, padded to the width that a full chunk fills, and then
/// the tab that opens the ASCII gutter.
pub proof fn lemma_canonical_column(chunk: Seq<u8>)
    requires
        chunk.len() <= 16,
    ensures
        hex_column(chunk).len() == hex_column_width(),
        hex_column(chunk).take(hex_bytes(chunk).len() as int) == hex_bytes(chunk),
        canonical_line(chunk).take(hex_column_width() as int) == hex_column(chunk),
        canonical_line(chunk)[hex_column_width() as int] == 9u8,
{
    let n = chunk.len();
    if n > 8 {
        lemma_hex_bytes_len(chunk.take(8));
        lemma_hex_bytes_len(chunk.skip(8));
    } else if n > 0 {
        lemma_hex_bytes_len(chunk);
    } else {
        assert(hex_fields(chunk).len() == 0);
    }
    assert(hex_bytes(chunk).len() <= 48);
    assert(hex_column(chunk).take(hex_bytes(chunk).len() as int) =~= hex_bytes(chunk));
    assert(canonical_line(chunk).take(48) =~= hex_column(chunk));
}

} // verus!
