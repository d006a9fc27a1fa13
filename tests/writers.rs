use hexdump::{
    fill_step, print_chunk_lines, CanonicalWriter, ChunkData, ChunkSource, DecimalWriter,
    FillStep, Format, LineWriter, OneByteChar, OneByteOctal, Options, ReadOutcome, TwoBytesHex,
    TwoBytesOctal,
};

const TEST_DATA: [u8; 16] = [
    0x54, 0x68, 0x69, 0x73, 0x01, 0x69, 0x73, 0x20, 0x61, 0x20, 0x63, 0x68, 0x75, 0x6E, 0x6B,
    0xFF,
];
const TEST_CHUNK: ChunkData = ChunkData {
    offset: 16,
    chunk: &TEST_DATA,
};

fn line<W: LineWriter>(w: &W, data: &ChunkData) -> Vec<u8> {
    let mut out = vec![];
    w.print_idx(data, &mut out);
    w.print_chunk(data, &mut out);
    out
}

#[test]
fn canonical() {
    let mut out = vec![];
    let w = CanonicalWriter;
    w.print_idx(&TEST_CHUNK, &mut out);
    w.print_chunk(&TEST_CHUNK, &mut out);
    assert_eq!(
        out,
        b"0x00000010\t54 68 69 73 01 69 73 20  61 20 63 68 75 6E 6B FF\t|This.is a chunk.|\n"
    );
}

#[test]
fn one_byte_octal() {
    let mut out = vec![];
    let w = OneByteOctal;
    w.print_idx(&TEST_CHUNK, &mut out);
    w.print_chunk(&TEST_CHUNK, &mut out);
    assert_eq!(
        out,
        b"0x00000010\t124 150 151 163 001 151 163 040 141 040 143 150 165 156 153 377\n"
    );
}

#[test]
fn one_byte_char() {
    let mut out = vec![];
    let w = OneByteChar;
    w.print_idx(&TEST_CHUNK, &mut out);
    w.print_chunk(&TEST_CHUNK, &mut out);
    assert_eq!(
        out,
        b"0x00000010\t  T   h   i   s   1   i   s       a       c   h   u   n   k 377\n"
    );
}

#[test]
fn decimal() {
    let mut out = vec![];
    let w = DecimalWriter;
    w.print_idx(&TEST_CHUNK, &mut out);
    w.print_chunk(&TEST_CHUNK, &mut out);
    assert_eq!(
        out,
        b"0x00000010\t26708 29545 26881 08307 08289 26723 28277 65387\n"
    );
}

#[test]
fn two_bytes_octal() {
    let mut out = vec![];
    let w = TwoBytesOctal;
    w.print_idx(&TEST_CHUNK, &mut out);
    w.print_chunk(&TEST_CHUNK, &mut out);
    assert_eq!(
        out,
        b"0x00000010\t064124 071551 064401 020163 020141 064143 067165 177553\n"
    );
}

#[test]
fn two_bytes_hex() {
    let mut out = vec![];
    let w = TwoBytesHex;
    w.print_idx(&TEST_CHUNK, &mut out);
    w.print_chunk(&TEST_CHUNK, &mut out);
    assert_eq!(out, b"0x00000010\t6854 7369 6901 2073 2061 6863 6E75 FF6B\n");
}

#[test]
fn canonical_short_chunk_keeps_the_column() {
    let data = ChunkData {
        offset: 0,
        chunk: &[0x41, 0x42, 0x43],
    };
    let out = line(&CanonicalWriter, &data);
    let mut expected = b"0x00000000\t41 42 43".to_vec();
    expected.extend(std::iter::repeat(b' ').take(40));
    expected.extend_from_slice(b"\t|ABC|\n");
    assert_eq!(out, expected);
    let full = line(&CanonicalWriter, &TEST_CHUNK);
    let tab = |v: &[u8]| v.iter().skip(11).position(|&b| b == b'\t').unwrap();
    assert_eq!(tab(&out), tab(&full));
}

#[test]
fn canonical_nine_bytes_and_empty() {
    let data = ChunkData {
        offset: 0x20,
        chunk: &[0, 1, 2, 3, 4, 5, 6, 7, 0x7f],
    };
    let mut expected = b"0x00000020\t00 01 02 03 04 05 06 07  7F".to_vec();
    expected.extend(std::iter::repeat(b' ').take(21));
    expected.extend_from_slice(b"\t|.........|\n");
    assert_eq!(line(&CanonicalWriter, &data), expected);

    let empty = ChunkData {
        offset: 0x30,
        chunk: &[],
    };
    let mut expected = b"0x00000030\t".to_vec();
    expected.extend(std::iter::repeat(b' ').take(48));
    expected.extend_from_slice(b"\t||\n");
    assert_eq!(line(&CanonicalWriter, &empty), expected);
}

#[test]
fn odd_byte_stands_alone() {
    let data = ChunkData {
        offset: 0,
        chunk: &[0x01, 0x02, 0xff],
    };
    assert_eq!(line(&DecimalWriter, &data), b"0x00000000\t00513 00255\n");
    assert_eq!(line(&TwoBytesOctal, &data), b"0x00000000\t001001 000377\n");
    assert_eq!(line(&TwoBytesHex, &data), b"0x00000000\t0201 00FF\n");
}

#[test]
fn escapes_and_octal() {
    let data = ChunkData {
        offset: 0,
        chunk: &[b'\t', b'\n', b'\r', 0, 0x7f, 0x08, b'~'],
    };
    assert_eq!(
        line(&OneByteChar, &data),
        b"0x00000000\t \\t  \\n  \\r  \\0 177  10   ~\n"
    );
    assert_eq!(
        line(&OneByteOctal, &data),
        b"0x00000000\t011 012 015 000 177 010 176\n"
    );
}

#[test]
fn wide_offsets_grow() {
    let data = ChunkData {
        offset: 0x1_2345_6789,
        chunk: &[],
    };
    assert_eq!(line(&OneByteOctal, &data), b"0x123456789\t\n");
}

#[test]
fn formats_follow_their_order() {
    let mut out = vec![];
    print_chunk_lines(&[Format::TwoBytesHex, Format::OneByteOctal], &TEST_CHUNK, &mut out);
    let mut expected = line(&TwoBytesHex, &TEST_CHUNK);
    expected.extend(line(&OneByteOctal, &TEST_CHUNK));
    assert_eq!(out, expected);
}

fn options() -> Options {
    Options {
        one_byte_octal: false,
        one_byte_char: false,
        two_bytes_octal: false,
        two_bytes_hex: false,
        canonical: false,
        decimal: false,
        length: None,
        skip: None,
        input: std::path::PathBuf::from("input"),
    }
}

#[test]
fn canonical_by_default() {
    assert_eq!(options().formats(), vec![Format::Canonical]);
    let mut o = options();
    o.two_bytes_hex = true;
    o.one_byte_octal = true;
    o.decimal = true;
    assert_eq!(
        o.formats(),
        vec![Format::OneByteOctal, Format::Decimal, Format::TwoBytesHex]
    );
}

#[test]
fn chunk_offsets_step_by_sixteen() {
    let mut src = ChunkSource::new(5);
    let full = [0u8; 16];
    let short = [1u8; 3];
    let a = src.next_chunk(&full).offset;
    let b = src.next_chunk(&full).offset;
    assert!(!src.is_finished());
    let c = src.next_chunk(&short);
    assert_eq!((a, b, c.offset, c.chunk.len()), (5, 21, 37, 3));
    assert!(src.is_finished());
}

#[test]
fn filling_a_window() {
    assert_eq!(fill_step(0, 16, ReadOutcome::Bytes(5)), FillStep::Continue(5));
    assert_eq!(fill_step(5, 16, ReadOutcome::Bytes(11)), FillStep::Done(16));
    assert_eq!(fill_step(5, 16, ReadOutcome::Bytes(0)), FillStep::Done(5));
    assert_eq!(fill_step(5, 16, ReadOutcome::Interrupted), FillStep::Continue(5));
    assert_eq!(fill_step(5, 16, ReadOutcome::Failed), FillStep::Fail);
}
