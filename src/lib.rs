//! A byte-inspection library: exact reading of human-readable size strings
//! such as `12.5 KiB`, and the line formats of a hex dump.
pub mod byte_unit;
pub mod decimal;
pub mod error;
pub mod render;
pub mod stream;
pub mod writers;

pub use byte_unit::{
    n_eb_bytes, n_eib_bytes, n_gb_bytes, n_gib_bytes, n_kb_bytes, n_kib_bytes, n_mb_bytes,
    n_mib_bytes, n_pb_bytes, n_pib_bytes, n_tb_bytes, n_tib_bytes, parse_bytes, Byte, ByteUnit,
    EXABYTE, EXBIBYTE, GIBIBYTE, GIGABYTE, KIBIBYTE, KILOBYTE, MEBIBYTE, MEGABYTE, PEBIBYTE,
    PETABYTE, TEBIBYTE, TERABYTE, YOBIBYTE, YOTTABYTE, ZEBIBYTE, ZETTABYTE,
};
pub use error::{compose_unit_message, ByteError, UnitIncorrectError, ValueIncorrectError};
pub use stream::{
    fill_step, print_chunk_lines, print_line, ChunkSource, FillStep, Format, Options, ReadOutcome,
    CHUNK_SIZE,
};
pub use writers::{
    CanonicalWriter, ChunkData, DecimalWriter, LineWriter, OneByteChar, OneByteOctal, TwoBytesHex,
    TwoBytesOctal,
};
