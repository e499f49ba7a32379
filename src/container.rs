//! The container: a seed, a 16-byte header and a payload, all but the seed
//! obfuscated, the payload possibly LZSS-compressed.
//!
//! ```text
//! [0..4)    seed, little-endian
//! [4..20)   header, after deobfuscation:
//!             unpacked_size, checksum_deobfuscated,
//!             checksum_uncompressed, compression_code (little-endian words)
//! [20..)    payload
//! ```

use vstd::prelude::*;
use crate::bytes::{copy_from, lemma_u32_le_of_bytes, read_u32_le, u32_le, u32_to_le};
use crate::checksum::{checksum, checksum_of, Checksummer};
use crate::compression::{
    decode_run, lemma_run_err_persists, lemma_run_extend, lzss_decode, start_state,
    DecoderState,
};
use crate::obfuscation::{deobfuscated, lemma_round_trip, xor_stream, InputTooSmall};

verus! {

/// Declares std's I/O error, which a failure to read a container file carries.
#[verifier::external_type_specification]
#[verifier::external_body]
pub struct ExIoError(std::io::Error);

/// Size of the header at the start of the deobfuscated buffer.
pub const HEADER_SIZE: usize = 16;

/// Containers of this many bytes or fewer are rejected.
pub const MIN_CONTENT: usize = 20;

/// How the payload is stored.
#[derive(Debug, Clone, Copy, PartialEq, Eq, Structural)]
pub enum CompressionType {
    /// Code 0: stored as is.
    Uncompressed,
    /// Code 1: run-length encoded, which is not supported.
    RLE,
    /// Code 2: LZSS-compressed.
    LZSS,
    /// Any other code.
    Unknown,
}

/// The compression type that a header code stands for.
pub open spec fn compression_of(code: u32) -> CompressionType {
    if code == 0 {
        CompressionType::Uncompressed
    } else if code == 1 {
        CompressionType::RLE
    } else if code == 2 {
        CompressionType::LZSS
    } else {
        CompressionType::Unknown
    }
}

/// The header of a deobfuscated buffer.
#[derive(Debug, Clone, Copy, PartialEq, Eq, Structural)]
pub struct Header {
    /// Size of the payload once decompressed.
    pub unpacked_size: u32,
    /// Checksum of the deobfuscated payload.
    pub checksum_deobfuscated: u32,
    /// Checksum of the decompressed payload.
    pub checksum_uncompressed: u32,
    /// How the payload is stored.
    pub compression: CompressionType,
}

/// The header held by the first 16 bytes of `b`.
pub open spec fn header_of(b: Seq<u8>) -> Header {
    Header {
        unpacked_size: u32_le(b, 0),
        checksum_deobfuscated: u32_le(b, 4),
        checksum_uncompressed: u32_le(b, 8),
        compression: compression_of(u32_le(b, 12)),
    }
}

/// Why a container could not be decoded.
#[derive(Debug)]
pub enum DecompressError {
    /// The deobfuscated payload does not have the checksum that the header gives.
    DeobfuscateChecksumNotMatch,
    /// The input is shorter than its seed.
    ObfuscateFileTooSmall,
    /// The decompressed payload does not have the checksum that the header gives.
    DecompressChecksumNonMatch,
    /// The header gives a compression code that means nothing.
    InvalidCompressionType,
    /// The header asks for run-length decoding.
    CompressionNotSupported,
    /// The container has 20 bytes or fewer.
    ContentTooSmall,
    /// The container could not be read.
    FileError { error: std::io::Error },
    /// The input ended too early: in the header (no context), or in the
    /// compressed stream (the byte offset of the token that did not fit).
    PrematureEnd { context: Option<u32> },
}

impl DecompressError {
    /// A sentence describing the error.
    pub fn message(&self) -> String {
        match self {
            DecompressError::DeobfuscateChecksumNotMatch => {
                "deobfuscation checksum does not match".to_string()
            },
            DecompressError::DecompressChecksumNonMatch => {
                "decompression checksum does not match".to_string()
            },
            DecompressError::ObfuscateFileTooSmall => {
                "file too small for obfuscation/deobfuscation".to_string()
            },
            DecompressError::InvalidCompressionType => "invalid compression type".to_string(),
            DecompressError::CompressionNotSupported => "compression not supported".to_string(),
            DecompressError::ContentTooSmall => "file contents are too small".to_string(),
            DecompressError::FileError { .. } => "file reading error".to_string(),
            DecompressError::PrematureEnd { context: None } => "premature end of file".to_string(),
            DecompressError::PrematureEnd { context: Some(_) } => {
                "premature end of file when lz unpacking".to_string()
            },
        }
    }
}

/// A byte offset as it is reported in `PrematureEnd`, saturated to 32 bits.
pub open spec fn offset_context(offset: int) -> u32 {
    if offset > u32::MAX {
        u32::MAX
    } else {
        offset as u32
    }
}

fn to_context(offset: usize) -> (r: u32)
    ensures
        r == offset_context(offset as int),
{
    if offset > 0xffff_ffffusize {
        0xffff_ffff
    } else {
        offset as u32
    }
}

/// The view of a decoding result.
pub open spec fn bytes_result(r: Result<Vec<u8>, DecompressError>) -> Result<
    Seq<u8>,
    DecompressError,
> {
    match r {
        Ok(v) => Ok(v@),
        Err(e) => Err(e),
    }
}

/// The payload of a deobfuscated buffer: what follows the header.
pub open spec fn body_of(plain: Seq<u8>) -> Seq<u8> {
    plain.subrange(HEADER_SIZE as int, plain.len() as int)
}

/// The outcome of decompressing an LZSS body under `header`.
pub open spec fn lzss_result(body: Seq<u8>, header: Header) -> Result<Seq<u8>, DecompressError> {
    match lzss_decode(body, header.unpacked_size as nat) {
        Ok(out) => if checksum_of(out) == header.checksum_uncompressed {
            Ok(out)
        } else {
            Err(DecompressError::DecompressChecksumNonMatch)
        },
        Err(offset) => Err(DecompressError::PrematureEnd { context: Some(offset_context(offset)) }),
    }
}

/// The outcome of decoding a container.
pub open spec fn decompress_spec(input: Seq<u8>) -> Result<Seq<u8>, DecompressError> {
    if input.len() <= MIN_CONTENT {
        Err(DecompressError::ContentTooSmall)
    } else {
        let plain = deobfuscated(input);
        let header = header_of(plain);
        let body = body_of(plain);
        if header.checksum_deobfuscated != checksum_of(body) {
            Err(DecompressError::DeobfuscateChecksumNotMatch)
        } else {
            match header.compression {
                CompressionType::Uncompressed => Ok(body),
                CompressionType::RLE => Err(DecompressError::CompressionNotSupported),
                CompressionType::LZSS => lzss_result(body, header),
                CompressionType::Unknown => Err(DecompressError::InvalidCompressionType),
            }
        }
    }
}

/// The 16 header bytes for the given fields.
pub open spec fn header_bytes(
    unpacked_size: u32,
    checksum_deobfuscated: u32,
    checksum_uncompressed: u32,
    code: u32,
) -> Seq<u8> {
    u32_to_le(unpacked_size) + u32_to_le(checksum_deobfuscated) + u32_to_le(checksum_uncompressed)
        + u32_to_le(code)
}

/// A well-formed container: the seed, then the header and the payload
/// obfuscated with it, the header holding the payload's true checksum.
pub open spec fn container_of(
    seed: u32,
    unpacked_size: u32,
    checksum_uncompressed: u32,
    code: u32,
    payload: Seq<u8>,
) -> Seq<u8> {
    u32_to_le(seed) + xor_stream(
        header_bytes(unpacked_size, checksum_of(payload), checksum_uncompressed, code) + payload,
        seed,
    )
}

proof fn lemma_u32_le_at(b: Seq<u8>, at: int, v: u32)
    requires
        0 <= at,
        at + 4 <= b.len(),
        b.subrange(at, at + 4) == u32_to_le(v),
    ensures
        u32_le(b, at) == v,
{
    lemma_u32_le_of_bytes(v);
    let w = b.subrange(at, at + 4);
    assert(b[at] == w[0] && b[at + 1] == w[1] && b[at + 2] == w[2] && b[at + 3] == w[3]);
}

/// What a well-formed container decodes to, by its compression code: code 0
/// gives the payload unchanged, code 1 fails as unsupported, code 2 gives the
/// LZSS decoding of the payload, whose checksum is then the one the header
/// declares. A container needs at least one payload byte to be decodable.
pub proof fn lemma_well_formed_container(
    seed: u32,
    unpacked_size: u32,
    checksum_uncompressed: u32,
    code: u32,
    payload: Seq<u8>,
)
    requires
        payload.len() >= 1,
    ensures
        code == 0 ==> decompress_spec(
            container_of(seed, unpacked_size, checksum_uncompressed, code, payload),
        ) == Ok::<Seq<u8>, DecompressError>(payload),
        code == 1 ==> decompress_spec(
            container_of(seed, unpacked_size, checksum_uncompressed, code, payload),
        ) matches Err(DecompressError::CompressionNotSupported),
        code == 2 ==> decompress_spec(
            container_of(seed, unpacked_size, checksum_uncompressed, code, payload),
        ) == lzss_result(
            payload,
            Header {
                unpacked_size,
                checksum_deobfuscated: checksum_of(payload),
                checksum_uncompressed,
                compression: CompressionType::LZSS,
            },
        ),
        code == 2 && decompress_spec(
            container_of(seed, unpacked_size, checksum_uncompressed, code, payload),
        ) is Ok ==> checksum_of(
            decompress_spec(
                container_of(seed, unpacked_size, checksum_uncompressed, code, payload),
            )->Ok_0,
        ) == checksum_uncompressed,
{
    let hb = header_bytes(unpacked_size, checksum_of(payload), checksum_uncompressed, code);
    let plain = hb + payload;
    lemma_round_trip(plain, seed);
    let c = container_of(seed, unpacked_size, checksum_uncompressed, code, payload);
    assert(deobfuscated(c) == plain);
    assert(plain.subrange(0, 4) =~= u32_to_le(unpacked_size));
    assert(plain.subrange(4, 8) =~= u32_to_le(checksum_of(payload)));
    assert(plain.subrange(8, 12) =~= u32_to_le(checksum_uncompressed));
    assert(plain.subrange(12, 16) =~= u32_to_le(code));
    lemma_u32_le_at(plain, 0, unpacked_size);
    lemma_u32_le_at(plain, 4, checksum_of(payload));
    lemma_u32_le_at(plain, 8, checksum_uncompressed);
    lemma_u32_le_at(plain, 12, code);
    assert(body_of(plain) =~= payload);
}

/// Decoding depends on the input alone: the same input, corrupt or not,
/// gives the same result, and so the same error, every time.
pub proof fn lemma_decompress_deterministic(a: Seq<u8>, b: Seq<u8>)
    requires
        a == b,
    ensures
        decompress_spec(a) == decompress_spec(b),
{
}

impl Header {
    /// Reads the header from the first 16 bytes of `input`.
    pub fn from_bytes(input: &[u8]) -> (r: Result<Header, DecompressError>)
        ensures
            input@.len() < HEADER_SIZE ==> r matches Err(DecompressError::PrematureEnd { context: None }),
            input@.len() >= HEADER_SIZE ==> r == Ok::<Header, DecompressError>(header_of(input@)),
    {
        if input.len() < HEADER_SIZE {
            return Err(DecompressError::PrematureEnd { context: None });
        }
        let code = read_u32_le(input, 12);
        let compression = if code == 0 {
            CompressionType::Uncompressed
        } else if code == 1 {
            CompressionType::RLE
        } else if code == 2 {
            CompressionType::LZSS
        } else {
            CompressionType::Unknown
        };
        Ok(
            Header {
                unpacked_size: read_u32_le(input, 0),
                checksum_deobfuscated: read_u32_le(input, 4),
                checksum_uncompressed: read_u32_le(input, 8),
                compression,
            },
        )
    }
}

/// Deobfuscates a container and checks the payload against the header.
fn deobfuscate(input: &[u8]) -> (r: Result<Vec<u8>, DecompressError>)
    requires
        input@.len() > MIN_CONTENT,
    ensures
        header_of(deobfuscated(input@)).checksum_deobfuscated == checksum_of(
            body_of(deobfuscated(input@)),
        ) ==> r is Ok && r->Ok_0@ == deobfuscated(input@),
        header_of(deobfuscated(input@)).checksum_deobfuscated != checksum_of(
            body_of(deobfuscated(input@)),
        ) ==> r matches Err(DecompressError::DeobfuscateChecksumNotMatch),
{
    let deobfuscated = match crate::obfuscation::deobfuscate(input) {
        Ok(v) => v,
        Err(InputTooSmall) => {
            return Err(DecompressError::ObfuscateFileTooSmall);
        },
    };
    let header = match Header::from_bytes(deobfuscated.as_slice()) {
        Ok(h) => h,
        Err(e) => {
            return Err(e);
        },
    };
    let body = copy_from(deobfuscated.as_slice(), HEADER_SIZE);
    if header.checksum_deobfuscated == checksum(body.as_slice()) {
        Ok(deobfuscated)
    } else {
        Err(DecompressError::DeobfuscateChecksumNotMatch)
    }
}

/// Decompresses the LZSS payload of a deobfuscated buffer, checksumming the
/// bytes as they come out.
fn lzss_decompress(input: &[u8]) -> (r: Result<Vec<u8>, DecompressError>)
    requires
        input@.len() >= HEADER_SIZE,
    ensures
        bytes_result(r) == lzss_result(body_of(input@), header_of(input@)),
{
    let header = match Header::from_bytes(input) {
        Ok(h) => h,
        Err(e) => {
            return Err(e);
        },
    };
    let size = header.unpacked_size as usize;
    let mut reader = crate::compression::decompress(copy_from(input, HEADER_SIZE));
    let ghost src = body_of(input@);
    let ghost s0 = start_state();
    let mut checksummer = Checksummer::new();
    let mut buffer: Vec<u8> = Vec::new();
    assert(decode_run(src, s0, 0) == Ok::<(DecoderState, Seq<u8>), DecoderState>((s0, buffer@)));
    while buffer.len() < size
        invariant
            reader.wf(),
            reader.source() == src,
            src == body_of(input@),
            s0 == start_state(),
            size == header.unpacked_size,
            header == header_of(input@),
            checksummer.wf(),
            checksummer@ == buffer@,
            buffer@.len() <= size,
            decode_run(src, s0, buffer@.len() as nat) == Ok::<(DecoderState, Seq<u8>), DecoderState>(
                (reader@, buffer@),
            ),
        decreases size - buffer@.len(),
    {
        let ghost before = reader@;
        let ghost n = buffer@.len() as nat;
        let res = reader.read(size - buffer.len());
        match res {
            Ok(chunk) => {
                let mut chunk = chunk;
                proof {
                    lemma_run_extend(src, s0, n, chunk@.len());
                }
                checksummer.update(chunk.as_slice());
                buffer.append(&mut chunk);
            },
            Err(e) => {
                proof {
                    assert(decode_run(src, s0, n + 1) == Err::<(DecoderState, Seq<u8>), DecoderState>(before));
                    lemma_run_err_persists(src, s0, n + 1, (size - n - 1) as nat);
                    assert(n + 1 + (size - n - 1) as nat == size as nat);
                }
                return Err(DecompressError::PrematureEnd { context: Some(to_context(e.offset)) });
            },
        }
    }
    if header.checksum_uncompressed == checksummer.value() {
        Ok(buffer)
    } else {
        Err(DecompressError::DecompressChecksumNonMatch)
    }
}

/// Decodes a container: deobfuscates it, checks it, and returns its payload,
/// decompressed where the header asks for LZSS.
pub fn decompress(input: &[u8]) -> (r: Result<Vec<u8>, DecompressError>)
    ensures
        bytes_result(r) == decompress_spec(input@),
{
    if input.len() <= MIN_CONTENT {
        return Err(DecompressError::ContentTooSmall);
    }
    let output = match deobfuscate(input) {
        Ok(v) => v,
        Err(e) => {
            return Err(e);
        },
    };
    let header = match Header::from_bytes(output.as_slice()) {
        Ok(h) => h,
        Err(e) => {
            return Err(e);
        },
    };
    match header.compression {
        CompressionType::Uncompressed => Ok(copy_from(output.as_slice(), HEADER_SIZE)),
        CompressionType::LZSS => lzss_decompress(output.as_slice()),
        CompressionType::RLE => Err(DecompressError::CompressionNotSupported),
        CompressionType::Unknown => Err(DecompressError::InvalidCompressionType),
    }
}

} // verus!
