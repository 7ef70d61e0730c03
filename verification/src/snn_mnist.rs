//! MNIST data in the IDX format, plain or gzipped.
//!
//! An images file is a magic number, the counts of images, rows and columns
//! (big-endian, four bytes each), then one byte per pixel. A labels file is a
//! magic number, the count of labels, then one byte per label.

use std::io::Read;

use vstd::prelude::*;

use crate::split::copy_slice;

verus! {

/// The magic number of an images file.
pub const IDX_MAGIC_IMAGES: u32 = 0x803;

/// The magic number of a labels file.
pub const IDX_MAGIC_LABELS: u32 = 0x801;

/// The most pixels or labels that one file may announce.
pub const MAX_ELEMS: usize = 0x4000_0000;

/// The images file of each split.
pub const IDX_IMAGES: [(&'static str, &'static str); 2] = [
    ("train", "train-images-idx3-ubyte.gz"),
    ("test", "t10k-images-idx3-ubyte.gz"),
];

/// The labels file of each split.
pub const IDX_LABELS: [(&'static str, &'static str); 2] = [
    ("train", "train-labels-idx1-ubyte.gz"),
    ("test", "t10k-labels-idx1-ubyte.gz"),
];

/// Why a buffer is not an IDX file.
#[derive(Clone, Copy, Debug, PartialEq, Eq, Structural)]
pub enum IdxFault {
    /// The buffer ends inside the images header.
    ImagesHeader,
    /// The magic number, given here, is not that of an images file.
    ImagesMagic(u32),
    /// The product of rows and columns is out of range.
    RowsTimesCols,
    /// The number of pixels is out of range.
    ImagesSize,
    /// The buffer ends before the last pixel.
    ImagesPayload,
    /// The buffer ends inside the labels header.
    LabelsHeader,
    /// The magic number, given here, is not that of a labels file.
    LabelsMagic(u32),
    /// The buffer ends before the last label, or there are too many labels.
    LabelsPayload,
}

/// Why a buffer, plain or gzipped, cannot be read.
#[derive(Debug)]
pub enum IdxError {
    /// The gzip stream is damaged, with the error of the decoder.
    Gunzip(std::io::Error),
    /// The uncompressed buffer is not an IDX file.
    Format(IdxFault),
}

/// The lower-case hexadecimal digits of `n`.
pub open spec fn hexadecimal(n: nat) -> Seq<char>
    decreases n,
{
    let d = n % 16;
    let digit = if d < 10 {
        ('0' as u32 + d as u32) as char
    } else {
        ('a' as u32 + (d - 10) as u32) as char
    };
    if n < 16 {
        seq![digit]
    } else {
        hexadecimal(n / 16).push(digit)
    }
}

/// The lower-case hexadecimal digits of `n`.
fn hexadecimal_string(n: u32) -> (s: String)
    ensures
        s@ == hexadecimal(n as nat),
    decreases n,
{
    let d: u8 = (n % 16) as u8;
    let digit: char = if d < 10 {
        (48u8 + d) as char
    } else {
        (87u8 + d) as char
    };
    if n < 16 {
        let mut s = String::new();
        s.push(digit);
        proof {
            assert(s@ =~= hexadecimal(n as nat));
        }
        s
    } else {
        let mut s = hexadecimal_string(n / 16);
        s.push(digit);
        s
    }
}

impl IdxFault {
    /// What is wrong, in words.
    pub open spec fn words(self) -> Seq<char> {
        match self {
            IdxFault::ImagesHeader => "images IDX buffer too short for header"@,
            IdxFault::ImagesMagic(magic) => "expected images magic 0x803, got 0x"@ + hexadecimal(
                magic as nat,
            ),
            IdxFault::RowsTimesCols => "rows * cols overflow"@,
            IdxFault::ImagesSize => "images payload size out of range"@,
            IdxFault::ImagesPayload => "images payload underflow"@,
            IdxFault::LabelsHeader => "labels IDX buffer too short for header"@,
            IdxFault::LabelsMagic(magic) => "expected labels magic 0x801, got 0x"@ + hexadecimal(
                magic as nat,
            ),
            IdxFault::LabelsPayload => "labels payload underflow"@,
        }
    }

    /// What is wrong, in words.
    pub fn message(self) -> (s: String)
        ensures
            s@ == self.words(),
    {
        match self {
            IdxFault::ImagesHeader => String::from_str("images IDX buffer too short for header"),
            IdxFault::ImagesMagic(magic) => {
                let mut s = String::from_str("expected images magic 0x803, got 0x");
                s.append(hexadecimal_string(magic).as_str());
                s
            },
            IdxFault::RowsTimesCols => String::from_str("rows * cols overflow"),
            IdxFault::ImagesSize => String::from_str("images payload size out of range"),
            IdxFault::ImagesPayload => String::from_str("images payload underflow"),
            IdxFault::LabelsHeader => String::from_str("labels IDX buffer too short for header"),
            IdxFault::LabelsMagic(magic) => {
                let mut s = String::from_str("expected labels magic 0x801, got 0x");
                s.append(hexadecimal_string(magic).as_str());
                s
            },
            IdxFault::LabelsPayload => String::from_str("labels payload underflow"),
        }
    }
}

// ---------------------------------------------------------------------------
// Big-endian numbers
// ---------------------------------------------------------------------------
/// The big-endian number in the four bytes at `offset`.
pub open spec fn be_value(bytes: Seq<u8>, offset: int) -> int {
    bytes[offset] as int * 0x100_0000 + bytes[offset + 1] as int * 0x1_0000 + bytes[offset
        + 2] as int * 0x100 + bytes[offset + 3] as int
}

/// Reads a big-endian `u32` from `bytes` at `offset`.
pub fn be_u32(bytes: &[u8], offset: usize) -> (n: u32)
    requires
        offset + 4 <= bytes@.len(),
    ensures
        n as int == be_value(bytes@, offset as int),
{
    let len: usize = bytes.len();
    proof {
        assert(offset + 3 < len);
    }
    (bytes[offset] as u32) * 0x100_0000 + (bytes[offset + 1] as u32) * 0x1_0000 + (bytes[offset
        + 2] as u32) * 0x100 + (bytes[offset + 3] as u32)
}

/// The four bytes of a big-endian number.
pub open spec fn be_bytes(n: u32) -> Seq<u8> {
    seq![
        (n / 0x100_0000) as u8,
        (n / 0x1_0000 % 0x100) as u8,
        (n / 0x100 % 0x100) as u8,
        (n % 0x100) as u8,
    ]
}

/// Reading a number back gives what was written, wherever it stands.
pub proof fn be_round_trip(before: Seq<u8>, n: u32, after: Seq<u8>)
    ensures
        be_value(before + be_bytes(n) + after, before.len() as int) == n,
{
    let all = before + be_bytes(n) + after;
    let k = before.len() as int;
    assert(all[k] == be_bytes(n)[0]);
    assert(all[k + 1] == be_bytes(n)[1]);
    assert(all[k + 2] == be_bytes(n)[2]);
    assert(all[k + 3] == be_bytes(n)[3]);
}

// ---------------------------------------------------------------------------
// The format
// ---------------------------------------------------------------------------
/// The images in an uncompressed buffer: the pixels, the number of images, the pixels per image.
pub open spec fn images_in(raw: Seq<u8>) -> Result<(Seq<u8>, nat, nat), IdxFault> {
    let n = be_value(raw, 4);
    let per = be_value(raw, 8) * be_value(raw, 12);
    if raw.len() < 16 {
        Err(IdxFault::ImagesHeader)
    } else if be_value(raw, 0) != IDX_MAGIC_IMAGES {
        Err(IdxFault::ImagesMagic(be_value(raw, 0) as u32))
    } else if per > usize::MAX {
        Err(IdxFault::RowsTimesCols)
    } else if n * per > MAX_ELEMS {
        Err(IdxFault::ImagesSize)
    } else if 16 + n * per > raw.len() {
        Err(IdxFault::ImagesPayload)
    } else {
        Ok((raw.subrange(16, 16 + n * per), n as nat, per as nat))
    }
}

/// The labels in an uncompressed buffer.
pub open spec fn labels_in(raw: Seq<u8>) -> Result<Seq<u8>, IdxFault> {
    let n = be_value(raw, 4);
    if raw.len() < 8 {
        Err(IdxFault::LabelsHeader)
    } else if be_value(raw, 0) != IDX_MAGIC_LABELS {
        Err(IdxFault::LabelsMagic(be_value(raw, 0) as u32))
    } else if 8 + n > raw.len() || n > MAX_ELEMS {
        Err(IdxFault::LabelsPayload)
    } else {
        Ok(raw.subrange(8, 8 + n))
    }
}

/// Whether a buffer starts like a gzip stream.
pub open spec fn looks_gzipped(data: Seq<u8>) -> bool {
    data.len() >= 2 && data[0] == 0x1f && data[1] == 0x8b
}

/// What a gzip stream decompresses to; nothing where the stream is damaged.
pub uninterp spec fn gunzipped(data: Seq<u8>) -> Option<Seq<u8>>;

/// The uncompressed buffer: the data itself, unless it starts like a gzip stream; nothing where
/// that stream is damaged.
pub open spec fn unpacked(data: Seq<u8>) -> Option<Seq<u8>> {
    if looks_gzipped(data) {
        gunzipped(data)
    } else {
        Some(data)
    }
}

/// The error of a failed read, of which nothing is known.
#[verifier::external_type_specification]
#[verifier::external_body]
pub struct ExIoError(std::io::Error);

/// Trusted: `flate2::read::GzDecoder`, read to the end, gives the decompressed bytes or an error,
/// which of the two and which bytes depending on the compressed bytes alone. Which error it is, is
/// left unsaid.
#[verifier::external_body]
fn gunzip(data: &[u8]) -> (r: Result<Vec<u8>, std::io::Error>)
    ensures
        match r {
            Ok(raw) => gunzipped(data@) == Some(raw@),
            Err(_) => gunzipped(data@) is None,
        },
{
    let mut out: Vec<u8> = Vec::new();
    flate2::read::GzDecoder::new(data).read_to_end(&mut out).map(|_| out)
}

/// Decompresses `data` where it starts like a gzip stream; otherwise passes it through.
pub fn gunzip_if_needed(data: &[u8]) -> (r: Result<Vec<u8>, std::io::Error>)
    ensures
        match r {
            Ok(raw) => unpacked(data@) == Some(raw@),
            Err(_) => unpacked(data@) is None,
        },
{
    if data.len() >= 2 && data[0] == 0x1f && data[1] == 0x8b {
        gunzip(data)
    } else {
        let raw = copy_slice(data, 0, data.len());
        proof {
            assert(raw@ =~= data@);
        }
        Ok(raw)
    }
}

/// Parses an uncompressed images buffer into pixel bytes, the number of images and the pixels
/// per image.
pub fn parse_idx_images(raw: &[u8]) -> (r: Result<(Vec<u8>, usize, usize), IdxFault>)
    ensures
        match r {
            Ok(images) => images_in(raw@) == Ok::<(Seq<u8>, nat, nat), IdxFault>(
                (images.0@, images.1 as nat, images.2 as nat),
            ),
            Err(e) => images_in(raw@) == Err::<(Seq<u8>, nat, nat), IdxFault>(e),
        },
{
    if raw.len() < 16 {
        return Err(IdxFault::ImagesHeader);
    }
    let magic: u32 = be_u32(raw, 0);
    if magic != IDX_MAGIC_IMAGES {
        return Err(IdxFault::ImagesMagic(magic));
    }
    let n: usize = be_u32(raw, 4) as usize;
    let rows: usize = be_u32(raw, 8) as usize;
    let cols: usize = be_u32(raw, 12) as usize;
    let per: usize = match rows.checked_mul(cols) {
        Some(per) => per,
        None => {
            return Err(IdxFault::RowsTimesCols);
        },
    };
    let total: usize = match n.checked_mul(per) {
        Some(total) => total,
        None => {
            return Err(IdxFault::ImagesSize);
        },
    };
    if total > MAX_ELEMS {
        return Err(IdxFault::ImagesSize);
    }
    if total > raw.len() - 16 {
        return Err(IdxFault::ImagesPayload);
    }
    Ok((copy_slice(raw, 16, 16 + total), n, per))
}

/// Whether a result is that of parsing an uncompressed images buffer.
pub open spec fn images_result(
    raw: Seq<u8>,
    r: Result<(Vec<u8>, usize, usize), IdxError>,
) -> bool {
    match r {
        Ok(images) => images_in(raw) == Ok::<(Seq<u8>, nat, nat), IdxFault>(
            (images.0@, images.1 as nat, images.2 as nat),
        ),
        Err(IdxError::Format(fault)) => images_in(raw) == Err::<(Seq<u8>, nat, nat), IdxFault>(
            fault,
        ),
        Err(IdxError::Gunzip(_)) => false,
    }
}

/// Parses an images buffer that was read or decompressed; an error of that passes through.
pub fn images_of(unpacked: Result<Vec<u8>, std::io::Error>) -> (r: Result<
    (Vec<u8>, usize, usize),
    IdxError,
>)
    ensures
        match unpacked {
            Ok(raw) => images_result(raw@, r),
            Err(e) => r == Err::<(Vec<u8>, usize, usize), IdxError>(IdxError::Gunzip(e)),
        },
{
    match unpacked {
        Ok(raw) => match parse_idx_images(raw.as_slice()) {
            Ok(images) => Ok(images),
            Err(fault) => Err(IdxError::Format(fault)),
        },
        Err(e) => Err(IdxError::Gunzip(e)),
    }
}

/// Parses an images buffer, plain or gzipped, into pixel bytes, the number of images and the
/// pixels per image.
pub fn read_idx_images(data: &[u8]) -> (r: Result<(Vec<u8>, usize, usize), IdxError>)
    ensures
        match unpacked(data@) {
            Some(raw) => images_result(raw, r),
            None => r is Err && r->Err_0 is Gunzip,
        },
{
    images_of(gunzip_if_needed(data))
}

/// Parses an uncompressed labels buffer.
pub fn parse_idx_labels(raw: &[u8]) -> (r: Result<Vec<u8>, IdxFault>)
    ensures
        match r {
            Ok(labels) => labels_in(raw@) == Ok::<Seq<u8>, IdxFault>(labels@),
            Err(e) => labels_in(raw@) == Err::<Seq<u8>, IdxFault>(e),
        },
{
    if raw.len() < 8 {
        return Err(IdxFault::LabelsHeader);
    }
    let magic: u32 = be_u32(raw, 0);
    if magic != IDX_MAGIC_LABELS {
        return Err(IdxFault::LabelsMagic(magic));
    }
    let n: usize = be_u32(raw, 4) as usize;
    if n > raw.len() - 8 || n > MAX_ELEMS {
        return Err(IdxFault::LabelsPayload);
    }
    Ok(copy_slice(raw, 8, 8 + n))
}

/// Whether a result is that of parsing an uncompressed labels buffer.
pub open spec fn labels_result(raw: Seq<u8>, r: Result<Vec<u8>, IdxError>) -> bool {
    match r {
        Ok(labels) => labels_in(raw) == Ok::<Seq<u8>, IdxFault>(labels@),
        Err(IdxError::Format(fault)) => labels_in(raw) == Err::<Seq<u8>, IdxFault>(fault),
        Err(IdxError::Gunzip(_)) => false,
    }
}

/// Parses a labels buffer that was read or decompressed; an error of that passes through.
pub fn labels_of(unpacked: Result<Vec<u8>, std::io::Error>) -> (r: Result<Vec<u8>, IdxError>)
    ensures
        match unpacked {
            Ok(raw) => labels_result(raw@, r),
            Err(e) => r == Err::<Vec<u8>, IdxError>(IdxError::Gunzip(e)),
        },
{
    match unpacked {
        Ok(raw) => match parse_idx_labels(raw.as_slice()) {
            Ok(labels) => Ok(labels),
            Err(fault) => Err(IdxError::Format(fault)),
        },
        Err(e) => Err(IdxError::Gunzip(e)),
    }
}

/// Parses a labels buffer, plain or gzipped.
pub fn read_idx_labels(data: &[u8]) -> (r: Result<Vec<u8>, IdxError>)
    ensures
        match unpacked(data@) {
            Some(raw) => labels_result(raw, r),
            None => r is Err && r->Err_0 is Gunzip,
        },
{
    labels_of(gunzip_if_needed(data))
}

// ---------------------------------------------------------------------------
// Laws
// ---------------------------------------------------------------------------
/// An images file.
pub open spec fn images_file(n: u32, rows: u32, cols: u32, pixels: Seq<u8>) -> Seq<u8> {
    be_bytes(IDX_MAGIC_IMAGES) + be_bytes(n) + be_bytes(rows) + be_bytes(cols) + pixels
}

/// A labels file.
pub open spec fn labels_file(n: u32, labels: Seq<u8>) -> Seq<u8> {
    be_bytes(IDX_MAGIC_LABELS) + be_bytes(n) + labels
}

/// Reading an images file gives back what it was written from.
pub proof fn images_round_trip(n: u32, rows: u32, cols: u32, pixels: Seq<u8>)
    requires
        pixels.len() == n * (rows * cols),
        rows * cols <= usize::MAX,
        pixels.len() <= MAX_ELEMS,
    ensures
        images_in(images_file(n, rows, cols, pixels)) == Ok::<(Seq<u8>, nat, nat), IdxFault>(
            (pixels, n as nat, (rows * cols) as nat),
        ),
        unpacked(images_file(n, rows, cols, pixels)) == Some(images_file(n, rows, cols, pixels)),
{
    let file = images_file(n, rows, cols, pixels);
    let m = be_bytes(IDX_MAGIC_IMAGES);
    be_round_trip(
        Seq::empty(),
        IDX_MAGIC_IMAGES,
        be_bytes(n) + be_bytes(rows) + be_bytes(cols) + pixels,
    );
    assert(Seq::<u8>::empty() + m + (be_bytes(n) + be_bytes(rows) + be_bytes(cols) + pixels)
        =~= file);
    be_round_trip(m, n, be_bytes(rows) + be_bytes(cols) + pixels);
    assert(m + be_bytes(n) + (be_bytes(rows) + be_bytes(cols) + pixels) =~= file);
    be_round_trip(m + be_bytes(n), rows, be_bytes(cols) + pixels);
    assert(m + be_bytes(n) + be_bytes(rows) + (be_bytes(cols) + pixels) =~= file);
    be_round_trip(m + be_bytes(n) + be_bytes(rows), cols, pixels);
    assert(file.subrange(16, file.len() as int) =~= pixels);
    assert(file[0] == m[0]);
}

/// Reading a labels file gives back what it was written from.
pub proof fn labels_round_trip(n: u32, labels: Seq<u8>)
    requires
        labels.len() == n,
        n <= MAX_ELEMS,
    ensures
        labels_in(labels_file(n, labels)) == Ok::<Seq<u8>, IdxFault>(labels),
        unpacked(labels_file(n, labels)) == Some(labels_file(n, labels)),
{
    let file = labels_file(n, labels);
    let m = be_bytes(IDX_MAGIC_LABELS);
    be_round_trip(Seq::empty(), IDX_MAGIC_LABELS, be_bytes(n) + labels);
    assert(Seq::<u8>::empty() + m + (be_bytes(n) + labels) =~= file);
    be_round_trip(m, n, labels);
    assert(file.subrange(8, file.len() as int) =~= labels);
    assert(file[0] == m[0]);
}

/// Whatever an images file is followed by is ignored, and the pixels are exactly as many as
/// announced.
pub proof fn images_have_announced_size(raw: Seq<u8>)
    requires
        images_in(raw) is Ok,
    ensures
        ({
            let (pixels, n, per) = images_in(raw)->Ok_0;
            pixels.len() == n * per && pixels.len() <= MAX_ELEMS && pixels.len() + 16 <= raw.len()
        }),
{
    assert(be_value(raw, 4) * (be_value(raw, 8) * be_value(raw, 12)) >= 0) by (nonlinear_arith)
        requires
            be_value(raw, 4) >= 0,
            be_value(raw, 8) >= 0,
            be_value(raw, 12) >= 0,
    ;
}

} // verus!
