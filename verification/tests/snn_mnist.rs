use std::io::Write;

use flate2::write::GzEncoder;
use flate2::Compression;
use hyperscalees::snn_mnist::{
    be_u32, gunzip_if_needed, images_of, labels_of, parse_idx_images, parse_idx_labels,
    read_idx_images, read_idx_labels, IdxError, IdxFault, IDX_IMAGES, IDX_LABELS, IDX_MAGIC_IMAGES,
    IDX_MAGIC_LABELS,
};

fn idx_images_bytes(n: u32, rows: u32, cols: u32, payload: &[u8]) -> Vec<u8> {
    let mut buf = Vec::new();
    buf.extend_from_slice(&IDX_MAGIC_IMAGES.to_be_bytes());
    buf.extend_from_slice(&n.to_be_bytes());
    buf.extend_from_slice(&rows.to_be_bytes());
    buf.extend_from_slice(&cols.to_be_bytes());
    buf.extend_from_slice(payload);
    buf
}

fn idx_labels_bytes(n: u32, payload: &[u8]) -> Vec<u8> {
    let mut buf = Vec::new();
    buf.extend_from_slice(&IDX_MAGIC_LABELS.to_be_bytes());
    buf.extend_from_slice(&n.to_be_bytes());
    buf.extend_from_slice(payload);
    buf
}

fn gzip(raw: &[u8]) -> Vec<u8> {
    let mut gz = GzEncoder::new(Vec::new(), Compression::default());
    gz.write_all(raw).unwrap();
    gz.finish().unwrap()
}

fn normalized(pixels: &[u8]) -> Vec<f32> {
    pixels.iter().map(|&p| p as f32 / 255.0).collect()
}

#[test]
fn reads_plain_idx_images() {
    let pixels: [u8; 8] = [0, 64, 128, 255, 1, 2, 3, 4];
    let data = idx_images_bytes(2, 2, 2, &pixels);

    let (bytes, n, per) = read_idx_images(&data).unwrap();
    let values = normalized(&bytes);
    assert_eq!(n, 2);
    assert_eq!(per, 4);
    assert_eq!(values.len(), 8);
    let expected = [
        0.0 / 255.0,
        64.0 / 255.0,
        128.0 / 255.0,
        255.0 / 255.0,
        1.0 / 255.0,
        2.0 / 255.0,
        3.0 / 255.0,
        4.0 / 255.0,
    ];
    assert_eq!(values, expected);
}

#[test]
fn reads_plain_idx_labels() {
    let data = idx_labels_bytes(2, &[1, 7]);
    assert_eq!(read_idx_labels(&data).unwrap(), vec![1_u8, 7]);
}

#[test]
fn rejects_bad_magic() {
    let mut data = idx_images_bytes(1, 1, 1, &[42]);
    data[0] = 0x99;
    assert!(read_idx_images(&data).is_err());

    let mut ldata = idx_labels_bytes(1, &[5]);
    ldata[3] = 0x55;
    assert!(read_idx_labels(&ldata).is_err());
}

#[test]
fn reads_gzipped_idx_images() {
    let pixels: [u8; 8] = [0, 64, 128, 255, 1, 2, 3, 4];
    let compressed = gzip(&idx_images_bytes(2, 2, 2, &pixels));

    assert!(compressed.starts_with(&[0x1f, 0x8b]));

    let (bytes, n, per) = read_idx_images(&compressed).unwrap();
    assert_eq!((n, per), (2, 4));
    assert_eq!(
        normalized(&bytes),
        [0.0 / 255.0, 64.0 / 255.0, 128.0 / 255.0, 255.0 / 255.0,
         1.0 / 255.0, 2.0 / 255.0, 3.0 / 255.0, 4.0 / 255.0]
    );
}

#[test]
fn reads_gzipped_idx_labels() {
    let compressed = gzip(&idx_labels_bytes(2, &[1, 7]));
    assert_eq!(read_idx_labels(&compressed).unwrap(), vec![1_u8, 7]);
}

#[test]
fn gunzip_decompresses_only_what_starts_like_gzip() {
    let raw = vec![5_u8, 6, 7, 8];
    assert_eq!(gunzip_if_needed(&raw).unwrap(), raw);
    assert_eq!(gunzip_if_needed(&gzip(&raw)).unwrap(), raw);
    assert!(gunzip_if_needed(&[]).unwrap().is_empty());
    assert!(gunzip_if_needed(&[0x1f, 0x8b, 0, 0]).is_err());
}

fn decoder_fault<T>(r: Result<T, IdxError>) -> std::io::Error {
    match r {
        Err(IdxError::Gunzip(e)) => e,
        _ => panic!("the decoder did not fail"),
    }
}

#[test]
fn the_decoder_error_is_kept() {
    let cut = [0x1f_u8, 0x8b, 8, 0];
    let told = gunzip_if_needed(&cut).unwrap_err();
    assert_eq!(told.kind(), std::io::ErrorKind::UnexpectedEof);
    let images = decoder_fault(read_idx_images(&cut));
    let labels = decoder_fault(read_idx_labels(&cut));
    for e in [images, labels] {
        assert_eq!((e.kind(), e.to_string()), (told.kind(), told.to_string()));
    }
    let other = || Err(std::io::Error::new(std::io::ErrorKind::NotFound, "no file"));
    assert_eq!(decoder_fault(images_of(other())).to_string(), "no file");
    assert_eq!(decoder_fault(labels_of(other())).to_string(), "no file");
    let raw = idx_labels_bytes(2, &[1, 7]);
    assert_eq!(labels_of(Ok(raw.clone())).unwrap(), vec![1, 7]);
    assert_eq!(fault_of(images_of(Ok(raw))), IdxFault::ImagesHeader);
}

fn fault_of<T>(r: Result<T, IdxError>) -> IdxFault {
    match r {
        Err(IdxError::Format(fault)) => fault,
        _ => panic!("the format is not at fault"),
    }
}

#[test]
fn every_images_fault_is_told() {
    assert_eq!(fault_of(read_idx_images(&[0; 15])), IdxFault::ImagesHeader);
    let mut data = idx_images_bytes(1, 1, 1, &[42]);
    data[3] = 0x01;
    assert_eq!(fault_of(read_idx_images(&data)), IdxFault::ImagesMagic(0x801));
    let huge = idx_images_bytes(u32::MAX, u32::MAX, 1, &[]);
    assert_eq!(fault_of(read_idx_images(&huge)), IdxFault::ImagesSize);
    let short = idx_images_bytes(2, 2, 2, &[0; 7]);
    assert_eq!(parse_idx_images(&short), Err(IdxFault::ImagesPayload));
    // Bytes behind the payload are ignored.
    let long = idx_images_bytes(1, 1, 2, &[9, 8, 7]);
    assert_eq!(parse_idx_images(&long), Ok((vec![9, 8], 1, 2)));
}

#[test]
fn every_labels_fault_is_told() {
    assert_eq!(fault_of(read_idx_labels(&[0; 7])), IdxFault::LabelsHeader);
    let mut data = idx_labels_bytes(1, &[42]);
    data[3] = 0x03;
    assert_eq!(fault_of(read_idx_labels(&data)), IdxFault::LabelsMagic(0x803));
    assert_eq!(parse_idx_labels(&idx_labels_bytes(3, &[1, 2])), Err(IdxFault::LabelsPayload));
    assert_eq!(parse_idx_labels(&idx_labels_bytes(1, &[1, 2])), Ok(vec![1]));
}

#[test]
fn faults_have_words() {
    assert_eq!(
        IdxFault::ImagesMagic(0x99000803).message(),
        "expected images magic 0x803, got 0x99000803"
    );
    assert_eq!(IdxFault::LabelsMagic(0).message(), "expected labels magic 0x801, got 0x0");
    assert_eq!(IdxFault::RowsTimesCols.message(), "rows * cols overflow");
    assert_eq!(IdxFault::LabelsPayload.message(), "labels payload underflow");
}

#[test]
fn big_endian_words() {
    assert_eq!(be_u32(&[9, 0x12, 0x34, 0x56, 0x78], 1), 0x12345678);
    assert_eq!(be_u32(&0xfffe_0001_u32.to_be_bytes(), 0), 0xfffe_0001);
}

#[test]
fn standard_file_names() {
    assert_eq!(IDX_IMAGES[0], ("train", "train-images-idx3-ubyte.gz"));
    assert_eq!(IDX_LABELS[1], ("test", "t10k-labels-idx1-ubyte.gz"));
}
