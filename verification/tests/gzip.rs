//! Reading the head of a compressed file.

use std::io::Write;

use awslog_core::gzip::{count_members_in_head, decoded_head, uncompressed_len, usable_head, HEAD_LIMIT};
use flate2::write::GzEncoder;
use flate2::Compression;

fn gzip(bytes: &[u8]) -> Vec<u8> {
    let mut enc = GzEncoder::new(Vec::new(), Compression::fast());
    enc.write_all(bytes).unwrap();
    enc.finish().unwrap()
}

#[test]
fn every_member_of_a_small_file_is_decoded() {
    let mut bytes = gzip(b"first ");
    bytes.extend(gzip(b"second"));

    let (head, cut) = decoded_head("logs/head.gz", &bytes).unwrap();

    assert_eq!(head, b"first second");
    assert!(!cut);
    assert_eq!(count_members_in_head(&bytes), 2);
}

#[test]
fn a_large_file_is_cut_at_the_limit() {
    let bytes = gzip(&vec![b'x'; HEAD_LIMIT * 2]);
    let (head, _) = decoded_head("logs/head.gz", &bytes).unwrap();
    assert_eq!(head.len(), HEAD_LIMIT);
}

#[test]
fn a_file_that_is_no_gzip_is_an_error() {
    let err = decoded_head("logs/head.gz", &b"plain text".to_vec()).unwrap_err();
    assert!(err.message().starts_with("cannot read logs/head.gz: "));
}

#[test]
fn the_trailer_gives_the_length_of_a_single_member() {
    let bytes = gzip(&vec![b'x'; 100_000]);
    let trailer = bytes[bytes.len() - 4..].to_vec();
    assert_eq!(uncompressed_len(&trailer, bytes.len() as u64, 1), Some(100_000));
    // With several members the trailer speaks of the last one only.
    assert_eq!(uncompressed_len(&trailer, bytes.len() as u64, 2), None);
}

#[test]
fn a_cut_off_member_still_leaves_usable_bytes() {
    let fault = || Some("broken".to_owned());
    assert_eq!(usable_head(b"some".to_vec(), fault()), Ok((b"some".to_vec(), true)));
    assert_eq!(usable_head(Vec::new(), fault()), Err("broken".to_owned()));
    assert_eq!(usable_head(b"all".to_vec(), None), Ok((b"all".to_vec(), false)));
    assert_eq!(usable_head(Vec::new(), None), Ok((Vec::new(), false)));

    // A whole member ahead of one that is cut off inside its body.
    let mut bytes = gzip(b"first ");
    let noise: Vec<u8> = (0..200_000u32).map(|i| (i.wrapping_mul(2_654_435_761) >> 13) as u8).collect();
    let second = gzip(&noise);
    bytes.extend(&second[..second.len() / 2]);
    let (head, early) = decoded_head("logs/head.gz", &bytes).unwrap();
    assert!(early);
    assert!(head.starts_with(b"first "));
}
