use std::io::Write;

use gen_completions::parse_man::read::{packing, read_manpage, Packing};

const PAGE: &str = ".SH OPTIONS\n.TP\n\\-a\nAll of it, naïvely.\n";

fn gzip(text: &str) -> Vec<u8> {
    let mut encoder = flate2::write::GzEncoder::new(Vec::new(), flate2::Compression::default());
    encoder.write_all(text.as_bytes()).unwrap();
    encoder.finish().unwrap()
}

fn bzip2(text: &str) -> Vec<u8> {
    let mut encoder = bzip2::write::BzEncoder::new(Vec::new(), bzip2::Compression::default());
    encoder.write_all(text.as_bytes()).unwrap();
    encoder.finish().unwrap()
}

#[test]
fn packing_by_extension() {
    assert_eq!(packing("/usr/share/man/man1/ls.1.gz"), Packing::Gzip);
    assert_eq!(packing("ls.1.bz2"), Packing::Bzip2);
    assert_eq!(packing("ls.1"), Packing::Plain);
    assert_eq!(packing("ls"), Packing::Plain);
    assert_eq!(packing("dir.gz/ls"), Packing::Plain);
    assert_eq!(packing(".gz"), Packing::Plain);
    assert_eq!(packing("ls.GZ"), Packing::Plain);
}

#[test]
fn plain_page() {
    assert_eq!(read_manpage("man1/foo.1", PAGE.as_bytes().to_vec()), Ok(PAGE.to_string()));
    assert_eq!(read_manpage("foo", Vec::new()), Ok(String::new()));
}

#[test]
fn gzipped_page() {
    assert_eq!(read_manpage("man1/foo.1.gz", gzip(PAGE)), Ok(PAGE.to_string()));
    assert_eq!(read_manpage("foo.gz", gzip("")), Ok(String::new()));
}

#[test]
fn bzipped_page() {
    assert_eq!(read_manpage("man1/foo.1.bz2", bzip2(PAGE)), Ok(PAGE.to_string()));
}

#[test]
fn page_that_is_no_text() {
    assert_eq!(
        read_manpage("foo.1", vec![0x66, 0xff, 0x6f]),
        Err("stream did not contain valid UTF-8".to_string())
    );
    assert_eq!(
        read_manpage("foo.1", vec![0xed, 0xa0, 0x80]),
        Err("stream did not contain valid UTF-8".to_string())
    );
    assert!(read_manpage("foo.1.gz", gzip("x").into_iter().chain([0u8]).take(5).collect()).is_err());
}

#[test]
fn page_that_is_not_packed_as_its_name_says() {
    assert!(read_manpage("foo.1.gz", PAGE.as_bytes().to_vec()).is_err());
    assert!(read_manpage("foo.1.bz2", gzip(PAGE)).is_err());
    assert!(read_manpage("foo.1.gz", Vec::new()).is_err());
    assert_eq!(read_manpage("foo.1", gzip(PAGE)).ok(), String::from_utf8(gzip(PAGE)).ok());
}

#[test]
fn packed_bytes_that_are_no_text() {
    let mut encoder = flate2::write::GzEncoder::new(Vec::new(), flate2::Compression::default());
    encoder.write_all(&[0x66, 0xff]).unwrap();
    let bytes = encoder.finish().unwrap();
    assert!(read_manpage("foo.gz", bytes).is_err());
}
