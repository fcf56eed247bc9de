use lanzaboote::cpio::Cpio;

#[test]
fn alignment() {
    let mut cpio = Cpio::new();
    let contents = vec![0xAA; 10];
    let _one_size = cpio
        .pack_one("test.txt", &contents, "", 0o000)
        .expect("Failed to pack a file at the root directory");
    let _trailer_size = cpio
        .pack_trailer()
        .expect("Failed to pack the trailer of the CPIO archive");

    assert!(
        cpio.into_inner().len() % 4 == 0,
        "CPIO is not aligned on a 4 bytes boundary!"
    );
}

/// The name of the first entry of a `newc` archive.
fn first_entry_name(data: &[u8]) -> String {
    let namesize = usize::from_str_radix(std::str::from_utf8(&data[94..102]).unwrap(), 16).unwrap();
    String::from_utf8(data[110..110 + namesize - 1].to_vec()).unwrap()
}

#[test]
fn write_read_prefix() {
    let mut cpio = Cpio::new();
    cpio.pack_prefix("a/b/c/d/e/f", 0o600)
        .expect("Failed to pack prefixes of a directory, including itself");

    let data = cpio.into_inner();
    assert_eq!(&data[0..6], b"070701");
    assert_eq!(first_entry_name(&data), "/a");
}

#[test]
fn write_read_basic() {
    let mut cpio = Cpio::new();
    let contents = vec![0xAA; 10];
    let _one_size = cpio
        .pack_one("test.txt", &contents, "", 0o000)
        .expect("Failed to pack a file at the root directory");
    let _trailer_size = cpio
        .pack_trailer()
        .expect("Failed to pack the trailer of the CPIO archive");

    assert!(
        cpio.into_inner().len() % 4 == 0,
        "CPIO is not aligned on a 4 bytes boundary!"
    );
}
