use bkupman::filename::{
    fragment_name, is_sidecar_name, sidecar_name, split_filename, stored_name, FilenameError,
};

#[test]
fn test_split_filename() {
    let (a, b, c) = split_filename("hello-world-_-_-20240101.tar.bz2").unwrap();
    assert_eq!(a, "hello-world");
    assert_eq!(b, "20240101");
    assert_eq!(c, "tar.bz2");

    let (a, b, c) = split_filename("testfile-00000_20240613165945.bin").unwrap();
    assert_eq!(a, "testfile-00000");
    assert_eq!(b, "20240613165945");
    assert_eq!(c, "bin");

    let r = split_filename(".gitignore");
    assert!(r.is_err());

    let r = split_filename("----20240101.tar.bz2");
    assert!(r.is_err());
}

#[test]
fn split_filename_refusals() {
    assert_eq!(split_filename("report.txt"), Err(FilenameError::InvalidFileName));
    assert_eq!(split_filename("report-20240601"), Err(FilenameError::InvalidFileName));
    assert_eq!(split_filename("20240601.txt"), Err(FilenameError::InvalidFileName));
    assert_eq!(split_filename("a.b20240601.txt"), Err(FilenameError::InvalidFileName));
}

#[test]
fn split_filename_refuses_sidecar_names() {
    assert_eq!(split_filename("report-20240601.txt.md5sum"), Err(FilenameError::InvalidFileName));
    assert_eq!(split_filename("report-20240601.md5sum"), Err(FilenameError::InvalidFileName));
    assert_eq!(split_filename("report-20240601.md5sum.txt").unwrap(), ("report", "20240601", "md5sum.txt"));
}

#[test]
fn split_filename_shapes() {
    assert_eq!(
        split_filename("report-20240601.txt").unwrap(),
        ("report", "20240601", "txt")
    );
    assert_eq!(split_filename("name_20240101120000.bin").unwrap(), ("name", "20240101120000", "bin"));
    assert_eq!(split_filename("x1.").unwrap(), ("x", "1", ""));
    assert_eq!(split_filename("db-20240101.sql.gz").unwrap(), ("db", "20240101", "sql.gz"));
    assert_eq!(split_filename("ab-20240101.t\nx").unwrap(), ("ab", "20240101", "t\nx"));
}

#[test]
fn sidecar_and_stored_names() {
    assert!(is_sidecar_name("report-20240601.txt.md5sum"));
    assert!(!is_sidecar_name(".md5sum"));
    assert!(!is_sidecar_name("report-20240601.txt"));
    assert_eq!(sidecar_name("a_1.txt"), "a_1.txt.md5sum");
    assert_eq!(stored_name("report", "20240601", "txt"), "report_20240601.txt");
}

#[test]
fn fragment_names_are_zero_padded() {
    assert_eq!(fragment_name("a_1.bin", 0), "a_1.bin.000000");
    assert_eq!(fragment_name("a_1.bin", 42), "a_1.bin.000042");
    assert_eq!(fragment_name("a_1.bin", 1234567), "a_1.bin.1234567");
}
