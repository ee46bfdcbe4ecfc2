use filink::filename::{parse_filename, prepare_filename};

#[test]
fn test_parse_filename() {
    let buffer = *b"TEST    TXT";
    let result = parse_filename(&buffer);
    assert_eq!(result, "test.txt");

    let buffer = *b"EXAMPLE C  ";
    let result = parse_filename(&buffer);
    assert_eq!(result, "example.c");

    let buffer = *b"README     ";
    let result = parse_filename(&buffer);
    assert_eq!(result, "readme");
}

#[test]
fn test_prepare_filename() {
    let result = prepare_filename(b"test.txt");
    assert_eq!(result.as_slice(), b"TEST    TXT");

    let result = prepare_filename(b"verylongname.txt");
    assert_eq!(result.as_slice(), b"VERYLONGTXT");

    let result = prepare_filename(b"readme");
    assert_eq!(result.as_slice(), b"README     ");

    let result = prepare_filename(b"file.html");
    assert_eq!(result.as_slice(), b"FILE    HTM");

    let result = prepare_filename(b"/path/to/file.txt");
    assert_eq!(result.as_slice(), b"FILE    TXT");

    let result = prepare_filename(b"filename.ext");
    assert_eq!(result.as_slice(), b"FILENAMEEXT");

    let result = prepare_filename(b"ab.c");
    assert_eq!(result.as_slice(), b"AB      C  ");

    let result = prepare_filename(b"file.tar.gz");
    assert_eq!(result.as_slice(), b"FILE    TAR");

    let result = prepare_filename(b"file.c.gz");
    assert_eq!(result.as_slice(), b"FILE    C  ");

    let result = prepare_filename(b"MyFile.TxT");
    assert_eq!(result.as_slice(), b"MYFILE  TXT");

    let result = prepare_filename(b"a");
    assert_eq!(result.as_slice(), b"A          ");
}

#[test]
fn test_name_round_trip_concrete() {
    // parse(prepare(p)) is the lowercase 8.3 truncation of p's name.
    let wire = prepare_filename(b"Photo.JPG");
    assert_eq!(parse_filename(&wire), "photo.jpg");

    let wire = prepare_filename(b"/var/log/VeryLongReport.tar.gz");
    assert_eq!(wire.as_slice(), b"VERYLONGTAR");
    assert_eq!(parse_filename(&wire), "verylong.tar");
}
