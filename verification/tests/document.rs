use mcc::{Error, TimeCode, TimeCodeFormat, MCC};

fn minimal_header() -> String {
    String::from("File Format=MCC V1.0\n")
        + "UUID=1234\n"
        + "Creation Program=test\n"
        + "Creation Date=2020-01-01\n"
        + "Creation Time=00:00:00\n"
        + "Time Code Rate=24\n"
}

#[test]
fn end_to_end_minimal_file() {
    let text = minimal_header() + "00:00:00:00\tG";
    let doc = MCC::from_str(&text).unwrap();
    assert_eq!(doc.header().format, "MCC V1.0");
    assert_eq!(doc.header().uuid, "1234");
    assert_eq!(doc.header().creation_program, "test");
    assert_eq!(doc.header().creation_date, "2020-01-01");
    assert_eq!(doc.header().creation_time, "00:00:00");
    assert_eq!(doc.header().timecode_format, TimeCodeFormat::Fps24);
    assert_eq!(doc.lines().len(), 1);
    assert_eq!(doc.lines()[0].data, vec![0xFA, 0x00, 0x00]);
    assert_eq!(
        doc.lines()[0].timecode,
        TimeCode {
            hour: 0,
            minute: 0,
            second: 0,
            frame: 0
        }
    );
}

#[test]
fn header_fields_are_taken_verbatim() {
    let text = String::from("File Format=\n")
        + "\n"
        + "// a comment line\n"
        + "////////\n"
        + "\n"
        + "UUID=d82b5e94  with spaces\n"
        + "Creation Program=prog=with=equals\n"
        + "Creation Date= leading space\n"
        + "Creation Time=trailing space \n"
        + "Time Code Rate=30DF\n";
    let doc = MCC::from_str(&text).unwrap();
    assert_eq!(doc.header().format, "");
    assert_eq!(doc.header().uuid, "d82b5e94  with spaces");
    assert_eq!(doc.header().creation_program, "prog=with=equals");
    assert_eq!(doc.header().creation_date, " leading space");
    assert_eq!(doc.header().creation_time, "trailing space ");
    assert_eq!(
        doc.header().timecode_format,
        TimeCodeFormat::Fps30DropFrame
    );
    assert_eq!(doc.lines().len(), 0);
}

#[test]
fn crlf_line_endings_are_accepted() {
    let text = "File Format=MCC V1.0\r\nUUID=1\r\nCreation Program=p\r\nCreation Date=d\r\nCreation Time=t\r\nTime Code Rate=60\r\n01:02:03:04\tZ\r\n";
    let doc = MCC::from_str(text).unwrap();
    assert_eq!(doc.header().timecode_format, TimeCodeFormat::Fps60);
    assert_eq!(doc.lines().len(), 1);
    assert_eq!(doc.lines()[0].data, vec![0x00]);
}

#[test]
fn missing_field_is_a_parse_error() {
    let text = String::from("File Format=MCC V1.0\n")
        + "UUID=1234\n"
        + "Creation Program=test\n"
        + "Creation Time=00:00:00\n"
        + "Time Code Rate=24\n";
    let err = MCC::from_str(&text).unwrap_err();
    assert!(matches!(err, Error::ParseError(_)));
}

#[test]
fn fields_out_of_order_are_a_parse_error() {
    let text = String::from("File Format=MCC V1.0\n")
        + "Creation Program=test\n"
        + "UUID=1234\n"
        + "Creation Date=2020-01-01\n"
        + "Creation Time=00:00:00\n"
        + "Time Code Rate=24\n";
    let err = MCC::from_str(&text).unwrap_err();
    assert!(matches!(err, Error::ParseError(_)));
}

#[test]
fn unknown_rate_token_is_a_parse_error() {
    let text = String::from("File Format=MCC V1.0\n")
        + "UUID=1234\n"
        + "Creation Program=test\n"
        + "Creation Date=2020-01-01\n"
        + "Creation Time=00:00:00\n"
        + "Time Code Rate=26\n";
    assert!(matches!(
        MCC::from_str(&text),
        Err(Error::ParseError(_))
    ));
}

#[test]
fn unterminated_rate_line_is_a_parse_error() {
    let text = String::from("File Format=MCC V1.0\n")
        + "UUID=1234\n"
        + "Creation Program=test\n"
        + "Creation Date=2020-01-01\n"
        + "Creation Time=00:00:00\n"
        + "Time Code Rate=24";
    assert!(matches!(
        MCC::from_str(&text),
        Err(Error::ParseError(_))
    ));
}

#[test]
fn timecode_literal_decodes_and_displays_canonically() {
    let text = minimal_header() + "01:02:03:04\tG\n";
    let doc = MCC::from_str(&text).unwrap();
    let tc = doc.lines()[0].timecode;
    assert_eq!(
        tc,
        TimeCode {
            hour: 1,
            minute: 2,
            second: 3,
            frame: 4
        }
    );
    assert_eq!(tc.display(), "01:02:03;04");
}

#[test]
fn unpadded_timecode_fields_are_accepted() {
    let text = minimal_header() + "1:2:3:456\tZ\n";
    let doc = MCC::from_str(&text).unwrap();
    assert_eq!(
        doc.lines()[0].timecode,
        TimeCode {
            hour: 1,
            minute: 2,
            second: 3,
            frame: 456
        }
    );
}

#[test]
fn bad_payload_fails_the_whole_decode() {
    let text = minimal_header() + "00:00:00:00\t8\n";
    assert!(matches!(
        MCC::from_str(&text),
        Err(Error::ParseError(_))
    ));
}

#[test]
fn malformed_timecode_is_a_parse_error() {
    let bad = [
        "0:0:0\tG\n",
        "0:0:0:a\tG\n",
        "::::\tG\n",
        "0:0:0:0 G\n",
        "0:0:0:0\n",
    ];
    for line in bad {
        let text = minimal_header() + line;
        assert!(matches!(
            MCC::from_str(&text),
            Err(Error::ParseError(_))
        ));
    }
}

#[test]
fn several_caption_lines_keep_file_order() {
    let text = minimal_header() + "0:0:0:1\tS\n\n0:0:0:2\t96\n\n\n0:0:0:3\tT61\n";
    let doc = MCC::from_str(&text).unwrap();
    assert_eq!(doc.lines().len(), 3);
    assert_eq!(doc.lines()[0].data, vec![0x96, 0x69]);
    assert_eq!(doc.lines()[0].timecode.frame, 1);
    assert_eq!(doc.lines()[1].data, vec![0x96]);
    assert_eq!(doc.lines()[1].timecode.frame, 2);
    assert_eq!(doc.lines()[2].data, vec![0x61, 0x01, 0x61]);
    assert_eq!(doc.lines()[2].timecode.frame, 3);
}

#[test]
fn header_alone_is_a_complete_document() {
    let text = minimal_header();
    let doc = MCC::from_str(&text).unwrap();
    assert_eq!(doc.lines().len(), 0);
}

#[test]
fn empty_payload_line_is_accepted() {
    let text = minimal_header() + "0:0:0:0\t\n";
    let doc = MCC::from_str(&text).unwrap();
    assert_eq!(doc.lines().len(), 1);
    assert_eq!(doc.lines()[0].data, Vec::<u8>::new());
}

#[test]
fn empty_input_is_a_parse_error() {
    assert!(matches!(MCC::from_str(""), Err(Error::ParseError(_))));
}

#[test]
fn default_document_is_empty() {
    let m = MCC::default();
    assert_eq!(m.header().format, "");
    assert_eq!(m.header().uuid, "");
    assert_eq!(m.header().timecode_format, TimeCodeFormat::Fps30);
    assert_eq!(m.lines().len(), 0);
    let h = mcc::Header::default();
    assert_eq!(h.creation_program, "");
    assert_eq!(h.timecode_format, TimeCodeFormat::Fps30);
}
