use nk2_extract::byte_reader::ByteReader;
use nk2_extract::contact::{csv_header, csv_record, fix_name, parse_contact, parse_contacts, Contact};
use nk2_extract::errors::DecodeError;
use nk2_extract::nk2_data_parser::{
    check_max_array_len, parse_ansi_string, parse_ansi_string_arrays, parse_binary,
    parse_binary_arrays, parse_unicode_string, parse_unicode_string_arrays, read_all_rows, read_file_data,
    read_property, read_row,
};
use nk2_extract::nk2_definitions::{
    parse_property_type, Nk2Property, Nk2PropertyData, Nk2PropertyType, Nk2Row, PR_DISPLAY_NAME_W,
    PR_EMAIL_ADDRESS_W, PR_NICK_NAME_W, PR_NICK_NAME_WEIGHT, PR_SMTP_ADDRESS_W,
};

fn le32(v: u32) -> Vec<u8> {
    v.to_le_bytes().to_vec()
}

fn header(tag: u32, scalar: [u8; 8]) -> Vec<u8> {
    let mut out = Vec::new();
    out.extend_from_slice(&((tag & 0xFFFF) as u16).to_le_bytes());
    out.extend_from_slice(&((tag >> 16) as u16).to_le_bytes());
    out.extend(le32(0));
    out.extend_from_slice(&scalar);
    out
}

fn utf16z(text: &str) -> Vec<u8> {
    let mut payload: Vec<u8> = text.encode_utf16().flat_map(|u| u.to_le_bytes()).collect();
    payload.extend([0, 0]);
    let mut out = le32(payload.len() as u32);
    out.extend(payload);
    out
}

fn unicode_prop(tag: u32, text: &str) -> Vec<u8> {
    let mut out = header(tag, [0; 8]);
    out.extend(utf16z(text));
    out
}

fn i4_prop(tag: u32, v: i32) -> Vec<u8> {
    let b = v.to_le_bytes();
    header(tag, [b[0], b[1], b[2], b[3], 0, 0, 0, 0])
}

fn row_bytes(props: &[Vec<u8>]) -> Vec<u8> {
    let mut out = le32(props.len() as u32);
    for p in props {
        out.extend(p.iter());
    }
    out
}

fn row_of(props: &[Vec<u8>]) -> Nk2Row {
    let mut rd = ByteReader::new(row_bytes(props));
    read_row(&mut rd).unwrap()
}

fn text_property(tag: u32, text: &str) -> Nk2Property {
    Nk2Property {
        property_type: Nk2PropertyType::PtUnicode,
        property_tag: tag,
        reserved_data: 0,
        value_union: [0; 8],
        value: Nk2PropertyData::Text(text.to_string()),
    }
}

#[test]
fn property_type_codes_resolve() {
    assert!(matches!(parse_property_type(0x001F), Ok(Nk2PropertyType::PtUnicode)));
    assert!(matches!(parse_property_type(0x0102), Ok(Nk2PropertyType::PtBinary)));
    assert!(matches!(parse_property_type(0x1102), Ok(Nk2PropertyType::PtMvBinary)));
    assert!(matches!(parse_property_type(0x101E), Ok(Nk2PropertyType::PtMvString8)));
    assert!(matches!(parse_property_type(0x0000), Ok(Nk2PropertyType::PtUnspecified)));
}

#[test]
fn unknown_property_type_carries_code() {
    match parse_property_type(0x0008) {
        Err(e) => assert_eq!(e.0, 0x0008),
        Ok(_) => panic!("accepted an unknown code"),
    }
    match parse_property_type(0x1003) {
        Err(e) => assert_eq!(e.0, 0x1003),
        Ok(_) => panic!("accepted an unknown code"),
    }
}

#[test]
fn ansi_terminator_dropped() {
    let mut data = le32(4);
    data.extend(b"Bob\0");
    let mut rd = ByteReader::new(data);
    assert_eq!(parse_ansi_string(&mut rd).unwrap(), "Bob");
    assert_eq!(rd.pos, 8);
}

#[test]
fn ansi_decodes_windows_1252() {
    let mut data = le32(2);
    data.extend([0x80, 0xE9]);
    let mut rd = ByteReader::new(data);
    assert_eq!(parse_ansi_string(&mut rd).unwrap(), "\u{20AC}\u{E9}");
}

#[test]
fn unicode_terminator_dropped() {
    let mut rd = ByteReader::new(utf16z("Jäne"));
    assert_eq!(parse_unicode_string(&mut rd).unwrap(), "Jäne");
    assert_eq!(rd.pos, 4 + 10);
}

#[test]
fn unicode_without_terminator_kept() {
    let mut data = le32(2);
    data.extend([0x41, 0x00]);
    let mut rd = ByteReader::new(data);
    assert_eq!(parse_unicode_string(&mut rd).unwrap(), "A");
}

#[test]
fn text_over_limit_is_too_much_data() {
    let mut data = le32(10_001);
    data.extend(vec![b'a'; 20]);
    let mut rd = ByteReader::new(data);
    match parse_ansi_string(&mut rd) {
        Err(DecodeError::TooMuchData(e)) => {
            assert_eq!(e.0, "ANSI String");
            assert_eq!(e.1, 10_001);
            assert_eq!(e.2, 10_000);
        },
        _ => panic!("expected too much data"),
    }
    assert_eq!(rd.pos, 4);
}

#[test]
fn text_at_limit_reads_payload() {
    let mut data = le32(10_000);
    data.extend(vec![b'a'; 10_000]);
    let mut rd = ByteReader::new(data);
    assert_eq!(parse_ansi_string(&mut rd).unwrap().len(), 10_000);
}

#[test]
fn unicode_over_limit_is_too_much_data() {
    let mut rd = ByteReader::new(le32(10_002));
    assert!(matches!(parse_unicode_string(&mut rd), Err(DecodeError::TooMuchData(_))));
    assert_eq!(rd.pos, 4);
}

#[test]
fn binary_over_limit_is_too_much_data() {
    let mut rd = ByteReader::new(le32(2_000_001));
    match parse_binary(&mut rd) {
        Err(DecodeError::TooMuchData(e)) => {
            assert_eq!(e.0, "Byte array");
            assert_eq!(e.2, 2_000_000);
        },
        _ => panic!("expected too much data"),
    }
    assert_eq!(rd.pos, 4);
}

#[test]
fn arrays_over_limit_are_too_much_data() {
    let mut rd = ByteReader::new(le32(500_001));
    assert!(matches!(parse_binary_arrays(&mut rd), Err(DecodeError::TooMuchData(_))));
    assert_eq!(rd.pos, 4);
    let mut rd = ByteReader::new(le32(500_001));
    assert!(matches!(parse_ansi_string_arrays(&mut rd), Err(DecodeError::TooMuchData(_))));
    assert_eq!(rd.pos, 4);
    let mut rd = ByteReader::new(le32(500_001));
    assert!(matches!(parse_unicode_string_arrays(&mut rd), Err(DecodeError::TooMuchData(_))));
    assert_eq!(rd.pos, 4);
}

#[test]
fn check_max_array_len_bounds() {
    assert!(check_max_array_len("x", 5, 5).is_ok());
    let e = check_max_array_len("x", 6, 5).unwrap_err();
    assert_eq!((e.0.as_str(), e.1, e.2), ("x", 6, 5));
}

#[test]
fn binary_and_arrays_decode() {
    let mut data = le32(2);
    data.extend(le32(1));
    data.push(7);
    data.extend(le32(2));
    data.extend([8, 9]);
    let mut rd = ByteReader::new(data);
    assert_eq!(parse_binary_arrays(&mut rd).unwrap(), vec![vec![7], vec![8, 9]]);
    let mut data = le32(2);
    data.extend(utf16z("a"));
    data.extend(utf16z("bc"));
    let mut rd = ByteReader::new(data);
    assert_eq!(parse_unicode_string_arrays(&mut rd).unwrap(), vec!["a".to_string(), "bc".to_string()]);
}

#[test]
fn short_payload_is_unexpected_end() {
    let mut data = le32(5);
    data.extend(b"ab");
    let mut rd = ByteReader::new(data);
    assert!(matches!(parse_binary(&mut rd), Err(DecodeError::UnexpectedEnd(4))));
}

#[test]
fn property_header_and_payload() {
    let mut rd = ByteReader::new(unicode_prop(PR_DISPLAY_NAME_W, "Jane"));
    let p = read_property(&mut rd).unwrap();
    assert_eq!(p.property_tag, PR_DISPLAY_NAME_W);
    assert!(matches!(p.property_type, Nk2PropertyType::PtUnicode));
    assert_eq!(p.value.to_text(), "Jane");
}

#[test]
fn property_with_unknown_type_fails() {
    let mut rd = ByteReader::new(header(0x3001_0999, [0; 8]));
    assert!(matches!(read_property(&mut rd), Err(DecodeError::InvalidPropertyType(e)) if e.0 == 0x0999));
    assert_eq!(rd.pos, 2);
}

#[test]
fn clsid_is_sixteen_bytes() {
    let mut data = header(0x0001_0048, [0; 8]);
    data.extend(1..=16u8);
    let mut rd = ByteReader::new(data);
    let p = read_property(&mut rd).unwrap();
    assert_eq!(p.value.to_text(), "[1, 2, 3, 4, 5, 6, 7, 8, 9, 10, 11, 12, 13, 14, 15, 16]");
    assert_eq!(rd.pos, 32);
}

#[test]
fn weight_is_signed() {
    let mut rd = ByteReader::new(i4_prop(PR_NICK_NAME_WEIGHT, -3));
    let p = read_property(&mut rd).unwrap();
    assert_eq!(p.decode_value_as_long(), -3);
    assert_eq!(p.value.to_text(), "empty");
}

#[test]
fn data_text_renderings() {
    assert_eq!(Nk2PropertyData::Empty.to_text(), "empty");
    assert_eq!(Nk2PropertyData::BytesList(vec![vec![1], vec![]]).to_text(), "BList: [[1], []]");
    assert_eq!(Nk2PropertyData::TextList(vec!["a".to_string()]).to_text(), "TList: [\"a\"]");
}

#[test]
fn round_trip_contact() {
    let row = row_of(&[
        unicode_prop(PR_NICK_NAME_W, "jane"),
        unicode_prop(PR_DISPLAY_NAME_W, "Jane Doe"),
        unicode_prop(PR_EMAIL_ADDRESS_W, "/o=Org/cn=jane"),
        unicode_prop(PR_SMTP_ADDRESS_W, "jane@example.com"),
        i4_prop(PR_NICK_NAME_WEIGHT, 5),
    ]);
    let c = parse_contact(&row).unwrap();
    assert_eq!(c.name, "Jane Doe");
    assert_eq!(c.email, "jane@example.com");
    assert_eq!(c.server_email, "/o=Org/cn=jane");
    assert_eq!(c.weight, Some(5));
}

#[test]
fn name_trimming() {
    assert_eq!(fix_name("'Bob'"), "Bob");
    assert_eq!(fix_name("'Bob"), "Bob");
    assert_eq!(fix_name("Bob'"), "Bob");
    assert_eq!(fix_name("Bob"), "Bob");
    assert_eq!(fix_name("'"), "");
    assert_eq!(fix_name("''"), "");
    assert_eq!(fix_name("'Zoë'"), "Zoë");
}

#[test]
fn row_without_name_skipped() {
    let good = Nk2Row {
        properties: vec![
            text_property(PR_DISPLAY_NAME_W, "A"),
            text_property(PR_EMAIL_ADDRESS_W, "a@x"),
        ],
    };
    let bad = Nk2Row { properties: vec![text_property(PR_EMAIL_ADDRESS_W, "b@x")] };
    let good2 = Nk2Row {
        properties: vec![
            text_property(PR_EMAIL_ADDRESS_W, "c@x"),
            text_property(PR_DISPLAY_NAME_W, "C"),
        ],
    };
    match parse_contact(&bad) {
        Err(e) => assert_eq!(e.0, PR_DISPLAY_NAME_W),
        Ok(_) => panic!("row without a name gave a contact"),
    }
    let contacts = parse_contacts(&vec![good, bad, good2]);
    let names: Vec<&str> = contacts.iter().map(|c| c.name.as_str()).collect();
    assert_eq!(names, vec!["A", "C"]);
}

#[test]
fn row_without_recipient_fails() {
    let row = Nk2Row { properties: vec![text_property(PR_DISPLAY_NAME_W, "A")] };
    match parse_contact(&row) {
        Err(e) => assert_eq!(e.0, PR_EMAIL_ADDRESS_W),
        Ok(_) => panic!("row without a recipient gave a contact"),
    }
}

#[test]
fn smtp_fallback() {
    let row = row_of(&[
        unicode_prop(PR_DISPLAY_NAME_W, "Bob"),
        unicode_prop(PR_EMAIL_ADDRESS_W, "bob@example.com"),
    ]);
    let c = parse_contact(&row).unwrap();
    assert_eq!(c.email, "bob@example.com");
    assert_eq!(c.email, c.server_email);
    assert_eq!(c.weight, None);
}

#[test]
fn truncated_file_stops_at_first_short_read() {
    let mut data = vec![0u8; 12];
    data.extend(le32(3));
    data.extend(row_bytes(&[unicode_prop(PR_DISPLAY_NAME_W, "A")]));
    let full = data.len();
    let mut rd = ByteReader::new(data);
    rd.read_bytes(12).unwrap();
    match read_all_rows(&mut rd) {
        Err(DecodeError::UnexpectedEnd(o)) => assert_eq!(o, full),
        _ => panic!("expected a short read"),
    }
    assert_eq!(rd.pos, full);
}

#[test]
fn whole_file_decodes() {
    let mut data = vec![0u8; 12];
    data.extend(le32(2));
    data.extend(row_bytes(&[unicode_prop(PR_DISPLAY_NAME_W, "A"), unicode_prop(PR_EMAIL_ADDRESS_W, "a@x")]));
    data.extend(row_bytes(&[]));
    let mut rd = ByteReader::new(data);
    rd.read_bytes(12).unwrap();
    let rows = read_all_rows(&mut rd).unwrap();
    assert_eq!(rows.len(), 2);
    assert_eq!(parse_contacts(&rows).len(), 1);
}

fn csv_text(contacts: &[Contact]) -> String {
    let mut w = csv::WriterBuilder::new()
        .double_quote(true)
        .terminator(csv::Terminator::CRLF)
        .from_writer(Vec::new());
    w.write_record(csv_header()).unwrap();
    for c in contacts {
        w.write_record(csv_record(c)).unwrap();
    }
    String::from_utf8(w.into_inner().unwrap()).unwrap()
}

#[test]
fn csv_without_weight() {
    let c = Contact {
        name: "Bob".to_string(),
        email: "bob@example.com".to_string(),
        server_email: "bob@example.com".to_string(),
        weight: None,
    };
    assert_eq!(csv_text(&[c]), "name,email,server_email,weight\r\nBob,bob@example.com,bob@example.com,?\r\n");
}

#[test]
fn csv_weight_is_decimal() {
    let c = Contact { name: "A, B".to_string(), email: "e".to_string(), server_email: "s".to_string(), weight: Some(-12) };
    assert_eq!(csv_record(&c), vec!["A, B", "e", "s", "-12"]);
    assert_eq!(csv_text(&[c]), "name,email,server_email,weight\r\n\"A, B\",e,s,-12\r\n");
}

#[test]
fn file_shorter_than_header_fails() {
    let mut rd = ByteReader::new(vec![0u8; 11]);
    assert!(matches!(read_file_data(&mut rd), Err(DecodeError::UnexpectedEnd(0))));
    assert_eq!(rd.pos, 0);
    let mut rd = ByteReader::new(vec![0u8; 14]);
    assert!(matches!(read_file_data(&mut rd), Err(DecodeError::UnexpectedEnd(12))));
    assert_eq!(rd.pos, 12);
}

#[test]
fn file_with_missing_rows_gives_no_rows() {
    let mut data = vec![0u8; 12];
    data.extend(le32(2));
    data.extend(row_bytes(&[]));
    let mut rd = ByteReader::new(data);
    match read_file_data(&mut rd) {
        Err(DecodeError::UnexpectedEnd(o)) => assert_eq!(o, 20),
        _ => panic!("expected the rows to stop at a short read"),
    }
    assert_eq!(rd.pos, 20);
}

#[test]
fn ansi_leading_bom_is_text() {
    let mut data = le32(4);
    data.extend([0xEF, 0xBB, 0xBF, 0x41]);
    let mut rd = ByteReader::new(data);
    assert_eq!(parse_ansi_string(&mut rd).unwrap(), "\u{EF}\u{BB}\u{BF}A");
}
