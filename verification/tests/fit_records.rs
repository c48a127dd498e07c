use allox::fit::parse_definition;
use allox::fit::parse_record;
use allox::fit::FieldDef;
use allox::fit::HeaderError;
use allox::fit::MsgDef;
use allox::fit::RecordHdr;

const DEF: [u8; 11] = [0, 0, 0x14, 0x00, 2, 253, 4, 0x86, 3, 1, 0x02];

fn expected() -> MsgDef {
    MsgDef {
        arch: 0,
        glob_num: 20,
        num_fields: 2,
        fields: vec![
            FieldDef { field_num: 253, size: 4, base: 0x86 },
            FieldDef { field_num: 3, size: 1, base: 0x02 },
        ],
    }
}

#[test]
fn definition_with_two_fields() {
    assert_eq!(parse_definition(&DEF), Ok(expected()));
    // Bytes after the last field are left alone.
    let mut longer = DEF.to_vec();
    longer.extend_from_slice(&[9, 9, 9]);
    assert_eq!(parse_definition(&longer), Ok(expected()));
}

#[test]
fn definition_without_fields() {
    let d = parse_definition(&[0, 1, 0x34, 0x12, 0]).unwrap();
    assert_eq!(d.arch, 1);
    assert_eq!(d.glob_num, 0x1234);
    assert_eq!(d.num_fields, 0);
    assert!(d.fields.is_empty());
}

#[test]
fn definition_that_is_cut_short() {
    assert_eq!(parse_definition(&[]), Err(HeaderError::UnexpectedEof));
    assert_eq!(parse_definition(&DEF[..4]), Err(HeaderError::UnexpectedEof));
    assert_eq!(parse_definition(&DEF[..5]), Err(HeaderError::UnexpectedEof));
    assert_eq!(parse_definition(&DEF[..10]), Err(HeaderError::UnexpectedEof));
    let mut many = vec![0u8, 0, 0, 0, 255];
    many.extend_from_slice(&[0u8; 3 * 255 - 1]);
    assert_eq!(parse_definition(&many), Err(HeaderError::UnexpectedEof));
    many.push(0);
    assert_eq!(parse_definition(&many).unwrap().fields.len(), 255);
}

#[test]
fn record_of_either_kind() {
    assert_eq!(parse_record(RecordHdr(0x40), &DEF), Ok(Some(expected())));
    assert_eq!(parse_record(RecordHdr(0x4f), &DEF[..7]), Err(HeaderError::UnexpectedEof));
    assert_eq!(parse_record(RecordHdr(0x00), &DEF), Ok(None));
    assert_eq!(parse_record(RecordHdr(0x0f), &[]), Ok(None));
    // A compressed timestamp is data, whatever bit 6 says.
    assert_eq!(parse_record(RecordHdr(0xc0), &[]), Ok(None));
}
