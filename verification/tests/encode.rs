use frontend_codec::frontend::{
    Bind, CancelRequest, Close, CopyData, CopyDone, CopyFail, Describe, Execute, Message, Parse,
};
use frontend_codec::wire::{i32_from_usize, u16_from_usize, write_cstr, EncodeError};

#[test]
fn parse_empty_name_simple_query() {
    let msg = Parse {
        name: "",
        query: "SELECT 1",
        param_types: &[],
    };
    let mut buf: Vec<u8> = Vec::new();
    assert_eq!(msg.write(&mut buf), Ok(()));
    let mut expected: Vec<u8> = vec![b'P', 0, 0, 0, 16];
    expected.push(0);
    expected.extend_from_slice(b"SELECT 1\0");
    expected.extend_from_slice(&[0, 0]);
    assert_eq!(buf, expected);
}

#[test]
fn parse_with_param_types() {
    let msg = Parse {
        name: "s1",
        query: "SELECT $1",
        param_types: &[23, 0x01020304],
    };
    let mut buf: Vec<u8> = Vec::new();
    assert_eq!(msg.write(&mut buf), Ok(()));
    let mut expected: Vec<u8> = vec![b'P', 0, 0, 0, 27];
    expected.extend_from_slice(b"s1\0");
    expected.extend_from_slice(b"SELECT $1\0");
    expected.extend_from_slice(&[0, 2]);
    expected.extend_from_slice(&[0, 0, 0, 23]);
    expected.extend_from_slice(&[1, 2, 3, 4]);
    assert_eq!(buf, expected);
}

#[test]
fn copy_done_frame() {
    let mut buf: Vec<u8> = Vec::new();
    assert_eq!(CopyDone.write(&mut buf), Ok(()));
    assert_eq!(buf, vec![b'c', 0, 0, 0, 4]);
}

#[test]
fn cancel_request_frame() {
    let msg = CancelRequest {
        process_id: 1234,
        secret_key: 5678,
    };
    let mut buf: Vec<u8> = Vec::new();
    assert_eq!(msg.write(&mut buf), Ok(()));
    let mut expected: Vec<u8> = vec![0, 0, 0, 16];
    expected.extend_from_slice(&[0x04, 0xD2, 0x16, 0x2E]); // 80877102
    expected.extend_from_slice(&[0, 0, 0x04, 0xD2]); // 1234
    expected.extend_from_slice(&[0, 0, 0x16, 0x2E]); // 5678
    assert_eq!(buf, expected);
}

#[test]
fn bind_null_parameter_is_minus_one() {
    let msg = Bind {
        portal: "",
        statement: "",
        formats: &[],
        values: &[None],
        result_formats: &[],
    };
    let mut buf: Vec<u8> = Vec::new();
    assert_eq!(msg.write(&mut buf), Ok(()));
    let expected: Vec<u8> = vec![
        b'B', 0, 0, 0, 16, // tag, length = 4 + 12
        0, // empty portal name
        0, // empty statement name
        0, 0, // zero parameter formats
        0, 1, // one parameter value
        0xFF, 0xFF, 0xFF, 0xFF, // SQL NULL, -1 as 32-bit signed
        0, 0, // zero result formats
    ];
    assert_eq!(buf, expected);
}

#[test]
fn bind_full_frame() {
    let value: &[u8] = &[0xDE, 0xAD];
    let msg = Bind {
        portal: "p",
        statement: "s",
        formats: &[1],
        values: &[Some(value), None],
        result_formats: &[0, 1],
    };
    let mut buf: Vec<u8> = Vec::new();
    assert_eq!(msg.write(&mut buf), Ok(()));
    let mut expected: Vec<u8> = vec![b'B', 0, 0, 0, 30];
    expected.extend_from_slice(b"p\0");
    expected.extend_from_slice(b"s\0");
    expected.extend_from_slice(&[0, 1, 0, 1]); // one format, code 1
    expected.extend_from_slice(&[0, 2]); // two values
    expected.extend_from_slice(&[0, 0, 0, 2, 0xDE, 0xAD]); // first value
    expected.extend_from_slice(&[0xFF, 0xFF, 0xFF, 0xFF]); // second value, NULL
    expected.extend_from_slice(&[0, 2, 0, 0, 0, 1]); // two result formats
    assert_eq!(buf, expected);
}

#[test]
fn bind_negative_format_code() {
    let msg = Bind {
        portal: "",
        statement: "",
        formats: &[-2],
        values: &[],
        result_formats: &[],
    };
    let mut buf: Vec<u8> = Vec::new();
    assert_eq!(msg.write(&mut buf), Ok(()));
    let expected: Vec<u8> = vec![
        b'B', 0, 0, 0, 14, 0, 0, 0, 1, 0xFF, 0xFE, 0, 0, 0, 0,
    ];
    assert_eq!(buf, expected);
}

#[test]
fn close_frame() {
    let msg = Close {
        variant: b'S',
        name: "st",
    };
    let mut buf: Vec<u8> = Vec::new();
    assert_eq!(msg.write(&mut buf), Ok(()));
    assert_eq!(buf, vec![b'C', 0, 0, 0, 8, b'S', b's', b't', 0]);
}

#[test]
fn describe_frame() {
    let msg = Describe {
        variant: b'P',
        name: "",
    };
    let mut buf: Vec<u8> = Vec::new();
    assert_eq!(msg.write(&mut buf), Ok(()));
    assert_eq!(buf, vec![b'D', 0, 0, 0, 6, b'P', 0]);
}

#[test]
fn execute_frame_with_negative_row_limit() {
    let msg = Execute {
        portal: "p",
        max_rows: -1,
    };
    let mut buf: Vec<u8> = Vec::new();
    assert_eq!(msg.write(&mut buf), Ok(()));
    assert_eq!(
        buf,
        vec![b'E', 0, 0, 0, 10, b'p', 0, 0xFF, 0xFF, 0xFF, 0xFF]
    );
}

#[test]
fn execute_frame_row_limit_zero() {
    let msg = Execute {
        portal: "",
        max_rows: 0,
    };
    let mut buf: Vec<u8> = Vec::new();
    assert_eq!(msg.write(&mut buf), Ok(()));
    assert_eq!(buf, vec![b'E', 0, 0, 0, 9, 0, 0, 0, 0, 0]);
}

#[test]
fn copy_data_passes_payload_through() {
    let msg = CopyData { data: &[1, 2, 3] };
    let mut buf: Vec<u8> = Vec::new();
    assert_eq!(msg.write(&mut buf), Ok(()));
    assert_eq!(buf, vec![b'd', 0, 0, 0, 7, 1, 2, 3]);
}

#[test]
fn copy_fail_frame() {
    let msg = CopyFail { message: "hi" };
    let mut buf: Vec<u8> = Vec::new();
    assert_eq!(msg.write(&mut buf), Ok(()));
    assert_eq!(buf, vec![b'f', 0, 0, 0, 7, b'h', b'i', 0]);
}

#[test]
fn cstr_writer_appends_bytes_and_terminator() {
    let mut buf: Vec<u8> = vec![9];
    assert_eq!(write_cstr(&mut buf, "ab"), Ok(()));
    assert_eq!(buf, vec![9, b'a', b'b', 0]);
}

#[test]
fn cstr_writer_rejects_embedded_null() {
    let mut buf: Vec<u8> = vec![9];
    assert_eq!(write_cstr(&mut buf, "a\0b"), Err(EncodeError::EmbeddedNull));
    assert_eq!(buf, vec![9]);
}

#[test]
fn bind_rejects_null_in_portal() {
    let msg = Bind {
        portal: "a\0b",
        statement: "",
        formats: &[],
        values: &[],
        result_formats: &[],
    };
    let mut buf: Vec<u8> = Vec::new();
    assert_eq!(msg.write(&mut buf), Err(EncodeError::EmbeddedNull));
    assert!(buf.is_empty());
}

#[test]
fn bind_rejects_null_in_statement() {
    let msg = Bind {
        portal: "",
        statement: "\0",
        formats: &[],
        values: &[],
        result_formats: &[],
    };
    let mut buf: Vec<u8> = Vec::new();
    assert_eq!(msg.write(&mut buf), Err(EncodeError::EmbeddedNull));
    assert!(buf.is_empty());
}

#[test]
fn close_rejects_null_in_name() {
    let msg = Close {
        variant: b'P',
        name: "x\0",
    };
    let mut buf: Vec<u8> = Vec::new();
    assert_eq!(msg.write(&mut buf), Err(EncodeError::EmbeddedNull));
    assert!(buf.is_empty());
}

#[test]
fn copy_fail_rejects_null_in_message() {
    let msg = CopyFail { message: "\0oops" };
    let mut buf: Vec<u8> = Vec::new();
    assert_eq!(msg.write(&mut buf), Err(EncodeError::EmbeddedNull));
    assert!(buf.is_empty());
}

#[test]
fn describe_rejects_null_in_name() {
    let msg = Describe {
        variant: b'S',
        name: "a\0",
    };
    let mut buf: Vec<u8> = Vec::new();
    assert_eq!(msg.write(&mut buf), Err(EncodeError::EmbeddedNull));
    assert!(buf.is_empty());
}

#[test]
fn execute_rejects_null_in_portal() {
    let msg = Execute {
        portal: "p\0q",
        max_rows: 1,
    };
    let mut buf: Vec<u8> = Vec::new();
    assert_eq!(msg.write(&mut buf), Err(EncodeError::EmbeddedNull));
    assert!(buf.is_empty());
}

#[test]
fn parse_rejects_null_in_name_or_query() {
    let mut buf: Vec<u8> = Vec::new();
    let msg = Parse {
        name: "n\0",
        query: "SELECT 1",
        param_types: &[],
    };
    assert_eq!(msg.write(&mut buf), Err(EncodeError::EmbeddedNull));
    let msg = Parse {
        name: "",
        query: "SELECT '\0'",
        param_types: &[],
    };
    assert_eq!(msg.write(&mut buf), Err(EncodeError::EmbeddedNull));
    assert!(buf.is_empty());
}

#[test]
fn failure_leaves_existing_buffer_contents() {
    let mut buf: Vec<u8> = b"xyz".to_vec();
    let msg = CopyFail { message: "a\0" };
    assert_eq!(msg.write(&mut buf), Err(EncodeError::EmbeddedNull));
    assert_eq!(buf, b"xyz".to_vec());
}

#[test]
fn count_narrowing_bounds() {
    assert_eq!(u16_from_usize(0), Ok(0));
    assert_eq!(u16_from_usize(65535), Ok(65535));
    assert_eq!(u16_from_usize(65536), Err(EncodeError::ValueTooLarge));
}

#[test]
fn length_narrowing_bounds() {
    assert_eq!(i32_from_usize(0), Ok(0));
    assert_eq!(i32_from_usize(0x7FFF_FFFF), Ok(0x7FFF_FFFF));
    assert_eq!(i32_from_usize(0x8000_0000), Err(EncodeError::ValueTooLarge));
}

#[test]
fn bind_rejects_oversized_format_count() {
    let formats: Vec<i16> = vec![0; 65536];
    let msg = Bind {
        portal: "",
        statement: "",
        formats: &formats,
        values: &[],
        result_formats: &[],
    };
    let mut buf: Vec<u8> = Vec::new();
    assert_eq!(msg.write(&mut buf), Err(EncodeError::ValueTooLarge));
    assert!(buf.is_empty());
}

#[test]
fn bind_accepts_maximal_value_count() {
    let values: Vec<Option<&[u8]>> = vec![None; 65535];
    let msg = Bind {
        portal: "",
        statement: "",
        formats: &[],
        values: &values,
        result_formats: &[],
    };
    let mut buf: Vec<u8> = Vec::new();
    assert_eq!(msg.write(&mut buf), Ok(()));
    // tag + length field + two name terminators + three counts + the values
    assert_eq!(buf.len(), 1 + 4 + 2 + 6 + 4 * 65535);
    assert_eq!(&buf[11..13], &[0xFF, 0xFF]);
}

#[test]
fn parse_rejects_oversized_type_count() {
    let types: Vec<u32> = vec![0; 65536];
    let msg = Parse {
        name: "",
        query: "SELECT 1",
        param_types: &types,
    };
    let mut buf: Vec<u8> = Vec::new();
    assert_eq!(msg.write(&mut buf), Err(EncodeError::ValueTooLarge));
    assert!(buf.is_empty());
}

#[test]
fn encoding_twice_is_byte_identical() {
    let value: &[u8] = &[7, 8, 9];
    let msg = Bind {
        portal: "p",
        statement: "s",
        formats: &[1, 0],
        values: &[Some(value), None],
        result_formats: &[1],
    };
    let mut first: Vec<u8> = Vec::new();
    let mut second: Vec<u8> = Vec::new();
    assert_eq!(msg.write(&mut first), Ok(()));
    assert_eq!(msg.write(&mut second), Ok(()));
    assert_eq!(first, second);
}

#[test]
fn encoders_only_append() {
    let mut buf: Vec<u8> = vec![1, 2, 3];
    let msg = Execute {
        portal: "",
        max_rows: 5,
    };
    assert_eq!(msg.write(&mut buf), Ok(()));
    assert_eq!(&buf[..3], &[1, 2, 3]);
    assert_eq!(&buf[3..], &[b'E', 0, 0, 0, 9, 0, 0, 0, 0, 5]);
}
