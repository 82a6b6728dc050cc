use liteos_kernel::cstr::{c_buf_len, copy_cstr, cstr_eq, cstr_len};
use liteos_kernel::fmt::{decimal_digits, write_bytes, write_char, write_u32};
use liteos_kernel::heap::KernelBox;
use liteos_kernel::types::{result_from_u32, Errno};

#[test]
fn errno_from_u32_keeps_code() {
    let e = Errno::from_u32(22);
    assert_eq!(e.code(), 22);
    assert!(!e.is_ok());
    assert_eq!(e, Errno(22));
}

#[test]
fn errno_from_negative_i32_reads_bits() {
    assert_eq!(Errno::from_i32(-1).code(), 0xffff_ffff);
    assert_eq!(Errno::from_i32(-2).code(), 0xffff_fffe);
    assert_eq!(Errno::from_i32(i32::MIN).code(), 0x8000_0000);
    assert_eq!(Errno::from_i32(7).code(), 7);
}

#[test]
fn errno_ok_is_zero() {
    assert!(Errno::ok().is_ok());
    assert_eq!(Errno::ok().code(), 0);
    assert!(Errno::from_i32(0).is_ok());
}

#[test]
fn result_from_zero_is_ok() {
    assert_eq!(result_from_u32(0, "done"), Ok("done"));
}

#[test]
fn result_from_nonzero_is_err() {
    assert_eq!(result_from_u32(5, 1u8), Err(Errno(5)));
}

#[test]
fn kernel_box_null_address_is_none() {
    assert!(KernelBox::new(5u32, 0).is_none());
}

#[test]
fn kernel_box_keeps_address_and_value() {
    let mut b = KernelBox::new(41u32, 0x1000).unwrap();
    assert_eq!(b.as_ptr(), 0x1000);
    assert_eq!(*b.deref(), 41);
    *b.deref_mut() += 1;
    assert_eq!(*b.deref(), 42);
    assert_eq!(b.as_ptr(), 0x1000);
    assert_eq!(b.into_parts(), (0x1000, 42));
}

#[test]
fn kernel_box_request_size_is_type_size() {
    assert_eq!(KernelBox::<u64>::request_size(), 8);
    assert_eq!(KernelBox::<[u8; 588]>::request_size(), 588);
}

#[test]
fn c_buf_len_stops_at_first_zero() {
    assert_eq!(c_buf_len(b"abc\0def\0"), 3);
    assert_eq!(c_buf_len(b"\0abc"), 0);
}

#[test]
fn c_buf_len_without_zero_is_length() {
    assert_eq!(c_buf_len(b"abcd"), 4);
    assert_eq!(c_buf_len(b""), 0);
}

#[test]
fn cstr_len_of_null_is_zero() {
    assert_eq!(cstr_len(None), 0);
    assert_eq!(cstr_len(Some(b"hello\0x")), 5);
}

#[test]
fn cstr_eq_matches_whole_string_only() {
    assert!(cstr_eq(Some(b"-h\0"), b"-h"));
    assert!(cstr_eq(Some(b"-h"), b"-h"));
    assert!(!cstr_eq(Some(b"-hx\0"), b"-h"));
    assert!(!cstr_eq(Some(b"-\0"), b"-h"));
    assert!(!cstr_eq(None, b"-h"));
    assert!(cstr_eq(Some(b"\0"), b""));
}

#[test]
fn copy_cstr_copies_and_terminates() {
    let mut dst = [9u8; 8];
    copy_cstr(&mut dst, b"abc\0zz");
    assert_eq!(dst, [b'a', b'b', b'c', 0, 9, 9, 9, 9]);
}

#[test]
fn copy_cstr_truncates_to_fit() {
    let mut dst = [9u8; 4];
    copy_cstr(&mut dst, b"abcdef\0");
    assert_eq!(dst, [b'a', b'b', b'c', 0]);
}

#[test]
fn copy_cstr_into_empty_does_nothing() {
    let mut dst: [u8; 0] = [];
    copy_cstr(&mut dst, b"abc\0");
    assert_eq!(dst.len(), 0);
    let mut one = [7u8; 1];
    copy_cstr(&mut one, b"abc\0");
    assert_eq!(one, [0]);
}

#[test]
fn write_bytes_inside_buffer() {
    let mut buf = [0u8; 8];
    let next = write_bytes(&mut buf, 2, b"xyz");
    assert_eq!(next, 5);
    assert_eq!(buf, [0, 0, b'x', b'y', b'z', 0, 0, 0]);
}

#[test]
fn write_bytes_cut_off_at_end() {
    let mut buf = [0u8; 4];
    let next = write_bytes(&mut buf, 2, b"xyz");
    assert_eq!(next, 4);
    assert_eq!(buf, [0, 0, b'x', b'y']);
}

#[test]
fn write_bytes_past_end_writes_nothing() {
    let mut buf = [1u8; 4];
    assert_eq!(write_bytes(&mut buf, 4, b"xyz"), 4);
    assert_eq!(write_bytes(&mut buf, 9, b"xyz"), 9);
    assert_eq!(buf, [1, 1, 1, 1]);
}

#[test]
fn write_char_in_and_past_buffer() {
    let mut buf = [0u8; 2];
    assert_eq!(write_char(&mut buf, 1, b'q'), 2);
    assert_eq!(buf, [0, b'q']);
    assert_eq!(write_char(&mut buf, 2, b'r'), 2);
    assert_eq!(buf, [0, b'q']);
}

#[test]
fn write_u32_decimal() {
    let mut buf = [0u8; 12];
    let next = write_u32(&mut buf, 1, 12345);
    assert_eq!(next, 6);
    assert_eq!(&buf[..7], &[0, b'1', b'2', b'3', b'4', b'5', 0]);
}

#[test]
fn write_u32_zero_and_max() {
    let mut buf = [0u8; 11];
    assert_eq!(write_u32(&mut buf, 0, 0), 1);
    assert_eq!(buf[0], b'0');
    assert_eq!(write_u32(&mut buf, 1, u32::MAX), 11);
    assert_eq!(&buf[1..], b"4294967295");
}

#[test]
fn write_u32_cut_off() {
    let mut buf = [0u8; 3];
    assert_eq!(write_u32(&mut buf, 1, 9876), 3);
    assert_eq!(buf, [0, b'9', b'8']);
    assert_eq!(write_u32(&mut buf, 3, 5), 3);
}

#[test]
fn decimal_digits_of_numbers() {
    assert_eq!(decimal_digits(0), b"0".to_vec());
    assert_eq!(decimal_digits(7), b"7".to_vec());
    assert_eq!(decimal_digits(100), b"100".to_vec());
    assert_eq!(decimal_digits(4294967295), b"4294967295".to_vec());
}
