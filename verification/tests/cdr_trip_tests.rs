//! What a reader gives back of what a writer wrote, on concrete values.

use micro_xrce_dds_rs::{
    cdr::CdrWriter,
    cdr_reader::CdrReader,
    msg::std_msgs::write_time,
    Time,
};

#[test]
fn u32_after_single_bytes_reads_back() {
    for k in 0..4usize {
        let mut buf = [0xEEu8; 8];
        let mut w = CdrWriter::new(&mut buf);
        for _ in 0..k {
            w.u8_val(0);
        }
        w.u32_val(0xDEAD_BEEF);
        let n = w.bytes_written();
        assert_eq!(n, if k == 0 { 4 } else { 8 });
        let mut r = CdrReader::from_body(&buf[..n]);
        for _ in 0..k {
            assert_eq!(r.u8_val(), Ok(0));
        }
        assert_eq!(r.u32_val(), Ok(0xDEAD_BEEF));
        assert_eq!(r.remaining(), 0);
    }
}

#[test]
fn string_reads_back_without_terminator() {
    let mut buf = [0xEEu8; 16];
    let mut w = CdrWriter::new(&mut buf);
    w.string("hello");
    let n = w.bytes_written();
    assert_eq!(n, 10);
    let mut r = CdrReader::from_body(&buf[..n]);
    assert_eq!(r.string_bytes(), Ok(&b"hello"[..]));
    assert_eq!(r.remaining(), 0);
}

#[test]
fn write_time_writes_what_time_serialize_writes() {
    let mut a = [0x55u8; 24];
    let mut b = [0x55u8; 24];
    let (na, nb);
    {
        let mut w1 = CdrWriter::new(&mut a);
        w1.u8_val(9);
        write_time(&mut w1, -7, 123_456);
        na = w1.bytes_written();
    }
    {
        let mut w2 = CdrWriter::new(&mut b);
        w2.u8_val(9);
        Time { sec: -7, nanosec: 123_456 }.serialize(&mut w2);
        nb = w2.bytes_written();
    }
    assert_eq!(na, nb);
    assert_eq!(a, b);
}
