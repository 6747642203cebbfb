use bytes::{BufMut, BytesMut};
use mc_proxy::mcp::error::ProtocolError;
use mc_proxy::mcp::varint::{McVarInt, VarIntDecoder, VarIntStep};

#[test]
fn test_read_varint() -> Result<(), ProtocolError> {
    let mut buf = BytesMut::with_capacity(2);
    // 0x2BA2 in groups of seven bits, least significant first:
    // [10100010, 01010111]
    buf.put_u8(0b_10100010);
    buf.put_u8(0b_01010111);
    let read = McVarInt::read(&mut buf)?.value();

    assert_eq!(buf.len(), 0); // the buffer is consumed
    assert_eq!(read, 0x2BA2);

    Ok(())
}

#[test]
fn test_write_varint() {
    let var_int = McVarInt::new(0x952B); // 10010101_00101011
    // groups of seven bits: 0b 10_0101010_0101011
    // encoding: [10101011, 10101010, 00000010]
    let mut buf = BytesMut::with_capacity(3);
    var_int.write(&mut buf);
    assert_eq!(buf.len(), 3);
    assert_eq!(buf[0], 0b_10101011);
    assert_eq!(buf[1], 0b_10101010);
    assert_eq!(buf[2], 0b_00000010);
}

fn encode(v: i32) -> Vec<u8> {
    let mut buf = BytesMut::new();
    let n = McVarInt::new(v).write(&mut buf);
    assert_eq!(n as usize, buf.len());
    buf.to_vec()
}

#[test]
fn write_small_values() {
    assert_eq!(encode(0), vec![0x00]);
    assert_eq!(encode(1), vec![0x01]);
    assert_eq!(encode(127), vec![0x7f]);
    assert_eq!(encode(128), vec![0x80, 0x01]);
    assert_eq!(encode(255), vec![0xff, 0x01]);
    assert_eq!(encode(25565), vec![0xdd, 0xc7, 0x01]);
    assert_eq!(encode(2097151), vec![0xff, 0xff, 0x7f]);
    assert_eq!(encode(i32::MAX), vec![0xff, 0xff, 0xff, 0xff, 0x07]);
}

#[test]
fn write_appends_to_buffer() {
    let mut buf = BytesMut::from(&[0x42u8][..]);
    let n = McVarInt::new(300).write(&mut buf);
    assert_eq!(n, 2);
    assert_eq!(&buf[..], &[0x42, 0xac, 0x02]);
}

#[test]
fn write_then_read_gives_back_the_value() {
    for v in [0, 1, 2, 127, 128, 300, 16383, 16384, 25565, 2097151, 2097152, 268435455, 268435456, i32::MAX] {
        let mut buf = BytesMut::new();
        let n = McVarInt::new(v).write(&mut buf);
        buf.put_u8(0x99);
        let read = McVarInt::read(&mut buf).unwrap();
        assert_eq!(read.value(), v);
        assert!(n >= 1 && n <= 5);
        assert_eq!(&buf[..], &[0x99]);
    }
}

#[test]
fn read_leaves_the_bytes_after_the_varint() {
    let mut buf = BytesMut::from(&[0xac, 0x02, 0x05, 0x06][..]);
    assert_eq!(McVarInt::read(&mut buf).unwrap().value(), 300);
    assert_eq!(&buf[..], &[0x05, 0x06]);
}

#[test]
fn read_five_bytes_wraps_to_negative() {
    let mut buf = BytesMut::from(&[0xff, 0xff, 0xff, 0xff, 0x0f][..]);
    assert_eq!(McVarInt::read(&mut buf).unwrap().value(), -1);
    let mut buf = BytesMut::from(&[0x80, 0x80, 0x80, 0x80, 0x08][..]);
    assert_eq!(McVarInt::read(&mut buf).unwrap().value(), i32::MIN);
    // the bits above the 32nd are lost
    let mut buf = BytesMut::from(&[0x80, 0x80, 0x80, 0x80, 0x7f][..]);
    assert_eq!(McVarInt::read(&mut buf).unwrap().value(), -268435456);
}

#[test]
fn read_too_big() {
    let mut buf = BytesMut::from(&[0x80, 0x80, 0x80, 0x80, 0x80, 0x01, 0x07][..]);
    assert_eq!(McVarInt::read(&mut buf).err(), Some(ProtocolError::VarIntTooBig));
    // the five bytes that were read are gone
    assert_eq!(&buf[..], &[0x01, 0x07]);
}

#[test]
fn read_i32_gives_the_number() {
    let mut buf = BytesMut::from(&[0xdd, 0xc7, 0x01][..]);
    assert_eq!(McVarInt::read_i32(&mut buf), Ok(25565));
    assert_eq!(buf.len(), 0);
}

#[test]
fn peek_takes_nothing() {
    assert_eq!(McVarInt::peek(&[0xac, 0x02, 0x01]), Some(Ok((300, 2))));
    assert_eq!(McVarInt::peek(&[0xac]), None);
    assert_eq!(McVarInt::peek(&[]), None);
    assert_eq!(McVarInt::peek(&[0x80, 0x80, 0x80, 0x80, 0x80]), Some(Err(ProtocolError::VarIntTooBig)));
    assert_eq!(McVarInt::peek(&[0x80, 0x80, 0x80, 0x80]), None);
}

fn feed_all(bytes: &[u8]) -> (usize, VarIntStep) {
    let mut dec = VarIntDecoder::new();
    for (i, b) in bytes.iter().enumerate() {
        match dec.feed(*b) {
            VarIntStep::Pending(d) => dec = d,
            done => return (i + 1, done),
        }
    }
    (bytes.len(), VarIntStep::Pending(dec))
}

#[test]
fn decoder_agrees_with_read() {
    match feed_all(&[0xa2, 0x57, 0x33]) {
        (2, VarIntStep::Complete(v)) => assert_eq!(v.value(), 0x2BA2),
        _ => panic!("the decoder should finish after two bytes"),
    }
    match feed_all(&[0xff, 0xff, 0xff, 0xff, 0xff, 0x01]) {
        (5, VarIntStep::TooBig) => {}
        _ => panic!("the decoder should refuse the fifth byte"),
    }
    match feed_all(&[0xff, 0xff]) {
        (2, VarIntStep::Pending(_)) => {}
        _ => panic!("the decoder should wait for more bytes"),
    }
}

#[test]
fn read_then_write_gives_back_minimal_bytes() {
    for bytes in [vec![0x00u8], vec![0x7f], vec![0xdd, 0xc7, 0x01], vec![0xff, 0xff, 0xff, 0xff, 0x07]] {
        let mut buf = BytesMut::from(&bytes[..]);
        let v = McVarInt::read(&mut buf).unwrap();
        let mut out = BytesMut::new();
        v.write(&mut out);
        assert_eq!(&out[..], &bytes[..]);
    }
    // a non-minimal encoding reads as the same number but is written shorter
    let mut buf = BytesMut::from(&[0x80, 0x00][..]);
    let v = McVarInt::read(&mut buf).unwrap();
    let mut out = BytesMut::new();
    v.write(&mut out);
    assert_eq!(&out[..], &[0x00]);
}

#[test]
fn streamed_and_buffered_reads_agree() {
    let inputs: [&[u8]; 6] = [
        &[0x00, 0x01],
        &[0xac, 0x02, 0x7f],
        &[0xff, 0xff, 0xff, 0xff, 0x0f, 0x00],
        &[0x80, 0x80, 0x80, 0x80, 0x80, 0x01],
        &[0xdd, 0xc7, 0x01],
        &[0x80, 0x80, 0x80, 0x80, 0x7f],
    ];
    for input in inputs {
        let mut buf = BytesMut::from(input);
        let read = McVarInt::read(&mut buf);
        let taken = input.len() - buf.len();
        match (feed_all(input), read) {
            ((n, VarIntStep::Complete(v)), Ok(r)) => {
                assert_eq!(n, taken);
                assert_eq!(v.value(), r.value());
            }
            ((n, VarIntStep::TooBig), Err(ProtocolError::VarIntTooBig)) => assert_eq!(n, taken),
            _ => panic!("the decoder and the reader disagree"),
        }
    }
}
