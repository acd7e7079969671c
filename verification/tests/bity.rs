use samn_common::bity::{BitReader, BitWriter, Error};

#[test]
fn serialize_deserialize() {
    // nothing yet, waiting to implement
}

#[test]
fn write_then_read_round_trip() {
    let mut writer = BitWriter::new(vec![0u8; 8]);
    writer.write_bits(1, 2).unwrap();
    writer.write_bits(0b1011, 4).unwrap();
    writer.write_bits(0xabcd, 16).unwrap();
    writer.write_bits(1, 1).unwrap();
    let n = writer.finalize();
    assert_eq!(n, 3);
    let buffer = writer.into_buffer();

    let mut reader = BitReader::new(&buffer);
    assert_eq!(reader.read_bits(2).unwrap(), 1);
    assert_eq!(reader.read_bits(4).unwrap(), 0b1011);
    assert_eq!(reader.read_bits(16).unwrap(), 0xabcd);
    assert_eq!(reader.read_bits(1).unwrap(), 1);
    assert_eq!(reader.finalize(), 3);
}

#[test]
fn msb_first_layout() {
    // Writing value 1 in 2 bits then 1 in 1 bit must set bits 6 and 5 of
    // the first byte: 0b0110_0000.
    let mut writer = BitWriter::new(vec![0u8; 1]);
    writer.write_bits(1, 2).unwrap();
    writer.write_bits(1, 1).unwrap();
    writer.finalize();
    let buffer = writer.into_buffer();
    assert_eq!(buffer[0], 0b0110_0000);
}

#[test]
fn write_masks_wide_values() {
    // Only the low `bits` bits of the value are written.
    let mut writer = BitWriter::new(vec![0u8; 1]);
    writer.write_bits(0xff, 4).unwrap();
    writer.finalize();
    let buffer = writer.into_buffer();
    assert_eq!(buffer[0], 0b1111_0000);
}

#[test]
fn writer_overflow() {
    let mut writer = BitWriter::new(vec![0u8; 1]);
    assert!(matches!(writer.write_bits(0x1ff, 9), Err(Error::BufferOverflow)));

    let mut writer = BitWriter::new(vec![0u8; 1]);
    writer.write_bits(0xaa, 8).unwrap();
    assert!(matches!(writer.write_bits(0, 1), Err(Error::BufferOverflow)));
}

#[test]
fn reader_underflow() {
    // A failed read first consumes what is there, so the cursor stands at
    // the end afterwards.
    let mut reader = BitReader::new(&[0xaa]);
    assert!(matches!(reader.read_bits(9), Err(Error::BufferUnderflow)));
    assert!(matches!(reader.read_bits(1), Err(Error::BufferUnderflow)));

    let mut reader = BitReader::new(&[0xaa]);
    assert_eq!(reader.read_bits(8).unwrap(), 0xaa);
    assert!(matches!(reader.read_bits(1), Err(Error::BufferUnderflow)));
}

#[test]
fn finalize_rounds_up_partial_bytes() {
    let mut writer = BitWriter::new(vec![0u8; 4]);
    writer.write_bits(0, 3).unwrap();
    assert_eq!(writer.finalize(), 1);

    let mut writer = BitWriter::new(vec![0u8; 4]);
    writer.write_bits(0, 9).unwrap();
    assert_eq!(writer.finalize(), 2);

    let mut writer = BitWriter::new(vec![0u8; 4]);
    writer.write_bits(0, 16).unwrap();
    assert_eq!(writer.finalize(), 2);

    let mut writer = BitWriter::new(vec![0u8; 4]);
    assert_eq!(writer.finalize(), 0);
}
