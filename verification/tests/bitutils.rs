use ssbh_data::anim_data::bitutils::{BitBuffer, BitReadError, BitReader, BitWriter};

#[test]
fn read_bits() {
    let mut reader = BitReader::from_slice(&[0b1011]);
    assert_eq!(true, reader.read_bit().unwrap());
    assert_eq!(true, reader.read_bit().unwrap());
    assert_eq!(false, reader.read_bit().unwrap());
    assert_eq!(true, reader.read_bit().unwrap());
}

#[test]
fn read_u32() {
    let mut reader = BitReader::from_slice(&[3u8, 0u8]);
    assert_eq!(3, reader.read_u32(16).unwrap());
}

#[test]
fn read_bit_past_end() {
    let mut reader = BitReader::from_slice(&[0u8]);
    reader.read_u32(8).unwrap();
    assert!(matches!(reader.read_bit(), Err(BitReadError::NotEnoughBits)));
}

#[test]
fn read_u32_past_end() {
    let mut reader = BitReader::from_slice(&[0u8]);
    reader.read_bit().unwrap();
    assert!(matches!(reader.read_u32(8), Err(BitReadError::NotEnoughBits)));
}

#[test]
fn write_bits() {
    let mut bits = BitBuffer::new();
    bits.resize(4, false);
    let mut writer = BitWriter::new(bits);

    writer.write_bit(true);
    writer.write_bit(true);
    writer.write_bit(false);
    writer.write_bit(true);

    assert_eq!(vec![0b1011], writer.into_bytes());
}

#[test]
fn write_u32() {
    let mut bits = BitBuffer::new();
    bits.resize(5, false);
    let mut writer = BitWriter::new(bits);

    writer.write(25, 5);
    assert_eq!(vec![0b11001], writer.into_bytes());
}

#[test]
fn read_values_spanning_bytes() {
    // 0b0000_0110_1010_1101: 5 bits 0b01101, then 7 bits 0b0110101.
    let mut reader = BitReader::from_slice(&[0b1010_1101, 0b0000_0110]);
    assert_eq!(0b01101, reader.read_u8(5).unwrap());
    assert_eq!(0b0110101, reader.read_u32(7).unwrap());
    assert_eq!(0, reader.read_u8(4).unwrap());
    assert!(matches!(reader.read_u8(1), Err(BitReadError::NotEnoughBits)));
}

#[test]
fn read_failure_keeps_position() {
    let mut reader = BitReader::from_slice(&[0b1111_0001]);
    assert!(matches!(reader.read_u32(9), Err(BitReadError::NotEnoughBits)));
    // The failed read consumed nothing.
    assert_eq!(0b1111_0001, reader.read_u8(8).unwrap());
}

#[test]
fn read_full_u32() {
    let mut reader = BitReader::from_slice(&[0x78, 0x56, 0x34, 0x12]);
    assert_eq!(0x1234_5678, reader.read_u32(32).unwrap());
}

#[test]
fn write_then_read_values() {
    let mut bits = BitBuffer::new();
    bits.resize(20, false);
    let mut writer = BitWriter::new(bits);
    writer.write(0b101, 3);
    writer.write(1000, 10);
    writer.write_bit(true);
    // Only the lowest 6 bits of 0xFF are written.
    writer.write(0xFF, 6);
    let bytes = writer.into_bytes();
    assert_eq!(3, bytes.len());

    let mut reader = BitReader::from_slice(&bytes);
    assert_eq!(0b101, reader.read_u32(3).unwrap());
    assert_eq!(1000, reader.read_u32(10).unwrap());
    assert_eq!(true, reader.read_bit().unwrap());
    assert_eq!(0b111111, reader.read_u32(6).unwrap());
}

#[test]
fn resize_truncates_and_extends() {
    let mut bits = BitBuffer::new();
    bits.resize(12, true);
    bits.resize(3, false);
    bits.resize(9, false);
    let writer = BitWriter::new(bits);
    assert_eq!(vec![0b0000_0111, 0], writer.into_bytes());
}
