use ssbh_data::anim_data::bitutils::BitReadError;
use ssbh_data::anim_data::buffers::{
    create_compressed_buffer_boolean, create_compressed_buffer_u32, create_compressed_track_boolean,
    create_compressed_track_u32, read_compressed_inner_boolean, read_compressed_inner_u32,
    read_v12_compressed_blocks, v12_compressed_block_value_count, V12CompressedBlock,
};
use ssbh_data::anim_data::compression::{
    Boolean, CompressedHeader, CompressedTrackData, CompressionFlags, U32Compression,
};
use ssbh_data::anim_data::error::Error;

fn pattern_index_track(
    bits_per_entry: u16,
    bit_count: u64,
    default_data: Option<u32>,
    compressed_data: Option<Vec<u8>>,
) -> CompressedTrackData<u32, U32Compression> {
    CompressedTrackData {
        header: CompressedHeader {
            unk_4: 4,
            flags: CompressionFlags::new(),
            default_data,
            bits_per_entry,
            compressed_data,
            frame_count: 650,
        },
        compression: U32Compression {
            min: 1,
            max: 2,
            bit_count,
        },
    }
}

fn boolean_track(bits_per_entry: u16, default_data: Option<Boolean>, compressed_data: Option<Vec<u8>>) -> CompressedTrackData<Boolean, u128> {
    CompressedTrackData {
        header: CompressedHeader {
            unk_4: 4,
            flags: CompressionFlags::new(),
            default_data,
            bits_per_entry,
            compressed_data,
            frame_count: 3,
        },
        compression: 0,
    }
}

#[test]
fn decode_compressed_pattern_indices() {
    // One bit per value above a minimum of 1.
    let data = pattern_index_track(1, 1, Some(1), Some(vec![0xfe]));
    let values = read_compressed_inner_u32(&data, 8).unwrap();
    assert_eq!(vec![1, 2, 2, 2, 2, 2, 2, 2], values);
}

#[test]
fn decode_pattern_indices_zero_bit_count_repeats_minimum() {
    // Without compressed bits a single value is stored.
    let data = pattern_index_track(0, 0, Some(4), Some(Vec::new()));
    assert_eq!(vec![1], read_compressed_inner_u32(&data, 8).unwrap());
    assert_eq!(Vec::<u32>::new(), read_compressed_inner_u32(&data, 0).unwrap());
}

#[test]
fn decode_pattern_indices_unexpected_bit_count() {
    let data = pattern_index_track(2, 1, Some(1), Some(vec![0xfe]));
    assert!(matches!(
        read_compressed_inner_u32(&data, 8),
        Err(Error::UnexpectedBitCount { expected: 1, actual: 2 })
    ));
}

#[test]
fn decode_pattern_indices_missing_buffer_or_default() {
    let data = pattern_index_track(1, 1, Some(1), None);
    assert!(matches!(read_compressed_inner_u32(&data, 8), Err(Error::MalformedCompressionHeader)));

    let data = pattern_index_track(1, 1, None, Some(vec![0xfe]));
    assert!(matches!(read_compressed_inner_u32(&data, 8), Err(Error::MalformedCompressionHeader)));
    // Nothing is decoded for no frames, so no default value is needed.
    assert_eq!(Vec::<u32>::new(), read_compressed_inner_u32(&data, 0).unwrap());
}

#[test]
fn decode_pattern_indices_not_enough_bits() {
    let data = pattern_index_track(3, 3, Some(1), Some(vec![0xff]));
    assert!(matches!(
        read_compressed_inner_u32(&data, 3),
        Err(Error::BitError(BitReadError::NotEnoughBits))
    ));
    assert_eq!(vec![8, 8], read_compressed_inner_u32(&data, 2).unwrap());
}

#[test]
fn decode_compressed_booleans() {
    let data = boolean_track(1, Some(Boolean(0)), Some(vec![0x06]));
    assert_eq!(
        vec![Boolean(0), Boolean(1), Boolean(1)],
        read_compressed_inner_boolean(&data, 3).unwrap()
    );
}

#[test]
fn decode_booleans_errors() {
    let data = boolean_track(2, Some(Boolean(0)), Some(vec![0x06]));
    assert!(matches!(
        read_compressed_inner_boolean(&data, 3),
        Err(Error::UnexpectedBitCount { expected: 1, actual: 2 })
    ));
    let data = boolean_track(1, Some(Boolean(0)), None);
    assert!(matches!(read_compressed_inner_boolean(&data, 3), Err(Error::MalformedCompressionHeader)));
    let data = boolean_track(1, None, Some(vec![0x06]));
    assert!(matches!(read_compressed_inner_boolean(&data, 3), Err(Error::MalformedCompressionHeader)));
    let data = boolean_track(1, Some(Boolean(0)), Some(vec![0x06]));
    assert!(matches!(
        read_compressed_inner_boolean(&data, 9),
        Err(Error::BitError(BitReadError::NotEnoughBits))
    ));
}

#[test]
fn encode_compressed_booleans() {
    assert_eq!(vec![0x01], create_compressed_buffer_boolean(&[Boolean(1)]));
    assert_eq!(vec![0x06], create_compressed_buffer_boolean(&[Boolean(0), Boolean(1), Boolean(1)]));
    assert_eq!(vec![0xff, 0x07], create_compressed_buffer_boolean(&[Boolean(1); 11]));
    assert_eq!(Vec::<u8>::new(), create_compressed_buffer_boolean(&[]));
}

#[test]
fn encode_compressed_pattern_indices() {
    let compression = U32Compression {
        min: 1,
        max: 2,
        bit_count: 1,
    };
    assert_eq!(vec![0xfe], create_compressed_buffer_u32(&[1, 2, 2, 2, 2, 2, 2, 2], &compression));
    let compression = U32Compression {
        min: 10,
        max: 17,
        bit_count: 3,
    };
    // 0b111 0b000 0b101 packed least significant first.
    assert_eq!(vec![0b0100_0111, 0b1], create_compressed_buffer_u32(&[17, 10, 15], &compression));
}

#[test]
fn boolean_track_roundtrip() {
    let values = [Boolean(0), Boolean(1), Boolean(1), Boolean(0), Boolean(1)];
    let track = create_compressed_track_boolean(&values, CompressionFlags::new());
    assert_eq!(4, track.header.unk_4);
    assert_eq!(1, track.header.bits_per_entry);
    assert_eq!(5, track.header.frame_count);
    assert_eq!(Some(Boolean(0)), track.header.default_data);
    assert_eq!(Some(vec![0b10110]), track.header.compressed_data);
    assert_eq!(values.to_vec(), read_compressed_inner_boolean(&track, 5).unwrap());
}

#[test]
fn boolean_track_keeps_truth_values() {
    // Nonzero bytes come back as 1.
    let values = [Boolean(7), Boolean(0), Boolean(255)];
    let track = create_compressed_track_boolean(&values, CompressionFlags::new());
    assert_eq!(
        vec![Boolean(1), Boolean(0), Boolean(1)],
        read_compressed_inner_boolean(&track, 3).unwrap()
    );
}

#[test]
fn pattern_index_track_roundtrip() {
    let values = [5u32, 9, 7, 5, 1000];
    let flags = CompressionFlags::new();
    let track = create_compressed_track_u32(&values, flags);
    assert_eq!((5, 1000, 24), (track.compression.min, track.compression.max, track.compression.bit_count));
    assert_eq!(24, track.header.bits_per_entry);
    assert_eq!(Some(0), track.header.default_data);
    assert_eq!(5, track.header.frame_count);
    assert_eq!(15, track.header.compressed_data.as_ref().unwrap().len());
    assert_eq!(values.to_vec(), read_compressed_inner_u32(&track, 5).unwrap());
}

#[test]
fn pattern_index_track_loses_high_bits_beyond_range() {
    // Offsets above the minimum keep only their 24 lowest bits.
    let values = [0u32, 1 << 24 | 3];
    let track = create_compressed_track_u32(&values, CompressionFlags::new());
    assert_eq!(vec![0, 3], read_compressed_inner_u32(&track, 2).unwrap());
}

#[test]
fn v12_block_value_counts() {
    assert_eq!(1, v12_compressed_block_value_count(0x100001AB));
    assert_eq!(16, v12_compressed_block_value_count(0x12008000));
    assert_eq!(3, v12_compressed_block_value_count(0x12620012));
    assert_eq!(2, v12_compressed_block_value_count(0x100010FF));
    assert_eq!(4, v12_compressed_block_value_count(0x1280002E));
    assert_eq!(0, v12_compressed_block_value_count(0x12080050));
    assert_eq!(0, v12_compressed_block_value_count(0xDEADBEEF));
}

fn le_words(words: &[u32]) -> Vec<u8> {
    words.iter().flat_map(|w| w.to_le_bytes()).collect()
}

#[test]
fn v12_compressed_blocks_until_end() {
    // Two blocks of one and five values, then a block header whose values are cut off.
    let mut data = vec![0xAA, 0xBB];
    data.extend(le_words(&[7, 0x10000100, 42, 8, 0x11002100, 1, 2, 3, 4, 5, 9, 0x12000400, 1, 2]));
    let blocks = read_v12_compressed_blocks(&data, 2);
    assert_eq!(
        vec![
            V12CompressedBlock { unk1: 7, unk2: 0x10000100, values: vec![42] },
            V12CompressedBlock { unk1: 8, unk2: 0x11002100, values: vec![1, 2, 3, 4, 5] },
        ],
        blocks
    );
    // A block without values, and trailing bytes too short for a header.
    let mut data = le_words(&[1, 0x11020001]);
    data.extend([0, 0, 0]);
    assert_eq!(
        vec![V12CompressedBlock { unk1: 1, unk2: 0x11020001, values: Vec::new() }],
        read_v12_compressed_blocks(&data, 0)
    );
    assert!(read_v12_compressed_blocks(&data, 100).is_empty());
}
