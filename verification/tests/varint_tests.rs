use mc_server::varint::{
    read_varint_buf, read_varint_string_buf, varint_length, varint_step, write_varint,
    write_varint_string, VarintError, VarintState, VarintStep,
};

fn encode(n: u32) -> Vec<u8> {
    let mut buffer = Vec::new();
    write_varint(&mut buffer, n);
    buffer
}

#[test]
fn write_varint_small_values_take_one_byte() {
    assert_eq!(encode(0), vec![0x00]);
    assert_eq!(encode(1), vec![0x01]);
    assert_eq!(encode(63), vec![0x3F]);
}

#[test]
fn write_varint_64_to_127_take_two_bytes() {
    assert_eq!(encode(64), vec![0xC0, 0x00]);
    assert_eq!(encode(100), vec![0xE4, 0x00]);
    assert_eq!(encode(127), vec![0xFF, 0x00]);
}

#[test]
fn write_varint_larger_values() {
    assert_eq!(encode(128), vec![0x80, 0x01]);
    assert_eq!(encode(300), vec![0xAC, 0x02]);
    assert_eq!(encode(763), vec![0xFB, 0x05]);
    assert_eq!(encode(u32::MAX), vec![0xFF, 0xFF, 0xFF, 0xFF, 0x0F]);
}

#[test]
fn write_varint_appends() {
    let mut buffer = vec![9, 8];
    write_varint(&mut buffer, 300);
    assert_eq!(buffer, vec![9, 8, 0xAC, 0x02]);
}

#[test]
fn varint_length_boundaries() {
    assert_eq!(varint_length(0), 1);
    assert_eq!(varint_length(63), 1);
    assert_eq!(varint_length(64), 2);
    assert_eq!(varint_length(0x1FFF), 2);
    assert_eq!(varint_length(0x2000), 3);
    assert_eq!(varint_length(0xF_FFFF), 3);
    assert_eq!(varint_length(0x10_0000), 4);
    assert_eq!(varint_length(0x7FF_FFFF), 4);
    assert_eq!(varint_length(0x800_0000), 5);
    assert_eq!(varint_length(u32::MAX), 5);
}

#[test]
fn varint_length_matches_written_bytes() {
    for n in [0u32, 5, 63, 64, 127, 128, 8191, 8192, 1 << 20, 1 << 27, u32::MAX] {
        assert_eq!(varint_length(n) as usize, encode(n).len());
    }
}

#[test]
fn read_varint_buf_reads_and_consumes() {
    let mut buffer = vec![0xAC, 0x02, 0x07];
    assert_eq!(read_varint_buf(&mut buffer), Ok(300));
    assert_eq!(buffer, vec![0x07]);
}

#[test]
fn read_varint_buf_reads_canonical_and_padded_forms() {
    let mut single = vec![0x64];
    assert_eq!(read_varint_buf(&mut single), Ok(100));
    assert!(single.is_empty());
    let mut padded = vec![0xE4, 0x00];
    assert_eq!(read_varint_buf(&mut padded), Ok(100));
    assert!(padded.is_empty());
}

#[test]
fn read_varint_buf_five_bytes_drops_high_bits() {
    let mut max = vec![0xFF, 0xFF, 0xFF, 0xFF, 0x0F];
    assert_eq!(read_varint_buf(&mut max), Ok(u32::MAX));
    let mut cut = vec![0x80, 0x80, 0x80, 0x80, 0x7F];
    assert_eq!(read_varint_buf(&mut cut), Ok(0xF000_0000));
}

#[test]
fn varint_roundtrip_values() {
    for n in [0u32, 1, 63, 64, 100, 127, 128, 300, 8191, 8192, 1 << 20, 1 << 27, u32::MAX] {
        let mut buffer = encode(n);
        buffer.push(0x55);
        assert_eq!(read_varint_buf(&mut buffer), Ok(n));
        assert_eq!(buffer, vec![0x55]);
    }
}

#[test]
fn varint_step_feeds_bytes() {
    let state = VarintState::new();
    let state = match varint_step(state, 0xAC) {
        VarintStep::More(s) => s,
        VarintStep::Done(_) => panic!("0xAC carries the continue bit"),
    };
    assert_eq!(state, VarintState { value: 0x2C, size: 1 });
    assert_eq!(varint_step(state, 0x02), VarintStep::Done(300));
}

#[test]
fn read_varint_string_buf_reads_string() {
    let mut buffer = vec![3, b'a', b'b', b'c', 9];
    assert_eq!(read_varint_string_buf(&mut buffer), Ok("abc".to_string()));
    assert_eq!(buffer, vec![9]);
}

#[test]
fn read_varint_string_buf_too_small() {
    let mut buffer = vec![5, b'a', b'b'];
    assert_eq!(read_varint_string_buf(&mut buffer), Err(VarintError::BufferTooSmall));
    assert_eq!(buffer, vec![b'a', b'b']);
}

#[test]
fn write_varint_string_writes_utf8_length() {
    let mut buffer = vec![];
    write_varint_string(&mut buffer, "hé".to_string());
    assert_eq!(buffer, vec![3, b'h', 0xC3, 0xA9]);
}

#[test]
fn varint_string_roundtrip() {
    let text = "minecraft:überwelt".to_string();
    let mut buffer = vec![];
    write_varint_string(&mut buffer, text.clone());
    buffer.extend_from_slice(&[1, 2]);
    assert_eq!(read_varint_string_buf(&mut buffer), Ok(text));
    assert_eq!(buffer, vec![1, 2]);
}
