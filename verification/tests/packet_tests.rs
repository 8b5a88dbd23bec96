use mc_server::packet::{decode_frame, encode_packet, packet_data_length, Packet};
use mc_server::varint::read_varint_buf;

#[test]
fn packet_new_counts_id_and_data() {
    let p = Packet::new(0, vec![1, 2, 3]);
    assert_eq!(p.length, 4);
    assert_eq!(p.packet_id, 0);
    assert_eq!(p.data, vec![1, 2, 3]);
    let q = Packet::new(300, vec![]);
    assert_eq!(q.length, 2);
}

#[test]
fn encode_packet_frames_id_and_data() {
    let bytes = encode_packet(Packet::new(0x28, vec![7, 8]));
    assert_eq!(bytes, vec![3, 0x28, 7, 8]);
}

#[test]
fn encode_packet_ignores_length_field() {
    let p = Packet { length: 99, packet_id: 1, data: vec![5] };
    assert_eq!(encode_packet(p), vec![2, 1, 5]);
}

#[test]
fn encode_packet_with_long_id() {
    let bytes = encode_packet(Packet::new(100, vec![0xAA]));
    assert_eq!(bytes, vec![3, 0xE4, 0x00, 0xAA]);
}

#[test]
fn packet_data_length_subtracts_id() {
    assert_eq!(packet_data_length(10, 0x28), 9);
    assert_eq!(packet_data_length(2, 300), 0);
}

#[test]
fn packet_roundtrip_through_wire_bytes() {
    let data: Vec<u8> = (0..200u32).map(|i| i as u8).collect();
    let sent = Packet::new(0x28, data.clone());
    let mut wire = encode_packet(Packet::new(0x28, data.clone()));
    wire.push(0xEE);
    let length = read_varint_buf(&mut wire).unwrap();
    let packet_id = read_varint_buf(&mut wire).unwrap();
    let n = packet_data_length(length, packet_id) as usize;
    let rest = wire.split_off(n);
    assert_eq!(length, sent.length);
    assert_eq!(packet_id, 0x28);
    assert_eq!(wire, data);
    assert_eq!(rest, vec![0xEE]);
}

#[test]
fn decode_frame_reads_written_packet() {
    let mut wire = encode_packet(Packet::new(0x28, vec![7, 8, 9]));
    wire.extend_from_slice(&[0xEE, 0xEF]);
    let (p, used) = decode_frame(&wire).unwrap();
    assert_eq!(p.length, 4);
    assert_eq!(p.packet_id, 0x28);
    assert_eq!(p.data, vec![7, 8, 9]);
    assert_eq!(used, 5);
    assert_eq!(&wire[used..], &[0xEE, 0xEF]);
}

#[test]
fn decode_frame_reads_padded_varints() {
    // length 3 written as two bytes, id 100 as two bytes, one data byte
    let wire = vec![0x83, 0x00, 0xE4, 0x00, 0xAA];
    let (p, used) = decode_frame(&wire).unwrap();
    assert_eq!(p.length, 3);
    assert_eq!(p.packet_id, 100);
    assert_eq!(p.data, vec![0xAA]);
    assert_eq!(used, 5);
}

#[test]
fn decode_frame_refuses_partial_packets() {
    assert!(decode_frame(&[]).is_none());
    assert!(decode_frame(&[0x80]).is_none());
    assert!(decode_frame(&[4, 0x28, 7, 8]).is_none());
    // the length does not even cover the id
    assert!(decode_frame(&[0, 0x28]).is_none());
    assert!(decode_frame(&[0x80, 0x80, 0x80, 0x80, 0x80, 0x01]).is_none());
}
