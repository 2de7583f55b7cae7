use lib::packet::{
    pack_packet, u32_from_le_bytes, u32_to_le_bytes, unpack_packet, PACKET_DATA_SIZE,
    PACKET_NUM_SIZE, PACKET_SIZE, WINDOW_NUMS_SIZE, WINDOW_SIZE,
};

fn payload(seed: u8) -> [u8; PACKET_DATA_SIZE] {
    let mut buf = [0u8; PACKET_DATA_SIZE];
    for (i, b) in buf.iter_mut().enumerate() {
        *b = (i as u8).wrapping_mul(7).wrapping_add(seed);
    }
    buf
}

#[test]
fn sizes_of_the_wire_format() {
    assert_eq!(PACKET_SIZE, 512);
    assert_eq!(PACKET_NUM_SIZE, 4);
    assert_eq!(PACKET_DATA_SIZE, 508);
    assert_eq!(WINDOW_SIZE, 8);
    assert_eq!(WINDOW_NUMS_SIZE, 32);
}

#[test]
fn le_bytes_of_a_number() {
    assert_eq!(u32_to_le_bytes(0x0403_0201), [1, 2, 3, 4]);
    assert_eq!(u32_to_le_bytes(258), [2, 1, 0, 0]);
    assert_eq!(u32_to_le_bytes(u32::MAX), [255, 255, 255, 255]);
    assert_eq!(u32_to_le_bytes(0), [0, 0, 0, 0]);
    for n in [0u32, 1, 255, 256, 65535, 65536, 0x1234_5678, u32::MAX] {
        assert_eq!(u32_to_le_bytes(n), n.to_le_bytes());
    }
}

#[test]
fn number_of_le_bytes() {
    assert_eq!(u32_from_le_bytes([1, 2, 3, 4]), 0x0403_0201);
    assert_eq!(u32_from_le_bytes([255, 255, 255, 255]), u32::MAX);
    assert_eq!(u32_from_le_bytes([0, 0, 0, 1]), 16_777_216);
}

#[test]
fn le_bytes_round_trip() {
    for n in [0u32, 7, 300, 70_000, 0xdead_beef, u32::MAX] {
        assert_eq!(u32_from_le_bytes(u32_to_le_bytes(n)), n);
    }
    for b in [[0u8, 0, 0, 0], [9, 8, 7, 6], [255, 0, 255, 0]] {
        assert_eq!(u32_to_le_bytes(u32_from_le_bytes(b)), b);
    }
}

#[test]
fn pack_packet_lays_out_number_then_payload() {
    let mut packet = [0xaau8; PACKET_SIZE];
    let buf = payload(3);
    pack_packet(&mut packet, &0x0102_0304, &buf);
    assert_eq!(&packet[0..4], &[4, 3, 2, 1]);
    assert_eq!(&packet[4..], &buf[..]);
}

#[test]
fn unpack_packet_reads_number_and_payload() {
    let mut packet = [0u8; PACKET_SIZE];
    packet[0] = 5;
    packet[1] = 1;
    for i in 4..PACKET_SIZE {
        packet[i] = (i % 251) as u8;
    }
    let mut num = 0u32;
    let mut buf = [0xffu8; PACKET_DATA_SIZE];
    unpack_packet(&packet, &mut num, &mut buf);
    assert_eq!(num, 261);
    assert_eq!(&buf[..], &packet[4..]);
}

#[test]
fn unpack_of_pack_gives_back_number_and_payload() {
    for n in [0u32, 1, 8, 65_537, u32::MAX] {
        let buf = payload(n as u8);
        let mut packet = [0u8; PACKET_SIZE];
        pack_packet(&mut packet, &n, &buf);
        let mut num = 0u32;
        let mut out = [0u8; PACKET_DATA_SIZE];
        unpack_packet(&packet, &mut num, &mut out);
        assert_eq!(num, n);
        assert_eq!(out, buf);
    }
}

#[test]
fn pack_of_unpack_gives_back_the_packet() {
    let mut packet = [0u8; PACKET_SIZE];
    for i in 0..PACKET_SIZE {
        packet[i] = (i * 13 % 256) as u8;
    }
    let mut num = 0u32;
    let mut buf = [0u8; PACKET_DATA_SIZE];
    unpack_packet(&packet, &mut num, &mut buf);
    let mut again = [0u8; PACKET_SIZE];
    pack_packet(&mut again, &num, &buf);
    assert_eq!(again, packet);
}
