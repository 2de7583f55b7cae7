//! The wire layout of one data packet: a little-endian `u32` packet number
//! followed by the payload.
use vstd::prelude::*;

verus! {

/// Total size of one UDP packet in bytes.
pub const PACKET_SIZE: usize = 512;

/// Size of the packet number at the head of each packet.
pub const PACKET_NUM_SIZE: usize = 4;

/// Size of the payload carried by each packet.
pub const PACKET_DATA_SIZE: usize = PACKET_SIZE - PACKET_NUM_SIZE;

/// Number of packets the windowed sender sends before reporting them.
pub const WINDOW_SIZE: usize = 8;

/// Size of the report of packet numbers exchanged once per window.
pub const WINDOW_NUMS_SIZE: usize = PACKET_NUM_SIZE * WINDOW_SIZE;

/// The value of four bytes read as a little-endian unsigned integer.
pub open spec fn le_value(b: Seq<u8>) -> int {
    b[0] + 256 * b[1] + 65536 * b[2] + 16777216 * b[3]
}

/// The four little-endian bytes of `n`.
pub open spec fn le_bytes(n: u32) -> Seq<u8> {
    seq![
        (n % 256) as u8,
        ((n / 256) % 256) as u8,
        ((n / 65536) % 256) as u8,
        (n / 16777216) as u8,
    ]
}

/// The bytes of a packet that carries number `num` and payload `data`.
pub open spec fn packet_layout(num: u32, data: Seq<u8>) -> Seq<u8> {
    le_bytes(num) + data
}

/// The little-endian bytes of `n`, as `u32::to_le_bytes` gives them.
pub fn u32_to_le_bytes(n: u32) -> (b: [u8; 4])
    ensures
        b@ == le_bytes(n),
        b@[0] == n % 256,
        b@[1] == (n / 256) % 256,
        b@[2] == (n / 65536) % 256,
        b@[3] == (n / 16777216) % 256,
{
    let b: [u8; 4] = [
        (n % 256) as u8,
        ((n / 256) % 256) as u8,
        ((n / 65536) % 256) as u8,
        (n / 16777216) as u8,
    ];
    assert(b@ =~= le_bytes(n));
    b
}

/// The `u32` whose little-endian bytes are `b`, as `u32::from_le_bytes` reads them.
pub fn u32_from_le_bytes(b: [u8; 4]) -> (n: u32)
    ensures
        n == le_value(b@),
        n == b@[0] + 256 * b@[1] + 65536 * b@[2] + 16777216 * b@[3],
{
    let n: u32 = b[0] as u32 + (b[1] as u32) * 256 + (b[2] as u32) * 65536 + (b[3] as u32)
        * 16777216;
    n
}

/// Decoding the little-endian bytes of a number gives the number back.
pub proof fn lemma_le_value_of_le_bytes(n: u32)
    ensures
        le_value(le_bytes(n)) == n,
{
    let b = le_bytes(n);
    assert(b[0] == n % 256);
    assert(b[1] == (n / 256) % 256);
    assert(b[2] == (n / 65536) % 256);
    assert(b[3] == n / 16777216);
    assert(n % 256 + 256 * ((n / 256) % 256) + 65536 * ((n / 65536) % 256) + 16777216 * (n
        / 16777216) == n) by (nonlinear_arith)
        requires
            n <= 0xffff_ffff,
    ;
}

/// Encoding the value of four bytes gives the same four bytes back.
pub proof fn lemma_le_bytes_of_le_value(b: Seq<u8>)
    requires
        b.len() == 4,
    ensures
        le_bytes(le_value(b) as u32) == b,
{
    let n = le_value(b);
    let b0 = b[0] as int;
    let b1 = b[1] as int;
    let b2 = b[2] as int;
    let b3 = b[3] as int;
    assert(n % 256 == b0 && (n / 256) % 256 == b1 && (n / 65536) % 256 == b2 && n / 16777216
        == b3) by (nonlinear_arith)
        requires
            n == b0 + 256 * b1 + 65536 * b2 + 16777216 * b3,
            0 <= b0 < 256,
            0 <= b1 < 256,
            0 <= b2 < 256,
            0 <= b3 < 256,
    ;
    assert(le_bytes(n as u32) =~= b);
}

/// Fills `packet` with the number `packet_num` in its first four bytes,
/// little-endian, followed by the payload `buf`.
pub fn pack_packet(packet: &mut [u8; PACKET_SIZE], packet_num: &u32, buf: &[u8; PACKET_DATA_SIZE])
    ensures
        final(packet)@ == packet_layout(*packet_num, buf@),
        final(packet)@[0] == *packet_num % 256,
        final(packet)@[1] == (*packet_num / 256) % 256,
        final(packet)@[2] == (*packet_num / 65536) % 256,
        final(packet)@[3] == (*packet_num / 16777216) % 256,
        forall|j: int|
            0 <= j < PACKET_DATA_SIZE ==> final(packet)@[PACKET_NUM_SIZE + j] == buf@[j],
{
    let packet_num_bytes = u32_to_le_bytes(*packet_num);
    let ghost start = packet@;
    for i in 0..PACKET_NUM_SIZE
        invariant
            packet@.len() == PACKET_SIZE,
            packet_num_bytes@ == le_bytes(*packet_num),
            forall|k: int| 0 <= k < i ==> packet@[k] == packet_num_bytes@[k],
    {
        packet[i] = packet_num_bytes[i];
    }
    for i in PACKET_NUM_SIZE..PACKET_SIZE
        invariant
            packet@.len() == PACKET_SIZE,
            buf@.len() == PACKET_DATA_SIZE,
            packet_num_bytes@ == le_bytes(*packet_num),
            forall|k: int| 0 <= k < PACKET_NUM_SIZE ==> packet@[k] == packet_num_bytes@[k],
            forall|k: int| PACKET_NUM_SIZE <= k < i ==> packet@[k] == buf@[k - PACKET_NUM_SIZE],
    {
        packet[i] = buf[i - PACKET_NUM_SIZE];
    }
    assert(packet@ =~= packet_layout(*packet_num, buf@));
    proof {
        lemma_le_bytes_digits(*packet_num);
    }
}

/// Reads a packet: its first four bytes, little-endian, into `packet_num`,
/// and the rest into `buf`.
pub fn unpack_packet(
    packet: &[u8; PACKET_SIZE],
    packet_num: &mut u32,
    buf: &mut [u8; PACKET_DATA_SIZE],
)
    ensures
        *final(packet_num) == le_value(packet@.take(PACKET_NUM_SIZE as int)),
        *final(packet_num) == packet@[0] + 256 * packet@[1] + 65536 * packet@[2] + 16777216
            * packet@[3],
        final(buf)@ == packet@.skip(PACKET_NUM_SIZE as int),
        forall|j: int| 0 <= j < PACKET_DATA_SIZE ==> final(buf)@[j] == packet@[PACKET_NUM_SIZE + j],
{
    let mut packet_num_as_bytes: [u8; 4] = [0u8; 4];
    for i in 0..PACKET_NUM_SIZE
        invariant
            packet@.len() == PACKET_SIZE,
            packet_num_as_bytes@.len() == PACKET_NUM_SIZE,
            forall|k: int| 0 <= k < i ==> packet_num_as_bytes@[k] == packet@[k],
    {
        packet_num_as_bytes[i] = packet[i];
    }
    for i in PACKET_NUM_SIZE..PACKET_SIZE
        invariant
            packet@.len() == PACKET_SIZE,
            buf@.len() == PACKET_DATA_SIZE,
            forall|k: int| PACKET_NUM_SIZE <= k < i ==> buf@[k - PACKET_NUM_SIZE] == packet@[k],
    {
        buf[i - PACKET_NUM_SIZE] = packet[i];
    }
    *packet_num = u32_from_le_bytes(packet_num_as_bytes);
    assert(packet_num_as_bytes@ =~= packet@.take(PACKET_NUM_SIZE as int));
    proof {
        lemma_le_value_digits(packet@.take(PACKET_NUM_SIZE as int));
    }
    assert(buf@ =~= packet@.skip(PACKET_NUM_SIZE as int));
}

/// Unpacking a packed packet gives back the number and payload it was packed with.
pub proof fn lemma_unpack_of_pack(num: u32, data: Seq<u8>)
    requires
        data.len() == PACKET_DATA_SIZE,
    ensures
        le_value(packet_layout(num, data).take(PACKET_NUM_SIZE as int)) == num,
        packet_layout(num, data).skip(PACKET_NUM_SIZE as int) == data,
        packet_layout(num, data).len() == PACKET_SIZE,
{
    assert(packet_layout(num, data).take(PACKET_NUM_SIZE as int) =~= le_bytes(num));
    assert(packet_layout(num, data).skip(PACKET_NUM_SIZE as int) =~= data);
    lemma_le_value_of_le_bytes(num);
}

/// Packing the number and payload read from a packet gives the same packet back.
pub proof fn lemma_pack_of_unpack(packet: Seq<u8>)
    requires
        packet.len() == PACKET_SIZE,
    ensures
        packet_layout(
            le_value(packet.take(PACKET_NUM_SIZE as int)) as u32,
            packet.skip(PACKET_NUM_SIZE as int),
        ) == packet,
{
    lemma_le_bytes_of_le_value(packet.take(PACKET_NUM_SIZE as int));
    assert(packet.take(PACKET_NUM_SIZE as int) + packet.skip(PACKET_NUM_SIZE as int) =~= packet);
}

/// The little-endian bytes of a number are its base-256 digits, least
/// significant first.
pub proof fn lemma_le_bytes_digits(n: u32)
    ensures
        le_bytes(n).len() == 4,
        le_bytes(n)[0] == n % 256,
        le_bytes(n)[1] == (n / 256) % 256,
        le_bytes(n)[2] == (n / 65536) % 256,
        le_bytes(n)[3] == (n / 16777216) % 256,
{
}

/// The value of four bytes weighs byte `k` by `256` to the power `k`.
pub proof fn lemma_le_value_digits(b: Seq<u8>)
    requires
        b.len() == 4,
    ensures
        le_value(b) == b[0] + 256 * b[1] + 65536 * b[2] + 16777216 * b[3],
{
}

/// A packed packet is `PACKET_SIZE` bytes: the base-256 digits of its number,
/// least significant first, then the payload byte for byte.
pub proof fn lemma_packet_layout_bytes(num: u32, data: Seq<u8>)
    requires
        data.len() == PACKET_DATA_SIZE,
    ensures
        packet_layout(num, data).len() == PACKET_SIZE,
        packet_layout(num, data)[0] == num % 256,
        packet_layout(num, data)[1] == (num / 256) % 256,
        packet_layout(num, data)[2] == (num / 65536) % 256,
        packet_layout(num, data)[3] == (num / 16777216) % 256,
        forall|j: int|
            0 <= j < PACKET_DATA_SIZE ==> #[trigger] packet_layout(num, data)[PACKET_NUM_SIZE + j]
                == data[j],
{
    lemma_le_bytes_digits(num);
}

} // verus!
