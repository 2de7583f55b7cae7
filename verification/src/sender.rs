//! The sending side's decisions, one data chunk at a time. The caller reads
//! each chunk from the file and sends what these return; the packets are
//! laid out as `packet` describes.
use vstd::prelude::*;
use crate::packet::{
    pack_packet, packet_layout, PACKET_DATA_SIZE, PACKET_SIZE, WINDOW_NUMS_SIZE, WINDOW_SIZE,
};
use crate::window::{overlaid_report, window_report};

verus! {

/// The state of a windowed sender, as a value.
pub struct WindowSenderView {
    /// The number the next packet will carry.
    pub next_packet_num: u32,
    /// How many packets were sent so far.
    pub sent_count: i32,
    /// The slot of the current window the next packet fills.
    pub slot: nat,
    /// How many bytes the last read of the file gave.
    pub last_read: nat,
    /// The packets of the current window, by slot.
    pub window: Seq<Seq<u8>>,
}

/// A sender that sends packets in windows of `WINDOW_SIZE`, numbering them
/// from 1, and after each full window reports the numbers it sent. It goes
/// on with another window as long as the last read of the file filled a
/// whole payload.
pub struct WindowSender {
    next_packet_num: u32,
    sent_count: i32,
    slot: usize,
    last_read: usize,
    window_packets: [[u8; PACKET_SIZE]; WINDOW_SIZE],
}

impl View for WindowSender {
    type V = WindowSenderView;

    closed spec fn view(&self) -> WindowSenderView {
        WindowSenderView {
            next_packet_num: self.next_packet_num,
            sent_count: self.sent_count,
            slot: self.slot as nat,
            last_read: self.last_read as nat,
            window: self.window_packets@.map_values(|p: [u8; PACKET_SIZE]| p@),
        }
    }
}

impl WindowSender {
    #[verifier::type_invariant]
    spec fn slot_in_window(self) -> bool {
        self.slot < WINDOW_SIZE
    }

    /// A sender before its first packet: the next packet is number 1, the
    /// window is empty (all zero) and the last read counts as full.
    pub fn new() -> (s: Self)
        ensures
            s@.next_packet_num == 1,
            s@.sent_count == 0,
            s@.slot == 0,
            s@.last_read == PACKET_DATA_SIZE,
            s@.window == Seq::new(
                WINDOW_SIZE as nat,
                |i: int| Seq::new(PACKET_SIZE as nat, |k: int| 0u8),
            ),
    {
        let zero_packet: [u8; PACKET_SIZE] = [0u8; PACKET_SIZE];
        let ghost zeros = Seq::new(PACKET_SIZE as nat, |k: int| 0u8);
        assert(zero_packet@ =~= zeros);
        let s = WindowSender {
            next_packet_num: 1,
            sent_count: 0,
            slot: 0,
            last_read: PACKET_DATA_SIZE,
            window_packets: [zero_packet; WINDOW_SIZE],
        };
        assert(s@.window =~= Seq::new(WINDOW_SIZE as nat, |i: int| zeros));
        s
    }

    /// The number the next packet will carry.
    pub fn next_packet_num(&self) -> (n: u32)
        ensures
            n == self@.next_packet_num,
    {
        self.next_packet_num
    }

    /// How many packets were sent so far.
    pub fn sent_count(&self) -> (n: i32)
        ensures
            n == self@.sent_count,
    {
        self.sent_count
    }

    /// Whether the sender wants another chunk: inside a window always; at
    /// the start of a window only when the last read filled a whole payload.
    /// When it does not, the transfer is over and the stop signal follows.
    pub fn wants_chunk(&self) -> (b: bool)
        ensures
            b == (self@.slot != 0 || self@.last_read == PACKET_DATA_SIZE),
    {
        self.slot != 0 || self.last_read == PACKET_DATA_SIZE
    }

    /// Takes the next chunk read from the file (`num_bytes_read` bytes were
    /// read into `buf`) and returns the packet to send for it, numbered with
    /// the next packet number, and, when it completes the window, the report
    /// of the window's packet numbers to send on the control channel.
    pub fn on_chunk(&mut self, num_bytes_read: usize, buf: &[u8; PACKET_DATA_SIZE]) -> (out: (
        [u8; PACKET_SIZE],
        Option<[u8; WINDOW_NUMS_SIZE]>,
    ))
        requires
            old(self)@.next_packet_num < u32::MAX,
            old(self)@.sent_count < i32::MAX,
        ensures
            out.0@ == packet_layout(old(self)@.next_packet_num, buf@),
            final(self)@.next_packet_num == old(self)@.next_packet_num + 1,
            final(self)@.sent_count == old(self)@.sent_count + 1,
            final(self)@.last_read == num_bytes_read,
            final(self)@.window == old(self)@.window.update(old(self)@.slot as int, out.0@),
            old(self)@.slot + 1 == WINDOW_SIZE ==> final(self)@.slot == 0 && (out.1 matches Some(
                report
            ) && report@ == overlaid_report(final(self)@.window)),
            old(self)@.slot + 1 < WINDOW_SIZE ==> final(self)@.slot == old(self)@.slot + 1
                && out.1 is None,
    {
        proof {
            use_type_invariant(&*self);
        }
        let mut packet: [u8; PACKET_SIZE] = [0u8; PACKET_SIZE];
        pack_packet(&mut packet, &self.next_packet_num, buf);
        let ghost old_window = self@.window;
        let slot = self.slot;
        self.window_packets[slot] = packet;
        self.next_packet_num = self.next_packet_num + 1;
        self.sent_count = self.sent_count + 1;
        self.last_read = num_bytes_read;
        assert(self@.window =~= old_window.update(slot as int, packet@));
        if slot + 1 == WINDOW_SIZE {
            self.slot = 0;
            let report = window_report(&self.window_packets);
            (packet, Some(report))
        } else {
            self.slot = slot + 1;
            (packet, None)
        }
    }
}

/// The state of a streaming sender, as a value.
pub struct StreamSenderView {
    /// The number the next packet will carry.
    pub next_packet_num: u32,
    /// Whether the last packet, the one of a short chunk, was handed out.
    pub finished: bool,
}

/// A sender that sends one packet per chunk of the file, numbering them
/// from 0, until a chunk does not fill a whole payload: the packet of that
/// chunk is the last one.
pub struct StreamSender {
    next_packet_num: u32,
    finished: bool,
}

impl View for StreamSender {
    type V = StreamSenderView;

    closed spec fn view(&self) -> StreamSenderView {
        StreamSenderView { next_packet_num: self.next_packet_num, finished: self.finished }
    }
}

impl StreamSender {
    /// A sender before its first packet, which will carry number 0.
    pub fn new() -> (s: Self)
        ensures
            s@.next_packet_num == 0,
            !s@.finished,
    {
        StreamSender { next_packet_num: 0, finished: false }
    }

    /// Whether the last packet was handed out.
    pub fn is_finished(&self) -> (b: bool)
        ensures
            b == self@.finished,
    {
        self.finished
    }

    /// The number the next packet will carry.
    pub fn next_packet_num(&self) -> (n: u32)
        ensures
            n == self@.next_packet_num,
    {
        self.next_packet_num
    }

    /// Takes the next chunk read from the file (`amount` bytes were read into
    /// `buf`) and returns its packet, numbered with the next packet number.
    /// A full chunk moves on to the next number; a short one ends the stream.
    pub fn on_chunk(&mut self, amount: usize, buf: &[u8; PACKET_DATA_SIZE]) -> (packet: [u8;
        PACKET_SIZE])
        requires
            !old(self)@.finished,
            amount == PACKET_DATA_SIZE ==> old(self)@.next_packet_num < u32::MAX,
        ensures
            packet@ == packet_layout(old(self)@.next_packet_num, buf@),
            final(self)@.finished == (amount != PACKET_DATA_SIZE),
            final(self)@.next_packet_num == if amount == PACKET_DATA_SIZE {
                old(self)@.next_packet_num + 1
            } else {
                old(self)@.next_packet_num as int
            },
    {
        let mut packet: [u8; PACKET_SIZE] = [0u8; PACKET_SIZE];
        pack_packet(&mut packet, &self.next_packet_num, buf);
        if amount == PACKET_DATA_SIZE {
            self.next_packet_num = self.next_packet_num + 1;
        } else {
            self.finished = true;
        }
        packet
    }
}

} // verus!
