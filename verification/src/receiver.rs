//! The windowed receiving side's decisions. The caller receives the packets
//! and the sender's reports, and sends back what these return.
use vstd::prelude::*;
use crate::packet::{
    le_bytes, le_value, unpack_packet, PACKET_DATA_SIZE, PACKET_NUM_SIZE, PACKET_SIZE, WINDOW_NUMS_SIZE,
    WINDOW_SIZE,
};
use crate::window::{
    any_missing, dedup_seq, get_missing_packet_nums, get_packet_nums, missing_marks,
    missing_report, overlaid_report, report_slot_value, MAX_REPORTED_MISSING,
};

verus! {

/// The state of a windowed receiver, as a value.
pub struct WindowReceiverView {
    /// The packet numbers received in the current window, by slot.
    pub recvd_packet_nums: Seq<u32>,
    /// The packet numbers the sender reported for the window.
    pub alleged_packet_nums: Seq<u32>,
    /// The missing list: per reported number, 0 if received, else the number.
    pub missing_packet_nums: Seq<u32>,
    /// How many packets were received so far.
    pub count: i32,
}

/// A receiver that records each packet's number in the slot of the window
/// it arrived in, reads the sender's report of the window, and works out
/// which reported packets are missing.
pub struct WindowReceiver {
    recvd_packet_nums: Vec<u32>,
    alleged_packet_nums: Vec<u32>,
    missing_packet_nums: Vec<u32>,
    count: i32,
}

impl View for WindowReceiver {
    type V = WindowReceiverView;

    closed spec fn view(&self) -> WindowReceiverView {
        WindowReceiverView {
            recvd_packet_nums: self.recvd_packet_nums@,
            alleged_packet_nums: self.alleged_packet_nums@,
            missing_packet_nums: self.missing_packet_nums@,
            count: self.count,
        }
    }
}

impl WindowReceiver {
    /// A receiver at the start of a transfer: all three lists are empty and
    /// nothing was received. (Its list of received numbers has no slot yet,
    /// so no packet can be recorded in it.)
    pub fn new() -> (r: Self)
        ensures
            r@.recvd_packet_nums == Seq::<u32>::empty(),
            r@.alleged_packet_nums == Seq::<u32>::empty(),
            r@.missing_packet_nums == Seq::<u32>::empty(),
            r@.count == 0,
    {
        WindowReceiver {
            recvd_packet_nums: Vec::new(),
            alleged_packet_nums: Vec::new(),
            missing_packet_nums: Vec::new(),
            count: 0,
        }
    }

    /// A receiver that holds the given lists and has received nothing yet.
    pub fn from_lists(
        recvd_packet_nums: Vec<u32>,
        alleged_packet_nums: Vec<u32>,
        missing_packet_nums: Vec<u32>,
    ) -> (r: Self)
        ensures
            r@.recvd_packet_nums == recvd_packet_nums@,
            r@.alleged_packet_nums == alleged_packet_nums@,
            r@.missing_packet_nums == missing_packet_nums@,
            r@.count == 0,
    {
        WindowReceiver { recvd_packet_nums, alleged_packet_nums, missing_packet_nums, count: 0 }
    }

    /// Takes a packet received as the `slot`-th packet of the window: records
    /// its number in that slot and counts it. Returns the packet's number
    /// and payload.
    pub fn on_packet(&mut self, slot: usize, packet: &[u8; PACKET_SIZE]) -> (out: (
        u32,
        [u8; PACKET_DATA_SIZE],
    ))
        requires
            slot < old(self)@.recvd_packet_nums.len(),
            old(self)@.count < i32::MAX,
        ensures
            out.0 == le_value(packet@.take(PACKET_NUM_SIZE as int)),
            out.1@ == packet@.skip(PACKET_NUM_SIZE as int),
            final(self)@.recvd_packet_nums == old(self)@.recvd_packet_nums.update(
                slot as int,
                out.0,
            ),
            final(self)@.count == old(self)@.count + 1,
            final(self)@.alleged_packet_nums == old(self)@.alleged_packet_nums,
            final(self)@.missing_packet_nums == old(self)@.missing_packet_nums,
    {
        let mut packet_num: u32 = 0;
        let mut buf: [u8; PACKET_DATA_SIZE] = [0u8; PACKET_DATA_SIZE];
        unpack_packet(packet, &mut packet_num, &mut buf);
        self.recvd_packet_nums.set(slot, packet_num);
        self.count = self.count + 1;
        (packet_num, buf)
    }

    /// Takes the sender's report of the window and reads the reported
    /// numbers from it into the first `WINDOW_SIZE` slots of the reported list.
    pub fn read_report(&mut self, report: &[u8; WINDOW_NUMS_SIZE])
        requires
            old(self)@.alleged_packet_nums.len() >= WINDOW_SIZE,
        ensures
            final(self)@.alleged_packet_nums.len() == old(self)@.alleged_packet_nums.len(),
            forall|i: int|
                0 <= i < WINDOW_SIZE ==> final(self)@.alleged_packet_nums[i] == report_slot_value(
                    report@,
                    i,
                ),
            forall|i: int|
                WINDOW_SIZE <= i < old(self)@.alleged_packet_nums.len()
                    ==> final(self)@.alleged_packet_nums[i] == old(self)@.alleged_packet_nums[i],
            final(self)@.recvd_packet_nums == old(self)@.recvd_packet_nums,
            final(self)@.missing_packet_nums == old(self)@.missing_packet_nums,
            final(self)@.count == old(self)@.count,
    {
        get_packet_nums(&mut self.alleged_packet_nums, report);
    }

    /// Compares the reported numbers with the received ones, as
    /// `get_missing_packet_nums` does, and returns whether any reported
    /// number was not received: then a report of the missing list is owed.
    pub fn compare(&mut self) -> (differs: bool)
        ensures
            final(self)@.recvd_packet_nums == dedup_seq(old(self)@.recvd_packet_nums),
            final(self)@.missing_packet_nums == missing_marks(
                old(self)@.alleged_packet_nums,
                old(self)@.recvd_packet_nums,
            ),
            differs == any_missing(old(self)@.alleged_packet_nums, old(self)@.recvd_packet_nums),
            differs == exists|i: int|
                0 <= i < old(self)@.alleged_packet_nums.len()
                    && !old(self)@.recvd_packet_nums.contains(
                    #[trigger] old(self)@.alleged_packet_nums[i],
                ),
            final(self)@.alleged_packet_nums == old(self)@.alleged_packet_nums,
            final(self)@.count == old(self)@.count,
    {
        get_missing_packet_nums(
            &self.alleged_packet_nums,
            &mut self.recvd_packet_nums,
            &mut self.missing_packet_nums,
        )
    }

    /// The report of the missing list to send back to the sender.
    pub fn missing_report(&self) -> (report: [u8; WINDOW_NUMS_SIZE])
        requires
            self@.missing_packet_nums.len() <= MAX_REPORTED_MISSING,
        ensures
            report@ == overlaid_report(
                self@.missing_packet_nums.map_values(|n: u32| le_bytes(n)),
            ),
    {
        missing_report(&self.missing_packet_nums)
    }

    /// How many packets were received so far.
    pub fn count(&self) -> (n: i32)
        ensures
            n == self@.count,
    {
        self.count
    }

    /// The packet numbers received in the current window, by slot.
    pub fn recvd_packet_nums(&self) -> (v: &Vec<u32>)
        ensures
            v@ == self@.recvd_packet_nums,
    {
        &self.recvd_packet_nums
    }

    /// The packet numbers the sender reported for the window.
    pub fn alleged_packet_nums(&self) -> (v: &Vec<u32>)
        ensures
            v@ == self@.alleged_packet_nums,
    {
        &self.alleged_packet_nums
    }

    /// The missing list.
    pub fn missing_packet_nums(&self) -> (v: &Vec<u32>)
        ensures
            v@ == self@.missing_packet_nums,
    {
        &self.missing_packet_nums
    }
}

} // verus!
