//! Per-window bookkeeping: the report of packet numbers that the sender
//! sends over the control channel, reading it back on the receiving side,
//! and working out which reported packets did not arrive.
use vstd::prelude::*;
use crate::packet::{
    le_bytes, le_value, u32_from_le_bytes, u32_to_le_bytes, PACKET_NUM_SIZE, PACKET_SIZE,
    WINDOW_NUMS_SIZE, WINDOW_SIZE,
};

verus! {

/// The number that slot `i` of a report decodes to: the four bytes that
/// start at offset `i`, read little-endian.
pub open spec fn report_slot_value(bytes: Seq<u8>, i: int) -> int {
    le_value(bytes.subrange(i, i + PACKET_NUM_SIZE as int))
}

/// Reads the packet numbers of one window from a report: slot `i` of
/// `alleged_packet_nums`, for each of the window's slots, becomes the value
/// of the four bytes at offset `i`; the rest of the list is kept.
pub fn get_packet_nums(
    alleged_packet_nums: &mut Vec<u32>,
    alleged_packet_nums_bytes: &[u8; WINDOW_NUMS_SIZE],
)
    requires
        old(alleged_packet_nums).len() >= WINDOW_SIZE,
    ensures
        final(alleged_packet_nums).len() == old(alleged_packet_nums).len(),
        forall|i: int|
            0 <= i < WINDOW_SIZE ==> final(alleged_packet_nums)@[i] == report_slot_value(
                alleged_packet_nums_bytes@,
                i,
            ),
        forall|i: int|
            0 <= i < WINDOW_SIZE ==> #[trigger] final(alleged_packet_nums)@[i]
                == alleged_packet_nums_bytes@[i] + 256 * alleged_packet_nums_bytes@[i + 1] + 65536
                * alleged_packet_nums_bytes@[i + 2] + 16777216 * alleged_packet_nums_bytes@[i + 3],
        forall|i: int|
            WINDOW_SIZE <= i < old(alleged_packet_nums).len() ==> final(alleged_packet_nums)@[i]
                == old(alleged_packet_nums)@[i],
{
    for i in 0..WINDOW_SIZE
        invariant
            alleged_packet_nums.len() == old(alleged_packet_nums).len(),
            old(alleged_packet_nums).len() >= WINDOW_SIZE,
            alleged_packet_nums_bytes@.len() == WINDOW_NUMS_SIZE,
            forall|k: int|
                0 <= k < i ==> alleged_packet_nums@[k] == report_slot_value(
                    alleged_packet_nums_bytes@,
                    k,
                ),
            forall|k: int|
                i <= k < old(alleged_packet_nums).len() ==> alleged_packet_nums@[k] == old(
                    alleged_packet_nums,
                )@[k],
    {
        let mut packet_num_bytes: [u8; 4] = [0u8; 4];
        for j in 0..PACKET_NUM_SIZE
            invariant
                i < WINDOW_SIZE,
                alleged_packet_nums_bytes@.len() == WINDOW_NUMS_SIZE,
                packet_num_bytes@.len() == PACKET_NUM_SIZE,
                forall|k: int|
                    0 <= k < j ==> packet_num_bytes@[k] == alleged_packet_nums_bytes@[i + k],
        {
            packet_num_bytes[j] = alleged_packet_nums_bytes[i + j];
        }
        assert(packet_num_bytes@ =~= alleged_packet_nums_bytes@.subrange(
            i as int,
            i + PACKET_NUM_SIZE as int,
        ));
        let n = u32_from_le_bytes(packet_num_bytes);
        alleged_packet_nums.set(i, n);
    }
    proof {
        assert forall|i: int| 0 <= i < WINDOW_SIZE implies #[trigger] alleged_packet_nums@[i]
            == alleged_packet_nums_bytes@[i] + 256 * alleged_packet_nums_bytes@[i + 1] + 65536
            * alleged_packet_nums_bytes@[i + 2] + 16777216 * alleged_packet_nums_bytes@[i + 3] by {
            lemma_report_slot_value_digits(alleged_packet_nums_bytes@, i);
        }
    }
}

/// Slot `i` of a report weighs the byte at offset `i + k` by `256` to the
/// power `k`.
pub proof fn lemma_report_slot_value_digits(bytes: Seq<u8>, i: int)
    requires
        0 <= i,
        i + PACKET_NUM_SIZE <= bytes.len(),
    ensures
        report_slot_value(bytes, i) == bytes[i] + 256 * bytes[i + 1] + 65536 * bytes[i + 2]
            + 16777216 * bytes[i + 3],
{
}

/// A list with each run of equal neighbours cut down to its first element,
/// as `Vec::dedup` leaves it.
pub open spec fn dedup_seq(s: Seq<u32>) -> Seq<u32>
    decreases s.len(),
{
    if s.len() <= 1 {
        s
    } else {
        let d = dedup_seq(s.drop_last());
        if s.last() == s[s.len() - 2] {
            d
        } else {
            d.push(s.last())
        }
    }
}

/// The missing list for a report: at the position of each reported number,
/// 0 where the number was received and the number itself where it was not.
pub open spec fn missing_marks(alleged: Seq<u32>, recvd: Seq<u32>) -> Seq<u32> {
    Seq::new(
        alleged.len(),
        |i: int|
            if recvd.contains(alleged[i]) {
                0u32
            } else {
                alleged[i]
            },
    )
}

/// Whether some reported number was not received.
pub open spec fn any_missing(alleged: Seq<u32>, recvd: Seq<u32>) -> bool {
    exists|i: int| 0 <= i < alleged.len() && !recvd.contains(#[trigger] alleged[i])
}

proof fn lemma_dedup_last(s: Seq<u32>)
    requires
        s.len() > 0,
    ensures
        dedup_seq(s).len() > 0,
        dedup_seq(s).last() == s.last(),
    decreases s.len(),
{
    if s.len() > 1 {
        lemma_dedup_last(s.drop_last());
    }
}

/// Removing repeated neighbours keeps exactly the same numbers.
pub proof fn lemma_dedup_same_members(s: Seq<u32>)
    ensures
        forall|x: u32|
            #![trigger dedup_seq(s).contains(x)]
            #![trigger s.contains(x)]
            dedup_seq(s).contains(x) <==> s.contains(x),
    decreases s.len(),
{
    if s.len() > 1 {
        let t = s.drop_last();
        lemma_dedup_same_members(t);
        assert forall|x: u32| dedup_seq(s).contains(x) <==> s.contains(x) by {
            if s.contains(x) {
                let k = choose|k: int| 0 <= k < s.len() && s[k] == x;
                if k == s.len() - 1 && s.last() != s[s.len() - 2] {
                    assert(dedup_seq(s)[dedup_seq(s).len() - 1] == x);
                } else {
                    if k < s.len() - 1 {
                        assert(t[k] == x);
                    } else {
                        assert(t[s.len() - 2] == x);
                    }
                    assert(t.contains(x));
                    let d = dedup_seq(t);
                    assert(d.contains(x));
                    let j = choose|j: int| 0 <= j < d.len() && d[j] == x;
                    assert(dedup_seq(s)[j] == x);
                }
            }
            if dedup_seq(s).contains(x) {
                let d = dedup_seq(t);
                let k = choose|k: int| 0 <= k < dedup_seq(s).len() && dedup_seq(s)[k] == x;
                if k < d.len() {
                    assert(d[k] == x);
                    assert(d.contains(x));
                    let m = choose|m: int| 0 <= m < t.len() && t[m] == x;
                    assert(s[m] == x);
                } else {
                    assert(s[s.len() - 1] == x);
                }
            }
        }
    }
}

/// No two neighbouring numbers of a deduplicated list are equal.
pub proof fn lemma_dedup_no_adjacent_repeats(s: Seq<u32>)
    ensures
        forall|i: int|
            0 <= i < dedup_seq(s).len() - 1 ==> #[trigger] dedup_seq(s)[i] != dedup_seq(s)[i + 1],
    decreases s.len(),
{
    if s.len() > 1 {
        let t = s.drop_last();
        lemma_dedup_no_adjacent_repeats(t);
        lemma_dedup_last(t);
    }
}

/// A nonzero number stands in the missing list exactly when it was reported
/// and not received.
pub proof fn lemma_missing_marks_members(alleged: Seq<u32>, recvd: Seq<u32>)
    ensures
        forall|x: u32|
            x != 0 ==> (#[trigger] missing_marks(alleged, recvd).contains(x) <==> (alleged.contains(
                x,
            ) && !recvd.contains(x))),
{
    let m = missing_marks(alleged, recvd);
    assert forall|x: u32| x != 0 implies (#[trigger] m.contains(x) <==> (alleged.contains(x)
        && !recvd.contains(x))) by {
        if m.contains(x) {
            let k = choose|k: int| 0 <= k < m.len() && m[k] == x;
            assert(alleged[k] == x);
        }
        if alleged.contains(x) && !recvd.contains(x) {
            let k = choose|k: int| 0 <= k < alleged.len() && alleged[k] == x;
            assert(m[k] == x);
        }
    }
}

/// The missing list has one entry per reported number: 0 where that number
/// was received, the number itself where it was not; and some number is
/// missing exactly when some reported number is not among the received ones.
pub proof fn lemma_missing_marks_positions(alleged: Seq<u32>, recvd: Seq<u32>)
    ensures
        missing_marks(alleged, recvd).len() == alleged.len(),
        forall|i: int|
            0 <= i < alleged.len() ==> #[trigger] missing_marks(alleged, recvd)[i] == if recvd.contains(
                alleged[i],
            ) {
                0u32
            } else {
                alleged[i]
            },
        any_missing(alleged, recvd) <==> exists|i: int|
            0 <= i < alleged.len() && !recvd.contains(#[trigger] alleged[i]),
{
}

/// Cutting repeated neighbours, element by element: nothing stays nothing,
/// and a number appended to a list is kept exactly when it differs from the
/// list's last number.
pub proof fn lemma_dedup_push(s: Seq<u32>, x: u32)
    ensures
        dedup_seq(Seq::empty()) == Seq::<u32>::empty(),
        dedup_seq(s.push(x)) == if s.len() > 0 && s.last() == x {
            dedup_seq(s)
        } else {
            dedup_seq(s).push(x)
        },
{
    assert(s.push(x).drop_last() =~= s);
    if s.len() == 0 {
        assert(dedup_seq(s.push(x)) =~= dedup_seq(s).push(x));
    }
}

/// Removes repeated neighbours in place, as `Vec::dedup` does.
fn dedup_nums(v: &mut Vec<u32>)
    ensures
        final(v)@ == dedup_seq(old(v)@),
{
    let mut out: Vec<u32> = Vec::new();
    let n = v.len();
    for i in 0..n
        invariant
            n == v.len(),
            v@ == old(v)@,
            out@ == dedup_seq(v@.take(i as int)),
    {
        proof {
            assert(v@.take(i + 1).drop_last() =~= v@.take(i as int));
            if i > 0 {
                lemma_dedup_last(v@.take(i as int));
            }
        }
        if out.len() == 0 || out[out.len() - 1] != v[i] {
            out.push(v[i]);
        }
    }
    assert(v@.take(n as int) =~= v@);
    *v = out;
}

/// Whether `x` is one of the numbers in `v`.
fn contains_num(v: &Vec<u32>, x: u32) -> (b: bool)
    ensures
        b == v@.contains(x),
{
    for i in 0..v.len()
        invariant
            forall|k: int| 0 <= k < i ==> v@[k] != x,
    {
        if v[i] == x {
            assert(v@[i as int] == x);
            return true;
        }
    }
    false
}

/// Compares the reported packet numbers with the received ones. The received
/// list is first cut down so that no number follows an equal one. The
/// missing list is then made to hold, at the position of each reported
/// number, 0 where that number was received and the number itself where it
/// was not. Returns whether any reported number was not received.
pub fn get_missing_packet_nums(
    alleged_packet_nums: &Vec<u32>,
    recvd_packet_nums: &mut Vec<u32>,
    missing_packet_nums: &mut Vec<u32>,
) -> (r: bool)
    ensures
        final(recvd_packet_nums)@ == dedup_seq(old(recvd_packet_nums)@),
        final(missing_packet_nums)@ == missing_marks(
            alleged_packet_nums@,
            old(recvd_packet_nums)@,
        ),
        r == any_missing(alleged_packet_nums@, old(recvd_packet_nums)@),
        final(missing_packet_nums)@.len() == alleged_packet_nums@.len(),
        forall|i: int|
            0 <= i < alleged_packet_nums@.len() ==> #[trigger] final(missing_packet_nums)@[i] == if old(
                recvd_packet_nums,
            )@.contains(alleged_packet_nums@[i]) {
                0u32
            } else {
                alleged_packet_nums@[i]
            },
        r == exists|i: int|
            0 <= i < alleged_packet_nums@.len() && !old(recvd_packet_nums)@.contains(
                #[trigger] alleged_packet_nums@[i],
            ),
{
    let ghost recvd0 = recvd_packet_nums@;
    let mut return_value = false;
    dedup_nums(recvd_packet_nums);
    proof {
        lemma_dedup_same_members(recvd0);
    }
    let mut marks: Vec<u32> = Vec::new();
    for i in 0..alleged_packet_nums.len()
        invariant
            recvd0 == old(recvd_packet_nums)@,
            recvd_packet_nums@ == dedup_seq(recvd0),
            forall|x: u32| recvd_packet_nums@.contains(x) <==> recvd0.contains(x),
            marks@ == missing_marks(alleged_packet_nums@, recvd0).take(i as int),
            return_value == any_missing(alleged_packet_nums@.take(i as int), recvd0),
    {
        let element = alleged_packet_nums[i];
        let ghost before = alleged_packet_nums@.take(i as int);
        let ghost after = alleged_packet_nums@.take(i + 1);
        if !contains_num(recvd_packet_nums, element) {
            return_value = true;
            marks.push(element);
            assert(!recvd0.contains(after[i as int]));
        } else {
            marks.push(0u32);
            assert forall|k: int| 0 <= k < after.len() && !recvd0.contains(#[trigger] after[k])
                implies 0 <= k < before.len() && !recvd0.contains(before[k]) by {
                assert(k != i);
                assert(after[k] == before[k]);
            }
        }
        assert forall|k: int| 0 <= k < before.len() && !recvd0.contains(#[trigger] before[k])
            implies !recvd0.contains(after[k]) by {
            assert(after[k] == before[k]);
        }
        assert(marks@ =~= missing_marks(alleged_packet_nums@, recvd0).take(i + 1));
    }
    assert(alleged_packet_nums@.take(alleged_packet_nums@.len() as int) =~= alleged_packet_nums@);
    assert(marks@ =~= missing_marks(alleged_packet_nums@, recvd0));
    *missing_packet_nums = marks;
    proof {
        lemma_missing_marks_positions(alleged_packet_nums@, recvd0);
    }
    return_value
}

/// The most numbers a report of missing packets can carry: the four bytes
/// of the last one must still fit in the report.
pub const MAX_REPORTED_MISSING: usize = WINDOW_NUMS_SIZE - PACKET_NUM_SIZE + 1;

/// Byte `k` of a report built over a zeroed buffer by writing, for each row
/// `i` in turn, the first four bytes of row `i` at offsets `i` to `i + 3`:
/// each row starts one byte after the one before it, and overwrites it
/// where the two overlap.
pub open spec fn overlaid_byte(rows: Seq<Seq<u8>>, k: int) -> u8 {
    if rows.len() == 0 {
        0
    } else {
        let i = if k < rows.len() {
            k
        } else {
            rows.len() - 1
        };
        if k - i < PACKET_NUM_SIZE {
            rows[i][k - i]
        } else {
            0
        }
    }
}

/// The report built from `rows` as `overlaid_byte` describes.
pub open spec fn overlaid_report(rows: Seq<Seq<u8>>) -> Seq<u8> {
    Seq::new(WINDOW_NUMS_SIZE as nat, |k: int| overlaid_byte(rows, k))
}

/// The views of a list of four-byte heads.
pub open spec fn head_views(heads: Seq<[u8; 4]>) -> Seq<Seq<u8>> {
    heads.map_values(|h: [u8; 4]| h@)
}

/// Writes the heads over a zeroed report, head `i` at offsets `i` to `i + 3`.
fn overlay_heads(heads: &Vec<[u8; 4]>) -> (report: [u8; WINDOW_NUMS_SIZE])
    requires
        heads.len() <= MAX_REPORTED_MISSING,
    ensures
        report@ == overlaid_report(head_views(heads@)),
{
    let ghost rows = head_views(heads@);
    let mut report: [u8; WINDOW_NUMS_SIZE] = [0u8; WINDOW_NUMS_SIZE];
    assert(report@ =~= overlaid_report(rows.take(0)));
    for i in 0..heads.len()
        invariant
            heads.len() <= MAX_REPORTED_MISSING,
            rows == head_views(heads@),
            report@ == overlaid_report(rows.take(i as int)),
    {
        let head = heads[i];
        assert(rows[i as int] == head@);
        let ghost before = report@;
        for j in 0..PACKET_NUM_SIZE
            invariant
                i < heads.len(),
                heads.len() <= MAX_REPORTED_MISSING,
                rows == head_views(heads@),
                rows[i as int] == head@,
                before == overlaid_report(rows.take(i as int)),
                report@.len() == WINDOW_NUMS_SIZE,
                forall|k: int|
                    0 <= k < WINDOW_NUMS_SIZE ==> report@[k] == if i <= k < i + j {
                        head@[k - i]
                    } else {
                        before[k]
                    },
        {
            report[i + j] = head[j];
        }
        assert(report@ =~= overlaid_report(rows.take(i + 1)));
    }
    assert(rows.take(heads.len() as int) =~= rows);
    report
}

/// The report of the packet numbers in a full window of packets: the first
/// four bytes of packet `i` are written at offsets `i` to `i + 3`, in
/// packet order, over a zeroed report.
pub fn window_report(window_packets: &[[u8; PACKET_SIZE]; WINDOW_SIZE]) -> (report: [u8;
    WINDOW_NUMS_SIZE])
    ensures
        report@ == overlaid_report(window_packets@.map_values(|p: [u8; PACKET_SIZE]| p@)),
{
    let mut heads: Vec<[u8; 4]> = Vec::new();
    for i in 0..WINDOW_SIZE
        invariant
            heads.len() == i,
            forall|k: int|
                0 <= k < i ==> #[trigger] heads@[k]@ == window_packets@[k]@.take(
                    PACKET_NUM_SIZE as int,
                ),
    {
        let packet = &window_packets[i];
        let head: [u8; 4] = [packet[0], packet[1], packet[2], packet[3]];
        assert(head@ =~= window_packets@[i as int]@.take(PACKET_NUM_SIZE as int));
        heads.push(head);
    }
    let report = overlay_heads(&heads);
    let ghost rows = window_packets@.map_values(|p: [u8; PACKET_SIZE]| p@);
    assert forall|k: int| 0 <= k < WINDOW_NUMS_SIZE implies overlaid_byte(
        head_views(heads@),
        k,
    ) == overlaid_byte(rows, k) by {
        let i = if k < WINDOW_SIZE {
            k
        } else {
            WINDOW_SIZE - 1
        };
        assert(heads@[i]@ == window_packets@[i]@.take(PACKET_NUM_SIZE as int));
    }
    assert(report@ =~= overlaid_report(rows));
    report
}

/// The report of the missing list (its zeros included): the little-endian bytes of
/// number `i` are written at offsets `i` to `i + 3`, in list order, over a
/// zeroed report.
pub fn missing_report(missing_packet_nums: &Vec<u32>) -> (report: [u8; WINDOW_NUMS_SIZE])
    requires
        missing_packet_nums.len() <= MAX_REPORTED_MISSING,
    ensures
        report@ == overlaid_report(missing_packet_nums@.map_values(|n: u32| le_bytes(n))),
{
    let mut heads: Vec<[u8; 4]> = Vec::new();
    for i in 0..missing_packet_nums.len()
        invariant
            heads.len() == i,
            forall|k: int| 0 <= k < i ==> #[trigger] heads@[k]@ == le_bytes(missing_packet_nums@[k]),
    {
        heads.push(u32_to_le_bytes(missing_packet_nums[i]));
    }
    let report = overlay_heads(&heads);
    let ghost rows = missing_packet_nums@.map_values(|n: u32| le_bytes(n));
    assert(head_views(heads@) =~= rows);
    report
}

/// A report is what the rows write in turn over a zeroed report, row `i`
/// at offsets `i` to `i + 3`: the first byte of each row stays where it was
/// written, so does every byte of the last row, and past the last row's
/// bytes the report stays zero.
pub proof fn lemma_overlaid_report_writes(rows: Seq<Seq<u8>>)
    requires
        rows.len() <= MAX_REPORTED_MISSING,
    ensures
        overlaid_report(rows).len() == WINDOW_NUMS_SIZE,
        forall|i: int, j: int|
            #![trigger rows[i][j]]
            0 <= i < rows.len() && 0 <= j < PACKET_NUM_SIZE && (j == 0 || i == rows.len() - 1)
                ==> overlaid_report(rows)[i + j] == rows[i][j],
        forall|k: int|
            rows.len() + PACKET_NUM_SIZE - 1 <= k < WINDOW_NUMS_SIZE ==> #[trigger] overlaid_report(
                rows,
            )[k] == 0,
        rows.len() == 0 ==> forall|k: int|
            0 <= k < WINDOW_NUMS_SIZE ==> #[trigger] overlaid_report(rows)[k] == 0,
{
}

/// Reading back a report of rows (the packets of a window, or the missing
/// numbers): the slot of the last row gives the number that row carries,
/// and every other row's slot gives a number whose low byte is that of the
/// row's number (neighbouring rows overlap, so the higher bytes come from
/// the rows after it).
pub proof fn lemma_report_read_back(rows: Seq<Seq<u8>>)
    requires
        1 <= rows.len() <= MAX_REPORTED_MISSING,
        forall|i: int| 0 <= i < rows.len() ==> #[trigger] rows[i].len() >= PACKET_NUM_SIZE,
    ensures
        report_slot_value(overlaid_report(rows), rows.len() - 1) == le_value(
            rows[rows.len() - 1].take(PACKET_NUM_SIZE as int),
        ),
        forall|i: int|
            0 <= i < rows.len() ==> #[trigger] report_slot_value(overlaid_report(rows), i) % 256
                == le_value(rows[i].take(PACKET_NUM_SIZE as int)) % 256,
{
    let report = overlaid_report(rows);
    let last = rows.len() - 1;
    assert(report.subrange(last, last + PACKET_NUM_SIZE as int) =~= rows[last].take(
        PACKET_NUM_SIZE as int,
    ));
    assert forall|i: int| 0 <= i < rows.len() implies #[trigger] report_slot_value(report, i) % 256
        == le_value(rows[i].take(PACKET_NUM_SIZE as int)) % 256 by {
        let b = report.subrange(i, i + PACKET_NUM_SIZE as int);
        let h = rows[i].take(PACKET_NUM_SIZE as int);
        assert(b[0] == h[0]);
        lemma_le_value_low_byte(b);
        lemma_le_value_low_byte(h);
    }
}

proof fn lemma_le_value_low_byte(b: Seq<u8>)
    requires
        b.len() == PACKET_NUM_SIZE,
    ensures
        le_value(b) % 256 == b[0],
{
    let b0 = b[0] as int;
    let b1 = b[1] as int;
    let b2 = b[2] as int;
    let b3 = b[3] as int;
    assert((b0 + 256 * b1 + 65536 * b2 + 16777216 * b3) % 256 == b0) by (nonlinear_arith)
        requires
            0 <= b0 < 256,
            0 <= b1 < 256,
            0 <= b2 < 256,
            0 <= b3 < 256,
    ;
}

} // verus!
