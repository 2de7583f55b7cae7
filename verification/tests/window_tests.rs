use lib::packet::{pack_packet, PACKET_DATA_SIZE, PACKET_SIZE, WINDOW_NUMS_SIZE, WINDOW_SIZE};
use lib::window::{
    get_missing_packet_nums, get_packet_nums, missing_report, window_report, MAX_REPORTED_MISSING,
};

#[test]
fn get_packet_nums_reads_four_bytes_at_each_slot_offset() {
    let mut bytes = [0u8; WINDOW_NUMS_SIZE];
    for i in 0..WINDOW_NUMS_SIZE {
        bytes[i] = i as u8 + 1;
    }
    let mut nums = vec![0u32; WINDOW_SIZE];
    get_packet_nums(&mut nums, &bytes);
    for i in 0..WINDOW_SIZE {
        let expected = u32::from_le_bytes([bytes[i], bytes[i + 1], bytes[i + 2], bytes[i + 3]]);
        assert_eq!(nums[i], expected);
    }
    assert_eq!(nums[0], 0x0403_0201);
    assert_eq!(nums[7], 0x0b0a_0908);
}

#[test]
fn get_packet_nums_keeps_entries_after_the_window() {
    let bytes = [1u8; WINDOW_NUMS_SIZE];
    let mut nums = vec![7u32; WINDOW_SIZE + 2];
    get_packet_nums(&mut nums, &bytes);
    assert_eq!(nums.len(), WINDOW_SIZE + 2);
    assert!(nums[..WINDOW_SIZE].iter().all(|&n| n == 0x0101_0101));
    assert_eq!(&nums[WINDOW_SIZE..], &[7, 7]);
}

#[test]
fn get_missing_packet_nums_marks_unreceived_at_their_positions() {
    let alleged = vec![1u32, 2, 3, 4, 5, 6, 7, 8];
    let mut recvd = vec![1u32, 1, 2, 2, 3, 5, 3];
    let mut missing = vec![99u32];
    let differs = get_missing_packet_nums(&alleged, &mut recvd, &mut missing);
    assert!(differs);
    assert_eq!(recvd, vec![1, 2, 3, 5, 3]);
    assert_eq!(missing, vec![0, 0, 0, 4, 0, 6, 7, 8]);
}

#[test]
fn get_missing_packet_nums_replaces_the_old_list() {
    let alleged = vec![1u32, 2];
    let mut recvd = vec![1u32];
    let mut missing = vec![0u32, 0];
    assert!(get_missing_packet_nums(&alleged, &mut recvd, &mut missing));
    assert_eq!(missing, vec![0, 2]);
}

#[test]
fn get_missing_packet_nums_without_differences() {
    let alleged = vec![3u32, 1, 2];
    let mut recvd = vec![1u32, 2, 2, 3, 4];
    let mut missing = vec![5u32, 6, 7, 8];
    assert!(!get_missing_packet_nums(&alleged, &mut recvd, &mut missing));
    assert_eq!(missing, vec![0, 0, 0]);
    assert_eq!(recvd, vec![1, 2, 3, 4]);
}

#[test]
fn get_missing_packet_nums_with_nothing_received() {
    let alleged = vec![4u32, 4, 9];
    let mut recvd: Vec<u32> = Vec::new();
    let mut missing: Vec<u32> = Vec::new();
    assert!(get_missing_packet_nums(&alleged, &mut recvd, &mut missing));
    assert_eq!(missing, vec![4, 4, 9]);
    assert!(recvd.is_empty());
}

#[test]
fn get_missing_packet_nums_with_empty_report() {
    let alleged: Vec<u32> = Vec::new();
    let mut recvd = vec![5u32, 5];
    let mut missing = vec![1u32];
    assert!(!get_missing_packet_nums(&alleged, &mut recvd, &mut missing));
    assert!(missing.is_empty());
    assert_eq!(recvd, vec![5]);
}

#[test]
fn get_missing_packet_nums_missing_zero_is_marked_zero() {
    let alleged = vec![0u32, 3];
    let mut recvd = vec![3u32];
    let mut missing = Vec::new();
    assert!(get_missing_packet_nums(&alleged, &mut recvd, &mut missing));
    assert_eq!(missing, vec![0, 0]);
}

fn window_of(nums: [u32; WINDOW_SIZE]) -> [[u8; PACKET_SIZE]; WINDOW_SIZE] {
    let mut window = [[0u8; PACKET_SIZE]; WINDOW_SIZE];
    let buf = [0x55u8; PACKET_DATA_SIZE];
    for i in 0..WINDOW_SIZE {
        pack_packet(&mut window[i], &nums[i], &buf);
    }
    window
}

#[test]
fn window_report_overlays_packet_heads() {
    let report = window_report(&window_of([1, 2, 3, 4, 5, 6, 7, 8]));
    let mut expected = [0u8; WINDOW_NUMS_SIZE];
    expected[..8].copy_from_slice(&[1, 2, 3, 4, 5, 6, 7, 8]);
    assert_eq!(report, expected);

    let report = window_report(&window_of([0x0403_0201; WINDOW_SIZE]));
    let mut expected = [0u8; WINDOW_NUMS_SIZE];
    expected[..11].copy_from_slice(&[1, 1, 1, 1, 1, 1, 1, 1, 2, 3, 4]);
    assert_eq!(report, expected);
}

#[test]
fn window_report_read_back_gives_last_number_and_low_bytes() {
    let nums = [0x0100_00ffu32, 0x0200_0011, 0x33, 0x44, 0x55, 0x66, 0x77, 0x1234_5678];
    let report = window_report(&window_of(nums));
    let mut read = vec![0u32; WINDOW_SIZE];
    get_packet_nums(&mut read, &report);
    assert_eq!(read[WINDOW_SIZE - 1], nums[WINDOW_SIZE - 1]);
    for i in 0..WINDOW_SIZE {
        assert_eq!(read[i] % 256, nums[i] % 256);
    }
    // Neighbouring reports overlap: earlier slots do not read back whole numbers.
    assert_ne!(read[0], nums[0]);
}

#[test]
fn missing_report_overlays_number_bytes() {
    let report = missing_report(&vec![0x0403_0201, 0x0807_0605]);
    let mut expected = [0u8; WINDOW_NUMS_SIZE];
    expected[..5].copy_from_slice(&[1, 5, 6, 7, 8]);
    assert_eq!(report, expected);
    assert_eq!(missing_report(&Vec::new()), [0u8; WINDOW_NUMS_SIZE]);
}

#[test]
fn missing_report_at_its_limit() {
    assert_eq!(MAX_REPORTED_MISSING, 29);
    let missing: Vec<u32> = (1..=29).map(|n| n * 0x0101_0101).collect();
    let report = missing_report(&missing);
    for k in 0..28 {
        assert_eq!(report[k], (k + 1) as u8);
    }
    assert_eq!(&report[28..], &[29, 29, 29, 29]);
}
