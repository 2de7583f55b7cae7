use lib::control::{file_name_from_path, is_stop_signal, stop_signal, PATH_SEPARATOR};

#[test]
fn file_name_is_last_component() {
    assert_eq!(file_name_from_path(b"data/test2.txt"), b"test2.txt".to_vec());
    assert_eq!(file_name_from_path(b"data/test1.txt"), b"test1.txt".to_vec());
    assert_eq!(file_name_from_path(b"/a/b/c"), b"c".to_vec());
}

#[test]
fn file_name_of_path_without_separator_is_the_path() {
    assert_eq!(file_name_from_path(b"notes.md"), b"notes.md".to_vec());
    assert_eq!(file_name_from_path(b""), Vec::<u8>::new());
}

#[test]
fn file_name_of_path_ending_in_separator_is_empty() {
    assert_eq!(file_name_from_path(b"dir/"), Vec::<u8>::new());
    assert_eq!(file_name_from_path(b"/"), Vec::<u8>::new());
}

#[test]
fn file_name_matches_split_last() {
    for path in ["data/test2.txt", "x", "a//b", "a/b/", "/lead", "ünï/cödé.txt"] {
        let expected = path.split('/').last().unwrap().as_bytes().to_vec();
        assert_eq!(file_name_from_path(path.as_bytes()), expected);
    }
    assert_eq!(PATH_SEPARATOR, b'/');
}

#[test]
fn stop_signal_is_stop() {
    assert_eq!(stop_signal(), b"stop".to_vec());
    assert!(is_stop_signal(b"stop"));
    assert!(is_stop_signal(&stop_signal()));
}

#[test]
fn other_messages_are_not_the_stop_signal() {
    assert!(!is_stop_signal(b""));
    assert!(!is_stop_signal(b"sto"));
    assert!(!is_stop_signal(b"stops"));
    assert!(!is_stop_signal(b"Stop"));
    assert!(!is_stop_signal(b"spot"));
}
