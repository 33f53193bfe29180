use transaction_processor::input::Input;

#[test]
#[should_panic]
fn test_input_from_file_invalid_header_line() {
    let data = b"1,2,3,4\n".to_vec();
    assert!(Input::has_header(&data));
    let _ = Input::from(data);
}

#[test]
fn test_input_from_file_valid_header_line() {
    let data = b"type,client,tx,amount\n".to_vec();
    assert!(Input::has_header(&data));
    let _ = Input::from(data);
}

#[test]
fn test_input_from_file_iterator() {
    let mut data = String::new();
    data.push_str("type,client,tx,amount\n");
    data.push_str("deposit,0,0,1.0\n");
    data.push_str("withdrawal,0,1,0.5\n");
    let mut input = Input::from(data.into_bytes());
    assert_eq!(input.next().unwrap(), "deposit,0,0,1.0\n");
    assert_eq!(input.next().unwrap(), "withdrawal,0,1,0.5\n");
    assert!(input.next().is_none());
}

#[test]
fn test_input_header_must_be_exact() {
    assert!(!Input::has_header(&b"1,2,3,4\n".to_vec()));
    assert!(!Input::has_header(&b"".to_vec()));
    assert!(!Input::has_header(&b"type,client,tx,amount".to_vec()));
    assert!(!Input::has_header(&b"type,client,tx,amount\r\n".to_vec()));
    assert!(!Input::has_header(&b" type,client,tx,amount\n".to_vec()));
    assert!(!Input::has_header(&b"type,client,tx,amount,\n".to_vec()));
    assert!(!Input::has_header(&b"\ntype,client,tx,amount\n".to_vec()));
    assert!(Input::has_header(&b"type,client,tx,amount\n".to_vec()));
    assert!(Input::has_header(&b"type,client,tx,amount\n1,2,3,4\n".to_vec()));
}

#[test]
fn test_input_last_line_without_line_feed() {
    let mut input = Input::from(b"type,client,tx,amount\n\ndispute,2,3".to_vec());
    assert_eq!(input.next(), Some(String::from("\n")));
    assert_eq!(input.next(), Some(String::from("dispute,2,3")));
    assert_eq!(input.next(), None);
    assert_eq!(input.next(), None);
}

#[test]
fn test_input_line_that_is_no_text() {
    let mut data = b"type,client,tx,amount\n".to_vec();
    data.extend_from_slice(&[b'a', 0xff, b'\n']);
    data.extend_from_slice("d\u{e9}p\u{f4}t\n".as_bytes());
    let mut input = Input::from(data);
    // The line is taken, and it is no text.
    assert_eq!(input.next(), None);
    assert_eq!(input.next(), Some(String::from("d\u{e9}p\u{f4}t\n")));
    assert_eq!(input.next(), None);
}
