use common_lib::transport::{FramingError, LineBuffer, BUFFER_LEN, MAX_LINE_LEN};

#[test]
fn test_next_line_with_provided_line() {
    let test_string = "Test\n";

    let mut transport = LineBuffer::new();
    let output_string = transport.next_line(test_string.as_bytes()).unwrap().unwrap();

    assert_eq!(test_string.as_bytes(), output_string.as_slice());
}

#[test]
fn test_next_line_with_split_line() {
    let test_string_1 = "Tes";
    let test_string_2 = "t\n";

    let mut transport = LineBuffer::new();

    assert!(transport.next_line(test_string_1.as_bytes()).unwrap().is_none());

    let output_string = transport.next_line(test_string_2.as_bytes()).unwrap().unwrap();
    let expected_string = test_string_1.to_owned() + test_string_2;
    assert_eq!(expected_string.as_bytes(), output_string.as_slice());
}

#[test]
fn test_next_line_with_two_lines() {
    let test_string = "Test\nString\n";

    let mut transport = LineBuffer::new();

    let output_string = transport.next_line(test_string.as_bytes()).unwrap().unwrap();
    let expected_string = "Test\n";
    assert_eq!(expected_string.as_bytes(), output_string.as_slice());

    let output_string = transport.next_line(&[]).unwrap().unwrap();
    let expected_string = "String\n";
    assert_eq!(expected_string.as_bytes(), output_string.as_slice());

    assert_eq!(transport.len(), 0);
    assert_eq!(transport.next_line(&[]), Ok(None));
}

#[test]
fn bytes_that_do_not_fit_are_refused_and_nothing_changes() {
    let mut transport = LineBuffer::new();
    let chunk = [b'x'; 64];
    for _ in 0..4 {
        assert_eq!(transport.next_line(&chunk), Ok(None));
    }
    assert_eq!(transport.len(), BUFFER_LEN);
    assert_eq!(transport.next_line(b"\n"), Err(FramingError::BufferFull));
    assert_eq!(transport.len(), 256);
    assert_eq!(transport.next_line(&[]), Ok(None));
}

#[test]
fn line_of_eighty_bytes_passes_and_of_eighty_one_does_not() {
    let mut line = vec![b'a'; MAX_LINE_LEN - 1];
    line.push(b'\n');
    let mut transport = LineBuffer::new();
    assert_eq!(transport.next_line(&line), Ok(Some(line.clone())));
    assert_eq!(transport.len(), 0);

    let mut long = vec![b'a'; MAX_LINE_LEN];
    long.push(b'\n');
    assert_eq!(long.len(), 81);
    let mut first = long[..64].to_vec();
    let rest = long[64..].to_vec();
    assert_eq!(transport.next_line(&first), Ok(None));
    assert_eq!(transport.next_line(&rest), Err(FramingError::LineTooLong));
    assert_eq!(transport.len(), 81);
    first.clear();
    assert_eq!(transport.next_line(&first), Err(FramingError::LineTooLong));
}

#[test]
fn line_feed_alone_is_a_line() {
    let mut transport = LineBuffer::new();
    assert_eq!(transport.next_line(b"\n\nab"), Ok(Some(b"\n".to_vec())));
    assert_eq!(transport.next_line(b""), Ok(Some(b"\n".to_vec())));
    assert_eq!(transport.next_line(b""), Ok(None));
    assert_eq!(transport.len(), 2);
}
