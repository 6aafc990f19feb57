use binance_quote_bridge::BufferReader;

#[test]
fn test_buff_sequence_reed() {
    let mut buff = BufferReader::new();

    let splitter = "/n".as_bytes().to_vec();

    let first_data = "First message/n".as_bytes().to_vec();
    let second_data = "Second mes".as_bytes().to_vec();
    let third_data = "sage/n".as_bytes().to_vec();
    let four_data = "First me".as_bytes().to_vec();

    buff.write_to_buff(first_data.clone());
    buff.write_to_buff(second_data.clone());
    buff.write_to_buff(third_data.clone());
    buff.write_to_buff(four_data.clone());

    let first_mess_from_socket = buff.get_next_package_if_exists(&splitter);
    buff.compress();
    let second_mess_from_socket = buff.get_next_package_if_exists(&splitter);
    buff.compress();
    let third_mess_from_socket = buff.get_next_package_if_exists(&splitter);
    buff.compress();

    assert_eq!(first_mess_from_socket.is_some(), true);
    assert_eq!("First message".as_bytes(), first_mess_from_socket.unwrap());
    assert_eq!(second_mess_from_socket.is_some(), true);
    assert_eq!("Second message".as_bytes(), second_mess_from_socket.unwrap());
    assert_eq!(third_mess_from_socket.is_some(), false);
}

#[test]
fn separator_at_the_very_end_is_not_yet_a_package() {
    let mut buff = BufferReader::new();
    let splitter = vec![13u8, 10u8];
    buff.write_to_buff(b"PING\r\n".to_vec());
    assert_eq!(buff.get_next_package_if_exists(&splitter), None);
    buff.write_to_buff(b"P".to_vec());
    assert_eq!(buff.get_next_package_if_exists(&splitter), Some(b"PING".to_vec()));
    assert_eq!(buff.get_next_package_if_exists(&splitter), None);
}

#[test]
fn free_room_shrinks_with_writes_and_comes_back_on_compress() {
    let mut buff = BufferReader::new();
    assert_eq!(buff.get_amount_to_write(), 1023);
    buff.write_to_buff(b"abc;def".to_vec());
    assert_eq!(buff.get_amount_to_write(), 1016);
    let package = buff.get_next_package_if_exists(&b";".to_vec());
    assert_eq!(package, Some(b"abc".to_vec()));
    assert_eq!(buff.get_amount_to_write(), 1016);
    buff.compress();
    assert_eq!(buff.get_amount_to_write(), 1020);
    buff.compress();
    assert_eq!(buff.get_amount_to_write(), 1020);
}

#[test]
fn empty_package_between_adjacent_separators() {
    let mut buff = BufferReader::new();
    buff.write_to_buff(b";;x".to_vec());
    assert_eq!(buff.get_next_package_if_exists(&b";".to_vec()), Some(Vec::new()));
    assert_eq!(buff.get_next_package_if_exists(&b";".to_vec()), Some(Vec::new()));
    assert_eq!(buff.get_next_package_if_exists(&b";".to_vec()), None);
}

#[test]
fn buffer_fills_to_capacity_minus_one() {
    let mut buff = BufferReader::new();
    buff.write_to_buff(vec![7u8; 1023]);
    assert_eq!(buff.get_amount_to_write(), 0);
}
