use protohackers_rs::means_to_an_end::{
    handle_client_internal, handle_message, Db, Message, MessageError,
};

fn create_message(op: u8, first: i32, second: i32) -> [u8; 9] {
    let mut buffer = vec![op];
    buffer.extend_from_slice(&first.to_be_bytes());
    buffer.extend_from_slice(&second.to_be_bytes());
    buffer.try_into().unwrap()
}

#[test]
fn message_parse_test_insert_ok() {
    let buffer = create_message(b'I', 10, 100);

    let message = Message::parse(&buffer).unwrap();

    assert_eq!(
        Message::Insert {
            timestamp: 10,
            price: 100
        },
        message
    )
}

#[test]
fn message_parse_test_query_ok() {
    let buffer = create_message(b'Q', 10, 100);

    let message = Message::parse(&buffer).unwrap();

    assert_eq!(
        Message::Query {
            mintime: 10,
            maxtime: 100,
        },
        message
    )
}

#[test]
fn message_parse_test_fail() {
    let buffer = create_message(b'Z', 10, 100);

    let result = Message::parse(&buffer);

    assert!(result.is_err());
}

#[test]
fn example_session_test() {
    let messages = vec![
        create_message(b'I', 12345, 101),
        create_message(b'I', 123456, 102),
        create_message(b'I', 123456, 100),
        create_message(b'I', 40960, 5),
        create_message(b'Q', 12288, 16384),
    ]
    .into_iter()
    .flatten()
    .collect::<Vec<u8>>();

    let mut output = vec![];

    handle_client_internal(messages.as_slice(), &mut output).unwrap();

    assert_eq!(4, output.len());

    assert_eq!(101, i32::from_be_bytes(output[..4].try_into().unwrap()));
}

#[test]
fn parse_reads_negative_big_endian_values() {
    let buffer = create_message(b'I', -1, i32::MIN);
    assert_eq!(
        Message::parse(&buffer).unwrap(),
        Message::Insert {
            timestamp: -1,
            price: i32::MIN
        }
    );
    let buffer = create_message(b'Q', i32::MAX, 0x01020304);
    assert_eq!(
        Message::parse(&buffer).unwrap(),
        Message::Query {
            mintime: i32::MAX,
            maxtime: 0x01020304
        }
    );
}

#[test]
fn parse_reports_the_unknown_op_code() {
    let buffer = create_message(b'Z', 10, 100);
    assert_eq!(Message::parse(&buffer), Err(MessageError::UnexpectedOpCode(b'Z')));
}

#[test]
fn mean_of_empty_history_is_zero() {
    let db = Db::new();
    assert_eq!(db.mean(i32::MIN..=i32::MAX), 0);
}

#[test]
fn mean_of_reversed_range_is_zero() {
    let mut db = Db::new();
    db.insert(5, 50);
    assert_eq!(db.mean(6..=4), 0);
    assert_eq!(db.mean(5..=5), 50);
}

#[test]
fn mean_rounds_toward_zero() {
    let mut db = Db::new();
    db.insert(1, 1);
    db.insert(2, 2);
    assert_eq!(db.mean(1..=2), 1);
    let mut db = Db::new();
    db.insert(1, -3);
    db.insert(2, -4);
    assert_eq!(db.mean(1..=2), -3);
}

#[test]
fn mean_counts_only_the_window() {
    let mut db = Db::new();
    db.insert(10, 100);
    db.insert(20, 200);
    db.insert(30, 900);
    assert_eq!(db.mean(10..=20), 150);
    assert_eq!(db.mean(15..=35), 550);
    assert_eq!(db.mean(31..=40), 0);
}

#[test]
fn mean_handles_extreme_prices_without_overflow() {
    let mut db = Db::new();
    db.insert(i32::MIN, i32::MIN);
    db.insert(0, i32::MIN);
    db.insert(i32::MAX, i32::MIN);
    assert_eq!(db.mean(i32::MIN..=i32::MAX), i32::MIN);
    let mut db = Db::new();
    db.insert(1, i32::MAX);
    db.insert(2, i32::MAX);
    assert_eq!(db.mean(1..=2), i32::MAX);
}

#[test]
fn later_insert_replaces_price() {
    let mut db = Db::new();
    db.insert(7, 1);
    db.insert(7, 9);
    assert_eq!(db.mean(7..=7), 9);
}

#[test]
fn insert_outside_window_does_not_change_answer() {
    let mut db = Db::new();
    db.insert(10, 4);
    let before = db.mean(5..=15);
    db.insert(100, 1000);
    assert_eq!(db.mean(5..=15), before);
}

#[test]
fn handle_message_answers_queries_only() {
    let mut db = Db::new();
    assert_eq!(handle_message(&mut db, &create_message(b'I', 3, 30)), Ok(None));
    assert_eq!(handle_message(&mut db, &create_message(b'Q', 0, 10)), Ok(Some(30)));
    assert_eq!(
        handle_message(&mut db, &create_message(b'X', 0, 10)),
        Err(MessageError::UnexpectedOpCode(b'X'))
    );
    assert_eq!(db.mean(3..=3), 30);
}

#[test]
fn session_ignores_trailing_partial_frame() {
    let mut input = create_message(b'I', 1, -7).to_vec();
    input.extend_from_slice(&create_message(b'Q', 0, 5));
    input.extend_from_slice(&[b'Q', 0, 0]);
    let mut output = vec![];
    assert_eq!(handle_client_internal(&input, &mut output), Ok(()));
    assert_eq!(output, (-7i32).to_be_bytes().to_vec());
}

#[test]
fn session_stops_at_unknown_op_after_earlier_answers() {
    let mut input = create_message(b'Q', 0, 5).to_vec();
    input.extend_from_slice(&create_message(b'?', 0, 5));
    input.extend_from_slice(&create_message(b'Q', 0, 5));
    let mut output = vec![9u8];
    assert_eq!(
        handle_client_internal(&input, &mut output),
        Err(MessageError::UnexpectedOpCode(b'?'))
    );
    assert_eq!(output, vec![9, 0, 0, 0, 0]);
}

#[test]
fn session_answer_bytes_read_back() {
    let mut input = create_message(b'I', 1, -123456789).to_vec();
    input.extend_from_slice(&create_message(b'Q', 1, 1));
    let mut output = vec![];
    handle_client_internal(&input, &mut output).unwrap();
    assert_eq!(i32::from_be_bytes(output[..4].try_into().unwrap()), -123456789);
}
