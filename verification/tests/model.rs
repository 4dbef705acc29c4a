use ws_frame::payload::PayloadBuffer;
use ws_frame::poll::Async;
use ws_frame::proto::{CloseCode, OpCode};

#[test]
fn opcode_wire_values() {
    let table = [
        (0u8, OpCode::Continue),
        (1, OpCode::Text),
        (2, OpCode::Binary),
        (8, OpCode::Close),
        (9, OpCode::Ping),
        (10, OpCode::Pong),
    ];
    for (byte, op) in table.iter() {
        assert_eq!(OpCode::from_u8(*byte), *op);
        assert_eq!(op.to_u8(), *byte);
    }
    for byte in [3u8, 4, 5, 6, 7, 11, 12, 13, 14, 15, 16, 255] {
        assert_eq!(OpCode::from_u8(byte), OpCode::Bad);
    }
}

#[test]
fn close_code_values() {
    let table = [
        (1000u16, CloseCode::Normal),
        (1001, CloseCode::Away),
        (1002, CloseCode::Protocol),
        (1003, CloseCode::Unsupported),
        (1005, CloseCode::Status),
        (1006, CloseCode::Abnormal),
        (1007, CloseCode::Invalid),
        (1008, CloseCode::Policy),
        (1009, CloseCode::Size),
        (1010, CloseCode::Extension),
        (1011, CloseCode::Error),
        (1012, CloseCode::Restart),
        (1013, CloseCode::Again),
        (1015, CloseCode::Tls),
        (0, CloseCode::Empty),
    ];
    for (value, code) in table.iter() {
        assert_eq!(code.to_u16(), *value);
        assert_eq!(CloseCode::from_u16(*value), Some(*code));
    }
    for value in [1u16, 999, 1004, 1014, 1016, 2000, 65535] {
        assert_eq!(CloseCode::from_u16(value), None);
    }
}

#[test]
fn empty_source() {
    let mut pl = PayloadBuffer::new();
    assert_eq!(pl.len(), 0);
    assert!(!pl.is_eof());
    assert_eq!(pl.get_chunk(), Async::NotReady);
    assert_eq!(pl.can_read(0), Async::Ready(Some(true)));
    assert_eq!(pl.can_read(1), Async::NotReady);
    assert_eq!(pl.copy(0), Async::Ready(Some(vec![])));
    assert_eq!(pl.copy(1), Async::NotReady);
    pl.feed_eof();
    assert!(pl.is_eof());
    assert_eq!(pl.get_chunk(), Async::Ready(None));
    assert_eq!(pl.can_read(1), Async::Ready(None));
    assert_eq!(pl.copy(1), Async::Ready(None));
    assert_eq!(pl.copy(0), Async::Ready(Some(vec![])));
}

#[test]
fn source_across_chunks() {
    let mut pl = PayloadBuffer::new();
    pl.feed(vec![1, 2, 3]);
    pl.feed(vec![]);
    pl.feed(vec![4]);
    pl.feed(vec![5, 6, 7, 8]);
    assert_eq!(pl.len(), 8);
    assert_eq!(pl.get_chunk(), Async::Ready(Some(&[1u8, 2, 3][..])));
    assert_eq!(pl.copy(2), Async::Ready(Some(vec![1, 2])));
    assert_eq!(pl.copy(3), Async::Ready(Some(vec![1, 2, 3])));
    assert_eq!(pl.copy(5), Async::Ready(Some(vec![1, 2, 3, 4, 5])));
    assert_eq!(pl.copy(8), Async::Ready(Some(vec![1, 2, 3, 4, 5, 6, 7, 8])));
    assert_eq!(pl.copy(9), Async::NotReady);
    assert_eq!(pl.can_read(8), Async::Ready(Some(true)));
    assert_eq!(pl.can_read(9), Async::NotReady);
    assert_eq!(pl.len(), 8);

    pl.drop_payload(0);
    assert_eq!(pl.len(), 8);
    pl.drop_payload(2);
    assert_eq!(pl.len(), 6);
    assert_eq!(pl.get_chunk(), Async::Ready(Some(&[3u8][..])));
    assert_eq!(pl.copy(3), Async::Ready(Some(vec![3, 4, 5])));

    assert_eq!(pl.read_exact(0), Vec::<u8>::new());
    assert_eq!(pl.read_exact(3), vec![3, 4, 5]);
    assert_eq!(pl.len(), 3);
    assert_eq!(pl.get_chunk(), Async::Ready(Some(&[6u8, 7, 8][..])));
    pl.drop_payload(1);
    pl.feed(vec![9]);
    assert_eq!(pl.read_exact(3), vec![7, 8, 9]);
    assert_eq!(pl.len(), 0);
    assert_eq!(pl.get_chunk(), Async::NotReady);
}

#[test]
fn source_drop_whole_chunks() {
    let mut pl = PayloadBuffer::new();
    pl.feed(vec![1, 2]);
    pl.feed(vec![3, 4]);
    pl.feed(vec![5]);
    pl.drop_payload(4);
    assert_eq!(pl.get_chunk(), Async::Ready(Some(&[5u8][..])));
    pl.drop_payload(1);
    assert_eq!(pl.len(), 0);
    pl.feed_eof();
    assert_eq!(pl.get_chunk(), Async::Ready(None));
}
