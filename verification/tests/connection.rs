//! Message framing, connection buffers and reply counting.

use zlink::connection::chain::{Chain, Replies, ReplyOutcome, ReplyStream};
use zlink::connection::{ReadBuffer, WriteBuffer, BUFFER_SIZE, MAX_BUFFER_SIZE};
use zlink::Error;

#[test]
fn enqueue_and_flush() {
    let mut write = WriteBuffer::new();
    write.enqueue(b"42").unwrap();
    write.enqueue(b"3").unwrap();
    assert_eq!(write.to_send(), b"42\x003\x00");
    assert!(!write.is_empty());
    write.sent();
    assert!(write.is_empty());
    assert_eq!(write.to_send(), b"");
}

#[test]
fn enqueue_null_terminators() {
    let mut write = WriteBuffer::new();
    write.enqueue(b"1").unwrap();
    assert_eq!(*write.to_send().last().unwrap(), 0);
    write.enqueue(b"2").unwrap();
    assert_eq!(*write.to_send().last().unwrap(), 0);
    assert_eq!(write.to_send(), b"1\x002\x00");
}

#[test]
fn enqueue_grows_the_buffer() {
    let mut write = WriteBuffer::new();
    let big = vec![b'7'; BUFFER_SIZE * 2];
    write.enqueue(&big).unwrap();
    assert_eq!(write.to_send().len(), BUFFER_SIZE * 2 + 1);
    // A message that fills the buffer exactly still gets its NUL byte.
    let mut write = WriteBuffer::new();
    let exact = vec![b'1'; BUFFER_SIZE];
    write.enqueue(&exact).unwrap();
    assert_eq!(write.to_send().len(), BUFFER_SIZE + 1);
}

#[test]
fn enqueue_beyond_the_limit_overflows() {
    let mut write = WriteBuffer::new();
    let too_big = vec![b'x'; MAX_BUFFER_SIZE];
    assert!(matches!(write.enqueue(&too_big), Err(Error::BufferOverflow)));
    assert!(write.is_empty());
    // One byte less, and the NUL byte fits.
    let fits = vec![b'x'; MAX_BUFFER_SIZE - 1];
    write.enqueue(&fits).unwrap();
    assert_eq!(write.to_send().len(), MAX_BUFFER_SIZE);
}

#[test]
fn read_messages_one_at_a_time() {
    let mut read = ReadBuffer::new();
    assert!(!read.has_message());
    let complete = read.received(b"{\"a\":1}\x00{\"b\":2}\x00").unwrap();
    assert!(complete);
    assert_eq!(read.next_message(), b"{\"a\":1}".to_vec());
    assert!(read.has_message());
    assert_eq!(read.next_message(), b"{\"b\":2}".to_vec());
    // After the last message the buffer starts over.
    assert!(!read.has_message());
}

#[test]
fn read_a_message_in_pieces() {
    let mut read = ReadBuffer::new();
    assert!(!read.received(b"{\"par").unwrap());
    assert!(!read.received(b"ameters\":").unwrap());
    assert!(read.received(b"{}}\x00").unwrap());
    assert_eq!(read.next_message(), b"{\"parameters\":{}}".to_vec());
    assert!(!read.has_message());
}

#[test]
fn read_nothing_is_unexpected_eof() {
    let mut read = ReadBuffer::new();
    assert!(matches!(read.received(b""), Err(Error::UnexpectedEof)));
    assert_eq!(read.read_space(), BUFFER_SIZE);
}

#[test]
fn read_buffer_grows_when_filled() {
    let mut read = ReadBuffer::new();
    let chunk = vec![b'a'; BUFFER_SIZE];
    assert!(!read.received(&chunk).unwrap());
    assert_eq!(read.read_space(), BUFFER_SIZE);
    let mut rest = vec![b'b'; 9];
    rest.push(0);
    assert!(read.received(&rest).unwrap());
    let msg = read.next_message();
    assert_eq!(msg.len(), BUFFER_SIZE + 9);
    assert_eq!(msg[0], b'a');
    assert_eq!(msg[BUFFER_SIZE], b'b');
}

#[test]
fn written_messages_are_read_back() {
    let mut write = WriteBuffer::new();
    let messages: [&[u8]; 3] = [b"{\"method\":\"a.b.C\"}", b"{}", b"[1,2,3]"];
    for m in messages.iter() {
        write.enqueue(m).unwrap();
    }
    let mut read = ReadBuffer::new();
    assert!(read.received(write.to_send()).unwrap());
    for m in messages.iter() {
        assert_eq!(read.next_message(), m.to_vec());
    }
    assert!(!read.has_message());
}

#[test]
fn an_empty_message_ends_the_batch() {
    let mut read = ReadBuffer::new();
    assert!(read.received(b"a\x00\x00b\x00").unwrap());
    assert_eq!(read.next_message(), b"a".to_vec());
    assert!(!read.has_message());
}

#[test]
fn chain_counts_replies_of_calls_that_are_not_oneway() {
    let chain = Chain::new(false).append(true).append(false).append(true);
    assert_eq!(chain.call_count(), 4);
    assert_eq!(chain.reply_count(), 2);
    let all_oneway = Chain::new(true).append(true);
    assert_eq!(all_oneway.reply_count(), 0);
}

#[test]
fn reply_stream_ends_after_final_replies() {
    let mut stream = Chain::new(false).append(false).send();
    assert!(!stream.is_done());
    stream.record(ReplyOutcome::Reply { continues: Some(true) });
    assert!(!stream.is_done());
    stream.record(ReplyOutcome::Reply { continues: Some(false) });
    assert!(!stream.is_done());
    stream.record(ReplyOutcome::MethodError);
    assert!(stream.is_done());
}

#[test]
fn reply_stream_ends_on_failure() {
    let mut stream = ReplyStream::new(3);
    stream.record(ReplyOutcome::Reply { continues: None });
    assert!(!stream.is_done());
    stream.record(ReplyOutcome::Failure);
    assert!(stream.is_done());
}

#[test]
fn replies_count_down() {
    let mut replies = Replies::new(2);
    assert_eq!(replies.len(), 2);
    assert!(!replies.is_empty());
    assert!(replies.has_next());
    replies.record(ReplyOutcome::Reply { continues: Some(true) });
    assert!(replies.has_next());
    replies.record(ReplyOutcome::Reply { continues: None });
    assert!(replies.has_next());
    replies.record(ReplyOutcome::Failure);
    assert!(!replies.has_next());
    assert!(Replies::new(0).is_empty());
}

#[test]
fn reply_stream_for_oneway_calls_only_is_done() {
    assert!(ReplyStream::new(0).is_done());
    assert!(Chain::new(true).send().is_done());
    assert!(Chain::new(true).append(true).send().is_done());
    let stream = Chain::new(true).append(false).send();
    assert!(!stream.is_done());
    assert!(!ReplyStream::new(1).is_done());
}
