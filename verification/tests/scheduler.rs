use noline::error::EditorError;
use noline::sync::{retry, Transfer, Turn};

#[test]
fn a_result_that_is_ready_finishes() {
    assert_eq!(retry::<u8, ()>(Ok(7)), Turn::Finished(Ok(7)));
}

#[test]
fn would_block_yields() {
    assert_eq!(retry::<u8, ()>(Err(nb::Error::WouldBlock)), Turn::Yield);
}

#[test]
fn a_hard_error_finishes_with_that_error() {
    assert_eq!(retry::<u8, &str>(Err(nb::Error::Other("broken"))), Turn::Finished(Err("broken")));
}

#[test]
fn a_transfer_hands_out_the_bytes_in_order() {
    let buf = b"abc";
    let mut transfer = Transfer::new();
    assert_eq!(transfer.sent(), 0);
    assert_eq!(transfer.next(buf), Some(b'a'));
    assert_eq!(transfer.record::<()>(buf, Ok(())), Turn::Next);
    assert_eq!(transfer.next(buf), Some(b'b'));
    assert_eq!(transfer.record::<()>(buf, Ok(())), Turn::Next);
    assert_eq!(transfer.next(buf), Some(b'c'));
    assert_eq!(transfer.record::<()>(buf, Ok(())), Turn::Finished(Ok(())));
    assert_eq!(transfer.sent(), 3);
    assert_eq!(transfer.next(buf), None);
}

#[test]
fn a_byte_that_would_block_is_tried_again() {
    let buf = b"ab";
    let mut transfer = Transfer::new();
    assert_eq!(transfer.record::<()>(buf, Err(nb::Error::WouldBlock)), Turn::Yield);
    assert_eq!(transfer.sent(), 0);
    assert_eq!(transfer.next(buf), Some(b'a'));
    assert_eq!(transfer.record::<()>(buf, Err(nb::Error::WouldBlock)), Turn::Yield);
    assert_eq!(transfer.next(buf), Some(b'a'));
    assert_eq!(transfer.record::<()>(buf, Ok(())), Turn::Next);
    assert_eq!(transfer.next(buf), Some(b'b'));
}

#[test]
fn a_hard_error_ends_the_transfer() {
    let buf = b"ab";
    let mut transfer = Transfer::new();
    assert_eq!(transfer.record::<u8>(buf, Ok(())), Turn::Next);
    assert_eq!(transfer.record(buf, Err(nb::Error::Other(9u8))), Turn::Finished(Err(9u8)));
    assert_eq!(transfer.sent(), 1);
}

#[test]
fn nothing_to_transfer_has_no_next_byte() {
    assert_eq!(Transfer::new().next(b""), None);
}

#[test]
fn errors_are_wrapped_unchanged() {
    assert_eq!(
        EditorError::<u8, u16>::read_error::<()>(3),
        Err(EditorError::ReadError(3))
    );
    assert_eq!(
        EditorError::<u8, u16>::write_error::<()>(4),
        Err(EditorError::WriteError(4))
    );
}
