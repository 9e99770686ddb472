use std::cell::RefCell;
use std::collections::VecDeque;

use portus::ipc::{frame_of, Backend, Error, Ipc};

/// An in-memory substrate: queued frames come back from `recv`, sends are
/// recorded.
struct FakeSock {
    inbound: RefCell<VecDeque<Vec<u8>>>,
    sent: RefCell<Vec<Vec<u8>>>,
}

impl FakeSock {
    fn with_frames(frames: Vec<Vec<u8>>) -> FakeSock {
        FakeSock {
            inbound: RefCell::new(frames.into_iter().collect()),
            sent: RefCell::new(Vec::new()),
        }
    }
}

impl Ipc for FakeSock {
    fn send(&self, _addr: Option<u16>, msg: &[u8]) -> Result<(), Error> {
        self.sent.borrow_mut().push(msg.to_vec());
        Ok(())
    }

    fn recv(&self, msg: &mut Vec<u8>) -> Result<usize, Error> {
        match self.inbound.borrow_mut().pop_front() {
            Some(frame) => {
                let n = frame.len().min(msg.len());
                msg[..n].copy_from_slice(&frame[..n]);
                Ok(n)
            }
            None => Err(Error::new("closed")),
        }
    }

    fn close(&self) -> Result<(), Error> {
        Ok(())
    }
}

/// The receive step's decision on each substrate outcome: errors and
/// zero-length reads yield nothing; a read of n bytes yields exactly the
/// first n bytes of the staging buffer.
#[test]
fn frame_of_decides_each_outcome() {
    let buf = vec![10u8, 20, 30, 40];
    assert!(frame_of(&buf, Err(Error::new("down"))).is_none());
    assert!(frame_of(&buf, Ok(0)).is_none());
    assert_eq!(frame_of(&buf, Ok(3)), Some(vec![10u8, 20, 30]));
    assert_eq!(frame_of(&buf, Ok(4)), Some(vec![10u8, 20, 30, 40]));
}

#[test]
fn backend_close_reaches_substrate() {
    let sock = FakeSock::with_frames(vec![]);
    let backend = Backend::new(sock).unwrap();
    assert!(backend.close().is_ok());
}

#[test]
fn backend_send_and_receive() {
    let sock = FakeSock::with_frames(vec![vec![1, 2, 3], vec![], vec![9; 2000]]);
    let backend = Backend::new(sock).unwrap();

    backend.send_msg(None, b"hello").unwrap();

    let mut buf = vec![0u8; 1024];
    // first frame comes through as its own allocation
    let frame = backend.recv_next(&mut buf).unwrap();
    assert_eq!(frame, vec![1, 2, 3]);
    assert_eq!(buf.len(), 1024); // the staging buffer is reused, not consumed
    // a zero-length read is skipped
    assert!(backend.recv_next(&mut buf).is_none());
    // an oversized frame is truncated to the staging buffer
    let frame = backend.recv_next(&mut buf).unwrap();
    assert_eq!(frame.len(), 1024);
    assert!(frame.iter().all(|&b| b == 9));
    // a substrate error is swallowed: the loop would continue
    assert!(backend.recv_next(&mut buf).is_none());
}
