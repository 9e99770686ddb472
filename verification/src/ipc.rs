//! The IPC backend: a substrate-agnostic blocking socket with the
//! decision logic of the receive loop. The substrate (a kernel datagram
//! channel or a local stream socket) and the thread that runs the loop
//! live with the process around the library.

use vstd::prelude::*;
use vstd::string::StringExecFns;

verus! {

/// An IPC error, carrying the substrate's description.
#[derive(Debug)]
pub struct Error(pub String);

impl Error {
    /// Build an error from a literal description.
    pub fn new(msg: &str) -> (r: Error)
        ensures
            r.0@ == msg@,
    {
        Error(String::from_str(msg))
    }

    /// The error's description.
    pub fn message(&self) -> (r: &str)
        ensures
            r@ == self.0@,
    {
        self.0.as_str()
    }
}

/// A blocking IPC substrate. Implementations live with the process around
/// the library; the contracts here are what the backend assumes of any
/// substrate: `recv` reports at most as many bytes as the buffer holds and
/// does not change the buffer's length.
pub trait Ipc: Sized {
    /// Blocking send of one message, to `addr` where the substrate is
    /// addressed.
    fn send(&self, addr: Option<u16>, msg: &[u8]) -> Result<(), Error>;

    /// Blocking receive into `msg`; returns how many bytes arrived.
    fn recv(&self, msg: &mut Vec<u8>) -> (r: Result<usize, Error>)
        ensures
            final(msg)@.len() == old(msg)@.len(),
            match r {
                Result::Ok(n) => n <= final(msg)@.len(),
                Result::Err(_) => true,
            },
    ;

    /// Close the underlying socket.
    fn close(&self) -> Result<(), Error>;
}

/// The IPC backend: owns a substrate, sends messages, and receives one
/// frame at a time. The process wraps it in shared ownership, spawns a
/// thread that calls `recv_next` in a loop, and pushes each frame into a
/// consumer channel; a shutdown flag checked between iterations ends the
/// loop.
pub struct Backend<T: Ipc> {
    sock: T,
}

impl<T: Ipc> Backend<T> {
    /// The substrate this backend owns.
    pub closed spec fn sock(self) -> T {
        self.sock
    }

    /// Wrap a substrate. The receive loop and the consumer channel are the
    /// process's to set up, calling `recv_next` from its receive thread.
    pub fn new(sock: T) -> (r: Result<Backend<T>, Error>)
        ensures
            match r {
                Result::Ok(b) => b.sock() == sock,
                Result::Err(_) => false,
            },
    {
        Result::Ok(Backend { sock })
    }

    /// Blocking send through the substrate.
    pub fn send_msg(&self, addr: Option<u16>, msg: &[u8]) -> Result<(), Error> {
        self.sock.send(addr, msg)
    }

    /// Close the underlying substrate, so that a receive blocked in the
    /// loop's thread wakes during shutdown.
    pub fn close(&self) -> Result<(), Error> {
        self.sock.close()
    }

    /// One iteration of the receive loop: a blocking receive into the
    /// reused staging buffer, decided by `frame_of`: a substrate error or
    /// a zero-length read is swallowed (`None`; the loop continues);
    /// otherwise the frame is exactly the first `n` received bytes,
    /// copied out so that ownership can pass to the consumer channel.
    pub fn recv_next(&self, buf: &mut Vec<u8>) -> (r: Option<Vec<u8>>)
        ensures
            final(buf)@.len() == old(buf)@.len(),
            match r {
                Option::Some(v) => 0 < v@.len() <= final(buf)@.len() && v@ == final(buf)@.subrange(
                    0,
                    v@.len() as int,
                ),
                Option::None => true,
            },
    {
        let res = self.sock.recv(buf);
        frame_of(buf, res)
    }
}

/// The receive loop's decision on one substrate outcome: an error yields
/// no frame, a zero-length read yields no frame, and a read of `n` bytes
/// yields exactly the first `n` bytes of the staging buffer.
pub fn frame_of(buf: &Vec<u8>, res: Result<usize, Error>) -> (r: Option<Vec<u8>>)
    requires
        res matches Result::Ok(n) ==> n <= buf@.len(),
    ensures
        match res {
            Result::Err(_) => r is None,
            Result::Ok(n) => if n == 0 {
                r is None
            } else {
                r matches Option::Some(v) && v@ == buf@.subrange(0, n as int)
            },
        },
{
    let n = match res {
        Result::Ok(n) => n,
        Result::Err(_) => {
            return None;
        },
    };
    if n == 0 {
        return None;
    }
    let mut out: Vec<u8> = Vec::new();
    let mut i: usize = 0;
    while i < n
        invariant
            n <= buf@.len(),
            i <= n,
            out@ == buf@.subrange(0, i as int),
        decreases n - i,
    {
        out.push(buf[i]);
        proof {
            assert(out@ =~= buf@.subrange(0, i as int + 1));
        }
        i += 1;
    }
    Some(out)
}

} // verus!
