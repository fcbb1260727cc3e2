//! Control socket protocol: 4-byte little-endian length, then a JSON payload.
//! Sockets and JSON are handled by the caller; framing is proved here.

use vstd::prelude::*;
use vstd::string::StringExecFns;

use crate::constants::MAX_IPC_FRAME_BYTES;
use crate::datadir;
use crate::error::Error;

pub mod protocol;

pub use protocol::{Health, Request, Response};

verus! {

/// Default `$DATA_DIR/run/micronet.sock`.
pub fn default_socket(root: &str) -> (r: String)
    ensures
        r@ == datadir::join_all(root@, seq!["run"@, "micronet.sock"@]),
{
    datadir::path2(root, "run", "micronet.sock")
}

/// Events the daemon loop must handle (from IPC).
#[derive(Clone, Copy, Debug, PartialEq, Eq, Structural)]
pub enum IpcEvent {
    Reconfigure,
}

/// Little-endian value of four bytes.
pub open spec fn le_u32(b: Seq<u8>) -> int {
    b[0] + 256 * b[1] + 65536 * b[2] + 16777216 * b[3]
}

/// Four little-endian bytes of `n < 2^32`.
pub open spec fn le_bytes(n: int) -> Seq<u8> {
    seq![(n % 256) as u8, ((n / 256) % 256) as u8, ((n / 65536) % 256) as u8, ((n / 16777216) % 256) as u8]
}

/// The frame carrying `payload`.
pub open spec fn frame(payload: Seq<u8>) -> Seq<u8> {
    le_bytes(payload.len() as int) + payload
}

/// The payload of the frame at the start of `bytes`: `None` when the header
/// is incomplete, the announced length exceeds `max`, or the payload is cut short.
pub open spec fn frame_payload(bytes: Seq<u8>, max: int) -> Option<Seq<u8>> {
    if bytes.len() < 4 {
        None
    } else {
        let n = le_u32(bytes.subrange(0, 4));
        if n > max || bytes.len() < 4 + n {
            None
        } else {
            Some(bytes.subrange(4, 4 + n))
        }
    }
}

/// Append the frame of `payload` to `out`; payloads over the limit are refused.
pub fn write_frame_to(out: &mut Vec<u8>, payload: &[u8]) -> (r: Result<(), Error>)
    ensures
        payload@.len() <= MAX_IPC_FRAME_BYTES ==> r is Ok && final(out)@ == old(out)@ + frame(payload@),
        payload@.len() > MAX_IPC_FRAME_BYTES ==> (r matches Err(Error::Ipc(_))) && final(out)@ == old(out)@,
{
    let n = payload.len();
    if n > MAX_IPC_FRAME_BYTES {
        return Err(Error::Ipc(String::from_str("frame exceeds the size limit")));
    }
    let ghost before = out@;
    out.push((n % 256) as u8);
    out.push(((n / 256) % 256) as u8);
    out.push(((n / 65536) % 256) as u8);
    out.push(((n / 16777216) % 256) as u8);
    let mut i: usize = 0;
    while i < n
        invariant
            n == payload@.len(),
            i <= n,
            out@ == before + le_bytes(n as int) + payload@.subrange(0, i as int),
        decreases n - i,
    {
        out.push(payload[i]);
        i = i + 1;
        assert(out@ =~= before + le_bytes(n as int) + payload@.subrange(0, i as int));
    }
    assert(payload@.subrange(0, n as int) =~= payload@);
    assert(out@ =~= before + frame(payload@));
    Ok(())
}

/// Read the frame at the start of `input`; oversized or cut-short frames are refused.
pub fn read_frame_from(input: &[u8]) -> (r: Result<Vec<u8>, Error>)
    ensures
        match frame_payload(input@, MAX_IPC_FRAME_BYTES as int) {
            Some(p) => r matches Ok(v) && v@ == p,
            None => r matches Err(Error::Ipc(_)),
        },
{
    if input.len() < 4 {
        return Err(Error::Ipc(String::from_str("truncated frame header")));
    }
    let n: u64 = (input[0] as u64) + 256 * (input[1] as u64) + 65536 * (input[2] as u64) + 16777216
        * (input[3] as u64);
    assert(n == le_u32(input@.subrange(0, 4)));
    if n > MAX_IPC_FRAME_BYTES as u64 {
        return Err(Error::Ipc(String::from_str("frame exceeds the size limit")));
    }
    let n = n as usize;
    if input.len() - 4 < n {
        return Err(Error::Ipc(String::from_str("truncated frame")));
    }
    let mut v: Vec<u8> = Vec::new();
    let mut i: usize = 0;
    let total = input.len();
    while i < n
        invariant
            total == input@.len(),
            4 + n <= total,
            i <= n,
            v@ == input@.subrange(4, 4 + i),
        decreases n - i,
    {
        v.push(input[4 + i]);
        i = i + 1;
        assert(v@ =~= input@.subrange(4, 4 + i));
    }
    Ok(v)
}

/// Reading back a written frame gives the payload (within the size limit).
pub proof fn lemma_frame_roundtrip(payload: Seq<u8>, rest: Seq<u8>)
    requires
        payload.len() <= MAX_IPC_FRAME_BYTES,
    ensures
        frame_payload(frame(payload) + rest, MAX_IPC_FRAME_BYTES as int) == Some(payload),
{
    let n = payload.len() as int;
    let b = frame(payload) + rest;
    assert(b.subrange(0, 4) =~= le_bytes(n));
    assert(le_u32(le_bytes(n)) == n) by (nonlinear_arith)
        requires
            0 <= n <= 1048576,
    {
        assert(n / 16777216 == 0);
        assert((n / 16777216) % 256 == 0);
    }
    assert(b.subrange(4, 4 + n) =~= payload);
}

} // verus!
