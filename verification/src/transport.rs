//! The client side of the duplex byte transport.
//!
//! The live transport is a synchronous in-process pipe (`pipe`), one
//! unidirectional stream per direction. A writer blocks until the paired
//! reader takes the data; dropping a writer makes the paired reader's next
//! read report end of stream. The writer half here also has an in-memory
//! variant holding the written characters directly, so the send path can be
//! observed without a live peer; its contract is proved, not assumed.

use vstd::prelude::*;

verus! {

#[verifier::external_type_specification]
#[verifier::external_body]
pub struct ExPipeWriter(pipe::PipeWriter);

#[verifier::external_type_specification]
#[verifier::external_body]
pub struct ExPipeReader(pipe::PipeReader);

/// The characters successfully written into a pipe writer so far; the pipe
/// carries their UTF-8 bytes in exactly this order.
pub uninterp spec fn pipe_sent(w: pipe::PipeWriter) -> Seq<char>;

/// Why a write was refused.
#[derive(Debug, PartialEq, Eq)]
pub enum WriteError {
    Closed,
}

/// Relies on `pipe::pipe`: a fresh connected reader/writer pair; nothing
/// has been written yet.
#[verifier::external_body]
pub fn make_pipe() -> (r: (pipe::PipeReader, pipe::PipeWriter))
    ensures
        pipe_sent(r.1) == Seq::<char>::empty(),
{
    pipe::pipe()
}

/// Relies on the `Write` impl of `pipe::PipeWriter`: one write hands the
/// whole buffer to the channel, or fails without sending when the reader
/// has been dropped (its `flush` does nothing).
#[verifier::external_body]
fn pipe_write_str(w: &mut pipe::PipeWriter, line: &str) -> (r: Result<(), WriteError>)
    ensures
        match r {
            Ok(u) => pipe_sent(*final(w)) == pipe_sent(*old(w)) + line@,
            Err(e) => pipe_sent(*final(w)) == pipe_sent(*old(w)),
        },
{
    match std::io::Write::write_all(w, line.as_bytes()) {
        Ok(()) => Ok(()),
        Err(_) => Err(WriteError::Closed),
    }
}

/// Relies on the `BufRead` impl of `pipe::PipeReader`: reads one line,
/// newline included when one was found; `None` on end of stream (the
/// writer was dropped) or on bytes that are not UTF-8. What arrives
/// depends on the peer, so nothing more is promised.
#[verifier::external_body]
pub fn pipe_read_line(r: &mut pipe::PipeReader) -> (res: Option<String>)
    ensures
        res is Some ==> res.unwrap()@.len() > 0,
{
    let mut buf = String::new();
    match std::io::BufRead::read_line(r, &mut buf) {
        Ok(0) => None,
        Ok(_) => Some(buf),
        Err(_) => None,
    }
}

/// The engine-facing writer half owned by the client: a live pipe, or an
/// in-memory log of the written characters.
pub enum CoreSink {
    Pipe(pipe::PipeWriter),
    Mem(Vec<char>),
}

impl CoreSink {
    /// Every character written so far, in write order.
    pub open spec fn sent(&self) -> Seq<char> {
        match self {
            CoreSink::Pipe(w) => pipe_sent(*w),
            CoreSink::Mem(v) => v@,
        }
    }

    /// Whether this is the in-memory variant, whose writes never fail.
    pub open spec fn is_mem(&self) -> bool {
        self is Mem
    }

    /// An in-memory sink with nothing written yet.
    pub fn new_mem() -> (r: CoreSink)
        ensures
            r.sent() == Seq::<char>::empty(),
            r.is_mem(),
    {
        let v: Vec<char> = Vec::new();
        CoreSink::Mem(v)
    }

    /// Writes one line. On success the stream is extended by exactly this
    /// line at its end; on failure it is unchanged. Only the pipe can
    /// refuse (its reader may be gone): a write to the in-memory variant
    /// always succeeds.
    pub fn write_line(&mut self, line: &str) -> (r: Result<(), WriteError>)
        ensures
            final(self).is_mem() == old(self).is_mem(),
            old(self).is_mem() ==> r is Ok,
            match r {
                Ok(u) => final(self).sent() == old(self).sent() + line@,
                Err(e) => final(self).sent() == old(self).sent(),
            },
    {
        match self {
            CoreSink::Pipe(w) => pipe_write_str(w, line),
            CoreSink::Mem(v) => {
                crate::json::push_str_chars(line, v);
                Ok(())
            },
        }
    }
}

} // verus!
