//! The process-wide log event buffer.
//!
//! Writers append records and a display reads or drains them. The buffer is
//! an explicit object created at process start and passed by reference to
//! whichever component needs it; held behind an exclusive reference it can
//! be neither contended nor poisoned, so the fallible variants always
//! succeed and say so in their contracts.

use vstd::prelude::*;
use crate::command::LogMessageBuf;

verus! {

/// An append-only buffer of log records, drained or snapshotted by a
/// display.
#[derive(Debug)]
pub struct LogBuffer {
    entries: Vec<LogMessageBuf>,
}

impl View for LogBuffer {
    type V = Seq<LogMessageBuf>;

    closed spec fn view(&self) -> Seq<LogMessageBuf> {
        self.entries@
    }
}

/// Initialize the logging subsystem: a fresh, empty buffer.
pub fn init() -> (r: LogBuffer)
    ensures
        r@ == Seq::<LogMessageBuf>::empty(),
{
    let entries: Vec<LogMessageBuf> = Vec::new();
    proof {
        assert(entries@ =~= Seq::<LogMessageBuf>::empty());
    }
    LogBuffer { entries }
}

/// Append one record to the buffer.
pub fn write_global_buffer(buf: &mut LogBuffer, message: LogMessageBuf)
    ensures
        final(buf)@ == old(buf)@.push(message),
{
    buf.entries.push(message);
}

/// Clear the buffer of log records.
pub fn clear_global_buffer(buf: &mut LogBuffer) -> (r: Result<(), ()>)
    ensures
        r is Ok,
        final(buf)@ == Seq::<LogMessageBuf>::empty(),
{
    buf.entries.clear();
    proof {
        assert(buf@ =~= Seq::<LogMessageBuf>::empty());
    }
    Ok(())
}

/// Clear the buffer without waiting; exclusive access never blocks, so
/// this always succeeds.
pub fn try_clear_global_buffer(buf: &mut LogBuffer) -> (r: Result<(), ()>)
    ensures
        r is Ok,
        final(buf)@ == Seq::<LogMessageBuf>::empty(),
{
    clear_global_buffer(buf)
}

/// Read the buffered records.
pub fn read_global_buffer(buf: &LogBuffer) -> (r: &Vec<LogMessageBuf>)
    ensures
        r@ == buf@,
{
    &buf.entries
}

/// Read the buffered records without waiting; exclusive access never
/// blocks, so this always succeeds.
pub fn try_read_global_buffer(buf: &LogBuffer) -> (r: Result<&Vec<LogMessageBuf>, ()>)
    ensures
        r matches Ok(v) && v@ == buf@,
{
    Ok(&buf.entries)
}

/// Remove and return the most recently appended record.
pub fn pop_global_buffer(buf: &mut LogBuffer) -> (r: Result<Option<LogMessageBuf>, ()>)
    ensures
        r is Ok,
        old(buf)@.len() == 0 ==> r == Result::<Option<LogMessageBuf>, ()>::Ok(None)
            && final(buf)@ == old(buf)@,
        old(buf)@.len() > 0 ==> r == Result::<Option<LogMessageBuf>, ()>::Ok(
            Some(old(buf)@.last()),
        ) && final(buf)@ == old(buf)@.drop_last(),
{
    Ok(buf.entries.pop())
}

/// Remove and return the most recently appended record without waiting;
/// exclusive access never blocks, so this always succeeds.
pub fn try_pop_global_buffer(buf: &mut LogBuffer) -> (r: Result<Option<LogMessageBuf>, ()>)
    ensures
        r is Ok,
        old(buf)@.len() == 0 ==> r == Result::<Option<LogMessageBuf>, ()>::Ok(None)
            && final(buf)@ == old(buf)@,
        old(buf)@.len() > 0 ==> r == Result::<Option<LogMessageBuf>, ()>::Ok(
            Some(old(buf)@.last()),
        ) && final(buf)@ == old(buf)@.drop_last(),
{
    pop_global_buffer(buf)
}

} // verus!
