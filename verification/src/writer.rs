//! The log writer: formats one record, appends it to the store, and wakes the
//! UI event loop through cursive's callback sink. Storage always succeeds;
//! only the wake-up can fail, when the UI loop is gone.

use vstd::prelude::*;

use crate::formatter::{format_record, is_formatted, LogRecord};
use crate::store::{LogStore, STORE_CAPACITY};

verus! {

/// The writer's error: the UI loop's receiving end is gone, so the wake-up
/// notification could not be delivered. The record is stored regardless.
#[derive(Clone, Copy, PartialEq, Eq, Structural, Debug)]
pub enum WriteError {
    SinkClosed,
}

#[verifier::external_type_specification]
#[verifier::external_body]
pub struct ExCursive(cursive_core::Cursive);

/// A clone of cursive's callback sink — the send endpoint of the channel the
/// UI event loop drains — opaque to the verifier: its payload type (a boxed
/// callback) cannot be declared to it.
#[verifier::external_body]
pub struct UiSink {
    sink: cursive_core::CbSink,
}

/// The cursive log writer: formats records, stores them in the shared store,
/// and notifies the UI event loop once per write.
pub struct CursiveLogWriter {
    sink: UiSink,
}

/// Relies on `Cursive::cb_sink` and `Sender::clone`: a clone of the callback
/// sink bound to this cursive root's event loop.
#[verifier::external_body]
fn clone_cb_sink(siv: &cursive_core::Cursive) -> UiSink {
    UiSink { sink: siv.cb_sink().clone() }
}

/// Relies on crossbeam_channel's `Sender::send` through the cursive callback
/// sink: hands a no-op callback to the UI event loop's queue without waiting
/// for the UI thread, and fails exactly when the receiving end has been
/// dropped. Whether the UI loop is still there is outside the program's
/// control, so nothing is promised of the outcome.
#[verifier::external_body]
fn send_noop(sink: &UiSink) -> bool {
    sink.sink.send(Box::new(|_siv| {})).is_ok()
}

/// Maps a notification outcome to the writer's result: delivery, or the
/// channel-closed error — the only error the writer knows.
pub fn notify_result(sent: bool) -> (r: Result<(), WriteError>)
    ensures
        r is Ok <==> sent,
        !sent ==> r == Result::<(), WriteError>::Err(WriteError::SinkClosed),
{
    if sent {
        Ok(())
    } else {
        Err(WriteError::SinkClosed)
    }
}

/// Creates a log writer bound to this cursive root's callback sink.
pub fn cursive_flexi_logger(siv: &cursive_core::Cursive) -> Box<CursiveLogWriter> {
    Box::new(CursiveLogWriter { sink: clone_cb_sink(siv) })
}

impl CursiveLogWriter {
    /// Appends one formatted record to the store, then notifies the UI loop.
    /// The append always succeeds — a full store evicts its oldest line, it
    /// rejects nothing — whatever the notification outcome: the result only
    /// reports whether the wake-up reached the UI loop's queue.
    pub fn write(&self, store: &mut LogStore, rec: &LogRecord) -> (r: Result<(), WriteError>)
        requires
            old(store).wf(),
            rec.wf(),
        ensures
            final(store).wf(),
            final(store).lines().len() >= 1,
            is_formatted(final(store).lines().last(), *rec),
            final(store).lines().drop_last() == if old(store).lines().len() < STORE_CAPACITY {
                old(store).lines()
            } else {
                old(store).lines().drop_first()
            },
            r is Ok || r == Result::<(), WriteError>::Err(WriteError::SinkClosed),
    {
        let line = format_record(rec);
        let ghost l = line;
        store.append(line);
        proof {
            if old(store).lines().len() < STORE_CAPACITY {
                assert(old(store).lines().push(l).drop_last() =~= old(store).lines());
            } else {
                assert(old(store).lines().drop_first().push(l).drop_last() =~= old(
                    store,
                ).lines().drop_first());
            }
        }
        let sent = send_noop(&self.sink);
        notify_result(sent)
    }

    /// Nothing is buffered, so flushing does nothing and cannot fail.
    pub fn flush(&self) -> (r: Result<(), WriteError>)
        ensures
            r is Ok,
    {
        Ok(())
    }
}

} // verus!
