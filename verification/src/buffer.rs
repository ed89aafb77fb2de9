//! The buffer of robot log chunks that the websocket relay keeps between
//! resets.
use crate::bufs::bytes_content;
use bytes::Bytes;
use std::collections::VecDeque;
use vstd::prelude::*;

verus! {

/// The number of log chunks the buffer makes room for when it is created.
pub const LOG_BUFFER_CAPACITY: usize = 1024;

/// A request to the log buffer.
#[derive(Debug)]
pub enum LogBufferMessage {
    /// Keep a chunk of log output at the end of the buffer.
    Append(Bytes),
    /// Forget everything buffered so far.
    Clear,
}

/// The log chunks, in the order they were appended.
pub open spec fn chunk_contents(chunks: Seq<Bytes>) -> Seq<Seq<u8>> {
    chunks.map_values(|b: Bytes| bytes_content(b))
}

/// What the buffer holds after one message.
pub open spec fn after_message(contents: Seq<Seq<u8>>, msg: LogBufferMessage) -> Seq<Seq<u8>> {
    match msg {
        LogBufferMessage::Append(b) => contents.push(bytes_content(b)),
        LogBufferMessage::Clear => Seq::empty(),
    }
}

/// What the buffer holds after a series of messages, handled in order.
pub open spec fn after_messages(contents: Seq<Seq<u8>>, msgs: Seq<LogBufferMessage>) -> Seq<Seq<u8>>
    decreases msgs.len(),
{
    if msgs.len() == 0 {
        contents
    } else {
        after_message(after_messages(contents, msgs.drop_last()), msgs.last())
    }
}

/// The chunks that a series of messages appends, in order.
pub open spec fn appended(msgs: Seq<LogBufferMessage>) -> Seq<Seq<u8>>
    decreases msgs.len(),
{
    if msgs.len() == 0 {
        Seq::empty()
    } else {
        match msgs.last() {
            LogBufferMessage::Append(b) => appended(msgs.drop_last()).push(bytes_content(b)),
            LogBufferMessage::Clear => appended(msgs.drop_last()),
        }
    }
}

/// The position of the last `Clear` message of the series, if it has one.
pub open spec fn last_clear(msgs: Seq<LogBufferMessage>) -> Option<int>
    decreases msgs.len(),
{
    if msgs.len() == 0 {
        None
    } else if msgs.last() is Clear {
        Some(msgs.len() - 1)
    } else {
        last_clear(msgs.drop_last())
    }
}

/// The buffered log of the robot's output.
pub struct LogBuffer {
    buffer: VecDeque<Bytes>,
}

impl LogBuffer {
    /// The chunks held, oldest first.
    pub closed spec fn contents(&self) -> Seq<Seq<u8>> {
        chunk_contents(self.buffer@)
    }

    /// Create a new, empty buffer with room for `capacity` chunks.
    pub fn new(capacity: usize) -> (r: LogBuffer)
        ensures
            r.contents() == Seq::<Seq<u8>>::empty(),
    {
        let buffer: VecDeque<Bytes> = VecDeque::with_capacity(capacity);
        LogBuffer { buffer }
    }

    /// Handle one message: append its chunk at the end, or clear the buffer.
    pub fn handle(&mut self, msg: LogBufferMessage)
        ensures
            final(self).contents() == after_message(old(self).contents(), msg),
            match msg {
                LogBufferMessage::Append(b) => final(self).contents() == old(self).contents().push(bytes_content(b)),
                LogBufferMessage::Clear => final(self).contents().len() == 0,
            },
    {
        match msg {
            LogBufferMessage::Append(b) => {
                self.buffer.push_back(b);
                assert(chunk_contents(self.buffer@) =~= chunk_contents(old(self).buffer@).push(
                    bytes_content(self.buffer@.last()),
                ));
            },
            LogBufferMessage::Clear => {
                self.buffer.clear();
                assert(chunk_contents(self.buffer@) =~= Seq::<Seq<u8>>::empty());
            },
        }
    }

    /// The number of chunks held.
    pub fn len(&self) -> (r: usize)
        ensures
            r == self.contents().len(),
    {
        self.buffer.len()
    }

    /// The chunk at position `i`, oldest first, if there is one.
    pub fn get(&self, i: usize) -> (r: Option<&Bytes>)
        ensures
            match r {
                Some(b) => i < self.contents().len() && bytes_content(*b) == self.contents()[i as int],
                None => i >= self.contents().len(),
            },
    {
        if i < self.buffer.len() {
            Some(&self.buffer[i])
        } else {
            None
        }
    }
}

/// `last_clear` finds the last `Clear` of a series, and finds none only where
/// the series has none.
pub proof fn lemma_last_clear(msgs: Seq<LogBufferMessage>)
    ensures
        match last_clear(msgs) {
            Some(k) => 0 <= k < msgs.len() && msgs[k] is Clear && forall|j: int|
                k < j < msgs.len() ==> !(#[trigger] msgs[j] is Clear),
            None => forall|j: int| 0 <= j < msgs.len() ==> !(#[trigger] msgs[j] is Clear),
        },
    decreases msgs.len(),
{
    if msgs.len() > 0 {
        let init = msgs.drop_last();
        lemma_last_clear(init);
        assert forall|j: int| 0 <= j < init.len() implies init[j] == msgs[j] by {}
    }
}

/// Whatever series of messages the buffer handles, it ends up holding the
/// chunks appended since the last `Clear`, in the order they came; with no
/// `Clear` among them, those chunks follow what it held before.
pub proof fn lemma_buffer_holds_chunks_since_last_clear(
    contents: Seq<Seq<u8>>,
    msgs: Seq<LogBufferMessage>,
)
    ensures
        match last_clear(msgs) {
            Some(k) => after_messages(contents, msgs) == appended(msgs.skip(k + 1)),
            None => after_messages(contents, msgs) == contents + appended(msgs),
        },
    decreases msgs.len(),
{
    if msgs.len() == 0 {
        assert(contents + Seq::<Seq<u8>>::empty() =~= contents);
    } else {
        let init = msgs.drop_last();
        lemma_buffer_holds_chunks_since_last_clear(contents, init);
        lemma_last_clear(init);
        let last = msgs.last();
        if last is Clear {
            assert(msgs.skip(msgs.len() as int) =~= Seq::<LogBufferMessage>::empty());
        } else {
            match last_clear(init) {
                Some(k) => {
                    assert(msgs.skip(k + 1).drop_last() =~= init.skip(k + 1));
                    assert(msgs.skip(k + 1).last() == last);
                },
                None => {
                    match last {
                        LogBufferMessage::Append(b) => {
                            assert((contents + appended(init)).push(bytes_content(b)) =~= contents
                                + appended(init).push(bytes_content(b)));
                        },
                        LogBufferMessage::Clear => {},
                    }
                },
            }
        }
    }
}

} // verus!
