//! Assembling command lines from the bytes that arrive over the socket.

use vstd::prelude::*;

use crate::COMMAND_BUFFER_LEN;

verus! {

/// What one received byte leads to.
#[derive(Debug)]
pub enum IngestEvent {
    /// Nothing to act on yet.
    Nothing,
    /// A line ended; these are its bytes.
    Line(Vec<u8>),
    /// The line outgrew the buffer and was dropped.
    TooLong,
}

/// A byte that ends a line: carriage return or line feed.
pub open spec fn is_line_end(byte: u8) -> bool {
    byte == 13 || byte == 10
}

/// A byte that erases the last one: backspace or delete.
pub open spec fn is_erase(byte: u8) -> bool {
    byte == 8 || byte == 127
}

/// A byte that is kept: ASCII graphic characters and space.
pub open spec fn is_printable(byte: u8) -> bool {
    32 <= byte && byte <= 126
}

/// Every byte is printable.
pub open spec fn all_printable(s: Seq<u8>) -> bool {
    forall|i: int| 0 <= i < s.len() ==> #[trigger] is_printable(s[i])
}

/// The line buffer after `byte` arrives.
pub open spec fn line_after(line: Seq<u8>, byte: u8) -> Seq<u8> {
    if is_line_end(byte) {
        Seq::empty()
    } else if is_erase(byte) {
        if line.len() == 0 {
            line
        } else {
            line.drop_last()
        }
    } else if is_printable(byte) {
        if line.len() >= COMMAND_BUFFER_LEN {
            Seq::empty()
        } else {
            line.push(byte)
        }
    } else {
        line
    }
}

/// The line buffer after `bytes` arrive one by one.
pub open spec fn line_after_all(line: Seq<u8>, bytes: Seq<u8>) -> Seq<u8>
    decreases bytes.len(),
{
    if bytes.len() == 0 {
        line
    } else {
        line_after(line_after_all(line, bytes.drop_last()), bytes.last())
    }
}

/// Printable bytes that fit the buffer, typed into an empty buffer, are kept
/// as they came; the line end that follows hands them over whole.
pub proof fn law_typed_line_is_kept(bytes: Seq<u8>)
    requires
        all_printable(bytes),
        bytes.len() <= COMMAND_BUFFER_LEN,
    ensures
        line_after_all(Seq::empty(), bytes) == bytes,
    decreases bytes.len(),
{
    if bytes.len() > 0 {
        let init = bytes.drop_last();
        assert(all_printable(init)) by {
            assert forall|i: int| 0 <= i < init.len() implies #[trigger] is_printable(init[i]) by {
                assert(is_printable(bytes[i]));
            }
        }
        law_typed_line_is_kept(init);
        assert(is_printable(bytes[bytes.len() - 1]));
        assert(init.push(bytes.last()) =~= bytes);
    }
}

/// Both carriage return and line feed end a line, whichever a client sends:
/// a typed line followed by either leaves an empty buffer, while a printable
/// byte that fits is kept.
pub proof fn law_both_line_ends_end_a_line(line: Seq<u8>, byte: u8)
    requires
        all_printable(line),
        line.len() <= COMMAND_BUFFER_LEN,
    ensures
        line_after_all(Seq::empty(), line.push(13)) == Seq::<u8>::empty(),
        line_after_all(Seq::empty(), line.push(10)) == Seq::<u8>::empty(),
        32 <= byte <= 126 && line.len() < COMMAND_BUFFER_LEN ==> line_after_all(
            Seq::empty(),
            line.push(byte),
        ) == line.push(byte),
{
    law_typed_line_is_kept(line);
    assert(line.push(13).drop_last() =~= line);
    assert(line.push(10).drop_last() =~= line);
    assert(line.push(byte).drop_last() =~= line);
}

/// Feeds one received byte to the line buffer.
///
/// A line end hands over the line (an empty one is ignored), backspace and
/// delete drop the last byte, printable bytes are appended, and a printable
/// byte that finds the buffer full drops the whole line. Other bytes are ignored.
pub fn ingest_byte(byte: u8, line_buffer: &mut Vec<u8>) -> (r: IngestEvent)
    requires
        old(line_buffer)@.len() <= COMMAND_BUFFER_LEN,
    ensures
        final(line_buffer)@ == line_after(old(line_buffer)@, byte),
        final(line_buffer)@.len() <= COMMAND_BUFFER_LEN,
        all_printable(old(line_buffer)@) ==> all_printable(final(line_buffer)@),
        match r {
            IngestEvent::Line(line) => is_line_end(byte) && old(line_buffer)@.len() > 0
                && line@ == old(line_buffer)@,
            IngestEvent::TooLong => is_printable(byte) && old(line_buffer)@.len()
                == COMMAND_BUFFER_LEN,
            IngestEvent::Nothing => !(is_line_end(byte) && old(line_buffer)@.len() > 0) && !(
            is_printable(byte) && old(line_buffer)@.len() == COMMAND_BUFFER_LEN),
        },
        byte == 13 || byte == 10 ==> final(line_buffer)@.len() == 0 && if old(line_buffer)@.len()
            > 0 {
            r matches IngestEvent::Line(line) && line@ == old(line_buffer)@
        } else {
            r is Nothing
        },
        byte == 8 || byte == 127 ==> r is Nothing && final(line_buffer)@ == if old(
            line_buffer,
        )@.len() == 0 {
            old(line_buffer)@
        } else {
            old(line_buffer)@.drop_last()
        },
        32 <= byte <= 126 ==> if old(line_buffer)@.len() < COMMAND_BUFFER_LEN {
            r is Nothing && final(line_buffer)@ == old(line_buffer)@.push(byte)
        } else {
            r is TooLong && final(line_buffer)@.len() == 0
        },
        !(byte == 13 || byte == 10 || byte == 8 || byte == 127 || 32 <= byte <= 126) ==> r is Nothing
            && final(line_buffer)@ == old(line_buffer)@,
{
    if byte == 13 || byte == 10 {
        if line_buffer.len() == 0 {
            return IngestEvent::Nothing;
        }
        let mut line: Vec<u8> = Vec::new();
        std::mem::swap(&mut line, line_buffer);
        return IngestEvent::Line(line);
    }
    if byte == 8 || byte == 127 {
        if line_buffer.len() > 0 {
            line_buffer.pop();
        }
        return IngestEvent::Nothing;
    }
    if 32 <= byte && byte <= 126 {
        if line_buffer.len() == COMMAND_BUFFER_LEN {
            line_buffer.clear();
            return IngestEvent::TooLong;
        }
        line_buffer.push(byte);
    }
    IngestEvent::Nothing
}

} // verus!
