//! The device's log: what an event says, how the records of a log packet are
//! told apart, and what the written log says of a packet that never came.
//!
//! A log packet holds records one after the other. Each record ends with a
//! zero byte, and no other byte of a record is zero. Bytes after the last
//! zero byte are the start of a record whose end did not come: they are left
//! out.

use crate::text::{append_decimal, decimal};
use core::time::Duration;
use vstd::prelude::*;
use vstd::slice::slice_subrange;
use vstd::string::StringExecFns;

verus! {

/// An event that the device logs.
#[derive(Debug, Clone, Copy, PartialEq, Eq, Hash)]
pub enum Log {
    Initialized,
    WifiStarted,
    WifiError,
    WifiReceivedPacket { address: [u8; 4], port: u16 },
}

/// An event together with the time since the device started at which it
/// was logged.
#[derive(Debug, Clone, Copy, PartialEq, Eq, Hash)]
pub struct LogWithTime {
    pub time: Duration,
    pub log: Log,
}

impl Log {
    /// What the event says, in words.
    pub open spec fn text(self) -> Seq<char> {
        match self {
            Log::Initialized => "Initialized"@,
            Log::WifiStarted => "Wifi started"@,
            Log::WifiError => "Wifi error"@,
            Log::WifiReceivedPacket { address, port } => "Wifi received packet from "@ + decimal(
                address@[0] as nat,
            ) + "."@ + decimal(address@[1] as nat) + "."@ + decimal(address@[2] as nat) + "."@
                + decimal(address@[3] as nat) + ":"@ + decimal(port as nat),
        }
    }

    /// Says the event in words. The address of a received packet is written
    /// as four decimal numbers with dots between them, then a colon and the
    /// port.
    pub fn to_string(&self) -> (words: String)
        ensures
            words@ == self.text(),
    {
        match self {
            Log::Initialized => String::from_str("Initialized"),
            Log::WifiStarted => String::from_str("Wifi started"),
            Log::WifiError => String::from_str("Wifi error"),
            Log::WifiReceivedPacket { address, port } => {
                let mut words = String::from_str("Wifi received packet from ");
                append_decimal(&mut words, address[0] as u64);
                words.append(".");
                append_decimal(&mut words, address[1] as u64);
                words.append(".");
                append_decimal(&mut words, address[2] as u64);
                words.append(".");
                append_decimal(&mut words, address[3] as u64);
                words.append(":");
                append_decimal(&mut words, *port as u64);
                words
            },
        }
    }
}

/// What the written log says in place of packet `index` when the packet
/// never came.
pub open spec fn not_received_text(index: nat) -> Seq<char> {
    "Packet "@ + decimal(index) + " not received!\n"@
}

/// What the written log says for packet `index`: its text where there is
/// one, and otherwise that the packet was not received.
pub open spec fn line_text(index: nat, text: Option<Seq<char>>) -> Seq<char> {
    match text {
        Some(text) => text,
        None => not_received_text(index),
    }
}

/// The line that stands in the written log for packet `index`: the text of
/// the packet where it came, and otherwise the remark that it did not.
pub fn log_line(index: usize, text: Option<String>) -> (line: String)
    ensures
        line@ == line_text(
            index as nat,
            match text {
                Some(text) => Some(text@),
                None => None,
            },
        ),
{
    match text {
        Some(text) => text,
        None => {
            let mut line = String::from_str("Packet ");
            append_decimal(&mut line, index as u64);
            line.append(" not received!\n");
            line
        },
    }
}

/// Puts `text` at position `index` of the written log. The log grows as far
/// as it must to have that position; the positions that it gains in between
/// have no text. Every other position stays as it was.
pub fn put_line(log: &mut Vec<Option<String>>, index: usize, text: Option<String>)
    requires
        index < usize::MAX,
    ensures
        final(log)@.len() == if old(log)@.len() > index {
            old(log)@.len()
        } else {
            (index + 1) as nat
        },
        final(log)@[index as int] == text,
        forall|i: int| 0 <= i < old(log)@.len() && i != index ==> final(log)@[i] == old(log)@[i],
        forall|i: int| old(log)@.len() <= i < index ==> final(log)@[i] is None,
{
    while log.len() <= index
        invariant
            index < usize::MAX,
            old(log)@.len() <= log@.len(),
            log@.len() <= index + 1 || log@.len() == old(log)@.len(),
            forall|i: int| 0 <= i < old(log)@.len() ==> log@[i] == old(log)@[i],
            forall|i: int| old(log)@.len() <= i < log@.len() ==> log@[i] is None,
        decreases index + 1 - log@.len(),
    {
        log.push(None);
    }
    log[index] = text;
}

/// The position of the first zero byte of `buffer` at or after `from`, or the
/// length of `buffer` where there is none.
pub open spec fn terminator(buffer: Seq<u8>, from: int) -> int
    decreases buffer.len() - from,
{
    if from >= buffer.len() {
        buffer.len() as int
    } else if buffer[from] == 0 {
        from
    } else {
        terminator(buffer, from + 1)
    }
}

/// The records of `buffer` from position `from` on, each with its
/// terminating zero byte, in the order in which they stand.
pub open spec fn records(buffer: Seq<u8>, from: int) -> Seq<Seq<u8>>
    decreases buffer.len() - from,
{
    let zero = terminator(buffer, from);
    if 0 <= from <= zero < buffer.len() {
        seq![buffer.subrange(from, zero + 1)] + records(buffer, zero + 1)
    } else {
        Seq::empty()
    }
}

/// The first zero byte at or after `from` stands at or after `from`, no byte
/// between the two is zero, and it lies in the buffer exactly where the rest
/// of the buffer has a zero byte.
pub proof fn lemma_terminator(buffer: Seq<u8>, from: int)
    requires
        0 <= from <= buffer.len(),
    ensures
        from <= terminator(buffer, from) <= buffer.len(),
        terminator(buffer, from) < buffer.len() ==> buffer[terminator(buffer, from)] == 0,
        forall|k: int| from <= k < terminator(buffer, from) ==> buffer[k] != 0,
    decreases buffer.len() - from,
{
    if from < buffer.len() && buffer[from] != 0 {
        lemma_terminator(buffer, from + 1);
    }
}

/// Whether `record` is one record: it ends with a zero byte and holds no
/// other.
pub open spec fn is_record(record: Seq<u8>) -> bool {
    &&& record.len() > 0
    &&& record.last() == 0
    &&& forall|i: int| 0 <= i < record.len() - 1 ==> record[i] != 0
}

/// The bytes of `records` one after the other.
pub open spec fn joined(records: Seq<Seq<u8>>) -> Seq<u8>
    decreases records.len(),
{
    if records.len() == 0 {
        Seq::empty()
    } else {
        records.first() + joined(records.drop_first())
    }
}

/// Bytes in front of a buffer move the first zero byte by their number and
/// nothing else.
pub proof fn lemma_terminator_shift(front: Seq<u8>, buffer: Seq<u8>, from: int)
    requires
        0 <= from <= buffer.len(),
    ensures
        terminator(front + buffer, front.len() + from) == front.len() + terminator(buffer, from),
    decreases buffer.len() - from,
{
    let whole = front + buffer;
    if from < buffer.len() {
        assert(whole[front.len() + from] == buffer[from]);
        if buffer[from] != 0 {
            lemma_terminator_shift(front, buffer, from + 1);
        }
    }
}

/// Bytes in front of a buffer change nothing of the records that are read
/// behind them.
pub proof fn lemma_records_shift(front: Seq<u8>, buffer: Seq<u8>, from: int)
    requires
        0 <= from <= buffer.len(),
    ensures
        records(front + buffer, front.len() + from) == records(buffer, from),
    decreases buffer.len() - from,
{
    let whole = front + buffer;
    lemma_terminator_shift(front, buffer, from);
    lemma_terminator(buffer, from);
    let zero = terminator(buffer, from);
    if zero < buffer.len() {
        lemma_records_shift(front, buffer, zero + 1);
        assert(whole.subrange(front.len() + from, front.len() + zero + 1) =~= buffer.subrange(
            from,
            zero + 1,
        ));
    }
}

/// Records written one after the other are read back as the same records in
/// the same order, and bytes without a zero byte behind the last of them are
/// left out.
pub proof fn lemma_records_round_trip(written: Seq<Seq<u8>>, tail: Seq<u8>)
    requires
        forall|i: int| 0 <= i < written.len() ==> is_record(#[trigger] written[i]),
        forall|i: int| 0 <= i < tail.len() ==> tail[i] != 0,
    ensures
        records(joined(written) + tail, 0) == written,
    decreases written.len(),
{
    let buffer = joined(written) + tail;
    if written.len() == 0 {
        assert(buffer =~= tail);
        lemma_terminator(tail, 0);
        assert(records(buffer, 0) =~= written);
    } else {
        let first = written.first();
        let rest = joined(written.drop_first()) + tail;
        assert(is_record(written[0]));
        assert(buffer =~= first + rest);
        lemma_terminator(buffer, 0);
        let zero = terminator(buffer, 0);
        assert(buffer[first.len() - 1] == 0);
        if zero < first.len() - 1 {
            assert(buffer[zero] == first[zero]);
        }
        assert(zero == first.len() - 1);
        assert(buffer.subrange(0, zero + 1) =~= first);
        lemma_records_shift(first, rest, 0);
        assert forall|i: int| 0 <= i < written.drop_first().len() implies is_record(
            #[trigger] written.drop_first()[i],
        ) by {
            assert(written.drop_first()[i] == written[i + 1]);
        }
        lemma_records_round_trip(written.drop_first(), tail);
        assert(records(buffer, 0) =~= written);
    }
}

/// Goes through the records of one log packet.
pub struct LogIterator<'a> {
    buffer: &'a [u8],
    index: usize,
}

impl<'a> LogIterator<'a> {
    /// The bytes of the packet.
    pub closed spec fn buffer(&self) -> Seq<u8> {
        self.buffer@
    }

    /// The position from which the next record is read.
    pub closed spec fn position(&self) -> int {
        self.index as int
    }

    #[verifier::type_invariant]
    spec fn within(&self) -> bool {
        self.index <= self.buffer@.len()
    }

    /// Starts at the first byte of a log packet.
    pub fn new(buffer: &'a [u8]) -> (iterator: Self)
        ensures
            iterator.buffer() == buffer@,
            iterator.position() == 0,
    {
        LogIterator { buffer, index: 0 }
    }

    /// Hands out the next record with its terminating zero byte and moves
    /// behind it. Where no zero byte is left, there is no record: the rest of
    /// the packet is passed over.
    pub fn next_record(&mut self) -> (record: Option<&'a [u8]>)
        ensures
            0 <= old(self).position() <= old(self).buffer().len(),
            final(self).buffer() == old(self).buffer(),
            match record {
                Some(bytes) => {
                    &&& terminator(old(self).buffer(), old(self).position()) < old(
                        self,
                    ).buffer().len()
                    &&& final(self).position() == terminator(
                        old(self).buffer(),
                        old(self).position(),
                    ) + 1
                    &&& bytes@ == old(self).buffer().subrange(
                        old(self).position(),
                        final(self).position(),
                    )
                },
                None => {
                    &&& terminator(old(self).buffer(), old(self).position()) == old(
                        self,
                    ).buffer().len()
                    &&& final(self).position() == old(self).buffer().len()
                },
            },
            records(old(self).buffer(), old(self).position()) == match record {
                Some(bytes) => seq![bytes@] + records(final(self).buffer(), final(self).position()),
                None => Seq::empty(),
            },
    {
        proof {
            use_type_invariant(&*self);
        }
        let start = self.index;
        let n = self.buffer.len();
        let mut at = start;
        while at < n && self.buffer[at] != 0
            invariant
                start <= at <= n,
                n == self.buffer@.len(),
                terminator(self.buffer@, start as int) == terminator(self.buffer@, at as int),
            decreases n - at,
        {
            at += 1;
        }
        if at < n {
            self.index = at + 1;
            Some(slice_subrange(self.buffer, start, at + 1))
        } else {
            self.index = n;
            None
        }
    }
}

} // verus!
