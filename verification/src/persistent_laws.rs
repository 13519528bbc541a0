//! What holds of the log behind a persistent buffer.

use crate::bytes;
use crate::log_format;
use crate::log_format::{LogEntry, HEADER_SIZE, VERSION};
use crate::persistent;
use crate::persistent::{PersistentState, SyncMode};
use crate::time;
use std::time::Duration;
use vstd::prelude::*;

verus! {

/// The bytes of some entries, given those of their items.
pub open spec fn bodies<T>(entries: Seq<LogEntry<T>>, payloads: Seq<Seq<u8>>) -> Seq<Seq<u8>> {
    Seq::new(
        entries.len(),
        |i: int|
            log_format::entry_bytes(entries[i].sequence, payloads[i], entries[i].checksum),
    )
}

/// The items' bytes belong to the entries, and no entry is too long for the four
/// bytes of its length.
pub open spec fn fits<T>(entries: Seq<LogEntry<T>>, payloads: Seq<Seq<u8>>) -> bool {
    &&& payloads.len() == entries.len()
    &&& forall|i: int|
        0 <= i < payloads.len() ==> (#[trigger] payloads[i]).len() + 12 < 0x1_0000_0000
}

/// Every payload was read as the item that it stands for, all of it.
pub open spec fn read_faithfully<T>(
    entries: Seq<LogEntry<T>>,
    payloads: Seq<Seq<u8>>,
    read: Seq<Option<(T, usize)>>,
) -> bool {
    &&& read.len() == entries.len()
    &&& forall|i: int|
        0 <= i < entries.len() ==> #[trigger] read[i] == Some(
            (entries[i].data, payloads[i].len() as usize),
        )
}

/// The first frame of a log is read back, whatever follows.
proof fn lemma_first_frame(entry: Seq<u8>, rest: Seq<u8>)
    requires
        0 < entry.len() < 0x1_0000_0000,
    ensures
        log_format::frames(log_format::framed(entry) + rest) == seq![entry] + log_format::frames(
            rest,
        ),
{
    let log = log_format::framed(entry) + rest;
    let prefix = bytes::le_bytes(entry.len(), 4);
    bytes::lemma_le_limits();
    bytes::lemma_le_bytes_len(entry.len(), 4);
    bytes::law_le_bytes_are_reversible(entry.len(), 4);
    assert(log.take(4) =~= prefix);
    assert(log.subrange(4, 4 + entry.len() as int) =~= entry);
    assert(log.skip(4 + entry.len() as int) =~= rest);
}

/// A frame that is not there in full is not read.
proof fn lemma_torn_frame(entry: Seq<u8>, n: int)
    requires
        0 < entry.len() < 0x1_0000_0000,
        0 <= n < log_format::framed(entry).len(),
    ensures
        log_format::frames(log_format::framed(entry).take(n)) == Seq::<Seq<u8>>::empty(),
{
    let log = log_format::framed(entry).take(n);
    let prefix = bytes::le_bytes(entry.len(), 4);
    bytes::lemma_le_limits();
    bytes::lemma_le_bytes_len(entry.len(), 4);
    bytes::law_le_bytes_are_reversible(entry.len(), 4);
    if n >= 4 {
        assert(log.take(4) =~= prefix);
    }
}

/// The frames of a log are read back, followed by those of what comes after.
proof fn lemma_frames_of_log<T>(
    entries: Seq<LogEntry<T>>,
    payloads: Seq<Seq<u8>>,
    rest: Seq<u8>,
)
    requires
        fits(entries, payloads),
    ensures
        log_format::frames(persistent::log_of(entries, payloads) + rest) == bodies(
            entries,
            payloads,
        ) + log_format::frames(rest),
    decreases entries.len(),
{
    let all = bodies(entries, payloads);
    if entries.len() == 0 {
        assert(persistent::log_of(entries, payloads) + rest =~= rest);
        assert(all + log_format::frames(rest) =~= log_format::frames(rest));
    } else {
        let entry = log_format::entry_bytes(
            entries.last().sequence,
            payloads.last(),
            entries.last().checksum,
        );
        let shorter = persistent::log_of(entries.drop_last(), payloads.drop_last());
        let next = log_format::framed(entry) + rest;
        bytes::lemma_le_bytes_len(entries.last().sequence as nat, 8);
        bytes::lemma_le_bytes_len(entries.last().checksum as nat, 4);
        assert(payloads.last() == payloads[payloads.len() - 1]);
        assert forall|i: int| 0 <= i < payloads.drop_last().len() implies (
        #[trigger] payloads.drop_last()[i]).len() + 12 < 0x1_0000_0000 by {
            assert(payloads.drop_last()[i] == payloads[i]);
        }
        lemma_frames_of_log(entries.drop_last(), payloads.drop_last(), next);
        lemma_first_frame(entry, rest);
        assert(persistent::log_of(entries, payloads) + rest =~= shorter + next);
        assert(bodies(entries.drop_last(), payloads.drop_last()) + (seq![entry]
            + log_format::frames(rest)) =~= all + log_format::frames(rest));
    }
}

/// An entry is read back from its bytes.
proof fn lemma_entry_of<T>(entry: LogEntry<T>, payload: Seq<u8>)
    requires
        payload.len() + 12 < 0x1_0000_0000,
    ensures
        log_format::entry_of(
            log_format::entry_bytes(entry.sequence, payload, entry.checksum),
            Some((entry.data, payload.len() as usize)),
        ) == Some(entry),
{
    let body = log_format::entry_bytes(entry.sequence, payload, entry.checksum);
    let used = payload.len() as int;
    bytes::lemma_le_limits();
    bytes::lemma_le_bytes_len(entry.sequence as nat, 8);
    bytes::lemma_le_bytes_len(entry.checksum as nat, 4);
    bytes::law_le_bytes_are_reversible(entry.sequence as nat, 8);
    bytes::law_le_bytes_are_reversible(entry.checksum as nat, 4);
    assert(body.take(8) =~= bytes::le_bytes(entry.sequence as nat, 8));
    assert(body.subrange(8 + used, 12 + used) =~= bytes::le_bytes(entry.checksum as nat, 4));
}

/// Entries are read back from their bytes.
proof fn lemma_readable<T>(
    entries: Seq<LogEntry<T>>,
    payloads: Seq<Seq<u8>>,
    read: Seq<Option<(T, usize)>>,
)
    requires
        fits(entries, payloads),
        read_faithfully(entries, payloads, read),
    ensures
        log_format::readable(bodies(entries, payloads), read) == entries,
    decreases entries.len(),
{
    if entries.len() > 0 {
        let all = bodies(entries, payloads);
        let later = entries.skip(1);
        let later_payloads = payloads.skip(1);
        let later_read = read.skip(1);
        assert forall|i: int| 0 <= i < later_payloads.len() implies (
        #[trigger] later_payloads[i]).len() + 12 < 0x1_0000_0000 by {
            assert(later_payloads[i] == payloads[i + 1]);
        }
        assert forall|i: int| 0 <= i < later.len() implies #[trigger] later_read[i] == Some(
            (later[i].data, later_payloads[i].len() as usize),
        ) by {
            assert(later_read[i] == read[i + 1]);
        }
        lemma_readable(later, later_payloads, later_read);
        lemma_entry_of(entries[0], payloads[0]);
        assert(read[0] == Some((entries[0].data, payloads[0].len() as usize)));
        assert(all.skip(1) =~= bodies(later, later_payloads));
        assert(seq![entries[0]] + later =~= entries);
    } else {
        assert(log_format::readable(bodies(entries, payloads), read) =~= entries);
    }
}

/// A new file is a file that can be read, whatever was appended to it, and has
/// no entries of its own.
pub proof fn law_new_file_is_readable(log: Seq<u8>)
    ensures
        log_format::initial_image().len() == HEADER_SIZE,
        log_format::header_defect(log_format::initial_image() + log) is None,
        (log_format::initial_image() + log).skip(HEADER_SIZE as int) == log,
        log_format::frames(log_format::initial_image().skip(HEADER_SIZE as int)) == Seq::<
            Seq<u8>,
        >::empty(),
{
    let image = log_format::initial_image();
    let file = image + log;
    let sum = log_format::initial_sum();
    bytes::lemma_le_limits();
    bytes::lemma_le_bytes_len(VERSION as nat, 4);
    bytes::lemma_le_bytes_len(0, 8);
    bytes::lemma_le_bytes_len(sum, 4);
    bytes::law_le_bytes_are_reversible(VERSION as nat, 4);
    bytes::law_le_bytes_are_reversible(0, 8);
    bytes::law_le_bytes_are_reversible(sum, 4);
    assert(file.take(8) =~= log_format::magic());
    assert(file.subrange(8, 12) =~= bytes::le_bytes(VERSION as nat, 4));
    assert(file.subrange(12, 20) =~= bytes::le_bytes(0, 8));
    assert(file.subrange(20, 28) =~= bytes::le_bytes(0, 8));
    assert(file.subrange(28, 36) =~= bytes::le_bytes(0, 8));
    assert(file.subrange(36, 40) =~= bytes::le_bytes(sum, 4));
    assert(file.skip(HEADER_SIZE as int) =~= log);
}

/// What is written comes back: the entries of a file are, after a restart, the
/// entries that were written to it, in their order, if their items' bytes are
/// read as the items.
pub proof fn law_recovery_reads_back_writes<T>(
    entries: Seq<LogEntry<T>>,
    payloads: Seq<Seq<u8>>,
    read: Seq<Option<(T, usize)>>,
)
    requires
        fits(entries, payloads),
        read_faithfully(entries, payloads, read),
    ensures
        ({
            let file = log_format::initial_image() + persistent::log_of(entries, payloads);
            &&& log_format::header_defect(file) is None
            &&& log_format::readable(log_format::frames(file.skip(HEADER_SIZE as int)), read)
                == entries
        }),
{
    let log = persistent::log_of(entries, payloads);
    law_new_file_is_readable(log);
    lemma_frames_of_log(entries, payloads, Seq::empty());
    lemma_readable(entries, payloads, read);
    assert(log + Seq::<u8>::empty() =~= log);
    assert(log_format::frames(Seq::<u8>::empty()) =~= Seq::<Seq<u8>>::empty());
    assert(bodies(entries, payloads) + Seq::<Seq<u8>>::empty() =~= bodies(entries, payloads));
}

/// A write that a crash cut short costs no other entry: all entries before it
/// come back.
pub proof fn law_torn_write_costs_no_other_entry<T>(
    entries: Seq<LogEntry<T>>,
    payloads: Seq<Seq<u8>>,
    read: Seq<Option<(T, usize)>>,
    last: LogEntry<T>,
    last_payload: Seq<u8>,
    n: int,
)
    requires
        fits(entries, payloads),
        read_faithfully(entries, payloads, read),
        last_payload.len() + 12 < 0x1_0000_0000,
        0 <= n < last_payload.len() + 16,
    ensures
        ({
            let frame = log_format::framed(
                log_format::entry_bytes(last.sequence, last_payload, last.checksum),
            );
            let file = log_format::initial_image() + (persistent::log_of(entries, payloads)
                + frame.take(n));
            &&& log_format::header_defect(file) is None
            &&& log_format::readable(log_format::frames(file.skip(HEADER_SIZE as int)), read)
                == entries
        }),
{
    let body = log_format::entry_bytes(last.sequence, last_payload, last.checksum);
    let torn = log_format::framed(body).take(n);
    bytes::lemma_le_bytes_len(last.sequence as nat, 8);
    bytes::lemma_le_bytes_len(last.checksum as nat, 4);
    bytes::lemma_le_bytes_len(body.len(), 4);
    law_new_file_is_readable(persistent::log_of(entries, payloads) + torn);
    lemma_frames_of_log(entries, payloads, torn);
    lemma_torn_frame(body, n);
    lemma_readable(entries, payloads, read);
    assert(bodies(entries, payloads) + Seq::<Seq<u8>>::empty() =~= bodies(entries, payloads));
}

/// Appending the frame of the next entry to a log gives the log with that entry.
pub proof fn law_writes_extend_the_log<T>(
    s: PersistentState<T>,
    entries: Seq<LogEntry<T>>,
    payloads: Seq<Seq<u8>>,
    entry: LogEntry<T>,
    payload: Seq<u8>,
)
    requires
        payloads.len() == entries.len(),
        entry.sequence == s.sequence,
        entry.checksum == log_format::entry_sum(s.sequence, payload) as u32,
    ensures
        persistent::log_of(entries, payloads) + s.next_frame(payload) == persistent::log_of(
            entries.push(entry),
            payloads.push(payload),
        ),
{
    assert(entries.push(entry).drop_last() =~= entries);
    assert(payloads.push(payload).drop_last() =~= payloads);
}

/// Compaction loses nothing that was not popped: what the compacted file gives
/// back is what the buffer holds.
pub proof fn law_compaction_keeps_entries<T>(
    s: PersistentState<T>,
    payloads: Seq<Seq<u8>>,
    read: Seq<Option<(T, usize)>>,
)
    requires
        fits(s.entries, payloads),
        read_faithfully(s.entries, payloads, read),
    ensures
        ({
            let file = log_format::initial_image() + persistent::log_of(s.entries, payloads);
            s.recovered(
                log_format::readable(log_format::frames(file.skip(HEADER_SIZE as int)), read),
            ).entries == s.entries
        }),
{
    law_recovery_reads_back_writes(s.entries, payloads, read);
}

/// The state of a buffer after pushes of some items with their bytes, and what
/// was appended to the file.
pub open spec fn write_all<T>(s: PersistentState<T>, items: Seq<(T, Seq<u8>)>) -> (
    PersistentState<T>,
    Seq<u8>,
)
    decreases items.len(),
{
    if items.len() == 0 {
        (s, Seq::empty())
    } else {
        let (before, log) = write_all(s, items.drop_last());
        let (data, payload) = items.last();
        let frame = before.next_frame(payload);
        let entry = LogEntry {
            sequence: before.sequence,
            data,
            checksum: log_format::entry_sum(before.sequence, payload) as u32,
        };
        (before.with_sequence_used().with_entry(entry, frame.len()), log + frame)
    }
}

/// The bytes of some items.
pub open spec fn payloads_of<T>(items: Seq<(T, Seq<u8>)>) -> Seq<Seq<u8>> {
    Seq::new(items.len(), |i: int| items[i].1)
}

/// What pushes append to the file is the log of the entries that they leave in
/// an empty buffer.
proof fn lemma_write_all<T>(s: PersistentState<T>, items: Seq<(T, Seq<u8>)>)
    requires
        s.entries.len() == 0,
    ensures
        ({
            let (after, log) = write_all(s, items);
            &&& after.entries.len() == items.len()
            &&& forall|i: int|
                0 <= i < items.len() ==> (#[trigger] after.entries[i]).data == items[i].0
            &&& log == persistent::log_of(after.entries, payloads_of(items))
        }),
    decreases items.len(),
{
    let (after, log) = write_all(s, items);
    if items.len() > 0 {
        let (before, earlier) = write_all(s, items.drop_last());
        let payload = items.last().1;
        lemma_write_all(s, items.drop_last());
        law_writes_extend_the_log(
            before,
            before.entries,
            payloads_of(items.drop_last()),
            after.entries.last(),
            payload,
        );
        assert(after.entries =~= before.entries.push(after.entries.last()));
        assert(payloads_of(items) =~= payloads_of(items.drop_last()).push(payload));
    }
}

/// A restart gives back what was pushed: after pushes to a new file, the entries
/// that come back are those that the buffer held, with the items in the order of
/// the pushes.
pub proof fn law_restart_gives_back_what_was_pushed<T>(
    s: PersistentState<T>,
    items: Seq<(T, Seq<u8>)>,
    read: Seq<Option<(T, usize)>>,
)
    requires
        s.entries.len() == 0,
        forall|i: int|
            0 <= i < items.len() ==> (#[trigger] items[i]).1.len() + 12 < 0x1_0000_0000,
        read.len() == items.len(),
        forall|i: int|
            0 <= i < items.len() ==> #[trigger] read[i] == Some(
                (items[i].0, items[i].1.len() as usize),
            ),
    ensures
        ({
            let (after, log) = write_all(s, items);
            let file = log_format::initial_image() + log;
            let back = log_format::readable(
                log_format::frames(file.skip(HEADER_SIZE as int)),
                read,
            );
            &&& log_format::header_defect(file) is None
            &&& back == after.entries
            &&& back.len() == items.len()
            &&& forall|i: int| 0 <= i < items.len() ==> (#[trigger] back[i]).data == items[i].0
        }),
{
    let (after, log) = write_all(s, items);
    let payloads = payloads_of(items);
    lemma_write_all(s, items);
    assert forall|i: int| 0 <= i < payloads.len() implies (#[trigger] payloads[i]).len() + 12
        < 0x1_0000_0000 by {
        assert(payloads[i] == items[i].1);
    }
    law_recovery_reads_back_writes(after.entries, payloads, read);
}

/// The entries are numbered upwards, and the next number is above all of theirs.
pub open spec fn numbered<T>(s: PersistentState<T>) -> bool {
    &&& forall|i: int, j: int|
        0 <= i < j < s.entries.len() ==> (#[trigger] s.entries[i]).sequence < (
        #[trigger] s.entries[j]).sequence
    &&& forall|i: int| 0 <= i < s.entries.len() ==> (#[trigger] s.entries[i]).sequence < s.sequence
}

/// Writing and popping keep the entries numbered upwards, until the numbers go
/// around.
pub proof fn law_sequence_numbers_increase<T>(
    s: PersistentState<T>,
    entry: LogEntry<T>,
    size: nat,
    n: nat,
)
    requires
        numbered(s),
        s.sequence < u64::MAX,
        entry.sequence == s.sequence,
        n <= s.entries.len(),
    ensures
        numbered(s.with_sequence_used().with_entry(entry, size)),
        numbered(s.without_oldest(n)),
{
}

/// No entry has a larger number than the highest.
proof fn lemma_highest_sequence<T>(entries: Seq<LogEntry<T>>, i: int)
    requires
        0 <= i < entries.len(),
    ensures
        entries[i].sequence <= persistent::highest_sequence(entries),
    decreases entries.len(),
{
    if i < entries.len() - 1 {
        lemma_highest_sequence(entries.drop_last(), i);
        assert(entries.drop_last()[i] == entries[i]);
    }
}

/// After a restart numbering goes on above all entries that came back.
pub proof fn law_recovery_continues_numbering<T>(
    s: PersistentState<T>,
    entries: Seq<LogEntry<T>>,
)
    requires
        forall|i: int, j: int|
            0 <= i < j < entries.len() ==> (#[trigger] entries[i]).sequence < (
            #[trigger] entries[j]).sequence,
        persistent::highest_sequence(entries) < u64::MAX,
    ensures
        numbered(s.recovered(entries)),
{
    assert forall|i: int| 0 <= i < entries.len() implies (#[trigger] entries[i]).sequence
        < s.recovered(entries).sequence by {
        lemma_highest_sequence(entries, i);
    }
}

/// An operation on a buffer that holds its items.
pub enum Operation<T> {
    /// An entry was written in so many bytes.
    Write(LogEntry<T>, nat),
    /// A pop.
    Pop,
}

/// The state after some operations and the entries that were popped.
pub open spec fn perform_all<T>(s: PersistentState<T>, ops: Seq<Operation<T>>) -> (
    PersistentState<T>,
    Seq<LogEntry<T>>,
)
    decreases ops.len(),
{
    if ops.len() == 0 {
        (s, Seq::empty())
    } else {
        let (before, taken) = perform_all(s, ops.drop_last());
        match ops.last() {
            Operation::Write(entry, size) => (before.with_entry(entry, size), taken),
            Operation::Pop => if before.entries.len() == 0 {
                (before, taken)
            } else {
                (before.without_oldest(1), taken.push(before.entries[0]))
            },
        }
    }
}

/// The entries that were written, in that order.
pub open spec fn written<T>(ops: Seq<Operation<T>>) -> Seq<LogEntry<T>>
    decreases ops.len(),
{
    if ops.len() == 0 {
        Seq::empty()
    } else {
        match ops.last() {
            Operation::Write(entry, _) => written(ops.drop_last()).push(entry),
            Operation::Pop => written(ops.drop_last()),
        }
    }
}

/// First in, first out, and nothing is lost or invented.
pub proof fn law_first_in_first_out<T>(s: PersistentState<T>, ops: Seq<Operation<T>>)
    ensures
        s.entries + written(ops) == perform_all(s, ops).1 + perform_all(s, ops).0.entries,
    decreases ops.len(),
{
    let (after, taken) = perform_all(s, ops);
    if ops.len() > 0 {
        law_first_in_first_out(s, ops.drop_last());
        let (before, taken_before) = perform_all(s, ops.drop_last());
        match ops.last() {
            Operation::Write(entry, _) => {
                assert(s.entries + written(ops) =~= (s.entries + written(ops.drop_last())).push(
                    entry,
                ));
                assert(taken + after.entries =~= (taken_before + before.entries).push(entry));
            },
            Operation::Pop => {
                assert(taken + after.entries =~= taken_before + before.entries);
            },
        }
    } else {
        assert(s.entries + written(ops) =~= taken + after.entries);
    }
}

/// When a write is forced to the disk: never, with every write, or if and only if
/// the last time was at least the interval ago, to the nanosecond.
pub proof fn law_sync_goes_by_the_interval(elapsed: Duration, interval: Duration)
    ensures
        SyncMode::Periodic(interval).due(elapsed) <==> time::duration_nanos(elapsed)
            >= time::duration_nanos(interval),
        SyncMode::EveryWrite.due(elapsed),
        !SyncMode::NoSync.due(elapsed),
{
}

/// Waiting longer never makes a write less due, and a shorter interval neither.
pub proof fn law_longer_wait_is_no_less_due(
    mode: SyncMode,
    sooner: Duration,
    later: Duration,
    shorter: Duration,
)
    requires
        time::duration_nanos(sooner) <= time::duration_nanos(later),
        mode.due(sooner),
    ensures
        mode.due(later),
        mode matches SyncMode::Periodic(interval) && time::duration_nanos(shorter)
            <= time::duration_nanos(interval) ==> SyncMode::Periodic(shorter).due(sooner),
{
}

/// What a usable configuration of a persistent buffer is, and which broken rule
/// is reported.
pub proof fn law_usable_persistent_configurations(config: persistent::PersistentConfig)
    ensures
        config.valid() <==> config.base.valid() && config.max_file_size > 0,
        !config.base.valid() ==> config.defect() == config.base.defect(),
        config.base.valid() && config.max_file_size == 0 ==> config.defect() == Some(
            "max_file_size must be greater than 0"@,
        ),
{
}

/// Where everything stands in the frame of an entry: the length of the entry, its
/// sequence number, the bytes of its item, and its checksum, with the lowest byte
/// of each number first.
pub proof fn law_frame_layout(sequence: u64, payload: Seq<u8>, checksum: u32)
    requires
        payload.len() + 12 < 0x1_0000_0000,
    ensures
        ({
            let n = payload.len() as int;
            let frame = log_format::framed(log_format::entry_bytes(sequence, payload, checksum));
            &&& frame.len() == n + 16
            &&& bytes::le_value(frame.subrange(0, 4)) == n + 12
            &&& bytes::le_value(frame.subrange(4, 12)) == sequence
            &&& frame.subrange(12, 12 + n) == payload
            &&& bytes::le_value(frame.subrange(12 + n, 16 + n)) == checksum
        }),
{
    let n = payload.len() as int;
    let body = log_format::entry_bytes(sequence, payload, checksum);
    let frame = log_format::framed(body);
    bytes::lemma_le_limits();
    bytes::lemma_le_bytes_len(sequence as nat, 8);
    bytes::lemma_le_bytes_len(checksum as nat, 4);
    bytes::lemma_le_bytes_len(body.len(), 4);
    bytes::law_le_bytes_are_reversible(sequence as nat, 8);
    bytes::law_le_bytes_are_reversible(checksum as nat, 4);
    bytes::law_le_bytes_are_reversible(body.len(), 4);
    assert(frame.subrange(0, 4) =~= bytes::le_bytes(body.len(), 4));
    assert(frame.subrange(4, 12) =~= bytes::le_bytes(sequence as nat, 8));
    assert(frame.subrange(12, 12 + n) =~= payload);
    assert(frame.subrange(12 + n, 16 + n) =~= bytes::le_bytes(checksum as nat, 4));
}

/// The frame of the next entry carries the next sequence number and the item's
/// bytes.
pub proof fn law_next_frame_layout<T>(s: PersistentState<T>, payload: Seq<u8>)
    requires
        payload.len() + 12 < 0x1_0000_0000,
    ensures
        ({
            let n = payload.len() as int;
            let frame = s.next_frame(payload);
            &&& frame.len() == n + 16
            &&& bytes::le_value(frame.subrange(0, 4)) == n + 12
            &&& bytes::le_value(frame.subrange(4, 12)) == s.sequence
            &&& frame.subrange(12, 12 + n) == payload
            &&& bytes::le_value(frame.subrange(12 + n, 16 + n)) == (s.sequence % 0x1_0000_0000
                + s.sequence / 0x1_0000_0000 + bytes::byte_sum(payload)) % 0x1_0000_0000
        }),
{
    law_frame_layout(
        s.sequence,
        payload,
        log_format::entry_sum(s.sequence, payload) as u32,
    );
}

/// The checksum of an entry is the sum of the two halves of its number and of all
/// bytes of its item, going around at `2^32`: another byte at the end adds itself.
pub proof fn law_entry_sum_adds_up(sequence: u64, payload: Seq<u8>, byte: u8)
    ensures
        log_format::entry_sum(sequence, Seq::empty()) == (sequence % 0x1_0000_0000 + sequence
            / 0x1_0000_0000) % 0x1_0000_0000,
        log_format::entry_sum(sequence, payload.push(byte)) == (log_format::entry_sum(
            sequence,
            payload,
        ) + byte) % 0x1_0000_0000,
{
    assert(payload.push(byte).drop_last() =~= payload);
}

/// The checksum of a header is the sum of the bytes of its magic, of its version,
/// and of both halves of each of its three numbers, going around at `2^32`.
pub proof fn law_header_sum_adds_up(header: log_format::FileHeader)
    ensures
        header.sum() as int == (header.magic@[0] + header.magic@[1] + header.magic@[2]
            + header.magic@[3] + header.magic@[4] + header.magic@[5] + header.magic@[6]
            + header.magic@[7] + header.version + header.head % 0x1_0000_0000 + header.head
            / 0x1_0000_0000 + header.tail % 0x1_0000_0000 + header.tail / 0x1_0000_0000
            + header.item_count % 0x1_0000_0000 + header.item_count / 0x1_0000_0000)
            % 0x1_0000_0000,
{
    bytes::law_byte_sum_of_eight(header.magic@);
}

/// Eight bytes stand for the number of the first four and `2^32` times that of
/// the last four, so that its halves are those two.
proof fn lemma_halves_of_bytes(part: Seq<u8>)
    requires
        part.len() == 8,
    ensures
        bytes::le_value(part) <= u64::MAX,
        log_format::halves(bytes::le_value(part) as u64) == bytes::le_value(part.take(4))
            + bytes::le_value(part.skip(4)),
        bytes::le_value(part.take(4)) < 0x1_0000_0000,
        bytes::le_value(part.skip(4)) < 0x1_0000_0000,
{
    bytes::lemma_le_limits();
    bytes::lemma_le_value_bound(part);
    bytes::lemma_le_value_bound(part.take(4));
    bytes::lemma_le_value_bound(part.skip(4));
    bytes::law_le_value_is_positional(part.take(4), part.skip(4));
    assert(part.take(4) + part.skip(4) =~= part);
}

/// The word of four bytes at a place of a file.
pub open spec fn word_at(file: Seq<u8>, start: int) -> nat {
    bytes::le_value(file.subrange(start, start + 4))
}

/// The sum of the seven words between the letters at the start of a file and the
/// checksum.
pub open spec fn words_between(file: Seq<u8>) -> nat {
    word_at(file, 8) + word_at(file, 12) + word_at(file, 16) + word_at(file, 20) + word_at(file, 24)
        + word_at(file, 28) + word_at(file, 32)
}

/// A file can be read if and only if it has room for a header, starts with the
/// letters `ELASTICQ`, and has as the word at 36 the sum of those letters and of
/// the seven words between, going around at `2^32`. The first of the three that
/// fails is reported.
pub proof fn law_readable_headers(file: Seq<u8>)
    ensures
        ({
            let letters = file.len() >= 8 && file[0] == 69 && file[1] == 76 && file[2] == 65
                && file[3] == 83 && file[4] == 84 && file[5] == 73 && file[6] == 67 && file[7]
                == 81;
            let right = word_at(file, 36) == (598 + words_between(file)) % 0x1_0000_0000;
            &&& file.len() < 64 ==> log_format::header_defect(file) == Some(
                "File too small for header"@,
            )
            &&& file.len() >= 64 && !letters ==> log_format::header_defect(file) == Some(
                "Invalid file magic"@,
            )
            &&& file.len() >= 64 && letters && !right ==> log_format::header_defect(file) == Some(
                "Header checksum mismatch"@,
            )
            &&& file.len() >= 64 && letters && right ==> log_format::header_defect(file) is None
        }),
{
    if file.len() >= 64 {
        let first = file.take(8);
        bytes::law_byte_sum_of_eight(first);
        if first == log_format::magic() {
            assert(first[0] == 69 && first[1] == 76 && first[2] == 65 && first[3] == 83);
            assert(first[4] == 84 && first[5] == 73 && first[6] == 67 && first[7] == 81);
        } else {
            assert(!(first =~= log_format::magic()));
        }
        lemma_halves_of_bytes(file.subrange(12, 20));
        lemma_halves_of_bytes(file.subrange(20, 28));
        lemma_halves_of_bytes(file.subrange(28, 36));
        assert(file.subrange(12, 20).take(4) =~= file.subrange(12, 16));
        assert(file.subrange(12, 20).skip(4) =~= file.subrange(16, 20));
        assert(file.subrange(20, 28).take(4) =~= file.subrange(20, 24));
        assert(file.subrange(20, 28).skip(4) =~= file.subrange(24, 28));
        assert(file.subrange(28, 36).take(4) =~= file.subrange(28, 32));
        assert(file.subrange(28, 36).skip(4) =~= file.subrange(32, 36));
    }
}

/// Changing one byte of a word changes the word, by less than `2^32`.
proof fn lemma_word_changes(part: Seq<u8>, i: int, byte: u8)
    requires
        part.len() == 4,
        0 <= i < 4,
        part[i] != byte,
    ensures
        bytes::le_value(part.update(i, byte)) != bytes::le_value(part),
        bytes::le_value(part) < 0x1_0000_0000,
        bytes::le_value(part.update(i, byte)) < 0x1_0000_0000,
{
    let changed = part.update(i, byte);
    bytes::lemma_le_limits();
    bytes::lemma_le_value_bound(part);
    bytes::lemma_le_value_bound(changed);
    bytes::law_le_value_of_four(part);
    bytes::law_le_value_of_four(changed);
}

/// Damage to a single byte of a header is noticed: in the letters at its start,
/// in any of its numbers, and in the checksum itself. What follows them is not
/// looked at.
pub proof fn law_damaged_header_is_noticed(file: Seq<u8>, i: int, byte: u8)
    requires
        log_format::header_defect(file) is None,
        0 <= i < file.len(),
        file[i] != byte,
    ensures
        ({
            let damaged = log_format::header_defect(file.update(i, byte));
            &&& i < 8 ==> damaged == Some("Invalid file magic"@)
            &&& 8 <= i < 40 ==> damaged == Some("Header checksum mismatch"@)
            &&& i >= 40 ==> damaged is None
        }),
{
    law_readable_headers(file);
    law_readable_headers(file.update(i, byte));
    lemma_damaged_words(file, i, byte);
    lemma_word_of_damaged(file, i, byte, 36);
}

/// Damage to a byte between the letters and the checksum changes the sum of the
/// words there, by less than `2^32`; damage elsewhere does not.
proof fn lemma_damaged_words(file: Seq<u8>, i: int, byte: u8)
    requires
        file.len() >= 64,
        0 <= i < file.len(),
        file[i] != byte,
    ensures
        8 <= i < 36 ==> (598 + words_between(file.update(i, byte))) % 0x1_0000_0000 != (598
            + words_between(file)) % 0x1_0000_0000,
        !(8 <= i < 36) ==> words_between(file.update(i, byte)) == words_between(file),
{
    lemma_word_of_damaged(file, i, byte, 8);
    lemma_word_of_damaged(file, i, byte, 12);
    lemma_word_of_damaged(file, i, byte, 16);
    lemma_word_of_damaged(file, i, byte, 20);
    lemma_word_of_damaged(file, i, byte, 24);
    lemma_word_of_damaged(file, i, byte, 28);
    lemma_word_of_damaged(file, i, byte, 32);
    let before = words_between(file) as int;
    let after = words_between(file.update(i, byte)) as int;
    if 8 <= i < 36 {
        assert(before != after && -0x1_0000_0000 < after - before < 0x1_0000_0000);
        lemma_remainders_differ(598 + before, 598 + after);
    }
}

/// Numbers less than `2^32` apart have different remainders.
proof fn lemma_remainders_differ(a: int, b: int)
    requires
        a != b,
        -0x1_0000_0000 < b - a < 0x1_0000_0000,
    ensures
        a % 0x1_0000_0000 != b % 0x1_0000_0000,
{
}

/// Damage to a byte shows in the word that holds it and in no other.
proof fn lemma_word_of_damaged(file: Seq<u8>, i: int, byte: u8, start: int)
    requires
        0 <= i < file.len(),
        file[i] != byte,
        0 <= start <= file.len() - 4,
    ensures
        start <= i < start + 4 ==> word_at(file.update(i, byte), start) != word_at(file, start),
        !(start <= i < start + 4) ==> word_at(file.update(i, byte), start) == word_at(file, start),
        word_at(file, start) < 0x1_0000_0000,
        word_at(file.update(i, byte), start) < 0x1_0000_0000,
{
    let part = file.subrange(start, start + 4);
    let changed = file.update(i, byte).subrange(start, start + 4);
    bytes::lemma_le_limits();
    bytes::lemma_le_value_bound(part);
    bytes::lemma_le_value_bound(changed);
    if start <= i < start + 4 {
        assert(changed =~= part.update(i - start, byte));
        lemma_word_changes(part, i - start, byte);
    } else {
        assert(changed =~= part);
    }
}

/// A new file is a header of 64 bytes: `ELASTICQ`, version 1, three zeros, their
/// sum, and zeros up to its end.
pub proof fn law_new_file_layout()
    ensures
        ({
            let image = log_format::initial_image();
            &&& image.len() == 64
            &&& image.take(8) == seq![69u8, 76, 65, 83, 84, 73, 67, 81]
            &&& word_at(image, 8) == 1
            &&& word_at(image, 36) == 599
            &&& forall|i: int|
                12 <= i < 36 || 40 <= i < 64 ==> #[trigger] image[i] == 0
        }),
{
    let image = log_format::initial_image();
    let sum = log_format::initial_sum();
    bytes::lemma_le_limits();
    bytes::lemma_le_bytes_len(VERSION as nat, 4);
    bytes::lemma_le_bytes_len(0, 8);
    bytes::lemma_le_bytes_len(sum, 4);
    bytes::law_le_bytes_are_reversible(VERSION as nat, 4);
    bytes::law_le_bytes_are_reversible(sum, 4);
    bytes::law_byte_sum_of_eight(log_format::magic());
    bytes::lemma_le_bytes_of_zero(8);
    assert(image.take(8) =~= log_format::magic());
    assert(image.subrange(8, 12) =~= bytes::le_bytes(VERSION as nat, 4));
    assert(image.subrange(36, 40) =~= bytes::le_bytes(sum, 4));
    assert forall|i: int| 12 <= i < 36 || 40 <= i < 64 implies #[trigger] image[i] == 0 by {
        let zeros = bytes::le_bytes(0, 8);
        if i < 20 {
            assert(image[i] == zeros[i - 12]);
        } else if i < 28 {
            assert(image[i] == zeros[i - 20]);
        } else if i < 36 {
            assert(image[i] == zeros[i - 28]);
        }
    }
}

/// Reading a log goes from frame to frame and ends where fewer than four bytes
/// are left, at a length of zero, and at a length that goes past the end.
pub proof fn law_log_is_read_frame_by_frame(log: Seq<u8>)
    ensures
        ({
            let len = word_at(log, 0) as int;
            let all = log_format::frames(log);
            &&& log.len() < 4 || len == 0 || 4 + len > log.len() ==> all.len() == 0
            &&& log.len() >= 4 && 0 < len <= log.len() - 4 ==> all.len() > 0 && all[0]
                == log.subrange(4, 4 + len) && all.skip(1) == log_format::frames(
                log.skip(4 + len),
            )
        }),
{
    if log.len() >= 4 {
        let len = word_at(log, 0) as int;
        assert(log.take(4) =~= log.subrange(0, 4));
        if 0 < len <= log.len() - 4 {
            assert(log_format::frames(log).skip(1) =~= log_format::frames(log.skip(4 + len)));
        }
    }
}

/// The entries that come back are the longest run from the first one on of which
/// each can be read: its item was read and is followed by a checksum.
pub proof fn law_recovery_stops_at_the_first_failure<T>(
    entries: Seq<Seq<u8>>,
    read: Seq<Option<(T, usize)>>,
)
    ensures
        ({
            let back = log_format::readable(entries, read);
            let n = back.len() as int;
            &&& n <= entries.len()
            &&& n <= read.len()
            &&& forall|i: int|
                0 <= i < n ==> {
                    &&& #[trigger] read[i] is Some
                    &&& 12 + read[i]->Some_0.1 <= entries[i].len()
                    &&& back[i].data == read[i]->Some_0.0
                    &&& back[i].sequence == bytes::le_value(entries[i].subrange(0, 8))
                    &&& back[i].checksum == word_at(entries[i], 8 + read[i]->Some_0.1)
                }
            &&& n < entries.len() && n < read.len() ==> read[n] is None || 12 + read[n]->Some_0.1
                > entries[n].len()
        }),
    decreases entries.len(),
{
    let back = log_format::readable(entries, read);
    if entries.len() > 0 && read.len() > 0 {
        let first = log_format::entry_of(entries[0], read[0]);
        if first is Some {
            let used = read[0]->Some_0.1;
            law_recovery_stops_at_the_first_failure(entries.skip(1), read.skip(1));
            let rest = log_format::readable(entries.skip(1), read.skip(1));
            bytes::lemma_le_limits();
            bytes::lemma_le_value_bound(entries[0].take(8));
            bytes::lemma_le_value_bound(entries[0].subrange(8 + used, 12 + used));
            assert(entries[0].subrange(0, 8) =~= entries[0].take(8));
            assert(back =~= seq![first->Some_0] + rest);
            let n = back.len() as int;
            assert forall|i: int| 0 <= i < n implies {
                &&& #[trigger] read[i] is Some
                &&& 12 + read[i]->Some_0.1 <= entries[i].len()
                &&& back[i].data == read[i]->Some_0.0
                &&& back[i].sequence == bytes::le_value(entries[i].subrange(0, 8))
                &&& back[i].checksum == word_at(entries[i], 8 + read[i]->Some_0.1)
            } by {
                if i > 0 {
                    assert(read.skip(1)[i - 1] == read[i]);
                    assert(entries.skip(1)[i - 1] == entries[i]);
                    assert(back[i] == rest[i - 1]);
                }
            }
            if n < entries.len() && n < read.len() {
                assert(read.skip(1)[n - 1] == read[n]);
                assert(entries.skip(1)[n - 1] == entries[n]);
            }
        }
    }
}

/// An item is read from the bytes behind the sequence number of its entry; there
/// are none where the entry is too short for a number.
pub proof fn law_payload_follows_the_number(sequence: u64, payload: Seq<u8>, checksum: u32, entry:
    Seq<u8>)
    ensures
        log_format::payload_on(log_format::entry_bytes(sequence, payload, checksum)).take(
            payload.len() as int,
        ) == payload,
        entry.len() >= 8 ==> log_format::payload_on(entry) == entry.subrange(
            8,
            entry.len() as int,
        ),
        entry.len() < 8 ==> log_format::payload_on(entry).len() == 0,
{
    let body = log_format::entry_bytes(sequence, payload, checksum);
    bytes::lemma_le_bytes_len(sequence as nat, 8);
    bytes::lemma_le_bytes_len(checksum as nat, 4);
    assert(log_format::payload_on(body).take(payload.len() as int) =~= payload);
    if entry.len() >= 8 {
        assert(log_format::payload_on(entry) =~= entry.subrange(8, entry.len() as int));
    }
}

/// What an operation counts and what it leaves alone: a write counts one item and
/// its bytes, a pop counts what it took, and a recovery what came back. All
/// counters go around at `2^64`.
pub proof fn law_statistics_count_entries<T>(
    s: PersistentState<T>,
    entry: LogEntry<T>,
    size: nat,
    n: nat,
    entries: Seq<LogEntry<T>>,
)
    requires
        n <= s.entries.len(),
    ensures
        ({
            let wrap = 0x1_0000_0000_0000_0000int;
            let written = s.with_entry(entry, size);
            let popped = s.without_oldest(n);
            let numbered = s.with_sequence_used();
            let back = s.recovered(entries);
            &&& written.entries == s.entries.push(entry)
            &&& written.stats.total_written == (s.stats.total_written + 1) % wrap
            &&& written.stats.bytes_written == (s.stats.bytes_written + size) % wrap
            &&& written.stats.total_read == s.stats.total_read
            &&& written.stats.sync_count == s.stats.sync_count
            &&& written.stats.items_recovered == s.stats.items_recovered
            &&& written.stats.last_sync == s.stats.last_sync
            &&& written.sequence == s.sequence
            &&& written.config == s.config
            &&& popped.entries == s.entries.subrange(n as int, s.entries.len() as int)
            &&& popped.stats.total_read == (s.stats.total_read + n) % wrap
            &&& popped.stats.total_written == s.stats.total_written
            &&& popped.stats.bytes_written == s.stats.bytes_written
            &&& popped.stats.sync_count == s.stats.sync_count
            &&& popped.stats.items_recovered == s.stats.items_recovered
            &&& popped.stats.last_sync == s.stats.last_sync
            &&& popped.sequence == s.sequence
            &&& popped.config == s.config
            &&& numbered.sequence == (s.sequence + 1) % wrap
            &&& numbered.entries == s.entries
            &&& numbered.stats == s.stats
            &&& numbered.config == s.config
            &&& back.entries == entries
            &&& entries.len() <= u64::MAX ==> back.stats.items_recovered == entries.len()
            &&& back.stats.total_written == s.stats.total_written
            &&& back.stats.total_read == s.stats.total_read
            &&& back.stats.bytes_written == s.stats.bytes_written
            &&& back.config == s.config
        }),
{
    assert(s.entries.skip(n as int) =~= s.entries.subrange(n as int, s.entries.len() as int));
}

/// After a restart the next number is one above the largest that came back, and 1
/// if nothing came back.
pub proof fn law_numbering_goes_on_after_the_largest<T>(
    s: PersistentState<T>,
    entries: Seq<LogEntry<T>>,
)
    ensures
        entries.len() == 0 ==> s.recovered(entries).sequence == 1,
        entries.len() > 0 ==> exists|i: int|
            0 <= i < entries.len() && s.recovered(entries).sequence == ((
            #[trigger] entries[i]).sequence + 1) % 0x1_0000_0000_0000_0000 && forall|j: int|
                0 <= j < entries.len() ==> (#[trigger] entries[j]).sequence <= entries[i].sequence,
{
    if entries.len() > 0 {
        let i = lemma_highest_is_one_of_them(entries);
        assert forall|j: int| 0 <= j < entries.len() implies (#[trigger] entries[j]).sequence
            <= entries[i].sequence by {
            lemma_highest_sequence(entries, j);
        }
    }
}

/// The highest number is that of one of the entries.
proof fn lemma_highest_is_one_of_them<T>(entries: Seq<LogEntry<T>>) -> (i: int)
    requires
        entries.len() > 0,
    ensures
        0 <= i < entries.len(),
        entries[i].sequence == persistent::highest_sequence(entries),
    decreases entries.len(),
{
    if entries.len() == 1 {
        reveal_with_fuel(persistent::highest_sequence, 2);
        0
    } else {
        let before = entries.drop_last();
        let i = lemma_highest_is_one_of_them(before);
        if entries.last().sequence > persistent::highest_sequence(before) {
            entries.len() - 1
        } else {
            assert(before[i] == entries[i]);
            i
        }
    }
}

/// A compacted file holds, behind a new header, the frames of the entries in
/// their order.
pub proof fn law_log_is_frame_after_frame<T>(
    entries: Seq<LogEntry<T>>,
    payloads: Seq<Seq<u8>>,
    entry: LogEntry<T>,
    payload: Seq<u8>,
)
    requires
        payloads.len() == entries.len(),
    ensures
        persistent::log_of(entries.push(entry), payloads.push(payload)) == persistent::log_of(
            entries,
            payloads,
        ) + log_format::framed(
            log_format::entry_bytes(entry.sequence, payload, entry.checksum),
        ),
        persistent::log_of(Seq::<LogEntry<T>>::empty(), Seq::empty()) == Seq::<u8>::empty(),
{
    assert(entries.push(entry).drop_last() =~= entries);
    assert(payloads.push(payload).drop_last() =~= payloads);
}

} // verus!
