//! A buffer whose items are also written to a log, from which they come back
//! after a restart.
//!
//! The buffer decides what is written and makes sense of what was read; reading
//! and writing the file is its caller's part, as is turning items into bytes and
//! back.

use crate::buffer::into_deque;
use crate::config::Config;
use crate::error::{BufferError, BufferResult};
use crate::log_format;
use crate::log_format::{new_image, LogEntry};
use crate::text::join;
use crate::time;
use std::collections::VecDeque;
use std::path::PathBuf;
use std::time::{Duration, Instant};
use vstd::prelude::*;
use vstd::std_specs::vecdeque::*;
use vstd::string::*;

verus! {

/// A path in the file system. Nothing is known of what is inside.
#[verifier::external_type_specification]
#[verifier::external_body]
pub struct ExPathBuf(PathBuf);

/// `PathBuf::clone` gives the same path.
pub assume_specification[ <PathBuf as Clone>::clone ](path: &PathBuf) -> (r: PathBuf)
    ensures
        r == *path,
;

/// When what was written is forced to the disk.
#[derive(Clone, Copy, Debug, PartialEq, Eq)]
pub enum SyncMode {
    /// Never; the operating system decides.
    NoSync,
    /// With a write, if the last time was at least so long ago.
    Periodic(Duration),
    /// With every write.
    EveryWrite,
}

impl SyncMode {
    /// Whether a write that comes so long after the last time is forced to the
    /// disk.
    pub open spec fn due(self, elapsed: Duration) -> bool {
        match self {
            SyncMode::NoSync => false,
            SyncMode::EveryWrite => true,
            SyncMode::Periodic(interval) => time::duration_nanos(elapsed) >= time::duration_nanos(
                interval,
            ),
        }
    }
}

impl Default for SyncMode {
    fn default() -> (r: Self)
        ensures
            r matches SyncMode::Periodic(d) && time::duration_nanos(d) == 1_000_000_000,
    {
        SyncMode::Periodic(Duration::from_secs(1))
    }
}

/// The configuration of a persistent buffer.
#[derive(Debug)]
pub struct PersistentConfig {
    /// The limits of the buffer.
    pub base: Config,
    /// Where the file is.
    pub data_path: PathBuf,
    /// When what was written is forced to the disk.
    pub sync_mode: SyncMode,
    /// The largest size of the file in bytes.
    pub max_file_size: usize,
    /// Whether items come back after a restart.
    pub recover_on_startup: bool,
}

impl PersistentConfig {
    /// The first rule that the configuration breaks, if it breaks one.
    pub open spec fn defect(self) -> Option<Seq<char>> {
        if !self.base.valid() {
            self.base.defect()
        } else if self.max_file_size == 0 {
            Some("max_file_size must be greater than 0"@)
        } else {
            None
        }
    }

    /// Whether the configuration breaks no rule.
    pub open spec fn valid(self) -> bool {
        self.defect() is None
    }

    /// The default configuration for a file.
    pub fn new(data_path: PathBuf) -> (r: Self)
        ensures
            r.base.standard(),
            r.data_path == data_path,
            r.sync_mode matches SyncMode::Periodic(d) && time::duration_nanos(d) == 1_000_000_000,
            r.max_file_size == 0x4000_0000,
            r.recover_on_startup,
            r.valid(),
    {
        PersistentConfig {
            base: Config::default(),
            data_path,
            sync_mode: SyncMode::default(),
            max_file_size: 0x4000_0000,
            recover_on_startup: true,
        }
    }

    /// The same configuration with other limits.
    pub fn with_base_config(self, config: Config) -> (r: Self)
        ensures
            r == (PersistentConfig { base: config, ..self }),
    {
        PersistentConfig { base: config, ..self }
    }

    /// The same configuration with another sync mode.
    pub fn with_sync_mode(self, mode: SyncMode) -> (r: Self)
        ensures
            r == (PersistentConfig { sync_mode: mode, ..self }),
    {
        PersistentConfig { sync_mode: mode, ..self }
    }

    /// The same configuration with another largest file size.
    pub fn with_max_file_size(self, size: usize) -> (r: Self)
        ensures
            r == (PersistentConfig { max_file_size: size, ..self }),
    {
        PersistentConfig { max_file_size: size, ..self }
    }

    /// The same configuration with recovery switched on or off.
    pub fn with_recover_on_startup(self, recover: bool) -> (r: Self)
        ensures
            r == (PersistentConfig { recover_on_startup: recover, ..self }),
    {
        PersistentConfig { recover_on_startup: recover, ..self }
    }

    /// Checks the configuration.
    pub fn validate(&self) -> (r: BufferResult<()>)
        ensures
            r is Ok <==> self.valid(),
            r matches Err(e) ==> (e matches BufferError::InvalidConfiguration(s) && self.defect()
                == Some(s@)),
    {
        match self.base.validate() {
            Err(e) => {
                return Err(e);
            },
            Ok(()) => {},
        }
        if self.max_file_size == 0 {
            return Err(
                BufferError::InvalidConfiguration(
                    "max_file_size must be greater than 0".to_owned(),
                ),
            );
        }
        Ok(())
    }
}

impl Clone for PersistentConfig {
    fn clone(&self) -> (r: Self)
        ensures
            r == *self,
    {
        PersistentConfig {
            base: self.base.clone(),
            data_path: self.data_path.clone(),
            sync_mode: self.sync_mode,
            max_file_size: self.max_file_size,
            recover_on_startup: self.recover_on_startup,
        }
    }
}

/// Statistics about a persistent buffer. The counters go around at the largest
/// `u64`.
#[derive(Clone, Debug)]
pub struct PersistentStats {
    /// How many items were written.
    pub total_written: u64,
    /// How many items were read.
    pub total_read: u64,
    /// How often what was written was forced to the disk.
    pub sync_count: u64,
    /// How many bytes were written.
    pub bytes_written: u64,
    /// How many items came back from the file.
    pub items_recovered: u64,
    /// When what was written was last forced to the disk.
    pub last_sync: Option<Instant>,
}

impl Default for PersistentStats {
    fn default() -> (r: Self)
        ensures
            r == no_stats(),
    {
        PersistentStats {
            total_written: 0,
            total_read: 0,
            sync_count: 0,
            bytes_written: 0,
            items_recovered: 0,
            last_sync: None,
        }
    }
}

/// The statistics of a new buffer.
pub open spec fn no_stats() -> PersistentStats {
    PersistentStats {
        total_written: 0,
        total_read: 0,
        sync_count: 0,
        bytes_written: 0,
        items_recovered: 0,
        last_sync: None,
    }
}

/// A number after adding to it, going around at the largest `u64`.
pub open spec fn plus(n: u64, more: nat) -> u64 {
    ((n + more) % 0x1_0000_0000_0000_0000) as u64
}

/// The largest sequence number of some entries; 0 without any.
pub open spec fn highest_sequence<T>(entries: Seq<LogEntry<T>>) -> u64
    decreases entries.len(),
{
    if entries.len() == 0 {
        0
    } else {
        let before = highest_sequence(entries.drop_last());
        if entries.last().sequence > before {
            entries.last().sequence
        } else {
            before
        }
    }
}

/// The frames of some entries, one after the other, given the bytes of their
/// items.
pub open spec fn log_of<T>(entries: Seq<LogEntry<T>>, payloads: Seq<Seq<u8>>) -> Seq<u8>
    decreases entries.len(),
{
    if entries.len() == 0 {
        Seq::empty()
    } else {
        log_of(entries.drop_last(), payloads.drop_last()) + log_format::framed(
            log_format::entry_bytes(
                entries.last().sequence,
                payloads.last(),
                entries.last().checksum,
            ),
        )
    }
}

/// What a persistent buffer holds.
#[verifier::ext_equal]
pub struct PersistentState<T> {
    /// The entries, the oldest first.
    pub entries: Seq<LogEntry<T>>,
    /// The sequence number of the next entry.
    pub sequence: u64,
    /// The statistics.
    pub stats: PersistentStats,
    /// The configuration.
    pub config: PersistentConfig,
}

impl<T> PersistentState<T> {
    /// The frame of the next entry, given the bytes of its item.
    pub open spec fn next_frame(self, payload: Seq<u8>) -> Seq<u8> {
        log_format::framed(
            log_format::entry_bytes(
                self.sequence,
                payload,
                log_format::entry_sum(self.sequence, payload) as u32,
            ),
        )
    }

    /// The state after a sequence number was given away.
    pub open spec fn with_sequence_used(self) -> Self {
        PersistentState { sequence: plus(self.sequence, 1), ..self }
    }

    /// The state after an entry was written in so many bytes.
    pub open spec fn with_entry(self, entry: LogEntry<T>, size: nat) -> Self {
        PersistentState {
            entries: self.entries.push(entry),
            stats: PersistentStats {
                total_written: plus(self.stats.total_written, 1),
                bytes_written: plus(self.stats.bytes_written, size),
                ..self.stats
            },
            ..self
        }
    }

    /// The state after the `n` oldest entries were taken out.
    pub open spec fn without_oldest(self, n: nat) -> Self {
        PersistentState {
            entries: self.entries.skip(n as int),
            stats: PersistentStats { total_read: plus(self.stats.total_read, n), ..self.stats },
            ..self
        }
    }

    /// The state after entries came back from the file.
    pub open spec fn recovered(self, entries: Seq<LogEntry<T>>) -> Self {
        PersistentState {
            entries,
            sequence: plus(highest_sequence(entries), 1),
            stats: PersistentStats { items_recovered: entries.len() as u64, ..self.stats },
            ..self
        }
    }
}

/// An entry that is ready to be written.
pub struct PendingWrite<T> {
    entry: LogEntry<T>,
    frame: Vec<u8>,
}

impl<T> PendingWrite<T> {
    /// The entry.
    pub closed spec fn entry(&self) -> LogEntry<T> {
        self.entry
    }

    /// The bytes to be written.
    pub closed spec fn bytes(&self) -> Seq<u8> {
        self.frame@
    }

    /// The bytes to be written at the end of the file.
    pub fn frame(&self) -> (r: &[u8])
        ensures
            r@ == self.bytes(),
    {
        self.frame.as_slice()
    }
}

/// A buffer whose items are also written to a log.
pub struct PersistentCircularBuffer<T> {
    buffer: VecDeque<LogEntry<T>>,
    config: PersistentConfig,
    sequence: u64,
    stats: PersistentStats,
}

impl<T> View for PersistentCircularBuffer<T> {
    type V = PersistentState<T>;

    closed spec fn view(&self) -> PersistentState<T> {
        PersistentState {
            entries: self.buffer@,
            sequence: self.sequence,
            stats: self.stats,
            config: self.config,
        }
    }
}

impl<T> PersistentCircularBuffer<T> {
    /// The invariant of the buffer.
    pub open spec fn wf(&self) -> bool {
        self@.config.valid()
    }

    /// Creates an empty buffer.
    pub fn new(config: PersistentConfig) -> (r: BufferResult<Self>)
        ensures
            r is Ok <==> config.valid(),
            r matches Ok(b) ==> b.wf() && b@ == (PersistentState {
                entries: Seq::<LogEntry<T>>::empty(),
                sequence: 0,
                stats: no_stats(),
                config,
            }),
            r matches Err(e) ==> (e matches BufferError::InvalidConfiguration(s) && config.defect()
                == Some(s@)),
    {
        match config.validate() {
            Err(e) => Err(e),
            Ok(()) => Ok(
                PersistentCircularBuffer {
                    buffer: VecDeque::new(),
                    config,
                    sequence: 0,
                    stats: PersistentStats::default(),
                },
            ),
        }
    }

    /// The configuration of the buffer.
    pub fn config(&self) -> (r: &PersistentConfig)
        ensures
            *r == self@.config,
    {
        &self.config
    }

    /// Whether the items of a file of the given size come back; otherwise the
    /// file is begun anew.
    pub fn recovers_from(&self, file_size: u64) -> (r: bool)
        ensures
            r == (file_size > 0 && self@.config.recover_on_startup),
    {
        file_size > 0 && self.config.recover_on_startup
    }

    /// Takes back the entries that were found in a file, given what the payload
    /// of each was read as and how many bytes of it that took. The first entry
    /// that could not be read ends it.
    pub fn recover(&mut self, entries: Vec<Vec<u8>>, read: Vec<Option<(T, usize)>>)
        requires
            old(self).wf(),
        ensures
            final(self).wf(),
            final(self)@ == old(self)@.recovered(
                log_format::readable(
                    Seq::new(entries@.len(), |i: int| entries@[i]@),
                    read@,
                ),
            ),
    {
        let ghost raw = Seq::new(entries@.len(), |i: int| entries@[i]@);
        let ghost all_read = read@;
        let mut results: VecDeque<Option<(T, usize)>> = into_deque(read);
        let mut recovered: VecDeque<LogEntry<T>> = VecDeque::new();
        let mut max_sequence: u64 = 0;
        let mut i: usize = 0;
        let mut stopped: bool = false;
        proof {
            assert(raw.skip(0) =~= raw);
            assert(all_read.skip(0) =~= all_read);
        }
        while !stopped && i < entries.len()
            invariant
                i <= entries@.len(),
                raw == Seq::new(entries@.len(), |i: int| entries@[i]@),
                max_sequence == highest_sequence(recovered@),
                !stopped ==> i <= all_read.len() && results@ == all_read.skip(i as int),
                log_format::readable(raw, all_read) =~= if stopped {
                    recovered@
                } else {
                    recovered@ + log_format::readable(raw.skip(i as int), all_read.skip(i as int))
                },
                recovered@.len() <= i,
            decreases entries@.len() - i,
        {
            let ghost rest = raw.skip(i as int);
            let ghost rest_read = all_read.skip(i as int);
            match results.pop_front() {
                None => {
                    stopped = true;
                },
                Some(result) => {
                    proof {
                        assert(rest.skip(1) =~= raw.skip(i + 1));
                        assert(rest_read.skip(1) =~= all_read.skip(i + 1));
                        assert(results@ =~= rest_read.skip(1));
                        assert(rest[0] == entries@[i as int]@);
                        assert(rest_read[0] == result);
                    }
                    match LogEntry::from_bytes(entries[i].as_slice(), result) {
                        Some(entry) => {
                            if entry.sequence > max_sequence {
                                max_sequence = entry.sequence;
                            }
                            let ghost before = recovered@;
                            recovered.push_back(entry);
                            proof {
                                assert(recovered@.drop_last() =~= before);
                            }
                        },
                        None => {
                            stopped = true;
                        },
                    }
                },
            }
            i = i + 1;
        }
        self.sequence = max_sequence.wrapping_add(1);
        self.stats.items_recovered = recovered.len() as u64;
        self.buffer = recovered;
    }

    /// Makes an entry ready to be written, given the item, its bytes or why it
    /// has none, and the present size of the file or why its end was not found.
    /// A sequence number is used up in any case.
    pub fn push(
        &mut self,
        item: T,
        payload: Result<Vec<u8>, String>,
        file_size: Result<u64, String>,
    ) -> (r: BufferResult<PendingWrite<T>>)
        requires
            old(self).wf(),
        ensures
            final(self).wf(),
            final(self)@ == old(self)@.with_sequence_used(),
            match payload {
                Err(reason) => r matches Err(BufferError::Other(s)) && s@
                    == "Serialization error: "@ + reason@,
                Ok(payload) => {
                    let s = old(self)@;
                    let frame = s.next_frame(payload@);
                    if s.entries.len() >= s.config.base.max_capacity {
                        r matches Err(e) && e == BufferError::MaxCapacityReached(
                            s.config.base.max_capacity,
                        )
                    } else {
                        match file_size {
                            Err(reason) => r matches Err(BufferError::Other(text)) && text@
                                == "Failed to seek to end: "@ + reason@,
                            Ok(size) => if size + frame.len() > s.config.max_file_size {
                                r matches Err(BufferError::Other(text)) && text@
                                    == "Max file size exceeded"@
                            } else {
                                &&& r matches Ok(pending)
                                &&& pending.bytes() == frame
                                &&& pending.entry() == (LogEntry {
                                    sequence: s.sequence,
                                    data: item,
                                    checksum: log_format::entry_sum(
                                        s.sequence,
                                        payload@,
                                    ) as u32,
                                })
                            },
                        }
                    }
                },
            },
    {
        let sequence: u64 = self.sequence;
        self.sequence = sequence.wrapping_add(1);
        match payload {
            Err(reason) => Err(
                BufferError::Other(join("Serialization error: ", reason.as_str())),
            ),
            Ok(payload) => {
                let entry = LogEntry::new(sequence, item, payload.as_slice());
                let frame = entry.to_frame(payload.as_slice());
                if self.buffer.len() >= self.config.base.max_capacity {
                    return Err(BufferError::MaxCapacityReached(self.config.base.max_capacity));
                }
                match file_size {
                    Err(reason) => Err(
                        BufferError::Other(join("Failed to seek to end: ", reason.as_str())),
                    ),
                    Ok(size) => {
                        let limit: u64 = self.config.max_file_size as u64;
                        if size > limit || frame.len() as u64 > limit - size {
                            return Err(BufferError::Other("Max file size exceeded".to_owned()));
                        }
                        Ok(PendingWrite { entry, frame })
                    },
                }
            },
        }
    }

    /// Takes in an entry that was written.
    pub fn commit(&mut self, written: PendingWrite<T>)
        requires
            old(self).wf(),
        ensures
            final(self).wf(),
            final(self)@ == old(self)@.with_entry(written.entry(), written.bytes().len()),
    {
        let size: u64 = written.frame.len() as u64;
        self.buffer.push_back(written.entry);
        self.stats.total_written = self.stats.total_written.wrapping_add(1);
        self.stats.bytes_written = self.stats.bytes_written.wrapping_add(size);
    }

    /// Takes the oldest item. The file stays as it is.
    pub fn pop(&mut self) -> (r: BufferResult<T>)
        requires
            old(self).wf(),
        ensures
            final(self).wf(),
            match r {
                Ok(item) => old(self)@.entries.len() > 0 && item == old(self)@.entries[0].data
                    && final(self)@ == old(self)@.without_oldest(1),
                Err(e) => old(self)@.entries.len() == 0 && final(self)@ == old(self)@ && e
                    == BufferError::Empty,
            },
    {
        match self.buffer.pop_front() {
            Some(entry) => {
                self.stats.total_read = self.stats.total_read.wrapping_add(1);
                proof {
                    assert(self@.entries =~= old(self)@.entries.skip(1));
                }
                Ok(entry.data)
            },
            None => Err(BufferError::Empty),
        }
    }

    /// Takes up to `max_items` of the oldest items.
    pub fn pop_batch(&mut self, max_items: usize) -> (r: BufferResult<Vec<T>>)
        requires
            old(self).wf(),
        ensures
            final(self).wf(),
            r matches Ok(taken) && {
                let n = if max_items <= old(self)@.entries.len() {
                    max_items as nat
                } else {
                    old(self)@.entries.len()
                };
                &&& taken@ == Seq::new(n, |i: int| old(self)@.entries[i].data)
                &&& final(self)@ == old(self)@.without_oldest(n)
            },
    {
        let mut result: Vec<T> = Vec::new();
        proof {
            assert(self@.entries.skip(0) =~= self@.entries);
        }
        while result.len() < max_items && self.buffer.len() > 0
            invariant
                self.wf(),
                result@.len() <= max_items,
                result@.len() <= old(self)@.entries.len(),
                self@ == old(self)@.without_oldest(result@.len()),
                result@ =~= Seq::new(result@.len(), |i: int| old(self)@.entries[i].data),
            decreases max_items - result@.len(),
        {
            match self.pop() {
                Ok(item) => {
                    proof {
                        assert(old(self)@.entries.skip(result@.len() as int).skip(1) =~= old(
                            self,
                        )@.entries.skip((result@.len() + 1) as int));
                    }
                    result.push(item);
                },
                Err(_) => {},
            }
        }
        Ok(result)
    }

    /// Whether a write that comes so long after the last time is forced to the
    /// disk.
    pub fn sync_due(&self, elapsed: Duration) -> (r: bool)
        ensures
            r == self@.config.sync_mode.due(elapsed),
            r <==> match self@.config.sync_mode {
                SyncMode::NoSync => false,
                SyncMode::EveryWrite => true,
                SyncMode::Periodic(interval) => time::duration_nanos(elapsed)
                    >= time::duration_nanos(interval),
            },
    {
        match self.config.sync_mode {
            SyncMode::NoSync => false,
            SyncMode::EveryWrite => true,
            SyncMode::Periodic(interval) => elapsed.as_nanos() >= interval.as_nanos(),
        }
    }

    /// Notes that what was written was forced to the disk.
    pub fn sync(&mut self, now: Instant)
        requires
            old(self).wf(),
        ensures
            final(self).wf(),
            final(self)@ == (PersistentState {
                stats: PersistentStats {
                    sync_count: plus(old(self)@.stats.sync_count, 1),
                    last_sync: Some(now),
                    ..old(self)@.stats
                },
                ..old(self)@
            }),
    {
        self.stats.sync_count = self.stats.sync_count.wrapping_add(1);
        self.stats.last_sync = Some(now);
    }

    /// The number of items.
    pub fn len(&self) -> (r: usize)
        ensures
            r == self@.entries.len(),
    {
        self.buffer.len()
    }

    /// Whether there is no item.
    pub fn is_empty(&self) -> (r: bool)
        ensures
            r == (self@.entries.len() == 0),
    {
        self.buffer.len() == 0
    }

    /// Statistics about the buffer.
    pub fn stats(&self) -> (r: PersistentStats)
        ensures
            r == self@.stats,
    {
        PersistentStats {
            total_written: self.stats.total_written,
            total_read: self.stats.total_read,
            sync_count: self.stats.sync_count,
            bytes_written: self.stats.bytes_written,
            items_recovered: self.stats.items_recovered,
            last_sync: self.stats.last_sync,
        }
    }

    /// The item at a place, the oldest at 0.
    pub fn item(&self, i: usize) -> (r: Option<&T>)
        ensures
            match r {
                Some(item) => i < self@.entries.len() && *item == self@.entries[i as int].data,
                None => i >= self@.entries.len(),
            },
    {
        if i < self.buffer.len() {
            Some(&self.buffer[i].data)
        } else {
            None
        }
    }

    /// Throws all items away, begins the sequence numbers anew, and returns what
    /// the file is to hold.
    pub fn clear(&mut self) -> (r: Vec<u8>)
        requires
            old(self).wf(),
        ensures
            final(self).wf(),
            final(self)@ == (PersistentState {
                entries: Seq::<LogEntry<T>>::empty(),
                sequence: 0,
                ..old(self)@
            }),
            r@ == log_format::initial_image(),
    {
        self.buffer.clear();
        self.sequence = 0;
        new_image()
    }

    /// What the file is to hold without the entries that were popped, given the
    /// bytes of each item.
    pub fn compact(&self, payloads: &Vec<Vec<u8>>) -> (r: Vec<u8>)
        requires
            self.wf(),
            payloads@.len() == self@.entries.len(),
        ensures
            r@ == log_format::initial_image() + log_of(
                self@.entries,
                Seq::new(payloads@.len(), |i: int| payloads@[i]@),
            ),
    {
        let ghost raw = Seq::new(payloads@.len(), |i: int| payloads@[i]@);
        let mut image: Vec<u8> = new_image();
        let mut i: usize = 0;
        proof {
            assert(self@.entries.take(0) =~= Seq::<LogEntry<T>>::empty());
            assert(image@ =~= log_format::initial_image() + log_of(
                self@.entries.take(0),
                raw.take(0),
            ));
        }
        while i < self.buffer.len()
            invariant
                i <= self.buffer@.len(),
                self@.entries == self.buffer@,
                payloads@.len() == self@.entries.len(),
                raw == Seq::new(payloads@.len(), |i: int| payloads@[i]@),
                image@ =~= log_format::initial_image() + log_of(
                    self@.entries.take(i as int),
                    raw.take(i as int),
                ),
            decreases self.buffer@.len() - i,
        {
            let mut frame: Vec<u8> = self.buffer[i].to_frame(payloads[i].as_slice());
            proof {
                assert(self@.entries.take(i + 1).drop_last() =~= self@.entries.take(i as int));
                assert(raw.take(i + 1).drop_last() =~= raw.take(i as int));
            }
            image.append(&mut frame);
            i = i + 1;
        }
        proof {
            assert(self@.entries.take(i as int) =~= self@.entries);
            assert(raw.take(i as int) =~= raw);
        }
        image
    }
}

} // verus!
