//! The persistent buffer, over a file that is held in memory.

use bincode::Options;
use elasticq::bytes::{decode_le, encode_le, sum_bytes};
use elasticq::log_format::{check_header, new_image, payload_of, read_entries, FileHeader, LogEntry};
use elasticq::persistent::{
    PersistentCircularBuffer, PersistentConfig, PersistentStats, SyncMode,
};
use elasticq::{BufferError, BufferResult, Config};
use serde::de::DeserializeOwned;
use serde::Serialize;
use std::io::Cursor;
use std::path::PathBuf;
use std::time::{Duration, Instant};

fn decode<T: DeserializeOwned>(payload: &[u8]) -> Option<(T, usize)> {
    let mut cursor = Cursor::new(payload);
    let options = bincode::options().with_fixint_encoding().allow_trailing_bytes();
    match options.with_limit(payload.len() as u64).deserialize_from(&mut cursor) {
        Ok(item) => Some((item, cursor.position() as usize)),
        Err(_) => None,
    }
}

fn open<T: DeserializeOwned>(
    config: PersistentConfig,
    file: &mut Vec<u8>,
) -> BufferResult<PersistentCircularBuffer<T>> {
    let mut buffer = PersistentCircularBuffer::new(config)?;
    if buffer.recovers_from(file.len() as u64) {
        let entries = read_entries(file)?;
        let read = entries.iter().map(|e| decode(payload_of(e))).collect();
        buffer.recover(entries, read);
    } else {
        *file = buffer.clear();
    }
    Ok(buffer)
}

fn push<T: Serialize>(
    buffer: &mut PersistentCircularBuffer<T>,
    file: &mut Vec<u8>,
    item: T,
) -> BufferResult<()> {
    let payload = bincode::serialize(&item).map_err(|e| e.to_string());
    let pending = buffer.push(item, payload, Ok(file.len() as u64))?;
    file.extend_from_slice(pending.frame());
    buffer.commit(pending);
    if buffer.sync_due(Duration::from_millis(500)) {
        buffer.sync(Instant::now());
    }
    Ok(())
}

fn compact<T: Serialize>(buffer: &PersistentCircularBuffer<T>) -> Vec<u8> {
    let mut payloads = Vec::new();
    for i in 0..buffer.len() {
        payloads.push(bincode::serialize(buffer.item(i).unwrap()).unwrap());
    }
    buffer.compact(&payloads)
}

fn config_with(mode: SyncMode) -> PersistentConfig {
    PersistentConfig::new(PathBuf::from("test.dat")).with_sync_mode(mode)
}

#[test]
fn test_basic_push_pop() {
    let mut file = Vec::new();
    let mut buffer = open::<String>(config_with(SyncMode::NoSync), &mut file).unwrap();

    push(&mut buffer, &mut file, "hello".to_string()).unwrap();
    push(&mut buffer, &mut file, "world".to_string()).unwrap();

    assert_eq!(buffer.len(), 2);
    assert_eq!(buffer.pop().unwrap(), "hello");
    assert_eq!(buffer.pop().unwrap(), "world");
    assert!(buffer.is_empty());
}

#[test]
fn test_persistence_and_recovery() {
    let mut file = Vec::new();
    {
        let mut buffer = open::<i32>(config_with(SyncMode::EveryWrite), &mut file).unwrap();
        push(&mut buffer, &mut file, 1).unwrap();
        push(&mut buffer, &mut file, 2).unwrap();
        push(&mut buffer, &mut file, 3).unwrap();
        buffer.sync(Instant::now());
    }
    {
        let config = PersistentConfig::new(PathBuf::from("test.dat"));
        let mut buffer = open::<i32>(config, &mut file).unwrap();

        let stats = buffer.stats();
        assert_eq!(stats.items_recovered, 3);

        assert_eq!(buffer.pop().unwrap(), 1);
        assert_eq!(buffer.pop().unwrap(), 2);
        assert_eq!(buffer.pop().unwrap(), 3);
    }
}

#[test]
fn persistent_test_clear() {
    let mut file = Vec::new();
    let mut buffer = open::<String>(config_with(SyncMode::NoSync), &mut file).unwrap();

    push(&mut buffer, &mut file, "test".to_string()).unwrap();
    assert!(!buffer.is_empty());

    file = buffer.clear();
    assert!(buffer.is_empty());
    assert_eq!(file, new_image());
}

#[test]
fn persistent_test_batch_operations() {
    let mut file = Vec::new();
    let mut buffer = open::<i32>(config_with(SyncMode::NoSync), &mut file).unwrap();

    for item in vec![1, 2, 3, 4, 5] {
        push(&mut buffer, &mut file, item).unwrap();
    }
    assert_eq!(buffer.len(), 5);

    let items = buffer.pop_batch(3).unwrap();
    assert_eq!(items, vec![1, 2, 3]);
    assert_eq!(buffer.len(), 2);
}

#[test]
fn test_compact() {
    let mut file = Vec::new();
    let mut buffer = open::<i32>(config_with(SyncMode::NoSync), &mut file).unwrap();

    for i in 0..100 {
        push(&mut buffer, &mut file, i).unwrap();
    }
    for _ in 0..90 {
        buffer.pop().unwrap();
    }

    let before = file.len();
    file = compact(&buffer);
    assert!(file.len() < before);

    assert_eq!(buffer.len(), 10);
    for i in 90..100 {
        assert_eq!(buffer.pop().unwrap(), i);
    }

    let mut again = open::<i32>(config_with(SyncMode::NoSync), &mut file).unwrap();
    assert_eq!(again.pop_batch(100).unwrap(), (90..100).collect::<Vec<i32>>());
}

#[test]
fn test_stats() {
    let mut file = Vec::new();
    let mut buffer = open::<i32>(config_with(SyncMode::EveryWrite), &mut file).unwrap();

    push(&mut buffer, &mut file, 1).unwrap();
    push(&mut buffer, &mut file, 2).unwrap();
    buffer.pop().unwrap();

    let stats = buffer.stats();
    assert_eq!(stats.total_written, 2);
    assert_eq!(stats.total_read, 1);
    assert!(stats.sync_count >= 2);
    assert_eq!(stats.bytes_written, 40);
    assert!(stats.last_sync.is_some());
}

#[test]
fn test_empty_pop() {
    let mut file = Vec::new();
    let mut buffer = open::<i32>(config_with(SyncMode::NoSync), &mut file).unwrap();

    assert!(matches!(buffer.pop(), Err(BufferError::Empty)));
}

#[test]
fn test_sync_modes() {
    {
        let mut file = Vec::new();
        let mut buffer = open::<i32>(config_with(SyncMode::NoSync), &mut file).unwrap();
        push(&mut buffer, &mut file, 1).unwrap();
        let stats = buffer.stats();
        assert_eq!(stats.sync_count, 0);
    }
    {
        let mut file = Vec::new();
        let mut buffer = open::<i32>(config_with(SyncMode::EveryWrite), &mut file).unwrap();
        push(&mut buffer, &mut file, 1).unwrap();
        push(&mut buffer, &mut file, 2).unwrap();
        let stats = buffer.stats();
        assert_eq!(stats.sync_count, 2);
    }
}

#[test]
fn periodic_syncs_come_when_they_are_due() {
    let second = config_with(SyncMode::Periodic(Duration::from_secs(1)));
    let buffer = PersistentCircularBuffer::<i32>::new(second).unwrap();
    assert!(!buffer.sync_due(Duration::from_millis(999)));
    assert!(buffer.sync_due(Duration::from_millis(1000)));
    assert!(buffer.sync_due(Duration::from_secs(2)));
    let buffer = PersistentCircularBuffer::<i32>::new(config_with(SyncMode::NoSync)).unwrap();
    assert!(!buffer.sync_due(Duration::from_secs(1_000_000)));
    let buffer = PersistentCircularBuffer::<i32>::new(config_with(SyncMode::EveryWrite)).unwrap();
    assert!(buffer.sync_due(Duration::from_secs(0)));
}

#[test]
fn default_persistent_configuration_has_its_values() {
    let config = PersistentConfig::new(PathBuf::from("queue.dat"));
    assert_eq!(config.data_path, PathBuf::from("queue.dat"));
    assert_eq!(config.sync_mode, SyncMode::Periodic(Duration::from_secs(1)));
    assert_eq!(SyncMode::default(), SyncMode::Periodic(Duration::from_secs(1)));
    assert_eq!(config.max_file_size, 1024 * 1024 * 1024);
    assert!(config.recover_on_startup);
    let copy = config.clone();
    assert_eq!(copy.data_path, PathBuf::from("queue.dat"));
    assert_eq!(
        config.with_max_file_size(0).validate(),
        Err(BufferError::InvalidConfiguration(
            "max_file_size must be greater than 0".to_string()
        ))
    );
    let broken = copy.with_base_config(Config::default().with_max_capacity(0));
    assert!(matches!(
        PersistentCircularBuffer::<i32>::new(broken),
        Err(BufferError::InvalidConfiguration(_))
    ));
    let none = PersistentStats::default();
    assert_eq!(none.total_written, 0);
    assert!(none.last_sync.is_none());
}

#[test]
fn the_file_has_its_layout() {
    let mut file = Vec::new();
    let mut buffer = open::<u16>(config_with(SyncMode::NoSync), &mut file).unwrap();
    assert_eq!(file.len(), 64);
    assert_eq!(&file[..8], b"ELASTICQ");
    assert_eq!(&file[8..12], &[1, 0, 0, 0]);
    assert_eq!(&file[12..36], &[0; 24]);
    let sum: u32 = b"ELASTICQ".iter().map(|b| *b as u32).sum::<u32>() + 1;
    assert_eq!(&file[36..40], &sum.to_le_bytes());
    assert_eq!(&file[40..64], &[0; 24]);

    push(&mut buffer, &mut file, 0x0102).unwrap();
    push(&mut buffer, &mut file, 0xFFFF).unwrap();
    assert_eq!(&file[64..82], &[14, 0, 0, 0, 0, 0, 0, 0, 0, 0, 0, 0, 2, 1, 3, 0, 0, 0]);
    assert_eq!(
        &file[82..100],
        &[14, 0, 0, 0, 1, 0, 0, 0, 0, 0, 0, 0, 255, 255, 255, 1, 0, 0]
    );
}

#[test]
fn an_entry_is_what_bincode_would_write() {
    let item = ("key".to_string(), 7u32);
    let payload = bincode::serialize(&item).unwrap();
    let entry = LogEntry::new(0x1_0000_0002, item.clone(), &payload);
    let sum: u32 = 1 + 2 + payload.iter().map(|b| *b as u32).sum::<u32>();
    assert_eq!(entry.checksum, sum);
    let whole = bincode::serialize(&(entry.sequence, item, entry.checksum)).unwrap();
    let frame = entry.to_frame(&payload);
    assert_eq!(&frame[..4], &(whole.len() as u32).to_le_bytes());
    assert_eq!(&frame[4..], &whole[..]);
}

#[test]
fn headers_are_checked() {
    let header = FileHeader::new().with_checksum();
    assert!(header.verify_magic());
    assert!(header.verify_checksum());
    assert!(!FileHeader { head: 1, ..header }.verify_checksum());
    assert!(FileHeader { head: u64::MAX, ..header }.with_checksum().verify_checksum());
    assert_eq!(
        FileHeader { tail: 0x2_0000_0003, item_count: 4, ..header }.calculate_checksum(),
        header.checksum + 9
    );
    let mut odd = header;
    odd.magic[7] = b'X';
    assert!(!odd.verify_magic());

    let image = new_image();
    assert!(check_header(&image).is_ok());
    assert_eq!(
        check_header(&image[..63]),
        Err(BufferError::Other("File too small for header".to_string()))
    );
    let mut broken = image.clone();
    broken[0] = b'e';
    assert_eq!(
        check_header(&broken),
        Err(BufferError::Other("Invalid file magic".to_string()))
    );
    let mut broken = image.clone();
    broken[20] = 1;
    assert_eq!(
        check_header(&broken),
        Err(BufferError::Other("Header checksum mismatch".to_string()))
    );
    assert!(matches!(
        open::<i32>(config_with(SyncMode::NoSync), &mut broken),
        Err(BufferError::Other(_))
    ));
}

#[test]
fn a_torn_write_costs_no_other_entry() {
    let mut file = Vec::new();
    let mut buffer = open::<String>(config_with(SyncMode::NoSync), &mut file).unwrap();
    push(&mut buffer, &mut file, "one".to_string()).unwrap();
    push(&mut buffer, &mut file, "two".to_string()).unwrap();
    let whole = file.len();
    push(&mut buffer, &mut file, "three".to_string()).unwrap();
    for len in whole..file.len() {
        let mut torn = file[..len].to_vec();
        let mut again = open::<String>(config_with(SyncMode::NoSync), &mut torn).unwrap();
        assert_eq!(again.stats().items_recovered, 2);
        assert_eq!(again.pop_batch(9).unwrap(), vec!["one", "two"]);
    }
}

#[test]
fn an_unreadable_entry_ends_recovery() {
    let mut file = Vec::new();
    let mut buffer = open::<String>(config_with(SyncMode::NoSync), &mut file).unwrap();
    push(&mut buffer, &mut file, "one".to_string()).unwrap();
    let second = file.len();
    push(&mut buffer, &mut file, "two".to_string()).unwrap();
    push(&mut buffer, &mut file, "three".to_string()).unwrap();

    let mut broken = file.clone();
    broken[second + 12] = 200;
    let again = open::<String>(config_with(SyncMode::NoSync), &mut broken).unwrap();
    assert_eq!(again.len(), 1);

    let mut huge = file.clone();
    huge[second + 12..second + 20].copy_from_slice(&u64::MAX.to_le_bytes());
    let again = open::<String>(config_with(SyncMode::NoSync), &mut huge).unwrap();
    assert_eq!(again.len(), 1);

    let mut short = new_image();
    short.extend_from_slice(&[3, 0, 0, 0, 1, 2, 3]);
    let again = open::<u8>(config_with(SyncMode::NoSync), &mut short).unwrap();
    assert_eq!(again.len(), 0);

    let mut ended = new_image();
    ended.extend_from_slice(&[0, 0, 0, 0, 9, 9]);
    assert_eq!(read_entries(&ended).unwrap().len(), 0);

    let mut none = PersistentCircularBuffer::<u8>::new(config_with(SyncMode::NoSync)).unwrap();
    none.recover(vec![vec![0; 13]], Vec::new());
    assert_eq!(none.len(), 0);
    none.recover(vec![vec![0; 13]], vec![Some((7, 2))]);
    assert_eq!(none.len(), 0);
    none.recover(vec![vec![0; 13]], vec![Some((7, 1)), None]);
    assert_eq!(none.pop().unwrap(), 7);
}

#[test]
fn numbering_goes_on_after_a_restart() {
    let mut file = Vec::new();
    let mut buffer = open::<u8>(config_with(SyncMode::NoSync), &mut file).unwrap();
    for i in 0..3 {
        push(&mut buffer, &mut file, i).unwrap();
    }
    let mut again = open::<u8>(config_with(SyncMode::NoSync), &mut file).unwrap();
    push(&mut again, &mut file, 3).unwrap();
    let entries = read_entries(&file).unwrap();
    let numbers: Vec<u64> = entries.iter().map(|e| decode_le(e, 0, 8)).collect();
    assert_eq!(numbers, vec![0, 1, 2, 3]);
    assert_eq!(again.pop_batch(9).unwrap(), vec![0, 1, 2, 3]);

    let mut fresh = new_image();
    let mut first = open::<u8>(config_with(SyncMode::NoSync), &mut fresh).unwrap();
    push(&mut first, &mut fresh, 9).unwrap();
    assert_eq!(decode_le(&read_entries(&fresh).unwrap()[0], 0, 8), 1);
}

#[test]
fn a_file_is_begun_anew_without_recovery() {
    let mut file = Vec::new();
    let mut buffer = open::<u8>(config_with(SyncMode::NoSync), &mut file).unwrap();
    push(&mut buffer, &mut file, 1).unwrap();
    let config = config_with(SyncMode::NoSync).with_recover_on_startup(false);
    let again = open::<u8>(config, &mut file).unwrap();
    assert!(again.is_empty());
    assert_eq!(file, new_image());
}

#[test]
fn limits_of_the_persistent_buffer_are_kept() {
    let base = Config::default()
        .with_initial_capacity(1)
        .with_min_capacity(1)
        .with_max_capacity(2);
    let mut file = Vec::new();
    let config = config_with(SyncMode::NoSync).with_base_config(base);
    let mut buffer = open::<u8>(config, &mut file).unwrap();
    push(&mut buffer, &mut file, 1).unwrap();
    push(&mut buffer, &mut file, 2).unwrap();
    assert_eq!(
        push(&mut buffer, &mut file, 3),
        Err(BufferError::MaxCapacityReached(2))
    );
    buffer.pop().unwrap();
    push(&mut buffer, &mut file, 4).unwrap();
    let numbers: Vec<u64> =
        read_entries(&file).unwrap().iter().map(|e| decode_le(e, 0, 8)).collect();
    assert_eq!(numbers, vec![0, 1, 3]);

    let mut file = Vec::new();
    let config = config_with(SyncMode::NoSync).with_max_file_size(64 + 17);
    let mut buffer = open::<u8>(config, &mut file).unwrap();
    push(&mut buffer, &mut file, 1).unwrap();
    assert_eq!(
        push(&mut buffer, &mut file, 2),
        Err(BufferError::Other("Max file size exceeded".to_string()))
    );
    assert_eq!(buffer.len(), 1);
}

#[test]
fn an_item_without_bytes_is_an_error() {
    let mut buffer = PersistentCircularBuffer::<u8>::new(config_with(SyncMode::NoSync)).unwrap();
    assert!(matches!(
        buffer.push(1, Err("no bytes".to_string()), Ok(64)),
        Err(BufferError::Other(s)) if s == "Serialization error: no bytes"
    ));
    let pending = buffer.push(1, Ok(vec![1]), Ok(64)).unwrap_or_else(|e| panic!("{:?}", e));
    assert_eq!(pending.frame()[4], 1);
    assert!(matches!(
        buffer.push(2, Ok(vec![2]), Err("gone".to_string())),
        Err(BufferError::Other(s)) if s == "Failed to seek to end: gone"
    ));
    assert!(buffer.is_empty());
    assert!(buffer.item(0).is_none());
    buffer.commit(pending);
    assert_eq!(buffer.item(0), Some(&1));
    assert_eq!(buffer.config().max_file_size, 1 << 30);
}

#[test]
fn items_come_back_in_order() {
    let mut file = Vec::new();
    let mut buffer = open::<Vec<u8>>(config_with(SyncMode::NoSync), &mut file).unwrap();
    let items: Vec<Vec<u8>> = (0..40u8).map(|i| vec![i; i as usize * 3]).collect();
    for item in &items {
        push(&mut buffer, &mut file, item.clone()).unwrap();
    }
    let mut again = open::<Vec<u8>>(config_with(SyncMode::NoSync), &mut file).unwrap();
    assert_eq!(again.pop_batch(100).unwrap(), items);
    assert_eq!(buffer.pop_batch(100).unwrap(), items);
}

#[test]
fn numbers_and_sums_of_bytes() {
    assert_eq!(encode_le(0x0102_0304, 4), vec![4, 3, 2, 1]);
    assert_eq!(encode_le(u64::MAX, 8), vec![255; 8]);
    assert_eq!(encode_le(0x1_0000_0005, 4), vec![5, 0, 0, 0]);
    assert_eq!(decode_le(&[9, 4, 3, 2, 1, 9], 1, 4), 0x0102_0304);
    for n in vec![0, 1, 255, 256, 0xDEAD_BEEF, u64::MAX] {
        assert_eq!(decode_le(&encode_le(n, 8), 0, 8), n);
    }
    assert_eq!(sum_bytes(5, &[1, 2, 255]), 263);
    assert_eq!(sum_bytes(u32::MAX, &[1]), 0);
}
