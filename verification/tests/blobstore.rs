use mononoke::chunking::{
    concat_chunks, decode_in_chunk, encode_in_chunk, split_chunks,
};
use mononoke::sqlblob::{
    i32_to_non_zero_usize, replica_or_master, DataEntry, Sqlblob, StoreError,
};
use mononoke::store::{ChunkSqlStore, DataSqlStore, DataType, RepositoryId, SqlValue};

const KIB: usize = 1024;

fn value(len: usize) -> Vec<u8> {
    (0..len).map(|i| (i * 7 + i / 251) as u8).collect()
}

#[test]
fn one_mebibyte_goes_into_four_chunks() {
    let mut store = Sqlblob::new(RepositoryId::new(1), 16, 256 * KIB).unwrap();
    let big = value(1024 * KIB);
    assert_eq!(store.put("abc", &big), Ok(()));
    assert_eq!(store.data_row_count(), 1);
    assert_eq!(store.chunk_row_count(), 4);
    assert_eq!(store.get_entry("abc"), Ok(Some(DataEntry::InChunk(4))));
    for chunk_id in 0..4 {
        let chunk = store.get_chunk("abc", chunk_id).unwrap();
        assert_eq!(chunk.len(), 256 * KIB);
        let start = chunk_id as usize * 256 * KIB;
        assert_eq!(&chunk[..], &big[start..start + 256 * KIB]);
    }
    assert_eq!(store.get("abc"), Ok(Some(big)));
    assert!(store.is_present("abc"));
}

#[test]
fn what_is_put_is_got() {
    let mut store = Sqlblob::new(RepositoryId::new(7), 5, 10).unwrap();
    let sizes = [0usize, 1, 9, 10, 11, 20, 21, 99, 100, 101];
    for (i, len) in sizes.iter().enumerate() {
        let key = format!("key-{}", i);
        assert_eq!(store.get(&key), Ok(None));
        assert!(!store.is_present(&key));
        assert_eq!(store.put(&key, &value(*len)), Ok(()));
    }
    store.sync_replicas();
    for (i, len) in sizes.iter().enumerate() {
        let key = format!("key-{}", i);
        assert_eq!(store.get(&key), Ok(Some(value(*len))));
        assert!(store.is_present(&key));
    }
    assert_eq!(store.data_row_count(), sizes.len());
}

#[test]
fn large_values_are_chunked_by_size() {
    let cases = [(11usize, 2usize), (20, 2), (21, 3), (99, 10), (100, 10), (101, 11)];
    for (len, chunks) in cases.iter() {
        let mut store = Sqlblob::new(RepositoryId::new(7), 3, 10).unwrap();
        store.put("k", &value(*len)).unwrap();
        assert_eq!(store.get_entry("k"), Ok(Some(DataEntry::InChunk(*chunks))));
        assert_eq!(store.chunk_row_count(), *chunks);
        let mut total = 0;
        for chunk_id in 0..*chunks {
            total += store.get_chunk("k", chunk_id as u32).unwrap().len();
        }
        assert_eq!(total, *len);
    }
    let mut store = Sqlblob::new(RepositoryId::new(7), 3, 10).unwrap();
    store.put("k", &value(10)).unwrap();
    assert_eq!(store.get_entry("k"), Ok(Some(DataEntry::Data(value(10)))));
    assert_eq!(store.chunk_row_count(), 0);
}

#[test]
fn the_first_write_wins() {
    let mut store = Sqlblob::new(RepositoryId::new(1), 4, 8).unwrap();
    store.put("small", b"first").unwrap();
    store.put("small", b"second value, and a longer one").unwrap();
    assert_eq!(store.get("small"), Ok(Some(b"first".to_vec())));
    store.put("large", &value(30)).unwrap();
    store.put("large", b"tiny").unwrap();
    store.put("large", &value(17)).unwrap();
    assert_eq!(store.get("large"), Ok(Some(value(30))));
    assert_eq!(store.data_row_count(), 2);
    store.put("other", &value(9)).unwrap();
    assert_eq!(store.get("small"), Ok(Some(b"first".to_vec())));
    assert_eq!(store.get("large"), Ok(Some(value(30))));
}

#[test]
fn reads_fall_back_to_the_master() {
    let mut store = Sqlblob::new(RepositoryId::new(3), 2, 4).unwrap();
    store.put("a", &value(3)).unwrap();
    store.sync_replicas();
    store.put("b", &value(13)).unwrap();
    assert_eq!(store.get("a"), Ok(Some(value(3))));
    assert_eq!(store.get("b"), Ok(Some(value(13))));
    assert!(store.is_present("b"));
    assert_eq!(replica_or_master(Some(1), Some(2)), Some(1));
    assert_eq!(replica_or_master(None, Some(2)), Some(2));
    assert_eq!(replica_or_master::<u8>(None, None), None);
}

#[test]
fn replicas_catch_up_with_their_masters() {
    let mut store = Sqlblob::new(RepositoryId::new(3), 2, 4).unwrap();
    store.put("a", &value(3)).unwrap();
    store.put("b", &value(13)).unwrap();
    assert_eq!(store.data_row_count(), 2);
    assert_eq!(store.chunk_row_count(), 4);
    assert_eq!(store.replica_data_row_count(), 0);
    assert_eq!(store.replica_chunk_row_count(), 0);
    store.sync_replicas();
    assert_eq!(store.replica_data_row_count(), 2);
    assert_eq!(store.replica_chunk_row_count(), 4);
    assert_eq!(store.data_row_count(), 2);
    assert_eq!(store.chunk_row_count(), 4);
    store.put("c", &value(5)).unwrap();
    assert_eq!(store.replica_data_row_count(), 2);
    assert_eq!(store.replica_chunk_row_count(), 4);
    store.sync_replicas();
    assert_eq!(store.replica_data_row_count(), 3);
    assert_eq!(store.replica_chunk_row_count(), 6);
    assert_eq!(store.get("b"), Ok(Some(value(13))));
    assert_eq!(store.get("c"), Ok(Some(value(5))));
}

#[test]
fn a_store_needs_a_shard_and_a_chunk_size() {
    assert!(Sqlblob::new(RepositoryId::new(1), 0, 10).is_none());
    assert!(Sqlblob::new(RepositoryId::new(1), 1, 0).is_none());
    assert!(DataSqlStore::new(RepositoryId::new(1), 0).is_none());
    assert!(ChunkSqlStore::new(RepositoryId::new(1), 0).is_none());
}

#[test]
fn shards_are_xxhash_of_repository_and_key() {
    let store = DataSqlStore::new(RepositoryId::new(1), 16).unwrap();
    assert_eq!(store.shard("abc"), 4);
    assert_eq!(store.shard("abc"), 4);
    let one = DataSqlStore::new(RepositoryId::new(1), 1).unwrap();
    assert_eq!(one.shard("abc"), 1);
    let empty = DataSqlStore::new(RepositoryId::new(0), 7).unwrap();
    assert_eq!(empty.shard(""), 3);
    let negative = DataSqlStore::new(RepositoryId::new(-1), 1000).unwrap();
    assert_eq!(negative.shard("key"), 123);
    let long = DataSqlStore::new(RepositoryId::new(42), 100).unwrap();
    assert_eq!(long.shard("repotest.content.blake2.0123"), 71);
}

#[test]
fn chunk_shards_mix_in_the_chunk_number() {
    let store = ChunkSqlStore::new(RepositoryId::new(1), 16).unwrap();
    assert_eq!(store.shard("abc", 0), 6);
    assert_eq!(store.shard("abc", 1), 7);
    assert_eq!(store.shard("abc", 2), 13);
    assert_eq!(store.shard("abc", 3), 14);
}

#[test]
fn shards_stay_in_range() {
    for n in 1..40usize {
        let data = DataSqlStore::new(RepositoryId::new(5), n).unwrap();
        let chunks = ChunkSqlStore::new(RepositoryId::new(5), n).unwrap();
        for k in 0..50 {
            let key = format!("some/key/{}", k);
            let shard = data.shard(&key);
            assert!(1 <= shard && shard <= n);
            assert_eq!(shard, data.shard(&key));
            let shard = chunks.shard(&key, k);
            assert!(1 <= shard && shard <= n);
        }
    }
}

#[test]
fn chunks_split_and_join() {
    assert_eq!(split_chunks(b"", 4), Vec::<Vec<u8>>::new());
    assert_eq!(split_chunks(b"abcd", 4), vec![b"abcd".to_vec()]);
    assert_eq!(
        split_chunks(b"abcdefghij", 4),
        vec![b"abcd".to_vec(), b"efgh".to_vec(), b"ij".to_vec()]
    );
    assert_eq!(split_chunks(b"abc", 1).len(), 3);
    for len in 0..40 {
        for size in 1..9 {
            let v = value(len);
            let chunks = split_chunks(&v, size);
            assert_eq!(chunks.len(), (len + size - 1) / size);
            assert_eq!(concat_chunks(&chunks), v);
        }
    }
}

#[test]
fn chunk_counts_are_framed_compactly() {
    assert_eq!(encode_in_chunk(4), vec![0x15, 0x08, 0x00]);
    assert_eq!(encode_in_chunk(0), vec![0x15, 0x00, 0x00]);
    assert_eq!(encode_in_chunk(-1), vec![0x15, 0x01, 0x00]);
    assert_eq!(encode_in_chunk(1), vec![0x15, 0x02, 0x00]);
    assert_eq!(encode_in_chunk(64), vec![0x15, 0x80, 0x01, 0x00]);
    assert_eq!(encode_in_chunk(300), vec![0x15, 0xd8, 0x04, 0x00]);
    assert_eq!(
        encode_in_chunk(i32::MAX),
        vec![0x15, 0xfe, 0xff, 0xff, 0xff, 0x0f, 0x00]
    );
    assert_eq!(
        encode_in_chunk(i32::MIN),
        vec![0x15, 0xff, 0xff, 0xff, 0xff, 0x0f, 0x00]
    );
    for n in [0, 1, -1, 4, 63, 64, 127, 128, 300, 65535, 1 << 20, i32::MAX, i32::MIN].iter() {
        assert_eq!(decode_in_chunk(&encode_in_chunk(*n)), Some(*n));
    }
}

#[test]
fn other_framings_are_refused() {
    assert_eq!(decode_in_chunk(b""), None);
    assert_eq!(decode_in_chunk(&[0x15, 0x08]), None);
    assert_eq!(decode_in_chunk(&[0x15, 0x08, 0x00, 0x00]), None);
    assert_eq!(decode_in_chunk(&[0x25, 0x08, 0x00]), None);
    assert_eq!(decode_in_chunk(&[0x16, 0x08, 0x00]), None);
    assert_eq!(decode_in_chunk(&[0x15, 0x88, 0x00, 0x00]), None);
    assert_eq!(decode_in_chunk(&[0x15, 0xff, 0xff, 0xff, 0xff, 0x1f, 0x00]), None);
    assert_eq!(decode_in_chunk(&[0x00]), None);
}

#[test]
fn chunk_counts_must_be_positive() {
    assert_eq!(i32_to_non_zero_usize(i32::MAX), Some(i32::MAX as usize));
    assert_eq!(i32_to_non_zero_usize(1), Some(1));
    assert_eq!(i32_to_non_zero_usize(0), None);
    assert_eq!(i32_to_non_zero_usize(-3), None);
}

#[test]
fn rows_turn_into_entries() {
    let store = DataSqlStore::new(RepositoryId::new(1), 4).unwrap();
    assert_eq!(store.entry_of(None), Ok(None));
    assert_eq!(
        store.entry_of(Some((DataType::Data, b"xyz".to_vec()))),
        Ok(Some(DataEntry::Data(b"xyz".to_vec())))
    );
    assert_eq!(
        store.entry_of(Some((DataType::InChunk, encode_in_chunk(3)))),
        Ok(Some(DataEntry::InChunk(3)))
    );
    assert_eq!(
        store.entry_of(Some((DataType::InChunk, encode_in_chunk(0)))),
        Err(StoreError::InvalidChunkCount)
    );
    assert_eq!(
        store.entry_of(Some((DataType::InChunk, encode_in_chunk(-5)))),
        Err(StoreError::InvalidChunkCount)
    );
    assert_eq!(
        store.entry_of(Some((DataType::InChunk, b"junk".to_vec()))),
        Err(StoreError::BadHeader)
    );
    assert_eq!(
        store.row_of(&DataEntry::InChunk(4)),
        (DataType::InChunk, vec![0x15, 0x08, 0x00])
    );
    assert_eq!(
        store.row_of(&DataEntry::Data(b"v".to_vec())),
        (DataType::Data, b"v".to_vec())
    );
}

#[test]
fn a_chunk_missing_on_the_master_is_fatal() {
    let store = ChunkSqlStore::new(RepositoryId::new(1), 4).unwrap();
    assert_eq!(store.chunk_of(2, 3, Some(b"c".to_vec())), Ok(b"c".to_vec()));
    let err = store.chunk_of(2, 3, None).unwrap_err();
    assert_eq!(err, StoreError::MissingChunk { chunk_id: 2, shard: 3 });
    assert_eq!(err.message(), "Missing chunk with id 2 shard 3");
    assert_eq!(
        StoreError::BadHeader.message(),
        "Failed to deserialize InChunk data"
    );
    assert_eq!(
        StoreError::InvalidChunkCount.message(),
        "Encoded number of chunks was invalid"
    );
    let blob = Sqlblob::new(RepositoryId::new(1), 16, 8).unwrap();
    assert_eq!(
        blob.get_chunk("abc", 1),
        Err(StoreError::MissingChunk { chunk_id: 1, shard: 7 })
    );
}

#[test]
fn the_type_column_reads_numbers_and_text() {
    assert_eq!(DataType::new(SqlValue::Int(1)), Ok(DataType::Data));
    assert_eq!(DataType::new(SqlValue::Int(2)), Ok(DataType::InChunk));
    assert_eq!(DataType::new(SqlValue::Bytes(b"1".to_vec())), Ok(DataType::Data));
    assert_eq!(DataType::new(SqlValue::Bytes(b"2".to_vec())), Ok(DataType::InChunk));
    assert_eq!(DataType::new(SqlValue::Int(3)), Err(SqlValue::Int(3)));
    assert_eq!(DataType::new(SqlValue::UInt(1)), Err(SqlValue::UInt(1)));
    assert_eq!(DataType::new(SqlValue::Null), Err(SqlValue::Null));
    assert_eq!(
        DataType::new(SqlValue::Bytes(b"12".to_vec())),
        Err(SqlValue::Bytes(b"12".to_vec()))
    );
    assert_eq!(DataType::Data.rollback(), SqlValue::Int(1));
    assert_eq!(DataType::InChunk.rollback(), SqlValue::Int(2));
    assert_eq!(DataType::InChunk.commit(), DataType::InChunk);
}
