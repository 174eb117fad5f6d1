use std::io::Cursor;
use std::sync::Arc;

use arrow::array::{Int32Array, RecordBatch};
use arrow::datatypes::{DataType, Field, Schema};
use icefalldb_query::metadata_cache::{CacheKey, ParquetMetadataCache};
use icefalldb_query::parquet_exec::footer::{
    decode_footer, footer_metadata_len, ranges_of_layout, row_group_ranges, ColumnChunk,
};
use icefalldb_query::QueryError;
use parquet::arrow::ArrowWriter;
use parquet::file::metadata::{ParquetMetaData, ParquetMetaDataReader};

/// A small file, and the bytes of its metadata.
fn parquet_file() -> (Vec<u8>, Vec<u8>) {
    let schema = Arc::new(Schema::new(vec![Field::new("x", DataType::Int32, true)]));
    let batch = RecordBatch::try_new(
        Arc::clone(&schema),
        vec![Arc::new(Int32Array::from(vec![Some(1)]))],
    )
    .unwrap();
    let mut buf = Vec::new();
    {
        let mut cursor = Cursor::new(&mut buf);
        let mut writer = ArrowWriter::try_new(&mut cursor, Arc::clone(&schema), None).unwrap();
        writer.write(&batch).unwrap();
        writer.close().unwrap();
    }
    let tail = buf[buf.len() - 8..].to_vec();
    let len = footer_metadata_len(&tail) as usize;
    let metadata = buf[buf.len() - 8 - len..buf.len() - 8].to_vec();
    (buf, metadata)
}

fn dummy_metadata() -> (Arc<ParquetMetaData>, u64) {
    let (_, bytes) = parquet_file();
    let metadata = Arc::new(ParquetMetaDataReader::decode_metadata(&bytes).unwrap());
    (metadata, bytes.len() as u64)
}

#[test]
fn test_put_and_get() {
    let mut cache = ParquetMetadataCache::new(4);
    let (meta, len) = dummy_metadata();

    assert!(cache.get("path1", "cs1").is_none());
    cache.put("path1", "cs1", Arc::clone(&meta), len);
    let got = cache.get("path1", "cs1").expect("cached metadata");
    assert!(Arc::ptr_eq(&got, &meta));
}

#[test]
fn test_capacity_evicts_lru() {
    let mut cache = ParquetMetadataCache::new(2);
    let (m1, l1) = dummy_metadata();
    let (m2, l2) = dummy_metadata();
    let (m3, l3) = dummy_metadata();

    cache.put("p1", "cs1", Arc::clone(&m1), l1);
    cache.put("p2", "cs2", Arc::clone(&m2), l2);

    // Access p1 so it becomes most-recently used.
    assert!(cache.get("p1", "cs1").is_some());

    // Insert p3: p2 is the least-recently used and should be evicted.
    cache.put("p3", "cs3", Arc::clone(&m3), l3);

    assert!(cache.get("p1", "cs1").is_some());
    assert!(
        cache.get("p2", "cs2").is_none(),
        "LRU entry should be evicted"
    );
    assert!(cache.get("p3", "cs3").is_some());
    assert_eq!(cache.len(), 2);
}

#[test]
fn test_same_path_different_checksum() {
    let mut cache = ParquetMetadataCache::new(4);
    let (m1, l1) = dummy_metadata();
    let (m2, l2) = dummy_metadata();

    cache.put("same", "cs_a", Arc::clone(&m1), l1);
    cache.put("same", "cs_b", Arc::clone(&m2), l2);

    assert!(Arc::ptr_eq(&cache.get("same", "cs_a").unwrap(), &m1));
    assert!(Arc::ptr_eq(&cache.get("same", "cs_b").unwrap(), &m2));
    assert_eq!(cache.len(), 2);
}

#[test]
fn test_capacity_zero_disables_cache() {
    let mut cache = ParquetMetadataCache::new(0);
    let (meta, len) = dummy_metadata();

    assert_eq!(cache.capacity(), 0);
    cache.put("path", "cs", Arc::clone(&meta), len);
    assert!(cache.get("path", "cs").is_none());
    assert_eq!(cache.len(), 0);
}

#[test]
fn test_checksum_change_invalidate_entry() {
    let mut cache = ParquetMetadataCache::new(1);
    let (m1, l1) = dummy_metadata();
    let (m2, l2) = dummy_metadata();

    cache.put("path", "cs_old", Arc::clone(&m1), l1);
    assert!(cache.get("path", "cs_old").is_some());

    // Simulate the file being overwritten: the checksum changes.
    cache.put("path", "cs_new", Arc::clone(&m2), l2);
    assert!(
        cache.get("path", "cs_old").is_none(),
        "old checksum should miss after the file changed"
    );
    assert!(Arc::ptr_eq(&cache.get("path", "cs_new").unwrap(), &m2));
}

#[test]
fn test_clear_removes_all_entries() {
    let mut cache = ParquetMetadataCache::new(4);
    let (meta, len) = dummy_metadata();
    cache.put("p1", "cs", Arc::clone(&meta), len);
    cache.put("p2", "cs", Arc::clone(&meta), len);
    assert_eq!(cache.len(), 2);

    cache.clear();
    assert_eq!(cache.len(), 0);
    assert!(cache.get("p1", "cs").is_none());
    assert!(cache.get("p2", "cs").is_none());
}

#[test]
fn replacing_a_file_evicts_none_and_keeps_the_length() {
    let mut cache = ParquetMetadataCache::new(2);
    cache.put("a", "1", Arc::new(10), 5);
    cache.put("b", "1", Arc::new(20), 6);
    cache.put("a", "1", Arc::new(11), 7);
    assert_eq!(cache.len(), 2);
    assert_eq!(cache.get_with_footer("a", "1"), Some((Arc::new(11), 7)));
    assert_eq!(cache.get_with_footer("b", "1"), Some((Arc::new(20), 6)));
}

#[test]
fn a_replaced_file_counts_as_used() {
    let mut cache = ParquetMetadataCache::new(2);
    cache.put("a", "1", Arc::new(10), 5);
    cache.put("b", "1", Arc::new(20), 6);
    cache.put("a", "1", Arc::new(11), 7);
    cache.put("c", "1", Arc::new(30), 8);
    assert!(cache.get("b", "1").is_none());
    assert_eq!(cache.get("a", "1"), Some(Arc::new(11)));
}

#[test]
fn a_key_is_its_path_and_checksum() {
    let key = CacheKey::new("p", "c");
    assert_eq!(key.path, "p");
    assert_eq!(key.checksum, "c");
    assert_eq!(key, CacheKey::new("p", "c"));
    assert_ne!(key, CacheKey::new("p", "d"));
}

#[test]
fn the_length_of_the_metadata_is_little_endian() {
    let tail = vec![0x04, 0x03, 0x02, 0x01, b'P', b'A', b'R', b'1'];
    assert_eq!(footer_metadata_len(&tail), 0x0102_0304);
}

#[test]
fn ranges_of_a_real_file_match_its_metadata() {
    let (file, bytes) = parquet_file();
    let metadata = ParquetMetaDataReader::decode_metadata(&bytes).unwrap();
    let column = metadata.row_group(0).column(0);
    let start = column
        .dictionary_page_offset()
        .unwrap_or(column.data_page_offset()) as u64;
    let end = start + column.compressed_size() as u64;
    let ranges = row_group_ranges("f.parquet", &bytes, file.len() as u64).unwrap();
    assert_eq!(ranges, Some(vec![(start, end)]));
    let layout = decode_footer("f.parquet", &bytes).unwrap();
    assert_eq!(layout.len(), 1);
    assert_eq!(layout[0][0].data_page_offset, column.data_page_offset());
}

#[test]
fn broken_metadata_is_an_error_with_the_path() {
    match row_group_ranges("f.parquet", &vec![0xff, 0xff], 100) {
        Err(QueryError::Other(message)) => {
            assert!(message.starts_with("decode metadata f.parquet: "));
        }
        _ => panic!("expected an error"),
    }
}

#[test]
fn a_range_spans_all_columns() {
    let chunk = |dictionary: Option<i64>, data: i64, size: i64| ColumnChunk {
        dictionary_page_offset: dictionary,
        data_page_offset: data,
        compressed_size: size,
    };
    let layout = vec![
        vec![chunk(None, 100, 50), chunk(Some(20), 40, 30)],
        vec![],
        vec![chunk(None, 900, 10)],
    ];
    assert_eq!(
        ranges_of_layout(&layout, 500),
        Some(vec![(20, 150), (500, 0), (500, 910)])
    );
}

#[test]
fn a_column_past_the_end_of_numbers_has_no_range() {
    let layout = vec![vec![ColumnChunk {
        dictionary_page_offset: None,
        data_page_offset: -1,
        compressed_size: 1,
    }]];
    assert_eq!(ranges_of_layout(&layout, 500), None);
}

#[test]
fn statistics_of_the_columns_are_not_looked_at() {
    // The footer of a file with one 96-bit column, whose statistics are a byte
    // too long.
    let too_long = [0x0d, 1, 2, 3, 4, 5, 6, 7, 8, 9, 10, 11, 12, 13];
    let mut bytes: Vec<u8> = vec![0x15, 0x02];
    bytes.extend([0x19, 0x2c, 0x48, 0x01, b'r', 0x15, 0x02, 0x00]);
    bytes.extend([0x15, 0x06, 0x25, 0x00, 0x18, 0x01, b'c', 0x00]);
    bytes.extend([0x16, 0x02]);
    bytes.extend([0x19, 0x1c, 0x19, 0x1c, 0x26, 0x08, 0x1c]);
    bytes.extend([0x15, 0x06, 0x19, 0x15, 0x00, 0x19, 0x18, 0x01, b'c', 0x15, 0x00]);
    bytes.extend([0x16, 0x02, 0x16, 0x50, 0x16, 0x3c, 0x26, 0x08]);
    bytes.push(0x3c);
    bytes.push(0x58);
    bytes.extend(too_long);
    bytes.push(0x18);
    bytes.extend(too_long);
    bytes.extend([0x00, 0x00, 0x00]);
    bytes.extend([0x16, 0x50, 0x16, 0x02, 0x00, 0x00]);
    assert_eq!(
        row_group_ranges("f.parquet", &bytes, 100).unwrap(),
        Some(vec![(4, 34)])
    );
}
