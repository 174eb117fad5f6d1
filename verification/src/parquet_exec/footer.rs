//! Where the row groups of a Parquet file lie.
use vstd::prelude::*;
use vstd::string::*;

use parquet::file::metadata::{
    ParquetMetaDataOptions, ParquetMetaDataReader, ParquetStatisticsPolicy,
};

use crate::error::{other, Result};

verus! {

/// The size of the end of a Parquet file: four bytes with the length of the
/// metadata, and four that mark the format.
pub const PARQUET_FOOTER_SIZE: u64 = 8;

/// The length of the metadata, from the last bytes of the file: the first four
/// of them, the lowest first.
pub open spec fn metadata_length(tail: Seq<u8>) -> int {
    tail[0] + 0x100 * tail[1] + 0x1_0000 * tail[2] + 0x100_0000 * tail[3]
}

pub fn footer_metadata_len(tail: &Vec<u8>) -> (r: u64)
    requires
        tail@.len() == PARQUET_FOOTER_SIZE,
    ensures
        r == metadata_length(tail@),
{
    tail[0] as u64 + 0x100 * tail[1] as u64 + 0x1_0000 * tail[2] as u64 + 0x100_0000
        * tail[3] as u64
}

/// Where the pages of one column of a row group lie.
#[derive(Debug, Clone, Copy, PartialEq, Eq, Structural)]
pub struct ColumnChunk {
    pub dictionary_page_offset: Option<i64>,
    pub data_page_offset: i64,
    pub compressed_size: i64,
}

/// The columns of each row group of a file.
pub type FileLayout = Vec<Vec<ColumnChunk>>;

/// The view of a layout.
pub open spec fn layout_view(layout: Seq<Vec<ColumnChunk>>) -> Seq<Seq<ColumnChunk>> {
    layout.map_values(|columns: Vec<ColumnChunk>| columns@)
}

/// What `ParquetMetaDataReader::decode_metadata_with_options`, without column
/// statistics, makes of the metadata of a file: the columns of each row group,
/// or the message of the error.
pub uninterp spec fn decoded_layout(bytes: Seq<u8>) -> core::result::Result<
    Seq<Seq<ColumnChunk>>,
    Seq<char>,
>;

/// Calls `ParquetMetaDataReader::decode_metadata_with_options`, and takes from
/// what it decodes the offsets and the compressed size of each column of each
/// row group; they depend on the bytes alone. An error is kept as its message.
///
/// Column statistics are skipped: nothing here reads them, and the decoder
/// panics on one of a 96-bit column that is too long. It reserves memory for
/// as many items as the bytes declare, and recurses as deep as the schema is
/// nested.
#[verifier::external_body]
fn decode_metadata(bytes: &Vec<u8>) -> (r: core::result::Result<FileLayout, String>)
    ensures
        match r {
            Ok(layout) => decoded_layout(bytes@) == Ok::<Seq<Seq<ColumnChunk>>, Seq<char>>(
                layout_view(layout@),
            ),
            Err(message) => decoded_layout(bytes@) == Err::<Seq<Seq<ColumnChunk>>, Seq<char>>(
                message@,
            ),
        },
{
    let skip = ParquetStatisticsPolicy::SkipAll;
    let options = ParquetMetaDataOptions::new().with_column_stats_policy(skip);
    let decoded = ParquetMetaDataReader::decode_metadata_with_options(bytes, Some(&options))
        .map_err(|e| e.to_string())?;
    let groups = decoded.row_groups().iter().map(|g| g.columns().iter().map(|c| ColumnChunk {
        dictionary_page_offset: c.dictionary_page_offset(),
        data_page_offset: c.data_page_offset(),
        compressed_size: c.compressed_size(),
    }).collect());
    Ok(groups.collect())
}

/// Where a column starts: at its dictionary, where it has one. Offsets are
/// taken as unsigned.
pub open spec fn chunk_start(c: ColumnChunk) -> u64 {
    match c.dictionary_page_offset {
        Some(o) => o as u64,
        None => c.data_page_offset as u64,
    }
}

/// Where a column ends.
pub open spec fn chunk_end(c: ColumnChunk) -> int {
    chunk_start(c) + c.compressed_size as u64
}

/// Where the first `n` columns start, but no later than `file_size`.
pub open spec fn first_byte(columns: Seq<ColumnChunk>, file_size: u64, n: int) -> int
    decreases n,
{
    if n <= 0 {
        file_size as int
    } else {
        let before = first_byte(columns, file_size, n - 1);
        if chunk_start(columns[n - 1]) < before {
            chunk_start(columns[n - 1]) as int
        } else {
            before
        }
    }
}

/// Where the first `n` columns end.
pub open spec fn last_byte(columns: Seq<ColumnChunk>, n: int) -> int
    decreases n,
{
    if n <= 0 {
        0
    } else {
        let before = last_byte(columns, n - 1);
        if chunk_end(columns[n - 1]) > before {
            chunk_end(columns[n - 1])
        } else {
            before
        }
    }
}

/// The byte range of a row group.
pub open spec fn group_range(columns: Seq<ColumnChunk>, file_size: u64) -> (int, int) {
    (
        first_byte(columns, file_size, columns.len() as int),
        last_byte(columns, columns.len() as int),
    )
}

/// The ends of the columns fit in 64 bits.
pub open spec fn ends_fit(columns: Seq<ColumnChunk>) -> bool {
    forall|i: int| 0 <= i < columns.len() ==> chunk_end(#[trigger] columns[i]) <= u64::MAX
}

/// The byte range that a row group takes up in its file.
pub fn row_group_range(columns: &Vec<ColumnChunk>, file_size: u64) -> (r: (u64, u64))
    requires
        ends_fit(columns@),
    ensures
        (r.0 as int, r.1 as int) == group_range(columns@, file_size),
{
    let mut start: u64 = file_size;
    let mut end: u64 = 0;
    let mut i: usize = 0;
    while i < columns.len()
        invariant
            i <= columns@.len(),
            ends_fit(columns@),
            start == first_byte(columns@, file_size, i as int),
            end == last_byte(columns@, i as int),
        decreases columns@.len() - i,
    {
        let c = columns[i];
        assert(chunk_end(columns@[i as int]) <= u64::MAX);
        let first: u64 = match c.dictionary_page_offset {
            Some(o) => o as u64,
            None => c.data_page_offset as u64,
        };
        let last: u64 = first + c.compressed_size as u64;
        if first < start {
            start = first;
        }
        if last > end {
            end = last;
        }
        i = i + 1;
    }
    (start, end)
}

/// Every column of a row group lies within its byte range.
pub proof fn range_holds_every_column(columns: Seq<ColumnChunk>, file_size: u64, i: int)
    requires
        0 <= i < columns.len(),
    ensures
        group_range(columns, file_size).0 <= chunk_start(columns[i]),
        chunk_end(columns[i]) <= group_range(columns, file_size).1,
{
    bytes_hold_columns(columns, file_size, columns.len() as int, i);
}

proof fn bytes_hold_columns(columns: Seq<ColumnChunk>, file_size: u64, n: int, i: int)
    requires
        0 <= i < n <= columns.len(),
    ensures
        first_byte(columns, file_size, n) <= chunk_start(columns[i]),
        chunk_end(columns[i]) <= last_byte(columns, n),
    decreases n,
{
    if i < n - 1 {
        bytes_hold_columns(columns, file_size, n - 1, i);
    }
}

fn ends_do_fit(columns: &Vec<ColumnChunk>) -> (r: bool)
    ensures
        r == ends_fit(columns@),
{
    let mut i: usize = 0;
    while i < columns.len()
        invariant
            i <= columns@.len(),
            forall|k: int| 0 <= k < i ==> chunk_end(#[trigger] columns@[k]) <= u64::MAX,
        decreases columns@.len() - i,
    {
        let c = columns[i];
        let first: u64 = match c.dictionary_page_offset {
            Some(o) => o as u64,
            None => c.data_page_offset as u64,
        };
        let size: u64 = c.compressed_size as u64;
        if first > u64::MAX - size {
            assert(chunk_end(columns@[i as int]) > u64::MAX);
            return false;
        }
        i = i + 1;
    }
    true
}

/// The byte ranges of the row groups of a layout.
pub open spec fn layout_ranges(layout: Seq<Seq<ColumnChunk>>, file_size: u64) -> Seq<(int, int)> {
    layout.map_values(|columns: Seq<ColumnChunk>| group_range(columns, file_size))
}

/// Whether the ends of all columns of a layout fit in 64 bits.
pub open spec fn layout_fits(layout: Seq<Seq<ColumnChunk>>) -> bool {
    forall|g: int| 0 <= g < layout.len() ==> ends_fit(#[trigger] layout[g])
}

/// The views of a sequence of ranges.
pub open spec fn range_views(ranges: Seq<(u64, u64)>) -> Seq<(int, int)> {
    ranges.map_values(|r: (u64, u64)| (r.0 as int, r.1 as int))
}

/// The byte range of each row group of a decoded file; `None` where a column
/// is said to end past 64 bits.
pub fn ranges_of_layout(layout: &FileLayout, file_size: u64) -> (r: Option<Vec<(u64, u64)>>)
    ensures
        match r {
            Some(ranges) => layout_fits(layout_view(layout@)) && range_views(ranges@)
                == layout_ranges(layout_view(layout@), file_size),
            None => !layout_fits(layout_view(layout@)),
        },
{
    let ghost all = layout_view(layout@);
    let mut out: Vec<(u64, u64)> = Vec::new();
    let mut g: usize = 0;
    while g < layout.len()
        invariant
            g <= layout@.len(),
            all == layout_view(layout@),
            all.len() == layout@.len(),
            out@.len() == g,
            forall|k: int| 0 <= k < g ==> ends_fit(#[trigger] all[k]),
            forall|k: int|
                0 <= k < g ==> ((#[trigger] out@[k]).0 as int, out@[k].1 as int) == group_range(
                    all[k],
                    file_size,
                ),
        decreases layout@.len() - g,
    {
        assert(all[g as int] == layout@[g as int]@);
        if !ends_do_fit(&layout[g]) {
            assert(!ends_fit(all[g as int]));
            return None;
        }
        out.push(row_group_range(&layout[g], file_size));
        g = g + 1;
    }
    assert(range_views(out@) =~= layout_ranges(all, file_size));
    Some(out)
}

pub open spec fn decode_error_message(path: Seq<char>, error: Seq<char>) -> Seq<char> {
    "decode metadata "@ + path + ": "@ + error
}

/// The layout of a file, from its metadata.
pub fn decode_footer(path: &str, metadata: &Vec<u8>) -> (r: Result<FileLayout>)
    ensures
        match decoded_layout(metadata@) {
            Ok(layout) => r matches Ok(out) && layout_view(out@) == layout,
            Err(error) => r matches Err(e) && e.says(decode_error_message(path@, error)),
        },
{
    match decode_metadata(metadata) {
        Ok(layout) => Ok(layout),
        Err(error) => {
            let mut message: String = "decode metadata ".to_owned();
            message.append(path);
            message.append(": ");
            message.append(error.as_str());
            Err(other(message.as_str()))
        },
    }
}

/// The byte range of each row group of a file, from its metadata. `None` where
/// a column is said to end past 64 bits.
pub fn row_group_ranges(path: &str, metadata: &Vec<u8>, file_size: u64) -> (r: Result<
    Option<Vec<(u64, u64)>>,
>)
    ensures
        match decoded_layout(metadata@) {
            Ok(layout) => match r {
                Ok(Some(ranges)) => layout_fits(layout) && range_views(ranges@) == layout_ranges(
                    layout,
                    file_size,
                ),
                Ok(None) => !layout_fits(layout),
                Err(_) => false,
            },
            Err(error) => r matches Err(e) && e.says(decode_error_message(path@, error)),
        },
{
    match decode_footer(path, metadata) {
        Ok(layout) => Ok(ranges_of_layout(&layout, file_size)),
        Err(e) => Err(e),
    }
}

/// The byte range of a row group begins at its first page and ends where its last
/// one does: a column with a dictionary begins with that, any other with its data.
/// It begins no later than the file ends.
pub proof fn ranges_are_those_of_the_pages(columns: Seq<ColumnChunk>, file_size: u64, i: int)
    requires
        0 <= i < columns.len(),
        forall|k: int|
            0 <= k < columns.len() ==> (#[trigger] columns[k]).data_page_offset >= 0
                && columns[k].compressed_size >= 0 && (columns[k].dictionary_page_offset matches
                Some(o) ==> o >= 0),
    ensures
        ({
            let (start, end) = group_range(columns, file_size);
            let first = match columns[i].dictionary_page_offset {
                Some(o) => o as int,
                None => columns[i].data_page_offset as int,
            };
            &&& start <= first
            &&& first + columns[i].compressed_size <= end
            &&& start <= file_size
            &&& start == file_size || exists|k: int|
                0 <= k < columns.len() && match (#[trigger] columns[k]).dictionary_page_offset {
                    Some(o) => start == o,
                    None => start == columns[k].data_page_offset,
                }
            &&& end == 0 || exists|k: int|
                0 <= k < columns.len() && match (#[trigger] columns[k]).dictionary_page_offset {
                    Some(o) => end == o + columns[k].compressed_size,
                    None => end == columns[k].data_page_offset + columns[k].compressed_size,
                }
        }),
{
    range_holds_every_column(columns, file_size, i);
    bytes_are_tight(columns, file_size, columns.len() as int);
    let start = group_range(columns, file_size).0;
    let end = group_range(columns, file_size).1;
    if start != file_size {
        let k = choose|k: int| 0 <= k < columns.len() && chunk_start(#[trigger] columns[k]) == start;
        assert(columns[k].data_page_offset >= 0);
    }
    if end != 0 {
        let k = choose|k: int| 0 <= k < columns.len() && chunk_end(#[trigger] columns[k]) == end;
        assert(columns[k].data_page_offset >= 0);
    }
}

proof fn bytes_are_tight(columns: Seq<ColumnChunk>, file_size: u64, n: int)
    requires
        0 <= n <= columns.len(),
    ensures
        first_byte(columns, file_size, n) <= file_size,
        first_byte(columns, file_size, n) == file_size || exists|k: int|
            0 <= k < n && chunk_start(#[trigger] columns[k]) == first_byte(columns, file_size, n),
        last_byte(columns, n) == 0 || exists|k: int|
            0 <= k < n && chunk_end(#[trigger] columns[k]) == last_byte(columns, n),
    decreases n,
{
    if n > 0 {
        bytes_are_tight(columns, file_size, n - 1);
        assert(chunk_start(columns[n - 1]) == chunk_start(columns[n - 1]));
    }
}

/// The length of the metadata is written with its lowest byte first.
pub proof fn lengths_are_written_from_the_lowest_byte(tail: Seq<u8>, length: u32)
    requires
        tail.len() == 8,
        tail[0] == length % 0x100,
        tail[1] == length / 0x100 % 0x100,
        tail[2] == length / 0x1_0000 % 0x100,
        tail[3] == length / 0x100_0000,
    ensures
        metadata_length(tail) == length,
{
}

/// The ranges of a file are those of its row groups, in their order.
pub proof fn ranges_are_those_of_the_groups(
    ranges: Seq<(u64, u64)>,
    layout: Seq<Vec<ColumnChunk>>,
    file_size: u64,
    g: int,
)
    requires
        range_views(ranges) == layout_ranges(layout_view(layout), file_size),
        0 <= g < layout.len(),
    ensures
        ranges.len() == layout.len(),
        (ranges[g].0 as int, ranges[g].1 as int) == group_range(layout[g]@, file_size),
{
    assert(range_views(ranges).len() == ranges.len());
    assert(layout_ranges(layout_view(layout), file_size).len() == layout.len());
    assert(range_views(ranges)[g] == (ranges[g].0 as int, ranges[g].1 as int));
}

} // verus!
