//! The archive's layout, stated as functions on its bytes: what a reader of
//! the archive must produce for each byte sequence.

use crate::stream::{fits, u16_le, u32_le, u64_le, utf8_lossy, IoError};
use vstd::prelude::*;

verus! {

/// The identifier that the first two bytes of an archive must hold.
pub const ARCHIVE_ID: u16 = 2;

/// The format version that bytes 2 and 3 of an archive must hold.
pub const ARCHIVE_VERSION: u16 = 3;

/// The size of the header in bytes.
pub const HEADER_LEN: usize = 24;

/// Why an archive could not be read.
#[derive(Clone, Copy, Debug, PartialEq, Eq, Structural)]
pub enum Error {
    /// The header's identifier or version is not the one this reader knows.
    UnsupportedFormat,
    /// A record names a string that the string table does not hold.
    InvalidStringIndex(usize),
    /// The bytes ended before a value that the tables call for.
    Io(IoError),
}

/// The fixed header at the start of an archive.
#[derive(Clone, Copy, Debug, PartialEq, Eq, Structural)]
pub struct Header {
    pub id: u16,
    pub version: u16,
    pub record_table_start: u32,
    pub record_table_size: u32,
    pub record_table_entry_count: u32,
    pub string_table_start: u32,
    pub string_table_size: u32,
}

/// A record of the archive's index, with its path resolved.
#[derive(Debug)]
pub struct Entry {
    pub path: String,
    pub record_type: String,
    pub offset: u32,
    pub compressed_size: u32,
    pub uncompressed_size: u32,
    pub file_time: u64,
}

/// The value of an [`Entry`], with its strings as character sequences.
pub struct EntryView {
    pub path: Seq<char>,
    pub record_type: Seq<char>,
    pub offset: u32,
    pub compressed_size: u32,
    pub uncompressed_size: u32,
    pub file_time: u64,
}

impl View for Entry {
    type V = EntryView;

    open spec fn view(&self) -> EntryView {
        EntryView {
            path: self.path@,
            record_type: self.record_type@,
            offset: self.offset,
            compressed_size: self.compressed_size,
            uncompressed_size: self.uncompressed_size,
            file_time: self.file_time,
        }
    }
}

/// The values of a sequence of strings.
pub open spec fn string_views(v: Seq<String>) -> Seq<Seq<char>> {
    v.map_values(|s: String| s@)
}

/// The values of a sequence of entries.
pub open spec fn entry_views(v: Seq<Entry>) -> Seq<EntryView> {
    v.map_values(|e: Entry| e@)
}

/// The error of a read past the end of the bytes.
pub open spec fn eof() -> Error {
    Error::Io(IoError::UnexpectedEof)
}

/// The header of archive `d`, or why there is none: a short read comes before
/// any look at the identifier and version.
pub open spec fn header_of(d: Seq<u8>) -> Result<Header, Error> {
    if d.len() < HEADER_LEN {
        Err(eof())
    } else if u16_le(d, 0) != ARCHIVE_ID || u16_le(d, 2) != ARCHIVE_VERSION {
        Err(Error::UnsupportedFormat)
    } else {
        Ok(
            Header {
                id: u16_le(d, 0),
                version: u16_le(d, 2),
                record_table_start: u32_le(d, 4),
                record_table_size: u32_le(d, 8),
                record_table_entry_count: u32_le(d, 12),
                string_table_start: u32_le(d, 16),
                string_table_size: u32_le(d, 20),
            },
        )
    }
}

/// The length-prefixed string at `p` and the position after it, if `d` holds
/// all of it.
pub open spec fn string_at(d: Seq<u8>, p: int) -> Option<(Seq<char>, int)> {
    if fits(d, p, 4) && fits(d, p + 4, u32_le(d, p) as int) {
        let end = p + 4 + u32_le(d, p);
        Some((utf8_lossy(d.subrange(p + 4, end)), end))
    } else {
        None
    }
}

/// The `n` strings laid one after another from `p`, and the position after
/// the last; `None` if `d` ends first.
pub open spec fn strings_from(d: Seq<u8>, p: int, n: nat) -> Option<(Seq<Seq<char>>, int)>
    decreases n,
{
    if n == 0 {
        Some((Seq::empty(), p))
    } else {
        match strings_from(d, p, (n - 1) as nat) {
            Some((pool, q)) => match string_at(d, q) {
                Some((s, end)) => Some((pool.push(s), end)),
                None => None,
            },
            None => None,
        }
    }
}

/// The string pool of archive `d` with header `h`; `None` if `d` ends first.
pub open spec fn string_pool(d: Seq<u8>, h: Header) -> Option<Seq<Seq<char>>> {
    let p = h.string_table_start as int;
    if fits(d, p, 4) {
        match strings_from(d, p + 4, u32_le(d, p) as nat) {
            Some((pool, _)) => Some(pool),
            None => None,
        }
    } else {
        None
    }
}

/// The record at `p`, its path looked up in `pool`, and the position after it;
/// or why it cannot be read. The path index is checked before anything after
/// it is read.
pub open spec fn entry_at(d: Seq<u8>, p: int, pool: Seq<Seq<char>>) -> Result<
    (EntryView, int),
    Error,
> {
    if !fits(d, p, 4) {
        Err(eof())
    } else if u32_le(d, p) >= pool.len() {
        Err(Error::InvalidStringIndex(u32_le(d, p) as usize))
    } else if !fits(d, p + 4, 4) || !fits(d, p + 8, u32_le(d, p + 4) + 20) {
        Err(eof())
    } else {
        let q = p + 8 + u32_le(d, p + 4);
        Ok(
            (
                EntryView {
                    path: pool[u32_le(d, p) as int],
                    record_type: utf8_lossy(d.subrange(p + 8, q)),
                    offset: u32_le(d, q),
                    compressed_size: u32_le(d, q + 4),
                    uncompressed_size: u32_le(d, q + 8),
                    file_time: u64_le(d, q + 12),
                },
                q + 20,
            ),
        )
    }
}

/// The `m` records laid one after another from `p`, and the position after
/// the last; or the first failure among them.
pub open spec fn entries_from(d: Seq<u8>, p: int, m: nat, pool: Seq<Seq<char>>) -> Result<
    (Seq<EntryView>, int),
    Error,
>
    decreases m,
{
    if m == 0 {
        Ok((Seq::empty(), p))
    } else {
        match entries_from(d, p, (m - 1) as nat, pool) {
            Ok((es, q)) => match entry_at(d, q, pool) {
                Ok((e, end)) => Ok((es.push(e), end)),
                Err(err) => Err(err),
            },
            Err(err) => Err(err),
        }
    }
}

/// The records of archive `d`, in table order, or the first failure met
/// while reading its header, its string table and its record table.
pub open spec fn archive(d: Seq<u8>) -> Result<Seq<EntryView>, Error> {
    match header_of(d) {
        Err(err) => Err(err),
        Ok(h) => match string_pool(d, h) {
            None => Err(eof()),
            Some(pool) => match entries_from(
                d,
                h.record_table_start as int,
                h.record_table_entry_count as nat,
                pool,
            ) {
                Ok((es, _)) => Ok(es),
                Err(err) => Err(err),
            },
        },
    }
}

/// A run of strings that ends past the end of `d` stays so when it goes on.
pub proof fn lemma_strings_short(d: Seq<u8>, p: int, k: nat, n: nat)
    requires
        k <= n,
        strings_from(d, p, k) is None,
    ensures
        strings_from(d, p, n) is None,
    decreases n,
{
    if k < n {
        lemma_strings_short(d, p, k, (n - 1) as nat);
    }
}

/// The first failure in a run of records is the failure of every longer run.
pub proof fn lemma_entries_fail(d: Seq<u8>, p: int, k: nat, m: nat, pool: Seq<Seq<char>>)
    requires
        k <= m,
        entries_from(d, p, k, pool) is Err,
    ensures
        entries_from(d, p, m, pool) == entries_from(d, p, k, pool),
    decreases m,
{
    if k < m {
        lemma_entries_fail(d, p, k, (m - 1) as nat, pool);
    }
}

} // verus!
