//! Decoding an archive's index from a byte stream: header, string table and
//! record table, in that order.

use crate::format::{
    archive, entries_from, entry_views, eof, header_of, lemma_entries_fail,
    lemma_strings_short, string_pool, string_views, strings_from, Entry, EntryView, Error, Header,
    ARCHIVE_ID, ARCHIVE_VERSION, HEADER_LEN,
};
use crate::stream::{fits, u16_at, u32_at, u32_le, ByteStream};
use vstd::prelude::*;

verus! {

/// Reads the header from the start of `stream` and checks its identifier and
/// version.
pub fn read_header(stream: &mut ByteStream) -> (r: Result<Header, Error>)
    requires
        old(stream).pos() == 0,
    ensures
        final(stream).bytes() == old(stream).bytes(),
        r == header_of(old(stream).bytes()),
        r is Ok || r == Err::<Header, Error>(Error::UnsupportedFormat) ==> final(stream).pos()
            == HEADER_LEN,
        r == Err::<Header, Error>(eof()) ==> final(stream).pos() == 0,
{
    let ghost d = stream.bytes();
    let buf = match stream.read_exact(HEADER_LEN) {
        Ok(b) => b,
        Err(e) => return Err(Error::Io(e)),
    };
    let b = buf.as_slice();
    assert(forall|i: int| 0 <= i < HEADER_LEN ==> b@[i] == d[i]);
    let id = u16_at(b, 0);
    let version = u16_at(b, 2);
    if id != ARCHIVE_ID || version != ARCHIVE_VERSION {
        return Err(Error::UnsupportedFormat);
    }
    Ok(
        Header {
            id,
            version,
            record_table_start: u32_at(b, 4),
            record_table_size: u32_at(b, 8),
            record_table_entry_count: u32_at(b, 12),
            string_table_start: u32_at(b, 16),
            string_table_size: u32_at(b, 20),
        },
    )
}

/// Reads the string table that `header` locates: a count, then that many
/// length-prefixed strings, kept in table order.
pub fn read_strings(stream: &mut ByteStream, header: &Header) -> (r: Result<Vec<String>, Error>)
    ensures
        final(stream).bytes() == old(stream).bytes(),
        match string_pool(old(stream).bytes(), *header) {
            Some(pool) => r is Ok && string_views(r->Ok_0@) == pool,
            None => r == Err::<Vec<String>, Error>(eof()),
        },
{
    let ghost d = stream.bytes();
    let ghost p = header.string_table_start as int;
    stream.seek(header.string_table_start as usize);
    let count = match stream.read_u32() {
        Ok(n) => n,
        Err(e) => return Err(Error::Io(e)),
    };
    let mut strings: Vec<String> = Vec::new();
    let mut i: u32 = 0;
    while i < count
        invariant
            stream.bytes() == d,
            d == old(stream).bytes(),
            p == header.string_table_start,
            i <= count,
            fits(d, p, 4),
            count == u32_le(d, p),
            strings_from(d, p + 4, i as nat) == Some((string_views(strings@), stream.pos())),
        decreases count - i,
    {
        let n = match stream.read_u32() {
            Ok(n) => n,
            Err(e) => {
                proof {
                    lemma_strings_short(d, p + 4, (i + 1) as nat, count as nat);
                }
                return Err(Error::Io(e));
            },
        };
        let s = match stream.read_lossy(n as usize) {
            Ok(s) => s,
            Err(e) => {
                proof {
                    lemma_strings_short(d, p + 4, (i + 1) as nat, count as nat);
                }
                return Err(Error::Io(e));
            },
        };
        proof {
            assert(string_views(strings@.push(s)) =~= string_views(strings@).push(s@));
        }
        strings.push(s);
        i = i + 1;
    }
    Ok(strings)
}

/// Reads the `header.record_table_entry_count` records of the table that
/// `header` locates, in table order, each path looked up in `strings`. A path
/// index outside `strings` fails the whole read with that index.
pub fn read_entries(stream: &mut ByteStream, header: Header, strings: &[String]) -> (r: Result<
    Vec<Entry>,
    Error,
>)
    ensures
        final(stream).bytes() == old(stream).bytes(),
        match entries_from(
            old(stream).bytes(),
            header.record_table_start as int,
            header.record_table_entry_count as nat,
            string_views(strings@),
        ) {
            Ok((es, _)) => r is Ok && entry_views(r->Ok_0@) == es,
            Err(err) => r == Err::<Vec<Entry>, Error>(err),
        },
{
    let ghost d = stream.bytes();
    let ghost p = header.record_table_start as int;
    let ghost pool = string_views(strings@);
    let count = header.record_table_entry_count;
    stream.seek(header.record_table_start as usize);
    let mut entries: Vec<Entry> = Vec::new();
    assert(entry_views(entries@) =~= Seq::<EntryView>::empty());
    let mut i: u32 = 0;
    while i < count
        invariant
            stream.bytes() == d,
            d == old(stream).bytes(),
            p == header.record_table_start,
            pool == string_views(strings@),
            count == header.record_table_entry_count,
            i <= count,
            entries_from(d, p, i as nat, pool) == Ok::<(Seq<EntryView>, int), Error>(
                (entry_views(entries@), stream.pos()),
            ),
        decreases count - i,
    {
        let idx = match stream.read_u32() {
            Ok(v) => v as usize,
            Err(e) => {
                proof {
                    lemma_entries_fail(d, p, (i + 1) as nat, count as nat, pool);
                }
                return Err(Error::Io(e));
            },
        };
        if idx >= strings.len() {
            proof {
                lemma_entries_fail(d, p, (i + 1) as nat, count as nat, pool);
            }
            return Err(Error::InvalidStringIndex(idx));
        }
        let path = strings[idx].clone();
        let type_len = match stream.read_u32() {
            Ok(v) => v,
            Err(e) => {
                proof {
                    lemma_entries_fail(d, p, (i + 1) as nat, count as nat, pool);
                }
                return Err(Error::Io(e));
            },
        };
        let record_type = match stream.read_lossy(type_len as usize) {
            Ok(v) => v,
            Err(e) => {
                proof {
                    lemma_entries_fail(d, p, (i + 1) as nat, count as nat, pool);
                }
                return Err(Error::Io(e));
            },
        };
        let offset = match stream.read_u32() {
            Ok(v) => v,
            Err(e) => {
                proof {
                    lemma_entries_fail(d, p, (i + 1) as nat, count as nat, pool);
                }
                return Err(Error::Io(e));
            },
        };
        let compressed_size = match stream.read_u32() {
            Ok(v) => v,
            Err(e) => {
                proof {
                    lemma_entries_fail(d, p, (i + 1) as nat, count as nat, pool);
                }
                return Err(Error::Io(e));
            },
        };
        let uncompressed_size = match stream.read_u32() {
            Ok(v) => v,
            Err(e) => {
                proof {
                    lemma_entries_fail(d, p, (i + 1) as nat, count as nat, pool);
                }
                return Err(Error::Io(e));
            },
        };
        let file_time = match stream.read_u64() {
            Ok(v) => v,
            Err(e) => {
                proof {
                    lemma_entries_fail(d, p, (i + 1) as nat, count as nat, pool);
                }
                return Err(Error::Io(e));
            },
        };
        let entry = Entry { path, record_type, offset, compressed_size, uncompressed_size, file_time };
        proof {
            assert(entry_views(entries@.push(entry)) =~= entry_views(entries@).push(entry@));
        }
        entries.push(entry);
        i = i + 1;
    }
    Ok(entries)
}

/// An archive's index, read whole from the stream that it owns.
#[derive(Debug)]
pub struct Reader {
    reader: ByteStream,
    entries: Vec<Entry>,
}

impl View for Reader {
    type V = Seq<EntryView>;

    closed spec fn view(&self) -> Seq<EntryView> {
        entry_views(self.entries@)
    }
}

impl Reader {
    /// The records, in table order.
    pub fn entries(&self) -> (r: &[Entry])
        ensures
            entry_views(r@) == self@,
    {
        self.entries.as_slice()
    }

    /// Reads the header, the string table and the record table of the
    /// archive in `reader`. Fails with the first failure met, and then yields
    /// no reader at all.
    pub fn new(reader: ByteStream) -> (r: Result<Reader, Error>)
        ensures
            match archive(reader.bytes()) {
                Ok(es) => r is Ok && r->Ok_0@ == es,
                Err(err) => r == Err::<Reader, Error>(err),
            },
    {
        let mut rdr = Reader { reader, entries: Vec::new() };
        match rdr.parse_header() {
            Ok(entries) => {
                rdr.entries = entries;
                Ok(rdr)
            },
            Err(err) => Err(err),
        }
    }

    /// Runs the three decoders in turn from the start of the stream, and
    /// stops at the first failure: after a failed header nothing past the
    /// header is read. The records held so far are left as they are.
    fn parse_header(&mut self) -> (r: Result<Vec<Entry>, Error>)
        ensures
            final(self).entries@ == old(self).entries@,
            final(self).reader.bytes() == old(self).reader.bytes(),
            header_of(old(self).reader.bytes()) == Err::<Header, Error>(Error::UnsupportedFormat)
                ==> final(self).reader.pos() == HEADER_LEN,
            header_of(old(self).reader.bytes()) == Err::<Header, Error>(eof())
                ==> final(self).reader.pos() == 0,
            match archive(old(self).reader.bytes()) {
                Ok(es) => r is Ok && entry_views(r->Ok_0@) == es,
                Err(err) => r == Err::<Vec<Entry>, Error>(err),
            },
    {
        self.reader.seek(0);
        let header = match read_header(&mut self.reader) {
            Ok(h) => h,
            Err(err) => return Err(err),
        };
        let strings = match read_strings(&mut self.reader, &header) {
            Ok(s) => s,
            Err(err) => return Err(err),
        };
        read_entries(&mut self.reader, header, strings.as_slice())
    }
}

} // verus!
