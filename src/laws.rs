//! Properties of the archive layout, proved over the functions of
//! [`crate::format`] that the decoders' contracts are stated with.

use crate::format::{
    archive, entries_from, entry_at, header_of, lemma_entries_fail, string_at, string_pool,
    strings_from, EntryView, Error, Header, ARCHIVE_ID, ARCHIVE_VERSION, HEADER_LEN,
};
use crate::stream::{fits, u16_le, u32_le};
use vstd::prelude::*;

verus! {

/// No run of records fails with a format mismatch: that failure belongs to
/// the header alone.
proof fn lemma_entries_never_unsupported(d: Seq<u8>, p: int, m: nat, pool: Seq<Seq<char>>)
    ensures
        entries_from(d, p, m, pool) != Err::<(Seq<EntryView>, int), Error>(
            Error::UnsupportedFormat,
        ),
    decreases m,
{
    if m > 0 {
        lemma_entries_never_unsupported(d, p, (m - 1) as nat, pool);
    }
}

/// Bytes that open with the known identifier and version are never refused
/// as another format, whatever follows them: not by the header decoder, nor
/// by the whole decode.
pub proof fn lemma_known_format_not_refused(d: Seq<u8>)
    requires
        d.len() >= 4,
        u16_le(d, 0) == ARCHIVE_ID,
        u16_le(d, 2) == ARCHIVE_VERSION,
    ensures
        header_of(d) != Err::<Header, Error>(Error::UnsupportedFormat),
        archive(d) != Err::<Seq<EntryView>, Error>(Error::UnsupportedFormat),
{
    if let Ok(h) = header_of(d) {
        if let Some(pool) = string_pool(d, h) {
            lemma_entries_never_unsupported(
                d,
                h.record_table_start as int,
                h.record_table_entry_count as nat,
                pool,
            );
        }
    }
}

/// A full header whose identifier or version is not the known one is
/// refused as another format, and the decode stops there: its result
/// depends on the header bytes alone.
pub proof fn lemma_unknown_format_refused(d: Seq<u8>)
    requires
        d.len() >= HEADER_LEN,
        u16_le(d, 0) != ARCHIVE_ID || u16_le(d, 2) != ARCHIVE_VERSION,
    ensures
        header_of(d) == Err::<Header, Error>(Error::UnsupportedFormat),
        archive(d) == Err::<Seq<EntryView>, Error>(Error::UnsupportedFormat),
{
}

/// A run of `n` strings that `d` holds has `n` of them, the `k`-th being the
/// string that starts where the first `k` end.
pub proof fn lemma_strings_in_order(d: Seq<u8>, p: int, n: nat)
    requires
        strings_from(d, p, n) is Some,
    ensures
        strings_from(d, p, n).unwrap().0.len() == n,
        forall|k: nat|
            k < n ==> {
                &&& #[trigger] strings_from(d, p, k) is Some
                &&& strings_from(d, p, k).unwrap().0 == strings_from(d, p, n).unwrap().0.take(k as int)
                &&& string_at(d, strings_from(d, p, k).unwrap().1) is Some
                &&& string_at(d, strings_from(d, p, k).unwrap().1).unwrap().0 == strings_from(
                    d,
                    p,
                    n,
                ).unwrap().0[k as int]
            },
    decreases n,
{
    if n > 0 {
        let prev = (n - 1) as nat;
        lemma_strings_in_order(d, p, prev);
        let s = strings_from(d, p, n).unwrap().0;
        let s1 = strings_from(d, p, prev).unwrap().0;
        assert(s1 =~= s.take(prev as int));
        assert forall|k: nat| k < n implies {
            &&& #[trigger] strings_from(d, p, k) is Some
            &&& strings_from(d, p, k).unwrap().0 == s.take(k as int)
            &&& string_at(d, strings_from(d, p, k).unwrap().1) is Some
            &&& string_at(d, strings_from(d, p, k).unwrap().1).unwrap().0 == s[k as int]
        } by {
            if k < prev {
                assert(s1.take(k as int) =~= s.take(k as int));
            }
        }
    }
}

/// The string pool of a stream that holds its whole string table has as
/// many strings as the table's count, in table order.
pub proof fn lemma_pool_in_table_order(d: Seq<u8>, h: Header)
    requires
        string_pool(d, h) is Some,
    ensures
        fits(d, h.string_table_start as int, 4),
        string_pool(d, h).unwrap().len() == u32_le(d, h.string_table_start as int),
        forall|k: nat|
            k < u32_le(d, h.string_table_start as int) ==> {
                &&& #[trigger] strings_from(d, h.string_table_start + 4, k) is Some
                &&& string_at(d, strings_from(d, h.string_table_start + 4, k).unwrap().1) is Some
                &&& string_at(d, strings_from(d, h.string_table_start + 4, k).unwrap().1).unwrap().0
                    == string_pool(d, h).unwrap()[k as int]
            },
{
    let p = h.string_table_start as int;
    lemma_strings_in_order(d, p + 4, u32_le(d, p) as nat);
}

/// A run of `m` records that decodes has `m` of them, the `k`-th being the
/// record that starts where the first `k` end; the path of each is the pool
/// string at the index it holds, an index inside the pool.
pub proof fn lemma_entries_in_order(d: Seq<u8>, p: int, m: nat, pool: Seq<Seq<char>>)
    requires
        entries_from(d, p, m, pool) is Ok,
    ensures
        entries_from(d, p, m, pool).unwrap().0.len() == m,
        forall|k: nat|
            k < m ==> {
                let q = entries_from(d, p, k, pool).unwrap().1;
                &&& #[trigger] entries_from(d, p, k, pool) is Ok
                &&& entries_from(d, p, k, pool).unwrap().0 == entries_from(
                    d,
                    p,
                    m,
                    pool,
                ).unwrap().0.take(k as int)
                &&& entry_at(d, q, pool) is Ok
                &&& entry_at(d, q, pool).unwrap().0 == entries_from(d, p, m, pool).unwrap().0[k as int]
                &&& fits(d, q, 4)
                &&& u32_le(d, q) < pool.len()
                &&& entries_from(d, p, m, pool).unwrap().0[k as int].path == pool[u32_le(
                    d,
                    q,
                ) as int]
            },
    decreases m,
{
    if m > 0 {
        let prev = (m - 1) as nat;
        lemma_entries_in_order(d, p, prev, pool);
        let es = entries_from(d, p, m, pool).unwrap().0;
        let es1 = entries_from(d, p, prev, pool).unwrap().0;
        assert(es1 =~= es.take(prev as int));
        assert forall|k: nat| k < m implies {
            let q = entries_from(d, p, k, pool).unwrap().1;
            &&& #[trigger] entries_from(d, p, k, pool) is Ok
            &&& entries_from(d, p, k, pool).unwrap().0 == es.take(k as int)
            &&& entry_at(d, q, pool) is Ok
            &&& entry_at(d, q, pool).unwrap().0 == es[k as int]
            &&& fits(d, q, 4)
            &&& u32_le(d, q) < pool.len()
            &&& es[k as int].path == pool[u32_le(d, q) as int]
        } by {
            if k < prev {
                assert(es1.take(k as int) =~= es.take(k as int));
            }
        }
    }
}

/// A record whose path index lies outside the pool, met after the records
/// before it decoded, fails the whole run with that very index: no records
/// come out.
pub proof fn lemma_dangling_index_fails(
    d: Seq<u8>,
    p: int,
    k: nat,
    m: nat,
    pool: Seq<Seq<char>>,
)
    requires
        k < m,
        entries_from(d, p, k, pool) is Ok,
        fits(d, entries_from(d, p, k, pool).unwrap().1, 4),
        u32_le(d, entries_from(d, p, k, pool).unwrap().1) >= pool.len(),
    ensures
        entries_from(d, p, m, pool) == Err::<(Seq<EntryView>, int), Error>(
            Error::InvalidStringIndex(u32_le(d, entries_from(d, p, k, pool).unwrap().1) as usize),
        ),
{
    lemma_entries_fail(d, p, k + 1, m, pool);
}

/// Decoding the same bytes twice gives the same records, or the same failure.
pub proof fn lemma_decode_deterministic(d1: Seq<u8>, d2: Seq<u8>)
    requires
        d1 == d2,
    ensures
        archive(d1) == archive(d2),
{
}

} // verus!
