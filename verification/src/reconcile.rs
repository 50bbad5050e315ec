//! Cross-referencing the decoded index against the hashes found in the
//! entries directory. For every hash, at most one record and at most one
//! entry file are expected; the checks here count duplicates and the
//! coverage gaps on each side instead of assuming exact correspondence.

use vstd::prelude::*;

use crate::error::{MzError, MzResult};
use crate::index::{spec_from_hex, Record};

verus! {

/// The hash bytes of each record, in order.
pub open spec fn record_hashes(rs: Seq<Record>) -> Seq<Seq<u8>> {
    rs.map_values(|r: Record| r.hash@)
}

/// The bytes of each hash, in order.
pub open spec fn hash_views(hs: Seq<crate::index::Hash>) -> Seq<Seq<u8>> {
    hs.map_values(|h: crate::index::Hash| h@)
}

/// How many elements of `s` equal `v`.
pub open spec fn spec_count(s: Seq<Seq<u8>>, v: Seq<u8>) -> nat
    decreases s.len(),
{
    if s.len() == 0 {
        0
    } else {
        spec_count(s.drop_last(), v) + if s.last() == v {
            1nat
        } else {
            0nat
        }
    }
}

/// How many elements of `from` appear nowhere in `within`.
pub open spec fn spec_missing(from: Seq<Seq<u8>>, within: Seq<Seq<u8>>) -> nat
    decreases from.len(),
{
    if from.len() == 0 {
        0
    } else {
        spec_missing(from.drop_last(), within) + if spec_count(within, from.last()) == 0 {
            1nat
        } else {
            0nat
        }
    }
}

/// Counting a prefix one element longer adds that element's own match.
proof fn lemma_count_take_step(s: Seq<Seq<u8>>, v: Seq<u8>, i: int)
    requires
        0 <= i < s.len(),
    ensures
        spec_count(s.take(i + 1), v) == spec_count(s.take(i), v) + if s[i] == v {
            1nat
        } else {
            0nat
        },
{
    assert(s.take(i + 1).drop_last() =~= s.take(i));
    assert(s.take(i + 1).last() == s[i]);
}

/// A full-length prefix is the sequence itself.
proof fn lemma_take_all(s: Seq<Seq<u8>>)
    ensures
        s.take(s.len() as int) =~= s,
{
}

/// How often the hash `h` occurs among the records of one index.
pub fn count_record_hash(records: &Vec<Record>, h: &crate::index::Hash) -> (n: usize)
    ensures
        n == spec_count(record_hashes(records@), h@),
{
    let ghost s = record_hashes(records@);
    let mut n: usize = 0;
    let mut i: usize = 0;
    while i < records.len()
        invariant
            i <= records@.len(),
            s == record_hashes(records@),
            s.len() == records@.len(),
            n <= i,
            n == spec_count(s.take(i as int), h@),
        decreases records@.len() - i,
    {
        if records[i].hash == *h {
            n += 1;
        }
        proof {
            lemma_count_take_step(s, h@, i as int);
        }
        i += 1;
    }
    proof {
        lemma_take_all(s);
    }
    n
}

/// How often the hash `h` occurs in a list of entry hashes.
pub fn count_hash(hashes: &Vec<crate::index::Hash>, h: &crate::index::Hash) -> (n: usize)
    ensures
        n == spec_count(hash_views(hashes@), h@),
{
    let ghost s = hash_views(hashes@);
    let mut n: usize = 0;
    let mut i: usize = 0;
    while i < hashes.len()
        invariant
            i <= hashes@.len(),
            s == hash_views(hashes@),
            s.len() == hashes@.len(),
            n <= i,
            n == spec_count(s.take(i as int), h@),
        decreases hashes@.len() - i,
    {
        if hashes[i] == *h {
            n += 1;
        }
        proof {
            lemma_count_take_step(s, h@, i as int);
        }
        i += 1;
    }
    proof {
        lemma_take_all(s);
    }
    n
}

/// Whether two records of one index share a hash: a consistency violation
/// worth flagging, never a reason to fail the parse.
pub fn has_duplicate_hash(records: &Vec<Record>) -> (r: bool)
    ensures
        r == (exists|i: int, j: int|
            0 <= i < j < records@.len() && records@[i].hash@ == records@[j].hash@),
{
    let mut i: usize = 0;
    while i < records.len()
        invariant
            i <= records@.len(),
            forall|p: int, q: int| 0 <= p < q < i ==> records@[p].hash@ != records@[q].hash@,
        decreases records@.len() - i,
    {
        let mut j: usize = 0;
        while j < i
            invariant
                j <= i < records@.len(),
                forall|q: int| 0 <= q < j ==> records@[q].hash@ != records@[i as int].hash@,
            decreases i - j,
        {
            if records[j].hash == records[i].hash {
                return true;
            }
            j += 1;
        }
        i += 1;
    }
    false
}

/// The two coverage gaps between an index and its entries directory:
/// how many entry hashes have no index record, and how many index records
/// have no entry.
pub struct ReconcileReport {
    pub entries_not_in_index: usize,
    pub index_without_entry: usize,
}

/// Counts, for one index and the hashes read out of its entries directory,
/// the entry hashes that no record claims and the records that no entry
/// backs.
pub fn reconcile(records: &Vec<Record>, entries: &Vec<crate::index::Hash>) -> (r: ReconcileReport)
    ensures
        r.entries_not_in_index == spec_missing(hash_views(entries@), record_hashes(records@)),
        r.index_without_entry == spec_missing(record_hashes(records@), hash_views(entries@)),
{
    let ghost es = hash_views(entries@);
    let ghost rs = record_hashes(records@);
    let mut entries_not_in_index: usize = 0;
    let mut i: usize = 0;
    while i < entries.len()
        invariant
            i <= entries@.len(),
            es == hash_views(entries@),
            rs == record_hashes(records@),
            es.len() == entries@.len(),
            entries_not_in_index <= i,
            entries_not_in_index == spec_missing(es.take(i as int), rs),
        decreases entries@.len() - i,
    {
        if count_record_hash(records, &entries[i]) == 0 {
            entries_not_in_index += 1;
        }
        proof {
            assert(es.take(i + 1).drop_last() =~= es.take(i as int));
            assert(es.take(i + 1).last() == es[i as int]);
        }
        i += 1;
    }
    let mut index_without_entry: usize = 0;
    let mut j: usize = 0;
    while j < records.len()
        invariant
            j <= records@.len(),
            es == hash_views(entries@),
            rs == record_hashes(records@),
            rs.len() == records@.len(),
            index_without_entry <= j,
            index_without_entry == spec_missing(rs.take(j as int), es),
        decreases records@.len() - j,
    {
        if count_hash(entries, &records[j].hash) == 0 {
            index_without_entry += 1;
        }
        proof {
            assert(rs.take(j + 1).drop_last() =~= rs.take(j as int));
            assert(rs.take(j + 1).last() == rs[j as int]);
        }
        j += 1;
    }
    proof {
        assert(es.take(entries@.len() as int) =~= es);
        assert(rs.take(records@.len() as int) =~= rs);
    }
    ReconcileReport { entries_not_in_index, index_without_entry }
}

/// Whether `kept` out of `kept + missing` is at least nine tenths: the
/// bounded gap rate the reconciliation tolerates on each side.
pub fn coverage_ok(kept: usize, missing: usize) -> (r: bool)
    ensures
        r == (10 * kept >= 9 * (kept + missing)),
{
    (kept as u128) * 10 >= 9 * ((kept as u128) + (missing as u128))
}

/// The hashes of the entry filenames whose contents the outside entry
/// decoder accepted: position `i` survives exactly when `ok[i]`. A surviving
/// name that is not valid 40-character hex fails the whole conversion.
pub open spec fn spec_entry_hashes(names: Seq<Seq<char>>, ok: Seq<bool>) -> Option<Seq<Seq<u8>>>
    recommends
        names.len() == ok.len(),
    decreases names.len(),
{
    if names.len() == 0 {
        Some(Seq::empty())
    } else {
        match spec_entry_hashes(names.drop_last(), ok.drop_last()) {
            Some(rest) => if ok[names.len() - 1] {
                match spec_from_hex(names.last()) {
                    Some(h) => Some(rest.push(h)),
                    None => None,
                }
            } else {
                Some(rest)
            },
            None => None,
        }
    }
}

/// One rejected surviving name makes the whole conversion fail.
proof fn lemma_entry_hashes_fail(names: Seq<Seq<char>>, ok: Seq<bool>, j: int)
    requires
        names.len() == ok.len(),
        0 <= j < names.len(),
        ok[j],
        spec_from_hex(names[j]) is None,
    ensures
        spec_entry_hashes(names, ok) is None,
    decreases names.len(),
{
    if j < names.len() - 1 {
        lemma_entry_hashes_fail(names.drop_last(), ok.drop_last(), j);
    }
}

/// Converts the filenames of an entries directory into hashes, keeping only
/// the positions whose contents the outside decoder accepted (`ok[i]`), in
/// directory order. Fails with `Utf` when a kept filename is not a
/// 40-character hex text, decoding nothing.
pub fn entry_hashes(names: &Vec<String>, ok: &Vec<bool>) -> (r: MzResult<Vec<crate::index::Hash>>)
    requires
        names@.len() == ok@.len(),
    ensures
        (r is Ok) == (spec_entry_hashes(names@.map_values(|s: String| s@), ok@) is Some),
        r matches Ok(v) ==> Some(hash_views(v@)) == spec_entry_hashes(
            names@.map_values(|s: String| s@),
            ok@,
        ),
        r matches Err(e) ==> e == MzError::Utf,
{
    let ghost ns = names@.map_values(|s: String| s@);
    let mut out: Vec<crate::index::Hash> = Vec::new();
    let mut i: usize = 0;
    while i < names.len()
        invariant
            i <= names@.len(),
            names@.len() == ok@.len(),
            ns == names@.map_values(|s: String| s@),
            ns.len() == names@.len(),
            Some(hash_views(out@)) == spec_entry_hashes(ns.take(i as int), ok@.take(i as int)),
        decreases names@.len() - i,
    {
        proof {
            assert(ns.take(i + 1).drop_last() =~= ns.take(i as int));
            assert(ok@.take(i + 1).drop_last() =~= ok@.take(i as int));
            assert(ns.take(i + 1).last() == ns[i as int]);
        }
        if ok[i] {
            let h = match crate::index::Hash::from_hex(names[i].as_str()) {
                Some(h) => h,
                None => {
                    proof {
                        lemma_entry_hashes_fail(ns, ok@, i as int);
                    }
                    return Err(MzError::Utf);
                },
            };
            out.push(h);
            proof {
                assert(hash_views(out@) =~= hash_views(out@.drop_last()).push(h@));
            }
        }
        i += 1;
    }
    proof {
        assert(ns.take(names@.len() as int) =~= ns);
        assert(ok@.take(ok@.len() as int) =~= ok@);
    }
    Ok(out)
}

} // verus!
