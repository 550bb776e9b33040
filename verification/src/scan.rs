//! The local directory scan: which entries become emotes, in enumeration
//! order, and which identifier each one takes.

use crate::records::{EmoteOrigin, EmoteRecord};
use crate::sequencer::CodepointSequencer;
use vstd::prelude::*;
use vstd::string::StrSliceExecFns;

verus! {

/// What the directory enumeration hands the scanner for one entry: the file
/// name without its extension, and the extension, where the entry has them.
pub struct LocalEntry {
    pub stem: Option<String>,
    pub extension: Option<String>,
}

/// The supported image type: a three-letter extension spelling png in any
/// letter case.
pub open spec fn is_png_extension(s: Seq<char>) -> bool {
    &&& s.len() == 3
    &&& (s[0] == 'p' || s[0] == 'P')
    &&& (s[1] == 'n' || s[1] == 'N')
    &&& (s[2] == 'g' || s[2] == 'G')
}

/// An entry becomes an emote exactly when it has both a stem and a supported
/// image extension; every other entry is silently skipped.
pub open spec fn entry_accepted(e: LocalEntry) -> bool {
    e.stem is Some && e.extension is Some && is_png_extension(e.extension->0@)
}

/// How many entries of a listing become emotes.
pub open spec fn accepted_count(entries: Seq<LocalEntry>) -> nat
    decreases entries.len(),
{
    if entries.len() == 0 {
        0
    } else {
        accepted_count(entries.drop_last()) + if entry_accepted(entries.last()) {
            1nat
        } else {
            0nat
        }
    }
}

/// The record one accepted entry yields under identifier `id`: its name is
/// the stem, its origin is the local directory, and it has no remote asset.
pub open spec fn local_record(e: LocalEntry, id: nat) -> EmoteRecord {
    EmoteRecord {
        name: e.stem->0,
        identifier: id as u32,
        origin: EmoteOrigin::Local,
        remote_asset_id: None,
    }
}

/// The records a listing yields when the first accepted entry takes
/// identifier `start` and each further accepted entry the next value.
pub open spec fn scan_records(entries: Seq<LocalEntry>, start: nat) -> Seq<EmoteRecord>
    decreases entries.len(),
{
    if entries.len() == 0 {
        Seq::empty()
    } else {
        let front = scan_records(entries.drop_last(), start);
        if entry_accepted(entries.last()) {
            front.push(local_record(entries.last(), start + accepted_count(entries.drop_last())))
        } else {
            front
        }
    }
}

/// The positions, in enumeration order, of the entries that become emotes.
pub open spec fn accepted_indices(entries: Seq<LocalEntry>) -> Seq<int>
    decreases entries.len(),
{
    if entries.len() == 0 {
        Seq::empty()
    } else {
        let front = accepted_indices(entries.drop_last());
        if entry_accepted(entries.last()) {
            front.push(entries.len() - 1)
        } else {
            front
        }
    }
}

/// Decides whether an extension names the supported image type.
pub fn extension_is_png(ext: &str) -> (r: bool)
    ensures
        r == is_png_extension(ext@),
{
    if ext.unicode_len() != 3 {
        return false;
    }
    let c0 = ext.get_char(0);
    let c1 = ext.get_char(1);
    let c2 = ext.get_char(2);
    (c0 == 'p' || c0 == 'P') && (c1 == 'n' || c1 == 'N') && (c2 == 'g' || c2 == 'G')
}

proof fn lemma_accepted_count_take_step(entries: Seq<LocalEntry>, i: int)
    requires
        0 <= i < entries.len(),
    ensures
        accepted_count(entries.take(i + 1)) == accepted_count(entries.take(i)) + if entry_accepted(
            entries[i],
        ) {
            1nat
        } else {
            0nat
        },
{
    assert(entries.take(i + 1).drop_last() =~= entries.take(i));
    assert(entries.take(i + 1).last() == entries[i]);
}

proof fn lemma_accepted_count_take_le(entries: Seq<LocalEntry>, i: int)
    requires
        0 <= i <= entries.len(),
    ensures
        accepted_count(entries.take(i)) <= accepted_count(entries),
    decreases entries.len() - i,
{
    if i == entries.len() {
        assert(entries.take(i) =~= entries);
    } else {
        lemma_accepted_count_take_step(entries, i);
        lemma_accepted_count_take_le(entries, i + 1);
    }
}

proof fn lemma_scan_len(entries: Seq<LocalEntry>, start: nat)
    ensures
        scan_records(entries, start).len() == accepted_count(entries),
        accepted_indices(entries).len() == accepted_count(entries),
    decreases entries.len(),
{
    if entries.len() > 0 {
        lemma_scan_len(entries.drop_last(), start);
    }
}

proof fn lemma_scan_take_step(entries: Seq<LocalEntry>, start: nat, i: int)
    requires
        0 <= i < entries.len(),
    ensures
        scan_records(entries.take(i + 1), start) == if entry_accepted(entries[i]) {
            scan_records(entries.take(i), start).push(
                local_record(entries[i], start + accepted_count(entries.take(i))),
            )
        } else {
            scan_records(entries.take(i), start)
        },
        accepted_indices(entries.take(i + 1)) == if entry_accepted(entries[i]) {
            accepted_indices(entries.take(i)).push(i)
        } else {
            accepted_indices(entries.take(i))
        },
{
    assert(entries.take(i + 1).drop_last() =~= entries.take(i));
    assert(entries.take(i + 1).last() == entries[i]);
}

/// One emote found by the scan: the position of the directory entry it came
/// from — whose file the caller copies to the staged name of the record's
/// identifier — and the record itself.
pub struct ScannedEmote {
    pub entry_index: usize,
    pub record: EmoteRecord,
}

/// Walks a directory listing in enumeration order, accepts every entry with
/// a supported image extension, and assigns each accepted entry the next
/// identifier from the run's sequencer.
pub fn scan_custom_emotes(entries: &Vec<LocalEntry>, counter: &mut CodepointSequencer) -> (out:
    Vec<ScannedEmote>)
    requires
        old(counter).current() + accepted_count(entries@) <= u32::MAX,
    ensures
        out@.len() == accepted_count(entries@),
        forall|k: int|
            0 <= k < out@.len() ==> (#[trigger] out@[k]).record == scan_records(
                entries@,
                old(counter).current(),
            )[k],
        forall|k: int|
            0 <= k < out@.len() ==> (#[trigger] out@[k]).entry_index as int == accepted_indices(
                entries@,
            )[k],
        final(counter).current() == old(counter).current() + accepted_count(entries@),
{
    let ghost start: nat = counter.current();
    let mut out: Vec<ScannedEmote> = Vec::new();
    let n = entries.len();
    let mut i: usize = 0;
    while i < n
        invariant
            0 <= i <= n,
            n == entries@.len(),
            start + accepted_count(entries@) <= u32::MAX,
            counter.current() == start + accepted_count(entries@.take(i as int)),
            out@.len() == accepted_count(entries@.take(i as int)),
            forall|k: int|
                0 <= k < out@.len() ==> (#[trigger] out@[k]).record == scan_records(
                    entries@.take(i as int),
                    start,
                )[k],
            forall|k: int|
                0 <= k < out@.len() ==> (#[trigger] out@[k]).entry_index as int == accepted_indices(
                    entries@.take(i as int),
                )[k],
        decreases n - i,
    {
        proof {
            lemma_accepted_count_take_le(entries@, i + 1);
            lemma_accepted_count_take_step(entries@, i as int);
            lemma_scan_take_step(entries@, start, i as int);
            lemma_scan_len(entries@.take(i as int), start);
        }
        let ghost prev_records = scan_records(entries@.take(i as int), start);
        let ghost prev_indices = accepted_indices(entries@.take(i as int));
        let e = &entries[i];
        let mut accept = false;
        if let Some(ext) = &e.extension {
            if e.stem.is_some() {
                accept = extension_is_png(ext.as_str());
            }
        }
        if accept {
            let name = match &e.stem {
                Some(s) => s.clone(),
                None => {
                    proof {
                        assert(false);
                    }
                    String::new()
                },
            };
            let id = counter.next();
            let rec = EmoteRecord {
                name,
                identifier: id,
                origin: EmoteOrigin::Local,
                remote_asset_id: None,
            };
            proof {
                assert(rec == local_record(
                    entries@[i as int],
                    start + accepted_count(entries@.take(i as int)),
                ));
            }
            let ghost prev_out = out@;
            out.push(ScannedEmote { entry_index: i, record: rec });
            proof {
                assert(scan_records(entries@.take(i as int + 1), start) == prev_records.push(
                    local_record(entries@[i as int], start + accepted_count(
                        entries@.take(i as int),
                    )),
                ));
                assert(accepted_indices(entries@.take(i as int + 1)) == prev_indices.push(
                    i as int,
                ));
                assert forall|k: int| 0 <= k < out@.len() implies (#[trigger] out@[k]).record
                    == scan_records(entries@.take(i as int + 1), start)[k] by {
                    if k < prev_out.len() {
                        assert(out@[k] == prev_out[k]);
                        assert(scan_records(entries@.take(i as int + 1), start)[k]
                            == prev_records[k]);
                    } else {
                        assert(out@[k] == ScannedEmote { entry_index: i, record: rec });
                        assert(scan_records(entries@.take(i as int + 1), start)[k] == local_record(
                            entries@[i as int],
                            start + accepted_count(entries@.take(i as int)),
                        ));
                    }
                }
                assert forall|k: int| 0 <= k < out@.len() implies (#[trigger] out@[k]).entry_index
                    as int == accepted_indices(entries@.take(i as int + 1))[k] by {
                    if k < prev_out.len() {
                        assert(out@[k] == prev_out[k]);
                        assert(accepted_indices(entries@.take(i as int + 1))[k] == prev_indices[k]);
                    } else {
                        assert(out@[k] == ScannedEmote { entry_index: i, record: rec });
                        assert(accepted_indices(entries@.take(i as int + 1))[k] == i as int);
                    }
                }
            }
        } else {
            proof {
                assert(!entry_accepted(entries@[i as int]));
            }
        }
        i = i + 1;
    }
    proof {
        assert(entries@.take(n as int) =~= entries@);
    }
    out
}

/// Law: the scanned records are numbered consecutively from the sequencer's
/// starting value, every one is of local origin with no remote asset, and
/// there are exactly as many as accepted entries.
pub proof fn lemma_scan_records_facts(entries: Seq<LocalEntry>, start: nat)
    requires
        start + accepted_count(entries) <= u32::MAX,
    ensures
        scan_records(entries, start).len() == accepted_count(entries),
        crate::records::sequential_from(scan_records(entries, start), start),
        forall|k: int|
            0 <= k < scan_records(entries, start).len() ==> (#[trigger] scan_records(
                entries,
                start,
            )[k]).origin == EmoteOrigin::Local,
        forall|k: int|
            0 <= k < scan_records(entries, start).len() ==> (#[trigger] scan_records(
                entries,
                start,
            )[k]).wf(),
    decreases entries.len(),
{
    if entries.len() > 0 {
        lemma_scan_records_facts(entries.drop_last(), start);
    }
}

} // verus!
