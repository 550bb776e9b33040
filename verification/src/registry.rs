//! The final catalogue and its two derived views: the name-to-identifier
//! mapping text, and the staged file names the font compiler consumes.

use crate::naming::{
    hex_chars, hex_digit_char, hex_string, hex_val, is_hex_digit, lemma_hex_round_trip,
    staged_file_name, staged_name_chars,
};
use crate::records::{
    lemma_identifiers_unique_and_increasing, lemma_sequential_concat, sequential_from, EmoteOrigin,
    EmoteRecord,
};
use crate::remote::{
    channel_emote_count, global_len, lemma_remote_records_facts, remote_records, ChannelFetch,
    RemoteEmote,
};
use crate::scan::{
    accepted_count, lemma_scan_records_facts, scan_records, LocalEntry, ScannedEmote,
};
use vstd::prelude::*;
use vstd::string::StringExecFns;

verus! {

/// The final ordered catalogue: local records first, then — where the remote
/// stage ran — the remote records.
pub open spec fn catalogue_records(
    custom: Seq<EmoteRecord>,
    remote: Option<Vec<EmoteRecord>>,
) -> Seq<EmoteRecord> {
    custom + match remote {
        Some(v) => v@,
        None => Seq::empty(),
    }
}

/// Strips the scan's entry positions, keeping the records in scan order.
pub fn scanned_records(scanned: Vec<ScannedEmote>) -> (r: Vec<EmoteRecord>)
    ensures
        r@.len() == scanned@.len(),
        forall|k: int| 0 <= k < scanned@.len() ==> (#[trigger] r@[k]) == scanned@[k].record,
{
    let ghost orig = scanned@;
    let mut rest = scanned;
    let mut out: Vec<EmoteRecord> = Vec::new();
    while rest.len() > 0
        invariant
            out@.len() + rest@.len() == orig.len(),
            rest@ == orig.subrange(out@.len() as int, orig.len() as int),
            forall|k: int| 0 <= k < out@.len() ==> (#[trigger] out@[k]) == orig[k].record,
        decreases rest@.len(),
    {
        let ghost prev_out = out@;
        let s = rest.remove(0);
        proof {
            assert(s == orig[prev_out.len() as int]);
        }
        out.push(s.record);
        proof {
            assert(rest@ =~= orig.subrange(out@.len() as int, orig.len() as int));
            assert forall|k: int| 0 <= k < out@.len() implies (#[trigger] out@[k])
                == orig[k].record by {
                if k < prev_out.len() {
                    assert(out@[k] == prev_out[k]);
                }
            }
        }
    }
    out
}

/// Concatenates the local records with the remote ones. Absent a credential
/// the remote stage never ran: the catalogue is then the local records alone.
pub fn build_catalogue(custom: Vec<EmoteRecord>, remote: Option<Vec<EmoteRecord>>) -> (r: Vec<
    EmoteRecord,
>)
    ensures
        r@ == catalogue_records(custom@, remote),
        remote is None ==> r@ == custom@,
{
    let ghost gcustom = custom@;
    let mut out = custom;
    match remote {
        Some(mut v) => {
            out.append(&mut v);
        },
        None => {
            proof {
                assert(gcustom + Seq::<EmoteRecord>::empty() =~= gcustom);
            }
        },
    }
    out
}

/// One mapping line: the record's name, a comma, the identifier in lowercase
/// hexadecimal, and a line break.
pub open spec fn mapping_line_chars(r: EmoteRecord) -> Seq<char> {
    r.name@ + seq![','] + hex_chars(r.identifier as nat) + seq!['\n']
}

/// The whole mapping text: one line per record, in catalogue order.
pub open spec fn mapping_chars(rs: Seq<EmoteRecord>) -> Seq<char>
    decreases rs.len(),
{
    if rs.len() == 0 {
        Seq::empty()
    } else {
        mapping_chars(rs.drop_last()) + mapping_line_chars(rs.last())
    }
}

/// Renders the mapping text for a catalogue.
#[verifier::loop_isolation(false)]
pub fn mapping_text(records: &Vec<EmoteRecord>) -> (r: String)
    ensures
        r@ == mapping_chars(records@),
{
    let mut out = String::new();
    let n = records.len();
    let mut i: usize = 0;
    while i < n
        invariant
            i <= n,
            out@ == mapping_chars(records@.take(i as int)),
        decreases n - i,
    {
        out.append(records[i].name.as_str());
        out.append(",");
        let h = hex_string(records[i].identifier);
        out.append(h.as_str());
        out.append("\n");
        proof {
            reveal_strlit(",");
            reveal_strlit("\n");
            assert(","@ =~= seq![',']);
            assert("\n"@ =~= seq!['\n']);
            assert(records@.take(i as int + 1).drop_last() =~= records@.take(i as int));
            assert(records@.take(i as int + 1).last() == records@[i as int]);
            assert(out@ =~= mapping_chars(records@.take(i as int + 1)));
        }
        i = i + 1;
    }
    proof {
        assert(records@.take(n as int) =~= records@);
    }
    out
}

/// The staged file name of every record, in catalogue order: the manifest
/// handed to the font compiler pairs each record with this name.
#[verifier::loop_isolation(false)]
pub fn staged_names(records: &Vec<EmoteRecord>) -> (r: Vec<String>)
    ensures
        r@.len() == records@.len(),
        forall|i: int|
            0 <= i < records@.len() ==> (#[trigger] r@[i])@ == staged_name_chars(
                records@[i].identifier as nat,
            ),
{
    let n = records.len();
    let mut out: Vec<String> = Vec::new();
    let mut i: usize = 0;
    while i < n
        invariant
            i <= n,
            out@.len() == i,
            forall|k: int|
                0 <= k < i ==> (#[trigger] out@[k])@ == staged_name_chars(
                    records@[k].identifier as nat,
                ),
        decreases n - i,
    {
        let ghost prev_out = out@;
        out.push(staged_file_name(records[i].identifier));
        proof {
            assert forall|k: int| 0 <= k < out@.len() implies (#[trigger] out@[k])@
                == staged_name_chars(records@[k].identifier as nat) by {
                if k < prev_out.len() {
                    assert(out@[k] == prev_out[k]);
                }
            }
        }
        i = i + 1;
    }
    out
}

/// How often a character occurs in a sequence.
pub open spec fn count_char(s: Seq<char>, c: char) -> nat
    decreases s.len(),
{
    if s.len() == 0 {
        0
    } else {
        count_char(s.drop_last(), c) + if s.last() == c {
            1nat
        } else {
            0nat
        }
    }
}

proof fn lemma_count_char_concat(a: Seq<char>, b: Seq<char>, c: char)
    ensures
        count_char(a + b, c) == count_char(a, c) + count_char(b, c),
    decreases b.len(),
{
    if b.len() == 0 {
        assert(a + b =~= a);
    } else {
        lemma_count_char_concat(a, b.drop_last(), c);
        assert((a + b).drop_last() =~= a + b.drop_last());
        assert((a + b).last() == b.last());
    }
}

proof fn lemma_count_char_single(x: char, c: char)
    ensures
        count_char(seq![x], c) == if x == c {
            1nat
        } else {
            0nat
        },
{
    assert(seq![x].drop_last() =~= Seq::<char>::empty());
    assert(count_char(Seq::<char>::empty(), c) == 0);
    assert(seq![x].last() == x);
}

proof fn lemma_hex_chars_count(n: nat, c: char)
    requires
        !is_hex_digit(c),
    ensures
        count_char(hex_chars(n), c) == 0,
    decreases n,
{
    if n < 16 {
        assert(hex_chars(n) =~= seq![hex_digit_char(n)]);
        lemma_count_char_single(hex_digit_char(n), c);
    } else {
        lemma_hex_chars_count(n / 16, c);
        assert(hex_chars(n) =~= hex_chars(n / 16) + seq![hex_digit_char(n % 16)]);
        lemma_count_char_concat(hex_chars(n / 16), seq![hex_digit_char(n % 16)], c);
        lemma_count_char_single(hex_digit_char(n % 16), c);
    }
}

/// Law: the mapping text contains exactly one line break per catalogue
/// record — one line per record — for every catalogue whose record names
/// contain no line break.
pub proof fn lemma_mapping_one_line_per_record(rs: Seq<EmoteRecord>)
    requires
        forall|i: int| 0 <= i < rs.len() ==> count_char((#[trigger] rs[i]).name@, '\n') == 0,
    ensures
        count_char(mapping_chars(rs), '\n') == rs.len(),
    decreases rs.len(),
{
    if rs.len() > 0 {
        assert forall|i: int| 0 <= i < rs.drop_last().len() implies count_char(
            (#[trigger] rs.drop_last()[i]).name@,
            '\n',
        ) == 0 by {
            assert(rs.drop_last()[i] == rs[i]);
        }
        lemma_mapping_one_line_per_record(rs.drop_last());
        let r = rs.last();
        assert(rs[rs.len() - 1] == r);
        lemma_count_char_concat(
            r.name@ + seq![','] + hex_chars(r.identifier as nat),
            seq!['\n'],
            '\n',
        );
        lemma_count_char_concat(r.name@ + seq![','], hex_chars(r.identifier as nat), '\n');
        lemma_count_char_concat(r.name@, seq![','], '\n');
        lemma_count_char_single(',', '\n');
        lemma_count_char_single('\n', '\n');
        lemma_hex_chars_count(r.identifier as nat, '\n');
        lemma_count_char_concat(mapping_chars(rs.drop_last()), mapping_line_chars(r), '\n');
    }
}

/// The position of the first comma in a sequence.
pub open spec fn comma_index(s: Seq<char>) -> int
    decreases s.len(),
{
    if s.len() == 0 {
        0
    } else if s[0] == ',' {
        0
    } else {
        1 + comma_index(s.drop_first())
    }
}

/// The name a mapping line records: everything before the first comma.
pub open spec fn parsed_name(line: Seq<char>) -> Seq<char> {
    line.take(comma_index(line))
}

/// The identifier a mapping line records: the hexadecimal digits between the
/// first comma and the final line break.
pub open spec fn parsed_identifier(line: Seq<char>) -> nat {
    hex_val(line.subrange(comma_index(line) + 1, line.len() - 1))
}

proof fn lemma_count_zero_no_occurrence(s: Seq<char>, c: char)
    requires
        count_char(s, c) == 0,
    ensures
        forall|i: int| 0 <= i < s.len() ==> s[i] != c,
    decreases s.len(),
{
    if s.len() > 0 {
        lemma_count_zero_no_occurrence(s.drop_last(), c);
        assert forall|i: int| 0 <= i < s.len() implies s[i] != c by {
            if i < s.len() - 1 {
                assert(s.drop_last()[i] == s[i]);
            } else {
                assert(s[i] == s.last());
            }
        }
    }
}

proof fn lemma_comma_index_concat(a: Seq<char>, b: Seq<char>)
    requires
        forall|i: int| 0 <= i < a.len() ==> a[i] != ',',
    ensures
        comma_index(a + seq![','] + b) == a.len(),
    decreases a.len(),
{
    let s = a + seq![','] + b;
    if a.len() == 0 {
        assert(s[0] == ',');
    } else {
        assert(s[0] == a[0]);
        assert(s[0] != ',');
        assert forall|i: int| 0 <= i < a.drop_first().len() implies a.drop_first()[i] != ',' by {
            assert(a.drop_first()[i] == a[i + 1]);
        }
        lemma_comma_index_concat(a.drop_first(), b);
        assert(s.drop_first() =~= a.drop_first() + seq![','] + b);
    }
}

/// Law: reading a record's mapping line back — the name before the first
/// comma, the hexadecimal identifier between the comma and the line break —
/// yields the record's own name and identifier, and hence exactly the staged
/// file name its image was written under. This holds of every record whose
/// name contains neither a comma nor a line break.
pub proof fn lemma_mapping_line_round_trip(r: EmoteRecord)
    requires
        count_char(r.name@, ',') == 0,
        count_char(r.name@, '\n') == 0,
    ensures
        parsed_name(mapping_line_chars(r)) == r.name@,
        parsed_identifier(mapping_line_chars(r)) == r.identifier as nat,
        staged_name_chars(parsed_identifier(mapping_line_chars(r))) == staged_name_chars(
            r.identifier as nat,
        ),
{
    let line = mapping_line_chars(r);
    let name = r.name@;
    let hex = hex_chars(r.identifier as nat);
    lemma_count_zero_no_occurrence(name, ',');
    assert(line =~= name + seq![','] + (hex + seq!['\n']));
    lemma_comma_index_concat(name, hex + seq!['\n']);
    assert(comma_index(line) == name.len());
    assert(parsed_name(line) =~= name);
    assert(line.subrange(comma_index(line) + 1, line.len() - 1) =~= hex);
    lemma_hex_round_trip(r.identifier as nat);
}

/// A full run's catalogue at the specification level: the records scanned
/// from the local directory starting at `start`, then the remote records
/// numbered where the scan left off.
pub open spec fn full_catalogue(
    entries: Seq<LocalEntry>,
    g: Option<Vec<RemoteEmote>>,
    chs: Seq<ChannelFetch>,
    start: nat,
) -> Seq<EmoteRecord> {
    scan_records(entries, start) + remote_records(g, chs, start + accepted_count(entries))
}

/// Law: in a full run's catalogue the identifiers run consecutively upward
/// from the configured start point, so they strictly increase along the
/// assignment order — local records first, then global, then each channel —
/// and no two records share one.
pub proof fn lemma_catalogue_identifiers(
    entries: Seq<LocalEntry>,
    g: Option<Vec<RemoteEmote>>,
    chs: Seq<ChannelFetch>,
    start: nat,
)
    requires
        start + accepted_count(entries) + global_len(g) + channel_emote_count(chs) <= u32::MAX,
    ensures
        sequential_from(full_catalogue(entries, g, chs, start), start),
        forall|i: int, j: int|
            0 <= i < j < full_catalogue(entries, g, chs, start).len() ==> (
            #[trigger] full_catalogue(entries, g, chs, start)[i]).identifier < (
            #[trigger] full_catalogue(entries, g, chs, start)[j]).identifier,
        forall|i: int, j: int|
            0 <= i < full_catalogue(entries, g, chs, start).len() && 0 <= j < full_catalogue(
                entries,
                g,
                chs,
                start,
            ).len() && i != j ==> (#[trigger] full_catalogue(entries, g, chs, start)[i]).identifier
                != (#[trigger] full_catalogue(entries, g, chs, start)[j]).identifier,
{
    lemma_scan_records_facts(entries, start);
    lemma_remote_records_facts(g, chs, start + accepted_count(entries));
    lemma_sequential_concat(
        scan_records(entries, start),
        remote_records(g, chs, start + accepted_count(entries)),
        start,
    );
    lemma_identifiers_unique_and_increasing(full_catalogue(entries, g, chs, start), start);
}

/// Law: absent a credential the remote stage is skipped entirely; the
/// catalogue is then exactly the scanned local records, and every record in
/// the resulting mapping is of local origin.
pub proof fn lemma_credential_absent_local_only(entries: Seq<LocalEntry>, start: nat)
    requires
        start + accepted_count(entries) <= u32::MAX,
    ensures
        catalogue_records(scan_records(entries, start), None) == scan_records(entries, start),
        forall|k: int|
            0 <= k < catalogue_records(scan_records(entries, start), None).len() ==> (
            #[trigger] catalogue_records(scan_records(entries, start), None)[k]).origin
                == EmoteOrigin::Local,
{
    lemma_scan_records_facts(entries, start);
    assert(catalogue_records(scan_records(entries, start), None) =~= scan_records(entries, start));
}

} // verus!
