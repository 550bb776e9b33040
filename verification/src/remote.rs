//! The remote catalogue: which records the platform's global and per-channel
//! emote lists yield, in a fixed pass order — global first, then each
//! configured channel in configuration order — and which identifier each
//! takes. A configured channel the platform does not know aborts the run.

use crate::records::{lemma_sequential_concat, sequential_from, EmoteOrigin, EmoteRecord, RunError};
use crate::sequencer::CodepointSequencer;
use vstd::prelude::*;

verus! {

/// One emote as the platform's metadata lists it: the asset identifier used
/// to fetch its image, and its display name.
pub struct RemoteEmote {
    pub id: String,
    pub name: String,
}

/// What the metadata retrieval brought back for one configured channel:
/// the channel's name, and its emote list — or nothing, where the platform
/// reports no such channel.
pub struct ChannelFetch {
    pub channel: String,
    pub emotes: Option<Vec<RemoteEmote>>,
}

/// The record one remote emote yields under identifier `id`.
pub open spec fn remote_record(e: RemoteEmote, id: nat, origin: EmoteOrigin) -> EmoteRecord {
    EmoteRecord {
        name: e.name,
        identifier: id as u32,
        origin,
        remote_asset_id: Some(e.id),
    }
}

/// The records one emote list yields, numbered consecutively from `start`.
pub open spec fn listed_records(l: Seq<RemoteEmote>, start: nat, origin: EmoteOrigin) -> Seq<
    EmoteRecord,
> {
    Seq::new(l.len(), |i: int| remote_record(l[i], (start + i) as nat, origin))
}

/// How many emotes the global pass contributes.
pub open spec fn global_len(g: Option<Vec<RemoteEmote>>) -> nat {
    match g {
        Some(v) => v@.len(),
        None => 0,
    }
}

/// The records of the global pass: empty where global emotes are not
/// requested.
pub open spec fn global_records(g: Option<Vec<RemoteEmote>>, start: nat) -> Seq<EmoteRecord> {
    match g {
        Some(v) => listed_records(v@, start, EmoteOrigin::GlobalRemote),
        None => Seq::empty(),
    }
}

/// How many emotes the channel passes contribute.
pub open spec fn channel_emote_count(chs: Seq<ChannelFetch>) -> nat
    decreases chs.len(),
{
    if chs.len() == 0 {
        0
    } else {
        channel_emote_count(chs.drop_last()) + match chs.last().emotes {
            Some(v) => v@.len(),
            None => 0,
        }
    }
}

/// The records of the channel passes, channel by channel in configuration
/// order, numbered consecutively from `start`.
pub open spec fn channels_records(chs: Seq<ChannelFetch>, start: nat) -> Seq<EmoteRecord>
    decreases chs.len(),
{
    if chs.len() == 0 {
        Seq::empty()
    } else {
        channels_records(chs.drop_last(), start) + match chs.last().emotes {
            Some(v) => listed_records(
                v@,
                start + channel_emote_count(chs.drop_last()),
                EmoteOrigin::ChannelRemote,
            ),
            None => Seq::empty(),
        }
    }
}

/// Every configured channel exists on the platform.
pub open spec fn channels_all_present(chs: Seq<ChannelFetch>) -> bool {
    forall|j: int| 0 <= j < chs.len() ==> (#[trigger] chs[j]).emotes is Some
}

/// The position of the first configured channel the platform does not know.
pub open spec fn first_missing(chs: Seq<ChannelFetch>) -> int
    decreases chs.len(),
{
    if chs.len() == 0 {
        0
    } else if chs[0].emotes is None {
        0
    } else {
        1 + first_missing(chs.drop_first())
    }
}

/// All records of the remote stage: the global pass first, then the channel
/// passes, numbered consecutively from `start`.
pub open spec fn remote_records(
    g: Option<Vec<RemoteEmote>>,
    chs: Seq<ChannelFetch>,
    start: nat,
) -> Seq<EmoteRecord> {
    global_records(g, start) + channels_records(chs, start + global_len(g))
}

proof fn lemma_first_missing_at(chs: Seq<ChannelFetch>, i: int)
    requires
        0 <= i < chs.len(),
        forall|j: int| 0 <= j < i ==> (#[trigger] chs[j]).emotes is Some,
        chs[i].emotes is None,
    ensures
        first_missing(chs) == i,
    decreases i,
{
    if i > 0 {
        assert(chs[0].emotes is Some);
        assert forall|j: int| 0 <= j < i - 1 implies (#[trigger] chs.drop_first()[j]).emotes
            is Some by {
            assert(chs.drop_first()[j] == chs[j + 1]);
        }
        assert(chs.drop_first()[i - 1] == chs[i]);
        lemma_first_missing_at(chs.drop_first(), i - 1);
    }
}

proof fn lemma_channel_take_step(chs: Seq<ChannelFetch>, start: nat, i: int)
    requires
        0 <= i < chs.len(),
    ensures
        channel_emote_count(chs.take(i + 1)) == channel_emote_count(chs.take(i)) + match chs[i].emotes {
            Some(v) => v@.len(),
            None => 0nat,
        },
        channels_records(chs.take(i + 1), start) == channels_records(chs.take(i), start) + match chs[i].emotes {
            Some(v) => listed_records(
                v@,
                start + channel_emote_count(chs.take(i)),
                EmoteOrigin::ChannelRemote,
            ),
            None => Seq::<EmoteRecord>::empty(),
        },
{
    assert(chs.take(i + 1).drop_last() =~= chs.take(i));
    assert(chs.take(i + 1).last() == chs[i]);
}

proof fn lemma_channel_count_take_le(chs: Seq<ChannelFetch>, i: int)
    requires
        0 <= i <= chs.len(),
    ensures
        channel_emote_count(chs.take(i)) <= channel_emote_count(chs),
    decreases chs.len() - i,
{
    if i == chs.len() {
        assert(chs.take(i) =~= chs);
    } else {
        lemma_channel_take_step(chs, 0, i);
        lemma_channel_count_take_le(chs, i + 1);
    }
}

/// Retrieval results in hand, assigns every remote emote the next identifier
/// from the run's sequencer: the global list first, then each channel in
/// configuration order. Where some configured channel does not exist on the
/// platform, fails naming the first such channel and assigns nothing.
#[verifier::loop_isolation(false)]
pub fn assign_remote_codepoints(
    global: &Option<Vec<RemoteEmote>>,
    channels: &Vec<ChannelFetch>,
    counter: &mut CodepointSequencer,
) -> (r: Result<Vec<EmoteRecord>, RunError>)
    requires
        old(counter).current() + global_len(*global) + channel_emote_count(channels@)
            <= u32::MAX,
    ensures
        channels_all_present(channels@) ==> (r matches Ok(v) && v@ == remote_records(
            *global,
            channels@,
            old(counter).current(),
        )),
        channels_all_present(channels@) ==> final(counter).current() == old(counter).current()
            + global_len(*global) + channel_emote_count(channels@),
        !channels_all_present(channels@) ==> (r matches Err(RunError::ChannelNotFound { channel })
            && channel@ == channels@[first_missing(channels@)].channel@),
        !channels_all_present(channels@) ==> final(counter).current() == old(counter).current(),
{
    let n = channels.len();
    let mut c: usize = 0;
    while c < n
        invariant
            c <= n,
            forall|j: int| 0 <= j < c ==> (#[trigger] channels@[j]).emotes is Some,
        decreases n - c,
    {
        if channels[c].emotes.is_none() {
            proof {
                lemma_first_missing_at(channels@, c as int);
            }
            return Err(RunError::ChannelNotFound { channel: channels[c].channel.clone() });
        }
        c = c + 1;
    }
    proof {
        assert(channels_all_present(channels@));
    }
    let ghost start: nat = counter.current();
    let ghost gbase: nat = start + global_len(*global);
    let mut out: Vec<EmoteRecord> = Vec::new();
    match global {
        Some(list) => {
            let m = list.len();
            let mut k: usize = 0;
            while k < m
                invariant
                    k <= m,
                    counter.current() == start + k,
                    out@ == listed_records(list@, start, EmoteOrigin::GlobalRemote).take(k as int),
                decreases m - k,
            {
                let id = counter.next();
                let rec = EmoteRecord {
                    name: list[k].name.clone(),
                    identifier: id,
                    origin: EmoteOrigin::GlobalRemote,
                    remote_asset_id: Some(list[k].id.clone()),
                };
                proof {
                    assert(rec == remote_record(
                        list@[k as int],
                        start + k as nat,
                        EmoteOrigin::GlobalRemote,
                    ));
                }
                out.push(rec);
                proof {
                    assert(listed_records(list@, start, EmoteOrigin::GlobalRemote).take(
                        k as int + 1,
                    ) =~= listed_records(list@, start, EmoteOrigin::GlobalRemote).take(
                        k as int,
                    ).push(rec));
                }
                k = k + 1;
            }
            proof {
                assert(listed_records(list@, start, EmoteOrigin::GlobalRemote).take(m as int)
                    =~= listed_records(list@, start, EmoteOrigin::GlobalRemote));
            }
        },
        None => {},
    }
    proof {
        assert(out@ == global_records(*global, start));
    }
    let mut c: usize = 0;
    while c < n
        invariant
            c <= n,
            counter.current() == gbase + channel_emote_count(channels@.take(c as int)),
            out@ == global_records(*global, start) + channels_records(
                channels@.take(c as int),
                gbase,
            ),
        decreases n - c,
    {
        proof {
            lemma_channel_take_step(channels@, gbase, c as int);
            lemma_channel_count_take_le(channels@, c as int + 1);
        }
        let ghost before = out@;
        let ghost cbase: nat = gbase + channel_emote_count(channels@.take(c as int));
        match &channels[c].emotes {
            Some(list) => {
                let m = list.len();
                let mut k: usize = 0;
                while k < m
                    invariant
                        k <= m,
                        counter.current() == cbase + k,
                        out@ == before + listed_records(
                            list@,
                            cbase,
                            EmoteOrigin::ChannelRemote,
                        ).take(k as int),
                    decreases m - k,
                {
                    let id = counter.next();
                    let rec = EmoteRecord {
                        name: list[k].name.clone(),
                        identifier: id,
                        origin: EmoteOrigin::ChannelRemote,
                        remote_asset_id: Some(list[k].id.clone()),
                    };
                    proof {
                        assert(rec == remote_record(
                            list@[k as int],
                            cbase + k as nat,
                            EmoteOrigin::ChannelRemote,
                        ));
                    }
                    out.push(rec);
                    proof {
                        assert(before + listed_records(
                            list@,
                            cbase,
                            EmoteOrigin::ChannelRemote,
                        ).take(k as int + 1) =~= (before + listed_records(
                            list@,
                            cbase,
                            EmoteOrigin::ChannelRemote,
                        ).take(k as int)).push(rec));
                    }
                    k = k + 1;
                }
                proof {
                    assert(listed_records(list@, cbase, EmoteOrigin::ChannelRemote).take(m as int)
                        =~= listed_records(list@, cbase, EmoteOrigin::ChannelRemote));
                    assert(out@ =~= global_records(*global, start) + channels_records(
                        channels@.take(c as int + 1),
                        gbase,
                    ));
                }
            },
            None => {
                proof {
                    assert(false);
                }
            },
        }
        c = c + 1;
    }
    proof {
        assert(channels@.take(n as int) =~= channels@);
    }
    Ok(out)
}

proof fn lemma_listed_records_facts(l: Seq<RemoteEmote>, start: nat, origin: EmoteOrigin)
    requires
        start + l.len() <= u32::MAX,
    ensures
        listed_records(l, start, origin).len() == l.len(),
        sequential_from(listed_records(l, start, origin), start),
        forall|k: int|
            0 <= k < l.len() ==> (#[trigger] listed_records(l, start, origin)[k]).origin == origin,
        forall|k: int|
            0 <= k < l.len() ==> (#[trigger] listed_records(l, start, origin)[k]).remote_asset_id
                is Some,
{
}

proof fn lemma_channels_records_facts(chs: Seq<ChannelFetch>, start: nat)
    requires
        start + channel_emote_count(chs) <= u32::MAX,
    ensures
        channels_records(chs, start).len() == channel_emote_count(chs),
        sequential_from(channels_records(chs, start), start),
        forall|k: int|
            0 <= k < channels_records(chs, start).len() ==> (#[trigger] channels_records(
                chs,
                start,
            )[k]).origin == EmoteOrigin::ChannelRemote,
        forall|k: int|
            0 <= k < channels_records(chs, start).len() ==> (#[trigger] channels_records(
                chs,
                start,
            )[k]).remote_asset_id is Some,
    decreases chs.len(),
{
    if chs.len() > 0 {
        lemma_channels_records_facts(chs.drop_last(), start);
        let front = channels_records(chs.drop_last(), start);
        let fcount = channel_emote_count(chs.drop_last());
        match chs.last().emotes {
            Some(v) => {
                lemma_listed_records_facts(v@, start + fcount, EmoteOrigin::ChannelRemote);
                lemma_sequential_concat(
                    front,
                    listed_records(v@, start + fcount, EmoteOrigin::ChannelRemote),
                    start,
                );
            },
            None => {
                assert(channels_records(chs, start) =~= front);
            },
        }
    }
}

/// Law: the remote records are numbered consecutively from the sequencer's
/// starting value; every one is of remote origin, carries an asset
/// identifier, and is well formed; and there are exactly as many as the
/// platform listed.
pub proof fn lemma_remote_records_facts(
    g: Option<Vec<RemoteEmote>>,
    chs: Seq<ChannelFetch>,
    start: nat,
)
    requires
        start + global_len(g) + channel_emote_count(chs) <= u32::MAX,
    ensures
        remote_records(g, chs, start).len() == global_len(g) + channel_emote_count(chs),
        sequential_from(remote_records(g, chs, start), start),
        forall|k: int|
            0 <= k < remote_records(g, chs, start).len() ==> (#[trigger] remote_records(
                g,
                chs,
                start,
            )[k]).origin != EmoteOrigin::Local,
        forall|k: int|
            0 <= k < remote_records(g, chs, start).len() ==> (#[trigger] remote_records(
                g,
                chs,
                start,
            )[k]).wf(),
{
    let gr = global_records(g, start);
    let cr = channels_records(chs, start + global_len(g));
    match g {
        Some(v) => {
            lemma_listed_records_facts(v@, start, EmoteOrigin::GlobalRemote);
        },
        None => {},
    }
    lemma_channels_records_facts(chs, start + global_len(g));
    lemma_sequential_concat(gr, cr, start);
    assert forall|k: int| 0 <= k < remote_records(g, chs, start).len() implies (
    #[trigger] remote_records(g, chs, start)[k]).origin != EmoteOrigin::Local && remote_records(
        g,
        chs,
        start,
    )[k].wf() by {
        if k < gr.len() {
            assert(remote_records(g, chs, start)[k] == gr[k]);
        } else {
            assert(remote_records(g, chs, start)[k] == cr[k - gr.len()]);
        }
    }
}

} // verus!
