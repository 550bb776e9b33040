//! The catalogue's record type and the run's error taxonomy.

use vstd::prelude::*;

verus! {

/// Which source an emote was drawn from.
#[derive(Clone, Copy, Debug, PartialEq, Eq, Structural)]
pub enum EmoteOrigin {
    /// A user-supplied image file from the local directory.
    Local,
    /// A globally available emote of the remote platform.
    GlobalRemote,
    /// An emote belonging to one configured channel of the remote platform.
    ChannelRemote,
}

/// One emote of the final catalogue: a display name, the assigned codepoint
/// identifier, the source it came from, and — for remote emotes — the
/// platform's asset identifier used to fetch its image.
#[derive(Debug, PartialEq, Eq)]
pub struct EmoteRecord {
    pub name: String,
    pub identifier: u32,
    pub origin: EmoteOrigin,
    pub remote_asset_id: Option<String>,
}

impl EmoteRecord {
    /// A record carries a remote asset identifier exactly when it did not
    /// come from the local directory.
    pub open spec fn wf(self) -> bool {
        self.origin == EmoteOrigin::Local <==> self.remote_asset_id is None
    }
}

/// Identifiers run consecutively upward from `start` along the sequence.
pub open spec fn sequential_from(rs: Seq<EmoteRecord>, start: nat) -> bool {
    forall|i: int| 0 <= i < rs.len() ==> (#[trigger] rs[i]).identifier as nat == start + i
}

/// Law: in a consecutively numbered catalogue the identifiers strictly
/// increase along the assignment order, and no two records share one.
pub proof fn lemma_identifiers_unique_and_increasing(rs: Seq<EmoteRecord>, start: nat)
    requires
        sequential_from(rs, start),
    ensures
        forall|i: int, j: int|
            0 <= i < j < rs.len() ==> (#[trigger] rs[i]).identifier < (#[trigger] rs[j]).identifier,
        forall|i: int, j: int|
            0 <= i < rs.len() && 0 <= j < rs.len() && i != j ==> (#[trigger] rs[i]).identifier != (
            #[trigger] rs[j]).identifier,
{
}

/// Law: appending a consecutively numbered run that starts where an earlier
/// one ends yields one consecutively numbered run.
pub proof fn lemma_sequential_concat(a: Seq<EmoteRecord>, b: Seq<EmoteRecord>, start: nat)
    requires
        sequential_from(a, start),
        sequential_from(b, start + a.len()),
    ensures
        sequential_from(a + b, start),
{
    assert forall|i: int| 0 <= i < (a + b).len() implies (#[trigger] (a + b)[i]).identifier as nat
        == start + i by {
        if i < a.len() {
            assert((a + b)[i] == a[i]);
        } else {
            assert((a + b)[i] == b[i - a.len()]);
        }
    }
}

/// Everything that can abort a run. Every kind is fatal for the whole run.
#[derive(Debug, PartialEq, Eq)]
pub enum RunError {
    /// The configuration document is missing, unreadable or malformed.
    Config { detail: String },
    /// A directory, copy or write operation failed.
    Io { detail: String },
    /// The credential could not be exchanged for a session token.
    Auth { detail: String },
    /// A configured channel does not exist on the remote platform.
    ChannelNotFound { channel: String },
    /// An asset could not be retrieved over the network.
    NetworkFetch { detail: String },
}

} // verus!
