//! How the client shares out its work: the torrents and the peers between its threads, and
//! what it does once a conversation with a peer has ended.

use vstd::prelude::*;
use super::peer_session::{InteractionHandlerError, InteractionHandlerErrorKind, InteractionHandlerStatus};

verus! {

/// What the client does once a conversation with a peer has ended.
#[derive(PartialEq, Eq, Debug)]
pub enum FollowUp {
    /// The conversations of this thread stop; where `remove_pieces`, the stored pieces are
    /// removed first.
    Stop { remove_pieces: bool },
    /// The download is complete: the pieces are assembled and every conversation stops.
    AssembleAndStop,
    /// The client goes on with another peer; where `reset_requests`, the pieces asked for are
    /// no longer counted as asked for; where `keep_peer`, the peer is tried again later.
    Continue { reset_requests: bool, keep_peer: bool },
    /// The download fails with the error: the pieces are removed and every conversation stops.
    Fail(InteractionHandlerError),
}

/// What follows the end of a conversation: a local shutdown removes the pieces, a global one
/// keeps them; a finished download is assembled; a peer with nothing more to trade is tried
/// again later, and one that failed recoverably is dropped, the requests being forgotten in
/// both cases, but for a peer that connected to the client and merely has nothing more to
/// trade; an unrecoverable error fails the download.
pub open spec fn spec_follow_up(
    result: Result<InteractionHandlerStatus, InteractionHandlerErrorKind>,
    as_server: bool,
) -> FollowUp {
    match result {
        Ok(InteractionHandlerStatus::SecureLocalShutDown) => FollowUp::Stop { remove_pieces: true },
        Ok(InteractionHandlerStatus::SecureGlobalShutDown) => FollowUp::Stop { remove_pieces: false },
        Ok(InteractionHandlerStatus::FinishInteraction) => FollowUp::AssembleAndStop,
        Ok(InteractionHandlerStatus::LookForAnotherPeer) => FollowUp::Continue { reset_requests: !as_server, keep_peer: true },
        Err(InteractionHandlerErrorKind::Recoverable(_)) => FollowUp::Continue { reset_requests: true, keep_peer: false },
        Err(InteractionHandlerErrorKind::Unrecoverable(e)) => FollowUp::Fail(e),
    }
}

/// What follows the end of a conversation; see [`spec_follow_up`].
pub fn follow_up(result: Result<InteractionHandlerStatus, InteractionHandlerErrorKind>, as_server: bool) -> (res: FollowUp)
    ensures
        res == spec_follow_up(result, as_server),
{
    match result {
        Ok(InteractionHandlerStatus::SecureLocalShutDown) => FollowUp::Stop { remove_pieces: true },
        Ok(InteractionHandlerStatus::SecureGlobalShutDown) => FollowUp::Stop { remove_pieces: false },
        Ok(InteractionHandlerStatus::FinishInteraction) => FollowUp::AssembleAndStop,
        Ok(InteractionHandlerStatus::LookForAnotherPeer) => FollowUp::Continue { reset_requests: !as_server, keep_peer: true },
        Err(InteractionHandlerErrorKind::Recoverable(_)) => FollowUp::Continue { reset_requests: true, keep_peer: false },
        Err(InteractionHandlerErrorKind::Unrecoverable(e)) => FollowUp::Fail(e),
    }
}

/// Moves past the peer at the front of the list: it goes to the back where `keep_peer`, and
/// leaves the list otherwise.
pub fn next_peers(peers: &mut Vec<usize>, keep_peer: bool)
    requires
        old(peers)@.len() > 0,
    ensures
        keep_peer ==> final(peers)@ == old(peers)@.drop_first().push(old(peers)@[0]),
        !keep_peer ==> final(peers)@ == old(peers)@.drop_first(),
{
    let first = peers.remove(0);
    proof {
        assert(old(peers)@.remove(0) =~= old(peers)@.drop_first());
    }
    if keep_peer {
        peers.push(first);
    }
}

/// The items at even positions and those at odd positions.
pub open spec fn spec_alternate<T>(items: Seq<T>) -> (Seq<T>, Seq<T>) {
    (
        Seq::new((items.len() + 1) / 2, |i: int| items[2 * i]),
        Seq::new(items.len() / 2, |i: int| items[2 * i + 1]),
    )
}

/// The indexes of the tracker's peers shared between two threads: the even ones and the odd
/// ones.
pub fn generate_list_of_connected_peers(total_amount_peers: usize) -> (res: (Vec<usize>, Vec<usize>))
    ensures
        res.0@ == spec_alternate(Seq::new(total_amount_peers as nat, |i: int| i as usize)).0,
        res.1@ == spec_alternate(Seq::new(total_amount_peers as nat, |i: int| i as usize)).1,
{
    let ghost all = Seq::new(total_amount_peers as nat, |i: int| i as usize);
    let mut first: Vec<usize> = Vec::new();
    let mut second: Vec<usize> = Vec::new();
    let mut i: usize = 0;
    while i < total_amount_peers
        invariant
            0 <= i <= total_amount_peers,
            all == Seq::new(total_amount_peers as nat, |k: int| k as usize),
            first@ == spec_alternate(all.take(i as int)).0,
            second@ == spec_alternate(all.take(i as int)).1,
        decreases total_amount_peers - i,
    {
        let ghost next = all.take(i + 1);
        if i % 2 == 0 {
            first.push(i);
            assert(first@ =~= spec_alternate(next).0);
            assert(second@ =~= spec_alternate(next).1);
        } else {
            second.push(i);
            assert(first@ =~= spec_alternate(next).0);
            assert(second@ =~= spec_alternate(next).1);
        }
        i = i + 1;
    }
    assert(all.take(i as int) =~= all);
    (first, second)
}

/// The files shared between two threads: those at even positions and those at odd ones.
pub fn generate_file_lists(files: Vec<String>) -> (res: (Vec<String>, Vec<String>))
    ensures
        res.0@ == spec_alternate(files@).0,
        res.1@ == spec_alternate(files@).1,
{
    let mut first: Vec<String> = Vec::new();
    let mut second: Vec<String> = Vec::new();
    let mut i: usize = 0;
    while i < files.len()
        invariant
            0 <= i <= files@.len(),
            first@ == spec_alternate(files@.take(i as int)).0,
            second@ == spec_alternate(files@.take(i as int)).1,
        decreases files@.len() - i,
    {
        let ghost next = files@.take(i + 1);
        let file = files[i].clone();
        if i % 2 == 0 {
            first.push(file);
            assert(first@ =~= spec_alternate(next).0);
            assert(second@ =~= spec_alternate(next).1);
        } else {
            second.push(file);
            assert(first@ =~= spec_alternate(next).0);
            assert(second@ =~= spec_alternate(next).1);
        }
        i = i + 1;
    }
    assert(files@.take(i as int) =~= files@);
    (first, second)
}

} // verus!
