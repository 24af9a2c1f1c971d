use ferris_torrent::torrent::coordination::{
    follow_up, generate_file_lists, generate_list_of_connected_peers, next_peers, FollowUp,
};
use ferris_torrent::torrent::peer_session::{
    InteractionHandlerError, InteractionHandlerErrorKind, InteractionHandlerStatus,
};

#[test]
fn the_end_of_a_conversation_decides_what_follows() {
    assert_eq!(
        follow_up(Ok(InteractionHandlerStatus::SecureLocalShutDown), false),
        FollowUp::Stop { remove_pieces: true }
    );
    assert_eq!(
        follow_up(Ok(InteractionHandlerStatus::SecureGlobalShutDown), true),
        FollowUp::Stop { remove_pieces: false }
    );
    assert_eq!(follow_up(Ok(InteractionHandlerStatus::FinishInteraction), false), FollowUp::AssembleAndStop);
    assert_eq!(
        follow_up(Ok(InteractionHandlerStatus::LookForAnotherPeer), false),
        FollowUp::Continue { reset_requests: true, keep_peer: true }
    );
    assert_eq!(
        follow_up(Ok(InteractionHandlerStatus::LookForAnotherPeer), true),
        FollowUp::Continue { reset_requests: false, keep_peer: true }
    );
    let err = InteractionHandlerError::ReceivingMessage("timeout".to_string());
    assert_eq!(
        follow_up(Err(InteractionHandlerErrorKind::Recoverable(err.clone())), false),
        FollowUp::Continue { reset_requests: true, keep_peer: false }
    );
    assert_eq!(
        follow_up(Err(InteractionHandlerErrorKind::Unrecoverable(err.clone())), true),
        FollowUp::Fail(err)
    );
}

#[test]
fn peers_are_tried_in_turn() {
    let mut peers = vec![0, 2, 4];
    next_peers(&mut peers, true);
    assert_eq!(peers, vec![2, 4, 0]);
    next_peers(&mut peers, false);
    assert_eq!(peers, vec![4, 0]);
    next_peers(&mut peers, false);
    next_peers(&mut peers, false);
    assert!(peers.is_empty());
}

#[test]
fn work_is_shared_between_two_threads() {
    assert_eq!(generate_list_of_connected_peers(5), (vec![0, 2, 4], vec![1, 3]));
    assert_eq!(generate_list_of_connected_peers(0), (vec![], vec![]));
    let files: Vec<String> = ["a.torrent", "b.torrent", "c.torrent", "d.torrent"].iter().map(|f| f.to_string()).collect();
    assert_eq!(
        generate_file_lists(files),
        (vec!["a.torrent".to_string(), "c.torrent".to_string()], vec!["b.torrent".to_string(), "d.torrent".to_string()])
    );
}
