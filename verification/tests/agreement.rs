use paxos_replication::leader_election::{
    choose_value, conclude_proposal, connection_report, count_approvals, count_promises,
    is_connected, process_ping, process_ping_request, record_agreement, record_connection,
    record_ping_answer, reset_round, respond_accept, respond_prepare, respond_prepare_request,
    store_ballot, AgreementError, DataStore, Initiator, PeerNode, PrepareResponsePayload,
    ProposalBallot, ProposalVerdict, Receiver,
};

fn ballot(id: u64, value: Option<&str>) -> ProposalBallot {
    ProposalBallot { id, value: value.map(|v| v.to_string()) }
}

fn promise(id: u64, value: Option<&str>) -> PrepareResponsePayload {
    PrepareResponsePayload { error: None, value: Some(ballot(id, value)) }
}

fn refusal(error: AgreementError) -> PrepareResponsePayload {
    PrepareResponsePayload { error: Some(error.message()), value: None }
}

#[test]
fn error_messages_are_exact() {
    assert_eq!(
        AgreementError::StaleRound.message(),
        "Proposal ID is below the last accepted round number"
    );
    assert_eq!(AgreementError::RoundMismatch.message(), "Proposal ID mismatch");
    assert_eq!(
        AgreementError::InsufficientPromises.message(),
        "Insufficient promises for proposal"
    );
    assert_eq!(AgreementError::ProposalRejected.message(), "Proposal rejected by majority");
    assert_eq!(AgreementError::SameNode.message(), "Cannot connect to the same node!");
    assert_eq!(AgreementError::AlreadyConnected.message(), "Already connected to this node!");
}

#[test]
fn stale_prepare() {
    let mut receiver = Receiver { last_round_number: 5, agreed_value: None };
    let response = respond_prepare(&mut receiver, 3);
    assert_eq!(
        response,
        PrepareResponsePayload {
            error: Some("Proposal ID is below the last accepted round number".to_string()),
            value: None,
        }
    );
    assert_eq!(receiver, Receiver { last_round_number: 5, agreed_value: None });
}

#[test]
fn prepare_of_the_promised_round_is_stale() {
    let mut receiver = Receiver { last_round_number: 5, agreed_value: Some("x".to_string()) };
    let response = respond_prepare(&mut receiver, 5);
    assert_eq!(response, refusal(AgreementError::StaleRound));
    assert_eq!(receiver, Receiver { last_round_number: 5, agreed_value: Some("x".to_string()) });
}

#[test]
fn prepare_of_a_higher_round_is_promised() {
    let mut receiver = Receiver::new();
    assert_eq!(respond_prepare(&mut receiver, 1), promise(1, None));
    assert_eq!(receiver.last_round_number, 1);
    assert_eq!(respond_prepare(&mut receiver, 7), promise(7, None));
    assert_eq!(receiver.last_round_number, 7);
    assert_eq!(respond_prepare(&mut receiver, u64::MAX), promise(u64::MAX, None));
    assert_eq!(receiver.last_round_number, u64::MAX);
    assert_eq!(respond_prepare(&mut receiver, u64::MAX), refusal(AgreementError::StaleRound));
}

#[test]
fn prepare_of_round_zero_is_always_stale() {
    let mut receiver = Receiver::new();
    assert_eq!(respond_prepare(&mut receiver, 0), refusal(AgreementError::StaleRound));
    assert_eq!(receiver, Receiver::new());
}

#[test]
fn promise_keeps_the_agreed_value_and_does_not_carry_it() {
    let mut receiver = Receiver { last_round_number: 3, agreed_value: Some("x".to_string()) };
    assert_eq!(respond_prepare(&mut receiver, 4), promise(4, None));
    assert_eq!(receiver, Receiver { last_round_number: 4, agreed_value: Some("x".to_string()) });
}

#[test]
fn accept_of_the_promised_round_is_honoured() {
    let mut receiver = Receiver::new();
    respond_prepare(&mut receiver, 2);
    let response = respond_accept(&mut receiver, &ballot(2, Some("v")));
    assert_eq!(response, promise(2, Some("v")));
    assert_eq!(receiver, Receiver { last_round_number: 2, agreed_value: Some("v".to_string()) });
    let response = respond_accept(&mut receiver, &ballot(2, None));
    assert_eq!(response, promise(2, None));
    assert_eq!(receiver, Receiver { last_round_number: 2, agreed_value: None });
}

#[test]
fn accept_of_another_round_is_refused() {
    let mut receiver = Receiver { last_round_number: 5, agreed_value: Some("old".to_string()) };
    for round in [0u64, 4, 6, u64::MAX] {
        let response = respond_accept(&mut receiver, &ballot(round, Some("new")));
        assert_eq!(
            response,
            PrepareResponsePayload { error: Some("Proposal ID mismatch".to_string()), value: None }
        );
        assert_eq!(
            receiver,
            Receiver { last_round_number: 5, agreed_value: Some("old".to_string()) }
        );
    }
}

#[test]
fn promised_receiver_accepts_no_lower_round() {
    let mut receiver = Receiver::new();
    respond_prepare(&mut receiver, 3);
    respond_prepare(&mut receiver, 9);
    assert!(respond_accept(&mut receiver, &ballot(3, Some("late"))).error.is_some());
    assert!(respond_accept(&mut receiver, &ballot(9, Some("now"))).error.is_none());
}

#[test]
fn initiator_counts_rounds_from_one() {
    let mut initiator = Initiator::new();
    assert_eq!(initiator.round_id, 0);
    assert_eq!(initiator.next_round(), 1);
    assert_eq!(initiator.next_round(), 2);
    assert_eq!(initiator.round_id, 2);
}

#[test]
fn promises_and_approvals_are_counted() {
    let responses = vec![
        promise(4, None),
        refusal(AgreementError::StaleRound),
        promise(4, Some("x")),
        PrepareResponsePayload { error: None, value: None },
        PrepareResponsePayload { error: Some("odd".to_string()), value: Some(ballot(4, None)) },
    ];
    assert_eq!(count_promises(&responses), 2);
    assert_eq!(count_approvals(&responses), 3);
    assert_eq!(count_promises(&Vec::new()), 0);
    assert_eq!(count_approvals(&Vec::new()), 0);
}

#[test]
fn preparation_needs_a_majority_of_promises() {
    let mut initiator = Initiator::new();
    initiator.next_round();
    let two = vec![promise(1, None), promise(1, None)];
    assert_eq!(
        initiator.request_preparation(3, &two, "y".to_string()),
        Ok(ballot(1, Some("y")))
    );
    assert_eq!(
        initiator.request_preparation(4, &two, "y".to_string()),
        Err(AgreementError::InsufficientPromises)
    );
    let one = vec![promise(1, None), refusal(AgreementError::StaleRound)];
    assert_eq!(
        initiator.request_preparation(3, &one, "y".to_string()),
        Err(AgreementError::InsufficientPromises)
    );
    assert_eq!(
        initiator.request_preparation(1, &one, "y".to_string()),
        Ok(ballot(1, Some("y")))
    );
    assert_eq!(
        initiator.request_preparation(0, &Vec::new(), "y".to_string()),
        Err(AgreementError::InsufficientPromises)
    );
}

#[test]
fn agreement_carry_forward() {
    let mut initiator = Initiator { round_id: 3 };
    let mut receivers = vec![Receiver::new(), Receiver::new(), Receiver::new()];
    let round = initiator.next_round();
    assert_eq!(round, 4);
    let mut responses: Vec<PrepareResponsePayload> =
        receivers.iter_mut().map(|r| respond_prepare(r, round)).collect();
    responses[0] = promise(3, Some("x"));
    let ballot = initiator.request_preparation(3, &responses, "y".to_string()).unwrap();
    assert_eq!(ballot, ProposalBallot { id: 4, value: Some("x".to_string()) });
    let accepts: Vec<PrepareResponsePayload> =
        receivers.iter_mut().map(|r| respond_accept(r, &ballot)).collect();
    assert_eq!(initiator.send_proposal(3, &accepts), Ok(()));
    for receiver in receivers.iter_mut() {
        let mut own = Initiator { round_id: 9 };
        let mut store = DataStore::new();
        record_agreement(receiver, &mut own, &mut store, &ballot);
        assert_eq!(store.get(4), Some("x".to_string()));
        assert_eq!(*receiver, Receiver::new());
        assert_eq!(own.round_id, 0);
    }
}

#[test]
fn highest_carried_round_wins() {
    let responses = vec![
        promise(2, Some("low")),
        promise(5, Some("high")),
        promise(9, None),
        promise(3, Some("mid")),
        PrepareResponsePayload { error: Some("no".to_string()), value: Some(ballot(8, Some("bad"))) },
    ];
    assert_eq!(choose_value(&responses, "own".to_string()), "high");
}

#[test]
fn last_of_equal_rounds_wins() {
    let responses = vec![promise(5, Some("first")), promise(5, Some("second")), promise(4, Some("z"))];
    assert_eq!(choose_value(&responses, "own".to_string()), "second");
}

#[test]
fn own_value_stands_when_nothing_is_carried() {
    let responses = vec![promise(5, None), promise(5, None), refusal(AgreementError::StaleRound)];
    assert_eq!(choose_value(&responses, "own".to_string()), "own");
    assert_eq!(choose_value(&Vec::new(), "own".to_string()), "own");
}

#[test]
fn proposal_needs_a_majority_of_approvals() {
    let initiator = Initiator::new();
    let responses = vec![
        promise(1, Some("v")),
        refusal(AgreementError::RoundMismatch),
        promise(1, Some("v")),
    ];
    assert_eq!(initiator.send_proposal(3, &responses), Ok(()));
    assert_eq!(initiator.send_proposal(2, &responses), Ok(()));
    assert_eq!(initiator.send_proposal(4, &responses), Err(AgreementError::ProposalRejected));
    assert_eq!(initiator.send_proposal(0, &Vec::new()), Err(AgreementError::ProposalRejected));
}

#[test]
fn learn_stores_the_value_and_resets_the_node() {
    let mut receiver = Receiver { last_round_number: 6, agreed_value: Some("v".to_string()) };
    let mut initiator = Initiator { round_id: 6 };
    let mut store = DataStore::new();
    record_agreement(&mut receiver, &mut initiator, &mut store, &ballot(6, Some("v")));
    assert_eq!(store.get(6), Some("v".to_string()));
    assert_eq!(store.get(5), None);
    assert_eq!(store.len(), 1);
    assert_eq!(receiver, Receiver { last_round_number: 0, agreed_value: None });
    assert_eq!(initiator.round_id, 0);
    record_agreement(&mut receiver, &mut initiator, &mut store, &ballot(7, None));
    assert_eq!(store.get(7), Some(String::new()));
    assert_eq!(store.len(), 2);
    record_agreement(&mut receiver, &mut initiator, &mut store, &ballot(6, Some("w")));
    assert_eq!(store.get(6), Some("w".to_string()));
    assert_eq!(store.len(), 2);
}

#[test]
fn store_and_reset_work_alone() {
    let mut store = DataStore::new();
    assert_eq!(store.len(), 0);
    store_ballot(&mut store, &ballot(1, Some("a")));
    store.insert(2, "b".to_string());
    assert_eq!(store.get(1), Some("a".to_string()));
    assert_eq!(store.get(2), Some("b".to_string()));
    let mut receiver = Receiver { last_round_number: 3, agreed_value: Some("a".to_string()) };
    let mut initiator = Initiator { round_id: 3 };
    reset_round(&mut receiver, &mut initiator);
    assert_eq!(receiver, Receiver::new());
    assert_eq!(initiator, Initiator::new());
    assert_eq!(store.len(), 2);
}

#[test]
fn ping_adds_a_new_peer() {
    let node = PeerNode::new(1, "0.0.0.0:3000".to_string());
    let mut network: Vec<PeerNode> = Vec::new();
    let answer = process_ping(&node, &mut network, 2, "0.0.0.0:3001".to_string());
    assert_eq!(answer, Ok(PeerNode { node_id: 1, address: "0.0.0.0:3000".to_string() }));
    assert_eq!(network, vec![PeerNode { node_id: 2, address: "0.0.0.0:3001".to_string() }]);
    assert!(is_connected(&network, 2));
    assert!(!is_connected(&network, 1));
}

#[test]
fn ping_from_oneself_is_refused() {
    let node = PeerNode::new(1, "0.0.0.0:3000".to_string());
    let mut network: Vec<PeerNode> = Vec::new();
    assert_eq!(
        process_ping(&node, &mut network, 1, "0.0.0.0:3000".to_string()),
        Err(AgreementError::SameNode)
    );
    assert!(network.is_empty());
}

#[test]
fn ping_from_a_connected_peer_is_refused() {
    let node = PeerNode::new(1, "0.0.0.0:3000".to_string());
    let mut network: Vec<PeerNode> = Vec::new();
    record_connection(&mut network, PeerNode::new(2, "0.0.0.0:3001".to_string()));
    record_connection(&mut network, PeerNode::new(3, "0.0.0.0:3002".to_string()));
    assert_eq!(
        process_ping(&node, &mut network, 3, "0.0.0.0:9999".to_string()),
        Err(AgreementError::AlreadyConnected)
    );
    assert_eq!(network.len(), 2);
}

#[test]
fn accepted_proposal_is_stored_and_handed_out() {
    let mut store = DataStore::new();
    let verdict = conclude_proposal(&mut store, ballot(4, Some("x")), Ok(()));
    assert_eq!(
        verdict,
        ProposalVerdict::Agreed {
            learn: ballot(4, Some("x")),
            text: "Proposal agreed by majority!".to_string(),
        }
    );
    assert_eq!(store.get(4), Some("x".to_string()));
}

#[test]
fn rejected_proposal_changes_nothing() {
    let mut store = DataStore::new();
    let verdict =
        conclude_proposal(&mut store, ballot(4, Some("x")), Err(AgreementError::ProposalRejected));
    assert_eq!(
        verdict,
        ProposalVerdict::Failed { text: "Proposal rejected by majority".to_string() }
    );
    assert_eq!(store.get(4), None);
    assert_eq!(store.len(), 0);
}

#[test]
fn connection_report_names_the_peer() {
    assert_eq!(connection_report("3001"), "Connected to peer: 3001!");
    assert_eq!(connection_report(""), "Connected to peer: !");
}

#[test]
fn full_decree_among_three_peers() {
    let mut initiator = Initiator::new();
    let mut receivers = vec![Receiver::new(), Receiver::new(), Receiver::new()];
    let round = initiator.next_round();
    let promises: Vec<PrepareResponsePayload> =
        receivers.iter_mut().take(2).map(|r| respond_prepare(r, round)).collect();
    let ballot = initiator.request_preparation(3, &promises, "leader-7".to_string()).unwrap();
    assert_eq!(ballot, ProposalBallot { id: 1, value: Some("leader-7".to_string()) });
    let accepts: Vec<PrepareResponsePayload> =
        receivers.iter_mut().map(|r| respond_accept(r, &ballot)).collect();
    assert!(accepts[0].error.is_none());
    assert!(accepts[1].error.is_none());
    assert_eq!(accepts[2], refusal(AgreementError::RoundMismatch));
    let outcome = initiator.send_proposal(3, &accepts);
    assert_eq!(outcome, Ok(()));
    let mut store = DataStore::new();
    match conclude_proposal(&mut store, ballot, outcome) {
        ProposalVerdict::Agreed { learn, .. } => {
            for receiver in receivers.iter_mut() {
                let mut peer_store = DataStore::new();
                let mut peer_initiator = Initiator::new();
                record_agreement(receiver, &mut peer_initiator, &mut peer_store, &learn);
                assert_eq!(peer_store.get(1), Some("leader-7".to_string()));
            }
        }
        other => panic!("unexpected {:?}", other),
    }
    assert_eq!(store.get(1), Some("leader-7".to_string()));
}

#[test]
fn ballots_never_name_a_round_below_the_promise() {
    let mut receiver = Receiver::new();
    for round in [3u64, 1, 3, 7, 7, 2, 100, 99, u64::MAX, 5] {
        let before = receiver.last_round_number;
        let response = respond_prepare(&mut receiver, round);
        if let Some(ballot) = &response.value {
            assert!(ballot.id >= before);
            assert_eq!(ballot.id, round);
        }
        assert_eq!(response.error.is_none(), round > before);
        assert!(receiver.last_round_number >= before);
        let echoed = respond_accept(&mut receiver, &ballot(round, Some("v")));
        if let Some(ballot) = &echoed.value {
            assert_eq!(ballot.id, receiver.last_round_number);
        }
    }
}

#[test]
fn prepare_request_reads_the_round_from_text() {
    let mut receiver = Receiver { last_round_number: 5, agreed_value: None };
    assert_eq!(
        respond_prepare_request(&mut receiver, "3"),
        Some(refusal(AgreementError::StaleRound))
    );
    assert_eq!(respond_prepare_request(&mut receiver, "6"), Some(promise(6, None)));
    assert_eq!(receiver.last_round_number, 6);
    assert_eq!(
        respond_prepare_request(&mut receiver, "18446744073709551615"),
        Some(promise(u64::MAX, None))
    );
}

#[test]
fn prepare_request_with_unreadable_round_gets_no_answer() {
    let mut receiver = Receiver { last_round_number: 5, agreed_value: Some("v".to_string()) };
    for text in ["", "six", "-1", " 7", "7 ", "18446744073709551616", "7.0"] {
        assert_eq!(respond_prepare_request(&mut receiver, text), None);
        assert_eq!(
            receiver,
            Receiver { last_round_number: 5, agreed_value: Some("v".to_string()) }
        );
    }
}

#[test]
fn ping_request_reads_the_caller_from_text() {
    let node = PeerNode::new(1, "0.0.0.0:3000".to_string());
    let mut network: Vec<PeerNode> = Vec::new();
    assert_eq!(
        process_ping_request(&node, &mut network, "2", "0.0.0.0:3001".to_string()),
        Some(Ok(PeerNode { node_id: 1, address: "0.0.0.0:3000".to_string() }))
    );
    assert_eq!(
        process_ping_request(&node, &mut network, "2", "0.0.0.0:3001".to_string()),
        Some(Err(AgreementError::AlreadyConnected))
    );
    assert_eq!(
        process_ping_request(&node, &mut network, "1", "0.0.0.0:3000".to_string()),
        Some(Err(AgreementError::SameNode))
    );
    assert_eq!(process_ping_request(&node, &mut network, "two", "0.0.0.0:3002".to_string()), None);
    assert_eq!(network, vec![PeerNode { node_id: 2, address: "0.0.0.0:3001".to_string() }]);
}

#[test]
fn ping_answer_adds_the_peer() {
    let mut network: Vec<PeerNode> = Vec::new();
    assert_eq!(record_ping_answer(&mut network, "7", "0.0.0.0:3007".to_string()), Some(7));
    assert_eq!(record_ping_answer(&mut network, "7", "0.0.0.0:3007".to_string()), Some(7));
    assert_eq!(record_ping_answer(&mut network, "x7", "0.0.0.0:3008".to_string()), None);
    assert_eq!(network.len(), 2);
    assert_eq!(network[0], PeerNode { node_id: 7, address: "0.0.0.0:3007".to_string() });
}
