use membrane_invitations::address::{ActionId, AgentKey, ContentAddress};
use membrane_invitations::capability::{signal_grant, GrantedFunction, RECV_REMOTE_SIGNAL};
use membrane_invitations::error::Error;
use membrane_invitations::invitation::{InviteToJoinMembraneInput, JoinMembraneInvitation, Signal};
use membrane_invitations::network::{Emission, Network};
use membrane_invitations::protocol::invitation_signal;
use membrane_invitations::recipe::CloneDnaRecipe;
use membrane_invitations::wire::{decode_signal, encode_signal};
use membrane_invitations::zome::{
    create_clone_dna_recipe, get_my_invitations, init, invite_to_join_membrane,
    recv_remote_signal,
};

fn agent(n: u8) -> AgentKey {
    AgentKey::new(vec![n; 39])
}

fn recipe() -> CloneDnaRecipe {
    CloneDnaRecipe { original_dna_hash: ContentAddress::new(vec![7; 4]), parameters: b"r".to_vec() }
}

fn input(invitee: AgentKey, membrane_proof: Option<Vec<u8>>) -> InviteToJoinMembraneInput {
    InviteToJoinMembraneInput { clone_dna_recipe: recipe(), invitee, membrane_proof }
}

fn zome() -> String {
    "membrane_invitations".to_string()
}

fn receiver() -> String {
    "recv_remote_signal".to_string()
}

#[test]
fn the_receiving_operation_has_its_name() {
    assert_eq!(RECV_REMOTE_SIGNAL, "recv_remote_signal");
}

#[test]
fn the_grant_made_at_start_lists_the_receiving_operation_alone() {
    let grant = signal_grant(zome());
    assert_eq!(grant.tag, "");
    assert_eq!(grant.functions, vec![GrantedFunction { zome: zome(), function: receiver() }]);
    assert!(grant.covers(&zome(), &receiver()));
    assert!(!grant.covers(&zome(), &"get_my_invitations".to_string()));
    assert!(!grant.covers(&zome(), &"remove_invitation".to_string()));
    assert!(!grant.covers(&"other".to_string(), &receiver()));
    assert!(!grant.covers(&zome(), &String::new()));
}

#[test]
fn nothing_is_permitted_before_start() {
    let net = Network::new();
    assert!(!net.permits(&agent(1), &zome(), &receiver()));
    assert!(net.grants.is_empty());
}

#[test]
fn start_opens_the_receiving_operation_of_the_peer_that_started() {
    let mut net = Network::new();
    assert_eq!(init(&mut net, &agent(1), zome()), Ok(()));
    assert!(net.permits(&agent(1), &zome(), &receiver()));
    assert!(!net.permits(&agent(2), &zome(), &receiver()));
    assert!(!net.permits(&agent(1), &zome(), &"invite_to_join_membrane".to_string()));
    assert!(!net.permits(&agent(1), &"other".to_string(), &receiver()));
    assert_eq!(net.grants.len(), 1);
    assert_eq!(net.grants[0].grantor, agent(1));
    assert_eq!(net.grants[0].grant, signal_grant(zome()));
}

#[test]
fn starting_twice_changes_nothing() {
    let mut net = Network::new();
    init(&mut net, &agent(1), zome()).unwrap();
    init(&mut net, &agent(1), zome()).unwrap();
    assert_eq!(net.grants.len(), 1);
    init(&mut net, &agent(2), zome()).unwrap();
    assert_eq!(net.grants.len(), 2);
    assert!(net.permits(&agent(2), &zome(), &receiver()));
    init(&mut net, &agent(2), zome()).unwrap();
    init(&mut net, &agent(1), zome()).unwrap();
    assert_eq!(net.grants.len(), 2);
}

#[test]
fn start_fails_while_the_store_is_away() {
    let mut net = Network::new();
    net.dht.set_online(false);
    assert_eq!(init(&mut net, &agent(1), zome()), Err(Error::Storage));
    assert!(net.grants.is_empty());
    assert!(!net.permits(&agent(1), &zome(), &receiver()));
}

#[test]
fn the_signal_of_an_invitation_names_it_and_repeats_it() {
    let s = invitation_signal(input(agent(2), Some(vec![1])), agent(1), ActionId::new(vec![3; 8]));
    assert_eq!(
        s,
        Signal::NewInvitation {
            invitation_header_hash: ActionId::new(vec![3; 8]),
            invitation: JoinMembraneInvitation {
                clone_dna_recipe: recipe(),
                inviter: agent(1),
                invitee: agent(2),
                membrane_proof: Some(vec![1]),
            },
        }
    );
}

#[test]
fn an_invitation_sends_a_notification_off_to_the_invitee() {
    let mut net = Network::new();
    let id = invite_to_join_membrane(&mut net, &agent(1), input(agent(2), Some(vec![1, 2, 3]))).unwrap();
    assert_eq!(net.in_flight.len(), 1);
    assert_eq!(net.in_flight[0].to, agent(2));
    let expected = Signal::NewInvitation {
        invitation_header_hash: id,
        invitation: JoinMembraneInvitation {
            clone_dna_recipe: recipe(),
            inviter: agent(1),
            invitee: agent(2),
            membrane_proof: Some(vec![1, 2, 3]),
        },
    };
    assert_eq!(net.in_flight[0].payload, encode_signal(&expected));
    assert_eq!(decode_signal(&net.in_flight[0].payload), Ok(expected));
    assert!(net.emitted.is_empty());
}

#[test]
fn a_notification_that_arrives_is_passed_on_to_the_listeners() {
    let mut net = Network::new();
    init(&mut net, &agent(2), zome()).unwrap();
    let id = invite_to_join_membrane(&mut net, &agent(1), input(agent(2), None)).unwrap();
    let envelope = net.take_envelope(0).unwrap();
    assert!(net.in_flight.is_empty());
    assert!(net.permits(&envelope.to, &zome(), &receiver()));
    assert_eq!(recv_remote_signal(&mut net, &envelope.to, &envelope.payload), Ok(()));
    assert_eq!(
        net.emitted,
        vec![Emission {
            at: agent(2),
            signal: Signal::NewInvitation {
                invitation_header_hash: id,
                invitation: JoinMembraneInvitation {
                    clone_dna_recipe: recipe(),
                    inviter: agent(1),
                    invitee: agent(2),
                    membrane_proof: None,
                },
            },
        }]
    );
}

#[test]
fn garbage_is_refused_and_leaves_no_trace() {
    let (a, b) = (agent(1), agent(2));
    let mut net = Network::new();
    create_clone_dna_recipe(&mut net, &a, recipe()).unwrap();
    let id = invite_to_join_membrane(&mut net, &a, input(agent(2), None)).unwrap();
    let before = get_my_invitations(&net, &b).unwrap();
    assert_eq!(before.len(), 1);
    assert_eq!(recv_remote_signal(&mut net, &b, &vec![0xde, 0xad, 0xbe, 0xef]), Err(Error::Decode));
    assert_eq!(recv_remote_signal(&mut net, &b, &vec![]), Err(Error::Decode));
    assert!(net.emitted.is_empty());
    assert_eq!(net.in_flight.len(), 1);
    assert_eq!(net.dht.link_count(), 2);
    assert_eq!(net.dht.entry_count(), 1);
    let after = get_my_invitations(&net, &b).unwrap();
    assert_eq!(after.len(), 1);
    assert_eq!(after.get(&id.bytes), before.get(&id.bytes));
}

#[test]
fn a_lost_notification_loses_no_invitation() {
    let (a, b) = (agent(1), agent(2));
    let mut net = Network::new();
    create_clone_dna_recipe(&mut net, &a, recipe()).unwrap();
    let id = invite_to_join_membrane(&mut net, &a, input(agent(2), None)).unwrap();
    assert!(net.take_envelope(0).is_some());
    assert!(net.take_envelope(0).is_none());
    assert!(net.emitted.is_empty());
    assert!(get_my_invitations(&net, &b).unwrap().contains_key(&id.bytes));
}

#[test]
fn a_notification_records_no_invitation() {
    let (a, b) = (agent(1), agent(2));
    let mut net = Network::new();
    let forged = invitation_signal(input(agent(2), None), a, ActionId::new(vec![0; 8]));
    assert_eq!(recv_remote_signal(&mut net, &b, &encode_signal(&forged)), Ok(()));
    assert_eq!(net.emitted.len(), 1);
    assert_eq!(net.dht.link_count(), 0);
    assert!(get_my_invitations(&net, &b).unwrap().is_empty());
}

#[test]
fn notifications_are_taken_in_any_order() {
    let mut net = Network::new();
    invite_to_join_membrane(&mut net, &agent(1), input(agent(2), None)).unwrap();
    invite_to_join_membrane(&mut net, &agent(1), input(agent(3), None)).unwrap();
    invite_to_join_membrane(&mut net, &agent(1), input(agent(4), None)).unwrap();
    assert!(net.take_envelope(3).is_none());
    assert_eq!(net.take_envelope(1).unwrap().to, agent(3));
    assert_eq!(net.in_flight.len(), 2);
    assert_eq!(net.take_envelope(1).unwrap().to, agent(4));
    assert_eq!(net.take_envelope(0).unwrap().to, agent(2));
    assert!(net.in_flight.is_empty());
}

#[test]
fn notifications_are_received_even_while_the_store_is_away() {
    let mut net = Network::new();
    let s = invitation_signal(input(agent(2), None), agent(1), ActionId::new(vec![0; 8]));
    net.dht.set_online(false);
    assert_eq!(recv_remote_signal(&mut net, &agent(2), &encode_signal(&s)), Ok(()));
    assert_eq!(net.emitted.len(), 1);
    assert_eq!(net.emitted[0].signal.clone(), s);
}
