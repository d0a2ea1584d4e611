use membrane_invitations::address::{ActionId, AgentKey, ContentAddress};
use membrane_invitations::error::Error;
use membrane_invitations::framing::{put_field, take_field};
use membrane_invitations::invitation::{JoinMembraneInvitation, Signal};
use membrane_invitations::recipe::CloneDnaRecipe;
use membrane_invitations::wire::{decode_signal, encode_signal};

fn signal(membrane_proof: Option<Vec<u8>>) -> Signal {
    Signal::NewInvitation {
        invitation_header_hash: ActionId::new(vec![5, 6]),
        invitation: JoinMembraneInvitation {
            clone_dna_recipe: CloneDnaRecipe {
                original_dna_hash: ContentAddress::new(vec![7, 7]),
                parameters: b"p".to_vec(),
            },
            inviter: AgentKey::new(vec![1]),
            invitee: AgentKey::new(vec![2, 2, 2]),
            membrane_proof,
        },
    }
}

fn with_proof() -> Vec<u8> {
    vec![
        0, 2, 0, 0, 0, 0, 0, 0, 0, 5, 6, 2, 0, 0, 0, 0, 0, 0, 0, 7, 7, 1, 0, 0, 0, 0, 0, 0, 0, 112,
        1, 0, 0, 0, 0, 0, 0, 0, 1, 3, 0, 0, 0, 0, 0, 0, 0, 2, 2, 2, 1, 3, 0, 0, 0, 0, 0, 0, 0, 1,
        2, 3,
    ]
}

fn without_proof() -> Vec<u8> {
    vec![
        0, 2, 0, 0, 0, 0, 0, 0, 0, 5, 6, 2, 0, 0, 0, 0, 0, 0, 0, 7, 7, 1, 0, 0, 0, 0, 0, 0, 0, 112,
        1, 0, 0, 0, 0, 0, 0, 0, 1, 3, 0, 0, 0, 0, 0, 0, 0, 2, 2, 2, 0,
    ]
}

#[test]
fn a_field_is_its_length_in_eight_bytes_and_then_its_bytes() {
    let mut out = vec![9];
    put_field(&mut out, &vec![1, 2, 3]);
    assert_eq!(out, vec![9, 3, 0, 0, 0, 0, 0, 0, 0, 1, 2, 3]);
    put_field(&mut out, &vec![]);
    assert_eq!(out, vec![9, 3, 0, 0, 0, 0, 0, 0, 0, 1, 2, 3, 0, 0, 0, 0, 0, 0, 0, 0]);
    let mut long = Vec::new();
    put_field(&mut long, &vec![7; 300]);
    assert_eq!(long.len(), 308);
    assert_eq!(&long[..8], &[44, 1, 0, 0, 0, 0, 0, 0]);
}

#[test]
fn a_field_is_taken_from_where_it_starts() {
    let input = vec![9, 3, 0, 0, 0, 0, 0, 0, 0, 1, 2, 3, 0, 0, 0, 0, 0, 0, 0, 0];
    assert_eq!(take_field(&input, 1), Some((vec![1, 2, 3], 12)));
    assert_eq!(take_field(&input, 12), Some((vec![], 20)));
    assert_eq!(take_field(&input, 20), None);
    assert_eq!(take_field(&input, 13), None);
    // a length that reaches behind the end
    assert_eq!(take_field(&vec![4, 0, 0, 0, 0, 0, 0, 0, 1, 2, 3], 0), None);
    assert_eq!(take_field(&vec![255; 8], 0), None);
    assert_eq!(take_field(&vec![0, 0, 0, 0, 0, 0, 0, 128, 1], 0), None);
}

#[test]
fn a_signal_with_a_proof_is_serialized_part_by_part() {
    assert_eq!(encode_signal(&signal(Some(vec![1, 2, 3]))), with_proof());
}

#[test]
fn a_signal_without_a_proof_ends_with_the_mark_of_absence() {
    assert_eq!(encode_signal(&signal(None)), without_proof());
}

#[test]
fn a_serialized_signal_is_read_back() {
    assert_eq!(decode_signal(&with_proof()), Ok(signal(Some(vec![1, 2, 3]))));
    assert_eq!(decode_signal(&without_proof()), Ok(signal(None)));
    for proof in [None, Some(vec![]), Some(vec![0]), Some(vec![9; 1000])] {
        let s = signal(proof);
        assert_eq!(decode_signal(&encode_signal(&s)), Ok(s));
    }
}

#[test]
fn an_empty_proof_stays_apart_from_no_proof_on_the_wire() {
    let empty = encode_signal(&signal(Some(vec![])));
    let none = encode_signal(&signal(None));
    assert_ne!(empty, none);
    assert_eq!(decode_signal(&empty), Ok(signal(Some(vec![]))));
}

#[test]
fn a_signal_of_empty_parts_is_read_back() {
    let s = Signal::NewInvitation {
        invitation_header_hash: ActionId::new(vec![]),
        invitation: JoinMembraneInvitation {
            clone_dna_recipe: CloneDnaRecipe {
                original_dna_hash: ContentAddress::new(vec![]),
                parameters: vec![],
            },
            inviter: AgentKey::new(vec![]),
            invitee: AgentKey::new(vec![]),
            membrane_proof: None,
        },
    };
    let bytes = encode_signal(&s);
    assert_eq!(bytes.len(), 1 + 5 * 8 + 1);
    assert_eq!(decode_signal(&bytes), Ok(s));
}

#[test]
fn an_empty_payload_is_refused() {
    assert_eq!(decode_signal(&vec![]), Err(Error::Decode));
}

#[test]
fn an_unknown_kind_is_refused() {
    let mut bytes = with_proof();
    bytes[0] = 1;
    assert_eq!(decode_signal(&bytes), Err(Error::Decode));
    bytes[0] = 255;
    assert_eq!(decode_signal(&bytes), Err(Error::Decode));
}

#[test]
fn every_truncation_is_refused() {
    let whole = with_proof();
    for cut in 0..whole.len() {
        assert_eq!(decode_signal(&whole[..cut].to_vec()), Err(Error::Decode), "cut at {}", cut);
    }
    let whole = without_proof();
    for cut in 0..whole.len() {
        assert_eq!(decode_signal(&whole[..cut].to_vec()), Err(Error::Decode), "cut at {}", cut);
    }
}

#[test]
fn bytes_behind_the_signal_are_refused() {
    let mut bytes = with_proof();
    bytes.push(0);
    assert_eq!(decode_signal(&bytes), Err(Error::Decode));
    let mut bytes = without_proof();
    bytes.push(0);
    assert_eq!(decode_signal(&bytes), Err(Error::Decode));
}

#[test]
fn an_unknown_mark_before_the_proof_is_refused() {
    let mut bytes = without_proof();
    let last = bytes.len() - 1;
    bytes[last] = 2;
    assert_eq!(decode_signal(&bytes), Err(Error::Decode));
}

#[test]
fn a_length_that_reaches_behind_the_payload_is_refused() {
    let mut bytes = with_proof();
    bytes[1] = 200;
    assert_eq!(decode_signal(&bytes), Err(Error::Decode));
    let mut bytes = with_proof();
    bytes[8] = 1;
    assert_eq!(decode_signal(&bytes), Err(Error::Decode));
}

#[test]
fn garbage_is_refused() {
    assert_eq!(decode_signal(&vec![0xde, 0xad, 0xbe, 0xef]), Err(Error::Decode));
    assert_eq!(decode_signal(&vec![0; 7]), Err(Error::Decode));
    assert_eq!(decode_signal(&vec![0; 41]), Err(Error::Decode));
    assert_eq!(decode_signal(&b"not a signal at all".to_vec()), Err(Error::Decode));
}

#[test]
fn forty_two_zero_bytes_are_the_signal_of_empty_parts() {
    let decoded = decode_signal(&vec![0; 42]).unwrap();
    assert_eq!(encode_signal(&decoded), vec![0; 42]);
}
