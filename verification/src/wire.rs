use crate::address::{ActionId, AgentKey, ContentAddress};
use crate::bytes::{lemma_len_fits, optional_bytes_view};
use crate::error::Error;
use crate::framing::{
    field, lemma_field_of_parse_field, lemma_parse_field_of_field, parse_field, put_field,
    take_field,
};
use crate::invitation::{InvitationView, JoinMembraneInvitation, Signal, SignalView};
use crate::recipe::{CloneDnaRecipe, RecipeView};
use crate::view::optional_view;
use vstd::prelude::*;

verus! {

/// The first byte of a serialized signal says which kind it is. This is
/// the byte for a new invitation.
pub const NEW_INVITATION: u8 = 0;

/// Marks an optional field that is absent.
pub const ABSENT: u8 = 0;

/// Marks an optional field that is present; the field follows.
pub const PRESENT: u8 = 1;

/// An optional byte string as it stands inside a serialized value.
pub open spec fn optional_field(bytes: Option<Seq<u8>>) -> Seq<u8> {
    match bytes {
        None => seq![ABSENT],
        Some(b) => seq![PRESENT] + field(b),
    }
}

/// Reads one optional field from the front of `input`.
pub open spec fn parse_optional_field(input: Seq<u8>) -> Option<(Option<Seq<u8>>, Seq<u8>)> {
    if input.len() == 0 {
        None
    } else if input[0] == ABSENT {
        Some((None, input.skip(1)))
    } else if input[0] == PRESENT {
        match parse_field(input.skip(1)) {
            Some((bytes, rest)) => Some((Some(bytes), rest)),
            None => None,
        }
    } else {
        None
    }
}

/// A signal as it travels between peers: the byte of its kind, then its
/// parts in a fixed order, each as a field.
pub open spec fn signal_bytes(signal: SignalView) -> Seq<u8> {
    match signal {
        SignalView::NewInvitation { invitation_header_hash, invitation } => {
            seq![NEW_INVITATION] + (field(invitation_header_hash) + (field(
                invitation.clone_dna_recipe.original_dna_hash,
            ) + (field(invitation.clone_dna_recipe.parameters) + (field(invitation.inviter) + (field(
                invitation.invitee,
            ) + optional_field(invitation.membrane_proof))))))
        },
    }
}

/// Reads a whole payload as a signal. There is none where the payload is
/// cut short, names an unknown kind, or goes on behind the signal.
pub open spec fn parse_signal(payload: Seq<u8>) -> Option<SignalView> {
    if payload.len() == 0 || payload[0] != NEW_INVITATION {
        None
    } else if let Some((invitation_header_hash, after_id)) = parse_field(payload.skip(1)) {
        if let Some((original_dna_hash, after_dna)) = parse_field(after_id) {
            if let Some((parameters, after_parameters)) = parse_field(after_dna) {
                if let Some((inviter, after_inviter)) = parse_field(after_parameters) {
                    if let Some((invitee, after_invitee)) = parse_field(after_inviter) {
                        if let Some((membrane_proof, rest)) = parse_optional_field(after_invitee) {
                            if rest.len() == 0 {
                                Some(
                                    SignalView::NewInvitation {
                                        invitation_header_hash,
                                        invitation: InvitationView {
                                            clone_dna_recipe: RecipeView {
                                                original_dna_hash,
                                                parameters,
                                            },
                                            inviter,
                                            invitee,
                                            membrane_proof,
                                        },
                                    },
                                )
                            } else {
                                None
                            }
                        } else {
                            None
                        }
                    } else {
                        None
                    }
                } else {
                    None
                }
            } else {
                None
            }
        } else {
            None
        }
    } else {
        None
    }
}

/// Whether every part of the signal is short enough for its length to be
/// written down. This holds of every signal that a program can hold.
pub open spec fn fits(signal: SignalView) -> bool {
    match signal {
        SignalView::NewInvitation { invitation_header_hash, invitation } => {
            &&& invitation_header_hash.len() <= u64::MAX
            &&& invitation.clone_dna_recipe.original_dna_hash.len() <= u64::MAX
            &&& invitation.clone_dna_recipe.parameters.len() <= u64::MAX
            &&& invitation.inviter.len() <= u64::MAX
            &&& invitation.invitee.len() <= u64::MAX
            &&& (invitation.membrane_proof matches Some(bytes) ==> bytes.len() <= u64::MAX)
        },
    }
}

proof fn lemma_parse_optional_field_of_field(bytes: Option<Seq<u8>>, rest: Seq<u8>)
    requires
        bytes matches Some(b) ==> b.len() <= u64::MAX,
    ensures
        parse_optional_field(optional_field(bytes) + rest) == Some((bytes, rest)),
{
    let input = optional_field(bytes) + rest;
    match bytes {
        Some(b) => {
            assert(input.skip(1) =~= field(b) + rest);
            lemma_parse_field_of_field(b, rest);
        },
        None => {
            assert(input.skip(1) =~= rest);
        },
    }
}

proof fn lemma_field_of_parse_optional_field(input: Seq<u8>)
    requires
        parse_optional_field(input) is Some,
    ensures
        ({
            &&& parse_optional_field(input) matches Some((bytes, rest))
            &&& input == optional_field(bytes) + rest
            &&& (bytes matches Some(b) ==> b.len() <= u64::MAX)
        }),
{
    if input[0] == ABSENT {
        assert(input =~= seq![ABSENT] + input.skip(1));
    } else {
        lemma_field_of_parse_field(input.skip(1));
        match parse_field(input.skip(1)) {
            Some((b, rest)) => {
                assert(input.skip(1) == field(b) + rest);
                assert(input[0] == PRESENT);
                assert(input =~= seq![PRESENT] + input.skip(1));
                assert(input =~= seq![PRESENT] + field(b) + rest);
                assert(seq![PRESENT] + field(b) + rest =~= optional_field(Some(b)) + rest);
            },
            None => {},
        }
    }
}

/// A signal that was serialized is read back as it was.
pub proof fn lemma_signal_round_trip(signal: SignalView)
    requires
        fits(signal),
    ensures
        parse_signal(signal_bytes(signal)) == Some(signal),
{
    match signal {
        SignalView::NewInvitation { invitation_header_hash, invitation } => {
            let tail5 = optional_field(invitation.membrane_proof);
            let tail4 = field(invitation.invitee) + tail5;
            let tail3 = field(invitation.inviter) + tail4;
            let tail2 = field(invitation.clone_dna_recipe.parameters) + tail3;
            let tail1 = field(invitation.clone_dna_recipe.original_dna_hash) + tail2;
            let tail0 = field(invitation_header_hash) + tail1;
            let payload = signal_bytes(signal);
            assert(payload.skip(1) =~= tail0);
            lemma_parse_field_of_field(invitation_header_hash, tail1);
            lemma_parse_field_of_field(invitation.clone_dna_recipe.original_dna_hash, tail2);
            lemma_parse_field_of_field(invitation.clone_dna_recipe.parameters, tail3);
            lemma_parse_field_of_field(invitation.inviter, tail4);
            lemma_parse_field_of_field(invitation.invitee, tail5);
            assert(tail5 =~= tail5 + Seq::<u8>::empty());
            lemma_parse_optional_field_of_field(invitation.membrane_proof, Seq::empty());
        },
    }
}

/// Whatever reads as a signal is the serialization of that signal, and of
/// no other.
pub proof fn lemma_parsed_signal_is_payload(payload: Seq<u8>)
    requires
        parse_signal(payload) is Some,
    ensures
        ({
            &&& parse_signal(payload) matches Some(signal)
            &&& signal_bytes(signal) == payload
            &&& fits(signal)
        }),
{
    let after_kind = payload.skip(1);
    lemma_field_of_parse_field(after_kind);
    let (invitation_header_hash, after_id) = parse_field(after_kind).unwrap();
    lemma_field_of_parse_field(after_id);
    let (original_dna_hash, after_dna) = parse_field(after_id).unwrap();
    lemma_field_of_parse_field(after_dna);
    let (parameters, after_parameters) = parse_field(after_dna).unwrap();
    lemma_field_of_parse_field(after_parameters);
    let (inviter, after_inviter) = parse_field(after_parameters).unwrap();
    lemma_field_of_parse_field(after_inviter);
    let (invitee, after_invitee) = parse_field(after_inviter).unwrap();
    lemma_field_of_parse_optional_field(after_invitee);
    let (membrane_proof, rest) = parse_optional_field(after_invitee).unwrap();
    assert(rest =~= Seq::<u8>::empty());
    assert(after_invitee =~= optional_field(membrane_proof));
    assert(payload =~= seq![NEW_INVITATION] + after_kind);
}

/// Two signals with the same serialization are the same signal.
pub proof fn lemma_signal_bytes_injective(a: SignalView, b: SignalView)
    requires
        fits(a),
        fits(b),
        signal_bytes(a) == signal_bytes(b),
    ensures
        a == b,
{
    lemma_signal_round_trip(a);
    lemma_signal_round_trip(b);
}

/// A payload that does not read as a signal is the serialization of none.
pub proof fn lemma_unparsed_is_no_signal(payload: Seq<u8>, signal: SignalView)
    requires
        parse_signal(payload) is None,
        payload.len() <= u64::MAX,
    ensures
        signal_bytes(signal) != payload,
{
    if signal_bytes(signal) == payload {
        lemma_parts_are_within(signal);
        lemma_signal_round_trip(signal);
    }
}

/// No part of a signal is longer than its serialization.
proof fn lemma_parts_are_within(signal: SignalView)
    ensures
        signal_bytes(signal).len() <= u64::MAX ==> fits(signal),
{
}

/// Appends an optional byte string to `out`.
fn put_optional_field(out: &mut Vec<u8>, bytes: &Option<Vec<u8>>)
    ensures
        final(out)@ == old(out)@ + optional_field(optional_bytes_view(*bytes)),
{
    match bytes {
        Some(b) => {
            out.push(PRESENT);
            put_field(out, b);
            assert(out@ =~= old(out)@ + (seq![PRESENT] + field(b@)));
        },
        None => {
            out.push(ABSENT);
            assert(out@ =~= old(out)@ + seq![ABSENT]);
        },
    }
}

/// Serializes a signal for the journey to another peer.
pub fn encode_signal(signal: &Signal) -> (payload: Vec<u8>)
    ensures
        payload@ == signal_bytes(signal@),
        fits(signal@),
{
    let mut payload: Vec<u8> = Vec::new();
    match signal {
        Signal::NewInvitation { invitation_header_hash, invitation } => {
            payload.push(NEW_INVITATION);
            put_field(&mut payload, &invitation_header_hash.bytes);
            put_field(&mut payload, &invitation.clone_dna_recipe.original_dna_hash.bytes);
            put_field(&mut payload, &invitation.clone_dna_recipe.parameters);
            put_field(&mut payload, &invitation.inviter.bytes);
            put_field(&mut payload, &invitation.invitee.bytes);
            put_optional_field(&mut payload, &invitation.membrane_proof);
            assert(payload@ =~= signal_bytes(signal@));
            proof {
                lemma_len_fits(&invitation_header_hash.bytes);
                lemma_len_fits(&invitation.clone_dna_recipe.original_dna_hash.bytes);
                lemma_len_fits(&invitation.clone_dna_recipe.parameters);
                lemma_len_fits(&invitation.inviter.bytes);
                lemma_len_fits(&invitation.invitee.bytes);
                match &invitation.membrane_proof {
                    Some(bytes) => lemma_len_fits(bytes),
                    None => {},
                }
            }
        },
    }
    payload
}

/// Reads the optional field that starts at position `at` of `input`.
fn take_optional_field(input: &Vec<u8>, at: usize) -> (taken: Option<(Option<Vec<u8>>, usize)>)
    requires
        at <= input.len(),
    ensures
        match taken {
            Some((bytes, next)) => {
                &&& at < next <= input.len()
                &&& parse_optional_field(input@.skip(at as int)) == Some(
                    (optional_bytes_view(bytes), input@.skip(next as int)),
                )
            },
            None => parse_optional_field(input@.skip(at as int)) is None,
        },
{
    if at == input.len() {
        return None;
    }
    let mark = input[at];
    assert(input@.skip(at as int)[0] == mark);
    assert(input@.skip(at as int).skip(1) =~= input@.skip(at + 1));
    if mark == ABSENT {
        Some((None, at + 1))
    } else if mark == PRESENT {
        match take_field(input, at + 1) {
            Some((bytes, next)) => Some((Some(bytes), next)),
            None => None,
        }
    } else {
        None
    }
}

/// Reads a payload that came from another peer. It succeeds on exactly
/// the payloads that are the serialization of a signal, and then returns
/// that signal.
pub fn decode_signal(payload: &Vec<u8>) -> (result: Result<Signal, Error>)
    ensures
        match result {
            Ok(signal) => {
                &&& parse_signal(payload@) == Some(signal@)
                &&& signal_bytes(signal@) == payload@
            },
            Err(error) => {
                &&& error == Error::Decode
                &&& parse_signal(payload@) is None
                &&& forall|signal: SignalView| signal_bytes(signal) != payload@
            },
        },
{
    let result = read_signal(payload);
    proof {
        lemma_len_fits(payload);
        if result is Some {
            lemma_parsed_signal_is_payload(payload@);
        } else {
            {
                assert forall|signal: SignalView| signal_bytes(signal) != payload@ by {
                    lemma_unparsed_is_no_signal(payload@, signal);
                }
            }
        }
    }
    match result {
        Some(signal) => Ok(signal),
        None => Err(Error::Decode),
    }
}

/// Reads the parts of a signal one after the other.
fn read_signal(payload: &Vec<u8>) -> (result: Option<Signal>)
    ensures
        optional_view(result) == parse_signal(payload@),
{
    if payload.len() == 0 || payload[0] != NEW_INVITATION {
        return None;
    }
    assert(payload@.skip(1) =~= payload@.skip(1int));
    let (invitation_header_hash, at) = match take_field(payload, 1) {
        Some(taken) => taken,
        None => { return None; },
    };
    let (original_dna_hash, at) = match take_field(payload, at) {
        Some(taken) => taken,
        None => { return None; },
    };
    let (parameters, at) = match take_field(payload, at) {
        Some(taken) => taken,
        None => { return None; },
    };
    let (inviter, at) = match take_field(payload, at) {
        Some(taken) => taken,
        None => { return None; },
    };
    let (invitee, at) = match take_field(payload, at) {
        Some(taken) => taken,
        None => { return None; },
    };
    let (membrane_proof, at) = match take_optional_field(payload, at) {
        Some(taken) => taken,
        None => { return None; },
    };
    if at != payload.len() {
        return None;
    }
    Some(
        Signal::NewInvitation {
            invitation_header_hash: ActionId::new(invitation_header_hash),
            invitation: JoinMembraneInvitation {
                clone_dna_recipe: CloneDnaRecipe {
                    original_dna_hash: ContentAddress::new(original_dna_hash),
                    parameters,
                },
                inviter: AgentKey::new(inviter),
                invitee: AgentKey::new(invitee),
                membrane_proof,
            },
        },
    )
}

} // verus!
