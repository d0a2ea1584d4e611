use crate::address::{ActionId, AgentKey};
use crate::bytes::{copy_optional_bytes, optional_bytes_view, same_optional_bytes};
use crate::recipe::{CloneDnaRecipe, RecipeView};
use vstd::prelude::*;

verus! {

/// What an inviter supplies: the recipe to clone, who is invited, and an
/// optional proof of membership that this library passes on unread.
#[derive(Debug, PartialEq, Eq)]
pub struct InviteToJoinMembraneInput {
    pub clone_dna_recipe: CloneDnaRecipe,
    pub invitee: AgentKey,
    pub membrane_proof: Option<Vec<u8>>,
}

/// An [`InviteToJoinMembraneInput`] as a mathematical value.
pub struct InviteInputView {
    pub clone_dna_recipe: RecipeView,
    pub invitee: Seq<u8>,
    pub membrane_proof: Option<Seq<u8>>,
}

impl View for InviteToJoinMembraneInput {
    type V = InviteInputView;

    open spec fn view(&self) -> InviteInputView {
        InviteInputView {
            clone_dna_recipe: self.clone_dna_recipe@,
            invitee: self.invitee@,
            membrane_proof: optional_bytes_view(self.membrane_proof),
        }
    }
}

/// An invitation as its invitee sees it. It is never stored as such: it is
/// put together from a link, the recipe that the link points to, and the
/// author of the link.
#[derive(Debug, PartialEq, Eq)]
pub struct JoinMembraneInvitation {
    pub clone_dna_recipe: CloneDnaRecipe,
    pub inviter: AgentKey,
    pub invitee: AgentKey,
    pub membrane_proof: Option<Vec<u8>>,
}

/// A [`JoinMembraneInvitation`] as a mathematical value.
pub struct InvitationView {
    pub clone_dna_recipe: RecipeView,
    pub inviter: Seq<u8>,
    pub invitee: Seq<u8>,
    pub membrane_proof: Option<Seq<u8>>,
}

impl View for JoinMembraneInvitation {
    type V = InvitationView;

    open spec fn view(&self) -> InvitationView {
        InvitationView {
            clone_dna_recipe: self.clone_dna_recipe@,
            inviter: self.inviter@,
            invitee: self.invitee@,
            membrane_proof: optional_bytes_view(self.membrane_proof),
        }
    }
}

impl Clone for JoinMembraneInvitation {
    fn clone(&self) -> (copy: Self)
        ensures
            copy@ == self@,
    {
        JoinMembraneInvitation {
            clone_dna_recipe: self.clone_dna_recipe.clone(),
            inviter: self.inviter.clone(),
            invitee: self.invitee.clone(),
            membrane_proof: copy_optional_bytes(&self.membrane_proof),
        }
    }
}

impl JoinMembraneInvitation {
    /// Whether two invitations are equal part by part.
    pub fn same_as(&self, other: &JoinMembraneInvitation) -> (same: bool)
        ensures
            same == (self@ == other@),
    {
        self.clone_dna_recipe.same_as(&other.clone_dna_recipe) && self.inviter.same_as(
            &other.inviter,
        ) && self.invitee.same_as(&other.invitee) && same_optional_bytes(
            &self.membrane_proof,
            &other.membrane_proof,
        )
    }
}

/// A notification pushed from peer to peer, outside the shared store. New
/// kinds of notification are added as new variants.
#[derive(Debug, PartialEq, Eq)]
pub enum Signal {
    NewInvitation { invitation_header_hash: ActionId, invitation: JoinMembraneInvitation },
}

/// A [`Signal`] as a mathematical value.
pub enum SignalView {
    NewInvitation { invitation_header_hash: Seq<u8>, invitation: InvitationView },
}

impl View for Signal {
    type V = SignalView;

    open spec fn view(&self) -> SignalView {
        match self {
            Signal::NewInvitation { invitation_header_hash, invitation } => {
                SignalView::NewInvitation {
                    invitation_header_hash: invitation_header_hash@,
                    invitation: invitation@,
                }
            },
        }
    }
}

impl Clone for Signal {
    fn clone(&self) -> (copy: Self)
        ensures
            copy@ == self@,
    {
        match self {
            Signal::NewInvitation { invitation_header_hash, invitation } => {
                Signal::NewInvitation {
                    invitation_header_hash: invitation_header_hash.clone(),
                    invitation: invitation.clone(),
                }
            },
        }
    }
}

/// The tag of the link that records an invitation: empty when there is no
/// proof, the proof itself when there is one.
pub open spec fn proof_to_tag(membrane_proof: Option<Seq<u8>>) -> Seq<u8> {
    match membrane_proof {
        Some(bytes) => bytes,
        None => Seq::empty(),
    }
}

/// The proof that a link's tag stands for: none when the tag is empty, the
/// tag itself when it is not.
pub open spec fn tag_to_proof(tag: Seq<u8>) -> Option<Seq<u8>> {
    if tag.len() == 0 {
        None
    } else {
        Some(tag)
    }
}

/// Encodes an optional proof as a link tag.
pub fn link_tag(membrane_proof: &Option<Vec<u8>>) -> (tag: Vec<u8>)
    ensures
        tag@ == proof_to_tag(optional_bytes_view(*membrane_proof)),
{
    match membrane_proof {
        Some(bytes) => bytes.clone(),
        None => Vec::new(),
    }
}

/// Decodes a link tag back into an optional proof.
pub fn membrane_proof_of_tag(tag: Vec<u8>) -> (membrane_proof: Option<Vec<u8>>)
    ensures
        optional_bytes_view(membrane_proof) == tag_to_proof(tag@),
{
    if tag.len() > 0 {
        Some(tag)
    } else {
        None
    }
}

/// A proof comes back from its tag as it went in: an absent proof as
/// absent, a proof of at least one byte as itself.
pub proof fn lemma_proof_round_trip(membrane_proof: Option<Seq<u8>>)
    requires
        membrane_proof != Some(Seq::<u8>::empty()),
    ensures
        tag_to_proof(proof_to_tag(membrane_proof)) == membrane_proof,
{
    match membrane_proof {
        Some(bytes) => {
            assert(bytes.len() != 0) by {
                if bytes.len() == 0 {
                    assert(bytes =~= Seq::<u8>::empty());
                }
            }
        },
        None => {},
    }
}

/// The one proof that does not come back: a proof of no bytes has the
/// same tag as no proof, and reads back as absent.
pub proof fn lemma_empty_proof_reads_back_absent()
    ensures
        tag_to_proof(proof_to_tag(Some(Seq::<u8>::empty()))) == None::<Seq<u8>>,
        proof_to_tag(Some(Seq::<u8>::empty())) == proof_to_tag(None),
{
}

/// Every tag is the tag of the proof it stands for.
pub proof fn lemma_tag_round_trip(tag: Seq<u8>)
    ensures
        proof_to_tag(tag_to_proof(tag)) == tag,
{
    if tag.len() == 0 {
        assert(tag =~= Seq::<u8>::empty());
    }
}

} // verus!
