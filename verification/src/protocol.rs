use crate::address::{ActionId, Address, AddressView, AgentKey, ContentAddress};
use crate::bytemap::ByteMap;
use crate::bytes::{copy_optional_bytes, optional_bytes_view};
use crate::dht::{EntryContent, EntryContentView, Fetched, FetchedView, Link, LinkView};
use crate::invitation::{
    link_tag, membrane_proof_of_tag, proof_to_tag, tag_to_proof, InvitationView,
    InviteInputView, InviteToJoinMembraneInput, JoinMembraneInvitation, Signal, SignalView,
};
use crate::recipe::{CloneDnaRecipe, RecipeView};
use crate::view::{optional_view, optional_views, views};
use vstd::prelude::*;

verus! {

/// A link that is about to be created.
#[derive(Debug, PartialEq, Eq)]
pub struct NewLink {
    pub base: Address,
    pub target: Address,
    pub tag: Vec<u8>,
}

/// A [`NewLink`] as a mathematical value.
pub struct NewLinkView {
    pub base: AddressView,
    pub target: AddressView,
    pub tag: Seq<u8>,
}

impl View for NewLink {
    type V = NewLinkView;

    open spec fn view(&self) -> NewLinkView {
        NewLinkView { base: self.base@, target: self.target@, tag: self.tag@ }
    }
}

/// The link that makes a recipe discoverable: from the template it clones
/// to the recipe's own address, with an empty tag.
pub fn recipe_link(recipe: &CloneDnaRecipe, address: &ContentAddress) -> (link: NewLink)
    ensures
        link@ == (NewLinkView {
            base: AddressView::Entry(recipe@.original_dna_hash),
            target: AddressView::Entry(address@),
            tag: Seq::empty(),
        }),
{
    NewLink {
        base: Address::Entry(recipe.original_dna_hash.clone()),
        target: Address::Entry(address.clone()),
        tag: Vec::new(),
    }
}

/// The link that records an invitation: from the invitee to the recipe's
/// address, tagged with the proof if there is one.
pub fn invitation_link(input: &InviteToJoinMembraneInput, recipe_address: &ContentAddress) -> (link:
    NewLink)
    ensures
        link@ == (NewLinkView {
            base: AddressView::Agent(input@.invitee),
            target: AddressView::Entry(recipe_address@),
            tag: proof_to_tag(input@.membrane_proof),
        }),
{
    NewLink {
        base: Address::Agent(input.invitee.clone()),
        target: Address::Entry(recipe_address.clone()),
        tag: link_tag(&input.membrane_proof),
    }
}

/// The notification for a fresh invitation, as a mathematical value.
pub open spec fn new_invitation(input: InviteInputView, inviter: Seq<u8>, id: Seq<u8>) -> SignalView {
    SignalView::NewInvitation {
        invitation_header_hash: id,
        invitation: InvitationView {
            clone_dna_recipe: input.clone_dna_recipe,
            inviter,
            invitee: input.invitee,
            membrane_proof: input.membrane_proof,
        },
    }
}

/// The notification that tells the invitee of an invitation just recorded
/// under `id` by `inviter`.
pub fn invitation_signal(input: InviteToJoinMembraneInput, inviter: AgentKey, id: ActionId) -> (signal:
    Signal)
    ensures
        signal@ == new_invitation(input@, inviter@, id@),
{
    Signal::NewInvitation {
        invitation_header_hash: id,
        invitation: JoinMembraneInvitation {
            clone_dna_recipe: input.clone_dna_recipe,
            inviter,
            invitee: input.invitee,
            membrane_proof: input.membrane_proof,
        },
    }
}

/// The target of each link.
pub open spec fn targets_of(links: Seq<LinkView>) -> Seq<AddressView> {
    links.map_values(|link: LinkView| link.target)
}

/// The addresses to read in one request in order to resolve `links`: the
/// target of each, in order.
pub fn link_targets(links: &Vec<Link>) -> (targets: Vec<Address>)
    ensures
        views(targets@) == targets_of(views(links@)),
{
    let mut targets: Vec<Address> = Vec::new();
    let mut i: usize = 0;
    while i < links.len()
        invariant
            i <= links.len(),
            targets.len() == i,
            forall|j: int| 0 <= j < i ==> (#[trigger] targets[j])@ == links[j]@.target,
        decreases links.len() - i,
    {
        targets.push(links[i].target.clone());
        i += 1;
    }
    assert(views(targets@) =~= targets_of(views(links@)));
    targets
}

/// The recipes among the answers of a read, keyed by address. An answer
/// that is missing or is no recipe is passed over; of two recipes under
/// one address the later one stays.
pub open spec fn recipes_of(answers: Seq<Option<FetchedView>>) -> Map<Seq<u8>, RecipeView>
    decreases answers.len(),
{
    if answers.len() == 0 {
        Map::empty()
    } else {
        let earlier = recipes_of(answers.drop_last());
        match answers.last() {
            Some(FetchedView { address, content: EntryContentView::Recipe(recipe) }) => {
                earlier.insert(address, recipe)
            },
            _ => earlier,
        }
    }
}

/// Whether an answer of a read is a recipe.
pub open spec fn is_recipe(answer: Option<FetchedView>) -> bool {
    answer matches Some(fetched) && fetched.content is Recipe
}

/// Every recipe gathered was one of the answers, under the address it is
/// keyed by. Returns the position of that answer.
pub proof fn lemma_recipe_source(answers: Seq<Option<FetchedView>>, address: Seq<u8>) -> (k: int)
    requires
        recipes_of(answers).contains_key(address),
    ensures
        0 <= k < answers.len(),
        answers[k] == Some(
            FetchedView {
                address,
                content: EntryContentView::Recipe(recipes_of(answers)[address]),
            },
        ),
    decreases answers.len(),
{
    if answers.len() == 0 {
        0
    } else {
        match answers.last() {
            Some(FetchedView { address: last, content: EntryContentView::Recipe(recipe) }) => {
                if last == address {
                    answers.len() - 1
                } else {
                    lemma_recipe_source(answers.drop_last(), address)
                }
            },
            _ => lemma_recipe_source(answers.drop_last(), address),
        }
    }
}

/// Every answer that is a recipe is gathered under its address.
pub proof fn lemma_recipe_gathered(answers: Seq<Option<FetchedView>>, k: int)
    requires
        0 <= k < answers.len(),
        is_recipe(answers[k]),
    ensures
        recipes_of(answers).contains_key(answers[k].unwrap().address),
    decreases answers.len(),
{
    if k < answers.len() - 1 {
        lemma_recipe_gathered(answers.drop_last(), k);
    }
}

/// Gathers the recipes among the answers of a read. One answer that
/// cannot be used never spoils the others.
pub fn collect_recipes(answers: Vec<Option<Fetched>>) -> (recipes: ByteMap<CloneDnaRecipe>)
    ensures
        recipes.wf(),
        recipes@ == recipes_of(optional_views(answers@)),
{
    let mut recipes: ByteMap<CloneDnaRecipe> = ByteMap::new();
    let ghost all = optional_views(answers@);
    let mut i: usize = 0;
    assert(all.take(0) =~= Seq::<Option<FetchedView>>::empty());
    while i < answers.len()
        invariant
            i <= answers.len(),
            all == optional_views(answers@),
            recipes.wf(),
            recipes@ == recipes_of(all.take(i as int)),
        decreases answers.len() - i,
    {
        proof {
            let upto = all.take(i + 1);
            assert(upto.drop_last() =~= all.take(i as int));
            assert(upto.last() == optional_view(answers[i as int]));
        }
        match &answers[i] {
            Some(fetched) => {
                match &fetched.content {
                    EntryContent::Recipe(recipe) => {
                        recipes.insert(fetched.address.bytes.clone(), recipe.clone());
                    },
                    EntryContent::Other(_) => {},
                }
            },
            None => {},
        }
        i += 1;
    }
    assert(all.take(i as int) =~= all);
    recipes
}

/// An invitation whose recipe is known and whose inviter is still to be
/// looked up.
#[derive(Debug, PartialEq, Eq)]
pub struct PendingInvitation {
    /// The identifier of the invitation: the creation of its link.
    pub id: ActionId,
    pub clone_dna_recipe: CloneDnaRecipe,
    pub membrane_proof: Option<Vec<u8>>,
}

/// A [`PendingInvitation`] as a mathematical value.
pub struct PendingView {
    pub id: Seq<u8>,
    pub clone_dna_recipe: RecipeView,
    pub membrane_proof: Option<Seq<u8>>,
}

impl View for PendingInvitation {
    type V = PendingView;

    open spec fn view(&self) -> PendingView {
        PendingView {
            id: self.id@,
            clone_dna_recipe: self.clone_dna_recipe@,
            membrane_proof: optional_bytes_view(self.membrane_proof),
        }
    }
}

/// The recipe that a link leads to, if its target is content and one of
/// the recipes at hand.
pub open spec fn recipe_behind(link: LinkView, recipes: Map<Seq<u8>, RecipeView>) -> Option<
    RecipeView,
> {
    match link.target {
        AddressView::Entry(address) => {
            if recipes.contains_key(address) {
                Some(recipes[address])
            } else {
                None
            }
        },
        AddressView::Agent(_) => None,
    }
}

/// What a link says of an invitation once its recipe is known.
pub open spec fn pending_from(link: LinkView, recipe: RecipeView) -> PendingView {
    PendingView {
        id: link.create_link_hash,
        clone_dna_recipe: recipe,
        membrane_proof: tag_to_proof(link.tag),
    }
}

/// The invitations that `links` record, in the order of the links. A link
/// whose target is none of the recipes at hand is passed over.
pub open spec fn pending_of(links: Seq<LinkView>, recipes: Map<Seq<u8>, RecipeView>) -> Seq<
    PendingView,
>
    decreases links.len(),
{
    if links.len() == 0 {
        Seq::empty()
    } else {
        let earlier = pending_of(links.drop_last(), recipes);
        match recipe_behind(links.last(), recipes) {
            Some(recipe) => earlier.push(pending_from(links.last(), recipe)),
            None => earlier,
        }
    }
}

/// Every pending invitation comes from a link that leads to a known
/// recipe. Returns the position of that link.
pub proof fn lemma_pending_source(
    links: Seq<LinkView>,
    recipes: Map<Seq<u8>, RecipeView>,
    j: int,
) -> (k: int)
    requires
        0 <= j < pending_of(links, recipes).len(),
    ensures
        0 <= k < links.len(),
        recipe_behind(links[k], recipes) is Some,
        pending_of(links, recipes)[j] == pending_from(
            links[k],
            recipe_behind(links[k], recipes).unwrap(),
        ),
    decreases links.len(),
{
    let earlier = pending_of(links.drop_last(), recipes);
    if j < earlier.len() {
        lemma_pending_source(links.drop_last(), recipes, j)
    } else {
        links.len() - 1
    }
}

/// Every link that leads to a known recipe gives a pending invitation.
/// Returns the position of that invitation.
pub proof fn lemma_pending_listed(
    links: Seq<LinkView>,
    recipes: Map<Seq<u8>, RecipeView>,
    k: int,
) -> (j: int)
    requires
        0 <= k < links.len(),
        recipe_behind(links[k], recipes) is Some,
    ensures
        0 <= j < pending_of(links, recipes).len(),
        pending_of(links, recipes)[j] == pending_from(
            links[k],
            recipe_behind(links[k], recipes).unwrap(),
        ),
    decreases links.len(),
{
    let earlier = pending_of(links.drop_last(), recipes);
    if k < links.len() - 1 {
        lemma_pending_listed(links.drop_last(), recipes, k)
    } else {
        earlier.len() as int
    }
}

/// Picks out the links that lead to a known recipe and reads each one's
/// tag back into the proof it carries.
pub fn pending_invitations(links: &Vec<Link>, recipes: &ByteMap<CloneDnaRecipe>) -> (pending: Vec<
    PendingInvitation,
>)
    requires
        recipes.wf(),
    ensures
        views(pending@) == pending_of(views(links@), recipes@),
{
    let mut pending: Vec<PendingInvitation> = Vec::new();
    let ghost all = views(links@);
    let mut i: usize = 0;
    assert(all.take(0) =~= Seq::<LinkView>::empty());
    assert(views(pending@) =~= Seq::<PendingView>::empty());
    while i < links.len()
        invariant
            i <= links.len(),
            recipes.wf(),
            all == views(links@),
            views(pending@) == pending_of(all.take(i as int), recipes@),
        decreases links.len() - i,
    {
        let link = &links[i];
        proof {
            let upto = all.take(i + 1);
            assert(upto.drop_last() =~= all.take(i as int));
            assert(upto.last() == link@);
        }
        match &link.target {
            Address::Entry(address) => {
                match recipes.get(&address.bytes) {
                    Some(recipe) => {
                        let ghost before = pending@;
                        pending.push(
                            PendingInvitation {
                                id: link.create_link_hash.clone(),
                                clone_dna_recipe: recipe.clone(),
                                membrane_proof: membrane_proof_of_tag(link.tag.clone()),
                            },
                        );
                        assert(views(pending@) =~= views(before).push(
                            pending_from(link@, recipe@),
                        ));
                    },
                    None => {},
                }
            },
            Address::Agent(_) => {},
        }
        i += 1;
    }
    assert(all.take(i as int) =~= all);
    pending
}

/// The identifier of each pending invitation.
pub open spec fn ids_of(pending: Seq<PendingView>) -> Seq<Seq<u8>> {
    pending.map_values(|one: PendingView| one.id)
}

/// The invitation that a pending invitation becomes once its inviter is
/// known.
pub open spec fn invitation_from(me: Seq<u8>, pending: PendingView, inviter: Seq<u8>) -> InvitationView {
    InvitationView {
        clone_dna_recipe: pending.clone_dna_recipe,
        inviter,
        invitee: me,
        membrane_proof: pending.membrane_proof,
    }
}

/// The inviter found for the pending invitation at position `i`, if one
/// was found.
pub open spec fn inviter_at(inviters: Seq<Option<Seq<u8>>>, i: int) -> Option<Seq<u8>> {
    if 0 <= i < inviters.len() {
        inviters[i]
    } else {
        None
    }
}

/// The invitations of `me` keyed by identifier: each pending invitation
/// whose inviter was found, the inviter of each being the one at the same
/// position. Of two under one identifier the later one stays.
pub open spec fn invitations_of(
    me: Seq<u8>,
    pending: Seq<PendingView>,
    inviters: Seq<Option<Seq<u8>>>,
) -> Map<Seq<u8>, InvitationView>
    decreases pending.len(),
{
    if pending.len() == 0 {
        Map::empty()
    } else {
        let earlier = invitations_of(me, pending.drop_last(), inviters);
        match inviter_at(inviters, pending.len() - 1) {
            Some(inviter) => earlier.insert(
                pending.last().id,
                invitation_from(me, pending.last(), inviter),
            ),
            None => earlier,
        }
    }
}

/// Every invitation put together comes from a pending invitation whose
/// inviter was found. Returns the position of that pending invitation.
pub proof fn lemma_invitation_source(
    me: Seq<u8>,
    pending: Seq<PendingView>,
    inviters: Seq<Option<Seq<u8>>>,
    id: Seq<u8>,
) -> (j: int)
    requires
        invitations_of(me, pending, inviters).contains_key(id),
    ensures
        0 <= j < pending.len(),
        pending[j].id == id,
        inviter_at(inviters, j) is Some,
        invitations_of(me, pending, inviters)[id] == invitation_from(
            me,
            pending[j],
            inviter_at(inviters, j).unwrap(),
        ),
    decreases pending.len(),
{
    if pending.len() == 0 {
        0
    } else {
        let last = pending.len() - 1;
        if inviter_at(inviters, last) is Some && pending[last].id == id {
            last
        } else {
            lemma_invitation_source(me, pending.drop_last(), inviters, id)
        }
    }
}

/// Every pending invitation whose inviter was found is put together
/// under its identifier.
pub proof fn lemma_invitation_listed(
    me: Seq<u8>,
    pending: Seq<PendingView>,
    inviters: Seq<Option<Seq<u8>>>,
    j: int,
)
    requires
        0 <= j < pending.len(),
        inviter_at(inviters, j) is Some,
    ensures
        invitations_of(me, pending, inviters).contains_key(pending[j].id),
    decreases pending.len(),
{
    if j < pending.len() - 1 {
        lemma_invitation_listed(me, pending.drop_last(), inviters, j);
    }
}

/// Puts the invitations of `me` together from the pending invitations and
/// the inviter that was looked up for each. A pending invitation whose
/// inviter was not found is left out.
pub fn assemble_invitations(
    me: &AgentKey,
    pending: Vec<PendingInvitation>,
    inviters: Vec<Option<AgentKey>>,
) -> (invitations: ByteMap<JoinMembraneInvitation>)
    ensures
        invitations.wf(),
        invitations@ == invitations_of(me@, views(pending@), optional_views(inviters@)),
{
    let mut invitations: ByteMap<JoinMembraneInvitation> = ByteMap::new();
    let ghost all = views(pending@);
    let ghost found = optional_views(inviters@);
    let mut i: usize = 0;
    assert(all.take(0) =~= Seq::<PendingView>::empty());
    while i < pending.len()
        invariant
            i <= pending.len(),
            all == views(pending@),
            found == optional_views(inviters@),
            invitations.wf(),
            invitations@ == invitations_of(me@, all.take(i as int), found),
        decreases pending.len() - i,
    {
        let one = &pending[i];
        proof {
            let upto = all.take(i + 1);
            assert(upto.drop_last() =~= all.take(i as int));
            assert(upto.last() == one@);
            assert(upto.len() - 1 == i);
        }
        if i < inviters.len() {
            match &inviters[i] {
                Some(inviter) => {
                    invitations.insert(
                        one.id.bytes.clone(),
                        JoinMembraneInvitation {
                            clone_dna_recipe: one.clone_dna_recipe.clone(),
                            inviter: inviter.clone(),
                            invitee: me.clone(),
                            membrane_proof: copy_optional_bytes(&one.membrane_proof),
                        },
                    );
                },
                None => {},
            }
        }
        i += 1;
    }
    assert(all.take(i as int) =~= all);
    invitations
}

} // verus!
