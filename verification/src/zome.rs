use crate::address::{ActionId, Address, AddressView, AgentKey, ContentAddress};
use crate::bytemap::ByteMap;
use crate::capability::{
    lemma_signal_grant_covers, signal_grant, signal_grant_of, RECV_REMOTE_SIGNAL,
};
use crate::dht::{
    id_index, lemma_id_of_index, lemma_link_id_index, lemma_live_link_listed,
    lemma_live_link_source, stands_from, Dht, DhtView, EntryContentView, FetchedView, Link,
    LinkView,
};
use crate::error::Error;
use crate::invitation::{
    proof_to_tag, tag_to_proof, InvitationView, InviteInputView, InviteToJoinMembraneInput,
    JoinMembraneInvitation,
};
use crate::invitation::SignalView;
use crate::network::{
    Emission, Envelope, EnvelopeView, GrantRecord, GrantRecordView, Network, NetworkView,
};
use crate::protocol::{
    assemble_invitations, collect_recipes, ids_of, invitation_link, invitation_signal,
    invitations_of, lemma_invitation_listed, lemma_invitation_source, lemma_pending_listed,
    lemma_pending_source, lemma_recipe_gathered, lemma_recipe_source, link_targets,
    new_invitation, pending_invitations, pending_of, recipe_behind, recipe_link, recipes_of,
    targets_of, PendingInvitation,
};
use crate::recipe::{recipe_address, CloneDnaRecipe, RecipeView};
use crate::view::{optional_view, optional_views, views};
use crate::wire::{decode_signal, encode_signal, parse_signal, signal_bytes};
use vstd::prelude::*;

verus! {

/// The recipe stored at `target`, if `target` is content and what is
/// stored there is a recipe.
pub open spec fn recipe_at(dht: DhtView, target: AddressView) -> Option<RecipeView> {
    match dht.fetch(target) {
        Some(FetchedView { address, content: EntryContentView::Recipe(recipe) }) => Some(recipe),
        _ => None,
    }
}

/// Whether a link that still stands leads from the template `origin` to
/// the content at `address`.
pub open spec fn leads_to(dht: DhtView, origin: Seq<u8>, address: Seq<u8>) -> bool {
    exists|i: int|
        0 <= i < dht.links.len() && stands_from(
            #[trigger] dht.links[i],
            AddressView::Entry(origin),
        ) && dht.links[i].target == AddressView::Entry(address)
}

/// The recipes that clone the template `origin`, keyed by address: every
/// recipe in the store that a standing link from `origin` leads to.
pub open spec fn recipes_for(dht: DhtView, origin: Seq<u8>) -> Map<Seq<u8>, RecipeView> {
    Map::new(
        |address: Seq<u8>|
            leads_to(dht, origin, address) && recipe_at(dht, AddressView::Entry(address)) is Some,
        |address: Seq<u8>| recipe_at(dht, AddressView::Entry(address)).unwrap(),
    )
}

/// The invitation of `me` named `id`: there is one where `id` names a
/// link that still stands, starts at `me` and leads to a recipe in the
/// store. Its inviter is whoever created the link.
pub open spec fn invitation_at(dht: DhtView, me: Seq<u8>, id: Seq<u8>) -> Option<InvitationView> {
    match dht.record_of(id) {
        Some(record) => {
            if stands_from(record, AddressView::Agent(me)) {
                match recipe_at(dht, record.target) {
                    Some(recipe) => Some(
                        InvitationView {
                            clone_dna_recipe: recipe,
                            inviter: record.author,
                            invitee: me,
                            membrane_proof: tag_to_proof(record.tag),
                        },
                    ),
                    None => None,
                }
            } else {
                None
            }
        },
        None => None,
    }
}

/// All invitations of `me`, keyed by identifier.
pub open spec fn invitations_for(dht: DhtView, me: Seq<u8>) -> Map<Seq<u8>, InvitationView> {
    Map::new(
        |id: Seq<u8>| invitation_at(dht, me, id) is Some,
        |id: Seq<u8>| invitation_at(dht, me, id).unwrap(),
    )
}

/// What one read of all the targets of `links` answers.
pub open spec fn answers_for(dht: DhtView, links: Seq<LinkView>) -> Seq<Option<FetchedView>> {
    links.map_values(|link: LinkView| dht.fetch(link.target))
}

/// Whoever created each of the links that `ids` name.
pub open spec fn inviters_for(dht: DhtView, ids: Seq<Seq<u8>>) -> Seq<Option<Seq<u8>>> {
    ids.map_values(|id: Seq<u8>| dht.author_of(id))
}

/// A link leads to one of the recipes gathered from its own batch of
/// answers exactly when the store holds a recipe at its target.
proof fn lemma_recipe_behind(dht: DhtView, links: Seq<LinkView>, k: int)
    requires
        0 <= k < links.len(),
    ensures
        recipe_behind(links[k], recipes_of(answers_for(dht, links))) == recipe_at(
            dht,
            links[k].target,
        ),
{
    let answers = answers_for(dht, links);
    let recipes = recipes_of(answers);
    match links[k].target {
        AddressView::Entry(address) => {
            if recipes.contains_key(address) {
                let source = lemma_recipe_source(answers, address);
                assert(answers[source] == dht.fetch(links[source].target));
            } else {
                if recipe_at(dht, links[k].target) is Some {
                    assert(answers[k] == dht.fetch(links[k].target));
                    lemma_recipe_gathered(answers, k);
                }
            }
        },
        AddressView::Agent(_) => {},
    }
}

/// Gathering the recipes behind the standing links from a template gives
/// exactly the recipes that the store holds for it.
pub proof fn lemma_recipes_for(dht: DhtView, origin: Seq<u8>)
    ensures
        recipes_of(answers_for(dht, dht.links_from(AddressView::Entry(origin)))) == recipes_for(
            dht,
            origin,
        ),
{
    let base = AddressView::Entry(origin);
    let links = dht.links_from(base);
    let answers = answers_for(dht, links);
    let gathered = recipes_of(answers);
    let held = recipes_for(dht, origin);
    assert forall|address: Seq<u8>| #[trigger] gathered.dom().contains(address) implies held.dom().contains(
        address,
    ) && held[address] == gathered[address] by {
        let k = lemma_recipe_source(answers, address);
        assert(answers[k] == dht.fetch(links[k].target));
        let i = lemma_live_link_source(dht.links, base, k);
        assert(stands_from(dht.links[i], base) && dht.links[i].target == AddressView::Entry(
            address,
        ));
    }
    assert forall|address: Seq<u8>| #[trigger] held.dom().contains(address) implies gathered.dom().contains(
        address,
    ) by {
        let i = choose|i: int|
            0 <= i < dht.links.len() && stands_from(#[trigger] dht.links[i], base)
                && dht.links[i].target == AddressView::Entry(address);
        let k = lemma_live_link_listed(dht.links, base, i);
        assert(answers[k] == dht.fetch(links[k].target));
        lemma_recipe_gathered(answers, k);
    }
    assert(gathered =~= held);
}

/// Following the standing links from a peer, resolving their recipes and
/// looking up their authors gives exactly the invitations of that peer.
pub proof fn lemma_invitations_for(dht: DhtView, me: Seq<u8>)
    requires
        dht.wf(),
    ensures
        ({
            let links = dht.links_from(AddressView::Agent(me));
            let pending = pending_of(links, recipes_of(answers_for(dht, links)));
            invitations_of(me, pending, inviters_for(dht, ids_of(pending))) == invitations_for(
                dht,
                me,
            )
        }),
{
    let base = AddressView::Agent(me);
    let links = dht.links_from(base);
    let recipes = recipes_of(answers_for(dht, links));
    let pending = pending_of(links, recipes);
    let inviters = inviters_for(dht, ids_of(pending));
    let assembled = invitations_of(me, pending, inviters);
    let listed = invitations_for(dht, me);
    assert forall|id: Seq<u8>| #[trigger] assembled.dom().contains(id) implies listed.dom().contains(
        id,
    ) && listed[id] == assembled[id] by {
        let j = lemma_invitation_source(me, pending, inviters, id);
        let k = lemma_pending_source(links, recipes, j);
        lemma_recipe_behind(dht, links, k);
        let i = lemma_live_link_source(dht.links, base, k);
        lemma_link_id_index(i as nat);
        assert(dht.links[i].id == id);
        assert(dht.record_of(id) == Some(dht.links[i]));
        assert(inviters[j] == dht.author_of(pending[j].id));
    }
    assert forall|id: Seq<u8>| #[trigger] listed.dom().contains(id) implies assembled.dom().contains(
        id,
    ) by {
        let i = id_index(id);
        lemma_id_of_index(id);
        assert(dht.links[i].id == id);
        let k = lemma_live_link_listed(dht.links, base, i);
        lemma_recipe_behind(dht, links, k);
        let j = lemma_pending_listed(links, recipes, k);
        assert(pending[j].id == id);
        assert(inviters[j] == dht.author_of(pending[j].id));
        lemma_invitation_listed(me, pending, inviters, j);
    }
    assert(assembled =~= listed);
}

/// The network after `me` invited as `input` says: one more link, from
/// the invitee to the recipe's address and tagged with the proof, and one
/// more notification under way to the invitee.
pub open spec fn after_invite(net: NetworkView, me: Seq<u8>, input: InviteInputView) -> NetworkView {
    NetworkView {
        dht: net.dht.with_link(
            me,
            AddressView::Agent(input.invitee),
            AddressView::Entry(recipe_address(input.clone_dna_recipe)),
            proof_to_tag(input.membrane_proof),
        ),
        grants: net.grants,
        in_flight: net.in_flight.push(
            EnvelopeView {
                to: input.invitee,
                payload: signal_bytes(new_invitation(input, me, net.dht.next_link_id())),
            },
        ),
        emitted: net.emitted,
    }
}

/// The store after `me` published `recipe`: the recipe under its address,
/// and one more link, from the template it clones to that address.
pub open spec fn after_create_recipe(dht: DhtView, me: Seq<u8>, recipe: RecipeView) -> DhtView {
    dht.with_entry(recipe_address(recipe), EntryContentView::Recipe(recipe)).with_link(
        me,
        AddressView::Entry(recipe.original_dna_hash),
        AddressView::Entry(recipe_address(recipe)),
        Seq::empty(),
    )
}

/// The network after the module `zome` started at the peer `me`: with the
/// grant that opens its receiving operation, unless that operation is
/// open already.
pub open spec fn after_init(net: NetworkView, me: Seq<u8>, zome: Seq<char>) -> NetworkView {
    if net.permits(me, zome, RECV_REMOTE_SIGNAL@) {
        net
    } else {
        net.with_grant(me, signal_grant_of(zome))
    }
}

/// How an attempt to retract the invitation named `id` ends: well where
/// `id` names a link that still stands, and otherwise with the reason
/// why not.
pub open spec fn retraction(dht: DhtView, id: Seq<u8>) -> Result<(), Error> {
    if !dht.online {
        Err(Error::Storage)
    } else if dht.is_live(id) {
        Ok(())
    } else {
        Err(Error::NotFound)
    }
}

/// Run once when the module `zome` starts at the peer `me`: opens the
/// operation that receives notifications to every other peer. Running it
/// again changes nothing.
pub fn init(net: &mut Network, me: &AgentKey, zome: String) -> (result: Result<(), Error>)
    requires
        old(net).wf(),
    ensures
        final(net).wf(),
        match result {
            Ok(_) => {
                &&& old(net)@.dht.online
                &&& final(net)@ == after_init(old(net)@, me@, zome@)
                &&& final(net)@.permits(me@, zome@, RECV_REMOTE_SIGNAL@)
            },
            Err(error) => {
                &&& !old(net)@.dht.online
                &&& error == Error::Storage
                &&& final(net)@ == old(net)@
            },
        },
{
    if !net.dht.is_online() {
        return Err(Error::Storage);
    }
    let function = RECV_REMOTE_SIGNAL.to_owned();
    if !net.permits(me, &zome, &function) {
        let grant = signal_grant(zome);
        net.grants.push(GrantRecord { grantor: me.clone(), grant });
        proof {
            assert(net@.grants =~= old(net)@.grants.push(
                GrantRecordView { grantor: me@, grant: signal_grant_of(zome@) },
            ));
            let last = net@.grants.len() - 1;
            lemma_signal_grant_covers(zome@, zome@, RECV_REMOTE_SIGNAL@);
            assert(net@.grants[last].grantor == me@);
        }
    }
    Ok(())
}

/// Receives a notification from another peer. A payload that is a signal
/// is passed on to the listeners of `me`; any other payload is refused
/// and leaves no trace.
pub fn recv_remote_signal(net: &mut Network, me: &AgentKey, payload: &Vec<u8>) -> (result: Result<
    (),
    Error,
>)
    requires
        old(net).wf(),
    ensures
        final(net).wf(),
        match result {
            Ok(_) => {
                &&& parse_signal(payload@) is Some
                &&& signal_bytes(parse_signal(payload@).unwrap()) == payload@
                &&& final(net)@ == old(net)@.with_emission(me@, parse_signal(payload@).unwrap())
            },
            Err(error) => {
                &&& error == Error::Decode
                &&& parse_signal(payload@) is None
                &&& forall|signal: SignalView| signal_bytes(signal) != payload@
                &&& final(net)@ == old(net)@
            },
        },
{
    match decode_signal(payload) {
        Ok(signal) => {
            net.emitted.push(Emission { at: me.clone(), signal });
            assert(net@.emitted =~= old(net)@.with_emission(
                me@,
                parse_signal(payload@).unwrap(),
            ).emitted);
            Ok(())
        },
        Err(error) => Err(error),
    }
}

/// Publishes a recipe: stores it under its address and links the
/// template it clones to that address, so that the recipe can be found
/// from the template. Returns the address.
pub fn create_clone_dna_recipe(
    net: &mut Network,
    me: &AgentKey,
    clone_dna_recipe: CloneDnaRecipe,
) -> (result: Result<ContentAddress, Error>)
    requires
        old(net).wf(),
    ensures
        final(net).wf(),
        match result {
            Ok(address) => {
                &&& old(net)@.dht.can_record()
                &&& address@ == recipe_address(clone_dna_recipe@)
                &&& final(net)@ == old(net)@.with_dht(
                    after_create_recipe(old(net)@.dht, me@, clone_dna_recipe@),
                )
            },
            Err(error) => {
                &&& !old(net)@.dht.can_record()
                &&& error == Error::Storage
                &&& final(net)@ == old(net)@
            },
        },
{
    if !net.dht.can_record() {
        return Err(Error::Storage);
    }
    let hash = clone_dna_recipe.address();
    match net.dht.create_entry(&clone_dna_recipe) {
        Ok(_) => {},
        Err(error) => { return Err(error); },
    }
    let link = recipe_link(&clone_dna_recipe, &hash);
    match net.dht.create_link(me, link.base, link.target, link.tag) {
        Ok(_) => Ok(hash),
        Err(error) => Err(error),
    }
}

/// Resolves the targets of `links` in one read and gathers the recipes
/// among what is found. A target that holds no recipe is passed over.
pub fn get_clone_dna_recipes(dht: &Dht, links: &Vec<Link>) -> (result: Result<
    ByteMap<CloneDnaRecipe>,
    Error,
>)
    requires
        dht.wf(),
    ensures
        match result {
            Ok(recipes) => {
                &&& dht@.online
                &&& recipes.wf()
                &&& recipes@ == recipes_of(answers_for(dht@, views(links@)))
            },
            Err(error) => !dht@.online && error == Error::Storage,
        },
{
    let get_inputs = link_targets(links);
    match dht.get(&get_inputs) {
        Ok(elements) => {
            proof {
                let targets = targets_of(views(links@));
                assert(views(get_inputs@).len() == get_inputs.len());
                assert(targets.len() == links.len());
                assert forall|i: int| 0 <= i < elements.len() implies optional_views(
                    elements@,
                )[i] == answers_for(dht@, views(links@))[i] by {
                    assert(get_inputs[i]@ == views(get_inputs@)[i]);
                    assert(targets[i] == views(links@)[i].target);
                }
                assert(optional_views(elements@) =~= answers_for(dht@, views(links@)));
            }
            Ok(collect_recipes(elements))
        },
        Err(error) => Err(error),
    }
}

/// All recipes that clone the template `original_dna_hash`, keyed by
/// address.
pub fn get_clone_recipes_for_dna(net: &Network, original_dna_hash: &ContentAddress) -> (result:
    Result<ByteMap<CloneDnaRecipe>, Error>)
    requires
        net.wf(),
    ensures
        match result {
            Ok(recipes) => {
                &&& net@.dht.online
                &&& recipes.wf()
                &&& recipes@ == recipes_for(net@.dht, original_dna_hash@)
            },
            Err(error) => !net@.dht.online && error == Error::Storage,
        },
{
    let base = Address::Entry(original_dna_hash.clone());
    match net.dht.get_links(&base) {
        Ok(links) => {
            proof {
                lemma_recipes_for(net@.dht, original_dna_hash@);
            }
            get_clone_dna_recipes(&net.dht, &links)
        },
        Err(error) => Err(error),
    }
}

/// Invites `input.invitee` on behalf of `me`: records the invitation as a
/// link from the invitee to the recipe's address, sends a notification
/// off to the invitee, and returns the identifier of the invitation. The
/// link is what counts: the invitee finds the invitation even if the
/// notification never arrives.
pub fn invite_to_join_membrane(
    net: &mut Network,
    me: &AgentKey,
    input: InviteToJoinMembraneInput,
) -> (result: Result<ActionId, Error>)
    requires
        old(net).wf(),
    ensures
        final(net).wf(),
        match result {
            Ok(id) => {
                &&& old(net)@.dht.can_record()
                &&& id@ == old(net)@.dht.next_link_id()
                &&& final(net)@ == after_invite(old(net)@, me@, input@)
            },
            Err(error) => {
                &&& !old(net)@.dht.can_record()
                &&& error == Error::Storage
                &&& final(net)@ == old(net)@
            },
        },
{
    let clone_dna_recipe_hash = input.clone_dna_recipe.address();
    let link = invitation_link(&input, &clone_dna_recipe_hash);
    let header_hash = match net.dht.create_link(me, link.base, link.target, link.tag) {
        Ok(id) => id,
        Err(error) => { return Err(error); },
    };
    let invitee = input.invitee.clone();
    let signal = invitation_signal(input, me.clone(), header_hash.clone());
    let payload = encode_signal(&signal);
    net.in_flight.push(Envelope { to: invitee, payload });
    assert(net@.in_flight =~= after_invite(old(net)@, me@, input@).in_flight);
    Ok(header_hash)
}

/// All invitations addressed to `me`, keyed by identifier. A link of `me`
/// that leads to no recipe is passed over and never spoils the others.
pub fn get_my_invitations(net: &Network, me: &AgentKey) -> (result: Result<
    ByteMap<JoinMembraneInvitation>,
    Error,
>)
    requires
        net.wf(),
    ensures
        match result {
            Ok(invitations) => {
                &&& net@.dht.online
                &&& invitations.wf()
                &&& invitations@ == invitations_for(net@.dht, me@)
            },
            Err(error) => !net@.dht.online && error == Error::Storage,
        },
{
    let links = match net.dht.get_links(&Address::Agent(me.clone())) {
        Ok(links) => links,
        Err(error) => { return Err(error); },
    };
    let recipes = match get_clone_dna_recipes(&net.dht, &links) {
        Ok(recipes) => recipes,
        Err(error) => { return Err(error); },
    };
    let pending = pending_invitations(&links, &recipes);
    let inviters = match inviters_of(&net.dht, &pending) {
        Ok(inviters) => inviters,
        Err(error) => { return Err(error); },
    };
    proof {
        net.dht.lemma_wf();
        lemma_invitations_for(net@.dht, me@);
    }
    Ok(assemble_invitations(me, pending, inviters))
}

/// Looks up who created the link behind each pending invitation.
fn inviters_of(dht: &Dht, pending: &Vec<PendingInvitation>) -> (result: Result<
    Vec<Option<AgentKey>>,
    Error,
>)
    requires
        dht.wf(),
    ensures
        match result {
            Ok(inviters) => {
                &&& dht@.online
                &&& optional_views(inviters@) == inviters_for(dht@, ids_of(views(pending@)))
            },
            Err(error) => !dht@.online && error == Error::Storage,
        },
{
    if !dht.is_online() {
        return Err(Error::Storage);
    }
    let mut inviters: Vec<Option<AgentKey>> = Vec::new();
    let mut i: usize = 0;
    while i < pending.len()
        invariant
            dht.wf(),
            dht@.online,
            i <= pending.len(),
            inviters.len() == i,
            forall|j: int|
                0 <= j < i ==> optional_view(#[trigger] inviters[j]) == dht@.author_of(
                    pending[j]@.id,
                ),
        decreases pending.len() - i,
    {
        match dht.get_author(&pending[i].id) {
            Ok(author) => { inviters.push(author); },
            Err(error) => { return Err(error); },
        }
        i += 1;
    }
    assert(optional_views(inviters@) =~= inviters_for(dht@, ids_of(views(pending@))));
    Ok(inviters)
}

/// Retracts the invitation named `invitation_link_hash`. It fails with
/// [`Error::NotFound`] where no such invitation stands, be it that there
/// never was one or that it was retracted before. The recipe stays.
///
/// Whoever holds the identifier may retract the invitation. The inviter
/// holds it from the moment of inviting and the invitee from the listing
/// or the notification, so either of the two can retract; the store keeps
/// no list of who else may, and this operation asks for none.
pub fn remove_invitation(net: &mut Network, invitation_link_hash: &ActionId) -> (result: Result<
    (),
    Error,
>)
    requires
        old(net).wf(),
    ensures
        final(net).wf(),
        result == retraction(old(net)@.dht, invitation_link_hash@),
        final(net)@ == (if result is Ok {
            old(net)@.with_dht(old(net)@.dht.without_link(invitation_link_hash@))
        } else {
            old(net)@
        }),
{
    let result = net.dht.delete_link(invitation_link_hash);
    proof {
        match result {
            Ok(unit) => assert(unit == ()),
            Err(_) => {},
        }
    }
    result
}

} // verus!
