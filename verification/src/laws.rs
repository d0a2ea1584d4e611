use crate::address::AddressView;
use crate::dht::{
    id_index, lemma_id_of_index, lemma_link_id_index, stands_from, DhtView, EntryContentView,
};
use crate::invitation::{
    lemma_proof_round_trip, proof_to_tag, tag_to_proof, InvitationView, InviteInputView,
};
use crate::network::NetworkView;
use crate::recipe::{recipe_address, RecipeView};
use crate::capability::{lemma_signal_grant_covers, RECV_REMOTE_SIGNAL};
use crate::error::Error;
use crate::invitation::SignalView;
use crate::zome::{
    after_create_recipe, after_init, after_invite, invitation_at, invitations_for, leads_to,
    recipe_at, recipes_for, retraction,
};
use vstd::prelude::*;

verus! {

/// Recording a link keeps a store well formed, as long as the store has
/// room for it.
pub proof fn lemma_with_link_wf(
    dht: DhtView,
    author: Seq<u8>,
    base: AddressView,
    target: AddressView,
    tag: Seq<u8>,
)
    requires
        dht.wf(),
        dht.links.len() < u64::MAX,
    ensures
        dht.with_link(author, base, target, tag).wf(),
{
}

/// Storing a recipe under its address keeps a store well formed.
pub proof fn lemma_with_recipe_wf(dht: DhtView, recipe: RecipeView)
    requires
        dht.wf(),
    ensures
        dht.with_entry(recipe_address(recipe), EntryContentView::Recipe(recipe)).wf(),
{
}

/// Retracting a link keeps a store well formed.
pub proof fn lemma_without_link_wf(dht: DhtView, id: Seq<u8>)
    requires
        dht.wf(),
        dht.record_of(id) is Some,
    ensures
        dht.without_link(id).wf(),
{
}

/// What one more link does to the invitations of a peer: where the link
/// starts at that peer and leads to a recipe in the store, there is one
/// more invitation, under the identifier of the link; otherwise nothing
/// changes.
pub proof fn lemma_invitations_after_link(
    dht: DhtView,
    me: Seq<u8>,
    author: Seq<u8>,
    base: AddressView,
    target: AddressView,
    tag: Seq<u8>,
)
    requires
        dht.wf(),
        dht.links.len() < u64::MAX,
    ensures
        !invitations_for(dht, me).contains_key(dht.next_link_id()),
        invitations_for(dht.with_link(author, base, target, tag), me) == (if base
            == AddressView::Agent(me) && recipe_at(dht, target) is Some {
            invitations_for(dht, me).insert(
                dht.next_link_id(),
                InvitationView {
                    clone_dna_recipe: recipe_at(dht, target).unwrap(),
                    inviter: author,
                    invitee: me,
                    membrane_proof: tag_to_proof(tag),
                },
            )
        } else {
            invitations_for(dht, me)
        }),
{
    let after = dht.with_link(author, base, target, tag);
    let fresh = dht.next_link_id();
    let count = dht.links.len();
    lemma_link_id_index(count);
    let expected = if base == AddressView::Agent(me) && recipe_at(dht, target) is Some {
        invitations_for(dht, me).insert(
            fresh,
            InvitationView {
                clone_dna_recipe: recipe_at(dht, target).unwrap(),
                inviter: author,
                invitee: me,
                membrane_proof: tag_to_proof(tag),
            },
        )
    } else {
        invitations_for(dht, me)
    };
    assert forall|id: Seq<u8>| #![auto] invitation_at(after, me, id) == (if id == fresh {
        invitation_at(after, me, fresh)
    } else {
        invitation_at(dht, me, id)
    }) by {
        if id != fresh {
            if id.len() == 8 {
                lemma_id_of_index(id);
            }
            assert(after.record_of(id) == dht.record_of(id));
            if dht.record_of(id) is Some {
                assert(recipe_at(after, dht.record_of(id).unwrap().target) == recipe_at(
                    dht,
                    dht.record_of(id).unwrap().target,
                ));
            }
        }
    }
    assert(after.record_of(fresh) == Some(after.links[count as int]));
    assert(recipe_at(after, target) == recipe_at(dht, target));
    assert(invitations_for(after, me) =~= expected);
}

/// What the retraction of a link does to the invitations of a peer: the
/// invitation under that identifier is gone, the others stay as they
/// were.
pub proof fn lemma_invitations_after_retraction(dht: DhtView, me: Seq<u8>, id: Seq<u8>)
    requires
        dht.wf(),
        dht.record_of(id) is Some,
    ensures
        invitations_for(dht.without_link(id), me) == invitations_for(dht, me).remove(id),
{
    let after = dht.without_link(id);
    lemma_id_of_index(id);
    assert forall|other: Seq<u8>| #![auto] invitation_at(after, me, other) == (if other == id {
        None
    } else {
        invitation_at(dht, me, other)
    }) by {
        if other != id {
            if other.len() == 8 && id_index(other) < dht.links.len() {
                lemma_id_of_index(other);
                assert(id_index(other) != id_index(id));
                assert(after.record_of(other) == dht.record_of(other));
                assert(recipe_at(after, dht.record_of(other).unwrap().target) == recipe_at(
                    dht,
                    dht.record_of(other).unwrap().target,
                ));
            }
        }
    }
    assert(invitations_for(after, me) =~= invitations_for(dht, me).remove(id));
}

/// Publishing a recipe twice is the same as publishing it once, as far as
/// stored content goes: both times it gets the same address, which is a
/// function of the recipe alone; after the first time the store holds one
/// entry under that address, and the second time adds none.
pub proof fn law_create_recipe_is_idempotent(
    dht: DhtView,
    first: Seq<u8>,
    second: Seq<u8>,
    recipe: RecipeView,
)
    requires
        dht.wf(),
    ensures
        ({
            let once = after_create_recipe(dht, first, recipe);
            let twice = after_create_recipe(once, second, recipe);
            &&& once.entries.contains_key(recipe_address(recipe))
            &&& twice.entries == once.entries
            &&& twice.entries.len() == once.entries.len()
            &&& !dht.entries.contains_key(recipe_address(recipe)) ==> {
                &&& once.entries[recipe_address(recipe)] == EntryContentView::Recipe(recipe)
                &&& once.entries.len() == dht.entries.len() + 1
            }
        }),
{
}

/// A recipe that was published is found from the template it clones,
/// under its address. This holds unless other content already sat at
/// that address.
pub proof fn law_created_recipe_is_found(dht: DhtView, me: Seq<u8>, recipe: RecipeView)
    requires
        dht.wf(),
        dht.entries.contains_key(recipe_address(recipe)) ==> dht.entries[recipe_address(recipe)]
            == EntryContentView::Recipe(recipe),
    ensures
        ({
            let after = after_create_recipe(dht, me, recipe);
            &&& recipes_for(after, recipe.original_dna_hash).contains_key(recipe_address(recipe))
            &&& recipes_for(after, recipe.original_dna_hash)[recipe_address(recipe)] == recipe
        }),
{
    let after = after_create_recipe(dht, me, recipe);
    let last = after.links.len() - 1;
    assert(stands_from(after.links[last], AddressView::Entry(recipe.original_dna_hash)));
    assert(leads_to(after, recipe.original_dna_hash, recipe_address(recipe)));
}

/// An invitation is read back as it was made. After `me` invited as
/// `input` says, the invitee has one invitation more than before: under
/// the identifier that the inviter was given, with `me` as inviter and
/// with the recipe and the proof of `input`. This holds where the store
/// holds the recipe and the proof, if there is one, is not empty.
pub proof fn law_invitation_round_trip(net: NetworkView, me: Seq<u8>, input: InviteInputView)
    requires
        net.dht.wf(),
        net.dht.can_record(),
        recipe_at(net.dht, AddressView::Entry(recipe_address(input.clone_dna_recipe))) == Some(
            input.clone_dna_recipe,
        ),
        input.membrane_proof != Some(Seq::<u8>::empty()),
    ensures
        ({
            let after = after_invite(net, me, input);
            let id = net.dht.next_link_id();
            &&& after.dht.wf()
            &&& !invitations_for(net.dht, input.invitee).contains_key(id)
            &&& invitations_for(after.dht, input.invitee) == invitations_for(
                net.dht,
                input.invitee,
            ).insert(
                id,
                InvitationView {
                    clone_dna_recipe: input.clone_dna_recipe,
                    inviter: me,
                    invitee: input.invitee,
                    membrane_proof: input.membrane_proof,
                },
            )
        }),
{
    lemma_proof_round_trip(input.membrane_proof);
    lemma_invitations_after_link(
        net.dht,
        input.invitee,
        me,
        AddressView::Agent(input.invitee),
        AddressView::Entry(recipe_address(input.clone_dna_recipe)),
        proof_to_tag(input.membrane_proof),
    );
}

/// An invitation made without a proof is read back without a proof, not
/// with an empty one.
pub proof fn law_absent_proof_reads_back_absent(
    net: NetworkView,
    me: Seq<u8>,
    invitee: Seq<u8>,
    recipe: RecipeView,
)
    requires
        net.dht.wf(),
        net.dht.can_record(),
        recipe_at(net.dht, AddressView::Entry(recipe_address(recipe))) == Some(recipe),
    ensures
        ({
            let input = InviteInputView { clone_dna_recipe: recipe, invitee, membrane_proof: None };
            let after = after_invite(net, me, input);
            let id = net.dht.next_link_id();
            &&& invitations_for(after.dht, invitee).contains_key(id)
            &&& invitations_for(after.dht, invitee)[id].membrane_proof == None::<Seq<u8>>
        }),
{
    let input = InviteInputView { clone_dna_recipe: recipe, invitee, membrane_proof: None };
    law_invitation_round_trip(net, me, input);
}

/// An invitation concerns its invitee alone: the invitations of every
/// other peer stay as they were.
pub proof fn law_invitation_leaves_others_alone(
    net: NetworkView,
    me: Seq<u8>,
    input: InviteInputView,
    other: Seq<u8>,
)
    requires
        net.dht.wf(),
        net.dht.can_record(),
        other != input.invitee,
    ensures
        invitations_for(after_invite(net, me, input).dht, other) == invitations_for(net.dht, other),
{
    lemma_invitations_after_link(
        net.dht,
        other,
        me,
        AddressView::Agent(input.invitee),
        AddressView::Entry(recipe_address(input.clone_dna_recipe)),
        proof_to_tag(input.membrane_proof),
    );
}

/// A retracted invitation is gone. Where the invitation named `id` was
/// retracted, no peer has an invitation under `id` any more and every
/// other invitation is as it was; retracting it again fails, as nothing
/// is found; and the stored content is untouched.
pub proof fn law_retraction(dht: DhtView, me: Seq<u8>, id: Seq<u8>)
    requires
        dht.wf(),
        retraction(dht, id) is Ok,
    ensures
        ({
            let after = dht.without_link(id);
            &&& after.wf()
            &&& !invitations_for(after, me).contains_key(id)
            &&& invitations_for(after, me) == invitations_for(dht, me).remove(id)
            &&& retraction(after, id) == Err::<(), Error>(Error::NotFound)
            &&& after.entries == dht.entries
        }),
{
    lemma_invitations_after_retraction(dht, me, id);
    lemma_id_of_index(id);
}

/// Two invitations to one peer never get in each other's way. If one
/// peer invites with one recipe and then another peer invites with
/// another, the invitee has both invitations, under two different
/// identifiers, each with its own inviter and recipe. As the peers and
/// recipes are arbitrary, this holds in whichever order the two
/// invitations are made.
pub proof fn law_invitations_are_independent(
    net: NetworkView,
    first_inviter: Seq<u8>,
    first: InviteInputView,
    second_inviter: Seq<u8>,
    second: InviteInputView,
)
    requires
        net.dht.wf(),
        first.invitee == second.invitee,
        net.dht.can_record(),
        after_invite(net, first_inviter, first).dht.can_record(),
        recipe_at(net.dht, AddressView::Entry(recipe_address(first.clone_dna_recipe))) == Some(
            first.clone_dna_recipe,
        ),
        recipe_at(net.dht, AddressView::Entry(recipe_address(second.clone_dna_recipe))) == Some(
            second.clone_dna_recipe,
        ),
    ensures
        ({
            let between = after_invite(net, first_inviter, first);
            let after = after_invite(between, second_inviter, second);
            let first_id = net.dht.next_link_id();
            let second_id = between.dht.next_link_id();
            let listed = invitations_for(after.dht, first.invitee);
            &&& first_id != second_id
            &&& listed.contains_key(first_id)
            &&& listed.contains_key(second_id)
            &&& listed[first_id].inviter == first_inviter
            &&& listed[first_id].clone_dna_recipe == first.clone_dna_recipe
            &&& listed[second_id].inviter == second_inviter
            &&& listed[second_id].clone_dna_recipe == second.clone_dna_recipe
            &&& listed == invitations_for(net.dht, first.invitee).insert(
                first_id,
                listed[first_id],
            ).insert(second_id, listed[second_id])
        }),
{
    let invitee = first.invitee;
    let between = after_invite(net, first_inviter, first);
    let count = net.dht.links.len();
    lemma_link_id_index(count);
    lemma_link_id_index(count + 1);
    lemma_invitations_after_link(
        net.dht,
        invitee,
        first_inviter,
        AddressView::Agent(invitee),
        AddressView::Entry(recipe_address(first.clone_dna_recipe)),
        proof_to_tag(first.membrane_proof),
    );
    lemma_with_link_wf(
        net.dht,
        first_inviter,
        AddressView::Agent(invitee),
        AddressView::Entry(recipe_address(first.clone_dna_recipe)),
        proof_to_tag(first.membrane_proof),
    );
    assert(recipe_at(between.dht, AddressView::Entry(recipe_address(second.clone_dna_recipe)))
        == recipe_at(net.dht, AddressView::Entry(recipe_address(second.clone_dna_recipe))));
    lemma_invitations_after_link(
        between.dht,
        invitee,
        second_inviter,
        AddressView::Agent(invitee),
        AddressView::Entry(recipe_address(second.clone_dna_recipe)),
        proof_to_tag(second.membrane_proof),
    );
}

/// Notifications are no record. Whatever a peer receives and passes on
/// to its listeners, the invitations of every peer are read from the
/// store alone and stay as they are.
pub proof fn law_signals_leave_invitations_alone(
    net: NetworkView,
    receiver: Seq<u8>,
    signal: SignalView,
    me: Seq<u8>,
)
    ensures
        invitations_for(net.with_emission(receiver, signal).dht, me) == invitations_for(
            net.dht,
            me,
        ),
{
}

/// Starting a module opens its receiving operation and nothing else.
/// After the module `zome` started at `me`, any peer may call that
/// operation at `me`; for every other operation, and at every other
/// peer, what is permitted is what was permitted before. Starting the
/// module again changes nothing.
pub proof fn law_init_opens_signals_only(
    net: NetworkView,
    me: Seq<u8>,
    zome: Seq<char>,
    callee: Seq<u8>,
    other_zome: Seq<char>,
    function: Seq<char>,
)
    ensures
        ({
            let after = after_init(net, me, zome);
            &&& after.permits(me, zome, RECV_REMOTE_SIGNAL@)
            &&& after_init(after, me, zome) == after
            &&& after.dht == net.dht
            &&& (callee != me || other_zome != zome || function != RECV_REMOTE_SIGNAL@)
                ==> after.permits(callee, other_zome, function) == net.permits(
                callee,
                other_zome,
                function,
            )
        }),
{
    let after = after_init(net, me, zome);
    lemma_signal_grant_covers(zome, zome, RECV_REMOTE_SIGNAL@);
    lemma_signal_grant_covers(zome, other_zome, function);
    if !net.permits(me, zome, RECV_REMOTE_SIGNAL@) {
        let last = after.grants.len() - 1;
        assert(after.grants[last].grantor == me);
        assert(after.grants[last].grant.covers(zome, RECV_REMOTE_SIGNAL@));
        if callee != me || other_zome != zome || function != RECV_REMOTE_SIGNAL@ {
            if net.permits(callee, other_zome, function) {
                let i = choose|i: int|
                    0 <= i < net.grants.len() && (#[trigger] net.grants[i]).grantor == callee
                        && net.grants[i].grant.covers(other_zome, function);
                assert(after.grants[i] == net.grants[i]);
            }
            if after.permits(callee, other_zome, function) {
                let i = choose|i: int|
                    0 <= i < after.grants.len() && (#[trigger] after.grants[i]).grantor == callee
                        && after.grants[i].grant.covers(other_zome, function);
                assert(i != last);
                assert(after.grants[i] == net.grants[i]);
            }
        }
    }
}

} // verus!
