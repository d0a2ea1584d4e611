use membrane_invitations::address::{Address, AgentKey, ContentAddress};
use membrane_invitations::error::Error;
use membrane_invitations::network::Network;
use membrane_invitations::recipe::CloneDnaRecipe;
use membrane_invitations::zome::{create_clone_dna_recipe, get_clone_recipes_for_dna};

fn agent(n: u8) -> AgentKey {
    AgentKey::new(vec![n; 39])
}

fn template(n: u8) -> ContentAddress {
    ContentAddress::new(vec![n; 4])
}

fn recipe(origin: u8, parameters: &[u8]) -> CloneDnaRecipe {
    CloneDnaRecipe { original_dna_hash: template(origin), parameters: parameters.to_vec() }
}

#[test]
fn payload_is_two_fields_with_little_endian_lengths() {
    let r = recipe(7, b"abc");
    assert_eq!(
        r.payload(),
        vec![4, 0, 0, 0, 0, 0, 0, 0, 7, 7, 7, 7, 3, 0, 0, 0, 0, 0, 0, 0, 97, 98, 99]
    );
}

#[test]
fn address_is_the_blake2b_digest_of_the_payload() {
    let r = recipe(7, b"abc");
    let expected: Vec<u8> = vec![
        225, 182, 23, 56, 223, 26, 150, 104, 148, 136, 81, 167, 216, 15, 94, 90, 247, 118, 174,
        57, 22, 57, 227, 92, 102, 239, 214, 32, 215, 248, 202, 34,
    ];
    assert_eq!(r.address().bytes, expected);
    assert_ne!(r.address().bytes, r.payload());
}

#[test]
fn address_of_the_empty_recipe() {
    let r = CloneDnaRecipe { original_dna_hash: ContentAddress::new(vec![]), parameters: vec![] };
    assert_eq!(r.payload(), vec![0u8; 16]);
    let expected: Vec<u8> = vec![
        148, 193, 192, 136, 204, 148, 83, 153, 103, 121, 99, 10, 211, 175, 69, 203, 217, 40, 20,
        130, 141, 215, 132, 207, 42, 161, 45, 249, 93, 27, 138, 254,
    ];
    assert_eq!(r.address().bytes, expected);
}

#[test]
fn equal_recipes_have_equal_addresses_and_different_ones_differ() {
    let a = recipe(1, b"same");
    let b = recipe(1, b"same");
    let c = recipe(1, b"other");
    let d = recipe(2, b"same");
    assert_eq!(a.address(), b.address());
    assert_ne!(a.address(), c.address());
    assert_ne!(a.address(), d.address());
    assert!(a.same_as(&b));
    assert!(!a.same_as(&c));
    assert!(!a.same_as(&d));
}

#[test]
fn moving_a_byte_between_the_parts_changes_the_payload() {
    let a = CloneDnaRecipe {
        original_dna_hash: ContentAddress::new(vec![1, 2]),
        parameters: vec![3],
    };
    let b = CloneDnaRecipe {
        original_dna_hash: ContentAddress::new(vec![1]),
        parameters: vec![2, 3],
    };
    assert_ne!(a.payload(), b.payload());
    assert_ne!(a.address(), b.address());
}

#[test]
fn creating_a_recipe_twice_gives_one_address_and_one_entry() {
    let mut net = Network::new();
    let first = create_clone_dna_recipe(&mut net, &agent(1), recipe(7, b"abc")).unwrap();
    assert_eq!(net.dht.entry_count(), 1);
    let second = create_clone_dna_recipe(&mut net, &agent(1), recipe(7, b"abc")).unwrap();
    assert_eq!(first, second);
    assert_eq!(first, recipe(7, b"abc").address());
    assert_eq!(net.dht.entry_count(), 1);
    assert_eq!(net.dht.link_count(), 2);
}

#[test]
fn creating_a_recipe_from_two_peers_gives_one_entry() {
    let mut net = Network::new();
    let first = create_clone_dna_recipe(&mut net, &agent(1), recipe(7, b"abc")).unwrap();
    let second = create_clone_dna_recipe(&mut net, &agent(2), recipe(7, b"abc")).unwrap();
    assert_eq!(first, second);
    assert_eq!(net.dht.entry_count(), 1);
    let found = get_clone_recipes_for_dna(&net, &template(7)).unwrap();
    assert_eq!(found.len(), 1);
}

#[test]
fn a_created_recipe_is_found_from_its_template() {
    let mut net = Network::new();
    let address = create_clone_dna_recipe(&mut net, &agent(1), recipe(7, b"abc")).unwrap();
    let found = get_clone_recipes_for_dna(&net, &template(7)).unwrap();
    assert_eq!(found.len(), 1);
    assert_eq!(found.get(&address.bytes), Some(&recipe(7, b"abc")));
    assert!(found.contains_key(&address.bytes));
}

#[test]
fn recipes_are_found_by_template_only() {
    let mut net = Network::new();
    let a = create_clone_dna_recipe(&mut net, &agent(1), recipe(7, b"a")).unwrap();
    let b = create_clone_dna_recipe(&mut net, &agent(2), recipe(7, b"b")).unwrap();
    let c = create_clone_dna_recipe(&mut net, &agent(1), recipe(8, b"c")).unwrap();
    let of_seven = get_clone_recipes_for_dna(&net, &template(7)).unwrap();
    assert_eq!(of_seven.len(), 2);
    assert_eq!(of_seven.get(&a.bytes), Some(&recipe(7, b"a")));
    assert_eq!(of_seven.get(&b.bytes), Some(&recipe(7, b"b")));
    assert_eq!(of_seven.get(&c.bytes), None);
    let of_eight = get_clone_recipes_for_dna(&net, &template(8)).unwrap();
    assert_eq!(of_eight.len(), 1);
    assert_eq!(of_eight.get(&c.bytes), Some(&recipe(8, b"c")));
    let of_nine = get_clone_recipes_for_dna(&net, &template(9)).unwrap();
    assert!(of_nine.is_empty());
}

#[test]
fn a_template_without_recipes_has_an_empty_listing() {
    let net = Network::new();
    let found = get_clone_recipes_for_dna(&net, &template(1)).unwrap();
    assert_eq!(found.len(), 0);
    assert!(found.is_empty());
}

#[test]
fn links_that_lead_to_no_recipe_are_passed_over() {
    let mut net = Network::new();
    let good = create_clone_dna_recipe(&mut net, &agent(1), recipe(7, b"good")).unwrap();
    let base = Address::Entry(template(7));
    // a link to content of another protocol
    let foreign = ContentAddress::new(vec![9; 32]);
    net.dht.create_foreign_entry(&foreign, vec![1, 2, 3]).unwrap();
    net.dht
        .create_link(&agent(1), Address::Entry(template(7)), Address::Entry(foreign.clone()), vec![])
        .unwrap();
    // a link to content that is not in the store
    let missing = ContentAddress::new(vec![8; 32]);
    net.dht
        .create_link(&agent(1), Address::Entry(template(7)), Address::Entry(missing.clone()), vec![])
        .unwrap();
    // a link to a peer
    net.dht
        .create_link(&agent(1), Address::Entry(template(7)), Address::Agent(agent(3)), vec![])
        .unwrap();
    assert_eq!(net.dht.get_links(&base).unwrap().len(), 4);
    let found = get_clone_recipes_for_dna(&net, &template(7)).unwrap();
    assert_eq!(found.len(), 1);
    assert_eq!(found.get(&good.bytes), Some(&recipe(7, b"good")));
    assert_eq!(found.get(&foreign.bytes), None);
    assert_eq!(found.get(&missing.bytes), None);
}

#[test]
fn a_retracted_link_hides_the_recipe_from_the_listing_but_keeps_the_entry() {
    let mut net = Network::new();
    let address = create_clone_dna_recipe(&mut net, &agent(1), recipe(7, b"abc")).unwrap();
    let links = net.dht.get_links(&Address::Entry(template(7))).unwrap();
    assert_eq!(links.len(), 1);
    assert_eq!(links[0].target, Address::Entry(address));
    assert_eq!(links[0].tag, Vec::<u8>::new());
    net.dht.delete_link(&links[0].create_link_hash).unwrap();
    assert!(get_clone_recipes_for_dna(&net, &template(7)).unwrap().is_empty());
    assert_eq!(net.dht.entry_count(), 1);
}

#[test]
fn content_that_sits_at_a_recipes_address_is_not_replaced() {
    let mut net = Network::new();
    let r = recipe(7, b"abc");
    net.dht.create_foreign_entry(&r.address(), vec![0]).unwrap();
    let address = create_clone_dna_recipe(&mut net, &agent(1), recipe(7, b"abc")).unwrap();
    assert_eq!(address, r.address());
    assert_eq!(net.dht.entry_count(), 1);
    assert!(get_clone_recipes_for_dna(&net, &template(7)).unwrap().is_empty());
}

#[test]
fn creating_a_recipe_fails_while_the_store_is_away_and_changes_nothing() {
    let mut net = Network::new();
    net.dht.set_online(false);
    let result = create_clone_dna_recipe(&mut net, &agent(1), recipe(7, b"abc"));
    assert_eq!(result, Err(Error::Storage));
    assert_eq!(net.dht.entry_count(), 0);
    assert_eq!(net.dht.link_count(), 0);
    assert_eq!(get_clone_recipes_for_dna(&net, &template(7)).err(), Some(Error::Storage));
    net.dht.set_online(true);
    assert!(get_clone_recipes_for_dna(&net, &template(7)).unwrap().is_empty());
}
