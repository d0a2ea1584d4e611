use crate::address::{ActionId, Address, AddressView, AgentKey, ContentAddress};
use crate::bytemap::ByteMap;
use crate::error::Error;
use crate::recipe::{recipe_address, CloneDnaRecipe, RecipeView};
use crate::view::{optional_view, views};
use vstd::bytes::{
    lemma_auto_spec_u64_to_from_le_bytes, spec_u64_from_le_bytes, spec_u64_to_le_bytes,
    u64_from_le_bytes, u64_to_le_bytes,
};
use vstd::prelude::*;

verus! {

/// What is stored under a content address: a recipe, or content that some
/// other protocol put there and that does not read as a recipe.
#[derive(Debug, PartialEq, Eq)]
pub enum EntryContent {
    Recipe(CloneDnaRecipe),
    Other(Vec<u8>),
}

/// An [`EntryContent`] as a mathematical value.
pub enum EntryContentView {
    Recipe(RecipeView),
    Other(Seq<u8>),
}

impl View for EntryContent {
    type V = EntryContentView;

    open spec fn view(&self) -> EntryContentView {
        match self {
            EntryContent::Recipe(recipe) => EntryContentView::Recipe(recipe@),
            EntryContent::Other(bytes) => EntryContentView::Other(bytes@),
        }
    }
}

impl Clone for EntryContent {
    fn clone(&self) -> (copy: Self)
        ensures
            copy@ == self@,
    {
        match self {
            EntryContent::Recipe(recipe) => EntryContent::Recipe(recipe.clone()),
            EntryContent::Other(bytes) => EntryContent::Other(bytes.clone()),
        }
    }
}

/// One answer of a read: the content found, with the address it is
/// stored under.
#[derive(Debug, PartialEq, Eq)]
pub struct Fetched {
    pub address: ContentAddress,
    pub content: EntryContent,
}

/// A [`Fetched`] as a mathematical value.
pub struct FetchedView {
    pub address: Seq<u8>,
    pub content: EntryContentView,
}

impl View for Fetched {
    type V = FetchedView;

    open spec fn view(&self) -> FetchedView {
        FetchedView { address: self.address@, content: self.content@ }
    }
}

/// A link as the store hands it out to a reader who asked by its base.
#[derive(Debug, PartialEq, Eq)]
pub struct Link {
    pub target: Address,
    pub tag: Vec<u8>,
    /// The identifier of the action that created the link.
    pub create_link_hash: ActionId,
}

/// A [`Link`] as a mathematical value.
pub struct LinkView {
    pub target: AddressView,
    pub tag: Seq<u8>,
    pub create_link_hash: Seq<u8>,
}

impl View for Link {
    type V = LinkView;

    open spec fn view(&self) -> LinkView {
        LinkView { target: self.target@, tag: self.tag@, create_link_hash: self.create_link_hash@ }
    }
}

/// The store's record of one link-creation: the link, who created it, and
/// whether it still stands or has been retracted.
#[derive(Debug, PartialEq, Eq)]
pub struct LinkRecord {
    pub id: ActionId,
    pub author: AgentKey,
    pub base: Address,
    pub target: Address,
    pub tag: Vec<u8>,
    pub live: bool,
}

/// A [`LinkRecord`] as a mathematical value.
pub struct LinkRecordView {
    pub id: Seq<u8>,
    pub author: Seq<u8>,
    pub base: AddressView,
    pub target: AddressView,
    pub tag: Seq<u8>,
    pub live: bool,
}

impl View for LinkRecord {
    type V = LinkRecordView;

    open spec fn view(&self) -> LinkRecordView {
        LinkRecordView {
            id: self.id@,
            author: self.author@,
            base: self.base@,
            target: self.target@,
            tag: self.tag@,
            live: self.live,
        }
    }
}

impl LinkRecordView {
    /// The link as a reader sees it.
    pub open spec fn link(self) -> LinkView {
        LinkView { target: self.target, tag: self.tag, create_link_hash: self.id }
    }

    /// The same record, retracted.
    pub open spec fn retracted(self) -> LinkRecordView {
        LinkRecordView {
            id: self.id,
            author: self.author,
            base: self.base,
            target: self.target,
            tag: self.tag,
            live: false,
        }
    }
}

/// The identifier given to the link-creation that is recorded at
/// position `index`: the position as eight little-endian bytes.
pub open spec fn link_id(index: nat) -> Seq<u8> {
    spec_u64_to_le_bytes(index as u64)
}

/// The position that an identifier of eight bytes stands for.
pub open spec fn id_index(id: Seq<u8>) -> int {
    spec_u64_from_le_bytes(id) as int
}

/// The links among `records` that still stand and start at `base`, in the
/// order in which they were created.
pub open spec fn live_links(records: Seq<LinkRecordView>, base: AddressView) -> Seq<LinkView>
    decreases records.len(),
{
    if records.len() == 0 {
        Seq::empty()
    } else {
        let earlier = live_links(records.drop_last(), base);
        if records.last().live && records.last().base == base {
            earlier.push(records.last().link())
        } else {
            earlier
        }
    }
}

/// Whether a recorded link still stands and starts at `base`.
pub open spec fn stands_from(record: LinkRecordView, base: AddressView) -> bool {
    record.live && record.base == base
}

/// Every link handed out comes from a record that still stands and starts
/// at the base asked for. Returns the position of that record.
pub proof fn lemma_live_link_source(records: Seq<LinkRecordView>, base: AddressView, k: int) -> (i:
    int)
    requires
        0 <= k < live_links(records, base).len(),
    ensures
        0 <= i < records.len(),
        stands_from(records[i], base),
        records[i].link() == live_links(records, base)[k],
    decreases records.len(),
{
    let earlier = live_links(records.drop_last(), base);
    if k < earlier.len() {
        lemma_live_link_source(records.drop_last(), base, k)
    } else {
        records.len() - 1
    }
}

/// Every record that still stands and starts at the base asked for is
/// handed out. Returns the position of its link among those handed out.
pub proof fn lemma_live_link_listed(records: Seq<LinkRecordView>, base: AddressView, i: int) -> (k:
    int)
    requires
        0 <= i < records.len(),
        stands_from(records[i], base),
    ensures
        0 <= k < live_links(records, base).len(),
        live_links(records, base)[k] == records[i].link(),
    decreases records.len(),
{
    let earlier = live_links(records.drop_last(), base);
    if i < records.len() - 1 {
        lemma_live_link_listed(records.drop_last(), base, i)
    } else {
        earlier.len() as int
    }
}

/// The shared store as a mathematical value: a table of content keyed by
/// address, and every link-creation ever recorded, oldest first.
pub struct DhtView {
    pub online: bool,
    pub entries: Map<Seq<u8>, EntryContentView>,
    pub links: Seq<LinkRecordView>,
}

impl DhtView {
    /// What holds of every store: a recipe is stored under its own
    /// address, and the link-creation at each position has the identifier
    /// of that position.
    pub open spec fn wf(self) -> bool {
        &&& self.entries.dom().finite()
        &&& self.links.len() <= u64::MAX
        &&& forall|address: Seq<u8>| #[trigger]
            self.entries.contains_key(address) ==> (self.entries[address] matches EntryContentView::Recipe(
                recipe,
            ) ==> recipe_address(recipe) == address)
        &&& forall|i: int|
            0 <= i < self.links.len() ==> (#[trigger] self.links[i]).id == link_id(i as nat)
    }

    /// Whether the store can record one more link-creation.
    pub open spec fn can_record(self) -> bool {
        self.online && self.links.len() < u64::MAX
    }

    /// The identifier that the next link-creation will get.
    pub open spec fn next_link_id(self) -> Seq<u8> {
        link_id(self.links.len())
    }

    /// The record of the link-creation named `id`, if there is one.
    pub open spec fn record_of(self, id: Seq<u8>) -> Option<LinkRecordView> {
        if id.len() == 8 && id_index(id) < self.links.len() {
            Some(self.links[id_index(id)])
        } else {
            None
        }
    }

    /// Whether `id` names a link that still stands.
    pub open spec fn is_live(self, id: Seq<u8>) -> bool {
        self.record_of(id) matches Some(record) && record.live
    }

    /// Who created the link named `id`.
    pub open spec fn author_of(self, id: Seq<u8>) -> Option<Seq<u8>> {
        match self.record_of(id) {
            Some(record) => Some(record.author),
            None => None,
        }
    }

    /// The store after `content` was put under `address`. Content that is
    /// already there stays as it is.
    pub open spec fn with_entry(self, address: Seq<u8>, content: EntryContentView) -> DhtView {
        if self.entries.contains_key(address) {
            self
        } else {
            DhtView {
                online: self.online,
                entries: self.entries.insert(address, content),
                links: self.links,
            }
        }
    }

    /// The store after one more link-creation was recorded.
    pub open spec fn with_link(
        self,
        author: Seq<u8>,
        base: AddressView,
        target: AddressView,
        tag: Seq<u8>,
    ) -> DhtView {
        DhtView {
            online: self.online,
            entries: self.entries,
            links: self.links.push(
                LinkRecordView { id: self.next_link_id(), author, base, target, tag, live: true },
            ),
        }
    }

    /// The store after the link named `id` was retracted.
    pub open spec fn without_link(self, id: Seq<u8>) -> DhtView {
        DhtView {
            online: self.online,
            entries: self.entries,
            links: self.links.update(id_index(id), self.links[id_index(id)].retracted()),
        }
    }

    /// The links that still stand and start at `base`, oldest first.
    pub open spec fn links_from(self, base: AddressView) -> Seq<LinkView> {
        live_links(self.links, base)
    }

    /// What a read of `target` finds. Only content has an entry: a peer's
    /// key has none.
    pub open spec fn fetch(self, target: AddressView) -> Option<FetchedView> {
        match target {
            AddressView::Entry(address) => {
                if self.entries.contains_key(address) {
                    Some(FetchedView { address, content: self.entries[address] })
                } else {
                    None
                }
            },
            AddressView::Agent(_) => None,
        }
    }

    /// The store with its connection switched on or off.
    pub open spec fn with_online(self, online: bool) -> DhtView {
        DhtView { online, entries: self.entries, links: self.links }
    }
}

/// Positions below 2^64 have pairwise different identifiers, and each
/// identifier leads back to its position.
pub proof fn lemma_link_id_index(index: nat)
    requires
        index <= u64::MAX,
    ensures
        link_id(index).len() == 8,
        id_index(link_id(index)) == index,
{
    lemma_auto_spec_u64_to_from_le_bytes();
}

/// An identifier of eight bytes is the identifier of its position.
pub proof fn lemma_id_of_index(id: Seq<u8>)
    requires
        id.len() == 8,
    ensures
        0 <= id_index(id) <= u64::MAX,
        link_id(id_index(id) as nat) == id,
{
    lemma_auto_spec_u64_to_from_le_bytes();
    assert(spec_u64_to_le_bytes(spec_u64_from_le_bytes(id)) == id);
}

/// A model of the shared store that keeps everything in memory: content
/// under its address, and links that are created once and later at most
/// retracted.
#[derive(Debug)]
pub struct Dht {
    online: bool,
    entries: ByteMap<EntryContent>,
    links: Vec<LinkRecord>,
}

impl View for Dht {
    type V = DhtView;

    closed spec fn view(&self) -> DhtView {
        DhtView { online: self.online, entries: self.entries@, links: views(self.links@) }
    }
}

impl Dht {
    /// The store's representation is sound and its content well formed.
    pub closed spec fn wf(&self) -> bool {
        &&& self.entries.wf()
        &&& self@.wf()
    }

    /// A well-formed store has well-formed content.
    pub proof fn lemma_wf(&self)
        requires
            self.wf(),
        ensures
            self@.wf(),
    {
    }

    /// An empty store that is connected.
    pub fn new() -> (dht: Dht)
        ensures
            dht.wf(),
            dht@.online,
            dht@.entries == Map::<Seq<u8>, EntryContentView>::empty(),
            dht@.links == Seq::<LinkRecordView>::empty(),
    {
        let dht = Dht { online: true, entries: ByteMap::new(), links: Vec::new() };
        assert(dht@.links =~= Seq::<LinkRecordView>::empty());
        dht
    }

    /// Connects or disconnects the store. While it is disconnected every
    /// request fails and nothing changes.
    pub fn set_online(&mut self, online: bool)
        requires
            old(self).wf(),
        ensures
            final(self).wf(),
            final(self)@ == old(self)@.with_online(online),
    {
        self.online = online;
    }

    pub fn is_online(&self) -> (online: bool)
        ensures
            online == self@.online,
    {
        self.online
    }

    /// Whether the store can record one more link-creation.
    pub fn can_record(&self) -> (ok: bool)
        ensures
            ok == self@.can_record(),
    {
        self.online && (self.links.len() as u64) < u64::MAX
    }

    /// Number of entries stored.
    pub fn entry_count(&self) -> (n: usize)
        requires
            self.wf(),
        ensures
            n == self@.entries.len(),
    {
        self.entries.len()
    }

    /// Number of link-creations recorded, retracted ones included.
    pub fn link_count(&self) -> (n: usize)
        ensures
            n == self@.links.len(),
    {
        self.links.len()
    }

    /// Stores a recipe under its address and returns that address. Storing
    /// a recipe whose address is taken changes nothing.
    pub fn create_entry(&mut self, recipe: &CloneDnaRecipe) -> (result: Result<
        ContentAddress,
        Error,
    >)
        requires
            old(self).wf(),
        ensures
            final(self).wf(),
            match result {
                Ok(address) => {
                    &&& old(self)@.online
                    &&& address@ == recipe_address(recipe@)
                    &&& final(self)@ == old(self)@.with_entry(
                        recipe_address(recipe@),
                        EntryContentView::Recipe(recipe@),
                    )
                },
                Err(error) => {
                    &&& !old(self)@.online
                    &&& error == Error::Storage
                    &&& final(self)@ == old(self)@
                },
            },
    {
        if !self.online {
            return Err(Error::Storage);
        }
        let address = recipe.address();
        if !self.entries.contains_key(&address.bytes) {
            self.entries.insert(address.bytes.clone(), EntryContent::Recipe(recipe.clone()));
        }
        Ok(address)
    }

    /// Stores content of another protocol under an address of the caller's
    /// choosing. Content whose address is taken changes nothing.
    pub fn create_foreign_entry(&mut self, address: &ContentAddress, content: Vec<u8>) -> (result:
        Result<(), Error>)
        requires
            old(self).wf(),
        ensures
            final(self).wf(),
            match result {
                Ok(_) => {
                    &&& old(self)@.online
                    &&& final(self)@ == old(self)@.with_entry(
                        address@,
                        EntryContentView::Other(content@),
                    )
                },
                Err(error) => {
                    &&& !old(self)@.online
                    &&& error == Error::Storage
                    &&& final(self)@ == old(self)@
                },
            },
    {
        if !self.online {
            return Err(Error::Storage);
        }
        if !self.entries.contains_key(&address.bytes) {
            self.entries.insert(address.bytes.clone(), EntryContent::Other(content));
        }
        Ok(())
    }

    /// Records the creation of a link by `author` and returns the
    /// identifier of that creation.
    pub fn create_link(
        &mut self,
        author: &AgentKey,
        base: Address,
        target: Address,
        tag: Vec<u8>,
    ) -> (result: Result<ActionId, Error>)
        requires
            old(self).wf(),
        ensures
            final(self).wf(),
            match result {
                Ok(id) => {
                    &&& old(self)@.can_record()
                    &&& id@ == old(self)@.next_link_id()
                    &&& final(self)@ == old(self)@.with_link(author@, base@, target@, tag@)
                },
                Err(error) => {
                    &&& !old(self)@.can_record()
                    &&& error == Error::Storage
                    &&& final(self)@ == old(self)@
                },
            },
    {
        let count = self.links.len() as u64;
        if !self.online || count == u64::MAX {
            return Err(Error::Storage);
        }
        let id = ActionId::new(u64_to_le_bytes(count));
        let record = LinkRecord {
            id: id.clone(),
            author: author.clone(),
            base,
            target,
            tag,
            live: true,
        };
        self.links.push(record);
        proof {
            assert(self@.links =~= old(self)@.with_link(author@, base@, target@, tag@).links);
        }
        Ok(id)
    }

    /// Where the record of the link-creation named `id` stands.
    fn position_of(&self, id: &ActionId) -> (found: Option<usize>)
        requires
            self.wf(),
        ensures
            match found {
                Some(i) => {
                    &&& i < self.links.len()
                    &&& i == id_index(id@)
                    &&& self@.record_of(id@) == Some(self@.links[i as int])
                    &&& self.links[i as int]@ == self@.links[i as int]
                },
                None => self@.record_of(id@) is None,
            },
    {
        if id.bytes.len() != 8 {
            return None;
        }
        let index = u64_from_le_bytes(id.bytes.as_slice());
        if index < self.links.len() as u64 {
            Some(index as usize)
        } else {
            None
        }
    }

    /// All links that still stand and start at `base`, oldest first.
    pub fn get_links(&self, base: &Address) -> (result: Result<Vec<Link>, Error>)
        requires
            self.wf(),
        ensures
            match result {
                Ok(links) => self@.online && views(links@) == self@.links_from(base@),
                Err(error) => !self@.online && error == Error::Storage,
            },
    {
        if !self.online {
            return Err(Error::Storage);
        }
        let mut found: Vec<Link> = Vec::new();
        let mut i: usize = 0;
        assert(self@.links.take(0) =~= Seq::<LinkRecordView>::empty());
        assert(views(found@) =~= Seq::<LinkView>::empty());
        while i < self.links.len()
            invariant
                i <= self.links.len(),
                views(found@) == live_links(self@.links.take(i as int), base@),
            decreases self.links.len() - i,
        {
            let record = &self.links[i];
            proof {
                let upto = self@.links.take(i + 1);
                assert(upto.drop_last() =~= self@.links.take(i as int));
                assert(upto.last() == record@);
            }
            if record.live && record.base.same_as(base) {
                let ghost before = found@;
                found.push(
                    Link {
                        target: record.target.clone(),
                        tag: record.tag.clone(),
                        create_link_hash: record.id.clone(),
                    },
                );
                assert(views(found@) =~= views(before).push(record@.link()));
            }
            i += 1;
        }
        assert(self@.links.take(i as int) =~= self@.links);
        Ok(found)
    }

    /// Reads every target in one request. The answers stand in the order
    /// of the targets: what is stored there, or nothing.
    pub fn get(&self, targets: &Vec<Address>) -> (result: Result<Vec<Option<Fetched>>, Error>)
        requires
            self.wf(),
        ensures
            match result {
                Ok(answers) => {
                    &&& self@.online
                    &&& answers.len() == targets.len()
                    &&& forall|i: int|
                        0 <= i < answers.len() ==> optional_view(#[trigger] answers[i])
                            == self@.fetch(targets[i]@)
                },
                Err(error) => !self@.online && error == Error::Storage,
            },
    {
        if !self.online {
            return Err(Error::Storage);
        }
        let mut answers: Vec<Option<Fetched>> = Vec::new();
        let mut i: usize = 0;
        while i < targets.len()
            invariant
                self.wf(),
                i <= targets.len(),
                answers.len() == i,
                forall|j: int|
                    0 <= j < i ==> optional_view(#[trigger] answers[j]) == self@.fetch(
                        targets[j]@,
                    ),
            decreases targets.len() - i,
        {
            let answer = match &targets[i] {
                Address::Entry(address) => {
                    match self.entries.get(&address.bytes) {
                        Some(content) => Some(
                            Fetched { address: address.clone(), content: content.clone() },
                        ),
                        None => None,
                    }
                },
                Address::Agent(_) => None,
            };
            answers.push(answer);
            i += 1;
        }
        Ok(answers)
    }

    /// Who created the link named `id`, whether or not it still stands.
    pub fn get_author(&self, id: &ActionId) -> (result: Result<Option<AgentKey>, Error>)
        requires
            self.wf(),
        ensures
            match result {
                Ok(author) => self@.online && optional_view(author) == self@.author_of(id@),
                Err(error) => !self@.online && error == Error::Storage,
            },
    {
        if !self.online {
            return Err(Error::Storage);
        }
        match self.position_of(id) {
            Some(i) => Ok(Some(self.links[i].author.clone())),
            None => Ok(None),
        }
    }

    /// Retracts the link named `id`. Only a link that still stands can be
    /// retracted.
    pub fn delete_link(&mut self, id: &ActionId) -> (result: Result<(), Error>)
        requires
            old(self).wf(),
        ensures
            final(self).wf(),
            match result {
                Ok(_) => {
                    &&& old(self)@.online
                    &&& old(self)@.is_live(id@)
                    &&& final(self)@ == old(self)@.without_link(id@)
                },
                Err(error) => {
                    &&& final(self)@ == old(self)@
                    &&& error == (if old(self)@.online {
                        Error::NotFound
                    } else {
                        Error::Storage
                    })
                    &&& old(self)@.online ==> !old(self)@.is_live(id@)
                },
            },
    {
        if !self.online {
            return Err(Error::Storage);
        }
        match self.position_of(id) {
            Some(i) => {
                if !self.links[i].live {
                    return Err(Error::NotFound);
                }
                let record = &self.links[i];
                let retracted = LinkRecord {
                    id: record.id.clone(),
                    author: record.author.clone(),
                    base: record.base.clone(),
                    target: record.target.clone(),
                    tag: record.tag.clone(),
                    live: false,
                };
                self.links.set(i, retracted);
                proof {
                    assert(self@.links =~= old(self)@.without_link(id@).links);
                }
                Ok(())
            },
            None => Err(Error::NotFound),
        }
    }
}

} // verus!
