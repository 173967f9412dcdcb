//! The contact book: contacts under generated identifiers, and the set of
//! those marked as favorites. A favorite is always a contact of the book.

use crate::contact::{Contact, ContactView};
use crate::fresh::{
    first_free, is_first_free, lemma_first_free, lemma_first_free_is_unique,
    lemma_some_value_free, step_from, steps_between,
};
use std::collections::{HashMap, HashSet};
use vstd::prelude::*;
use vstd::std_specs::cmp::PartialEqSpecImpl;
use vstd::std_specs::iter::IteratorSpec;

verus! {

/// Whether a token has the fixed bits of a random (version 4) UUID: the
/// version digit is 4 and the two variant bits are 1 and 0.
pub open spec fn is_random_token(token: u128) -> bool {
    token & 0x0000_0000_0000_f000_c000_0000_0000_0000u128
        == 0x0000_0000_0000_4000_8000_0000_0000_0000u128
}

/// A random 128-bit token, from `uuid::Uuid::new_v4` and `Uuid::as_u128`.
///
/// Not proved: that the version and variant bits are those of a version 4
/// UUID, which `new_v4` sets by masking the random bits. Nothing is claimed
/// of the other bits. `new_v4` panics where the system has no randomness to
/// give.
#[verifier::external_body]
fn random_token() -> (token: u128)
    ensures
        is_random_token(token),
{
    uuid::Uuid::new_v4().as_u128()
}

/// The identifier of a contact in a book: an opaque 128-bit token.
#[derive(Debug, PartialEq, Eq, Structural, Hash)]
pub struct ContactBookEntryId(u128);

impl View for ContactBookEntryId {
    type V = u128;

    closed spec fn view(&self) -> u128 {
        self.0
    }
}

impl Clone for ContactBookEntryId {
    fn clone(&self) -> (copy: Self)
        ensures
            copy == *self,
    {
        ContactBookEntryId(self.0)
    }
}

impl ContactBookEntryId {
    /// A random identifier.
    pub fn new() -> (id: Self)
        ensures
            is_random_token(id@),
    {
        Self(random_token())
    }

    /// The identifier that stands for `token`.
    pub fn from_u128(token: u128) -> (id: Self)
        ensures
            id@ == token,
    {
        Self(token)
    }

    /// The token that the identifier stands for.
    pub fn as_u128(&self) -> (token: u128)
        ensures
            token == self@,
    {
        self.0
    }
}

/// Two identifiers are equal exactly when they stand for the same token.
pub proof fn lemma_id_is_its_token(one: ContactBookEntryId, other: ContactBookEntryId)
    ensures
        one == other <==> one@ == other@,
{
}

/// Why an operation on a book failed.
#[derive(Debug, PartialEq, Eq, Structural)]
pub enum ContactBookError {
    NoSuchContactInBook,
    CannotFavoriteNonexistantContact,
    ContactWasNotAFavorite,
    CannotRemoveNonexistantContact,
}

impl ContactBookError {
    /// The sentence that describes the error.
    pub open spec fn text(self) -> Seq<char> {
        match self {
            ContactBookError::NoSuchContactInBook => "There is no such contact in the contact book."@,
            ContactBookError::CannotFavoriteNonexistantContact => "Cannot favorite a nonexistant contact."@,
            ContactBookError::ContactWasNotAFavorite => "The given contact was not in the favorites."@,
            ContactBookError::CannotRemoveNonexistantContact => "Cannot remove a nonexistant contact."@,
        }
    }

    /// The sentence that describes the error.
    pub fn message(&self) -> (text: String)
        ensures
            text@ == self.text(),
    {
        match self {
            ContactBookError::NoSuchContactInBook => {
                "There is no such contact in the contact book.".to_owned()
            },
            ContactBookError::CannotFavoriteNonexistantContact => {
                "Cannot favorite a nonexistant contact.".to_owned()
            },
            ContactBookError::ContactWasNotAFavorite => {
                "The given contact was not in the favorites.".to_owned()
            },
            ContactBookError::CannotRemoveNonexistantContact => {
                "Cannot remove a nonexistant contact.".to_owned()
            },
        }
    }
}

/// What a book is: its contacts by the token of their identifier, and the
/// tokens of the favorites.
pub struct ContactBookView {
    pub contacts: Map<u128, ContactView>,
    pub favorites: Set<u128>,
}

impl ContactBookView {
    /// Every favorite is a contact of the book, and the contacts are no more
    /// than a machine can hold.
    pub open spec fn wf(self) -> bool {
        &&& self.contacts.dom().finite()
        &&& self.contacts.len() <= usize::MAX
        &&& self.favorites.subset_of(self.contacts.dom())
    }

    /// The book without contacts.
    pub open spec fn empty() -> Self {
        ContactBookView { contacts: Map::empty(), favorites: Set::empty() }
    }

    /// The identifier that a new contact gets where `token` was drawn for
    /// it: `token` itself, or where a contact has it already, the first
    /// value after it that no contact has.
    pub open spec fn next_id(self, token: u128) -> u128 {
        first_free(self.contacts.dom(), token)
    }

    /// The book with `contact` added under the identifier that `token`
    /// leads to.
    pub open spec fn add_contact(self, contact: ContactView, token: u128) -> Self {
        ContactBookView { contacts: self.contacts.insert(self.next_id(token), contact), ..self }
    }

    /// The contact under `id`, or the error where the book has none.
    pub open spec fn get_contact(self, id: u128) -> Result<ContactView, ContactBookError> {
        if self.contacts.contains_key(id) {
            Ok(self.contacts[id])
        } else {
            Err(ContactBookError::NoSuchContactInBook)
        }
    }

    /// The book with `id` among the favorites, whether or not it was there;
    /// the error where the book has no contact under `id`.
    pub open spec fn add_favorite(self, id: u128) -> Result<Self, ContactBookError> {
        if self.contacts.contains_key(id) {
            Ok(ContactBookView { favorites: self.favorites.insert(id), ..self })
        } else {
            Err(ContactBookError::CannotFavoriteNonexistantContact)
        }
    }

    /// The book without `id` among the favorites; one error where the book
    /// has no contact under `id`, another where that contact is no favorite.
    pub open spec fn remove_favorite(self, id: u128) -> Result<Self, ContactBookError> {
        if !self.contacts.contains_key(id) {
            Err(ContactBookError::NoSuchContactInBook)
        } else if !self.favorites.contains(id) {
            Err(ContactBookError::ContactWasNotAFavorite)
        } else {
            Ok(ContactBookView { favorites: self.favorites.remove(id), ..self })
        }
    }

    /// The book without the contact under `id`, which leaves the favorites
    /// too; the error where the book has no contact under `id`.
    pub open spec fn remove_contact(self, id: u128) -> Result<Self, ContactBookError> {
        if self.contacts.contains_key(id) {
            Ok(
                ContactBookView {
                    contacts: self.contacts.remove(id),
                    favorites: self.favorites.remove(id),
                },
            )
        } else {
            Err(ContactBookError::CannotRemoveNonexistantContact)
        }
    }
}

/// The entries of a listing of contacts as plain values.
pub open spec fn contact_pairs(listing: Seq<(&ContactBookEntryId, &Contact)>) -> Seq<
    (u128, ContactView),
> {
    listing.map_values(|entry: (&ContactBookEntryId, &Contact)| (entry.0@, entry.1@))
}

/// Whether `listing` holds the contacts of `contacts` and nothing else, each
/// identifier once, in whatever order.
pub open spec fn lists_contacts(
    listing: Seq<(u128, ContactView)>,
    contacts: Map<u128, ContactView>,
) -> bool {
    &&& forall|i: int|
        0 <= i < listing.len() ==> contacts.contains_pair(
            (#[trigger] listing[i]).0,
            listing[i].1,
        )
    &&& forall|i: int, j: int|
        0 <= i < j < listing.len() ==> (#[trigger] listing[i]).0 != (#[trigger] listing[j]).0
    &&& forall|id: u128| #[trigger]
        contacts.contains_key(id) ==> exists|i: int|
            0 <= i < listing.len() && (#[trigger] listing[i]).0 == id
}

/// The tokens of a sequence of identifiers.
pub open spec fn tokens_of(ids: Seq<ContactBookEntryId>) -> Seq<u128> {
    ids.map_values(|id: ContactBookEntryId| id@)
}

/// Whether `listing` holds the values of `tokens` and nothing else, each
/// once, in whatever order.
pub open spec fn lists_tokens(listing: Seq<u128>, tokens: Set<u128>) -> bool {
    listing.no_duplicates() && listing.to_set() == tokens
}

/// What an operation that gives a book or fails has given.
pub open spec fn outcome(made: Result<ContactBook, ContactBookError>) -> Result<
    ContactBookView,
    ContactBookError,
> {
    match made {
        Ok(book) => Ok(book@),
        Err(error) => Err(error),
    }
}

/// The contacts of a book, each stored with its identifier under the
/// identifier's token.
#[derive(Debug)]
struct ContactBookEntries(HashMap<u128, (ContactBookEntryId, Contact)>);

impl View for ContactBookEntries {
    type V = Map<u128, ContactView>;

    closed spec fn view(&self) -> Map<u128, ContactView> {
        self.0@.map_values(|entry: (ContactBookEntryId, Contact)| entry.1@)
    }
}

impl Clone for ContactBookEntries {
    fn clone(&self) -> (copy: Self)
        ensures
            copy@ == self@,
    {
        proof {
            use_type_invariant(self);
        }
        let mut entries: HashMap<u128, (ContactBookEntryId, Contact)> = HashMap::new();
        let ghost all = self.0.iter().remaining();
        for pair in it: self.0.iter()
            invariant
                it.seq() == all,
                all == self.0.iter().remaining(),
                forall|i: int| 0 <= i < it.index() ==> entries@.contains_key(*(#[trigger] all[i]).0),
                forall|key: u128| #[trigger]
                    entries@.contains_key(key) ==> self.0@.contains_key(key) && entries@[key].0
                        == self.0@[key].0 && entries@[key].1@ == self.0@[key].1@,
        {
            assert(self.0@.contains_key(*pair.0) && self.0@[*pair.0] == *pair.1);
            let entry: &(ContactBookEntryId, Contact) = pair.1;
            entries.insert(*pair.0, (entry.0.clone(), entry.1.clone()));
        }
        proof {
            assert forall|key: u128| self.0@.contains_key(key) implies entries@.contains_key(
                key,
            ) by {
                assert(all.contains((&key, &self.0@[key])));
                let i = choose|i: int| 0 <= i < all.len() && all[i] == (&key, &self.0@[key]);
                assert(entries@.contains_key(*all[i].0));
            }
        }
        let copy = Self(entries);
        assert(copy@ =~= self@);
        copy
    }
}

impl ContactBookEntries {
    /// Each entry stands under the token of the identifier it holds.
    #[verifier::type_invariant]
    spec fn keyed_by_id(&self) -> bool {
        forall|key: u128| #[trigger] self.0@.contains_key(key) ==> self.0@[key].0@ == key
    }

    fn new() -> (entries: Self)
        ensures
            entries@ == Map::<u128, ContactView>::empty(),
    {
        let entries = Self(HashMap::new());
        assert(entries@ =~= Map::<u128, ContactView>::empty());
        entries
    }

    /// The first token from `token` on that no entry stands under.
    fn vacant_from(&self, token: u128) -> (vacant: u128)
        ensures
            vacant == first_free(self@.dom(), token),
            !self@.contains_key(vacant),
    {
        let ghost taken = self@.dom();
        proof {
            assert(taken =~= self.0@.dom());
            assert(self.0@.len() == vstd::std_specs::hash::spec_hash_map_len(&self.0));
            lemma_some_value_free(taken);
            lemma_first_free(taken, token);
        }
        let ghost free = choose|value: u128| !taken.contains(value);
        let ghost limit = steps_between(token, free);
        let ghost mut steps: nat = 0;
        let mut vacant = token;
        while self.0.contains_key(&vacant)
            invariant
                taken == self.0@.dom(),
                steps <= limit <= u128::MAX,
                step_from(token, limit) == free,
                !taken.contains(free),
                vacant == step_from(token, steps),
                forall|fewer: nat| fewer < steps ==> taken.contains(#[trigger] step_from(token, fewer)),
            decreases limit - steps,
        {
            vacant = vacant.wrapping_add(1);
            proof {
                steps = steps + 1;
            }
        }
        proof {
            assert(is_first_free(taken, token, steps));
            let chosen = choose|chosen: nat| is_first_free(taken, token, chosen);
            lemma_first_free_is_unique(taken, token, steps, chosen);
        }
        vacant
    }

    /// Adds the contact under the first vacant token from `token` on.
    fn insert_from(self, contact: Contact, token: u128) -> (made: (ContactBookEntryId, Self))
        ensures
            made.0@ == first_free(self@.dom(), token),
            !self@.contains_key(made.0@),
            made.1@ == self@.insert(made.0@, contact@),
    {
        proof {
            use_type_invariant(&self);
        }
        let vacant = self.vacant_from(token);
        let ghost before = self.0@;
        let mut entries = self.0;
        entries.insert(vacant, (ContactBookEntryId(vacant), contact));
        let made = Self(entries);
        assert(made@ =~= before.map_values(|entry: (ContactBookEntryId, Contact)| entry.1@).insert(
            vacant,
            contact@,
        ));
        (ContactBookEntryId(vacant), made)
    }

    /// Adds the contact under an identifier drawn at random.
    fn insert(self, contact: Contact) -> (made: (ContactBookEntryId, Self))
        ensures
            exists|token: u128|
                is_random_token(token) && made.0@ == #[trigger] first_free(self@.dom(), token),
            !self@.contains_key(made.0@),
            made.1@ == self@.insert(made.0@, contact@),
    {
        let id = ContactBookEntryId::new();
        self.insert_from(contact, id.as_u128())
    }

    fn as_vector(&self) -> (listing: Vec<(&ContactBookEntryId, &Contact)>)
        ensures
            lists_contacts(contact_pairs(listing@), self@),
            listing@.len() == self@.len(),
    {
        proof {
            use_type_invariant(self);
        }
        let mut listing: Vec<(&ContactBookEntryId, &Contact)> = Vec::new();
        let ghost all = self.0.iter().remaining();
        for pair in it: self.0.iter()
            invariant
                it.seq() == all,
                listing@.len() == it.index(),
                forall|i: int|
                    0 <= i < listing@.len() ==> *(#[trigger] listing@[i]).0 == all[i].1.0
                        && *listing@[i].1 == all[i].1.1,
        {
            let entry: &(ContactBookEntryId, Contact) = pair.1;
            listing.push((&entry.0, &entry.1));
        }
        proof {
            let pairs = contact_pairs(listing@);
            assert(self@.dom() =~= self.0@.dom());
            assert forall|i: int| 0 <= i < pairs.len() implies self@.contains_pair(
                (#[trigger] pairs[i]).0,
                pairs[i].1,
            ) && pairs[i].0 == *all[i].0 by {
                assert(self.0@.contains_key(*all[i].0));
            }
            assert forall|i: int, j: int| 0 <= i < j < pairs.len() implies (#[trigger] pairs[i]).0
                != (#[trigger] pairs[j]).0 by {
                assert(self.0@.contains_key(*all[i].0));
                assert(self.0@.contains_key(*all[j].0));
                if pairs[i].0 == pairs[j].0 {
                    assert(all[i] == all[j]);
                }
            }
            assert forall|id: u128| #[trigger] self@.contains_key(id) implies exists|i: int|
                0 <= i < pairs.len() && (#[trigger] pairs[i]).0 == id by {
                assert(all.contains((&id, &self.0@[id])));
                let i = choose|i: int| 0 <= i < all.len() && all[i] == (&id, &self.0@[id]);
                assert(pairs[i].0 == id);
            }
        }
        listing
    }

    fn get(&self, contact_id: &ContactBookEntryId) -> (found: Option<&Contact>)
        ensures
            match found {
                Some(contact) => self@.contains_pair(contact_id@, contact@),
                None => !self@.contains_key(contact_id@),
            },
    {
        match self.0.get(&contact_id.0) {
            Some(entry) => Some(&entry.1),
            None => None,
        }
    }

    /// Whether two collections hold equal contacts under the same tokens.
    fn same_as(&self, other: &Self) -> (same: bool)
        ensures
            same == (self@ == other@),
    {
        proof {
            assert(self@.dom() =~= self.0@.dom());
            assert(other@.dom() =~= other.0@.dom());
            assert(self.0@.len() == vstd::std_specs::hash::spec_hash_map_len(&self.0));
            assert(other.0@.len() == vstd::std_specs::hash::spec_hash_map_len(&other.0));
        }
        if self.0.len() != other.0.len() {
            return false;
        }
        let ghost all = self.0.iter().remaining();
        for pair in it: self.0.iter()
            invariant
                it.seq() == all,
                all == self.0.iter().remaining(),
                forall|i: int|
                    0 <= i < it.index() ==> other@.contains_key(*(#[trigger] all[i]).0)
                        && other@[*all[i].0] == self@[*all[i].0],
        {
            assert(self.0@.contains_key(*pair.0) && self.0@[*pair.0] == *pair.1);
            match other.0.get(pair.0) {
                Some(entry) => {
                    if !(pair.1.1 == entry.1) {
                        assert(self@[*pair.0] != other@[*pair.0]);
                        return false;
                    }
                },
                None => {
                    assert(self@.contains_key(*pair.0) && !other@.contains_key(*pair.0));
                    return false;
                },
            }
        }
        proof {
            assert forall|key: u128| self@.contains_key(key) implies other@.contains_key(key)
                && other@[key] == self@[key] by {
                assert(all.contains((&key, &self.0@[key])));
                let i = choose|i: int| 0 <= i < all.len() && all[i] == (&key, &self.0@[key]);
                assert(other@.contains_key(*all[i].0));
            }
            assert(self@.dom().subset_of(other@.dom()));
            vstd::set_lib::lemma_subset_equality(self@.dom(), other@.dom());
            assert(self@ =~= other@);
        }
        true
    }

    /// Takes the contact under the identifier out, if there is one.
    fn remove(self, contact_id: &ContactBookEntryId) -> (made: (Option<Contact>, Self))
        ensures
            made.1@ == self@.remove(contact_id@),
            match made.0 {
                Some(contact) => self@.contains_pair(contact_id@, contact@),
                None => !self@.contains_key(contact_id@),
            },
    {
        proof {
            use_type_invariant(&self);
        }
        let mut entries = self.0;
        let removed = entries.remove(&contact_id.0);
        let rest = Self(entries);
        assert(rest@ =~= self@.remove(contact_id@));
        match removed {
            Some(entry) => (Some(entry.1), rest),
            None => (None, rest),
        }
    }
}

/// The identifiers of the favorite contacts.
#[derive(Debug)]
struct FavoriteContacts(HashSet<u128>);

impl View for FavoriteContacts {
    type V = Set<u128>;

    closed spec fn view(&self) -> Set<u128> {
        self.0@
    }
}

impl Clone for FavoriteContacts {
    fn clone(&self) -> (copy: Self)
        ensures
            copy@ == self@,
    {
        let mut ids: HashSet<u128> = HashSet::new();
        let ghost all = self.0.iter().remaining();
        for id in it: self.0.iter()
            invariant
                it.seq() == all,
                forall|i: int| 0 <= i < it.index() ==> ids@.contains(*#[trigger] all[i]),
                forall|id: u128| #[trigger]
                    ids@.contains(id) ==> exists|i: int|
                        0 <= i < it.index() && *#[trigger] all[i] == id,
        {
            ids.insert(*id);
        }
        proof {
            assert forall|id: u128| self.0@.contains(id) implies ids@.contains(id) by {
                assert(all.unref().to_set().contains(id));
                let i = choose|i: int| 0 <= i < all.unref().len() && all.unref()[i] == id;
                assert(*all[i] == id);
            }
            assert forall|id: u128| ids@.contains(id) implies self.0@.contains(id) by {
                let i = choose|i: int| 0 <= i < all.len() && *#[trigger] all[i] == id;
                assert(all.unref()[i] == id);
                assert(all.unref().to_set().contains(id));
            }
            assert(ids@ =~= self.0@);
        }
        Self(ids)
    }
}

impl FavoriteContacts {
    fn new() -> (favorites: Self)
        ensures
            favorites@ == Set::<u128>::empty(),
    {
        Self(HashSet::new())
    }

    fn insert(&mut self, contact_id: ContactBookEntryId) -> (added: bool)
        ensures
            final(self)@ == old(self)@.insert(contact_id@),
            added == !old(self)@.contains(contact_id@),
    {
        self.0.insert(contact_id.0)
    }

    fn remove(&mut self, contact_id: &ContactBookEntryId) -> (removed: bool)
        ensures
            final(self)@ == old(self)@.remove(contact_id@),
            removed == old(self)@.contains(contact_id@),
    {
        self.0.remove(&contact_id.0)
    }

    /// The set is finite: it holds what a walk over it meets.
    proof fn lemma_finite(&self)
        ensures
            self@.finite(),
    {
        let met = self.0.iter().remaining().unref();
        assert(met.to_set() == self.0@);
        vstd::seq_lib::seq_to_set_is_finite(met);
    }

    /// Whether two sets hold the same tokens.
    fn same_as(&self, other: &Self) -> (same: bool)
        ensures
            same == (self@ == other@),
    {
        proof {
            assert(self.0@.len() == vstd::std_specs::hash::spec_hash_set_len(&self.0));
            assert(other.0@.len() == vstd::std_specs::hash::spec_hash_set_len(&other.0));
            self.lemma_finite();
            other.lemma_finite();
        }
        if self.0.len() != other.0.len() {
            return false;
        }
        let ghost all = self.0.iter().remaining();
        for id in it: self.0.iter()
            invariant
                it.seq() == all,
                all == self.0.iter().remaining(),
                forall|i: int| 0 <= i < it.index() ==> other@.contains(*#[trigger] all[i]),
        {
            assert(all.unref()[it.index()] == *id);
            assert(all.unref().to_set().contains(*id));
            if !other.0.contains(id) {
                return false;
            }
        }
        proof {
            assert forall|id: u128| self@.contains(id) implies other@.contains(id) by {
                assert(all.unref().to_set().contains(id));
                let i = choose|i: int| 0 <= i < all.unref().len() && all.unref()[i] == id;
                assert(*all[i] == id);
            }
            assert(self@.subset_of(other@));
            vstd::set_lib::lemma_subset_equality(self@, other@);
        }
        true
    }

    fn as_vector(&self) -> (ids: Vec<ContactBookEntryId>)
        ensures
            lists_tokens(tokens_of(ids@), self@),
    {
        let mut ids: Vec<ContactBookEntryId> = Vec::new();
        let ghost all = self.0.iter().remaining();
        for id in it: self.0.iter()
            invariant
                it.seq() == all,
                ids@.len() == it.index(),
                forall|i: int| 0 <= i < ids@.len() ==> (#[trigger] ids@[i])@ == *all[i],
        {
            ids.push(ContactBookEntryId(*id));
        }
        assert(tokens_of(ids@) =~= all.unref());
        ids
    }
}

/// A directory of contacts, each under an identifier of its own, with the
/// set of those marked as favorites.
#[derive(Debug)]
pub struct ContactBook {
    contacts: ContactBookEntries,
    favorites: FavoriteContacts,
}

impl View for ContactBook {
    type V = ContactBookView;

    closed spec fn view(&self) -> ContactBookView {
        ContactBookView { contacts: self.contacts@, favorites: self.favorites@ }
    }
}

impl Clone for ContactBook {
    fn clone(&self) -> (copy: Self)
        ensures
            copy@ == self@,
    {
        proof {
            use_type_invariant(self);
        }
        ContactBook { contacts: self.contacts.clone(), favorites: self.favorites.clone() }
    }
}

impl PartialEq for ContactBook {
    /// Two books are equal when they hold equal contacts under the same
    /// identifiers and have the same favorites.
    fn eq(&self, other: &Self) -> (equal: bool) {
        self.contacts.same_as(&other.contacts) && self.favorites.same_as(&other.favorites)
    }
}

impl PartialEqSpecImpl for ContactBook {
    open spec fn obeys_eq_spec() -> bool {
        true
    }

    open spec fn eq_spec(&self, other: &Self) -> bool {
        self@ == other@
    }
}

impl ContactBook {
    /// Every favorite is a contact of the book.
    #[verifier::type_invariant]
    spec fn favorites_are_contacts(&self) -> bool {
        self.favorites@.subset_of(self.contacts@.dom())
    }

    /// The empty book.
    pub fn new() -> (book: Self)
        ensures
            book@ == ContactBookView::empty(),
            book@.wf(),
    {
        ContactBook { contacts: ContactBookEntries::new(), favorites: FavoriteContacts::new() }
    }

    /// Adds the contact under a new identifier, drawn at random, and gives
    /// the identifier with the book. No contact of the book had it before.
    pub fn add_contact(self, contact: Contact) -> (made: (ContactBookEntryId, Self))
        ensures
            exists|token: u128|
                is_random_token(token) && made.0@ == #[trigger] self@.next_id(token) && made.1@
                    == self@.add_contact(contact@, token),
            !self@.contacts.contains_key(made.0@),
            made.1@.contacts == self@.contacts.insert(made.0@, contact@),
            made.1@.favorites == self@.favorites,
            made.1@.wf(),
    {
        proof {
            use_type_invariant(&self);
        }
        let ContactBook { contacts, favorites } = self;
        let (id, contacts) = contacts.insert(contact);
        let book = ContactBook { contacts, favorites };
        proof {
            book.lemma_wf();
            let token = choose|token: u128|
                is_random_token(token) && id@ == #[trigger] first_free(self@.contacts.dom(), token);
            assert(id@ == self@.next_id(token));
        }
        (id, book)
    }

    /// Adds the contact under the identifier that `token` leads to: `token`
    /// itself, or where a contact has it already, the first value after it
    /// that no contact has.
    pub fn add_contact_with_token(self, contact: Contact, token: u128) -> (made: (
        ContactBookEntryId,
        Self,
    ))
        ensures
            made.0@ == self@.next_id(token),
            made.1@ == self@.add_contact(contact@, token),
            !self@.contacts.contains_key(made.0@),
            made.1@.contacts == self@.contacts.insert(made.0@, contact@),
            made.1@.favorites == self@.favorites,
            made.1@.wf(),
    {
        proof {
            use_type_invariant(&self);
        }
        let ContactBook { contacts, favorites } = self;
        let (id, contacts) = contacts.insert_from(contact, token);
        let book = ContactBook { contacts, favorites };
        proof {
            book.lemma_wf();
        }
        (id, book)
    }

    /// Every contact of the book with its identifier, each once, in no
    /// particular order.
    pub fn list_contacts(&self) -> (listing: Vec<(&ContactBookEntryId, &Contact)>)
        ensures
            lists_contacts(contact_pairs(listing@), self@.contacts),
            listing@.len() == self@.contacts.len(),
            self@.wf(),
    {
        proof {
            use_type_invariant(self);
            self.lemma_wf();
        }
        self.contacts.as_vector()
    }

    /// The contact under the identifier.
    pub fn get_contact(&self, contact_id: &ContactBookEntryId) -> (found: Result<
        &Contact,
        ContactBookError,
    >)
        ensures
            match found {
                Ok(contact) => self@.get_contact(contact_id@) == Ok::<
                    ContactView,
                    ContactBookError,
                >(contact@),
                Err(error) => self@.get_contact(contact_id@) == Err::<
                    ContactView,
                    ContactBookError,
                >(error),
            },
    {
        match self.contacts.get(contact_id) {
            Some(contact) => Ok(contact),
            None => Err(ContactBookError::NoSuchContactInBook),
        }
    }

    /// Marks the contact as a favorite, whether or not it was one.
    pub fn add_favorite_contact(self, contact_id: &ContactBookEntryId) -> (made: Result<
        Self,
        ContactBookError,
    >)
        ensures
            outcome(made) == self@.add_favorite(contact_id@),
            made matches Ok(book) ==> book@.wf(),
    {
        proof {
            use_type_invariant(&self);
        }
        let ContactBook { contacts, mut favorites } = self;
        match contacts.get(contact_id) {
            Some(_) => {
                favorites.insert(contact_id.clone());
                let book = ContactBook { contacts, favorites };
                proof {
                    book.lemma_wf();
                }
                Ok(book)
            },
            None => Err(ContactBookError::CannotFavoriteNonexistantContact),
        }
    }

    /// Takes the mark of a favorite from the contact.
    pub fn remove_favorite_contact(self, contact_id: &ContactBookEntryId) -> (made: Result<
        Self,
        ContactBookError,
    >)
        ensures
            outcome(made) == self@.remove_favorite(contact_id@),
            made matches Ok(book) ==> book@.wf(),
    {
        proof {
            use_type_invariant(&self);
        }
        let ContactBook { contacts, mut favorites } = self;
        match contacts.get(contact_id) {
            Some(_) => {
                if favorites.remove(contact_id) {
                    let book = ContactBook { contacts, favorites };
                    proof {
                        book.lemma_wf();
                    }
                    Ok(book)
                } else {
                    Err(ContactBookError::ContactWasNotAFavorite)
                }
            },
            None => Err(ContactBookError::NoSuchContactInBook),
        }
    }

    /// The identifiers of the favorites, each once, in no particular order.
    /// Each of them is the identifier of a contact of the book.
    pub fn get_favorite_contact_ids(&self) -> (ids: Vec<ContactBookEntryId>)
        ensures
            lists_tokens(tokens_of(ids@), self@.favorites),
            forall|i: int| 0 <= i < ids@.len() ==> self@.contacts.contains_key((#[trigger] ids@[i])@),
            self@.wf(),
    {
        proof {
            use_type_invariant(self);
            self.lemma_wf();
        }
        let ids = self.favorites.as_vector();
        assert forall|i: int| 0 <= i < ids@.len() implies self@.contacts.contains_key(
            (#[trigger] ids@[i])@,
        ) by {
            assert(tokens_of(ids@)[i] == ids@[i]@);
            assert(tokens_of(ids@).to_set().contains(ids@[i]@));
        }
        ids
    }

    /// Takes the contact out of the book, and out of the favorites with it.
    pub fn remove_contact(self, contact_id: ContactBookEntryId) -> (made: Result<
        Self,
        ContactBookError,
    >)
        ensures
            outcome(made) == self@.remove_contact(contact_id@),
            made matches Ok(book) ==> book@.wf(),
    {
        proof {
            use_type_invariant(&self);
        }
        let ContactBook { contacts, mut favorites } = self;
        favorites.remove(&contact_id);
        let (removed, contacts) = contacts.remove(&contact_id);
        match removed {
            Some(_) => {
                let book = ContactBook { contacts, favorites };
                proof {
                    book.lemma_wf();
                }
                Ok(book)
            },
            None => Err(ContactBookError::CannotRemoveNonexistantContact),
        }
    }

    /// What the book stands for is well formed.
    proof fn lemma_wf(&self)
        requires
            self.favorites_are_contacts(),
        ensures
            self@.wf(),
    {
        assert(self.contacts@.dom() =~= self.contacts.0@.dom());
        assert(self.contacts.0@.len() == vstd::std_specs::hash::spec_hash_map_len(
            &self.contacts.0,
        ));
    }
}

/// The identifier that a new contact gets is one that no contact of the
/// book has, favorite or not; it is the drawn token exactly when no contact
/// has that token.
pub proof fn lemma_new_id_is_new(book: ContactBookView, token: u128)
    requires
        book.wf(),
    ensures
        !book.contacts.contains_key(book.next_id(token)),
        !book.favorites.contains(book.next_id(token)),
        !book.contacts.contains_key(token) <==> book.next_id(token) == token,
{
    lemma_some_value_free(book.contacts.dom());
    lemma_first_free(book.contacts.dom(), token);
}

/// Two contacts added one after the other get different identifiers,
/// whatever tokens were drawn for them.
pub proof fn lemma_successive_ids_differ(
    book: ContactBookView,
    first: ContactView,
    first_token: u128,
    second: ContactView,
    second_token: u128,
)
    requires
        book.wf(),
        book.add_contact(first, first_token).wf(),
    ensures
        book.next_id(first_token) != book.add_contact(first, first_token).next_id(second_token),
{
    let after = book.add_contact(first, first_token);
    lemma_new_id_is_new(after, second_token);
    assert(after.contacts.contains_key(book.next_id(first_token)));
}

/// A contact that was added is found under the identifier it got, equal to
/// what was added; the contacts that the book had are found as before, and
/// the favorites are the same.
pub proof fn lemma_added_contact_is_found(book: ContactBookView, contact: ContactView, token: u128)
    requires
        book.wf(),
    ensures
        book.add_contact(contact, token).get_contact(book.next_id(token)) == Ok::<
            ContactView,
            ContactBookError,
        >(contact),
        forall|id: u128| #[trigger]
            book.contacts.contains_key(id) ==> book.add_contact(contact, token).get_contact(id)
                == book.get_contact(id),
        book.add_contact(contact, token).favorites == book.favorites,
{
    lemma_new_id_is_new(book, token);
}

/// The empty book is well formed, and each operation on a well-formed book
/// gives a well-formed book: in every book that they lead to, each favorite
/// is a contact of the book. Adding a contact needs room for one more.
pub proof fn lemma_operations_keep_wf(
    book: ContactBookView,
    id: u128,
    contact: ContactView,
    token: u128,
)
    requires
        book.wf(),
    ensures
        ContactBookView::empty().wf(),
        book.contacts.len() < usize::MAX ==> book.add_contact(contact, token).wf(),
        book.add_favorite(id) matches Ok(after) ==> after.wf(),
        book.remove_favorite(id) matches Ok(after) ==> after.wf(),
        book.remove_contact(id) matches Ok(after) ==> after.wf(),
{
    lemma_new_id_is_new(book, token);
}

/// An identifier that no contact of the book has is refused by every
/// operation, each with its own error, and the book has no favorite under it.
pub proof fn lemma_unknown_id_is_refused(book: ContactBookView, id: u128)
    requires
        book.wf(),
        !book.contacts.contains_key(id),
    ensures
        book.get_contact(id) == Err::<ContactView, ContactBookError>(
            ContactBookError::NoSuchContactInBook,
        ),
        book.add_favorite(id) == Err::<ContactBookView, ContactBookError>(
            ContactBookError::CannotFavoriteNonexistantContact,
        ),
        book.remove_favorite(id) == Err::<ContactBookView, ContactBookError>(
            ContactBookError::NoSuchContactInBook,
        ),
        book.remove_contact(id) == Err::<ContactBookView, ContactBookError>(
            ContactBookError::CannotRemoveNonexistantContact,
        ),
        !book.favorites.contains(id),
{
}

/// Marking a favorite twice is marking it once; taking the mark away from a
/// contact that got it gives the favorites without it, and where the contact
/// was no favorite before, the book as it was.
pub proof fn lemma_favorite_marks(book: ContactBookView, id: u128)
    requires
        book.contacts.contains_key(id),
    ensures
        book.add_favorite(id) is Ok,
        ({
            let marked = book.add_favorite(id)->Ok_0;
            &&& marked.favorites.contains(id)
            &&& marked.add_favorite(id) == Ok::<ContactBookView, ContactBookError>(marked)
            &&& marked.remove_favorite(id) is Ok
        }),
        ({
            let cleared = book.add_favorite(id)->Ok_0.remove_favorite(id)->Ok_0;
            &&& !cleared.favorites.contains(id)
            &&& cleared.contacts == book.contacts
            &&& !book.favorites.contains(id) ==> cleared == book
            &&& cleared.remove_favorite(id) == Err::<ContactBookView, ContactBookError>(
                ContactBookError::ContactWasNotAFavorite,
            )
        }),
{
    let marked = book.add_favorite(id)->Ok_0;
    assert(marked.favorites.insert(id) =~= marked.favorites);
    let cleared = marked.remove_favorite(id)->Ok_0;
    if !book.favorites.contains(id) {
        assert(cleared.favorites =~= book.favorites);
    }
}

/// Removing a contact takes it out of the favorites too: after a contact was
/// marked as a favorite and then removed, it is no favorite and is not found.
/// The same holds after any removal that succeeds.
pub proof fn lemma_removal_cascades(book: ContactBookView, id: u128)
    requires
        book.contacts.contains_key(id),
    ensures
        book.add_favorite(id) is Ok,
        book.add_favorite(id)->Ok_0.remove_contact(id) is Ok,
        ({
            let after = book.add_favorite(id)->Ok_0.remove_contact(id)->Ok_0;
            &&& !after.favorites.contains(id)
            &&& after.get_contact(id) == Err::<ContactView, ContactBookError>(
                ContactBookError::NoSuchContactInBook,
            )
        }),
        book.remove_contact(id) is Ok,
        ({
            let after = book.remove_contact(id)->Ok_0;
            &&& !after.favorites.contains(id)
            &&& !after.contacts.contains_key(id)
        }),
{
}

} // verus!
