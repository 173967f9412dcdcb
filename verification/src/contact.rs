//! The contact value: a name, three optional attributes and a set of social
//! profiles, each edited by whole-value replacement.

use vstd::prelude::*;
use vstd::std_specs::cmp::PartialEqSpecImpl;

verus! {

/// The error of an operation on a [`Contact`]: a name or an attribute was
/// not acceptable.
#[derive(Debug)]
pub struct ContactError;

impl ContactError {
    /// The text that describes the error.
    pub fn message(&self) -> (text: String)
        ensures
            text@ == "ContactError"@,
    {
        "ContactError".to_owned()
    }
}

/// Which names a contact may have. Every name is acceptable at present.
pub open spec fn acceptable_name(name: Seq<char>) -> bool {
    true
}

/// Which addresses, emails and phone numbers a contact may have. Every text
/// is acceptable at present.
pub open spec fn acceptable_attribute(text: Seq<char>) -> bool {
    true
}

/// Which links may stand for a social profile. Every link is acceptable at
/// present.
pub open spec fn acceptable_link(link: Seq<char>) -> bool {
    true
}

/// The name of a contact.
#[derive(Debug)]
struct ContactName(String);

impl Clone for ContactName {
    fn clone(&self) -> (copy: Self)
        ensures
            copy == *self,
    {
        Self(self.0.clone())
    }
}

impl View for ContactName {
    type V = Seq<char>;

    closed spec fn view(&self) -> Seq<char> {
        self.0@
    }
}

impl ContactName {
    fn new(name: &str) -> (made: Result<Self, ContactError>)
        ensures
            made is Ok <==> acceptable_name(name@),
            made is Ok ==> made->Ok_0@ == name@,
    {
        Ok(Self(name.to_owned()))
    }

    fn get_name(&self) -> (name: &str)
        ensures
            name@ == self@,
    {
        self.0.as_str()
    }
}

/// The postal address of a contact.
#[derive(Debug)]
struct ContactAddress(String);

impl Clone for ContactAddress {
    fn clone(&self) -> (copy: Self)
        ensures
            copy == *self,
    {
        Self(self.0.clone())
    }
}

impl View for ContactAddress {
    type V = Seq<char>;

    closed spec fn view(&self) -> Seq<char> {
        self.0@
    }
}

impl ContactAddress {
    fn new(address: &str) -> (made: Result<Self, ContactError>)
        ensures
            made is Ok <==> acceptable_attribute(address@),
            made is Ok ==> made->Ok_0@ == address@,
    {
        Ok(Self(address.to_owned()))
    }

    fn get_address(&self) -> (address: &str)
        ensures
            address@ == self@,
    {
        self.0.as_str()
    }
}

/// The email address of a contact.
#[derive(Debug)]
struct ContactEmail(String);

impl Clone for ContactEmail {
    fn clone(&self) -> (copy: Self)
        ensures
            copy == *self,
    {
        Self(self.0.clone())
    }
}

impl View for ContactEmail {
    type V = Seq<char>;

    closed spec fn view(&self) -> Seq<char> {
        self.0@
    }
}

impl ContactEmail {
    fn new(email: &str) -> (made: Result<Self, ContactError>)
        ensures
            made is Ok <==> acceptable_attribute(email@),
            made is Ok ==> made->Ok_0@ == email@,
    {
        Ok(Self(email.to_owned()))
    }

    fn get_email(&self) -> (email: &str)
        ensures
            email@ == self@,
    {
        self.0.as_str()
    }
}

/// The phone number of a contact.
#[derive(Debug)]
struct ContactPhoneNumber(String);

impl Clone for ContactPhoneNumber {
    fn clone(&self) -> (copy: Self)
        ensures
            copy == *self,
    {
        Self(self.0.clone())
    }
}

impl View for ContactPhoneNumber {
    type V = Seq<char>;

    closed spec fn view(&self) -> Seq<char> {
        self.0@
    }
}

impl ContactPhoneNumber {
    fn new(phone_number: &str) -> (made: Result<Self, ContactError>)
        ensures
            made is Ok <==> acceptable_attribute(phone_number@),
            made is Ok ==> made->Ok_0@ == phone_number@,
    {
        Ok(Self(phone_number.to_owned()))
    }

    fn get_phone_number(&self) -> (phone_number: &str)
        ensures
            phone_number@ == self@,
    {
        self.0.as_str()
    }
}

/// The link that identifies one social profile of a contact.
#[derive(Debug)]
struct SocialProfileLink(String);

impl Clone for SocialProfileLink {
    fn clone(&self) -> (copy: Self)
        ensures
            copy == *self,
    {
        Self(self.0.clone())
    }
}

impl View for SocialProfileLink {
    type V = Seq<char>;

    closed spec fn view(&self) -> Seq<char> {
        self.0@
    }
}

impl SocialProfileLink {
    fn new(link: &str) -> (made: Result<Self, ContactError>)
        ensures
            made is Ok <==> acceptable_link(link@),
            made is Ok ==> made->Ok_0@ == link@,
    {
        Ok(Self(link.to_owned()))
    }

    fn get_link(&self) -> (link: &str)
        ensures
            link@ == self@,
    {
        self.0.as_str()
    }

    /// Whether two links are the same text.
    fn same_as(&self, other: &Self) -> (same: bool)
        ensures
            same == (self@ == other@),
    {
        self.0 == other.0
    }
}

/// The site that a social profile is on.
#[derive(PartialEq, Eq, Structural, Debug, Clone, Copy)]
pub enum SocialMediaWebsite {
    Github,
    Twitter,
    MySpace,
    LinkedIn,
    Unknown,
}

/// The links of a list of profiles, in the order of the list.
spec fn links_of(entries: Seq<(SocialProfileLink, SocialMediaWebsite)>) -> Seq<Seq<char>> {
    entries.map_values(|entry: (SocialProfileLink, SocialMediaWebsite)| entry.0@)
}

/// The mapping that a list of profiles stands for: each link of the list to
/// the site that the list holds with it.
spec fn map_of(entries: Seq<(SocialProfileLink, SocialMediaWebsite)>) -> Map<
    Seq<char>,
    SocialMediaWebsite,
> {
    Map::new(
        |link: Seq<char>| links_of(entries).contains(link),
        |link: Seq<char>| entries[links_of(entries).index_of(link)].1,
    )
}

/// In a list whose links are distinct, each entry is a pair of the mapping,
/// every key of the mapping is the link of an entry, and the mapping has as
/// many keys as the list has entries.
proof fn lemma_map_of(entries: Seq<(SocialProfileLink, SocialMediaWebsite)>)
    requires
        links_of(entries).no_duplicates(),
    ensures
        forall|i: int|
            0 <= i < entries.len() ==> #[trigger] map_of(entries).contains_key(entries[i].0@)
                && map_of(entries)[entries[i].0@] == entries[i].1,
        forall|link: Seq<char>| #[trigger]
            map_of(entries).contains_key(link) ==> exists|i: int|
                0 <= i < entries.len() && #[trigger] entries[i].0@ == link,
        map_of(entries).dom().finite(),
        map_of(entries).len() == entries.len(),
{
    let links = links_of(entries);
    assert forall|i: int| 0 <= i < entries.len() implies #[trigger] map_of(entries).contains_key(
        entries[i].0@,
    ) && map_of(entries)[entries[i].0@] == entries[i].1 by {
        assert(links[i] == entries[i].0@);
        let j = links.index_of(links[i]);
        assert(0 <= j < links.len() && links[j] == links[i]);
        assert(j == i);
    }
    assert forall|link: Seq<char>| #[trigger] map_of(entries).contains_key(link) implies exists|
        i: int,
    |
        0 <= i < entries.len() && #[trigger] entries[i].0@ == link by {
        let i = links.index_of(link);
        assert(0 <= i < links.len() && links[i] == link);
        assert(entries[i].0@ == link);
    }
    assert(map_of(entries).dom() =~= links.to_set());
    links.unique_seq_to_set();
}

/// The social profiles of a contact: each link at most once, with its site.
#[derive(Debug)]
struct SocialProfileList(Vec<(SocialProfileLink, SocialMediaWebsite)>);

impl Clone for SocialProfileList {
    fn clone(&self) -> (copy: Self)
        ensures
            copy@ == self@,
    {
        proof {
            use_type_invariant(self);
        }
        let mut entries: Vec<(SocialProfileLink, SocialMediaWebsite)> = Vec::new();
        let mut i: usize = 0;
        while i < self.0.len()
            invariant
                i <= self.0@.len(),
                entries@ == self.0@.take(i as int),
            decreases self.0@.len() - i,
        {
            let link = self.0[i].0.clone();
            entries.push((link, self.0[i].1));
            assert(entries@ =~= self.0@.take(i + 1));
            i += 1;
        }
        assert(entries@ =~= self.0@);
        Self(entries)
    }
}

impl View for SocialProfileList {
    type V = Map<Seq<char>, SocialMediaWebsite>;

    closed spec fn view(&self) -> Map<Seq<char>, SocialMediaWebsite> {
        map_of(self.0@)
    }
}

impl SocialProfileList {
    /// No link occurs twice.
    #[verifier::type_invariant]
    spec fn distinct_links(&self) -> bool {
        links_of(self.0@).no_duplicates()
    }

    fn new() -> (list: Self)
        ensures
            list@ == Map::<Seq<char>, SocialMediaWebsite>::empty(),
    {
        let list = Self(Vec::new());
        assert(list@ =~= Map::<Seq<char>, SocialMediaWebsite>::empty());
        list
    }

    /// Where in the list the link stands, if it does.
    fn position(&self, link: &SocialProfileLink) -> (found: Option<usize>)
        ensures
            match found {
                Some(i) => i < self.0@.len() && self.0@[i as int].0@ == link@,
                None => !links_of(self.0@).contains(link@),
            },
    {
        let mut i: usize = 0;
        while i < self.0.len()
            invariant
                i <= self.0@.len(),
                forall|j: int| 0 <= j < i ==> self.0@[j].0@ != link@,
            decreases self.0@.len() - i,
        {
            if self.0[i].0.same_as(link) {
                return Some(i);
            }
            i += 1;
        }
        None
    }

    fn as_vec(&self) -> (listing: Vec<(SocialMediaWebsite, &str)>)
        ensures
            lists_profiles(profile_pairs(listing@), self@),
            listing@.len() == self@.len(),
    {
        proof {
            use_type_invariant(self);
            lemma_map_of(self.0@);
        }
        let mut listing: Vec<(SocialMediaWebsite, &str)> = Vec::new();
        let mut i: usize = 0;
        while i < self.0.len()
            invariant
                i <= self.0@.len(),
                listing@.len() == i,
                forall|j: int|
                    0 <= j < i ==> (#[trigger] listing@[j]).0 == self.0@[j].1 && listing@[j].1@
                        == self.0@[j].0@,
            decreases self.0@.len() - i,
        {
            listing.push((self.0[i].1, self.0[i].0.get_link()));
            i += 1;
        }
        proof {
            let pairs = profile_pairs(listing@);
            assert forall|a: int| 0 <= a < pairs.len() implies self@.contains_pair(
                (#[trigger] pairs[a]).1,
                pairs[a].0,
            ) by {
                assert(self@.contains_key(self.0@[a].0@));
            }
            assert forall|a: int, b: int| 0 <= a < b < pairs.len() implies (#[trigger] pairs[a]).1
                != (#[trigger] pairs[b]).1 by {
                assert(links_of(self.0@)[a] == listing@[a].1@);
                assert(links_of(self.0@)[b] == listing@[b].1@);
            }
            assert forall|link: Seq<char>| self@.contains_key(link) implies exists|a: int|
                0 <= a < pairs.len() && (#[trigger] pairs[a]).1 == link by {
                let a = choose|a: int| 0 <= a < self.0@.len() && #[trigger] self.0@[a].0@ == link;
                assert(pairs[a].1 == link);
            }
        }
        listing
    }

    fn add_social_profile(self, social_media_site: SocialMediaWebsite, link: &str) -> (made: Result<
        Self,
        ContactError,
    >)
        ensures
            made is Ok <==> acceptable_link(link@),
            made is Ok ==> made->Ok_0@ == self@.insert(link@, social_media_site),
    {
        proof {
            use_type_invariant(&self);
            lemma_map_of(self.0@);
        }
        let link = SocialProfileLink::new(link)?;
        let found = self.position(&link);
        let ghost before = self.0@;
        let mut entries = self.0;
        match found {
            Some(i) => {
                entries.set(i, (link, social_media_site));
                assert(links_of(entries@) =~= links_of(before));
            },
            None => {
                entries.push((link, social_media_site));
                assert(links_of(entries@) =~= links_of(before).push(link@));
            },
        }
        proof {
            lemma_map_of(entries@);
            let wanted = map_of(before).insert(link@, social_media_site);
            assert forall|key: Seq<char>| map_of(entries@).contains_key(key) implies #[trigger]
                wanted.contains_key(key) && wanted[key] == map_of(entries@)[key] by {
                let a = choose|a: int| 0 <= a < entries@.len() && #[trigger] entries@[a].0@ == key;
                assert(map_of(entries@).contains_key(entries@[a].0@));
                let last = match found {
                    Some(i) => i as int,
                    None => entries@.len() - 1,
                };
                assert(links_of(entries@)[last] == link@);
                assert(links_of(entries@)[a] == key);
                if key != link@ {
                    assert(before[a] == entries@[a]);
                    assert(map_of(before).contains_key(before[a].0@));
                }
            }
            assert forall|key: Seq<char>| #[trigger]
                wanted.contains_key(key) implies map_of(entries@).contains_key(key) by {
                if key != link@ {
                    let a = choose|a: int| 0 <= a < before.len() && #[trigger] before[a].0@ == key;
                    assert(entries@[a].0@ == key);
                } else {
                    match found {
                        Some(i) => {
                            assert(entries@[i as int].0@ == key);
                        },
                        None => {
                            assert(entries@[entries@.len() - 1].0@ == key);
                        },
                    }
                }
            }
            assert(map_of(entries@) =~= wanted);
        }
        Ok(Self(entries))
    }

    fn remove(self, link: &str) -> (made: Result<Self, ContactError>)
        ensures
            made is Ok <==> acceptable_link(link@),
            made is Ok ==> made->Ok_0@ == self@.remove(link@),
    {
        proof {
            use_type_invariant(&self);
            lemma_map_of(self.0@);
        }
        let link = SocialProfileLink::new(link)?;
        let found = self.position(&link);
        let ghost before = self.0@;
        let mut entries = self.0;
        match found {
            Some(i) => {
                entries.remove(i);
                assert(links_of(entries@) =~= links_of(before).remove(i as int));
                proof {
                    let links = links_of(before);
                    assert forall|a: int, b: int|
                        0 <= a < entries@.len() && 0 <= b < entries@.len() && a != b implies links_of(
                        entries@,
                    )[a] != links_of(entries@)[b] by {
                        let a0 = if a < i { a } else { a + 1 };
                        let b0 = if b < i { b } else { b + 1 };
                        assert(links_of(entries@)[a] == links[a0]);
                        assert(links_of(entries@)[b] == links[b0]);
                    }
                }
            },
            None => {},
        }
        proof {
            lemma_map_of(entries@);
            let wanted = map_of(before).remove(link@);
            assert forall|key: Seq<char>| map_of(entries@).contains_key(key) implies #[trigger]
                wanted.contains_key(key) && wanted[key] == map_of(entries@)[key] by {
                let a = choose|a: int| 0 <= a < entries@.len() && #[trigger] entries@[a].0@ == key;
                match found {
                    Some(i) => {
                        let a0 = if a < i { a } else { a + 1 };
                        assert(before[a0] == entries@[a]);
                        assert(links_of(before)[a0] == key);
                        assert(links_of(before)[i as int] == link@);
                    },
                    None => {
                        assert(links_of(before)[a] == key);
                    },
                }
            }
            assert forall|key: Seq<char>| #[trigger]
                wanted.contains_key(key) implies map_of(entries@).contains_key(key) by {
                let a = choose|a: int| 0 <= a < before.len() && #[trigger] before[a].0@ == key;
                match found {
                    Some(i) => {
                        let a1 = if a < i { a } else { a - 1 };
                        assert(entries@[a1] == before[a]);
                    },
                    None => {},
                }
            }
            assert(map_of(entries@) =~= wanted);
        }
        Ok(Self(entries))
    }

    /// Whether two lists hold the same links with the same sites.
    fn same_as(&self, other: &Self) -> (same: bool)
        ensures
            same == (self@ == other@),
    {
        proof {
            use_type_invariant(self);
            use_type_invariant(other);
            lemma_map_of(self.0@);
            lemma_map_of(other.0@);
        }
        if self.0.len() != other.0.len() {
            return false;
        }
        let mut i: usize = 0;
        while i < self.0.len()
            invariant
                i <= self.0@.len(),
                forall|j: int|
                    0 <= j < i ==> other@.contains_key(#[trigger] self.0@[j].0@)
                        && other@[self.0@[j].0@] == self.0@[j].1,
                forall|j: int|
                    0 <= j < self.0@.len() ==> #[trigger] self@.contains_key(self.0@[j].0@)
                        && self@[self.0@[j].0@] == self.0@[j].1,
                forall|j: int|
                    0 <= j < other.0@.len() ==> #[trigger] other@.contains_key(other.0@[j].0@)
                        && other@[other.0@[j].0@] == other.0@[j].1,
            decreases self.0@.len() - i,
        {
            match other.position(&self.0[i].0) {
                Some(j) => {
                    assert(other@.contains_key(other.0@[j as int].0@));
                    assert(self@.contains_key(self.0@[i as int].0@));
                    if other.0[j].1 != self.0[i].1 {
                        assert(other@[self.0@[i as int].0@] != self@[self.0@[i as int].0@]);
                        return false;
                    }
                },
                None => {
                    assert(self@.contains_key(self.0@[i as int].0@));
                    assert(!other@.contains_key(self.0@[i as int].0@));
                    return false;
                },
            }
            i += 1;
        }
        proof {
            assert(self@.dom().subset_of(other@.dom())) by {
                assert forall|key: Seq<char>| self@.dom().contains(key) implies other@.dom().contains(
                    key,
                ) by {
                    assert(self@.contains_key(key));
                    let a = choose|a: int| 0 <= a < self.0@.len() && #[trigger] self.0@[a].0@ == key;
                }
            }
            vstd::set_lib::lemma_subset_equality(self@.dom(), other@.dom());
            assert forall|key: Seq<char>| self@.contains_key(key) implies #[trigger] self@[key]
                == other@[key] by {
                let a = choose|a: int| 0 <= a < self.0@.len() && #[trigger] self.0@[a].0@ == key;
            }
            assert(self@ =~= other@);
        }
        true
    }
}

/// The pairs of a listing of profiles as plain values.
pub open spec fn profile_pairs(listing: Seq<(SocialMediaWebsite, &str)>) -> Seq<
    (SocialMediaWebsite, Seq<char>),
> {
    listing.map_values(|entry: (SocialMediaWebsite, &str)| (entry.0, entry.1@))
}

/// Whether `listing` holds the profiles of `profiles` and nothing else, each
/// link once, in whatever order.
pub open spec fn lists_profiles(
    listing: Seq<(SocialMediaWebsite, Seq<char>)>,
    profiles: Map<Seq<char>, SocialMediaWebsite>,
) -> bool {
    &&& forall|i: int|
        0 <= i < listing.len() ==> profiles.contains_pair(
            (#[trigger] listing[i]).1,
            listing[i].0,
        )
    &&& forall|i: int, j: int|
        0 <= i < j < listing.len() ==> (#[trigger] listing[i]).1 != (#[trigger] listing[j]).1
    &&& forall|link: Seq<char>| #[trigger]
        profiles.contains_key(link) ==> exists|i: int|
            0 <= i < listing.len() && (#[trigger] listing[i]).1 == link
}

/// What a contact is: its name, its optional attributes and its social
/// profiles, each link with the site it is on.
pub struct ContactView {
    pub name: Seq<char>,
    pub address: Option<Seq<char>>,
    pub email: Option<Seq<char>>,
    pub phone_number: Option<Seq<char>>,
    pub social_profiles: Map<Seq<char>, SocialMediaWebsite>,
}

impl ContactView {
    /// The contact of that name with nothing else set.
    pub open spec fn create(name: Seq<char>) -> Self {
        ContactView {
            name,
            address: None,
            email: None,
            phone_number: None,
            social_profiles: Map::empty(),
        }
    }

    /// The contact with that address, whatever it had before.
    pub open spec fn with_address(self, address: Seq<char>) -> Self {
        ContactView { address: Some(address), ..self }
    }

    /// The contact without an address.
    pub open spec fn without_address(self) -> Self {
        ContactView { address: None, ..self }
    }

    /// The contact with that email, whatever it had before.
    pub open spec fn with_email(self, email: Seq<char>) -> Self {
        ContactView { email: Some(email), ..self }
    }

    /// The contact without an email.
    pub open spec fn without_email(self) -> Self {
        ContactView { email: None, ..self }
    }

    /// The contact with that phone number, whatever it had before.
    pub open spec fn with_phone(self, phone_number: Seq<char>) -> Self {
        ContactView { phone_number: Some(phone_number), ..self }
    }

    /// The contact without a phone number.
    pub open spec fn without_phone(self) -> Self {
        ContactView { phone_number: None, ..self }
    }

    /// The contact with `link` classified as `site`, whatever it was before.
    pub open spec fn with_social_profile(self, site: SocialMediaWebsite, link: Seq<char>) -> Self {
        ContactView { social_profiles: self.social_profiles.insert(link, site), ..self }
    }

    /// The contact without a profile under `link`.
    pub open spec fn without_social_profile(self, link: Seq<char>) -> Self {
        ContactView { social_profiles: self.social_profiles.remove(link), ..self }
    }
}

/// One entry of a directory.
#[derive(Debug)]
pub struct Contact {
    name: ContactName,
    address: Option<ContactAddress>,
    email: Option<ContactEmail>,
    phone_number: Option<ContactPhoneNumber>,
    social_profiles: SocialProfileList,
}

impl View for Contact {
    type V = ContactView;

    closed spec fn view(&self) -> ContactView {
        ContactView {
            name: self.name@,
            address: match self.address {
                Some(address) => Some(address@),
                None => None,
            },
            email: match self.email {
                Some(email) => Some(email@),
                None => None,
            },
            phone_number: match self.phone_number {
                Some(phone_number) => Some(phone_number@),
                None => None,
            },
            social_profiles: self.social_profiles@,
        }
    }
}

impl Clone for Contact {
    fn clone(&self) -> (copy: Self)
        ensures
            copy@ == self@,
    {
        Contact {
            name: self.name.clone(),
            address: match &self.address {
                Some(address) => Some(address.clone()),
                None => None,
            },
            email: match &self.email {
                Some(email) => Some(email.clone()),
                None => None,
            },
            phone_number: match &self.phone_number {
                Some(phone_number) => Some(phone_number.clone()),
                None => None,
            },
            social_profiles: self.social_profiles.clone(),
        }
    }
}

impl Default for Contact {
    fn default() -> (contact: Self)
        ensures
            contact@ == ContactView::create(Seq::empty()),
    {
        Contact {
            name: ContactName(String::new()),
            address: None,
            email: None,
            phone_number: None,
            social_profiles: SocialProfileList::new(),
        }
    }
}

impl PartialEq for Contact {
    /// Two contacts are equal when they hold the same name, attributes and
    /// profiles.
    fn eq(&self, other: &Self) -> (equal: bool) {
        let same_address = match (&self.address, &other.address) {
            (Some(mine), Some(theirs)) => mine.0 == theirs.0,
            (None, None) => true,
            _ => false,
        };
        let same_email = match (&self.email, &other.email) {
            (Some(mine), Some(theirs)) => mine.0 == theirs.0,
            (None, None) => true,
            _ => false,
        };
        let same_phone_number = match (&self.phone_number, &other.phone_number) {
            (Some(mine), Some(theirs)) => mine.0 == theirs.0,
            (None, None) => true,
            _ => false,
        };
        self.name.0 == other.name.0 && same_address && same_email && same_phone_number
            && self.social_profiles.same_as(&other.social_profiles)
    }
}

impl PartialEqSpecImpl for Contact {
    open spec fn obeys_eq_spec() -> bool {
        true
    }

    open spec fn eq_spec(&self, other: &Self) -> bool {
        self@ == other@
    }
}

impl Contact {
    /// The contact of that name, with no attribute and no profile.
    pub fn new(name: &str) -> (made: Result<Self, ContactError>)
        ensures
            made is Ok <==> acceptable_name(name@),
            made is Ok ==> made->Ok_0@ == ContactView::create(name@),
    {
        let name = ContactName::new(name)?;
        Ok(
            Contact {
                name,
                address: None,
                email: None,
                phone_number: None,
                social_profiles: SocialProfileList::new(),
            },
        )
    }

    /// The name of the contact.
    pub fn get_name(&self) -> (name: &str)
        ensures
            name@ == self@.name,
    {
        self.name.get_name()
    }

    /// Sets the address, in place of the one there was.
    pub fn add_address(self, address: &str) -> (made: Result<Self, ContactError>)
        ensures
            made is Ok <==> acceptable_attribute(address@),
            made is Ok ==> made->Ok_0@ == self@.with_address(address@),
    {
        let mut contact = self;
        contact.address = Some(ContactAddress::new(address)?);
        Ok(contact)
    }

    /// The address, if the contact has one.
    pub fn get_address(&self) -> (address: Option<&str>)
        ensures
            match address {
                Some(text) => self@.address == Some(text@),
                None => self@.address is None,
            },
    {
        match &self.address {
            Some(address) => Some(address.get_address()),
            None => None,
        }
    }

    /// Clears the address; without one the contact stays as it is.
    pub fn remove_address(self) -> (made: Self)
        ensures
            made@ == self@.without_address(),
    {
        let mut contact = self;
        contact.address = None;
        contact
    }

    /// Sets the email, in place of the one there was.
    pub fn add_email(self, email: &str) -> (made: Result<Self, ContactError>)
        ensures
            made is Ok <==> acceptable_attribute(email@),
            made is Ok ==> made->Ok_0@ == self@.with_email(email@),
    {
        let mut contact = self;
        contact.email = Some(ContactEmail::new(email)?);
        Ok(contact)
    }

    /// The email, if the contact has one.
    pub fn get_email(&self) -> (email: Option<&str>)
        ensures
            match email {
                Some(text) => self@.email == Some(text@),
                None => self@.email is None,
            },
    {
        match &self.email {
            Some(email) => Some(email.get_email()),
            None => None,
        }
    }

    /// Clears the email; without one the contact stays as it is.
    pub fn remove_email(self) -> (made: Self)
        ensures
            made@ == self@.without_email(),
    {
        let mut contact = self;
        contact.email = None;
        contact
    }

    /// Sets the phone number, in place of the one there was.
    pub fn add_phone_number(self, phone_number: &str) -> (made: Result<Self, ContactError>)
        ensures
            made is Ok <==> acceptable_attribute(phone_number@),
            made is Ok ==> made->Ok_0@ == self@.with_phone(phone_number@),
    {
        let mut contact = self;
        contact.phone_number = Some(ContactPhoneNumber::new(phone_number)?);
        Ok(contact)
    }

    /// The phone number, if the contact has one.
    pub fn get_phone_number(&self) -> (phone_number: Option<&str>)
        ensures
            match phone_number {
                Some(text) => self@.phone_number == Some(text@),
                None => self@.phone_number is None,
            },
    {
        match &self.phone_number {
            Some(phone_number) => Some(phone_number.get_phone_number()),
            None => None,
        }
    }

    /// Clears the phone number; without one the contact stays as it is.
    pub fn remove_phone_number(self) -> (made: Self)
        ensures
            made@ == self@.without_phone(),
    {
        let mut contact = self;
        contact.phone_number = None;
        contact
    }

    /// Classifies `link` as a profile on `social_media_site`, whether or not
    /// the contact had that link before.
    pub fn add_social_profile(self, social_media_site: SocialMediaWebsite, link: &str) -> (made:
        Result<Self, ContactError>)
        ensures
            made is Ok <==> acceptable_link(link@),
            made is Ok ==> made->Ok_0@ == self@.with_social_profile(social_media_site, link@),
    {
        let Contact { name, address, email, phone_number, social_profiles } = self;
        let social_profiles = social_profiles.add_social_profile(social_media_site, link)?;
        Ok(Contact { name, address, email, phone_number, social_profiles })
    }

    /// The profiles of the contact, each once, in no particular order.
    pub fn get_social_media_profiles(&self) -> (listing: Vec<(SocialMediaWebsite, &str)>)
        ensures
            lists_profiles(profile_pairs(listing@), self@.social_profiles),
            listing@.len() == self@.social_profiles.len(),
    {
        self.social_profiles.as_vec()
    }

    /// Takes the profile under `link` away; a link that the contact does not
    /// have changes nothing.
    pub fn remove_social_profile(self, link: &str) -> (made: Result<Self, ContactError>)
        ensures
            made is Ok <==> acceptable_link(link@),
            made is Ok ==> made->Ok_0@ == self@.without_social_profile(link@),
    {
        let Contact { name, address, email, phone_number, social_profiles } = self;
        let social_profiles = social_profiles.remove(link)?;
        Ok(Contact { name, address, email, phone_number, social_profiles })
    }
}

/// Clearing an attribute that is absent leaves the contact unchanged, and
/// clearing twice is clearing once.
pub proof fn lemma_clear_is_idempotent(contact: ContactView)
    ensures
        contact.address is None ==> contact.without_address() == contact,
        contact.email is None ==> contact.without_email() == contact,
        contact.phone_number is None ==> contact.without_phone() == contact,
        contact.without_address().without_address() == contact.without_address(),
        contact.without_email().without_email() == contact.without_email(),
        contact.without_phone().without_phone() == contact.without_phone(),
{
}

/// Setting an attribute overwrites the value there was, and clearing it
/// afterwards gives what clearing alone gives.
pub proof fn lemma_set_overwrites(contact: ContactView, first: Seq<char>, second: Seq<char>)
    ensures
        contact.with_address(first).with_address(second) == contact.with_address(second),
        contact.with_email(first).with_email(second) == contact.with_email(second),
        contact.with_phone(first).with_phone(second) == contact.with_phone(second),
        contact.with_address(first).without_address() == contact.without_address(),
        contact.with_email(first).without_email() == contact.without_email(),
        contact.with_phone(first).without_phone() == contact.without_phone(),
{
}

/// A link is held at most once: adding it again replaces its site. Taking
/// away a link that the contact does not have changes nothing, and taking a
/// link away after adding it gives what taking it away alone gives.
pub proof fn lemma_social_profiles(
    contact: ContactView,
    first: SocialMediaWebsite,
    second: SocialMediaWebsite,
    link: Seq<char>,
)
    ensures
        contact.with_social_profile(first, link).with_social_profile(second, link)
            == contact.with_social_profile(second, link),
        contact.with_social_profile(first, link).social_profiles.contains_pair(link, first),
        !contact.social_profiles.contains_key(link) ==> contact.without_social_profile(link)
            == contact,
        !contact.without_social_profile(link).social_profiles.contains_key(link),
        contact.with_social_profile(first, link).without_social_profile(link)
            == contact.without_social_profile(link),
{
    let twice = contact.with_social_profile(first, link).with_social_profile(second, link);
    assert(twice.social_profiles =~= contact.with_social_profile(second, link).social_profiles);
    assert(contact.without_social_profile(link).social_profiles =~= contact.social_profiles.remove(
        link,
    ));
    if !contact.social_profiles.contains_key(link) {
        assert(contact.social_profiles.remove(link) =~= contact.social_profiles);
    }
    assert(contact.with_social_profile(first, link).without_social_profile(link).social_profiles
        =~= contact.without_social_profile(link).social_profiles);
}

} // verus!
