use contact_book::book::{ContactBook, ContactBookEntryId, ContactBookError};
use contact_book::contact::Contact;

#[test]
fn book_no_two_new_contact_book_entry_ids_are_identical() {
    let id_1 = ContactBookEntryId::new();
    let id_2 = ContactBookEntryId::new();

    assert_ne!(id_1, id_2);
}

#[test]
fn book_getting_a_nonexistant_contact_entry_returns_an_error() {
    let id = ContactBookEntryId::new();
    let contacts = ContactBook::new();

    let queried_contact = contacts.get_contact(&id);

    assert_eq!(queried_contact, Err(ContactBookError::NoSuchContactInBook));
}

#[test]
fn book_adding_a_nonexistant_contact_to_favorites_returns_an_error() {
    let id = ContactBookEntryId::new();
    let contacts = ContactBook::new();

    let contacts = contacts.add_favorite_contact(&id);

    assert_eq!(
        contacts,
        Err(ContactBookError::CannotFavoriteNonexistantContact)
    );
}

#[test]
fn book_removing_a_nonexistant_contact_from_favorites_returns_an_error() {
    let id = ContactBookEntryId::new();
    let contacts = ContactBook::new();

    let contacts = contacts.remove_favorite_contact(&id);

    assert_eq!(contacts, Err(ContactBookError::NoSuchContactInBook));
}

#[test]
fn book_removing_a_nonfavorited_contact_from_favorites_returns_an_error() {
    let (id, contacts) = ContactBook::new().add_contact(Contact::new("Foo Bar").unwrap());

    let contacts = contacts.remove_favorite_contact(&id);

    assert_eq!(contacts, Err(ContactBookError::ContactWasNotAFavorite));
}

#[test]
fn book_removing_a_nonexistant_contact_returns_an_error() {
    let id = ContactBookEntryId::new();
    let contacts = ContactBook::new();

    let contacts = contacts.remove_contact(id);

    assert_eq!(
        contacts,
        Err(ContactBookError::CannotRemoveNonexistantContact)
    );
}

#[test]
fn book_removing_a_contact_from_the_book_removes_the_contact_id_from_the_list_of_favorites() {
    let (id, contacts) = ContactBook::new().add_contact(Contact::new("Foo Bar").unwrap());

    let contacts = contacts.add_favorite_contact(&id).unwrap();

    assert_eq!(contacts.get_favorite_contact_ids(), vec![id.clone()]);

    let contacts = contacts.remove_contact(id).unwrap();

    assert_eq!(contacts.get_favorite_contact_ids(), Vec::new())
}
