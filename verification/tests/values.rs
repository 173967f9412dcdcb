use contact_book::contact::{Contact, ContactError, SocialMediaWebsite};

fn sorted<'a>(
    mut profiles: Vec<(SocialMediaWebsite, &'a str)>,
) -> Vec<(SocialMediaWebsite, &'a str)> {
    profiles.sort_by_key(|profile| profile.1);
    profiles
}

#[test]
fn a_new_contact_has_its_name_and_nothing_else() {
    let contact = Contact::new("Foo Bar").unwrap();

    assert_eq!(contact.get_name(), "Foo Bar");
    assert_eq!(contact.get_address(), None);
    assert_eq!(contact.get_email(), None);
    assert_eq!(contact.get_phone_number(), None);
    assert_eq!(contact.get_social_media_profiles(), Vec::new());
}

#[test]
fn every_name_is_accepted() {
    assert_eq!(Contact::new("").unwrap().get_name(), "");
    assert_eq!(Contact::new("  ").unwrap().get_name(), "  ");
    assert_eq!(Contact::new("Žofie Nováková").unwrap().get_name(), "Žofie Nováková");
}

#[test]
fn the_default_contact_has_an_empty_name() {
    let contact = Contact::default();

    assert_eq!(contact.get_name(), "");
    assert_eq!(contact, Contact::new("").unwrap());
}

#[test]
fn clearing_an_absent_attribute_changes_nothing() {
    let contact = Contact::new("Foo Bar")
        .unwrap()
        .add_social_profile(SocialMediaWebsite::Twitter, "https://twitter.example/foo")
        .unwrap();

    let cleared = contact.clone().remove_address();
    assert_eq!(cleared.get_address(), None);
    assert_eq!(cleared, contact);

    let cleared = contact.clone().remove_email();
    assert_eq!(cleared.get_email(), None);
    assert_eq!(cleared, contact);

    let cleared = contact.clone().remove_phone_number();
    assert_eq!(cleared.get_phone_number(), None);
    assert_eq!(cleared, contact);
}

#[test]
fn clearing_twice_is_clearing_once() {
    let contact = Contact::new("Foo Bar")
        .unwrap()
        .add_address("123 Main St.")
        .unwrap();

    let once = contact.remove_address();
    let twice = once.clone().remove_address();

    assert_eq!(twice, once);
    assert_eq!(twice, Contact::new("Foo Bar").unwrap());
}

#[test]
fn setting_an_attribute_overwrites_it() {
    let contact = Contact::new("Foo Bar")
        .unwrap()
        .add_address("123 Main St.")
        .unwrap()
        .add_address("456 Side St.")
        .unwrap()
        .add_email("foo@example.test")
        .unwrap()
        .add_email("bar@example.test")
        .unwrap()
        .add_phone_number("1234567890")
        .unwrap()
        .add_phone_number("0987654321")
        .unwrap();

    assert_eq!(contact.get_name(), "Foo Bar");
    assert_eq!(contact.get_address(), Some("456 Side St."));
    assert_eq!(contact.get_email(), Some("bar@example.test"));
    assert_eq!(contact.get_phone_number(), Some("0987654321"));
}

#[test]
fn attributes_are_set_and_cleared_one_by_one() {
    let contact = Contact::new("Foo Bar")
        .unwrap()
        .add_address("123 Main St.")
        .unwrap()
        .add_email("foo@example.test")
        .unwrap()
        .add_phone_number("1234567890")
        .unwrap();

    let contact = contact.remove_email();

    assert_eq!(contact.get_address(), Some("123 Main St."));
    assert_eq!(contact.get_email(), None);
    assert_eq!(contact.get_phone_number(), Some("1234567890"));
}

#[test]
fn a_link_is_held_once_and_adding_it_again_replaces_its_site() {
    let contact = Contact::new("Foo Bar")
        .unwrap()
        .add_social_profile(SocialMediaWebsite::Unknown, "https://example.test/foo")
        .unwrap()
        .add_social_profile(SocialMediaWebsite::LinkedIn, "https://linkedin.example/foo")
        .unwrap()
        .add_social_profile(SocialMediaWebsite::MySpace, "https://example.test/foo")
        .unwrap();

    assert_eq!(
        sorted(contact.get_social_media_profiles()),
        vec![
            (SocialMediaWebsite::MySpace, "https://example.test/foo"),
            (SocialMediaWebsite::LinkedIn, "https://linkedin.example/foo"),
        ]
    );
}

#[test]
fn removing_a_link_that_is_absent_changes_nothing() {
    let contact = Contact::new("Foo Bar")
        .unwrap()
        .add_social_profile(SocialMediaWebsite::Github, "https://github.com/example")
        .unwrap();

    let same = contact
        .clone()
        .remove_social_profile("https://github.com/other")
        .unwrap();

    assert_eq!(same, contact);
    assert_eq!(
        same.get_social_media_profiles(),
        vec![(SocialMediaWebsite::Github, "https://github.com/example")]
    );
}

#[test]
fn removing_a_link_leaves_the_others() {
    let contact = Contact::new("Foo Bar")
        .unwrap()
        .add_social_profile(SocialMediaWebsite::Github, "a")
        .unwrap()
        .add_social_profile(SocialMediaWebsite::Twitter, "b")
        .unwrap()
        .add_social_profile(SocialMediaWebsite::LinkedIn, "c")
        .unwrap();

    let contact = contact.remove_social_profile("b").unwrap();

    assert_eq!(
        sorted(contact.get_social_media_profiles()),
        vec![
            (SocialMediaWebsite::Github, "a"),
            (SocialMediaWebsite::LinkedIn, "c"),
        ]
    );
}

#[test]
fn contacts_with_the_same_profiles_are_equal_in_any_order() {
    let one = Contact::new("Foo Bar")
        .unwrap()
        .add_social_profile(SocialMediaWebsite::Github, "a")
        .unwrap()
        .add_social_profile(SocialMediaWebsite::Twitter, "b")
        .unwrap();
    let other = Contact::new("Foo Bar")
        .unwrap()
        .add_social_profile(SocialMediaWebsite::Twitter, "b")
        .unwrap()
        .add_social_profile(SocialMediaWebsite::Github, "a")
        .unwrap();

    assert_eq!(one, other);
}

#[test]
fn contacts_that_differ_in_one_part_are_not_equal() {
    let contact = Contact::new("Foo Bar")
        .unwrap()
        .add_address("123 Main St.")
        .unwrap()
        .add_social_profile(SocialMediaWebsite::Github, "a")
        .unwrap();

    assert_ne!(contact, Contact::new("Foo Bar").unwrap());
    assert_ne!(
        contact,
        Contact::new("Foo Baz")
            .unwrap()
            .add_address("123 Main St.")
            .unwrap()
            .add_social_profile(SocialMediaWebsite::Github, "a")
            .unwrap()
    );
    assert_ne!(contact, contact.clone().add_address("124 Main St.").unwrap());
    assert_ne!(contact, contact.clone().add_email("foo@example.test").unwrap());
    assert_ne!(contact, contact.clone().add_phone_number("1").unwrap());
    assert_ne!(
        contact,
        contact
            .clone()
            .add_social_profile(SocialMediaWebsite::Twitter, "a")
            .unwrap()
    );
    assert_ne!(
        contact,
        contact
            .clone()
            .remove_social_profile("a")
            .unwrap()
            .add_social_profile(SocialMediaWebsite::Github, "b")
            .unwrap()
    );
    assert_eq!(contact, contact.clone());
}

#[test]
fn the_contact_error_has_its_text() {
    assert_eq!(ContactError.message(), "ContactError");
}
