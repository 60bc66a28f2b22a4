use gitland_ai::roster::Roster;

#[test]
fn a_new_roster_is_empty() {
    let roster: Roster<u8> = Roster::new();
    assert!(roster.is_empty());
    assert_eq!(roster.len(), 0);
    assert_eq!(roster.get("ann"), None);
    assert!(!roster.contains("ann"));
    assert_eq!(roster.index_of("ann"), None);
}

#[test]
fn insert_files_a_value_under_its_name() {
    let mut roster = Roster::new();
    assert_eq!(roster.insert("ann".to_string(), 1), None);
    assert_eq!(roster.insert("bob".to_string(), 2), None);
    assert_eq!(roster.len(), 2);
    assert!(!roster.is_empty());
    assert_eq!(roster.get("ann"), Some(&1));
    assert_eq!(roster.get("bob"), Some(&2));
    assert_eq!(roster.get("cat"), None);
    assert!(roster.contains("bob"));
    assert_eq!(roster.index_of("bob"), Some(1));
}

#[test]
fn insert_keeps_the_place_of_a_name_it_holds() {
    let mut roster = Roster::new();
    roster.insert("ann".to_string(), 1);
    roster.insert("bob".to_string(), 2);
    roster.insert("cat".to_string(), 3);
    assert_eq!(roster.insert("bob".to_string(), 20), Some(2));
    assert_eq!(roster.len(), 3);
    assert_eq!(roster.name_at(0), "ann");
    assert_eq!(roster.name_at(1), "bob");
    assert_eq!(roster.name_at(2), "cat");
    assert_eq!(*roster.value_at(0), 1);
    assert_eq!(*roster.value_at(1), 20);
    assert_eq!(*roster.value_at(2), 3);
    assert_eq!(roster.get("bob"), Some(&20));
}

#[test]
fn names_differ_by_every_character() {
    let mut roster = Roster::new();
    roster.insert("ann".to_string(), 1);
    roster.insert("anne".to_string(), 2);
    roster.insert("".to_string(), 3);
    roster.insert("Ann".to_string(), 4);
    assert_eq!(roster.len(), 4);
    assert_eq!(roster.get(""), Some(&3));
    assert_eq!(roster.get("ann"), Some(&1));
    assert_eq!(roster.get("Ann"), Some(&4));
    assert_eq!(roster.get("an"), None);
}
