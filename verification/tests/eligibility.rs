use corpus_embed::eligibility::AllowList;

#[test]
fn physics_list_has_five_topics() {
    assert_eq!(AllowList::physics().len(), 5);
}

#[test]
fn physics_list_admits_each_of_its_topics() {
    let allow = AllowList::physics();
    assert!(allow.admits("<quantum-mechanics>"));
    assert!(allow.admits("<statistical-mechanics>"));
    assert!(allow.admits("<thermodynamics>"));
    assert!(allow.admits("<electromagnetism>"));
    assert!(allow.admits("<electrodynamics>"));
}

#[test]
fn physics_list_refuses_other_topics() {
    let allow = AllowList::physics();
    assert!(!allow.admits("<game-design>"));
    assert!(!allow.admits("<optics><waves>"));
    assert!(!allow.admits(""));
}

#[test]
fn one_matching_tag_among_several_is_enough() {
    let allow = AllowList::physics();
    assert!(allow.admits("<homework-and-exercises><thermodynamics><entropy>"));
    assert!(allow.admits("<optics><electromagnetism>"));
}

#[test]
fn a_tag_must_be_whole() {
    let allow = AllowList::physics();
    assert!(!allow.admits("quantum-mechanics"));
    assert!(!allow.admits("<quantum-mechanic>"));
    assert!(!allow.admits("<thermodynamic"));
    assert!(!allow.admits("<quantum-mechanics"));
}

#[test]
fn custom_list_is_used_as_given() {
    let allow = AllowList::new(&vec![String::from("<game-design>"), String::from("<chess>")]);
    assert_eq!(allow.len(), 2);
    assert!(allow.admits("<game-design>"));
    assert!(allow.admits("<openings><chess>"));
    assert!(!allow.admits("<quantum-mechanics>"));
}

#[test]
fn empty_list_admits_nothing() {
    let allow = AllowList::new(&Vec::new());
    assert_eq!(allow.len(), 0);
    assert!(!allow.admits("<quantum-mechanics>"));
    assert!(!allow.admits(""));
}

#[test]
fn empty_entry_admits_everything() {
    let allow = AllowList::new(&vec![String::new()]);
    assert!(allow.admits("<anything>"));
    assert!(allow.admits(""));
}

#[test]
fn tags_with_wide_characters_are_matched_by_character() {
    let allow = AllowList::new(&vec![String::from("<mécanique>")]);
    assert!(allow.admits("<physique><mécanique>"));
    assert!(!allow.admits("<mecanique>"));
}
