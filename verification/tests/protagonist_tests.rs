use propyarn::narrative_core::{Ability, Multiverse, RelationshipState};
use propyarn::properties::validate_all_properties;
use propyarn::protagonists::{
    create_thirteen_protagonists, initialize_relationships, protagonist_names,
    protagonist_profiles,
};

#[test]
fn test_protagonist_names() {
    let names = protagonist_names();
    assert_eq!(names.len(), 13);
    assert_eq!(names[0], "Vera Kandros");
    assert_eq!(names[12], "The Conductor");
}

// The names catalog and the profiles list the same people in the same
// order.
#[test]
fn test_names_match_profiles() {
    let names = protagonist_names();
    let profiles = protagonist_profiles();
    assert_eq!(names.len(), profiles.len());
    for (name, profile) in names.iter().zip(profiles.iter()) {
        assert_eq!(*name, profile.name);
    }
}

#[test]
fn test_create_thirteen_protagonists() {
    let mut multiverse = Multiverse::new();
    let char_ids = create_thirteen_protagonists(&mut multiverse);

    assert_eq!(char_ids.len(), 13);
    assert_eq!(multiverse.characters.len(), 13);

    // Vera has timeline perception
    assert!(multiverse.characters[char_ids[0].0 as usize].abilities.contains(
        &Ability::TimelinePerception));

    // Nameless has both timeline perception and loop memory
    assert!(multiverse.characters[char_ids[3].0 as usize].abilities.contains(
        &Ability::TimelinePerception));
    assert!(multiverse.characters[char_ids[3].0 as usize].abilities.contains(
        &Ability::LoopMemory));
}

#[test]
fn test_thirteen_protagonists_creation() {
    let mut multiverse = Multiverse::new();
    let char_ids = create_thirteen_protagonists(&mut multiverse);
    assert_eq!(char_ids.len(), 13);

    let expected = vec![
        "Vera Kandros",
        "Khelis Tev",
        "Dr. Elian Saros",
        "Nameless",
        "Corvus Shal",
        "Yash-Tel",
        "Riven Blackwood",
        "The Cartographer",
        "Synthesis",
        "Mara Vex",
        "Kor-Valeth",
        "Dr. Theo Lux",
        "The Conductor",
    ];
    for (id, name) in char_ids.iter().zip(expected.iter()) {
        assert_eq!(multiverse.characters[id.0 as usize].name, *name);
    }
}

#[test]
fn test_initialize_relationships() {
    let mut multiverse = Multiverse::new();
    let char_ids = create_thirteen_protagonists(&mut multiverse);
    initialize_relationships(&mut multiverse, &char_ids);

    let vera = &multiverse.characters[char_ids[0].0 as usize];
    let corvus_entry = vera.relationships.iter().find(|p| p.0 == char_ids[4]).unwrap();
    assert_eq!(corvus_entry.1, RelationshipState::Allied);

    let lux = &multiverse.characters[char_ids[11].0 as usize];
    let saros_entry = lux.relationships.iter().find(|p| p.0 == char_ids[2]).unwrap();
    assert_eq!(saros_entry.1, RelationshipState::Hostile);

    // the whole arrangement still satisfies every invariant
    assert!(validate_all_properties(&multiverse).is_ok());
}
