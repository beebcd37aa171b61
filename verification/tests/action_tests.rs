use propyarn::actions::{apply_narrative_action, NarrativeAction};
use propyarn::narrative_core::{Ability, MemoryId, Multiverse, RelationshipState};
use propyarn::properties::validate_all_properties;

#[test]
fn test_trade_memory_action() {
    let mut m = Multiverse::new();
    let root = m.root_timeline;
    let khelis = m.create_character("Khelis Tev".to_string(), root);
    let customer = m.create_character("Customer".to_string(), root);

    apply_narrative_action(&mut m, &NarrativeAction::TradeMemory {
        memory: MemoryId(4711),
        from: khelis,
        to: customer,
        mechanism: "Memory Market".to_string(),
    });

    assert!(m.memories.iter().any(|mm| mm.id == MemoryId(4711)));
    assert!(m.characters[customer.0 as usize].memories.contains(&MemoryId(4711)));
    assert!(validate_all_properties(&m).is_ok());
}

#[test]
fn test_kill_and_resurrect_actions() {
    let mut m = Multiverse::new();
    let root = m.root_timeline;
    let a = m.create_character("A".to_string(), root);

    apply_narrative_action(&mut m, &NarrativeAction::KillCharacter { character: a,
        timeline: root });
    assert!(!m.characters[a.0 as usize].alive);
    assert!(validate_all_properties(&m).is_ok());

    apply_narrative_action(&mut m, &NarrativeAction::ResurrectCharacter {
        character: a,
        timeline: root,
        mechanism: "Living Gate".to_string(),
    });
    assert!(m.characters[a.0 as usize].alive);
    assert!(validate_all_properties(&m).is_ok());

    // killing a dead character is guarded into a no-op
    let events_before = m.events.len();
    m.characters[a.0 as usize].alive = false;
    apply_narrative_action(&mut m, &NarrativeAction::KillCharacter { character: a,
        timeline: root });
    assert_eq!(m.events.len(), events_before);
}

#[test]
fn test_branch_and_grant_actions() {
    let mut m = Multiverse::new();
    let root = m.root_timeline;
    let a = m.create_character("A".to_string(), root);

    // branching needs at least one event
    apply_narrative_action(&mut m, &NarrativeAction::BranchTimeline { parent: root });
    assert_eq!(m.timelines.len(), 1);

    apply_narrative_action(&mut m, &NarrativeAction::GrantKnowledge {
        character: a,
        flag: "gate_lore".to_string(),
        timeline: root,
    });
    apply_narrative_action(&mut m, &NarrativeAction::BranchTimeline { parent: root });
    assert_eq!(m.timelines.len(), 2);

    apply_narrative_action(&mut m, &NarrativeAction::GrantAbility {
        character: a,
        ability: Ability::Precognition,
    });
    apply_narrative_action(&mut m, &NarrativeAction::GrantAbility {
        character: a,
        ability: Ability::Precognition,
    });
    assert_eq!(m.characters[a.0 as usize].abilities, vec![Ability::Precognition]);
    assert!(validate_all_properties(&m).is_ok());
}

#[test]
fn test_change_relationship_action() {
    let mut m = Multiverse::new();
    let root = m.root_timeline;
    let a = m.create_character("A".to_string(), root);
    let b = m.create_character("B".to_string(), root);
    apply_narrative_action(&mut m, &NarrativeAction::ChangeRelationship {
        char1: a,
        char2: b,
        new_state: RelationshipState::Distrustful,
        timeline: root,
    });
    let ab = m.characters[a.0 as usize].relationships.iter().find(|p| p.0 == b).unwrap().1;
    let ba = m.characters[b.0 as usize].relationships.iter().find(|p| p.0 == a).unwrap().1;
    assert_eq!(ab, RelationshipState::Distrustful);
    assert_eq!(ba, RelationshipState::Distrustful);
    assert!(validate_all_properties(&m).is_ok());
}
