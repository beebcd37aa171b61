use propyarn::narrative_core::{
    Event, EventEffect, EventId, Memory, MemoryId, MemoryProvenance, Multiverse,
    RelationshipState, TimelineId,
};

fn simple_event(timeline: TimelineId, description: &str, participants: Vec<u64>,
    effects: Vec<EventEffect>) -> Event {
    Event {
        id: EventId(0),
        timeline,
        description: description.to_string(),
        participants: participants.into_iter().map(propyarn::narrative_core::CharacterId).collect(),
        effects,
        causality_violation: None,
    }
}

#[test]
fn test_create_multiverse() {
    let multiverse = Multiverse::new();
    assert_eq!(multiverse.timelines.len(), 1);
    assert_eq!(multiverse.characters.len(), 0);
}

#[test]
fn test_create_character() {
    let mut multiverse = Multiverse::new();
    let timeline = multiverse.root_timeline;
    let char_id = multiverse.create_character("Vera".to_string(), timeline);

    assert_eq!(multiverse.characters.len(), 1);
    let character = &multiverse.characters[char_id.0 as usize];
    assert_eq!(character.id, char_id);
    assert_eq!(character.name, "Vera");
    assert_eq!(character.current_timeline, timeline);
    assert!(character.alive);
}

#[test]
fn test_timeline_branching() {
    let mut multiverse = Multiverse::new();
    let root = multiverse.root_timeline;

    let char_id = multiverse.create_character("Khelis".to_string(), root);

    let event_id = multiverse.record_event(simple_event(root, "Player makes a choice",
        vec![char_id.0], vec![]));

    let new_timeline = multiverse.create_timeline_branch(root, event_id);

    assert_eq!(multiverse.timelines.len(), 2);
    let branch = multiverse.timelines.iter().find(|t| t.id == new_timeline).unwrap();
    assert_eq!(branch.parent, Some(root));
    assert!(branch.characters.contains(&char_id));
}

// Successive character creations hand out strictly increasing ids from 0.
#[test]
fn test_character_id_monotonicity() {
    let mut m = Multiverse::new();
    let root = m.root_timeline;
    let a = m.create_character("A".to_string(), root);
    let b = m.create_character("B".to_string(), root);
    let c = m.create_character("C".to_string(), root);
    assert_eq!(a.0, 0);
    assert_eq!(b.0, 1);
    assert_eq!(c.0, 2);
}

// A branch copies the parent's character set exactly and records its links.
#[test]
fn test_branch_inheritance() {
    let mut m = Multiverse::new();
    let root = m.root_timeline;
    let a = m.create_character("A".to_string(), root);
    let b = m.create_character("B".to_string(), root);
    let e = m.record_event(simple_event(root, "fork", vec![a.0], vec![]));
    let t1 = m.create_timeline_branch(root, e);
    let branch = m.timelines.iter().find(|t| t.id == t1).unwrap();
    assert_eq!(branch.characters, vec![a, b]);
    assert_eq!(branch.parent, Some(root));
    assert_eq!(branch.divergence_event, Some(e));
    assert!(branch.causality_stable);
    assert_eq!(branch.events.len(), 0);
}

// Granting the same knowledge flag twice leaves a one-element flag set.
#[test]
fn test_knowledge_idempotence() {
    let mut m = Multiverse::new();
    let root = m.root_timeline;
    let a = m.create_character("A".to_string(), root);
    let grant = EventEffect::KnowledgeGained { character: a, flag: "saw_the_gate".to_string() };
    let grant_again = EventEffect::KnowledgeGained {
        character: a,
        flag: "saw_the_gate".to_string(),
    };
    m.record_event(simple_event(root, "learning", vec![a.0], vec![grant, grant_again]));
    assert_eq!(m.characters[a.0 as usize].knowledge_flags, vec!["saw_the_gate".to_string()]);
}

// A relationship change sets both directions to the same state.
#[test]
fn test_relationship_symmetry() {
    let mut m = Multiverse::new();
    let root = m.root_timeline;
    let a = m.create_character("A".to_string(), root);
    let b = m.create_character("B".to_string(), root);
    m.record_event(simple_event(root, "alliance", vec![a.0, b.0],
        vec![EventEffect::RelationshipChange {
            character1: a,
            character2: b,
            new_state: RelationshipState::Allied,
        }]));
    let rel_ab = m.characters[a.0 as usize].relationships.iter().find(|p| p.0 == b).unwrap().1;
    let rel_ba = m.characters[b.0 as usize].relationships.iter().find(|p| p.0 == a).unwrap().1;
    assert_eq!(rel_ab, RelationshipState::Allied);
    assert_eq!(rel_ba, RelationshipState::Allied);
}

// A relationship change naming a missing character is wholly a no-op:
// the existing side's entry does not move either.
#[test]
fn test_relationship_change_missing_character_is_noop() {
    let mut m = Multiverse::new();
    let root = m.root_timeline;
    let a = m.create_character("A".to_string(), root);
    let ghost_id = propyarn::narrative_core::CharacterId(42);
    m.record_event(simple_event(root, "a one-sided overture", vec![a.0],
        vec![EventEffect::RelationshipChange {
            character1: a,
            character2: ghost_id,
            new_state: RelationshipState::Allied,
        }]));
    assert!(m.characters[a.0 as usize].relationships.is_empty());
}

// A memory transfer copies: the recipient gains the id, the sender keeps it.
#[test]
fn test_memory_transfer_copies() {
    let mut m = Multiverse::new();
    let root = m.root_timeline;
    let a = m.create_character("A".to_string(), root);
    let b = m.create_character("B".to_string(), root);
    let e = m.record_event(simple_event(root, "witnessing", vec![a.0], vec![]));
    let mid = m.create_witnessed_memory(e, root, a);
    m.characters[a.0 as usize].memories.push(mid);
    m.record_event(simple_event(root, "the trade", vec![a.0, b.0],
        vec![EventEffect::MemoryTransfer { memory: mid, from: Some(a), to: b }]));
    assert!(m.characters[a.0 as usize].memories.contains(&mid));
    assert!(m.characters[b.0 as usize].memories.contains(&mid));
}

// A counter-issued memory id that collides with a directly stored memory
// replaces the older entry, as a keyed map would.
#[test]
fn test_witnessed_memory_replaces_colliding_id() {
    let mut m = Multiverse::new();
    let root = m.root_timeline;
    let a = m.create_character("A".to_string(), root);
    let e = m.record_event(simple_event(root, "the sighting", vec![a.0], vec![]));
    // occupy the id the counter will hand out next
    m.memories.push(Memory {
        id: MemoryId(0),
        event: EventId(9),
        source_timeline: root,
        provenance: MemoryProvenance::Forged { forger: "X".to_string() },
        fidelity: 500,
    });
    let mid = m.create_witnessed_memory(e, root, a);
    assert_eq!(mid, MemoryId(0));
    assert_eq!(m.memories.len(), 1);
    assert!(matches!(m.memories[0].provenance, MemoryProvenance::Witnessed { character } if character == a));
    assert_eq!(m.memories[0].event, e);
    assert_eq!(m.memories[0].fidelity, 1000);
}

#[test]
fn test_can_perceive_timeline() {
    let mut m = Multiverse::new();
    let root = m.root_timeline;
    let a = m.create_character("A".to_string(), root);
    assert!(m.can_perceive_timeline(a, root));
    assert!(!m.can_perceive_timeline(a, TimelineId(7)));
    m.characters[a.0 as usize].abilities.push(
        propyarn::narrative_core::Ability::TimelinePerception);
    assert!(m.can_perceive_timeline(a, TimelineId(7)));
}

#[test]
fn test_has_memory_of_event() {
    let mut m = Multiverse::new();
    let root = m.root_timeline;
    let a = m.create_character("A".to_string(), root);
    let e = m.record_event(simple_event(root, "something happens", vec![a.0], vec![]));
    assert!(!m.has_memory_of_event(a, e));
    let mid = m.create_witnessed_memory(e, root, a);
    m.characters[a.0 as usize].memories.push(mid);
    assert!(m.has_memory_of_event(a, e));
}
