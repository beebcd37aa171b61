use propyarn::narrative_core::{
    CausalityViolation, CharacterId, Event, EventEffect, EventId, Memory, MemoryId,
    MemoryProvenance, Multiverse, RelationshipState,
};
use propyarn::properties::{
    prop_causality_justification, prop_death_finality, prop_emotional_state_validity,
    prop_knowledge_flags, prop_memory_consistency, prop_relationship_consistency,
    prop_timeline_perception, validate_all_properties, ValidationError,
};

fn event_on(m: &Multiverse, description: &str, participants: Vec<CharacterId>,
    effects: Vec<EventEffect>) -> Event {
    Event {
        id: EventId(0),
        timeline: m.root_timeline,
        description: description.to_string(),
        participants,
        effects,
        causality_violation: None,
    }
}

#[test]
fn test_memory_consistency_witnessed() {
    let mut multiverse = Multiverse::new();
    let timeline = multiverse.root_timeline;
    let char1 = multiverse.create_character("Alice".to_string(), timeline);

    let event_id = multiverse.record_event(event_on(&multiverse, "Alice sees something",
        vec![char1], vec![]));

    let memory_id = multiverse.create_witnessed_memory(event_id, timeline, char1);
    multiverse.characters[char1.0 as usize].memories.push(memory_id);

    assert!(prop_memory_consistency(&multiverse).is_ok());
}

#[test]
fn test_memory_consistency_violation() {
    let mut multiverse = Multiverse::new();
    let timeline = multiverse.root_timeline;
    let char1 = multiverse.create_character("Alice".to_string(), timeline);
    let char2 = multiverse.create_character("Bob".to_string(), timeline);

    let event_id = multiverse.record_event(event_on(&multiverse, "Alice-only event",
        vec![char1], vec![]));

    // claim Bob witnessed it, though only Alice was present
    let memory_id = multiverse.create_witnessed_memory(event_id, timeline, char2);
    multiverse.characters[char2.0 as usize].memories.push(memory_id);

    let r = prop_memory_consistency(&multiverse);
    assert!(r.is_err());
    assert_eq!(r.unwrap_err(), ValidationError::WitnessNotPresent {
        character: char2,
        event: event_id,
    });
}

#[test]
fn test_death_finality() {
    let mut multiverse = Multiverse::new();
    let char1 = multiverse.create_character("Victim".to_string(), multiverse.root_timeline);

    multiverse.record_event(event_on(&multiverse, "Character dies", vec![char1],
        vec![EventEffect::CharacterDeath { character: char1 }]));

    // a dead character acting again must be flagged, naming them and the
    // offending event
    let second = multiverse.record_event(event_on(&multiverse, "Dead character speaks",
        vec![char1], vec![]));

    let r = prop_death_finality(&multiverse);
    assert!(r.is_err());
    assert_eq!(r.unwrap_err(), ValidationError::DeadParticipant {
        character: char1,
        event: second,
    });
}

#[test]
fn test_death_finality_resurrection() {
    let mut m = Multiverse::new();
    let a = m.create_character("A".to_string(), m.root_timeline);
    m.record_event(event_on(&m, "the fall", vec![a],
        vec![EventEffect::CharacterDeath { character: a }]));
    m.record_event(event_on(&m, "the return", vec![a],
        vec![EventEffect::CharacterResurrection {
            character: a,
            mechanism: "Living Gate".to_string(),
        }]));
    assert!(prop_death_finality(&m).is_ok());
}

#[test]
fn test_resurrection_needs_mechanism() {
    let mut m = Multiverse::new();
    let a = m.create_character("A".to_string(), m.root_timeline);
    let e = m.record_event(event_on(&m, "an unexplained return", vec![],
        vec![EventEffect::CharacterResurrection { character: a, mechanism: String::new() }]));
    let r = prop_death_finality(&m);
    assert_eq!(r.unwrap_err(), ValidationError::ResurrectionWithoutMechanism {
        character: a,
        event: e,
    });
}

#[test]
fn test_alive_flag_mismatch() {
    let mut m = Multiverse::new();
    let a = m.create_character("A".to_string(), m.root_timeline);
    m.record_event(event_on(&m, "the fall", vec![a],
        vec![EventEffect::CharacterDeath { character: a }]));
    // forge the stored flag back to alive; the replay contradicts it
    m.characters[a.0 as usize].alive = true;
    let r = prop_death_finality(&m);
    assert_eq!(r.unwrap_err(), ValidationError::AliveFlagMismatch {
        character: a,
        timeline: m.root_timeline,
        expected: false,
    });
}

#[test]
fn test_causality_justification() {
    let mut m = Multiverse::new();
    let mut ev = event_on(&m, "a bullet arrives before the shot", vec![], vec![]);
    ev.causality_violation = Some(CausalityViolation::EffectBeforeCause {
        mechanism: "Time-weapon".to_string(),
    });
    let e = m.record_event(ev);
    // the timeline is still marked stable
    let r = prop_causality_justification(&m);
    assert_eq!(r.unwrap_err(), ValidationError::CausalityMarkedStable {
        event: e,
        timeline: m.root_timeline,
    });
    m.timelines[0].causality_stable = false;
    assert!(prop_causality_justification(&m).is_ok());
}

#[test]
fn test_causality_mechanism_missing() {
    let mut m = Multiverse::new();
    let mut ev = event_on(&m, "an unexplained paradox", vec![], vec![]);
    ev.causality_violation = Some(CausalityViolation::Superposition { mechanism: String::new() });
    let e = m.record_event(ev);
    m.timelines[0].causality_stable = false;
    let r = prop_causality_justification(&m);
    assert_eq!(r.unwrap_err(), ValidationError::CausalityMechanismMissing { event: e });
}

#[test]
fn test_forged_memory_needs_forger() {
    let mut m = Multiverse::new();
    let a = m.create_character("A".to_string(), m.root_timeline);
    let mid = MemoryId(77);
    m.memories.push(Memory {
        id: mid,
        event: EventId(0),
        source_timeline: m.root_timeline,
        provenance: MemoryProvenance::Forged { forger: String::new() },
        fidelity: 1000,
    });
    m.characters[a.0 as usize].memories.push(mid);
    let r = prop_memory_consistency(&m);
    assert_eq!(r.unwrap_err(), ValidationError::ForgerMissing { character: a, memory: mid });
}

#[test]
fn test_compound_memory_needs_sources() {
    let mut m = Multiverse::new();
    let a = m.create_character("A".to_string(), m.root_timeline);
    let mid = MemoryId(5);
    m.memories.push(Memory {
        id: mid,
        event: EventId(0),
        source_timeline: m.root_timeline,
        provenance: MemoryProvenance::Compound { sources: vec![MemoryId(99)] },
        fidelity: 800,
    });
    m.characters[a.0 as usize].memories.push(mid);
    let r = prop_memory_consistency(&m);
    assert_eq!(r.unwrap_err(), ValidationError::CompoundSourceMissing {
        memory: mid,
        source: MemoryId(99),
    });
}

#[test]
fn test_missing_memory_detected() {
    let mut m = Multiverse::new();
    let a = m.create_character("A".to_string(), m.root_timeline);
    m.characters[a.0 as usize].memories.push(MemoryId(42));
    let r = prop_memory_consistency(&m);
    assert_eq!(r.unwrap_err(), ValidationError::MemoryNotFound {
        character: a,
        memory: MemoryId(42),
    });
}

#[test]
fn test_relationship_consistency() {
    let mut m = Multiverse::new();
    let a = m.create_character("A".to_string(), m.root_timeline);
    let b = m.create_character("B".to_string(), m.root_timeline);
    m.record_event(event_on(&m, "a falling-out", vec![a, b],
        vec![EventEffect::RelationshipChange {
            character1: a,
            character2: b,
            new_state: RelationshipState::Hostile,
        }]));
    assert!(prop_relationship_consistency(&m).is_ok());
    // forge a stored state that contradicts the history
    let slot = m.characters[a.0 as usize].relationships.iter_mut().find(|p| p.0 == b).unwrap();
    slot.1 = RelationshipState::Friendly;
    let r = prop_relationship_consistency(&m);
    assert_eq!(r.unwrap_err(), ValidationError::RelationshipMismatch {
        character: a,
        other: b,
        stored: RelationshipState::Friendly,
        expected: RelationshipState::Hostile,
    });
}

#[test]
fn test_knowledge_flags() {
    let mut m = Multiverse::new();
    let a = m.create_character("A".to_string(), m.root_timeline);
    m.record_event(event_on(&m, "a lesson", vec![a],
        vec![EventEffect::KnowledgeGained { character: a, flag: "first_fact".to_string() }]));
    assert!(prop_knowledge_flags(&m).is_ok());
    // a flag nothing granted
    m.characters[a.0 as usize].knowledge_flags.push("unearned_fact".to_string());
    let r = prop_knowledge_flags(&m);
    assert_eq!(r.unwrap_err(), ValidationError::KnowledgeNotGranted {
        character: a,
        flag: "unearned_fact".to_string(),
    });
}

#[test]
fn test_knowledge_without_history() {
    let mut m = Multiverse::new();
    let a = m.create_character("A".to_string(), m.root_timeline);
    m.characters[a.0 as usize].knowledge_flags.push("mystery_fact".to_string());
    let r = prop_knowledge_flags(&m);
    assert_eq!(r.unwrap_err(), ValidationError::KnowledgeNoHistory { character: a });
}

#[test]
fn test_emotional_state_validity() {
    let mut m = Multiverse::new();
    let a = m.create_character("A".to_string(), m.root_timeline);
    m.record_event(event_on(&m, "a small victory", vec![a],
        vec![EventEffect::AddGoal {
            character: a,
            goal: propyarn::emotional_system::Goal::new("Win".to_string(), 1000, false),
        }]));
    assert!(prop_emotional_state_validity(&m).is_ok());
}

// The end-to-end scenario: a branch, a witnessed memory, and a move across
// timelines without the perception ability.
#[test]
fn test_end_to_end_scenario() {
    let mut m = Multiverse::new();
    let t0 = m.root_timeline;
    let a = m.create_character("A".to_string(), t0);
    let _b = m.create_character("B".to_string(), t0);

    let e1 = m.record_event(event_on(&m, "the first omen", vec![a], vec![]));
    let t1 = m.create_timeline_branch(t0, e1);

    let mem = m.create_witnessed_memory(e1, t0, a);
    m.characters[a.0 as usize].memories.push(mem);

    assert!(prop_memory_consistency(&m).is_ok());
    assert!(prop_timeline_perception(&m).is_ok());

    // move across timelines without timeline perception
    m.characters[a.0 as usize].current_timeline = t1;
    let r = prop_timeline_perception(&m);
    assert_eq!(r.unwrap_err(), ValidationError::PerceptionViolation {
        character: a,
        memory_timeline: t0,
        current_timeline: t1,
    });
}

// The combinator is fail-fast in the fixed order: with both a memory
// violation and a knowledge violation present, the memory error is the
// one reported.
#[test]
fn test_validate_all_fail_fast() {
    let mut m = Multiverse::new();
    let a = m.create_character("A".to_string(), m.root_timeline);
    m.characters[a.0 as usize].memories.push(MemoryId(42));
    m.characters[a.0 as usize].knowledge_flags.push("unearned_fact".to_string());
    let r = validate_all_properties(&m);
    assert_eq!(r.unwrap_err(), ValidationError::MemoryNotFound {
        character: a,
        memory: MemoryId(42),
    });
}

#[test]
fn test_validate_all_properties() {
    let mut m = Multiverse::new();
    let a = m.create_character("A".to_string(), m.root_timeline);
    let b = m.create_character("B".to_string(), m.root_timeline);
    let e = m.record_event(event_on(&m, "a meeting", vec![a, b],
        vec![EventEffect::RelationshipChange {
            character1: a,
            character2: b,
            new_state: RelationshipState::Friendly,
        }, EventEffect::KnowledgeGained { character: a, flag: "met_b".to_string() }]));
    let mem = m.create_witnessed_memory(e, m.root_timeline, a);
    m.characters[a.0 as usize].memories.push(mem);
    assert!(validate_all_properties(&m).is_ok());
}
