//! Abstract narrative actions and their interpreter.
//!
//! An action is one valid narrative operation (create a character, kill a
//! character, trade a memory, ...). Randomized drivers generate sequences
//! of actions and apply each through [`apply_narrative_action`], which
//! guards every operation so that arbitrary action sequences leave the
//! store well-formed; correctness of the resulting state is then judged by
//! the validator suite.

use vstd::prelude::*;

use crate::narrative_core::{
    char_eq_except_memories, chars_eq_except, create_branch_post, create_character_post,
    create_witnessed_memory_post, memory_idx, record_event_post, timeline_idx, Ability,
    CausalityViolation, CharacterId, Event, EventEffect, EventId, Memory, MemoryId,
    MemoryProvenance, Multiverse, RelationshipState, TimelineId,
};

verus! {

/// One abstract narrative operation, as drawn by a randomized driver.
#[derive(Debug, Clone)]
pub enum NarrativeAction {
    CreateCharacter { name: String, timeline: TimelineId },
    KillCharacter { character: CharacterId, timeline: TimelineId },
    ResurrectCharacter { character: CharacterId, timeline: TimelineId, mechanism: String },
    ChangeRelationship {
        char1: CharacterId,
        char2: CharacterId,
        new_state: RelationshipState,
        timeline: TimelineId,
    },
    GrantKnowledge { character: CharacterId, flag: String, timeline: TimelineId },
    TradeMemory { memory: MemoryId, from: CharacterId, to: CharacterId, mechanism: String },
    BranchTimeline { parent: TimelineId },
    CreateWitnessedMemory { event: EventId, character: CharacterId, timeline: TimelineId },
    ViolateCausality { timeline: TimelineId, violation_type: CausalityViolation },
    GrantAbility { character: CharacterId, ability: Ability },
}

/// An event with the given shape was recorded on `m0`, yielding `m1`; its
/// description is free.
pub open spec fn simple_event_recorded(
    m0: Multiverse,
    m1: Multiverse,
    timeline: TimelineId,
    participants: Seq<CharacterId>,
    effects: Seq<EventEffect>,
    violation: Option<CausalityViolation>,
) -> bool {
    exists|ev: Event|
        {
            &&& #[trigger] record_event_post(m0, m1, ev, EventId(m0.events@.len() as u64))
            &&& ev.timeline == timeline
            &&& ev.participants@ == participants
            &&& ev.effects@ == effects
            &&& ev.causality_violation == violation
        }
}

/// The stored character, assuming the dense-id store invariant.
pub open spec fn char_at(m: Multiverse, c: CharacterId) -> crate::narrative_core::Character {
    m.characters@[c.0 as int]
}

/// A character that exists in the store.
pub open spec fn has_char(m: Multiverse, c: CharacterId) -> bool {
    c.0 < m.characters@.len()
}

/// A timeline that exists in the store.
pub open spec fn has_timeline(m: Multiverse, t: TimelineId) -> bool {
    timeline_idx(m.timelines@, t) < m.timelines@.len()
}

/// Set-style insertion of an ability.
pub open spec fn ability_insert(s: Seq<Ability>, a: Ability) -> Seq<Ability> {
    if s.contains(a) {
        s
    } else {
        s.push(a)
    }
}

/// The participant list of a two-character event: the pair, or one entry
/// when both are the same character.
pub open spec fn pair_participants(c1: CharacterId, c2: CharacterId) -> Seq<CharacterId> {
    if c1 == c2 {
        seq![c1]
    } else {
        seq![c1, c2]
    }
}

/// What applying one narrative action does to the store: each arm states
/// the original's guard over the starting state, the operation performed
/// when the guard holds, and that the store is untouched otherwise.
pub open spec fn action_applied(m0: Multiverse, m1: Multiverse, a: NarrativeAction) -> bool {
    match a {
        NarrativeAction::CreateCharacter { name, timeline } => {
            if has_timeline(m0, timeline) {
                create_character_post(m0, m1, name, timeline,
                    CharacterId(m0.characters@.len() as u64))
            } else {
                m1 == m0
            }
        },
        NarrativeAction::KillCharacter { character, timeline } => {
            if has_char(m0, character) && char_at(m0, character).alive && char_at(m0,
                character).current_timeline == timeline && has_timeline(m0, timeline) {
                simple_event_recorded(m0, m1, timeline, seq![character],
                    seq![EventEffect::CharacterDeath { character }], None)
            } else {
                m1 == m0
            }
        },
        NarrativeAction::ResurrectCharacter { character, timeline, mechanism } => {
            if has_char(m0, character) && char_at(m0, character).current_timeline == timeline
                && has_timeline(m0, timeline) {
                simple_event_recorded(m0, m1, timeline, seq![character],
                    seq![EventEffect::CharacterResurrection { character, mechanism }], None)
            } else {
                m1 == m0
            }
        },
        NarrativeAction::ChangeRelationship { char1, char2, new_state, timeline } => {
            if has_char(m0, char1) && has_char(m0, char2) && char_at(m0, char1).alive && char_at(
                m0, char2).alive && char_at(m0, char1).current_timeline == timeline && char_at(m0,
                char2).current_timeline == timeline {
                simple_event_recorded(m0, m1, timeline, pair_participants(char1, char2),
                    seq![EventEffect::RelationshipChange {
                            character1: char1,
                            character2: char2,
                            new_state,
                        }], None)
            } else {
                m1 == m0
            }
        },
        NarrativeAction::GrantKnowledge { character, flag, timeline } => {
            if has_char(m0, character) && char_at(m0, character).alive && char_at(m0,
                character).current_timeline == timeline {
                simple_event_recorded(m0, m1, timeline, seq![character],
                    seq![EventEffect::KnowledgeGained { character, flag }], None)
            } else {
                m1 == m0
            }
        },
        NarrativeAction::TradeMemory { memory, from, to, mechanism } => {
            if has_char(m0, from) && has_char(m0, to) && char_at(m0, from).alive && char_at(m0,
                to).alive && char_at(m0, from).current_timeline == char_at(m0,
                to).current_timeline {
                exists|mid: Multiverse|
                    {
                        &&& #[trigger] traded_memory_ensured(m0, mid, memory, from,
                            char_at(m0, to).current_timeline, mechanism)
                        &&& simple_event_recorded(mid, m1, char_at(m0, to).current_timeline,
                            pair_participants(from, to),
                            seq![EventEffect::MemoryTransfer {
                                    memory,
                                    from: Some(from),
                                    to,
                                }], None)
                    }
            } else {
                m1 == m0
            }
        },
        NarrativeAction::BranchTimeline { parent } => {
            if has_timeline(m0, parent) && m0.timelines@[timeline_idx(m0.timelines@,
                parent)].events@.len() > 0 {
                create_branch_post(m0, m1, parent,
                    m0.timelines@[timeline_idx(m0.timelines@, parent)].events@.last(),
                    TimelineId(m0.next_timeline_id))
            } else {
                m1 == m0
            }
        },
        NarrativeAction::CreateWitnessedMemory { event, character, timeline } => {
            if has_char(m0, character) && char_at(m0, character).alive && char_at(m0,
                character).current_timeline == timeline && has_timeline(m0, timeline) {
                exists|mid: Multiverse|
                    {
                        &&& #[trigger] create_witnessed_memory_post(m0, mid, event, timeline,
                            character, MemoryId(m0.next_memory_id))
                        &&& memory_id_added(mid, m1, character, MemoryId(m0.next_memory_id))
                    }
            } else {
                m1 == m0
            }
        },
        NarrativeAction::ViolateCausality { timeline, violation_type } => {
            if has_timeline(m0, timeline) {
                exists|mid: Multiverse|
                    {
                        &&& #[trigger] timeline_destabilized(m0, mid, timeline)
                        &&& simple_event_recorded(mid, m1, timeline, Seq::empty(), Seq::empty(),
                            Some(violation_type))
                    }
            } else {
                m1 == m0
            }
        },
        NarrativeAction::GrantAbility { character, ability } => {
            if has_char(m0, character) && char_at(m0, character).alive {
                let i = character.0 as int;
                &&& chars_eq_except(m0.characters@, m1.characters@, i)
                &&& m1.characters@[i].abilities@ == ability_insert(
                    m0.characters@[i].abilities@, ability)
                &&& m1.characters@[i].id == m0.characters@[i].id
                &&& m1.characters@[i].name == m0.characters@[i].name
                &&& m1.characters@[i].current_timeline == m0.characters@[i].current_timeline
                &&& m1.characters@[i].native_timeline == m0.characters@[i].native_timeline
                &&& m1.characters@[i].memories == m0.characters@[i].memories
                &&& m1.characters@[i].knowledge_flags == m0.characters@[i].knowledge_flags
                &&& m1.characters@[i].alive == m0.characters@[i].alive
                &&& m1.characters@[i].relationships == m0.characters@[i].relationships
                &&& m1.characters@[i].emotional_state == m0.characters@[i].emotional_state
                &&& m1.timelines == m0.timelines
                &&& m1.memories == m0.memories
                &&& m1.events == m0.events
                &&& m1.root_timeline == m0.root_timeline
                &&& m1.next_timeline_id == m0.next_timeline_id
                &&& m1.next_character_id == m0.next_character_id
                &&& m1.next_memory_id == m0.next_memory_id
                &&& m1.next_event_id == m0.next_event_id
            } else {
                m1 == m0
            }
        },
    }
}

/// A freshly traded memory was ensured to exist: if the id was absent, a
/// traded memory with dummy source event, the given source timeline and
/// nine-tenths fidelity was stored under it; an existing id is left alone.
pub open spec fn traded_memory_ensured(
    m0: Multiverse,
    m1: Multiverse,
    memory: MemoryId,
    from: CharacterId,
    timeline: TimelineId,
    mechanism: String,
) -> bool {
    &&& ({
        if memory_idx(m0.memories@, memory) < m0.memories@.len() {
            m1.memories == m0.memories
        } else {
            &&& m1.memories@.len() == m0.memories@.len() + 1
            &&& forall|j: int|
                0 <= j < m0.memories@.len() ==> m1.memories@[j] == #[trigger] m0.memories@[j]
            &&& m1.memories@.last().id == memory
            &&& m1.memories@.last().event == EventId(0)
            &&& m1.memories@.last().source_timeline == timeline
            &&& m1.memories@.last().provenance == (MemoryProvenance::Traded {
                original_owner: from,
                acquired_via: mechanism,
            })
            &&& m1.memories@.last().fidelity == 900
        }
    })
    &&& m1.timelines == m0.timelines
    &&& m1.characters == m0.characters
    &&& m1.events == m0.events
    &&& m1.root_timeline == m0.root_timeline
    &&& m1.next_timeline_id == m0.next_timeline_id
    &&& m1.next_character_id == m0.next_character_id
    &&& m1.next_memory_id == m0.next_memory_id
    &&& m1.next_event_id == m0.next_event_id
}

/// A memory id joined a character's set; nothing else moved.
pub open spec fn memory_id_added(m0: Multiverse, m1: Multiverse, character: CharacterId,
    memory: MemoryId) -> bool {
    &&& character.0 < m0.characters@.len()
    &&& chars_eq_except(m0.characters@, m1.characters@, character.0 as int)
    &&& char_eq_except_memories(m0.characters@[character.0 as int],
        m1.characters@[character.0 as int])
    &&& m1.characters@[character.0 as int].memories@ == crate::narrative_core::id_insert(
        m0.characters@[character.0 as int].memories@, memory)
    &&& m1.timelines == m0.timelines
    &&& m1.memories == m0.memories
    &&& m1.events == m0.events
    &&& m1.root_timeline == m0.root_timeline
    &&& m1.next_timeline_id == m0.next_timeline_id
    &&& m1.next_character_id == m0.next_character_id
    &&& m1.next_memory_id == m0.next_memory_id
    &&& m1.next_event_id == m0.next_event_id
}

/// A timeline was marked causality-unstable; nothing else moved.
pub open spec fn timeline_destabilized(m0: Multiverse, m1: Multiverse, timeline: TimelineId)
    -> bool {
    &&& ({
        let ti = timeline_idx(m0.timelines@, timeline);
        &&& ti < m0.timelines@.len()
        &&& m1.timelines@.len() == m0.timelines@.len()
        &&& forall|j: int|
            0 <= j < m0.timelines@.len() && j != ti ==> m1.timelines@[j]
                == #[trigger] m0.timelines@[j]
        &&& m1.timelines@[ti].id == m0.timelines@[ti].id
        &&& m1.timelines@[ti].parent == m0.timelines@[ti].parent
        &&& m1.timelines@[ti].divergence_event == m0.timelines@[ti].divergence_event
        &&& m1.timelines@[ti].events == m0.timelines@[ti].events
        &&& m1.timelines@[ti].characters == m0.timelines@[ti].characters
        &&& !m1.timelines@[ti].causality_stable
    })
    &&& m1.characters == m0.characters
    &&& m1.memories == m0.memories
    &&& m1.events == m0.events
    &&& m1.root_timeline == m0.root_timeline
    &&& m1.next_timeline_id == m0.next_timeline_id
    &&& m1.next_character_id == m0.next_character_id
    &&& m1.next_memory_id == m0.next_memory_id
    &&& m1.next_event_id == m0.next_event_id
}

/// Apply one narrative action to the store, creating the appropriate
/// events and updating state. Every operation is guarded exactly as
/// [`action_applied`] states, so arbitrary action sequences are safe.
#[verifier::loop_isolation(false)]
pub fn apply_narrative_action(multiverse: &mut Multiverse, action: &NarrativeAction)
    requires
        old(multiverse).wf(),
        old(multiverse).characters@.len() < u64::MAX,
        old(multiverse).next_timeline_id < u64::MAX,
        old(multiverse).next_memory_id < u64::MAX,
        old(multiverse).events@.len() < u64::MAX,
    ensures
        action_applied(*old(multiverse), *final(multiverse), *action),
        final(multiverse).wf(),
{
    let ghost m0 = *multiverse;
    match action {
        NarrativeAction::CreateCharacter { name, timeline } => {
            if multiverse.find_timeline(*timeline).is_some() {
                multiverse.create_character(name.clone(), *timeline);
            }
        },
        NarrativeAction::KillCharacter { character, timeline } => {
            let idx = character.0;
            if idx < multiverse.characters.len() as u64 {
                let c = &multiverse.characters[idx as usize];
                if c.alive && c.current_timeline == *timeline && multiverse.find_timeline(
                    *timeline).is_some() {
                    let mut participants: Vec<CharacterId> = Vec::new();
                    participants.push(*character);
                    let mut effects: Vec<EventEffect> = Vec::new();
                    effects.push(EventEffect::CharacterDeath { character: *character });
                    let event = Event {
                        id: EventId(0),
                        timeline: *timeline,
                        description: "A character dies".to_owned(),
                        participants,
                        effects,
                        causality_violation: None,
                    };
                    proof {
                        assert(event.participants@ =~= seq![*character]);
                        assert(event.effects@ =~= seq![EventEffect::CharacterDeath {
                                character: *character,
                            }]);
                    }
                    multiverse.record_event(event);
                }
            }
        },
        NarrativeAction::ResurrectCharacter { character, timeline, mechanism } => {
            let idx = character.0;
            if idx < multiverse.characters.len() as u64 {
                let c = &multiverse.characters[idx as usize];
                if c.current_timeline == *timeline && multiverse.find_timeline(
                    *timeline).is_some() {
                    let mut participants: Vec<CharacterId> = Vec::new();
                    participants.push(*character);
                    let mut effects: Vec<EventEffect> = Vec::new();
                    effects.push(EventEffect::CharacterResurrection {
                        character: *character,
                        mechanism: mechanism.clone(),
                    });
                    let event = Event {
                        id: EventId(0),
                        timeline: *timeline,
                        description: "A character is resurrected".to_owned(),
                        participants,
                        effects,
                        causality_violation: None,
                    };
                    proof {
                        assert(event.participants@ =~= seq![*character]);
                        assert(event.effects@ =~= seq![EventEffect::CharacterResurrection {
                                character: *character,
                                mechanism: *mechanism,
                            }]);
                    }
                    multiverse.record_event(event);
                }
            }
        },
        NarrativeAction::ChangeRelationship { char1, char2, new_state, timeline } => {
            let i1 = char1.0;
            let i2 = char2.0;
            if i1 < multiverse.characters.len() as u64 && i2 < multiverse.characters.len()
                as u64 {
                let ok = {
                    let c1 = &multiverse.characters[i1 as usize];
                    let c2 = &multiverse.characters[i2 as usize];
                    c1.alive && c2.alive && c1.current_timeline == *timeline
                        && c2.current_timeline == *timeline
                };
                if ok {
                    let mut participants: Vec<CharacterId> = Vec::new();
                    participants.push(*char1);
                    if !(*char2 == *char1) {
                        participants.push(*char2);
                    }
                    let mut effects: Vec<EventEffect> = Vec::new();
                    effects.push(EventEffect::RelationshipChange {
                        character1: *char1,
                        character2: *char2,
                        new_state: *new_state,
                    });
                    let event = Event {
                        id: EventId(0),
                        timeline: *timeline,
                        description: "A relationship shifts".to_owned(),
                        participants,
                        effects,
                        causality_violation: None,
                    };
                    proof {
                        assert(event.participants@ =~= pair_participants(*char1, *char2));
                        assert(event.effects@ =~= seq![EventEffect::RelationshipChange {
                                character1: *char1,
                                character2: *char2,
                                new_state: *new_state,
                            }]);
                    }
                    multiverse.record_event(event);
                }
            }
        },
        NarrativeAction::GrantKnowledge { character, flag, timeline } => {
            let idx = character.0;
            if idx < multiverse.characters.len() as u64 {
                let c = &multiverse.characters[idx as usize];
                if c.alive && c.current_timeline == *timeline {
                    let mut participants: Vec<CharacterId> = Vec::new();
                    participants.push(*character);
                    let mut effects: Vec<EventEffect> = Vec::new();
                    effects.push(EventEffect::KnowledgeGained {
                        character: *character,
                        flag: flag.clone(),
                    });
                    let event = Event {
                        id: EventId(0),
                        timeline: *timeline,
                        description: "Knowledge is granted".to_owned(),
                        participants,
                        effects,
                        causality_violation: None,
                    };
                    proof {
                        assert(event.participants@ =~= seq![*character]);
                        assert(event.effects@ =~= seq![EventEffect::KnowledgeGained {
                                character: *character,
                                flag: *flag,
                            }]);
                    }
                    multiverse.record_event(event);
                }
            }
        },
        NarrativeAction::TradeMemory { memory, from, to, mechanism } => {
            let i1 = from.0;
            let i2 = to.0;
            if i1 < multiverse.characters.len() as u64 && i2 < multiverse.characters.len()
                as u64 {
                let (ok, timeline) = {
                    let f = &multiverse.characters[i1 as usize];
                    let t = &multiverse.characters[i2 as usize];
                    (f.alive && t.alive && f.current_timeline == t.current_timeline,
                    t.current_timeline)
                };
                if ok {
                    if multiverse.find_memory(*memory).is_none() {
                        proof {
                            crate::narrative_core::lemma_memory_idx(multiverse.memories@,
                                *memory);
                        }
                        let traded = Memory {
                            id: *memory,
                            event: EventId(0),
                            source_timeline: timeline,
                            provenance: MemoryProvenance::Traded {
                                original_owner: *from,
                                acquired_via: mechanism.clone(),
                            },
                            fidelity: 900,
                        };
                        multiverse.memories.push(traded);
                    }
                    let ghost mid_state = *multiverse;
                    proof {
                        assert(traded_memory_ensured(m0, mid_state, *memory, *from, timeline,
                            *mechanism));
                    }
                    let mut participants: Vec<CharacterId> = Vec::new();
                    participants.push(*from);
                    if !(*to == *from) {
                        participants.push(*to);
                    }
                    let mut effects: Vec<EventEffect> = Vec::new();
                    effects.push(EventEffect::MemoryTransfer {
                        memory: *memory,
                        from: Some(*from),
                        to: *to,
                    });
                    let event = Event {
                        id: EventId(0),
                        timeline,
                        description: "A memory changes hands".to_owned(),
                        participants,
                        effects,
                        causality_violation: None,
                    };
                    proof {
                        assert(event.participants@ =~= pair_participants(*from, *to));
                        assert(event.effects@ =~= seq![EventEffect::MemoryTransfer {
                                memory: *memory,
                                from: Some(*from),
                                to: *to,
                            }]);
                    }
                    multiverse.record_event(event);
                }
            }
        },
        NarrativeAction::BranchTimeline { parent } => {
            let slot = multiverse.find_timeline(*parent);
            if let Some(pi) = slot {
                let ne = multiverse.timelines[pi].events.len();
                if ne > 0 {
                    let divergence = multiverse.timelines[pi].events[ne - 1];
                    multiverse.create_timeline_branch(*parent, divergence);
                }
            }
        },
        NarrativeAction::CreateWitnessedMemory { event, character, timeline } => {
            let idx = character.0;
            if idx < multiverse.characters.len() as u64 {
                let ok = {
                    let c = &multiverse.characters[idx as usize];
                    c.alive && c.current_timeline == *timeline
                };
                if ok && multiverse.find_timeline(*timeline).is_some() {
                    let memory_id = multiverse.create_witnessed_memory(*event, *timeline,
                        *character);
                    let ghost mid_state = *multiverse;
                    multiverse.characters[idx as usize].insert_memory_id(memory_id);
                    proof {
                        assert(memory_id_added(mid_state, *multiverse, *character, memory_id));
                    }
                }
            }
        },
        NarrativeAction::ViolateCausality { timeline, violation_type } => {
            let slot = multiverse.find_timeline(*timeline);
            if let Some(ti) = slot {
                multiverse.timelines[ti].causality_stable = false;
                let ghost mid_state = *multiverse;
                proof {
                    assert(timeline_destabilized(m0, mid_state, *timeline));
                }
                let violation = match violation_type {
                    CausalityViolation::EffectBeforeCause { mechanism } => {
                        CausalityViolation::EffectBeforeCause { mechanism: mechanism.clone() }
                    },
                    CausalityViolation::RetroactiveChange { mechanism } => {
                        CausalityViolation::RetroactiveChange { mechanism: mechanism.clone() }
                    },
                    CausalityViolation::Superposition { mechanism } => {
                        CausalityViolation::Superposition { mechanism: mechanism.clone() }
                    },
                };
                let event = Event {
                    id: EventId(0),
                    timeline: *timeline,
                    description: "Causality breaks".to_owned(),
                    participants: Vec::new(),
                    effects: Vec::new(),
                    causality_violation: Some(violation),
                };
                proof {
                    assert(event.participants@ =~= Seq::<CharacterId>::empty());
                    assert(event.effects@ =~= Seq::<EventEffect>::empty());
                    assert(event.causality_violation == Some(*violation_type));
                }
                multiverse.record_event(event);
            }
        },
        NarrativeAction::GrantAbility { character, ability } => {
            let idx = character.0;
            if idx < multiverse.characters.len() as u64 {
                if multiverse.characters[idx as usize].alive {
                    let ghost a0 = multiverse.characters@[idx as int].abilities@;
                    let c = &multiverse.characters[idx as usize];
                    let n = c.abilities.len();
                    let mut j: usize = 0;
                    let mut present: bool = false;
                    while j < n && !present
                        invariant
                            0 <= j <= n,
                            n == a0.len(),
                            a0 == multiverse.characters@[idx as int].abilities@,
                            *multiverse == m0,
                            present ==> a0.contains(*ability),
                            !present ==> forall|k: int|
                                0 <= k < j ==> #[trigger] a0[k] != *ability,
                        decreases n - j + if present {
                            0int
                        } else {
                            1int
                        },
                    {
                        if multiverse.characters[idx as usize].abilities[j] == *ability {
                            proof {
                                assert(a0[j as int] == *ability);
                            }
                            present = true;
                        } else {
                            j += 1;
                        }
                    }
                    if !present {
                        multiverse.characters[idx as usize].abilities.push(*ability);
                    }
                }
            }
        },
    }
}

} // verus!
