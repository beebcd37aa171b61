//! The invariant validator suite: seven pure checks over a store snapshot,
//! each re-deriving the expected state from the recorded event history and
//! comparing it against the stored state, plus a fail-fast combinator.
//!
//! Every check returns `Ok(())` exactly when its invariant holds of the
//! snapshot, and otherwise an error naming the offending entities.

use vstd::prelude::*;

use crate::emotional_system::state_wf;
use crate::narrative_core::{
    lemma_memory_idx, memory_idx, spec_character, spec_event, spec_timeline, timeline_idx,
    Ability, CausalityViolation, CharacterId, Event, EventEffect, EventId, Memory, MemoryId,
    MemoryProvenance, Multiverse, RelationshipState, Timeline, TimelineId,
};

verus! {

/// A validator failure, naming the offending entities and the mismatch.
#[derive(Debug, Clone, PartialEq, Eq)]
pub enum ValidationError {
    /// A character owns a memory id that is not in the store.
    MemoryNotFound { character: CharacterId, memory: MemoryId },
    /// A witnessed memory whose claimed witness was not a participant of
    /// the recorded event.
    WitnessNotPresent { character: CharacterId, event: EventId },
    /// A forged memory with an empty forger.
    ForgerMissing { character: CharacterId, memory: MemoryId },
    /// A compound memory referencing a missing source memory.
    CompoundSourceMissing { memory: MemoryId, source: MemoryId },
    /// A memory from another timeline held without timeline perception.
    PerceptionViolation {
        character: CharacterId,
        memory_timeline: TimelineId,
        current_timeline: TimelineId,
    },
    /// A causality violation without a named mechanism.
    CausalityMechanismMissing { event: EventId },
    /// A causality violation in a timeline still marked stable.
    CausalityMarkedStable { event: EventId, timeline: TimelineId },
    /// A stored relationship that differs from the last recorded change.
    RelationshipMismatch {
        character: CharacterId,
        other: CharacterId,
        stored: RelationshipState,
        expected: RelationshipState,
    },
    /// A dead character participating in an event without resurrection.
    DeadParticipant { character: CharacterId, event: EventId },
    /// A resurrection effect with an empty mechanism.
    ResurrectionWithoutMechanism { character: CharacterId, event: EventId },
    /// A stored `alive` flag that contradicts the replayed history.
    AliveFlagMismatch { character: CharacterId, timeline: TimelineId, expected: bool },
    /// A knowledge flag that no event granted.
    KnowledgeNotGranted { character: CharacterId, flag: String },
    /// Knowledge flags held with no granting event at all.
    KnowledgeNoHistory { character: CharacterId },
    /// A mood coordinate outside the unit cube.
    PadOutOfRange { character: CharacterId },
}

// ---------------------------------------------------------------------------
// What a reported error must name
// ---------------------------------------------------------------------------

/// The character exists under this id and owns this memory id.
pub open spec fn owns_memory(m: Multiverse, c: CharacterId, mid: MemoryId) -> bool {
    &&& c.0 < m.characters@.len()
    &&& m.characters@[c.0 as int].id == c
    &&& m.characters@[c.0 as int].memories@.contains(mid)
}

/// The character owns a witnessed memory of this event whose claimed
/// witness was not among the event's participants.
pub open spec fn witness_not_present_at(m: Multiverse, character: CharacterId, event: EventId,
    mid: MemoryId) -> bool {
    &&& owns_memory(m, character, mid)
    &&& memory_idx(m.memories@, mid) < m.memories@.len()
    &&& {
        let mem = m.memories@[memory_idx(m.memories@, mid)];
        match mem.provenance {
            MemoryProvenance::Witnessed { character: w } => {
                &&& mem.event == event
                &&& match spec_event(m, event) {
                    Some(ev) => !ev.participants@.contains(w),
                    None => false,
                }
            },
            _ => false,
        }
    }
}

/// A memory-consistency error names a real violation: the owner and the
/// missing id, the witness's absence from the recorded event, the empty
/// forger, or the missing compound source.
pub open spec fn memory_error_holds(m: Multiverse, e: ValidationError) -> bool {
    match e {
        ValidationError::MemoryNotFound { character, memory } => {
            &&& owns_memory(m, character, memory)
            &&& memory_idx(m.memories@, memory) == m.memories@.len()
        },
        ValidationError::WitnessNotPresent { character, event } => exists|mid: MemoryId|
            #[trigger] witness_not_present_at(m, character, event, mid),
        ValidationError::ForgerMissing { character, memory } => {
            &&& owns_memory(m, character, memory)
            &&& memory_idx(m.memories@, memory) < m.memories@.len()
            &&& match m.memories@[memory_idx(m.memories@, memory)].provenance {
                MemoryProvenance::Forged { forger } => forger@.len() == 0,
                _ => false,
            }
        },
        ValidationError::CompoundSourceMissing { memory, source } => {
            &&& (exists|c: CharacterId| #[trigger] owns_memory(m, c, memory))
            &&& memory_idx(m.memories@, memory) < m.memories@.len()
            &&& match m.memories@[memory_idx(m.memories@, memory)].provenance {
                MemoryProvenance::Compound { sources } => {
                    &&& sources@.contains(source)
                    &&& memory_idx(m.memories@, source) == m.memories@.len()
                },
                _ => false,
            }
        },
        _ => false,
    }
}

/// A timeline-perception error names a real violation: the owner and the
/// missing id, or the character, the foreign memory's source timeline and
/// their current timeline, held without timeline perception.
pub open spec fn perception_error_holds(m: Multiverse, e: ValidationError) -> bool {
    match e {
        ValidationError::MemoryNotFound { character, memory } => {
            &&& owns_memory(m, character, memory)
            &&& memory_idx(m.memories@, memory) == m.memories@.len()
        },
        ValidationError::PerceptionViolation { character, memory_timeline, current_timeline } => {
            &&& character.0 < m.characters@.len()
            &&& m.characters@[character.0 as int].id == character
            &&& m.characters@[character.0 as int].current_timeline == current_timeline
            &&& !m.characters@[character.0 as int].abilities@.contains(
                Ability::TimelinePerception)
            &&& memory_timeline != current_timeline
            &&& exists|mid: MemoryId|
                {
                    &&& #[trigger] owns_memory(m, character, mid)
                    &&& memory_idx(m.memories@, mid) < m.memories@.len()
                    &&& m.memories@[memory_idx(m.memories@, mid)].source_timeline
                        == memory_timeline
                }
        },
        _ => false,
    }
}

/// A causality-justification error names a real violation: the violating
/// event with an empty mechanism, or the violating event together with its
/// still-stable timeline.
pub open spec fn causality_error_holds(m: Multiverse, e: ValidationError) -> bool {
    match e {
        ValidationError::CausalityMechanismMissing { event } => match spec_event(m, event) {
            Some(ev) => match ev.causality_violation {
                Some(v) => violation_mechanism(v).len() == 0,
                None => false,
            },
            None => false,
        },
        ValidationError::CausalityMarkedStable { event, timeline } => match spec_event(m,
            event) {
            Some(ev) => {
                &&& ev.causality_violation is Some
                &&& ev.timeline == timeline
                &&& match spec_timeline(m, timeline) {
                    Some(t) => t.causality_stable,
                    None => false,
                }
            },
            None => false,
        },
        _ => false,
    }
}

/// A relationship-consistency error names a real violation: in some
/// timeline, the named resident character's stored state toward the named
/// partner differs from the last state the replayed history set.
pub open spec fn relationship_error_holds(m: Multiverse, e: ValidationError) -> bool {
    match e {
        ValidationError::RelationshipMismatch { character, other, stored, expected } => {
            &&& character.0 < m.characters@.len()
            &&& m.characters@[character.0 as int].id == character
            &&& stored != expected
            &&& exists|ti: int|
                {
                    &&& 0 <= ti < m.timelines@.len()
                    &&& (#[trigger] m.timelines@[ti]).characters@.contains(character)
                    &&& m.characters@[character.0 as int].relationships@.contains((other, stored))
                    &&& last_rel_in_events(m, m.timelines@[ti].events@, character, other) == Some(
                        expected)
                }
        },
        _ => false,
    }
}

/// A death-finality error names a real violation: the dead participant and
/// the replayed event where they act, the unjustified resurrection and its
/// event, or the character whose stored flag contradicts the replay.
pub open spec fn death_error_holds(m: Multiverse, e: ValidationError) -> bool {
    match e {
        ValidationError::DeadParticipant { character, event } => exists|ti: int, j: int|
            #![trigger m.timelines@[ti].events@[j]]
            {
                &&& 0 <= ti < m.timelines@.len()
                &&& 0 <= j < m.timelines@[ti].events@.len()
                &&& match spec_event(m, m.timelines@[ti].events@[j]) {
                    Some(ev) => {
                        &&& ev.id == event
                        &&& ev.participants@.contains(character)
                        &&& !has_resurrection(ev.effects@, character)
                        &&& alive_lookup(alive_after_events(m, df_init(m, ti),
                            m.timelines@[ti].events@.take(j)), character) != Some(true)
                    },
                    None => false,
                }
            },
        ValidationError::ResurrectionWithoutMechanism { character, event } => exists|
            ti: int,
            j: int,
        |
            #![trigger m.timelines@[ti].events@[j]]
            {
                &&& 0 <= ti < m.timelines@.len()
                &&& 0 <= j < m.timelines@[ti].events@.len()
                &&& match spec_event(m, m.timelines@[ti].events@[j]) {
                    Some(ev) => {
                        &&& ev.id == event
                        &&& exists|k: int|
                            0 <= k < ev.effects@.len() && match #[trigger] ev.effects@[k] {
                                EventEffect::CharacterResurrection { character: c2, mechanism } => {
                                    c2 == character && mechanism@.len() == 0
                                },
                                _ => false,
                            }
                    },
                    None => false,
                }
            },
        ValidationError::AliveFlagMismatch { character, timeline, expected } => {
            &&& character.0 < m.characters@.len()
            &&& m.characters@[character.0 as int].id == character
            &&& m.characters@[character.0 as int].current_timeline == timeline
            &&& timeline_idx(m.timelines@, timeline) < m.timelines@.len()
            &&& expected == (match alive_lookup(df_table(m, timeline_idx(m.timelines@,
                timeline)), character) {
                Some(v) => v,
                None => true,
            })
            &&& m.characters@[character.0 as int].alive != expected
        },
        _ => false,
    }
}

/// A knowledge-propagation error names a real violation: the character and
/// the flag no event granted, or the character holding flags with no grant
/// history at all.
pub open spec fn knowledge_error_holds(m: Multiverse, e: ValidationError) -> bool {
    match e {
        ValidationError::KnowledgeNotGranted { character, flag } => {
            &&& character.0 < m.characters@.len()
            &&& m.characters@[character.0 as int].id == character
            &&& match spec_timeline(m, m.characters@[character.0 as int].current_timeline) {
                Some(t) => {
                    &&& any_grant(m, t, character)
                    &&& exists|f: int|
                        {
                            &&& 0 <= f < m.characters@[character.0 as int].knowledge_flags@.len()
                            &&& (#[trigger] m.characters@[
                                character.0 as int].knowledge_flags@[f])@ == flag@
                        }
                    &&& !flag_granted(m, t, character, flag@)
                },
                None => false,
            }
        },
        ValidationError::KnowledgeNoHistory { character } => {
            &&& character.0 < m.characters@.len()
            &&& m.characters@[character.0 as int].id == character
            &&& match spec_timeline(m, m.characters@[character.0 as int].current_timeline) {
                Some(t) => {
                    &&& !any_grant(m, t, character)
                    &&& m.characters@[character.0 as int].knowledge_flags@.len() > 0
                },
                None => false,
            }
        },
        _ => false,
    }
}

// ---------------------------------------------------------------------------
// Memory consistency
// ---------------------------------------------------------------------------

/// One stored memory is justified: a witnessed memory's witness was a
/// participant of the recorded event (when that event exists), a forged
/// memory names its forger, and a compound memory's sources all exist.
pub open spec fn memory_ok(m: Multiverse, mem: Memory) -> bool {
    match mem.provenance {
        MemoryProvenance::Witnessed { character } => match spec_event(m, mem.event) {
            Some(e) => e.participants@.contains(character),
            None => true,
        },
        MemoryProvenance::Traded { .. } => true,
        MemoryProvenance::Forged { forger } => forger@.len() > 0,
        MemoryProvenance::Compound { sources } => forall|k: int|
            0 <= k < sources@.len() ==> memory_idx(m.memories@, #[trigger] sources@[k])
                < m.memories@.len(),
    }
}

/// Memory consistency: every memory a character owns exists in the store
/// and is justified.
pub open spec fn spec_memory_consistent(m: Multiverse) -> bool {
    forall|i: int, k: int|
        0 <= i < m.characters@.len() && 0 <= k < m.characters@[i].memories@.len() ==> {
            let mid = #[trigger] m.characters@[i].memories@[k];
            &&& memory_idx(m.memories@, mid) < m.memories@.len()
            &&& memory_ok(m, m.memories@[memory_idx(m.memories@, mid)])
        }
}

/// Timeline perception: every memory a character owns exists, and a memory
/// from another timeline requires the timeline-perception ability.
pub open spec fn spec_timeline_perception(m: Multiverse) -> bool {
    forall|i: int, k: int|
        0 <= i < m.characters@.len() && 0 <= k < m.characters@[i].memories@.len() ==> {
            let c = m.characters@[i];
            let mid = #[trigger] m.characters@[i].memories@[k];
            &&& memory_idx(m.memories@, mid) < m.memories@.len()
            &&& {
                let mem = m.memories@[memory_idx(m.memories@, mid)];
                mem.source_timeline == c.current_timeline || c.abilities@.contains(
                    Ability::TimelinePerception)
            }
        }
}

/// The mechanism a causality violation claims.
pub open spec fn violation_mechanism(v: CausalityViolation) -> Seq<char> {
    match v {
        CausalityViolation::EffectBeforeCause { mechanism } => mechanism@,
        CausalityViolation::RetroactiveChange { mechanism } => mechanism@,
        CausalityViolation::Superposition { mechanism } => mechanism@,
    }
}

/// Causality justification: every causality-violating event names a
/// mechanism, and its timeline, when stored, is marked unstable.
pub open spec fn spec_causality_justified(m: Multiverse) -> bool {
    forall|i: int|
        0 <= i < m.events@.len() ==> match (#[trigger] m.events@[i]).causality_violation {
            Some(v) => {
                &&& violation_mechanism(v).len() > 0
                &&& match spec_timeline(m, m.events@[i].timeline) {
                    Some(t) => !t.causality_stable,
                    None => true,
                }
            },
            None => true,
        }
}

/// Scan helper: whether a participant list holds an id.
fn contains_char(v: &Vec<CharacterId>, id: CharacterId) -> (r: bool)
    ensures
        r == v@.contains(id),
{
    let n = v.len();
    let mut i: usize = 0;
    while i < n
        invariant
            n == v@.len(),
            0 <= i <= n,
            forall|j: int| 0 <= j < i ==> v@[j] != id,
        decreases n - i,
    {
        if v[i] == id {
            proof {
                assert(v@[i as int] == id);
            }
            return true;
        }
        i += 1;
    }
    false
}

/// Memory consistency (see [`spec_memory_consistent`]): every memory a
/// character owns must exist; witnessed memories require the witness among
/// the event's participants, forged memories a named forger, compound
/// memories existing sources.
#[verifier::loop_isolation(false)]
pub fn prop_memory_consistency(m: &Multiverse) -> (r: Result<(), ValidationError>)
    requires
        m.wf(),
    ensures
        r is Ok <==> spec_memory_consistent(*m),
        r matches Err(e) ==> memory_error_holds(*m, e),
{
    let nc = m.characters.len();
    let mut i: usize = 0;
    while i < nc
        invariant
            0 <= i <= nc,
            forall|i2: int, k2: int|
                0 <= i2 < i && 0 <= k2 < m.characters@[i2].memories@.len() ==> {
                    let mid = #[trigger] m.characters@[i2].memories@[k2];
                    &&& memory_idx(m.memories@, mid) < m.memories@.len()
                    &&& memory_ok(*m, m.memories@[memory_idx(m.memories@, mid)])
                },
        decreases nc - i,
    {
        let c = &m.characters[i];
        let nk = c.memories.len();
        let mut k: usize = 0;
        while k < nk
            invariant
                0 <= k <= nk,
                forall|k2: int|
                    0 <= k2 < k ==> {
                        let mid = #[trigger] m.characters@[i as int].memories@[k2];
                        &&& memory_idx(m.memories@, mid) < m.memories@.len()
                        &&& memory_ok(*m, m.memories@[memory_idx(m.memories@, mid)])
                    },
            decreases nk - k,
        {
            let mid = c.memories[k];
            proof {
                assert(m.characters@[i as int].memories@.contains(mid));
                assert(owns_memory(*m, c.id, mid));
            }
            let slot = m.find_memory(mid);
            match slot {
                None => {
                    return Err(ValidationError::MemoryNotFound { character: c.id, memory: mid });
                },
                Some(mi) => {
                    let mem = &m.memories[mi];
                    match &mem.provenance {
                        MemoryProvenance::Witnessed { character: witness } => {
                            let eid = mem.event;
                            if eid.0 < m.events.len() as u64 {
                                let ev = &m.events[eid.0 as usize];
                                if !contains_char(&ev.participants, *witness) {
                                    let err = ValidationError::WitnessNotPresent {
                                        character: c.id,
                                        event: eid,
                                    };
                                    proof {
                                        match err {
                                            ValidationError::WitnessNotPresent {
                                                character,
                                                event,
                                            } => {
                                                assert(witness_not_present_at(*m, character,
                                                    event, mid));
                                            },
                                            _ => {},
                                        }
                                    }
                                    return Err(err);
                                }
                            }
                        },
                        MemoryProvenance::Traded { .. } => {},
                        MemoryProvenance::Forged { forger } => {
                            if forger.as_str().is_empty() {
                                return Err(ValidationError::ForgerMissing {
                                    character: c.id,
                                    memory: mid,
                                });
                            }
                        },
                        MemoryProvenance::Compound { sources } => {
                            let ns = sources.len();
                            let mut s: usize = 0;
                            while s < ns
                                invariant
                                    0 <= s <= ns,
                                    forall|s2: int|
                                        0 <= s2 < s ==> memory_idx(m.memories@,
                                            #[trigger] sources@[s2]) < m.memories@.len(),
                                decreases ns - s,
                            {
                                if m.find_memory(sources[s]).is_none() {
                                    proof {
                                        assert(sources@.contains(sources@[s as int]));
                                    }
                                    return Err(ValidationError::CompoundSourceMissing {
                                        memory: mid,
                                        source: sources[s],
                                    });
                                }
                                s += 1;
                            }
                        },
                    }
                },
            }
            k += 1;
        }
        i += 1;
    }
    Ok(())
}

/// Timeline perception (see [`spec_timeline_perception`]): a memory whose
/// source timeline differs from its owner's current timeline requires the
/// owner to hold [`Ability::TimelinePerception`].
#[verifier::loop_isolation(false)]
pub fn prop_timeline_perception(m: &Multiverse) -> (r: Result<(), ValidationError>)
    requires
        m.wf(),
    ensures
        r is Ok <==> spec_timeline_perception(*m),
        r matches Err(e) ==> perception_error_holds(*m, e),
{
    let nc = m.characters.len();
    let mut i: usize = 0;
    while i < nc
        invariant
            0 <= i <= nc,
            forall|i2: int, k2: int|
                0 <= i2 < i && 0 <= k2 < m.characters@[i2].memories@.len() ==> {
                    let c = m.characters@[i2];
                    let mid = #[trigger] m.characters@[i2].memories@[k2];
                    &&& memory_idx(m.memories@, mid) < m.memories@.len()
                    &&& {
                        let mem = m.memories@[memory_idx(m.memories@, mid)];
                        mem.source_timeline == c.current_timeline || c.abilities@.contains(
                            Ability::TimelinePerception)
                    }
                },
        decreases nc - i,
    {
        let c = &m.characters[i];
        let nk = c.memories.len();
        let mut k: usize = 0;
        while k < nk
            invariant
                0 <= k <= nk,
                forall|k2: int|
                    0 <= k2 < k ==> {
                        let cc = m.characters@[i as int];
                        let mid = #[trigger] m.characters@[i as int].memories@[k2];
                        &&& memory_idx(m.memories@, mid) < m.memories@.len()
                        &&& {
                            let mem = m.memories@[memory_idx(m.memories@, mid)];
                            mem.source_timeline == cc.current_timeline || cc.abilities@.contains(
                                Ability::TimelinePerception)
                        }
                    },
            decreases nk - k,
        {
            let mid = c.memories[k];
            proof {
                assert(m.characters@[i as int].memories@.contains(mid));
                assert(owns_memory(*m, c.id, mid));
            }
            let slot = m.find_memory(mid);
            match slot {
                None => {
                    return Err(ValidationError::MemoryNotFound { character: c.id, memory: mid });
                },
                Some(mi) => {
                    let mem = &m.memories[mi];
                    if !(mem.source_timeline == c.current_timeline) {
                        let mut has_perception: bool = false;
                        let na = c.abilities.len();
                        let mut a: usize = 0;
                        while a < na && !has_perception
                            invariant
                                0 <= a <= na,
                                has_perception ==> c.abilities@.contains(
                                    Ability::TimelinePerception),
                                !has_perception ==> forall|a2: int|
                                    0 <= a2 < a ==> #[trigger] c.abilities@[a2]
                                        != Ability::TimelinePerception,
                            decreases na - a + if has_perception {
                                0int
                            } else {
                                1int
                            },
                        {
                            if matches!(c.abilities[a], Ability::TimelinePerception) {
                                proof {
                                    assert(c.abilities@[a as int]
                                        == Ability::TimelinePerception);
                                }
                                has_perception = true;
                            } else {
                                a += 1;
                            }
                        }
                        if !has_perception {
                            let err = ValidationError::PerceptionViolation {
                                character: c.id,
                                memory_timeline: mem.source_timeline,
                                current_timeline: c.current_timeline,
                            };
                            proof {
                                match err {
                                    ValidationError::PerceptionViolation {
                                        character,
                                        memory_timeline,
                                        current_timeline,
                                    } => {
                                        assert(owns_memory(*m, character, mid)
                                            && memory_idx(m.memories@, mid) < m.memories@.len()
                                            && m.memories@[memory_idx(m.memories@,
                                            mid)].source_timeline == memory_timeline);
                                    },
                                    _ => {},
                                }
                            }
                            return Err(err);
                        }
                    }
                },
            }
            k += 1;
        }
        i += 1;
    }
    Ok(())
}

/// Causality justification (see [`spec_causality_justified`]): every event
/// carrying a causality violation must name a non-empty mechanism, and its
/// timeline must be marked causality-unstable.
#[verifier::loop_isolation(false)]
pub fn prop_causality_justification(m: &Multiverse) -> (r: Result<(), ValidationError>)
    requires
        m.wf(),
    ensures
        r is Ok <==> spec_causality_justified(*m),
        r matches Err(e) ==> causality_error_holds(*m, e),
{
    let ne = m.events.len();
    let mut i: usize = 0;
    while i < ne
        invariant
            0 <= i <= ne,
            forall|i2: int|
                0 <= i2 < i ==> match (#[trigger] m.events@[i2]).causality_violation {
                    Some(v) => {
                        &&& violation_mechanism(v).len() > 0
                        &&& match spec_timeline(*m, m.events@[i2].timeline) {
                            Some(t) => !t.causality_stable,
                            None => true,
                        }
                    },
                    None => true,
                },
        decreases ne - i,
    {
        let ev = &m.events[i];
        if let Some(violation) = &ev.causality_violation {
            let mechanism_empty: bool = match violation {
                CausalityViolation::EffectBeforeCause { mechanism } => {
                    mechanism.as_str().is_empty()
                },
                CausalityViolation::RetroactiveChange { mechanism } => {
                    mechanism.as_str().is_empty()
                },
                CausalityViolation::Superposition { mechanism } => mechanism.as_str().is_empty(),
            };
            proof {
                assert(ev.id == EventId(i as u64));
                assert(spec_event(*m, ev.id) == Some(m.events@[i as int]));
            }
            if mechanism_empty {
                return Err(ValidationError::CausalityMechanismMissing { event: ev.id });
            }
            if let Some(ti) = m.find_timeline(ev.timeline) {
                if m.timelines[ti].causality_stable {
                    proof {
                        assert(spec_timeline(*m, ev.timeline) == Some(
                            m.timelines@[ti as int]));
                    }
                    return Err(ValidationError::CausalityMarkedStable {
                        event: ev.id,
                        timeline: ev.timeline,
                    });
                }
            }
        }
        i += 1;
    }
    Ok(())
}

// ---------------------------------------------------------------------------
// Relationship consistency
// ---------------------------------------------------------------------------

/// The last relationship state an effect list records for the ordered pair
/// `(c1, c2)`, scanning from the end.
pub open spec fn last_rel_in_effects(effects: Seq<EventEffect>, c1: CharacterId,
    c2: CharacterId) -> Option<RelationshipState>
    decreases effects.len(),
{
    if effects.len() == 0 {
        None
    } else {
        match effects.last() {
            EventEffect::RelationshipChange { character1, character2, new_state } => {
                if character1 == c1 && character2 == c2 {
                    Some(new_state)
                } else {
                    last_rel_in_effects(effects.drop_last(), c1, c2)
                }
            },
            _ => last_rel_in_effects(effects.drop_last(), c1, c2),
        }
    }
}

/// The last relationship state an event-id list records for the ordered
/// pair `(c1, c2)`, scanning events (and their effects) from the end;
/// missing events record nothing.
pub open spec fn last_rel_in_events(m: Multiverse, evs: Seq<EventId>, c1: CharacterId,
    c2: CharacterId) -> Option<RelationshipState>
    decreases evs.len(),
{
    if evs.len() == 0 {
        None
    } else {
        let here = match spec_event(m, evs.last()) {
            Some(e) => last_rel_in_effects(e.effects@, c1, c2),
            None => None,
        };
        match here {
            Some(s) => Some(s),
            None => last_rel_in_events(m, evs.drop_last(), c1, c2),
        }
    }
}

/// One stored relationship entry agrees with the replayed history: in
/// timeline `ti`, the resident character at position `ci` stores, at
/// position `ri`, the last state the timeline's history set for that
/// ordered pair, if the history set one at all.
pub open spec fn rel_pair_ok(m: Multiverse, ti: int, ci: int, ri: int) -> bool {
    let t = m.timelines@[ti];
    let cid = t.characters@[ci];
    let c = m.characters@[cid.0 as int];
    let entry = c.relationships@[ri];
    match last_rel_in_events(m, t.events@, cid, entry.0) {
        Some(last) => last == entry.1,
        None => true,
    }
}

/// Relationship consistency: within each timeline, every stored
/// relationship of a resident character equals the last value the
/// timeline's replayed history set for that ordered pair; pairs with no
/// history are unconstrained.
pub open spec fn spec_relationships_consistent(m: Multiverse) -> bool {
    forall|ti: int, ci: int, ri: int|
        #![trigger m.characters@[m.timelines@[ti].characters@[ci].0 as int].relationships@[ri]]
        (0 <= ti < m.timelines@.len() && 0 <= ci < m.timelines@[ti].characters@.len()
            && m.timelines@[ti].characters@[ci].0 < m.characters@.len() && 0 <= ri
            < m.characters@[m.timelines@[ti].characters@[ci].0 as int].relationships@.len())
            ==> rel_pair_ok(m, ti, ci, ri)
}

/// The last relationship change one event records for an ordered pair.
fn last_rel_change_in_event(e: &Event, c1: CharacterId, c2: CharacterId)
    -> (r: Option<RelationshipState>)
    ensures
        r == last_rel_in_effects(e.effects@, c1, c2),
{
    let mut j = e.effects.len();
    proof {
        assert(e.effects@.take(e.effects@.len() as int) =~= e.effects@);
    }
    while j > 0
        invariant
            0 <= j <= e.effects@.len(),
            last_rel_in_effects(e.effects@, c1, c2) == last_rel_in_effects(e.effects@.take(
                j as int), c1, c2),
        decreases j,
    {
        proof {
            assert(e.effects@.take(j as int).last() == e.effects@[j - 1]);
            assert(e.effects@.take(j as int).drop_last() =~= e.effects@.take(j as int - 1));
        }
        if let EventEffect::RelationshipChange { character1, character2, new_state } =
            &e.effects[j - 1] {
            if *character1 == c1 && *character2 == c2 {
                return Some(*new_state);
            }
        }
        j -= 1;
    }
    None
}

/// The last relationship change a timeline's history records for an
/// ordered pair.
#[verifier::loop_isolation(false)]
fn last_rel_change_in_timeline(m: &Multiverse, t: &Timeline, c1: CharacterId, c2: CharacterId)
    -> (r: Option<RelationshipState>)
    requires
        m.wf(),
    ensures
        r == last_rel_in_events(*m, t.events@, c1, c2),
{
    let mut j = t.events.len();
    proof {
        assert(t.events@.take(t.events@.len() as int) =~= t.events@);
    }
    while j > 0
        invariant
            0 <= j <= t.events@.len(),
            last_rel_in_events(*m, t.events@, c1, c2) == last_rel_in_events(*m, t.events@.take(
                j as int), c1, c2),
        decreases j,
    {
        proof {
            assert(t.events@.take(j as int).last() == t.events@[j - 1]);
            assert(t.events@.take(j as int).drop_last() =~= t.events@.take(j as int - 1));
        }
        let eid = t.events[j - 1];
        if eid.0 < m.events.len() as u64 {
            let found = last_rel_change_in_event(&m.events[eid.0 as usize], c1, c2);
            if let Some(s) = found {
                return Some(s);
            }
        }
        j -= 1;
    }
    None
}

/// Relationship consistency (see [`spec_relationships_consistent`]): per
/// timeline, the stored relationship of each resident character toward a
/// partner must equal the last value a replayed relationship-change effect
/// set for that pair.
#[verifier::loop_isolation(false)]
pub fn prop_relationship_consistency(m: &Multiverse) -> (r: Result<(), ValidationError>)
    requires
        m.wf(),
    ensures
        r is Ok <==> spec_relationships_consistent(*m),
        r matches Err(e) ==> relationship_error_holds(*m, e),
{
    let nt = m.timelines.len();
    let mut ti: usize = 0;
    while ti < nt
        invariant
            0 <= ti <= nt,
            forall|t2: int, ci: int, ri: int|
                #![trigger m.characters@[m.timelines@[t2].characters@[ci].0 as int].relationships@[ri]]
                (0 <= t2 < ti && 0 <= ci < m.timelines@[t2].characters@.len()
                    && m.timelines@[t2].characters@[ci].0 < m.characters@.len() && 0 <= ri
                    < m.characters@[m.timelines@[t2].characters@[ci].0 as int].relationships@.len())
                    ==> rel_pair_ok(*m, t2, ci, ri),
        decreases nt - ti,
    {
        let t = &m.timelines[ti];
        let ncs = t.characters.len();
        let mut ci: usize = 0;
        while ci < ncs
            invariant
                0 <= ci <= ncs,
                forall|c2: int, ri: int|
                    #![trigger m.characters@[m.timelines@[ti as int].characters@[c2].0 as int].relationships@[ri]]
                    (0 <= c2 < ci && m.timelines@[ti as int].characters@[c2].0
                        < m.characters@.len() && 0 <= ri < m.characters@[m.timelines@[
                        ti as int].characters@[c2].0 as int].relationships@.len())
                        ==> rel_pair_ok(*m, ti as int, c2, ri),
            decreases ncs - ci,
        {
            let cid = t.characters[ci];
            if cid.0 < m.characters.len() as u64 {
                let c = &m.characters[cid.0 as usize];
                let nr = c.relationships.len();
                let mut ri: usize = 0;
                while ri < nr
                    invariant
                        0 <= ri <= nr,
                        cid.0 < m.characters@.len(),
                        *c == m.characters@[cid.0 as int],
                        forall|r2: int|
                            0 <= r2 < ri ==> rel_pair_ok(*m, ti as int, ci as int, r2),
                    decreases nr - ri,
                {
                    let entry = c.relationships[ri];
                    let found = last_rel_change_in_timeline(m, t, cid, entry.0);
                    if let Some(last) = found {
                        if !(last == entry.1) {
                            let err = ValidationError::RelationshipMismatch {
                                character: cid,
                                other: entry.0,
                                stored: entry.1,
                                expected: last,
                            };
                            proof {
                                match err {
                                    ValidationError::RelationshipMismatch {
                                        character,
                                        other,
                                        stored,
                                        expected,
                                    } => {
                                        assert(m.timelines@[ti as int].characters@[ci as int]
                                            == character);
                                        assert(m.timelines@[ti as int].characters@.contains(
                                            character));
                                        assert(m.characters@[
                                            character.0 as int].relationships@[ri as int] == (
                                        other, stored));
                                        assert(m.characters@[
                                            character.0 as int].relationships@.contains(
                                            (other, stored)));
                                        assert(last_rel_in_events(*m,
                                            m.timelines@[ti as int].events@, character, other)
                                            == Some(expected));
                                    },
                                    _ => {},
                                }
                            }
                            return Err(err);
                        }
                    }
                    ri += 1;
                }
            }
            ci += 1;
        }
        ti += 1;
    }
    Ok(())
}

// ---------------------------------------------------------------------------
// Knowledge propagation
// ---------------------------------------------------------------------------

/// An effect list grants this flag (by contents) to this character.
pub open spec fn flag_granted_in_effects(effects: Seq<EventEffect>, c: CharacterId,
    flag: Seq<char>) -> bool {
    exists|j: int|
        0 <= j < effects.len() && match #[trigger] effects[j] {
            EventEffect::KnowledgeGained { character, flag: f } => character == c && f@ == flag,
            _ => false,
        }
}

/// An effect list grants this character any flag at all.
pub open spec fn any_grant_in_effects(effects: Seq<EventEffect>, c: CharacterId) -> bool {
    exists|j: int|
        0 <= j < effects.len() && match #[trigger] effects[j] {
            EventEffect::KnowledgeGained { character, .. } => character == c,
            _ => false,
        }
}

/// Some event of the timeline grants this flag to this character.
pub open spec fn flag_granted(m: Multiverse, t: Timeline, c: CharacterId, flag: Seq<char>)
    -> bool {
    exists|j: int|
        0 <= j < t.events@.len() && match spec_event(m, #[trigger] t.events@[j]) {
            Some(e) => flag_granted_in_effects(e.effects@, c, flag),
            None => false,
        }
}

/// Some event of the timeline grants this character some flag.
pub open spec fn any_grant(m: Multiverse, t: Timeline, c: CharacterId) -> bool {
    exists|j: int|
        0 <= j < t.events@.len() && match spec_event(m, #[trigger] t.events@[j]) {
            Some(e) => any_grant_in_effects(e.effects@, c),
            None => false,
        }
}

/// Knowledge propagation: every flag a character holds was granted by an
/// event of their current timeline, and a character holding flags without
/// any grant history at all is a violation. A character whose current
/// timeline is not stored is unconstrained.
pub open spec fn spec_knowledge_ok(m: Multiverse) -> bool {
    forall|i: int|
        0 <= i < m.characters@.len() ==> {
            let c = #[trigger] m.characters@[i];
            match spec_timeline(m, c.current_timeline) {
                Some(t) => {
                    if any_grant(m, t, c.id) {
                        forall|f: int|
                            0 <= f < c.knowledge_flags@.len() ==> flag_granted(m, t, c.id,
                                (#[trigger] c.knowledge_flags@[f])@)
                    } else {
                        c.knowledge_flags@.len() == 0
                    }
                },
                None => true,
            }
        }
}

/// Whether some event of the timeline grants this character this flag
/// (or, with `None`, any flag at all).
#[verifier::loop_isolation(false)]
fn find_grant(m: &Multiverse, t: &Timeline, c: CharacterId, flag: Option<&String>) -> (r: bool)
    requires
        m.wf(),
    ensures
        match flag {
            Some(f) => r == flag_granted(*m, *t, c, f@),
            None => r == any_grant(*m, *t, c),
        },
{
    let ne = t.events.len();
    let mut j: usize = 0;
    while j < ne
        invariant
            0 <= j <= ne,
            forall|j2: int|
                0 <= j2 < j ==> !match spec_event(*m, #[trigger] t.events@[j2]) {
                    Some(e) => match flag {
                        Some(f) => flag_granted_in_effects(e.effects@, c, f@),
                        None => any_grant_in_effects(e.effects@, c),
                    },
                    None => false,
                },
        decreases ne - j,
    {
        let eid = t.events[j];
        if eid.0 < m.events.len() as u64 {
            let e = &m.events[eid.0 as usize];
            let nf = e.effects.len();
            let mut k: usize = 0;
            while k < nf
                invariant
                    0 <= k <= nf,
                    *e == m.events@[eid.0 as int],
                    forall|k2: int|
                        0 <= k2 < k ==> !match #[trigger] e.effects@[k2] {
                            EventEffect::KnowledgeGained { character, flag: f2 } => character
                                == c && match flag {
                                Some(f) => f2@ == f@,
                                None => true,
                            },
                            _ => false,
                        },
                decreases nf - k,
            {
                if let EventEffect::KnowledgeGained { character, flag: f2 } = &e.effects[k] {
                    if *character == c {
                        match flag {
                            Some(f) => {
                                if *f2 == *f {
                                    proof {
                                        assert(match e.effects@[k as int] {
                                            EventEffect::KnowledgeGained {
                                                character: ch,
                                                flag: ff,
                                            } => ch == c && ff@ == f@,
                                            _ => false,
                                        });
                                    }
                                    return true;
                                }
                            },
                            None => {
                                proof {
                                    assert(match e.effects@[k as int] {
                                        EventEffect::KnowledgeGained { character: ch, .. } => ch
                                            == c,
                                        _ => false,
                                    });
                                }
                                return true;
                            },
                        }
                    }
                }
                k += 1;
            }
        }
        j += 1;
    }
    false
}

/// Knowledge propagation (see [`spec_knowledge_ok`]): every flag a
/// character currently holds must have been granted by an event in their
/// current timeline.
#[verifier::loop_isolation(false)]
pub fn prop_knowledge_flags(m: &Multiverse) -> (r: Result<(), ValidationError>)
    requires
        m.wf(),
    ensures
        r is Ok <==> spec_knowledge_ok(*m),
        r matches Err(e) ==> knowledge_error_holds(*m, e),
{
    let nc = m.characters.len();
    let mut i: usize = 0;
    while i < nc
        invariant
            0 <= i <= nc,
            forall|i2: int|
                0 <= i2 < i ==> {
                    let c = #[trigger] m.characters@[i2];
                    match spec_timeline(*m, c.current_timeline) {
                        Some(t) => {
                            if any_grant(*m, t, c.id) {
                                forall|f: int|
                                    0 <= f < c.knowledge_flags@.len() ==> flag_granted(*m, t,
                                        c.id, (#[trigger] c.knowledge_flags@[f])@)
                            } else {
                                c.knowledge_flags@.len() == 0
                            }
                        },
                        None => true,
                    }
                },
        decreases nc - i,
    {
        let c = &m.characters[i];
        let slot = m.find_timeline(c.current_timeline);
        if let Some(tix) = slot {
            let t = &m.timelines[tix];
            if find_grant(m, t, c.id, None) {
                let nf = c.knowledge_flags.len();
                let mut f: usize = 0;
                while f < nf
                    invariant
                        0 <= f <= nf,
                        *c == m.characters@[i as int],
                        *t == m.timelines@[tix as int],
                        tix as int == timeline_idx(m.timelines@, c.current_timeline),
                        tix < m.timelines@.len(),
                        forall|f2: int|
                            0 <= f2 < f ==> flag_granted(*m, *t, c.id,
                                (#[trigger] c.knowledge_flags@[f2])@),
                    decreases nf - f,
                {
                    if !find_grant(m, t, c.id, Some(&c.knowledge_flags[f])) {
                        let err = ValidationError::KnowledgeNotGranted {
                            character: c.id,
                            flag: c.knowledge_flags[f].clone(),
                        };
                        proof {
                            match &err {
                                ValidationError::KnowledgeNotGranted { character, flag } => {
                                    assert(character.0 == i);
                                    assert(spec_timeline(*m,
                                        m.characters@[character.0 as int].current_timeline)
                                        == Some(m.timelines@[tix as int]));
                                    assert((m.characters@[
                                        character.0 as int].knowledge_flags@[f as int])@
                                        == flag@);
                                },
                                _ => {},
                            }
                        }
                        return Err(err);
                    }
                    f += 1;
                }
            } else {
                if c.knowledge_flags.len() > 0 {
                    proof {
                        assert(spec_timeline(*m, c.current_timeline) == Some(
                            m.timelines@[tix as int]));
                    }
                    return Err(ValidationError::KnowledgeNoHistory { character: c.id });
                }
            }
        }
        i += 1;
    }
    Ok(())
}

// ---------------------------------------------------------------------------
// Death finality
// ---------------------------------------------------------------------------

/// First index of a liveness entry for this character, or the length.
pub open spec fn alive_idx(t: Seq<(CharacterId, bool)>, c: CharacterId) -> int
    decreases t.len(),
{
    if t.len() == 0 {
        0
    } else if t[0].0 == c {
        0
    } else {
        1 + alive_idx(t.drop_first(), c)
    }
}

/// Characterization of [`alive_idx`]: it is in range, it hits, and nothing
/// before it does.
pub proof fn lemma_alive_idx(t: Seq<(CharacterId, bool)>, c: CharacterId)
    ensures
        0 <= alive_idx(t, c) <= t.len(),
        alive_idx(t, c) < t.len() ==> t[alive_idx(t, c)].0 == c,
        forall|j: int| 0 <= j < alive_idx(t, c) ==> t[j].0 != c,
    decreases t.len(),
{
    if t.len() > 0 && t[0].0 != c {
        lemma_alive_idx(t.drop_first(), c);
        assert forall|j: int| 0 <= j < alive_idx(t, c) implies t[j].0 != c by {
            if j > 0 {
                assert(t.drop_first()[j - 1] == t[j]);
            }
        }
    }
}

/// The liveness table's entry for a character, if any.
pub open spec fn alive_lookup(t: Seq<(CharacterId, bool)>, c: CharacterId) -> Option<bool> {
    let i = alive_idx(t, c);
    if i < t.len() {
        Some(t[i].1)
    } else {
        None
    }
}

/// Record a character's liveness, replacing the first existing entry or
/// appending a new one.
pub open spec fn alive_insert(t: Seq<(CharacterId, bool)>, c: CharacterId, v: bool)
    -> Seq<(CharacterId, bool)> {
    let i = alive_idx(t, c);
    if i < t.len() {
        t.update(i, (c, v))
    } else {
        t.push((c, v))
    }
}

/// The liveness table after one effect: deaths record `false`,
/// resurrections `true`, everything else is ignored.
pub open spec fn alive_step(t: Seq<(CharacterId, bool)>, e: EventEffect)
    -> Seq<(CharacterId, bool)> {
    match e {
        EventEffect::CharacterDeath { character } => alive_insert(t, character, false),
        EventEffect::CharacterResurrection { character, .. } => alive_insert(t, character, true),
        _ => t,
    }
}

/// The liveness table after an effect list, applied in order.
pub open spec fn alive_after_effects(t: Seq<(CharacterId, bool)>, effects: Seq<EventEffect>)
    -> Seq<(CharacterId, bool)>
    decreases effects.len(),
{
    if effects.len() == 0 {
        t
    } else {
        alive_step(alive_after_effects(t, effects.drop_last()), effects.last())
    }
}

/// The liveness table after a timeline's event-id list; ids that resolve to
/// no stored event contribute nothing.
pub open spec fn alive_after_events(m: Multiverse, t: Seq<(CharacterId, bool)>,
    evs: Seq<EventId>) -> Seq<(CharacterId, bool)>
    decreases evs.len(),
{
    if evs.len() == 0 {
        t
    } else {
        let t1 = alive_after_events(m, t, evs.drop_last());
        match spec_event(m, evs.last()) {
            Some(e) => alive_after_effects(t1, e.effects@),
            None => t1,
        }
    }
}

/// The event's effects resurrect this character.
pub open spec fn has_resurrection(effects: Seq<EventEffect>, p: CharacterId) -> bool {
    exists|j: int|
        0 <= j < effects.len() && match #[trigger] effects[j] {
            EventEffect::CharacterResurrection { character, .. } => character == p,
            _ => false,
        }
}

/// Every participant is alive in the table, or the event itself resurrects
/// them.
pub open spec fn participants_ok(t: Seq<(CharacterId, bool)>, e: Event) -> bool {
    forall|k: int|
        0 <= k < e.participants@.len() ==> {
            let p = #[trigger] e.participants@[k];
            alive_lookup(t, p) == Some(true) || has_resurrection(e.effects@, p)
        }
}

/// Every resurrection effect names a non-empty mechanism.
pub open spec fn resurrections_ok(effects: Seq<EventEffect>) -> bool {
    forall|j: int|
        0 <= j < effects.len() ==> match #[trigger] effects[j] {
            EventEffect::CharacterResurrection { mechanism, .. } => mechanism@.len() > 0,
            _ => true,
        }
}

/// Replaying an event-id list from a starting table raises no violation:
/// at each stored event, all participants are alive or resurrected and all
/// resurrections are justified, and the table then absorbs the event's
/// effects.
pub open spec fn events_ok(m: Multiverse, t: Seq<(CharacterId, bool)>, evs: Seq<EventId>)
    -> bool
    decreases evs.len(),
{
    if evs.len() == 0 {
        true
    } else {
        match spec_event(m, evs.first()) {
            Some(e) => {
                &&& participants_ok(t, e)
                &&& resurrections_ok(e.effects@)
                &&& events_ok(m, alive_after_effects(t, e.effects@), evs.drop_first())
            },
            None => events_ok(m, t, evs.drop_first()),
        }
    }
}

/// The liveness table a timeline starts from: a root timeline's residents
/// all start alive; a branch inherits the computed table of its parent,
/// provided the parent stands earlier in the store, and otherwise starts
/// empty.
pub open spec fn df_init(m: Multiverse, i: int) -> Seq<(CharacterId, bool)>
    decreases i, 0int,
        when 0 <= i < m.timelines@.len()
{
    match m.timelines@[i].parent {
        None => m.timelines@[i].characters@.map_values(|c: CharacterId| (c, true)),
        Some(p) => {
            let j = timeline_idx(m.timelines@, p);
            if 0 <= j < i {
                df_table(m, j)
            } else {
                Seq::empty()
            }
        },
    }
}

/// The liveness table a timeline ends with, after replaying its events
/// from its starting table.
pub open spec fn df_table(m: Multiverse, i: int) -> Seq<(CharacterId, bool)>
    decreases i, 1int,
        when 0 <= i < m.timelines@.len()
{
    alive_after_events(m, df_init(m, i), m.timelines@[i].events@)
}

/// Death finality: replaying every timeline in store order raises no
/// violation, and every character's stored `alive` flag matches the final
/// table of their current timeline (an absent entry counts as alive).
pub open spec fn spec_death_finality_ok(m: Multiverse) -> bool {
    &&& forall|i: int|
        0 <= i < m.timelines@.len() ==> events_ok(m, df_init(m, i),
            (#[trigger] m.timelines@[i]).events@)
    &&& forall|i: int|
        0 <= i < m.characters@.len() ==> {
            let c = #[trigger] m.characters@[i];
            let ti = timeline_idx(m.timelines@, c.current_timeline);
            ti < m.timelines@.len() ==> c.alive == (match alive_lookup(df_table(m, ti), c.id) {
                Some(v) => v,
                None => true,
            })
        }
}

/// The liveness table's entry for a character, if any.
fn alive_lookup_exec(t: &Vec<(CharacterId, bool)>, c: CharacterId) -> (r: Option<bool>)
    ensures
        r == alive_lookup(t@, c),
{
    proof {
        lemma_alive_idx(t@, c);
    }
    let n = t.len();
    let mut i: usize = 0;
    while i < n
        invariant
            n == t@.len(),
            0 <= i <= n,
            forall|j: int| 0 <= j < i ==> (#[trigger] t@[j]).0 != c,
        decreases n - i,
    {
        if t[i].0 == c {
            proof {
                lemma_alive_idx(t@, c);
                assert(alive_idx(t@, c) == i);
            }
            return Some(t[i].1);
        }
        i += 1;
    }
    proof {
        lemma_alive_idx(t@, c);
    }
    None
}

/// Record a character's liveness in the table.
fn alive_insert_exec(t: &mut Vec<(CharacterId, bool)>, c: CharacterId, v: bool)
    ensures
        final(t)@ == alive_insert(old(t)@, c, v),
{
    proof {
        lemma_alive_idx(t@, c);
    }
    let ghost t0 = t@;
    let n = t.len();
    let mut i: usize = 0;
    while i < n
        invariant
            n == t@.len(),
            0 <= i <= n,
            t@ == t0,
            t0 == old(t)@,
            forall|j: int| 0 <= j < i ==> (#[trigger] t@[j]).0 != c,
        decreases n - i,
    {
        if t[i].0 == c {
            t.set(i, (c, v));
            proof {
                lemma_alive_idx(t0, c);
                assert(alive_idx(t0, c) == i);
            }
            return ;
        }
        i += 1;
    }
    proof {
        lemma_alive_idx(t0, c);
        assert(alive_idx(t0, c) == t0.len());
    }
    t.push((c, v));
}

/// Whether the event's effects resurrect this character.
fn has_resurrection_exec(effects: &Vec<EventEffect>, p: CharacterId) -> (r: bool)
    ensures
        r == has_resurrection(effects@, p),
{
    let n = effects.len();
    let mut j: usize = 0;
    while j < n
        invariant
            n == effects@.len(),
            0 <= j <= n,
            forall|j2: int|
                0 <= j2 < j ==> !match #[trigger] effects@[j2] {
                    EventEffect::CharacterResurrection { character, .. } => character == p,
                    _ => false,
                },
        decreases n - j,
    {
        if let EventEffect::CharacterResurrection { character, .. } = &effects[j] {
            if *character == p {
                proof {
                    assert(match effects@[j as int] {
                        EventEffect::CharacterResurrection { character: ch, .. } => ch == p,
                        _ => false,
                    });
                }
                return true;
            }
        }
        j += 1;
    }
    false
}

/// Death finality (see [`spec_death_finality_ok`]): timelines are replayed
/// in store order (ascending id), a branch inheriting its parent's computed
/// liveness table; every participant of a replayed event must be alive at
/// that point unless the event itself resurrects them, resurrections must
/// name a mechanism, and every character's stored `alive` flag must match
/// the table of their current timeline.
#[verifier::loop_isolation(false)]
pub fn prop_death_finality(m: &Multiverse) -> (r: Result<(), ValidationError>)
    requires
        m.wf(),
    ensures
        r is Ok <==> spec_death_finality_ok(*m),
        r matches Err(e) ==> death_error_holds(*m, e),
{
    let nt = m.timelines.len();
    let mut tables: Vec<Vec<(CharacterId, bool)>> = Vec::new();
    let mut ti: usize = 0;
    while ti < nt
        invariant
            0 <= ti <= nt,
            tables@.len() == ti,
            forall|j: int| 0 <= j < ti ==> (#[trigger] tables@[j])@ == df_table(*m, j),
            forall|j: int|
                0 <= j < ti ==> events_ok(*m, df_init(*m, j), (#[trigger] m.timelines@[j]).events@),
        decreases nt - ti,
    {
        let t = &m.timelines[ti];
        // starting table
        let mut cur: Vec<(CharacterId, bool)> = Vec::new();
        match &t.parent {
            None => {
                let ncs = t.characters.len();
                let mut k: usize = 0;
                while k < ncs
                    invariant
                        0 <= k <= ncs,
                        cur@ == t.characters@.take(k as int).map_values(
                            |c: CharacterId| (c, true)),
                    decreases ncs - k,
                {
                    cur.push((t.characters[k], true));
                    proof {
                        assert(t.characters@.take(k as int + 1).map_values(
                            |c: CharacterId| (c, true)) =~= t.characters@.take(
                            k as int).map_values(|c: CharacterId| (c, true)).push(
                            (t.characters@[k as int], true)));
                    }
                    k += 1;
                }
                proof {
                    assert(t.characters@.take(ncs as int) =~= t.characters@);
                }
            },
            Some(p) => {
                let slot = m.find_timeline(*p);
                if let Some(pj) = slot {
                    if pj < ti {
                        let src = &tables[pj];
                        let ns = src.len();
                        let mut k: usize = 0;
                        while k < ns
                            invariant
                                0 <= k <= ns,
                                ns == src@.len(),
                                cur@ == src@.take(k as int),
                            decreases ns - k,
                        {
                            cur.push(src[k]);
                            proof {
                                assert(src@.take(k as int + 1) =~= src@.take(k as int).push(
                                    src@[k as int]));
                            }
                            k += 1;
                        }
                        proof {
                            assert(src@.take(ns as int) =~= src@);
                        }
                    }
                }
                proof {
                    assert(cur@ == df_init(*m, ti as int));
                }
            },
        }
        proof {
            assert(cur@ == df_init(*m, ti as int));
        }
        let ghost init = cur@;
        // replay this timeline's events
        let ne = t.events.len();
        let mut j: usize = 0;
        proof {
            assert(t.events@.skip(0) =~= t.events@);
            assert(t.events@.take(0) =~= Seq::<EventId>::empty());
        }
        while j < ne
            invariant
                0 <= j <= ne,
                cur@ == alive_after_events(*m, init, t.events@.take(j as int)),
                events_ok(*m, init, t.events@) <==> events_ok(*m, cur@, t.events@.skip(j as int)),
            decreases ne - j,
        {
            let ghost pre = cur@;
            proof {
                assert(t.events@.skip(j as int).first() == t.events@[j as int]);
                assert(t.events@.skip(j as int).drop_first() =~= t.events@.skip(j as int + 1));
                assert(t.events@.take(j as int + 1).drop_last() =~= t.events@.take(j as int));
                assert(t.events@.take(j as int + 1).last() == t.events@[j as int]);
            }
            let eid = t.events[j];
            if eid.0 < m.events.len() as u64 {
                let e = &m.events[eid.0 as usize];
                // every participant must be alive here, or resurrected by
                // this very event
                let np = e.participants.len();
                let mut k: usize = 0;
                while k < np
                    invariant
                        0 <= k <= np,
                        *e == m.events@[eid.0 as int],
                        cur@ == pre,
                        forall|k2: int|
                            0 <= k2 < k ==> {
                                let p = #[trigger] e.participants@[k2];
                                alive_lookup(pre, p) == Some(true) || has_resurrection(
                                    e.effects@, p)
                            },
                    decreases np - k,
                {
                    let p = e.participants[k];
                    let alive = match alive_lookup_exec(&cur, p) {
                        Some(v) => v,
                        None => false,
                    };
                    if !alive {
                        if !has_resurrection_exec(&e.effects, p) {
                            proof {
                                assert(!participants_ok(pre, *e));
                                assert(!events_ok(*m, pre, t.events@.skip(j as int)));
                            }
                            let err = ValidationError::DeadParticipant {
                                character: p,
                                event: e.id,
                            };
                            proof {
                                match err {
                                    ValidationError::DeadParticipant { character, event } => {
                                        assert(m.timelines@[ti as int].events@[j as int]
                                            == eid);
                                        assert(spec_event(*m,
                                            m.timelines@[ti as int].events@[j as int]) == Some(
                                            *e));
                                        assert(e.participants@[k as int] == character);
                                        assert(e.participants@.contains(character));
                                        assert(alive_lookup(alive_after_events(*m,
                                            df_init(*m, ti as int),
                                            m.timelines@[ti as int].events@.take(j as int)),
                                            character) != Some(true));
                                    },
                                    _ => {},
                                }
                            }
                            return Err(err);
                        }
                    }
                    k += 1;
                }
                // absorb the effects, holding resurrections to a named
                // mechanism
                let nf = e.effects.len();
                let mut k2: usize = 0;
                proof {
                    assert(e.effects@.take(0) =~= Seq::<EventEffect>::empty());
                }
                while k2 < nf
                    invariant
                        0 <= k2 <= nf,
                        *e == m.events@[eid.0 as int],
                        participants_ok(pre, *e),
                        cur@ == alive_after_effects(pre, e.effects@.take(k2 as int)),
                        forall|k3: int|
                            0 <= k3 < k2 ==> match #[trigger] e.effects@[k3] {
                                EventEffect::CharacterResurrection { mechanism, .. } => mechanism@
                                    .len() > 0,
                                _ => true,
                            },
                    decreases nf - k2,
                {
                    proof {
                        assert(e.effects@.take(k2 as int + 1).drop_last() =~= e.effects@.take(
                            k2 as int));
                        assert(e.effects@.take(k2 as int + 1).last() == e.effects@[k2 as int]);
                    }
                    match &e.effects[k2] {
                        EventEffect::CharacterDeath { character } => {
                            alive_insert_exec(&mut cur, *character, false);
                        },
                        EventEffect::CharacterResurrection { character, mechanism } => {
                            if mechanism.as_str().is_empty() {
                                proof {
                                    assert(!resurrections_ok(e.effects@));
                                    assert(!events_ok(*m, pre, t.events@.skip(j as int)));
                                }
                                let err = ValidationError::ResurrectionWithoutMechanism {
                                    character: *character,
                                    event: e.id,
                                };
                                proof {
                                    match err {
                                        ValidationError::ResurrectionWithoutMechanism {
                                            character: ch,
                                            event,
                                        } => {
                                            assert(m.timelines@[ti as int].events@[j as int]
                                                == eid);
                                            assert(spec_event(*m,
                                                m.timelines@[ti as int].events@[j as int])
                                                == Some(*e));
                                            assert(match e.effects@[k2 as int] {
                                                EventEffect::CharacterResurrection {
                                                    character: c2,
                                                    mechanism: mech,
                                                } => c2 == ch && mech@.len() == 0,
                                                _ => false,
                                            });
                                        },
                                        _ => {},
                                    }
                                }
                                return Err(err);
                            }
                            alive_insert_exec(&mut cur, *character, true);
                        },
                        _ => {},
                    }
                    k2 += 1;
                }
                proof {
                    assert(e.effects@.take(nf as int) =~= e.effects@);
                    assert(resurrections_ok(e.effects@));
                }
            }
            j += 1;
        }
        proof {
            assert(t.events@.take(ne as int) =~= t.events@);
            assert(t.events@.skip(ne as int) =~= Seq::<EventId>::empty());
            assert(events_ok(*m, init, t.events@));
            assert(cur@ == df_table(*m, ti as int));
        }
        tables.push(cur);
        ti += 1;
    }
    // every character's stored flag must match their timeline's table
    let nc = m.characters.len();
    let mut i: usize = 0;
    while i < nc
        invariant
            0 <= i <= nc,
            tables@.len() == nt,
            forall|j: int| 0 <= j < nt ==> (#[trigger] tables@[j])@ == df_table(*m, j),
            forall|j: int|
                0 <= j < nt ==> events_ok(*m, df_init(*m, j), (#[trigger] m.timelines@[j]).events@),
            forall|i2: int|
                0 <= i2 < i ==> {
                    let c = #[trigger] m.characters@[i2];
                    let tix = timeline_idx(m.timelines@, c.current_timeline);
                    tix < m.timelines@.len() ==> c.alive == (match alive_lookup(df_table(*m, tix),
                        c.id) {
                        Some(v) => v,
                        None => true,
                    })
                },
        decreases nc - i,
    {
        let c = &m.characters[i];
        let slot = m.find_timeline(c.current_timeline);
        if let Some(tix) = slot {
            let expected = match alive_lookup_exec(&tables[tix], c.id) {
                Some(v) => v,
                None => true,
            };
            if c.alive != expected {
                proof {
                    assert(c.id.0 == i);
                    assert(tix as int == timeline_idx(m.timelines@, c.current_timeline));
                    assert((tables@[tix as int])@ == df_table(*m, tix as int));
                }
                return Err(ValidationError::AliveFlagMismatch {
                    character: c.id,
                    timeline: c.current_timeline,
                    expected,
                });
            }
        }
        i += 1;
    }
    Ok(())
}

/// A replay that raises no violation keeps raising none from any position
/// onward.
proof fn lemma_events_ok_positionwise(m: Multiverse, t0: Seq<(CharacterId, bool)>,
    evs: Seq<EventId>, j: int)
    requires
        0 <= j <= evs.len(),
        events_ok(m, t0, evs),
    ensures
        events_ok(m, alive_after_events(m, t0, evs.take(j)), evs.skip(j)),
    decreases j,
{
    if j == 0 {
        assert(evs.take(0) =~= Seq::<EventId>::empty());
        assert(evs.skip(0) =~= evs);
    } else {
        lemma_events_ok_positionwise(m, t0, evs, j - 1);
        let tprev = alive_after_events(m, t0, evs.take(j - 1));
        assert(evs.skip(j - 1).first() == evs[j - 1]);
        assert(evs.skip(j - 1).drop_first() =~= evs.skip(j));
        assert(evs.take(j).drop_last() =~= evs.take(j - 1));
        assert(evs.take(j).last() == evs[j - 1]);
    }
}

/// The table records a character dead right after a death effect.
pub proof fn lemma_death_records_dead(t: Seq<(CharacterId, bool)>, x: CharacterId)
    ensures
        alive_lookup(alive_step(t, EventEffect::CharacterDeath { character: x }), x) == Some(
            false),
{
    lemma_alive_idx(t, x);
    let t2 = alive_insert(t, x, false);
    lemma_alive_idx(t2, x);
    let i = alive_idx(t, x);
    let i2 = alive_idx(t2, x);
    if i < t.len() {
        assert(t2 == t.update(i, (x, false)));
        assert(t2[i].0 == x);
        if i2 < i {
            assert(t2[i2] == t[i2]);
            assert(false);
        }
    } else {
        assert(t2 == t.push((x, false)));
        assert(t2[t.len() as int].0 == x);
        if i2 < t.len() {
            assert(t2[i2] == t[i2]);
            assert(false);
        }
    }
}

/// Death finality violation: if the liveness table reached before some
/// stored event of a timeline records a character dead, and that event
/// lists them as a participant without resurrecting them, then the
/// death-finality invariant does not hold of the store.
pub proof fn lemma_death_finality_violation(m: Multiverse, i: int, j: int, x: CharacterId)
    requires
        0 <= i < m.timelines@.len(),
        0 <= j < m.timelines@[i].events@.len(),
        alive_lookup(alive_after_events(m, df_init(m, i), m.timelines@[i].events@.take(j)), x)
            == Some(false),
        match spec_event(m, m.timelines@[i].events@[j]) {
            Some(e) => e.participants@.contains(x) && !has_resurrection(e.effects@, x),
            None => false,
        },
    ensures
        !spec_death_finality_ok(m),
{
    let evs = m.timelines@[i].events@;
    let init = df_init(m, i);
    if events_ok(m, init, evs) {
        lemma_events_ok_positionwise(m, init, evs, j);
        let tj = alive_after_events(m, init, evs.take(j));
        assert(evs.skip(j).first() == evs[j]);
        let e = spec_event(m, evs[j])->Some_0;
        assert(participants_ok(tj, e));
        let k = choose|k: int| 0 <= k < e.participants@.len() && e.participants@[k] == x;
        assert(alive_lookup(tj, e.participants@[k]) == Some(true) || has_resurrection(
            e.effects@, e.participants@[k]));
        assert(false);
    }
}

// ---------------------------------------------------------------------------
// Emotional bound validity
// ---------------------------------------------------------------------------

/// Emotional bound validity: every character's mood coordinate lies within
/// the unit cube on all three axes. On a well-formed store this always
/// holds, because the squashing in `get_pad` keeps each axis strictly
/// inside the open unit interval.
pub fn prop_emotional_state_validity(m: &Multiverse) -> (r: Result<(), ValidationError>)
    requires
        m.wf(),
    ensures
        r is Ok,
{
    let nc = m.characters.len();
    let mut i: usize = 0;
    while i < nc
        invariant
            0 <= i <= nc,
            nc == m.characters@.len(),
            m.wf(),
        decreases nc - i,
    {
        proof {
            assert(state_wf(m.characters@[i as int].emotional_state));
        }
        let pad = m.characters[i].emotional_state.get_pad();
        if pad.0 < -1000 || pad.0 > 1000 || pad.1 < -1000 || pad.1 > 1000 || pad.2 < -1000
            || pad.2 > 1000 {
            return Err(ValidationError::PadOutOfRange { character: m.characters[i].id });
        }
        i += 1;
    }
    Ok(())
}

// ---------------------------------------------------------------------------
// Witnessed-memory validity
// ---------------------------------------------------------------------------

/// Appending a memory moves no existing first-match lookup: an id found
/// before is found at the same place, and an absent id is found at the end
/// exactly when the appended memory carries it.
proof fn lemma_memory_idx_push(s: Seq<Memory>, m: Memory, id: MemoryId)
    ensures
        memory_idx(s.push(m), id) == (if memory_idx(s, id) < s.len() {
            memory_idx(s, id)
        } else if m.id == id {
            s.len() as int
        } else {
            s.len() as int + 1
        }),
    decreases s.len(),
{
    lemma_memory_idx(s, id);
    if s.len() == 0 {
        assert(s.push(m)[0] == m);
        if m.id != id {
            assert(s.push(m).drop_first() =~= Seq::<Memory>::empty());
            assert(memory_idx(Seq::<Memory>::empty(), id) == 0);
            assert(memory_idx(s.push(m), id) == 1);
        }
    } else {
        assert(s.push(m)[0] == s[0]);
        if s[0].id != id {
            assert(s.push(m).drop_first() =~= s.drop_first().push(m));
            lemma_memory_idx_push(s.drop_first(), m, id);
            lemma_memory_idx(s.drop_first(), id);
            assert(memory_idx(s, id) == 1 + memory_idx(s.drop_first(), id));
            assert(memory_idx(s.push(m), id) == 1 + memory_idx(s.drop_first().push(m), id));
        }
    }
}

/// Two memory stores whose entries carry the same ids position by
/// position agree on where an id is first found.
proof fn lemma_memory_idx_same_ids(s1: Seq<Memory>, s2: Seq<Memory>, id: MemoryId)
    requires
        s1.len() == s2.len(),
        forall|j: int| 0 <= j < s1.len() ==> s1[j].id == (#[trigger] s2[j]).id,
    ensures
        memory_idx(s1, id) == memory_idx(s2, id),
    decreases s1.len(),
{
    if s1.len() > 0 {
        assert(s1[0].id == s2[0].id);
        if s1[0].id != id {
            assert forall|j: int| 0 <= j < s1.drop_first().len() implies s1.drop_first()[j].id
                == (#[trigger] s2.drop_first()[j]).id by {
                assert(s1.drop_first()[j] == s1[j + 1] && s2.drop_first()[j] == s2[j + 1]);
            }
            lemma_memory_idx_same_ids(s1.drop_first(), s2.drop_first(), id);
        }
    }
}

/// Witnessed-memory validity: on a consistent store, creating a witnessed
/// memory of an existing event claiming a witness, and then handing the
/// memory to that witness, passes memory consistency exactly when the
/// witness was among the event's participants. This covers both a fresh
/// counter id and one that collides with a stored memory, which the call
/// replaces.
pub proof fn lemma_witnessed_memory_validity(
    m0: Multiverse,
    m1: Multiverse,
    m2: Multiverse,
    event: EventId,
    timeline: TimelineId,
    character: CharacterId,
    r: MemoryId,
)
    requires
        m0.wf(),
        spec_memory_consistent(m0),
        spec_event(m0, event) is Some,
        crate::narrative_core::create_witnessed_memory_post(m0, m1, event, timeline, character,
            r),
        crate::actions::memory_id_added(m1, m2, character, r),
    ensures
        spec_memory_consistent(m2) <==> spec_event(m0, event)->Some_0.participants@.contains(
            character),
{
    let old_n = m0.memories@.len() as int;
    let ci = character.0 as int;
    let c0 = m0.characters@[ci];
    let c2 = m2.characters@[ci];
    let mi0 = memory_idx(m0.memories@, r);
    lemma_memory_idx(m0.memories@, r);
    assert(m2.events == m0.events);
    let e = spec_event(m0, event)->Some_0;
    if mi0 < old_n {
        // the counter id collided: the older entry was replaced in place
        let newmem = m1.memories@[mi0];
        assert(m2.memories@ =~= m0.memories@.update(mi0, newmem));
        assert(newmem.id == r && m0.memories@[mi0].id == r);
        // every position keeps its id, so every lookup lands where it did
        assert forall|id: MemoryId| #[trigger] memory_idx(m2.memories@, id) == memory_idx(
            m0.memories@, id) by {
            assert forall|j: int| 0 <= j < m0.memories@.len() implies m0.memories@[j].id == (
            #[trigger] m2.memories@[j]).id by {}
            lemma_memory_idx_same_ids(m0.memories@, m2.memories@, id);
        }
        // a memory justified before stays justified
        assert forall|mem: Memory| memory_ok(m0, mem) implies memory_ok(m2, mem) by {
            match mem.provenance {
                MemoryProvenance::Compound { sources } => {
                    assert forall|k: int| 0 <= k < sources@.len() implies memory_idx(
                        m2.memories@, #[trigger] sources@[k]) < m2.memories@.len() by {}
                },
                _ => {},
            }
        }
        if e.participants@.contains(character) {
            assert forall|i: int, k: int|
                0 <= i < m2.characters@.len() && 0 <= k
                    < m2.characters@[i].memories@.len() implies {
                let mid = #[trigger] m2.characters@[i].memories@[k];
                &&& memory_idx(m2.memories@, mid) < m2.memories@.len()
                &&& memory_ok(m2, m2.memories@[memory_idx(m2.memories@, mid)])
            } by {
                let mid = m2.characters@[i].memories@[k];
                assert(m0.characters@.len() == m2.characters@.len());
                if i != ci {
                    assert(m1.characters@[i] == m2.characters@[i]);
                    assert(m1.characters == m0.characters);
                }
                if mid == r {
                    assert(memory_idx(m2.memories@, r) == mi0);
                    assert(m2.memories@[mi0] == newmem);
                    assert(memory_ok(m2, newmem));
                } else {
                    // not the replaced id: the pair already stood in the
                    // old store, and its stored memory is unchanged
                    assert(mid == m0.characters@[i].memories@[k]);
                    assert(memory_idx(m0.memories@, mid) < old_n && memory_ok(m0,
                        m0.memories@[memory_idx(m0.memories@, mid)]));
                    lemma_memory_idx(m0.memories@, mid);
                    assert(memory_idx(m0.memories@, mid) != mi0) by {
                        if memory_idx(m0.memories@, mid) == mi0 {
                            assert(m0.memories@[mi0].id == mid);
                        }
                    }
                    assert(m2.memories@[memory_idx(m2.memories@, mid)] == m0.memories@[
                        memory_idx(m0.memories@, mid)]);
                }
            }
            assert(spec_memory_consistent(m2));
        } else {
            assert(c2.memories@ == crate::narrative_core::id_insert(c0.memories@, r));
            assert(c2.memories@.contains(r)) by {
                if !c0.memories@.contains(r) {
                    assert(c2.memories@[c0.memories@.len() as int] == r);
                }
            }
            let k = choose|k: int| 0 <= k < c2.memories@.len() && c2.memories@[k] == r;
            assert(m2.characters@[ci].memories@[k] == r);
            assert(memory_idx(m2.memories@, r) == mi0);
            assert(m2.memories@[mi0] == newmem);
            assert(!memory_ok(m2, newmem));
            assert(!spec_memory_consistent(m2));
        }
    } else {
        // the counter id was fresh: the new memory was appended at the end
        let newmem = m1.memories@.last();
        assert(m2.memories@ =~= m0.memories@.push(newmem));
        // the witness did not own the fresh id before, so it was appended
        assert(!c0.memories@.contains(r)) by {
            if c0.memories@.contains(r) {
                let k = choose|k: int| 0 <= k < c0.memories@.len() && c0.memories@[k] == r;
                assert(memory_idx(m0.memories@, c0.memories@[k]) < m0.memories@.len());
            }
        }
        assert(c2.memories@ == c0.memories@.push(r));
        // existing lookups are untouched by the append
        assert forall|id: MemoryId| memory_idx(m0.memories@, id) < old_n implies memory_idx(
            m2.memories@, id) == memory_idx(m0.memories@, id) by {
            lemma_memory_idx_push(m0.memories@, newmem, id);
        }
        assert(memory_idx(m2.memories@, r) == old_n) by {
            lemma_memory_idx_push(m0.memories@, newmem, r);
        }
        // a memory justified before stays justified
        assert forall|mem: Memory| memory_ok(m0, mem) implies memory_ok(m2, mem) by {
            match mem.provenance {
                MemoryProvenance::Compound { sources } => {
                    assert forall|k: int| 0 <= k < sources@.len() implies memory_idx(
                        m2.memories@, #[trigger] sources@[k]) < m2.memories@.len() by {
                        lemma_memory_idx_push(m0.memories@, newmem, sources@[k]);
                    }
                },
                _ => {},
            }
        }
        if e.participants@.contains(character) {
            assert forall|i: int, k: int|
                0 <= i < m2.characters@.len() && 0 <= k
                    < m2.characters@[i].memories@.len() implies {
                let mid = #[trigger] m2.characters@[i].memories@[k];
                &&& memory_idx(m2.memories@, mid) < m2.memories@.len()
                &&& memory_ok(m2, m2.memories@[memory_idx(m2.memories@, mid)])
            } by {
                if i == ci && k == c2.memories@.len() - 1 {
                    assert(m2.characters@[i].memories@[k] == r);
                    assert(m2.memories@[old_n] == newmem);
                    assert(memory_ok(m2, newmem));
                } else {
                    assert(m0.characters@.len() == m2.characters@.len());
                    if i != ci {
                        assert(m1.characters@[i] == m2.characters@[i]);
                        assert(m1.characters == m0.characters);
                    }
                    let mid = m2.characters@[i].memories@[k];
                    assert(mid == m0.characters@[i].memories@[k]);
                    assert(memory_idx(m0.memories@, mid) < old_n && memory_ok(m0,
                        m0.memories@[memory_idx(m0.memories@, mid)]));
                    assert(memory_idx(m2.memories@, mid) == memory_idx(m0.memories@, mid));
                    lemma_memory_idx(m0.memories@, mid);
                    assert(m0.memories@.push(newmem)[memory_idx(m0.memories@, mid)]
                        == m0.memories@[memory_idx(m0.memories@, mid)]);
                    assert(m2.memories@[memory_idx(m2.memories@, mid)] == m0.memories@[
                        memory_idx(m0.memories@, mid)]);
                }
            }
            assert(spec_memory_consistent(m2));
        } else {
            assert(m2.characters@[ci].memories@[c2.memories@.len() - 1] == r);
            assert(m2.memories@[memory_idx(m2.memories@, r)] == newmem);
            assert(!memory_ok(m2, newmem));
            assert(!spec_memory_consistent(m2));
        }
    }
}

/// When the witnessed-memory scenario fails — a fresh-id witnessed memory
/// of an existing event was handed to a claimed witness who was not a
/// participant — the only error [`memory_error_holds`] admits of the
/// resulting store is `WitnessNotPresent`, naming that witness and that
/// event. Together with `prop_memory_consistency`'s contract, the check
/// must return exactly that error on such a store.
pub proof fn lemma_witnessed_memory_error_named(
    m0: Multiverse,
    m1: Multiverse,
    m2: Multiverse,
    event: EventId,
    timeline: TimelineId,
    character: CharacterId,
    r: MemoryId,
)
    requires
        m0.wf(),
        spec_memory_consistent(m0),
        spec_event(m0, event) is Some,
        memory_idx(m0.memories@, MemoryId(m0.next_memory_id)) == m0.memories@.len(),
        crate::narrative_core::create_witnessed_memory_post(m0, m1, event, timeline, character,
            r),
        crate::actions::memory_id_added(m1, m2, character, r),
        !spec_event(m0, event)->Some_0.participants@.contains(character),
    ensures
        forall|e: ValidationError| #[trigger] memory_error_holds(m2, e) ==> e
            == (ValidationError::WitnessNotPresent { character, event }),
{
    let old_n = m0.memories@.len() as int;
    let ci = character.0 as int;
    let c0 = m0.characters@[ci];
    let c2 = m2.characters@[ci];
    let newmem = m1.memories@.last();
    lemma_memory_idx(m0.memories@, r);
    assert(m2.memories@ =~= m0.memories@.push(newmem));
    assert(m2.events == m0.events);
    // nobody owned the fresh id before, so the claimed witness is its
    // only owner
    assert forall|ch: CharacterId| 0 <= ch.0 < m0.characters@.len() && ch != character implies
        !(#[trigger] m0.characters@[ch.0 as int]).memories@.contains(r) by {
        if m0.characters@[ch.0 as int].memories@.contains(r) {
            let k = choose|k: int|
                0 <= k < m0.characters@[ch.0 as int].memories@.len() && m0.characters@[
                    ch.0 as int].memories@[k] == r;
            assert(memory_idx(m0.memories@, m0.characters@[ch.0 as int].memories@[k])
                < m0.memories@.len());
        }
    }
    assert(!c0.memories@.contains(r)) by {
        if c0.memories@.contains(r) {
            let k = choose|k: int| 0 <= k < c0.memories@.len() && c0.memories@[k] == r;
            assert(memory_idx(m0.memories@, c0.memories@[k]) < m0.memories@.len());
        }
    }
    assert(c2.memories@ == c0.memories@.push(r));
    // existing lookups are untouched by the append
    assert forall|id: MemoryId| memory_idx(m0.memories@, id) < old_n implies memory_idx(
        m2.memories@, id) == memory_idx(m0.memories@, id) by {
        lemma_memory_idx_push(m0.memories@, newmem, id);
    }
    assert(memory_idx(m2.memories@, r) == old_n) by {
        lemma_memory_idx_push(m0.memories@, newmem, r);
    }
    // every id owned in the new store other than the fresh one was owned
    // before, by the same character, and resolves to its old memory
    assert forall|ch: CharacterId, k: int|
        #![trigger m2.characters@[ch.0 as int].memories@[k]]
        (ch.0 < m2.characters@.len() && 0 <= k < m2.characters@[ch.0 as int].memories@.len()
            && m2.characters@[ch.0 as int].memories@[k] != r) implies {
        let mid = m2.characters@[ch.0 as int].memories@[k];
        &&& 0 <= k < m0.characters@[ch.0 as int].memories@.len()
        &&& m0.characters@[ch.0 as int].memories@[k] == mid
        &&& memory_idx(m0.memories@, mid) < old_n
        &&& memory_ok(m0, m0.memories@[memory_idx(m0.memories@, mid)])
        &&& memory_idx(m2.memories@, mid) == memory_idx(m0.memories@, mid)
        &&& m2.memories@[memory_idx(m2.memories@, mid)] == m0.memories@[memory_idx(m0.memories@,
            mid)]
    } by {
        if ch.0 as int != ci {
            assert(m2.characters@[ch.0 as int] == m1.characters@[ch.0 as int]);
            assert(m1.characters == m0.characters);
        }
        let mid = m2.characters@[ch.0 as int].memories@[k];
        assert(mid == m0.characters@[ch.0 as int].memories@[k]);
        assert(memory_idx(m0.memories@, mid) < old_n && memory_ok(m0, m0.memories@[memory_idx(
            m0.memories@, mid)]));
        lemma_memory_idx(m0.memories@, mid);
        assert(m0.memories@.push(newmem)[memory_idx(m0.memories@, mid)] == m0.memories@[
            memory_idx(m0.memories@, mid)]);
    }
    assert forall|e: ValidationError| #[trigger] memory_error_holds(m2, e) implies e
        == (ValidationError::WitnessNotPresent { character, event }) by {
        match e {
            ValidationError::MemoryNotFound { character: ch, memory: mid } => {
                // every owned id exists in the new store
                let k = choose|k: int|
                    0 <= k < m2.characters@[ch.0 as int].memories@.len() && m2.characters@[
                        ch.0 as int].memories@[k] == mid;
                if mid == r {
                    assert(memory_idx(m2.memories@, r) == old_n);
                } else {
                    assert(m2.characters@[ch.0 as int].memories@[k] != r);
                }
                assert(false);
            },
            ValidationError::WitnessNotPresent { character: ch, event: ev2 } => {
                let mid = choose|mid: MemoryId|
                    #[trigger] witness_not_present_at(m2, ch, ev2, mid);
                let k = choose|k: int|
                    0 <= k < m2.characters@[ch.0 as int].memories@.len() && m2.characters@[
                        ch.0 as int].memories@[k] == mid;
                if mid == r {
                    // the fresh memory: its sole owner is the claimed
                    // witness, and its fields name the event
                    assert(m2.memories@[memory_idx(m2.memories@, r)] == newmem);
                    if ch.0 as int != ci {
                        assert(m2.characters@[ch.0 as int] == m0.characters@[ch.0 as int]);
                        assert(m0.characters@[ch.0 as int].memories@.contains(r));
                        assert(false);
                    }
                    assert(ch.0 as int == ci);
                    assert(ch == m2.characters@[ci].id);
                    assert(ch == character);
                    assert(newmem.event == event);
                    assert(ev2 == event);
                } else {
                    // any other owned memory was justified before and is
                    // unchanged, so its witness cannot be absent
                    assert(m2.characters@[ch.0 as int].memories@[k] != r);
                    let mem = m2.memories@[memory_idx(m2.memories@, mid)];
                    assert(memory_ok(m0, mem));
                    assert(false);
                }
            },
            ValidationError::ForgerMissing { character: ch, memory: mid } => {
                let k = choose|k: int|
                    0 <= k < m2.characters@[ch.0 as int].memories@.len() && m2.characters@[
                        ch.0 as int].memories@[k] == mid;
                if mid == r {
                    assert(m2.memories@[memory_idx(m2.memories@, r)] == newmem);
                } else {
                    assert(m2.characters@[ch.0 as int].memories@[k] != r);
                    let mem = m2.memories@[memory_idx(m2.memories@, mid)];
                    assert(memory_ok(m0, mem));
                }
                assert(false);
            },
            ValidationError::CompoundSourceMissing { memory: mid, source } => {
                let ch = choose|ch: CharacterId| #[trigger] owns_memory(m2, ch, mid);
                let k = choose|k: int|
                    0 <= k < m2.characters@[ch.0 as int].memories@.len() && m2.characters@[
                        ch.0 as int].memories@[k] == mid;
                if mid == r {
                    assert(m2.memories@[memory_idx(m2.memories@, r)] == newmem);
                } else {
                    assert(m2.characters@[ch.0 as int].memories@[k] != r);
                    let mem = m2.memories@[memory_idx(m2.memories@, mid)];
                    assert(memory_ok(m0, mem));
                    match mem.provenance {
                        MemoryProvenance::Compound { sources } => {
                            let j = choose|j: int|
                                0 <= j < sources@.len() && sources@[j] == source;
                            assert(memory_idx(m0.memories@, sources@[j])
                                < m0.memories@.len());
                        },
                        _ => {},
                    }
                }
                assert(false);
            },
            _ => {},
        }
    }
}

// ---------------------------------------------------------------------------
// Combined validator
// ---------------------------------------------------------------------------

/// All seven invariants hold of the snapshot.
pub open spec fn spec_all_properties(m: Multiverse) -> bool {
    &&& spec_memory_consistent(m)
    &&& spec_timeline_perception(m)
    &&& spec_causality_justified(m)
    &&& spec_relationships_consistent(m)
    &&& spec_death_finality_ok(m)
    &&& spec_knowledge_ok(m)
}

/// Run all seven checks in fixed order and stop at the first failure.
/// The emotional-bound check cannot fail on a well-formed store, so the
/// combined verdict is exactly the conjunction of the other six, and a
/// failure is the first failing check's error, naming a real violation of
/// that check's invariant.
pub fn validate_all_properties(m: &Multiverse) -> (r: Result<(), ValidationError>)
    requires
        m.wf(),
    ensures
        r is Ok <==> spec_all_properties(*m),
        r matches Err(e) ==> (if !spec_memory_consistent(*m) {
            memory_error_holds(*m, e)
        } else if !spec_timeline_perception(*m) {
            perception_error_holds(*m, e)
        } else if !spec_causality_justified(*m) {
            causality_error_holds(*m, e)
        } else if !spec_relationships_consistent(*m) {
            relationship_error_holds(*m, e)
        } else if !spec_death_finality_ok(*m) {
            death_error_holds(*m, e)
        } else {
            &&& !spec_knowledge_ok(*m)
            &&& knowledge_error_holds(*m, e)
        }),
{
    if let Err(e) = prop_memory_consistency(m) {
        return Err(e);
    }
    if let Err(e) = prop_timeline_perception(m) {
        return Err(e);
    }
    if let Err(e) = prop_causality_justification(m) {
        return Err(e);
    }
    if let Err(e) = prop_relationship_consistency(m) {
        return Err(e);
    }
    if let Err(e) = prop_death_finality(m) {
        return Err(e);
    }
    if let Err(e) = prop_knowledge_flags(m) {
        return Err(e);
    }
    if let Err(e) = prop_emotional_state_validity(m) {
        return Err(e);
    }
    Ok(())
}

} // verus!
