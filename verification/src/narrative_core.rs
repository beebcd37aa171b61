//! The entity store: timelines, characters, memories and events, together
//! with the only mutation surface.
//!
//! Entities live in insertion-ordered vectors and reference each other by
//! opaque numeric ids. Characters and events are handed out by per-store
//! counters starting at zero, so their position in the vector equals their
//! id; timeline ids are also counter-assigned (the root timeline is id 0)
//! and strictly increase along the vector; memory ids may additionally be
//! chosen by callers, so memories only keep ids unique, and a counter-issued
//! id that collides replaces the older entry, as a keyed map would.
//!
//! Mutations never fail: an operation that references a missing entity is a
//! silent no-op, and checking the resulting state is entirely the job of the
//! validator suite in [`crate::properties`].

use vstd::prelude::*;

use crate::emotional_system::{
    apply_updates, belief_wf, decay_seq, do_updates, find_goal_idx, goal_wf, state_wf, Belief,
    EmotionalState, Goal,
};

verus! {

/// A unique identifier for a timeline.
#[derive(Debug, Clone, Copy, PartialEq, Eq, Hash, Structural)]
pub struct TimelineId(pub u64);

/// A unique identifier for a character.
#[derive(Debug, Clone, Copy, PartialEq, Eq, Hash, Structural)]
pub struct CharacterId(pub u64);

/// A unique identifier for a memory fragment.
#[derive(Debug, Clone, Copy, PartialEq, Eq, Hash, Structural)]
pub struct MemoryId(pub u64);

/// A unique identifier for an event.
#[derive(Debug, Clone, Copy, PartialEq, Eq, Hash, Structural)]
pub struct EventId(pub u64);

/// How a memory came to exist; validators hold memories to their claimed
/// origin.
#[derive(Debug, Clone)]
pub enum MemoryProvenance {
    /// Directly witnessed by the named character.
    Witnessed { character: CharacterId },
    /// Extracted from another character and acquired through a named
    /// mechanism.
    Traded { original_owner: CharacterId, acquired_via: String },
    /// Fabricated from whole cloth by a named forger.
    Forged { forger: String },
    /// Blended from several source memories.
    Compound { sources: Vec<MemoryId> },
}

/// A memory fragment: the event it records, the timeline it is from, its
/// provenance, and a recall fidelity in `[0, 1]` thousandths.
#[derive(Debug, Clone)]
pub struct Memory {
    pub id: MemoryId,
    pub event: EventId,
    pub source_timeline: TimelineId,
    pub provenance: MemoryProvenance,
    pub fidelity: i64,
}

/// Special abilities that grant exceptions to the narrative rules.
#[derive(Debug, Clone, Copy, PartialEq, Eq, Hash, Structural)]
pub enum Ability {
    /// Can perceive multiple timelines simultaneously.
    TimelinePerception,
    /// Can see possible futures.
    Precognition,
    /// Immune to memory manipulation.
    MemoryImmunity,
    /// Remembers across time loops.
    LoopMemory,
    /// Can manipulate causality directly.
    CausalityHacking,
}

/// Relationship states between characters, ordered from worst to best.
#[derive(Debug, Clone, Copy, PartialEq, Eq, PartialOrd, Ord, Hash, Structural)]
pub enum RelationshipState {
    Hostile,
    Distrustful,
    Neutral,
    Friendly,
    Allied,
}

/// A character: identity, where they are, what they own and know, whether
/// they live, their abilities, their relationships, and their emotional
/// state.
#[derive(Debug, Clone)]
pub struct Character {
    pub id: CharacterId,
    pub name: String,
    /// The timeline this character currently inhabits.
    pub current_timeline: TimelineId,
    /// The timeline they originated in; set once at creation.
    pub native_timeline: TimelineId,
    /// Ids of the memories this character possesses, without duplicates.
    pub memories: Vec<MemoryId>,
    /// Abstract knowledge flags, without duplicates.
    pub knowledge_flags: Vec<String>,
    pub alive: bool,
    pub abilities: Vec<Ability>,
    /// Last relationship state toward other characters, keyed by id.
    pub relationships: Vec<(CharacterId, RelationshipState)>,
    pub emotional_state: EmotionalState,
}

/// A timeline: its branch point, its ordered event history, and the
/// characters that exist in it.
#[derive(Debug, Clone)]
pub struct Timeline {
    pub id: TimelineId,
    /// The timeline this branched from; `None` for the root.
    pub parent: Option<TimelineId>,
    /// The event after which this branch diverged from the parent.
    pub divergence_event: Option<EventId>,
    /// Ids of the events recorded here, in insertion order.
    pub events: Vec<EventId>,
    /// Ids of the characters that exist in this timeline.
    pub characters: Vec<CharacterId>,
    /// Whether causality is coherent in this timeline.
    pub causality_stable: bool,
}

/// Effects an event can have on store state; a reference to a missing
/// entity makes that single effect a no-op.
#[derive(Debug, Clone)]
pub enum EventEffect {
    /// The target stops being alive.
    CharacterDeath { character: CharacterId },
    /// The target lives again; the mechanism is only visible in the event
    /// log.
    CharacterResurrection { character: CharacterId, mechanism: String },
    /// Both characters' entries for each other become `new_state`; when
    /// either character is missing, the whole effect is a no-op and
    /// neither side's entry moves.
    RelationshipChange {
        character1: CharacterId,
        character2: CharacterId,
        new_state: RelationshipState,
    },
    /// The flag joins the character's knowledge set.
    KnowledgeGained { character: CharacterId, flag: String },
    /// The memory id joins the recipient's set; the sender keeps it.
    MemoryTransfer { memory: MemoryId, from: Option<CharacterId>, to: CharacterId },
    /// Intentional no-op: branching goes through
    /// [`Multiverse::create_timeline_branch`].
    TimelineBranch { new_timeline: TimelineId },
    /// The belief is appraised by the character's emotional state.
    AppraisalTrigger { character: CharacterId, belief: Belief },
    /// The goal is inserted into the character's goal map by name.
    AddGoal { character: CharacterId, goal: Goal },
}

/// Ways an event can break normal cause-before-effect ordering; each needs
/// a named in-world mechanism.
#[derive(Debug, Clone)]
pub enum CausalityViolation {
    /// The effect precedes its cause.
    EffectBeforeCause { mechanism: String },
    /// The event retroactively changes the past.
    RetroactiveChange { mechanism: String },
    /// The event exists in superposition.
    Superposition { mechanism: String },
}

/// An event: where it happened, who was there, what it did, and whether it
/// broke causality.
#[derive(Debug, Clone)]
pub struct Event {
    pub id: EventId,
    pub timeline: TimelineId,
    pub description: String,
    pub participants: Vec<CharacterId>,
    pub effects: Vec<EventEffect>,
    pub causality_violation: Option<CausalityViolation>,
}

/// The top-level container: every timeline, character, memory and event,
/// plus the per-store id counters.
#[derive(Debug, Clone)]
pub struct Multiverse {
    pub timelines: Vec<Timeline>,
    pub characters: Vec<Character>,
    pub memories: Vec<Memory>,
    pub events: Vec<Event>,
    /// The canonical root timeline, fixed at id 0.
    pub root_timeline: TimelineId,
    pub next_timeline_id: u64,
    pub next_character_id: u64,
    pub next_memory_id: u64,
    pub next_event_id: u64,
}

// ---------------------------------------------------------------------------
// First-match lookups
// ---------------------------------------------------------------------------

/// First index of the timeline with this id, or the length.
pub open spec fn timeline_idx(s: Seq<Timeline>, id: TimelineId) -> int
    decreases s.len(),
{
    if s.len() == 0 {
        0
    } else if s[0].id == id {
        0
    } else {
        1 + timeline_idx(s.drop_first(), id)
    }
}

/// Characterization of [`timeline_idx`]: it is in range, it hits, and
/// nothing before it does.
pub proof fn lemma_timeline_idx(s: Seq<Timeline>, id: TimelineId)
    ensures
        0 <= timeline_idx(s, id) <= s.len(),
        timeline_idx(s, id) < s.len() ==> s[timeline_idx(s, id)].id == id,
        forall|j: int| 0 <= j < timeline_idx(s, id) ==> s[j].id != id,
    decreases s.len(),
{
    if s.len() > 0 && s[0].id != id {
        lemma_timeline_idx(s.drop_first(), id);
        assert forall|j: int| 0 <= j < timeline_idx(s, id) implies s[j].id != id by {
            if j > 0 {
                assert(s.drop_first()[j - 1] == s[j]);
            }
        }
    }
}

/// First index of the memory with this id, or the length.
pub open spec fn memory_idx(s: Seq<Memory>, id: MemoryId) -> int
    decreases s.len(),
{
    if s.len() == 0 {
        0
    } else if s[0].id == id {
        0
    } else {
        1 + memory_idx(s.drop_first(), id)
    }
}

/// Characterization of [`memory_idx`]: it is in range, it hits, and nothing
/// before it does.
pub proof fn lemma_memory_idx(s: Seq<Memory>, id: MemoryId)
    ensures
        0 <= memory_idx(s, id) <= s.len(),
        memory_idx(s, id) < s.len() ==> s[memory_idx(s, id)].id == id,
        forall|j: int| 0 <= j < memory_idx(s, id) ==> s[j].id != id,
    decreases s.len(),
{
    if s.len() > 0 && s[0].id != id {
        lemma_memory_idx(s.drop_first(), id);
        assert forall|j: int| 0 <= j < memory_idx(s, id) implies s[j].id != id by {
            if j > 0 {
                assert(s.drop_first()[j - 1] == s[j]);
            }
        }
    }
}

/// First index of the relationship entry for this partner, or the length.
pub open spec fn rel_idx(s: Seq<(CharacterId, RelationshipState)>, other: CharacterId) -> int
    decreases s.len(),
{
    if s.len() == 0 {
        0
    } else if s[0].0 == other {
        0
    } else {
        1 + rel_idx(s.drop_first(), other)
    }
}

/// Characterization of [`rel_idx`]: it is in range, it hits, and nothing
/// before it does.
pub proof fn lemma_rel_idx(s: Seq<(CharacterId, RelationshipState)>, other: CharacterId)
    ensures
        0 <= rel_idx(s, other) <= s.len(),
        rel_idx(s, other) < s.len() ==> s[rel_idx(s, other)].0 == other,
        forall|j: int| 0 <= j < rel_idx(s, other) ==> s[j].0 != other,
    decreases s.len(),
{
    if s.len() > 0 && s[0].0 != other {
        lemma_rel_idx(s.drop_first(), other);
        assert forall|j: int| 0 <= j < rel_idx(s, other) implies s[j].0 != other by {
            if j > 0 {
                assert(s.drop_first()[j - 1] == s[j]);
            }
        }
    }
}

/// The stored timeline with this id, if any.
pub open spec fn spec_timeline(m: Multiverse, id: TimelineId) -> Option<Timeline> {
    let i = timeline_idx(m.timelines@, id);
    if i < m.timelines@.len() {
        Some(m.timelines@[i])
    } else {
        None
    }
}

/// The stored memory with this id, if any.
pub open spec fn spec_memory(m: Multiverse, id: MemoryId) -> Option<Memory> {
    let i = memory_idx(m.memories@, id);
    if i < m.memories@.len() {
        Some(m.memories@[i])
    } else {
        None
    }
}

/// The stored character with this id, if any; characters are dense, so the
/// id is the position.
pub open spec fn spec_character(m: Multiverse, id: CharacterId) -> Option<Character> {
    if id.0 < m.characters@.len() {
        Some(m.characters@[id.0 as int])
    } else {
        None
    }
}

/// The stored event with this id, if any; events are dense, so the id is
/// the position.
pub open spec fn spec_event(m: Multiverse, id: EventId) -> Option<Event> {
    if id.0 < m.events@.len() {
        Some(m.events@[id.0 as int])
    } else {
        None
    }
}

// ---------------------------------------------------------------------------
// Store invariant
// ---------------------------------------------------------------------------

/// A well-formed event: the numeric payloads of its effects are in range,
/// so that appraisal arithmetic stays exact.
pub open spec fn event_wf(e: Event) -> bool {
    forall|i: int|
        0 <= i < e.effects@.len() ==> match #[trigger] e.effects@[i] {
            EventEffect::AppraisalTrigger { belief, .. } => belief_wf(belief),
            EventEffect::AddGoal { goal, .. } => goal_wf(goal),
            _ => true,
        }
}

impl Multiverse {
    /// The store invariant: timeline ids strictly increase along the vector
    /// and stay below the counter; characters and events sit at their own
    /// id; memory ids are unique; every emotional state is well-formed.
    pub open spec fn wf(&self) -> bool {
        &&& forall|i: int, j: int|
            0 <= i < j < self.timelines@.len() ==> (#[trigger] self.timelines@[i]).id.0 < (
            #[trigger] self.timelines@[j]).id.0
        &&& forall|i: int|
            0 <= i < self.timelines@.len() ==> (#[trigger] self.timelines@[i]).id.0
                < self.next_timeline_id
        &&& forall|i: int|
            0 <= i < self.characters@.len() ==> (#[trigger] self.characters@[i]).id
                == CharacterId(i as u64)
        &&& self.next_character_id == self.characters@.len()
        &&& forall|i: int, j: int|
            0 <= i < j < self.memories@.len() ==> (#[trigger] self.memories@[i]).id != (
            #[trigger] self.memories@[j]).id
        &&& forall|i: int|
            0 <= i < self.events@.len() ==> (#[trigger] self.events@[i]).id == EventId(i as u64)
        &&& self.next_event_id == self.events@.len()
        &&& forall|i: int|
            0 <= i < self.characters@.len() ==> state_wf(
                (#[trigger] self.characters@[i]).emotional_state,
            )
    }

    /// A fresh store: one stable, empty root timeline with id 0, and
    /// nothing else.
    pub fn new() -> (r: Multiverse)
        ensures
            r.wf(),
            r.timelines@.len() == 1,
            r.timelines@[0].id == TimelineId(0),
            r.timelines@[0].parent is None,
            r.timelines@[0].divergence_event is None,
            r.timelines@[0].events@.len() == 0,
            r.timelines@[0].characters@.len() == 0,
            r.timelines@[0].causality_stable,
            r.characters@.len() == 0,
            r.memories@.len() == 0,
            r.events@.len() == 0,
            r.root_timeline == TimelineId(0),
            r.next_timeline_id == 1,
            r.next_character_id == 0,
            r.next_memory_id == 0,
            r.next_event_id == 0,
    {
        let root = Timeline {
            id: TimelineId(0),
            parent: None,
            divergence_event: None,
            events: Vec::new(),
            characters: Vec::new(),
            causality_stable: true,
        };
        let mut timelines: Vec<Timeline> = Vec::new();
        timelines.push(root);
        Multiverse {
            timelines,
            characters: Vec::new(),
            memories: Vec::new(),
            events: Vec::new(),
            root_timeline: TimelineId(0),
            next_timeline_id: 1,
            next_character_id: 0,
            next_memory_id: 0,
            next_event_id: 0,
        }
    }

    /// Position of the timeline with this id in the vector, if present.
    pub fn find_timeline(&self, id: TimelineId) -> (r: Option<usize>)
        ensures
            match r {
                Some(i) => i == timeline_idx(self.timelines@, id) && i < self.timelines@.len()
                    && self.timelines@[i as int].id == id,
                None => timeline_idx(self.timelines@, id) == self.timelines@.len(),
            },
    {
        proof {
            lemma_timeline_idx(self.timelines@, id);
        }
        let n = self.timelines.len();
        let mut i: usize = 0;
        while i < n
            invariant
                n == self.timelines@.len(),
                0 <= i <= n,
                forall|j: int| 0 <= j < i ==> (#[trigger] self.timelines@[j]).id != id,
            decreases n - i,
        {
            if self.timelines[i].id == id {
                proof {
                    lemma_timeline_idx(self.timelines@, id);
                }
                return Some(i);
            }
            i += 1;
        }
        proof {
            lemma_timeline_idx(self.timelines@, id);
        }
        None
    }

    /// Position of the memory with this id in the vector, if present.
    pub fn find_memory(&self, id: MemoryId) -> (r: Option<usize>)
        ensures
            match r {
                Some(i) => i == memory_idx(self.memories@, id) && i < self.memories@.len()
                    && self.memories@[i as int].id == id,
                None => memory_idx(self.memories@, id) == self.memories@.len(),
            },
    {
        proof {
            lemma_memory_idx(self.memories@, id);
        }
        let n = self.memories.len();
        let mut i: usize = 0;
        while i < n
            invariant
                n == self.memories@.len(),
                0 <= i <= n,
                forall|j: int| 0 <= j < i ==> (#[trigger] self.memories@[j]).id != id,
            decreases n - i,
        {
            if self.memories[i].id == id {
                proof {
                    lemma_memory_idx(self.memories@, id);
                }
                return Some(i);
            }
            i += 1;
        }
        proof {
            lemma_memory_idx(self.memories@, id);
        }
        None
    }
}

// ---------------------------------------------------------------------------
// Creation
// ---------------------------------------------------------------------------

/// A freshly created character: alive, empty collections, fresh emotional
/// state, native to the timeline it was created in.
pub open spec fn is_fresh_character(c: Character, id: CharacterId, name: String,
    timeline: TimelineId) -> bool {
    &&& c.id == id
    &&& c.name == name
    &&& c.current_timeline == timeline
    &&& c.native_timeline == timeline
    &&& c.memories@.len() == 0
    &&& c.knowledge_flags@.len() == 0
    &&& c.alive
    &&& c.abilities@.len() == 0
    &&& c.relationships@.len() == 0
    &&& c.emotional_state.emotions@.len() == 0
    &&& c.emotional_state.goals@.len() == 0
    &&& c.emotional_state.gain == 1000
}

/// What one `create_character` call does: the new character, with the next
/// id, joins the store, and joins the named timeline's character set when
/// that timeline exists; nothing else moves.
pub open spec fn create_character_post(
    m0: Multiverse,
    m1: Multiverse,
    name: String,
    timeline: TimelineId,
    r: CharacterId,
) -> bool {
    &&& r == CharacterId(m0.characters@.len() as u64)
    &&& m1.characters@.len() == m0.characters@.len() + 1
    &&& forall|j: int|
        0 <= j < m0.characters@.len() ==> m1.characters@[j] == #[trigger] m0.characters@[j]
    &&& is_fresh_character(m1.characters@.last(), r, name, timeline)
    &&& ({
        let ti = timeline_idx(m0.timelines@, timeline);
        if ti < m0.timelines@.len() {
            &&& m1.timelines@.len() == m0.timelines@.len()
            &&& forall|j: int|
                0 <= j < m0.timelines@.len() && j != ti ==> m1.timelines@[j]
                    == #[trigger] m0.timelines@[j]
            &&& m1.timelines@[ti].id == m0.timelines@[ti].id
            &&& m1.timelines@[ti].parent == m0.timelines@[ti].parent
            &&& m1.timelines@[ti].divergence_event == m0.timelines@[ti].divergence_event
            &&& m1.timelines@[ti].events == m0.timelines@[ti].events
            &&& m1.timelines@[ti].characters@ == m0.timelines@[ti].characters@.push(r)
            &&& m1.timelines@[ti].causality_stable == m0.timelines@[ti].causality_stable
        } else {
            m1.timelines == m0.timelines
        }
    })
    &&& m1.memories == m0.memories
    &&& m1.events == m0.events
    &&& m1.root_timeline == m0.root_timeline
    &&& m1.next_timeline_id == m0.next_timeline_id
    &&& m1.next_character_id == m0.next_character_id + 1
    &&& m1.next_memory_id == m0.next_memory_id
    &&& m1.next_event_id == m0.next_event_id
}

/// What one `create_timeline_branch` call does: a new timeline with the
/// next id joins the store, copying the parent's current character set and
/// recording the parent and divergence event; nothing else moves.
pub open spec fn create_branch_post(
    m0: Multiverse,
    m1: Multiverse,
    parent: TimelineId,
    divergence_event: EventId,
    r: TimelineId,
) -> bool {
    &&& r == TimelineId(m0.next_timeline_id)
    &&& m1.timelines@.len() == m0.timelines@.len() + 1
    &&& forall|j: int|
        0 <= j < m0.timelines@.len() ==> m1.timelines@[j] == #[trigger] m0.timelines@[j]
    &&& ({
        let t = m1.timelines@.last();
        &&& t.id == r
        &&& t.parent == Some(parent)
        &&& t.divergence_event == Some(divergence_event)
        &&& t.events@.len() == 0
        &&& t.characters@ == ({
            let pi = timeline_idx(m0.timelines@, parent);
            if pi < m0.timelines@.len() {
                m0.timelines@[pi].characters@
            } else {
                Seq::<CharacterId>::empty()
            }
        })
        &&& t.causality_stable
    })
    &&& m1.characters == m0.characters
    &&& m1.memories == m0.memories
    &&& m1.events == m0.events
    &&& m1.root_timeline == m0.root_timeline
    &&& m1.next_timeline_id == m0.next_timeline_id + 1
    &&& m1.next_character_id == m0.next_character_id
    &&& m1.next_memory_id == m0.next_memory_id
    &&& m1.next_event_id == m0.next_event_id
}

/// What one `create_witnessed_memory` call does: a full-fidelity witnessed
/// memory under the next counter id joins the store, replacing any older
/// entry that carried the same id; nothing else moves.
pub open spec fn create_witnessed_memory_post(
    m0: Multiverse,
    m1: Multiverse,
    event: EventId,
    timeline: TimelineId,
    character: CharacterId,
    r: MemoryId,
) -> bool {
    &&& r == MemoryId(m0.next_memory_id)
    &&& ({
        let mi = memory_idx(m0.memories@, r);
        let stored_at = if mi < m0.memories@.len() {
            mi
        } else {
            m0.memories@.len() as int
        };
        &&& m1.memories@.len() as int == (if memory_idx(m0.memories@, r) < m0.memories@.len() {
            m0.memories@.len() as int
        } else {
            m0.memories@.len() as int + 1
        })
        &&& forall|j: int|
            0 <= j < m0.memories@.len() && j != stored_at ==> m1.memories@[j]
                == #[trigger] m0.memories@[j]
        &&& is_witnessed_memory(m1.memories@[stored_at], r, event, timeline, character)
    })
    &&& m1.timelines == m0.timelines
    &&& m1.characters == m0.characters
    &&& m1.events == m0.events
    &&& m1.root_timeline == m0.root_timeline
    &&& m1.next_timeline_id == m0.next_timeline_id
    &&& m1.next_character_id == m0.next_character_id
    &&& m1.next_memory_id == m0.next_memory_id + 1
    &&& m1.next_event_id == m0.next_event_id
}

/// A witnessed memory of the given event with perfect fidelity.
pub open spec fn is_witnessed_memory(m: Memory, id: MemoryId, event: EventId,
    timeline: TimelineId, character: CharacterId) -> bool {
    &&& m.id == id
    &&& m.event == event
    &&& m.source_timeline == timeline
    &&& m.provenance == (MemoryProvenance::Witnessed { character })
    &&& m.fidelity == 1000
}

impl Multiverse {
    /// Create a character in the named timeline. The character is created
    /// even when the timeline does not exist; only the timeline's character
    /// set is then left alone.
    pub fn create_character(&mut self, name: String, timeline: TimelineId) -> (r: CharacterId)
        requires
            old(self).wf(),
            old(self).characters@.len() < u64::MAX,
        ensures
            create_character_post(*old(self), *final(self), name, timeline, r),
            final(self).wf(),
    {
        let id = CharacterId(self.next_character_id);
        self.next_character_id = self.next_character_id + 1;
        let character = Character {
            id,
            name,
            current_timeline: timeline,
            native_timeline: timeline,
            memories: Vec::new(),
            knowledge_flags: Vec::new(),
            alive: true,
            abilities: Vec::new(),
            relationships: Vec::new(),
            emotional_state: EmotionalState::new(),
        };
        self.characters.push(character);
        let slot = self.find_timeline(timeline);
        if let Some(ti) = slot {
            self.timelines[ti].characters.push(id);
        }
        id
    }

    /// Branch a new timeline off a parent at a divergence event, copying
    /// the parent's current character set. Neither the parent nor the
    /// divergence event is checked for existence.
    pub fn create_timeline_branch(&mut self, parent: TimelineId, divergence_event: EventId)
        -> (r: TimelineId)
        requires
            old(self).wf(),
            old(self).next_timeline_id < u64::MAX,
        ensures
            create_branch_post(*old(self), *final(self), parent, divergence_event, r),
            final(self).wf(),
    {
        let id = TimelineId(self.next_timeline_id);
        self.next_timeline_id = self.next_timeline_id + 1;
        let mut inherited: Vec<CharacterId> = Vec::new();
        let slot = self.find_timeline(parent);
        if let Some(pi) = slot {
            let src = &self.timelines[pi].characters;
            let n = src.len();
            let mut i: usize = 0;
            while i < n
                invariant
                    n == src@.len(),
                    0 <= i <= n,
                    inherited@ == src@.take(i as int),
                decreases n - i,
            {
                inherited.push(src[i]);
                proof {
                    assert(src@.take(i as int + 1) =~= src@.take(i as int).push(src@[i as int]));
                }
                i += 1;
            }
            proof {
                assert(src@.take(n as int) =~= src@);
            }
        }
        let timeline = Timeline {
            id,
            parent: Some(parent),
            divergence_event: Some(divergence_event),
            events: Vec::new(),
            characters: inherited,
            causality_stable: true,
        };
        self.timelines.push(timeline);
        id
    }

    /// Create a full-fidelity witnessed memory of an event. Whether the
    /// claimed witness was a participant is deliberately not checked here;
    /// the memory-consistency validator checks it after the fact.
    pub fn create_witnessed_memory(&mut self, event: EventId, timeline: TimelineId,
        character: CharacterId) -> (r: MemoryId)
        requires
            old(self).wf(),
            old(self).next_memory_id < u64::MAX,
        ensures
            create_witnessed_memory_post(*old(self), *final(self), event, timeline, character, r),
            final(self).wf(),
    {
        let id = MemoryId(self.next_memory_id);
        self.next_memory_id = self.next_memory_id + 1;
        let memory = Memory {
            id,
            event,
            source_timeline: timeline,
            provenance: MemoryProvenance::Witnessed { character },
            fidelity: 1000,
        };
        proof {
            lemma_memory_idx(self.memories@, id);
        }
        let slot = self.find_memory(id);
        match slot {
            Some(mi) => {
                self.memories.set(mi, memory);
            },
            None => {
                self.memories.push(memory);
            },
        }
        id
    }

    /// True iff the character is in the given timeline or holds
    /// [`Ability::TimelinePerception`]; false for a missing character.
    pub fn can_perceive_timeline(&self, character: CharacterId, timeline: TimelineId)
        -> (r: bool)
        ensures
            r == match spec_character(*self, character) {
                Some(c) => c.current_timeline == timeline || c.abilities@.contains(
                    Ability::TimelinePerception),
                None => false,
            },
    {
        let idx = character.0;
        if idx < self.characters.len() as u64 {
            let c = &self.characters[idx as usize];
            if c.current_timeline == timeline {
                return true;
            }
            let n = c.abilities.len();
            let mut i: usize = 0;
            while i < n
                invariant
                    character.0 < self.characters@.len(),
                    *c == self.characters@[character.0 as int],
                    n == c.abilities@.len(),
                    0 <= i <= n,
                    forall|j: int|
                        0 <= j < i ==> #[trigger] c.abilities@[j] != Ability::TimelinePerception,
                decreases n - i,
            {
                if matches!(c.abilities[i], Ability::TimelinePerception) {
                    proof {
                        assert(c.abilities@[i as int] == Ability::TimelinePerception);
                    }
                    return true;
                }
                i += 1;
            }
            false
        } else {
            false
        }
    }
}

/// A character owns a memory of the given event: some memory id in their
/// set resolves to a stored memory recording that event.
pub open spec fn spec_has_memory_of_event(m: Multiverse, character: CharacterId,
    event: EventId) -> bool {
    match spec_character(m, character) {
        Some(c) => exists|k: int|
            0 <= k < c.memories@.len() && match spec_memory(m, #[trigger] c.memories@[k]) {
                Some(mm) => mm.event == event,
                None => false,
            },
        None => false,
    }
}

/// Everything of the character is unchanged but the emotional state.
pub open spec fn char_core_eq(c0: Character, c1: Character) -> bool {
    &&& c1.id == c0.id
    &&& c1.name == c0.name
    &&& c1.current_timeline == c0.current_timeline
    &&& c1.native_timeline == c0.native_timeline
    &&& c1.memories == c0.memories
    &&& c1.knowledge_flags == c0.knowledge_flags
    &&& c1.alive == c0.alive
    &&& c1.abilities == c0.abilities
    &&& c1.relationships == c0.relationships
}

impl Multiverse {
    /// True iff the character owns a memory that records the given event.
    pub fn has_memory_of_event(&self, character: CharacterId, event: EventId) -> (r: bool)
        ensures
            r == spec_has_memory_of_event(*self, character, event),
    {
        let idx = character.0;
        if idx < self.characters.len() as u64 {
            let c = &self.characters[idx as usize];
            let n = c.memories.len();
            let mut k: usize = 0;
            while k < n
                invariant
                    character.0 < self.characters@.len(),
                    *c == self.characters@[character.0 as int],
                    n == c.memories@.len(),
                    0 <= k <= n,
                    forall|j: int|
                        0 <= j < k ==> !match spec_memory(*self, #[trigger] c.memories@[j]) {
                            Some(mm) => mm.event == event,
                            None => false,
                        },
                decreases n - k,
            {
                if let Some(mi) = self.find_memory(c.memories[k]) {
                    if self.memories[mi].event == event {
                        return true;
                    }
                }
                k += 1;
            }
            false
        } else {
            false
        }
    }

    /// Apply emotion decay at the given factor (thousandths) to every
    /// character in the store.
    pub fn decay_emotions(&mut self, decay_factor: i64)
        requires
            old(self).wf(),
            0 <= decay_factor <= 1000,
        ensures
            final(self).characters@.len() == old(self).characters@.len(),
            forall|i: int|
                0 <= i < old(self).characters@.len() ==> {
                    &&& char_core_eq(#[trigger] old(self).characters@[i],
                        final(self).characters@[i])
                    &&& final(self).characters@[i].emotional_state.emotions@ == decay_seq(
                        old(self).characters@[i].emotional_state.emotions@, decay_factor)
                    &&& final(self).characters@[i].emotional_state.goals
                        == old(self).characters@[i].emotional_state.goals
                    &&& final(self).characters@[i].emotional_state.gain
                        == old(self).characters@[i].emotional_state.gain
                },
            final(self).timelines == old(self).timelines,
            final(self).memories == old(self).memories,
            final(self).events == old(self).events,
            final(self).root_timeline == old(self).root_timeline,
            final(self).next_timeline_id == old(self).next_timeline_id,
            final(self).next_character_id == old(self).next_character_id,
            final(self).next_memory_id == old(self).next_memory_id,
            final(self).next_event_id == old(self).next_event_id,
            final(self).wf(),
    {
        let n = self.characters.len();
        let mut i: usize = 0;
        while i < n
            invariant
                old(self).wf(),
                0 <= decay_factor <= 1000,
                n == self.characters@.len(),
                n == old(self).characters@.len(),
                0 <= i <= n,
                forall|j: int|
                    i <= j < n ==> self.characters@[j] == #[trigger] old(self).characters@[j],
                forall|j: int|
                    0 <= j < i ==> {
                        &&& char_core_eq(#[trigger] old(self).characters@[j],
                            self.characters@[j])
                        &&& self.characters@[j].emotional_state.emotions@ == decay_seq(
                            old(self).characters@[j].emotional_state.emotions@, decay_factor)
                        &&& self.characters@[j].emotional_state.goals
                            == old(self).characters@[j].emotional_state.goals
                        &&& self.characters@[j].emotional_state.gain
                            == old(self).characters@[j].emotional_state.gain
                        &&& state_wf(self.characters@[j].emotional_state)
                    },
                self.timelines == old(self).timelines,
                self.memories == old(self).memories,
                self.events == old(self).events,
                self.root_timeline == old(self).root_timeline,
                self.next_timeline_id == old(self).next_timeline_id,
                self.next_character_id == old(self).next_character_id,
                self.next_memory_id == old(self).next_memory_id,
                self.next_event_id == old(self).next_event_id,
            decreases n - i,
        {
            proof {
                assert(self.characters@[i as int] == old(self).characters@[i as int]);
                assert(state_wf(old(self).characters@[i as int].emotional_state));
            }
            self.characters[i].emotional_state.decay(decay_factor);
            i += 1;
        }
        proof {
            assert forall|j: int| 0 <= j < self.characters@.len() implies (
            #[trigger] self.characters@[j]).id == CharacterId(j as u64) && state_wf(
                self.characters@[j].emotional_state) by {
                assert(char_core_eq(old(self).characters@[j], self.characters@[j]));
                assert(old(self).characters@[j].id == CharacterId(j as u64));
            }
        }
    }
}

// ---------------------------------------------------------------------------
// Effect interpreter
// ---------------------------------------------------------------------------

/// Set-style insertion of a memory id: already present means unchanged.
pub open spec fn id_insert(s: Seq<MemoryId>, id: MemoryId) -> Seq<MemoryId> {
    if s.contains(id) {
        s
    } else {
        s.push(id)
    }
}

/// Set-style insertion of a knowledge flag, compared by contents.
pub open spec fn flag_insert(s: Seq<String>, flag: String) -> Seq<String> {
    if exists|j: int| 0 <= j < s.len() && (#[trigger] s[j])@ == flag@ {
        s
    } else {
        s.push(flag)
    }
}

/// Map-style insertion of a relationship entry: the first entry for the
/// partner is replaced, or a new entry is appended.
pub open spec fn rel_insert(
    s: Seq<(CharacterId, RelationshipState)>,
    other: CharacterId,
    st: RelationshipState,
) -> Seq<(CharacterId, RelationshipState)> {
    let i = rel_idx(s, other);
    if i < s.len() {
        s.update(i, (other, st))
    } else {
        s.push((other, st))
    }
}

/// Map-style insertion of a goal by name.
pub open spec fn goal_seq_insert(goals: Seq<Goal>, g: Goal) -> Seq<Goal> {
    let i = find_goal_idx(goals, g.name@);
    if i < goals.len() {
        goals.update(i, g)
    } else {
        goals.push(g)
    }
}

/// The character's last recorded relationship state toward a partner.
pub open spec fn rel_lookup(c: Character, other: CharacterId) -> Option<RelationshipState> {
    let i = rel_idx(c.relationships@, other);
    if i < c.relationships@.len() {
        Some(c.relationships@[i].1)
    } else {
        None
    }
}

/// All characters unchanged except possibly position `i`.
pub open spec fn chars_eq_except(cs0: Seq<Character>, cs1: Seq<Character>, i: int) -> bool {
    &&& cs1.len() == cs0.len()
    &&& forall|j: int| 0 <= j < cs0.len() && j != i ==> cs1[j] == #[trigger] cs0[j]
}

/// All fields equal except the `alive` flag, which becomes `v`.
pub open spec fn char_set_alive(c0: Character, c1: Character, v: bool) -> bool {
    &&& c1.id == c0.id
    &&& c1.name == c0.name
    &&& c1.current_timeline == c0.current_timeline
    &&& c1.native_timeline == c0.native_timeline
    &&& c1.memories == c0.memories
    &&& c1.knowledge_flags == c0.knowledge_flags
    &&& c1.alive == v
    &&& c1.abilities == c0.abilities
    &&& c1.relationships == c0.relationships
    &&& c1.emotional_state == c0.emotional_state
}

/// All fields equal except the relationship map.
pub open spec fn char_eq_except_relationships(c0: Character, c1: Character) -> bool {
    &&& c1.id == c0.id
    &&& c1.name == c0.name
    &&& c1.current_timeline == c0.current_timeline
    &&& c1.native_timeline == c0.native_timeline
    &&& c1.memories == c0.memories
    &&& c1.knowledge_flags == c0.knowledge_flags
    &&& c1.alive == c0.alive
    &&& c1.abilities == c0.abilities
    &&& c1.emotional_state == c0.emotional_state
}

/// All fields equal except the knowledge flags.
pub open spec fn char_eq_except_flags(c0: Character, c1: Character) -> bool {
    &&& c1.id == c0.id
    &&& c1.name == c0.name
    &&& c1.current_timeline == c0.current_timeline
    &&& c1.native_timeline == c0.native_timeline
    &&& c1.memories == c0.memories
    &&& c1.alive == c0.alive
    &&& c1.abilities == c0.abilities
    &&& c1.relationships == c0.relationships
    &&& c1.emotional_state == c0.emotional_state
}

/// All fields equal except the memory set.
pub open spec fn char_eq_except_memories(c0: Character, c1: Character) -> bool {
    &&& c1.id == c0.id
    &&& c1.name == c0.name
    &&& c1.current_timeline == c0.current_timeline
    &&& c1.native_timeline == c0.native_timeline
    &&& c1.knowledge_flags == c0.knowledge_flags
    &&& c1.alive == c0.alive
    &&& c1.abilities == c0.abilities
    &&& c1.relationships == c0.relationships
    &&& c1.emotional_state == c0.emotional_state
}

/// One half of a relationship change: the character's entry for `other`
/// becomes `st` and everything else is unchanged. [`effect_applied`]
/// applies the two halves only when both characters exist, so a change
/// naming any missing character is wholly a no-op.
pub open spec fn rel_half_applied(
    cs0: Seq<Character>,
    cs1: Seq<Character>,
    ch: CharacterId,
    other: CharacterId,
    st: RelationshipState,
) -> bool {
    if ch.0 < cs0.len() {
        let i = ch.0 as int;
        &&& chars_eq_except(cs0, cs1, i)
        &&& char_eq_except_relationships(cs0[i], cs1[i])
        &&& cs1[i].relationships@ == rel_insert(cs0[i].relationships@, other, st)
    } else {
        cs1 == cs0
    }
}

/// What a single effect does to the character table. Characters are
/// addressed by their dense id; a reference to a missing character makes
/// the effect a no-op.
pub open spec fn effect_applied(cs0: Seq<Character>, cs1: Seq<Character>, e: EventEffect)
    -> bool {
    match e {
        EventEffect::CharacterDeath { character } => {
            if character.0 < cs0.len() {
                let i = character.0 as int;
                &&& chars_eq_except(cs0, cs1, i)
                &&& char_set_alive(cs0[i], cs1[i], false)
            } else {
                cs1 == cs0
            }
        },
        EventEffect::CharacterResurrection { character, .. } => {
            if character.0 < cs0.len() {
                let i = character.0 as int;
                &&& chars_eq_except(cs0, cs1, i)
                &&& char_set_alive(cs0[i], cs1[i], true)
            } else {
                cs1 == cs0
            }
        },
        EventEffect::RelationshipChange { character1, character2, new_state } => {
            if character1.0 < cs0.len() && character2.0 < cs0.len() {
                exists|mid: Seq<Character>|
                    #[trigger] rel_half_applied(cs0, mid, character1, character2, new_state)
                        && rel_half_applied(mid, cs1, character2, character1, new_state)
            } else {
                cs1 == cs0
            }
        },
        EventEffect::KnowledgeGained { character, flag } => {
            if character.0 < cs0.len() {
                let i = character.0 as int;
                &&& chars_eq_except(cs0, cs1, i)
                &&& char_eq_except_flags(cs0[i], cs1[i])
                &&& cs1[i].knowledge_flags@ == flag_insert(cs0[i].knowledge_flags@, flag)
            } else {
                cs1 == cs0
            }
        },
        EventEffect::MemoryTransfer { memory, to, .. } => {
            if to.0 < cs0.len() {
                let i = to.0 as int;
                &&& chars_eq_except(cs0, cs1, i)
                &&& char_eq_except_memories(cs0[i], cs1[i])
                &&& cs1[i].memories@ == id_insert(cs0[i].memories@, memory)
            } else {
                cs1 == cs0
            }
        },
        EventEffect::TimelineBranch { .. } => cs1 == cs0,
        EventEffect::AppraisalTrigger { character, belief } => {
            if character.0 < cs0.len() {
                let i = character.0 as int;
                let r = do_updates(cs0[i].emotional_state.goals@, belief.affected_goal_names@,
                    belief.goal_congruences@, belief.likelihood, belief.is_incremental);
                &&& chars_eq_except(cs0, cs1, i)
                &&& char_core_eq(cs0[i], cs1[i])
                &&& cs1[i].emotional_state.goals@ == r.1
                &&& cs1[i].emotional_state.emotions@ == apply_updates(
                    cs0[i].emotional_state.emotions@, r.0)
                &&& cs1[i].emotional_state.gain == cs0[i].emotional_state.gain
            } else {
                cs1 == cs0
            }
        },
        EventEffect::AddGoal { character, goal } => {
            if character.0 < cs0.len() {
                let i = character.0 as int;
                &&& chars_eq_except(cs0, cs1, i)
                &&& char_core_eq(cs0[i], cs1[i])
                &&& cs1[i].emotional_state.goals@ == goal_seq_insert(
                    cs0[i].emotional_state.goals@, goal)
                &&& cs1[i].emotional_state.emotions == cs0[i].emotional_state.emotions
                &&& cs1[i].emotional_state.gain == cs0[i].emotional_state.gain
            } else {
                cs1 == cs0
            }
        },
    }
}

/// A list of effects applied in order, each independently.
pub open spec fn effects_applied(cs0: Seq<Character>, cs1: Seq<Character>,
    effects: Seq<EventEffect>) -> bool
    decreases effects.len(),
{
    if effects.len() == 0 {
        cs1 == cs0
    } else {
        exists|mid: Seq<Character>|
            #[trigger] effect_applied(cs0, mid, effects[0]) && effects_applied(mid, cs1,
                effects.drop_first())
    }
}

/// Appending one more applied effect extends an applied prefix.
proof fn lemma_effects_applied_snoc(
    cs0: Seq<Character>,
    mid: Seq<Character>,
    cs1: Seq<Character>,
    prefix: Seq<EventEffect>,
    e: EventEffect,
)
    requires
        effects_applied(cs0, mid, prefix),
        effect_applied(mid, cs1, e),
    ensures
        effects_applied(cs0, cs1, prefix.push(e)),
    decreases prefix.len(),
{
    if prefix.len() == 0 {
        assert(mid == cs0);
        assert(prefix.push(e)[0] == e);
        assert(prefix.push(e).drop_first() =~= Seq::<EventEffect>::empty());
        assert(effects_applied(cs1, cs1, prefix.push(e).drop_first()));
    } else {
        let m1 = choose|m1: Seq<Character>|
            #[trigger] effect_applied(cs0, m1, prefix[0]) && effects_applied(m1, mid,
                prefix.drop_first());
        lemma_effects_applied_snoc(m1, mid, cs1, prefix.drop_first(), e);
        assert(prefix.push(e)[0] == prefix[0]);
        assert(prefix.push(e).drop_first() =~= prefix.drop_first().push(e));
        assert(effect_applied(cs0, m1, prefix.push(e)[0]) && effects_applied(m1, cs1,
            prefix.push(e).drop_first()));
    }
}

impl Character {
    /// Set the relationship entry for a partner, replacing the first
    /// existing entry or appending a new one.
    pub(crate) fn upsert_relationship(&mut self, other: CharacterId, st: RelationshipState)
        ensures
            char_eq_except_relationships(*old(self), *final(self)),
            final(self).relationships@ == rel_insert(old(self).relationships@, other, st),
    {
        proof {
            lemma_rel_idx(self.relationships@, other);
        }
        let ghost r0 = self.relationships@;
        let n = self.relationships.len();
        let mut i: usize = 0;
        while i < n
            invariant
                n == self.relationships@.len(),
                0 <= i <= n,
                r0 == self.relationships@,
                r0 == old(self).relationships@,
                *self == *old(self),
                forall|j: int| 0 <= j < i ==> (#[trigger] self.relationships@[j]).0 != other,
            decreases n - i,
        {
            if self.relationships[i].0 == other {
                self.relationships.set(i, (other, st));
                proof {
                    lemma_rel_idx(r0, other);
                    assert(rel_idx(r0, other) == i);
                }
                return ;
            }
            i += 1;
        }
        proof {
            lemma_rel_idx(r0, other);
            assert(rel_idx(r0, other) == r0.len());
        }
        self.relationships.push((other, st));
        proof {
            assert(self.relationships@ == r0.push((other, st)));
            assert(rel_insert(r0, other, st) == r0.push((other, st)));
        }
    }

    /// Insert a knowledge flag if no equal flag is present.
    fn insert_flag(&mut self, flag: &String)
        ensures
            char_eq_except_flags(*old(self), *final(self)),
            final(self).knowledge_flags@ == flag_insert(old(self).knowledge_flags@, *flag),
    {
        let ghost f0 = self.knowledge_flags@;
        let n = self.knowledge_flags.len();
        let mut i: usize = 0;
        while i < n
            invariant
                n == self.knowledge_flags@.len(),
                0 <= i <= n,
                f0 == self.knowledge_flags@,
                f0 == old(self).knowledge_flags@,
                *self == *old(self),
                forall|j: int| 0 <= j < i ==> (#[trigger] self.knowledge_flags@[j])@ != flag@,
            decreases n - i,
        {
            if self.knowledge_flags[i] == *flag {
                return ;
            }
            i += 1;
        }
        self.knowledge_flags.push(flag.clone());
    }

    /// Insert a memory id if absent.
    pub(crate) fn insert_memory_id(&mut self, id: MemoryId)
        ensures
            char_eq_except_memories(*old(self), *final(self)),
            final(self).memories@ == id_insert(old(self).memories@, id),
    {
        let ghost m0 = self.memories@;
        let n = self.memories.len();
        let mut i: usize = 0;
        while i < n
            invariant
                n == self.memories@.len(),
                0 <= i <= n,
                m0 == self.memories@,
                m0 == old(self).memories@,
                *self == *old(self),
                forall|j: int| 0 <= j < i ==> #[trigger] self.memories@[j] != id,
            decreases n - i,
        {
            if self.memories[i] == id {
                proof {
                    assert(m0.contains(id));
                }
                return ;
            }
            i += 1;
        }
        proof {
            assert(!m0.contains(id));
        }
        self.memories.push(id);
    }
}

/// Dense character table: every character sits at its own id and carries a
/// well-formed emotional state.
pub open spec fn chars_wf(cs: Seq<Character>) -> bool {
    &&& forall|i: int| 0 <= i < cs.len() ==> (#[trigger] cs[i]).id == CharacterId(i as u64)
    &&& forall|i: int| 0 <= i < cs.len() ==> state_wf((#[trigger] cs[i]).emotional_state)
}

/// Apply one effect to the character table.
fn apply_one_effect(characters: &mut Vec<Character>, effect: &EventEffect)
    requires
        chars_wf(old(characters)@),
        match *effect {
            EventEffect::AppraisalTrigger { ref belief, .. } => belief_wf(*belief),
            EventEffect::AddGoal { ref goal, .. } => goal_wf(*goal),
            _ => true,
        },
    ensures
        effect_applied(old(characters)@, final(characters)@, *effect),
        chars_wf(final(characters)@),
        final(characters)@.len() == old(characters)@.len(),
{
    let ghost cs0 = characters@;
    match effect {
        EventEffect::CharacterDeath { character } => {
            let idx = character.0;
            if idx < characters.len() as u64 {
                characters[idx as usize].alive = false;
            }
        },
        EventEffect::CharacterResurrection { character, .. } => {
            let idx = character.0;
            if idx < characters.len() as u64 {
                characters[idx as usize].alive = true;
            }
        },
        EventEffect::RelationshipChange { character1, character2, new_state } => {
            let i1 = character1.0;
            let i2 = character2.0;
            if i1 < characters.len() as u64 && i2 < characters.len() as u64 {
                characters[i1 as usize].upsert_relationship(*character2, *new_state);
                let ghost mid = characters@;
                proof {
                    assert(rel_half_applied(cs0, mid, *character1, *character2, *new_state));
                }
                characters[i2 as usize].upsert_relationship(*character1, *new_state);
                proof {
                    assert(rel_half_applied(mid, characters@, *character2, *character1,
                        *new_state));
                }
            }
        },
        EventEffect::KnowledgeGained { character, flag } => {
            let idx = character.0;
            if idx < characters.len() as u64 {
                characters[idx as usize].insert_flag(flag);
            }
        },
        EventEffect::MemoryTransfer { memory, to, .. } => {
            let idx = to.0;
            if idx < characters.len() as u64 {
                characters[idx as usize].insert_memory_id(*memory);
            }
        },
        EventEffect::TimelineBranch { .. } => {},
        EventEffect::AppraisalTrigger { character, belief } => {
            let idx = character.0;
            if idx < characters.len() as u64 {
                characters[idx as usize].emotional_state.appraise(belief);
            }
        },
        EventEffect::AddGoal { character, goal } => {
            let idx = character.0;
            if idx < characters.len() as u64 {
                let owned = Goal {
                    name: goal.name.clone(),
                    utility: goal.utility,
                    likelihood: goal.likelihood,
                    is_maintenance: goal.is_maintenance,
                };
                characters[idx as usize].emotional_state.add_goal(owned);
            }
        },
    }
}

/// The stored copy of a recorded event: the input with the id overwritten.
pub open spec fn event_eq_except_id(stored: Event, input: Event, id: EventId) -> bool {
    &&& stored.id == id
    &&& stored.timeline == input.timeline
    &&& stored.description == input.description
    &&& stored.participants == input.participants
    &&& stored.effects == input.effects
    &&& stored.causality_violation == input.causality_violation
}

/// What one `record_event` call does: the event is stored under the next
/// id, its id joins the named timeline's event list when that timeline
/// exists, and its effects are applied to the characters in order.
pub open spec fn record_event_post(m0: Multiverse, m1: Multiverse, ev: Event, r: EventId)
    -> bool {
    &&& r == EventId(m0.events@.len() as u64)
    &&& m1.events@.len() == m0.events@.len() + 1
    &&& forall|j: int| 0 <= j < m0.events@.len() ==> m1.events@[j] == #[trigger] m0.events@[j]
    &&& event_eq_except_id(m1.events@.last(), ev, r)
    &&& ({
        let ti = timeline_idx(m0.timelines@, ev.timeline);
        if ti < m0.timelines@.len() {
            &&& m1.timelines@.len() == m0.timelines@.len()
            &&& forall|j: int|
                0 <= j < m0.timelines@.len() && j != ti ==> m1.timelines@[j]
                    == #[trigger] m0.timelines@[j]
            &&& m1.timelines@[ti].id == m0.timelines@[ti].id
            &&& m1.timelines@[ti].parent == m0.timelines@[ti].parent
            &&& m1.timelines@[ti].divergence_event == m0.timelines@[ti].divergence_event
            &&& m1.timelines@[ti].events@ == m0.timelines@[ti].events@.push(r)
            &&& m1.timelines@[ti].characters == m0.timelines@[ti].characters
            &&& m1.timelines@[ti].causality_stable == m0.timelines@[ti].causality_stable
        } else {
            m1.timelines == m0.timelines
        }
    })
    &&& effects_applied(m0.characters@, m1.characters@, ev.effects@)
    &&& m1.characters@.len() == m0.characters@.len()
    &&& m1.memories == m0.memories
    &&& m1.root_timeline == m0.root_timeline
    &&& m1.next_timeline_id == m0.next_timeline_id
    &&& m1.next_character_id == m0.next_character_id
    &&& m1.next_memory_id == m0.next_memory_id
    &&& m1.next_event_id == m0.next_event_id + 1
}

impl Multiverse {
    /// Record an event: assign it the next event id (overwriting any id on
    /// the input), append that id to the named timeline's event list if the
    /// timeline exists, apply all effects in order, and store the event.
    #[verifier::loop_isolation(false)]
    pub fn record_event(&mut self, event: Event) -> (r: EventId)
        requires
            old(self).wf(),
            event_wf(event),
            old(self).events@.len() < u64::MAX,
        ensures
            record_event_post(*old(self), *final(self), event, r),
            final(self).wf(),
    {
        let id = EventId(self.next_event_id);
        self.next_event_id = self.next_event_id + 1;
        let mut event = event;
        event.id = id;
        let slot = self.find_timeline(event.timeline);
        if let Some(ti) = slot {
            self.timelines[ti].events.push(id);
        }
        let ghost cs0 = self.characters@;
        let ghost tls = self.timelines;
        let ghost effects = event.effects@;
        let n = event.effects.len();
        let mut i: usize = 0;
        proof {
            assert(effects.take(0) =~= Seq::<EventEffect>::empty());
        }
        while i < n
            invariant
                event_wf(event),
                effects == event.effects@,
                n == effects.len(),
                0 <= i <= n,
                chars_wf(self.characters@),
                self.characters@.len() == cs0.len(),
                effects_applied(cs0, self.characters@, effects.take(i as int)),
                self.timelines == tls,
                self.memories == old(self).memories,
                self.events == old(self).events,
                self.root_timeline == old(self).root_timeline,
                self.next_timeline_id == old(self).next_timeline_id,
                self.next_character_id == old(self).next_character_id,
                self.next_memory_id == old(self).next_memory_id,
                self.next_event_id == old(self).next_event_id + 1,
            decreases n - i,
        {
            let ghost pre = self.characters@;
            apply_one_effect(&mut self.characters, &event.effects[i]);
            proof {
                lemma_effects_applied_snoc(cs0, pre, self.characters@, effects.take(i as int),
                    effects[i as int]);
                assert(effects.take(i as int).push(effects[i as int]) =~= effects.take(
                    i as int + 1));
            }
            i += 1;
        }
        proof {
            assert(effects.take(n as int) =~= effects);
        }
        self.events.push(event);
        id
    }
}

impl Default for Multiverse {
    /// The default store is a fresh one.
    fn default() -> (r: Multiverse)
        ensures
            r.wf(),
            r.timelines@.len() == 1,
            r.characters@.len() == 0,
            r.memories@.len() == 0,
            r.events@.len() == 0,
            r.root_timeline == TimelineId(0),
    {
        Multiverse::new()
    }
}

// ---------------------------------------------------------------------------
// Store laws
// ---------------------------------------------------------------------------

/// Knowledge idempotence: granting a flag twice is the same as granting it
/// once, and granting it to an empty set yields exactly one flag.
pub proof fn lemma_flag_insert_idempotent(s: Seq<String>, flag: String)
    ensures
        flag_insert(flag_insert(s, flag), flag) == flag_insert(s, flag),
        flag_insert(Seq::<String>::empty(), flag).len() == 1,
{
    let s1 = flag_insert(s, flag);
    if exists|j: int| 0 <= j < s.len() && (#[trigger] s[j])@ == flag@ {
        assert(s1 == s);
    } else {
        assert(s1 == s.push(flag));
        assert(s1[s.len() as int]@ == flag@);
    }
    assert(exists|j: int| 0 <= j < s1.len() && (#[trigger] s1[j])@ == flag@);
    let e = Seq::<String>::empty();
    assert(!(exists|j: int| 0 <= j < e.len() && (#[trigger] e[j])@ == flag@));
}

/// Id monotonicity: two successive character creations on one store hand
/// out strictly increasing ids, starting at zero on a store that has no
/// characters yet.
pub proof fn lemma_character_ids_monotonic(
    m0: Multiverse,
    m1: Multiverse,
    m2: Multiverse,
    name1: String,
    timeline1: TimelineId,
    r1: CharacterId,
    name2: String,
    timeline2: TimelineId,
    r2: CharacterId,
)
    requires
        m0.characters@.len() + 1 <= u64::MAX,
        create_character_post(m0, m1, name1, timeline1, r1),
        create_character_post(m1, m2, name2, timeline2, r2),
    ensures
        r2.0 == r1.0 + 1,
        m0.characters@.len() == 0 ==> r1 == CharacterId(0),
{
}

/// The relationship entry for the inserted partner is the inserted state.
proof fn lemma_rel_insert_lookup(
    r: Seq<(CharacterId, RelationshipState)>,
    other: CharacterId,
    st: RelationshipState,
)
    ensures
        ({
            let r2 = rel_insert(r, other, st);
            &&& rel_idx(r2, other) < r2.len()
            &&& r2[rel_idx(r2, other)] == (other, st)
        }),
{
    lemma_rel_idx(r, other);
    let i = rel_idx(r, other);
    let r2 = rel_insert(r, other, st);
    lemma_rel_idx(r2, other);
    let i2 = rel_idx(r2, other);
    if i < r.len() {
        assert(r2 == r.update(i, (other, st)));
        assert(r2[i].0 == other);
        assert(i2 <= i);
        if i2 < i {
            assert(r2[i2] == r[i2]);
            assert(false);
        }
    } else {
        assert(r2 == r.push((other, st)));
        assert(r2[r.len() as int].0 == other);
        assert(i2 <= r.len());
        if i2 < r.len() {
            assert(r2[i2] == r[i2]);
            assert(false);
        }
    }
}

/// Relationship symmetry: after a relationship-change effect between two
/// existing characters, each one's entry for the other is exactly the new
/// state.
pub proof fn lemma_relationship_symmetry(
    cs0: Seq<Character>,
    cs1: Seq<Character>,
    character1: CharacterId,
    character2: CharacterId,
    new_state: RelationshipState,
)
    requires
        effect_applied(cs0, cs1,
            EventEffect::RelationshipChange { character1, character2, new_state }),
        character1.0 < cs0.len(),
        character2.0 < cs0.len(),
    ensures
        rel_lookup(cs1[character1.0 as int], character2) == Some(new_state),
        rel_lookup(cs1[character2.0 as int], character1) == Some(new_state),
{
    let mid = choose|mid: Seq<Character>|
        #[trigger] rel_half_applied(cs0, mid, character1, character2, new_state)
            && rel_half_applied(mid, cs1, character2, character1, new_state);
    let i1 = character1.0 as int;
    let i2 = character2.0 as int;
    lemma_rel_insert_lookup(mid[i2].relationships@, character1, new_state);
    if character1 == character2 {
        assert(rel_lookup(cs1[i1], character2) == Some(new_state));
    } else {
        assert(cs1[i1] == mid[i1]);
        lemma_rel_insert_lookup(cs0[i1].relationships@, character2, new_state);
        assert(rel_lookup(cs1[i1], character2) == Some(new_state));
        assert(rel_lookup(cs1[i2], character1) == Some(new_state));
    }
}

} // verus!
