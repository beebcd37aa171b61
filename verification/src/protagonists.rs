//! The thirteen protagonists: their profiles, starting abilities and
//! goals, and the helpers that install them into a store.

use vstd::prelude::*;

use crate::emotional_system::{goal_wf, state_wf, Goal};
use crate::narrative_core::{
    char_eq_except_relationships, effect_applied, rel_half_applied, Ability, CharacterId,
    EventEffect, Multiverse, RelationshipState,
};

verus! {

/// A protagonist's static profile: name, title, blurb, starting abilities,
/// narrative role and starting goals.
#[derive(Debug, Clone)]
pub struct ProtagonistProfile {
    pub name: &'static str,
    pub title: &'static str,
    pub description: &'static str,
    pub starting_abilities: Vec<Ability>,
    pub narrative_role: NarrativeRole,
    pub starting_goals: Vec<Goal>,
}

/// Narrative roles that shape how each protagonist bends the story rules.
#[derive(Debug, Clone, Copy, PartialEq, Eq, Structural)]
pub enum NarrativeRole {
    /// Can navigate timeline branches.
    TimelineNavigator,
    /// Trades and manipulates memories.
    MemoryManipulator,
    /// Predicts and calculates futures.
    FutureSeer,
    /// Exists outside normal causality.
    CausalityAnomaly,
    /// Interfaces with the lattice network.
    LatticeInterface,
    /// Exists in superposition.
    QuantumEntity,
    /// Manipulates causality directly.
    CausalityManipulator,
    /// Records and preserves history.
    HistoryKeeper,
    /// A distributed consciousness.
    CollectiveEntity,
    /// Sees contradictory futures.
    PrecognitiveOracle,
    /// Displaced from their proper time.
    TemporalExile,
    /// Hacks spacetime directly.
    RealityHacker,
    /// A multiversal coordinator.
    UniversalNexus,
}

/// A profile is well-formed: all its starting goals are in range.
pub open spec fn profile_wf(p: ProtagonistProfile) -> bool {
    forall|g: int| 0 <= g < p.starting_goals@.len() ==> goal_wf(#[trigger] p.starting_goals@[g])
}

/// Name of the protagonist at each position of the introduction order.
pub open spec fn spec_protagonist_name(k: int) -> Seq<char> {
    if k == 0 {
        "Vera Kandros"@
    } else if k == 1 {
        "Khelis Tev"@
    } else if k == 2 {
        "Dr. Elian Saros"@
    } else if k == 3 {
        "Nameless"@
    } else if k == 4 {
        "Corvus Shal"@
    } else if k == 5 {
        "Yash-Tel"@
    } else if k == 6 {
        "Riven Blackwood"@
    } else if k == 7 {
        "The Cartographer"@
    } else if k == 8 {
        "Synthesis"@
    } else if k == 9 {
        "Mara Vex"@
    } else if k == 10 {
        "Kor-Valeth"@
    } else if k == 11 {
        "Dr. Theo Lux"@
    } else if k == 12 {
        "The Conductor"@
    } else {
        Seq::empty()
    }
}

/// Starting abilities of the protagonist at each position.
pub open spec fn spec_protagonist_abilities(k: int) -> Seq<Ability> {
    if k == 0 {
        seq![Ability::TimelinePerception]
    } else if k == 2 {
        seq![Ability::Precognition]
    } else if k == 3 {
        seq![Ability::TimelinePerception, Ability::LoopMemory]
    } else if k == 5 {
        seq![Ability::TimelinePerception]
    } else if k == 6 {
        seq![Ability::CausalityHacking]
    } else if k == 7 {
        seq![Ability::MemoryImmunity, Ability::LoopMemory]
    } else if k == 9 {
        seq![Ability::Precognition]
    } else if k == 11 {
        seq![Ability::CausalityHacking]
    } else if k == 12 {
        seq![
            Ability::TimelinePerception,
            Ability::Precognition,
            Ability::MemoryImmunity,
            Ability::LoopMemory,
        ]
    } else {
        Seq::empty()
    }
}

/// The single starting goal of the protagonist at each position: name,
/// utility in thousandths, and the maintenance flag.
pub open spec fn spec_protagonist_goal(k: int) -> (Seq<char>, int, bool) {
    if k == 0 {
        ("Protect Crew"@, 1000int, true)
    } else if k == 1 {
        ("Acquire Unique Memories"@, 700int, false)
    } else if k == 2 {
        ("Predict Great Incoherence"@, 900int, false)
    } else if k == 3 {
        ("Find Origin"@, 800int, false)
    } else if k == 4 {
        ("Harmonize Lattice"@, 600int, true)
    } else if k == 5 {
        ("Maintain Coherence"@, 1000int, true)
    } else if k == 6 {
        ("Survive Future Self"@, 1000int, true)
    } else if k == 7 {
        ("Map All Dead Zones"@, 800int, false)
    } else if k == 8 {
        ("Achieve Individualism"@, 500int, false)
    } else if k == 9 {
        ("Find True Future"@, 900int, false)
    } else if k == 10 {
        ("Return to Past"@, 1000int, false)
    } else if k == 11 {
        ("Rewrite Reality"@, 700int, false)
    } else if k == 12 {
        ("Prevent Ring Collapse"@, 1000int, true)
    } else {
        (Seq::empty(), 0int, false)
    }
}

/// A profile matches the catalog entry at position `k`: same name, the
/// exact ability list, and exactly the one fresh starting goal.
pub open spec fn profile_matches(p: ProtagonistProfile, k: int) -> bool {
    &&& p.name@ == spec_protagonist_name(k)
    &&& p.starting_abilities@ == spec_protagonist_abilities(k)
    &&& p.starting_goals@.len() == 1
    &&& p.starting_goals@[0].name@ == spec_protagonist_goal(k).0
    &&& p.starting_goals@[0].utility == spec_protagonist_goal(k).1
    &&& p.starting_goals@[0].likelihood == 500
    &&& p.starting_goals@[0].is_maintenance == spec_protagonist_goal(k).2
}

/// No catalog entry lists an ability twice.
proof fn lemma_catalog_abilities_distinct(k: int)
    ensures
        forall|a: int, b: int|
            0 <= a < b < spec_protagonist_abilities(k).len()
                ==> spec_protagonist_abilities(k)[a] != spec_protagonist_abilities(k)[b],
{
}

/// The thirteen protagonist names, in the order they are introduced.
pub fn protagonist_names() -> (r: Vec<&'static str>)
    ensures
        r@.len() == 13,
        forall|k: int| 0 <= k < 13 ==> (#[trigger] r@[k])@ == spec_protagonist_name(k),
{
    let mut names: Vec<&'static str> = Vec::new();
    names.push("Vera Kandros");
    names.push("Khelis Tev");
    names.push("Dr. Elian Saros");
    names.push("Nameless");
    names.push("Corvus Shal");
    names.push("Yash-Tel");
    names.push("Riven Blackwood");
    names.push("The Cartographer");
    names.push("Synthesis");
    names.push("Mara Vex");
    names.push("Kor-Valeth");
    names.push("Dr. Theo Lux");
    names.push("The Conductor");
    names
}

/// The detailed profiles of the thirteen protagonists, in introduction
/// order.
pub fn protagonist_profiles() -> (r: Vec<ProtagonistProfile>)
    ensures
        r@.len() == 13,
        forall|i: int| 0 <= i < 13 ==> profile_wf(#[trigger] r@[i]),
        r@[0].name@ == "Vera Kandros"@,
        r@[1].name@ == "Khelis Tev"@,
        r@[2].name@ == "Dr. Elian Saros"@,
        r@[3].name@ == "Nameless"@,
        r@[4].name@ == "Corvus Shal"@,
        r@[5].name@ == "Yash-Tel"@,
        r@[6].name@ == "Riven Blackwood"@,
        r@[7].name@ == "The Cartographer"@,
        r@[8].name@ == "Synthesis"@,
        r@[9].name@ == "Mara Vex"@,
        r@[10].name@ == "Kor-Valeth"@,
        r@[11].name@ == "Dr. Theo Lux"@,
        r@[12].name@ == "The Conductor"@,
        r@[0].starting_abilities@.contains(Ability::TimelinePerception),
        r@[3].starting_abilities@.contains(Ability::TimelinePerception),
        r@[3].starting_abilities@.contains(Ability::LoopMemory),
        forall|i: int| 0 <= i < 13 ==> profile_matches(#[trigger] r@[i], i),
{
    let mut profiles: Vec<ProtagonistProfile> = Vec::new();
    let mut a0: Vec<Ability> = Vec::new();
    a0.push(Ability::TimelinePerception);
    let mut g0: Vec<Goal> = Vec::new();
    g0.push(Goal::new("Protect Crew".to_owned(), 1000, true));
    profiles.push(ProtagonistProfile {
        name: "Vera Kandros",
        title: "The Fold Captain",
        description: "Captain of the Errant Promise; experiences every branch of her decisions at once.",
        starting_abilities: a0,
        narrative_role: NarrativeRole::TimelineNavigator,
        starting_goals: g0,
    });
    let mut g1: Vec<Goal> = Vec::new();
    g1.push(Goal::new("Acquire Unique Memories".to_owned(), 700, false));
    profiles.push(ProtagonistProfile {
        name: "Khelis Tev",
        title: "The Memory Merchant",
        description: "Memory broker of the Dark Spoke; remembers things that never happened to them.",
        starting_abilities: Vec::new(),
        narrative_role: NarrativeRole::MemoryManipulator,
        starting_goals: g1,
    });
    let mut a2: Vec<Ability> = Vec::new();
    a2.push(Ability::Precognition);
    let mut g2: Vec<Goal> = Vec::new();
    g2.push(Goal::new("Predict Great Incoherence".to_owned(), 900, false));
    profiles.push(ProtagonistProfile {
        name: "Dr. Elian Saros",
        title: "The Probabilist",
        description: "Mathematician who models the Ring's future as probability clouds.",
        starting_abilities: a2,
        narrative_role: NarrativeRole::FutureSeer,
        starting_goals: g2,
    });
    let mut a3: Vec<Ability> = Vec::new();
    a3.push(Ability::TimelinePerception);
    a3.push(Ability::LoopMemory);
    let mut g3: Vec<Goal> = Vec::new();
    g3.push(Goal::new("Find Origin".to_owned(), 800, false));
    profiles.push(ProtagonistProfile {
        name: "Nameless",
        title: "The Gateborn",
        description: "A drifter whose past the Gates have altered so often they stand outside causality.",
        starting_abilities: a3,
        narrative_role: NarrativeRole::CausalityAnomaly,
        starting_goals: g3,
    });
    let mut g4: Vec<Goal> = Vec::new();
    g4.push(Goal::new("Harmonize Lattice".to_owned(), 600, true));
    profiles.push(ProtagonistProfile {
        name: "Corvus Shal",
        title: "The Lattice Singer",
        description: "Ansible operator chosen as the network's voice to the physical world.",
        starting_abilities: Vec::new(),
        narrative_role: NarrativeRole::LatticeInterface,
        starting_goals: g4,
    });
    let mut a5: Vec<Ability> = Vec::new();
    a5.push(Ability::TimelinePerception);
    let mut g5: Vec<Goal> = Vec::new();
    g5.push(Goal::new("Maintain Coherence".to_owned(), 1000, true));
    profiles.push(ProtagonistProfile {
        name: "Yash-Tel",
        title: "The Shimmer Navigator",
        description: "Pilot in superposition even at rest, slowly merging with parallel selves.",
        starting_abilities: a5,
        narrative_role: NarrativeRole::QuantumEntity,
        starting_goals: g5,
    });
    let mut a6: Vec<Ability> = Vec::new();
    a6.push(Ability::CausalityHacking);
    let mut g6: Vec<Goal> = Vec::new();
    g6.push(Goal::new("Survive Future Self".to_owned(), 1000, true));
    profiles.push(ProtagonistProfile {
        name: "Riven Blackwood",
        title: "The Gunslinger",
        description: "Bounty hunter whose revolver fires backward through time; hunted by their future self.",
        starting_abilities: a6,
        narrative_role: NarrativeRole::CausalityManipulator,
        starting_goals: g6,
    });
    let mut a7: Vec<Ability> = Vec::new();
    a7.push(Ability::MemoryImmunity);
    a7.push(Ability::LoopMemory);
    let mut g7: Vec<Goal> = Vec::new();
    g7.push(Goal::new("Map All Dead Zones".to_owned(), 800, false));
    profiles.push(ProtagonistProfile {
        name: "The Cartographer",
        title: "The Ring Historian",
        description: "Maps dead zones and causality failures; remembers the original timeline.",
        starting_abilities: a7,
        narrative_role: NarrativeRole::HistoryKeeper,
        starting_goals: g7,
    });
    let mut g8: Vec<Goal> = Vec::new();
    g8.push(Goal::new("Achieve Individualism".to_owned(), 500, false));
    profiles.push(ProtagonistProfile {
        name: "Synthesis",
        title: "The Hybrid Consciousness",
        description: "Seven bodies, one mind, connected through illegal neural lace and diverging.",
        starting_abilities: Vec::new(),
        narrative_role: NarrativeRole::CollectiveEntity,
        starting_goals: g8,
    });
    let mut a9: Vec<Ability> = Vec::new();
    a9.push(Ability::Precognition);
    let mut g9: Vec<Goal> = Vec::new();
    g9.push(Goal::new("Find True Future".to_owned(), 900, false));
    profiles.push(ProtagonistProfile {
        name: "Mara Vex",
        title: "The Precognitive",
        description: "Afflicted with flashes of contradictory futures she cannot tell apart.",
        starting_abilities: a9,
        narrative_role: NarrativeRole::PrecognitiveOracle,
        starting_goals: g9,
    });
    let mut g10: Vec<Goal> = Vec::new();
    g10.push(Goal::new("Return to Past".to_owned(), 1000, false));
    profiles.push(ProtagonistProfile {
        name: "Kor-Valeth",
        title: "The Time-Exiled Warrior",
        description: "A warrior pulled a thousand years out of their proper time.",
        starting_abilities: Vec::new(),
        narrative_role: NarrativeRole::TemporalExile,
        starting_goals: g10,
    });
    let mut a11: Vec<Ability> = Vec::new();
    a11.push(Ability::CausalityHacking);
    let mut g11: Vec<Goal> = Vec::new();
    g11.push(Goal::new("Rewrite Reality".to_owned(), 700, false));
    profiles.push(ProtagonistProfile {
        name: "Dr. Theo Lux",
        title: "The Reality Hacker",
        description: "Rogue physicist who treats spacetime like code.",
        starting_abilities: a11,
        narrative_role: NarrativeRole::RealityHacker,
        starting_goals: g11,
    });
    let mut a12: Vec<Ability> = Vec::new();
    a12.push(Ability::TimelinePerception);
    a12.push(Ability::Precognition);
    a12.push(Ability::MemoryImmunity);
    a12.push(Ability::LoopMemory);
    let mut g12: Vec<Goal> = Vec::new();
    g12.push(Goal::new("Prevent Ring Collapse".to_owned(), 1000, true));
    profiles.push(ProtagonistProfile {
        name: "The Conductor",
        title: "The Mysterious Unifier",
        description: "Appears differently to everyone and exists in every timeline at once.",
        starting_abilities: a12,
        narrative_role: NarrativeRole::UniversalNexus,
        starting_goals: g12,
    });
    proof {
        assert(profiles@[0].starting_abilities@[0] == Ability::TimelinePerception);
        assert(profiles@[3].starting_abilities@[0] == Ability::TimelinePerception);
        assert(profiles@[3].starting_abilities@[1] == Ability::LoopMemory);
        assert(profiles@[0].starting_abilities@ =~= spec_protagonist_abilities(0));
        assert(profiles@[1].starting_abilities@ =~= spec_protagonist_abilities(1));
        assert(profiles@[2].starting_abilities@ =~= spec_protagonist_abilities(2));
        assert(profiles@[3].starting_abilities@ =~= spec_protagonist_abilities(3));
        assert(profiles@[4].starting_abilities@ =~= spec_protagonist_abilities(4));
        assert(profiles@[5].starting_abilities@ =~= spec_protagonist_abilities(5));
        assert(profiles@[6].starting_abilities@ =~= spec_protagonist_abilities(6));
        assert(profiles@[7].starting_abilities@ =~= spec_protagonist_abilities(7));
        assert(profiles@[8].starting_abilities@ =~= spec_protagonist_abilities(8));
        assert(profiles@[9].starting_abilities@ =~= spec_protagonist_abilities(9));
        assert(profiles@[10].starting_abilities@ =~= spec_protagonist_abilities(10));
        assert(profiles@[11].starting_abilities@ =~= spec_protagonist_abilities(11));
        assert(profiles@[12].starting_abilities@ =~= spec_protagonist_abilities(12));
        assert forall|i: int| 0 <= i < 13 implies profile_matches(#[trigger] profiles@[i], i)
            by {}
    }
    profiles
}

/// A character as `create_thirteen_protagonists` installs it: the catalog
/// entry at position `k`, alive and otherwise fresh, native to the given
/// timeline.
pub open spec fn installed_protagonist(c: crate::narrative_core::Character, k: int,
    id: CharacterId, timeline: crate::narrative_core::TimelineId) -> bool {
    &&& c.id == id
    &&& c.name@ == spec_protagonist_name(k)
    &&& c.current_timeline == timeline
    &&& c.native_timeline == timeline
    &&& c.memories@.len() == 0
    &&& c.knowledge_flags@.len() == 0
    &&& c.alive
    &&& c.relationships@.len() == 0
    &&& c.abilities@ == spec_protagonist_abilities(k)
    &&& c.emotional_state.goals@.len() == 1
    &&& c.emotional_state.goals@[0].name@ == spec_protagonist_goal(k).0
    &&& c.emotional_state.goals@[0].utility == spec_protagonist_goal(k).1
    &&& c.emotional_state.goals@[0].likelihood == 500
    &&& c.emotional_state.goals@[0].is_maintenance == spec_protagonist_goal(k).2
    &&& c.emotional_state.emotions@.len() == 0
    &&& c.emotional_state.gain == 1000
}

/// Install the thirteen protagonists into the store's root timeline with
/// their starting abilities and goals, returning their ids in order. Every
/// new character is exactly the catalog entry at its position; existing
/// characters are untouched.
#[verifier::loop_isolation(false)]
pub fn create_thirteen_protagonists(multiverse: &mut Multiverse) -> (r: Vec<CharacterId>)
    requires
        old(multiverse).wf(),
        old(multiverse).characters@.len() + 13 < u64::MAX,
    ensures
        final(multiverse).wf(),
        r@.len() == 13,
        final(multiverse).characters@.len() == old(multiverse).characters@.len() + 13,
        forall|k: int|
            0 <= k < 13 ==> r@[k] == CharacterId((old(multiverse).characters@.len() + k) as u64),
        forall|j: int|
            0 <= j < old(multiverse).characters@.len() ==> final(multiverse).characters@[j]
                == #[trigger] old(multiverse).characters@[j],
        forall|k: int|
            0 <= k < 13 ==> installed_protagonist(
                #[trigger] final(multiverse).characters@[old(multiverse).characters@.len() + k],
                k, r@[k], old(multiverse).root_timeline),
        final(multiverse).root_timeline == old(multiverse).root_timeline,
{
    let timeline = multiverse.root_timeline;
    let mut ids: Vec<CharacterId> = Vec::new();
    let profiles = protagonist_profiles();
    let ghost len0 = multiverse.characters@.len();
    let n = profiles.len();
    let mut i: usize = 0;
    while i < n
        invariant
            n == 13,
            0 <= i <= n,
            multiverse.wf(),
            multiverse.characters@.len() == len0 + i,
            multiverse.root_timeline == old(multiverse).root_timeline,
            timeline == old(multiverse).root_timeline,
            ids@.len() == i,
            forall|k: int| 0 <= k < i ==> ids@[k] == CharacterId((len0 + k) as u64),
            forall|j: int|
                0 <= j < len0 ==> multiverse.characters@[j] == #[trigger] old(
                    multiverse).characters@[j],
            forall|k: int|
                0 <= k < i ==> installed_protagonist(
                    #[trigger] multiverse.characters@[len0 + k], k, ids@[k], timeline),
            forall|k: int| 0 <= k < 13 ==> profile_matches(#[trigger] profiles@[k], k),
            forall|k: int| 0 <= k < 13 ==> profile_wf(#[trigger] profiles@[k]),
        decreases n - i,
    {
        let profile = &profiles[i];
        let ghost before = *multiverse;
        let char_id = multiverse.create_character(profile.name.to_owned(), timeline);
        let idx = multiverse.characters.len() - 1;
        proof {
            assert(idx == len0 + i);
            assert(char_id == CharacterId(idx as u64));
            assert(profile_matches(profiles@[i as int], i as int));
            assert forall|j: int| 0 <= j < len0 implies multiverse.characters@[j]
                == #[trigger] old(multiverse).characters@[j] by {
                assert(multiverse.characters@[j] == before.characters@[j]);
            }
            assert forall|k: int| 0 <= k < i implies installed_protagonist(
                #[trigger] multiverse.characters@[len0 + k], k, ids@[k], timeline) by {
                assert(multiverse.characters@[len0 + k] == before.characters@[len0 + k]);
            }
            assert(multiverse.characters@[idx as int].abilities@
                =~= profiles@[i as int].starting_abilities@.take(0));
            lemma_catalog_abilities_distinct(i as int);
        }
        let na = profile.starting_abilities.len();
        let mut a: usize = 0;
        while a < na
            invariant
                0 <= a <= na,
                na == profiles@[i as int].starting_abilities@.len(),
                *profile == profiles@[i as int],
                multiverse.wf(),
                multiverse.characters@.len() == len0 + i + 1,
                multiverse.root_timeline == old(multiverse).root_timeline,
                forall|j: int|
                    0 <= j < len0 ==> multiverse.characters@[j] == #[trigger] old(
                        multiverse).characters@[j],
                forall|k: int|
                    0 <= k < i ==> installed_protagonist(
                        #[trigger] multiverse.characters@[len0 + k], k, ids@[k], timeline),
                ({
                    let c = multiverse.characters@[idx as int];
                    &&& c.id == char_id
                    &&& c.name@ == spec_protagonist_name(i as int)
                    &&& c.current_timeline == timeline
                    &&& c.native_timeline == timeline
                    &&& c.memories@.len() == 0
                    &&& c.knowledge_flags@.len() == 0
                    &&& c.alive
                    &&& c.relationships@.len() == 0
                    &&& c.abilities@ == profiles@[i as int].starting_abilities@.take(a as int)
                    &&& c.emotional_state.goals@.len() == 0
                    &&& c.emotional_state.emotions@.len() == 0
                    &&& c.emotional_state.gain == 1000
                }),
            decreases na - a,
        {
            let ability = profile.starting_abilities[a];
            let ghost pre = *multiverse;
            let present = {
                let c = &multiverse.characters[idx];
                let nn = c.abilities.len();
                let mut j: usize = 0;
                let mut found: bool = false;
                while j < nn && !found
                    invariant
                        0 <= j <= nn,
                        nn == c.abilities@.len(),
                        *c == multiverse.characters@[idx as int],
                        *multiverse == pre,
                        found ==> exists|j2: int|
                            0 <= j2 < nn && #[trigger] c.abilities@[j2] == ability,
                    decreases nn - j + if found {
                        0int
                    } else {
                        1int
                    },
                {
                    if c.abilities[j] == ability {
                        proof {
                            assert(c.abilities@[j as int] == ability);
                        }
                        found = true;
                    } else {
                        j += 1;
                    }
                }
                found
            };
            proof {
                // the catalog lists no ability twice, so it cannot be
                // present among the ones already installed
                assert(!present) by {
                    if present {
                        let j2 = choose|j2: int|
                            0 <= j2 < multiverse.characters@[idx as int].abilities@.len()
                                && multiverse.characters@[idx as int].abilities@[j2] == ability;
                        assert(profiles@[i as int].starting_abilities@.take(a as int)[j2]
                            == profiles@[i as int].starting_abilities@[j2]);
                        assert(profiles@[i as int].starting_abilities@[j2]
                            == profiles@[i as int].starting_abilities@[a as int]);
                        assert(spec_protagonist_abilities(i as int)[j2]
                            == spec_protagonist_abilities(i as int)[a as int]);
                    }
                }
            }
            if !present {
                multiverse.characters[idx].abilities.push(ability);
                proof {
                    assert(multiverse.characters@[idx as int].abilities@
                        =~= profiles@[i as int].starting_abilities@.take(a as int + 1));
                }
            }
            a += 1;
        }
        proof {
            assert(profiles@[i as int].starting_abilities@.take(na as int)
                =~= profiles@[i as int].starting_abilities@);
        }
        let ng = profile.starting_goals.len();
        proof {
            assert(ng == 1);
        }
        let mut g: usize = 0;
        while g < ng
            invariant
                0 <= g <= ng,
                ng == 1,
                *profile == profiles@[i as int],
                multiverse.wf(),
                multiverse.characters@.len() == len0 + i + 1,
                multiverse.root_timeline == old(multiverse).root_timeline,
                forall|j: int|
                    0 <= j < len0 ==> multiverse.characters@[j] == #[trigger] old(
                        multiverse).characters@[j],
                forall|k: int|
                    0 <= k < i ==> installed_protagonist(
                        #[trigger] multiverse.characters@[len0 + k], k, ids@[k], timeline),
                ({
                    let c = multiverse.characters@[idx as int];
                    &&& c.id == char_id
                    &&& c.name@ == spec_protagonist_name(i as int)
                    &&& c.current_timeline == timeline
                    &&& c.native_timeline == timeline
                    &&& c.memories@.len() == 0
                    &&& c.knowledge_flags@.len() == 0
                    &&& c.alive
                    &&& c.relationships@.len() == 0
                    &&& c.abilities@ == spec_protagonist_abilities(i as int)
                    &&& c.emotional_state.goals@.len() == g
                    &&& (g == 1 ==> {
                        let gl = c.emotional_state.goals@[0];
                        &&& gl.name@ == spec_protagonist_goal(i as int).0
                        &&& gl.utility == spec_protagonist_goal(i as int).1
                        &&& gl.likelihood == 500
                        &&& gl.is_maintenance == spec_protagonist_goal(i as int).2
                    })
                    &&& c.emotional_state.emotions@.len() == 0
                    &&& c.emotional_state.gain == 1000
                }),
            decreases ng - g,
        {
            let goal = {
                let src = &profile.starting_goals[g];
                Goal {
                    name: src.name.clone(),
                    utility: src.utility,
                    likelihood: src.likelihood,
                    is_maintenance: src.is_maintenance,
                }
            };
            proof {
                assert(goal_wf(profiles@[i as int].starting_goals@[g as int]));
                assert(state_wf(multiverse.characters@[idx as int].emotional_state));
            }
            multiverse.characters[idx].emotional_state.add_goal(goal);
            proof {
                assert forall|k: int| 0 <= k < multiverse.characters@.len() implies (
                #[trigger] multiverse.characters@[k]).id == CharacterId(k as u64) && state_wf(
                    multiverse.characters@[k].emotional_state) by {}
            }
            g += 1;
        }
        proof {
            assert(installed_protagonist(multiverse.characters@[len0 + i], i as int, char_id,
                timeline));
        }
        ids.push(char_id);
        i += 1;
    }
    ids
}

/// One store differs from another exactly by a symmetric relationship
/// change between the two named characters (both sides set to the state
/// when both exist, nothing at all when either is missing); nothing else
/// moves.
pub open spec fn symmetric_rel_set(
    m0: Multiverse,
    m1: Multiverse,
    c1: CharacterId,
    c2: CharacterId,
    state: RelationshipState,
) -> bool {
    &&& effect_applied(m0.characters@, m1.characters@,
        EventEffect::RelationshipChange { character1: c1, character2: c2, new_state: state })
    &&& m1.timelines == m0.timelines
    &&& m1.memories == m0.memories
    &&& m1.events == m0.events
    &&& m1.root_timeline == m0.root_timeline
    &&& m1.next_timeline_id == m0.next_timeline_id
    &&& m1.next_character_id == m0.next_character_id
    &&& m1.next_memory_id == m0.next_memory_id
    &&& m1.next_event_id == m0.next_event_id
}

/// One guarded step of the starting-relationship setup: when at least
/// `min_len` ids were given, the ids at positions `a` and `b` get the
/// symmetric state; otherwise nothing happens.
pub open spec fn rel_init_step(
    m0: Multiverse,
    m1: Multiverse,
    ids: Seq<CharacterId>,
    a: int,
    b: int,
    state: RelationshipState,
    min_len: int,
) -> bool {
    if ids.len() >= min_len {
        symmetric_rel_set(m0, m1, ids[a], ids[b], state)
    } else {
        m1 == m0
    }
}

/// Install the protagonists' starting relationships, in order: Vera and
/// Corvus allied, Khelis and the Cartographer distrustful, Saros and Lux
/// hostile, Nameless and the Conductor neutral, Synthesis and the
/// Cartographer friendly, Mara and Corvus friendly — each pair only when
/// enough ids are given.
pub fn initialize_relationships(multiverse: &mut Multiverse, char_ids: &Vec<CharacterId>)
    requires
        old(multiverse).wf(),
    ensures
        final(multiverse).wf(),
        exists|m1: Multiverse, m2: Multiverse, m3: Multiverse, m4: Multiverse, m5: Multiverse|
            #![trigger rel_init_step(*old(multiverse), m1, char_ids@, 0, 4,
                RelationshipState::Allied, 5), rel_init_step(m1, m2, char_ids@, 1, 7,
                RelationshipState::Distrustful, 8), rel_init_step(m2, m3, char_ids@, 2, 11,
                RelationshipState::Hostile, 12), rel_init_step(m3, m4, char_ids@, 3, 12,
                RelationshipState::Neutral, 13), rel_init_step(m4, m5, char_ids@, 8, 7,
                RelationshipState::Friendly, 9)]
            {
                &&& rel_init_step(*old(multiverse), m1, char_ids@, 0, 4,
                    RelationshipState::Allied, 5)
                &&& rel_init_step(m1, m2, char_ids@, 1, 7, RelationshipState::Distrustful, 8)
                &&& rel_init_step(m2, m3, char_ids@, 2, 11, RelationshipState::Hostile, 12)
                &&& rel_init_step(m3, m4, char_ids@, 3, 12, RelationshipState::Neutral, 13)
                &&& rel_init_step(m4, m5, char_ids@, 8, 7, RelationshipState::Friendly, 9)
                &&& rel_init_step(m5, *final(multiverse), char_ids@, 9, 4,
                    RelationshipState::Friendly, 10)
            },
{
    if char_ids.len() >= 5 {
        add_relationship(multiverse, char_ids[0], char_ids[4], RelationshipState::Allied);
    }
    let ghost m1 = *multiverse;
    if char_ids.len() >= 8 {
        add_relationship(multiverse, char_ids[1], char_ids[7], RelationshipState::Distrustful);
    }
    let ghost m2 = *multiverse;
    if char_ids.len() >= 12 {
        add_relationship(multiverse, char_ids[2], char_ids[11], RelationshipState::Hostile);
    }
    let ghost m3 = *multiverse;
    if char_ids.len() >= 13 {
        add_relationship(multiverse, char_ids[3], char_ids[12], RelationshipState::Neutral);
    }
    let ghost m4 = *multiverse;
    if char_ids.len() >= 9 {
        add_relationship(multiverse, char_ids[8], char_ids[7], RelationshipState::Friendly);
    }
    let ghost m5 = *multiverse;
    if char_ids.len() >= 10 {
        add_relationship(multiverse, char_ids[9], char_ids[4], RelationshipState::Friendly);
    }
    proof {
        assert(rel_init_step(*old(multiverse), m1, char_ids@, 0, 4, RelationshipState::Allied,
            5));
        assert(rel_init_step(m1, m2, char_ids@, 1, 7, RelationshipState::Distrustful, 8));
        assert(rel_init_step(m2, m3, char_ids@, 2, 11, RelationshipState::Hostile, 12));
        assert(rel_init_step(m3, m4, char_ids@, 3, 12, RelationshipState::Neutral, 13));
        assert(rel_init_step(m4, m5, char_ids@, 8, 7, RelationshipState::Friendly, 9));
        assert(rel_init_step(m5, *multiverse, char_ids@, 9, 4, RelationshipState::Friendly,
            10));
    }
}

/// Set a symmetric relationship between two characters; when either one
/// does not exist, the whole update is skipped.
fn add_relationship(
    multiverse: &mut Multiverse,
    char1: CharacterId,
    char2: CharacterId,
    state: RelationshipState,
)
    requires
        old(multiverse).wf(),
    ensures
        final(multiverse).wf(),
        symmetric_rel_set(*old(multiverse), *final(multiverse), char1, char2, state),
{
    let ghost cs0 = multiverse.characters@;
    if char1.0 < multiverse.characters.len() as u64 && char2.0 < multiverse.characters.len()
        as u64 {
        multiverse.characters[char1.0 as usize].upsert_relationship(char2, state);
        let ghost mid = multiverse.characters@;
        proof {
            assert(rel_half_applied(cs0, mid, char1, char2, state));
        }
        multiverse.characters[char2.0 as usize].upsert_relationship(char1, state);
        proof {
            assert(rel_half_applied(mid, multiverse.characters@, char2, char1, state));
            let eff = EventEffect::RelationshipChange {
                character1: char1,
                character2: char2,
                new_state: state,
            };
            match &eff {
                EventEffect::RelationshipChange { character1, character2, new_state } => {
                    assert(rel_half_applied(cs0, mid, *character1, *character2, *new_state));
                    assert(rel_half_applied(mid, multiverse.characters@, *character2,
                        *character1, *new_state));
                },
                _ => {},
            }
            assert(effect_applied(cs0, multiverse.characters@, eff));
            assert forall|k: int| 0 <= k < multiverse.characters@.len() implies (
            #[trigger] multiverse.characters@[k]).id == CharacterId(k as u64) && state_wf(
                multiverse.characters@[k].emotional_state) by {
                assert(char_eq_except_relationships(old(multiverse).characters@[k],
                    multiverse.characters@[k]) || old(multiverse).characters@[k]
                    == multiverse.characters@[k] || (char_eq_except_relationships(
                    old(multiverse).characters@[k], mid[k]) && char_eq_except_relationships(
                    mid[k], multiverse.characters@[k])));
            }
        }
    }
}

} // verus!
