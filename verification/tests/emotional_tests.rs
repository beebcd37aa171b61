use propyarn::emotional_system::{Belief, Emotion, EmotionType, EmotionalState, Goal};

fn single_goal_belief(likelihood: i64, congruence: i64, incremental: bool) -> Belief {
    Belief {
        likelihood,
        causal_agent_name: None,
        affected_goal_names: vec!["Test Goal".to_string()],
        goal_congruences: vec![congruence],
        is_incremental: incremental,
    }
}

#[test]
fn test_appraisal_joy() {
    let mut state = EmotionalState::new();
    state.add_goal(Goal::new("Test Goal".to_string(), 1000, false));

    // an absolute belief that fully confirms the goal
    let belief = single_goal_belief(1000, 1000, false);
    state.appraise(&belief);

    assert!(state.emotions.iter().any(|e| e.emotion_type == EmotionType::Joy));
    let pad = state.get_pad();
    assert!(pad.0 > 0);
}

#[test]
fn test_appraisal_hope_fear() {
    let mut state = EmotionalState::new();
    state.add_goal(Goal::new("Test Goal".to_string(), 1000, false));

    // an incremental belief that raises the likelihood without resolving it
    let belief = single_goal_belief(100, 1000, true);
    state.appraise(&belief);
    assert!(state.emotions.iter().any(|e| e.emotion_type == EmotionType::Hope));

    // one that lowers it
    let belief2 = single_goal_belief(200, -1000, true);
    state.appraise(&belief2);
    assert!(state.emotions.iter().any(|e| e.emotion_type == EmotionType::Fear));
}

// A fully congruent, fully likely incremental belief saturates the goal's
// likelihood at one, and a repeat emits nothing further.
#[test]
fn test_likelihood_saturation() {
    let mut state = EmotionalState::new();
    state.add_goal(Goal::new("Test Goal".to_string(), 800, false));

    let belief = single_goal_belief(1000, 1000, true);
    state.appraise(&belief);
    assert_eq!(state.goals[0].likelihood, 1000);

    let emotions_before = state.emotions.clone();
    state.appraise(&belief);
    assert_eq!(state.goals[0].likelihood, 1000);
    assert_eq!(state.emotions.len(), emotions_before.len());
    for (a, b) in state.emotions.iter().zip(emotions_before.iter()) {
        assert_eq!(a.emotion_type, b.emotion_type);
        assert_eq!(a.intensity, b.intensity);
    }
}

// The mood coordinate stays strictly inside the open unit cube.
#[test]
fn test_pad_bounded() {
    let mut state = EmotionalState::new();
    state.add_goal(Goal::new("A".to_string(), 1000, true));
    state.add_goal(Goal::new("B".to_string(), -1000, true));
    for _ in 0..50 {
        let belief = Belief {
            likelihood: 1000,
            causal_agent_name: None,
            affected_goal_names: vec!["A".to_string(), "B".to_string()],
            goal_congruences: vec![1000, -1000],
            is_incremental: true,
        };
        state.appraise(&belief);
    }
    let pad = state.get_pad();
    assert!(-1000 < pad.0 && pad.0 < 1000);
    assert!(-1000 < pad.1 && pad.1 < 1000);
    assert!(-1000 < pad.2 && pad.2 < 1000);
}

// Exact arithmetic of one absolute appraisal: likelihood (1*1+1)/2 = 1,
// delta 0.5, intensity |1.0 * 0.5| = 0.5.
#[test]
fn test_appraisal_exact_values() {
    let mut state = EmotionalState::new();
    state.add_goal(Goal::new("Test Goal".to_string(), 1000, false));
    state.appraise(&single_goal_belief(1000, 1000, false));
    assert_eq!(state.goals[0].likelihood, 1000);
    let joy = state.emotions.iter().find(|e| e.emotion_type == EmotionType::Joy).unwrap();
    assert_eq!(joy.intensity, 500);
}

// Decay scales intensities and prunes entries at or below the threshold.
#[test]
fn test_decay() {
    let mut state = EmotionalState::new();
    state.update_emotional_state(Emotion { emotion_type: EmotionType::Hope, intensity: 1000 });
    state.decay(500);
    assert_eq!(state.emotions.len(), 1);
    assert_eq!(state.emotions[0].intensity, 500);
    state.decay(0);
    assert_eq!(state.emotions.len(), 0);
}

// Accumulating the same emotion type twice keeps one entry and adds the
// intensities.
#[test]
fn test_emotion_accumulation() {
    let mut state = EmotionalState::new();
    state.update_emotional_state(Emotion { emotion_type: EmotionType::Joy, intensity: 300 });
    state.update_emotional_state(Emotion { emotion_type: EmotionType::Joy, intensity: 200 });
    assert_eq!(state.emotions.len(), 1);
    assert_eq!(state.emotions[0].intensity, 500);
}

#[test]
fn test_emotion_names_and_pad_vectors() {
    assert_eq!(EmotionType::Joy.as_str(), "joy");
    assert_eq!(EmotionType::FearConfirmed.as_str(), "fear-confirmed");
    assert_eq!(EmotionType::Joy.pad_values(), (760, 480, 350));
    assert_eq!(EmotionType::Distress.pad_values(), (-610, 280, -360));
}
