use winx_code_agent::thinking::sequential::{SequentialThinking, ThinkingError, Thought};

fn thought(n: usize, content: &str) -> Thought {
    Thought {
        content: content.to_string(),
        thought_number: n,
        total_thoughts: 3,
        next_thought_needed: true,
        is_revision: false,
        revises_thought: None,
        branch_from_thought: None,
        branch_id: None,
        needs_more_thoughts: false,
    }
}

#[test]
fn test_sequential_thinking() {
    let mut thinking = SequentialThinking::new();

    // Add initial thought
    let thought1 = Thought {
        content: "First thought".to_string(),
        thought_number: 1,
        total_thoughts: 3,
        next_thought_needed: true,
        is_revision: false,
        revises_thought: None,
        branch_from_thought: None,
        branch_id: None,
        needs_more_thoughts: false,
    };

    thinking.add_thought(thought1.clone()).unwrap();

    assert_eq!(thinking.get_thoughts().len(), 1);
    assert_eq!(thinking.needs_next_thought(), true);

    // Add second thought
    let thought2 = Thought {
        content: "Second thought".to_string(),
        thought_number: 2,
        total_thoughts: 3,
        next_thought_needed: true,
        is_revision: false,
        revises_thought: None,
        branch_from_thought: None,
        branch_id: None,
        needs_more_thoughts: false,
    };

    thinking.add_thought(thought2.clone()).unwrap();

    assert_eq!(thinking.get_thoughts().len(), 2);
    assert_eq!(thinking.needs_next_thought(), true);

    // Add revised second thought
    let thought2_revised = Thought {
        content: "Revised second thought".to_string(),
        thought_number: 3,
        total_thoughts: 3,
        next_thought_needed: true,
        is_revision: true,
        revises_thought: Some(2),
        branch_from_thought: None,
        branch_id: None,
        needs_more_thoughts: false,
    };

    thinking.add_thought(thought2_revised.clone()).unwrap();

    assert_eq!(thinking.get_thoughts().len(), 3);
    assert_eq!(thinking.get_main_branch().len(), 2); // First thought and revised second

    // Complete the thinking process
    let thought3 = Thought {
        content: "Final thought".to_string(),
        thought_number: 4,
        total_thoughts: 3,
        next_thought_needed: false,
        is_revision: false,
        revises_thought: None,
        branch_from_thought: None,
        branch_id: None,
        needs_more_thoughts: false,
    };

    thinking.add_thought(thought3.clone()).unwrap();

    assert_eq!(thinking.get_thoughts().len(), 4);
    assert_eq!(thinking.needs_next_thought(), false);

    // Check the summary
    let summary = thinking.get_summary();
    assert!(summary.contains("Thought #1"));
    assert!(summary.contains("Thought #3 (revises #2)"));
    assert!(summary.contains("Thought #4"));
}

#[test]
fn test_branching() {
    let mut thinking = SequentialThinking::new();

    // Add initial thoughts
    let thought1 = Thought {
        content: "First thought".to_string(),
        thought_number: 1,
        total_thoughts: 4,
        next_thought_needed: true,
        is_revision: false,
        revises_thought: None,
        branch_from_thought: None,
        branch_id: None,
        needs_more_thoughts: false,
    };

    thinking.add_thought(thought1.clone()).unwrap();

    let thought2 = Thought {
        content: "Second thought".to_string(),
        thought_number: 2,
        total_thoughts: 4,
        next_thought_needed: true,
        is_revision: false,
        revises_thought: None,
        branch_from_thought: None,
        branch_id: None,
        needs_more_thoughts: false,
    };

    thinking.add_thought(thought2.clone()).unwrap();

    // Add a branch
    let branch_thought = Thought {
        content: "Branch thought".to_string(),
        thought_number: 3,
        total_thoughts: 4,
        next_thought_needed: true,
        is_revision: false,
        revises_thought: None,
        branch_from_thought: Some(2),
        branch_id: Some("alternative".to_string()),
        needs_more_thoughts: false,
    };

    thinking.add_thought(branch_thought.clone()).unwrap();

    // Complete the branch
    let branch_final = Thought {
        content: "Branch final".to_string(),
        thought_number: 4,
        total_thoughts: 4,
        next_thought_needed: false,
        is_revision: false,
        revises_thought: None,
        branch_from_thought: None,
        branch_id: Some("alternative".to_string()),
        needs_more_thoughts: false,
    };

    thinking.add_thought(branch_final.clone()).unwrap();

    // Check that we get the branch in the main branch now
    let main = thinking.get_main_branch();
    assert_eq!(main.len(), 4);
    assert_eq!(main[2].content, "Branch thought");
    assert_eq!(main[3].content, "Branch final");
}


#[test]
fn test_zero_thought_number_is_refused() {
    let mut thinking = SequentialThinking::new();
    let err = thinking.add_thought(thought(0, "nothing")).unwrap_err();
    assert!(matches!(err, ThinkingError::ZeroThoughtNumber));
    assert_eq!(err.to_text(), "Thought number must be greater than 0");
    assert!(thinking.get_thoughts().is_empty());
}

#[test]
fn test_unknown_revision_and_branch_are_refused() {
    let mut thinking = SequentialThinking::new();
    let mut t = thought(2, "revision");
    t.is_revision = true;
    t.revises_thought = Some(7);
    let err = thinking.add_thought(t).unwrap_err();
    assert_eq!(err.to_text(), "Cannot revise nonexistent thought #7");
    let mut b = thought(2, "branch");
    b.branch_from_thought = Some(12);
    let err = thinking.add_thought(b).unwrap_err();
    assert_eq!(err.to_text(), "Cannot branch from nonexistent thought #12");
    assert!(thinking.get_thoughts().is_empty());
    assert!(thinking.needs_next_thought());
}

#[test]
fn test_added_thought_is_found_and_replaced() {
    let mut thinking = SequentialThinking::default();
    thinking.add_thought(thought(5, "five")).unwrap();
    thinking.add_thought(thought(2, "two")).unwrap();
    thinking.add_thought(thought(5, "five again")).unwrap();
    let all = thinking.get_thoughts();
    assert_eq!(all.len(), 2);
    assert_eq!(all[0].thought_number, 2);
    assert_eq!(all[1].content, "five again");
    assert_eq!(thinking.get_thought(5).unwrap().content, "five again");
    assert!(thinking.get_thought(3).is_none());
}

#[test]
fn test_summary_text() {
    let mut thinking = SequentialThinking::new();
    assert_eq!(thinking.get_summary(), "No thoughts recorded yet.");
    thinking.add_thought(thought(1, "a")).unwrap();
    let mut r = thought(2, "b");
    r.is_revision = true;
    r.revises_thought = Some(1);
    thinking.add_thought(r).unwrap();
    assert_eq!(thinking.get_summary(), "Thought #2 (revises #1): b\n\n");
    let copy = thinking.clone();
    assert_eq!(copy.get_summary(), thinking.get_summary());
}
