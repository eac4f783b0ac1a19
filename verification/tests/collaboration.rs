use codeswarm::collaboration::CollaborationContext;

#[test]
fn only_unseen_public_text_is_sent_to_each_agent() {
    let mut context = CollaborationContext::new(2);
    context.record("Human", "task", &[true, true]);
    context.mark_seen(0);
    assert_eq!(context.unseen(0), "");
    assert_eq!(context.unseen(1), "Human:\ntask");
}

#[test]
fn rewind_replays_retained_context_to_a_reloaded_agent() {
    let mut context = CollaborationContext::new(1);
    context.record("Agent", "answer", &[true]);
    context.mark_seen(0);
    assert_eq!(context.unseen(0), "");
    context.rewind(0);
    assert_eq!(context.unseen(0), "Agent:\nanswer");
}

#[test]
fn long_history_is_bounded_without_losing_recent_updates() {
    let mut context = CollaborationContext::new(1);
    for index in 0..250 {
        context.record("Agent", &format!("reply {index}"), &[true]);
    }
    let unseen = context.unseen(0);
    assert!(unseen.contains("reply 249"));
    assert!(unseen.len() <= 24_000);
}

#[test]
fn long_unicode_response_is_compacted_without_slicing_panic() {
    let mut context = CollaborationContext::new(1);
    context.record("Agent", &"🚀漢字".repeat(5_000), &[true]);
    let unseen = context.unseen(0);
    assert!(unseen.contains("omitted the middle"));
    assert!(unseen.contains("🚀"));
    assert!(unseen.is_char_boundary(0));
}

#[test]
fn agents_that_change_places_keep_what_they_have_seen() {
    let mut context = CollaborationContext::new(2);
    context.set_shared_task("task");
    assert_eq!(context.shared_task(), Some("task"));
    context.record("Human", "task", &[true, true]);
    context.mark_seen(0);
    context.swap_agents(0, 1);
    assert_eq!(context.unseen(1), "");
    assert_eq!(context.unseen(0), "Human:\ntask");
    context.add_agent();
    context.record("Agent", "answer", &[true, true, true]);
    assert!(context.unseen(2).contains("answer"));
}
