use roleplay_core::dialogue::{
    dialogue_next, dialogue_start, event_character, narration_line, saved_reply_key, DialogueAction, DialogueEvent,
    DialogueFailure, DialogueStage,
};
use roleplay_core::memory_builder::MemoryBuilder;
use roleplay_core::types::{GameLine, LineAttribute};

#[test]
fn reply_keys_carry_the_event_index() {
    assert_eq!(saved_reply_key(0), "__ai_reply_0");
    assert_eq!(saved_reply_key(7), "__ai_reply_7");
    assert_eq!(saved_reply_key(10), "__ai_reply_10");
    assert_eq!(saved_reply_key(4096), "__ai_reply_4096");
    assert_ne!(saved_reply_key(12), saved_reply_key(21));
}

#[test]
fn narration_is_a_nameless_player_line() {
    let b = narration_line("夜深了".to_string());
    assert_eq!(b.attribute.0, LineAttribute::User);
    assert_eq!(b.display_name.as_deref(), Some("旁白"));
    let builder = MemoryBuilder::new(1);
    assert_eq!(builder.format_context_line(&b), "夜深了");
    let msgs = builder.build(&[GameLine::from_base(b, vec![1])], &[]);
    assert_eq!(msgs[0].content, "夜深了");
}

#[test]
fn character_defaults_to_main() {
    assert_eq!(event_character(Some("Alice")), "Alice");
    assert_eq!(event_character(None), "MAIN");
}

fn run(has_prompt: bool, events: Vec<DialogueEvent>) -> Vec<DialogueAction> {
    let mut st = dialogue_start(has_prompt);
    let mut out = Vec::new();
    for ev in events {
        let (next, action) = dialogue_next(st, ev);
        st = next;
        out.push(action);
    }
    out
}

#[test]
fn dialogue_with_prompt_and_no_saved_reply_generates_and_saves() {
    let actions = run(
        true,
        vec![
            DialogueEvent::Begun { script_running: true },
            DialogueEvent::RoleResolved(Some(3)),
            DialogueEvent::Done,
            DialogueEvent::Done,
            DialogueEvent::LlmChecked(true),
            DialogueEvent::SavedReply(None),
            DialogueEvent::ReplyGenerated("你好".to_string()),
            DialogueEvent::Done,
        ],
    );
    assert!(matches!(actions[0], DialogueAction::ResolveRole));
    assert!(matches!(actions[1], DialogueAction::SetCurrentRole(3)));
    assert!(matches!(actions[2], DialogueAction::InjectNarration));
    assert!(matches!(actions[3], DialogueAction::CheckLlm));
    assert!(matches!(actions[4], DialogueAction::LookUpSavedReply));
    assert!(matches!(actions[5], DialogueAction::GenerateReply));
    assert!(matches!(&actions[6], DialogueAction::SaveReply(t) if t == "你好"));
    assert!(matches!(actions[7], DialogueAction::Finish));
}

#[test]
fn dialogue_shows_a_saved_reply_without_generating() {
    let actions = run(
        false,
        vec![
            DialogueEvent::Begun { script_running: true },
            DialogueEvent::RoleResolved(Some(3)),
            DialogueEvent::Done,
            DialogueEvent::LlmChecked(true),
            DialogueEvent::SavedReply(Some("旧回复".to_string())),
            DialogueEvent::Done,
        ],
    );
    assert!(matches!(actions[2], DialogueAction::CheckLlm));
    assert!(matches!(&actions[4], DialogueAction::EmitSavedReply { role_id: 3, text } if text == "旧回复"));
    assert!(matches!(actions[5], DialogueAction::Finish));
}

#[test]
fn dialogue_failures() {
    assert!(matches!(run(false, vec![DialogueEvent::Begun { script_running: false }])[0], DialogueAction::Fail(DialogueFailure::NoScript)));
    let a = run(false, vec![DialogueEvent::Begun { script_running: true }, DialogueEvent::RoleResolved(None)]);
    assert!(matches!(a[1], DialogueAction::Fail(DialogueFailure::NoRoleId)));
    let b = run(
        false,
        vec![
            DialogueEvent::Begun { script_running: true },
            DialogueEvent::RoleResolved(Some(1)),
            DialogueEvent::Done,
            DialogueEvent::LlmChecked(false),
            DialogueEvent::Done,
        ],
    );
    assert!(matches!(b[3], DialogueAction::Fail(DialogueFailure::NoLlm)));
    assert!(matches!(b[4], DialogueAction::Wait));
    let (st, _) = dialogue_next(dialogue_start(false), DialogueEvent::Done);
    assert_eq!(st.stage, DialogueStage::Start);
}
