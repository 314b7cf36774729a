use companion::agent::{ConversationMessage, MessageRole};

#[test]
fn test_history_truncation() {
    let mut history: Vec<ConversationMessage> = (0..60)
        .map(|i| ConversationMessage {
            role: if i % 2 == 0 { MessageRole::User } else { MessageRole::Assistant },
            content: format!("msg{i}"),
        })
        .collect();
    if history.len() > 50 {
        history = history.split_off(history.len() - 50);
    }
    assert_eq!(history.len(), 50);
    assert_eq!(history[0].content, "msg10");
    assert_eq!(history[49].content, "msg59");
}

#[test]
fn e2e_tests_test_clear_history() {
    let mut history = vec![ConversationMessage { role: MessageRole::User, content: "test".into() }];
    assert!(!history.is_empty());
    history.clear();
    assert!(history.is_empty());
}
