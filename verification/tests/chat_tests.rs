use miurbot::chat::{
    build_prompt, completion_request, system_prompt, ChatAction, ChatFlow, ChatInput, ChatMessage,
    HISTORY_LIMIT,
};
use miurbot::store::{SessionRow, StoredMessage};

fn stored(id: i32, role: &str, content: &str) -> StoredMessage {
    StoredMessage { id, session_id: 7, role: role.to_string(), content: content.to_string() }
}

fn pairs(messages: &[ChatMessage]) -> Vec<(String, String)> {
    messages.iter().map(|m| (m.role.clone(), m.content.clone())).collect()
}

fn p(role: &str, content: &str) -> (String, String) {
    (role.to_string(), content.to_string())
}

#[test]
fn system_prompt_text_is_fixed() {
    assert_eq!(system_prompt(), "你是 Miur，一个友好的 AI 助手。");
}

#[test]
fn prompt_is_system_history_then_user() {
    let history = vec![stored(1, "user", "hi"), stored(2, "assistant", "hello")];
    let prompt = build_prompt(&None, &history, "how are you?");
    assert_eq!(
        pairs(&prompt),
        vec![
            p("system", "你是 Miur，一个友好的 AI 助手。"),
            p("user", "hi"),
            p("assistant", "hello"),
            p("user", "how are you?"),
        ]
    );
}

#[test]
fn prompt_without_history() {
    let prompt = build_prompt(&None, &vec![], "");
    assert_eq!(pairs(&prompt), vec![p("system", "你是 Miur，一个友好的 AI 助手。"), p("user", "")]);
}

#[test]
fn completion_request_streams() {
    let r = completion_request("deepseek-chat", vec![ChatMessage { role: "user".to_string(), content: "x".to_string() }]);
    assert_eq!(r.model, "deepseek-chat");
    assert_eq!(r.messages.len(), 1);
    assert!(r.stream);
}

#[test]
fn prompt_puts_the_summary_after_the_system_prompt() {
    let history = vec![stored(1, "user", "hi")];
    let prompt = build_prompt(&Some("用户喜欢笑话".to_string()), &history, "再来一个");
    assert_eq!(
        pairs(&prompt),
        vec![
            p("system", "你是 Miur，一个友好的 AI 助手。"),
            p("system", "用户喜欢笑话"),
            p("user", "hi"),
            p("user", "再来一个"),
        ]
    );
}

fn session(id: i32, summary: Option<&str>) -> SessionRow {
    SessionRow { id, summary: summary.map(|x| x.to_string()) }
}

#[test]
fn turn_with_new_session() {
    let mut flow = ChatFlow::new("讲个笑话".to_string());
    assert!(matches!(flow.step(ChatInput::Begin), ChatAction::FindDefaultUser));
    assert!(matches!(flow.step(ChatInput::UserFound(Some(1))), ChatAction::FindLatestSession { user_id: 1 }));
    assert!(matches!(flow.step(ChatInput::SessionFound(None)), ChatAction::CreateSession { user_id: 1 }));
    assert!(matches!(
        flow.step(ChatInput::SessionCreated(7)),
        ChatAction::LoadHistory { session_id: 7, limit: 20 }
    ));
    // The store reports the newest message first.
    let rows = vec![stored(2, "assistant", "hello"), stored(1, "user", "hi")];
    match flow.step(ChatInput::HistoryLoaded(rows)) {
        ChatAction::CallModel { messages } => assert_eq!(
            pairs(&messages),
            vec![
                p("system", "你是 Miur，一个友好的 AI 助手。"),
                p("user", "hi"),
                p("assistant", "hello"),
                p("user", "讲个笑话"),
            ]
        ),
        _ => panic!("the model is called before anything is stored"),
    }
    assert!(matches!(flow.step(ChatInput::Delta("好".to_string())), ChatAction::Forward(t) if t == "好"));
    assert!(matches!(flow.step(ChatInput::Delta("的".to_string())), ChatAction::Forward(t) if t == "的"));
    match flow.step(ChatInput::ReplyEnded) {
        ChatAction::SaveMessage { session_id, role, content } => {
            assert_eq!((session_id, role.as_str(), content.as_str()), (7, "user", "讲个笑话"));
        }
        _ => panic!("the user's message is stored once the reply is complete"),
    }
    match flow.step(ChatInput::Saved) {
        ChatAction::SaveMessage { session_id, role, content } => {
            assert_eq!((session_id, role.as_str(), content.as_str()), (7, "assistant", "好的"));
        }
        _ => panic!("the reply is stored"),
    }
    assert!(!flow.is_finished());
    assert!(matches!(flow.step(ChatInput::Saved), ChatAction::Finish(Ok(r)) if r == "好的"));
    assert!(flow.is_finished());
}

#[test]
fn turn_with_existing_session() {
    let mut flow = ChatFlow::new("hi".to_string());
    flow.step(ChatInput::Begin);
    flow.step(ChatInput::UserFound(Some(3)));
    assert!(matches!(
        flow.step(ChatInput::SessionFound(Some(session(9, None)))),
        ChatAction::LoadHistory { session_id: 9, limit: 20 }
    ));
}

#[test]
fn session_summary_goes_into_the_prompt() {
    let mut flow = ChatFlow::new("then?".to_string());
    flow.step(ChatInput::Begin);
    flow.step(ChatInput::UserFound(Some(1)));
    flow.step(ChatInput::SessionFound(Some(session(4, Some("earlier: greetings")))));
    match flow.step(ChatInput::HistoryLoaded(vec![stored(1, "user", "hi")])) {
        ChatAction::CallModel { messages } => assert_eq!(
            pairs(&messages),
            vec![
                p("system", "你是 Miur，一个友好的 AI 助手。"),
                p("system", "earlier: greetings"),
                p("user", "hi"),
                p("user", "then?"),
            ]
        ),
        _ => panic!("the model is called"),
    }
}

#[test]
fn history_keeps_the_latest_twenty_in_order() {
    let mut flow = ChatFlow::new("next".to_string());
    flow.step(ChatInput::Begin);
    flow.step(ChatInput::UserFound(Some(1)));
    flow.step(ChatInput::SessionFound(Some(session(2, None))));
    // 25 messages, newest (24) first.
    let rows: Vec<StoredMessage> = (0..25).rev().map(|i| stored(i, "user", &i.to_string())).collect();
    match flow.step(ChatInput::HistoryLoaded(rows)) {
        ChatAction::CallModel { messages } => {
            assert_eq!(messages.len(), 2 + HISTORY_LIMIT as usize);
            let contents: Vec<String> = messages[1..21].iter().map(|m| m.content.clone()).collect();
            let expected: Vec<String> = (5..25).map(|i: i32| i.to_string()).collect();
            assert_eq!(contents, expected);
            assert_eq!(messages[21].content, "next");
        }
        _ => panic!("the model is called"),
    }
}

#[test]
fn failure_ends_the_turn_with_its_text() {
    let mut flow = ChatFlow::new("hi".to_string());
    flow.step(ChatInput::Begin);
    flow.step(ChatInput::UserFound(Some(1)));
    assert!(matches!(
        flow.step(ChatInput::Failed("database is locked".to_string())),
        ChatAction::Finish(Err(e)) if e == "database is locked"
    ));
    assert!(flow.is_finished());
}

#[test]
fn model_failure_stores_nothing() {
    let mut flow = ChatFlow::new("hi".to_string());
    flow.step(ChatInput::Begin);
    flow.step(ChatInput::UserFound(Some(1)));
    flow.step(ChatInput::SessionFound(Some(session(2, None))));
    assert!(matches!(flow.step(ChatInput::HistoryLoaded(vec![])), ChatAction::CallModel { .. }));
    assert!(matches!(flow.step(ChatInput::Delta("par".to_string())), ChatAction::Forward(_)));
    assert!(matches!(
        flow.step(ChatInput::Failed("timeout".to_string())),
        ChatAction::Finish(Err(e)) if e == "timeout"
    ));
    assert!(flow.is_finished());
}
