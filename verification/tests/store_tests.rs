use miurbot::store::{
    HashError, HashErrorKind,
    active_llm_providers, create_default_user, has_any_user, recent_messages, LlmRow, ProviderModels,
    ProviderRow, StoredMessage,
};

fn msg(id: i32) -> StoredMessage {
    StoredMessage { id, session_id: 1, role: "user".to_string(), content: format!("m{}", id) }
}

fn ids(v: &[StoredMessage]) -> Vec<i32> {
    v.iter().map(|m| m.id).collect()
}

#[test]
fn recent_messages_puts_oldest_first() {
    assert_eq!(ids(&recent_messages(vec![msg(3), msg(2), msg(1)], 20)), vec![1, 2, 3]);
}

#[test]
fn recent_messages_keeps_only_the_newest() {
    assert_eq!(ids(&recent_messages(vec![msg(5), msg(4), msg(3), msg(2)], 2)), vec![4, 5]);
    assert_eq!(ids(&recent_messages(vec![msg(5)], 0)), Vec::<i32>::new());
    assert_eq!(ids(&recent_messages(vec![], 3)), Vec::<i32>::new());
}

#[test]
fn any_user_when_count_is_positive() {
    assert!(!has_any_user(0));
    assert!(has_any_user(1));
    assert!(has_any_user(u64::MAX));
}

fn provider(id: i32, name: &str, kind: &str, active: bool) -> ProviderRow {
    ProviderRow {
        id,
        name: name.to_string(),
        provider_type: kind.to_string(),
        base_url: format!("https://{}.example", name),
        api_key: format!("key-{}", id),
        is_active: active,
    }
}

fn model(id: i32, provider_id: i32, name: &str) -> LlmRow {
    LlmRow { id, provider_id, model_name: name.to_string(), max_tokens: 4096, temperature_bits: 0.7f32.to_bits() }
}

#[test]
fn only_active_llm_providers_with_models_are_kept() {
    let rows = vec![
        ProviderModels { provider: provider(1, "DeepSeek", "llm", true), models: vec![model(1, 1, "deepseek-chat")] },
        ProviderModels { provider: provider(2, "Off", "llm", false), models: vec![model(2, 2, "off-model")] },
        ProviderModels { provider: provider(3, "Painter", "image", true), models: vec![model(3, 3, "dall-e")] },
        ProviderModels { provider: provider(4, "Empty", "llm", true), models: vec![] },
    ];
    let configs = active_llm_providers(&rows);
    assert_eq!(configs.len(), 1);
    let c = &configs[0];
    assert_eq!(c.name, "DeepSeek");
    assert_eq!(c.base_url, "https://DeepSeek.example");
    assert_eq!(c.api_key, "key-1");
    assert_eq!(c.model, "deepseek-chat");
    assert_eq!(c.max_tokens, 4096);
    assert_eq!(f32::from_bits(c.temperature_bits), 0.7f32);
}

#[test]
fn later_models_replace_earlier_ones_under_a_name() {
    let rows = vec![
        ProviderModels {
            provider: provider(1, "OpenAI", "llm", true),
            models: vec![model(1, 1, "gpt-4o-mini"), model(2, 1, "gpt-4o")],
        },
        ProviderModels { provider: provider(2, "DeepSeek", "llm", true), models: vec![model(3, 2, "deepseek-chat")] },
        ProviderModels { provider: provider(3, "OpenAI", "llm", true), models: vec![model(4, 3, "o3")] },
    ];
    let configs = active_llm_providers(&rows);
    assert_eq!(configs.len(), 2);
    let openai = configs.iter().find(|c| c.name == "OpenAI").unwrap();
    assert_eq!(openai.model, "o3");
    assert_eq!(openai.api_key, "key-3");
    let deepseek = configs.iter().find(|c| c.name == "DeepSeek").unwrap();
    assert_eq!(deepseek.model, "deepseek-chat");
}

#[test]
fn default_user_is_named_default_with_a_bcrypt_hash_of_its_password() {
    let user = create_default_user().expect("hashing succeeds");
    assert_eq!(user.username, "default");
    assert_eq!(user.password_hash.len(), 60);
    assert!(user.password_hash.starts_with("$2b$12$"));
    assert!(user.password_hash[7..].chars().all(|c| c == '.' || c == '/' || c.is_ascii_alphanumeric()));
    assert_eq!(bcrypt::verify("123456", &user.password_hash).unwrap(), true);
    assert_eq!(bcrypt::verify("1234567", &user.password_hash).unwrap(), false);
}

#[test]
fn default_user_from_keeps_the_hash_or_the_error() {
    let u = miurbot::store::default_user_from(Ok("$2b$12$abc".to_string())).unwrap();
    assert_eq!(u.username, "default");
    assert_eq!(u.password_hash, "$2b$12$abc");
    let e = HashError { kind: HashErrorKind::NoRandomness, text: "Rand error".to_string() };
    assert!(matches!(
        miurbot::store::default_user_from(Err(e)),
        Err(f) if f.kind == HashErrorKind::NoRandomness && f.text == "Rand error"
    ));
}

#[test]
fn smaller_limits_keep_a_tail_and_the_newest_comes_last() {
    let rows = || vec![msg(5), msg(4), msg(3), msg(2), msg(1)];
    let all = recent_messages(rows(), 10);
    assert_eq!(ids(&all), vec![1, 2, 3, 4, 5]);
    for n in 0..7u64 {
        let a = recent_messages(rows(), n);
        assert_eq!(ids(&a), ids(&all[all.len() - a.len()..]));
        if n >= 1 {
            assert_eq!(a.last().unwrap().id, 5);
        }
    }
    assert!(recent_messages(rows(), 0).is_empty());
}
