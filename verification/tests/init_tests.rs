use miurbot::config::ConfigData;
use miurbot::init::{table_at, InitAction, InitFlow, InitInput, Table};
use miurbot::store::{create_default_user, LlmRow, NewUser, ProviderModels, ProviderRow};

fn config() -> ConfigData {
    ConfigData {
        database_url: "miur.db".to_string(),
        jwt_secret: "SECRET-REDACTED".to_string(),
        server_host: "127.0.0.1".to_string(),
        server_port: 3000,
        model: "deepseek-chat".to_string(),
        openai_api_key: "SECRET-REDACTED".to_string(),
        openai_base_url: "https://api.deepseek.com".to_string(),
    }
}

/// Runs start-up up to the point where users are counted.
fn through_tables(flow: &mut InitFlow) {
    assert!(matches!(flow.step(InitInput::Begin), InitAction::Connect { url } if url == "sqlite://miur.db?mode=rwc"));
    let mut created = Vec::new();
    let mut action = flow.step(InitInput::Connected);
    while let InitAction::CreateTable(t) = action {
        created.push(t);
        action = flow.step(InitInput::TableCreated);
    }
    assert_eq!(
        created,
        vec![Table::Users, Table::Sessions, Table::SessionMessages, Table::Providers, Table::ProvidersLlm]
    );
    assert!(matches!(action, InitAction::CountUsers));
}

#[test]
fn tables_follow_their_references() {
    assert_eq!(table_at(0), Table::Users);
    assert_eq!(table_at(4), Table::ProvidersLlm);
}

#[test]
fn start_up_creates_the_default_user_when_none_exists() {
    let mut flow = InitFlow::new(&config());
    through_tables(&mut flow);
    assert!(matches!(flow.step(InitInput::UsersCounted(0)), InitAction::MakeDefaultUser));
    let made = create_default_user().map_err(|e| e.text);
    match flow.step(InitInput::DefaultUserMade(made)) {
        InitAction::InsertUser(u) => {
            assert_eq!(u.username, "default");
            assert!(bcrypt::verify("123456", &u.password_hash).unwrap());
        }
        _ => panic!("a default user is made"),
    }
    assert!(matches!(flow.step(InitInput::UserCreated(1)), InitAction::LoadProviders));
    let rows = vec![ProviderModels {
        provider: ProviderRow {
            id: 1,
            name: "DeepSeek".to_string(),
            provider_type: "llm".to_string(),
            base_url: "https://api.deepseek.com".to_string(),
            api_key: "SECRET-REDACTED".to_string(),
            is_active: true,
        },
        models: vec![LlmRow { id: 1, provider_id: 1, model_name: "deepseek-chat".to_string(), max_tokens: 4096, temperature_bits: 0 }],
    }];
    assert!(matches!(flow.step(InitInput::ProvidersLoaded(rows)), InitAction::Install(c) if c.len() == 1 && c[0].model == "deepseek-chat"));
    assert!(!flow.is_finished());
    assert!(matches!(flow.step(InitInput::Installed(true)), InitAction::Finish(Ok(()))));
    assert!(flow.is_finished());
}

#[test]
fn start_up_skips_the_default_user_when_users_exist() {
    let mut flow = InitFlow::new(&config());
    through_tables(&mut flow);
    assert!(matches!(flow.step(InitInput::UsersCounted(2)), InitAction::LoadProviders));
}

#[test]
fn second_install_is_refused() {
    let mut flow = InitFlow::new(&config());
    through_tables(&mut flow);
    flow.step(InitInput::UsersCounted(1));
    flow.step(InitInput::ProvidersLoaded(vec![]));
    assert!(matches!(
        flow.step(InitInput::Installed(false)),
        InitAction::Finish(Err(e)) if e == "providers 已初始化"
    ));
}

#[test]
fn failed_table_creation_ends_start_up() {
    let mut flow = InitFlow::new(&config());
    flow.step(InitInput::Begin);
    flow.step(InitInput::Connected);
    assert!(matches!(
        flow.step(InitInput::Failed("disk full".to_string())),
        InitAction::Finish(Err(e)) if e == "disk full"
    ));
    assert!(flow.is_finished());
}

#[test]
fn made_user_is_stored_as_given() {
    let mut flow = InitFlow::new(&config());
    through_tables(&mut flow);
    flow.step(InitInput::UsersCounted(0));
    let u = NewUser { username: "default".to_string(), password_hash: "h".to_string() };
    assert!(matches!(
        flow.step(InitInput::DefaultUserMade(Ok(u))),
        InitAction::InsertUser(v) if v.username == "default" && v.password_hash == "h"
    ));
}

#[test]
fn failed_hashing_ends_start_up_with_its_text() {
    let mut flow = InitFlow::new(&config());
    through_tables(&mut flow);
    flow.step(InitInput::UsersCounted(0));
    assert!(matches!(
        flow.step(InitInput::DefaultUserMade(Err("Rand error: no entropy".to_string()))),
        InitAction::Finish(Err(e)) if e == "Rand error: no entropy"
    ));
    assert!(flow.is_finished());
}
