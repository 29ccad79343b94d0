use codexu::desktop::{
    app_mode, chat_response, chrono_like_now, derive_plan_steps, history_file_for_workspace,
    keep_latest_entries, keyring_service, keyring_update, no_workspace_response, normalized_provider,
    normalized_timeout, persisted_workspace, plan_steps_for_lowercase, setup_status, update_recent_workspaces, uses_cloud,
    KeyringUpdate,
};

#[test]
fn plan_steps_depend_on_failures() {
    assert_eq!(
        derive_plan_steps("Corrigir BUG no login"),
        vec!["Analisar objetivo do usuário", "Investigar causa raiz", "Propor correção", "Validar e resumir"]
    );
    assert_eq!(
        derive_plan_steps("Adicionar tela"),
        vec!["Analisar objetivo do usuário", "Mapear arquivos relevantes", "Gerar sugestão incremental", "Validar e resumir"]
    );
    assert_eq!(derive_plan_steps("FALHA ao salvar")[1], "Investigar causa raiz");
}

#[test]
fn recent_workspaces_put_the_latest_first() {
    let list: Vec<String> = (0..12).map(|i| format!("/w{i}")).collect();
    let r = update_recent_workspaces(list, "/w5");
    assert_eq!(r.len(), 10);
    assert_eq!(r[0], "/w5");
    assert_eq!(r[1..].to_vec(), vec!["/w0", "/w1", "/w2", "/w3", "/w4", "/w6", "/w7", "/w8", "/w9"]);
    assert_eq!(update_recent_workspaces(vec![], "/a"), vec!["/a"]);
}

#[test]
fn settings_and_keyring() {
    assert_eq!(normalized_provider("openai"), "docker");
    assert_eq!(normalized_provider("cloud"), "cloud");
    assert_eq!(normalized_timeout(10), 30);
    assert_eq!(normalized_timeout(120), 120);
    assert!(uses_cloud("cloud"));
    assert!(!uses_cloud("docker"));
    assert_eq!(keyring_service(), "codexu-desktop");
    assert!(matches!(keyring_update(Some(" sk ")), KeyringUpdate::Store(k) if k == " sk "));
    assert!(matches!(keyring_update(Some("  ")), KeyringUpdate::Delete));
    assert!(matches!(keyring_update(None), KeyringUpdate::Delete));
}

#[test]
fn workspace_files() {
    assert_eq!(history_file_for_workspace("/home/u/proj"), "/home/u/proj/.codexu/history.json");
    assert_eq!(persisted_workspace("  /home/u/proj\n"), Some("/home/u/proj".to_string()));
    assert_eq!(persisted_workspace(" \n"), None);
}

#[test]
fn history_keeps_the_latest_entries() {
    let v: Vec<u32> = (0..305).collect();
    let kept = keep_latest_entries(v, 300);
    assert_eq!(kept.len(), 300);
    assert_eq!(kept[0], 5);
    assert_eq!(keep_latest_entries(vec![1, 2], 300), vec![1, 2]);
    assert_eq!(chrono_like_now(None), "0");
    assert_eq!(chrono_like_now(Some(1712345678)), "1712345678");
}

#[test]
fn chat_answers() {
    let r = no_workspace_response();
    assert_eq!(r.assistant_message, "Selecione um workspace antes de enviar mensagens.");
    assert_eq!(r.plan_steps, vec!["Selecionar workspace", "Reenviar mensagem", "Executar plano"]);
    assert!(r.diff_text.is_none());
    let steps = vec!["s".to_string()];
    let ok = chat_response("docker", steps.clone(), Ok(vec!["a".to_string(), "b".to_string()]));
    assert_eq!(ok.assistant_message, "a\nb");
    assert_eq!(ok.plan_steps, steps);
    let err = chat_response("cloud", steps, Err("cloud api key ausente".to_string()));
    assert_eq!(err.assistant_message, "Falha no provider cloud: cloud api key ausente. Verifique configurações em Settings.");
}

#[test]
fn setup_reports() {
    let s = setup_status("cloud", "gpt", "http://d", "https://c", Err("cloud api key ausente".to_string()));
    assert!(!s.ok);
    assert_eq!(s.provider, "cloud");
    assert_eq!(s.endpoint, "https://c");
    assert_eq!(s.details, vec!["provider ativo: cloud | modelo: gpt", "erro cloud: cloud api key ausente"]);
    let s = setup_status("docker", "codellama", "http://d", "https://c", Ok(()));
    assert!(s.ok);
    assert_eq!(s.provider, "docker");
    assert_eq!(s.endpoint, "http://d");
    assert_eq!(s.details[1], "endpoint docker acessível");
    let m = app_mode("0.1.0".to_string());
    assert_eq!((m.runtime.as_str(), m.version.as_str(), m.milestone.as_str()), ("tauri", "0.1.0", "M5"));
}

#[test]
fn plan_steps_from_lowercase_text() {
    assert_eq!(
        plan_steps_for_lowercase("corrigir erro no login"),
        vec!["Analisar objetivo do usuário", "Investigar causa raiz", "Propor correção", "Validar e resumir"]
    );
    assert_eq!(
        plan_steps_for_lowercase("Corrigir BUG"),
        vec!["Analisar objetivo do usuário", "Mapear arquivos relevantes", "Gerar sugestão incremental", "Validar e resumir"]
    );
}
