use codexu::llm_provider::{
    api_url, auth_attempt_order, cloud_base_url, drop_unsupported_parameter, endpoint_base_url, extract_text_from_cloud_payload,
    handle_unsupported_parameter_error, is_azure_endpoint, is_responses_url, model_recommendation_for_18gb,
    preferred_auth_mode, reply_lines, request_timeout_secs, resolved_cloud_request_url, sanitize_model_output,
    token_limit_field, validate_cloud_api_key, AuthMode, CloudExchange, CloudPayload, LlmProvider,
    ProviderError, ProviderKind, RemoteProvider,
};

#[test]
fn sanitizing_removes_markers_and_blank_lines() {
    let raw = "  <|im_start|>hello<|im_end|>  \n\n   \n world <|end|>\r\n_end|>";
    assert_eq!(sanitize_model_output(raw), "hello\nworld");
    assert_eq!(sanitize_model_output("   \n\t\n"), "");
    assert_eq!(sanitize_model_output("a\r\nb"), "a\nb");
}

#[test]
fn replies_fall_back_to_a_notice() {
    assert_eq!(reply_lines(ProviderKind::Docker, "  \n <|end|> "), vec!["[llm-docker] resposta vazia"]);
    assert_eq!(reply_lines(ProviderKind::Cloud, ""), vec!["[llm-cloud] resposta vazia"]);
    assert_eq!(reply_lines(ProviderKind::Cloud, "one\n\n two \n"), vec!["one", "two"]);
}

#[test]
fn endpoints_and_urls() {
    assert_eq!(endpoint_base_url(None), "http://127.0.0.1:11434");
    assert_eq!(endpoint_base_url(Some("http://h:1")), "http://h:1");
    assert_eq!(cloud_base_url(None), "https://api.openai.com");
    assert_eq!(api_url("http://127.0.0.1:11434//", "/api/generate"), "http://127.0.0.1:11434/api/generate");
    assert_eq!(resolved_cloud_request_url(" https://api.openai.com/ "), "https://api.openai.com/v1/chat/completions");
    let azure = "https://x.openai.azure.com/openai/deployments/d/chat/completions?api-version=2024";
    assert_eq!(resolved_cloud_request_url(azure), azure);
    assert_eq!(resolved_cloud_request_url("https://api.openai.com/v1/responses/"), "https://api.openai.com/v1/responses");
    assert!(is_azure_endpoint("https://x.openai.azure.com"));
    assert!(!is_azure_endpoint("https://api.openai.com"));
    assert!(is_responses_url("https://api.openai.com/v1/responses"));
    assert!(!is_responses_url("https://api.openai.com/v1/chat/completions"));
    assert_eq!(token_limit_field(true), "max_completion_tokens");
    assert_eq!(token_limit_field(false), "max_tokens");
}

#[test]
fn request_timeouts() {
    assert_eq!(request_timeout_secs(None), 180);
    assert_eq!(request_timeout_secs(Some(" 45 ")), 45);
    assert_eq!(request_timeout_secs(Some("+60")), 60);
    assert_eq!(request_timeout_secs(Some("29")), 180);
    assert_eq!(request_timeout_secs(Some("30")), 30);
    assert_eq!(request_timeout_secs(Some("abc")), 180);
    assert_eq!(request_timeout_secs(Some("99999999999999999999")), 180);
    assert_eq!(request_timeout_secs(Some("18446744073709551615")), 18446744073709551615);
}

#[test]
fn cloud_api_key_is_required() {
    let e = validate_cloud_api_key(None).unwrap_err();
    assert!(matches!(e, ProviderError::MissingApiKey));
    assert_eq!(e.message(), "cloud api key ausente");
    assert!(validate_cloud_api_key(Some("   ")).is_err());
    assert!(validate_cloud_api_key(Some("sk-1")).is_ok());
}

#[test]
fn unsupported_parameters_are_dropped_one_at_a_time() {
    let mut t = true;
    let mut p = true;
    assert!(handle_unsupported_parameter_error("Unsupported parameter: 'temperature' and 'top_p'", &mut t, &mut p));
    assert!(!t && p);
    assert!(handle_unsupported_parameter_error("UNSUPPORTED PARAMETER: 'top_p'", &mut t, &mut p));
    assert!(!t && !p);
    assert!(!handle_unsupported_parameter_error("Unsupported parameter: 'top_p'", &mut t, &mut p));
    let mut t2 = true;
    let mut p2 = true;
    assert!(!handle_unsupported_parameter_error("invalid temperature", &mut t2, &mut p2));
    assert!(t2 && p2);
}

#[test]
fn auth_modes() {
    assert_eq!(preferred_auth_mode(Some("API-KEY")), AuthMode::ApiKey);
    assert_eq!(preferred_auth_mode(Some("Bearer")), AuthMode::Bearer);
    assert_eq!(preferred_auth_mode(Some("basic")), AuthMode::Auto);
    assert_eq!(preferred_auth_mode(None), AuthMode::Auto);
    assert_eq!(auth_attempt_order(AuthMode::ApiKey, false), vec![AuthMode::ApiKey, AuthMode::Bearer]);
    assert_eq!(auth_attempt_order(AuthMode::Bearer, false), vec![AuthMode::Bearer, AuthMode::ApiKey]);
    assert_eq!(auth_attempt_order(AuthMode::Auto, true), vec![AuthMode::Bearer, AuthMode::ApiKey]);
    assert_eq!(auth_attempt_order(AuthMode::Auto, false), vec![AuthMode::Bearer]);
    assert_eq!(AuthMode::ApiKey.name(), "api-key");
}

#[test]
fn cloud_exchange_tries_modes_then_rounds() {
    let mut ex = CloudExchange::new(vec![AuthMode::Bearer, AuthMode::ApiKey]);
    let r = ex.next_request().unwrap();
    assert_eq!(r.auth, AuthMode::Bearer);
    assert!(r.include_temperature && r.include_top_p);
    ex.record_failure(401, "401 Unauthorized", "bad key");
    assert_eq!(ex.next_request().unwrap().auth, AuthMode::ApiKey);
    ex.record_failure(400, "400 Bad Request", "Unsupported parameter: 'temperature'");
    let r = ex.next_request().unwrap();
    assert_eq!(r.auth, AuthMode::Bearer);
    assert!(!r.include_temperature && r.include_top_p);
    ex.record_failure(500, "500 Internal Server Error", "oops");
    ex.record_failure(403, "403 Forbidden", "no");
    ex.record_failure(403, "403 Forbidden", "no");
    ex.record_failure(429, "429 Too Many Requests", "slow down");
    match ex.next_request() {
        Err(e) => assert_eq!(e.message(), "cloud retornou erro: auth=bearer -> HTTP 429 Too Many Requests: slow down"),
        Ok(_) => panic!("the exchange should have given up"),
    }
}

#[test]
fn cloud_exchange_gives_up_after_four_rounds() {
    let mut ex = CloudExchange::new(vec![AuthMode::Bearer]);
    let mut attempts = 0;
    while let Ok(req) = ex.next_request() {
        assert_eq!(req.auth, AuthMode::Bearer);
        attempts += 1;
        ex.record_failure(401, "401 Unauthorized", "x");
    }
    assert_eq!(attempts, 4);
    let mut empty = CloudExchange::new(vec![]);
    let e = empty.next_request().unwrap_err();
    assert_eq!(e.message(), "cloud retornou erro: ");
    let _ = &mut empty;
}

#[test]
fn cloud_payload_text() {
    let url = "https://api.openai.com/v1/responses";
    let p = CloudPayload { output_text: Some("direct".to_string()), output_texts: None, first_choice_content: Some("c".to_string()) };
    assert_eq!(extract_text_from_cloud_payload(&p, url), "direct");
    let p = CloudPayload {
        output_text: None,
        output_texts: Some(vec!["".to_string(), "a".to_string(), "b".to_string()]),
        first_choice_content: Some("c".to_string()),
    };
    assert_eq!(extract_text_from_cloud_payload(&p, url), "a\nb");
    let p = CloudPayload { output_text: None, output_texts: Some(vec![" ".to_string()]), first_choice_content: Some("c".to_string()) };
    assert_eq!(extract_text_from_cloud_payload(&p, url), "c");
    let p = CloudPayload { output_text: Some("direct".to_string()), output_texts: None, first_choice_content: None };
    assert_eq!(extract_text_from_cloud_payload(&p, "https://api.openai.com/v1/chat/completions"), "");
}

#[test]
fn remote_provider_is_a_stub() {
    let out = RemoteProvider::default().generate_stream("oi").unwrap();
    assert_eq!(out, vec!["[stub] provider remoto opcional será feito em M6"]);
    assert_eq!(model_recommendation_for_18gb(), "Docker: codellama:7b-instruct | Cloud: modelo compatível OpenAI");
}

#[test]
fn provider_failure_texts() {
    let e = ProviderError::Transport { message: "falha ao chamar endpoint cloud".to_string() };
    assert_eq!(e.message(), "falha ao chamar endpoint cloud");
    let e = ProviderError::CloudFailed { last_error: "auth=bearer -> HTTP 500: x".to_string() };
    assert_eq!(e.message(), "cloud retornou erro: auth=bearer -> HTTP 500: x");
}

#[test]
fn lowered_errors_drop_parameters() {
    let mut t = true;
    let mut p = true;
    assert!(drop_unsupported_parameter("unsupported parameter: 'top_p'", &mut t, &mut p));
    assert!(t && !p);
    let mut t = true;
    let mut p = true;
    assert!(!drop_unsupported_parameter("UNSUPPORTED PARAMETER: 'temperature'", &mut t, &mut p));
    assert!(t && p);
}

#[test]
fn sanitizing_twice_changes_nothing() {
    for raw in ["  a  \n\n b\r\n", "", "\n\n", "x\u{a0}\ny", "one\ntwo"] {
        let once = sanitize_model_output(raw);
        assert_eq!(sanitize_model_output(&once), once, "{raw:?}");
        assert!(once.is_empty() || once.split('\n').all(|l| !l.is_empty() && l.trim() == l));
    }
}
