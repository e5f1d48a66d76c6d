use clawhive::models::{
    convert_model, convert_to_configs, find_template, find_template_from, get_provider_slot, resolve_step, provider_config, sort_by_name, substitute_template,
    template_name, ModelEntry, ModelLimit, ModelModalities, ModelProfile, ModelsDevError, ProviderConfig,
    ProviderEntry,
};

fn entry() -> ModelEntry {
    ModelEntry {
        id: "gpt-4o".to_string(),
        name: "GPT-4o".to_string(),
        description: None,
        reasoning: false,
        tool_call: true,
        structured_output: None,
        temperature: true,
        limit: Some(ModelLimit { context: Some(128_000), input: None, output: Some(16_384) }),
        modalities: Some(ModelModalities {
            input: vec!["text".to_string(), "image".to_string()],
            output: vec!["text".to_string()],
        }),
        open_weights: None,
    }
}

#[test]
fn test_convert_model_basic() {
    let profile = convert_model("openai", &entry());
    assert_eq!(profile.id, "gpt-4o");
    assert_eq!(profile.context_window, 128_000);
    assert_eq!(profile.max_output_tokens, 16_384);
    assert!(profile.suitable_for.contains(&"coding".to_string()));
    assert!(profile.suitable_for.contains(&"vision".to_string()));
}

#[test]
fn model_defaults_and_tag_order() {
    let mut e = entry();
    e.limit = None;
    e.reasoning = true;
    e.open_weights = Some(true);
    e.modalities = Some(ModelModalities { input: vec!["audio".to_string()], output: vec!["video".to_string()] });
    let p = convert_model("x", &e);
    assert_eq!(p.context_window, 128_000);
    assert_eq!(p.max_output_tokens, 8_192);
    assert_eq!(p.provider, "x");
    assert_eq!(p.suitable_for, vec!["general", "reasoning", "coding", "video", "audio", "open"]);
}

fn provider(name: &str, api: Option<&str>, models: usize) -> ProviderEntry {
    let m: Vec<ModelProfile> = (0..models).map(|_| convert_model(name, &entry())).collect();
    ProviderEntry {
        name: format!("{name} Inc"),
        env: vec![],
        api: api.map(|s| s.to_string()),
        doc: None,
        models: m,
    }
}

#[test]
fn provider_usability() {
    let c = provider_config("groq", provider("groq", Some("https://api.groq.com/v1"), 1), "https://api.groq.com/v1").unwrap();
    assert_eq!(c.api_key_env, "API_KEY");
    assert_eq!(c.notes, "groq Inc");
    assert!(provider_config("native", provider("native", None, 1), "").is_none());
    assert!(provider_config("empty", provider("empty", Some("u"), 0), "u").is_none());
    assert!(provider_config("tmpl", provider("tmpl", Some("u"), 1), "https://${HOST}/v1").is_none());
}

#[test]
fn providers_sorted_and_found() {
    let mk = |n: &str| ProviderConfig {
        name: n.to_string(),
        base_url: String::new(),
        api_key_env: String::new(),
        notes: String::new(),
        models: vec![],
    };
    let sorted = sort_by_name(vec![mk("openai"), mk("groq"), mk("deepseek"), mk("groq")]);
    let names: Vec<String> = sorted.iter().map(|c| c.name.clone()).collect();
    assert_eq!(names, vec!["deepseek", "groq", "groq", "openai"]);
    assert_eq!(get_provider_slot(&sorted, "openai"), Some(3));
    assert_eq!(get_provider_slot(&sorted, "groq"), Some(1));
    assert_eq!(get_provider_slot(&sorted, "nope"), None);
}

#[test]
fn template_steps() {
    let url = "https://api.example.com/${TEST_VAR}/v1";
    let (a, b) = find_template(url).unwrap();
    assert_eq!(template_name(url, a + 2, b), "TEST_VAR");
    assert_eq!(substitute_template(url, a, b, "hello"), "https://api.example.com/hello/v1");
    assert_eq!(find_template("https://plain/v1"), None);
    assert_eq!(find_template("https://x/${OPEN"), None);
}

#[test]
fn models_dev_error_text() {
    assert_eq!(ModelsDevError::Http("timeout".into()).message(), "HTTP error fetching models.dev: timeout");
    assert_eq!(ModelsDevError::Parse("eof".into()).message(), "Parse error reading models.dev data: eof");
}

#[test]
fn template_resolution_keeps_unset_variables() {
    let url = "https://${HOST}/${VER}/x";
    let (a, b) = find_template_from(url, 0).unwrap();
    assert_eq!((a, b), (8, 14));
    // HOST set: filled, and the scan resumes after the value.
    let (u, next) = resolve_step(url, a, b, Some("api.example.com"));
    assert_eq!(u, "https://api.example.com/${VER}/x");
    assert_eq!(next, 23);
    let (a, b) = find_template_from(&u, next).unwrap();
    // VER not set: the placeholder stays and the scan moves past it.
    let (u2, next) = resolve_step(&u, a, b, None);
    assert_eq!(u2, "https://api.example.com/${VER}/x");
    assert_eq!(find_template_from(&u2, next), None);
    assert_eq!(find_template_from("https://x/${OPEN", 0), None);
}

#[test]
fn catalog_conversion() {
    let ps = vec![
        ("zeta".to_string(), provider("zeta", Some("https://z/v1"), 2), "https://z/v1".to_string()),
        ("native".to_string(), provider("native", None, 1), String::new()),
        ("alpha".to_string(), provider("alpha", Some("https://a/v1"), 1), "https://a/v1".to_string()),
        ("empty".to_string(), provider("empty", Some("https://e/v1"), 0), "https://e/v1".to_string()),
        ("tmpl".to_string(), provider("tmpl", Some("https://${HOST}/v1"), 1), "https://${HOST}/v1".to_string()),
    ];
    let cs = convert_to_configs(ps);
    let names: Vec<&str> = cs.iter().map(|c| c.name.as_str()).collect();
    assert_eq!(names, vec!["alpha", "zeta"]);
    assert_eq!(cs[1].base_url, "https://z/v1");
    assert_eq!(cs[1].models.len(), 2);
}
