use clawhive::toon::{encode_primitive_array, encode_string, ContextOutput, ToonContext, ToonEncoder, ToonError};

#[test]
fn strings_quoted_only_when_needed() {
    assert_eq!(encode_string("plain"), "plain");
    assert_eq!(encode_string("a,b"), "\"a,b\"");
    assert_eq!(encode_string("say \"hi\""), "\"say \\\"hi\\\"\"");
    assert_eq!(encode_string("two\nlines"), "\"two\\nlines\"");
    assert_eq!(encode_string(" padded"), "\" padded\"");
    assert_eq!(encode_string(""), "");
}

#[test]
fn primitive_arrays() {
    assert_eq!(encode_primitive_array("tools", &[]), "tools: []");
    let items = vec!["shell".to_string(), "a,b".to_string()];
    assert_eq!(encode_primitive_array("tools", &items), "tools[2]: shell,\"a,b\"");
    assert_eq!(ToonEncoder::encode_history(&["hi".to_string()]).unwrap(), "history[1]: hi");
    assert_eq!(ToonEncoder::encode_tools(&[]).unwrap(), "tools: []");
}

#[test]
fn context_is_header_then_sections_in_order() {
    let mut ctx = ToonContext::new();
    assert_eq!(ctx.build().unwrap(), "[TOON v1]");
    ctx.add_section("task", "id: 1".to_string());
    ctx.add_section("agents", "agents: []".to_string());
    assert_eq!(ctx.build().unwrap(), "[TOON v1]\n[task]\nid: 1\n[agents]\nagents: []");
}

#[test]
fn output_text_and_errors() {
    assert_eq!(ContextOutput::Json("{}".into()).to_string(), "{}");
    assert_eq!(ContextOutput::Toon("[TOON v1]".into()).to_string(), "[TOON v1]");
    assert_eq!(ToonError::Encoding("x".into()).message(), "Encoding error: x");
}
