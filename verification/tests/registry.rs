use clawhive::registry::ToolRegistry;
use clawhive::tool::ToolError;

struct DummyTool {
    name: String,
}

impl DummyTool {
    fn new(name: &str) -> Self {
        Self { name: name.to_string() }
    }

    fn name(&self) -> &str {
        &self.name
    }
}

fn register(registry: &mut ToolRegistry<DummyTool>, name: &str, categories: &[&str]) {
    let cats: Vec<String> = categories.iter().map(|c| c.to_string()).collect();
    registry.register(name.to_string(), cats, DummyTool::new(name));
}

#[test]
fn test_registry_get_success() {
    let mut registry = ToolRegistry::new();
    register(&mut registry, "test_tool", &[]);

    let retrieved = registry.get("test_tool");
    assert!(retrieved.is_ok());
    assert_eq!(retrieved.unwrap().name(), "test_tool");
}

#[test]
fn test_registry_get_not_found() {
    let registry: ToolRegistry<DummyTool> = ToolRegistry::new();
    let retrieved = registry.get("non_existent_tool");
    assert!(retrieved.is_err());
    match retrieved {
        Err(ToolError::ToolNotFound(name)) => assert_eq!(name, "non_existent_tool"),
        _ => panic!("Expected ToolNotFound error"),
    }
}

#[test]
fn test_list_empty() {
    let registry: ToolRegistry<DummyTool> = ToolRegistry::new();
    let tools = registry.list();
    assert!(tools.is_empty());
}

#[test]
fn test_list_multiple_tools() {
    let mut registry = ToolRegistry::new();
    register(&mut registry, "tool1", &[]);
    register(&mut registry, "tool2", &[]);

    let tools = registry.list();
    assert_eq!(tools.len(), 2);

    let mut tool_names: Vec<&str> = tools.iter().map(|t| t.name()).collect();
    tool_names.sort_unstable();

    assert_eq!(tool_names, vec!["tool1", "tool2"]);
}

#[test]
fn test_list_names_empty() {
    let registry: ToolRegistry<DummyTool> = ToolRegistry::new();
    let names = registry.list_names();
    assert!(names.is_empty());
}

#[test]
fn test_list_names_multiple_tools() {
    let mut registry = ToolRegistry::new();
    register(&mut registry, "tool1", &[]);
    register(&mut registry, "tool2", &[]);

    let mut names = registry.list_names();
    assert_eq!(names.len(), 2);

    names.sort_unstable();
    assert_eq!(names, vec!["tool1", "tool2"]);
}

#[test]
fn registry_register_same_name_replaces() {
    let mut registry = ToolRegistry::new();
    register(&mut registry, "shell", &["system"]);
    register(&mut registry, "browser", &["web"]);
    registry.register("shell".to_string(), vec!["exec".to_string()], DummyTool::new("shell v2"));
    assert_eq!(registry.list_names(), vec!["shell", "browser"]);
    assert_eq!(registry.get("shell").unwrap().name(), "shell v2");
    assert!(registry.has_tool("browser"));
    assert!(!registry.has_tool("window"));
}

#[test]
fn registry_tools_for_categories_filters_in_order() {
    let mut registry = ToolRegistry::new();
    register(&mut registry, "shell", &["system", "exec"]);
    register(&mut registry, "browser", &["web"]);
    register(&mut registry, "screenshot", &["desktop", "system"]);
    let picked: Vec<&str> = registry.tools_for_categories(&["system"]).iter().map(|t| t.name()).collect();
    assert_eq!(picked, vec!["shell", "screenshot"]);
    let picked: Vec<&str> = registry.tools_for_categories(&["web", "exec"]).iter().map(|t| t.name()).collect();
    assert_eq!(picked, vec!["shell", "browser"]);
    assert!(registry.tools_for_categories(&["audio"]).is_empty());
    assert!(registry.tools_for_categories(&[]).is_empty());
}
