use yushi::registry::App;

const AGENT_A: &str = "---\nname: writer\ndescription: Writes\ntools: Bash\n---\nYou write.";
const AGENT_A2: &str = "---\nname: writer\ndescription: Writes better\n---\nYou write well.";

#[test]
fn paths_under_the_root() {
    let app = App::new("/home/u/.yushi".to_string());
    assert_eq!(app.root_path(), "/home/u/.yushi");
    assert_eq!(app.agents_md(), "/home/u/.yushi/AGENTS.md");
    assert_eq!(app.agents_dir(), "/home/u/.yushi/agents");
    assert_eq!(app.history_dir(), "/home/u/.yushi/history");
}

#[test]
fn prompts_and_agents() {
    let mut app = App::new("r".to_string());
    app.add_prompt("sys");
    app.add_agent_prompt("agents");
    assert_eq!(app.system_prompt(), "sys");
    assert_eq!(app.agent_prompt(), "agents");
    app.add_agent(AGENT_A);
    app.add_agent("no front matter");
    assert_eq!(app.get_agent("writer").unwrap().description, "Writes");
    app.add_agent(AGENT_A2);
    assert_eq!(app.get_agent("writer").unwrap().description, "Writes better");
    assert!(app.get_agent("reader").is_none());
    assert_eq!(app.get_all_agent_types(), vec!["writer".to_string()]);
    assert_eq!(App::startup_prompt(Some("P"), "<skills></skills>"), "P\n<skills></skills>");
    assert_eq!(App::startup_prompt(None, "S"), "S");
}
