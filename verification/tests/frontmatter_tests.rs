use yushi::frontmatter::{agent_entry, load_agents, parse_agent_config, parse_frontmatter, parse_tools, skill_entry, SkillFile, SkillTool};
use yushi::json::Json;

const AGENT: &str = "---\nname: checker\ndescription: Checks code\nmodel: main\ntools: Bash, \"FileRead\" ,Task\n---\n\n  You check code.\n";

#[test]
fn frontmatter_entries_and_body() {
    let (meta, body) = parse_frontmatter("---\n# comment\nname: a\n\nkey: x: y\nname: b\nnocolon\n---\nline1\r\nline2\n").unwrap();
    assert_eq!(meta.get("name").map(|s| s.as_str()), Some("b"));
    assert_eq!(meta.get("key").map(|s| s.as_str()), Some("x: y"));
    assert!(meta.get("nocolon").is_none());
    assert!(meta.get("# comment").is_none());
    assert_eq!(body, "line1\nline2");
}

#[test]
fn frontmatter_errors() {
    assert_eq!(parse_frontmatter("name: a\n---\n---\n").unwrap_err(), "Invalid frontmatter format: missing opening ---");
    assert_eq!(parse_frontmatter("---\n---\n").unwrap_err(), "Invalid frontmatter format: missing opening ---");
    assert_eq!(parse_frontmatter("---\nname: a\nbody\n").unwrap_err(), "Invalid frontmatter format: missing closing ---");
    let (meta, body) = parse_frontmatter("  ---  \n---\nrest").unwrap();
    assert!(meta.get("name").is_none());
    assert_eq!(body, "rest");
}

#[test]
fn tools_are_split_and_unquoted() {
    assert_eq!(parse_tools("Bash, \"FileRead\" ,Task"), vec!["Bash", "FileRead", "Task"]);
    assert_eq!(parse_tools(""), vec![""]);
    assert_eq!(parse_tools("a,,b"), vec!["a", "", "b"]);
}

#[test]
fn agent_config_from_file() {
    let a = parse_agent_config(AGENT).unwrap();
    assert_eq!(a.agent_type, "checker");
    assert_eq!(a.description, "Checks code");
    assert_eq!(a.model_name, "main");
    assert_eq!(a.tools, vec!["Bash", "FileRead", "Task"]);
    assert_eq!(a.system_prompt, "You check code.");
    let bare = parse_agent_config("---\nx: 1\n---\n").unwrap();
    assert_eq!(bare.agent_type, "");
    assert!(bare.tools.is_empty());
    assert!(parse_agent_config("no front matter").is_none());
}

#[test]
fn listings_of_skills_and_agents() {
    let skill = "---\nname: pdf\ndescription: Reads PDFs\n---\nUse it.";
    assert_eq!(
        skill_entry(skill).unwrap(),
        "  <skill>\n    <name>pdf</name>\n    <description>Reads PDFs</description>\n  </skill>\n"
    );
    assert!(skill_entry("---\nname: x\n---\n").is_none());
    let files = vec![skill.to_string(), "junk".to_string()];
    assert_eq!(
        SkillTool::load_skills(Some(&files)),
        "<skills>\n  <skill>\n    <name>pdf</name>\n    <description>Reads PDFs</description>\n  </skill>\n</skills>"
    );
    assert_eq!(SkillTool::load_skills(None), "<skills></skills>");

    let agent = "---\nname: a<b\ndescription: \"q\"\n---\n";
    assert_eq!(agent_entry(agent).unwrap(), "    <agent name=\"a&lt;b\" description=\"&quot;q&quot;\" />\n");
    let files = vec![agent.to_string()];
    assert_eq!(
        load_agents(Some(&files)),
        "<available-agents>\n    <agent name=\"a&lt;b\" description=\"&quot;q&quot;\" />\n</available-agents>"
    );
    assert_eq!(load_agents(None), "");
    assert_eq!(load_agents(Some(&vec![])), "<available-agents>\n</available-agents>");
}

#[test]
fn skill_tool_replies() {
    let input = Json::Object(vec![("name".to_string(), Json::Str("pdf".to_string()))]);
    assert_eq!(SkillTool::requested_skill(&input).unwrap(), "pdf");
    assert_eq!(SkillTool::requested_skill(&Json::Object(vec![])).unwrap_err(), "Missing 'name' field in input");
    assert_eq!(SkillTool::reply("pdf", &SkillFile::Missing).unwrap_err(), "Skill 'pdf' not found");
    assert_eq!(
        SkillTool::reply("pdf", &SkillFile::Unreadable("denied".to_string())).unwrap_err(),
        "Failed to read skill file: denied"
    );
    let content = SkillFile::Content("---\ndescription: d\n---\n  Guide text \n".to_string());
    assert_eq!(SkillTool::reply("pdf", &content).unwrap(), "<skill><name>pdf</name><guide>Guide text</guide></skill>");
    let named = SkillFile::Content("---\nname: PDF\n---\nG".to_string());
    assert_eq!(SkillTool::reply("pdf", &named).unwrap(), "<skill><name>PDF</name><guide>G</guide></skill>");
    assert_eq!(
        SkillTool::reply("pdf", &SkillFile::Content("plain".to_string())).unwrap_err(),
        "Failed to parse skill metadata"
    );
}
