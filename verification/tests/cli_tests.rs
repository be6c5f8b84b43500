use yushi::cli::{
    add_dependency, agent_manifest, build_plan, dep_line, is_upper_camel_case, manifest_fits, register_tool,
    remove_dependency, remove_workspace_member, to_snake_case, unregister_tool,
};

fn args(v: &[&str]) -> Vec<String> {
    v.iter().map(|s| s.to_string()).collect()
}

#[test]
fn tool_names() {
    assert!(is_upper_camel_case("MyTool2"));
    assert!(!is_upper_camel_case("myTool"));
    assert!(!is_upper_camel_case("My_Tool"));
    assert!(!is_upper_camel_case(""));
    assert_eq!(to_snake_case("MyToolName"), "my_tool_name");
    assert_eq!(to_snake_case("HTTPGet"), "h_t_t_p_get");
    assert_eq!(to_snake_case("abc"), "abc");
}

#[test]
fn build_commands() {
    let p = build_plan(&args(&["--release", "--target", "aarch64"]));
    assert_eq!(p.program, "cross");
    assert_eq!(p.args, args(&["build", "--release", "--target", "aarch64"]));
    assert!(p.release);
    assert_eq!(p.deb_target, Some("aarch64".to_string()));
    let q = build_plan(&args(&["-v"]));
    assert_eq!(q.program, "cargo");
    assert!(!q.release);
    assert_eq!(q.deb_target, None);
    let r = build_plan(&args(&["--target=x86", "--release"]));
    assert_eq!(r.program, "cross");
    assert_eq!(r.deb_target, Some("x86".to_string()));
    let s = build_plan(&args(&["--target", "--release"]));
    assert!(!s.release);
    assert_eq!(s.program, "cross");
}

#[test]
fn adding_and_removing_a_tool() {
    let line = dep_line("my_tool");
    assert_eq!(line, "my_tool = { path = \"../tools/my_tool\" }\n");
    let toml = "[package]\nname = \"a\"\n\n[dependencies]\nx = 1\n";
    let added = add_dependency(toml, &line);
    assert_eq!(added, "[package]\nname = \"a\"\n\n[dependencies]\nmy_tool = { path = \"../tools/my_tool\" }\nx = 1\n");
    assert_eq!(add_dependency(&added, &line), added);
    assert_eq!(add_dependency("[dependencies]\n", &line), format!("[dependencies]\n{}", line));
    assert_eq!(add_dependency("[package]", &line), format!("[package]\n[dependencies]\n{}", line));
    assert_eq!(remove_dependency(&added, &line), toml);

    let main_rs = "use app::App;\nfn main() {\n    app.run()\n}\n";
    let reg = register_tool(main_rs, "my_tool", "MyTool");
    assert_eq!(reg, "use app::App;\nuse my_tool::MyTool;\nfn main() {\n    app.add_tools(MyTool);\n    app.run()\n}\n");
    assert_eq!(register_tool(&reg, "my_tool", "MyTool"), reg);
    assert_eq!(unregister_tool(&reg, "my_tool", "MyTool"), main_rs);
}

#[test]
fn agent_manifest_inserts_metadata_before_dependencies() {
    let toml = "[package]\nname = \"a\"\n\n[dependencies]\n";
    assert!(manifest_fits(toml));
    let out = agent_manifest(toml);
    assert!(out.starts_with("[package]\nname = \"a\"\ndescription = \"Yushi AI Agent\"\n"));
    assert!(out.contains("\n\n[dependencies]\nrust-embed = \"8.9.0\"\n"));
    assert!(out.ends_with("]\n"));
    assert_eq!(out.matches("[dependencies]").count(), 1);
}

#[test]
fn agent_manifest_adds_dependencies_header() {
    let out = agent_manifest("[package]\n");
    assert!(out.starts_with("[package]\ndescription = "));
    assert!(out.contains("\n[dependencies]\nrust-embed"));
    assert!(!manifest_fits("[dependencies]\n"));
}

#[test]
fn workspace_member_removed_from_one_line_array() {
    let toml = "[workspace]\nmembers = [\"a\", \"b\", \"c\"]\n[profile]\nx = 1";
    assert_eq!(remove_workspace_member(toml, "b"), "[workspace]\nmembers = [\"a\", \"c\"]\n[profile]\nx = 1");
    assert_eq!(remove_workspace_member(toml, "c"), "[workspace]\nmembers = [\"a\", \"b\"]\n[profile]\nx = 1");
}

#[test]
fn workspace_member_removed_from_multi_line_array() {
    let toml = "[workspace]\nmembers = [\n  \"tools/x\",\n  \"tools/y\",\n]\n";
    assert_eq!(remove_workspace_member(toml, "tools/x"), "[workspace]\nmembers = [\n  \"tools/y\",\n]");
}

#[test]
fn workspace_member_outside_workspace_kept() {
    let toml = "[package]\nmembers = [\"b\"]";
    assert_eq!(remove_workspace_member(toml, "b"), toml);
}

#[test]
fn removing_an_empty_dependency_line_keeps_the_manifest() {
    let toml = "[dependencies]\nserde = \"1\"\n";
    assert_eq!(remove_dependency(toml, ""), toml);
}
