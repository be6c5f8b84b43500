use yushi::json::Json;
use yushi::tools::{BashRun, BashTool, FileReadTool};

fn s(t: &str) -> Json {
    Json::Str(t.to_string())
}

#[test]
fn bash_requests() {
    let input = Json::Object(vec![
        ("cmd".to_string(), s("ls")),
        ("workdir".to_string(), s("/tmp")),
        ("env".to_string(), Json::Object(vec![("A".to_string(), s("1")), ("B".to_string(), Json::PosInt(2))])),
        ("timeout".to_string(), Json::PosInt(5)),
    ]);
    let q = BashTool::request(&input).unwrap();
    assert_eq!(q.cmd, "ls");
    assert_eq!(q.workdir, Some("/tmp".to_string()));
    assert_eq!(q.env, vec![("A".to_string(), "1".to_string())]);
    assert_eq!(q.timeout_secs, 5);
    let d = BashTool::request(&Json::Object(vec![("cmd".to_string(), s("pwd"))])).unwrap();
    assert_eq!(d.timeout_secs, 60);
    assert!(d.env.is_empty());
    assert_eq!(BashTool::request(&Json::Object(vec![])).unwrap_err(), "command is required");
}

#[test]
fn bash_answers() {
    assert_eq!(BashTool::answer(&BashRun::Finished("  out\n".to_string()), 60).unwrap(), "out");
    assert_eq!(BashTool::answer(&BashRun::TimedOut, 7).unwrap_err(), "Command execution timed out (7 seconds)");
    assert_eq!(BashTool::answer(&BashRun::WaitFailed("e".to_string()), 1).unwrap_err(), "Command execution failed: e");
    assert_eq!(BashTool::answer(&BashRun::SpawnFailed("no bash".to_string()), 1).unwrap_err(), "Failed to start command: no bash");
}

#[test]
fn file_reads() {
    let input = Json::Object(vec![("file_path".to_string(), s("/a.txt")), ("limit".to_string(), Json::PosInt(2))]);
    let q = FileReadTool::request(&input, "{}").unwrap();
    assert_eq!(q.file_path, "/a.txt");
    assert_eq!(q.offset, 0);
    assert_eq!(q.limit, Some(2));
    assert_eq!(FileReadTool::request(&Json::Object(vec![]), "{}").unwrap_err(), "missing or non-string file path {}");
    assert!(FileReadTool::is_image(".png"));
    assert!(!FileReadTool::is_image("png"));
    let d = FileReadTool::read_text_content("/a.txt", "l1\nl2\nl3\nl4\n", 1, Some(2));
    assert_eq!(d.content, "l2\nl3");
    assert_eq!(d.line_count, 2);
    assert_eq!(d.start_line, 1);
    assert_eq!(d.total_lines, 4);
    let past = FileReadTool::read_text_content("/a.txt", "l1\n", 5, None);
    assert_eq!(past.content, "");
    assert_eq!(past.start_line, 1);
    let j = FileReadTool::text_document(&d);
    assert_eq!(j.get("type").and_then(|v| v.as_str()), Some("text"));
    assert_eq!(j.get("total_lines").and_then(|v| v.as_u64()), Some(4));
}

#[test]
fn file_read_defaults_to_two_thousand_lines() {
    let text: String = (0..2500).map(|i| format!("line{}\n", i)).collect();
    let d = FileReadTool::read_text_content("/big.txt", &text, 0, None);
    assert_eq!(d.line_count, 2000);
    assert_eq!(d.start_line, 0);
    assert_eq!(d.total_lines, 2500);
    assert!(d.content.ends_with("line1999"));
    let rest = FileReadTool::read_text_content("/big.txt", &text, 2400, None);
    assert_eq!(rest.line_count, 100);
}

#[test]
fn file_read_cuts_long_lines() {
    let long = "x".repeat(2500);
    let text = format!("short\n{}\n", long);
    let d = FileReadTool::read_text_content("/long.txt", &text, 0, None);
    assert_eq!(d.line_count, 2);
    assert_eq!(d.content, format!("short\n{}", "x".repeat(2000)));
}
