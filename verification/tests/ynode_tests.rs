use yushi::ynode::{OverrideRule, YNode};

fn s(x: &str) -> String {
    x.to_string()
}

#[test]
fn test_override_rule_from_str() {
    assert_eq!(OverrideRule::from_str("merge"), OverrideRule::Merge);
    assert_eq!(OverrideRule::from_str("append"), OverrideRule::Append);
    assert_eq!(OverrideRule::from_str("prepend"), OverrideRule::Prepend);
    assert_eq!(OverrideRule::from_str("replace"), OverrideRule::Replace);
    assert_eq!(OverrideRule::from_str("delete"), OverrideRule::Delete);
    assert_eq!(OverrideRule::from_str("unknown"), OverrideRule::Merge);
}

#[test]
fn test_merge_nodes() {
    let base = YNode::new(s("root")).with_attr(s("a"), s("1")).with_attr(s("b"), s("2"));
    let delta = YNode::new(s("root")).with_attr(s("b"), s("3")).with_attr(s("c"), s("4"));
    let result = base.merge_with(&delta, OverrideRule::Merge);
    assert_eq!(result.attr("a").unwrap(), "1");
    assert_eq!(result.attr("b").unwrap(), "3");
    assert_eq!(result.attr("c").unwrap(), "4");
}

#[test]
fn test_append_children() {
    let mut base = YNode::new(s("root"));
    base.add_child(YNode::new(s("child1")));
    let mut delta = YNode::new(s("root"));
    delta.add_child(YNode::new(s("child2")));
    let result = base.merge_with(&delta, OverrideRule::Append);
    assert_eq!(result.children.len(), 2);
    assert_eq!(result.children[0].tag_name, "child1");
    assert_eq!(result.children[1].tag_name, "child2");
}

#[test]
fn test_merge_nodes_with_key_matching() {
    let mut base = YNode::new(s("root"));
    base.add_child(YNode::new(s("toolcall")).with_attr(s("id"), s("tc1")).with_attr(s("tool"), s("tool_a")));
    base.add_child(YNode::new(s("toolcall")).with_attr(s("id"), s("tc2")).with_attr(s("tool"), s("tool_b")));
    let mut delta = YNode::new(s("root"));
    delta.add_child(YNode::new(s("toolcall")).with_attr(s("id"), s("tc3")).with_attr(s("tool"), s("tool_c")));
    let result = base.merge_with(&delta, OverrideRule::Merge);
    assert_eq!(result.children.len(), 3);
    assert_eq!(result.children[0].attr("id").unwrap(), "tc1");
    assert_eq!(result.children[1].attr("id").unwrap(), "tc2");
    assert_eq!(result.children[2].attr("id").unwrap(), "tc3");
}

#[test]
fn test_merge_nodes_same_id_override() {
    let mut base = YNode::new(s("root"));
    base.add_child(YNode::new(s("toolcall")).with_attr(s("id"), s("tc1")).with_attr(s("tool"), s("original_tool")));
    let mut delta = YNode::new(s("root"));
    delta.add_child(YNode::new(s("toolcall")).with_attr(s("id"), s("tc1")).with_attr(s("tool"), s("updated_tool")));
    let result = base.merge_with(&delta, OverrideRule::Merge);
    assert_eq!(result.children.len(), 1);
    assert_eq!(result.children[0].attr("id").unwrap(), "tc1");
    assert_eq!(result.children[0].attr("tool").unwrap(), "updated_tool");
}

#[test]
fn test_merge_nodes_no_key_fallback() {
    let mut base = YNode::new(s("root"));
    base.add_child(YNode::new(s("child")).with_attr(s("value"), s("base_value")));
    let mut delta = YNode::new(s("root"));
    delta.add_child(YNode::new(s("child")).with_attr(s("value"), s("delta_value")));
    let result = base.merge_with(&delta, OverrideRule::Merge);
    assert_eq!(result.children.len(), 1);
    assert_eq!(result.children[0].attr("value").unwrap(), "delta_value");
}

#[test]
fn ynode_test_from_xml() {
    let device = r#"
            <device name="string" hetu:name="DeviceModel" x:schema="/hetu/schema/hetu.htd" xmlns:x="/hetu/schema/delta.htd" xmlns:hetu="/hetu/schema/hetu.htd">
                <description hetu:value="string"/>
                <connections hetu:body-type="list" hetu:key-attr="name">
                    <connection name="string" hetu:name="DeviceConnectionModel" port="string" baudrate="number" bytesize="number" parity="string" stopbits="number" crlf="string"/>
                </connections>
            </device>
        "#;
    let root = YNode::from_str(device).unwrap();
    assert_eq!(root.tag_name, "device");
    assert_eq!(root.children.len(), 2);
    assert_eq!(root.attr_count(), 3);
    assert_eq!(root.attr("name"), Some(s("string")));
    assert_eq!(root.attr("hetu:name"), Some(s("DeviceModel")));
    assert_eq!(root.attr("x:schema"), Some(s("/hetu/schema/hetu.htd")));
    let node = &root.children[0];
    assert_eq!(node.tag_name, "description");
    assert_eq!(node.attr_count(), 1);
    assert_eq!(node.attr("hetu:value"), Some(s("string")));
    let node = &root.children[1];
    assert_eq!(node.tag_name, "connections");
    assert_eq!(node.children.len(), 1);
    assert_eq!(node.attr_count(), 2);
    assert_eq!(node.attr("hetu:body-type"), Some(s("list")));
    assert_eq!(node.attr("hetu:key-attr"), Some(s("name")));
    let node = &node.children[0];
    assert_eq!(node.tag_name, "connection");
    assert_eq!(node.children.len(), 0);
    assert_eq!(node.attr_count(), 8);
    assert_eq!(node.attr("port"), Some(s("string")));
    assert_eq!(node.attr("crlf"), Some(s("string")));
}

#[test]
fn test_from_str() {
    let xml = r#"<?xml version="1.0" encoding="UTF-8"?>
<task source-session="test" created-at-ms="123">
    <step tool="Bash">
        <arguments>{"command":"echo hello"}</arguments>
    </step>
</task>"#;
    let root = YNode::from_str(xml).unwrap();
    assert_eq!(root.tag_name, "task");
    assert_eq!(root.attr_count(), 2);
    assert_eq!(root.attr("source-session"), Some(s("test")));
    assert_eq!(root.children.len(), 1);
    let step = &root.children[0];
    assert_eq!(step.tag_name, "step");
    assert_eq!(step.attr("tool"), Some(s("Bash")));
    assert_eq!(step.children.len(), 1);
    let args = &step.children[0];
    assert_eq!(args.tag_name, "arguments");
    assert!(args.has_child());
    if let Some(child) = args.children.first() {
        if let Some(content) = child.content_str() {
            assert!(content.contains("echo hello"));
        }
    }
}

#[test]
fn test_self_closing_tags() {
    let xml = r#"<?xml version="1.0" encoding="UTF-8"?>
<Memory id="test">
    <toolcall id="3" name="Skill" arguments="{&quot;name&quot;: &quot;weather&quot;}" status="success" />
    <toolcall id="5" name="Bash" arguments="{&quot;cmd&quot;: &quot;curl&quot;}" status="failed" />
</Memory>"#;
    let root = YNode::from_str(xml).unwrap();
    assert_eq!(root.tag_name, "Memory");
    assert_eq!(root.children.len(), 2);
    let tc1 = &root.children[0];
    assert_eq!(tc1.tag_name, "toolcall");
    assert_eq!(tc1.attr("name").unwrap_or_default(), "Skill");
    assert_eq!(tc1.attr("status").unwrap_or_default(), "success");
    let args = tc1.attr("arguments").unwrap_or_default();
    assert!(args.contains("weather"), "arguments should contain 'weather', got: {}", args);
    let tc2 = &root.children[1];
    assert_eq!(tc2.attr("status").unwrap_or_default(), "failed");
}

#[test]
fn to_xml_writes_indented_text() {
    let mut root = YNode::new(s("a")).with_attr(s("k"), s("v"));
    root.add_child(YNode::new(s("b")));
    root.add_child(YNode::new(s("c")).with_content(s("t")));
    assert_eq!(root.to_xml(), "<a k=\"v\">\n  <b/>\n  <c>t</c>\n</a>\n");
}

#[test]
fn prepend_replace_delete() {
    let mut base = YNode::new(s("r"));
    base.add_child(YNode::new(s("x")));
    let mut delta = YNode::new(s("r")).with_attr(s("x:override"), s("prepend")).with_attr(s("n"), s("1"));
    delta.add_child(YNode::new(s("y")));
    let p = base.merge_with(&delta, OverrideRule::Prepend);
    assert_eq!(p.children[0].tag_name, "y");
    assert_eq!(p.children[1].tag_name, "x");
    assert_eq!(p.attr("x:override"), None);
    assert_eq!(p.attr("n"), Some(s("1")));
    assert_eq!(base.merge_with(&delta, OverrideRule::Replace).attr("x:override"), Some(s("prepend")));
    assert_eq!(base.merge_with(&delta, OverrideRule::Delete).children.len(), 1);
    assert_eq!(delta.get_override_rule(), OverrideRule::Prepend);
}

#[test]
fn extends_paths_are_trimmed_and_nonempty() {
    let n = YNode::new(s("r")).with_attr(s("x:extends"), s(" a.xml , ,b.xml,"));
    assert_eq!(n.get_extends_paths(), Some(vec![s("a.xml"), s("b.xml")]));
    assert_eq!(YNode::new(s("r")).get_extends_paths(), None);
}

#[test]
fn process_extends_merges_onto_base() {
    let delta = YNode::from_str("<r x:extends=\"base.xml\" xmlns:x=\"u\"><i id=\"2\"/></r>").unwrap();
    let merged = delta.process_extends(&vec![(s("base.xml"), s("<r><i id=\"1\"/></r>"))]).unwrap();
    assert_eq!(merged.children.len(), 2);
    assert_eq!(merged.children[0].attr("id"), Some(s("1")));
    assert!(YNode::from_str("").is_err());
    assert!(YNode::from_str("<a>").is_err());
}

#[test]
fn process_extends_follows_the_chain() {
    let dir = vec![
        (s("a.xml"), s("<R><c id=\"1\"/></R>")),
        (s("b.xml"), s("<R xmlns:x=\"x\" x:extends=\"a.xml\"><c id=\"2\"/></R>")),
    ];
    let node = YNode::from_str("<R xmlns:x=\"x\" x:extends=\"b.xml\"><c id=\"3\"/></R>").unwrap();
    let m = node.process_extends(&dir).unwrap();
    let ids: Vec<Option<String>> = m.children.iter().map(|c| c.attr("id")).collect();
    assert_eq!(ids, vec![Some(s("1")), Some(s("2")), Some(s("3"))]);
    let plain = YNode::from_str("<R><c id=\"9\"/></R>").unwrap();
    assert_eq!(plain.process_extends(&dir).unwrap().to_xml(), plain.to_xml());
    let missing = YNode::from_str("<R xmlns:x=\"x\" x:extends=\"nope.xml\"/>").unwrap();
    assert!(missing.process_extends(&dir).is_err());
    let looped = vec![(s("l.xml"), s("<R xmlns:x=\"x\" x:extends=\"l.xml\"/>"))];
    let start = YNode::from_str("<R xmlns:x=\"x\" x:extends=\"l.xml\"/>").unwrap();
    assert!(start.process_extends(&looped).is_err());
}
