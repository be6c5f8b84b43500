use yushi::rule::DocError;
use yushi::source::{DataFormat, EventSource, EventSources, SourceType};

#[test]
fn test_clock_source() {
    let clock = EventSource::clock();
    assert_eq!(clock.id, "clock");
    assert_eq!(clock.source_type, SourceType::Internal);
    assert!(clock.is_clock());
}

#[test]
fn test_default_with_clock() {
    let sources = EventSources::default_with_clock();
    assert_eq!(sources.sources.len(), 1);
    assert!(sources.sources[0].is_clock());
}

#[test]
fn test_to_xml() {
    let sources = EventSources {
        sources: vec![
            EventSource::clock(),
            EventSource {
                id: "sensor_001".to_string(),
                name: "设备传感器".to_string(),
                source_type: SourceType::Mqtt,
                endpoint: Some("mqtt://localhost:1883".to_string()),
                topic: Some("sensors/device01".to_string()),
                format: Some(DataFormat::Json),
                poll_interval_ms: None,
            },
        ],
    };
    let xml = sources.to_xml();
    assert!(xml.contains("xmlns:x=\"/nop/schema/xdsl.xdef\""));
    assert!(xml.contains("id=\"clock\""));
    assert!(xml.contains("type=\"internal\""));
    assert!(xml.contains("id=\"sensor_001\""));
    assert!(xml.contains("type=\"mqtt\""));
    assert!(xml.contains("endpoint=\"mqtt://localhost:1883\""));
}

#[test]
fn source_test_from_xml() {
    let xml = r#"
        <EventSources xmlns:x="/nop/schema/xdsl.xdef">
            <source id="clock" name="系统时钟" type="internal" />
            <source id="sensor_001" name="设备传感器" type="mqtt"
                    endpoint="mqtt://localhost:1883" topic="sensors/device01"
                    format="json" />
        </EventSources>
        "#;
    let sources = EventSources::from_xml(xml).unwrap();
    assert_eq!(sources.sources.len(), 2);
    assert_eq!(sources.sources[0].id, "clock");
    assert_eq!(sources.sources[0].source_type, SourceType::Internal);
    assert_eq!(sources.sources[1].id, "sensor_001");
    assert_eq!(sources.sources[1].source_type, SourceType::Mqtt);
    assert_eq!(sources.sources[1].endpoint, Some("mqtt://localhost:1883".to_string()));
}

#[test]
fn test_to_delta_xml() {
    let sources = EventSources::default_with_clock();
    let xml = sources.to_delta_xml("base.xml");
    assert!(xml.contains("x:extends=\"base.xml\""));
}

#[test]
fn source_lines_are_joined_by_newlines() {
    let xml = EventSources::default_with_clock().to_xml();
    assert_eq!(
        xml,
        "<EventSources xmlns:x=\"/nop/schema/xdsl.xdef\">\n    <source id=\"clock\" name=\"系统时钟\" type=\"internal\" />\n</EventSources>"
    );
}

#[test]
fn source_type_parsing_ignores_case() {
    assert_eq!(SourceType::from_str("MQTT"), Some(SourceType::Mqtt));
    assert_eq!(DataFormat::from_str("Csv"), Some(DataFormat::Csv));
    assert_eq!(SourceType::from_str("ftp"), None);
}

#[test]
fn source_errors() {
    let missing_id = "<EventSources><source name=\"n\" type=\"http\" /></EventSources>";
    assert_eq!(EventSources::from_xml(missing_id).unwrap_err(), DocError::MissingId);
    let missing_name = "<EventSources><source id=\"i\" /></EventSources>";
    assert_eq!(EventSources::from_xml(missing_name).unwrap_err(), DocError::MissingName);
    let bad_type = "<EventSources><source id=\"i\" name=\"n\" type=\"ftp\" /></EventSources>";
    assert_eq!(EventSources::from_xml(bad_type).unwrap_err(), DocError::InvalidSourceType("ftp".to_string()));
    let bad_format = "<EventSources><source id=\"i\" name=\"n\" format=\"xml\" /></EventSources>";
    assert_eq!(EventSources::from_xml(bad_format).unwrap_err(), DocError::InvalidFormat("xml".to_string()));
    let bad_number = "<EventSources><source id=\"i\" name=\"n\" poll-interval-ms=\"soon\" /></EventSources>";
    assert_eq!(EventSources::from_xml(bad_number).unwrap_err(), DocError::InvalidNumber("soon".to_string()));
}

#[test]
fn poll_interval_round_trips() {
    let s = EventSource {
        id: "f".to_string(),
        name: "file".to_string(),
        source_type: SourceType::File,
        endpoint: None,
        topic: None,
        format: Some(DataFormat::Text),
        poll_interval_ms: Some(-250),
    };
    let xml = EventSources { sources: vec![s] }.to_xml();
    assert!(xml.contains("poll-interval-ms=\"-250\""));
    let back = EventSources::from_xml(&xml).unwrap();
    assert_eq!(back.sources[0].poll_interval_ms, Some(-250));
    assert_eq!(back.sources[0].format, Some(DataFormat::Text));
}
