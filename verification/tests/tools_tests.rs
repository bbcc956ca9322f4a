use gearbox_core::app_info;
use gearbox_core::tools::Base64ToolConfig;
use gearbox_core::tools::Base64ToolState;
use gearbox_core::tools::HashToolConfig;
use gearbox_core::tools::HashToolState;
use gearbox_core::tools::JsonFormatterConfig;
use gearbox_core::tools::JsonFormatterState;
use gearbox_core::tools::RegexToolConfig;
use gearbox_core::tools::RegexToolState;
use gearbox_core::tools::TimestampToolConfig;
use gearbox_core::tools::TimestampToolState;
use gearbox_core::tools::base64_tool_action;
use gearbox_core::tools::hash_tool_action;
use gearbox_core::tools::json_formatter_action;
use gearbox_core::tools::regex_tool_action;
use gearbox_core::tools::timestamp_tool_action;

#[test]
fn app_identity() {
    let info = app_info();
    assert_eq!(info.name, "KKAPE Gearbox");
    assert_eq!(info.version, "0.1.0");
    assert_eq!(info.description, "A modern tool collection platform");
}

#[test]
fn tool_configs_default_enabled() {
    assert!(Base64ToolConfig::default().enabled);
    assert!(HashToolConfig::default().enabled);
    assert!(JsonFormatterConfig::default().enabled);
    assert!(RegexToolConfig::default().enabled);
    assert!(TimestampToolConfig::default().enabled);
}

#[test]
fn tool_states_keep_their_config() {
    let c = Base64ToolConfig { enabled: false };
    assert_eq!(Base64ToolState::new(c).config(), c);
    let c = HashToolConfig { enabled: false };
    assert_eq!(HashToolState::new(c).config(), c);
    let c = JsonFormatterConfig { enabled: true };
    assert_eq!(JsonFormatterState::new(c).config(), c);
    let c = RegexToolConfig { enabled: false };
    assert_eq!(RegexToolState::new(c).config(), c);
    let c = TimestampToolConfig { enabled: true };
    assert_eq!(TimestampToolState::new(c).config(), c);
}

#[test]
fn tool_actions_acknowledge_their_input() {
    assert_eq!(base64_tool_action("abc"), "base64-tool processed: abc");
    assert_eq!(hash_tool_action("x"), "hash-tool processed: x");
    assert_eq!(json_formatter_action("{}"), "json-formatter processed: {}");
    assert_eq!(regex_tool_action("a+"), "regex-tool processed: a+");
    assert_eq!(timestamp_tool_action(""), "timestamp-tool processed: ");
}
