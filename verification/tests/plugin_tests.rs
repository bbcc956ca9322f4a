use gearbox_core::AppError;
use gearbox_core::PluginManager;
use gearbox_core::PluginStatus;

#[test]
fn new_registry_is_empty() {
    let m = PluginManager::new();
    assert!(m.list_plugins().is_empty());
}

#[test]
fn load_known_plugin_succeeds() {
    let mut m = PluginManager::new();
    assert!(m.load_plugin("logger").is_ok());
    let list = m.list_plugins();
    assert_eq!(list.len(), 1);
    let p = list[0];
    assert_eq!(p.name, "logger");
    assert_eq!(p.version, "0.1.0");
    assert_eq!(p.description, "logger plugin");
    assert!(matches!(p.status, PluginStatus::Loaded));
    assert!(p.features.is_empty());
    assert!(!p.id.is_empty());
}

#[test]
fn load_other_known_plugin_succeeds() {
    let mut m = PluginManager::new();
    assert!(m.load_plugin("influx-client").is_ok());
    let list = m.list_plugins();
    assert!(matches!(list[0].status, PluginStatus::Loaded));
}

#[test]
fn load_unknown_plugin_registers_error_entry() {
    let mut m = PluginManager::new();
    let r = m.load_plugin("mystery");
    match r {
        Err(AppError::Plugin { message }) => assert_eq!(message, "Unknown plugin: mystery"),
        _ => panic!("expected a plugin error"),
    }
    let list = m.list_plugins();
    assert_eq!(list.len(), 1);
    match &list[0].status {
        PluginStatus::Error(msg) => assert_eq!(msg, "Unknown plugin: mystery"),
        _ => panic!("the failed load should leave an error label"),
    }
}

#[test]
fn fresh_identifiers_for_each_load() {
    let mut m = PluginManager::new();
    m.load_plugin("logger").unwrap();
    m.load_plugin("logger").unwrap();
    let list = m.list_plugins();
    assert_eq!(list.len(), 2);
    assert_ne!(list[0].id, list[1].id);
}

#[test]
fn unload_relabels_the_entry() {
    let mut m = PluginManager::new();
    m.load_plugin("logger").unwrap();
    let id = m.list_plugins()[0].id.clone();
    assert!(m.unload_plugin(&id).is_ok());
    assert!(matches!(
        m.get_plugin_status(&id),
        Some(PluginStatus::Unloaded)
    ));
}

#[test]
fn unload_of_unknown_identifier_fails() {
    let mut m = PluginManager::new();
    match m.unload_plugin("nope") {
        Err(AppError::Plugin { message }) => assert_eq!(message, "Plugin not found: nope"),
        _ => panic!("expected a plugin error"),
    }
    assert!(m.list_plugins().is_empty());
}

#[test]
fn get_plugin_status_reports_presence() {
    let mut m = PluginManager::new();
    m.load_plugin("logger").unwrap();
    let id = m.list_plugins()[0].id.clone();
    assert!(matches!(
        m.get_plugin_status(&id),
        Some(PluginStatus::Loaded)
    ));
    assert!(m.get_plugin_status("absent").is_none());
}

#[test]
fn restart_unloads_and_loads_afresh() {
    let mut m = PluginManager::new();
    m.load_plugin("logger").unwrap();
    let id = m.list_plugins()[0].id.clone();
    assert!(m.restart_plugin(&id).is_ok());
    let list = m.list_plugins();
    assert_eq!(list.len(), 2);
    assert!(matches!(
        m.get_plugin_status(&id),
        Some(PluginStatus::Unloaded)
    ));
    let new_entry = list
        .iter()
        .find(|p| p.id != id)
        .expect("the reload registers a fresh entry");
    assert_eq!(new_entry.name, "logger");
    assert!(matches!(new_entry.status, PluginStatus::Loaded));
}

#[test]
fn restart_of_unknown_identifier_fails() {
    let mut m = PluginManager::new();
    match m.restart_plugin("ghost") {
        Err(AppError::Plugin { message }) => assert_eq!(message, "Plugin not found: ghost"),
        _ => panic!("expected a plugin error"),
    }
}

#[test]
fn error_descriptions_carry_their_category() {
    let e = AppError::Plugin { message: "boom".to_string() };
    assert_eq!(e.describe(), "Plugin error: boom");
    let e = AppError::Io { message: "closed".to_string() };
    assert_eq!(e.describe(), "IO error: closed");
    let e = AppError::Serialization { message: "bad json".to_string() };
    assert_eq!(e.describe(), "Serialization error: bad json");
    let e = AppError::Config { message: "bad field".to_string() };
    assert_eq!(e.describe(), "Configuration error: bad field");
    let e = AppError::Unknown { message: "eh".to_string() };
    assert_eq!(e.describe(), "Unknown error: eh");
}
