use todo_markup::config::{AliasTable, Config};

#[test]
fn new_table_is_empty() {
    let table = AliasTable::new();
    assert_eq!(table.len(), 0);
    assert_eq!(table.get(&"x".to_string()), None);
}

#[test]
fn insert_then_get() {
    let mut table = AliasTable::new();
    table.insert("x".to_string(), "DONE".to_string());
    table.insert("w".to_string(), "WAIT".to_string());
    assert_eq!(table.len(), 2);
    assert_eq!(table.get(&"x".to_string()), Some(&"DONE".to_string()));
    assert_eq!(table.get(&"w".to_string()), Some(&"WAIT".to_string()));
    assert_eq!(table.get(&"y".to_string()), None);
}

#[test]
fn insert_replaces_the_old_value() {
    let mut table = AliasTable::new();
    table.insert("x".to_string(), "DONE".to_string());
    table.insert("w".to_string(), "WAIT".to_string());
    table.insert("x".to_string(), "FINISHED".to_string());
    assert_eq!(table.len(), 2);
    assert_eq!(table.get(&"x".to_string()), Some(&"FINISHED".to_string()));
    assert_eq!(table.get(&"w".to_string()), Some(&"WAIT".to_string()));
}

#[test]
fn new_config_has_the_defaults() {
    let config = Config::new("notes".to_string());
    assert_eq!(config.directory, "notes");
    assert_eq!(config.template, None);
    assert_eq!(config.editor, None);
    assert_eq!(config.bullet_point, None);
    assert!(config.todo_state_ops.is_none());
    assert_eq!(config.todo_state.len(), 0);
    assert!(config.link_handlers.is_empty());
    assert!(config.brackets());
}

#[test]
fn config_knows_its_handlers() {
    let mut config = Config::new("notes".to_string());
    config.link_handlers.push("open".to_string());
    config.link_handlers.push("mail".to_string());
    assert!(config.knows_handler(&"open".to_string()));
    assert!(config.knows_handler(&"mail".to_string()));
    assert!(!config.knows_handler(&"ope".to_string()));
}
