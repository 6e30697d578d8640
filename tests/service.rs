use command_organiser::service::derive_executable;
use command_organiser::{CommandService, CommandServiceError, CommandStorageError, UniqueColumn};

#[test]
fn test_insertion() {
    let mut service = CommandService::new(false);

    let inserted = service
        .insert_command("test command arguments", "my_test", None)
        .unwrap();

    assert_eq!(inserted.executable, "test".to_string());
    assert_eq!(inserted.command, "test command arguments".to_string());
}

#[test]
fn test_get_all_commands() {
    let mut service = CommandService::new(false);

    let _ = service
        .insert_command("test command arguments", "my_test", None)
        .unwrap();

    let _ = service
        .insert_command("test2 command arguments", "my_test2", None)
        .unwrap();

    let res = service.get_all_commands().unwrap();

    assert_eq!(res.len(), 2);
}

#[test]
fn test_get_command() {
    let mut service = CommandService::new(false);

    let command = service
        .insert_command("test command arguments", "my_test", None)
        .unwrap();

    let res = service
        .get_command(&command.command, &command.alias)
        .unwrap();

    assert_eq!(res.alias, "my_test".to_string());
}

#[test]
fn test_delete_command() {
    let mut service = CommandService::new(false);

    let command = service
        .insert_command("test command arguments", "my_test", None)
        .unwrap();

    let res = service
        .delete_command(&command.command, &command.alias, command.description)
        .unwrap();

    assert_eq!(res.alias, "my_test".to_string());
}

#[test]
fn insert_then_get_gives_first_token_as_executable() {
    let mut service = CommandService::new(false);
    service
        .insert_command("  docker   compose up -d", "up", Some("start".to_string()))
        .unwrap();
    let found = service.get_command("  docker   compose up -d", "ignored").unwrap();
    assert_eq!(found.executable, "docker");
    assert_eq!(found.command, "  docker   compose up -d");
    assert_eq!(found.alias, "up");
    assert_eq!(found.description, Some("start".to_string()));
}

#[test]
fn executable_splits_on_any_whitespace() {
    assert_eq!(derive_executable("ls").unwrap(), "ls");
    assert_eq!(derive_executable("git\tpull").unwrap(), "git");
    assert_eq!(derive_executable("\n  cargo\u{3000}build").unwrap(), "cargo");
    assert_eq!(derive_executable("échó\u{a0}x").unwrap(), "échó");
}

#[test]
fn empty_command_has_no_executable() {
    assert!(matches!(derive_executable(""), Err(CommandServiceError::NoExecutable)));
    assert!(matches!(derive_executable(" \t\n "), Err(CommandServiceError::NoExecutable)));

    let mut service = CommandService::new(false);
    assert!(matches!(
        service.insert_command("", "empty", None),
        Err(CommandServiceError::NoExecutable)
    ));
    assert!(matches!(
        service.insert_command("   ", "blank", None),
        Err(CommandServiceError::NoExecutable)
    ));
    assert!(matches!(
        service.get_command("", "empty"),
        Err(CommandServiceError::NoExecutable)
    ));
    assert!(matches!(
        service.delete_command(" ", "blank", None),
        Err(CommandServiceError::NoExecutable)
    ));
    assert_eq!(service.get_all_commands().unwrap().len(), 0);
}

#[test]
fn duplicate_command_is_refused_and_kept_once() {
    let mut service = CommandService::new(false);
    service.insert_command("git pull", "git_pull", None).unwrap();
    let second = service.insert_command("git pull", "other_alias", Some("again".to_string()));
    assert!(matches!(
        second,
        Err(CommandServiceError::StorageManagerInsertCommand(
            CommandStorageError::UniqueViolation(UniqueColumn::Command)
        ))
    ));
    let all = service.get_all_commands().unwrap();
    assert_eq!(all.iter().filter(|c| c.command == "git pull").count(), 1);
    assert_eq!(all[0].alias, "git_pull");
}

#[test]
fn duplicate_alias_is_refused() {
    let mut service = CommandService::new(false);
    service.insert_command("git pull", "g", None).unwrap();
    let second = service.insert_command("git push", "g", None);
    assert!(matches!(
        second,
        Err(CommandServiceError::StorageManagerInsertCommand(
            CommandStorageError::UniqueViolation(UniqueColumn::Alias)
        ))
    ));
    assert_eq!(service.get_all_commands().unwrap().len(), 1);
}

#[test]
fn delete_then_get_is_not_found() {
    let mut service = CommandService::new(false);
    service.insert_command("ls -a", "ls_all", None).unwrap();
    service.insert_command("ls .", "ls_current", None).unwrap();
    let deleted = service.delete_command("ls -a", "ls_all", None).unwrap();
    assert_eq!(deleted.executable, "ls");
    assert!(matches!(
        service.get_command("ls -a", "ls_all"),
        Err(CommandServiceError::StorageManagerGetCommand(CommandStorageError::NotFound))
    ));
    assert_eq!(service.get_command("ls .", "ls_current").unwrap().alias, "ls_current");
}

#[test]
fn delete_of_missing_command_is_no_error() {
    let mut service = CommandService::new(false);
    service.insert_command("ls .", "ls_current", None).unwrap();
    let res = service.delete_command("ls -la", "nothing", None).unwrap();
    assert_eq!(res.command, "ls -la");
    assert_eq!(service.get_all_commands().unwrap().len(), 1);
}

#[test]
fn fresh_service_lists_nothing() {
    let service = CommandService::new(false);
    assert!(service.get_all_commands().unwrap().is_empty());
    let strict = CommandService::new(true);
    assert!(strict.get_all_commands().unwrap().is_empty());
}

#[test]
fn shared_executable_depends_on_schema() {
    let mut strict = CommandService::new(true);
    strict.insert_command("ls .", "ls_current", None).unwrap();
    let refused = strict.insert_command("ls -a", "ls_all", None);
    assert!(matches!(
        refused,
        Err(CommandServiceError::StorageManagerInsertCommand(
            CommandStorageError::UniqueViolation(UniqueColumn::Executable)
        ))
    ));
    assert_eq!(strict.get_all_commands().unwrap().len(), 1);

    let mut relaxed = CommandService::new(false);
    relaxed.insert_command("ls .", "ls_current", None).unwrap();
    let stored = relaxed.insert_command("ls -a", "ls_all", None).unwrap();
    assert_eq!(stored.executable, "ls");
    assert_eq!(relaxed.get_all_commands().unwrap().len(), 2);
}
