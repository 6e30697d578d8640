use command_organiser::{Command, CommandStorageError, CommandStorageManager, UniqueColumn};

#[test]
fn test_manager_flow() {
    let mut manager = CommandStorageManager::new(true);

    let command = Command {
        executable: "git".to_string(),
        command: "git pull".to_string(),
        alias: "git_pull".to_string(),
        description: None,
    };

    manager.insert_command(command.clone()).unwrap();

    let commands = manager
        .get_commands_by_executable(command.executable.clone())
        .unwrap();

    println!("{:?}", commands);

    assert_eq!(commands.len(), 1);

    manager.delete_command(command).unwrap();

    let command = Command {
        executable: "ssh".to_string(),
        command: "ssh --version".to_string(),
        alias: "ssh_version".to_string(),
        description: None,
    };

    manager.insert_command(command.clone()).unwrap();

    let command = manager.get_command(command).unwrap();
    println!("Single command: {command:?}");

    assert_eq!(command.executable, "ssh".to_string());
}

fn record(executable: &str, command: &str, alias: &str) -> Command {
    Command::new(executable.to_string(), command.to_string(), alias.to_string(), None)
}

#[test]
fn rows_by_executable_keep_storage_order() {
    let mut manager = CommandStorageManager::new(false);
    manager.insert_command(record("ls", "ls .", "ls_current")).unwrap();
    manager.insert_command(record("git", "git pull", "git_pull")).unwrap();
    manager.insert_command(record("ls", "ls -a", "ls_all")).unwrap();
    let ls = manager.get_commands_by_executable("ls".to_string()).unwrap();
    let texts: Vec<&str> = ls.iter().map(|c| c.command.as_str()).collect();
    assert_eq!(texts, vec!["ls .", "ls -a"]);
    assert!(manager
        .get_commands_by_executable("ssh".to_string())
        .unwrap()
        .is_empty());
    let all = manager.get_all_commands().unwrap();
    let aliases: Vec<&str> = all.iter().map(|c| c.alias.as_str()).collect();
    assert_eq!(aliases, vec!["ls_current", "git_pull", "ls_all"]);
}

#[test]
fn storage_refuses_duplicates_by_column() {
    let mut manager = CommandStorageManager::new(true);
    manager.insert_command(record("ls", "ls .", "ls_current")).unwrap();
    assert!(matches!(
        manager.insert_command(record("ls", "ls .", "other")),
        Err(CommandStorageError::UniqueViolation(UniqueColumn::Command))
    ));
    assert!(matches!(
        manager.insert_command(record("cat", "cat x", "ls_current")),
        Err(CommandStorageError::UniqueViolation(UniqueColumn::Alias))
    ));
    assert!(matches!(
        manager.insert_command(record("ls", "ls -a", "ls_all")),
        Err(CommandStorageError::UniqueViolation(UniqueColumn::Executable))
    ));
    assert_eq!(manager.get_all_commands().unwrap().len(), 1);
    assert!(manager.unique_executable());
}

#[test]
fn storage_lookup_misses_are_not_found() {
    let mut manager = CommandStorageManager::new(false);
    assert!(manager.get_all_commands().unwrap().is_empty());
    assert!(matches!(
        manager.get_command(record("ls", "ls .", "x")),
        Err(CommandStorageError::NotFound)
    ));
    manager.insert_command(record("ls", "ls .", "ls_current")).unwrap();
    manager.delete_command(record("", "ls .", "")).unwrap();
    assert!(matches!(
        manager.get_command(record("ls", "ls .", "ls_current")),
        Err(CommandStorageError::NotFound)
    ));
    manager.delete_command(record("", "ls .", "")).unwrap();
    assert!(manager.get_all_commands().unwrap().is_empty());
}
