use command_organiser::{
    populate_db, Command, CommandService, CommandServiceError, CommandStorageError, UniqueColumn,
};

fn rec(command: &str, alias: &str, description: Option<&str>) -> Command {
    Command::new(
        String::new(),
        command.to_string(),
        alias.to_string(),
        description.map(|d| d.to_string()),
    )
}

#[test]
fn import_reports_each_failure_and_goes_on() {
    let mut service = CommandService::new(false);
    let outcomes = populate_db(
        &mut service,
        vec![
            rec("git pull", "git_pull", Some("Just a git pull")),
            rec("   ", "blank", None),
            rec("ls .", "ls_current", Some("Just a ls")),
            rec("git pull", "again", None),
            rec("ls -a", "ls_current", None),
            rec("ssh --version", "ssh_version", None),
        ],
    );
    assert_eq!(outcomes.len(), 6);
    assert_eq!(outcomes[0].as_ref().unwrap().executable, "git");
    assert!(matches!(outcomes[1], Err(CommandServiceError::NoExecutable)));
    assert_eq!(outcomes[2].as_ref().unwrap().executable, "ls");
    assert!(matches!(
        outcomes[3],
        Err(CommandServiceError::StorageManagerInsertCommand(
            CommandStorageError::UniqueViolation(UniqueColumn::Command)
        ))
    ));
    assert!(matches!(
        outcomes[4],
        Err(CommandServiceError::StorageManagerInsertCommand(
            CommandStorageError::UniqueViolation(UniqueColumn::Alias)
        ))
    ));
    assert_eq!(outcomes[5].as_ref().unwrap().alias, "ssh_version");

    let stored: Vec<String> = service
        .get_all_commands()
        .unwrap()
        .into_iter()
        .map(|c| c.command)
        .collect();
    assert_eq!(
        stored,
        vec!["git pull".to_string(), "ls .".to_string(), "ssh --version".to_string()]
    );
}

#[test]
fn import_of_nothing_changes_nothing() {
    let mut service = CommandService::new(true);
    service.insert_command("ls .", "ls_current", None).unwrap();
    let outcomes = populate_db(&mut service, Vec::new());
    assert!(outcomes.is_empty());
    assert_eq!(service.get_all_commands().unwrap().len(), 1);
}
