//! Plugin subcommand parsing and command suggestions.

use spin_bridge::cli::{override_flag, parse_subcommand, remove_arg, similar_commands};

#[test]
fn test_remove_arg() {
    let override_flag = override_flag();
    let plugin_name = "example";

    let cmd = vec![plugin_name.to_string()];
    assert_eq!(
        parse_subcommand(cmd).unwrap(),
        (plugin_name.to_string(), vec![], false)
    );

    let cmd_with_args = "example arg1 arg2"
        .split(' ')
        .map(|s| s.to_string())
        .collect::<Vec<String>>();
    assert_eq!(
        parse_subcommand(cmd_with_args).unwrap(),
        (
            plugin_name.to_string(),
            vec!["arg1".to_string(), "arg2".to_string()],
            false
        )
    );

    let cmd_with_args_override = format!("example arg1 arg2 {}", override_flag)
        .split(' ')
        .map(|s| s.to_string())
        .collect::<Vec<String>>();
    assert_eq!(
        parse_subcommand(cmd_with_args_override).unwrap(),
        (
            plugin_name.to_string(),
            vec!["arg1".to_string(), "arg2".to_string()],
            true
        )
    );

    let cmd_with_args_override = format!("example {} arg1 arg2", override_flag)
        .split(' ')
        .map(|s| s.to_string())
        .collect::<Vec<String>>();
    assert_eq!(
        parse_subcommand(cmd_with_args_override).unwrap(),
        (
            plugin_name.to_string(),
            vec!["arg1".to_string(), "arg2".to_string()],
            true
        )
    );

    let cmd_with_args_override = format!("{} example arg1 arg2", override_flag)
        .split(' ')
        .map(|s| s.to_string())
        .collect::<Vec<String>>();
    assert_eq!(
        parse_subcommand(cmd_with_args_override).unwrap(),
        (
            plugin_name.to_string(),
            vec!["arg1".to_string(), "arg2".to_string()],
            true
        )
    );
}

#[test]
fn remove_arg_strips_every_copy_and_reports_presence() {
    let flag = "--x".to_string();
    let mut args: Vec<String> = vec!["--x", "a", "--x", "b"].into_iter().map(String::from).collect();
    assert!(remove_arg(&flag, &mut args));
    assert_eq!(args, vec!["a".to_string(), "b".to_string()]);
    assert!(!remove_arg(&flag, &mut args));
    assert_eq!(args, vec!["a".to_string(), "b".to_string()]);
}

#[test]
fn similar_commands_keeps_names_within_distance_two() {
    let commands: Vec<String> = vec!["build", "up", "deploy", "doctor"]
        .into_iter()
        .map(String::from)
        .collect();
    // "buil" is one edit from "build", far from the others
    let similar = similar_commands(&commands, &"buil".to_string());
    assert_eq!(similar, vec!["build".to_string()]);
    // "dr" is within two edits of "up"? no; of "doctor"? no (4); nothing close
    let none = similar_commands(&commands, &"zzzzzz".to_string());
    assert!(none.is_empty());
    // exact name is distance zero
    let exact = similar_commands(&commands, &"deploy".to_string());
    assert_eq!(exact, vec!["deploy".to_string()]);
}
