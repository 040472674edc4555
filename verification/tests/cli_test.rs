use std::path::PathBuf;

use kmlcli::cli::{Cli, Command, OutputFormat, RunMode};

#[test]
fn file_path_of_subcommands_and_bare_file() {
    let f = PathBuf::from("a.kml");
    let info = Cli { command: Some(Command::Info { file: f.clone(), format: OutputFormat::Json }), file: None };
    assert_eq!(info.file_path(), Some(&f));
    assert_eq!(info.run_mode(), RunMode::Info);
    let bare = Cli { command: None, file: Some(PathBuf::from("b.kmz")) };
    assert_eq!(bare.file_path(), Some(&PathBuf::from("b.kmz")));
    assert_eq!(bare.run_mode(), RunMode::View);
    let none = Cli { command: None, file: None };
    assert!(none.file_path().is_none());
    let tree = Cli { command: Some(Command::Tree { file: f.clone() }), file: Some(PathBuf::from("ignored.kml")) };
    assert_eq!(tree.file_path(), Some(&f));
    assert_eq!(tree.run_mode(), RunMode::Tree);
    let list = Cli { command: Some(Command::List { file: f.clone(), format: OutputFormat::Table }), file: None };
    assert_eq!(list.run_mode(), RunMode::List);
    let view = Cli { command: Some(Command::View { file: f.clone() }), file: None };
    assert_eq!(view.run_mode(), RunMode::View);
}
