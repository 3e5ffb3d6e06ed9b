use dir2::parser::{parse_command, parse_filename, parse_usize, tokenize, Command};
use dir2::search::SearchEngine;

#[test]
fn tokenize_splits_on_spaces_and_tabs() {
    assert_eq!(
        tokenize("mkdir  a\tb").unwrap(),
        vec!["mkdir".to_string(), "a".to_string(), "b".to_string()]
    );
}

#[test]
fn tokenize_keeps_quoted_spaces_and_trims() {
    assert_eq!(
        tokenize("select \" my file \" from x").unwrap(),
        vec!["select".to_string(), "my file".to_string(), "from".to_string(), "x".to_string()]
    );
}

#[test]
fn tokenize_trims_unicode_white_space() {
    assert_eq!(
        tokenize("wd \"\u{3000}a\u{a0}\"").unwrap(),
        vec!["wd".to_string(), "a".to_string()]
    );
}

#[test]
fn tokenize_rejects_unclosed_quote() {
    assert_eq!(tokenize("wd \"abc").unwrap_err(), "Unclosed quotes in command.");
}

#[test]
fn parse_filename_unquotes_and_unescapes() {
    assert_eq!(parse_filename("'a b'"), "a b");
    assert_eq!(parse_filename("\"x\""), "x");
    assert_eq!(parse_filename("my\\ file"), "my file");
    assert_eq!(parse_filename("'"), "'");
    assert_eq!(parse_filename("plain"), "plain");
}

#[test]
fn parse_usize_reads_decimal() {
    assert_eq!(parse_usize("42"), Some(42));
    assert_eq!(parse_usize("+7"), Some(7));
    assert_eq!(parse_usize(""), None);
    assert_eq!(parse_usize("+"), None);
    assert_eq!(parse_usize("-1"), None);
    assert_eq!(parse_usize("4a"), None);
    assert_eq!(parse_usize("18446744073709551615"), Some(usize::MAX));
    assert_eq!(parse_usize("18446744073709551616"), None);
}

#[test]
fn parse_meta_commands_case_insensitively() {
    assert!(matches!(parse_command("lc"), Ok(Command::ListCommands)));
    assert!(matches!(parse_command("Exit"), Ok(Command::Exit)));
    assert!(matches!(parse_command("/e"), Ok(Command::Exit)));
    assert!(matches!(parse_command("cls"), Ok(Command::ClearScreen)));
    assert!(matches!(parse_command("dd"), Ok(Command::DodgeDirectory)));
}

#[test]
fn parse_unknown_command() {
    match parse_command("frobnicate now") {
        Ok(Command::Unknown { command }) => assert_eq!(command, "FROBNICATE"),
        _ => panic!("expected an unknown command"),
    }
}

#[test]
fn parse_empty_line_is_an_error() {
    assert_eq!(parse_command("   ").unwrap_err(), "Empty command.");
}

#[test]
fn parse_watch_directory_forms() {
    match parse_command("wd 'mydir'") {
        Ok(Command::WatchDirectory { directory }) => assert_eq!(directory, "mydir"),
        _ => panic!("expected WD"),
    }
    match parse_command("wd 'my dir'") {
        Ok(Command::WatchDirectory { directory }) => assert_eq!(directory, "'my dir'"),
        _ => panic!("expected WD"),
    }
    match parse_command("wd Program Files") {
        Ok(Command::WatchDirectory { directory }) => assert_eq!(directory, "Program Files"),
        _ => panic!("expected WD"),
    }
    assert_eq!(parse_command("wd").unwrap_err(), "Expected <directory> AFTER WD");
}

#[test]
fn parse_directory_and_file_commands() {
    match parse_command("mkdir new") {
        Ok(Command::MakeDirectory { directory }) => assert_eq!(directory, "new"),
        _ => panic!("expected MKDIR"),
    }
    match parse_command("rendir a b") {
        Ok(Command::RenameDirectory { old_directory, new_directory }) => {
            assert_eq!(old_directory, "a");
            assert_eq!(new_directory, "b");
        }
        _ => panic!("expected RENDIR"),
    }
    match parse_command("rmfile x.txt") {
        Ok(Command::RemoveFile { filename }) => assert_eq!(filename, "x.txt"),
        _ => panic!("expected RMFILE"),
    }
    assert_eq!(parse_command("mkdir").unwrap_err(), "Expected MKDIR <directory>");
    assert_eq!(parse_command("rmdir a b").unwrap_err(), "Expected RMDIR <directory>");
    assert_eq!(parse_command("mkfile").unwrap_err(), "Expected MKFILE <filename>");
    assert_eq!(parse_command("renfile a").unwrap_err(), "Expected RENFILE <old_filename> <new_filename>");
    assert_eq!(parse_command("ld x").unwrap_err(), "Expected no arguments with LD Command");
    assert!(matches!(parse_command("ld"), Ok(Command::ListDirectory)));
}

#[test]
fn parse_change_drive_upper_cases() {
    match parse_command("cd d") {
        Ok(Command::ChangeDrive { drive }) => assert_eq!(drive, "D"),
        _ => panic!("expected CD"),
    }
    assert_eq!(parse_command("cd").unwrap_err(), "Expected CD <drive>");
}

#[test]
fn parse_state_commands() {
    match parse_command("select a.txt from docs") {
        Ok(Command::Select { filename, directory }) => {
            assert_eq!(filename, "a.txt");
            assert_eq!(directory, "docs");
        }
        _ => panic!("expected SELECT"),
    }
    assert!(parse_command("select a.txt").is_err());
    assert!(matches!(parse_command("vs"), Ok(Command::ViewState)));
    assert!(matches!(parse_command("view state"), Ok(Command::ViewState)));
    assert_eq!(parse_command("view x").unwrap_err(), "VIEW requires: STATE keyword");
    assert!(matches!(parse_command("ds"), Ok(Command::ClearState)));
    assert!(matches!(parse_command("drop state"), Ok(Command::ClearState)));
    assert!(parse_command("drop").is_err());
    assert!(matches!(parse_command("meta state"), Ok(Command::MetaState)));
    assert_eq!(parse_command("meta x").unwrap_err(), "META requires: STATE keyword");
    assert!(matches!(parse_command("rs"), Ok(Command::RunState)));
    assert!(matches!(parse_command("run state"), Ok(Command::RunState)));
    assert_eq!(parse_command("run x").unwrap_err(), "Expected RUN STATE or RF");
}

#[test]
fn parse_favorite_commands() {
    assert!(matches!(parse_command("fav view"), Ok(Command::FavView)));
    assert!(matches!(parse_command("fav set state"), Ok(Command::FavSet)));
    assert!(matches!(parse_command("fav rm 2"), Ok(Command::FavRm { index: 2 })));
    assert!(matches!(parse_command("fav rm x"), Ok(Command::Unknown { .. })));
    assert_eq!(parse_command("fav").unwrap_err(), "FAV requires a subcommand (VIEW, SET, RM)");
    assert_eq!(parse_command("fav set").unwrap_err(), "Expected FAV SET STATE");
    assert_eq!(parse_command("fav rm").unwrap_err(), "FAV RM requires an index");
    assert!(matches!(parse_command("rf 3"), Ok(Command::RunFav { index: 3 })));
    assert!(matches!(parse_command("run fav 4"), Ok(Command::RunFav { index: 4 })));
    assert_eq!(parse_command("rf x").unwrap_err(), "Invalid FAV index");
    assert!(parse_command("rf").is_err());
}

#[test]
fn parse_search_commands() {
    match parse_command("s g rust") {
        Ok(Command::Search { engine, filename }) => {
            assert_eq!(engine, SearchEngine::Google);
            assert_eq!(filename, "rust");
        }
        _ => panic!("expected SEARCH"),
    }
    assert!(matches!(
        parse_command("search DDG x"),
        Ok(Command::Search { engine: SearchEngine::DuckDuckGo, .. })
    ));
    assert!(matches!(
        parse_command("search perplexity x"),
        Ok(Command::Search { engine: SearchEngine::Perplexity, .. })
    ));
    match parse_command("s bing x") {
        Ok(Command::Unknown { command }) => assert_eq!(command, "bing"),
        _ => panic!("expected unknown engine"),
    }
    assert_eq!(parse_command("s g").unwrap_err(), "SEARCH Expected three arguments!");
    match parse_command("fe notes.txt") {
        Ok(Command::FindExact { filename }) => assert_eq!(filename, "notes.txt"),
        _ => panic!("expected FE"),
    }
    assert!(matches!(parse_command("find exact a"), Ok(Command::FindExact { .. })));
    assert!(parse_command("find a").is_err());
}
