use enum_ts::{Mode, PipeMode};
use std::path::PathBuf;

fn args(list: &[&str]) -> Vec<String> {
    list.iter().map(|arg| arg.to_string()).collect()
}

fn cwd() -> PathBuf {
    PathBuf::from("/work")
}

#[test]
fn no_arguments_select_the_generated_code() {
    assert!(matches!(
        Mode::from_args(cwd(), args(&["enum-ts"])),
        Ok(Mode::Pipe(PipeMode::ShowGenerated))
    ));
    assert!(matches!(
        Mode::from_args(cwd(), Vec::new()),
        Ok(Mode::Pipe(PipeMode::ShowGenerated))
    ));
}

#[test]
fn first_argument_selects_the_other_pipe_modes() {
    assert!(matches!(
        Mode::from_args(cwd(), args(&["enum-ts", "--edit-l1c0"])),
        Ok(Mode::Pipe(PipeMode::ShowReplaceRangeVSCode))
    ));
    assert!(matches!(
        Mode::from_args(cwd(), args(&["enum-ts", "--full"])),
        Ok(Mode::Pipe(PipeMode::ShowFullFile))
    ));
    assert!(matches!(
        Mode::from_args(cwd(), args(&["enum-ts", "--full", "--bogus"])),
        Ok(Mode::Pipe(PipeMode::ShowFullFile))
    ));
}

#[test]
fn paths_select_a_dry_run() {
    match Mode::from_args(cwd(), args(&["enum-ts", "src", "lib/a.ts"])) {
        Ok(Mode::Write(options)) => {
            assert!(options.dry_run);
            assert!(!options.force_updates);
            assert_eq!(options.base_dir, cwd());
            assert_eq!(options.paths, vec!["src", "lib/a.ts"]);
            assert!(options.ignore_files.is_empty());
        }
        _ => panic!("write mode expected"),
    }
}

#[test]
fn flags_and_ignore_files_are_read_in_any_order() {
    match Mode::from_args(
        cwd(),
        args(&[
            "enum-ts",
            "--ignore-file",
            ".gitignore",
            "src",
            "-w",
            "--ignore-file",
            "-f",
            "--force",
        ]),
    ) {
        Ok(Mode::Write(options)) => {
            assert!(!options.dry_run);
            assert!(options.force_updates);
            assert_eq!(options.paths, vec!["src"]);
            assert_eq!(options.ignore_files, vec![".gitignore", "-f"]);
        }
        _ => panic!("write mode expected"),
    }
    match Mode::from_args(cwd(), args(&["enum-ts", "--write", "-f"])) {
        Ok(Mode::Write(options)) => {
            assert!(!options.dry_run);
            assert!(options.force_updates);
            assert!(options.paths.is_empty());
        }
        _ => panic!("write mode expected"),
    }
}

#[test]
fn pipe_flags_behind_the_first_argument_are_unknown_options() {
    match Mode::from_args(cwd(), args(&["enum-ts", "-w", "--full"])) {
        Err(report) => assert_eq!(report, "Errors:\n - Unknown option: \"--full\""),
        _ => panic!("an error expected"),
    }
}

#[test]
fn every_wrong_option_is_reported() {
    match Mode::from_args(
        cwd(),
        args(&["enum-ts", "-x", "src", "--say=\"hi\"", "--ignore-file"]),
    ) {
        Err(report) => assert_eq!(
            report,
            "Errors:\n - Unknown option: \"-x\"\n - Unknown option: \"--say=\\\"hi\\\"\"\n - File must be specified following the `--ignore-file` argument like `--ignore-file .ignore-file`"
        ),
        _ => panic!("an error expected"),
    }
}

#[test]
fn an_empty_argument_is_a_path() {
    match Mode::from_args(cwd(), args(&["enum-ts", "", "-"])) {
        Err(report) => assert_eq!(report, "Errors:\n - Unknown option: \"-\""),
        _ => panic!("an error expected"),
    }
    match Mode::from_args(cwd(), args(&["enum-ts", ""])) {
        Ok(Mode::Write(options)) => assert_eq!(options.paths, vec![""]),
        _ => panic!("write mode expected"),
    }
}
