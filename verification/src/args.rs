//! The command line: which mode the tool runs in, and with which options.

use std::path::PathBuf;
use vstd::prelude::*;
use vstd::string::StrSliceExecFns;
use vstd::string::StringExecFns;

use crate::text::{same_text, texts};

verus! {

/// `std::path::PathBuf` of the standard library, which the options carry and
/// never look into.
#[verifier::external_type_specification]
#[verifier::external_body]
pub struct ExPathBuf(PathBuf);

/// What write mode does, and where.
#[derive(Debug)]
pub struct WriteOptions {
    /// Report what would be written, and write nothing.
    pub dry_run: bool,
    /// Rewrite the generated region even where it is up to date.
    pub force_updates: bool,
    /// The directory that the paths are relative to.
    pub base_dir: PathBuf,
    /// The files and directories to walk; none stands for the base directory.
    pub paths: Vec<String>,
    /// Files that list what the walk leaves out.
    pub ignore_files: Vec<String>,
}

/// What pipe mode prints for the text it reads.
#[derive(Debug)]
pub enum PipeMode {
    /// The generated code alone.
    ShowGenerated,
    /// The range to replace, in lines and columns, and its replacement.
    ShowReplaceRangeVSCode,
    /// The whole text with its generated region brought up to date.
    ShowFullFile,
}

/// The mode that a command line selects.
pub enum Mode {
    Pipe(PipeMode),
    Write(WriteOptions),
}

/// What the options of write mode hold after some of them were read.
pub struct Scan {
    pub dry_run: bool,
    pub force_updates: bool,
    pub paths: Seq<Seq<char>>,
    pub ignore_files: Seq<Seq<char>>,
    pub errors: Seq<Seq<char>>,
}

/// What a command line selects.
pub enum Selection {
    Pipe(PipeMode),
    Write(Scan),
}

/// How `{:?}` formats a string slice: in double quotes, with escapes. This
/// is the `Debug` form of the standard library; nothing is said here of what
/// it is for a given string.
pub uninterp spec fn debug_form(s: Seq<char>) -> Seq<char>;

/// Formats `s` with `{:?}`. Verus takes on trust that the result is the same
/// for the same string: it is named by [`debug_form`].
#[verifier::external_body]
fn quoted(s: &str) -> (out: String)
    ensures
        out@ == debug_form(s@),
{
    format!("{:?}", s)
}

/// The complaint about an option that is not known.
pub open spec fn unknown_option(option: Seq<char>) -> Seq<char> {
    "Unknown option: "@ + debug_form(option)
}

/// The complaint about an option that lacks the file name behind it.
pub open spec fn missing_file(option: Seq<char>) -> Seq<char> {
    "File must be specified following the `"@ + option + "` argument like `"@ + option
        + " .ignore-file`"@
}

/// The state before any option is read: a dry run, nothing forced.
pub open spec fn initial_scan() -> Scan {
    Scan {
        dry_run: true,
        force_updates: false,
        paths: Seq::empty(),
        ignore_files: Seq::empty(),
        errors: Seq::empty(),
    }
}

/// Reads the arguments from `pos` on into `state`. `-w` and `-f` set their
/// flags, `--ignore-file` takes the argument behind it, any other argument
/// that starts with a dash is an error, and the rest are paths.
pub open spec fn scan(args: Seq<Seq<char>>, pos: nat, state: Scan) -> Scan
    decreases args.len() - pos,
{
    if pos >= args.len() {
        state
    } else {
        let arg = args[pos as int];
        if arg == "-w"@ || arg == "--write"@ {
            scan(args, pos + 1, Scan { dry_run: false, ..state })
        } else if arg == "-f"@ || arg == "--force"@ {
            scan(args, pos + 1, Scan { force_updates: true, ..state })
        } else if arg == "--ignore-file"@ {
            if pos + 1 < args.len() {
                scan(
                    args,
                    pos + 2,
                    Scan { ignore_files: state.ignore_files.push(args[pos as int + 1]), ..state },
                )
            } else {
                scan(args, pos + 1, Scan { errors: state.errors.push(missing_file(arg)), ..state })
            }
        } else if arg.len() > 0 && arg[0] == '-' {
            scan(args, pos + 1, Scan { errors: state.errors.push(unknown_option(arg)), ..state })
        } else {
            scan(args, pos + 1, Scan { paths: state.paths.push(arg), ..state })
        }
    }
}

/// The first `count` items, `separator` between one and the next.
pub open spec fn joined(items: Seq<Seq<char>>, separator: Seq<char>, count: nat) -> Seq<char>
    decreases count,
{
    if count == 0 {
        Seq::empty()
    } else if count == 1 {
        items[0]
    } else {
        joined(items, separator, (count - 1) as nat) + separator + items[count - 1]
    }
}

/// The report of everything that is wrong with the options.
pub open spec fn error_report(errors: Seq<Seq<char>>) -> Seq<char> {
    "Errors:\n - "@ + joined(errors, "\n - "@, errors.len())
}

/// What a command line selects. Its first argument names the program. With
/// nothing behind it the tool shows the generated code of what it reads; a
/// first argument `--edit-l1c0` or `--full` selects another pipe mode; any
/// other command line is read as the options of write mode, and is refused
/// with a report where one of them is wrong.
pub open spec fn selected(args: Seq<Seq<char>>) -> Result<Selection, Seq<char>> {
    if args.len() <= 1 {
        Ok(Selection::Pipe(PipeMode::ShowGenerated))
    } else if args[1] == "--edit-l1c0"@ {
        Ok(Selection::Pipe(PipeMode::ShowReplaceRangeVSCode))
    } else if args[1] == "--full"@ {
        Ok(Selection::Pipe(PipeMode::ShowFullFile))
    } else {
        let options = scan(args, 1, initial_scan());
        if options.errors.len() > 0 {
            Err(error_report(options.errors))
        } else {
            Ok(Selection::Write(options))
        }
    }
}

/// What a set of options holds, seen as the state of a scan that found no
/// error.
pub open spec fn options_read(options: WriteOptions) -> Scan {
    Scan {
        dry_run: options.dry_run,
        force_updates: options.force_updates,
        paths: texts(options.paths@),
        ignore_files: texts(options.ignore_files@),
        errors: Seq::empty(),
    }
}

/// Joins `items` with `separator` between them.
pub fn join(items: &Vec<String>, separator: &str) -> (out: String)
    ensures
        out@ == joined(texts(items@), separator@, items.len() as nat),
{
    let mut out = String::new();
    let n: usize = items.len();
    for i in 0..n
        invariant
            n == items.len(),
            out@ == joined(texts(items@), separator@, i as nat),
    {
        if i == 0 {
            out.append(items[i].as_str());
        } else {
            out.append(separator);
            out.append(items[i].as_str());
        }
    }
    out
}

impl Mode {
    /// Reads the command line `args` of a tool started in `cwd`.
    pub fn from_args(cwd: PathBuf, args: Vec<String>) -> (mode: Result<Mode, String>)
        ensures
            match mode {
                Ok(Mode::Pipe(pipe)) => selected(texts(args@)) matches Ok(Selection::Pipe(model))
                    && model == pipe,
                Ok(Mode::Write(options)) => {
                    &&& selected(texts(args@)) matches Ok(Selection::Write(model))
                    &&& model == options_read(options)
                    &&& options.base_dir == cwd
                },
                Err(report) => selected(texts(args@)) matches Err(model) && model == report@,
            },
    {
        let n: usize = args.len();
        if n <= 1 {
            return Ok(Mode::Pipe(PipeMode::ShowGenerated));
        }
        if same_text(args[1].as_str(), "--edit-l1c0") {
            return Ok(Mode::Pipe(PipeMode::ShowReplaceRangeVSCode));
        }
        if same_text(args[1].as_str(), "--full") {
            return Ok(Mode::Pipe(PipeMode::ShowFullFile));
        }
        let mut write_options = WriteOptions {
            dry_run: true,
            force_updates: false,
            base_dir: cwd,
            paths: Vec::new(),
            ignore_files: Vec::new(),
        };
        let mut errors: Vec<String> = Vec::new();
        let ghost all = texts(args@);
        let mut i: usize = 1;
        proof {
            assert(texts(errors@) =~= Seq::empty());
        }
        while i < n
            invariant
                n == args.len(),
                1 <= i <= n,
                all == texts(args@),
                write_options.base_dir == cwd,
                scan(all, 1, initial_scan()) == scan(
                    all,
                    i as nat,
                    Scan {
                        dry_run: write_options.dry_run,
                        force_updates: write_options.force_updates,
                        paths: texts(write_options.paths@),
                        ignore_files: texts(write_options.ignore_files@),
                        errors: texts(errors@),
                    },
                ),
            decreases n - i,
        {
            let next_option = args[i].as_str();
            let ghost paths = texts(write_options.paths@);
            let ghost ignore_files = texts(write_options.ignore_files@);
            let ghost complaints = texts(errors@);
            if same_text(next_option, "-w") || same_text(next_option, "--write") {
                write_options.dry_run = false;
                i += 1;
            } else if same_text(next_option, "-f") || same_text(next_option, "--force") {
                write_options.force_updates = true;
                i += 1;
            } else if same_text(next_option, "--ignore-file") {
                if i + 1 < n {
                    write_options.ignore_files.push(args[i + 1].clone());
                    assert(texts(write_options.ignore_files@) =~= ignore_files.push(all[i + 1]));
                    i += 2;
                } else {
                    let mut complaint = String::from_str("File must be specified following the `");
                    complaint.append(next_option);
                    complaint.append("` argument like `");
                    complaint.append(next_option);
                    complaint.append(" .ignore-file`");
                    errors.push(complaint);
                    assert(texts(errors@) =~= complaints.push(missing_file(next_option@)));
                    i += 1;
                }
            } else if !next_option.is_empty() && next_option.get_char(0) == '-' {
                let mut complaint = String::from_str("Unknown option: ");
                complaint.append(quoted(next_option).as_str());
                errors.push(complaint);
                assert(texts(errors@) =~= complaints.push(unknown_option(next_option@)));
                i += 1;
            } else {
                write_options.paths.push(args[i].clone());
                assert(texts(write_options.paths@) =~= paths.push(all[i as int]));
                i += 1;
            }
        }
        if errors.len() > 0 {
            let mut report = String::from_str("Errors:\n - ");
            report.append(join(&errors, "\n - ").as_str());
            return Err(report);
        }
        assert(texts(errors@) =~= Seq::empty());
        Ok(Mode::Write(write_options))
    }
}

} // verus!
