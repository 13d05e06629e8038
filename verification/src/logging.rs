//! Where the log goes and how much of it there is.
use vstd::prelude::*;

use crate::error::{operation, ErrorView, ServerError};
use crate::text::{equal, text_of};

verus! {

/// Where the log goes.
#[derive(Debug)]
pub enum LogPlan {
    /// To the terminal, with colors.
    Stdout,
    /// To a new file, without colors.
    File(String),
    /// To the terminal and to the end of a file, without colors; the directory of the file is made
    /// where it is missing.
    Both(String),
}

/// Where the log goes, with its texts.
pub enum LogPlanView {
    Stdout,
    File(Seq<char>),
    Both(Seq<char>),
}

impl View for LogPlan {
    type V = LogPlanView;

    open spec fn view(&self) -> LogPlanView {
        match self {
            LogPlan::Stdout => LogPlanView::Stdout,
            LogPlan::File(path) => LogPlanView::File(path@),
            LogPlan::Both(path) => LogPlanView::Both(path@),
        }
    }
}

/// The destination asks for the path of a file.
pub open spec fn needs_file(destination: Seq<char>) -> bool {
    destination == "file"@ || destination == "both"@
}

/// What is said when the path of the file is missing.
pub open spec fn missing_file() -> ErrorView {
    ErrorView::Operation("Missing log file path"@)
}

/// Where the log goes, by the words of the command line.
pub open spec fn log_plan(destination: Seq<char>, file_path: Option<Seq<char>>) -> Result<
    LogPlanView,
    ErrorView,
> {
    if destination == "stdout"@ {
        Ok(LogPlanView::Stdout)
    } else if destination == "file"@ {
        match file_path {
            Some(path) => Ok(LogPlanView::File(path)),
            None => Err(missing_file()),
        }
    } else if destination == "both"@ {
        match file_path {
            Some(path) => Ok(LogPlanView::Both(path)),
            None => Err(missing_file()),
        }
    } else {
        Err(
            ErrorView::Operation(
                "Invalid log destination: "@ + destination
                    + ". Valid values are 'stdout', 'file', or 'both'"@,
            ),
        )
    }
}

/// Refuses a command line that asks for a file and does not say which.
pub fn check_log_arguments(destination: &str, file_path: &Option<String>) -> (r: Result<
    (),
    ServerError,
>)
    ensures
        match r {
            Ok(_) => !needs_file(destination@) || file_path is Some,
            Err(e) => needs_file(destination@) && file_path is None && e@ == missing_file(),
        },
{
    if (equal(destination, "file") || equal(destination, "both")) && file_path.is_none() {
        return Err(ServerError::Operation("Missing log file path".to_owned()));
    }
    Ok(())
}

/// Keeps the destination for later use, and works out where the log goes, by the words of the
/// command line. The destination is kept once, whatever comes of it: where `set` holds one already,
/// every further call is refused.
pub fn init_logging(
    set: &mut Option<String>,
    destination: &str,
    file_path: &Option<String>,
) -> (r: Result<LogPlan, ServerError>)
    ensures
        *old(set) is Some ==> *final(set) == *old(set) && r is Err && r->Err_0@
            == ErrorView::Operation("Failed to set log destination"@),
        *old(set) is None ==> text_of(*final(set)) == Some(destination@) && match r {
            Ok(plan) => log_plan(destination@, text_of(*file_path)) == Ok::<LogPlanView, ErrorView>(
                plan@,
            ),
            Err(e) => log_plan(destination@, text_of(*file_path)) == Err::<LogPlanView, ErrorView>(
                e@,
            ),
        },
{
    if set.is_some() {
        return Err(ServerError::Operation("Failed to set log destination".to_owned()));
    }
    *set = Some(destination.to_owned());
    if equal(destination, "stdout") {
        return Ok(LogPlan::Stdout);
    }
    let to_file: bool = equal(destination, "file");
    let to_both: bool = equal(destination, "both");
    if to_file || to_both {
        return match file_path {
            Some(path) => if to_file {
                Ok(LogPlan::File(path.clone()))
            } else {
                Ok(LogPlan::Both(path.clone()))
            },
            None => Err(ServerError::Operation("Missing log file path".to_owned())),
        };
    }
    let mut message: String = "Invalid log destination: ".to_owned();
    message.append(destination);
    Err(operation(message.as_str(), ". Valid values are 'stdout', 'file', or 'both'"))
}

/// The check of the command line refuses nothing that would not be refused later on, and it says
/// the same of it; what it lets pass is refused later only for a destination that there is not.
pub proof fn law_check_agrees_with_plan(destination: Seq<char>, file_path: Option<Seq<char>>)
    ensures
        needs_file(destination) && file_path is None ==> log_plan(destination, file_path) == Err::<
            LogPlanView,
            ErrorView,
        >(missing_file()),
        !needs_file(destination) || file_path is Some ==> (log_plan(destination, file_path) is Ok
            <==> destination == "stdout"@ || needs_file(destination)),
{
    reveal_strlit("stdout");
    reveal_strlit("file");
    reveal_strlit("both");
    assert("stdout"@.len() == 6 && "file"@.len() == 4 && "both"@.len() == 4);
}

/// How much is logged.
#[derive(Clone, Copy, Debug, PartialEq, Eq, Structural)]
pub enum LogLevel {
    Trace,
    Debug,
    Info,
    Warn,
    Error,
}

/// The level of that name.
pub open spec fn level_named(name: Seq<char>) -> Option<LogLevel> {
    if name == "trace"@ {
        Some(LogLevel::Trace)
    } else if name == "debug"@ {
        Some(LogLevel::Debug)
    } else if name == "info"@ {
        Some(LogLevel::Info)
    } else if name == "warn"@ {
        Some(LogLevel::Warn)
    } else if name == "error"@ {
        Some(LogLevel::Error)
    } else {
        None
    }
}

/// How much is logged, by the setting in the environment: the level of that name, or what informs
/// where there is no setting or no such level.
pub fn get_log_level(setting: Option<&str>) -> (r: LogLevel)
    ensures
        r == match setting {
            Some(name) => match level_named(name@) {
                Some(level) => level,
                None => LogLevel::Info,
            },
            None => LogLevel::Info,
        },
{
    match setting {
        Some(name) => {
            if equal(name, "trace") {
                LogLevel::Trace
            } else if equal(name, "debug") {
                LogLevel::Debug
            } else if equal(name, "info") {
                LogLevel::Info
            } else if equal(name, "warn") {
                LogLevel::Warn
            } else if equal(name, "error") {
                LogLevel::Error
            } else {
                LogLevel::Info
            }
        },
        None => LogLevel::Info,
    }
}

/// The terminal needs no file; a file alone, or both, go to the path that was given; without a path
/// that is said, and so is a destination that there is not.
pub proof fn law_plan_of_each_destination(destination: Seq<char>, file_path: Option<Seq<char>>)
    ensures
        destination == "stdout"@ ==> log_plan(destination, file_path) == Ok::<
            LogPlanView,
            ErrorView,
        >(LogPlanView::Stdout),
        destination == "file"@ ==> log_plan(destination, file_path) == match file_path {
            Some(path) => Ok::<LogPlanView, ErrorView>(LogPlanView::File(path)),
            None => Err(ErrorView::Operation("Missing log file path"@)),
        },
        destination == "both"@ ==> log_plan(destination, file_path) == match file_path {
            Some(path) => Ok::<LogPlanView, ErrorView>(LogPlanView::Both(path)),
            None => Err(ErrorView::Operation("Missing log file path"@)),
        },
        destination != "stdout"@ && destination != "file"@ && destination != "both"@ ==> log_plan(
            destination,
            file_path,
        ) == Err::<LogPlanView, ErrorView>(
            ErrorView::Operation(
                "Invalid log destination: "@ + destination
                    + ". Valid values are 'stdout', 'file', or 'both'"@,
            ),
        ),
        needs_file(destination) <==> destination == "file"@ || destination == "both"@,
        missing_file() == ErrorView::Operation("Missing log file path"@),
{
    reveal_strlit("stdout");
    reveal_strlit("file");
    reveal_strlit("both");
    assert("stdout"@.len() == 6 && "file"@.len() == 4 && "both"@.len() == 4);
    assert("file"@[0] == 'f' && "both"@[0] == 'b');
}

/// Each level has its name, and no other name stands for a level.
pub proof fn law_names_of_levels(name: Seq<char>)
    ensures
        level_named(name) == Some(LogLevel::Trace) <==> name == "trace"@,
        level_named(name) == Some(LogLevel::Debug) <==> name == "debug"@,
        level_named(name) == Some(LogLevel::Info) <==> name == "info"@,
        level_named(name) == Some(LogLevel::Warn) <==> name == "warn"@,
        level_named(name) == Some(LogLevel::Error) <==> name == "error"@,
{
    reveal_strlit("trace");
    reveal_strlit("debug");
    reveal_strlit("info");
    reveal_strlit("warn");
    reveal_strlit("error");
    assert("trace"@.len() == 5 && "debug"@.len() == 5 && "error"@.len() == 5);
    assert("info"@.len() == 4 && "warn"@.len() == 4);
    assert("trace"@[0] == 't' && "debug"@[0] == 'd' && "error"@[0] == 'e');
    assert("info"@[0] == 'i' && "warn"@[0] == 'w');
}

/// What contracts say of a plan is said of its path.
pub proof fn law_what_stands_for_a_plan(path: String)
    ensures
        LogPlan::Stdout@ == LogPlanView::Stdout,
        LogPlan::File(path)@ == LogPlanView::File(path@),
        LogPlan::Both(path)@ == LogPlanView::Both(path@),
{
}

} // verus!
