//! Running a command in a sandbox: what is checked and prepared before the fork,
//! what the child does where it fails, and what the parent makes of the end.
//!
//! The system calls are made elsewhere. What they gave is handed in, and what to
//! do next is handed back.

use vstd::prelude::*;
use vstd::utf8::encode_utf8;

use crate::bytes::{
    absolute_from, append_bytes, byte_views, bytes_of, contains_zero, has_zero, is_absolute_bytes,
    make_absolute, same_bytes,
};
use crate::path::{below, join_below};
use crate::table::Table;
use crate::text::{
    after_prefix, bounded_number, chars_of, contains_char, copy_strings, decimal, opt_text,
    parse_number, pieces, signed_decimal, split, strip_prefix, texts, write_decimal,
    write_signed,
};

verus! {

/// What came of running a command.
#[derive(Debug)]
pub struct ExecResult {
    /// What it wrote to its standard output.
    pub stdout: Vec<u8>,
    /// What it wrote to its standard error.
    pub stderr: Vec<u8>,
    /// Its exit code; for a command that was killed, the negated signal.
    pub exit_code: i32,
}

impl ExecResult {
    /// A short text for the result.
    pub fn __repr__(&self) -> (r: String)
        ensures
            r@ == "ExecResult(exit_code="@ + signed_decimal(self.exit_code as int)
                + ", stdout_len="@ + decimal(self.stdout@.len()) + ", stderr_len="@ + decimal(
                self.stderr@.len(),
            ) + ")"@,
    {
        String::from_str("ExecResult(exit_code=").concat(
            write_signed(self.exit_code as i64).as_str(),
        ).concat(", stdout_len=").concat(write_decimal(self.stdout.len() as u64).as_str()).concat(
            ", stderr_len=",
        ).concat(write_decimal(self.stderr.len() as u64).as_str()).concat(")")
    }
}

/// Why the number of threads is not known.
#[derive(Debug)]
pub enum ThreadCountError {
    /// The status of the process could not be read; holds the reason.
    Unreadable(String),
    /// The number of threads in it is no number.
    Unparsable,
    /// It does not say the number of threads.
    NoField,
}

/// The view of why the number of threads is not known.
pub enum ThreadCountErrorView {
    Unreadable(Seq<char>),
    Unparsable,
    NoField,
}

impl View for ThreadCountError {
    type V = ThreadCountErrorView;

    open spec fn view(&self) -> ThreadCountErrorView {
        match *self {
            ThreadCountError::Unreadable(reason) => ThreadCountErrorView::Unreadable(reason@),
            ThreadCountError::Unparsable => ThreadCountErrorView::Unparsable,
            ThreadCountError::NoField => ThreadCountErrorView::NoField,
        }
    }
}

impl ThreadCountErrorView {
    /// What the error says.
    pub open spec fn message(self) -> Seq<char> {
        match self {
            ThreadCountErrorView::Unreadable(reason) => "Cannot read /proc/self/status: "@ + reason,
            ThreadCountErrorView::Unparsable => "Cannot parse thread count"@,
            ThreadCountErrorView::NoField => "Threads field not found in /proc/self/status"@,
        }
    }
}

impl ThreadCountError {
    /// What the error says.
    pub fn message(&self) -> (r: String)
        ensures
            r@ == self@.message(),
    {
        match self {
            ThreadCountError::Unreadable(reason) => String::from_str(
                "Cannot read /proc/self/status: ",
            ).concat(reason.as_str()),
            ThreadCountError::Unparsable => String::from_str("Cannot parse thread count"),
            ThreadCountError::NoField => String::from_str(
                "Threads field not found in /proc/self/status",
            ),
        }
    }
}

/// Whose mistake an error is.
#[derive(Clone, Copy, Debug, PartialEq, Eq, Structural)]
pub enum Blame {
    /// An argument's.
    Value,
    /// The system's, or the command's.
    Runtime,
}

/// Why a command was not run.
#[derive(Debug)]
pub enum ExecError {
    /// There is no command.
    EmptyCommand,
    /// The timeout is negative or no number; holds it as it is shown.
    BadTimeout(String),
    /// The number of threads is not known.
    ThreadsUnknown(ThreadCountError),
    /// There are too many threads to fork.
    TooManyThreads(usize),
    /// There is no such program.
    ProgramNotFound(String),
    /// No directory in `PATH` has such a program.
    NotInPath(String),
    /// The path of the program has a null byte.
    ProgramNul,
    /// An argument has a null byte.
    ArgumentNul,
    /// The working directory could not be resolved.
    NoWorkingDirectory { dir: String, reason: String },
    /// The working directory has a null byte.
    WorkingDirectoryNul,
    /// A pipe could not be made; holds the reason.
    PipeFailed(String),
    /// Forking failed; holds the reason.
    ForkFailed(String),
    /// The child could not get as far as running the command; holds its message.
    NotStarted(String),
    /// Waiting for the child failed; holds the reason.
    WaitFailed(String),
    /// The child ended in a way that is neither an exit nor a signal.
    UnexpectedStatus,
    /// Whether there is a program at a path is not known yet.
    ProbeNeeded(String),
}

/// The view of why a command was not run.
pub enum ExecErrorView {
    EmptyCommand,
    BadTimeout(Seq<char>),
    ThreadsUnknown(ThreadCountErrorView),
    TooManyThreads(usize),
    ProgramNotFound(Seq<char>),
    NotInPath(Seq<char>),
    ProgramNul,
    ArgumentNul,
    NoWorkingDirectory { dir: Seq<char>, reason: Seq<char> },
    WorkingDirectoryNul,
    PipeFailed(Seq<char>),
    ForkFailed(Seq<char>),
    NotStarted(Seq<char>),
    WaitFailed(Seq<char>),
    UnexpectedStatus,
    ProbeNeeded(Seq<char>),
}

impl View for ExecError {
    type V = ExecErrorView;

    open spec fn view(&self) -> ExecErrorView {
        match *self {
            ExecError::EmptyCommand => ExecErrorView::EmptyCommand,
            ExecError::BadTimeout(shown) => ExecErrorView::BadTimeout(shown@),
            ExecError::ThreadsUnknown(e) => ExecErrorView::ThreadsUnknown(e@),
            ExecError::TooManyThreads(n) => ExecErrorView::TooManyThreads(n),
            ExecError::ProgramNotFound(p) => ExecErrorView::ProgramNotFound(p@),
            ExecError::NotInPath(p) => ExecErrorView::NotInPath(p@),
            ExecError::ProgramNul => ExecErrorView::ProgramNul,
            ExecError::ArgumentNul => ExecErrorView::ArgumentNul,
            ExecError::NoWorkingDirectory { dir, reason } => ExecErrorView::NoWorkingDirectory {
                dir: dir@,
                reason: reason@,
            },
            ExecError::WorkingDirectoryNul => ExecErrorView::WorkingDirectoryNul,
            ExecError::PipeFailed(reason) => ExecErrorView::PipeFailed(reason@),
            ExecError::ForkFailed(reason) => ExecErrorView::ForkFailed(reason@),
            ExecError::NotStarted(message) => ExecErrorView::NotStarted(message@),
            ExecError::WaitFailed(reason) => ExecErrorView::WaitFailed(reason@),
            ExecError::UnexpectedStatus => ExecErrorView::UnexpectedStatus,
            ExecError::ProbeNeeded(p) => ExecErrorView::ProbeNeeded(p@),
        }
    }
}

impl ExecErrorView {
    /// Whose mistake the error is.
    pub open spec fn blame(self) -> Blame {
        match self {
            ExecErrorView::EmptyCommand => Blame::Value,
            ExecErrorView::BadTimeout(_) => Blame::Value,
            _ => Blame::Runtime,
        }
    }

    /// What the error says.
    pub open spec fn message(self) -> Seq<char> {
        match self {
            ExecErrorView::EmptyCommand => "command must not be empty"@,
            ExecErrorView::BadTimeout(shown) => "timeout_secs must be non-negative, got "@ + shown,
            ExecErrorView::ThreadsUnknown(e) => "Failed to check thread count: "@ + e.message(),
            ExecErrorView::TooManyThreads(n) => "Too many threads ("@ + decimal(n as nat)
                + ") for safe fork. Reduce thread count before calling sandboxed_exec."@,
            ExecErrorView::ProgramNotFound(p) => "Program not found: "@ + p,
            ExecErrorView::NotInPath(p) => "Program not found in PATH: "@ + p,
            ExecErrorView::ProgramNul => "Program path contains null byte"@,
            ExecErrorView::ArgumentNul => "Argument contains null byte"@,
            ExecErrorView::NoWorkingDirectory { dir, reason } =>
                "Cannot resolve working directory '"@ + dir + "': "@ + reason,
            ExecErrorView::WorkingDirectoryNul => "Working directory contains null byte"@,
            ExecErrorView::PipeFailed(reason) => "pipe() failed: "@ + reason,
            ExecErrorView::ForkFailed(reason) => "fork() failed: "@ + reason,
            ExecErrorView::NotStarted(message) => message,
            ExecErrorView::WaitFailed(reason) => "waitpid() failed: "@ + reason,
            ExecErrorView::UnexpectedStatus => "Child process exited with unexpected status"@,
            ExecErrorView::ProbeNeeded(p) => "Nothing is known of "@ + p,
        }
    }
}

impl ExecError {
    /// Whose mistake the error is.
    pub fn blame(&self) -> (r: Blame)
        ensures
            r == self@.blame(),
    {
        match self {
            ExecError::EmptyCommand => Blame::Value,
            ExecError::BadTimeout(_) => Blame::Value,
            _ => Blame::Runtime,
        }
    }

    /// What the error says.
    pub fn message(&self) -> (r: String)
        ensures
            r@ == self@.message(),
    {
        match self {
            ExecError::EmptyCommand => String::from_str("command must not be empty"),
            ExecError::BadTimeout(shown) => String::from_str(
                "timeout_secs must be non-negative, got ",
            ).concat(shown.as_str()),
            ExecError::ThreadsUnknown(e) => String::from_str(
                "Failed to check thread count: ",
            ).concat(e.message().as_str()),
            ExecError::TooManyThreads(n) => String::from_str("Too many threads (").concat(
                write_decimal(*n as u64).as_str(),
            ).concat(") for safe fork. Reduce thread count before calling sandboxed_exec."),
            ExecError::ProgramNotFound(p) => String::from_str("Program not found: ").concat(
                p.as_str(),
            ),
            ExecError::NotInPath(p) => String::from_str("Program not found in PATH: ").concat(
                p.as_str(),
            ),
            ExecError::ProgramNul => String::from_str("Program path contains null byte"),
            ExecError::ArgumentNul => String::from_str("Argument contains null byte"),
            ExecError::NoWorkingDirectory { dir, reason } => String::from_str(
                "Cannot resolve working directory '",
            ).concat(dir.as_str()).concat("': ").concat(reason.as_str()),
            ExecError::WorkingDirectoryNul => String::from_str(
                "Working directory contains null byte",
            ),
            ExecError::PipeFailed(reason) => String::from_str("pipe() failed: ").concat(
                reason.as_str(),
            ),
            ExecError::ForkFailed(reason) => String::from_str("fork() failed: ").concat(
                reason.as_str(),
            ),
            ExecError::NotStarted(message) => message.clone(),
            ExecError::WaitFailed(reason) => String::from_str("waitpid() failed: ").concat(
                reason.as_str(),
            ),
            ExecError::UnexpectedStatus => String::from_str(
                "Child process exited with unexpected status",
            ),
            ExecError::ProbeNeeded(p) => String::from_str("Nothing is known of ").concat(p.as_str()),
        }
    }
}

/// Whether a character is white space, as Unicode has it.
pub open spec fn is_white(c: char) -> bool {
    ||| '\u{9}' <= c <= '\u{d}'
    ||| c == ' '
    ||| c == '\u{85}'
    ||| c == '\u{a0}'
    ||| c == '\u{1680}'
    ||| '\u{2000}' <= c <= '\u{200a}'
    ||| c == '\u{2028}'
    ||| c == '\u{2029}'
    ||| c == '\u{202f}'
    ||| c == '\u{205f}'
    ||| c == '\u{3000}'
}

/// `t` without the white space in front of it.
pub open spec fn trimmed_front(t: Seq<char>) -> Seq<char>
    decreases t.len(),
{
    if t.len() > 0 && is_white(t[0]) {
        trimmed_front(t.drop_first())
    } else {
        t
    }
}

/// `t` without the white space behind it.
pub open spec fn trimmed_back(t: Seq<char>) -> Seq<char>
    decreases t.len(),
{
    if t.len() > 0 && is_white(t.last()) {
        trimmed_back(t.drop_last())
    } else {
        t
    }
}

/// Tells whether a character is white space.
fn white(c: char) -> (r: bool)
    ensures
        r == is_white(c),
{
    ('\u{9}' <= c && c <= '\u{d}') || c == ' ' || c == '\u{85}' || c == '\u{a0}' || c == '\u{1680}'
        || ('\u{2000}' <= c && c <= '\u{200a}') || c == '\u{2028}' || c == '\u{2029}' || c
        == '\u{202f}' || c == '\u{205f}' || c == '\u{3000}'
}

/// `t` without the white space around it.
pub fn trim(t: &str) -> (r: String)
    ensures
        r@ == trimmed_back(trimmed_front(t@)),
{
    let v = chars_of(t);
    let mut from: usize = 0;
    assert(t@.skip(0) == t@);
    while from < v.len() && white(v[from])
        invariant
            from <= v.len(),
            v@ == t@,
            trimmed_front(t@) == trimmed_front(t@.skip(from as int)),
        decreases v.len() - from,
    {
        assert(t@.skip(from as int)[0] == v@[from as int]);
        assert(t@.skip(from as int).drop_first() == t@.skip(from + 1));
        from += 1;
    }
    let ghost front = t@.skip(from as int);
    proof {
        if from < v@.len() {
            assert(front[0] == v@[from as int]);
        }
        assert(trimmed_front(t@) == front);
    }
    let mut to: usize = v.len();
    assert(t@.subrange(from as int, to as int) =~= front);
    while to > from && white(v[to - 1])
        invariant
            from <= to <= v.len(),
            v@ == t@,
            trimmed_back(front) == trimmed_back(t@.subrange(from as int, to as int)),
        decreases to,
    {
        let ghost now = t@.subrange(from as int, to as int);
        assert(now.last() == v@[to - 1]);
        assert(now.drop_last() =~= t@.subrange(from as int, to - 1));
        to -= 1;
    }
    proof {
        let now = t@.subrange(from as int, to as int);
        if to > from {
            assert(now.last() == v@[to - 1]);
        }
        assert(trimmed_back(now) == now);
    }
    let r = t.substring_char(from, to);
    r.to_owned()
}

/// What follows `prefix` in the first of `lines` that starts with it.
pub open spec fn first_with_prefix(lines: Seq<Seq<char>>, prefix: Seq<char>) -> Option<Seq<char>>
    decreases lines.len(),
{
    if lines.len() == 0 {
        None
    } else if after_prefix(lines[0], prefix) is Some {
        after_prefix(lines[0], prefix)
    } else {
        first_with_prefix(lines.drop_first(), prefix)
    }
}

/// The number of threads that the status of a process tells.
pub open spec fn threads_in(status: Seq<char>) -> Result<nat, ThreadCountErrorView> {
    match first_with_prefix(pieces(status, '\n'), "Threads:"@) {
        None => Err(ThreadCountErrorView::NoField),
        Some(rest) => match bounded_number(
            trimmed_back(trimmed_front(rest)),
            usize::MAX as nat,
        ) {
            None => Err(ThreadCountErrorView::Unparsable),
            Some(n) => Ok(n),
        },
    }
}

/// The number of threads that the status of a process tells, where it could be
/// read.
pub fn get_thread_count(status: Result<String, String>) -> (r: Result<usize, ThreadCountError>)
    ensures
        match status {
            Err(reason) => r matches Err(e) && e@ == ThreadCountErrorView::Unreadable(reason@),
            Ok(text) => match r {
                Ok(n) => threads_in(text@) == Ok::<nat, ThreadCountErrorView>(n as nat),
                Err(e) => threads_in(text@) == Err::<nat, ThreadCountErrorView>(e@),
            },
        },
{
    let text = match status {
        Ok(text) => text,
        Err(reason) => {
            return Err(ThreadCountError::Unreadable(reason));
        },
    };
    let lines = split(text.as_str(), '\n');
    let ghost all = texts(lines@);
    assert(all.skip(0) == all);
    for i in 0..lines.len()
        invariant
            status == Ok::<String, String>(text),
            all == texts(lines@),
            all == pieces(text@, '\n'),
            first_with_prefix(all, "Threads:"@) == first_with_prefix(
                all.skip(i as int),
                "Threads:"@,
            ),
    {
        assert(all.skip(i as int)[0] == lines@[i as int]@);
        assert(all.skip(i as int).drop_first() == all.skip(i + 1));
        if let Some(rest) = strip_prefix(lines[i].as_str(), "Threads:") {
            return match parse_number(trim(rest.as_str()).as_str(), usize::MAX as u64) {
                Some(n) => Ok(n as usize),
                None => Err(ThreadCountError::Unparsable),
            };
        }
    }
    Err(ThreadCountError::NoField)
}

/// The time that a command is given.
#[derive(Debug)]
pub enum Timeout {
    /// As long as it takes.
    Unlimited,
    /// A time that is not negative.
    Limited,
    /// A time that is negative or no number, as it is shown.
    Bad(String),
}

/// The most threads with which it is safe to fork.
pub const MAX_THREADS: usize = 32;

/// Why a request to run a command is refused, if it is: the command is looked
/// at first, then the timeout, then the threads, where they are counted.
pub open spec fn refusal(
    command: Seq<Seq<char>>,
    timeout: Timeout,
    threads: Option<Result<usize, ThreadCountError>>,
) -> Option<ExecErrorView> {
    if command.len() == 0 {
        Some(ExecErrorView::EmptyCommand)
    } else {
        match timeout {
            Timeout::Bad(shown) => Some(ExecErrorView::BadTimeout(shown@)),
            _ => match threads {
                None => None,
                Some(Err(e)) => Some(ExecErrorView::ThreadsUnknown(e@)),
                Some(Ok(n)) => if n > 32 {
                    Some(ExecErrorView::TooManyThreads(n))
                } else {
                    None
                },
            },
        }
    }
}

/// Checks a request to run a command. Threads are counted on Linux only.
pub fn check_request(
    command: &[String],
    timeout: Timeout,
    threads: Option<Result<usize, ThreadCountError>>,
) -> (r: Result<(), ExecError>)
    ensures
        match r {
            Ok(_) => refusal(texts(command@), timeout, threads) is None,
            Err(e) => refusal(texts(command@), timeout, threads) == Some(e@),
        },
{
    if command.len() == 0 {
        return Err(ExecError::EmptyCommand);
    }
    if let Timeout::Bad(shown) = timeout {
        return Err(ExecError::BadTimeout(shown));
    }
    match threads {
        None => Ok(()),
        Some(Err(e)) => Err(ExecError::ThreadsUnknown(e)),
        Some(Ok(n)) => if n > MAX_THREADS {
            Err(ExecError::TooManyThreads(n))
        } else {
            Ok(())
        },
    }
}

/// What is known of a path at which a program may be.
#[derive(Clone, Copy, Debug)]
pub struct Place {
    /// Whether something is there.
    pub exists: bool,
    /// Whether it is a regular file.
    pub is_file: bool,
}

/// Whether something is at `path`, where that is known.
pub open spec fn is_there(present: Map<Seq<char>, Place>, path: Seq<char>) -> Result<
    bool,
    ExecErrorView,
> {
    if present.contains_key(path) {
        Ok(present[path].exists)
    } else {
        Err(ExecErrorView::ProbeNeeded(path))
    }
}

/// Whether a regular file is at `path`, where that is known.
pub open spec fn has_file(present: Map<Seq<char>, Place>, path: Seq<char>) -> Result<
    bool,
    ExecErrorView,
> {
    if present.contains_key(path) {
        Ok(present[path].is_file)
    } else {
        Err(ExecErrorView::ProbeNeeded(path))
    }
}

/// The program in the first of the directories `dirs` that has it as a file.
pub open spec fn found_in(
    program: Seq<char>,
    dirs: Seq<Seq<char>>,
    present: Map<Seq<char>, Place>,
) -> Result<Seq<char>, ExecErrorView>
    decreases dirs.len(),
{
    if dirs.len() == 0 {
        Err(ExecErrorView::NotInPath(program))
    } else {
        let candidate = below(dirs[0], program);
        match has_file(present, candidate) {
            Err(e) => Err(e),
            Ok(there) => if there {
                Ok(candidate)
            } else {
                found_in(program, dirs.drop_first(), present)
            },
        }
    }
}

/// Where a program is: a name with a slash is the path of something that exists, and
/// any other one is looked for in the directories of `PATH`, in order.
pub open spec fn program_place(
    program: Seq<char>,
    path_var: Option<Seq<char>>,
    present: Map<Seq<char>, Place>,
) -> Result<Seq<char>, ExecErrorView> {
    if program.contains('/') {
        match is_there(present, program) {
            Err(e) => Err(e),
            Ok(there) => if there {
                Ok(program)
            } else {
                Err(ExecErrorView::ProgramNotFound(program))
            },
        }
    } else {
        match path_var {
            None => Err(ExecErrorView::NotInPath(program)),
            Some(dirs) => found_in(program, pieces(dirs, ':'), present),
        }
    }
}

/// The absolute path of a program: where it is, seen from the current directory.
pub open spec fn program_path(
    program: Seq<char>,
    path_var: Option<Seq<char>>,
    current_dir: Seq<u8>,
    present: Map<Seq<char>, Place>,
) -> Result<Seq<u8>, ExecErrorView> {
    match program_place(program, path_var, present) {
        Ok(place) => Ok(absolute_from(current_dir, place)),
        Err(e) => Err(e),
    }
}

/// Finds where a program is.
fn find_program(program: &str, path_var: &Option<String>, present: &Table<Place>) -> (r: Result<
    String,
    ExecError,
>)
    ensures
        match r {
            Ok(path) => program_place(program@, opt_text(*path_var), present@) == Ok::<
                Seq<char>,
                ExecErrorView,
            >(path@),
            Err(e) => program_place(program@, opt_text(*path_var), present@) == Err::<
                Seq<char>,
                ExecErrorView,
            >(e@),
        },
{
    if contains_char(program, '/') {
        return match present.get(program) {
            None => Err(ExecError::ProbeNeeded(program.to_owned())),
            Some(place) => if place.exists {
                Ok(program.to_owned())
            } else {
                Err(ExecError::ProgramNotFound(program.to_owned()))
            },
        };
    }
    if let Some(dirs_text) = path_var {
        let dirs = split(dirs_text.as_str(), ':');
        let ghost all = texts(dirs@);
        assert(all.skip(0) == all);
        for i in 0..dirs.len()
            invariant
                !program@.contains('/'),
                opt_text(*path_var) == Some(dirs_text@),
                all == texts(dirs@),
                all == pieces(dirs_text@, ':'),
                found_in(program@, all, present@) == found_in(
                    program@,
                    all.skip(i as int),
                    present@,
                ),
        {
            assert(all.skip(i as int)[0] == dirs@[i as int]@);
            assert(all.skip(i as int).drop_first() == all.skip(i + 1));
            let candidate = join_below(dirs[i].as_str(), program);
            match present.get(candidate.as_str()) {
                None => {
                    return Err(ExecError::ProbeNeeded(candidate));
                },
                Some(place) => if place.is_file {
                    return Ok(candidate);
                },
            }
        }
    }
    Err(ExecError::NotInPath(program.to_owned()))
}

/// The absolute path of a program. `present` tells what is at the paths that were
/// asked for. A path that is not absolute is seen from `current_dir`, which is to
/// be absolute itself.
pub fn resolve_program(
    program: &str,
    path_var: &Option<String>,
    current_dir: &[u8],
    present: &Table<Place>,
) -> (r: Result<Vec<u8>, ExecError>)
    ensures
        is_absolute_bytes(current_dir@) ==> (r matches Ok(path) ==> is_absolute_bytes(path@)),
        match r {
            Ok(path) => program_path(program@, opt_text(*path_var), current_dir@, present@) == Ok::<
                Seq<u8>,
                ExecErrorView,
            >(path@),
            Err(e) => program_path(program@, opt_text(*path_var), current_dir@, present@) == Err::<
                Seq<u8>,
                ExecErrorView,
            >(e@),
        },
{
    let place = find_program(program, path_var, present)?;
    Ok(make_absolute(current_dir, place.as_str()))
}

/// Whether a text has a null byte.
pub open spec fn has_nul(t: Seq<char>) -> bool {
    t.contains('\0')
}

/// The entry of an environment for a variable.
pub open spec fn env_line(pair: (Seq<u8>, Seq<u8>)) -> Seq<u8> {
    pair.0.push(61u8) + pair.1
}

/// The views of variables.
pub open spec fn pair_views(v: Seq<(Vec<u8>, Vec<u8>)>) -> Seq<(Seq<u8>, Seq<u8>)> {
    v.map_values(|p: (Vec<u8>, Vec<u8>)| (p.0@, p.1@))
}

/// Whether `pairs` sets the variable `key`.
pub open spec fn sets(pairs: Seq<(Seq<u8>, Seq<u8>)>, key: Seq<u8>) -> bool {
    exists|i: int| 0 <= i < pairs.len() && (#[trigger] pairs[i]).0 == key
}

/// The variables that a child gets: those that are inherited and not set anew,
/// and those that are set anew.
pub open spec fn env_pairs(
    inherited: Seq<(Seq<u8>, Seq<u8>)>,
    overrides: Seq<(Seq<u8>, Seq<u8>)>,
) -> Seq<(Seq<u8>, Seq<u8>)> {
    inherited.filter(|p: (Seq<u8>, Seq<u8>)| !sets(overrides, p.0)) + overrides
}

/// The environment that a child gets; an entry with a null byte is left out.
pub open spec fn env_lines(pairs: Seq<(Seq<u8>, Seq<u8>)>) -> Seq<Seq<u8>>
    decreases pairs.len(),
{
    if pairs.len() == 0 {
        Seq::empty()
    } else {
        let before = env_lines(pairs.drop_last());
        let line = env_line(pairs.last());
        if has_zero(line) {
            before
        } else {
            before.push(line)
        }
    }
}

/// Puts the entry for a variable behind `env`, unless it has a null byte.
fn add_line(
    env: &mut Vec<Vec<u8>>,
    pair: &(Vec<u8>, Vec<u8>),
    Ghost(pairs): Ghost<Seq<(Seq<u8>, Seq<u8>)>>,
)
    requires
        byte_views(old(env)@) == env_lines(pairs),
    ensures
        byte_views(final(env)@) == env_lines(pairs.push((pair.0@, pair.1@))),
{
    let mut line: Vec<u8> = Vec::new();
    append_bytes(&mut line, pair.0.as_slice());
    line.push(61);
    append_bytes(&mut line, pair.1.as_slice());
    let ghost more = pairs.push((pair.0@, pair.1@));
    assert(more.drop_last() == pairs);
    assert(line@ =~= env_line(more.last()));
    if !contains_zero(line.as_slice()) {
        let ghost had = env@;
        let ghost word = line@;
        env.push(line);
        assert(byte_views(env@) =~= byte_views(had).push(word));
    }
}

/// Tells whether one of `pairs` sets the variable `key`.
fn is_set(pairs: &Vec<(Vec<u8>, Vec<u8>)>, key: &[u8]) -> (r: bool)
    ensures
        r == sets(pair_views(pairs@), key@),
{
    for i in 0..pairs.len()
        invariant
            forall|j: int| 0 <= j < i ==> (#[trigger] pair_views(pairs@)[j]).0 != key@,
    {
        assert(pair_views(pairs@)[i as int].0 == pairs@[i as int].0@);
        if same_bytes(pairs[i].0.as_slice(), key) {
            return true;
        }
    }
    false
}

/// The variables that are set anew, if any are.
pub open spec fn override_views(overrides: Option<Vec<(String, String)>>) -> Seq<
    (Seq<u8>, Seq<u8>),
> {
    match overrides {
        Some(pairs) => pairs@.map_values(
            |p: (String, String)| (encode_utf8(p.0@), encode_utf8(p.1@)),
        ),
        None => Seq::empty(),
    }
}

/// The bytes of the variables that are set anew.
fn override_bytes(overrides: &Option<Vec<(String, String)>>) -> (r: Vec<(Vec<u8>, Vec<u8>)>)
    ensures
        pair_views(r@) == override_views(*overrides),
{
    let mut r: Vec<(Vec<u8>, Vec<u8>)> = Vec::new();
    if let Some(pairs) = overrides {
        for i in 0..pairs.len()
            invariant
                r@.len() == i,
                forall|j: int|
                    0 <= j < i ==> (#[trigger] r@[j]).0@ == encode_utf8(pairs@[j].0@) && r@[j].1@
                        == encode_utf8(pairs@[j].1@),
        {
            r.push((bytes_of(pairs[i].0.as_str()), bytes_of(pairs[i].1.as_str())));
        }
        assert(pair_views(r@) =~= override_views(*overrides));
    } else {
        assert(pair_views(r@) =~= override_views(*overrides));
    }
    r
}

/// The environment that a child gets. What is inherited need not be UTF-8.
pub fn build_env(
    inherited: &Vec<(Vec<u8>, Vec<u8>)>,
    overrides: &Option<Vec<(String, String)>>,
) -> (r: Vec<Vec<u8>>)
    ensures
        byte_views(r@) == env_lines(env_pairs(pair_views(inherited@), override_views(*overrides))),
{
    let pairs = override_bytes(overrides);
    let ghost over = override_views(*overrides);
    let ghost kept = |p: (Seq<u8>, Seq<u8>)| !sets(over, p.0);
    let ghost all = pair_views(inherited@);
    let mut env: Vec<Vec<u8>> = Vec::new();
    proof {
        reveal(Seq::filter);
        assert(all.take(0).filter(kept) =~= Seq::empty());
        assert(byte_views(env@) =~= Seq::empty());
    }
    for i in 0..inherited.len()
        invariant
            over == pair_views(pairs@),
            kept == (|p: (Seq<u8>, Seq<u8>)| !sets(over, p.0)),
            all == pair_views(inherited@),
            byte_views(env@) == env_lines(all.take(i as int).filter(kept)),
    {
        let ghost before = all.take(i as int);
        proof {
            reveal(Seq::filter);
            assert(all.take(i + 1).drop_last() == before);
            assert(all.take(i + 1).last() == (inherited@[i as int].0@, inherited@[i as int].1@));
        }
        if !is_set(&pairs, inherited[i].0.as_slice()) {
            add_line(&mut env, &inherited[i], Ghost(before.filter(kept)));
        }
    }
    let ghost front = all.filter(kept);
    proof {
        assert(all.take(all.len() as int) == all);
        assert(front + over.take(0) =~= front);
    }
    for i in 0..pairs.len()
        invariant
            over == pair_views(pairs@),
            byte_views(env@) == env_lines(front + over.take(i as int)),
    {
        add_line(&mut env, &pairs[i], Ghost(front + over.take(i as int)));
        assert((front + over.take(i as int)).push((pairs@[i as int].0@, pairs@[i as int].1@))
            =~= front + over.take(i + 1));
    }
    assert(over.take(over.len() as int) == over);
    env
}

/// All that is needed to run a command, prepared before the fork.
#[derive(Debug)]
pub struct ForkContext {
    /// The absolute path of the program.
    pub program: Vec<u8>,
    /// The command with its arguments.
    pub argv: Vec<String>,
    /// The environment.
    pub env: Vec<Vec<u8>>,
    /// The directory to change to, if any.
    pub cwd: Option<Vec<u8>>,
}

/// A working directory that was asked for, and what came of resolving it.
#[derive(Debug)]
pub struct WorkingDirectory {
    pub dir: String,
    /// The canonical path, or why there is none.
    pub resolved: Result<Vec<u8>, String>,
}

/// What is wrong with a working directory, if anything.
pub open spec fn directory_error(cwd: Option<WorkingDirectory>) -> Option<ExecErrorView> {
    match cwd {
        None => None,
        Some(wanted) => match wanted.resolved {
            Err(reason) => Some(
                ExecErrorView::NoWorkingDirectory { dir: wanted.dir@, reason: reason@ },
            ),
            Ok(path) => if has_zero(path@) {
                Some(ExecErrorView::WorkingDirectoryNul)
            } else {
                None
            },
        },
    }
}

/// Whether one of `args` has a null byte.
pub open spec fn any_nul(args: Seq<Seq<char>>) -> bool {
    exists|i: int| 0 <= i < args.len() && has_nul(#[trigger] args[i])
}

/// Why a command cannot be run, if it cannot: the program is looked at first,
/// then the arguments, then the working directory.
pub open spec fn preparation_error(
    command: Seq<Seq<char>>,
    program: Result<Seq<u8>, ExecErrorView>,
    cwd: Option<WorkingDirectory>,
) -> Option<ExecErrorView> {
    match program {
        Err(e) => Some(e),
        Ok(path) => if has_zero(path) {
            Some(ExecErrorView::ProgramNul)
        } else if any_nul(command) {
            Some(ExecErrorView::ArgumentNul)
        } else {
            directory_error(cwd)
        },
    }
}

/// Prepares what is needed to run `command`.
pub fn prepare_fork_context(
    command: &[String],
    cwd: Option<WorkingDirectory>,
    inherited: &Vec<(Vec<u8>, Vec<u8>)>,
    overrides: &Option<Vec<(String, String)>>,
    path_var: &Option<String>,
    current_dir: &[u8],
    present: &Table<Place>,
) -> (r: Result<ForkContext, ExecError>)
    requires
        command@.len() > 0,
    ensures
        ({
            let program = program_path(
                command@[0]@,
                opt_text(*path_var),
                current_dir@,
                present@,
            );
            let error = preparation_error(texts(command@), program, cwd);
            match r {
                Ok(ctx) => {
                    &&& error is None
                    &&& program == Ok::<Seq<u8>, ExecErrorView>(ctx.program@)
                    &&& is_absolute_bytes(current_dir@) ==> is_absolute_bytes(ctx.program@)
                    &&& texts(ctx.argv@) == texts(command@)
                    &&& byte_views(ctx.env@) == env_lines(
                        env_pairs(pair_views(inherited@), override_views(*overrides)),
                    )
                    &&& match cwd {
                        Some(wanted) => ctx.cwd == Some(wanted.resolved->Ok_0),
                        None => ctx.cwd is None,
                    }
                },
                Err(e) => error == Some(e@),
            }
        }),
{
    let program = resolve_program(command[0].as_str(), path_var, current_dir, present)?;
    if contains_zero(program.as_slice()) {
        return Err(ExecError::ProgramNul);
    }
    for i in 0..command.len()
        invariant
            program_path(command@[0]@, opt_text(*path_var), current_dir@, present@) == Ok::<
                Seq<u8>,
                ExecErrorView,
            >(program@),
            !has_zero(program@),
            forall|j: int| 0 <= j < i ==> !has_nul(#[trigger] texts(command@)[j]),
    {
        assert(texts(command@)[i as int] == command@[i as int]@);
        if contains_char(command[i].as_str(), '\0') {
            return Err(ExecError::ArgumentNul);
        }
    }
    let env = build_env(inherited, overrides);
    let dir: Option<Vec<u8>> = match cwd {
        None => None,
        Some(wanted) => match wanted.resolved {
            Err(reason) => {
                return Err(ExecError::NoWorkingDirectory { dir: wanted.dir, reason });
            },
            Ok(path) => {
                if contains_zero(path.as_slice()) {
                    return Err(ExecError::WorkingDirectoryNul);
                }
                Some(path)
            },
        },
    };
    Ok(ForkContext { program, argv: copy_strings(command), env, cwd: dir })
}

/// A request to run a command, with what the system says of it.
#[derive(Debug)]
pub struct ExecRequest {
    /// The command with its arguments.
    pub command: Vec<String>,
    /// The working directory that was asked for, if any was.
    pub cwd: Option<WorkingDirectory>,
    pub timeout: Timeout,
    /// The variables that are set anew, if any are.
    pub env: Option<Vec<(String, String)>>,
    /// The number of threads, where they are counted.
    pub threads: Option<Result<usize, ThreadCountError>>,
    /// The variables that are inherited.
    pub inherited: Vec<(Vec<u8>, Vec<u8>)>,
    /// The variable `PATH`.
    pub path_var: Option<String>,
    /// The absolute path of the current directory.
    pub current_dir: Vec<u8>,
}

/// Why a request does not get as far as the fork, if it does not.
pub open spec fn request_error(request: ExecRequest, present: Map<Seq<char>, Place>) -> Option<
    ExecErrorView,
> {
    let command = texts(request.command@);
    match refusal(command, request.timeout, request.threads) {
        Some(e) => Some(e),
        None => preparation_error(
            command,
            program_path(
                command[0],
                opt_text(request.path_var),
                request.current_dir@,
                present,
            ),
            request.cwd,
        ),
    }
}

/// Checks a request to run a command, and prepares what is needed for it.
pub fn prepare_exec(request: ExecRequest, present: &Table<Place>) -> (r: Result<
    ForkContext,
    ExecError,
>)
    ensures
        match r {
            Ok(ctx) => {
                &&& request_error(request, present@) is None
                &&& program_path(
                    request.command@[0]@,
                    opt_text(request.path_var),
                    request.current_dir@,
                    present@,
                ) == Ok::<Seq<u8>, ExecErrorView>(ctx.program@)
                &&& is_absolute_bytes(request.current_dir@) ==> is_absolute_bytes(ctx.program@)
                &&& texts(ctx.argv@) == texts(request.command@)
                &&& byte_views(ctx.env@) == env_lines(
                    env_pairs(pair_views(request.inherited@), override_views(request.env)),
                )
                &&& match request.cwd {
                    Some(wanted) => ctx.cwd == Some(wanted.resolved->Ok_0),
                    None => ctx.cwd is None,
                }
            },
            Err(e) => request_error(request, present@) == Some(e@),
        },
{
    check_request(request.command.as_slice(), request.timeout, request.threads)?;
    assert(texts(request.command@)[0] == request.command@[0]@);
    prepare_fork_context(
        request.command.as_slice(),
        request.cwd,
        &request.inherited,
        &request.env,
        &request.path_var,
        request.current_dir.as_slice(),
        present,
    )
}

/// What keeps a child from running its command.
#[derive(Debug)]
pub enum ChildFailure {
    /// It could not change to its working directory.
    Chdir,
    /// The sandbox could not be applied; holds the reason.
    Sandbox(String),
    /// The program could not be executed; holds the reason.
    Exec(String),
}

/// What a child that cannot run its command says.
pub open spec fn failure_message(failure: ChildFailure) -> Seq<char> {
    match failure {
        ChildFailure::Chdir => "nono: failed to chdir\n"@,
        ChildFailure::Sandbox(reason) => "nono: sandbox apply failed: "@ + reason@ + "\n"@,
        ChildFailure::Exec(reason) => "nono: exec failed: "@ + reason@ + "\n"@,
    }
}

impl ChildFailure {
    /// What the child says.
    pub fn message(&self) -> (r: String)
        ensures
            r@ == failure_message(*self),
    {
        match self {
            ChildFailure::Chdir => String::from_str("nono: failed to chdir\n"),
            ChildFailure::Sandbox(reason) => String::from_str(
                "nono: sandbox apply failed: ",
            ).concat(reason.as_str()).concat("\n"),
            ChildFailure::Exec(reason) => String::from_str("nono: exec failed: ").concat(
                reason.as_str(),
            ).concat("\n"),
        }
    }

    /// The code with which the child exits.
    pub fn exit_code(&self) -> (r: i32)
        ensures
            r == (if self is Exec {
                127i32
            } else {
                126i32
            }),
    {
        match self {
            ChildFailure::Chdir => 126,
            ChildFailure::Sandbox(_) => 126,
            ChildFailure::Exec(_) => 127,
        }
    }
}

/// What happened last in a child.
#[derive(Debug)]
pub enum ChildEvent {
    /// It was forked.
    Forked,
    /// Its output goes to the pipes.
    Redirected,
    /// It is in its working directory.
    Moved,
    /// It could not change to its working directory.
    NotMoved,
    /// The sandbox is applied.
    Sandboxed,
    /// The sandbox could not be applied; holds the reason.
    NotSandboxed(String),
    /// The program could not be executed; holds the reason.
    NotExecuted(String),
}

/// What a child does next.
#[derive(Debug)]
pub enum ChildAction {
    /// Let the output go to the pipes.
    Redirect,
    /// Change to the working directory.
    Chdir,
    /// Apply the sandbox.
    ApplySandbox,
    /// Execute the program.
    Exec,
    /// Say what failed, and exit.
    GiveUp(ChildFailure),
}

/// What a child does next: it lets its output go to the pipes, changes to its
/// working directory if it has one, applies the sandbox, and then executes the
/// program. The first thing that fails ends it.
pub open spec fn after_child(has_cwd: bool, event: ChildEvent) -> ChildAction {
    match event {
        ChildEvent::Forked => ChildAction::Redirect,
        ChildEvent::Redirected => if has_cwd {
            ChildAction::Chdir
        } else {
            ChildAction::ApplySandbox
        },
        ChildEvent::Moved => ChildAction::ApplySandbox,
        ChildEvent::NotMoved => ChildAction::GiveUp(ChildFailure::Chdir),
        ChildEvent::Sandboxed => ChildAction::Exec,
        ChildEvent::NotSandboxed(reason) => ChildAction::GiveUp(ChildFailure::Sandbox(reason)),
        ChildEvent::NotExecuted(reason) => ChildAction::GiveUp(ChildFailure::Exec(reason)),
    }
}

/// Decides what a child does next.
pub fn child_step(has_cwd: bool, event: ChildEvent) -> (r: ChildAction)
    ensures
        r == after_child(has_cwd, event),
{
    match event {
        ChildEvent::Forked => ChildAction::Redirect,
        ChildEvent::Redirected => if has_cwd {
            ChildAction::Chdir
        } else {
            ChildAction::ApplySandbox
        },
        ChildEvent::Moved => ChildAction::ApplySandbox,
        ChildEvent::NotMoved => ChildAction::GiveUp(ChildFailure::Chdir),
        ChildEvent::Sandboxed => ChildAction::Exec,
        ChildEvent::NotSandboxed(reason) => ChildAction::GiveUp(ChildFailure::Sandbox(reason)),
        ChildEvent::NotExecuted(reason) => ChildAction::GiveUp(ChildFailure::Exec(reason)),
    }
}

/// The program is executed only in a child whose sandbox is applied.
pub proof fn lemma_no_exec_outside_sandbox(has_cwd: bool, event: ChildEvent)
    ensures
        after_child(has_cwd, event) is Exec <==> event is Sandboxed,
{
}

/// Whether `event` can follow on an action of a child.
pub open spec fn can_follow(action: ChildAction, event: ChildEvent) -> bool {
    match action {
        ChildAction::Redirect => event is Redirected,
        ChildAction::Chdir => event is Moved || event is NotMoved,
        ChildAction::ApplySandbox => event is Sandboxed || event is NotSandboxed,
        ChildAction::Exec => event is NotExecuted,
        ChildAction::GiveUp(_) => false,
    }
}

/// Whether `events` can be what happens in a child, one after the other.
pub open spec fn is_child_history(has_cwd: bool, events: Seq<ChildEvent>) -> bool {
    &&& events.len() > 0
    &&& events[0] is Forked
    &&& forall|i: int|
        0 < i < events.len() ==> can_follow(
            after_child(has_cwd, events[i - 1]),
            #[trigger] events[i],
        )
}

/// Before a child executes its program its output goes to the pipes, it is in its
/// working directory if it has one, and its sandbox is applied, all in this order.
/// At most five things happen in it: where the program cannot be executed, the
/// child gives up.
pub proof fn lemma_child_history(has_cwd: bool, events: Seq<ChildEvent>)
    requires
        is_child_history(has_cwd, events),
    ensures
        after_child(has_cwd, events.last()) is Exec ==> {
            &&& events.len() == if has_cwd {
                4int
            } else {
                3int
            }
            &&& events[1] is Redirected
            &&& has_cwd ==> events[2] is Moved
            &&& events.last() is Sandboxed
        },
        events.len() <= 5,
{
    assert(events.len() > 1 ==> can_follow(after_child(has_cwd, events[0]), events[1]));
    assert(events.len() > 2 ==> can_follow(after_child(has_cwd, events[1]), events[2]));
    assert(events.len() > 3 ==> can_follow(after_child(has_cwd, events[2]), events[3]));
    assert(events.len() > 4 ==> can_follow(after_child(has_cwd, events[3]), events[4]));
    assert(events.len() > 5 ==> can_follow(after_child(has_cwd, events[4]), events[5]));
}

/// The bits of a wait status that tell how a process ended: 0 for an exit, 127
/// for one that has not ended, and the signal otherwise.
pub open spec fn status_low(status: i32) -> i32 {
    status & 0x7f
}

/// The bits of a wait status that hold the exit code.
pub open spec fn status_high(status: i32) -> i32 {
    (status >> 8) & 0xff
}

/// Calls `libc::WIFEXITED`, which tells whether a status is that of an exit: its
/// low seven bits are 0.
#[verifier::external_body]
fn exited(status: i32) -> (r: bool)
    ensures
        r == (status_low(status) == 0),
{
    libc::WIFEXITED(status)
}

/// Calls `libc::WEXITSTATUS`, which takes the exit code out of a status: the
/// eight bits above the low eight.
#[verifier::external_body]
fn exit_status(status: i32) -> (r: i32)
    ensures
        r == status_high(status),
{
    libc::WEXITSTATUS(status)
}

/// Calls `libc::WIFSIGNALED`, which tells whether a status is that of a process
/// that a signal ended: on Linux and macOS its low seven bits are neither 0 nor
/// all set.
#[verifier::external_body]
fn signaled(status: i32) -> (r: bool)
    ensures
        r == (1 <= status_low(status) <= 126),
{
    libc::WIFSIGNALED(status)
}

/// Calls `libc::WTERMSIG`, which takes the signal out of a status: its low seven
/// bits.
#[verifier::external_body]
fn term_signal(status: i32) -> (r: i32)
    ensures
        r == status_low(status),
{
    libc::WTERMSIG(status)
}

/// The exit code for a wait status: the process's own, or the negated signal
/// that ended it.
pub open spec fn code_of(status: i32) -> Result<int, ExecErrorView> {
    if status_low(status) == 0 {
        Ok(status_high(status) as int)
    } else if 1 <= status_low(status) <= 126 {
        Ok(-status_low(status))
    } else {
        Err(ExecErrorView::UnexpectedStatus)
    }
}

/// The exit code for a wait status.
pub fn exit_code_of(status: i32) -> (r: Result<i32, ExecError>)
    ensures
        match r {
            Ok(code) => code_of(status) == Ok::<int, ExecErrorView>(code as int),
            Err(e) => code_of(status) == Err::<int, ExecErrorView>(e@),
        },
{
    if exited(status) {
        return Ok(exit_status(status));
    }
    if signaled(status) {
        let signal: i32 = term_signal(status);
        return Ok(-signal);
    }
    Err(ExecError::UnexpectedStatus)
}

/// What a look at a child gave.
#[derive(Debug)]
pub enum WaitEvent {
    /// The look was interrupted.
    Interrupted,
    /// The look failed; holds the reason.
    Failed(String),
    /// The child is still running.
    Running,
    /// The child has ended, with a wait status.
    Ended(i32),
}

/// What to do after a look at a child.
#[derive(Debug)]
pub enum WaitAction {
    /// Look again at once.
    LookAgain,
    /// Sleep for a number of milliseconds, and look again.
    Sleep(u64),
    /// Kill the child and wait for its end; the exit code is given.
    Kill(i32),
    /// Be done, with an exit code.
    Finish(i32),
    /// Be done, with an error.
    Fail(ExecError),
}

/// The view of what to do after a look at a child.
pub enum WaitActionView {
    LookAgain,
    Sleep(u64),
    Kill(int),
    Finish(int),
    Fail(ExecErrorView),
}

impl View for WaitAction {
    type V = WaitActionView;

    open spec fn view(&self) -> WaitActionView {
        match *self {
            WaitAction::LookAgain => WaitActionView::LookAgain,
            WaitAction::Sleep(ms) => WaitActionView::Sleep(ms),
            WaitAction::Kill(code) => WaitActionView::Kill(code as int),
            WaitAction::Finish(code) => WaitActionView::Finish(code as int),
            WaitAction::Fail(e) => WaitActionView::Fail(e@),
        }
    }
}

/// What to do after a look at a child. `overdue` tells whether there is a
/// deadline and it has passed.
pub open spec fn after_look(event: WaitEvent, overdue: bool) -> WaitActionView {
    match event {
        WaitEvent::Interrupted => WaitActionView::LookAgain,
        WaitEvent::Failed(reason) => WaitActionView::Fail(ExecErrorView::WaitFailed(reason@)),
        WaitEvent::Running => if overdue {
            WaitActionView::Kill(124)
        } else {
            WaitActionView::Sleep(10)
        },
        WaitEvent::Ended(status) => match code_of(status) {
            Ok(code) => WaitActionView::Finish(code),
            Err(e) => WaitActionView::Fail(e),
        },
    }
}

/// Decides what to do after a look at a child.
pub fn wait_step(event: WaitEvent, overdue: bool) -> (r: WaitAction)
    ensures
        r@ == after_look(event, overdue),
{
    match event {
        WaitEvent::Interrupted => WaitAction::LookAgain,
        WaitEvent::Failed(reason) => WaitAction::Fail(ExecError::WaitFailed(reason)),
        WaitEvent::Running => if overdue {
            WaitAction::Kill(124)
        } else {
            WaitAction::Sleep(10)
        },
        WaitEvent::Ended(status) => match exit_code_of(status) {
            Ok(code) => WaitAction::Finish(code),
            Err(e) => WaitAction::Fail(e),
        },
    }
}

/// What came of running a command: an error where the child reported that it
/// could not get as far as running it.
pub fn finish_exec(report: Option<String>, exit_code: i32, stdout: Vec<u8>, stderr: Vec<u8>) -> (r:
    Result<ExecResult, ExecError>)
    ensures
        match report {
            Some(message) => r == Err::<ExecResult, ExecError>(ExecError::NotStarted(message)),
            None => r == Ok::<ExecResult, ExecError>(ExecResult { stdout, stderr, exit_code }),
        },
{
    match report {
        Some(message) => Err(ExecError::NotStarted(message)),
        None => Ok(ExecResult { stdout, stderr, exit_code }),
    }
}

/// The exit code of a command that exited lies between 0 and 255, that of one
/// that a signal ended between -126 and -1, and there is no other.
pub proof fn lemma_exit_code_tells_end(status: i32)
    ensures
        code_of(status) matches Ok(code) ==> {
            &&& -126 <= code <= 255
            &&& code >= 0 <==> status_low(status) == 0
            &&& code < 0 <==> 1 <= status_low(status) <= 126
        },
        code_of(status) is Err <==> status_low(status) == 127,
{
    let low = status_low(status);
    let high = status_high(status);
    assert(0 <= status & 0x7f <= 127) by (bit_vector);
    assert(0 <= (status >> 8) & 0xff <= 255) by (bit_vector);
    assert(0 <= low <= 127 && 0 <= high <= 255);
}

/// A child is killed only where it is still running after its deadline.
pub proof fn lemma_only_overdue_is_killed(event: WaitEvent, overdue: bool)
    ensures
        after_look(event, overdue) is Kill <==> event is Running && overdue,
        event is Ended ==> after_look(event, true) == after_look(event, false),
{
}

/// A variable that is set anew is not inherited as well; all others are.
pub proof fn lemma_overrides_win(
    inherited: Seq<(Seq<u8>, Seq<u8>)>,
    overrides: Seq<(Seq<u8>, Seq<u8>)>,
    pair: (Seq<u8>, Seq<u8>),
)
    ensures
        env_pairs(inherited, overrides).contains(pair) <==> overrides.contains(pair) || (
        inherited.contains(pair) && !sets(overrides, pair.0)),
{
    let kept = |p: (Seq<u8>, Seq<u8>)| !sets(overrides, p.0);
    let front = inherited.filter(kept);
    let all = env_pairs(inherited, overrides);
    lemma_filter_members(inherited, kept, pair);
    if front.contains(pair) {
        let i = front.index_of(pair);
        assert(all[i] == pair);
    }
    if overrides.contains(pair) {
        let i = overrides.index_of(pair);
        assert(all[front.len() + i] == pair);
    }
    if all.contains(pair) {
        let i = all.index_of(pair);
        if i < front.len() {
            assert(front[i] == pair);
        } else {
            assert(overrides[i - front.len()] == pair);
        }
    }
}

proof fn lemma_filter_members<A>(s: Seq<A>, keep: spec_fn(A) -> bool, x: A)
    ensures
        s.filter(keep).contains(x) <==> s.contains(x) && keep(x),
    decreases s.len(),
{
    reveal(Seq::filter);
    if s.len() > 0 {
        let front = s.drop_last();
        let last = s.last();
        lemma_filter_members(front, keep, x);
        assert(s.contains(x) <==> front.contains(x) || x == last) by {
            if front.contains(x) {
                let i = front.index_of(x);
                assert(s[i] == x);
            }
            assert(s[s.len() - 1] == last);
            if s.contains(x) && x != last {
                let i = s.index_of(x);
                assert(front[i] == x);
            }
        }
        let kept = front.filter(keep);
        let all = s.filter(keep);
        if keep(last) {
            assert(all == kept.push(last));
            if kept.contains(x) {
                let i = kept.index_of(x);
                assert(all[i] == x);
            }
            assert(all[all.len() - 1] == last);
            if all.contains(x) && x != last {
                let i = all.index_of(x);
                assert(kept[i] == x);
            }
        }
    }
}

/// The environment holds the entries of its variables but for those with a null
/// byte.
pub proof fn lemma_env_lines(pairs: Seq<(Seq<u8>, Seq<u8>)>, line: Seq<u8>)
    ensures
        env_lines(pairs).contains(line) <==> !has_zero(line) && exists|i: int|
            0 <= i < pairs.len() && env_line(#[trigger] pairs[i]) == line,
    decreases pairs.len(),
{
    if pairs.len() > 0 {
        let front = pairs.drop_last();
        lemma_env_lines(front, line);
        let last = env_line(pairs.last());
        let before = env_lines(front);
        let all = env_lines(pairs);
        assert(pairs[pairs.len() - 1] == pairs.last());
        assert((exists|i: int| 0 <= i < pairs.len() && env_line(#[trigger] pairs[i]) == line) <==> (
        (exists|i: int| 0 <= i < front.len() && env_line(#[trigger] front[i]) == line) || last
            == line)) by {
            if exists|i: int| 0 <= i < front.len() && env_line(#[trigger] front[i]) == line {
                let i = choose|i: int|
                    0 <= i < front.len() && env_line(#[trigger] front[i]) == line;
                assert(env_line(pairs[i]) == line);
            }
            if exists|i: int| 0 <= i < pairs.len() && env_line(#[trigger] pairs[i]) == line {
                let i = choose|i: int|
                    0 <= i < pairs.len() && env_line(#[trigger] pairs[i]) == line;
                if i < front.len() {
                    assert(env_line(front[i]) == line);
                }
            }
        }
        if !has_zero(last) {
            assert(all == before.push(last));
            if before.contains(line) {
                let i = before.index_of(line);
                assert(all[i] == line);
            }
            assert(all[all.len() - 1] == last);
            if all.contains(line) && line != last {
                let i = all.index_of(line);
                assert(before[i] == line);
            }
        }
    }
}

/// A variable that is inherited reaches the child, whatever bytes it holds but null
/// bytes, unless it is set anew.
pub proof fn lemma_inherited_reaches_child(
    inherited: Seq<(Seq<u8>, Seq<u8>)>,
    overrides: Seq<(Seq<u8>, Seq<u8>)>,
    pair: (Seq<u8>, Seq<u8>),
)
    requires
        inherited.contains(pair),
        !sets(overrides, pair.0),
        !has_zero(env_line(pair)),
    ensures
        env_lines(env_pairs(inherited, overrides)).contains(env_line(pair)),
{
    let pairs = env_pairs(inherited, overrides);
    lemma_overrides_win(inherited, overrides, pair);
    lemma_env_lines(pairs, env_line(pair));
    let i = pairs.index_of(pair);
    assert(env_line(pairs[i]) == env_line(pair));
}

/// Nothing that is handed to the system for a command has a null byte.
pub proof fn lemma_no_nul_is_handed_on(request: ExecRequest, present: Map<Seq<char>, Place>)
    requires
        request_error(request, present) is None,
    ensures
        !any_nul(texts(request.command@)),
        program_path(
            texts(request.command@)[0],
            opt_text(request.path_var),
            request.current_dir@,
            present,
        ) matches Ok(path) && !has_zero(path),
        forall|i: int|
            0 <= i < env_lines(
                env_pairs(pair_views(request.inherited@), override_views(request.env)),
            ).len() ==> !has_zero(
                #[trigger] env_lines(
                    env_pairs(pair_views(request.inherited@), override_views(request.env)),
                )[i],
            ),
        request.cwd matches Some(wanted) ==> (wanted.resolved matches Ok(path) && !has_zero(path@)),
{
    let lines = env_lines(env_pairs(pair_views(request.inherited@), override_views(request.env)));
    assert forall|i: int| 0 <= i < lines.len() implies !has_zero(#[trigger] lines[i]) by {
        lemma_env_lines(
            env_pairs(pair_views(request.inherited@), override_views(request.env)),
            lines[i],
        );
        assert(lines.contains(lines[i]));
    }
}

/// Whether the program is in the directory `i` of `dirs` and in none before.
pub open spec fn is_first_place(
    program: Seq<char>,
    dirs: Seq<Seq<char>>,
    i: int,
    present: Map<Seq<char>, Place>,
) -> bool {
    &&& 0 <= i < dirs.len()
    &&& has_file(present, below(dirs[i], program)) == Ok::<bool, ExecErrorView>(true)
    &&& forall|j: int|
        0 <= j < i ==> has_file(present, below(#[trigger] dirs[j], program)) == Ok::<
            bool,
            ExecErrorView,
        >(false)
}

/// A program is taken from the first directory that has it.
pub proof fn lemma_first_directory_wins(
    program: Seq<char>,
    dirs: Seq<Seq<char>>,
    i: int,
    present: Map<Seq<char>, Place>,
)
    requires
        is_first_place(program, dirs, i, present),
    ensures
        found_in(program, dirs, present) == Ok::<Seq<char>, ExecErrorView>(below(dirs[i], program)),
    decreases dirs.len(),
{
    if i > 0 {
        let rest = dirs.drop_first();
        assert(has_file(present, below(dirs[0], program)) == Ok::<bool, ExecErrorView>(false));
        assert(forall|j: int| 0 <= j < rest.len() ==> rest[j] == dirs[j + 1]);
        lemma_first_directory_wins(program, rest, i - 1, present);
    }
}

/// A program that none of the directories has is not found.
pub proof fn lemma_not_in_any_directory(
    program: Seq<char>,
    dirs: Seq<Seq<char>>,
    present: Map<Seq<char>, Place>,
)
    requires
        forall|j: int|
            0 <= j < dirs.len() ==> has_file(present, below(#[trigger] dirs[j], program)) == Ok::<
                bool,
                ExecErrorView,
            >(false),
    ensures
        found_in(program, dirs, present) == Err::<Seq<char>, ExecErrorView>(
            ExecErrorView::NotInPath(program),
        ),
    decreases dirs.len(),
{
    if dirs.len() > 0 {
        let rest = dirs.drop_first();
        assert(has_file(present, below(dirs[0], program)) == Ok::<bool, ExecErrorView>(false));
        assert(forall|j: int| 0 <= j < rest.len() ==> rest[j] == dirs[j + 1]);
        lemma_not_in_any_directory(program, rest, present);
    }
}

proof fn lemma_search_asks_new(
    program: Seq<char>,
    dirs: Seq<Seq<char>>,
    path: Seq<char>,
    present: Map<Seq<char>, Place>,
)
    requires
        found_in(program, dirs, present) == Err::<Seq<char>, ExecErrorView>(
            ExecErrorView::ProbeNeeded(path),
        ),
    ensures
        !present.contains_key(path),
    decreases dirs.len(),
{
    if dirs.len() > 0 {
        let there = has_file(present, below(dirs[0], program));
        if there == Ok::<bool, ExecErrorView>(false) {
            lemma_search_asks_new(program, dirs.drop_first(), path, present);
        }
    }
}

/// A request that asks for a path to be looked at asks for one of which nothing
/// is known yet, so that each look brings it further.
pub proof fn lemma_program_probe_is_new(
    request: ExecRequest,
    path: Seq<char>,
    present: Map<Seq<char>, Place>,
)
    requires
        request_error(request, present) == Some(ExecErrorView::ProbeNeeded(path)),
    ensures
        !present.contains_key(path),
{
    let program = texts(request.command@)[0];
    if !program.contains('/') {
        if let Some(dirs) = opt_text(request.path_var) {
            lemma_search_asks_new(program, pieces(dirs, ':'), path, present);
        }
    }
}

} // verus!
