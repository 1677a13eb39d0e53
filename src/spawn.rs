//! What spawning a terminal process decides: which command runs, with which
//! arguments, directory, environment and size, and how its exit is reported.
use vstd::prelude::*;
use vstd::string::*;
use crate::table::{PtyError, WindowsPtyBackend};

verus! {

/// A command to run in a terminal: the program, its arguments, and an
/// optional working directory.
#[derive(Clone, Debug)]
pub struct RunCommand {
    pub command: String,
    pub args: Vec<String>,
    pub cwd: Option<String>,
}

/// Builds the command `command` with arguments `args` and no directory.
pub fn make_cmd(command: &str, args: &[&str]) -> (r: RunCommand)
    ensures
        r.command@ == command@,
        r.args@.len() == args@.len(),
        forall|i: int| 0 <= i < args@.len() ==> (#[trigger] r.args@[i])@ == args@[i]@,
        r.cwd is None,
{
    let mut v: Vec<String> = Vec::new();
    let mut i: usize = 0;
    while i < args.len()
        invariant
            i <= args@.len(),
            v@.len() == i,
            forall|j: int| 0 <= j < i ==> (#[trigger] v@[j])@ == args@[j]@,
        decreases args@.len() - i,
    {
        v.push(String::from_str(args[i]));
        i = i + 1;
    }
    RunCommand { command: String::from_str(command), args: v, cwd: None }
}

/// A fresh server-side terminal table.
pub fn make_server() -> (r: WindowsPtyBackend)
    ensures
        r.wf(),
        r@ == Map::<u32, Option<crate::table::ActiveTerminal>>::empty(),
{
    WindowsPtyBackend::new().unwrap()
}

/// How a terminal's process ended, as the exit notice carries it.
#[derive(Clone, Debug)]
pub struct ExitNotice {
    pub terminal_id: u32,
    pub exit_code: Option<i32>,
    pub command: RunCommand,
}

/// An exit handler that ignores the notice.
pub fn noop_quit_cb(_notice: ExitNotice) {
}

/// Picks the command to spawn for `terminal_id`: the command itself if it
/// exists, else the failover if there is one and it exists; a single level
/// of failover, never more. The error names the last command tried.
pub fn choose_command(
    cmd: RunCommand,
    failover_cmd: Option<RunCommand>,
    terminal_id: u32,
    cmd_exists: bool,
    failover_exists: bool,
) -> (r: Result<RunCommand, PtyError>)
    ensures
        cmd_exists ==> r == Ok::<RunCommand, PtyError>(cmd),
        !cmd_exists && failover_cmd is Some && failover_exists ==> r == Ok::<RunCommand, PtyError>(
            failover_cmd.unwrap(),
        ),
        !cmd_exists && failover_cmd is Some && !failover_exists ==> match r {
            Err(PtyError::CommandNotFound { terminal_id: t, command: c }) => t == terminal_id
                && c@ == failover_cmd.unwrap().command@,
            _ => false,
        },
        !cmd_exists && failover_cmd is None ==> match r {
            Err(PtyError::CommandNotFound { terminal_id: t, command: c }) => t == terminal_id
                && c@ == cmd.command@,
            _ => false,
        },
{
    if cmd_exists {
        Ok(cmd)
    } else {
        match failover_cmd {
            Some(f) => if failover_exists {
                Ok(f)
            } else {
                Err(PtyError::CommandNotFound { terminal_id, command: f.command })
            },
            None => Err(PtyError::CommandNotFound { terminal_id, command: cmd.command }),
        }
    }
}

pub open spec fn digit_char(d: nat) -> char {
    if d == 0 { '0' }
    else if d == 1 { '1' }
    else if d == 2 { '2' }
    else if d == 3 { '3' }
    else if d == 4 { '4' }
    else if d == 5 { '5' }
    else if d == 6 { '6' }
    else if d == 7 { '7' }
    else if d == 8 { '8' }
    else { '9' }
}

/// The decimal digits of `n`, without leading zeros.
pub open spec fn decimal(n: nat) -> Seq<char>
    decreases n,
{
    if n < 10 {
        seq![digit_char(n)]
    } else {
        decimal(n / 10) + seq![digit_char(n % 10)]
    }
}

fn digit_str(d: u32) -> (r: &'static str)
    requires
        d < 10,
    ensures
        r@ == seq![digit_char(d as nat)],
{
    proof {
        reveal_strlit("0");
        reveal_strlit("1");
        reveal_strlit("2");
        reveal_strlit("3");
        reveal_strlit("4");
        reveal_strlit("5");
        reveal_strlit("6");
        reveal_strlit("7");
        reveal_strlit("8");
        reveal_strlit("9");
    }
    let r = if d == 0 {
        "0"
    } else if d == 1 {
        "1"
    } else if d == 2 {
        "2"
    } else if d == 3 {
        "3"
    } else if d == 4 {
        "4"
    } else if d == 5 {
        "5"
    } else if d == 6 {
        "6"
    } else if d == 7 {
        "7"
    } else if d == 8 {
        "8"
    } else {
        "9"
    };
    assert(r@ =~= seq![digit_char(d as nat)]);
    r
}

fn append_decimal(out: &mut String, n: u32)
    ensures
        final(out)@ == old(out)@ + decimal(n as nat),
    decreases n,
{
    if n >= 10 {
        append_decimal(out, n / 10);
    }
    out.append(digit_str(n % 10));
    assert(final(out)@ =~= old(out)@ + decimal(n as nat));
}

/// `n` written in decimal.
pub fn decimal_string(n: u32) -> (r: String)
    ensures
        r@ == decimal(n as nat),
{
    let mut s = String::new();
    append_decimal(&mut s, n);
    assert(s@ =~= decimal(n as nat));
    s
}

/// The rows of a freshly opened pty.
pub const DEFAULT_ROWS: u16 = 24;

/// The columns of a freshly opened pty.
pub const DEFAULT_COLS: u16 = 80;

pub open spec fn pane_env_name() -> Seq<char> {
    seq!['Z', 'E', 'L', 'L', 'I', 'J', '_', 'P', 'A', 'N', 'E', '_', 'I', 'D']
}

/// Everything the process layer needs to start a terminal's process.
#[derive(Clone, Debug)]
pub struct SpawnRequest {
    pub program: String,
    pub args: Vec<String>,
    pub cwd: Option<String>,
    pub env_name: String,
    pub env_value: String,
    pub rows: u16,
    pub cols: u16,
}

/// The request that starts `cmd` in terminal `terminal_id`: its working
/// directory only when `cwd_is_dir` says it exists and is a directory, the
/// terminal id in the environment, and the default size.
pub fn spawn_request(cmd: &RunCommand, terminal_id: u32, cwd_is_dir: bool) -> (r: SpawnRequest)
    ensures
        r.program@ == cmd.command@,
        r.args@.len() == cmd.args@.len(),
        forall|i: int| 0 <= i < cmd.args@.len() ==> (#[trigger] r.args@[i])@ == cmd.args@[i]@,
        cmd.cwd is Some && cwd_is_dir ==> r.cwd is Some && r.cwd.unwrap()@ == cmd.cwd.unwrap()@,
        cmd.cwd is None || !cwd_is_dir ==> r.cwd is None,
        r.env_name@ == pane_env_name(),
        r.env_value@ == decimal(terminal_id as nat),
        r.rows == DEFAULT_ROWS,
        r.cols == DEFAULT_COLS,
{
    let mut args: Vec<String> = Vec::new();
    let mut i: usize = 0;
    while i < cmd.args.len()
        invariant
            i <= cmd.args@.len(),
            args@.len() == i,
            forall|j: int| 0 <= j < i ==> (#[trigger] args@[j])@ == cmd.args@[j]@,
        decreases cmd.args@.len() - i,
    {
        args.push(String::from_str(cmd.args[i].as_str()));
        i = i + 1;
    }
    let cwd = match &cmd.cwd {
        Some(d) => if cwd_is_dir {
            Some(String::from_str(d.as_str()))
        } else {
            None
        },
        None => None,
    };
    proof {
        reveal_strlit("ZELLIJ_PANE_ID");
    }
    let env_name = String::from_str("ZELLIJ_PANE_ID");
    assert(env_name@ =~= pane_env_name());
    SpawnRequest {
        program: String::from_str(cmd.command.as_str()),
        args,
        cwd,
        env_name,
        env_value: decimal_string(terminal_id),
        rows: DEFAULT_ROWS,
        cols: DEFAULT_COLS,
    }
}

/// The exit code reported for a process: `Some(true)` is a wait that saw
/// success, `Some(false)` one that saw failure, `None` a wait that failed.
pub fn exit_code(wait: Option<bool>) -> (r: Option<i32>)
    ensures
        wait == Some(true) ==> r == Some(0i32),
        wait == Some(false) ==> r == Some(1i32),
        wait is None ==> r is None,
{
    match wait {
        Some(success) => if success {
            Some(0)
        } else {
            Some(1)
        },
        None => None,
    }
}

/// The cursor position report a console waits for at startup (`ESC [1;1R`).
pub fn cursor_position_reply() -> (r: Vec<u8>)
    ensures
        r@ == seq![0x1bu8, 0x5b, 0x31, 0x3b, 0x31, 0x52],
{
    let r: Vec<u8> = vec![0x1bu8, 0x5b, 0x31, 0x3b, 0x31, 0x52];
    assert(r@ =~= seq![0x1bu8, 0x5b, 0x31, 0x3b, 0x31, 0x52]);
    r
}

} // verus!
