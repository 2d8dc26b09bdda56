//! Choice of a terminal emulator to run a shell command in. The caller
//! performs each action (spawning a candidate, waiting for it) and reports
//! what happened; the decisions are made here.
use vstd::prelude::*;
use crate::text::string_views;

verus! {

broadcast use vstd::string::group_string_axioms;

/// The number of candidate terminal emulators.
pub const CANDIDATES: usize = 7;

/// The program of candidate `i`, in order of preference.
pub open spec fn candidate_program(i: int) -> Seq<char> {
    if i == 0 {
        "konsole"@
    } else if i == 1 {
        "kitty"@
    } else if i == 2 {
        "alacritty"@
    } else if i == 3 {
        "gnome-terminal"@
    } else if i == 4 {
        "xfce4-terminal"@
    } else if i == 5 {
        "xterm"@
    } else {
        "foot"@
    }
}

/// The flags candidate `i` needs so that it stays in the foreground.
pub open spec fn candidate_flags(i: int) -> Seq<Seq<char>> {
    if i == 0 {
        seq!["--nofork"@]
    } else if i == 3 {
        seq!["--wait"@]
    } else if i == 4 {
        seq!["--disable-server"@]
    } else {
        Seq::empty()
    }
}

/// Candidate `i` takes the command after `--` rather than after `-e`.
pub open spec fn candidate_double_dash(i: int) -> bool {
    i == 3
}

/// The argument that introduces the command for candidate `i`.
pub open spec fn separator_of(i: int) -> Seq<char> {
    if candidate_double_dash(i) {
        "--"@
    } else {
        "-e"@
    }
}

/// The arguments that make candidate `i` run `shell_cmd` through bash.
pub open spec fn launch_args(i: int, shell_cmd: Seq<char>) -> Seq<Seq<char>> {
    candidate_flags(i) + seq![separator_of(i), "bash"@, "-c"@, shell_cmd]
}

/// The command run when the caller gives none.
pub open spec fn default_command() -> Seq<char> {
    "sudo pacman -Syu"@
}

/// What follows the command so that the window stays open until Enter.
pub open spec fn pause_suffix() -> Seq<char> {
    "; echo ''; echo 'Press Enter to close...'; read"@
}

/// The shell command line for a requested command (or the default one).
pub open spec fn shell_command_of(target: Option<Seq<char>>) -> Seq<char> {
    match target {
        Some(t) => t + pause_suffix(),
        None => default_command() + pause_suffix(),
    }
}

/// The configuration of one candidate terminal emulator.
pub struct TerminalProfile {
    pub program: String,
    pub extra_flags: Vec<String>,
    pub double_dash: bool,
}

/// A program to spawn and its arguments.
pub struct TerminalCommand {
    pub program: String,
    pub args: Vec<String>,
}

/// The state of a launch: trying candidate `i`, waiting for the spawned
/// terminal, or finished.
#[derive(PartialEq, Eq, Structural, Clone, Copy, Debug)]
pub enum LaunchState {
    Trying(usize),
    Running,
    Done,
}

/// What the caller observed after performing an action.
#[derive(PartialEq, Eq, Structural, Clone, Copy, Debug)]
pub enum LaunchEvent {
    SpawnFailed,
    Spawned,
    Exited,
}

/// What the caller is to do next.
pub enum LaunchAction {
    Spawn(TerminalCommand),
    Wait,
    Finish,
}

/// The kind of an action, with the candidate that a spawn uses.
pub ghost enum ActionModel {
    Spawn(int),
    Wait,
    Finish,
}

pub open spec fn state_after(s: LaunchState, e: LaunchEvent) -> LaunchState {
    match (s, e) {
        (LaunchState::Trying(i), LaunchEvent::SpawnFailed) => if i + 1 < CANDIDATES {
            LaunchState::Trying((i + 1) as usize)
        } else {
            LaunchState::Done
        },
        (LaunchState::Trying(_), LaunchEvent::Spawned) => LaunchState::Running,
        (LaunchState::Running, LaunchEvent::Exited) => LaunchState::Done,
        _ => s,
    }
}

pub open spec fn action_of(s: LaunchState) -> ActionModel {
    match s {
        LaunchState::Trying(i) => if i < CANDIDATES {
            ActionModel::Spawn(i as int)
        } else {
            ActionModel::Finish
        },
        LaunchState::Running => ActionModel::Wait,
        LaunchState::Done => ActionModel::Finish,
    }
}

/// The profile of candidate `i`.
pub fn terminal_profile(i: usize) -> (r: TerminalProfile)
    requires
        i < CANDIDATES,
    ensures
        r.program@ == candidate_program(i as int),
        string_views(r.extra_flags@) == candidate_flags(i as int),
        r.double_dash == candidate_double_dash(i as int),
{
    let program = if i == 0 {
        String::from_str("konsole")
    } else if i == 1 {
        String::from_str("kitty")
    } else if i == 2 {
        String::from_str("alacritty")
    } else if i == 3 {
        String::from_str("gnome-terminal")
    } else if i == 4 {
        String::from_str("xfce4-terminal")
    } else if i == 5 {
        String::from_str("xterm")
    } else {
        String::from_str("foot")
    };
    let mut extra_flags: Vec<String> = Vec::new();
    if i == 0 {
        extra_flags.push(String::from_str("--nofork"));
    } else if i == 3 {
        extra_flags.push(String::from_str("--wait"));
    } else if i == 4 {
        extra_flags.push(String::from_str("--disable-server"));
    }
    assert(string_views(extra_flags@) =~= candidate_flags(i as int));
    TerminalProfile { program, extra_flags, double_dash: i == 3 }
}

/// The command that runs `shell_cmd` in candidate `i`.
pub fn terminal_command(i: usize, shell_cmd: &str) -> (r: TerminalCommand)
    requires
        i < CANDIDATES,
    ensures
        r.program@ == candidate_program(i as int),
        string_views(r.args@) == launch_args(i as int, shell_cmd@),
{
    let profile = terminal_profile(i);
    let mut args = profile.extra_flags;
    if profile.double_dash {
        args.push(String::from_str("--"));
    } else {
        args.push(String::from_str("-e"));
    }
    args.push(String::from_str("bash"));
    args.push(String::from_str("-c"));
    args.push(String::from_str(shell_cmd));
    assert(string_views(args@) =~= launch_args(i as int, shell_cmd@));
    TerminalCommand { program: profile.program, args }
}

/// The shell command line to run: the requested command, or the default
/// system upgrade, followed by a pause until Enter is pressed.
pub fn shell_command(target: Option<String>) -> (r: String)
    ensures
        r@ == shell_command_of(
            match target {
                Some(t) => Some(t@),
                None => None,
            },
        ),
{
    let cmd = match target {
        Some(t) => t,
        None => String::from_str("sudo pacman -Syu"),
    };
    cmd.concat("; echo ''; echo 'Press Enter to close...'; read")
}

/// The state a launch starts in: trying the first candidate.
pub fn start() -> (r: LaunchState)
    ensures
        r == LaunchState::Trying(0),
{
    LaunchState::Trying(0)
}

/// The state after the caller reports `event` in state `state`.
pub fn advance(state: LaunchState, event: LaunchEvent) -> (r: LaunchState)
    ensures
        r == state_after(state, event),
{
    match (state, event) {
        (LaunchState::Trying(i), LaunchEvent::SpawnFailed) => {
            if i < CANDIDATES - 1 {
                LaunchState::Trying(i + 1)
            } else {
                LaunchState::Done
            }
        },
        (LaunchState::Trying(_), LaunchEvent::Spawned) => LaunchState::Running,
        (LaunchState::Running, LaunchEvent::Exited) => LaunchState::Done,
        _ => state,
    }
}

/// The action to perform in state `state` to run `shell_cmd`.
pub fn next_action(state: LaunchState, shell_cmd: &str) -> (r: LaunchAction)
    ensures
        match r {
            LaunchAction::Spawn(c) => {
                &&& action_of(state) is Spawn
                &&& c.program@ == candidate_program(action_of(state)->Spawn_0)
                &&& string_views(c.args@) == launch_args(action_of(state)->Spawn_0, shell_cmd@)
            },
            LaunchAction::Wait => action_of(state) is Wait,
            LaunchAction::Finish => action_of(state) is Finish,
        },
{
    match state {
        LaunchState::Trying(i) => {
            if i < CANDIDATES {
                LaunchAction::Spawn(terminal_command(i, shell_cmd))
            } else {
                LaunchAction::Finish
            }
        },
        LaunchState::Running => LaunchAction::Wait,
        LaunchState::Done => LaunchAction::Finish,
    }
}

/// What a caller observes in state `s` when the candidates for which
/// `available` holds start and the others do not.
pub open spec fn observed(s: LaunchState, available: Seq<bool>) -> LaunchEvent {
    match s {
        LaunchState::Trying(i) => if i < available.len() && available[i as int] {
            LaunchEvent::Spawned
        } else {
            LaunchEvent::SpawnFailed
        },
        _ => LaunchEvent::Exited,
    }
}

/// The actions taken, each with what was observed, when a launch is driven
/// from state `s` for at most `fuel` steps, until it is done.
pub open spec fn run(s: LaunchState, available: Seq<bool>, fuel: nat) -> Seq<
    (ActionModel, LaunchEvent),
>
    decreases fuel,
{
    if fuel == 0 || action_of(s) is Finish {
        Seq::empty()
    } else {
        let e = observed(s, available);
        seq![(action_of(s), e)] + run(state_after(s, e), available, (fuel - 1) as nat)
    }
}

/// Failed attempts at the candidates `from..to`.
pub open spec fn failed_attempts(from: int, to: int) -> Seq<(ActionModel, LaunchEvent)> {
    Seq::new((to - from) as nat, |k: int| (ActionModel::Spawn(from + k), LaunchEvent::SpawnFailed))
}

proof fn lemma_run_from(i: int, n: int, available: Seq<bool>, fuel: nat)
    requires
        0 <= i <= n < CANDIDATES,
        available.len() == CANDIDATES,
        forall|k: int| 0 <= k < n ==> !available[k],
        available[n],
        fuel >= n - i + 2,
    ensures
        run(LaunchState::Trying(i as usize), available, fuel) == failed_attempts(i, n) + seq![
            (ActionModel::Spawn(n), LaunchEvent::Spawned),
            (ActionModel::Wait, LaunchEvent::Exited),
        ],
    decreases n - i,
{
    let s = LaunchState::Trying(i as usize);
    let tail = seq![
        (ActionModel::Spawn(n), LaunchEvent::Spawned),
        (ActionModel::Wait, LaunchEvent::Exited),
    ];
    if i == n {
        let f1 = (fuel - 1) as nat;
        let f2 = (f1 - 1) as nat;
        assert(run(LaunchState::Done, available, f2) == Seq::<(ActionModel, LaunchEvent)>::empty());
        assert(run(LaunchState::Running, available, f1) =~= seq![
            (ActionModel::Wait, LaunchEvent::Exited),
        ]);
        assert(run(s, available, fuel) =~= failed_attempts(i, n) + tail);
    } else {
        lemma_run_from(i + 1, n, available, (fuel - 1) as nat);
        assert(run(s, available, fuel) =~= failed_attempts(i, n) + tail);
    }
}

/// When the first `n` candidates fail to start and the next one starts, a
/// launch tries those `n` in order, spawns exactly that next candidate with
/// its own arguments, waits for it to exit, and is then done.
pub proof fn lemma_first_available_is_launched(available: Seq<bool>, n: int)
    requires
        available.len() == CANDIDATES,
        0 <= n < CANDIDATES,
        forall|k: int| 0 <= k < n ==> !available[k],
        available[n],
    ensures
        run(LaunchState::Trying(0), available, (CANDIDATES + 2) as nat) == failed_attempts(0, n)
            + seq![
            (ActionModel::Spawn(n), LaunchEvent::Spawned),
            (ActionModel::Wait, LaunchEvent::Exited),
        ],
{
    lemma_run_from(0, n, available, (CANDIDATES + 2) as nat);
}

proof fn lemma_run_none_from(i: int, available: Seq<bool>, fuel: nat)
    requires
        0 <= i < CANDIDATES,
        available.len() == CANDIDATES,
        forall|k: int| 0 <= k < CANDIDATES ==> !available[k],
        fuel >= CANDIDATES - i + 1,
    ensures
        run(LaunchState::Trying(i as usize), available, fuel) == failed_attempts(i, CANDIDATES as int),
    decreases CANDIDATES - i,
{
    let s = LaunchState::Trying(i as usize);
    if i == CANDIDATES - 1 {
        assert(run(LaunchState::Done, available, (fuel - 1) as nat) == Seq::<
            (ActionModel, LaunchEvent),
        >::empty());
        assert(run(s, available, fuel) =~= failed_attempts(i, CANDIDATES as int));
    } else {
        lemma_run_none_from(i + 1, available, (fuel - 1) as nat);
        assert(run(s, available, fuel) =~= failed_attempts(i, CANDIDATES as int));
    }
}

/// When no candidate starts, a launch tries each of them once, in order,
/// spawns nothing, and finishes.
pub proof fn lemma_no_candidate_is_noop(available: Seq<bool>)
    requires
        available.len() == CANDIDATES,
        forall|k: int| 0 <= k < CANDIDATES ==> !available[k],
    ensures
        run(LaunchState::Trying(0), available, (CANDIDATES + 2) as nat) == failed_attempts(
            0,
            CANDIDATES as int,
        ),
{
    lemma_run_none_from(0, available, (CANDIDATES + 2) as nat);
}

} // verus!
