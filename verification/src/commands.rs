use vstd::prelude::*;
use crate::decimal::{append_i32, decimal, format_u32, law_decimal_roundtrip, parse_u32_spec, signed_decimal};
use crate::text::{
    append_chars, chars_of, first_word, first_word_chars, is_space, lemma_trim_start_drops_leading_space,
    lemma_word_prefix_shape, string_of, string_views, trim, trim_chars, trim_start,
};

verus! {

// ---------------------------------------------------------------------------
// Terminal scripts
// ---------------------------------------------------------------------------

/// `s` with every double quote escaped by a backslash, as
/// `s.replace("\"", "\\\"")` gives it.
pub open spec fn escape_quotes(s: Seq<char>) -> Seq<char>
    decreases s.len(),
{
    if s.len() == 0 {
        Seq::empty()
    } else {
        escape_quotes(s.drop_last()) + if s.last() == '"' {
            seq!['\\', '"']
        } else {
            seq![s.last()]
        }
    }
}

fn escape_quotes_chars(s: &Vec<char>) -> (r: Vec<char>)
    ensures
        r@ == escape_quotes(s@),
{
    let mut r: Vec<char> = Vec::new();
    assert(s@.take(0) =~= Seq::<char>::empty());
    for i in 0..s.len()
        invariant
            r@ == escape_quotes(s@.take(i as int)),
    {
        let c = s[i];
        assert(s@.take(i + 1).drop_last() =~= s@.take(i as int));
        if c == '"' {
            r.push('\\');
            r.push('"');
        } else {
            r.push(c);
        }
        assert(r@ =~= escape_quotes(s@.take(i + 1)));
    }
    assert(s@.take(s.len() as int) =~= s@);
    r
}

/// The script with its double quotes escaped, ready to be placed between
/// double quotes of a shell command.
pub fn escape_double_quotes(s: &str) -> (r: String)
    ensures
        r@ == escape_quotes(s@),
{
    string_of(&escape_quotes_chars(&chars_of(s)))
}

/// In escaped text every double quote follows a backslash.
pub proof fn law_escaped_quotes_are_guarded(s: Seq<char>)
    ensures
        forall|i: int|
            0 <= i < escape_quotes(s).len() && #[trigger] escape_quotes(s)[i] == '"' ==> i > 0
                && escape_quotes(s)[i - 1] == '\\',
    decreases s.len(),
{
    if s.len() > 0 {
        let p = s.drop_last();
        law_escaped_quotes_are_guarded(p);
        let e = escape_quotes(s);
        let ep = escape_quotes(p);
        assert forall|i: int| 0 <= i < e.len() && #[trigger] e[i] == '"' implies i > 0 && e[i
            - 1] == '\\' by {
            if i < ep.len() {
                assert(e[i] == ep[i]);
                assert(e[i - 1] == ep[i - 1]);
            } else if s.last() == '"' {
                if i == ep.len() {
                    assert(e[i] == '\\');
                } else {
                    assert(e[i - 1] == '\\');
                }
            } else {
                assert(e[i] == s.last());
            }
        }
    }
}

/// `t` with each backslash-quote pair, read from left to right, turned back
/// into a quote.
pub open spec fn unescape_quotes(t: Seq<char>) -> Seq<char>
    decreases t.len(),
{
    if t.len() == 0 {
        Seq::empty()
    } else if t.len() >= 2 && t[0] == '\\' && t[1] == '"' {
        seq!['"'] + unescape_quotes(t.skip(2))
    } else {
        seq![t[0]] + unescape_quotes(t.drop_first())
    }
}

proof fn lemma_escape_append(a: Seq<char>, b: Seq<char>)
    ensures
        escape_quotes(a + b) == escape_quotes(a) + escape_quotes(b),
    decreases b.len(),
{
    if b.len() == 0 {
        assert(a + b =~= a);
        assert(escape_quotes(a) + escape_quotes(b) =~= escape_quotes(a));
    } else {
        lemma_escape_append(a, b.drop_last());
        assert((a + b).drop_last() =~= a + b.drop_last());
        assert((a + b).last() == b.last());
        let tail = if b.last() == '"' {
            seq!['\\', '"']
        } else {
            seq![b.last()]
        };
        assert(escape_quotes(a) + escape_quotes(b.drop_last()) + tail =~= escape_quotes(a) + (
        escape_quotes(b.drop_last()) + tail));
    }
}

/// Undoing each backslash-quote pair of escaped text gives back the text:
/// escaping loses nothing.
pub proof fn law_escape_round_trip(s: Seq<char>)
    ensures
        unescape_quotes(escape_quotes(s)) == s,
    decreases s.len(),
{
    if s.len() > 0 {
        let c = s[0];
        let rest = s.drop_first();
        law_escape_round_trip(rest);
        assert(seq![c] + rest =~= s);
        lemma_escape_append(seq![c], rest);
        let head = escape_quotes(seq![c]);
        assert(seq![c].drop_last() =~= Seq::<char>::empty());
        assert(seq![c].last() == c);
        assert(escape_quotes(Seq::<char>::empty()) =~= Seq::<char>::empty());
        let er = escape_quotes(rest);
        let e = head + er;
        assert(escape_quotes(s) == e);
        if c == '"' {
            assert(head =~= seq!['\\', '"']);
            assert(e.skip(2) =~= er);
            assert(seq!['"'] + rest =~= s);
        } else {
            assert(head =~= seq![c]);
            assert(e.drop_first() =~= er);
            if er.len() > 0 && er[0] == '"' {
                law_escaped_quotes_are_guarded(rest);
            }
            assert(!(e.len() >= 2 && e[0] == '\\' && e[1] == '"'));
        }
    }
}

/// The shell command that opens a terminal running `script` under bash:
/// qterminal first, then xfce4-terminal, then the system's default
/// terminal emulator, each with the escaped script.
pub open spec fn terminal_command_spec(script: Seq<char>) -> Seq<char> {
    let e = escape_quotes(script);
    "qterminal -e bash -c \""@ + e + "\" || xfce4-terminal -e \"bash -c '"@ + e
        + "'\" || x-terminal-emulator -e bash -c \""@ + e + "\""@
}

/// The shell command (run with `bash -c`) that opens a terminal running
/// `script`.
pub fn terminal_command(script: &str) -> (r: String)
    ensures
        r@ == terminal_command_spec(script@),
{
    let e = escape_quotes_chars(&chars_of(script));
    let mut s = String::from_str("qterminal -e bash -c \"");
    append_chars(&mut s, &e);
    s.append("\" || xfce4-terminal -e \"bash -c '");
    append_chars(&mut s, &e);
    s.append("'\" || x-terminal-emulator -e bash -c \"");
    append_chars(&mut s, &e);
    s.append("\"");
    s
}

/// The tmux dashboard: the system journal, nvtop and the listening
/// sockets in three panes of a session named CORTEX.
pub open spec fn soc_monitor_script_spec() -> Seq<char> {
    "export TMUX=; tmux kill-session -t CORTEX 2>/dev/null; tmux new-session -d -s CORTEX; tmux send-keys -t CORTEX sudo Space journalctl Space -f C-m; tmux split-window -v -t CORTEX; tmux send-keys -t CORTEX:0.1 nvtop C-m; tmux split-window -h -t CORTEX:0.1; tmux send-keys -t CORTEX:0.2 watch Space -n Space 2 Space ss Space -tuln C-m; tmux select-pane -t CORTEX:0.0; tmux attach -t CORTEX"@
}

/// The script of the tmux monitoring dashboard (`TMUX` is cleared first so
/// that it also starts from inside a tmux session).
pub fn soc_monitor_script() -> (r: String)
    ensures
        r@ == soc_monitor_script_spec(),
{
    String::from_str(
        "export TMUX=; tmux kill-session -t CORTEX 2>/dev/null; tmux new-session -d -s CORTEX; tmux send-keys -t CORTEX sudo Space journalctl Space -f C-m; tmux split-window -v -t CORTEX; tmux send-keys -t CORTEX:0.1 nvtop C-m; tmux split-window -h -t CORTEX:0.1; tmux send-keys -t CORTEX:0.2 watch Space -n Space 2 Space ss Space -tuln C-m; tmux select-pane -t CORTEX:0.0; tmux attach -t CORTEX",
    )
}

/// The reply once the dashboard's terminal was started.
pub fn soc_monitor_message() -> (r: String)
    ensures
        r@ == "SUCCESS: TMUX CORTEX DASHBOARD SPAWNED"@,
{
    String::from_str("SUCCESS: TMUX CORTEX DASHBOARD SPAWNED")
}

/// The environment that sends a shell's rendering to the NVIDIA GPU (PRIME
/// render offload).
pub open spec fn nvidia_env_spec() -> Seq<char> {
    "export __NV_PRIME_RENDER_OFFLOAD=1 __GLX_VENDOR_LIBRARY_NAME=nvidia __VK_LAYER_NV_optimus=NVIDIA_only;"@
}

/// The script of the persistent NVIDIA shell: the offload environment,
/// a banner, then an interactive bash.
pub open spec fn nvidia_shell_script_spec() -> Seq<char> {
    nvidia_env_spec() + " echo '>> z0n // NVIDIA GPU ENVIRONMENT ACTIVE'; exec bash"@
}

/// The script of the persistent NVIDIA shell.
pub fn nvidia_shell_script() -> (r: String)
    ensures
        r@ == nvidia_shell_script_spec(),
{
    let mut s = String::from_str(
        "export __NV_PRIME_RENDER_OFFLOAD=1 __GLX_VENDOR_LIBRARY_NAME=nvidia __VK_LAYER_NV_optimus=NVIDIA_only;",
    );
    s.append(" echo '>> z0n // NVIDIA GPU ENVIRONMENT ACTIVE'; exec bash");
    s
}

/// The reply once the NVIDIA shell was started.
pub fn nvidia_shell_message() -> (r: String)
    ensures
        r@ == "SUCCESS: PERSISTENT SHELL SPAWNED"@,
{
    String::from_str("SUCCESS: PERSISTENT SHELL SPAWNED")
}

/// The script that runs a payload in a terminal: the environment prefix,
/// the payload, then a notice and a prompt that keeps the window open.
pub open spec fn payload_script_spec(payload: Seq<char>, env_vars: Seq<char>) -> Seq<char> {
    env_vars + payload + " ; echo ; echo '>> SESSION TERMINATED'; read -p '>> PRESS ENTER TO CLOSE...'"@
}

/// The script that runs `payload` with the `env_vars` prefix in a terminal.
pub fn payload_script(payload: &str, env_vars: &str) -> (r: String)
    ensures
        r@ == payload_script_spec(payload@, env_vars@),
{
    let mut s = String::new();
    s.append(env_vars);
    s.append(payload);
    s.append(" ; echo ; echo '>> SESSION TERMINATED'; read -p '>> PRESS ENTER TO CLOSE...'");
    assert(s@ =~= payload_script_spec(payload@, env_vars@));
    s
}

/// The reply once the payload's terminal was started.
pub fn payload_message() -> (r: String)
    ensures
        r@ == "SUCCESS: TERMINAL HOOK ESTABLISHED"@,
{
    String::from_str("SUCCESS: TERMINAL HOOK ESTABLISHED")
}

/// The shell command that starts a GUI program: the environment prefix,
/// then the target in single quotes.
pub open spec fn gui_command_spec(target: Seq<char>, env_vars: Seq<char>) -> Seq<char> {
    env_vars + " '"@ + target + "'"@
}

/// The shell command that starts the GUI program `target`.
pub fn gui_command(target: &str, env_vars: &str) -> (r: String)
    ensures
        r@ == gui_command_spec(target@, env_vars@),
{
    let mut s = String::new();
    s.append(env_vars);
    s.append(" '");
    s.append(target);
    s.append("'");
    assert(s@ =~= gui_command_spec(target@, env_vars@));
    s
}

/// The reply once the GUI program was started.
pub fn gui_message(target: &str) -> (r: String)
    ensures
        r@ == "SUCCESS: SPAWNED "@ + target@,
{
    let mut s = String::from_str("SUCCESS: SPAWNED ");
    s.append(target);
    s
}

/// The reply to a launch: the success message where the process was
/// started, the spawn error otherwise.
pub fn launch_outcome(spawned: Result<(), String>, success: String) -> (r: Result<String, String>)
    ensures
        match spawned {
            Ok(_) => r == Ok::<String, String>(success),
            Err(e) => r == Err::<String, String>(e),
        },
{
    match spawned {
        Ok(_) => Ok(success),
        Err(e) => Err(e),
    }
}

// ---------------------------------------------------------------------------
// Privileged commands: try pkexec, then a zenity password prompt with sudo
// ---------------------------------------------------------------------------

/// What to do after the first, pkexec, attempt of a privileged command.
pub enum EscalationStep {
    /// The command is done; this is the reply.
    Finished(Result<String, String>),
    /// Ask for the password with zenity and run the command with sudo.
    RunFallback,
}

/// The step after the pkexec attempt: done with the success message where
/// it ran and succeeded, otherwise the sudo fallback.
pub fn escalation_after_primary(primary_succeeded: bool, success: String) -> (r: EscalationStep)
    ensures
        primary_succeeded ==> r == EscalationStep::Finished(Ok(success)),
        !primary_succeeded ==> r == EscalationStep::RunFallback,
{
    if primary_succeeded {
        EscalationStep::Finished(Ok(success))
    } else {
        EscalationStep::RunFallback
    }
}

/// The reply when the password prompt was dismissed or sudo failed.
pub open spec fn dismissed_spec() -> Seq<char> {
    "ERR: AUTHENTICATION DISMISSED"@
}

/// The reply after the sudo fallback: its spawn error where it could not be
/// started, the success message where it succeeded, otherwise the
/// dismissal error.
pub fn escalation_after_fallback(fallback: Result<bool, String>, success: String) -> (r: Result<
    String,
    String,
>)
    ensures
        match fallback {
            Err(e) => r == Err::<String, String>(e),
            Ok(true) => r == Ok::<String, String>(success),
            Ok(false) => r matches Err(m) && m@ == dismissed_spec(),
        },
{
    match fallback {
        Err(e) => Err(e),
        Ok(true) => Ok(success),
        Ok(false) => Err(String::from_str("ERR: AUTHENTICATION DISMISSED")),
    }
}

/// The arguments of `pkexec` that kill a process.
pub fn kill_args(pid: &str) -> (r: Vec<String>)
    ensures
        string_views(r@) == seq!["kill"@, "-9"@, pid@],
{
    let mut r: Vec<String> = Vec::new();
    r.push(String::from_str("kill"));
    r.push(String::from_str("-9"));
    r.push(String::from_str(pid));
    assert(string_views(r@) =~= seq!["kill"@, "-9"@, pid@]);
    r
}

/// The `sh -c` command that kills a process with sudo after a zenity
/// password prompt.
pub open spec fn kill_fallback_spec(pid: Seq<char>) -> Seq<char> {
    "zenity --password --title='z0n // ROOT REQUIRED TO KILL PID' | sudo -S kill -9 "@ + pid
}

/// The sudo fallback of `kill_process`.
pub fn kill_fallback_command(pid: &str) -> (r: String)
    ensures
        r@ == kill_fallback_spec(pid@),
{
    let mut s = String::from_str(
        "zenity --password --title='z0n // ROOT REQUIRED TO KILL PID' | sudo -S kill -9 ",
    );
    s.append(pid);
    s
}

/// The reply once a process was killed.
pub fn kill_message(pid: &str) -> (r: String)
    ensures
        r@ == "SUCCESS: TERMINATED PID "@ + pid@,
{
    let mut s = String::from_str("SUCCESS: TERMINATED PID ");
    s.append(pid);
    s
}

/// The arguments of `pkexec` that set the GPU power limit (TGP).
pub fn power_limit_args(watts: u32) -> (r: Vec<String>)
    ensures
        string_views(r@) == seq!["nvidia-smi"@, "-pl"@, decimal(watts as nat)],
{
    let mut r: Vec<String> = Vec::new();
    r.push(String::from_str("nvidia-smi"));
    r.push(String::from_str("-pl"));
    r.push(format_u32(watts));
    assert(string_views(r@) =~= seq!["nvidia-smi"@, "-pl"@, decimal(watts as nat)]);
    r
}

/// The `sh -c` command that sets the power limit with sudo after a zenity
/// password prompt.
pub open spec fn power_limit_fallback_spec(watts: u32) -> Seq<char> {
    "zenity --password --title='z0n // ROOT REQUIRED FOR HARDWARE OVERRIDE' | sudo -S nvidia-smi -pl "@
        + decimal(watts as nat)
}

/// The sudo fallback of `set_power_limit`.
pub fn power_limit_fallback_command(watts: u32) -> (r: String)
    ensures
        r@ == power_limit_fallback_spec(watts),
{
    let mut s = String::from_str(
        "zenity --password --title='z0n // ROOT REQUIRED FOR HARDWARE OVERRIDE' | sudo -S nvidia-smi -pl ",
    );
    let w = format_u32(watts);
    s.append(w.as_str());
    s
}

/// The reply once the power limit was set.
pub open spec fn power_limit_message_spec(watts: u32) -> Seq<char> {
    "SUCCESS: TGP LOCKED AT "@ + decimal(watts as nat) + "W"@
}

/// The reply once the power limit was set.
pub fn power_limit_message(watts: u32) -> (r: String)
    ensures
        r@ == power_limit_message_spec(watts),
{
    let mut s = String::from_str("SUCCESS: TGP LOCKED AT ");
    let w = format_u32(watts);
    s.append(w.as_str());
    s.append("W");
    s
}

/// The reply of the single-attempt power limit command (no sudo
/// fallback): the success message, or `ERR: ` and the trimmed error output.
pub fn direct_power_limit_outcome(succeeded: bool, stderr: &str, watts: u32) -> (r: Result<
    String,
    String,
>)
    ensures
        succeeded ==> (r matches Ok(m) && m@ == power_limit_message_spec(watts)),
        !succeeded ==> (r matches Err(m) && m@ == "ERR: "@ + trim(stderr@)),
{
    if succeeded {
        Ok(power_limit_message(watts))
    } else {
        let mut s = String::from_str("ERR: ");
        append_chars(&mut s, &trim_chars(&chars_of(stderr)));
        Err(s)
    }
}

/// The NVIDIA shell command of the single-window variant: the default
/// terminal emulator running the offload environment, the banner and bash.
pub open spec fn direct_nvidia_shell_command_spec() -> Seq<char> {
    "x-terminal-emulator -e bash -c \"export __NV_PRIME_RENDER_OFFLOAD=1 __GLX_VENDOR_LIBRARY_NAME=nvidia __VK_LAYER_NV_optimus=NVIDIA_only; echo '>> z0n // NVIDIA GPU ENVIRONMENT ACTIVE'; exec bash\""@
}

/// The NVIDIA shell command of the single-window variant.
pub fn direct_nvidia_shell_command() -> (r: String)
    ensures
        r@ == direct_nvidia_shell_command_spec(),
{
    let mut s = String::from_str("x-terminal-emulator -e bash -c \"export ");
    s.append(
        "__NV_PRIME_RENDER_OFFLOAD=1 __GLX_VENDOR_LIBRARY_NAME=nvidia __VK_LAYER_NV_optimus=NVIDIA_only",
    );
    s.append("; echo '>> z0n // NVIDIA GPU ENVIRONMENT ACTIVE'; exec bash\"");
    proof {
        reveal_strlit("x-terminal-emulator -e bash -c \"export ");
        reveal_strlit(
            "__NV_PRIME_RENDER_OFFLOAD=1 __GLX_VENDOR_LIBRARY_NAME=nvidia __VK_LAYER_NV_optimus=NVIDIA_only",
        );
        reveal_strlit("; echo '>> z0n // NVIDIA GPU ENVIRONMENT ACTIVE'; exec bash\"");
        reveal_strlit(
            "x-terminal-emulator -e bash -c \"export __NV_PRIME_RENDER_OFFLOAD=1 __GLX_VENDOR_LIBRARY_NAME=nvidia __VK_LAYER_NV_optimus=NVIDIA_only; echo '>> z0n // NVIDIA GPU ENVIRONMENT ACTIVE'; exec bash\"",
        );
    }
    assert(s@ =~= direct_nvidia_shell_command_spec());
    s
}

/// The payload command of the single-window variant: the default terminal
/// emulator running the prefixed payload, a notice, then bash.
pub open spec fn direct_payload_command_spec(payload: Seq<char>, env_vars: Seq<char>) -> Seq<
    char,
> {
    "x-terminal-emulator -e bash -c \""@ + env_vars + payload
        + "; echo; echo '>> SESSION TERMINATED'; exec bash\""@
}

/// The payload command of the single-window variant.
pub fn direct_payload_command(payload: &str, env_vars: &str) -> (r: String)
    ensures
        r@ == direct_payload_command_spec(payload@, env_vars@),
{
    let mut s = String::from_str("x-terminal-emulator -e bash -c \"");
    s.append(env_vars);
    s.append(payload);
    s.append("; echo; echo '>> SESSION TERMINATED'; exec bash\"");
    assert(s@ =~= direct_payload_command_spec(payload@, env_vars@));
    s
}

// ---------------------------------------------------------------------------
// Display brightness, file browsing, ledger
// ---------------------------------------------------------------------------

/// The output that brightness is set on: the first word that
/// `xrandr | grep ' connected'` printed, `eDP` where it printed none.
pub open spec fn brightness_output_spec(listing: Seq<char>) -> Seq<char> {
    match first_word(listing) {
        Some(w) => w,
        None => "eDP"@,
    }
}

/// The display output that the brightness is set on.
pub fn brightness_output(listing: &str) -> (r: String)
    ensures
        r@ == brightness_output_spec(listing@),
{
    match first_word_chars(&chars_of(listing)) {
        Some(w) => string_of(&w),
        None => String::from_str("eDP"),
    }
}

/// The reply to a brightness change, with the level in whole percent.
pub fn brightness_outcome(succeeded: bool, percent: i32) -> (r: Result<String, String>)
    ensures
        succeeded ==> (r matches Ok(m) && m@ == "SUCCESS: BRIGHTNESS SET TO "@ + signed_decimal(
            percent as int,
        ) + "%"@),
        !succeeded ==> (r matches Err(m) && m@ == "ERR: XRANDR INJECTION FAILED"@),
{
    if succeeded {
        let mut s = String::from_str("SUCCESS: BRIGHTNESS SET TO ");
        let mut v: Vec<char> = Vec::new();
        append_i32(&mut v, percent);
        append_chars(&mut s, &v);
        s.append("%");
        Ok(s)
    } else {
        Err(String::from_str("ERR: XRANDR INJECTION FAILED"))
    }
}

/// The reply to the file browser: the trimmed chosen path, or an error
/// where the dialog was cancelled.
pub fn browse_outcome(succeeded: bool, stdout: &str) -> (r: Result<String, String>)
    ensures
        succeeded ==> (r matches Ok(p) && p@ == trim(stdout@)),
        !succeeded ==> (r matches Err(m) && m@ == "BROWSE ABORTED"@),
{
    if succeeded {
        Ok(string_of(&trim_chars(&chars_of(stdout))))
    } else {
        Err(String::from_str("BROWSE ABORTED"))
    }
}

/// The telemetry ledger file in the home directory (`/tmp` where `HOME` is
/// not set).
pub open spec fn ledger_path_spec(home: Option<Seq<char>>) -> Seq<char> {
    let dir = match home {
        Some(h) => h,
        None => "/tmp"@,
    };
    dir + "/z0n_telemetry_ledger.csv"@
}

/// The path of the telemetry ledger.
pub fn ledger_path(home: Option<&str>) -> (r: String)
    ensures
        r@ == ledger_path_spec(
            match home {
                Some(h) => Some(h@),
                None => None,
            },
        ),
{
    let mut s = match home {
        Some(h) => String::from_str(h),
        None => String::from_str("/tmp"),
    };
    s.append("/z0n_telemetry_ledger.csv");
    s
}

/// The record appended to the ledger for one line: the line and a newline.
pub fn ledger_record(line: &str) -> (r: String)
    ensures
        r@ == line@.push('\n'),
{
    let mut s = String::from_str(line);
    s.push('\n');
    s
}


/// Brightness is set on the first white-space separated word of the whole
/// `xrandr` listing: the word starts right after the leading white space,
/// is not empty, holds no white space, and is followed by white space or
/// the end. Only a listing of nothing but white space falls back to `eDP`.
pub proof fn law_brightness_output_is_first_word(listing: Seq<char>)
    ensures
        (forall|i: int| 0 <= i < listing.len() ==> is_space(#[trigger] listing[i]))
            ==> brightness_output_spec(listing) == "eDP"@,
        (exists|i: int| 0 <= i < listing.len() && !is_space(#[trigger] listing[i])) ==> {
            let w = brightness_output_spec(listing);
            exists|k: int|
                {
                    &&& 0 <= k
                    &&& k + w.len() <= listing.len()
                    &&& (forall|j: int| 0 <= j < k ==> is_space(#[trigger] listing[j]))
                    &&& #[trigger] listing.subrange(k, k + w.len()) == w
                    &&& w.len() > 0
                    &&& (forall|j: int| 0 <= j < w.len() ==> !is_space(#[trigger] w[j]))
                    &&& (k + w.len() < listing.len() ==> is_space(listing[k + w.len()]))
                }
        },
{
    lemma_trim_start_drops_leading_space(listing);
    let k = choose|k: int|
        0 <= k <= listing.len() && trim_start(listing) == #[trigger] listing.skip(k) && (forall|
            j: int,
        | 0 <= j < k ==> is_space(listing[j])) && (k < listing.len() ==> !is_space(listing[k]));
    let t = trim_start(listing);
    if forall|i: int| 0 <= i < listing.len() ==> is_space(#[trigger] listing[i]) {
        assert(k == listing.len());
        assert(t.len() == 0);
    }
    if exists|i: int| 0 <= i < listing.len() && !is_space(#[trigger] listing[i]) {
        let i0 = choose|i: int| 0 <= i < listing.len() && !is_space(#[trigger] listing[i]);
        assert(k < listing.len()) by {
            if k >= listing.len() {
                assert(is_space(listing[i0]));
            }
        }
        assert(t[0] == listing[k]);
        lemma_word_prefix_shape(t);
        let w = brightness_output_spec(listing);
        assert(w == crate::text::word_prefix(t));
        assert(listing.subrange(k, k + w.len()) =~= t.take(w.len() as int));
        if k + w.len() < listing.len() {
            assert(listing[k + w.len()] == t[w.len() as int]);
        }
    }
}

/// The sudo fallback of the power limit command is its fixed text followed
/// by the limit written in decimal: reading that number back gives the
/// limit that was asked for.
pub proof fn law_power_limit_fallback_carries_watts(watts: u32)
    ensures
        exists|d: Seq<char>|
            power_limit_fallback_spec(watts)
                == "zenity --password --title='z0n // ROOT REQUIRED FOR HARDWARE OVERRIDE' | sudo -S nvidia-smi -pl "@
                + d && #[trigger] parse_u32_spec(d) == Some(watts),
{
    law_decimal_roundtrip(watts);
    let d = decimal(watts as nat);
    assert(parse_u32_spec(d) == Some(watts));
}

/// The power limit reply names the limit that was set: its fixed text, the
/// limit in decimal, then `W`.
pub proof fn law_power_limit_message_carries_watts(watts: u32)
    ensures
        exists|d: Seq<char>|
            power_limit_message_spec(watts) == "SUCCESS: TGP LOCKED AT "@ + d + "W"@
                && #[trigger] parse_u32_spec(d) == Some(watts),
{
    law_decimal_roundtrip(watts);
    let d = decimal(watts as nat);
    assert(parse_u32_spec(d) == Some(watts));
}

/// The sudo fallback of the kill command is its fixed text followed by the
/// whole pid, unchanged.
pub proof fn law_kill_fallback_carries_pid(pid: Seq<char>)
    ensures
        kill_fallback_spec(pid)
            == "zenity --password --title='z0n // ROOT REQUIRED TO KILL PID' | sudo -S kill -9 "@
            + pid,
        kill_fallback_spec(pid).len()
            == "zenity --password --title='z0n // ROOT REQUIRED TO KILL PID' | sudo -S kill -9 "@.len()
            + pid.len(),
        kill_fallback_spec(pid).skip(
            kill_fallback_spec(pid).len() - pid.len(),
        ) == pid,
{
    let pre = "zenity --password --title='z0n // ROOT REQUIRED TO KILL PID' | sudo -S kill -9 "@;
    assert((pre + pid).skip(pre.len() as int) =~= pid);
}

/// The terminal command runs exactly the given script: each of its three
/// attempts carries the same escaped text between the fixed parts, and
/// undoing the escaping gives back the script.
pub proof fn law_terminal_command_carries_script(script: Seq<char>)
    ensures
        exists|e: Seq<char>|
            terminal_command_spec(script) == "qterminal -e bash -c \""@ + e
                + "\" || xfce4-terminal -e \"bash -c '"@ + e
                + "'\" || x-terminal-emulator -e bash -c \""@ + e + "\""@
                && #[trigger] unescape_quotes(e) == script,
{
    law_escape_round_trip(script);
    let e = escape_quotes(script);
    assert(unescape_quotes(e) == script);
}

/// The payload script is the environment prefix, the whole payload, then
/// the fixed closing commands.
pub proof fn law_payload_script_carries_payload(payload: Seq<char>, env_vars: Seq<char>)
    ensures
        payload_script_spec(payload, env_vars) == env_vars + payload
            + " ; echo ; echo '>> SESSION TERMINATED'; read -p '>> PRESS ENTER TO CLOSE...'"@,
        payload_script_spec(payload, env_vars).subrange(
            env_vars.len() as int,
            (env_vars.len() + payload.len()) as int,
        ) == payload,
{
    let r = payload_script_spec(payload, env_vars);
    assert(r.subrange(env_vars.len() as int, (env_vars.len() + payload.len()) as int) =~= payload);
}

/// The GUI command is the environment prefix, a space, and the whole target
/// in single quotes.
pub proof fn law_gui_command_carries_target(target: Seq<char>, env_vars: Seq<char>)
    ensures
        gui_command_spec(target, env_vars) == env_vars + seq![' ', '\''] + target + seq!['\''],
{
    assert(" '"@ == seq![' ', '\'']) by {
        reveal_strlit(" '");
    }
    assert("'"@ == seq!['\'']) by {
        reveal_strlit("'");
    }
}

/// The ledger is the file `z0n_telemetry_ledger.csv` in the home directory,
/// or in `/tmp` without one.
pub proof fn law_ledger_path_in_home(home: Option<Seq<char>>)
    ensures
        ledger_path_spec(home) == match home {
            Some(h) => h,
            None => seq!['/', 't', 'm', 'p'],
        } + "/z0n_telemetry_ledger.csv"@,
{
    assert("/tmp"@ == seq!['/', 't', 'm', 'p']) by {
        reveal_strlit("/tmp");
    }
}

} // verus!
