use ov3rride::commands::{
    brightness_outcome, brightness_output, browse_outcome, direct_nvidia_shell_command,
    direct_payload_command, direct_power_limit_outcome, escalation_after_fallback,
    escalation_after_primary, escape_double_quotes, gui_command, gui_message, kill_args,
    kill_fallback_command, kill_message, launch_outcome, ledger_path, ledger_record,
    nvidia_shell_message, nvidia_shell_script, payload_message, payload_script,
    power_limit_args, power_limit_fallback_command, power_limit_message, soc_monitor_message,
    soc_monitor_script, terminal_command, EscalationStep,
};

#[test]
fn quotes_are_escaped() {
    assert_eq!(escape_double_quotes("echo \"hi\""), "echo \\\"hi\\\"");
    assert_eq!(escape_double_quotes("plain"), "plain");
    assert_eq!(escape_double_quotes("\"\""), "\\\"\\\"");
    let s = "say \"a\" and \"b\"";
    assert_eq!(escape_double_quotes(s), s.replace("\"", "\\\""));
}

#[test]
fn escaped_quotes_follow_a_backslash() {
    let e: Vec<char> = escape_double_quotes("\"x\"y\"").chars().collect();
    for (i, c) in e.iter().enumerate() {
        if *c == '"' {
            assert!(i > 0 && e[i - 1] == '\\');
        }
    }
}

#[test]
fn terminal_command_tries_three_terminals() {
    assert_eq!(
        terminal_command("echo \"hi\""),
        "qterminal -e bash -c \"echo \\\"hi\\\"\" || xfce4-terminal -e \"bash -c 'echo \\\"hi\\\"'\" || x-terminal-emulator -e bash -c \"echo \\\"hi\\\"\""
    );
}

#[test]
fn soc_monitor_script_text() {
    let expected = "\
        export TMUX=; \
        tmux kill-session -t CORTEX 2>/dev/null; \
        tmux new-session -d -s CORTEX; \
        tmux send-keys -t CORTEX sudo Space journalctl Space -f C-m; \
        tmux split-window -v -t CORTEX; \
        tmux send-keys -t CORTEX:0.1 nvtop C-m; \
        tmux split-window -h -t CORTEX:0.1; \
        tmux send-keys -t CORTEX:0.2 watch Space -n Space 2 Space ss Space -tuln C-m; \
        tmux select-pane -t CORTEX:0.0; \
        tmux attach -t CORTEX\
    ";
    assert_eq!(soc_monitor_script(), expected);
    assert_eq!(soc_monitor_message(), "SUCCESS: TMUX CORTEX DASHBOARD SPAWNED");
}

#[test]
fn nvidia_shell_script_text() {
    assert_eq!(
        nvidia_shell_script(),
        "export __NV_PRIME_RENDER_OFFLOAD=1 __GLX_VENDOR_LIBRARY_NAME=nvidia __VK_LAYER_NV_optimus=NVIDIA_only; echo '>> z0n // NVIDIA GPU ENVIRONMENT ACTIVE'; exec bash"
    );
    assert_eq!(nvidia_shell_message(), "SUCCESS: PERSISTENT SHELL SPAWNED");
}

#[test]
fn payload_script_text() {
    assert_eq!(
        payload_script("htop", "FOO=1 "),
        "FOO=1 htop ; echo ; echo '>> SESSION TERMINATED'; read -p '>> PRESS ENTER TO CLOSE...'"
    );
    assert_eq!(payload_message(), "SUCCESS: TERMINAL HOOK ESTABLISHED");
}

#[test]
fn gui_command_quotes_target() {
    assert_eq!(gui_command("/usr/bin/blender", "DRI_PRIME=1"), "DRI_PRIME=1 '/usr/bin/blender'");
    assert_eq!(gui_message("/usr/bin/blender"), "SUCCESS: SPAWNED /usr/bin/blender");
}

#[test]
fn launch_outcome_passes_spawn_error() {
    assert_eq!(launch_outcome(Ok(()), "done".to_string()), Ok("done".to_string()));
    assert_eq!(launch_outcome(Err("no bash".to_string()), "done".to_string()), Err("no bash".to_string()));
}

#[test]
fn kill_commands() {
    assert_eq!(kill_args("4242"), vec!["kill".to_string(), "-9".to_string(), "4242".to_string()]);
    assert_eq!(
        kill_fallback_command("4242"),
        "zenity --password --title='z0n // ROOT REQUIRED TO KILL PID' | sudo -S kill -9 4242"
    );
    assert_eq!(kill_message("4242"), "SUCCESS: TERMINATED PID 4242");
}

#[test]
fn power_limit_commands() {
    assert_eq!(
        power_limit_args(115),
        vec!["nvidia-smi".to_string(), "-pl".to_string(), "115".to_string()]
    );
    assert_eq!(
        power_limit_fallback_command(80),
        "zenity --password --title='z0n // ROOT REQUIRED FOR HARDWARE OVERRIDE' | sudo -S nvidia-smi -pl 80"
    );
    assert_eq!(power_limit_message(115), "SUCCESS: TGP LOCKED AT 115W");
    assert_eq!(power_limit_message(0), "SUCCESS: TGP LOCKED AT 0W");
}

#[test]
fn escalation_stops_after_successful_pkexec() {
    match escalation_after_primary(true, "ok".to_string()) {
        EscalationStep::Finished(r) => assert_eq!(r, Ok("ok".to_string())),
        EscalationStep::RunFallback => panic!("pkexec succeeded"),
    }
    assert!(matches!(escalation_after_primary(false, "ok".to_string()), EscalationStep::RunFallback));
}

#[test]
fn escalation_fallback_outcomes() {
    assert_eq!(escalation_after_fallback(Ok(true), "ok".to_string()), Ok("ok".to_string()));
    assert_eq!(
        escalation_after_fallback(Ok(false), "ok".to_string()),
        Err("ERR: AUTHENTICATION DISMISSED".to_string())
    );
    assert_eq!(
        escalation_after_fallback(Err("sh missing".to_string()), "ok".to_string()),
        Err("sh missing".to_string())
    );
}

#[test]
fn direct_power_limit_reports_error_output() {
    assert_eq!(direct_power_limit_outcome(true, "", 90), Ok("SUCCESS: TGP LOCKED AT 90W".to_string()));
    assert_eq!(
        direct_power_limit_outcome(false, "  Insufficient Permissions\n", 90),
        Err("ERR: Insufficient Permissions".to_string())
    );
}

#[test]
fn direct_terminal_commands() {
    assert_eq!(
        direct_nvidia_shell_command(),
        "x-terminal-emulator -e bash -c \"export __NV_PRIME_RENDER_OFFLOAD=1 __GLX_VENDOR_LIBRARY_NAME=nvidia __VK_LAYER_NV_optimus=NVIDIA_only; echo '>> z0n // NVIDIA GPU ENVIRONMENT ACTIVE'; exec bash\""
    );
    assert_eq!(
        direct_payload_command("nvtop", "A=1 "),
        "x-terminal-emulator -e bash -c \"A=1 nvtop; echo; echo '>> SESSION TERMINATED'; exec bash\""
    );
}

#[test]
fn brightness_output_selection() {
    assert_eq!(brightness_output("eDP-1 connected primary 1920x1080+0+0\n"), "eDP-1");
    assert_eq!(brightness_output(""), "eDP");
    assert_eq!(brightness_output("\n  \n"), "eDP");
}

#[test]
fn brightness_replies() {
    assert_eq!(brightness_outcome(true, 75), Ok("SUCCESS: BRIGHTNESS SET TO 75%".to_string()));
    assert_eq!(brightness_outcome(true, -5), Ok("SUCCESS: BRIGHTNESS SET TO -5%".to_string()));
    assert_eq!(brightness_outcome(false, 75), Err("ERR: XRANDR INJECTION FAILED".to_string()));
}

#[test]
fn browse_replies() {
    assert_eq!(browse_outcome(true, "/usr/bin/gimp\n"), Ok("/usr/bin/gimp".to_string()));
    assert_eq!(browse_outcome(false, ""), Err("BROWSE ABORTED".to_string()));
}

#[test]
fn ledger_location_and_record() {
    assert_eq!(ledger_path(Some("/home/z")), "/home/z/z0n_telemetry_ledger.csv");
    assert_eq!(ledger_path(None), "/tmp/z0n_telemetry_ledger.csv");
    assert_eq!(ledger_record("1,2,3"), "1,2,3\n");
}

fn unescape(t: &str) -> String {
    t.replace("\\\"", "\"")
}

#[test]
fn escaping_round_trips() {
    for s in ["echo \"hi\"", "a\\b", "\\\"", "\"\"\"", "", "path\\"] {
        assert_eq!(unescape(&escape_double_quotes(s)), s);
    }
}
