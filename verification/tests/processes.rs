use ov3rride::processes::{
    clean_cmdline, cmdline_path, full_command, parse_process_line, parse_process_listing,
};

#[test]
fn listing_keeps_three_field_lines() {
    let out = "1234, /usr/bin/python3, 512\n99, Xorg, 64\nbad line\n";
    let ps = parse_process_listing(out);
    assert_eq!(ps.len(), 2);
    assert_eq!(ps[0].pid, "1234");
    assert_eq!(ps[0].name, "python3");
    assert_eq!(ps[0].memory, "512");
    assert_eq!(ps[1].pid, "99");
    assert_eq!(ps[1].name, "Xorg");
    assert_eq!(ps[1].memory, "64");
}

#[test]
fn listing_of_empty_output_is_empty() {
    assert!(parse_process_listing("").is_empty());
    assert!(parse_process_listing("No running processes found\n").is_empty());
}

#[test]
fn process_names_have_no_slash() {
    for line in ["1, /a/b/c, 2", "1, trailing/, 2", "1, //, 2", "1, plain, 2"] {
        let e = parse_process_line(line).expect("three fields");
        assert!(!e.name.contains('/'));
    }
    assert_eq!(parse_process_line("1, trailing/, 2").unwrap().name, "");
    assert!(parse_process_line("1, 2").is_none());
}

#[test]
fn command_line_is_cleaned() {
    assert_eq!(clean_cmdline("python3\0train.py\0--fast\0"), "python3 train.py --fast");
    assert_eq!(clean_cmdline("\0\0"), "");
}

#[test]
fn full_command_prefers_readable_command_line() {
    assert_eq!(full_command("python3", Some("python3\0train.py\0")), "python3 train.py");
    assert_eq!(full_command("python3", Some("\0\0")), "python3");
    assert_eq!(full_command("python3", None), "python3");
}

#[test]
fn command_line_path() {
    assert_eq!(cmdline_path("42"), "/proc/42/cmdline");
}

#[test]
fn listing_is_well_formed() {
    let out = "7, /opt/a b/x, 10\r\n8, y, 20, extra\n9,  z , 30\n\n10, /w/, 40";
    let ps = parse_process_listing(out);
    assert!(ps.len() <= out.lines().count());
    assert_eq!(ps.len(), 3);
    for p in &ps {
        assert!(!p.name.contains('/'));
        for f in [&p.pid, &p.name, &p.memory] {
            assert!(!f.contains('\n'));
        }
        assert!(!p.pid.contains(", ") && !p.memory.contains(", "));
    }
    assert_eq!(ps[1].name, " z ");
    assert_eq!(ps[2].name, "");
}

#[test]
fn full_command_empty_only_with_empty_name() {
    assert_eq!(full_command("", Some("\0")), "");
    assert_ne!(full_command("x", Some("\0")), "");
}
