# ov3rride

The backend of a Linux GPU control panel (a Tauri application): GPU and
power-supply telemetry, a list of the processes on the GPU, privileged
actions (killing a process, setting the GPU power limit) and launchers for
terminals and programs.

- `src/` is the library, verified with Verus: the parsing of what
  `nvidia-smi`, sysfs and procfs give (`telemetry`, `processes`, on top of
  `text` and `decimal`), and the shell commands, escalation steps and
  replies of the panel's actions (`commands`).
- `app/` is the Tauri program: it runs the tools, reads the files, and
  passes what it gets through the library.
- `tests/` runs the library on concrete inputs, several of them against
  the standard library's own `split`, `lines`, `trim`, `parse` and
  `to_string`.
