# slurm-tui

A terminal dashboard for a Slurm cluster: the job queue, the state of the nodes
per partition, the running jobs with the tails of their logs, and dialogs that
submit (`sbatch`) and cancel (`scancel`) jobs, change the working directory and
open the log of a recent job.

The library in `src/` holds everything the dashboard decides and computes, with
its contracts proved by Verus:

- `text` — strings as sequences of characters, with the operations the rest uses
- `slurm`, `scontrol`, `nodes`, `queue`, `tasks`, `users` — reading the output of
  `squeue`, `scontrol`, `sacct` and `getent`, and building the commands to run
- `input`, `history`, `complete`, `keys` — the dialog's line editor, the per-dialog
  input history and its file format, path completion, and what each key does
- `app` — the dashboard's state and the effect of each user action
- `view`, `layout`, `palette` — what the screen shows, as text and color roles

The program in `app/` runs the commands (in parallel where they are independent),
reads the clock and the file system, and draws the screen with ratatui.

```text
--dark              Use dark background theme (default: light)
--login-node HOST   SSH host for resolving UIDs to usernames
-n SECS             Refresh interval in seconds (supports decimals, default: 1)
```
