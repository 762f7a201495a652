# hourglass

A daily screen-time limiter for Linux desktops. A daemon charges the time of
every managed user who has an active graphical session, warns them 15, 5 and
1 minute before their daily limit, and ends their sessions when the time is
up; a PAM hook refuses logins for the rest of the day; a command line manages
limits and extra time and shows each user's status.

Layout:

- `src/` — the verified library (Verus): `loginctl` output parsing
  (`session`, `text`), the per-user accounting (`state`, `date`, `usermap`,
  `config`), the daemon's tick (`daemon`), the login decision (`pam`), the
  status report (`status`, `fmt`) and notification targets (`notify`).
- `app/` — the program around it: command line, the clock, configuration and state
  files (TOML, JSON, file lock), running `loginctl`, `runuser`, `zenity` and
  `notify-send`, and the daemon's loop.
- `tests/` — tests of the library.
