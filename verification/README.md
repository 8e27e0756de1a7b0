# companion

The window that lists running agent sessions, and the lock file that keeps one such window
per user.

- `src/` is the verified library. It decides everything: which sessions are listed and in
  what order, what a row says, how large the window is and where it stands, which
  configuration counts, what the size picker does, and who holds the lock.
- `app/` is the desktop shell: it reads the state file, the pointer and the monitor, draws
  with egui, and performs the steps of the lock on the file system.
- `tests/` run the library.

Coordinates in the library are integers, in sub-point units (`geometry::POINT` to a logical
point); the shell converts from and to single precision.
