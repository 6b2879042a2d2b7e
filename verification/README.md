# win_instant_replay

A Windows tray recorder that keeps a rolling buffer of short ffmpeg
segments on disk and saves the last 10/30/60/120/300 seconds on a global
hotkey.

- `src/` is the library, verified with Verus: hotkey parsing (`hotkey`),
  configuration validation and write-back (`config`), segment retention
  (`retention`), the ffmpeg command lines, replay selection, concat list and
  capture supervision rule (`ffmpeg`), the settings form and the Win32
  hotkey codes and UTF-16 text (`settings`), Windows path equality by
  components (`paths`), and the string and number parsing they rest on
  (`text`). Each public function carries its contract; the `law_`
  proof functions state what holds across functions.
- `app/` is the program: config file and directories (TOML, `directories`),
  the ffmpeg processes and the capture thread, and the Win32 tray
  application. Double-clicking the tray icon opens the settings window.
- `tests/` runs the library on concrete values.
