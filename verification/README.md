# Padsound

A sound-cue player for live theatre: tracks of a show are triggered from
the keyboard, a MIDI controller or a terminal screen, with toggle and hold
modes, loops, start and end offsets, fades and per-track volume.

## Layout

- `src/` is the library, verified with Verus: the show model and its
  validation, show generation from a directory listing, MIDI learn, the
  mixer's control logic (which tracks play, where, how loud, which fades
  apply), key and MIDI bindings, and the terminal screen's state machine
  and texts. Seconds and gains are carried as IEEE-754 bit patterns; the
  library compares them exactly and leaves real arithmetic to the program.
- `app/` is the program around it: command-line arguments, TOML show
  files, decoding (symphonia), the audio output (cpal), MIDI input
  (midir), the terminal screen (ratatui, crossterm), and the real
  arithmetic of samples, fades and volumes.
- `tests/` exercises the library.

Not included: the graphical interface for Windows (built on eframe). The
terminal screen and the keyboard and MIDI controls cover the same show
operations; the key-to-command logic the graphical screens used is the
library's `screen_key_commands`.
