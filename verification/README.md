# joyride

Turns game-controller input into mouse and keyboard events on macOS.

`src/` is the verified library:

- `config` — mouse buttons, key modifiers, key combos and actions, with
  their string IDs and display names; the ID round trips are proved.
- `mapping` — the button map of a profile (input → action), and the
  saved mappings applied to it.
- `cli` — the grammar of the command-line options, the help text, and the
  button maps they seed.
- `translator` — edge detection for mapped buttons (press counts per mouse
  button, double clicks and key presses that fire once per press), with
  proofs that counts follow the pressed inputs, that held inputs do not
  repeat (from any state, also after a change of map), and that each
  mouse button's presses and releases alternate over any run of frames.
- `events`, `clicks`, `poll` — output events and their schedule, click
  counting, and the per-frame decisions: the on/off switch, the profile
  lock and the profile switch.
- `text`, `assoc` — string and association-list helpers.

`app/` is the daemon around it: controller handlers (with the d-pad
directions as buttons), CoreGraphics event posting, user defaults, stick
and scroll arithmetic and the option ranges (floating point), and the
polling loop.
