# fey

A read-only coding assistant for the terminal, backed by a local Ollama model.
The model may list directories and read files inside the workspace it was
started in, and nothing else.

## Layout

- `src/` is the verified library. Every decision the program makes lives
  here with a contract proved by Verus:
  - `workspace`: the sandbox. A request is refused when empty or absolute,
    joined onto the canonical root, and accepted only when its canonical form
    lies inside the root; files over 1 MiB and undecodable files are refused.
  - `list_directory`, `read_file`: the two tools' replies, sorted, numbered
    and cut at their budgets, with a notice exactly when something was left
    out.
  - `tools`: which failures the model is shown and which stay with the
    operator.
  - `agent`: the session's configuration, replies and errors, and the checks
    made before the workspace or the model is touched.
  - `tui::app`: the terminal's state machine (input line and status);
    `tui::view`: the footer, the horizontally scrolled input and the word
    wrapping of finished messages.
  - `paths`, `text`: Unix path components and the string helpers the rest
    builds on.
- `app/` is the program around it: command line, filesystem reads, the Rig
  agent and its tools, the Tokio worker and the Ratatui event loop.
- `tests/` runs the library on concrete inputs.
