# purview

Review of the changes in a git repository, hunk by hunk: approve or reject each
hunk, comment on it, and hand the result to the author or to a connected agent.
Verdicts and comments follow their changes when the work tree moves on.

## Layout

- `src/` is the library. Every function in it carries a contract that Verus
  proves; what it takes from syntect, serde_json and the standard library stands
  behind the few items that are trusted instead, each with a doc comment that says
  what is claimed.
- `tests/` runs the library.
- `app/` is the program around it: the window, the repository backends (git2 on
  this machine, ssh on another), the files on disk, and the server that a
  connected agent talks to.

## Running

    purview [PATH | ssh://[user@]host[:port]/abs/path]
    purview-mcp PATH

Go-to-definition asks a command-line agent which of the places that `git grep`
found is the definition. `PURVIEW_AGENT` names its program; the model is fixed.
