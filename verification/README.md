# herdr-starship

Renders a `starship.toml` onto the sidebar of a Herdr workspace.

`src/` is the library. It holds the plugin's decisions, with contracts that Verus proves:

- `ansi`, `width`, `truncate`, `fitter`: styled text, its width in columns, and fitting modules into
  a sidebar.
- `config`, `document`: Herdr's settings and the plugin's own, read from TOML.
- `workspace`, `modules`, `starship`, `command`: open workspaces, the modules to render, and the
  commands that render and report them.
- `login_path`: the `PATH` of the login shell.
- `pid_file`, `detach`, `reconcile`, `lock`, `watch`: the background process.
- `cli`, `text`, `number`, `path`: the command line, and the basics.

`app/` is the program around it: it runs the commands, reads and writes the files, and watches the
file system. Where outside steps and decisions take turns, the library hands out requests and takes
replies.
