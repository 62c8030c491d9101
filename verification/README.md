# aid

Pools of ready checkouts of git repositories, and the server that keeps them.

A background server clones, updates and builds a number of copies of every
configured project, so that a fresh one is always at hand. The commands hand
copies out under a name and take them back:

```bash
aid server                                  # keeps the pools full and fresh
aid add <project_name> <checkout_name>      # hands a ready copy out
aid list [--active|--free]                  # shows the copies
aid list --background                       # shows those nobody uses, with their status
aid cd <checkout_name>                      # goes to a copy (see aid init)
aid rm [--force] <checkout_name>            # takes a copy back
aid cleanup                                 # removes unused copies beyond the configured number
aid purge                                   # removes all unused copies
aid init <bash|zsh>                         # prints the shell integration
```

## Configuration

The file is `~/.config/aid/config.toml`. All global settings are optional.

```toml
nslots = 2                    # ready copies to keep per project
refresh_interval_secs = 1800  # how often to pull and rebuild

[[projects]]
name = "myproject"
repo_url = "https://github.com/org/myproject"
branch = "main"
nslots = 3
has_submodules = false
build_command = ["make build", "make test"]
```

Each build step is split on white space into a program and its arguments and run
without a shell. The first step that fails ends the build.

## Layout

`src/` is the library. Its functions are verified with Verus: their `requires` and
`ensures` say what they do, in terms of mathematical models of the data. Four small
functions call code that Verus does not see, and their contracts are believed:
`from_utf8_lossy` and `quote` in `text` (the standard library), `seconds_between` and
`format_rfc3339` in `time` (chrono). So is what users of `poll_loop::Handler` promise
of their handlers.

- `api`, `requests`, `request_laws`: the messages, how they are answered, and what
  holds of the answers.
- `state`, `handler`, `handler_laws`, `step_laws`, `progress_laws`: what the server
  knows, what it does next, what that may change, and why its pools become ready.
- `cleanup`, `cleanup_laws`: removing copies that nobody uses.
- `pool`: filling and refreshing one pool, command by command.
- `poll_loop`: clients, their buffers, the child process, and what to do when
  descriptors are ready.
- `server`, `client`, `socket`, `cli`: the lock, the framing of messages, the status
  protocol, and the command line.
- `config`, `error`, `command`, `path`, `time`, `text`, `seqs`: what the others rest on.

`app/` is the program around it: files, sockets, signals, processes, JSON and TOML.
`tests/` runs the library on concrete values.
