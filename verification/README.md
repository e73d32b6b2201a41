# hostctl

Execution of commands and recipes on groups of hosts ("a ssh loop on
steroids"), as a verified library and a thin program around it.

## Layout

- `src/` — the library, verified with Verus:
  - `text.rs`: trimming, splitting, lines, replacement, joining, decimals;
  - `order.rs`: the order of strings and sorted lists without repetition;
  - `pattern.rs`: regular expressions of the `regex` crate behind trusted wrappers;
  - `config.rs`: the `hostctl.conf` format, the groups and the host list;
  - `output.rs`: messages, recipe locations and the lines to execute;
  - `cli.rs`: the command line and what the program does with it;
  - `execute.rs`: the lines and command lines (ssh, bash, screen) for one host;
  - `session.rs`: setting up and tearing down a screen session;
  - `run.rs`: the run over many hosts as a state machine, and its summary.
- `app/` — the program: clap, files, processes, prompts, colours.
- `tests/` — tests of the library on concrete values.

## Configuration

Files are read in this order and their lines taken together: the
`hostctl.conf` in the directory that `HOSTCTL_CONFIG` names, if set; otherwise
`~/.hostctl/hostctl.conf`, then `hostctl.conf` in the installation directory.

```
#<regex for visibility> : <groupname> : <host>, <host>, ...
foobar-l01-(ap|db)\d+ : web1 :  foobar-l01-ap01, foobar-l01-ap02
jump-barfoo : web2 :  barfoo-l01-ap01, barfoo-l01-ap02
db : db01, db02
```

A group of a three-field line is visible only on machines whose host name the
regular expression matches; a two-field line defines a group visible
everywhere.
