# launch_apps

A launcher for Windows: it starts the applications of a configuration file one after
the other and pins their windows to the place and size that the file gives.

The library under `src/` is written in Verus. It holds everything that computes or
decides, and proves it against its contracts. The program under `app/` reads files,
starts processes and talks to the window manager, as the library asks.

| module     | what it holds                                                        |
|------------|----------------------------------------------------------------------|
| `text`     | white space, case, UTF-16, search and numerals                       |
| `order`    | the order of texts, sorted lists without repeats                     |
| `winpath`  | the syntax of Windows path texts, the same on every system           |
| `names`    | normal forms of arguments, hints, process and application names      |
| `config`   | the configuration file's contents and the applications they describe |
| `load`     | from a file's contents to the applications to launch                 |
| `locate`   | where the configuration file is looked for                           |
| `create`   | putting a default configuration file in place                        |
| `template` | the text of that file                                                |
| `process`  | the processes that belong to a launched application                  |
| `search`   | the windows that belong to it                                        |
| `window`   | placements, and the layout of a window                               |
| `launch`   | the course of one launch                                             |
| `run`      | the course of the whole run                                          |

Processes and windows are reached through state machines: a function of the library
takes what the last action brought and says what to do next.

What is taken on trust is in `text`: the contracts of `str::trim`,
`str::to_lowercase` and `String::from_utf16_lossy`. The lower case of a text that is
not ASCII is named there, not defined.
