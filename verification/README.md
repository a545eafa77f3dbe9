# dsh-desktop

The desktop shell of DeepSeek Harness (`dsh`): it starts `dsh`, shows its web
interface in a window, watches over it, and keeps it and itself up to date.

`src/` is the library with the decisions of the shell, verified with Verus. Every
function states what it does; the laws that hold across functions stand beside
them as proof functions.

| module | what it decides |
|---|---|
| `watchdog` | what is kept of the output of `dsh`, which exits are crashes, when `dsh` is started again |
| `launch` | where `dsh` comes from, how it is installed and started, when it is ready |
| `profile`, `plugin` | how plugins are taken out of the profile of `dsh`, and how that of the shell is put in |
| `npm`, `version`, `catalog` | which versions there are, how they are ordered, how `dsh` is updated |
| `release`, `signature` | how a release of the shell is fetched, verified and installed |
| `terminal` | how the `dsh` command of the terminal is made that of the shell |
| `shell`, `prefs`, `locale` | the lock during updates, closing and quitting, wishes of the user, the language |
| `json`, `encoding`, `text` | documents, bytes and text |

Calls into `serde_json`, `base64`, `minisign-verify`, `url` and a few functions of
the standard library stand behind small wrappers whose contracts are trusted; the
comment above each says what it claims.

`app/` is the shell around the library: windows, processes, files and the network.
`tests/` runs the library on concrete values.
