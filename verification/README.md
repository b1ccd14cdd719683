# svn_filter

Condensed output for Subversion (`svn`) commands, with the filtering logic
verified by Verus.

Each supported subcommand (`status`, `log`, `diff`, `info`, `blame`, `add`,
`commit`, `update`) is run as a plain `svn` command line and its standard
output is passed through a filter that keeps what matters:

| subcommand | output                                                     |
|------------|------------------------------------------------------------|
| status     | `{status} {path}` per status line                          |
| log        | `r{rev} {author} {date} {first message line}` per entry   |
| diff       | the diff without `Index:`/`===` headers, short file markers|
| info       | `URL:`, `Revision:` and `Last:` lines                      |
| blame      | `{rev} {user} {content}` per line                          |
| add        | `{status}  {path}` per added path                          |
| commit     | `Committed revision N.`                                    |
| update     | `{action}  {path}` per path and `Updated to r{N}`          |

`log` and `info` are run with `--xml` and read from that form. The status,
add, commit and update filters hand their input back unchanged when no line
is recognized; the log filter does so when there is no complete entry, and
the info filter when it finds no URL and no revision.

## Layout

- `src/` — the verified library.
  - `text.rs`: line splitting, trimming, prefix tests and substring search on
    characters, each with its specification.
  - `pattern.rs`: regular expressions, run by the `regex` crate behind a few
    trusted wrappers that name what `regex` returns.
  - `xml.rs`: the text of a one-line XML element.
  - `status.rs`, `log.rs`, `diff.rs`, `info.rs`, `blame.rs`, `add.rs`,
    `commit.rs`, `update.rs`: the filters. Each line-based filter is split
    into the regex calls and a `render_*` function that takes their results
    as arguments.
  - `commands.rs`: which `svn` command line each subcommand runs and which
    filter its output goes through.
  - `laws.rs`: properties of the filters as a whole (passthrough of
    unrecognized output, no swallowed output, XML read-back, commit
    filtering twice, the shape of the blame and info output, no repeated
    `--xml`).
- `tests/` — tests on concrete values.
- `app/` — the command-line program that runs `svn` and prints the filtered
  output.
