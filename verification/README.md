# oreon-system-manager

A GTK front end for dnf, repositories, containers and drivers, with its
decision-making core verified by Verus.

- `src/` — the verified library:
  - `text.rs`: text as sequences of `char` — Unicode whitespace, trimming,
    splitting into pieces and words, substring search and replacement;
  - `process.rs`: process requests, routing of process events, and the
    parsing of dnf, repolist, docker and distrobox output;
  - `theme.rs`: theme modes, application settings and their settings file,
    the settings manager, and dark/light theme name derivation;
  - `pages.rs`: the commands the pages run, result rows, streamed-line
    buffering and result messages.
- `app/` — the GTK code: process threads and the main-loop poll, the
  settings store on disk and in GTK, the pages, sidebar and output widget.
- `tests/` — tests of the library.
