# linear_get_ticket_prs

A toolkit that bridges Linear issue tracking with GitHub pull requests:
ticket queries, PR lookups, merge-status filtering, release-branch
comparison and release notes.

- `src/` is the verified library. It builds the GraphQL queries, walks the
  result pages, collects PR numbers, parses PR references in commit subjects,
  applies the odd/even mention rule to find PRs missing from a release branch,
  and renders every table, note line and error message, each function with a
  contract proved by Verus.
- `app/` is the command line around it: clap argument parsing, stdin, and the
  `curl`, `gh`, `git`, `rg` and `column` subprocesses.
- `tests/` runs the library on concrete inputs.
