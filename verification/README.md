# athenaeum_core

The rules of an astrophotography catalog for two kinds of work: archiving the
frames of a set into zips, and sending frames from one device of an account to
another. The rules are written in Verus; each function states what it gives for
every input, and Verus proves that it does.

- `src/archive`: names and places in zips, plans of archive operations and their
  commit, the run of an operation phase by phase, and the records it keeps.
- `src/api`: who may send, which frames of a selection go and under which names,
  the preparing of packages, the state of transfers, and what may be removed of
  them.
- `src/text.rs`, `src/text_map.rs`, `src/paths.rs`: text, maps from text to text,
  and slash paths.
- `src/host_paths.rs`: paths as a host reads them, with the separators, drives and
  shares of Windows.

`src/archive` takes paths as the host writes them. In `src/api` paths are separated
at slashes on every host, and `app` hands them over in that form.

What holds of several functions together stands as a public proof function whose
name begins with `law_`.

Nothing in `src` touches a disk, a database, a network or a clock. `app` does:
it fetches what a rule decides on, and does what the rule has decided.
