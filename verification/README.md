# moon_sources

Workspaces that are composed of several source roots, each with its own configuration, its
own projects and its own version control.

The library under `src/` is written in Verus: contracts state what its functions return and
change, and are proved. Where another crate decides and its answer cannot be fixed, the
contract says what holds whatever the answer is. The library holds

- the identities of source roots, projects, tasks and invocations, and the paths below
  source roots (`id`, `source`, `keys`, `invocation`, `environment`, `path`);
- project and task graphs of single source roots, their composition, and the queries on
  them (`config`, `expander`, `scopes`, `project_*`, `task_*`, `focus`, `graph`, `dag`,
  `walks`);
- which projects and tasks are affected by changed files (`changed_files*`, `affected*`);
- the graph of actions of a run (`action_*`);
- the discovery of workspaces, reports on them, and what changes of files ask for
  (`discovery`, `reports`, `source_reports`, `watch`, `workspace_watch`, `runtime`,
  `session`, `daemon`);
- the host side of plugins and of version control overlays (`plugin_*`, `protocol`,
  `vcs*`, `benchmark`, `task_fingerprint`).

Laws that relate several functions are public proof functions beside the functions that
they speak of, or in `composition_laws`, `task_laws`, `action_laws`, `job_laws` and
`affected_laws`.

Calls into other crates stand behind functions marked `#[verifier::external_body]`, each
with a comment that says what is believed of the call.

`tests/` runs the library on concrete values. `app/` is the command line around it: files,
processes, clocks and the terminal. Its commands list projects that a workspace lists by
identifier; it reads no other configuration formats than JSON.
