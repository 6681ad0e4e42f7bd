# firefam

Verified core logic of the Firefam terminal client and thread runtime,
written in Verus.

- `src/` is the library. Every function in it is verified against its
  `requires`/`ensures` contract; the laws that relate several functions are
  public proof functions (`lemma_*`) next to the code they speak of.
  - `command_popup`, `slash_command`, `mention`, `scroll_state`, `text`:
    the slash-command popup — which commands a session offers, how the
    composer text filters them, fuzzy matching and ranking of skills, and the
    selection and scrolling of the list.
  - `history_cell`: plain, composite and work-log history cells.
  - `popup_hints`: footer hint lines of popups.
  - `ide_context`: when IDE context is applied to a prompt and when the user
    is warned that it was skipped.
  - `plugins`: which marketplace plugins are suggested as discoverable tools,
    and in which order.
  - `thread`, `thread_store`: thread errors, pending input messages, the
    out-of-band elicitation counter, and the rollout settings of new threads.
  - `home_dir`: the configuration home and its error messages.
  - `test_support`: process-wide test switches.
- `app/` holds what touches the environment and the file system: locating
  the configuration home (`AGENTS_HOME`, `~/.agents`) and the static test
  switches. It calls the library for every decision.
- `tests/` exercises the library on concrete values.
