# clearclip

The verified core of ClearClip, a desktop application that sends videos to
RunningHub AI workflows (watermark removal, 2K/4K upscaling) and downloads the
results, together with its launcher.

`src/` is the library, verified with Verus:

- `text` — operations on the characters of strings (trimming, ASCII case,
  searching, decimal numbers, the order of texts) with their specifications.
- `keyed` — a map keyed by text.
- `runninghub` — the records of the RunningHub API, the messages of its error
  codes, the checks on its replies, the choice of the video input node, the
  names of result files and the JSON body of a demo command line.
- `task` — task states and records, the book of records and what each step of
  a task does to it, listing newest first, clearing the history, restart
  decisions, and submissions that are still running.
- `worker` — the steps of the work on one task, from state and event to the
  next state and action.
- `settings` — per-workflow node overrides and the state of the API key check.
- `diagnostics` — time stamps and the name of an exported log.
- `launcher` — versions in file names, the order in which versions are tried,
  and the program file in a version folder.

`tests/` runs the library. `app/` is the unverified shell: the launcher's
`main`, the HTTP client, the files on disk, the credential store, and the task
service that performs the calls the worker steps ask for.
