# v8cli

An agent-facing browser-lite runtime: pages are loaded and run by a browser
engine, and the agent reads them as a numbered semantic tree or as readable
text, and acts on them with JavaScript.

The library (`src/`) holds the decisions and the text processing of the
runtime, verified with Verus:

- `text` — character-level utilities: whitespace, trimming, normalising,
  searching, decimal forms, truncation.
- `urls` — what the library reads of URLs, computed by the `url` crate.
- `net` — importing a browser session: which cookies may be carried to a
  target site as `Set-Cookie` lines, the User-Agent of the browser they came
  from, and reading Chrome's profile and version files.
- `tree`, `html`, `dom` — parsed documents held as plain trees, CSS selection
  through `scraper`, node handles, the semantic tree and readable text.
- `blocklist` — Adblock Plus-syntax request filtering through `adblock`.
- `engine` — the evaluation protocol of the page engine as a state machine
  (promise polling, navigations a script asks for or records), and the lines
  of the `serve` protocol.

`app/` is the command-line program around it: argument parsing, the browser
engine, files and the environment, the user's cookie store, and the loops that
perform the actions the library decides. The agent page API script that the
engine installs in every page is read from the file named by the
`V8CLI_PAGE_SCRIPT` environment variable.
