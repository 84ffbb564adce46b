# cf_tool

A command-line companion for Codeforces: log in, keep source templates,
fetch a contest's sample tests, generate a source file from a template,
test it on the samples and submit it.

- `src/` is the library, verified with Verus. Every decision the tool makes
  is there with its contract: reading the site's pages (`scrape`), the forms
  and addresses it sends (`client`), the templates and the configuration
  (`config`), the commands' choices (`cmd`), the `$%..%$` placeholders of scripts and
  template files (`placeholders`), the comparison of outputs
  (`testing`), what the user types at the prompts (`validate`), paths
  (`path`, `files`, `utils`) and the text operations they rest on (`text`).
- `app/` is the program around it: the command line, HTTP, files, prompts,
  running the user's scripts and printing.
- `tests/` runs the library on concrete values.
