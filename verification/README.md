# ghgrab

The decision-making core of a tool that fetches files and release assets
from GitHub, written in Verus with its behaviour stated in contracts and
proved.

Library (`src/`, verified):

- `release` — repository references (`owner/repo` or a github.com URL),
  release choice by tag or publication state, and release asset choice:
  filtering, scoring against platform and file type, ranking, and when the
  choice is clear enough to make without asking.
- `asset_order` — asset selection does not depend on the order of the
  release's assets.
- `cli` — which GitHub token applies (command line, environment, saved
  configuration), how a saved token is masked for display, and which
  repository paths a download request covers.
- `agent` — the JSON commands' error codes, repository paths and URLs,
  and which tree entries a download wants.
- `prompt` — how an answer typed at the asset prompt is understood.
- `install` — download directory, archive format, and which extracted file
  is installed as the program.
- `highlight` — syntax-highlighted file contents: which syntax and theme
  are used, the call into `syntect`, and how its colours and font styles
  become terminal spans.
- `text` — string operations stated over character sequences.
- `pattern`, `weburl` — the calls into `regex` and `url`, with the
  contracts the rest of the library relies on.

Program (`app/`): the command line (`rel`, `config`, `agent`), network and
file access, the saved configuration file, archive extraction, the
interactive prompt loop, JSON output, and conversion to `ratatui` text.
