# centaur_wiki

The read side of a wiki: what its pages, graph, search, change reports, timelines and diffs look
like as JSON, which live sources are asked what happened lately, and how outside programs call
all of this through a relay. The logic is verified with Verus; each public function states what it
returns, and the laws that relate several of them stand beside them as proof functions whose names
begin with `law_`.

- `src/` is the library.
  - `text`, `lines`, `decimal`, `order`, `tally`, `json`, `query`: texts and their lines, numbers,
    ordered lists, counts, JSON values and percent-encoding.
  - `clock`: points in time, their RFC 3339 form, and the windows that queries ask about.
  - `config`: what is taken from settings.
  - `page`, `graph`, `search`, `source`, `changes`, `timeline`, `diff`: the reports on the wiki.
  - `live`, `activity`: the requests to the live sources, what is read from their replies, and the
    feed made of it.
  - `catalog`, `mcp`: the tools that the relay offers, who may call them, and what is done about a
    request.
  - `answer`: what a call is answered with, whether a route or a tool makes it.
- `tests/` runs the library on concrete values.
- `app/` is the HTTP service: routes, database reads, calls to the live sources, and the
  settings of the process.

A JSON value of the library is seen in contracts as a `JsonView`, in which an object is a map from
names to values. A text is seen as a sequence of characters.
