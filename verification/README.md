# blibs

Search the libraries of Berlin and Brandenburg: who holds a title, whether it is in
right now, and where it is on the shelf. The library speaks to two catalogues: the KOBV
union catalogue over SRU, and voebb.de for the branches of the Berlin public library
network.

The library is written in Verus. Every function in `src/` carries a contract, and Verus
proves that the code meets it. The command-line program in `app/` handles what Verus
does not check: argument parsing and the printing. It carries no HTTP client: its
`Fetch` implementation answers every request with a network error, so it runs the
validation, the library listing and the error paths. Searching or looking a record up
needs more than a transport, which a program supplies:

- A KOBV search or lookup is finished only without the copies' status
  (`--no-availability`). The status comes from a second KOBV service whose answer this
  library does not read, so `search_one_engine` and `Kobv::show` ask for the skipped
  mode, and the program refuses the other before it calls them.
- voebb.de is searched through its session (`VoebbClient`), and a record page is read
  whole; the result list of a voebb.de search is not read, so a whole voebb.de search
  cannot be finished, and the program refuses it.
- The program runs one engine after the other and hands their results, in engine order,
  to `gather_engines`, which decides what a failure of one of them costs the rest.

## Layout

- `src/cli/`: validation of a command line into a plan (`validate`), the ISBN/ISSN check
  (`isbn`), and the decisions taken after the engines answer (`run`): the blocks per
  location, the window counts, the notes and why an empty answer is empty.
- `src/engine/kobv/`: PQF queries, SRU requests, the checked SRU envelope, MARCXML and
  the conversion of a MARC record into a `Record`.
- `src/engine/voebb/`: the voebb.de session, its form submissions, the record page
  (bibliographic table, item table, availability), the branch facet, and the session-lost page.
- `src/select.rs`: what happens to the fetched window: repeats dropped, `--format` and
  `--language`, the sort, the cut of one page (per location where there are locations),
  `--available`, and the marking of the invocation's own libraries.
- `src/libraries.rs`: the compiled-in list of libraries and branches, and how a name
  resolves to one of them.
- `src/model.rs`, `src/error.rs`, `src/http.rs`: the shared types, the errors with their
  exit codes, and the transport seam (`Fetch`).
- `src/html.rs`, `src/xml.rs`, `src/text.rs`: the document nodes and the text helpers
  the parsers work on.
- `tests/`: ordinary Rust tests against the compiled library.
- `app/main.rs`: the program.

## What is trusted

Verus takes these on trust, and nothing else:

- `read_html` / `html_nodes` (scraper's `Html::parse_document`),
- `read_xml` / `xml_nodes` (roxmltree's `Document::parse`),
- `push_char`, `is_alphanumeric` / `alphanumeric`, `quoted` / `debug_text`
  (std's `String::push`, `char::is_alphanumeric`, and `Debug` for `str`),
- the `Fetch` trait's contract: an answer is the answer to the request the transport
  was handed, and the only failure it reports is a transport failure. A program that
  implements `Fetch` owes this.
