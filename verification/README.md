# necrometer

Measures how dead a GitHub account is: every repo that is not a fork gets
a fate from its last push (alive, cooling, cold, dead, or buried when
archived; repos never pushed are dead), the fates weigh into a necrosis index
from 0 to 100, and the reading becomes a title, a JSON document, an HTML
page and an animated SVG card.

The library under `src/` is written in Verus and verified: its functions
carry `requires`/`ensures` contracts over mathematical models, and the
laws the program relies on are proved as public proof functions.

```
src/metrics/     fates, the necrosis index, titles and flavour text
src/card/        the SVG card: palette, chassis, gauge, stats, EKG,
                 skull, easter eggs, graveyard, and their layout
src/github/      the repo model, response classification, page walk
src/json/        JSON parser and writer, with their round-trip law
src/http/        HTTP response parsing and the client's read loop
src/http_server  request parsing, response heads, the rate limiter
src/web/         routes, pages and response headers of the service
src/wasm.rs      the reading as JSON for the browser bridge
src/cli.rs       hall-of-fame names, ranking and JSON
src/time.rs      RFC 3339 instants
app/             sockets, TLS, files, the clock and the float gauge
                 points: the program around the library
tests/           tests of the library on concrete values
```
