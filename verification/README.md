# terrier

A tracker of real-estate listings: it scrapes portals on a polite schedule,
keeps every price that a listing has had, matches listings with saved searches,
pushes what is new or got cheaper, reads facts out of descriptions, and shows
all of it in a small web application.

- `src/` is the library, proved with Verus: what every operation returns and
  changes stands in its contract. `law_*` functions state what holds of several
  operations together.
- `app/` is the program around it: the HTTP server and client, SQLite, the
  fetching of pages and photos, the schedule, and the views.
- `tests/` runs the library on concrete values.

Modules of the library:

| module | what it holds |
| --- | --- |
| `text`, `double`, `ratio`, `limit`, `fixed`, `json` | strings, double-precision arithmetic in integers, JSON trees |
| `listing`, `search`, `status` | the data model and what matches what |
| `normalize` | prices, URLs and titles as they are scraped |
| `scrape` | pages and adverts of the portals, and the crawl over them |
| `store`, `communes` | what is stored and how it changes; medians by commune |
| `pipeline`, `scheduler`, `politeness`, `state` | a run over scraped listings, and when runs happen |
| `llm`, `enrich` | reading descriptions, and the steps of enriching a listing |
| `api`, `client`, `config`, `notify` | requests, answers, settings, messages |
| `ui` | what the views show |

Numbers that are not whole are held by the bits of their double; the library
computes with them in integers and states the results exactly.
