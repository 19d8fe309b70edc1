# url_normalization

URL normalization for a crawler, verified with Verus. Links to one page come with
tracking parameters, sort orders, fragments and different encodings; the library brings
each of them into one normal form, so that no page is fetched twice.

- `src/` is the library. Every function states in its contract what it returns.
  - `text`, `component`, `entities`: strings, query components, HTML entities
  - `params`, `query`: query parameters, their order, and which of them survive
  - `defaults`, `filter`, `active`: the built-in lists, a crawl's rules, the active filter
  - `parsed_url`: URLs as the `url` crate parses them
  - `normalizer`, `links`: normal forms of texts and of URLs, and the drop check
  - `redirect`: trivial redirects
  - `name_laws`, `query_laws`, `entity_laws`, `laws`: what holds of the built-in names, of
    all clean queries, of texts without HTML entities, and of all normal forms
- `app/` holds what belongs to a process: the active filter behind its lock, and
  configurations that can be read and written with serde.
- `tests/` runs the library on examples.
