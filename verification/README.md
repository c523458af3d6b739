# joogle

A small search engine: it indexes web pages (words scored by where they
occur), reads robots.txt files and sitemaps to find pages, and answers
search queries from the scores.

- `src/` is the verified library: text handling, page reading and word
  scoring, the statements that store each word's scores, the robots.txt
  reader, sitemap reading and routing, the URL queue, the SQL
  statements of the index, domain ownership records and request
  authentication. Every function states its behaviour in `requires` /
  `ensures` and is proved with Verus; the laws (round trips of the stored
  encodings, the scoring rule of a page and the rows stored for it, the
  queue and sitemap loops) are public proof functions.
- `app/` is the server around it: the web routes, the SQLite and Postgres
  databases, the HTTP and DNS requests and the indexing threads.
- `tests/` runs the library on concrete values.
