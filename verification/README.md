# hf_hub

The naming, layout and download planning of a Hugging Face hub client that
keeps files in the browser's IndexedDB, with its logic proved by Verus.

- `src/text.rs`: splitting, joining, replacing, trimming, decimal numbers,
  with their specifications and laws (split/join and parse/format round
  trips, the string order of zero-padded numbers).
- `src/types/`: urls, repo ids, revisions, hashes and cache paths; the keys
  of the browser store and how they are read back and split.
- `src/cache.rs`: the cache, repos and the paths of a repo in the cache.
- `src/api/`: url templates, the client builder, file metadata read from
  response headers, and the plan of chunks in which a file is fetched.
- `app/`: the requests to the hub, the browser store and the files of the
  native cache, around the library.
