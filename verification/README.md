# opendal_demo

Google Drive walkthroughs over OpenDAL, with their rules verified in Verus.

- `src/` — the verified library: readable sizes (`size_text`), text building
  (`text`), listing statistics and selections (`listing`), per-directory
  rules (`walk`), the depth-first walk of a directory tree as a state machine
  (`tree_walk`), printed lines (`report`),
  timestamps (`clock`), JSON documents (`json`), credential choice (`auth`),
  and the properties that relate them (`laws`).
- `app/` — the walkthrough program: `main <basic|upload|download|list|delete|copy|rename|stat|complete>`
  runs one walkthrough against the drive folder `/opendal-demo`, with credentials
  from `GDRIVE_REFRESH_TOKEN`, `GDRIVE_CLIENT_ID`, `GDRIVE_CLIENT_SECRET` or
  `GDRIVE_ACCESS_TOKEN`.
- `tests/` — tests of the library, including comparisons of the size texts
  with Rust's own floating-point formatting.
