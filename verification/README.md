# media_tagger

Renames the video files of a series after an episode guide scraped from the web.

The verified library (`src/`) holds the logic:

- `scrape_data`: reads the seasons, episodes and fields of an episode guide page
  (through `scraper`) and writes the guide as CSV (`guide_csv`, `refine_field_value`).
- `template`: fills in file name templates such as `Dororo-{{i2.p2}}-{{s3.ct}}`
  from a record of the guide (through `regex`).
- `rename_files`: plans, from the guide CSV (read with `csv`) and the names of the
  files found, the rename list, and reads the rename list back as moves.
- `text`, `chars`, `unicode`, `patterns`, `records`, `html`: text operations and the
  trusted calls into std, `regex`, `csv` and `scraper`.

`app/` is the command-line program: it downloads the guide page, reads and writes
the files under `<series>/.tagger/`, walks the series directory and moves files.
