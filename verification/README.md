# hocg_fan_sim_assets

Card data for a fan-made simulator of the hololive Official Card Game: the
card and Q&A model, and the rules that read the official card lists, the fan
spreadsheet, the shop pages and holoDelta's data into it, merge printings,
match images and collect what is no longer referenced.

- `src/` is the library, verified with Verus. Each module states its rules
  as contracts over spec functions, and the properties that span several
  functions as proof functions (`lemma_*`).
- `tests/` runs the library on concrete values.
- `app/` is the command line tool around the library: argument handling,
  HTTP requests, image decoding and hashing, files and JSON. The pages it
  fetches are read by the library (`pages`, on the nodes that `html` gives).
  It hands the library plain values and applies what comes back.

Printings carry no similarity index: printings that show the same image
are merged (`maintenance::merge_similar_cards`) instead.
