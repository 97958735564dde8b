# meditui

A terminal Bible reader that follows Robert Murray M'Cheyne's plan for
reading through the Bible in a year, with verse highlights kept across
sessions and an archive of them grouped by reading day.

- `src/` is the library, verified with Verus: the reading plan and its
  dates, the loaded text, the highlight indexes (per chapter and per reading
  day), the archive built from them, the reader's state and what each key
  does to it, the themes, and the layout of every line on the screen.
- `app/` is the terminal program around it: it reads the data directory and
  the settings, runs the event loop with crossterm, draws with ratatui, and
  applies the fade and flash animations.

The data directory holds one subdirectory per translation (such as `kjv`),
each with one JSON file per book, and `plan.json`: one list per day of
`[book, chapter]` pairs.
