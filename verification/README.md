# croner

A cron pattern library whose logic is proved correct with Verus.

It parses cron patterns (five to seven fields, nicknames such as `@daily`,
ranges, steps, lists, `L`, `W`, `LW`, `#`, `?` and a leading `+` in the
day of week), matches dates and times
against them, searches forward and backward for the next occurrence, walks
occurrences in turn, describes a pattern in English or Swedish, and decides
when a scheduled job runs.

## Layout

- `src/` holds the verified library. Its contracts state what each public
  function returns. Where a result comes from a time zone backend (how a
  zone resolves a wall clock time, whether a step in time overflows), the
  contract states what the library does with every answer the backend may
  give: which instant a search picks in a repeated or skipped hour, and
  that no earlier matching time was passed over. Success is promised where
  no backend answer decides it, such as for times with a fixed offset. The
  laws that span several functions (a found occurrence matches the pattern
  and nothing before it does, searching forward then backward returns to
  the start, parsing gives a pattern that can be described, and others) are
  public proof functions.
  - `component.rs`: one field of a pattern, as a set of allowed values and
    special markers.
  - `parser.rs`: text to pattern, with the parser's options.
  - `pattern.rs`: the pattern and what it means for a date and time to match.
  - `search.rs`: finding occurrences, with the proof that the first match is
    found.
  - `iterator.rs`: occurrences one after another.
  - `describe/`: a pattern in words.
  - `time/`: the calendar, civil dates and times, and the trait through which
    a time zone backend plugs in.
  - `scheduler.rs`: the decisions of a scheduler, tick by tick.
- `app/` holds what Verus does not see: the `chrono` and `jiff` backends,
  `Display`, `FromStr` and serde for `Cron`, and a scheduler that runs a job
  on a pool of threads.
- `tests/` holds the tests, run against the compiled library.
