# use_calendar

Proleptic Gregorian calendar helpers, written in Verus: dates, weekdays, months,
years, quarters, inclusive date ranges, Monday-to-Friday business days and simple
daily, weekly, monthly and yearly recurrences. There is no time zone handling and
no holiday calendar.

Every public function carries a contract. They are stated over the model in
`src/civil.rs`:

- a date is a triple (year, month, day) valid under the Gregorian leap-year rule;
- `epoch_day` numbers the days from 1970-01-01, defined directly from the lengths
  of years and months, and proved to count consecutive days;
- calendar order agrees with the order of day numbers, and every day number names
  exactly one date.

The day arithmetic uses era-based (400-year) formulas; their agreement with the
model is proved in `civil.rs` and `date.rs`.

Layout: `civil.rs` (model and lemmas), `date.rs`, `year.rs`, `month.rs`,
`weekday.rs`, `quarter.rs`, `date_range.rs`, `business_day.rs`, `recurrence.rs`;
the crate root re-exports the public items. Tests are under `tests/`.
