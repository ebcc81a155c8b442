# kinsaga

A family chronicle library: persons, their timestamped and categorized life
events (facts), and the operations on them (adding, editing and removing
facts and persons, timelines, search, validation, merging, GPS checks).

- `src/` is the library, written in Verus. Every public function carries a
  contract over a mathematical model of the data (`View` of each type), and
  the laws that relate several operations are public proof functions next
  to the code they speak of. Calls into outside crates (`uuid`, `url`,
  `jiff`, `regex`, `rust_iso3166`) go through small trusted wrappers whose
  doc comments say what is assumed of them.
- `app/` is the command-line program around it: argument parsing, file I/O
  (JSON with serde, atomic saves), and the Nominatim HTTP client. It holds
  a serde copy of the data model and converts to and from the library's
  types.
- `tests/` exercises the library from outside.

In the library, GPS coordinates are decimal text rather than floating-point
numbers; the program converts them to and from JSON numbers.
