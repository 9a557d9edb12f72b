# gdtf

The object model of descriptions in the General Device Type Format (GDTF), the text forms of its
value types, and the checks that a description is consistent, each with a contract proved by
Verus.

- `src/` is the library. `values`, `text` and `fields` hold the value types (names, links, DMX
  addresses and values, versions) and their text forms; `physical_descriptions`, `wheel`,
  `model`, `geometry`, `attribute`, `dmx_mode`, `fixture_type` and `description` hold the object
  model, its lookups by name and its validation; `resource` indexes the resources packed into a
  file; `validation` holds the results of the checks.
- `tests/` runs the library on concrete descriptions.
- `app/` reads and writes files around the library: the zip archive, the XML form of a
  description (through serde copies of the model) and the numbers written in floating point,
  which the library keeps as IEEE 754 bit patterns.
