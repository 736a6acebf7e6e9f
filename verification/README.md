# sglib04

Grid-planning data library for the PEA distribution network: it indexes the
network nodes of the GIS extracts, attaches transformers, meters, switches,
producers and charging stations to them, groups records by area, substation
and feeder, and reads the layout of the planning spreadsheets.

- `src/` is the verified library (Verus). Every public function carries a
  contract; the cross-function properties stand as public proof functions
  (`lemma_*`).
  - `geo1`: node numbers (bit interleaving of grid cells, text identifiers),
    snapping onto sorted node lists, nodes of the line layers, attachment of
    equipment, connection records.
  - `geo2`: area and month tables, charging-station and producer sheets,
    substations with their feeders, bills of each meter, transformers of the
    connection records.
  - `geo3`: office area codes, place-name keys, province of layer records.
  - `geo4`: power-producer kinds, plan rows, low-voltage solar sheet layouts.
  - `der`: substation of each power producer.
  - `ld1`: substation assessment counts, office ranking, zone weights,
    representative load profiles.
  - `aoj`, `group`, `pattern`, `text`: zone table, per-substation office and
    zone sets, grouping by key, regular-expression calls, text helpers.
- `app/` holds the file, spreadsheet and floating-point side: serialized
  record types, coordinate conversions and the passes that read extracts and
  hand every decision to the library.
- `tests/` exercises the library on concrete values.
