# DataLine

A typed, schema-driven store: databases with fields, records with values, and
references that always have two sides. The library decides and computes; what
it decides is carried out on an SQLite file by the program around it.

## How the parts fit

- `src/schema.rs`, `src/registry.rs`: databases, fields and their kinds, and the
  registry that holds them. Adding a reference field adds its counterpart on the
  other database; removing one removes both.
- `src/store.rs`, `src/diff.rs`: every change of the registry comes with the
  steps that persist it, and is taken back where persisting failed. Retyping a
  field migrates the values of its records and reports what was lost.
- `src/records.rs`, `src/relations.rs`, `src/search.rs`, `src/blobs.rs`: records
  and their values, relationships, lookups and blobs.
- `src/codec.rs`, `src/kind.rs`, `src/opening.rs`: how values and kinds are held
  in columns, and how a store is created, brought up to date and loaded.
- `src/steps.rs`, `src/queries.rs`, `src/naming.rs`, `src/sql.rs`: the SQL.
- `src/ffi/`: the same data with every id, hash, date and time as text.
- `app/`: the command-line tour, the store on an SQLite file, and the object
  that other languages call.

## What is proved

Every function states exactly what it returns and when it fails.
`src/tables.rs` models the tables as maps and says what each step does to them;
over that model the `*_laws.rs` files prove what holds of the store as a whole:

- `registry_laws.rs`: ids stay unique and references stay paired.
- `catalogue_laws.rs`: removing a field that was just added undoes adding it,
  fields are found where they are, and a failed duplication says what is missing.
- `persist_laws.rs`: after its steps the tables hold just what the registry
  says, and nothing else has changed.
- `agreement_laws.rs`: so the registry and the tables never disagree.
- `order_laws.rs`: the rows of the fields are numbered along the registry's
  lists, so that they are read in the lists' order.
- `reopen_laws.rs`: opening a store again gives its schema back, the fields of
  every database in their order.
- `store_laws.rs`: what is set is read back, relationships are seen alike from
  both ends and never dangle, and blobs are stored under their hash.
- `relation_laws.rs`: being related is mutual.
- `cell_laws.rs`: every stored cell is read as a value that its field accepts.
- `record_laws.rs`: a record that is read holds a value under every field, and a
  record that is listed is the one that is got by its link.
- `listing_laws.rs`: listing gives every record of a database once, the oldest
  first.
- `blob_laws.rs`: no record holds a handle to bytes that were never written.
- `codec_laws.rs`, `retype_laws.rs`: retyping never fails on what is stored,
  keeps what fits, and names just the records that had a value and have none
  afterwards. Values that have a way back come back as they were.
- `history_laws.rs`: what the store keeps holds of every store that operations
  and reopening lead to, as long as every id that is drawn is a new one.

Numbers are held as the bits of their IEEE 754 form. Reading, printing and
rounding them is left to the caller.
