# mft_timeline

A verified engine for NTFS `$MFT` (Master File Table) forensics: it turns a collected
`$MFT` image into decoded records, reconstructed paths, both MACB timestamp quads, a
timestomp score, and the rows of a filesystem timeline.

The library under `src/` is written in Verus. Every function but the
wrappers named below carries a contract that Verus proves, and the properties that span
functions are proved as `law_*` functions beside the code they speak of.

## Modules

| module | what it holds |
|---|---|
| `bytes`, `text`, `json` | little-endian fields; text helpers over character sequences; JSON strings and arrays |
| `entry`, `errors` | a FILE record as the `mft` crate parses it, fixup included |
| `attribute`, `hazard` | the attribute chain: bounds check, hazards, parsed attributes |
| `record`, `parse` | a record assembled from its attributes; parsing that always returns |
| `standard_info`, `file_name`, `data`, `filetime` | the decoded attribute contents |
| `decoder` | an image: stride, slots, records, verdicts, the parent index |
| `resolver` | path reconstruction, bounded against loops and depth |
| `timestomp` | the SI-vs-FN heuristic |
| `cursor`, `scan`, `batches` | the resumable scan over many sources, batch by batch, and the laws of its batches |
| `timeline`, `record_table`, `scalars`, `fan_out`, `columns` | the columns of every SQL result, and the input cells |
| `options`, `meta` | arguments and discovery tags |
| `synth`, `read_back` | a record builder, and the proof that the decoder reads back what it writes |

## What is trusted

The byte-level parse of a record is delegated to the `mft` crate. The calls into it
stand in five wrappers (`parse_entry` in `entry`; `attribute_heads`, `attribute_infos`,
`attribute_names` and `attribute_data` in `attribute`), each with a contract that is
believed, not proved, and that says what is claimed of the call. One function of the
standard library, `String::push`, has its contract stated in `text`.

Records on which the `mft` parser would panic or loop are found out beforehand by
verified code, and become a diagnostic.

`app/` is the DuckDB worker around the library: Arrow arrays, files, globs, the
serialized scan state, and the catalog.
