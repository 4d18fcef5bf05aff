# libwild

The core of a linker, verified with [Verus](https://github.com/verus-lang/verus): symbol
resolution, garbage collection of sections, section and segment layout, relaxation, and the Mach-O
output format.

## Layout

- `src/` is the library. Functions have contracts, those that implement a trait the ones of the
  trait, and Verus proves them. What is proved about several functions together is stated in public
  proof functions whose names start with `lemma_`. Calls into other crates (`hashbrown`, `smallvec`,
  `atomic-take`, `sharded-vec-writer`, `glob`), and into three functions of the standard library
  (`str::from_utf8` in `glob_patterns`, `String::from_utf8_lossy` in `plugin_symbols`,
  `BTreeMap::get_mut` in `sparse_parts`), go through small wrappers whose contracts are trusted;
  their doc comments say what is claimed.
- `tests/` runs the library on concrete values, with the real outside crates.
- `app/` is ordinary Rust around the library: files, threads, environment variables and the
  functions that linker plugins call. Work that depends on an object file format is done by the
  implementor of `Phases`. The one for Mach-O lays the file out; reading object files, resolving
  their symbols and writing the output are up to its `FrontEnd`, and what is kept of a link for the
  next one is up to a `Session`.
- `extras/plugin_message_shim.c` formats the messages of linker plugins, which are passed like the
  arguments of `printf`.

## Modules

- Identifiers and tables: `file_id`, `symbol_id`, `output_section_id`, `output_section_map`,
  `output_section_part_map`, `sparse_parts`, `part_buffers`, `alignment`, `value_flags`,
  `hash_maps`, `small_lists`, `take_cells`, `bytes`, `stable_order`.
- Linker script expressions: `expression`, `expression_eval`, `memory_regions`.
- Output sections: `output_sections`, `output_sections_update`, `output_order`, `section_classes`,
  `section_rules`, `glob_patterns`, `only_if`, `output_kind`, `program_segments`,
  `emitted_sections`.
- Layout: `compute_layout`, `layout_sections`, `section_start`, `part_placement`, `layout_state`,
  `segment_layout`, `segment_alignments`, `secondary_sections`, `sorted_sections`, `layout_laws`,
  `segment_laws`, `emission_laws`, `layout_queries`, `record_layout`, `part_alignment`, `input_order`.
- Symbols and garbage collection: `symbol_resolution`, `undefined_symbols`,
  `undefined_symbols_laws`, `symbol_rules`,
  `reference_graph`, `work_queue`, `group_activation`, `section_loading`.
- Addresses and relaxation: `groups`, `group_sizes`, `group_layout`, `group_tables`,
  `resolution_writer`, `allocation_laws`, `object_layout`, `internal_symbols`, `resolution`,
  `symbol_addresses`, `section_positions`, `input_sections`, `relaxation`, `relaxation_pass`,
  `relaxation_loop`, `relax_deltas`.
- Mach-O: the modules whose names start with `macho_`.
- The steps of a link and linker plugins: `link_steps`, `link_options`, `dependency_file`,
  `incremental_plan`, and the modules whose names start with `plugin_`.
