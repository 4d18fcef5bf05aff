//! The layout engine of a linker: output sections and their parts, the order in which they are
//! emitted, the addresses that they get, and the decisions that lead up to that.
use vstd::prelude::*;

pub mod address_laws;
pub mod alignment;
pub mod alignment_laws;
pub mod allocation_laws;
pub mod bytes;
pub mod compute_layout;
pub mod dependency_file;
pub mod discovery_laws;
pub mod emission_laws;
pub mod emitted_sections;
pub mod expression;
pub mod expression_eval;
pub mod extent_laws;
pub mod file_id;
pub mod glob_patterns;
pub mod group_activation;
pub mod group_laws;
pub mod group_layout;
pub mod group_sizes;
pub mod group_tables;
pub mod groups;
pub mod hash_maps;
pub mod incremental_plan;
pub mod input_order;
pub mod input_sections;
pub mod internal_symbols;
pub mod layout_laws;
pub mod layout_queries;
pub mod layout_sections;
pub mod layout_state;
pub mod link_laws;
pub mod link_options;
pub mod link_steps;
pub mod linker_symbol_laws;
pub mod loading_laws;
pub mod macho_attributes;
pub mod macho_imports;
pub mod macho_laws;
pub mod macho_objects;
pub mod macho_order;
pub mod macho_order_laws;
pub mod macho_section_laws;
pub mod macho_sections;
pub mod macho_segments;
pub mod macho_sizes;
pub mod macho_symbols;
pub mod macho_writer;
pub mod memory_regions;
pub mod object_layout;
pub mod only_if;
pub mod output_kind;
pub mod output_order;
pub mod output_section_id;
pub mod output_section_laws;
pub mod output_section_map;
pub mod output_section_part_map;
pub mod output_sections;
pub mod output_sections_update;
pub mod part_alignment;
pub mod part_buffers;
pub mod part_placement;
pub mod placement_laws;
pub mod plugin_discovery;
pub mod plugin_laws;
pub mod plugin_protocol;
pub mod plugin_symbols;
pub mod program_segments;
pub mod query_laws;
pub mod record_layout;
pub mod reference_graph;
pub mod reference_laws;
pub mod relax_deltas;
pub mod relaxation;
pub mod relaxation_laws;
pub mod relaxation_loop;
pub mod relaxation_pass;
pub mod relocation_laws;
pub mod resolution;
pub mod resolution_writer;
pub mod script_laws;
pub mod script_section_laws;
pub mod secondary_sections;
pub mod section_classes;
pub mod section_loading;
pub mod section_positions;
pub mod section_rules;
pub mod section_start;
pub mod segment_alignments;
pub mod segment_laws;
pub mod segment_layout;
pub mod small_lists;
pub mod sorted_sections;
pub mod sparse_parts;
pub mod stable_order;
pub mod symbol_addresses;
pub mod symbol_id;
pub mod symbol_resolution;
pub mod symbol_rule_laws;
pub mod symbol_rules;
pub mod table_laws;
pub mod take_cells;
pub mod undefined_symbols;
pub mod undefined_symbols_laws;
pub mod value_flags;
pub mod work_queue;

verus! {

} // verus!
