//! Continent atlas: climate, lakes, rivers, roads.
pub mod biomes;
pub mod cell_map;
pub mod classify;
pub mod continent;
pub mod cost_laws;
pub mod drainage;
pub mod fault_lists;
pub mod faults;
pub mod features;
pub mod grid;
pub mod hydro;
pub mod inland;
pub mod lake_laws;
pub mod lake_plan;
pub mod lakes;
pub mod landmask;
pub mod massifs;
pub mod network_laws;
pub mod node_laws;
pub mod nodes;
pub mod open_heap;
pub mod pack;
pub mod population;
pub mod preview;
pub mod probe;
pub mod reaches;
pub mod rings;
pub mod river_laws;
pub mod rivers;
pub mod road_laws;
pub mod road_network;
pub mod road_paths;
pub mod road_search;
pub mod roads;
pub mod seeds;
pub mod spur_laws;
pub mod stages;
pub mod types;
pub mod union_find;
pub mod validate;
pub mod validity_laws;
pub mod water_laws;
