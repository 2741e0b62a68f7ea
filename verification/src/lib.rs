//! Document model and editing rules of a vector animation editor: layer
//! stacks, node-editor graphs and their evaluation order, keyframe tracks
//! and node animations, stack-formula parsing, and export settings.

pub mod text;
pub mod seqs;
pub mod ids;
pub mod float_bits;

pub mod document;
pub mod node;
pub mod node_store;
pub mod style;
pub mod path_effects;
pub mod effect_map;
pub mod shading;
pub mod flowchart;
pub mod music;

pub mod ports;
pub mod node_map;
pub mod node_graph;
pub mod graph_eval;
pub mod graph_output;

pub mod expr;
pub mod animation;
pub mod track_map;
pub mod node_animation;

pub mod media;
pub mod av_clip;
pub mod timeline;
pub mod export_types;
pub mod export_job;
