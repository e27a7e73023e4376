pub mod text;
pub mod validation;
pub mod topo;
pub mod graph;
pub mod metadata;
pub mod ops;
pub mod training;
pub mod chat;
pub mod auth;
pub mod api;
pub mod datasets;
pub mod ids;
pub mod inference;
pub mod json_shape;
pub mod nested;
