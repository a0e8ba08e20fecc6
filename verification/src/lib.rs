//! Vaultwarden to Kubernetes secret synchronisation.
pub mod config;
pub mod controller;
pub mod crd;
pub mod duration;
pub mod health;
pub mod leader;
pub mod outside;
pub mod string_map;
pub mod text;
pub mod vault;
