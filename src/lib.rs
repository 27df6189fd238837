//! A verified core for a two-dimensional hide-and-seek simulation: exact
//! integer geometry for occlusion-aware vision, agent motion with wall
//! reflection, a small weight-perturbed controller network, and the
//! generation turnover that breeds hiders from the longest survivor.
pub mod geometry;
pub mod vision;
pub mod motion;
pub mod network;
pub mod agents;
pub mod selection;
