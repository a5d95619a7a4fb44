pub mod strings;
pub mod order;
pub mod text;
pub mod error;
pub mod numbers;
pub mod tags;
pub mod segments;
pub mod units;
pub mod plan;
pub mod domain;
pub mod paths;
pub mod audio;
pub mod reference;
pub mod validation;
pub mod attempts;
pub mod job;
pub mod layout;
pub mod gpu;
pub mod models;
pub mod speech;
pub mod reports;
pub mod translation;
pub mod preview;
pub mod project;
