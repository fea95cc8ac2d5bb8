pub mod binary32;
pub mod catalog;
pub mod chars;
pub mod checks;
pub mod commands;
pub mod diagnostics;
pub mod docker;
pub mod doctor;
pub mod fit;
pub mod paths;
pub mod profile;
pub mod recommend;
pub mod resolver;
pub mod schema;
pub mod style;
pub mod system;
pub mod text;
