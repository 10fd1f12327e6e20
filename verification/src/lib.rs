pub mod build;
pub mod classmap;
pub mod cli;
pub mod css;
pub mod env;
pub mod error;
pub mod js;
pub mod metadata;
pub mod paths;
pub mod plan;
pub mod release;
pub mod scaffold;
pub mod text;
pub mod transpile;
pub mod util;
