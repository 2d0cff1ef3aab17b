pub mod analysis;
pub mod args;
pub mod capture;
pub mod compare;
pub mod descriptor;
pub mod format;
pub mod names;
pub mod series;
