pub mod hid_manager;
pub mod inzone_hub;
pub mod inzone_parser;
