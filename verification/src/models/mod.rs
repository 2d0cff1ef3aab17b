pub mod battery_status;
