pub mod battery_service;
pub mod notification_service;
