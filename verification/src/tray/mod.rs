pub mod icon_renderer;
pub mod tray_manager;
