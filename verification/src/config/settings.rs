//! User settings and their defaults.
use vstd::prelude::*;

verus! {

/// Directory, relative to the working directory, that holds the settings file.
pub const SETTINGS_DIR: &'static str = "config";

/// Name of the settings file inside `SETTINGS_DIR`.
pub const SETTINGS_FILE_NAME: &'static str = "settings.json";

/// Settings read from `config/settings.json`.
#[derive(Clone, Debug)]
pub struct Settings {
    pub low_battery_threshold: u8,
    pub poll_interval_ms: u64,
    pub vendor_id: u16,
    pub product_id: Option<u16>,
    pub interface_number: Option<i32>,
    pub usage_page: Option<u16>,
    pub usage: Option<u16>,
    pub feature_report_ids: Vec<u8>,
    pub feature_report_size: usize,
}

impl Default for Settings {
    fn default() -> (s: Self)
        ensures
            s.low_battery_threshold == 20,
            s.poll_interval_ms == 60_000,
            s.vendor_id == 0x054c,
            s.product_id == Some(0x0ec2u16),
            s.interface_number == Some(5i32),
            s.usage_page == Some(0xff03u16),
            s.usage == Some(0x0020u16),
            s.feature_report_ids@ == seq![0xA0u8, 0xA1u8],
            s.feature_report_size == 256,
    {
        Settings {
            low_battery_threshold: 20,
            poll_interval_ms: 60_000,
            vendor_id: default_vendor_id(),
            product_id: default_product_id(),
            interface_number: default_interface_number(),
            usage_page: default_usage_page(),
            usage: default_usage(),
            feature_report_ids: default_feature_report_ids(),
            feature_report_size: default_feature_report_size(),
        }
    }
}

/// Sony's USB vendor ID.
pub fn default_vendor_id() -> (v: u16)
    ensures
        v == 0x054c,
{
    0x054c
}

/// The INZONE Buds dongle's product ID.
pub fn default_product_id() -> (p: Option<u16>)
    ensures
        p == Some(0x0ec2u16),
{
    Some(0x0ec2)
}

pub fn default_interface_number() -> (i: Option<i32>)
    ensures
        i == Some(5i32),
{
    Some(5)
}

pub fn default_usage_page() -> (p: Option<u16>)
    ensures
        p == Some(0xff03u16),
{
    Some(0xff03)
}

pub fn default_usage() -> (u: Option<u16>)
    ensures
        u == Some(0x0020u16),
{
    Some(0x0020)
}

pub fn default_feature_report_ids() -> (ids: Vec<u8>)
    ensures
        ids@ == seq![0xA0u8, 0xA1u8],
{
    let mut ids = Vec::new();
    ids.push(0xA0);
    ids.push(0xA1);
    ids
}

pub fn default_feature_report_size() -> (n: usize)
    ensures
        n == 256,
{
    256
}

} // verus!
