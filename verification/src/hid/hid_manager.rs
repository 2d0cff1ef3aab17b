//! Selecting HID collections: the filter the device list is matched against,
//! and the plain description of one collection.
use vstd::prelude::*;

verus! {

/// Criteria a HID collection must meet; `None` accepts any value.
#[derive(Clone, Copy, Debug, PartialEq, Eq, Structural)]
pub struct HidDeviceFilter {
    pub vendor_id: Option<u16>,
    pub product_id: Option<u16>,
    pub interface_number: Option<i32>,
    pub usage_page: Option<u16>,
    pub usage: Option<u16>,
}

impl Default for HidDeviceFilter {
    fn default() -> (f: Self)
        ensures
            f == (HidDeviceFilter {
                vendor_id: None,
                product_id: None,
                interface_number: None,
                usage_page: None,
                usage: None,
            }),
    {
        HidDeviceFilter {
            vendor_id: None,
            product_id: None,
            interface_number: None,
            usage_page: None,
            usage: None,
        }
    }
}

/// What the device list tells about one HID collection.
#[derive(Clone, Debug)]
pub struct HidDeviceSnapshot {
    pub path: String,
    pub vendor_id: u16,
    pub product_id: u16,
    pub interface_number: i32,
    pub usage_page: u16,
    pub usage: u16,
    pub manufacturer_string: Option<String>,
    pub product_string: Option<String>,
    pub serial_number: Option<String>,
}

/// How an output report reached the device.
#[derive(Clone, Copy, Debug, PartialEq, Eq, Structural)]
pub enum OutputReportSendMethod {
    SetOutputReport,
    WriteFile,
}

/// A criterion that is absent accepts everything; a present one asks for equality.
pub open spec fn accepts<T>(wanted: Option<T>, actual: T) -> bool {
    match wanted {
        Some(w) => w == actual,
        None => true,
    }
}

impl HidDeviceFilter {
    pub open spec fn admits(self, device: HidDeviceSnapshot) -> bool {
        &&& accepts(self.vendor_id, device.vendor_id)
        &&& accepts(self.product_id, device.product_id)
        &&& accepts(self.interface_number, device.interface_number)
        &&& accepts(self.usage_page, device.usage_page)
        &&& accepts(self.usage, device.usage)
    }
}

/// The error reported when neither way of sending an output report worked:
/// `failed to send output report; HidD_SetOutputReport=<first>; WriteFile=<second>`.
pub fn output_send_failure_message(set_output_error: &str, write_error: &str) -> (m: String)
    ensures
        m@ == "failed to send output report; HidD_SetOutputReport="@ + set_output_error@
            + "; WriteFile="@ + write_error@,
{
    let mut m = String::from_str("failed to send output report; HidD_SetOutputReport=");
    m.append(set_output_error);
    m.append("; WriteFile=");
    m.append(write_error);
    m
}

/// Whether the collection meets every criterion of the filter.
pub fn device_matches(device: &HidDeviceSnapshot, filter: &HidDeviceFilter) -> (m: bool)
    ensures
        m == filter.admits(*device),
{
    let vendor_ok = match filter.vendor_id {
        Some(v) => device.vendor_id == v,
        None => true,
    };
    let product_ok = match filter.product_id {
        Some(p) => device.product_id == p,
        None => true,
    };
    let interface_ok = match filter.interface_number {
        Some(i) => device.interface_number == i,
        None => true,
    };
    let usage_page_ok = match filter.usage_page {
        Some(p) => device.usage_page == p,
        None => true,
    };
    let usage_ok = match filter.usage {
        Some(u) => device.usage == u,
        None => true,
    };
    vendor_ok && product_ok && interface_ok && usage_page_ok && usage_ok
}

} // verus!
