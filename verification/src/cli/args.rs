//! The command line: which investigation command to run, with its options.
use vstd::prelude::*;

use crate::config::settings::Settings;
use crate::hid::hid_manager::HidDeviceFilter;
use crate::numeric::{
    is_radix_digit, lemma_hex_text_digits, parse_i32_chars, parse_unsigned_chars, parsed_i32,
    parsed_unsigned,
};
use crate::text::{hex_text, str_chars};

verus! {

#[derive(Debug, Clone, Copy)]
pub struct HidListArgs {
    pub filter: HidDeviceFilter,
}

#[derive(Debug, Clone)]
pub struct HidDumpArgs {
    pub filter: HidDeviceFilter,
    pub count: usize,
    pub timeout_ms: i32,
    pub output_dir: String,
}

#[derive(Debug, Clone)]
pub struct CompareDumpsArgs {
    pub left: String,
    pub right: String,
}

#[derive(Debug, Clone)]
pub struct CaptureStateArgs {
    pub label: String,
    pub count: usize,
    pub timeout_ms: i32,
    pub all_collections: bool,
}

#[derive(Debug, Clone)]
pub struct CompareStateDirsArgs {
    pub left_dir: String,
    pub right_dir: String,
}

#[derive(Debug, Clone)]
pub struct CaptureFeatureSeriesArgs {
    pub label: String,
    pub samples: usize,
    pub interval_ms: u64,
    pub all_collections: bool,
}

#[derive(Debug, Clone)]
pub struct AnalyzeFeatureSeriesArgs {
    pub series_dir: String,
}

#[derive(Debug, Clone, Copy)]
pub struct QueryHubBatteryArgs {
    pub count: usize,
    pub timeout_ms: i32,
    pub interval_ms: u64,
}

/// What the program was asked to do.
#[derive(Debug)]
pub enum Command {
    Tray,
    ListHid(HidListArgs),
    DumpHid(HidDumpArgs),
    CompareDumps(CompareDumpsArgs),
    CaptureState(CaptureStateArgs),
    CompareStateDirs(CompareStateDirsArgs),
    CaptureFeatureSeries(CaptureFeatureSeriesArgs),
    AnalyzeFeatureSeries(AnalyzeFeatureSeriesArgs),
    QueryHubBattery(QueryHubBatteryArgs),
}

/// Why the command line was not accepted. `SettingsRequired` asks the caller
/// to load the settings and parse again with the filter they give (`--inzone`).
#[derive(Debug)]
pub enum CliError {
    Usage(String),
    SettingsRequired,
}

/// A command with its strings taken as character sequences.
pub enum CommandView {
    Tray,
    ListHid { filter: HidDeviceFilter },
    DumpHid { filter: HidDeviceFilter, count: usize, timeout_ms: i32, output_dir: Seq<char> },
    CompareDumps { left: Seq<char>, right: Seq<char> },
    CaptureState { label: Seq<char>, count: usize, timeout_ms: i32, all_collections: bool },
    CompareStateDirs { left_dir: Seq<char>, right_dir: Seq<char> },
    CaptureFeatureSeries {
        label: Seq<char>,
        samples: usize,
        interval_ms: u64,
        all_collections: bool,
    },
    AnalyzeFeatureSeries { series_dir: Seq<char> },
    QueryHubBattery { count: usize, timeout_ms: i32, interval_ms: u64 },
}

pub enum CliErrorView {
    Usage(Seq<char>),
    SettingsRequired,
}

impl View for Command {
    type V = CommandView;

    open spec fn view(&self) -> CommandView {
        match self {
            Command::Tray => CommandView::Tray,
            Command::ListHid(a) => CommandView::ListHid { filter: a.filter },
            Command::DumpHid(a) => CommandView::DumpHid {
                filter: a.filter,
                count: a.count,
                timeout_ms: a.timeout_ms,
                output_dir: a.output_dir@,
            },
            Command::CompareDumps(a) => CommandView::CompareDumps { left: a.left@, right: a.right@ },
            Command::CaptureState(a) => CommandView::CaptureState {
                label: a.label@,
                count: a.count,
                timeout_ms: a.timeout_ms,
                all_collections: a.all_collections,
            },
            Command::CompareStateDirs(a) => CommandView::CompareStateDirs {
                left_dir: a.left_dir@,
                right_dir: a.right_dir@,
            },
            Command::CaptureFeatureSeries(a) => CommandView::CaptureFeatureSeries {
                label: a.label@,
                samples: a.samples,
                interval_ms: a.interval_ms,
                all_collections: a.all_collections,
            },
            Command::AnalyzeFeatureSeries(a) => CommandView::AnalyzeFeatureSeries {
                series_dir: a.series_dir@,
            },
            Command::QueryHubBattery(a) => CommandView::QueryHubBattery {
                count: a.count,
                timeout_ms: a.timeout_ms,
                interval_ms: a.interval_ms,
            },
        }
    }
}

impl View for CliError {
    type V = CliErrorView;

    open spec fn view(&self) -> CliErrorView {
        match self {
            CliError::Usage(m) => CliErrorView::Usage(m@),
            CliError::SettingsRequired => CliErrorView::SettingsRequired,
        }
    }
}

impl CliError {
    /// The text shown to the user.
    pub fn message(&self) -> (m: String)
        ensures
            self@ matches CliErrorView::Usage(text) ==> m@ == text,
            self@ is SettingsRequired ==> m@ == "settings are required to resolve --inzone"@,
    {
        match self {
            CliError::Usage(m) => m.clone(),
            CliError::SettingsRequired => String::from_str("settings are required to resolve --inzone"),
        }
    }
}

pub open spec fn token_views(args: Seq<String>) -> Seq<Seq<char>> {
    args.map_values(|s: String| s@)
}

pub open spec fn missing_value_message(flag: Seq<char>) -> Seq<char> {
    "missing value for "@ + flag
}

pub open spec fn invalid_value_message(flag: Seq<char>) -> Seq<char> {
    "invalid "@ + flag + " value"@
}

pub open spec fn unknown_option_message(token: Seq<char>) -> Seq<char> {
    "unknown option: "@ + token
}

pub open spec fn invalid_hex_message(token: Seq<char>) -> Seq<char> {
    "invalid hex value: "@ + token
}

/// `s` without one leading `0x` or `0X`.
pub open spec fn without_hex_prefix(s: Seq<char>) -> Seq<char> {
    if s.len() >= 2 && s[0] == '0' && (s[1] == 'x' || s[1] == 'X') {
        s.skip(2)
    } else {
        s
    }
}

/// A 16-bit value written in hexadecimal, with or without `0x`.
pub open spec fn parsed_hex_u16(s: Seq<char>) -> Option<nat> {
    parsed_unsigned(without_hex_prefix(s), 16, 0xFFFF)
}

/// The value after the flag at `i`, read as a `usize`.
pub open spec fn usize_after(t: Seq<Seq<char>>, i: int, flag: Seq<char>) -> Result<usize, Seq<char>> {
    if t.len() - i <= 1 {
        Err(missing_value_message(flag))
    } else {
        match parsed_unsigned(t[i + 1], 10, usize::MAX as nat) {
            Some(v) => Ok(v as usize),
            None => Err(invalid_value_message(flag)),
        }
    }
}

/// The value after the flag at `i`, read as an `i32`.
pub open spec fn i32_after(t: Seq<Seq<char>>, i: int, flag: Seq<char>) -> Result<i32, Seq<char>> {
    if t.len() - i <= 1 {
        Err(missing_value_message(flag))
    } else {
        match parsed_i32(t[i + 1]) {
            Some(v) => Ok(v as i32),
            None => Err(invalid_value_message(flag)),
        }
    }
}

/// The value after the flag at `i`, read as a `u64`.
pub open spec fn u64_after(t: Seq<Seq<char>>, i: int, flag: Seq<char>) -> Result<u64, Seq<char>> {
    if t.len() - i <= 1 {
        Err(missing_value_message(flag))
    } else {
        match parsed_unsigned(t[i + 1], 10, u64::MAX as nat) {
            Some(v) => Ok(v as u64),
            None => Err(invalid_value_message(flag)),
        }
    }
}

/// The value after the flag at `i`, read as hexadecimal `u16`.
pub open spec fn hex_after(t: Seq<Seq<char>>, i: int, flag: Seq<char>) -> Result<u16, Seq<char>> {
    if t.len() - i <= 1 {
        Err(missing_value_message(flag))
    } else {
        match parsed_hex_u16(t[i + 1]) {
            Some(v) => Ok(v as u16),
            None => Err(invalid_hex_message(t[i + 1])),
        }
    }
}

/// The filter built by the options from `i` on, starting from `f`; `inzone`
/// is the configured filter that `--inzone` stands for, when known.
pub open spec fn scan_filter(
    t: Seq<Seq<char>>,
    i: int,
    f: HidDeviceFilter,
    inzone: Option<HidDeviceFilter>,
) -> Result<HidDeviceFilter, CliErrorView>
    decreases t.len() - i,
{
    if i < 0 || i >= t.len() {
        Ok(f)
    } else if t[i] == "--vendor"@ {
        match hex_after(t, i, "--vendor"@) {
            Ok(v) => scan_filter(t, i + 2, HidDeviceFilter { vendor_id: Some(v), ..f }, inzone),
            Err(m) => Err(CliErrorView::Usage(m)),
        }
    } else if t[i] == "--product"@ {
        match hex_after(t, i, "--product"@) {
            Ok(v) => scan_filter(t, i + 2, HidDeviceFilter { product_id: Some(v), ..f }, inzone),
            Err(m) => Err(CliErrorView::Usage(m)),
        }
    } else if t[i] == "--interface"@ {
        match i32_after(t, i, "--interface"@) {
            Ok(v) => scan_filter(
                t,
                i + 2,
                HidDeviceFilter { interface_number: Some(v), ..f },
                inzone,
            ),
            Err(m) => Err(CliErrorView::Usage(m)),
        }
    } else if t[i] == "--usage-page"@ {
        match hex_after(t, i, "--usage-page"@) {
            Ok(v) => scan_filter(t, i + 2, HidDeviceFilter { usage_page: Some(v), ..f }, inzone),
            Err(m) => Err(CliErrorView::Usage(m)),
        }
    } else if t[i] == "--usage"@ {
        match hex_after(t, i, "--usage"@) {
            Ok(v) => scan_filter(t, i + 2, HidDeviceFilter { usage: Some(v), ..f }, inzone),
            Err(m) => Err(CliErrorView::Usage(m)),
        }
    } else if t[i] == "--inzone"@ {
        match inzone {
            Some(g) => scan_filter(t, i + 1, g, inzone),
            None => Err(CliErrorView::SettingsRequired),
        }
    } else {
        Err(CliErrorView::Usage(unknown_option_message(t[i])))
    }
}

pub open spec fn empty_filter() -> HidDeviceFilter {
    HidDeviceFilter {
        vendor_id: None,
        product_id: None,
        interface_number: None,
        usage_page: None,
        usage: None,
    }
}

/// The filter that the options `t` describe.
pub open spec fn filter_of(t: Seq<Seq<char>>, inzone: Option<HidDeviceFilter>) -> Result<
    HidDeviceFilter,
    CliErrorView,
> {
    scan_filter(t, 0, empty_filter(), inzone)
}

/// The filter for the collection the tray polls, as configured.
pub fn app_device_filter(settings: &Settings) -> (f: HidDeviceFilter)
    ensures
        f == (HidDeviceFilter {
            vendor_id: Some(settings.vendor_id),
            product_id: settings.product_id,
            interface_number: settings.interface_number,
            usage_page: settings.usage_page,
            usage: settings.usage,
        }),
{
    HidDeviceFilter {
        vendor_id: Some(settings.vendor_id),
        product_id: settings.product_id,
        interface_number: settings.interface_number,
        usage_page: settings.usage_page,
        usage: settings.usage,
    }
}

/// The collections a capture opens: every collection of the configured
/// device when `all_collections` is set, otherwise the configured one.
pub fn capture_device_filter(settings: &Settings, all_collections: bool) -> (f: HidDeviceFilter)
    ensures
        f == if all_collections {
            HidDeviceFilter {
                vendor_id: Some(settings.vendor_id),
                product_id: settings.product_id,
                interface_number: None,
                usage_page: None,
                usage: None,
            }
        } else {
            HidDeviceFilter {
                vendor_id: Some(settings.vendor_id),
                product_id: settings.product_id,
                interface_number: settings.interface_number,
                usage_page: settings.usage_page,
                usage: settings.usage,
            }
        },
{
    if all_collections {
        HidDeviceFilter {
            vendor_id: Some(settings.vendor_id),
            product_id: settings.product_id,
            interface_number: None,
            usage_page: None,
            usage: None,
        }
    } else {
        app_device_filter(settings)
    }
}

/// Whether `token` reads `text`.
fn is_token(token: &String, text: &str) -> (b: bool)
    ensures
        b == (token@ == text@),
{
    *token == String::from_str(text)
}

fn usage_error(message: String) -> (e: CliError)
    ensures
        e@ == CliErrorView::Usage(message@),
{
    CliError::Usage(message)
}

fn missing_value(flag: &str) -> (e: CliError)
    ensures
        e@ == CliErrorView::Usage(missing_value_message(flag@)),
{
    let mut m = String::from_str("missing value for ");
    m.append(flag);
    usage_error(m)
}

fn invalid_value(flag: &str) -> (e: CliError)
    ensures
        e@ == CliErrorView::Usage(invalid_value_message(flag@)),
{
    let mut m = String::from_str("invalid ");
    m.append(flag);
    m.append(" value");
    usage_error(m)
}

fn unknown_option(token: &String) -> (e: CliError)
    ensures
        e@ == CliErrorView::Usage(unknown_option_message(token@)),
{
    let mut m = String::from_str("unknown option: ");
    m.append(token.as_str());
    usage_error(m)
}

fn usize_value(t: &Vec<String>, i: usize, flag: &str) -> (r: Result<usize, CliError>)
    requires
        i < t@.len(),
    ensures
        r matches Ok(v) ==> usize_after(token_views(t@), i as int, flag@) == Ok::<usize, Seq<char>>(v),
        r matches Err(e) ==> usize_after(token_views(t@), i as int, flag@) matches Err(m) && e@
            == CliErrorView::Usage(m),
{
    if t.len() - i <= 1 {
        return Err(missing_value(flag));
    }
    let chars = str_chars(t[i + 1].as_str());
    match parse_unsigned_chars(&chars, 10, usize::MAX as u64) {
        Some(v) => Ok(v as usize),
        None => Err(invalid_value(flag)),
    }
}

fn i32_value(t: &Vec<String>, i: usize, flag: &str) -> (r: Result<i32, CliError>)
    requires
        i < t@.len(),
    ensures
        r matches Ok(v) ==> i32_after(token_views(t@), i as int, flag@) == Ok::<i32, Seq<char>>(v),
        r matches Err(e) ==> i32_after(token_views(t@), i as int, flag@) matches Err(m) && e@
            == CliErrorView::Usage(m),
{
    if t.len() - i <= 1 {
        return Err(missing_value(flag));
    }
    let chars = str_chars(t[i + 1].as_str());
    match parse_i32_chars(&chars) {
        Some(v) => Ok(v),
        None => Err(invalid_value(flag)),
    }
}

fn u64_value(t: &Vec<String>, i: usize, flag: &str) -> (r: Result<u64, CliError>)
    requires
        i < t@.len(),
    ensures
        r matches Ok(v) ==> u64_after(token_views(t@), i as int, flag@) == Ok::<u64, Seq<char>>(v),
        r matches Err(e) ==> u64_after(token_views(t@), i as int, flag@) matches Err(m) && e@
            == CliErrorView::Usage(m),
{
    if t.len() - i <= 1 {
        return Err(missing_value(flag));
    }
    let chars = str_chars(t[i + 1].as_str());
    match parse_unsigned_chars(&chars, 10, u64::MAX) {
        Some(v) => Ok(v),
        None => Err(invalid_value(flag)),
    }
}

fn hex_value(t: &Vec<String>, i: usize, flag: &str) -> (r: Result<u16, CliError>)
    requires
        i < t@.len(),
    ensures
        r matches Ok(v) ==> hex_after(token_views(t@), i as int, flag@) == Ok::<u16, Seq<char>>(v),
        r matches Err(e) ==> hex_after(token_views(t@), i as int, flag@) matches Err(m) && e@
            == CliErrorView::Usage(m),
{
    if t.len() - i <= 1 {
        return Err(missing_value(flag));
    }
    parse_u16_hex(&t[i + 1])
}

/// Reads a 16-bit hexadecimal value, with or without `0x`/`0X`.
pub fn parse_u16_hex(value: &String) -> (r: Result<u16, CliError>)
    ensures
        r matches Ok(v) ==> parsed_hex_u16(value@) == Some(v as nat),
        r matches Err(e) ==> parsed_hex_u16(value@) is None && e@ == CliErrorView::Usage(
            invalid_hex_message(value@),
        ),
{
    let chars = str_chars(value.as_str());
    let digits: Vec<char> = if chars.len() >= 2 && chars[0] == '0' && (chars[1] == 'x' || chars[1]
        == 'X') {
        skip_chars(&chars, 2)
    } else {
        chars
    };
    match parse_unsigned_chars(&digits, 16, 0xFFFF) {
        Some(v) => Ok(v as u16),
        None => {
            let mut m = String::from_str("invalid hex value: ");
            m.append(value.as_str());
            Err(usage_error(m))
        },
    }
}

/// `chars` without its first `n` characters.
pub fn skip_chars(chars: &Vec<char>, n: usize) -> (out: Vec<char>)
    requires
        n <= chars@.len(),
    ensures
        out@ == chars@.skip(n as int),
{
    let mut out: Vec<char> = Vec::new();
    let mut i: usize = n;
    while i < chars.len()
        invariant
            n <= i <= chars@.len(),
            out@ == chars@.subrange(n as int, i as int),
        decreases chars.len() - i,
    {
        out.push(chars[i]);
        i = i + 1;
        assert(out@ =~= chars@.subrange(n as int, i as int));
    }
    assert(chars@.subrange(n as int, i as int) =~= chars@.skip(n as int));
    out
}

/// Reads filter options: `--vendor`, `--product`, `--usage-page` and `--usage`
/// take hexadecimal values, `--interface` a decimal one, and `--inzone` sets
/// the configured filter (`inzone`; `SettingsRequired` when not given).
pub fn parse_filter_args(args: Vec<String>, inzone: Option<HidDeviceFilter>) -> (r: Result<
    HidDeviceFilter,
    CliError,
>)
    ensures
        r matches Ok(f) ==> filter_of(token_views(args@), inzone) == Ok::<
            HidDeviceFilter,
            CliErrorView,
        >(f),
        r matches Err(e) ==> filter_of(token_views(args@), inzone) == Err::<
            HidDeviceFilter,
            CliErrorView,
        >(e@),
{
    let ghost t = token_views(args@);
    let mut filter = HidDeviceFilter::default();
    let mut i: usize = 0;
    while i < args.len()
        invariant
            t == token_views(args@),
            i <= args@.len(),
            filter_of(t, inzone) == scan_filter(t, i as int, filter, inzone),
        decreases args.len() - i,
    {
        let token = &args[i];
        assert(t[i as int] == token@);
        if is_token(token, "--vendor") {
            let v = hex_value(&args, i, "--vendor")?;
            filter.vendor_id = Some(v);
            i = i + 2;
        } else if is_token(token, "--product") {
            let v = hex_value(&args, i, "--product")?;
            filter.product_id = Some(v);
            i = i + 2;
        } else if is_token(token, "--interface") {
            let v = i32_value(&args, i, "--interface")?;
            filter.interface_number = Some(v);
            i = i + 2;
        } else if is_token(token, "--usage-page") {
            let v = hex_value(&args, i, "--usage-page")?;
            filter.usage_page = Some(v);
            i = i + 2;
        } else if is_token(token, "--usage") {
            let v = hex_value(&args, i, "--usage")?;
            filter.usage = Some(v);
            i = i + 2;
        } else if is_token(token, "--inzone") {
            match inzone {
                Some(g) => {
                    filter = g;
                    i = i + 1;
                },
                None => {
                    return Err(CliError::SettingsRequired);
                },
            }
        } else {
            return Err(unknown_option(token));
        }
    }
    Ok(filter)
}

/// Options of `dump-hid` from `i` on: `--count`, `--timeout` and
/// `--output-dir`; every other token is kept for the filter.
pub open spec fn scan_dump_hid(
    t: Seq<Seq<char>>,
    i: int,
    count: usize,
    timeout_ms: i32,
    output_dir: Seq<char>,
    filter_tokens: Seq<Seq<char>>,
) -> Result<(usize, i32, Seq<char>, Seq<Seq<char>>), Seq<char>>
    decreases t.len() - i,
{
    if i < 0 || i >= t.len() {
        Ok((count, timeout_ms, output_dir, filter_tokens))
    } else if t[i] == "--count"@ {
        match usize_after(t, i, "--count"@) {
            Ok(v) => scan_dump_hid(t, i + 2, v, timeout_ms, output_dir, filter_tokens),
            Err(m) => Err(m),
        }
    } else if t[i] == "--timeout"@ {
        match i32_after(t, i, "--timeout"@) {
            Ok(v) => scan_dump_hid(t, i + 2, count, v, output_dir, filter_tokens),
            Err(m) => Err(m),
        }
    } else if t[i] == "--output-dir"@ {
        if i + 1 >= t.len() {
            Err(missing_value_message("--output-dir"@))
        } else {
            scan_dump_hid(t, i + 2, count, timeout_ms, t[i + 1], filter_tokens)
        }
    } else {
        scan_dump_hid(t, i + 1, count, timeout_ms, output_dir, filter_tokens.push(t[i]))
    }
}

/// `dump-hid`: 5 samples, 1000 ms timeout and `dumps` unless given.
pub open spec fn dump_hid_command(t: Seq<Seq<char>>, inzone: Option<HidDeviceFilter>) -> Result<
    CommandView,
    CliErrorView,
> {
    match scan_dump_hid(t, 0, 5, 1000, "dumps"@, seq![]) {
        Ok((count, timeout_ms, output_dir, filter_tokens)) => match filter_of(
            filter_tokens,
            inzone,
        ) {
            Ok(filter) => Ok(CommandView::DumpHid { filter, count, timeout_ms, output_dir }),
            Err(e) => Err(e),
        },
        Err(m) => Err(CliErrorView::Usage(m)),
    }
}

/// Options of `capture-state` from `i` on: `--count`, `--timeout`,
/// `--all-collections`, and one label.
pub open spec fn scan_capture_state(
    t: Seq<Seq<char>>,
    i: int,
    count: usize,
    timeout_ms: i32,
    all_collections: bool,
    label: Option<Seq<char>>,
) -> Result<(usize, i32, bool, Option<Seq<char>>), Seq<char>>
    decreases t.len() - i,
{
    if i < 0 || i >= t.len() {
        Ok((count, timeout_ms, all_collections, label))
    } else if t[i] == "--count"@ {
        match usize_after(t, i, "--count"@) {
            Ok(v) => scan_capture_state(t, i + 2, v, timeout_ms, all_collections, label),
            Err(m) => Err(m),
        }
    } else if t[i] == "--timeout"@ {
        match i32_after(t, i, "--timeout"@) {
            Ok(v) => scan_capture_state(t, i + 2, count, v, all_collections, label),
            Err(m) => Err(m),
        }
    } else if t[i] == "--all-collections"@ {
        scan_capture_state(t, i + 1, count, timeout_ms, true, label)
    } else if label is None {
        scan_capture_state(t, i + 1, count, timeout_ms, all_collections, Some(t[i]))
    } else {
        Err(unknown_option_message(t[i]))
    }
}

/// `capture-state`: 1 sample and a 1000 ms timeout unless given; a label is required.
pub open spec fn capture_state_command(t: Seq<Seq<char>>) -> Result<CommandView, CliErrorView> {
    match scan_capture_state(t, 0, 1, 1000, false, None) {
        Ok((count, timeout_ms, all_collections, label)) => match label {
            Some(label) => Ok(CommandView::CaptureState { label, count, timeout_ms, all_collections }),
            None => Err(CliErrorView::Usage("capture-state requires a label"@)),
        },
        Err(m) => Err(CliErrorView::Usage(m)),
    }
}

/// Options of `capture-feature-series` from `i` on: `--samples`,
/// `--interval-ms`, `--all-collections`, and one label.
pub open spec fn scan_feature_series(
    t: Seq<Seq<char>>,
    i: int,
    samples: usize,
    interval_ms: u64,
    all_collections: bool,
    label: Option<Seq<char>>,
) -> Result<(usize, u64, bool, Option<Seq<char>>), Seq<char>>
    decreases t.len() - i,
{
    if i < 0 || i >= t.len() {
        Ok((samples, interval_ms, all_collections, label))
    } else if t[i] == "--samples"@ {
        match usize_after(t, i, "--samples"@) {
            Ok(v) => scan_feature_series(t, i + 2, v, interval_ms, all_collections, label),
            Err(m) => Err(m),
        }
    } else if t[i] == "--interval-ms"@ {
        match u64_after(t, i, "--interval-ms"@) {
            Ok(v) => scan_feature_series(t, i + 2, samples, v, all_collections, label),
            Err(m) => Err(m),
        }
    } else if t[i] == "--all-collections"@ {
        scan_feature_series(t, i + 1, samples, interval_ms, true, label)
    } else if label is None {
        scan_feature_series(t, i + 1, samples, interval_ms, all_collections, Some(t[i]))
    } else {
        Err(unknown_option_message(t[i]))
    }
}

/// `capture-feature-series`: 80 samples 250 ms apart unless given; a label is required.
pub open spec fn feature_series_command(t: Seq<Seq<char>>) -> Result<CommandView, CliErrorView> {
    match scan_feature_series(t, 0, 80, 250, false, None) {
        Ok((samples, interval_ms, all_collections, label)) => match label {
            Some(label) => Ok(
                CommandView::CaptureFeatureSeries { label, samples, interval_ms, all_collections },
            ),
            None => Err(CliErrorView::Usage("capture-feature-series requires a label"@)),
        },
        Err(m) => Err(CliErrorView::Usage(m)),
    }
}

/// Options of `query-hub-battery` from `i` on: `--count`, `--timeout` and `--interval-ms`.
pub open spec fn scan_query_hub(
    t: Seq<Seq<char>>,
    i: int,
    count: usize,
    timeout_ms: i32,
    interval_ms: u64,
) -> Result<(usize, i32, u64), Seq<char>>
    decreases t.len() - i,
{
    if i < 0 || i >= t.len() {
        Ok((count, timeout_ms, interval_ms))
    } else if t[i] == "--count"@ {
        match usize_after(t, i, "--count"@) {
            Ok(v) => scan_query_hub(t, i + 2, v, timeout_ms, interval_ms),
            Err(m) => Err(m),
        }
    } else if t[i] == "--timeout"@ {
        match i32_after(t, i, "--timeout"@) {
            Ok(v) => scan_query_hub(t, i + 2, count, v, interval_ms),
            Err(m) => Err(m),
        }
    } else if t[i] == "--interval-ms"@ {
        match u64_after(t, i, "--interval-ms"@) {
            Ok(v) => scan_query_hub(t, i + 2, count, timeout_ms, v),
            Err(m) => Err(m),
        }
    } else {
        Err(unknown_option_message(t[i]))
    }
}

/// `query-hub-battery`: 1 query, 1000 ms timeout, 1000 ms apart unless given.
pub open spec fn query_hub_command(t: Seq<Seq<char>>) -> Result<CommandView, CliErrorView> {
    match scan_query_hub(t, 0, 1, 1000, 1000) {
        Ok((count, timeout_ms, interval_ms)) => Ok(
            CommandView::QueryHubBattery { count, timeout_ms, interval_ms },
        ),
        Err(m) => Err(CliErrorView::Usage(m)),
    }
}

/// `compare-dumps`: exactly two files.
pub open spec fn compare_dumps_command(t: Seq<Seq<char>>) -> Result<CommandView, CliErrorView> {
    if t.len() != 2 {
        Err(CliErrorView::Usage("compare-dumps expects exactly two file paths"@))
    } else {
        Ok(CommandView::CompareDumps { left: t[0], right: t[1] })
    }
}

/// `compare-state-dirs`: exactly two directories.
pub open spec fn compare_state_dirs_command(t: Seq<Seq<char>>) -> Result<
    CommandView,
    CliErrorView,
> {
    if t.len() != 2 {
        Err(CliErrorView::Usage("compare-state-dirs expects exactly two directories"@))
    } else {
        Ok(CommandView::CompareStateDirs { left_dir: t[0], right_dir: t[1] })
    }
}

/// `analyze-feature-series`: exactly one directory.
pub open spec fn analyze_series_command(t: Seq<Seq<char>>) -> Result<CommandView, CliErrorView> {
    if t.len() != 1 {
        Err(CliErrorView::Usage("analyze-feature-series expects exactly one series directory"@))
    } else {
        Ok(CommandView::AnalyzeFeatureSeries { series_dir: t[0] })
    }
}

/// The whole command line after the program name: no argument runs the tray;
/// otherwise the first one names the command and the rest are its options.
pub open spec fn command_of(t: Seq<Seq<char>>, inzone: Option<HidDeviceFilter>) -> Result<
    CommandView,
    CliErrorView,
> {
    if t.len() == 0 {
        Ok(CommandView::Tray)
    } else {
        let name = t[0];
        let rest = t.drop_first();
        if name == "list-hid"@ {
            match filter_of(rest, inzone) {
                Ok(filter) => Ok(CommandView::ListHid { filter }),
                Err(e) => Err(e),
            }
        } else if name == "dump-hid"@ {
            dump_hid_command(rest, inzone)
        } else if name == "compare-dumps"@ {
            compare_dumps_command(rest)
        } else if name == "capture-state"@ {
            capture_state_command(rest)
        } else if name == "compare-state-dirs"@ {
            compare_state_dirs_command(rest)
        } else if name == "capture-feature-series"@ {
            feature_series_command(rest)
        } else if name == "analyze-feature-series"@ {
            analyze_series_command(rest)
        } else if name == "query-hub-battery"@ {
            query_hub_command(rest)
        } else {
            Err(CliErrorView::Usage("unknown command: "@ + name))
        }
    }
}

fn parse_dump_hid(args: Vec<String>, inzone: Option<HidDeviceFilter>) -> (r: Result<
    Command,
    CliError,
>)
    ensures
        r matches Ok(c) ==> dump_hid_command(token_views(args@), inzone) == Ok::<
            CommandView,
            CliErrorView,
        >(c@),
        r matches Err(e) ==> dump_hid_command(token_views(args@), inzone) == Err::<
            CommandView,
            CliErrorView,
        >(e@),
{
    let ghost t = token_views(args@);
    let mut count: usize = 5;
    let mut timeout_ms: i32 = 1000;
    let mut output_dir = String::from_str("dumps");
    let mut filter_tokens: Vec<String> = Vec::new();
    assert(token_views(filter_tokens@) =~= seq![]);
    let mut i: usize = 0;
    while i < args.len()
        invariant
            t == token_views(args@),
            i <= args@.len(),
            scan_dump_hid(t, 0, 5, 1000, "dumps"@, seq![]) == scan_dump_hid(
                t,
                i as int,
                count,
                timeout_ms,
                output_dir@,
                token_views(filter_tokens@),
            ),
        decreases args.len() - i,
    {
        let token = &args[i];
        assert(t[i as int] == token@);
        if is_token(token, "--count") {
            count = usize_value(&args, i, "--count")?;
            i = i + 2;
        } else if is_token(token, "--timeout") {
            timeout_ms = i32_value(&args, i, "--timeout")?;
            i = i + 2;
        } else if is_token(token, "--output-dir") {
            if args.len() - i <= 1 {
                return Err(missing_value("--output-dir"));
            }
            output_dir = args[i + 1].clone();
            assert(t[i + 1] == output_dir@);
            i = i + 2;
        } else {
            let ghost before = filter_tokens@;
            filter_tokens.push(token.clone());
            assert(token_views(filter_tokens@) =~= token_views(before).push(t[i as int]));
            i = i + 1;
        }
    }
    let filter = parse_filter_args(filter_tokens, inzone)?;
    Ok(Command::DumpHid(HidDumpArgs { filter, count, timeout_ms, output_dir }))
}

fn parse_compare_dumps(args: Vec<String>) -> (r: Result<Command, CliError>)
    ensures
        r matches Ok(c) ==> compare_dumps_command(token_views(args@)) == Ok::<
            CommandView,
            CliErrorView,
        >(c@),
        r matches Err(e) ==> compare_dumps_command(token_views(args@)) == Err::<
            CommandView,
            CliErrorView,
        >(e@),
{
    if args.len() != 2 {
        return Err(usage_error(String::from_str("compare-dumps expects exactly two file paths")));
    }
    Ok(Command::CompareDumps(CompareDumpsArgs { left: args[0].clone(), right: args[1].clone() }))
}

fn parse_capture_state(args: Vec<String>) -> (r: Result<Command, CliError>)
    ensures
        r matches Ok(c) ==> capture_state_command(token_views(args@)) == Ok::<
            CommandView,
            CliErrorView,
        >(c@),
        r matches Err(e) ==> capture_state_command(token_views(args@)) == Err::<
            CommandView,
            CliErrorView,
        >(e@),
{
    let ghost t = token_views(args@);
    let mut count: usize = 1;
    let mut timeout_ms: i32 = 1000;
    let mut all_collections = false;
    let mut label: Option<String> = None;
    let mut i: usize = 0;
    while i < args.len()
        invariant
            t == token_views(args@),
            i <= args@.len(),
            scan_capture_state(t, 0, 1, 1000, false, None) == scan_capture_state(
                t,
                i as int,
                count,
                timeout_ms,
                all_collections,
                option_view(label),
            ),
        decreases args.len() - i,
    {
        let token = &args[i];
        assert(t[i as int] == token@);
        if is_token(token, "--count") {
            count = usize_value(&args, i, "--count")?;
            i = i + 2;
        } else if is_token(token, "--timeout") {
            timeout_ms = i32_value(&args, i, "--timeout")?;
            i = i + 2;
        } else if is_token(token, "--all-collections") {
            all_collections = true;
            i = i + 1;
        } else if label.is_none() {
            label = Some(token.clone());
            i = i + 1;
        } else {
            return Err(unknown_option(token));
        }
    }
    match label {
        Some(label) => Ok(
            Command::CaptureState(CaptureStateArgs { label, count, timeout_ms, all_collections }),
        ),
        None => Err(usage_error(String::from_str("capture-state requires a label"))),
    }
}

pub open spec fn option_view(s: Option<String>) -> Option<Seq<char>> {
    match s {
        Some(s) => Some(s@),
        None => None,
    }
}

fn parse_compare_state_dirs(args: Vec<String>) -> (r: Result<Command, CliError>)
    ensures
        r matches Ok(c) ==> compare_state_dirs_command(token_views(args@)) == Ok::<
            CommandView,
            CliErrorView,
        >(c@),
        r matches Err(e) ==> compare_state_dirs_command(token_views(args@)) == Err::<
            CommandView,
            CliErrorView,
        >(e@),
{
    if args.len() != 2 {
        return Err(
            usage_error(String::from_str("compare-state-dirs expects exactly two directories")),
        );
    }
    Ok(
        Command::CompareStateDirs(
            CompareStateDirsArgs { left_dir: args[0].clone(), right_dir: args[1].clone() },
        ),
    )
}

fn parse_capture_feature_series(args: Vec<String>) -> (r: Result<Command, CliError>)
    ensures
        r matches Ok(c) ==> feature_series_command(token_views(args@)) == Ok::<
            CommandView,
            CliErrorView,
        >(c@),
        r matches Err(e) ==> feature_series_command(token_views(args@)) == Err::<
            CommandView,
            CliErrorView,
        >(e@),
{
    let ghost t = token_views(args@);
    let mut samples: usize = 80;
    let mut interval_ms: u64 = 250;
    let mut all_collections = false;
    let mut label: Option<String> = None;
    let mut i: usize = 0;
    while i < args.len()
        invariant
            t == token_views(args@),
            i <= args@.len(),
            scan_feature_series(t, 0, 80, 250, false, None) == scan_feature_series(
                t,
                i as int,
                samples,
                interval_ms,
                all_collections,
                option_view(label),
            ),
        decreases args.len() - i,
    {
        let token = &args[i];
        assert(t[i as int] == token@);
        if is_token(token, "--samples") {
            samples = usize_value(&args, i, "--samples")?;
            i = i + 2;
        } else if is_token(token, "--interval-ms") {
            interval_ms = u64_value(&args, i, "--interval-ms")?;
            i = i + 2;
        } else if is_token(token, "--all-collections") {
            all_collections = true;
            i = i + 1;
        } else if label.is_none() {
            label = Some(token.clone());
            i = i + 1;
        } else {
            return Err(unknown_option(token));
        }
    }
    match label {
        Some(label) => Ok(
            Command::CaptureFeatureSeries(
                CaptureFeatureSeriesArgs { label, samples, interval_ms, all_collections },
            ),
        ),
        None => Err(usage_error(String::from_str("capture-feature-series requires a label"))),
    }
}

fn parse_analyze_feature_series(args: Vec<String>) -> (r: Result<Command, CliError>)
    ensures
        r matches Ok(c) ==> analyze_series_command(token_views(args@)) == Ok::<
            CommandView,
            CliErrorView,
        >(c@),
        r matches Err(e) ==> analyze_series_command(token_views(args@)) == Err::<
            CommandView,
            CliErrorView,
        >(e@),
{
    if args.len() != 1 {
        return Err(
            usage_error(
                String::from_str("analyze-feature-series expects exactly one series directory"),
            ),
        );
    }
    Ok(Command::AnalyzeFeatureSeries(AnalyzeFeatureSeriesArgs { series_dir: args[0].clone() }))
}

fn parse_query_hub_battery(args: Vec<String>) -> (r: Result<Command, CliError>)
    ensures
        r matches Ok(c) ==> query_hub_command(token_views(args@)) == Ok::<CommandView, CliErrorView>(
            c@,
        ),
        r matches Err(e) ==> query_hub_command(token_views(args@)) == Err::<
            CommandView,
            CliErrorView,
        >(e@),
{
    let ghost t = token_views(args@);
    let mut count: usize = 1;
    let mut timeout_ms: i32 = 1000;
    let mut interval_ms: u64 = 1000;
    let mut i: usize = 0;
    while i < args.len()
        invariant
            t == token_views(args@),
            i <= args@.len(),
            scan_query_hub(t, 0, 1, 1000, 1000) == scan_query_hub(
                t,
                i as int,
                count,
                timeout_ms,
                interval_ms,
            ),
        decreases args.len() - i,
    {
        let token = &args[i];
        assert(t[i as int] == token@);
        if is_token(token, "--count") {
            count = usize_value(&args, i, "--count")?;
            i = i + 2;
        } else if is_token(token, "--timeout") {
            timeout_ms = i32_value(&args, i, "--timeout")?;
            i = i + 2;
        } else if is_token(token, "--interval-ms") {
            interval_ms = u64_value(&args, i, "--interval-ms")?;
            i = i + 2;
        } else {
            return Err(unknown_option(token));
        }
    }
    Ok(Command::QueryHubBattery(QueryHubBatteryArgs { count, timeout_ms, interval_ms }))
}

impl Command {
    /// Reads the command line after the program name. `inzone` is the
    /// configured filter that `--inzone` stands for; without it, a command
    /// line that uses `--inzone` gives `SettingsRequired`.
    pub fn parse_args(args: Vec<String>, inzone: Option<HidDeviceFilter>) -> (r: Result<
        Command,
        CliError,
    >)
        ensures
            r matches Ok(c) ==> command_of(token_views(args@), inzone) == Ok::<
                CommandView,
                CliErrorView,
            >(c@),
            r matches Err(e) ==> command_of(token_views(args@), inzone) == Err::<
                CommandView,
                CliErrorView,
            >(e@),
    {
        let ghost t = token_views(args@);
        if args.len() == 0 {
            return Ok(Command::Tray);
        }
        let mut rest: Vec<String> = args;
        let name = rest.remove(0);
        assert(token_views(rest@) =~= t.drop_first());
        assert(name@ == t[0]);
        if is_token(&name, "list-hid") {
            let filter = parse_filter_args(rest, inzone)?;
            Ok(Command::ListHid(HidListArgs { filter }))
        } else if is_token(&name, "dump-hid") {
            parse_dump_hid(rest, inzone)
        } else if is_token(&name, "compare-dumps") {
            parse_compare_dumps(rest)
        } else if is_token(&name, "capture-state") {
            parse_capture_state(rest)
        } else if is_token(&name, "compare-state-dirs") {
            parse_compare_state_dirs(rest)
        } else if is_token(&name, "capture-feature-series") {
            parse_capture_feature_series(rest)
        } else if is_token(&name, "analyze-feature-series") {
            parse_analyze_feature_series(rest)
        } else if is_token(&name, "query-hub-battery") {
            parse_query_hub_battery(rest)
        } else {
            let mut m = String::from_str("unknown command: ");
            m.append(name.as_str());
            Err(usage_error(m))
        }
    }
}

/// A 16-bit value written with four hexadecimal digits, as the device
/// listing prints it (upper case) or in lower case, with or without `0x`, is
/// read back as the same value by the filter options.
pub proof fn lemma_hex_option_roundtrip(v: u16, upper: bool)
    ensures
        parsed_hex_u16(hex_text(v as nat, 4, upper)) == Some(v as nat),
        parsed_hex_u16("0x"@ + hex_text(v as nat, 4, upper)) == Some(v as nat),
{
    lemma_hex_text_digits(v as nat, 4, upper);
    let h = hex_text(v as nat, 4, upper);
    assert(h.len() >= 4);
    assert(is_radix_digit(h[0], 16));
    assert(is_radix_digit(h[1], 16));
    assert(h[0] != '+');
    assert(h[1] != 'x' && h[1] != 'X');
    assert(without_hex_prefix(h) == h);
    reveal_strlit("0x");
    let p = "0x"@ + h;
    assert(p[0] == '0' && p[1] == 'x');
    assert(p.skip(2) =~= h);
    assert(without_hex_prefix(p) == h);
}

/// Scanning accepted options and then more tokens is scanning the more
/// tokens from where the accepted options left the filter.
proof fn lemma_scan_filter_append(
    t: Seq<Seq<char>>,
    more: Seq<Seq<char>>,
    i: int,
    f: HidDeviceFilter,
    inzone: Option<HidDeviceFilter>,
)
    requires
        0 <= i <= t.len(),
        scan_filter(t, i, f, inzone) is Ok,
    ensures
        scan_filter(t + more, i, f, inzone) == scan_filter(
            t + more,
            t.len() as int,
            scan_filter(t, i, f, inzone)->Ok_0,
            inzone,
        ),
    decreases t.len() - i,
{
    let u = t + more;
    if i < t.len() {
        assert(u[i] == t[i]);
        if i + 1 < t.len() {
            assert(u[i + 1] == t[i + 1]);
        }
        let tok = t[i];
        if tok == "--vendor"@ {
            let g = HidDeviceFilter { vendor_id: Some(hex_after(t, i, "--vendor"@)->Ok_0), ..f };
            lemma_scan_filter_append(t, more, i + 2, g, inzone);
        } else if tok == "--product"@ {
            let g = HidDeviceFilter { product_id: Some(hex_after(t, i, "--product"@)->Ok_0), ..f };
            lemma_scan_filter_append(t, more, i + 2, g, inzone);
        } else if tok == "--interface"@ {
            let g = HidDeviceFilter {
                interface_number: Some(i32_after(t, i, "--interface"@)->Ok_0),
                ..f
            };
            lemma_scan_filter_append(t, more, i + 2, g, inzone);
        } else if tok == "--usage-page"@ {
            let g = HidDeviceFilter { usage_page: Some(hex_after(t, i, "--usage-page"@)->Ok_0), ..f };
            lemma_scan_filter_append(t, more, i + 2, g, inzone);
        } else if tok == "--usage"@ {
            let g = HidDeviceFilter { usage: Some(hex_after(t, i, "--usage"@)->Ok_0), ..f };
            lemma_scan_filter_append(t, more, i + 2, g, inzone);
        } else if tok == "--inzone"@ {
            lemma_scan_filter_append(t, more, i + 1, inzone->0, inzone);
        }
    }
}

/// The filter options, each read after any options already accepted: a
/// hexadecimal option sets its own field to the value given, an
/// `--interface` sets the interface number, `--inzone` puts the configured
/// filter in place of all (or asks for the settings when they are not
/// given); every other field keeps what the options before it set. With no
/// option, every field is unset.
pub proof fn lemma_filter_options(
    t: Seq<Seq<char>>,
    value: Seq<char>,
    inzone: Option<HidDeviceFilter>,
)
    requires
        filter_of(t, inzone) is Ok,
    ensures
        filter_of(seq![], inzone) == Ok::<HidDeviceFilter, CliErrorView>(
            HidDeviceFilter {
                vendor_id: None,
                product_id: None,
                interface_number: None,
                usage_page: None,
                usage: None,
            },
        ),
        ({
            let f = filter_of(t, inzone)->Ok_0;
            &&& parsed_hex_u16(value) matches Some(v) ==> filter_of(
                t + seq!["--vendor"@, value],
                inzone,
            ) == Ok::<HidDeviceFilter, CliErrorView>(
                HidDeviceFilter {
                    vendor_id: Some(v as u16),
                    product_id: f.product_id,
                    interface_number: f.interface_number,
                    usage_page: f.usage_page,
                    usage: f.usage,
                },
            )
            &&& parsed_hex_u16(value) matches Some(v) ==> filter_of(
                t + seq!["--product"@, value],
                inzone,
            ) == Ok::<HidDeviceFilter, CliErrorView>(
                HidDeviceFilter {
                    vendor_id: f.vendor_id,
                    product_id: Some(v as u16),
                    interface_number: f.interface_number,
                    usage_page: f.usage_page,
                    usage: f.usage,
                },
            )
            &&& parsed_i32(value) matches Some(v) ==> filter_of(
                t + seq!["--interface"@, value],
                inzone,
            ) == Ok::<HidDeviceFilter, CliErrorView>(
                HidDeviceFilter {
                    vendor_id: f.vendor_id,
                    product_id: f.product_id,
                    interface_number: Some(v as i32),
                    usage_page: f.usage_page,
                    usage: f.usage,
                },
            )
            &&& parsed_hex_u16(value) matches Some(v) ==> filter_of(
                t + seq!["--usage-page"@, value],
                inzone,
            ) == Ok::<HidDeviceFilter, CliErrorView>(
                HidDeviceFilter {
                    vendor_id: f.vendor_id,
                    product_id: f.product_id,
                    interface_number: f.interface_number,
                    usage_page: Some(v as u16),
                    usage: f.usage,
                },
            )
            &&& parsed_hex_u16(value) matches Some(v) ==> filter_of(
                t + seq!["--usage"@, value],
                inzone,
            ) == Ok::<HidDeviceFilter, CliErrorView>(
                HidDeviceFilter {
                    vendor_id: f.vendor_id,
                    product_id: f.product_id,
                    interface_number: f.interface_number,
                    usage_page: f.usage_page,
                    usage: Some(v as u16),
                },
            )
            &&& inzone matches Some(g) ==> filter_of(t + seq!["--inzone"@], inzone)
                == Ok::<HidDeviceFilter, CliErrorView>(g)
            &&& inzone is None ==> filter_of(t + seq!["--inzone"@], inzone) == Err::<
                HidDeviceFilter,
                CliErrorView,
            >(CliErrorView::SettingsRequired)
        }),
{
    lemma_vendor_option(t, value, inzone);
    lemma_product_option(t, value, inzone);
    lemma_interface_option(t, value, inzone);
    lemma_usage_page_option(t, value, inzone);
    lemma_usage_option(t, value, inzone);
    lemma_inzone_option(t, inzone);
}

/// The option names differ from one another.
proof fn lemma_option_names_differ()
    ensures
        "--product"@ != "--vendor"@,
        "--interface"@ != "--vendor"@ && "--interface"@ != "--product"@,
        "--usage-page"@ != "--vendor"@ && "--usage-page"@ != "--product"@ && "--usage-page"@
            != "--interface"@,
        "--usage"@ != "--vendor"@ && "--usage"@ != "--product"@ && "--usage"@ != "--interface"@
            && "--usage"@ != "--usage-page"@,
        "--inzone"@ != "--vendor"@ && "--inzone"@ != "--product"@ && "--inzone"@ != "--interface"@
            && "--inzone"@ != "--usage-page"@ && "--inzone"@ != "--usage"@,
{
    reveal_strlit("--vendor");
    reveal_strlit("--product");
    reveal_strlit("--interface");
    reveal_strlit("--usage-page");
    reveal_strlit("--usage");
    reveal_strlit("--inzone");
    assert("--vendor"@[2] == 'v' && "--product"@[2] == 'p' && "--interface"@[2] == 'i');
    assert("--usage-page"@[2] == 'u' && "--usage"@[2] == 'u' && "--inzone"@[2] == 'i');
    assert("--inzone"@[4] == 'z' && "--interface"@[4] == 't');
    assert("--usage"@.len() == 7 && "--usage-page"@.len() == 12);
}

proof fn lemma_vendor_option(t: Seq<Seq<char>>, value: Seq<char>, inzone: Option<HidDeviceFilter>)
    requires
        filter_of(t, inzone) is Ok,
    ensures
        parsed_hex_u16(value) matches Some(v) ==> filter_of(t + seq!["--vendor"@, value], inzone)
            == Ok::<HidDeviceFilter, CliErrorView>(
            HidDeviceFilter { vendor_id: Some(v as u16), ..filter_of(t, inzone)->Ok_0 },
        ),
{
    let u = t + seq!["--vendor"@, value];
    let n = t.len() as int;
    lemma_scan_filter_append(t, seq!["--vendor"@, value], 0, empty_filter(), inzone);
    assert(u[n] == "--vendor"@ && u[n + 1] == value);
    if let Some(v) = parsed_hex_u16(value) {
        let g = HidDeviceFilter { vendor_id: Some(v as u16), ..filter_of(t, inzone)->Ok_0 };
        assert(scan_filter(u, n + 2, g, inzone) == Ok::<HidDeviceFilter, CliErrorView>(g));
    }
}

proof fn lemma_product_option(t: Seq<Seq<char>>, value: Seq<char>, inzone: Option<HidDeviceFilter>)
    requires
        filter_of(t, inzone) is Ok,
    ensures
        parsed_hex_u16(value) matches Some(v) ==> filter_of(t + seq!["--product"@, value], inzone)
            == Ok::<HidDeviceFilter, CliErrorView>(
            HidDeviceFilter { product_id: Some(v as u16), ..filter_of(t, inzone)->Ok_0 },
        ),
{
    lemma_option_names_differ();
    let u = t + seq!["--product"@, value];
    let n = t.len() as int;
    lemma_scan_filter_append(t, seq!["--product"@, value], 0, empty_filter(), inzone);
    assert(u[n] == "--product"@ && u[n + 1] == value);
    if let Some(v) = parsed_hex_u16(value) {
        let g = HidDeviceFilter { product_id: Some(v as u16), ..filter_of(t, inzone)->Ok_0 };
        assert(scan_filter(u, n + 2, g, inzone) == Ok::<HidDeviceFilter, CliErrorView>(g));
    }
}

proof fn lemma_interface_option(
    t: Seq<Seq<char>>,
    value: Seq<char>,
    inzone: Option<HidDeviceFilter>,
)
    requires
        filter_of(t, inzone) is Ok,
    ensures
        parsed_i32(value) matches Some(v) ==> filter_of(t + seq!["--interface"@, value], inzone)
            == Ok::<HidDeviceFilter, CliErrorView>(
            HidDeviceFilter { interface_number: Some(v as i32), ..filter_of(t, inzone)->Ok_0 },
        ),
{
    lemma_option_names_differ();
    let u = t + seq!["--interface"@, value];
    let n = t.len() as int;
    lemma_scan_filter_append(t, seq!["--interface"@, value], 0, empty_filter(), inzone);
    assert(u[n] == "--interface"@ && u[n + 1] == value);
    if let Some(v) = parsed_i32(value) {
        let g = HidDeviceFilter { interface_number: Some(v as i32), ..filter_of(t, inzone)->Ok_0 };
        assert(scan_filter(u, n + 2, g, inzone) == Ok::<HidDeviceFilter, CliErrorView>(g));
    }
}

proof fn lemma_usage_page_option(
    t: Seq<Seq<char>>,
    value: Seq<char>,
    inzone: Option<HidDeviceFilter>,
)
    requires
        filter_of(t, inzone) is Ok,
    ensures
        parsed_hex_u16(value) matches Some(v) ==> filter_of(t + seq!["--usage-page"@, value], inzone)
            == Ok::<HidDeviceFilter, CliErrorView>(
            HidDeviceFilter { usage_page: Some(v as u16), ..filter_of(t, inzone)->Ok_0 },
        ),
{
    lemma_option_names_differ();
    let u = t + seq!["--usage-page"@, value];
    let n = t.len() as int;
    lemma_scan_filter_append(t, seq!["--usage-page"@, value], 0, empty_filter(), inzone);
    assert(u[n] == "--usage-page"@ && u[n + 1] == value);
    if let Some(v) = parsed_hex_u16(value) {
        let g = HidDeviceFilter { usage_page: Some(v as u16), ..filter_of(t, inzone)->Ok_0 };
        assert(scan_filter(u, n + 2, g, inzone) == Ok::<HidDeviceFilter, CliErrorView>(g));
    }
}

proof fn lemma_usage_option(t: Seq<Seq<char>>, value: Seq<char>, inzone: Option<HidDeviceFilter>)
    requires
        filter_of(t, inzone) is Ok,
    ensures
        parsed_hex_u16(value) matches Some(v) ==> filter_of(t + seq!["--usage"@, value], inzone)
            == Ok::<HidDeviceFilter, CliErrorView>(
            HidDeviceFilter { usage: Some(v as u16), ..filter_of(t, inzone)->Ok_0 },
        ),
{
    lemma_option_names_differ();
    let u = t + seq!["--usage"@, value];
    let n = t.len() as int;
    lemma_scan_filter_append(t, seq!["--usage"@, value], 0, empty_filter(), inzone);
    assert(u[n] == "--usage"@ && u[n + 1] == value);
    if let Some(v) = parsed_hex_u16(value) {
        let g = HidDeviceFilter { usage: Some(v as u16), ..filter_of(t, inzone)->Ok_0 };
        assert(scan_filter(u, n + 2, g, inzone) == Ok::<HidDeviceFilter, CliErrorView>(g));
    }
}

proof fn lemma_inzone_option(t: Seq<Seq<char>>, inzone: Option<HidDeviceFilter>)
    requires
        filter_of(t, inzone) is Ok,
    ensures
        inzone matches Some(g) ==> filter_of(t + seq!["--inzone"@], inzone) == Ok::<
            HidDeviceFilter,
            CliErrorView,
        >(g),
        inzone is None ==> filter_of(t + seq!["--inzone"@], inzone) == Err::<
            HidDeviceFilter,
            CliErrorView,
        >(CliErrorView::SettingsRequired),
{
    lemma_option_names_differ();
    let u = t + seq!["--inzone"@];
    let n = t.len() as int;
    lemma_scan_filter_append(t, seq!["--inzone"@], 0, empty_filter(), inzone);
    assert(u[n] == "--inzone"@);
    if let Some(g) = inzone {
        assert(scan_filter(u, n + 1, g, inzone) == Ok::<HidDeviceFilter, CliErrorView>(g));
    }
}
} // verus!
