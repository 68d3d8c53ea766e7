//! The Alexa Remote "behaviors" API of the alexa.amazon.{tld} website, used
//! to push announcements and speech to the account's own Echo devices. This
//! module holds the session state kept in `~/.alexa/alexa_remote.json`, the
//! device list and its parser, the choice of target devices, the behavior
//! payloads, the cookie and csrf handling, and the decisions of the login
//! and request flow; the HTTP exchanges themselves are made by the caller.
use crate::auth::{Tokens, pct, url_encode_component};
use crate::config::{Region, in_alexa_dir, Config};
use crate::json::{
    JsonTree, json_as_array, json_as_bool, json_as_str, json_bool, json_content, json_field,
    json_get, json_object_values, json_parse_text, json_quote, json_str, parse_json_text,
    push_quoted,
};
use crate::text::{
    chars_eq, chars_of, contains, find_chars, index_of, index_of_exec, lemma_find_from_props,
    push_all, push_str_chars, string_of, strip_prefix, strip_prefix_chars, sub_chars, trim,
    trim_chars, occurs_at,
};
use vstd::prelude::*;

verus! {

// ---------------------------------------------------------------------------
// Session state
// ---------------------------------------------------------------------------

pub open spec fn opt_view(o: Option<String>) -> Option<Seq<char>> {
    match o {
        Some(s) => Some(s@),
        None => None,
    }
}

/// What is kept between runs for the website API.
pub struct RemoteState {
    /// The refresh token traded for website cookies; the AVS refresh token
    /// is used when this is unset.
    pub refresh_token: Option<String>,
    /// The Amazon top-level domain, e.g. "com", "co.uk", "co.jp".
    pub tld: String,
    /// The account owner's customer id, learned from the device list.
    pub customer_id: Option<String>,
    /// The website Cookie header, e.g. "at-main=...; sess-at-main=...".
    pub cookies: Option<String>,
    /// The `csrf` token harvested from the website.
    pub csrf: Option<String>,
}

pub struct RemoteStateView {
    pub refresh_token: Option<Seq<char>>,
    pub tld: Seq<char>,
    pub customer_id: Option<Seq<char>>,
    pub cookies: Option<Seq<char>>,
    pub csrf: Option<Seq<char>>,
}

impl View for RemoteState {
    type V = RemoteStateView;

    open spec fn view(&self) -> RemoteStateView {
        RemoteStateView {
            refresh_token: opt_view(self.refresh_token),
            tld: self.tld@,
            customer_id: opt_view(self.customer_id),
            cookies: opt_view(self.cookies),
            csrf: opt_view(self.csrf),
        }
    }
}

/// The domain used when none is configured.
pub fn default_tld() -> (r: String)
    ensures
        r@ == "com"@,
{
    "com".to_string()
}

impl Default for RemoteState {
    fn default() -> (r: RemoteState)
        ensures
            r@ == (RemoteStateView {
                refresh_token: None,
                tld: "com"@,
                customer_id: None,
                cookies: None,
                csrf: None,
            }),
    {
        RemoteState {
            refresh_token: None,
            tld: default_tld(),
            customer_id: None,
            cookies: None,
            csrf: None,
        }
    }
}

impl RemoteState {
    /// `~/.alexa/alexa_remote.json`.
    pub fn path() -> (r: String)
        ensures
            in_alexa_dir(r@, "alexa_remote.json"@),
    {
        Config::under_dir("alexa_remote.json")
    }
}

/// The website domain of an AVS region.
pub open spec fn tld_text(region: Region) -> Seq<char> {
    match region {
        Region::Na => "com"@,
        Region::Eu => "co.uk"@,
        Region::Fe => "co.jp"@,
    }
}

/// The Amazon website domain used for an AVS region.
pub fn tld_for(region: Region) -> (r: &'static str)
    ensures
        r@ == tld_text(region),
{
    match region {
        Region::Na => "com",
        Region::Eu => "co.uk",
        Region::Fe => "co.jp",
    }
}

// ---------------------------------------------------------------------------
// Devices
// ---------------------------------------------------------------------------

/// One Echo (or Alexa built-in) device of the account.
pub struct Device {
    pub serial_number: String,
    pub device_type: String,
    pub account_name: String,
    pub customer_id: String,
    pub online: bool,
    /// The device family the device list reports (`deviceFamily`), e.g.
    /// `ECHO`, `KNIGHT`, `FIRE_TV`, `TABLET`; empty where it reports none.
    pub device_family: String,
}

pub struct DeviceView {
    pub serial_number: Seq<char>,
    pub device_type: Seq<char>,
    pub account_name: Seq<char>,
    pub customer_id: Seq<char>,
    pub online: bool,
    pub device_family: Seq<char>,
}

impl View for Device {
    type V = DeviceView;

    open spec fn view(&self) -> DeviceView {
        DeviceView {
            serial_number: self.serial_number@,
            device_type: self.device_type@,
            account_name: self.account_name@,
            customer_id: self.customer_id@,
            online: self.online,
            device_family: self.device_family@,
        }
    }
}

impl Clone for Device {
    fn clone(&self) -> (r: Device)
        ensures
            r@ == self@,
    {
        Device {
            serial_number: self.serial_number.clone(),
            device_type: self.device_type.clone(),
            account_name: self.account_name.clone(),
            customer_id: self.customer_id.clone(),
            online: self.online,
            device_family: self.device_family.clone(),
        }
    }
}

pub open spec fn devices_view(ds: Seq<Device>) -> Seq<DeviceView> {
    ds.map_values(|d: Device| d@)
}

/// A string member of a device entry, or the empty string.
pub open spec fn str_or_empty(entry: JsonTree, key: Seq<char>) -> Seq<char> {
    match json_str(json_field(entry, key)) {
        Some(s) => s,
        None => Seq::empty(),
    }
}

/// The device an entry of the device list describes; entries without a
/// (non-empty) serial number describe none.
pub open spec fn device_of_entry(entry: JsonTree) -> Option<DeviceView> {
    match json_str(json_field(entry, "serialNumber"@)) {
        Some(serial) => if serial.len() > 0 {
            Some(
                DeviceView {
                    serial_number: serial,
                    device_type: str_or_empty(entry, "deviceType"@),
                    account_name: str_or_empty(entry, "accountName"@),
                    customer_id: str_or_empty(entry, "deviceOwnerCustomerId"@),
                    online: match json_bool(json_field(entry, "online"@)) {
                        Some(b) => b,
                        None => false,
                    },
                    device_family: str_or_empty(entry, "deviceFamily"@),
                },
            )
        } else {
            None
        },
        None => None,
    }
}

/// The devices that a list of entries describes, in order.
pub open spec fn devices_of_entries(entries: Seq<JsonTree>) -> Seq<DeviceView>
    decreases entries.len(),
{
    if entries.len() == 0 {
        seq![]
    } else {
        devices_of_entries(entries.drop_last()) + match device_of_entry(entries.last()) {
            Some(d) => seq![d],
            None => seq![],
        }
    }
}

/// The devices in a `devices-v2/device` reply.
pub open spec fn devices_in(reply: JsonTree) -> Seq<DeviceView> {
    match json_field(reply, "devices"@) {
        Some(JsonTree::Array(entries)) => devices_of_entries(entries),
        _ => seq![],
    }
}

fn str_member_or_empty(entry: &serde_json::Value, key: &str) -> (r: String)
    ensures
        r@ == str_or_empty(json_content(*entry), key@),
{
    match json_get(entry, key) {
        Some(v) => match json_as_str(v) {
            Some(s) => s.to_string(),
            None => String::new(),
        },
        None => String::new(),
    }
}

fn device_from_entry(entry: &serde_json::Value) -> (r: Option<Device>)
    ensures
        r matches Some(d) ==> device_of_entry(json_content(*entry)) == Some(d@),
        r is None ==> device_of_entry(json_content(*entry)) is None,
{
    let serial = match json_get(entry, "serialNumber") {
        Some(v) => match json_as_str(v) {
            Some(s) => s,
            None => return None,
        },
        None => return None,
    };
    if serial.is_empty() {
        return None;
    }
    let online = match json_get(entry, "online") {
        Some(v) => match json_as_bool(v) {
            Some(b) => b,
            None => false,
        },
        None => false,
    };
    Some(
        Device {
            serial_number: serial.to_string(),
            device_type: str_member_or_empty(entry, "deviceType"),
            account_name: str_member_or_empty(entry, "accountName"),
            customer_id: str_member_or_empty(entry, "deviceOwnerCustomerId"),
            online,
            device_family: str_member_or_empty(entry, "deviceFamily"),
        },
    )
}

/// The devices of a `devices-v2/device` reply. Entries without a serial
/// number (such as the virtual "this app" device) are skipped.
pub fn parse_devices(v: &serde_json::Value) -> (r: Vec<Device>)
    ensures
        devices_view(r@) == devices_in(json_content(*v)),
{
    let mut out: Vec<Device> = Vec::new();
    let arr = match json_get(v, "devices") {
        Some(d) => match json_as_array(d) {
            Some(a) => a,
            None => {
                assert(devices_view(out@) =~= seq![]);
                return out;
            },
        },
        None => {
            assert(devices_view(out@) =~= seq![]);
            return out;
        },
    };
    let ghost entries = json_field(json_content(*v), "devices"@)->0->Array_0;
    let mut i: usize = 0;
    assert(devices_view(out@) =~= devices_of_entries(entries.subrange(0, 0)));
    while i < arr.len()
        invariant
            i <= arr.len(),
            arr@.len() == entries.len(),
            forall|k: int| 0 <= k < arr@.len() ==> json_content(#[trigger] arr@[k]) == entries[k],
            devices_view(out@) == devices_of_entries(entries.subrange(0, i as int)),
        decreases arr.len() - i,
    {
        let ghost before = out@;
        match device_from_entry(&arr[i]) {
            Some(d) => {
                out.push(d);
            },
            None => {},
        }
        assert(entries.subrange(0, i + 1).drop_last() =~= entries.subrange(0, i as int));
        assert(devices_view(out@) =~= devices_of_entries(entries.subrange(0, i + 1)));
        i += 1;
    }
    assert(entries.subrange(0, entries.len() as int) =~= entries);
    out
}

/// What `String::to_lowercase` gives for the given text.
pub uninterp spec fn unicode_lowercase(s: Seq<char>) -> Seq<char>;

/// `str::to_lowercase`: the text lower-cased by the Unicode `Lowercase`
/// mapping; ASCII text is lower-cased letter by letter.
#[verifier::external_body]
pub(crate) fn to_lowercase(s: &str) -> (r: String)
    ensures
        r@ == unicode_lowercase(s@),
        crate::text::is_ascii_seq(s@) ==> r@ == crate::text::ascii_lower(s@),
{
    s.to_lowercase()
}

/// The device families an announcement to all devices leaves out: Fire TVs,
/// tablets, and phones (the Alexa app, family `VOX`).
pub open spec fn announce_target(d: DeviceView) -> bool {
    &&& d.device_family != "FIRE_TV"@
    &&& d.device_family != "TABLET"@
    &&& d.device_family != "VOX"@
}

/// The online devices, in order.
pub open spec fn online_devices(ds: Seq<DeviceView>) -> Seq<DeviceView>
    decreases ds.len(),
{
    if ds.len() == 0 {
        seq![]
    } else {
        online_devices(ds.drop_last()) + if ds.last().online {
            seq![ds.last()]
        } else {
            seq![]
        }
    }
}

/// The devices an announcement to all goes to: the online speakers (every
/// online device but Fire TVs, tablets and phones), in order.
pub open spec fn speaker_devices(ds: Seq<DeviceView>) -> Seq<DeviceView>
    decreases ds.len(),
{
    if ds.len() == 0 {
        seq![]
    } else {
        speaker_devices(ds.drop_last()) + if announced(ds.last()) {
            seq![ds.last()]
        } else {
            seq![]
        }
    }
}

/// Whether a device's name contains `needle` (already lower-cased), compared
/// lower-cased.
pub open spec fn name_matches(d: DeviceView, needle: Seq<char>) -> bool {
    contains(unicode_lowercase(d.account_name), needle)
}

/// The devices whose names contain `needle`, in order.
pub open spec fn devices_named(ds: Seq<DeviceView>, needle: Seq<char>) -> Seq<DeviceView>
    decreases ds.len(),
{
    if ds.len() == 0 {
        seq![]
    } else {
        devices_named(ds.drop_last(), needle) + if name_matches(ds.last(), needle) {
            seq![ds.last()]
        } else {
            seq![]
        }
    }
}

/// Whether the device is not a Fire TV, tablet or phone.
pub fn is_announce_target(d: &Device) -> (r: bool)
    ensures
        r == announce_target(d@),
{
    let f = d.device_family.as_str();
    !crate::text::str_eq(f, "FIRE_TV") && !crate::text::str_eq(f, "TABLET")
        && !crate::text::str_eq(f, "VOX")
}

/// Whether an announcement to all goes to the device: it is online and not a
/// Fire TV, tablet or phone.
pub open spec fn announced(d: DeviceView) -> bool {
    d.online && announce_target(d)
}

/// Resolving with `all` gives exactly the online devices: each one chosen is
/// among the given devices and online, and every online device is chosen.
pub proof fn lemma_online_devices_exact(ds: Seq<DeviceView>)
    ensures
        forall|i: int|
            0 <= i < online_devices(ds).len() ==> ds.contains(#[trigger] online_devices(ds)[i])
                && online_devices(ds)[i].online,
        forall|j: int| 0 <= j < ds.len() && #[trigger] ds[j].online ==> online_devices(
            ds,
        ).contains(ds[j]),
    decreases ds.len(),
{
    if ds.len() > 0 {
        let d = ds.drop_last();
        lemma_online_devices_exact(d);
        let o = online_devices(ds);
        let od = online_devices(d);
        assert forall|i: int| 0 <= i < o.len() implies ds.contains(#[trigger] o[i]) && o[i].online by {
            if i < od.len() {
                assert(o[i] == od[i]);
                let k = choose|k: int| 0 <= k < d.len() && d[k] == od[i];
                assert(ds[k] == od[i]);
            } else {
                assert(o[i] == ds.last());
                assert(ds[ds.len() - 1] == o[i]);
            }
        }
        assert forall|j: int| 0 <= j < ds.len() && #[trigger] ds[j].online implies o.contains(
            ds[j],
        ) by {
            if j < ds.len() - 1 {
                assert(d[j] == ds[j]);
                assert(d[j].online);
                let k = choose|k: int| 0 <= k < od.len() && od[k] == d[j];
                assert(o[k] == od[k]);
            } else {
                assert(o[o.len() - 1] == ds[j]);
            }
        }
    }
}

/// Announcing to all targets exactly the online speakers: each one chosen is
/// among the given devices, online, and not a Fire TV, tablet or phone; and
/// every such device is chosen.
pub proof fn lemma_speaker_devices_exact(ds: Seq<DeviceView>)
    ensures
        forall|i: int|
            0 <= i < speaker_devices(ds).len() ==> ds.contains(#[trigger] speaker_devices(ds)[i])
                && announced(speaker_devices(ds)[i]),
        forall|j: int| 0 <= j < ds.len() && #[trigger] announced(ds[j]) ==> speaker_devices(
            ds,
        ).contains(ds[j]),
    decreases ds.len(),
{
    if ds.len() > 0 {
        let d = ds.drop_last();
        lemma_speaker_devices_exact(d);
        let o = speaker_devices(ds);
        let od = speaker_devices(d);
        assert forall|i: int| 0 <= i < o.len() implies ds.contains(#[trigger] o[i]) && announced(
            o[i],
        ) by {
            if i < od.len() {
                assert(o[i] == od[i]);
                let k = choose|k: int| 0 <= k < d.len() && d[k] == od[i];
                assert(ds[k] == od[i]);
            } else {
                assert(o[i] == ds.last());
                assert(ds[ds.len() - 1] == o[i]);
            }
        }
        assert forall|j: int| 0 <= j < ds.len() && #[trigger] announced(ds[j]) implies o.contains(
            ds[j],
        ) by {
            if j < ds.len() - 1 {
                assert(d[j] == ds[j]);
                assert(announced(d[j]));
                let k = choose|k: int| 0 <= k < od.len() && od[k] == d[j];
                assert(o[k] == od[k]);
            } else {
                assert(o[o.len() - 1] == ds[j]);
            }
        }
    }
}

/// Targeting by name chooses exactly the devices whose lower-cased names
/// contain the lower-cased name: each one chosen is among the given devices
/// and matches, and every matching device is chosen.
pub proof fn lemma_devices_named_exact(ds: Seq<DeviceView>, needle: Seq<char>)
    ensures
        forall|i: int|
            0 <= i < devices_named(ds, needle).len() ==> ds.contains(
                #[trigger] devices_named(ds, needle)[i],
            ) && name_matches(devices_named(ds, needle)[i], needle),
        forall|j: int|
            0 <= j < ds.len() && #[trigger] name_matches(ds[j], needle) ==> devices_named(
                ds,
                needle,
            ).contains(ds[j]),
    decreases ds.len(),
{
    if ds.len() > 0 {
        let d = ds.drop_last();
        lemma_devices_named_exact(d, needle);
        let o = devices_named(ds, needle);
        let od = devices_named(d, needle);
        assert forall|i: int| 0 <= i < o.len() implies ds.contains(#[trigger] o[i]) && name_matches(
            o[i],
            needle,
        ) by {
            if i < od.len() {
                assert(o[i] == od[i]);
                let k = choose|k: int| 0 <= k < d.len() && d[k] == od[i];
                assert(ds[k] == od[i]);
            } else {
                assert(o[i] == ds.last());
                assert(ds[ds.len() - 1] == o[i]);
            }
        }
        assert forall|j: int| 0 <= j < ds.len() && #[trigger] name_matches(ds[j], needle) implies o.contains(
            ds[j],
        ) by {
            if j < ds.len() - 1 {
                assert(d[j] == ds[j]);
                assert(name_matches(d[j], needle));
                let k = choose|k: int| 0 <= k < od.len() && od[k] == d[j];
                assert(o[k] == od[k]);
            } else {
                assert(o[o.len() - 1] == ds[j]);
            }
        }
    }
}

/// Why no request could be made to the website API.
pub enum RemoteError {
    /// `--all` was asked and no device is online.
    NoOnlineDevices,
    /// No device name contains the given name.
    NoNameMatch { name: String },
    /// Neither a device name nor `--all` was given.
    NoTarget,
    /// No refresh token is configured, neither for the website nor for AVS.
    NoRemoteAuth,
    /// There are no website cookies to send.
    NoSessionCookies,
    /// The cookie exchange did not answer JSON.
    ExchangeNotJson,
    /// The cookie exchange's answer holds no cookies.
    NoExchangeCookies,
}

pub open spec fn remote_error_message(e: RemoteError) -> Seq<char> {
    match e {
        RemoteError::NoOnlineDevices => "no online Echo devices found — run `alexa devices` to list"@,
        RemoteError::NoNameMatch { name } => "no device matches name '"@ + name@
            + "' — run `alexa devices` to list available names"@,
        RemoteError::NoTarget => "specify a device with --device <name> or target everything with --all"@,
        RemoteError::NoRemoteAuth => "no Alexa Remote auth configured — run `alexa announce-auth --refresh-token <Atzr|...>` (or complete `alexa login` so the AVS refresh token can be reused)"@,
        RemoteError::NoSessionCookies => "no website cookies; run `alexa announce-auth --refresh-token ...`"@,
        RemoteError::ExchangeNotJson => "cookie exchange returned non-JSON"@,
        RemoteError::NoExchangeCookies => "could not find website cookies in exchange response; the refresh token may be invalid or expired"@,
    }
}

impl RemoteError {
    pub fn message(&self) -> (r: String)
        ensures
            r@ == remote_error_message(*self),
    {
        match self {
            RemoteError::NoOnlineDevices => "no online Echo devices found — run `alexa devices` to list".to_string(),
            RemoteError::NoNameMatch { name } => {
                let mut out: Vec<char> = Vec::new();
                push_str_chars(&mut out, "no device matches name '");
                push_str_chars(&mut out, name.as_str());
                push_str_chars(&mut out, "' — run `alexa devices` to list available names");
                string_of(out.as_slice())
            },
            RemoteError::NoTarget => "specify a device with --device <name> or target everything with --all".to_string(),
            RemoteError::NoRemoteAuth => "no Alexa Remote auth configured — run `alexa announce-auth --refresh-token <Atzr|...>` (or complete `alexa login` so the AVS refresh token can be reused)".to_string(),
            RemoteError::NoSessionCookies => "no website cookies; run `alexa announce-auth --refresh-token ...`".to_string(),
            RemoteError::ExchangeNotJson => "cookie exchange returned non-JSON".to_string(),
            RemoteError::NoExchangeCookies => "could not find website cookies in exchange response; the refresh token may be invalid or expired".to_string(),
        }
    }
}

/// What `resolve_devices` answers.
pub open spec fn resolve_matches(
    r: Result<Vec<Device>, RemoteError>,
    ds: Seq<DeviceView>,
    name: Option<Seq<char>>,
    all: bool,
) -> bool {
    if all {
        let online = online_devices(ds);
        if online.len() == 0 {
            r matches Err(RemoteError::NoOnlineDevices)
        } else {
            r matches Ok(v) && devices_view(v@) == online
        }
    } else {
        match name {
            Some(n) => {
                let found = devices_named(ds, unicode_lowercase(n));
                if found.len() == 0 {
                    r matches Err(RemoteError::NoNameMatch { name: x }) && x@ == n
                } else {
                    r matches Ok(v) && devices_view(v@) == found
                }
            },
            None => r matches Err(RemoteError::NoTarget),
        }
    }
}

/// The devices to target: every online device when `all`; otherwise those
/// whose names contain `name`, compared lower-cased.
pub fn resolve_devices(all_devices: &[Device], name: Option<&str>, all: bool) -> (r: Result<
    Vec<Device>,
    RemoteError,
>)
    ensures
        resolve_matches(
            r,
            devices_view(all_devices@),
            match name {
                Some(n) => Some(n@),
                None => None,
            },
            all,
        ),
{
    let ghost ds = devices_view(all_devices@);
    if all {
        let mut online: Vec<Device> = Vec::new();
        let mut i: usize = 0;
        assert(devices_view(online@) =~= online_devices(ds.subrange(0, 0)));
        while i < all_devices.len()
            invariant
                i <= all_devices.len(),
                ds == devices_view(all_devices@),
                devices_view(online@) == online_devices(ds.subrange(0, i as int)),
            decreases all_devices.len() - i,
        {
            if all_devices[i].online {
                online.push(all_devices[i].clone());
            }
            assert(ds.subrange(0, i + 1).drop_last() =~= ds.subrange(0, i as int));
            assert(devices_view(online@) =~= online_devices(ds.subrange(0, i + 1)));
            i += 1;
        }
        assert(ds.subrange(0, ds.len() as int) =~= ds);
        if online.len() == 0 {
            return Err(RemoteError::NoOnlineDevices);
        }
        return Ok(online);
    }
    match name {
        Some(n) => {
            let needle_s = to_lowercase(n);
            let needle = chars_of(needle_s.as_str());
            let mut found: Vec<Device> = Vec::new();
            let mut i: usize = 0;
            assert(devices_view(found@) =~= devices_named(ds.subrange(0, 0), needle@));
            while i < all_devices.len()
                invariant
                    i <= all_devices.len(),
                    ds == devices_view(all_devices@),
                    needle@ == unicode_lowercase(n@),
                    devices_view(found@) == devices_named(ds.subrange(0, i as int), needle@),
                decreases all_devices.len() - i,
            {
                let lowered = to_lowercase(all_devices[i].account_name.as_str());
                let hay = chars_of(lowered.as_str());
                if find_chars(hay.as_slice(), needle.as_slice(), 0).is_some() {
                    found.push(all_devices[i].clone());
                }
                assert(ds.subrange(0, i + 1).drop_last() =~= ds.subrange(0, i as int));
                assert(devices_view(found@) =~= devices_named(ds.subrange(0, i + 1), needle@));
                i += 1;
            }
            assert(ds.subrange(0, ds.len() as int) =~= ds);
            if found.len() == 0 {
                return Err(RemoteError::NoNameMatch { name: n.to_string() });
            }
            Ok(found)
        },
        None => Err(RemoteError::NoTarget),
    }
}

// ---------------------------------------------------------------------------
// Behavior payloads
// ---------------------------------------------------------------------------

/// One announcement target as JSON.
pub open spec fn target_json(d: DeviceView) -> Seq<char> {
    "{\"deviceSerialNumber\":"@ + json_quote(d.serial_number) + ",\"deviceTypeId\":"@ + json_quote(
        d.device_type,
    ) + "}"@
}

/// The announcement targets, comma-separated.
pub open spec fn targets_json(ds: Seq<DeviceView>) -> Seq<char>
    decreases ds.len(),
{
    if ds.len() == 0 {
        seq![]
    } else if ds.len() == 1 {
        target_json(ds[0])
    } else {
        targets_json(ds.drop_last()) + ","@ + target_json(ds.last())
    }
}

/// The customer id the announcement names: the first target's, or empty.
pub open spec fn announcement_customer(ds: Seq<DeviceView>) -> Seq<char> {
    if ds.len() > 0 {
        ds[0].customer_id
    } else {
        Seq::empty()
    }
}

/// The `sequenceJson` of an AlexaAnnouncement, compact with sorted keys.
pub open spec fn announcement_json(text: Seq<char>, title: Seq<char>, ds: Seq<DeviceView>) -> Seq<
    char,
> {
    "{\"@type\":\"com.amazon.alexa.behaviors.model.Sequence\",\"startNode\":{\"@type\":\"com.amazon.alexa.behaviors.model.OpaquePayloadOperationNode\",\"operationPayload\":{\"content\":[{\"display\":{\"body\":"@
        + json_quote(text) + ",\"title\":"@ + json_quote(title)
        + "},\"locale\":\"en-US\",\"speak\":{\"type\":\"text\",\"value\":"@ + json_quote(text)
        + "}}],\"expireAfter\":\"PT5S\",\"skillId\":\"amzn1.ask.1p.routines.messaging\",\"target\":{\"customerId\":"@
        + json_quote(announcement_customer(ds)) + ",\"devices\":["@ + targets_json(ds)
        + "]}},\"type\":\"AlexaAnnouncement\"}}"@
}

/// The `sequenceJson` of an Alexa.Speak to one device, compact with sorted
/// keys.
pub open spec fn speak_json(text: Seq<char>, d: DeviceView) -> Seq<char> {
    "{\"@type\":\"com.amazon.alexa.behaviors.model.Sequence\",\"startNode\":{\"@type\":\"com.amazon.alexa.behaviors.model.OpaquePayloadOperationNode\",\"operationPayload\":{\"customerId\":"@
        + json_quote(d.customer_id) + ",\"deviceSerialNumber\":"@ + json_quote(d.serial_number)
        + ",\"deviceType\":"@ + json_quote(d.device_type)
        + ",\"locale\":\"en-US\",\"textToSpeak\":"@ + json_quote(text)
        + "},\"skillId\":\"amzn1.ask.1p.saysomething\",\"type\":\"Alexa.Speak\"}}"@
}

fn push_target(out: &mut Vec<char>, d: &Device)
    ensures
        final(out)@ == old(out)@ + target_json(d@),
{
    let ghost o = out@;
    push_str_chars(out, "{\"deviceSerialNumber\":");
    push_quoted(out, d.serial_number.as_str());
    push_str_chars(out, ",\"deviceTypeId\":");
    push_quoted(out, d.device_type.as_str());
    push_str_chars(out, "}");
    assert(out@ =~= o + target_json(d@));
}

/// The stringified `sequenceJson` for an AlexaAnnouncement to the targets,
/// all under the first target's customer id.
pub fn build_announcement_sequence_json(text: &str, title: &str, targets: &[Device]) -> (r: String)
    ensures
        r@ == announcement_json(text@, title@, devices_view(targets@)),
{
    let ghost ds = devices_view(targets@);
    let customer_id = if targets.len() > 0 {
        targets[0].customer_id.clone()
    } else {
        String::new()
    };
    assert(customer_id@ == announcement_customer(ds));
    let mut out: Vec<char> = Vec::new();
    push_str_chars(
        &mut out,
        "{\"@type\":\"com.amazon.alexa.behaviors.model.Sequence\",\"startNode\":{\"@type\":\"com.amazon.alexa.behaviors.model.OpaquePayloadOperationNode\",\"operationPayload\":{\"content\":[{\"display\":{\"body\":",
    );
    push_quoted(&mut out, text);
    push_str_chars(&mut out, ",\"title\":");
    push_quoted(&mut out, title);
    push_str_chars(&mut out, "},\"locale\":\"en-US\",\"speak\":{\"type\":\"text\",\"value\":");
    push_quoted(&mut out, text);
    push_str_chars(
        &mut out,
        "}}],\"expireAfter\":\"PT5S\",\"skillId\":\"amzn1.ask.1p.routines.messaging\",\"target\":{\"customerId\":",
    );
    push_quoted(&mut out, customer_id.as_str());
    push_str_chars(&mut out, ",\"devices\":[");
    let ghost head = out@;
    let mut i: usize = 0;
    assert(targets_json(ds.subrange(0, 0)) =~= Seq::<char>::empty());
    assert(out@ =~= head + targets_json(ds.subrange(0, 0)));
    while i < targets.len()
        invariant
            i <= targets.len(),
            ds == devices_view(targets@),
            out@ == head + targets_json(ds.subrange(0, i as int)),
        decreases targets.len() - i,
    {
        let ghost sub = ds.subrange(0, i + 1);
        assert(sub.drop_last() =~= ds.subrange(0, i as int));
        if i > 0 {
            push_str_chars(&mut out, ",");
        }
        push_target(&mut out, &targets[i]);
        proof {
            if i == 0 {
                assert(sub.len() == 1);
                assert(targets_json(sub) == target_json(sub[0]));
                assert(out@ =~= head + targets_json(sub));
            } else {
                assert(out@ =~= head + targets_json(sub));
            }
        }
        i += 1;
    }
    assert(ds.subrange(0, ds.len() as int) =~= ds);
    push_str_chars(&mut out, "]}},\"type\":\"AlexaAnnouncement\"}}");
    string_of(out.as_slice())
}

/// The stringified `sequenceJson` for an Alexa.Speak (text-to-speech) on
/// one device.
pub fn build_speak_sequence_json(text: &str, device: &Device) -> (r: String)
    ensures
        r@ == speak_json(text@, device@),
{
    let mut out: Vec<char> = Vec::new();
    push_str_chars(
        &mut out,
        "{\"@type\":\"com.amazon.alexa.behaviors.model.Sequence\",\"startNode\":{\"@type\":\"com.amazon.alexa.behaviors.model.OpaquePayloadOperationNode\",\"operationPayload\":{\"customerId\":",
    );
    push_quoted(&mut out, device.customer_id.as_str());
    push_str_chars(&mut out, ",\"deviceSerialNumber\":");
    push_quoted(&mut out, device.serial_number.as_str());
    push_str_chars(&mut out, ",\"deviceType\":");
    push_quoted(&mut out, device.device_type.as_str());
    push_str_chars(&mut out, ",\"locale\":\"en-US\",\"textToSpeak\":");
    push_quoted(&mut out, text);
    push_str_chars(&mut out, "},\"skillId\":\"amzn1.ask.1p.saysomething\",\"type\":\"Alexa.Speak\"}}");
    string_of(out.as_slice())
}

} // verus!

verus! {

// ---------------------------------------------------------------------------
// Diagnostics
// ---------------------------------------------------------------------------

/// A body cut to a short snippet: trimmed, and past 400 characters cut
/// there with an ellipsis.
pub open spec fn snippet_text(s: Seq<char>) -> Seq<char> {
    let t = trim(s);
    if t.len() > 400 {
        t.subrange(0, 400) + seq!['…']
    } else {
        t
    }
}

/// A short, character-safe snippet of a body for messages.
pub fn snippet(s: &str) -> (r: String)
    ensures
        r@ == snippet_text(s@),
{
    let v = chars_of(s);
    let t = trim_chars(v.as_slice());
    if t.len() > 400 {
        let mut short = sub_chars(t.as_slice(), 0, 400);
        short.push('…');
        string_of(short.as_slice())
    } else {
        string_of(t.as_slice())
    }
}

// ---------------------------------------------------------------------------
// Cookies and csrf
// ---------------------------------------------------------------------------

/// The (Name, Value) pairs of the cookie objects in a JSON document: inside
/// arrays, every object with string members `Name` and `Value`, searched
/// depth-first in document order.
pub open spec fn cookies_in(t: JsonTree) -> Seq<(Seq<char>, Seq<char>)>
    decreases t,
{
    match t {
        JsonTree::Array(items) => cookies_in_items(items),
        JsonTree::Object(entries) => cookies_in_entries(entries),
        _ => seq![],
    }
}

pub open spec fn cookies_in_items(items: Seq<JsonTree>) -> Seq<(Seq<char>, Seq<char>)>
    decreases items,
{
    if items.len() == 0 {
        seq![]
    } else {
        let item = items[items.len() - 1];
        cookies_in_items(items.subrange(0, items.len() - 1)) + match (
            json_str(json_field(item, "Name"@)),
            json_str(json_field(item, "Value"@)),
        ) {
            (Some(n), Some(v)) => seq![(n, v)],
            _ => cookies_in(item),
        }
    }
}

pub open spec fn cookies_in_entries(entries: Seq<(Seq<char>, JsonTree)>) -> Seq<
    (Seq<char>, Seq<char>),
>
    decreases entries,
{
    if entries.len() == 0 {
        seq![]
    } else {
        let e = entries[entries.len() - 1];
        cookies_in_entries(entries.subrange(0, entries.len() - 1)) + cookies_in(e.1)
    }
}

fn push_pair(out: &mut Vec<(String, String)>, n: &str, v: &str)
    ensures
        header_like_view(final(out)@) == header_like_view(old(out)@).push((n@, v@)),
{
    out.push((n.to_string(), v.to_string()));
    assert(header_like_view(out@) =~= header_like_view(old(out)@).push((n@, v@)));
}

pub open spec fn header_like_view(h: Seq<(String, String)>) -> Seq<(Seq<char>, Seq<char>)> {
    h.map_values(|p: (String, String)| (p.0@, p.1@))
}

/// Appends the cookie pairs found in `v` to `out`.
fn collect_cookies(v: &serde_json::Value, out: &mut Vec<(String, String)>)
    ensures
        header_like_view(final(out)@) == header_like_view(old(out)@) + cookies_in(
            json_content(*v),
        ),
    decreases json_content(*v),
{
    let ghost t = json_content(*v);
    let ghost o = header_like_view(out@);
    match json_as_array(v) {
        Some(arr) => {
            let ghost items = t->Array_0;
            let mut i: usize = 0;
            assert(cookies_in_items(items.subrange(0, 0)) =~= seq![]);
            assert(header_like_view(out@) =~= o + cookies_in_items(items.subrange(0, 0)));
            while i < arr.len()
                invariant
                    t == json_content(*v),
                    t is Array,
                    items == t->Array_0,
                    i <= arr.len(),
                    arr@.len() == items.len(),
                    forall|k: int|
                        0 <= k < arr@.len() ==> json_content(#[trigger] arr@[k]) == items[k],
                    header_like_view(out@) == o + cookies_in_items(items.subrange(0, i as int)),
                decreases arr.len() - i,
            {
                let item = &arr[i];
                let ghost sub = items.subrange(0, i + 1);
                assert(sub.subrange(0, sub.len() - 1) =~= items.subrange(0, i as int));
                assert(sub[sub.len() - 1] == items[i as int]);
                let name = match json_get(item, "Name") {
                    Some(n) => json_as_str(n),
                    None => None,
                };
                let value = match json_get(item, "Value") {
                    Some(x) => json_as_str(x),
                    None => None,
                };
                match (name, value) {
                    (Some(n), Some(val)) => {
                        push_pair(out, n, val);
                    },
                    _ => {
                        proof {
                            assert(decreases_to!(t => items));
                            assert(decreases_to!(items => items[i as int]));
                        }
                        collect_cookies(item, out);
                    },
                }
                assert(header_like_view(out@) =~= o + cookies_in_items(sub));
                i += 1;
            }
            assert(items.subrange(0, items.len() as int) =~= items);
        },
        None => match json_object_values(v) {
            Some(vals) => {
                let ghost entries = t->Object_0;
                let mut i: usize = 0;
                assert(cookies_in_entries(entries.subrange(0, 0)) =~= seq![]);
                assert(header_like_view(out@) =~= o + cookies_in_entries(entries.subrange(0, 0)));
                while i < vals.len()
                    invariant
                        t == json_content(*v),
                        t is Object,
                        entries == t->Object_0,
                        i <= vals.len(),
                        vals@.len() == entries.len(),
                        forall|k: int|
                            0 <= k < vals@.len() ==> json_content(*#[trigger] vals@[k])
                                == entries[k].1,
                        header_like_view(out@) == o + cookies_in_entries(
                            entries.subrange(0, i as int),
                        ),
                    decreases vals.len() - i,
                {
                    let ghost sub = entries.subrange(0, i + 1);
                    assert(sub.subrange(0, sub.len() - 1) =~= entries.subrange(0, i as int));
                    assert(sub[sub.len() - 1] == entries[i as int]);
                    proof {
                        assert(decreases_to!(t => entries));
                        assert(decreases_to!(entries => entries[i as int]));
                        assert(decreases_to!(entries[i as int] => entries[i as int].1));
                    }
                    collect_cookies(vals[i], out);
                    assert(header_like_view(out@) =~= o + cookies_in_entries(sub));
                    i += 1;
                }
                assert(entries.subrange(0, entries.len() as int) =~= entries);
            },
            None => {
                assert(cookies_in(t) =~= seq![]);
                assert(header_like_view(out@) =~= o + cookies_in(t));
            },
        },
    }
}

/// `Name1=Value1; Name2=Value2` for the given pairs.
pub open spec fn cookie_header_text(pairs: Seq<(Seq<char>, Seq<char>)>) -> Seq<char>
    decreases pairs.len(),
{
    if pairs.len() == 0 {
        seq![]
    } else if pairs.len() == 1 {
        pairs[0].0 + "="@ + pairs[0].1
    } else {
        cookie_header_text(pairs.drop_last()) + "; "@ + pairs.last().0 + "="@ + pairs.last().1
    }
}

/// The Cookie header made of the cookie objects found in the exchange's
/// reply, `None` where there are none.
pub fn extract_cookies(v: &serde_json::Value) -> (r: Option<String>)
    ensures
        ({
            let pairs = cookies_in(json_content(*v));
            &&& r is Some <==> pairs.len() > 0
            &&& r matches Some(h) ==> h@ == cookie_header_text(pairs)
        }),
{
    let mut pairs: Vec<(String, String)> = Vec::new();
    collect_cookies(v, &mut pairs);
    let ghost ps = header_like_view(pairs@);
    assert(ps =~= cookies_in(json_content(*v)));
    if pairs.len() == 0 {
        return None;
    }
    let mut out: Vec<char> = Vec::new();
    let mut i: usize = 0;
    assert(cookie_header_text(ps.subrange(0, 0)) =~= seq![]);
    while i < pairs.len()
        invariant
            i <= pairs.len(),
            ps == header_like_view(pairs@),
            out@ == cookie_header_text(ps.subrange(0, i as int)),
        decreases pairs.len() - i,
    {
        let ghost sub = ps.subrange(0, i + 1);
        assert(sub.drop_last() =~= ps.subrange(0, i as int));
        if i > 0 {
            push_str_chars(&mut out, "; ");
        }
        push_str_chars(&mut out, pairs[i].0.as_str());
        push_str_chars(&mut out, "=");
        push_str_chars(&mut out, pairs[i].1.as_str());
        proof {
            if i == 0 {
                assert(out@ =~= cookie_header_text(sub));
            } else {
                assert(out@ =~= cookie_header_text(sub));
            }
        }
        i += 1;
    }
    assert(ps.subrange(0, ps.len() as int) =~= ps);
    Some(string_of(out.as_slice()))
}

/// The csrf value of one `;`-separated segment of a Cookie header.
pub open spec fn csrf_of_segment(seg: Seq<char>) -> Option<Seq<char>> {
    match strip_prefix(trim(seg), "csrf="@) {
        Some(v) => if v.len() > 0 {
            Some(v)
        } else {
            None
        },
        None => None,
    }
}

/// The first non-empty `csrf=` value among the `;`-separated segments.
pub open spec fn csrf_in(header: Seq<char>) -> Option<Seq<char>>
    decreases header.len(),
{
    match index_of(header, ';') {
        Some(i) => if 0 <= i < header.len() {
            match csrf_of_segment(header.subrange(0, i)) {
                Some(v) => Some(v),
                None => csrf_in(header.subrange(i + 1, header.len() as int)),
            }
        } else {
            None
        },
        None => csrf_of_segment(header),
    }
}

fn csrf_of_segment_exec(seg: &[char]) -> (r: Option<Vec<char>>)
    ensures
        r matches Some(v) ==> csrf_of_segment(seg@) == Some(v@),
        r is None ==> csrf_of_segment(seg@) is None,
{
    let t = trim_chars(seg);
    let p = chars_of("csrf=");
    match strip_prefix_chars(t.as_slice(), p.as_slice()) {
        Some(v) => if v.len() > 0 {
            Some(v)
        } else {
            None
        },
        None => None,
    }
}

/// The `csrf` value in a Cookie-style header.
pub fn extract_csrf(cookie_header: &str) -> (r: Option<String>)
    ensures
        r matches Some(c) ==> csrf_in(cookie_header@) == Some(c@),
        r is None ==> csrf_in(cookie_header@) is None,
{
    let mut rest = chars_of(cookie_header);
    loop
        invariant
            csrf_in(cookie_header@) == csrf_in(rest@),
        decreases rest@.len(),
    {
        match index_of_exec(rest.as_slice(), ';') {
            Some(i) => {
                proof {
                    lemma_find_from_props(rest@, seq![';'], 0);
                }
                assert(crate::text::occurs_at(rest@, seq![';'], i as int));
                assert(i < rest.len());
                let seg = sub_chars(rest.as_slice(), 0, i);
                match csrf_of_segment_exec(seg.as_slice()) {
                    Some(v) => return Some(string_of(v.as_slice())),
                    None => {},
                }
                rest = sub_chars(rest.as_slice(), i + 1, rest.len());
            },
            None => {
                return match csrf_of_segment_exec(rest.as_slice()) {
                    Some(v) => Some(string_of(v.as_slice())),
                    None => None,
                };
            },
        }
    }
}

/// `name=value` pairs, percent-encoded and joined by `&`.
pub open spec fn form_text(pairs: Seq<(Seq<char>, Seq<char>)>) -> Seq<char>
    decreases pairs.len(),
{
    if pairs.len() == 0 {
        seq![]
    } else if pairs.len() == 1 {
        pct(pairs[0].0) + "="@ + pct(pairs[0].1)
    } else {
        form_text(pairs.drop_last()) + "&"@ + pct(pairs.last().0) + "="@ + pct(pairs.last().1)
    }
}

pub open spec fn str_pairs_view(pairs: Seq<(&str, &str)>) -> Seq<(Seq<char>, Seq<char>)> {
    pairs.map_values(|p: (&str, &str)| (p.0@, p.1@))
}

/// An `application/x-www-form-urlencoded` body.
pub fn form_encode(pairs: &[(&str, &str)]) -> (r: String)
    ensures
        r@ == form_text(str_pairs_view(pairs@)),
{
    let ghost ps = str_pairs_view(pairs@);
    let mut out: Vec<char> = Vec::new();
    let mut i: usize = 0;
    assert(form_text(ps.subrange(0, 0)) =~= seq![]);
    while i < pairs.len()
        invariant
            i <= pairs.len(),
            ps == str_pairs_view(pairs@),
            out@ == form_text(ps.subrange(0, i as int)),
        decreases pairs.len() - i,
    {
        let ghost sub = ps.subrange(0, i + 1);
        assert(sub.drop_last() =~= ps.subrange(0, i as int));
        if i > 0 {
            push_str_chars(&mut out, "&");
        }
        let (k, v) = pairs[i];
        push_str_chars(&mut out, url_encode_component(k).as_str());
        push_str_chars(&mut out, "=");
        push_str_chars(&mut out, url_encode_component(v).as_str());
        assert(out@ =~= form_text(sub));
        i += 1;
    }
    assert(ps.subrange(0, ps.len() as int) =~= ps);
    string_of(out.as_slice())
}

/// The Cookie header of a behavior request: the website cookies (when there
/// are any) and the csrf cookie (when known), joined by `; `.
pub open spec fn full_cookie_text(s: RemoteStateView) -> Seq<char> {
    let cookies = match s.cookies {
        Some(c) => if c.len() > 0 {
            Some(c)
        } else {
            None
        },
        None => None,
    };
    match (cookies, s.csrf) {
        (Some(c), Some(t)) => c + "; "@ + "csrf="@ + t,
        (Some(c), None) => c,
        (None, Some(t)) => "csrf="@ + t,
        (None, None) => Seq::empty(),
    }
}

/// The full Cookie header used for behavior requests.
pub fn full_cookie_header(state: &RemoteState) -> (r: String)
    ensures
        r@ == full_cookie_text(state@),
{
    let mut out: Vec<char> = Vec::new();
    let mut any = false;
    match &state.cookies {
        Some(c) => if !c.as_str().is_empty() {
            push_str_chars(&mut out, c.as_str());
            any = true;
        },
        None => {},
    }
    match &state.csrf {
        Some(t) => {
            if any {
                push_str_chars(&mut out, "; ");
            }
            push_str_chars(&mut out, "csrf=");
            push_str_chars(&mut out, t.as_str());
        },
        None => {},
    }
    proof {
        reveal_strlit("");
        if !any && state.csrf is None {
            assert(out@ =~= Seq::<char>::empty());
        }
    }
    assert(out@ =~= full_cookie_text(state@));
    string_of(out.as_slice())
}

// ---------------------------------------------------------------------------
// Login flow decisions
// ---------------------------------------------------------------------------

/// The refresh token to trade for cookies: the website one, else the AVS one.
pub open spec fn refresh_token_choice(s: RemoteStateView, avs: Option<TokensRefresh>) -> Option<Seq<char>> {
    match s.refresh_token {
        Some(rt) if rt.len() > 0 => Some(rt),
        _ => match avs {
            Some(t) if t.0.len() > 0 => Some(t.0),
            _ => None,
        },
    }
}

/// The refresh token of the AVS tokens, as the choice above reads it.
pub struct TokensRefresh(pub Seq<char>);

pub open spec fn avs_refresh(avs: Option<&Tokens>) -> Option<TokensRefresh> {
    match avs {
        Some(t) => Some(TokensRefresh(t.refresh_token@)),
        None => None,
    }
}

/// The refresh token to exchange for website cookies: the one stored for the
/// website, else the refresh token of the AVS login (`avs_tokens`, as read
/// from `tokens.json`).
pub fn refresh_token(state: &RemoteState, avs_tokens: Option<&Tokens>) -> (r: Result<
    String,
    RemoteError,
>)
    ensures
        match refresh_token_choice(state@, avs_refresh(avs_tokens)) {
            Some(t) => r matches Ok(x) && x@ == t,
            None => r matches Err(RemoteError::NoRemoteAuth),
        },
{
    match &state.refresh_token {
        Some(rt) => if !rt.as_str().is_empty() {
            return Ok(rt.clone());
        },
        None => {},
    }
    match avs_tokens {
        Some(t) => if !t.refresh_token.as_str().is_empty() {
            return Ok(t.refresh_token.clone());
        },
        None => {},
    }
    Err(RemoteError::NoRemoteAuth)
}

fn concat3(a: &str, b: &str, c: &str) -> (r: String)
    ensures
        r@ == a@ + b@ + c@,
{
    let mut out: Vec<char> = Vec::new();
    push_str_chars(&mut out, a);
    push_str_chars(&mut out, b);
    push_str_chars(&mut out, c);
    string_of(out.as_slice())
}

/// The endpoint that trades a refresh token for website cookies.
pub fn cookie_exchange_url(tld: &str) -> (r: String)
    ensures
        r@ == "https://www.amazon."@ + tld@ + "/ap/exchangetoken/cookies"@,
{
    concat3("https://www.amazon.", tld, "/ap/exchangetoken/cookies")
}

/// The `x-amzn-identity-auth-domain` header of the cookie exchange.
pub fn identity_auth_domain(tld: &str) -> (r: String)
    ensures
        r@ == "api.amazon."@ + tld@,
{
    let r = concat3("api.amazon.", tld, "");
    proof {
        reveal_strlit("");
    }
    r
}

/// The form body of the cookie exchange.
pub fn cookie_exchange_form(refresh_token: &str, tld: &str) -> (r: String)
    ensures
        r@ == form_text(
            seq![
                ("source_token_type"@, "refresh_token"@),
                ("source_token"@, refresh_token@),
                ("requested_token_type"@, "auth_cookies"@),
                ("domain"@, ".amazon."@ + tld@),
                ("app_name"@, "Amazon Alexa"@),
            ],
        ),
{
    let domain = concat3(".amazon.", tld, "");
    proof {
        reveal_strlit("");
    }
    let pairs = [
        ("source_token_type", "refresh_token"),
        ("source_token", refresh_token),
        ("requested_token_type", "auth_cookies"),
        ("domain", domain.as_str()),
        ("app_name", "Amazon Alexa"),
    ];
    let r = form_encode(&pairs);
    assert(str_pairs_view(pairs@) =~= seq![
        ("source_token_type"@, "refresh_token"@),
        ("source_token"@, refresh_token@),
        ("requested_token_type"@, "auth_cookies"@),
        ("domain"@, ".amazon."@ + tld@),
        ("app_name"@, "Amazon Alexa"@),
    ]);
    r
}

/// What the cookie exchange's reply text gives: the Cookie header made of
/// the cookies in it.
pub open spec fn exchange_cookies_outcome(text: Seq<char>) -> Result<Seq<char>, RemoteError> {
    match json_parse_text(text) {
        None => Err(RemoteError::ExchangeNotJson),
        Some(t) => {
            let pairs = cookies_in(t);
            if pairs.len() > 0 {
                Ok(cookie_header_text(pairs))
            } else {
                Err(RemoteError::NoExchangeCookies)
            }
        },
    }
}

/// The website Cookie header in the cookie exchange's reply.
pub fn cookies_from_exchange(text: &str) -> (r: Result<String, RemoteError>)
    ensures
        match exchange_cookies_outcome(text@) {
            Ok(h) => r matches Ok(x) && x@ == h,
            Err(RemoteError::ExchangeNotJson) => r matches Err(RemoteError::ExchangeNotJson),
            Err(_) => r matches Err(RemoteError::NoExchangeCookies),
        },
{
    let v = match parse_json_text(text) {
        Some(v) => v,
        None => return Err(RemoteError::ExchangeNotJson),
    };
    match extract_cookies(&v) {
        Some(h) => Ok(h),
        None => Err(RemoteError::NoExchangeCookies),
    }
}

/// Whether the state already holds website cookies (so none need be
/// fetched).
pub fn has_cookies(state: &RemoteState) -> (r: bool)
    ensures
        r == (state@.cookies matches Some(c) && c.len() > 0),
{
    match &state.cookies {
        Some(c) => !c.as_str().is_empty(),
        None => false,
    }
}

/// Stores freshly exchanged website cookies.
pub fn store_cookies(state: &mut RemoteState, cookies: String)
    ensures
        final(state)@ == (RemoteStateView { cookies: Some(cookies@), ..old(state)@ }),
{
    state.cookies = Some(cookies);
}

// ---------------------------------------------------------------------------
// Device-list request
// ---------------------------------------------------------------------------

/// `alexa.amazon.{tld}`.
pub fn alexa_host(tld: &str) -> (r: String)
    ensures
        r@ == "alexa.amazon."@ + tld@,
{
    let r = concat3("alexa.amazon.", tld, "");
    proof {
        reveal_strlit("");
    }
    r
}

/// `https://alexa.amazon.{tld}/`, the URL the session cookies belong to.
pub fn base_url(tld: &str) -> (r: String)
    ensures
        r@ == "https://alexa.amazon."@ + tld@ + "/"@,
{
    concat3("https://alexa.amazon.", tld, "/")
}

/// The device-list endpoint.
pub fn devices_url(tld: &str) -> (r: String)
    ensures
        r@ == "https://alexa.amazon."@ + tld@ + "/api/devices-v2/device?cached=false"@,
{
    concat3("https://alexa.amazon.", tld, "/api/devices-v2/device?cached=false")
}

/// The non-empty `; `-separated pieces of a Cookie header.
pub open spec fn cookie_pieces(s: Seq<char>) -> Seq<Seq<char>>
    decreases s.len(),
{
    match crate::text::find_from(s, "; "@, 0) {
        Some(i) => if 0 <= i && i + 2 <= s.len() {
            (if i > 0 {
                seq![s.subrange(0, i)]
            } else {
                seq![]
            }) + cookie_pieces(s.subrange(i + 2, s.len() as int))
        } else {
            seq![]
        },
        None => if s.len() > 0 {
            seq![s]
        } else {
            seq![]
        },
    }
}

pub open spec fn strings_view(v: Seq<String>) -> Seq<Seq<char>> {
    v.map_values(|x: String| x@)
}

/// The cookies to seed the request's cookie jar with: the non-empty pieces
/// of the stored Cookie header split at `; `. Fails where no cookies are
/// stored.
pub fn session_cookie_pieces(state: &RemoteState) -> (r: Result<Vec<String>, RemoteError>)
    ensures
        match state@.cookies {
            Some(c) if c.len() > 0 => r matches Ok(v) && strings_view(v@)
                == cookie_pieces(c),
            _ => r matches Err(RemoteError::NoSessionCookies),
        },
{
    let c = match &state.cookies {
        Some(c) => if c.as_str().is_empty() {
            return Err(RemoteError::NoSessionCookies);
        } else {
            c
        },
        None => return Err(RemoteError::NoSessionCookies),
    };
    let sep = chars_of("; ");
    let mut rest = chars_of(c.as_str());
    let mut out: Vec<String> = Vec::new();
    let ghost whole = c@;
    assert(strings_view(out@) =~= seq![]);
    loop
        invariant
            sep@ == "; "@,
            state@.cookies == Some(whole),
            whole.len() > 0,
            cookie_pieces(whole) == strings_view(out@) + cookie_pieces(rest@),
        decreases rest@.len(),
    {
        let ghost before = strings_view(out@);
        match find_chars(rest.as_slice(), sep.as_slice(), 0) {
            Some(i) => {
                proof {
                    lemma_find_from_props(rest@, sep@, 0);
                }
                assert(crate::text::occurs_at(rest@, sep@, i as int));
                assert(i + sep@.len() <= rest.len());
                if i > 0 {
                    let piece = sub_chars(rest.as_slice(), 0, i);
                    out.push(string_of(piece.as_slice()));
                }
                proof {
                    reveal_strlit("; ");
                }
                assert(strings_view(out@) =~= before + (if i > 0 {
                    seq![rest@.subrange(0, i as int)]
                } else {
                    seq![]
                }));
                rest = sub_chars(rest.as_slice(), i + sep.len(), rest.len());
            },
            None => {
                if rest.len() > 0 {
                    out.push(string_of(rest.as_slice()));
                }
                assert(strings_view(out@) =~= before + cookie_pieces(rest@));
                return Ok(out);
            },
        }
    }
}

/// Whether a status means the session is not (or no longer) authorized.
pub fn is_auth_failure(status: u16) -> (r: bool)
    ensures
        r == (status == 401 || status == 403),
{
    status == 401 || status == 403
}

/// Whether a status is a success (2xx).
pub fn is_success(status: u16) -> (r: bool)
    ensures
        r == (200 <= status < 300),
{
    200 <= status && status < 300
}

/// The pages fetched, in order, to obtain a csrf cookie when the device
/// list did not set one.
pub open spec fn csrf_probe_path(k: int) -> Seq<char> {
    if k == 0 {
        "/api/bootstrap?version=0"@
    } else {
        "/api/language"@
    }
}

/// The next step of obtaining a csrf token.
pub enum CsrfStep {
    /// The token is known.
    Found(String),
    /// Fetch this URL, then read the cookie jar again.
    Fetch(String),
    /// Every page was tried.
    GiveUp,
}

/// Decides the next step of obtaining a csrf token, after `tried` extra
/// pages were fetched and the cookie jar yielded `found`.
pub fn next_csrf_step(tld: &str, tried: usize, found: Option<String>) -> (r: CsrfStep)
    ensures
        match found {
            Some(c) => r matches CsrfStep::Found(x) && x@ == c@,
            None => if tried < 2 {
                r matches CsrfStep::Fetch(u) && u@ == "https://alexa.amazon."@ + tld@
                    + csrf_probe_path(tried as int)
            } else {
                r matches CsrfStep::GiveUp
            },
        },
{
    match found {
        Some(c) => CsrfStep::Found(c),
        None => if tried == 0 {
            CsrfStep::Fetch(concat3("https://alexa.amazon.", tld, "/api/bootstrap?version=0"))
        } else if tried == 1 {
            CsrfStep::Fetch(concat3("https://alexa.amazon.", tld, "/api/language"))
        } else {
            CsrfStep::GiveUp
        },
    }
}

/// The owner's customer id learned from a device list: the first device's,
/// when it is not empty.
pub open spec fn learned_customer(ds: Seq<DeviceView>) -> Option<Seq<char>> {
    if ds.len() > 0 && ds[0].customer_id.len() > 0 {
        Some(ds[0].customer_id)
    } else {
        None
    }
}

/// The devices in a device-list reply (none where it is not JSON) and the
/// customer id learned from them.
pub fn devices_from_reply(text: &str) -> (r: (Vec<Device>, Option<String>))
    ensures
        devices_view(r.0@) == match json_parse_text(text@) {
            Some(t) => devices_in(t),
            None => seq![],
        },
        opt_view(r.1) == learned_customer(devices_view(r.0@)),
{
    let devices = match parse_json_text(text) {
        Some(v) => parse_devices(&v),
        None => {
            let d: Vec<Device> = Vec::new();
            assert(devices_view(d@) =~= seq![]);
            d
        },
    };
    let customer = if devices.len() > 0 && !devices[0].customer_id.as_str().is_empty() {
        Some(devices[0].customer_id.clone())
    } else {
        None
    };
    (devices, customer)
}

/// Records a successful device-list fetch: the csrf token, and the customer
/// id where one was learned.
pub fn record_fetch(state: &mut RemoteState, csrf: String, customer_id: Option<String>)
    ensures
        final(state)@ == (RemoteStateView {
            csrf: Some(csrf@),
            customer_id: match customer_id {
                Some(c) => Some(c@),
                None => old(state)@.customer_id,
            },
            ..old(state)@
        }),
{
    state.csrf = Some(csrf);
    if customer_id.is_some() {
        state.customer_id = customer_id;
    }
}

/// Forgets the website session (cookies and csrf) so that it is acquired
/// again.
pub fn clear_session(state: &mut RemoteState)
    ensures
        final(state)@ == (RemoteStateView { cookies: None, csrf: None, ..old(state)@ }),
{
    state.cookies = None;
    state.csrf = None;
}

// ---------------------------------------------------------------------------
// Behavior request
// ---------------------------------------------------------------------------

/// The behavior preview endpoint.
pub fn behaviors_url(tld: &str) -> (r: String)
    ensures
        r@ == "https://alexa.amazon."@ + tld@ + "/api/behaviors/preview"@,
{
    concat3("https://alexa.amazon.", tld, "/api/behaviors/preview")
}

pub open spec fn behavior_body_text(sequence_json: Seq<char>) -> Seq<char> {
    "{\"behaviorId\":\"PREVIEW\",\"sequenceJson\":"@ + json_quote(sequence_json)
        + ",\"status\":\"ENABLED\"}"@
}

/// The JSON body of a behavior preview request.
pub fn behavior_body(sequence_json: &str) -> (r: String)
    ensures
        r@ == behavior_body_text(sequence_json@),
{
    let mut out: Vec<char> = Vec::new();
    push_str_chars(&mut out, "{\"behaviorId\":\"PREVIEW\",\"sequenceJson\":");
    push_quoted(&mut out, sequence_json);
    push_str_chars(&mut out, ",\"status\":\"ENABLED\"}");
    string_of(out.as_slice())
}

/// The `csrf` request header: the stored token, or empty.
pub fn csrf_header(state: &RemoteState) -> (r: String)
    ensures
        r@ == match state@.csrf {
            Some(c) => c,
            None => Seq::empty(),
        },
{
    match &state.csrf {
        Some(c) => c.clone(),
        None => String::new(),
    }
}

// ---------------------------------------------------------------------------
// High-level decisions
// ---------------------------------------------------------------------------

/// The announcement to post: to every online speaker (not Fire TVs, tablets
/// or phones) when `all`, else to the devices named `name`.
pub fn plan_announce(
    devices: &[Device],
    message: &str,
    title: &str,
    name: Option<&str>,
    all: bool,
) -> (r: Result<String, RemoteError>)
    ensures
        ({
            let n = match name {
                Some(n) => Some(n@),
                None => None,
            };
            let ds = devices_view(devices@);
            if all {
                let speakers = speaker_devices(ds);
                if speakers.len() == 0 {
                    r matches Err(RemoteError::NoOnlineDevices)
                } else {
                    r matches Ok(s) && s@ == announcement_json(message@, title@, speakers)
                }
            } else {
                match n {
                    Some(x) => {
                        let found = devices_named(ds, unicode_lowercase(x));
                        if found.len() == 0 {
                            r matches Err(RemoteError::NoNameMatch { name: y }) && y@ == x
                        } else {
                            r matches Ok(s) && s@ == announcement_json(message@, title@, found)
                        }
                    },
                    None => r matches Err(RemoteError::NoTarget),
                }
            }
        }),
{
    if all {
        let targets = speakers(devices);
        if targets.len() == 0 {
            return Err(RemoteError::NoOnlineDevices);
        }
        return Ok(build_announcement_sequence_json(message, title, targets.as_slice()));
    }
    let targets = resolve_devices(devices, name, false)?;
    Ok(build_announcement_sequence_json(message, title, targets.as_slice()))
}

/// The online speakers among the devices: every online device but Fire TVs,
/// tablets and phones, in order.
pub fn speakers(devices: &[Device]) -> (r: Vec<Device>)
    ensures
        devices_view(r@) == speaker_devices(devices_view(devices@)),
{
    let ghost ds = devices_view(devices@);
    let mut out: Vec<Device> = Vec::new();
    let mut i: usize = 0;
    assert(devices_view(out@) =~= speaker_devices(ds.subrange(0, 0)));
    while i < devices.len()
        invariant
            i <= devices.len(),
            ds == devices_view(devices@),
            devices_view(out@) == speaker_devices(ds.subrange(0, i as int)),
        decreases devices.len() - i,
    {
        if devices[i].online && is_announce_target(&devices[i]) {
            out.push(devices[i].clone());
        }
        assert(ds.subrange(0, i + 1).drop_last() =~= ds.subrange(0, i as int));
        assert(devices_view(out@) =~= speaker_devices(ds.subrange(0, i + 1)));
        i += 1;
    }
    assert(ds.subrange(0, ds.len() as int) =~= ds);
    out
}

/// The speech to post: to the first device named `name`.
pub fn plan_say(devices: &[Device], message: &str, name: &str) -> (r: Result<String, RemoteError>)
    ensures
        ({
            let found = devices_named(devices_view(devices@), unicode_lowercase(name@));
            if found.len() == 0 {
                r matches Err(RemoteError::NoNameMatch { name: y }) && y@ == name@
            } else {
                r matches Ok(s) && s@ == speak_json(message@, found[0])
            }
        }),
{
    let targets = resolve_devices(devices, Some(name), false)?;
    Ok(build_speak_sequence_json(message, &targets[0]))
}

/// Stores auth material: a refresh token and/or a pre-baked Cookie header.
/// A new Cookie header invalidates the cached csrf token.
pub fn set_auth(state: &mut RemoteState, refresh_token: Option<String>, cookie: Option<String>)
    ensures
        final(state)@ == (RemoteStateView {
            refresh_token: match refresh_token {
                Some(t) => Some(t@),
                None => old(state)@.refresh_token,
            },
            cookies: match cookie {
                Some(c) => Some(c@),
                None => old(state)@.cookies,
            },
            csrf: match cookie {
                Some(_) => None,
                None => old(state)@.csrf,
            },
            ..old(state)@
        }),
{
    if refresh_token.is_some() {
        state.refresh_token = refresh_token;
    }
    if cookie.is_some() {
        state.cookies = cookie;
        state.csrf = None;
    }
}

/// What to do after a request to the website API.
#[derive(Clone, Copy, Debug, PartialEq, Eq, Structural)]
pub enum SessionStep {
    /// The request succeeded.
    Done,
    /// Drop the session (cookies and csrf), sign in afresh, and try once more.
    ClearAndRetry,
    /// Report the failure.
    Fail,
}

/// After fetching the device list: done where it was fetched; a first
/// failure is retried once with a fresh session; a failure of the retry is
/// reported.
pub fn after_device_fetch(retried: bool, fetched: bool) -> (r: SessionStep)
    ensures
        r == if fetched {
            SessionStep::Done
        } else if !retried {
            SessionStep::ClearAndRetry
        } else {
            SessionStep::Fail
        },
{
    if fetched {
        SessionStep::Done
    } else if !retried {
        SessionStep::ClearAndRetry
    } else {
        SessionStep::Fail
    }
}

/// After posting a behavior: done on a 2xx status; a first 401 or 403 is
/// retried once with a fresh session; anything else, or any failure of the
/// resent request, is reported.
pub fn after_behavior_post(resent: bool, status: u16) -> (r: SessionStep)
    ensures
        r == if 200 <= status < 300 {
            SessionStep::Done
        } else if !resent && (status == 401 || status == 403) {
            SessionStep::ClearAndRetry
        } else {
            SessionStep::Fail
        },
{
    if is_success(status) {
        SessionStep::Done
    } else if !resent && is_auth_failure(status) {
        SessionStep::ClearAndRetry
    } else {
        SessionStep::Fail
    }
}

/// A device's name matches a lower-cased name exactly when that name occurs
/// somewhere in the device's lower-cased name, at any position.
pub proof fn lemma_name_matches_substring(d: DeviceView, needle: Seq<char>)
    ensures
        name_matches(d, needle) <==> exists|i: int|
            occurs_at(unicode_lowercase(d.account_name), needle, i),
{
    let hay = unicode_lowercase(d.account_name);
    crate::text::lemma_find_from_props(hay, needle, 0);
    if exists|i: int| occurs_at(hay, needle, i) {
        let i = choose|i: int| occurs_at(hay, needle, i);
        assert(0 <= i);
    }
}

/// Targeting by name selects a device exactly when the lower-cased name
/// occurs somewhere in the device's lower-cased name: every such device is
/// chosen, and every chosen device is among the given ones and has one.
pub proof fn lemma_devices_named_substring(ds: Seq<DeviceView>, needle: Seq<char>)
    ensures
        forall|j: int, i: int|
            0 <= j < ds.len() && #[trigger] occurs_at(unicode_lowercase(ds[j].account_name), needle, i)
                ==> devices_named(ds, needle).contains(ds[j]),
        forall|k: int|
            0 <= k < devices_named(ds, needle).len() ==> ds.contains(
                #[trigger] devices_named(ds, needle)[k],
            ) && exists|i: int|
                occurs_at(unicode_lowercase(devices_named(ds, needle)[k].account_name), needle, i),
{
    lemma_devices_named_exact(ds, needle);
    assert forall|j: int, i: int|
        0 <= j < ds.len() && #[trigger] occurs_at(unicode_lowercase(ds[j].account_name), needle, i)
            implies devices_named(ds, needle).contains(ds[j]) by {
        lemma_name_matches_substring(ds[j], needle);
        assert(name_matches(ds[j], needle));
    }
    assert forall|k: int| 0 <= k < devices_named(ds, needle).len() implies ds.contains(
        #[trigger] devices_named(ds, needle)[k],
    ) && exists|i: int|
        occurs_at(unicode_lowercase(devices_named(ds, needle)[k].account_name), needle, i) by {
        lemma_name_matches_substring(devices_named(ds, needle)[k], needle);
    }
}

/// Resolving by name finds every device whose lower-cased name contains the
/// lower-cased name anywhere: the result is `Ok` and holds that device.
pub proof fn lemma_resolve_by_name_finds(
    r: Result<Vec<Device>, RemoteError>,
    ds: Seq<DeviceView>,
    n: Seq<char>,
    j: int,
    i: int,
)
    requires
        resolve_matches(r, ds, Some(n), false),
        0 <= j < ds.len(),
        occurs_at(unicode_lowercase(ds[j].account_name), unicode_lowercase(n), i),
    ensures
        r matches Ok(v) && devices_view(v@).contains(ds[j]),
{
    lemma_devices_named_substring(ds, unicode_lowercase(n));
    assert(devices_named(ds, unicode_lowercase(n)).contains(ds[j]));
}

/// A string member of a JSON object, or the empty text where the member is
/// missing or not a string.
pub open spec fn member_text(entry: JsonTree, key: Seq<char>) -> Seq<char> {
    match json_str(json_field(entry, key)) {
        Some(t) => t,
        None => Seq::empty(),
    }
}

/// Each field of a listed device is read from its own member of the entry:
/// the serial number from `serialNumber`, the type from `deviceType`, the
/// name from `accountName`, the owner from `deviceOwnerCustomerId`, the
/// family from `deviceFamily` (each empty where missing) and `online` from
/// `online` (false where missing). An entry without a non-empty
/// `serialNumber` gives no device.
pub proof fn lemma_device_entry_fields(entry: JsonTree)
    ensures
        match json_str(json_field(entry, "serialNumber"@)) {
            Some(serial) => if serial.len() > 0 {
                device_of_entry(entry) matches Some(d) && {
                    &&& d.serial_number == serial
                    &&& d.device_type == member_text(entry, "deviceType"@)
                    &&& d.account_name == member_text(entry, "accountName"@)
                    &&& d.customer_id == member_text(entry, "deviceOwnerCustomerId"@)
                    &&& d.device_family == member_text(entry, "deviceFamily"@)
                    &&& d.online == (json_bool(json_field(entry, "online"@)) == Some(true))
                }
            } else {
                device_of_entry(entry) is None
            },
            None => device_of_entry(entry) is None,
        },
{
}

/// The devices of a list of entries are exactly the devices its entries
/// describe: each entry's device is listed, and each listed device is some
/// entry's.
pub proof fn lemma_devices_of_entries_exact(entries: Seq<JsonTree>)
    ensures
        forall|e: int|
            0 <= e < entries.len() && (#[trigger] device_of_entry(entries[e])) is Some
                ==> devices_of_entries(entries).contains(device_of_entry(entries[e])->0),
        forall|k: int|
            0 <= k < devices_of_entries(entries).len() ==> exists|e: int|
                0 <= e < entries.len() && device_of_entry(entries[e]) == Some(
                    #[trigger] devices_of_entries(entries)[k],
                ),
    decreases entries.len(),
{
    if entries.len() > 0 {
        let p = entries.drop_last();
        lemma_devices_of_entries_exact(p);
        let o = devices_of_entries(entries);
        let op = devices_of_entries(p);
        assert forall|e: int|
            0 <= e < entries.len() && (#[trigger] device_of_entry(entries[e])) is Some implies o.contains(
            device_of_entry(entries[e])->0,
        ) by {
            if e < entries.len() - 1 {
                assert(p[e] == entries[e]);
                assert(device_of_entry(p[e]) is Some);
                let k = choose|k: int| 0 <= k < op.len() && op[k] == device_of_entry(p[e])->0;
                assert(o[k] == op[k]);
            } else {
                assert(o[o.len() - 1] == device_of_entry(entries.last())->0);
            }
        }
        assert forall|k: int| 0 <= k < o.len() implies exists|e: int|
            0 <= e < entries.len() && device_of_entry(entries[e]) == Some(#[trigger] o[k]) by {
            if k < op.len() {
                assert(o[k] == op[k]);
                let e = choose|e: int| 0 <= e < p.len() && device_of_entry(p[e]) == Some(op[k]);
                assert(entries[e] == p[e]);
            } else {
                assert(device_of_entry(entries[entries.len() - 1]) == Some(o[k]));
            }
        }
    }
}

/// One announcement target as a JSON object: the device's serial number
/// under `deviceSerialNumber` and its type under `deviceTypeId`.
pub open spec fn device_target_object(d: DeviceView) -> Seq<char> {
    crate::json::json_object_text(
        seq![
            crate::json::json_member("deviceSerialNumber"@, json_quote(d.serial_number)),
            crate::json::json_member("deviceTypeId"@, json_quote(d.device_type)),
        ],
    )
}

pub open spec fn device_target_objects(ds: Seq<DeviceView>) -> Seq<Seq<char>> {
    ds.map_values(|d: DeviceView| device_target_object(d))
}

proof fn lemma_target_object(d: DeviceView)
    ensures
        target_json(d) == device_target_object(d),
{
    reveal_strlit("deviceSerialNumber");
    reveal_strlit("deviceTypeId");
    reveal_strlit("{\"deviceSerialNumber\":");
    reveal_strlit(",\"deviceTypeId\":");
    reveal_strlit("}");
    let k1 = "deviceSerialNumber"@;
    let k2 = "deviceTypeId"@;
    assert(crate::json::json_plain(k1));
    assert(crate::json::json_plain(k2));
    crate::json::lemma_json_escape_plain(k1);
    crate::json::lemma_json_escape_plain(k2);
    let m1 = crate::json::json_member(k1, json_quote(d.serial_number));
    let m2 = crate::json::json_member(k2, json_quote(d.device_type));
    let two = seq![m1, m2];
    assert(two.len() == 2 && two[0] == m1);
    assert(two.drop_first() =~= seq![m2]);
    assert(seq![m2].len() == 1 && seq![m2][0] == m2);
    assert(crate::text::join(seq![m2], seq![',']) == m2);
    assert(crate::text::join(two, seq![',']) == m1 + seq![','] + m2);
    assert(target_json(d) =~= device_target_object(d));
}

proof fn lemma_targets_join(ds: Seq<DeviceView>)
    ensures
        targets_json(ds) == crate::text::join(device_target_objects(ds), seq![',']),
    decreases ds.len(),
{
    let objs = device_target_objects(ds);
    if ds.len() == 0 {
        assert(objs =~= seq![]);
    } else if ds.len() == 1 {
        lemma_target_object(ds[0]);
        assert(objs =~= seq![device_target_object(ds[0])]);
    } else {
        let p = ds.drop_last();
        lemma_targets_join(p);
        lemma_target_object(ds.last());
        assert(objs =~= device_target_objects(p).push(device_target_object(ds.last())));
        assert(device_target_objects(p).len() > 0);
        crate::text::lemma_join_push(device_target_objects(p), seq![','], device_target_object(ds.last()));
        reveal_strlit(",");
        assert(","@ =~= seq![',']);
    }
}

/// The targets of an announcement, as its `devices` array reads them: a JSON
/// array holding, for each target in order, the object of its serial number
/// (`deviceSerialNumber`) and its type (`deviceTypeId`).
pub proof fn lemma_announcement_targets(ds: Seq<DeviceView>)
    ensures
        seq!['['] + targets_json(ds) + seq![']'] == crate::json::json_array_text(
            device_target_objects(ds),
        ),
{
    lemma_targets_join(ds);
}

/// One cookie as a Cookie header writes it: `name=value`.
pub open spec fn cookie_piece(p: (Seq<char>, Seq<char>)) -> Seq<char> {
    p.0 + seq!['='] + p.1
}

pub open spec fn cookie_pieces_of(pairs: Seq<(Seq<char>, Seq<char>)>) -> Seq<Seq<char>> {
    pairs.map_values(|p: (Seq<char>, Seq<char>)| cookie_piece(p))
}

/// The Cookie header is the cookies' `name=value` pieces joined by `; `.
pub proof fn lemma_cookie_header_joins(pairs: Seq<(Seq<char>, Seq<char>)>)
    ensures
        cookie_header_text(pairs) == crate::text::join(cookie_pieces_of(pairs), seq![';', ' ']),
    decreases pairs.len(),
{
    reveal_strlit("; ");
    reveal_strlit("=");
    let ps = cookie_pieces_of(pairs);
    if pairs.len() == 0 {
        assert(ps =~= seq![]);
    } else if pairs.len() == 1 {
        assert(ps =~= seq![cookie_piece(pairs[0])]);
        assert(cookie_header_text(pairs) =~= cookie_piece(pairs[0]));
    } else {
        let p = pairs.drop_last();
        lemma_cookie_header_joins(p);
        assert(ps =~= cookie_pieces_of(p).push(cookie_piece(pairs.last())));
        crate::text::lemma_join_push(cookie_pieces_of(p), seq![';', ' '], cookie_piece(pairs.last()));
        assert(cookie_header_text(pairs) =~= crate::text::join(cookie_pieces_of(p), seq![';', ' '])
            + seq![';', ' '] + cookie_piece(pairs.last()));
    }
}

/// Pieces without `;` joined by `; ` split back into the same pieces.
pub proof fn lemma_cookie_pieces_split_join(ps: Seq<Seq<char>>)
    requires
        forall|i: int| 0 <= i < ps.len() ==> (#[trigger] ps[i]).len() > 0,
        forall|i: int, k: int| 0 <= i < ps.len() && 0 <= k < ps[i].len() ==> #[trigger] ps[i][k] != ';',
    ensures
        cookie_pieces(crate::text::join(ps, seq![';', ' '])) == ps,
    decreases ps.len(),
{
    reveal_strlit("; ");
    let sep = "; "@;
    assert(sep =~= seq![';', ' ']);
    let s = crate::text::join(ps, seq![';', ' ']);
    if ps.len() == 0 {
        lemma_find_from_props(s, sep, 0);
        assert(s.len() == 0);
    } else {
        let a = ps[0];
        if ps.len() == 1 {
            assert(s == a);
            lemma_find_from_props(s, sep, 0);
            if crate::text::find_from(s, sep, 0) is Some {
                let i = crate::text::find_from(s, sep, 0)->0;
                assert(s.subrange(i, i + 2)[0] == s[i]);
                assert(s[i] == ps[0][i]);
            }
            assert(cookie_pieces(s) =~= seq![a]);
            assert(ps =~= seq![a]);
        } else {
            let rest = ps.drop_first();
            let t = crate::text::join(rest, seq![';', ' ']);
            assert(s == a + seq![';', ' '] + t);
            let k = a.len() as int;
            assert(s.subrange(k, k + 2) =~= sep);
            assert forall|j: int| 0 <= j < k implies !occurs_at(s, sep, j) by {
                if occurs_at(s, sep, j) {
                    assert(s.subrange(j, j + 2)[0] == s[j]);
                    assert(s[j] == ps[0][j]);
                }
            }
            crate::text::lemma_find_first_occurrence(s, sep, 0, k);
            assert(s.subrange(0, k) =~= a);
            assert(s.subrange(k + 2, s.len() as int) =~= t);
            assert forall|i: int| 0 <= i < rest.len() implies (#[trigger] rest[i]).len() > 0 by {
                assert(rest[i] == ps[i + 1]);
            }
            assert forall|i: int, m: int| 0 <= i < rest.len() && 0 <= m < rest[i].len() implies #[trigger] rest[i][m] != ';' by {
                assert(rest[i] == ps[i + 1]);
                assert(ps[i + 1][m] != ';');
            }
            lemma_cookie_pieces_split_join(rest);
            assert(cookie_pieces(s) == seq![a] + cookie_pieces(t));
            assert(ps =~= seq![a] + rest);
        }
    }
}

/// The Cookie header made of cookies whose names are not empty and whose
/// names and values hold no `;` splits back at `; ` into exactly their
/// `name=value` pieces, in order.
pub proof fn lemma_cookie_header_splits_back(pairs: Seq<(Seq<char>, Seq<char>)>)
    requires
        forall|i: int| 0 <= i < pairs.len() ==> (#[trigger] pairs[i]).0.len() > 0,
        forall|i: int, k: int|
            0 <= i < pairs.len() && 0 <= k < pairs[i].0.len() ==> #[trigger] pairs[i].0[k] != ';',
        forall|i: int, k: int|
            0 <= i < pairs.len() && 0 <= k < pairs[i].1.len() ==> #[trigger] pairs[i].1[k] != ';',
    ensures
        cookie_pieces(cookie_header_text(pairs)) == cookie_pieces_of(pairs),
{
    lemma_cookie_header_joins(pairs);
    let ps = cookie_pieces_of(pairs);
    assert forall|i: int| 0 <= i < ps.len() implies (#[trigger] ps[i]).len() > 0 by {
        assert(ps[i] == cookie_piece(pairs[i]));
    }
    assert forall|i: int, k: int| 0 <= i < ps.len() && 0 <= k < ps[i].len() implies #[trigger] ps[i][k] != ';' by {
        assert(ps[i] == cookie_piece(pairs[i]));
        let n = pairs[i].0;
        if k < n.len() {
            assert(ps[i][k] == n[k]);
            assert(pairs[i].0[k] != ';');
        } else if k == n.len() {
        } else {
            assert(ps[i][k] == pairs[i].1[k - n.len() - 1]);
            assert(pairs[i].1[k - n.len() - 1] != ';');
        }
    }
    lemma_cookie_pieces_split_join(ps);
}

} // verus!
