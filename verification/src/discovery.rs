//! Devices on the network: what an mDNS record says of one, and the list that a search
//! ends with.

use vstd::prelude::*;

use crate::text::contains;
use crate::text::eq_ignore_ascii_case;
use crate::text::is_text_less;
use crate::text::lower_chars_of;
use crate::text::parse_u32;
use crate::text::same_text;

verus! {

/// The service that Cast devices announce.
pub const SERVICE: &'static str = "_googlecast._tcp.local.";

/// How long one look for records may take before the deadline is looked at again.
pub const POLL_INTERVAL_NS: u64 = 200_000_000;

/// The bit of the `ca` mask that says that a device has a video output. A Nest Mini has 198660,
/// a video Chromecast 4101.
pub const CA_VIDEO_OUT: u32 = 0x01;

/// A Cast device.
#[derive(Debug, Clone)]
pub struct Device {
    pub friendly_name: String,
    pub model: Option<String>,
    pub host: String,
    /// True for speakers, which refuse the app that mirrors audio and video.
    pub is_audio_only: bool,
}

/// What a `Device` holds.
#[verifier::ext_equal]
pub struct DeviceView {
    pub friendly_name: Seq<char>,
    pub model: Option<Seq<char>>,
    pub host: Seq<char>,
    pub is_audio_only: bool,
}

impl View for Device {
    type V = DeviceView;

    open spec fn view(&self) -> DeviceView {
        DeviceView {
            friendly_name: self.friendly_name@,
            model: crate::text::text_view(self.model),
            host: self.host@,
            is_audio_only: self.is_audio_only,
        }
    }
}

/// What a list of devices holds.
pub open spec fn device_views(devices: Seq<Device>) -> Seq<DeviceView> {
    devices.map_values(|device: Device| device@)
}

/// Whether a model name is that of a speaker.
pub open spec fn model_is_audio_only(model: Seq<char>) -> bool {
    let m = crate::text::lower(model);
    ||| crate::text::occurs(m, "google home"@)
    ||| crate::text::occurs(m, "nest mini"@)
    ||| crate::text::occurs(m, "nest audio"@)
    ||| crate::text::occurs(m, "home mini"@)
    ||| crate::text::occurs(m, "home max"@)
}

/// Whether a model name is that of a speaker.
pub fn is_audio_only_model(model: &str) -> (is: bool)
    ensures
        is == model_is_audio_only(model@),
{
    let m: Vec<char> = lower_chars_of(model);
    contains(&m, "google home") || contains(&m, "nest mini") || contains(&m, "nest audio")
        || contains(&m, "home mini") || contains(&m, "home max")
}

/// Whether a device is a speaker: by its capabilities if it announces them, which then
/// decide, and else by its model name.
pub open spec fn device_is_audio_only(ca: Option<u32>, model: Option<Seq<char>>) -> bool {
    match ca {
        Some(bits) => bits % 2 == 0,
        None => match model {
            Some(model) => model_is_audio_only(model),
            None => false,
        },
    }
}

/// Whether a device is a speaker.
pub fn is_audio_only_device(ca: Option<u32>, model: Option<&str>) -> (is: bool)
    ensures
        is == device_is_audio_only(
            ca,
            match model {
                Some(model) => Some(model@),
                None => None,
            },
        ),
{
    match ca {
        Some(bits) => {
            assert(bits & 0x01 == bits % 2) by (bit_vector);
            bits & CA_VIDEO_OUT == 0
        },
        None => match model {
            Some(model) => is_audio_only_model(model),
            None => false,
        },
    }
}

/// The properties of a record as texts.
pub open spec fn txt_views(txt: Seq<(String, String)>) -> Seq<(Seq<char>, Seq<char>)> {
    txt.map_values(|property: (String, String)| (property.0@, property.1@))
}

/// The value of a property. Of several with one key the last counts.
pub open spec fn property(txt: Seq<(Seq<char>, Seq<char>)>, key: Seq<char>) -> Option<Seq<char>>
    decreases txt.len(),
{
    if txt.len() == 0 {
        None
    } else if txt.last().0 == key {
        Some(txt.last().1)
    } else {
        property(txt.drop_last(), key)
    }
}

fn find_property<'a>(txt: &'a Vec<(String, String)>, key: &str) -> (value: Option<&'a str>)
    ensures
        value is Some == property(txt_views(txt@), key@) is Some,
        value is Some ==> property(txt_views(txt@), key@) == Some(value->0@),
{
    let ghost all = txt_views(txt@);
    let mut n: usize = txt.len();
    assert(all.take(n as int) =~= all);
    while n > 0
        invariant
            n <= txt@.len(),
            all == txt_views(txt@),
            property(all, key@) == property(all.take(n as int), key@),
        decreases n,
    {
        assert(all.take(n as int).drop_last() =~= all.take(n - 1));
        assert(all.take(n as int).last() == (txt@[n - 1].0@, txt@[n - 1].1@));
        if same_text(txt[n - 1].0.as_str(), key) {
            return Some(txt[n - 1].1.as_str());
        }
        n = n - 1;
    }
    None
}

/// The number that the `ca` property gives, if it gives one.
pub open spec fn capabilities(txt: Seq<(Seq<char>, Seq<char>)>) -> Option<u32> {
    match property(txt, "ca"@) {
        Some(digits) => crate::text::parsed_u32(digits),
        None => None,
    }
}

/// The device that a record describes. Without a name there is none.
pub open spec fn described(host: Seq<char>, txt: Seq<(Seq<char>, Seq<char>)>) -> Option<DeviceView> {
    match property(txt, "fn"@) {
        Some(friendly_name) => Some(
            DeviceView {
                friendly_name,
                model: property(txt, "md"@),
                host,
                is_audio_only: device_is_audio_only(capabilities(txt), property(txt, "md"@)),
            },
        ),
        None => None,
    }
}

/// The device that a record describes, told apart by the model name alone.
pub open spec fn described_by_model(
    host: Seq<char>,
    txt: Seq<(Seq<char>, Seq<char>)>,
) -> Option<DeviceView> {
    match property(txt, "fn"@) {
        Some(friendly_name) => Some(
            DeviceView {
                friendly_name,
                model: property(txt, "md"@),
                host,
                is_audio_only: device_is_audio_only(None, property(txt, "md"@)),
            },
        ),
        None => None,
    }
}

/// What a device that may be absent holds.
pub open spec fn device_view(device: Option<Device>) -> Option<DeviceView> {
    match device {
        Some(device) => Some(device@),
        None => None,
    }
}

fn owned(text: Option<&str>) -> (copy: Option<String>)
    ensures
        copy is Some == text is Some,
        copy is Some ==> copy->0@ == text->0@,
{
    match text {
        Some(text) => Some(text.to_owned()),
        None => None,
    }
}

impl Device {
    /// Reads a record: the address it was announced with, and its properties.
    pub fn from_txt(host: String, txt: &Vec<(String, String)>) -> (device: Option<Device>)
        ensures
            device_view(device) == described(host@, txt_views(txt@)),
    {
        let friendly_name: String = match find_property(txt, "fn") {
            Some(name) => name.to_owned(),
            None => {
                return None;
            },
        };
        let model: Option<&str> = find_property(txt, "md");
        let ca: Option<u32> = match find_property(txt, "ca") {
            Some(digits) => parse_u32(digits),
            None => None,
        };
        let is_audio_only: bool = is_audio_only_device(ca, model);
        Some(Device { friendly_name, model: owned(model), host, is_audio_only })
    }

    /// Reads a record by the model name alone, whatever capabilities it announces.
    pub fn from_txt_by_model(host: String, txt: &Vec<(String, String)>) -> (device: Option<Device>)
        ensures
            device_view(device) == described_by_model(host@, txt_views(txt@)),
    {
        let friendly_name: String = match find_property(txt, "fn") {
            Some(name) => name.to_owned(),
            None => {
                return None;
            },
        };
        let model: Option<&str> = find_property(txt, "md");
        let is_audio_only: bool = is_audio_only_device(None, model);
        Some(Device { friendly_name, model: owned(model), host, is_audio_only })
    }
}

/// Whether two names differ at most in the case of ASCII letters.
pub open spec fn same_name(a: Seq<char>, b: Seq<char>) -> bool {
    crate::text::lower(a) == crate::text::lower(b)
}

/// Whether devices stand in the order of their names, and no name occurs twice.
pub open spec fn is_sorted(devices: Seq<DeviceView>) -> bool {
    forall|i: int, j: int|
        0 <= i < j < devices.len() ==> crate::text::text_less(
            (#[trigger] devices[i]).friendly_name,
            (#[trigger] devices[j]).friendly_name,
        )
}

/// How many devices stand before the place of a name.
pub open spec fn place(devices: Seq<DeviceView>, name: Seq<char>) -> nat
    decreases devices.len(),
{
    if devices.len() > 0 && crate::text::text_less(devices[0].friendly_name, name) {
        1 + place(devices.skip(1), name)
    } else {
        0
    }
}

/// The list with a device in the place of its name, instead of the one that had the name.
pub open spec fn with_device(devices: Seq<DeviceView>, device: DeviceView) -> Seq<DeviceView> {
    let at = place(devices, device.friendly_name) as int;
    if at < devices.len() && devices[at].friendly_name == device.friendly_name {
        devices.update(at, device)
    } else {
        devices.insert(at, device)
    }
}

/// The devices with a name, in their order.
pub open spec fn named(devices: Seq<DeviceView>, name: Seq<char>) -> Seq<DeviceView>
    decreases devices.len(),
{
    if devices.len() == 0 {
        Seq::empty()
    } else if same_name(devices.last().friendly_name, name) {
        named(devices.drop_last(), name).push(devices.last())
    } else {
        named(devices.drop_last(), name)
    }
}

proof fn lemma_place(devices: Seq<DeviceView>, name: Seq<char>, n: int)
    requires
        0 <= n <= devices.len(),
        forall|k: int| 0 <= k < n ==> crate::text::text_less(
            (#[trigger] devices[k]).friendly_name,
            name,
        ),
    ensures
        place(devices, name) == n + place(devices.skip(n), name),
    decreases n,
{
    if n == 0 {
        assert(devices.skip(0) =~= devices);
    } else {
        assert(crate::text::text_less(devices[0].friendly_name, name));
        lemma_place(devices.skip(1), name, n - 1);
        assert(devices.skip(1).skip(n - 1) =~= devices.skip(n));
    }
}

/// Puts a device into its place in a list.
fn insert_device(devices: &mut Vec<Device>, device: Device)
    ensures
        device_views(final(devices)@) == with_device(device_views(old(devices)@), device@),
{
    let ghost before = device_views(devices@);
    let len: usize = devices.len();
    let mut at: usize = 0;
    while at < len && is_text_less(
        devices[at].friendly_name.as_str(),
        device.friendly_name.as_str(),
    )
        invariant
            devices@ == old(devices)@,
            before == device_views(devices@),
            len == devices@.len(),
            at <= len,
            forall|k: int| 0 <= k < at ==> crate::text::text_less(
                (#[trigger] before[k]).friendly_name,
                device@.friendly_name,
            ),
        decreases len - at,
    {
        assert(before[at as int] == devices@[at as int]@);
        at = at + 1;
    }
    proof {
        lemma_place(before, device@.friendly_name, at as int);
        if at < len {
            assert(before[at as int] == devices@[at as int]@);
            assert(before.skip(at as int)[0] == before[at as int]);
        }
        assert(place(before.skip(at as int), device@.friendly_name) == 0);
    }
    let ghost view = device@;
    if at < len && same_text(devices[at].friendly_name.as_str(), device.friendly_name.as_str()) {
        devices.set(at, device);
        assert(device_views(devices@) =~= before.update(at as int, view));
    } else {
        devices.insert(at, device);
        assert(device_views(devices@) =~= before.insert(at as int, view));
    }
}

/// Keeps the devices with a name.
fn retain_named(devices: &mut Vec<Device>, name: &str)
    ensures
        device_views(final(devices)@) == named(device_views(old(devices)@), name@),
{
    let ghost all = device_views(devices@);
    let ghost mut seen: int = 0;
    let mut kept: usize = 0;
    assert(all.take(0) =~= Seq::empty());
    assert(device_views(devices@).take(0) =~= Seq::empty());
    assert(device_views(devices@).skip(0) =~= all.skip(0));
    while kept < devices.len()
        invariant
            0 <= kept <= devices@.len(),
            0 <= seen <= all.len(),
            device_views(devices@).take(kept as int) == named(all.take(seen), name@),
            device_views(devices@).skip(kept as int) == all.skip(seen),
        decreases devices@.len() - kept,
    {
        let ghost now = device_views(devices@);
        proof {
            assert(now.skip(kept as int).len() == all.skip(seen).len());
            assert(now.skip(kept as int)[0] == now[kept as int]);
            assert(all.skip(seen)[0] == all[seen]);
            assert(now[kept as int] == devices@[kept as int]@);
            assert(all.take(seen + 1).drop_last() =~= all.take(seen));
            assert(all.skip(seen).skip(1) =~= all.skip(seen + 1));
        }
        if eq_ignore_ascii_case(devices[kept].friendly_name.as_str(), name) {
            proof {
                assert(now.take(kept + 1) =~= now.take(kept as int).push(now[kept as int]));
                assert(now.skip(kept as int).skip(1) =~= now.skip(kept + 1));
            }
            kept = kept + 1;
        } else {
            let _ = devices.remove(kept);
            proof {
                assert(device_views(devices@).take(kept as int) =~= now.take(kept as int));
                assert(device_views(devices@).skip(kept as int) =~= now.skip(kept as int).skip(1));
            }
        }
        proof {
            seen = seen + 1;
        }
    }
    proof {
        assert(device_views(devices@).skip(kept as int).len() == 0);
        assert(seen == all.len());
        assert(all.take(seen) =~= all);
        assert(device_views(devices@).take(kept as int) =~= device_views(devices@));
    }
}

/// A search for devices, for all of them or for one by name.
#[derive(Debug)]
pub struct Search {
    pub devices: Vec<Device>,
    pub wanted: Option<String>,
}

/// No device with the wanted name answered in time.
#[derive(Debug)]
pub struct NotFound {
    pub name: String,
}

impl NotFound {
    /// What went wrong, in words; `timeout` says how long the search took.
    pub open spec fn words(self, timeout: Seq<char>) -> Seq<char> {
        "Device '"@ + self.name@ + "' not found within "@ + timeout
    }

    /// What went wrong, in words; `timeout` says how long the search took.
    pub fn message(&self, timeout: &str) -> (text: String)
        ensures
            text@ == self.words(timeout@),
    {
        let mut text: String = "Device '".to_owned();
        text.append(self.name.as_str());
        text.append("' not found within ");
        text.append(timeout);
        text
    }
}

/// What a search ends with.
pub open spec fn search_result(devices: Seq<DeviceView>, wanted: Option<Seq<char>>) -> Option<
    Seq<DeviceView>,
> {
    match wanted {
        None => Some(devices),
        Some(name) => if named(devices, name).len() > 0 {
            Some(named(devices, name))
        } else {
            None
        },
    }
}

impl Search {
    /// Whether the list is in order.
    pub open spec fn wf(&self) -> bool {
        is_sorted(device_views(self.devices@))
    }

    /// A search that has found nothing yet.
    pub fn new(wanted: Option<String>) -> (search: Search)
        ensures
            search.wf(),
            search.devices@.len() == 0,
            search.wanted == wanted,
    {
        Search { devices: Vec::new(), wanted }
    }

    /// Takes in a record. Tells whether the search is over because the wanted device has
    /// answered.
    pub fn record(&mut self, host: String, txt: &Vec<(String, String)>) -> (over: bool)
        requires
            old(self).wf(),
        ensures
            final(self).wf(),
            final(self).wanted == old(self).wanted,
            match described(host@, txt_views(txt@)) {
                Some(device) => {
                    &&& device_views(final(self).devices@) == with_device(
                        device_views(old(self).devices@),
                        device,
                    )
                    &&& over == (old(self).wanted is Some && same_name(
                        old(self).wanted->0@,
                        device.friendly_name,
                    ))
                },
                None => final(self).devices@ == old(self).devices@ && !over,
            },
    {
        match Device::from_txt(host, txt) {
            Some(device) => self.add_device(device),
            None => false,
        }
    }

    /// Takes in a device. Tells whether the search is over because it is the wanted one.
    pub fn add_device(&mut self, device: Device) -> (over: bool)
        requires
            old(self).wf(),
        ensures
            final(self).wf(),
            final(self).wanted == old(self).wanted,
            device_views(final(self).devices@) == with_device(
                device_views(old(self).devices@),
                device@,
            ),
            over == (old(self).wanted is Some && same_name(
                old(self).wanted->0@,
                device@.friendly_name,
            )),
    {
        let over: bool = match &self.wanted {
            Some(name) => eq_ignore_ascii_case(name.as_str(), device.friendly_name.as_str()),
            None => false,
        };
        proof {
            recording_keeps_order(device_views(self.devices@), device@);
        }
        insert_device(&mut self.devices, device);
        over
    }

    /// Ends the search: the devices in the order of their names, or only those with the
    /// wanted name, of which there has to be one.
    pub fn finish(self) -> (result: Result<Vec<Device>, NotFound>)
        requires
            self.wf(),
        ensures
            match search_result(
                device_views(self.devices@),
                crate::text::text_view(self.wanted),
            ) {
                Some(devices) => result matches Ok(found) && device_views(found@) == devices
                    && is_sorted(devices),
                None => result matches Err(error) && self.wanted == Some(error.name),
            },
    {
        let Search { mut devices, wanted } = self;
        match wanted {
            None => Ok(devices),
            Some(name) => {
                proof {
                    naming_keeps_order(device_views(devices@), name@);
                }
                retain_named(&mut devices, name.as_str());
                if devices.len() == 0 {
                    Err(NotFound { name })
                } else {
                    Ok(devices)
                }
            },
        }
    }
}

proof fn lemma_before_place(devices: Seq<DeviceView>, name: Seq<char>)
    ensures
        place(devices, name) <= devices.len(),
        forall|k: int|
            0 <= k < place(devices, name) ==> crate::text::text_less(
                (#[trigger] devices[k]).friendly_name,
                name,
            ),
        place(devices, name) < devices.len() ==> !crate::text::text_less(
            devices[place(devices, name) as int].friendly_name,
            name,
        ),
    decreases devices.len(),
{
    if devices.len() > 0 && crate::text::text_less(devices[0].friendly_name, name) {
        lemma_before_place(devices.skip(1), name);
        assert forall|k: int| 0 <= k < place(devices, name) implies crate::text::text_less(
            (#[trigger] devices[k]).friendly_name,
            name,
        ) by {
            if k > 0 {
                assert(devices[k] == devices.skip(1)[k - 1]);
            }
        }
    }
}

/// A list that is in order stays so when a device is recorded.
pub proof fn recording_keeps_order(devices: Seq<DeviceView>, device: DeviceView)
    requires
        is_sorted(devices),
    ensures
        is_sorted(with_device(devices, device)),
{
    let name = device.friendly_name;
    let at = place(devices, name) as int;
    let after = with_device(devices, device);
    lemma_before_place(devices, name);
    assert forall|i: int, j: int| 0 <= i < j < after.len() implies crate::text::text_less(
        (#[trigger] after[i]).friendly_name,
        (#[trigger] after[j]).friendly_name,
    ) by {
        let replaced = at < devices.len() && devices[at].friendly_name == name;
        let back = |k: int| if replaced || k < at { k } else { k - 1 };
        if i == at && j != at {
            let k = back(j);
            assert(after[j] == devices[k]);
            if replaced {
                assert(crate::text::text_less(devices[at].friendly_name, devices[k].friendly_name));
            } else {
                crate::text::text_order_is_total(devices[at].friendly_name, name);
                assert(crate::text::text_less(name, devices[at].friendly_name));
                if k > at {
                    assert(crate::text::text_less(
                        devices[at].friendly_name,
                        devices[k].friendly_name,
                    ));
                    crate::text::text_order_is_transitive(
                        name,
                        devices[at].friendly_name,
                        devices[k].friendly_name,
                    );
                }
            }
        } else if j == at {
            assert(after[i] == devices[i]);
        } else {
            assert(after[i] == devices[back(i)]);
            assert(after[j] == devices[back(j)]);
        }
    }
}

/// The devices with a name stand in the same order as in the whole list.
pub proof fn naming_keeps_order(devices: Seq<DeviceView>, name: Seq<char>)
    requires
        is_sorted(devices),
    ensures
        is_sorted(named(devices, name)),
        forall|i: int|
            0 <= i < named(devices, name).len() ==> devices.contains(
                #[trigger] named(devices, name)[i],
            ) && same_name(named(devices, name)[i].friendly_name, name),
        forall|i: int|
            0 <= i < devices.len() && same_name((#[trigger] devices[i]).friendly_name, name)
                ==> named(devices, name).contains(devices[i]),
    decreases devices.len(),
{
    if devices.len() > 0 {
        let rest = devices.drop_last();
        let last = devices.last();
        assert(is_sorted(rest)) by {
            assert forall|i: int, j: int| 0 <= i < j < rest.len() implies crate::text::text_less(
                (#[trigger] rest[i]).friendly_name,
                (#[trigger] rest[j]).friendly_name,
            ) by {
                assert(rest[i] == devices[i] && rest[j] == devices[j]);
            }
        }
        naming_keeps_order(rest, name);
        let kept = named(rest, name);
        let all = named(devices, name);
        assert forall|i: int| 0 <= i < kept.len() implies devices.contains(#[trigger] kept[i])
            && crate::text::text_less(kept[i].friendly_name, last.friendly_name) by {
            let k = choose|k: int| 0 <= k < rest.len() && rest[k] == kept[i];
            assert(devices[k] == kept[i]);
            assert(devices[devices.len() - 1] == last);
        }
        assert forall|i: int|
            0 <= i < devices.len() && same_name(
                (#[trigger] devices[i]).friendly_name,
                name,
            ) implies all.contains(devices[i]) by {
            if i < rest.len() {
                assert(rest[i] == devices[i]);
                let k = choose|k: int| 0 <= k < kept.len() && kept[k] == rest[i];
                assert(all[k] == kept[k]);
            } else {
                assert(all[all.len() - 1] == last);
            }
        }
        assert(devices[devices.len() - 1] == last);
    }
}

/// After a record the list holds its device, and of the other names what it held before.
pub proof fn last_record_of_a_name_counts(devices: Seq<DeviceView>, device: DeviceView, other: DeviceView)
    requires
        is_sorted(devices),
    ensures
        with_device(devices, device).contains(device),
        other.friendly_name == device.friendly_name && with_device(devices, device).contains(other)
            ==> other == device,
        other.friendly_name != device.friendly_name ==> (with_device(devices, device).contains(
            other,
        ) <==> devices.contains(other)),
{
    let name = device.friendly_name;
    let at = place(devices, name) as int;
    let after = with_device(devices, device);
    lemma_before_place(devices, name);
    recording_keeps_order(devices, device);
    assert(after[at] == device);
    let replaced = at < devices.len() && devices[at].friendly_name == name;
    if after.contains(other) {
        let i = choose|i: int| 0 <= i < after.len() && after[i] == other;
        if i != at {
            if i < at {
                assert(crate::text::text_less(after[i].friendly_name, after[at].friendly_name));
                assert(devices[i] == other);
            } else {
                assert(crate::text::text_less(after[at].friendly_name, after[i].friendly_name));
                assert(devices[if replaced { i } else { i - 1 }] == other);
            }
            crate::text::text_order_is_irreflexive(name);
        }
    }
    if other.friendly_name != name && devices.contains(other) {
        let i = choose|i: int| 0 <= i < devices.len() && devices[i] == other;
        if replaced || i < at {
            assert(after[i] == other);
        } else {
            assert(after[i + 1] == other);
        }
    }
}

/// A record that announces no capabilities is read the same by the model name alone.
pub proof fn model_decides_without_capabilities(host: Seq<char>, txt: Seq<(Seq<char>, Seq<char>)>)
    requires
        capabilities(txt) is None,
    ensures
        described(host, txt) == described_by_model(host, txt),
{
}

/// Announced capabilities decide, whatever the model name says.
pub proof fn capabilities_decide(ca: u32, one: Option<Seq<char>>, other: Option<Seq<char>>)
    ensures
        device_is_audio_only(Some(ca), one) == device_is_audio_only(Some(ca), other),
{
}

/// A device that announces its capabilities is a speaker exactly if the lowest bit of the mask,
/// which stands for a video output, is clear. No other bit matters, nor does the model.
pub proof fn only_the_video_bit_tells_speakers(ca: u32, model: Option<&str>, is: bool)
    requires
        call_ensures(is_audio_only_device, (Some(ca), model), is),
    ensures
        is == (ca & 0x01u32 == 0),
{
    assert(ca & 0x01u32 == ca % 2) by (bit_vector);
}

/// A device that announces no capabilities is a speaker exactly if its model is one, and
/// without a model it is none.
pub proof fn models_tell_speakers_without_capabilities(
    model: &str,
    is: bool,
    without: bool,
    is_speaker: bool,
)
    requires
        call_ensures(is_audio_only_device, (None, Some(model)), is),
        call_ensures(is_audio_only_device, (None, None), without),
        call_ensures(is_audio_only_model, (model,), is_speaker),
    ensures
        is == is_speaker,
        !without,
{
}

/// Whether a text is what all models of a kind of speaker are called, in whatever case.
pub open spec fn names_a_speaker(text: Seq<char>) -> bool {
    ||| same_name(text, "google home"@)
    ||| same_name(text, "nest mini"@)
    ||| same_name(text, "nest audio"@)
    ||| same_name(text, "home mini"@)
    ||| same_name(text, "home max"@)
}

proof fn lemma_name_in_model(before: Seq<char>, name: Seq<char>, after: Seq<char>, wanted: Seq<char>)
    requires
        same_name(name, wanted),
        crate::text::lower(wanted) == wanted,
    ensures
        crate::text::occurs(crate::text::lower(before + name + after), wanted),
{
    let m = crate::text::lower(before + name + after);
    let at = before.len() as int;
    assert(wanted.len() == crate::text::lower(name).len() == name.len());
    assert(m.subrange(at, at + wanted.len()) =~= crate::text::lower(name));
    assert(crate::text::occurs_at(m, wanted, at));
}

proof fn lemma_model_holds_name(model: Seq<char>, wanted: Seq<char>) -> (at: int)
    requires
        crate::text::occurs(crate::text::lower(model), wanted),
        crate::text::lower(wanted) == wanted,
    ensures
        0 <= at <= at + wanted.len() <= model.len(),
        same_name(model.subrange(at, at + wanted.len()), wanted),
{
    let at = choose|at: int| crate::text::occurs_at(crate::text::lower(model), wanted, at);
    assert(crate::text::lower(model.subrange(at, at + wanted.len())) =~= crate::text::lower(
        model,
    ).subrange(at, at + wanted.len()));
    at
}

proof fn lemma_speaker_names()
    ensures
        crate::text::lower("google home"@) == "google home"@,
        crate::text::lower("nest mini"@) == "nest mini"@,
        crate::text::lower("nest audio"@) == "nest audio"@,
        crate::text::lower("home mini"@) == "home mini"@,
        crate::text::lower("home max"@) == "home max"@,
{
    reveal_strlit("google home");
    reveal_strlit("nest mini");
    reveal_strlit("nest audio");
    reveal_strlit("home mini");
    reveal_strlit("home max");
    assert(crate::text::lower("google home"@) =~= "google home"@);
    assert(crate::text::lower("nest mini"@) =~= "nest mini"@);
    assert(crate::text::lower("nest audio"@) =~= "nest audio"@);
    assert(crate::text::lower("home mini"@) =~= "home mini"@);
    assert(crate::text::lower("home max"@) =~= "home max"@);
}

/// A model is a speaker exactly if the name of one stands in it, with anything before and after
/// it.
pub proof fn speakers_are_known_by_their_models(model: &str, is: bool)
    requires
        call_ensures(is_audio_only_model, (model,), is),
    ensures
        is <==> exists|at: int, end: int|
            0 <= at <= end <= model@.len() && names_a_speaker(#[trigger] model@.subrange(at, end)),
{
    lemma_speaker_names();
    let m = crate::text::lower(model@);
    if is {
        let wanted = if crate::text::occurs(m, "google home"@) {
            "google home"@
        } else if crate::text::occurs(m, "nest mini"@) {
            "nest mini"@
        } else if crate::text::occurs(m, "nest audio"@) {
            "nest audio"@
        } else if crate::text::occurs(m, "home mini"@) {
            "home mini"@
        } else {
            "home max"@
        };
        let at = lemma_model_holds_name(model@, wanted);
        assert(names_a_speaker(model@.subrange(at, at + wanted.len())));
    }
    if exists|at: int, end: int|
        0 <= at <= end <= model@.len() && names_a_speaker(#[trigger] model@.subrange(at, end)) {
        let (at, end) = choose|at: int, end: int|
            0 <= at <= end <= model@.len() && names_a_speaker(#[trigger] model@.subrange(at, end));
        let name = model@.subrange(at, end);
        assert(model@ =~= model@.take(at) + name + model@.skip(end));
        let wanted = if same_name(name, "google home"@) {
            "google home"@
        } else if same_name(name, "nest mini"@) {
            "nest mini"@
        } else if same_name(name, "nest audio"@) {
            "nest audio"@
        } else if same_name(name, "home mini"@) {
            "home mini"@
        } else {
            "home max"@
        };
        lemma_name_in_model(model@.take(at), name, model@.skip(end), wanted);
    }
}

/// The last property with a key counts, and without one there is no value.
pub proof fn last_property_counts(txt: Seq<(Seq<char>, Seq<char>)>, key: Seq<char>, i: int)
    requires
        -1 <= i < txt.len(),
        i >= 0 ==> txt[i].0 == key,
        forall|j: int| i < j < txt.len() ==> (#[trigger] txt[j]).0 != key,
    ensures
        property(txt, key) == (if i >= 0 {
            Some(txt[i].1)
        } else {
            None
        }),
    decreases txt.len(),
{
    if txt.len() > 0 && i < txt.len() - 1 {
        assert(txt[txt.len() - 1].0 != key);
        assert forall|j: int| i < j < txt.drop_last().len() implies (
        #[trigger] txt.drop_last()[j]).0 != key by {
            assert(txt.drop_last()[j] == txt[j]);
        }
        last_property_counts(txt.drop_last(), key, i);
    }
}

/// A record is a device if it gives a name. The device has that name, the model that the record
/// gives and the address of the record. If the record gives its capabilities as a number, the
/// lowest bit of that tells whether it is a speaker, and else the model does.
pub proof fn records_describe_devices(
    host: String,
    txt: &Vec<(String, String)>,
    device: Option<Device>,
    ca: u32,
)
    requires
        call_ensures(Device::from_txt, (host, txt), device),
    ensures
        ({
            let all = txt_views(txt@);
            &&& device is Some == property(all, "fn"@) is Some
            &&& device matches Some(found) ==> {
                &&& Some(found@.friendly_name) == property(all, "fn"@)
                &&& found@.model == property(all, "md"@)
                &&& found@.host == host@
                &&& property(all, "ca"@) == Some(crate::text::decimal(ca as nat))
                    ==> found.is_audio_only == (ca & 0x01u32 == 0)
                &&& property(all, "ca"@) is Some && crate::text::parsed_u32(
                    property(all, "ca"@)->0,
                ) == Some(ca) ==> found.is_audio_only == (ca & 0x01u32 == 0)
                &&& property(all, "ca"@) is None || crate::text::parsed_u32(
                    property(all, "ca"@)->0,
                ) is None ==> found.is_audio_only == (property(all, "md"@) is Some
                    && model_is_audio_only(property(all, "md"@)->0))
            }
        }),
{
    assert(ca & 0x01u32 == ca % 2) by (bit_vector);
    crate::text::decimal_is_parsed(ca);
}

/// Read by the model alone, a record is the same device, but for what its capabilities would say.
pub proof fn records_describe_devices_by_model(
    host: String,
    txt: &Vec<(String, String)>,
    device: Option<Device>,
)
    requires
        call_ensures(Device::from_txt_by_model, (host, txt), device),
    ensures
        ({
            let all = txt_views(txt@);
            &&& device is Some == property(all, "fn"@) is Some
            &&& device matches Some(found) ==> {
                &&& Some(found@.friendly_name) == property(all, "fn"@)
                &&& found@.model == property(all, "md"@)
                &&& found@.host == host@
                &&& found.is_audio_only == (property(all, "md"@) is Some
                    && model_is_audio_only(property(all, "md"@)->0))
            }
        }),
{
}

/// A device that is added is in the list, instead of any other of that name, and the devices of
/// other names are those that were there. The search is over exactly if the name is the wanted
/// one, but for case.
pub proof fn added_devices_are_listed(
    search: &mut Search,
    device: Device,
    over: bool,
    other: DeviceView,
)
    requires
        call_ensures(Search::add_device, (search, device), over),
        old(search).wf(),
    ensures
        ({
            let before = device_views(old(search).devices@);
            let after = device_views(final(search).devices@);
            &&& after.contains(device@)
            &&& other.friendly_name == device@.friendly_name && after.contains(other) ==> other
                == device@
            &&& other.friendly_name != device@.friendly_name ==> (after.contains(other)
                <==> before.contains(other))
        }),
        final(search).wanted == old(search).wanted,
        over == (old(search).wanted matches Some(wanted) && wanted@.len()
            == device@.friendly_name.len() && forall|i: int|
            0 <= i < wanted@.len() ==> crate::text::same_letter(
                #[trigger] wanted@[i],
                device@.friendly_name[i],
            )),
{
    last_record_of_a_name_counts(device_views(old(search).devices@), device@, other);
    if old(search).wanted is Some {
        crate::text::case_is_all_that_is_ignored(
            old(search).wanted->0@,
            device@.friendly_name,
        );
    }
}

/// A search for all devices ends with all of them. A search for one name ends with those of
/// that name, but for case, and with an error exactly if there are none.
pub proof fn searches_end_with_the_wanted(
    search: Search,
    result: Result<Vec<Device>, NotFound>,
    device: DeviceView,
)
    requires
        call_ensures(Search::finish, (search,), result),
        search.wf(),
    ensures
        search.wanted is None ==> result is Ok && device_views(result->Ok_0@) == device_views(
            search.devices@,
        ),
        search.wanted matches Some(wanted) ==> {
            let all = device_views(search.devices@);
            let is_wanted = wanted@.len() == device.friendly_name.len() && forall|i: int|
                0 <= i < wanted@.len() ==> crate::text::same_letter(
                    #[trigger] wanted@[i],
                    device.friendly_name[i],
                );
            &&& result matches Ok(found) ==> found@.len() > 0 && (device_views(found@).contains(
                device,
            ) <==> all.contains(device) && is_wanted)
            &&& result matches Err(error) ==> error.name@ == wanted@ && !(all.contains(device)
                && is_wanted)
        },
{
    let all = device_views(search.devices@);
    if search.wanted is Some {
        let wanted = search.wanted->0@;
        crate::text::case_is_all_that_is_ignored(wanted, device.friendly_name);
        naming_keeps_order(all, wanted);
        let kept = named(all, wanted);
        if kept.contains(device) {
            let i = choose|i: int| 0 <= i < kept.len() && kept[i] == device;
            assert(all.contains(kept[i]));
        }
        if all.contains(device) && same_name(device.friendly_name, wanted) {
            let i = choose|i: int| 0 <= i < all.len() && all[i] == device;
            assert(kept.contains(all[i]));
        }
    }
}

/// A record is taken in as the device that it describes, and one that describes none changes
/// nothing.
pub proof fn records_are_taken_in_as_devices(
    search: &mut Search,
    host: String,
    txt: &Vec<(String, String)>,
    over: bool,
    device: Option<Device>,
    adding: &mut Search,
    found: bool,
)
    requires
        call_ensures(Search::record, (search, host, txt), over),
        old(search).wf(),
        call_ensures(Device::from_txt, (host, txt), device),
        device is Some ==> call_ensures(Search::add_device, (adding, device->0), found),
        *old(adding) == *old(search),
    ensures
        device is None ==> final(search).devices@ == old(search).devices@ && !over,
        device is Some ==> device_views(final(search).devices@) == device_views(
            final(adding).devices@,
        ) && over == found,
        final(search).wanted == old(search).wanted,
{
}

/// A new search has found nothing and wants what it is told.
pub proof fn searches_begin_empty(wanted: Option<String>, search: Search)
    requires
        call_ensures(Search::new, (wanted,), search),
    ensures
        search.devices@.len() == 0,
        search.wanted == wanted,
        search.wf(),
{
}

/// A search that found nothing says what it looked for and how long.
pub proof fn failed_searches_name_what_they_sought(error: &NotFound, timeout: &str, text: String)
    requires
        call_ensures(NotFound::message, (error, timeout), text),
    ensures
        text@ == "Device '"@ + error.name@ + "' not found within "@ + timeout@,
{
}

} // verus!
