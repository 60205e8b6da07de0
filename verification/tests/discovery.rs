use chromecast_sink::discovery::{
    is_audio_only_device, is_audio_only_model, Device, NotFound, Search,
};

#[test]
fn ca_bitmask_decides_when_present() {
    assert!(is_audio_only_device(Some(198_660), None)); // real Nest Mini
    assert!(is_audio_only_device(Some(2052), Some("Chromecast Audio")));
    assert!(!is_audio_only_device(Some(4101), None)); // video Chromecast
    // ca wins over a misleading model name
    assert!(!is_audio_only_device(Some(4101), Some("Nest Mini")));
}

#[test]
fn model_fallback_without_ca() {
    assert!(is_audio_only_device(None, Some("Google Nest Mini")));
    assert!(is_audio_only_device(None, Some("Google Home Max")));
    assert!(!is_audio_only_device(None, Some("Chromecast Ultra")));
    assert!(!is_audio_only_device(None, None));
}

#[test]
fn speaker_models_are_recognised_in_any_case() {
    for model in ["GOOGLE HOME", "my nest mini 2", "Nest Audio", "Home Mini", "home max"] {
        assert!(is_audio_only_model(model), "{model}");
    }
    for model in ["Chromecast", "", "Nest Hub", "googlehome", "home  mini"] {
        assert!(!is_audio_only_model(model), "{model}");
    }
}

fn txt(properties: &[(&str, &str)]) -> Vec<(String, String)> {
    properties.iter().map(|(k, v)| (k.to_string(), v.to_string())).collect()
}

#[test]
fn records_are_read_by_their_properties() {
    let record = txt(&[("fn", "Old"), ("md", "Google Nest Mini"), ("ca", "4101"), ("fn", "Den")]);
    let device = Device::from_txt("10.0.0.9".into(), &record).unwrap();
    assert_eq!(device.friendly_name, "Den", "the last of two counts");
    assert_eq!(device.model.as_deref(), Some("Google Nest Mini"));
    assert_eq!(device.host, "10.0.0.9");
    assert!(!device.is_audio_only);
    let by_model = Device::from_txt_by_model("10.0.0.9".into(), &record).unwrap();
    assert!(by_model.is_audio_only);
    assert!(Device::from_txt("10.0.0.9".into(), &txt(&[("md", "Chromecast")])).is_none());
    assert!(Device::from_txt_by_model("h".into(), &txt(&[("FN", "x")])).is_none());
}

#[test]
fn unreadable_capabilities_count_as_none() {
    for ca in ["", "x", "-4", "4294967296", "+", "4 "] {
        let record = txt(&[("fn", "Den"), ("md", "Nest Mini"), ("ca", ca)]);
        assert!(Device::from_txt("h".into(), &record).unwrap().is_audio_only, "{ca}");
    }
    for ca in ["+5", "0005", "4294967295"] {
        let record = txt(&[("fn", "Den"), ("md", "Nest Mini"), ("ca", ca)]);
        assert!(!Device::from_txt("h".into(), &record).unwrap().is_audio_only, "{ca}");
    }
}

fn names(devices: &[Device]) -> Vec<&str> {
    devices.iter().map(|d| d.friendly_name.as_str()).collect()
}

#[test]
fn search_lists_devices_in_order_of_their_names() {
    let mut search = Search::new(None);
    for name in ["b", "a", "c", "B", "\u{e9}", "ab"] {
        assert!(!search.record("h".into(), &txt(&[("fn", name)])));
    }
    assert!(!search.record("h".into(), &txt(&[("md", "nameless")])));
    let devices = search.finish().unwrap();
    assert_eq!(names(&devices), ["B", "a", "ab", "b", "c", "\u{e9}"]);
}

#[test]
fn later_record_of_a_name_replaces_the_earlier() {
    let mut search = Search::new(None);
    search.record("10.0.0.1".into(), &txt(&[("fn", "Den"), ("md", "Chromecast")]));
    search.record("10.0.0.7".into(), &txt(&[("fn", "Attic")]));
    search.record("10.0.0.2".into(), &txt(&[("fn", "Den")]));
    let devices = search.finish().unwrap();
    assert_eq!(names(&devices), ["Attic", "Den"]);
    assert_eq!(devices[1].host, "10.0.0.2");
    assert_eq!(devices[1].model, None);
}

#[test]
fn search_by_name_ends_when_the_device_answers() {
    let mut search = Search::new(Some("living ROOM".into()));
    assert!(!search.record("1".into(), &txt(&[("fn", "Kitchen")])));
    assert!(search.record("2".into(), &txt(&[("fn", "Living Room")])));
    let devices = search.finish().unwrap();
    assert_eq!(names(&devices), ["Living Room"]);
}

#[test]
fn search_by_name_keeps_all_spellings() {
    let mut search = Search::new(Some("den".into()));
    for name in ["Den", "Attic", "DEN", "den"] {
        search.record("h".into(), &txt(&[("fn", name)]));
    }
    assert_eq!(names(&search.finish().unwrap()), ["DEN", "Den", "den"]);
}

#[test]
fn search_for_an_absent_device_fails() {
    let mut search = Search::new(Some("Den".into()));
    search.record("h".into(), &txt(&[("fn", "Attic")]));
    let error = search.finish().unwrap_err();
    assert_eq!(error.message("10s"), "Device 'Den' not found within 10s");
    assert_eq!(NotFound { name: "".into() }.message("1s"), "Device '' not found within 1s");
    assert!(Search::new(None).finish().unwrap().is_empty());
}
