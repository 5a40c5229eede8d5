use songarr::config::{Vk as VkConfig, Yandex as YandexConfig};

#[test]
fn vk_unavailable_without_token() {
    let config = VkConfig { enabled: true, ..VkConfig::default() };
    assert!(!songarr::vk::available(&config));
}

#[test]
fn yandex_unavailable_without_token() {
    let config = YandexConfig { enabled: true, ..YandexConfig::default() };
    assert!(!songarr::yandex::available(&config));
}

#[test]
fn providers_need_enabled_and_token() {
    let vk = VkConfig { enabled: true, access_token: " tok ".into(), ..VkConfig::default() };
    assert!(songarr::vk::available(&vk));
    let off = YandexConfig { enabled: false, access_token: "tok".into(), ..YandexConfig::default() };
    assert!(!songarr::yandex::available(&off));
    let y = YandexConfig { enabled: true, access_token: "tok".into(), use_for_search: false, ..YandexConfig::default() };
    assert!(songarr::yandex::available(&y));
    assert!(!songarr::yandex::search_enabled(&y));
    assert_eq!(songarr::yandex::wave_enabled(&y), y.use_for_wave);
    let slow = YandexConfig { api_timeout_secs: 0, ..YandexConfig::default() };
    assert_eq!(songarr::yandex::helper_timeout_secs(&slow), 1);
}

#[test]
fn source_helper_runs_through_python() {
    let (program, args) = songarr::vk::helper_invocation("scripts/songarr-vk", None);
    assert!(program.ends_with("python") || program.ends_with("python3"));
    assert_eq!(args, vec!["scripts/songarr-vk".to_string()]);
    let (venv, _) = songarr::vk::helper_invocation("scripts/songarr-vk", Some("/venv/bin/python".into()));
    assert_eq!(venv, "/venv/bin/python");
}

#[test]
fn installed_helper_runs_directly() {
    let (program, args) = songarr::vk::helper_invocation("/usr/local/bin/songarr-vk", None);
    assert_eq!(program, "/usr/local/bin/songarr-vk");
    assert!(args.is_empty());
}
