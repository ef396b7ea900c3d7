use archive::i18n::{Backend, BackendData};
use archive::settings::{I18nSettings, I18nSettingsContent};

fn asset(path: &str, text: &str) -> (String, Vec<u8>) {
    (path.to_string(), text.as_bytes().to_vec())
}

fn sample() -> BackendData {
    BackendData::init(&vec![
        asset("locales/en.yml", "hello: Hello\nbye: Goodbye\n"),
        asset("locales/zh-CN.yml", "hello: 你好\n"),
        asset("other/fr.yml", "hello: Bonjour\n"),
        asset("locales/de.txt", "hello: Hallo\n"),
        asset("locales/broken.yml", "- just\n- a list\n"),
    ])
}

#[test]
fn init_reads_locale_files_only() {
    let data = sample();
    assert_eq!(data.available_locales(), vec!["en", "zh-CN"]);
    assert_eq!(data.translate("en", "hello"), Some("Hello"));
    assert_eq!(data.translate("en", "bye"), Some("Goodbye"));
    assert_eq!(data.translate("zh-CN", "hello"), Some("你好"));
    assert_eq!(data.translate("zh-CN", "bye"), None);
    assert_eq!(data.translate("fr", "hello"), None);
    assert_eq!(data.translate("broken", "hello"), None);
}

#[test]
fn later_locale_file_replaces_earlier() {
    let data = BackendData::init(&vec![
        asset("locales/en.yml", "hello: Hello\n"),
        asset("locales/sub/en.yml", "hello: Hi\n"),
    ]);
    assert_eq!(data.available_locales(), vec!["en"]);
    assert_eq!(data.translate("en", "hello"), Some("Hi"));
}

#[test]
fn stem_keeps_inner_dots() {
    let data = BackendData::init(&vec![asset("locales/en.GB.yml", "a: b\n")]);
    assert_eq!(data.available_locales(), vec!["en.GB"]);
    assert!(data.has_locale("en.GB"));
    assert!(!data.has_locale("en"));
}

#[test]
fn insert_replaces_existing_locale() {
    let mut data = BackendData::new();
    data.insert("en".to_string(), vec![("k".to_string(), "one".to_string())]);
    data.insert("de".to_string(), vec![("k".to_string(), "eins".to_string())]);
    data.insert("en".to_string(), vec![("k".to_string(), "two".to_string())]);
    assert_eq!(data.available_locales(), vec!["en", "de"]);
    assert_eq!(data.translate("en", "k"), Some("two"));
    assert_eq!(data.translate("de", "k"), Some("eins"));
}

#[test]
fn repeated_key_takes_last_pair() {
    let mut data = BackendData::new();
    data.insert(
        "en".to_string(),
        vec![("k".to_string(), "first".to_string()), ("k".to_string(), "last".to_string())],
    );
    assert_eq!(data.translate("en", "k"), Some("last"));
}

#[test]
fn backend_answers_from_its_tables() {
    let backend = Backend::new(sample());
    assert_eq!(backend.available_locales(), vec!["en", "zh-CN"]);
    assert_eq!(backend.translate("en", "hello"), Some("Hello"));
    assert_eq!(backend.translate("ja", "hello"), None);
    assert!(backend.tables().has_locale("en"));
}

#[test]
fn switch_locale_to_known_locale() {
    let data = sample();
    let mut settings = I18nSettings { locale: "en".to_string() };
    assert_eq!(settings.switch_locale(&data, "zh-CN"), Some("zh-CN".to_string()));
    assert_eq!(settings.locale, "zh-CN");
}

#[test]
fn switch_locale_to_unknown_locale_keeps_settings() {
    let data = sample();
    let mut settings = I18nSettings { locale: "en".to_string() };
    assert_eq!(settings.switch_locale(&data, "fr"), None);
    assert_eq!(settings.locale, "en");
}

#[test]
fn load_takes_last_source_naming_a_locale() {
    let defaults = I18nSettingsContent { locale: Some("en".to_string()) };
    let none = I18nSettings::load(&defaults, &vec![]);
    assert_eq!(none.locale, "en");

    let sources = vec![
        I18nSettingsContent { locale: Some("de".to_string()) },
        I18nSettingsContent { locale: None },
    ];
    assert_eq!(I18nSettings::load(&defaults, &sources).locale, "de");

    let sources = vec![
        I18nSettingsContent { locale: Some("de".to_string()) },
        I18nSettingsContent { locale: Some("zh-CN".to_string()) },
    ];
    assert_eq!(I18nSettings::load(&defaults, &sources).locale, "zh-CN");
}
