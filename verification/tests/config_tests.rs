//! The configuration model, its key order and its defaults.

use qubit_infra_pages::config::compare_keys;
use qubit_infra_pages::config::config_candidates;
use qubit_infra_pages::config::load;
use qubit_infra_pages::config::Config;
use qubit_infra_pages::config::CopyConfig;
use qubit_infra_pages::config::KeyOrder;
use qubit_infra_pages::config::Language;
use qubit_infra_pages::config::LanguageMap;

fn language(readme: &str, output: &str, label: &str) -> Language {
    Language { readme: readme.to_string(), output: output.to_string(), label: label.to_string() }
}

fn keys(map: &LanguageMap) -> Vec<String> {
    (0..map.len()).map(|i| map.key(i).clone()).collect()
}

#[test]
fn key_order_is_lexicographic() {
    assert_eq!(compare_keys("en", "zh_CN"), KeyOrder::Less);
    assert_eq!(compare_keys("en", "en"), KeyOrder::Equal);
    assert_eq!(compare_keys("fr", "en"), KeyOrder::Greater);
    assert_eq!(compare_keys("en", "en_US"), KeyOrder::Less);
    assert_eq!(compare_keys("", "a"), KeyOrder::Less);
    assert_eq!(compare_keys("Z", "a"), KeyOrder::Less);
}

#[test]
fn map_walks_keys_in_ascending_order() {
    let mut map = LanguageMap::new();
    assert!(map.is_empty());
    map.insert("zh_CN".to_string(), language("README.zh_CN.md", "zh_CN/index.html", "中文"));
    map.insert("en".to_string(), language("README.md", "index.html", "English"));
    map.insert("fr".to_string(), language("README.fr.md", "fr/index.html", "Français"));
    assert_eq!(keys(&map), vec!["en", "fr", "zh_CN"]);
    assert_eq!(map.language(1).label, "Français");
}

#[test]
fn insert_replaces_the_value_of_a_present_key() {
    let mut map = LanguageMap::new();
    map.insert("en".to_string(), language("README.md", "index.html", "English"));
    map.insert("en".to_string(), language("docs/README.md", "en.html", "EN"));
    assert_eq!(map.len(), 1);
    assert_eq!(map.language(0).readme, "docs/README.md");
    assert_eq!(map.language(0).label, "EN");
}

#[test]
fn empty_configuration_gets_bilingual_defaults() {
    let config = load(None);
    assert_eq!(config.default_language, "en");
    assert_eq!(keys(&config.languages), vec!["en", "zh_CN"]);
    let en = config.languages.language(0);
    assert_eq!((en.readme.as_str(), en.output.as_str(), en.label.as_str()), ("README.md", "index.html", "English"));
    let zh = config.languages.language(1);
    assert_eq!(
        (zh.readme.as_str(), zh.output.as_str(), zh.label.as_str()),
        ("README.zh_CN.md", "zh_CN/index.html", "中文")
    );
    assert!(config.site_title.is_none() && config.assets.is_empty());
    assert!(config.coverage.is_none() && config.coverage_badge.is_none() && config.metadata.is_none());
}

#[test]
fn configured_languages_and_default_are_kept() {
    let mut languages = LanguageMap::new();
    languages.insert("fr".to_string(), language("LISEZMOI.md", "index.html", "Français"));
    let parsed = Config {
        site_title: Some("Site".to_string()),
        default_language: "fr".to_string(),
        languages,
        assets: vec!["assets".to_string()],
        coverage: None,
        coverage_badge: None,
        metadata: Some(CopyConfig { source: "a.json".to_string(), output: "b.json".to_string() }),
    };
    let config = load(Some(parsed));
    assert_eq!(keys(&config.languages), vec!["fr"]);
    assert_eq!(config.default_language, "fr");
    assert_eq!(config.site_title.as_deref(), Some("Site"));
    assert_eq!(config.assets, vec!["assets"]);
    assert_eq!(config.metadata.as_ref().map(|m| m.output.as_str()), Some("b.json"));
}

#[test]
fn missing_default_language_becomes_english() {
    let mut languages = LanguageMap::new();
    languages.insert("de".to_string(), language("README.de.md", "index.html", "Deutsch"));
    let parsed = Config { languages, ..Config::default() };
    let config = load(Some(parsed));
    assert_eq!(config.default_language, "en");
    assert_eq!(keys(&config.languages), vec!["de"]);
}

#[test]
fn completing_twice_is_completing_once() {
    let once = load(None);
    let twice = load(Some(load(None)));
    assert_eq!(keys(&once.languages), keys(&twice.languages));
    assert_eq!(once.default_language, twice.default_language);
}

#[test]
fn primary_configuration_file_comes_first() {
    assert_eq!(
        config_candidates("/work/site"),
        vec!["/work/site/.infra/ci/pages.json", "/work/site/.rs-ci-page.json"]
    );
}
