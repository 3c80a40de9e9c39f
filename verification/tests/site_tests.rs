//! The decisions of a site build: pages, navigation and copies.

use qubit_infra_pages::config::load;
use qubit_infra_pages::config::Config;
use qubit_infra_pages::config::CopyConfig;
use qubit_infra_pages::config::Language;
use qubit_infra_pages::config::LanguageMap;
use qubit_infra_pages::site::check_languages;
use qubit_infra_pages::site::copy_assets;
use qubit_infra_pages::site::missing_readme;
use qubit_infra_pages::site::page_destination;
use qubit_infra_pages::site::readme_source;
use qubit_infra_pages::site::render_language;
use qubit_infra_pages::site::BuildError;
use qubit_infra_pages::site::CopyStep;

fn steps(list: &[CopyStep]) -> Vec<(String, String)> {
    list.iter().map(|s| (s.source.clone(), s.destination.clone())).collect()
}

fn pair(a: &str, b: &str) -> (String, String) {
    (a.to_string(), b.to_string())
}

#[test]
fn test_builds_default_bilingual_site() {
    let config = load(None);
    assert!(check_languages(&config).is_ok());
    let project = "/work/site";
    let output = "/work/site/public";
    assert_eq!(readme_source(project, &config, 0), "/work/site/README.md");
    assert_eq!(readme_source(project, &config, 1), "/work/site/README.zh_CN.md");
    assert_eq!(page_destination(output, &config, 0), "/work/site/public/index.html");
    assert_eq!(page_destination(output, &config, 1), "/work/site/public/zh_CN/index.html");

    let mut links = String::new();
    let english = render_language(&config, 0, "# Hello\n\nRust project.", &mut links);
    assert!(english.contains("<title>en</title>"));
    assert!(english.contains("<nav></nav><h1>Hello</h1>\n<p>Rust project.</p>\n</body>"));
    let chinese = render_language(&config, 1, "# 你好\n\nRust 项目。", &mut links);
    assert!(chinese.contains("<title>zh_CN</title>"));
    assert!(chinese.contains("<nav><a href=\"index.html\">English</a> </nav><h1>你好</h1>"));
    assert_eq!(
        links,
        "<a href=\"index.html\">English</a> <a href=\"zh_CN/index.html\">中文</a> "
    );
}

#[test]
fn test_builds_configured_assets_and_optional_reports() {
    let mut languages = LanguageMap::new();
    languages.insert(
        "en".to_string(),
        Language {
            readme: "README.md".to_string(),
            output: "index.html".to_string(),
            label: "English".to_string(),
        },
    );
    let config = load(Some(Config {
        languages,
        assets: vec!["assets".to_string()],
        metadata: Some(CopyConfig {
            source: "ci-summary.json".to_string(),
            output: "ci-summary.json".to_string(),
        }),
        ..Config::default()
    }));
    let plan = copy_assets("/p", "/p/public", &config, true);
    assert_eq!(
        steps(&plan),
        vec![
            pair("/p/assets", "/p/public/assets"),
            pair("/p/target/llvm-cov/html", "/p/public/coverage"),
            pair("/p/coverage-badge.json", "/p/public/coverage-badge.json"),
            pair("/p/ci-summary.json", "/p/public/ci-summary.json"),
            pair("/p/ci-summary.json", "/p/public/ci-summary.json"),
        ]
    );
}

#[test]
fn listed_standard_reports_are_not_copied_twice() {
    let config = load(Some(Config {
        assets: vec!["ci-summary.json".to_string(), "docs/logo.png".to_string()],
        coverage: Some(CopyConfig { source: "cov".to_string(), output: "/abs/cov".to_string() }),
        coverage_badge: Some(CopyConfig { source: "badge.json".to_string(), output: "b.json".to_string() }),
        ..Config::default()
    }));
    let plan = copy_assets("/p", "out", &config, true);
    assert_eq!(
        steps(&plan),
        vec![
            pair("/p/ci-summary.json", "out/ci-summary.json"),
            pair("/p/docs/logo.png", "out/logo.png"),
            pair("/p/target/llvm-cov/html", "out/coverage"),
            pair("/p/coverage-badge.json", "out/coverage-badge.json"),
            pair("/p/cov", "/abs/cov"),
            pair("/p/badge.json", "out/b.json"),
        ]
    );
}

#[test]
fn asset_without_a_name_goes_to_the_site_root() {
    let config = load(Some(Config { assets: vec!["..".to_string()], ..Config::default() }));
    let plan = copy_assets("/p", "out", &config, true);
    assert_eq!(steps(&plan)[0], pair("/p/..", "out/"));
}

#[test]
fn missing_default_readme_fails_and_others_are_skipped() {
    let config = load(None);
    let error = missing_readme(&config, 0, "/p/README.md").unwrap_err();
    match &error {
        BuildError::MissingReadme { language, path } => {
            assert_eq!(language, "en");
            assert_eq!(path, "/p/README.md");
        }
        BuildError::NoLanguages => panic!("wrong error"),
    }
    assert_eq!(error.message(), "README for language en was not found: /p/README.md");
    assert!(missing_readme(&config, 1, "/p/README.zh_CN.md").is_ok());
}

#[test]
fn a_configuration_without_languages_is_refused() {
    let config = Config::default();
    let error = check_languages(&config).unwrap_err();
    assert!(matches!(error, BuildError::NoLanguages));
    assert_eq!(error.message(), "pages configuration must define at least one language");
}

#[test]
fn site_title_overrides_the_language_name_and_links_are_escaped() {
    let mut languages = LanguageMap::new();
    languages.insert(
        "en".to_string(),
        Language {
            readme: "README.md".to_string(),
            output: "a\"b.html".to_string(),
            label: "<Eng>".to_string(),
        },
    );
    let config = load(Some(Config {
        site_title: Some("My & Site".to_string()),
        languages,
        ..Config::default()
    }));
    let mut links = "<a href=\"x.html\">X</a> ".to_string();
    let html = render_language(&config, 0, "text", &mut links);
    assert!(html.contains("<title>My &amp; Site</title>"));
    assert!(html.contains("<nav><a href=\"x.html\">X</a> </nav><p>text</p>\n"));
    assert_eq!(links, "<a href=\"x.html\">X</a> <a href=\"a&quot;b.html\">&lt;Eng&gt;</a> ");
}

#[test]
fn assets_and_reports_stay_under_the_output() {
    let config = load(Some(Config {
        assets: vec!["a/b".to_string(), "../up".to_string(), "/abs/x".to_string(), ".".to_string()],
        ..Config::default()
    }));
    let plan = copy_assets("/p", "/p/public", &config, true);
    assert_eq!(plan.len(), 7);
    for step in &plan {
        assert!(step.destination.starts_with("/p/public"), "{}", step.destination);
    }
    assert_eq!(plan[2].source, "/abs/x");
    assert_eq!(plan[2].destination, "/p/public/x");
}

#[test]
fn without_a_configuration_file_the_assets_directory_is_copied() {
    let config = load(None);
    assert!(config.assets.is_empty());
    let plan = copy_assets("/p", "/p/public", &config, false);
    assert_eq!(
        steps(&plan),
        vec![
            pair("/p/assets", "/p/public/assets"),
            pair("/p/target/llvm-cov/html", "/p/public/coverage"),
            pair("/p/coverage-badge.json", "/p/public/coverage-badge.json"),
            pair("/p/ci-summary.json", "/p/public/ci-summary.json"),
        ]
    );
    let configured = copy_assets("/p", "/p/public", &config, true);
    assert_eq!(steps(&configured), steps(&plan)[1..].to_vec());
}
