//! The decisions of the site build: which README pages are rendered, where
//! they go, what their navigation holds, and which assets and reports are
//! copied where. Reading and writing files is left to the caller, which
//! performs each step in the order given here.

use vstd::prelude::*;

use crate::config::Config;
use crate::config::CopyConfig;
use crate::html::escaped_attr;
use crate::html::escaped_text;
use crate::html::html_attr;
use crate::html::html_text;
use crate::html::markdown_html;
use crate::html::markdown_to_html;
use crate::html::page;
use crate::html::page_html;
use crate::path::file_name;
use crate::path::file_name_of;
use crate::path::join;
use crate::path::joined;
use crate::path::lemma_file_name_unseparated;
use crate::path::lemma_joined_under_base;

verus! {

// ---------------------------------------------------------------------------
// Pages
// ---------------------------------------------------------------------------

/// Why a site cannot be built.
#[derive(Debug)]
pub enum BuildError {
    /// The configuration defines no language.
    NoLanguages,
    /// The README of the default language does not exist.
    MissingReadme { language: String, path: String },
}

impl BuildError {
    /// The message that reports this error.
    pub fn message(&self) -> (text: String)
        ensures
            text@ == match self {
                BuildError::NoLanguages => "pages configuration must define at least one language"@,
                BuildError::MissingReadme { language, path } => "README for language "@
                    + language@ + " was not found: "@ + path@,
            },
    {
        match self {
            BuildError::NoLanguages => "pages configuration must define at least one language".to_owned(),
            BuildError::MissingReadme { language, path } => {
                let mut text = "README for language ".to_owned();
                text.append(language.as_str());
                text.append(" was not found: ");
                text.append(path.as_str());
                text
            },
        }
    }
}

/// A site needs at least one language.
pub fn check_languages(config: &Config) -> (checked: Result<(), BuildError>)
    ensures
        checked is Ok <==> config.languages@.len() > 0,
        checked matches Err(e) ==> e is NoLanguages,
{
    if config.languages.is_empty() {
        Err(BuildError::NoLanguages)
    } else {
        Ok(())
    }
}

/// Where the README of the `index`-th language is read from.
pub fn readme_source(project: &str, config: &Config, index: usize) -> (source: String)
    requires
        index < config.languages@.len(),
    ensures
        source@ == joined(project@, config.languages@[index as int].1.readme),
{
    join(project, config.languages.language(index).readme.as_str())
}

/// Where the page of the `index`-th language is written.
pub fn page_destination(output: &str, config: &Config, index: usize) -> (destination: String)
    requires
        index < config.languages@.len(),
    ensures
        destination@ == joined(output@, config.languages@[index as int].1.output),
{
    join(output, config.languages.language(index).output.as_str())
}

/// What a missing README at `source` means for the `index`-th language: the
/// build fails when it is the default language, and the language is
/// skipped otherwise.
pub fn missing_readme(config: &Config, index: usize, source: &str) -> (outcome: Result<
    (),
    BuildError,
>)
    requires
        index < config.languages@.len(),
    ensures
        outcome is Err <==> config.languages@[index as int].0 == config.default_language@,
        outcome matches Err(e) ==> e matches BuildError::MissingReadme { language, path } && language@
            == config.languages@[index as int].0 && path@ == source@,
{
    let language = config.languages.key(index);
    if *language == config.default_language {
        Err(BuildError::MissingReadme { language: language.clone(), path: source.to_owned() })
    } else {
        Ok(())
    }
}

/// The navigation link to a rendered page.
pub open spec fn nav_link(output: Seq<char>, label: Seq<char>) -> Seq<char> {
    "<a href=\""@ + escaped_attr(output) + "\">"@ + escaped_text(label) + "</a> "@
}

/// The title of every page: the configured site title, else the language's
/// identifier.
pub open spec fn page_title(config: Config, index: int) -> Seq<char> {
    match config.site_title {
        Some(t) => t@,
        None => config.languages@[index].0,
    }
}

/// Renders the page of the `index`-th language from its README text. The
/// navigation `links` lists the pages rendered before it; the link to this
/// page is then added for the pages after it.
pub fn render_language(config: &Config, index: usize, markdown: &str, links: &mut String) -> (html:
    String)
    requires
        index < config.languages@.len(),
    ensures
        html@ == page_html(page_title(*config, index as int), markdown_html(markdown@), old(links)@),
        final(links)@ == old(links)@ + nav_link(
            config.languages@[index as int].1.output,
            config.languages@[index as int].1.label,
        ),
{
    let definition = config.languages.language(index);
    let title: &str = match &config.site_title {
        Some(t) => t.as_str(),
        None => config.languages.key(index).as_str(),
    };
    let body = markdown_to_html(markdown, title);
    let html = page(title, body.as_str(), links.as_str());
    links.append("<a href=\"");
    let href = html_attr(definition.output.as_str());
    links.append(href.as_str());
    links.append("\">");
    let label = html_text(definition.label.as_str());
    links.append(label.as_str());
    links.append("</a> ");
    html
}

// ---------------------------------------------------------------------------
// Assets and reports
// ---------------------------------------------------------------------------

/// One copy of a file or directory into the generated site.
pub struct CopyStep {
    /// What is copied, when it exists.
    pub source: String,
    /// Where it is copied to.
    pub destination: String,
}

impl View for CopyStep {
    type V = (Seq<char>, Seq<char>);

    open spec fn view(&self) -> (Seq<char>, Seq<char>) {
        (self.source@, self.destination@)
    }
}

/// The views of the strings `v`.
pub open spec fn strings_view(v: Seq<String>) -> Seq<Seq<char>> {
    Seq::new(v.len(), |i: int| v[i]@)
}

/// The views of the copy steps `v`.
pub open spec fn steps_view(v: Seq<CopyStep>) -> Seq<(Seq<char>, Seq<char>)> {
    Seq::new(v.len(), |i: int| v[i]@)
}

/// The final component of `p`, or nothing.
pub open spec fn file_name_or_empty(p: Seq<char>) -> Seq<char> {
    match file_name_of(p) {
        Some(n) => n,
        None => Seq::empty(),
    }
}

/// Each configured asset, from the project to the top of the site under
/// its final component.
pub open spec fn asset_steps(project: Seq<char>, output: Seq<char>, assets: Seq<Seq<char>>) -> Seq<
    (Seq<char>, Seq<char>),
> {
    Seq::new(
        assets.len(),
        |i: int| (joined(project, assets[i]), joined(output, file_name_or_empty(assets[i]))),
    )
}

/// A standard report, unless the assets already list its source.
pub open spec fn report_step(
    project: Seq<char>,
    output: Seq<char>,
    assets: Seq<Seq<char>>,
    source: Seq<char>,
    destination: Seq<char>,
) -> Seq<(Seq<char>, Seq<char>)> {
    if assets.contains(source) {
        Seq::empty()
    } else {
        seq![(joined(project, source), joined(output, destination))]
    }
}

/// The standard reports: the coverage report, the coverage badge and the CI
/// summary.
pub open spec fn report_steps(project: Seq<char>, output: Seq<char>, assets: Seq<Seq<char>>) -> Seq<
    (Seq<char>, Seq<char>),
> {
    report_step(project, output, assets, "target/llvm-cov/html"@, "coverage"@) + report_step(
        project,
        output,
        assets,
        "coverage-badge.json"@,
        "coverage-badge.json"@,
    ) + report_step(project, output, assets, "ci-summary.json"@, "ci-summary.json"@)
}

/// The project's `assets` directory, copied to the top of the site when no
/// configuration file was found.
pub open spec fn unconfigured_step(project: Seq<char>, output: Seq<char>, configured: bool) -> Seq<
    (Seq<char>, Seq<char>),
> {
    if configured {
        Seq::empty()
    } else {
        seq![(joined(project, "assets"@), joined(output, "assets"@))]
    }
}

/// A configured copy operation, when there is one.
pub open spec fn configured_step(project: Seq<char>, output: Seq<char>, item: Option<CopyConfig>) -> Seq<
    (Seq<char>, Seq<char>),
> {
    match item {
        Some(c) => seq![(joined(project, c.source@), joined(output, c.output@))],
        None => Seq::empty(),
    }
}

/// Every copy of a build, in order: the configured assets; the project's
/// `assets` directory when no configuration file was found; the standard
/// reports not listed among the assets; then the coverage report, coverage
/// badge and metadata copies that the configuration defines.
pub open spec fn copy_plan(project: Seq<char>, output: Seq<char>, config: Config, configured: bool) -> Seq<
    (Seq<char>, Seq<char>),
> {
    let assets = strings_view(config.assets@);
    asset_steps(project, output, assets) + unconfigured_step(project, output, configured)
        + report_steps(project, output, assets) + configured_step(
        project,
        output,
        config.coverage,
    ) + configured_step(project, output, config.coverage_badge) + configured_step(
        project,
        output,
        config.metadata,
    )
}

/// Whether `assets` lists `source`.
fn lists(assets: &Vec<String>, source: &str) -> (listed: bool)
    ensures
        listed == strings_view(assets@).contains(source@),
{
    let wanted = source.to_owned();
    let mut i: usize = 0;
    while i < assets.len()
        invariant
            i <= assets@.len(),
            wanted@ == source@,
            forall|j: int| 0 <= j < i ==> assets@[j]@ != source@,
        decreases assets@.len() - i,
    {
        if assets[i] == wanted {
            assert(strings_view(assets@)[i as int] == source@);
            return true;
        }
        i += 1;
    }
    assert forall|j: int| 0 <= j < strings_view(assets@).len() implies strings_view(assets@)[j]
        != source@ by {
        assert(strings_view(assets@)[j] == assets@[j]@);
    }
    false
}

/// Appends the standard report copy from `source` to `destination` unless
/// the assets list `source`.
fn push_report(
    steps: &mut Vec<CopyStep>,
    project: &str,
    output: &str,
    assets: &Vec<String>,
    source: &str,
    destination: &str,
)
    ensures
        steps_view(final(steps)@) == steps_view(old(steps)@) + report_step(
            project@,
            output@,
            strings_view(assets@),
            source@,
            destination@,
        ),
{
    if !lists(assets, source) {
        steps.push(CopyStep { source: join(project, source), destination: join(output, destination) });
    }
    assert(steps_view(steps@) =~= steps_view(old(steps)@) + report_step(
        project@,
        output@,
        strings_view(assets@),
        source@,
        destination@,
    ));
}

/// Appends the configured copy `item`, when there is one.
fn push_configured(steps: &mut Vec<CopyStep>, project: &str, output: &str, item: &Option<CopyConfig>)
    ensures
        steps_view(final(steps)@) == steps_view(old(steps)@) + configured_step(
            project@,
            output@,
            *item,
        ),
{
    if let Some(c) = item {
        steps.push(
            CopyStep {
                source: join(project, c.source.as_str()),
                destination: join(output, c.output.as_str()),
            },
        );
    }
    assert(steps_view(steps@) =~= steps_view(old(steps)@) + configured_step(
        project@,
        output@,
        *item,
    ));
}

/// Copies explicitly configured and standard report assets into the
/// generated site: the copies, in the order in which they are made. A copy
/// whose source does not exist is skipped. `configured` tells whether a
/// configuration file was found; without one, the project's `assets`
/// directory is copied too.
pub fn copy_assets(project: &str, output: &str, config: &Config, configured: bool) -> (steps: Vec<
    CopyStep,
>)
    ensures
        steps_view(steps@) == copy_plan(project@, output@, *config, configured),
{
    let mut steps: Vec<CopyStep> = Vec::new();
    let ghost assets = strings_view(config.assets@);
    let mut i: usize = 0;
    while i < config.assets.len()
        invariant
            i <= config.assets@.len(),
            assets == strings_view(config.assets@),
            steps_view(steps@) == asset_steps(project@, output@, assets).take(i as int),
        decreases config.assets@.len() - i,
    {
        let asset = config.assets[i].as_str();
        let name = match file_name(asset) {
            Some(n) => n,
            None => String::new(),
        };
        assert(assets[i as int] == config.assets@[i as int]@);
        assert(name@ == file_name_or_empty(assets[i as int]));
        let ghost before = steps@;
        steps.push(CopyStep { source: join(project, asset), destination: join(output, name.as_str()) });
        assert(steps_view(steps@).drop_last() =~= steps_view(before));
        assert(steps_view(steps@) =~= asset_steps(project@, output@, assets).take(i + 1));
        i += 1;
    }
    assert(asset_steps(project@, output@, assets).take(i as int) == asset_steps(
        project@,
        output@,
        assets,
    ));
    if !configured {
        let ghost before = steps@;
        steps.push(CopyStep { source: join(project, "assets"), destination: join(output, "assets") });
        assert(steps_view(steps@) =~= steps_view(before) + unconfigured_step(
            project@,
            output@,
            configured,
        ));
    }
    push_report(&mut steps, project, output, &config.assets, "target/llvm-cov/html", "coverage");
    push_report(
        &mut steps,
        project,
        output,
        &config.assets,
        "coverage-badge.json",
        "coverage-badge.json",
    );
    push_report(&mut steps, project, output, &config.assets, "ci-summary.json", "ci-summary.json");
    push_configured(&mut steps, project, output, &config.coverage);
    push_configured(&mut steps, project, output, &config.coverage_badge);
    push_configured(&mut steps, project, output, &config.metadata);
    steps
}

/// Whether `path` lies under the directory `dir`.
pub open spec fn under(dir: Seq<char>, path: Seq<char>) -> bool {
    path.len() >= dir.len() && path.subrange(0, dir.len() as int) == dir
}

/// Configured assets, the unconfigured `assets` directory and standard
/// reports are copied into the output directory: each of their
/// destinations lies under it.
pub proof fn lemma_assets_stay_in_output(
    project: Seq<char>,
    output: Seq<char>,
    assets: Seq<Seq<char>>,
    configured: bool,
)
    ensures
        forall|i: int|
            0 <= i < unconfigured_step(project, output, configured).len() ==> under(
                output,
                (#[trigger] unconfigured_step(project, output, configured)[i]).1,
            ),
        forall|i: int|
            0 <= i < asset_steps(project, output, assets).len() ==> under(
                output,
                (#[trigger] asset_steps(project, output, assets)[i]).1,
            ),
        forall|i: int|
            0 <= i < report_steps(project, output, assets).len() ==> under(
                output,
                (#[trigger] report_steps(project, output, assets)[i]).1,
            ),
{
    assert forall|i: int| 0 <= i < asset_steps(project, output, assets).len() implies under(
        output,
        (#[trigger] asset_steps(project, output, assets)[i]).1,
    ) by {
        let name = file_name_or_empty(assets[i]);
        lemma_file_name_unseparated(assets[i]);
        if name.len() > 0 {
            assert(name[0] != '/');
        }
        lemma_joined_under_base(output, name);
    }
    reveal_strlit("assets");
    lemma_joined_under_base(output, "assets"@);
    reveal_strlit("coverage");
    reveal_strlit("coverage-badge.json");
    reveal_strlit("ci-summary.json");
    lemma_joined_under_base(output, "coverage"@);
    lemma_joined_under_base(output, "coverage-badge.json"@);
    lemma_joined_under_base(output, "ci-summary.json"@);
    let r1 = report_step(project, output, assets, "target/llvm-cov/html"@, "coverage"@);
    let r2 = report_step(project, output, assets, "coverage-badge.json"@, "coverage-badge.json"@);
    let r3 = report_step(project, output, assets, "ci-summary.json"@, "ci-summary.json"@);
    assert forall|i: int| 0 <= i < report_steps(project, output, assets).len() implies under(
        output,
        (#[trigger] report_steps(project, output, assets)[i]).1,
    ) by {
        let all = report_steps(project, output, assets);
        assert(all == r1 + r2 + r3);
        if i < r1.len() {
            assert(all[i] == r1[i]);
        } else if i < r1.len() + r2.len() {
            assert(all[i] == r2[i - r1.len()]);
        } else {
            assert(all[i] == r3[i - r1.len() - r2.len()]);
        }
    }
}

/// Whether some step of `steps` copies to `destination`.
pub open spec fn copies_to(steps: Seq<(Seq<char>, Seq<char>)>, destination: Seq<char>) -> bool {
    exists|i: int| 0 <= i < steps.len() && (#[trigger] steps[i]).1 == destination
}

/// A standard report is skipped exactly when the configured assets list
/// its source: the coverage report goes to `coverage`, the coverage badge
/// to `coverage-badge.json` and the CI summary to `ci-summary.json` in the
/// output, each from the project, unless the assets name that source.
pub proof fn lemma_reports_skip_listed_sources(
    project: Seq<char>,
    output: Seq<char>,
    assets: Seq<Seq<char>>,
)
    ensures
        copies_to(report_steps(project, output, assets), joined(output, "coverage"@)) <==> !assets.contains(
            "target/llvm-cov/html"@,
        ),
        copies_to(report_steps(project, output, assets), joined(output, "coverage-badge.json"@))
            <==> !assets.contains("coverage-badge.json"@),
        copies_to(report_steps(project, output, assets), joined(output, "ci-summary.json"@))
            <==> !assets.contains("ci-summary.json"@),
        forall|i: int|
            0 <= i < report_steps(project, output, assets).len() ==> {
                let step = #[trigger] report_steps(project, output, assets)[i];
                ||| step == (joined(project, "target/llvm-cov/html"@), joined(output, "coverage"@))
                ||| step == (joined(project, "coverage-badge.json"@), joined(
                    output,
                    "coverage-badge.json"@,
                ))
                ||| step == (joined(project, "ci-summary.json"@), joined(output, "ci-summary.json"@))
            },
{
    reveal_strlit("coverage");
    reveal_strlit("coverage-badge.json");
    reveal_strlit("ci-summary.json");
    let d1 = joined(output, "coverage"@);
    let d2 = joined(output, "coverage-badge.json"@);
    let d3 = joined(output, "ci-summary.json"@);
    assert(d1.len() != d2.len() && d1.len() != d3.len() && d2.len() != d3.len());
    let r1 = report_step(project, output, assets, "target/llvm-cov/html"@, "coverage"@);
    let r2 = report_step(project, output, assets, "coverage-badge.json"@, "coverage-badge.json"@);
    let r3 = report_step(project, output, assets, "ci-summary.json"@, "ci-summary.json"@);
    let all = report_steps(project, output, assets);
    assert(all == r1 + r2 + r3);
    assert forall|i: int| 0 <= i < all.len() implies (#[trigger] all[i] == r1[i] && i < r1.len())
        || (i >= r1.len() && i < r1.len() + r2.len() && all[i] == r2[i - r1.len()]) || (i >= r1.len()
        + r2.len() && all[i] == r3[i - r1.len() - r2.len()]) by {}
    if !assets.contains("target/llvm-cov/html"@) {
        assert(all[0] == r1[0]);
    }
    if !assets.contains("coverage-badge.json"@) {
        assert(all[r1.len() as int] == r2[0]);
    }
    if !assets.contains("ci-summary.json"@) {
        assert(all[(r1.len() + r2.len()) as int] == r3[0]);
    }
}

} // verus!
