use vstd::prelude::*;

verus! {

/// A CSS selector for one field of an episode, and the column title it gets.
pub struct FieldSelectors {
    pub title: String,
    pub selector_query: String,
}

/// Everything one run of the tagger needs to know about a series.
pub struct Rule {
    pub target_directory: String,
    pub scrape_url: String,
    pub season_selector_query: String,
    pub season_selector_skip: u32,
    pub episode_selector_query: String,
    pub episode_selector_skip: u32,
    pub episode_field_selectors: Vec<FieldSelectors>,
    pub file_name_template: String,
    pub file_name_check_template: String,
    pub has_season_directory: bool,
    pub season_directory_template: String,
    pub dry_run: bool,
}

/// The directory where the tagger keeps its files for a series.
pub fn tagger_directory_path(target_directory: &str) -> (res: String)
    ensures
        res@ == target_directory@ + "/.tagger"@,
{
    let mut path = String::from_str(target_directory);
    path.append("/.tagger");
    path
}

/// The file that holds the downloaded episode guide page.
pub fn guide_html_path(target_directory: &str) -> (res: String)
    ensures
        res@ == target_directory@ + "/.tagger"@ + "/guide.html"@,
{
    let mut path = tagger_directory_path(target_directory);
    path.append("/guide.html");
    path
}

/// The file that holds the episode guide as CSV.
pub fn guide_csv_path(target_directory: &str) -> (res: String)
    ensures
        res@ == target_directory@ + "/.tagger"@ + "/guide.csv"@,
{
    let mut path = tagger_directory_path(target_directory);
    path.append("/guide.csv");
    path
}

/// The file that holds the planned renames as CSV.
pub fn rename_csv_path(target_directory: &str) -> (res: String)
    ensures
        res@ == target_directory@ + "/.tagger"@ + "/rename.csv"@,
{
    let mut path = tagger_directory_path(target_directory);
    path.append("/rename.csv");
    path
}

} // verus!
