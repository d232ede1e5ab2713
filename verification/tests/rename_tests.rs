use media_tagger::rename_files::{
    file_name_matches, generate_rename_csv, matching_file_names, plan_rename_lookups,
    rename_csv_row, rename_files, rename_lookup, RecordOutcome, RenameError,
};
use media_tagger::rule::{guide_csv_path, rename_csv_path, tagger_directory_path, Rule};
use media_tagger::template::TemplateError;

fn rule(has_season_directory: bool, dry_run: bool) -> Rule {
    Rule {
        target_directory: "/videos/Dororo".to_string(),
        scrape_url: "https://example.org/episodes".to_string(),
        season_selector_query: "table.wikiepisodetable".to_string(),
        season_selector_skip: 0,
        episode_selector_query: "tr.module-episode-list-row".to_string(),
        episode_selector_skip: 0,
        episode_field_selectors: Vec::new(),
        file_name_template: "Dororo-{{i2.p2}}-{{s3.ct}}".to_string(),
        file_name_check_template: "Dororo - {{i2.p2}}".to_string(),
        has_season_directory,
        season_directory_template: "Season{{i1.p2}}".to_string(),
        dry_run,
    }
}

const GUIDE: &str = "#,season,episode,title,#\n1,1,1,The Story of Daigo,1\n2,1,2,The Story of Bandai,2\n";

#[test]
fn tagger_paths() {
    assert_eq!(tagger_directory_path("/v/D"), "/v/D/.tagger");
    assert_eq!(guide_csv_path("/v/D"), "/v/D/.tagger/guide.csv");
    assert_eq!(rename_csv_path("/v/D"), "/v/D/.tagger/rename.csv");
    assert_eq!(media_tagger::rule::guide_html_path("/v/D"), "/v/D/.tagger/guide.html");
}

#[test]
fn name_matching_ignores_case() {
    assert!(file_name_matches("DORORO - 01 [1080p].mkv", "Dororo - 01"));
    assert!(!file_name_matches("Dororo - 02.mkv", "Dororo - 01"));
    assert!(file_name_matches("Dororo - 01.mkv", "Dororo - 01.mkv"));
    let names = vec!["a.mkv".to_string(), "Dororo - 01.mkv".to_string(), "dororo - 01.srt".to_string()];
    assert_eq!(
        matching_file_names(&names, "dororo - 01"),
        vec!["Dororo - 01.mkv".to_string(), "dororo - 01.srt".to_string()]
    );
}

#[test]
fn lookups_from_guide() {
    let plan = plan_rename_lookups(&rule(false, false), GUIDE);
    assert!(plan.stopped.is_none());
    assert_eq!(plan.lookups.len(), 2);
    assert_eq!(plan.lookups[0].target_file_name, "Dororo-01-TheStoryOfDaigo");
    assert_eq!(plan.lookups[0].source_file_name_check, "Dororo - 01");
    assert_eq!(plan.lookups[0].season_directory_path, "/videos/Dororo");
    assert_eq!(plan.lookups[1].target_file_name, "Dororo-02-TheStoryOfBandai");
}

#[test]
fn lookup_with_season_directory() {
    let record = vec!["5".to_string(), "2".to_string(), "1".to_string(), "X".to_string()];
    let lookup = rename_lookup(&rule(true, false), &record).ok().unwrap();
    assert_eq!(lookup.season_directory_path, "/videos/Dororo/Season02");
}

#[test]
fn lookup_failure_stops_the_plan() {
    let guide = "#,season,episode,title\n1,1,1,A\n2,1,2\n3,1,3,C\n";
    let plan = plan_rename_lookups(&rule(false, false), guide);
    // the csv reader refuses the short second record before any template runs on it
    assert_eq!(plan.lookups.len(), 1);
    assert!(matches!(plan.stopped, Some(RenameError::Csv(_))));
}

#[test]
fn template_error_stops_the_plan() {
    let mut r = rule(false, false);
    r.file_name_template = "{{i9.p2}}".to_string();
    let plan = plan_rename_lookups(&r, GUIDE);
    assert_eq!(plan.lookups.len(), 0);
    assert!(matches!(plan.stopped, Some(RenameError::Template(TemplateError::FieldIndexOutOfRange))));
}

#[test]
fn rename_list_has_a_line_per_single_match() {
    let plan = plan_rename_lookups(&rule(false, false), GUIDE);
    let listings = vec![
        Some(vec!["[Sub] Dororo - 01 [1080p].mkv".to_string(), "notes.txt".to_string()]),
        Some(vec!["Dororo - 02.mkv".to_string(), "dororo - 02.srt".to_string()]),
    ];
    let report = generate_rename_csv(plan, &listings);
    assert_eq!(report.outcomes.len(), 2);
    match &report.outcomes[0] {
        RecordOutcome::Renamed { stem, extension, target_file_path } => {
            assert_eq!(stem, "[Sub] Dororo - 01 [1080p]");
            assert_eq!(extension, "mkv");
            assert_eq!(target_file_path, "/videos/Dororo/Dororo-01-TheStoryOfDaigo.mkv");
        },
        _ => panic!("expected a rename"),
    }
    assert!(matches!(report.outcomes[1], RecordOutcome::MultipleFiles));
    assert_eq!(
        report.csv.ok().unwrap(),
        "Target Name, Source Name, Directory Path\n\"Dororo-01-TheStoryOfDaigo.mkv\",\"[Sub] Dororo - 01 [1080p].mkv\",\"/videos/Dororo\"\n"
    );
}

#[test]
fn missing_directory_and_no_files() {
    let plan = plan_rename_lookups(&rule(false, false), GUIDE);
    let listings = vec![None, Some(vec!["other.mkv".to_string()])];
    let report = generate_rename_csv(plan, &listings);
    assert!(matches!(report.outcomes[0], RecordOutcome::DirectoryMissing));
    assert!(matches!(report.outcomes[1], RecordOutcome::NoFiles));
    assert_eq!(report.csv.ok().unwrap(), "Target Name, Source Name, Directory Path\n");
}

#[test]
fn single_match_without_extension_fails() {
    let plan = plan_rename_lookups(&rule(false, false), GUIDE);
    let listings = vec![Some(vec!["Dororo - 01".to_string()]), None];
    let report = generate_rename_csv(plan, &listings);
    assert_eq!(report.outcomes.len(), 0);
    assert!(matches!(report.csv, Err(RenameError::MissingExtension)));
}

#[test]
fn row_format() {
    assert_eq!(rename_csv_row("New", "old", "mkv", "/d"), "\"New.mkv\",\"old.mkv\",\"/d\"\n");
}

#[test]
fn rename_operations_from_list() {
    let list = "Target Name, Source Name, Directory Path\n\"New.mkv\",\"old.mkv\",\"/d\"\n\"B.avi\",\"a.avi\",\"/e\"\n";
    let ops = rename_files(&rule(false, true), list);
    assert!(ops.stopped.is_none());
    assert_eq!(ops.operations.len(), 2);
    assert_eq!(ops.operations[0].source_file_path, "/d/old.mkv");
    assert_eq!(ops.operations[0].target_file_path, "/d/New.mkv");
    assert!(!ops.operations[0].apply);
    assert_eq!(ops.operations[1].source_file_path, "/e/a.avi");
    let ops = rename_files(&rule(false, false), list);
    assert!(ops.operations[1].apply);
}

#[test]
fn generated_list_reads_back_as_renames() {
    let plan = plan_rename_lookups(&rule(false, false), GUIDE);
    let listings = vec![Some(vec!["Dororo - 01.mkv".to_string()]), Some(vec!["DORORO - 02.mp4".to_string()])];
    let report = generate_rename_csv(plan, &listings);
    let list = report.csv.ok().unwrap();
    let ops = rename_files(&rule(false, false), &list);
    assert!(ops.stopped.is_none());
    assert_eq!(ops.operations[0].source_file_path, "/videos/Dororo/Dororo - 01.mkv");
    assert_eq!(ops.operations[0].target_file_path, "/videos/Dororo/Dororo-01-TheStoryOfDaigo.mkv");
    assert_eq!(ops.operations[1].source_file_path, "/videos/Dororo/DORORO - 02.mp4");
    assert_eq!(ops.operations[1].target_file_path, "/videos/Dororo/Dororo-02-TheStoryOfBandai.mp4");
    for (op, outcome) in ops.operations.iter().zip(report.outcomes.iter()) {
        match outcome {
            RecordOutcome::Renamed { target_file_path, .. } => assert_eq!(&op.target_file_path, target_file_path),
            _ => panic!("expected a rename"),
        }
    }
}
