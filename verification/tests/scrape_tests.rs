use media_tagger::scrape_data::{guide_csv, refine_field_value, scrape_data, ScrapeError};

const PAGE: &str = r#"<html><body>
<table class="wikiepisodetable">
<tr class="head"><th>No</th><td class="summary">Title</td></tr>
<tr class="module-episode-list-row"><th>1</th><td class="summary">"The Story of Daigo"<sup>[1]</sup></td></tr>
<tr class="module-episode-list-row"><th>2</th><td class="summary">"The Story of Bandai, Part 1"</td></tr>
</table>
<table class="wikiepisodetable">
<tr class="module-episode-list-row"><th>3</th><td class="summary">  The Story of Jiromaru
 </td></tr>
</table>
</body></html>"#;

fn fields() -> Vec<Vec<String>> {
    vec![
        vec!["title".to_string(), "td.summary".to_string()],
        vec!["#".to_string(), "th".to_string()],
    ]
}

#[test]
fn refine_cleans_a_cell() {
    assert_eq!(refine_field_value("  Hello, \"World\"\n<b>x</b>".to_string()), "Hello World");
    assert_eq!(refine_field_value("It's a\ntest".to_string()), "Its a test");
    assert_eq!(refine_field_value("a   b".to_string()), "a  b");
    assert_eq!(refine_field_value("<i>x</i>".to_string()), "");
}

#[test]
fn refined_values_are_csv_safe() {
    for v in ["a,b", "\"q\"", "x\ny", "it's", "a<b", " , \n \" ' "] {
        let r = refine_field_value(v.to_string());
        assert!(!r.contains(',') && !r.contains('"') && !r.contains('\'') && !r.contains('\n') && !r.contains('<'));
    }
}

#[test]
fn guide_csv_numbers_episodes() {
    let titles = vec!["title".to_string()];
    let table = vec![
        vec![vec!["A".to_string()], vec!["B, b".to_string()]],
        vec![vec!["C".to_string()]],
    ];
    assert_eq!(
        guide_csv(&titles, &table),
        "#,season,episode,title\n1,1,1,A\n2,1,2,B b\n3,2,1,C\n"
    );
}

#[test]
fn scrape_reads_seasons_and_episodes() {
    let csv = scrape_data(PAGE, "table.wikiepisodetable", 0, "tr.module-episode-list-row", 0, fields());
    assert_eq!(
        csv,
        Ok("#,season,episode,title,#\n1,1,1,The Story of Daigo,1\n2,1,2,The Story of Bandai Part 1,2\n3,2,1,The Story of Jiromaru,3\n".to_string())
    );
}

#[test]
fn scrape_skips_seasons_and_episodes() {
    let csv = scrape_data(PAGE, "table.wikiepisodetable", 1, "tr.module-episode-list-row", 0, fields());
    assert_eq!(csv, Ok("#,season,episode,title,#\n1,1,1,The Story of Jiromaru,3\n".to_string()));
    let csv = scrape_data(PAGE, "table.wikiepisodetable", 0, "tr.module-episode-list-row", 1, fields());
    assert_eq!(
        csv,
        Ok("#,season,episode,title,#\n1,1,1,The Story of Bandai Part 1,2\n".to_string())
    );
    let csv = scrape_data(PAGE, "table.wikiepisodetable", 5, "tr", -3, fields());
    assert_eq!(csv, Ok("#,season,episode,title,#\n".to_string()));
}

#[test]
fn scrape_errors() {
    let mut f = fields();
    f.push(Vec::new());
    assert_eq!(scrape_data(PAGE, "table", 0, "tr", 0, f), Err(ScrapeError::EmptyFieldSelector));
    assert_eq!(scrape_data(PAGE, "table[", 0, "tr", 0, fields()), Err(ScrapeError::InvalidSelector));
    assert_eq!(scrape_data(PAGE, "table.wikiepisodetable", 0, "tr[", 0, fields()), Err(ScrapeError::InvalidSelector));
    // an invalid episode query matters only where a season is left after skipping
    assert_eq!(scrape_data(PAGE, "table.wikiepisodetable", 9, "tr[", 0, fields()), Ok("#,season,episode,title,#\n".to_string()));
    let missing = vec![vec!["x".to_string(), "td.nothing".to_string()]];
    assert_eq!(scrape_data(PAGE, "table.wikiepisodetable", 0, "tr.module-episode-list-row", 0, missing), Err(ScrapeError::FieldNotFound));
    let incomplete = vec![vec!["x".to_string()]];
    assert_eq!(scrape_data(PAGE, "table.wikiepisodetable", 0, "tr.module-episode-list-row", 0, incomplete), Err(ScrapeError::IncompleteFieldSelector));
}

#[test]
fn nonpositive_skip_skips_nothing() {
    let zero = scrape_data(PAGE, "table.wikiepisodetable", 0, "tr.module-episode-list-row", 0, fields());
    let negative = scrape_data(PAGE, "table.wikiepisodetable", -2, "tr.module-episode-list-row", -7, fields());
    assert_eq!(zero, negative);
}

#[test]
fn page_is_read_from_html() {
    let page = media_tagger::scrape_data::read_guide_page(PAGE, "table.wikiepisodetable", "tr.module-episode-list-row", &fields())
        .ok()
        .unwrap();
    assert_eq!(page.seasons.len(), 2);
    assert_eq!(page.seasons[0].len(), 2);
    assert_eq!(page.seasons[1].len(), 1);
    assert_eq!(page.seasons[0][0][1], Some("1".to_string()));
    let invalid_episodes = media_tagger::scrape_data::read_guide_page(PAGE, "table.wikiepisodetable", "tr[", &fields())
        .ok()
        .unwrap();
    assert!(!invalid_episodes.episode_selector_valid);
    assert_eq!(invalid_episodes.seasons.len(), 2);
    assert!(invalid_episodes.seasons.iter().all(|s| s.is_empty()));
}
