use vstd::prelude::*;
use crate::chars::{chars_of, string_of};
use crate::unicode::whitespace;
use crate::html::{
    count_selected, parse_selector, select_page, selected_count, selected_page, selector_accepted,
};
use crate::text::{
    contains_seq, lemma_lacks_char_not_contained, lemma_replaced_absent, lemma_replaced_char_concat,
    occurs_at, trimmed_end, trimmed_start,
    count_char, decimal_chars, decimal_text, is_ascii_digit, lemma_count_char_concat,
    lemma_count_char_lacking, lemma_count_char_single, lemma_decimal_text_lacks,
    lacks_char, lemma_prefix_before_lacks, lemma_replaced_keeps_absent, lemma_replaced_removes,
    lemma_trimmed_keeps_absent, prefix_before, prefix_before_exec, replace_exec, replaced, trim_exec,
    trimmed,
};

verus! {

/// A scraped field value cleaned for one cell of the guide CSV: the text before
/// the first `<`, trimmed, with line breaks and commas turned into spaces,
/// quotes dropped, and each pair of spaces made one.
pub open spec fn refined_field_value(value: Seq<char>) -> Seq<char> {
    let text = trimmed(prefix_before(value, '<'));
    let no_breaks = replaced(text, seq!['\n'], seq![' ']);
    let no_commas = replaced(no_breaks, seq![','], seq![' ']);
    let no_quotes = replaced(no_commas, seq!['"'], Seq::empty());
    let no_apostrophes = replaced(no_quotes, seq!['\''], Seq::empty());
    replaced(no_apostrophes, seq![' ', ' '], seq![' '])
}

/// Cleans a scraped field value for one cell of the guide CSV.
pub fn refine_field_value(field_value: String) -> (res: String)
    ensures
        res@ == refined_field_value(field_value@),
{
    let value = chars_of(field_value.as_str());
    let text = trim_exec(&prefix_before_exec(&value, '<'));
    let line_break = vec!['\n'];
    let comma = vec![','];
    let quote = vec!['"'];
    let apostrophe = vec!['\''];
    let space = vec![' '];
    let two_spaces = vec![' ', ' '];
    let nothing: Vec<char> = Vec::new();
    assert(line_break@ =~= seq!['\n'] && comma@ =~= seq![','] && quote@ =~= seq!['"']);
    assert(apostrophe@ =~= seq!['\''] && space@ =~= seq![' '] && two_spaces@ =~= seq![' ', ' ']);
    assert(nothing@ =~= Seq::<char>::empty());
    let no_breaks = replace_exec(&text, &line_break, &space);
    let no_commas = replace_exec(&no_breaks, &comma, &space);
    let no_quotes = replace_exec(&no_commas, &quote, &nothing);
    let no_apostrophes = replace_exec(&no_quotes, &apostrophe, &nothing);
    let result = replace_exec(&no_apostrophes, &two_spaces, &space);
    string_of(result.as_slice())
}

/// A refined field value can stand in a CSV cell as it is: it holds no comma,
/// no quote or apostrophe, no line break, and no `<`.
pub proof fn lemma_refined_field_value_is_csv_safe(value: Seq<char>)
    ensures
        lacks_char(refined_field_value(value), ','),
        lacks_char(refined_field_value(value), '"'),
        lacks_char(refined_field_value(value), '\''),
        lacks_char(refined_field_value(value), '\n'),
        lacks_char(refined_field_value(value), '<'),
{
    let text = trimmed(prefix_before(value, '<'));
    let no_breaks = replaced(text, seq!['\n'], seq![' ']);
    let no_commas = replaced(no_breaks, seq![','], seq![' ']);
    let no_quotes = replaced(no_commas, seq!['"'], Seq::empty());
    let no_apostrophes = replaced(no_quotes, seq!['\''], Seq::empty());
    let space = seq![' '];
    let empty = Seq::<char>::empty();
    lemma_prefix_before_lacks(value, '<');
    lemma_trimmed_keeps_absent(prefix_before(value, '<'), '<');
    // '<' is gone before any replacement and none brings it back
    lemma_replaced_keeps_absent(text, seq!['\n'], space, '<');
    lemma_replaced_keeps_absent(no_breaks, seq![','], space, '<');
    lemma_replaced_keeps_absent(no_commas, seq!['"'], empty, '<');
    lemma_replaced_keeps_absent(no_quotes, seq!['\''], empty, '<');
    lemma_replaced_keeps_absent(no_apostrophes, seq![' ', ' '], space, '<');
    // line breaks
    lemma_replaced_removes(text, '\n', space);
    lemma_replaced_keeps_absent(no_breaks, seq![','], space, '\n');
    lemma_replaced_keeps_absent(no_commas, seq!['"'], empty, '\n');
    lemma_replaced_keeps_absent(no_quotes, seq!['\''], empty, '\n');
    lemma_replaced_keeps_absent(no_apostrophes, seq![' ', ' '], space, '\n');
    // commas
    lemma_replaced_removes(no_breaks, ',', space);
    lemma_replaced_keeps_absent(no_commas, seq!['"'], empty, ',');
    lemma_replaced_keeps_absent(no_quotes, seq!['\''], empty, ',');
    lemma_replaced_keeps_absent(no_apostrophes, seq![' ', ' '], space, ',');
    // quotes
    lemma_replaced_removes(no_commas, '"', empty);
    lemma_replaced_keeps_absent(no_quotes, seq!['\''], empty, '"');
    lemma_replaced_keeps_absent(no_apostrophes, seq![' ', ' '], space, '"');
    // apostrophes
    lemma_replaced_removes(no_quotes, '\'', empty);
    lemma_replaced_keeps_absent(no_apostrophes, seq![' ', ' '], space, '\'');
}

} // verus!

verus! {

/// The titles of the extra columns, each after a comma.
pub open spec fn header_fields(titles: Seq<Seq<char>>) -> Seq<char>
    decreases titles.len(),
{
    if titles.len() == 0 {
        Seq::empty()
    } else {
        header_fields(titles.drop_last()) + seq![','] + titles.last()
    }
}

/// The refined field values of an episode, each after a comma.
pub open spec fn value_cells(values: Seq<Seq<char>>) -> Seq<char>
    decreases values.len(),
{
    if values.len() == 0 {
        Seq::empty()
    } else {
        value_cells(values.drop_last()) + seq![','] + refined_field_value(values.last())
    }
}

/// The line of the guide for one episode: its number counted over all seasons,
/// its season, its number within the season, then its field values.
pub open spec fn episode_row(cumulative: nat, season: nat, episode: nat, values: Seq<Seq<char>>) -> Seq<char> {
    decimal_text(cumulative) + seq![','] + decimal_text(season) + seq![','] + decimal_text(episode)
        + value_cells(values) + seq!['\n']
}

/// The number of episodes in all seasons.
pub open spec fn total_episodes(table: Seq<Seq<Seq<Seq<char>>>>) -> nat
    decreases table.len(),
{
    if table.len() == 0 {
        0
    } else {
        total_episodes(table.drop_last()) + table.last().len()
    }
}

/// The lines for the episodes of season `season`, `before` episodes having come before it.
pub open spec fn season_rows(episodes: Seq<Seq<Seq<char>>>, season: nat, before: nat) -> Seq<char>
    decreases episodes.len(),
{
    if episodes.len() == 0 {
        Seq::empty()
    } else {
        season_rows(episodes.drop_last(), season, before) + episode_row(
            before + episodes.len(),
            season,
            episodes.len(),
            episodes.last(),
        )
    }
}

/// The lines for all episodes, season after season, seasons counted from 1.
pub open spec fn guide_rows(table: Seq<Seq<Seq<Seq<char>>>>) -> Seq<char>
    decreases table.len(),
{
    if table.len() == 0 {
        Seq::empty()
    } else {
        guide_rows(table.drop_last()) + season_rows(
            table.last(),
            table.len(),
            total_episodes(table.drop_last()),
        )
    }
}

/// The episode guide as CSV: a header line with `#`, `season`, `episode` and the
/// field titles, then one line per episode.
pub open spec fn guide_csv_text(titles: Seq<Seq<char>>, table: Seq<Seq<Seq<Seq<char>>>>) -> Seq<char> {
    "#,season,episode"@ + header_fields(titles) + seq!['\n'] + guide_rows(table)
}

proof fn lemma_total_episodes_prefix(table: Seq<Seq<Seq<Seq<char>>>>, k: int)
    requires
        0 <= k <= table.len(),
    ensures
        total_episodes(table.take(k)) <= total_episodes(table),
    decreases table.len(),
{
    if k == table.len() {
        assert(table.take(k) =~= table);
    } else {
        assert(table.drop_last().take(k) =~= table.take(k));
        lemma_total_episodes_prefix(table.drop_last(), k);
    }
}

/// Appends the decimal notation of `n` to `s`.
fn append_decimal(s: &mut String, n: usize)
    ensures
        final(s)@ == old(s)@ + decimal_text(n as nat),
{
    let digits = string_of(decimal_chars(n).as_slice());
    s.append(digits.as_str());
}

/// The episode guide as CSV, from the field titles and, for each season, each
/// episode's raw field values.
pub fn guide_csv(titles: &Vec<String>, table: &Vec<Vec<Vec<String>>>) -> (res: String)
    requires
        total_episodes(table.deep_view()) < usize::MAX,
        table@.len() < usize::MAX,
    ensures
        res@ == guide_csv_text(titles.deep_view(), table.deep_view()),
{
    proof {
        reveal_strlit(",");
        reveal_strlit("\n");
    }
    let ghost all_titles = titles.deep_view();
    let ghost all = table.deep_view();
    let mut csv = String::from_str("#,season,episode");
    let mut t: usize = 0;
    assert(all_titles.take(0) =~= Seq::<Seq<char>>::empty());
    while t < titles.len()
        invariant
            t <= titles@.len(),
            all_titles == titles.deep_view(),
            csv@ == "#,season,episode"@ + header_fields(all_titles.take(t as int)),
        decreases titles@.len() - t,
    {
        assert(all_titles.take(t + 1).drop_last() =~= all_titles.take(t as int));
        assert(all_titles.take(t + 1).last() == titles@[t as int]@);
        proof {
            reveal_strlit(",");
        }
        csv.append(",");
        csv.append(titles[t].as_str());
        t = t + 1;
    }
    assert(all_titles.take(t as int) =~= all_titles);
    csv.append("\n");
    let ghost head = csv@;
    let mut cumulative: usize = 0;
    let mut s: usize = 0;
    assert(all.take(0) =~= Seq::<Seq<Seq<Seq<char>>>>::empty());
    while s < table.len()
        invariant
            s <= table@.len() < usize::MAX,
            all == table.deep_view(),
            total_episodes(all) < usize::MAX,
            cumulative == total_episodes(all.take(s as int)),
            head == "#,season,episode"@ + header_fields(all_titles) + seq!['\n'],
            csv@ == head + guide_rows(all.take(s as int)),
        decreases table@.len() - s,
    {
        let ghost prefix = all.take(s + 1);
        assert(prefix.drop_last() =~= all.take(s as int));
        assert(prefix.last() == all[s as int]);
        proof {
            lemma_total_episodes_prefix(all, s + 1);
        }
        let ghost season_start = csv@;
        let episodes = &table[s];
        let ghost eps = all[s as int];
        assert(eps == episodes.deep_view());
        let mut e: usize = 0;
        assert(eps.take(0) =~= Seq::<Seq<Seq<char>>>::empty());
        while e < episodes.len()
            invariant
                s < table@.len() < usize::MAX,
                e <= episodes@.len(),
                eps == episodes.deep_view(),
                cumulative + episodes@.len() < usize::MAX,
                csv@ == season_start + season_rows(eps.take(e as int), (s + 1) as nat, (cumulative) as nat),
            decreases episodes@.len() - e,
        {
            assert(eps.take(e + 1).drop_last() =~= eps.take(e as int));
            assert(eps.take(e + 1).last() == episodes@[e as int].deep_view());
            let ghost row_start = csv@;
            proof {
                reveal_strlit(",");
                reveal_strlit("\n");
            }
            append_decimal(&mut csv, cumulative + e + 1);
            csv.append(",");
            append_decimal(&mut csv, s + 1);
            csv.append(",");
            append_decimal(&mut csv, e + 1);
            let values = &episodes[e];
            let ghost vals = values.deep_view();
            let mut v: usize = 0;
            let ghost cells_start = csv@;
            assert(vals.take(0) =~= Seq::<Seq<char>>::empty());
            while v < values.len()
                invariant
                    v <= values@.len(),
                    vals == values.deep_view(),
                    csv@ == cells_start + value_cells(vals.take(v as int)),
                decreases values@.len() - v,
            {
                assert(vals.take(v + 1).drop_last() =~= vals.take(v as int));
                assert(vals.take(v + 1).last() == values@[v as int]@);
                proof {
                    reveal_strlit(",");
                }
                csv.append(",");
                let cell = refine_field_value(values[v].clone());
                csv.append(cell.as_str());
                v = v + 1;
            }
            assert(vals.take(v as int) =~= vals);
            csv.append("\n");
            assert(csv@ =~= row_start + episode_row(
                (cumulative + e + 1) as nat,
                (s + 1) as nat,
                (e + 1) as nat,
                vals,
            ));
            e = e + 1;
        }
        assert(eps.take(e as int) =~= eps);
        cumulative = cumulative + episodes.len();
        s = s + 1;
    }
    assert(all.take(s as int) =~= all);
    csv
}

} // verus!

verus! {

/// Why the episode guide could not be scraped.
#[derive(Debug, Clone, Copy, PartialEq, Eq)]
pub enum ScrapeError {
    /// A field selector has no title.
    EmptyFieldSelector,
    /// A field selector has a title but no CSS query.
    IncompleteFieldSelector,
    /// A CSS query is not a valid selector.
    InvalidSelector,
    /// No element of an episode matches a field's query.
    FieldNotFound,
    /// There are more episodes than can be counted.
    TooManyEpisodes,
}

/// What the guide page holds, as far as the scraping reads it.
pub struct GuidePage {
    /// For each element that matches the season selector, for each element in
    /// it that matches the episode selector, for each field, the inner HTML of
    /// the first element in the episode that matches the field's query (`None`
    /// where none does, or where the field has no valid query).
    pub seasons: Vec<Vec<Vec<Option<String>>>>,
    /// Whether the episode query is a valid selector (no episodes are listed where not).
    pub episode_selector_valid: bool,
    /// For each field, whether it has a query and that query is a valid selector.
    pub field_selector_valid: Vec<bool>,
}

/// The number of leading elements that a skip count passes over.
pub open spec fn skipped(skip: int, len: nat) -> int {
    if skip <= 0 {
        0
    } else if skip >= len {
        len as int
    } else {
        skip
    }
}

/// The elements left after skipping the first `skip` of them.
pub open spec fn kept<T>(s: Seq<T>, skip: int) -> Seq<T> {
    s.skip(skipped(skip, s.len()))
}

/// The value of field `f` of an episode, or why there is none.
pub open spec fn field_value(
    fields: Seq<Seq<Seq<char>>>,
    field_valid: Seq<bool>,
    found: Seq<Option<Seq<char>>>,
    f: int,
) -> Result<Seq<char>, ScrapeError> {
    if fields[f].len() < 2 {
        Err(ScrapeError::IncompleteFieldSelector)
    } else if !(f < field_valid.len() && field_valid[f]) {
        Err(ScrapeError::InvalidSelector)
    } else if f < found.len() && found[f] is Some {
        Ok(found[f]->Some_0)
    } else {
        Err(ScrapeError::FieldNotFound)
    }
}

/// The values of the first `n` fields of an episode, or the first reason one has none.
pub open spec fn episode_values(
    fields: Seq<Seq<Seq<char>>>,
    field_valid: Seq<bool>,
    found: Seq<Option<Seq<char>>>,
    n: nat,
) -> Result<Seq<Seq<char>>, ScrapeError>
    decreases n,
{
    if n == 0 {
        Ok(Seq::empty())
    } else {
        match episode_values(fields, field_valid, found, (n - 1) as nat) {
            Err(e) => Err(e),
            Ok(values) => match field_value(fields, field_valid, found, n - 1) {
                Err(e) => Err(e),
                Ok(v) => Ok(values.push(v)),
            },
        }
    }
}

/// The field values of each episode of a season, or the first reason one has none.
pub open spec fn season_values(
    fields: Seq<Seq<Seq<char>>>,
    field_valid: Seq<bool>,
    episodes: Seq<Seq<Option<Seq<char>>>>,
) -> Result<Seq<Seq<Seq<char>>>, ScrapeError>
    decreases episodes.len(),
{
    if episodes.len() == 0 {
        Ok(Seq::empty())
    } else {
        match season_values(fields, field_valid, episodes.drop_last()) {
            Err(e) => Err(e),
            Ok(rows) => match episode_values(fields, field_valid, episodes.last(), fields.len()) {
                Err(e) => Err(e),
                Ok(values) => Ok(rows.push(values)),
            },
        }
    }
}

/// The field values of the kept episodes of each season, or the first reason
/// one has none.
pub open spec fn page_table(
    fields: Seq<Seq<Seq<char>>>,
    episode_skip: int,
    episode_valid: bool,
    field_valid: Seq<bool>,
    seasons: Seq<Seq<Seq<Option<Seq<char>>>>>,
) -> Result<Seq<Seq<Seq<Seq<char>>>>, ScrapeError>
    decreases seasons.len(),
{
    if seasons.len() == 0 {
        Ok(Seq::empty())
    } else {
        match page_table(fields, episode_skip, episode_valid, field_valid, seasons.drop_last()) {
            Err(e) => Err(e),
            Ok(table) => if !episode_valid {
                Err(ScrapeError::InvalidSelector)
            } else {
                match season_values(fields, field_valid, kept(seasons.last(), episode_skip)) {
                    Err(e) => Err(e),
                    Ok(rows) => Ok(table.push(rows)),
                }
            },
        }
    }
}

/// Some field selector has no title.
pub open spec fn has_untitled_field(fields: Seq<Seq<Seq<char>>>) -> bool {
    exists|f: int| 0 <= f < fields.len() && (#[trigger] fields[f]).len() == 0
}

/// The titles of the fields.
pub open spec fn field_titles(fields: Seq<Seq<Seq<char>>>) -> Seq<Seq<char>> {
    Seq::new(fields.len(), |f: int| fields[f][0])
}

/// The episode guide that a page gives: the kept seasons and, in each, the kept
/// episodes with their field values, as CSV.
pub open spec fn page_guide(
    fields: Seq<Seq<Seq<char>>>,
    season_skip: int,
    episode_skip: int,
    episode_valid: bool,
    field_valid: Seq<bool>,
    seasons: Seq<Seq<Seq<Option<Seq<char>>>>>,
) -> Result<Seq<char>, ScrapeError> {
    if has_untitled_field(fields) {
        Err(ScrapeError::EmptyFieldSelector)
    } else {
        match page_table(fields, episode_skip, episode_valid, field_valid, kept(seasons, season_skip)) {
            Err(e) => Err(e),
            Ok(table) => if total_episodes(table) >= usize::MAX || table.len() >= usize::MAX {
                Err(ScrapeError::TooManyEpisodes)
            } else {
                Ok(guide_csv_text(field_titles(fields), table))
            },
        }
    }
}

/// `res` holds the outcome `spec` as a `Result` of strings.
pub open spec fn guide_result_is(res: Result<String, ScrapeError>, spec: Result<Seq<char>, ScrapeError>) -> bool {
    match res {
        Ok(s) => spec == Ok::<Seq<char>, ScrapeError>(s@),
        Err(e) => spec == Err::<Seq<char>, ScrapeError>(e),
    }
}

} // verus!

verus! {

proof fn lemma_episode_values_error_persists(
    fields: Seq<Seq<Seq<char>>>,
    field_valid: Seq<bool>,
    found: Seq<Option<Seq<char>>>,
    k: nat,
    n: nat,
)
    requires
        k <= n,
        episode_values(fields, field_valid, found, k) is Err,
    ensures
        episode_values(fields, field_valid, found, n) == episode_values(fields, field_valid, found, k),
    decreases n,
{
    if k < n {
        lemma_episode_values_error_persists(fields, field_valid, found, k, (n - 1) as nat);
    }
}

proof fn lemma_season_values_error_persists(
    fields: Seq<Seq<Seq<char>>>,
    field_valid: Seq<bool>,
    episodes: Seq<Seq<Option<Seq<char>>>>,
    k: int,
)
    requires
        0 <= k <= episodes.len(),
        season_values(fields, field_valid, episodes.take(k)) is Err,
    ensures
        season_values(fields, field_valid, episodes) == season_values(
            fields,
            field_valid,
            episodes.take(k),
        ),
    decreases episodes.len(),
{
    if k == episodes.len() {
        assert(episodes.take(k) =~= episodes);
    } else {
        assert(episodes.drop_last().take(k) =~= episodes.take(k));
        lemma_season_values_error_persists(fields, field_valid, episodes.drop_last(), k);
    }
}

proof fn lemma_page_table_error_persists(
    fields: Seq<Seq<Seq<char>>>,
    episode_skip: int,
    episode_valid: bool,
    field_valid: Seq<bool>,
    seasons: Seq<Seq<Seq<Option<Seq<char>>>>>,
    k: int,
)
    requires
        0 <= k <= seasons.len(),
        page_table(fields, episode_skip, episode_valid, field_valid, seasons.take(k)) is Err,
    ensures
        page_table(fields, episode_skip, episode_valid, field_valid, seasons) == page_table(
            fields,
            episode_skip,
            episode_valid,
            field_valid,
            seasons.take(k),
        ),
    decreases seasons.len(),
{
    if k == seasons.len() {
        assert(seasons.take(k) =~= seasons);
    } else {
        assert(seasons.drop_last().take(k) =~= seasons.take(k));
        lemma_page_table_error_persists(
            fields,
            episode_skip,
            episode_valid,
            field_valid,
            seasons.drop_last(),
            k,
        );
    }
}

/// The titles of the fields, or `EmptyFieldSelector` where one has none.
fn field_titles_exec(field_selectors: &Vec<Vec<String>>) -> (res: Result<Vec<String>, ScrapeError>)
    ensures
        match res {
            Ok(titles) => !has_untitled_field(field_selectors.deep_view()) && titles.deep_view()
                == field_titles(field_selectors.deep_view()),
            Err(e) => has_untitled_field(field_selectors.deep_view()) && e
                == ScrapeError::EmptyFieldSelector,
        },
{
    let ghost fields = field_selectors.deep_view();
    let mut titles: Vec<String> = Vec::new();
    let mut f: usize = 0;
    while f < field_selectors.len()
        invariant
            f <= field_selectors@.len(),
            fields == field_selectors.deep_view(),
            titles@.len() == f,
            forall|j: int| 0 <= j < f ==> (#[trigger] fields[j]).len() > 0,
            forall|j: int| 0 <= j < f ==> (#[trigger] titles@[j])@ == fields[j][0],
        decreases field_selectors@.len() - f,
    {
        assert(fields[f as int] == field_selectors@[f as int].deep_view());
        if field_selectors[f].len() == 0 {
            assert(fields[f as int].len() == 0);
            return Err(ScrapeError::EmptyFieldSelector);
        }
        assert(fields[f as int][0] == field_selectors@[f as int]@[0]@);
        titles.push(field_selectors[f][0].clone());
        f = f + 1;
    }
    assert(titles.deep_view() =~= field_titles(fields));
    Ok(titles)
}

/// The values of an episode's fields, or the first reason one has none.
fn episode_values_exec(
    field_selectors: &Vec<Vec<String>>,
    field_valid: &Vec<bool>,
    found: &Vec<Option<String>>,
) -> (res: Result<Vec<String>, ScrapeError>)
    ensures
        ({
            let spec = episode_values(
                field_selectors.deep_view(),
                field_valid@,
                found.deep_view(),
                field_selectors@.len(),
            );
            match res {
                Ok(values) => spec == Ok::<Seq<Seq<char>>, ScrapeError>(values.deep_view()),
                Err(e) => spec == Err::<Seq<Seq<char>>, ScrapeError>(e),
            }
        }),
{
    let ghost fields = field_selectors.deep_view();
    let ghost seen = found.deep_view();
    let mut values: Vec<String> = Vec::new();
    let mut f: usize = 0;
    assert(values.deep_view() =~= Seq::<Seq<char>>::empty());
    while f < field_selectors.len()
        invariant
            f <= field_selectors@.len(),
            fields == field_selectors.deep_view(),
            seen == found.deep_view(),
            episode_values(fields, field_valid@, seen, f as nat) == Ok::<
                Seq<Seq<char>>,
                ScrapeError,
            >(values.deep_view()),
        decreases field_selectors@.len() - f,
    {
        assert(fields[f as int].len() == field_selectors@[f as int]@.len());
        let outcome: Result<String, ScrapeError> = if field_selectors[f].len() < 2 {
            Err(ScrapeError::IncompleteFieldSelector)
        } else if !(f < field_valid.len() && field_valid[f]) {
            Err(ScrapeError::InvalidSelector)
        } else if f < found.len() && found[f].is_some() {
            match &found[f] {
                Some(v) => Ok(v.clone()),
                None => Err(ScrapeError::FieldNotFound),
            }
        } else {
            Err(ScrapeError::FieldNotFound)
        };
        match outcome {
            Ok(v) => {
                let ghost before = values.deep_view();
                values.push(v);
                assert(values.deep_view() =~= before.push(v@));
            },
            Err(e) => {
                proof {
                    lemma_episode_values_error_persists(
                        fields,
                        field_valid@,
                        seen,
                        (f + 1) as nat,
                        fields.len(),
                    );
                }
                return Err(e);
            },
        }
        f = f + 1;
    }
    Ok(values)
}

/// The field values of the episodes of a season from position `start` on, or
/// the first reason one has none.
fn season_values_exec(
    field_selectors: &Vec<Vec<String>>,
    field_valid: &Vec<bool>,
    episodes: &Vec<Vec<Option<String>>>,
    start: usize,
) -> (res: Result<Vec<Vec<String>>, ScrapeError>)
    requires
        start <= episodes@.len(),
    ensures
        ({
            let spec = season_values(
                field_selectors.deep_view(),
                field_valid@,
                episodes.deep_view().skip(start as int),
            );
            match res {
                Ok(rows) => spec == Ok::<Seq<Seq<Seq<char>>>, ScrapeError>(rows.deep_view()),
                Err(e) => spec == Err::<Seq<Seq<Seq<char>>>, ScrapeError>(e),
            }
        }),
{
    let ghost fields = field_selectors.deep_view();
    let ghost all = episodes.deep_view().skip(start as int);
    let mut rows: Vec<Vec<String>> = Vec::new();
    let mut e: usize = start;
    assert(all.take(0) =~= Seq::<Seq<Option<Seq<char>>>>::empty());
    assert(rows.deep_view() =~= Seq::<Seq<Seq<char>>>::empty());
    while e < episodes.len()
        invariant
            start <= e <= episodes@.len(),
            fields == field_selectors.deep_view(),
            all == episodes.deep_view().skip(start as int),
            season_values(fields, field_valid@, all.take(e - start)) == Ok::<
                Seq<Seq<Seq<char>>>,
                ScrapeError,
            >(rows.deep_view()),
        decreases episodes@.len() - e,
    {
        assert(all.take(e + 1 - start).drop_last() =~= all.take(e - start));
        assert(all.take(e + 1 - start).last() == episodes@[e as int].deep_view());
        match episode_values_exec(field_selectors, field_valid, &episodes[e]) {
            Ok(values) => {
                let ghost before = rows.deep_view();
                rows.push(values);
                assert(rows.deep_view() =~= before.push(values.deep_view()));
            },
            Err(err) => {
                proof {
                    lemma_season_values_error_persists(fields, field_valid@, all, e + 1 - start);
                }
                return Err(err);
            },
        }
        e = e + 1;
    }
    assert(all.take(e - start) =~= all);
    Ok(rows)
}

} // verus!

verus! {

/// The number of leading elements that a skip count passes over.
fn skipped_exec(skip: i32, len: usize) -> (res: usize)
    ensures
        res as int == skipped(skip as int, len as nat),
{
    if skip <= 0 {
        0
    } else if skip as usize >= len {
        len
    } else {
        skip as usize
    }
}

/// The episode guide that a page gives, as CSV: the seasons after the first
/// `season_skip`, in each the episodes after the first `episode_skip`, one line
/// per episode with its numbers and refined field values.
pub fn guide_from_page(
    field_selectors: &Vec<Vec<String>>,
    season_skip: i32,
    episode_skip: i32,
    page: &GuidePage,
) -> (res: Result<String, ScrapeError>)
    ensures
        guide_result_is(
            res,
            page_guide(
                field_selectors.deep_view(),
                season_skip as int,
                episode_skip as int,
                page.episode_selector_valid,
                page.field_selector_valid@,
                page.seasons.deep_view(),
            ),
        ),
{
    let titles = field_titles_exec(field_selectors)?;
    let ghost fields = field_selectors.deep_view();
    let ghost seasons = kept(page.seasons.deep_view(), season_skip as int);
    let start = skipped_exec(season_skip, page.seasons.len());
    assert(seasons =~= page.seasons.deep_view().skip(start as int));
    let mut table: Vec<Vec<Vec<String>>> = Vec::new();
    let mut s: usize = start;
    assert(seasons.take(0) =~= Seq::<Seq<Seq<Option<Seq<char>>>>>::empty());
    assert(table.deep_view() =~= Seq::<Seq<Seq<Seq<char>>>>::empty());
    while s < page.seasons.len()
        invariant
            start <= s <= page.seasons@.len(),
            fields == field_selectors.deep_view(),
            !has_untitled_field(fields),
            seasons == kept(page.seasons.deep_view(), season_skip as int),
            seasons == page.seasons.deep_view().skip(start as int),
            page_table(
                fields,
                episode_skip as int,
                page.episode_selector_valid,
                page.field_selector_valid@,
                seasons.take(s - start),
            ) == Ok::<Seq<Seq<Seq<Seq<char>>>>, ScrapeError>(table.deep_view()),
        decreases page.seasons@.len() - s,
    {
        let ghost prefix = seasons.take(s + 1 - start);
        assert(prefix.drop_last() =~= seasons.take(s - start));
        assert(prefix.last() == page.seasons@[s as int].deep_view());
        let episodes = &page.seasons[s];
        if !page.episode_selector_valid {
            proof {
                lemma_page_table_error_persists(
                    fields,
                    episode_skip as int,
                    page.episode_selector_valid,
                    page.field_selector_valid@,
                    seasons,
                    s + 1 - start,
                );
            }
            return Err(ScrapeError::InvalidSelector);
        }
        let episode_start = skipped_exec(episode_skip, episodes.len());
        assert(kept(episodes.deep_view(), episode_skip as int) =~= episodes.deep_view().skip(
            episode_start as int,
        ));
        match season_values_exec(field_selectors, &page.field_selector_valid, episodes, episode_start) {
            Ok(rows) => {
                let ghost before = table.deep_view();
                table.push(rows);
                assert(table.deep_view() =~= before.push(rows.deep_view()));
            },
            Err(e) => {
                proof {
                    lemma_page_table_error_persists(
                        fields,
                        episode_skip as int,
                        page.episode_selector_valid,
                        page.field_selector_valid@,
                        seasons,
                        s + 1 - start,
                    );
                }
                return Err(e);
            },
        }
        s = s + 1;
    }
    assert(seasons.take(s - start) =~= seasons);
    let ghost all = table.deep_view();
    let mut total: usize = 0;
    let mut k: usize = 0;
    assert(all.take(0) =~= Seq::<Seq<Seq<Seq<char>>>>::empty());
    while k < table.len()
        invariant
            k <= table@.len(),
            all == table.deep_view(),
            fields == field_selectors.deep_view(),
            !has_untitled_field(fields),
            seasons == kept(page.seasons.deep_view(), season_skip as int),
            page_table(
                fields,
                episode_skip as int,
                page.episode_selector_valid,
                page.field_selector_valid@,
                seasons,
            ) == Ok::<Seq<Seq<Seq<Seq<char>>>>, ScrapeError>(all),
            total == total_episodes(all.take(k as int)),
        decreases table@.len() - k,
    {
        assert(all.take(k + 1).drop_last() =~= all.take(k as int));
        assert(all.take(k + 1).last() == table@[k as int].deep_view());
        if table[k].len() >= usize::MAX - total {
            proof {
                lemma_total_episodes_prefix(all, k + 1);
            }
            return Err(ScrapeError::TooManyEpisodes);
        }
        total = total + table[k].len();
        k = k + 1;
    }
    assert(all.take(k as int) =~= all);
    if total >= usize::MAX || table.len() >= usize::MAX {
        return Err(ScrapeError::TooManyEpisodes);
    }
    Ok(guide_csv(&titles, &table))
}

} // verus!

verus! {

/// For each field, whether it has a query and the query is a valid selector.
pub open spec fn field_validity(fields: Seq<Seq<Seq<char>>>) -> Seq<bool> {
    Seq::new(fields.len(), |f: int| fields[f].len() >= 2 && selector_accepted(fields[f][1]))
}

/// For each field, its query where it has one that is a valid selector.
pub open spec fn field_queries_of(fields: Seq<Seq<Seq<char>>>) -> Seq<Option<Seq<char>>> {
    Seq::new(
        fields.len(),
        |f: int|
            if fields[f].len() >= 2 && selector_accepted(fields[f][1]) {
                Some(fields[f][1])
            } else {
                None
            },
    )
}

/// What the guide page yields for the season and episode queries and the
/// fields' queries: what the page selects where the episode query is valid,
/// otherwise one season with no episodes for each element the season query selects.
pub open spec fn page_seasons(
    html: Seq<char>,
    season_query: Seq<char>,
    episode_query: Seq<char>,
    fields: Seq<Seq<Seq<char>>>,
) -> Seq<Seq<Seq<Option<Seq<char>>>>> {
    if selector_accepted(episode_query) {
        selected_page(html, season_query, episode_query, field_queries_of(fields))
    } else {
        Seq::new(selected_count(html, season_query), |_s: int| Seq::empty())
    }
}

/// The episode guide scraped from the page `html`: `EmptyFieldSelector` where a
/// field has no title, `InvalidSelector` where the season query is not valid,
/// otherwise the guide that the page yields.
pub open spec fn scraped_guide(
    html: Seq<char>,
    season_query: Seq<char>,
    season_skip: int,
    episode_query: Seq<char>,
    episode_skip: int,
    fields: Seq<Seq<Seq<char>>>,
) -> Result<Seq<char>, ScrapeError> {
    if has_untitled_field(fields) {
        Err(ScrapeError::EmptyFieldSelector)
    } else if !selector_accepted(season_query) {
        Err(ScrapeError::InvalidSelector)
    } else {
        page_guide(
            fields,
            season_skip,
            episode_skip,
            selector_accepted(episode_query),
            field_validity(fields),
            page_seasons(html, season_query, episode_query, fields),
        )
    }
}

/// Reads what the scraping needs from the guide page: the elements that match
/// the season query, the elements in each that match the episode query, and in
/// each of those the inner HTML of the first element that matches each field's
/// query. Fails only where the season query is not a valid selector.
pub fn read_guide_page(
    guide_html: &str,
    season_selector_query: &str,
    episode_selector_query: &str,
    field_selectors: &Vec<Vec<String>>,
) -> (res: Result<GuidePage, ScrapeError>)
    ensures
        match res {
            Err(e) => e == ScrapeError::InvalidSelector && !selector_accepted(season_selector_query@),
            Ok(page) => {
                &&& selector_accepted(season_selector_query@)
                &&& page.episode_selector_valid == selector_accepted(episode_selector_query@)
                &&& page.field_selector_valid@ == field_validity(field_selectors.deep_view())
                &&& page.seasons.deep_view() == page_seasons(
                    guide_html@,
                    season_selector_query@,
                    episode_selector_query@,
                    field_selectors.deep_view(),
                )
            },
        },
{
    let ghost fields = field_selectors.deep_view();
    if parse_selector(season_selector_query).is_err() {
        return Err(ScrapeError::InvalidSelector);
    }
    let episode_selector_valid = parse_selector(episode_selector_query).is_ok();
    let mut queries: Vec<Option<String>> = Vec::new();
    let mut field_selector_valid: Vec<bool> = Vec::new();
    let mut f: usize = 0;
    while f < field_selectors.len()
        invariant
            f <= field_selectors@.len(),
            fields == field_selectors.deep_view(),
            queries@.len() == f,
            field_selector_valid@.len() == f,
            forall|j: int|
                0 <= j < f ==> (#[trigger] field_selector_valid@[j]) == field_validity(fields)[j],
            forall|j: int|
                0 <= j < f ==> (#[trigger] queries.deep_view()[j]) == field_queries_of(fields)[j],
            forall|j: int|
                0 <= j < f ==> (#[trigger] queries@[j] matches Some(q) ==> selector_accepted(q@)),
        decreases field_selectors@.len() - f,
    {
        assert(fields[f as int].len() == field_selectors@[f as int]@.len());
        let ghost before = queries.deep_view();
        if field_selectors[f].len() >= 2 && parse_selector(field_selectors[f][1].as_str()).is_ok() {
            assert(fields[f as int][1] == field_selectors@[f as int]@[1]@);
            queries.push(Some(field_selectors[f][1].clone()));
            field_selector_valid.push(true);
        } else {
            if field_selectors[f].len() >= 2 {
                assert(fields[f as int][1] == field_selectors@[f as int]@[1]@);
            }
            queries.push(None);
            field_selector_valid.push(false);
        }
        assert(queries.deep_view() =~= before.push(queries@[f as int].deep_view()));
        f = f + 1;
    }
    assert(field_selector_valid@ =~= field_validity(fields));
    assert(queries.deep_view() =~= field_queries_of(fields));
    let seasons: Vec<Vec<Vec<Option<String>>>> = if episode_selector_valid {
        select_page(guide_html, season_selector_query, episode_selector_query, &queries)
    } else {
        let count = count_selected(guide_html, season_selector_query);
        let mut empty_seasons: Vec<Vec<Vec<Option<String>>>> = Vec::new();
        let mut s: usize = 0;
        while s < count
            invariant
                s <= count,
                empty_seasons.deep_view() =~= Seq::new(
                    s as nat,
                    |_i: int| Seq::<Seq<Option<Seq<char>>>>::empty(),
                ),
            decreases count - s,
        {
            let ghost before = empty_seasons.deep_view();
            let season: Vec<Vec<Option<String>>> = Vec::new();
            assert(season.deep_view() =~= Seq::<Seq<Option<Seq<char>>>>::empty());
            empty_seasons.push(season);
            assert(empty_seasons.deep_view() =~= before.push(season.deep_view()));
            s = s + 1;
            assert(empty_seasons.deep_view() =~= Seq::new(
                s as nat,
                |_i: int| Seq::<Seq<Option<Seq<char>>>>::empty(),
            ));
        }
        empty_seasons
    };
    Ok(GuidePage { seasons, episode_selector_valid, field_selector_valid })
}

/// Scrapes the episode guide from the text of the guide page and returns it as
/// CSV: a header with `#`, `season`, `episode` and the field titles, then a line
/// per episode of the seasons that match `season_selector_query` (after the
/// first `season_selector_skip`) and the episodes in them that match
/// `episode_selector_query` (after the first `episode_selector_skip`), with the
/// refined inner HTML of the first element that matches each field's query.
/// A field without title or query, an invalid query that comes into use, or a
/// field query that matches nothing in an episode is answered with an error
/// (`ScrapeError`), not a panic; the program stops on it and writes no guide.
pub fn scrape_data(
    guide_html: &str,
    season_selector_query: &str,
    season_selector_skip: i32,
    episode_selector_query: &str,
    episode_selector_skip: i32,
    episode_field_selectors: Vec<Vec<String>>,
) -> (res: Result<String, ScrapeError>)
    ensures
        guide_result_is(
            res,
            scraped_guide(
                guide_html@,
                season_selector_query@,
                season_selector_skip as int,
                episode_selector_query@,
                episode_selector_skip as int,
                episode_field_selectors.deep_view(),
            ),
        ),
{
    field_titles_exec(&episode_field_selectors)?;
    let page = read_guide_page(
        guide_html,
        season_selector_query,
        episode_selector_query,
        &episode_field_selectors,
    )?;
    guide_from_page(&episode_field_selectors, season_selector_skip, episode_selector_skip, &page)
}

} // verus!

verus! {

proof fn lemma_header_fields_counts(titles: Seq<Seq<char>>)
    requires
        forall|i: int|
            0 <= i < titles.len() ==> lacks_char(#[trigger] titles[i], ',') && lacks_char(
                titles[i],
                '\n',
            ),
    ensures
        count_char(header_fields(titles), ',') == titles.len(),
        count_char(header_fields(titles), '\n') == 0,
    decreases titles.len(),
{
    if titles.len() > 0 {
        let rest = titles.drop_last();
        assert forall|i: int| 0 <= i < rest.len() implies lacks_char(#[trigger] rest[i], ',')
            && lacks_char(rest[i], '\n') by {
            assert(rest[i] == titles[i]);
        }
        lemma_header_fields_counts(rest);
        let last = titles.last();
        assert(lacks_char(last, ',') && lacks_char(last, '\n'));
        lemma_count_char_lacking(last, ',');
        lemma_count_char_lacking(last, '\n');
        lemma_count_char_concat(header_fields(rest) + seq![','], last, ',');
        lemma_count_char_concat(header_fields(rest) + seq![','], last, '\n');
        lemma_count_char_concat(header_fields(rest), seq![','], ',');
        lemma_count_char_concat(header_fields(rest), seq![','], '\n');
        lemma_count_char_single(',', ',');
        lemma_count_char_single(',', '\n');
    }
}

proof fn lemma_value_cells_counts(values: Seq<Seq<char>>)
    ensures
        count_char(value_cells(values), ',') == values.len(),
        count_char(value_cells(values), '\n') == 0,
    decreases values.len(),
{
    if values.len() > 0 {
        let rest = values.drop_last();
        lemma_value_cells_counts(rest);
        let cell = refined_field_value(values.last());
        lemma_refined_field_value_is_csv_safe(values.last());
        lemma_count_char_lacking(cell, ',');
        lemma_count_char_lacking(cell, '\n');
        lemma_count_char_concat(value_cells(rest) + seq![','], cell, ',');
        lemma_count_char_concat(value_cells(rest) + seq![','], cell, '\n');
        lemma_count_char_concat(value_cells(rest), seq![','], ',');
        lemma_count_char_concat(value_cells(rest), seq![','], '\n');
        lemma_count_char_single(',', ',');
        lemma_count_char_single(',', '\n');
    }
}

proof fn lemma_decimal_counts(n: nat)
    ensures
        count_char(decimal_text(n), ',') == 0,
        count_char(decimal_text(n), '\n') == 0,
{
    assert(!is_ascii_digit(','));
    assert(!is_ascii_digit('\n'));
    lemma_decimal_text_lacks(n, ',');
    lemma_decimal_text_lacks(n, '\n');
    lemma_count_char_lacking(decimal_text(n), ',');
    lemma_count_char_lacking(decimal_text(n), '\n');
}

/// A line of the guide holds two commas plus one per field value, and ends with
/// its only line break.
pub proof fn lemma_episode_row_counts(cumulative: nat, season: nat, episode: nat, values: Seq<Seq<char>>)
    ensures
        count_char(episode_row(cumulative, season, episode, values), ',') == 2 + values.len(),
        count_char(episode_row(cumulative, season, episode, values), '\n') == 1,
{
    let a = decimal_text(cumulative);
    let b = decimal_text(season);
    let c = decimal_text(episode);
    let cells = value_cells(values);
    lemma_decimal_counts(cumulative);
    lemma_decimal_counts(season);
    lemma_decimal_counts(episode);
    lemma_value_cells_counts(values);
    let comma = seq![','];
    let brk = seq!['\n'];
    lemma_count_char_single(',', ',');
    lemma_count_char_single(',', '\n');
    lemma_count_char_single('\n', ',');
    lemma_count_char_single('\n', '\n');
    lemma_count_char_concat(a, comma, ',');
    lemma_count_char_concat(a, comma, '\n');
    lemma_count_char_concat(a + comma, b, ',');
    lemma_count_char_concat(a + comma, b, '\n');
    lemma_count_char_concat(a + comma + b, comma, ',');
    lemma_count_char_concat(a + comma + b, comma, '\n');
    lemma_count_char_concat(a + comma + b + comma, c, ',');
    lemma_count_char_concat(a + comma + b + comma, c, '\n');
    lemma_count_char_concat(a + comma + b + comma + c, cells, ',');
    lemma_count_char_concat(a + comma + b + comma + c, cells, '\n');
    lemma_count_char_concat(a + comma + b + comma + c + cells, brk, ',');
    lemma_count_char_concat(a + comma + b + comma + c + cells, brk, '\n');
}

/// Every episode of every season has `width` field values.
pub open spec fn table_has_width(table: Seq<Seq<Seq<Seq<char>>>>, width: nat) -> bool {
    forall|s: int, e: int|
        0 <= s < table.len() && 0 <= e < table[s].len() ==> (#[trigger] table[s][e]).len() == width
}

proof fn lemma_season_rows_counts(episodes: Seq<Seq<Seq<char>>>, season: nat, before: nat, width: nat)
    requires
        forall|e: int| 0 <= e < episodes.len() ==> (#[trigger] episodes[e]).len() == width,
    ensures
        count_char(season_rows(episodes, season, before), ',') == episodes.len() * (2 + width),
        count_char(season_rows(episodes, season, before), '\n') == episodes.len(),
    decreases episodes.len(),
{
    if episodes.len() > 0 {
        let rest = episodes.drop_last();
        assert forall|e: int| 0 <= e < rest.len() implies (#[trigger] rest[e]).len() == width by {
            assert(rest[e] == episodes[e]);
        }
        lemma_season_rows_counts(rest, season, before, width);
        let row = episode_row(before + episodes.len(), season, episodes.len(), episodes.last());
        lemma_episode_row_counts(before + episodes.len(), season, episodes.len(), episodes.last());
        lemma_count_char_concat(season_rows(rest, season, before), row, ',');
        lemma_count_char_concat(season_rows(rest, season, before), row, '\n');
        assert(rest.len() * (2 + width) + (2 + width) == episodes.len() * (2 + width))
            by (nonlinear_arith)
            requires
                rest.len() + 1 == episodes.len(),
        ;
    }
}

proof fn lemma_guide_rows_counts(table: Seq<Seq<Seq<Seq<char>>>>, width: nat)
    requires
        table_has_width(table, width),
    ensures
        count_char(guide_rows(table), ',') == total_episodes(table) * (2 + width),
        count_char(guide_rows(table), '\n') == total_episodes(table),
    decreases table.len(),
{
    if table.len() > 0 {
        let rest = table.drop_last();
        assert(table_has_width(rest, width)) by {
            assert forall|s: int, e: int|
                0 <= s < rest.len() && 0 <= e < rest[s].len() implies (#[trigger] rest[s][e]).len()
                == width by {
                assert(rest[s] == table[s]);
            }
        }
        lemma_guide_rows_counts(rest, width);
        let last = table.last();
        assert forall|e: int| 0 <= e < last.len() implies (#[trigger] last[e]).len() == width by {
            assert(table[table.len() - 1][e] == last[e]);
        }
        lemma_season_rows_counts(last, table.len(), total_episodes(rest), width);
        let rows = season_rows(last, table.len(), total_episodes(rest));
        lemma_count_char_concat(guide_rows(rest), rows, ',');
        lemma_count_char_concat(guide_rows(rest), rows, '\n');
        assert(total_episodes(rest) * (2 + width) + last.len() * (2 + width) == (total_episodes(
            rest,
        ) + last.len()) * (2 + width)) by (nonlinear_arith);
        assert(total_episodes(table) == total_episodes(rest) + last.len());
    } else {
        assert(count_char(guide_rows(table), ',') == 0);
        assert(0 * (2 + width) == 0) by (nonlinear_arith);
    }
}

/// The guide CSV is a table: with titles free of commas and line breaks and one
/// value per title for every episode, it has one line for the header and one
/// per episode, and each line holds the same number of commas (two plus one per
/// title), since refined values hold neither commas nor line breaks.
pub proof fn lemma_guide_csv_is_rectangular(titles: Seq<Seq<char>>, table: Seq<Seq<Seq<Seq<char>>>>)
    requires
        forall|i: int|
            0 <= i < titles.len() ==> lacks_char(#[trigger] titles[i], ',') && lacks_char(
                titles[i],
                '\n',
            ),
        table_has_width(table, titles.len()),
    ensures
        count_char(guide_csv_text(titles, table), '\n') == 1 + total_episodes(table),
        count_char(guide_csv_text(titles, table), ',') == (1 + total_episodes(table)) * (2
            + titles.len()),
{
    reveal_strlit("#,season,episode");
    let start = "#,season,episode"@;
    assert(count_char(start, ',') == 2 && count_char(start, '\n') == 0) by {
        reveal_with_fuel(count_char, 17);
    }
    lemma_header_fields_counts(titles);
    lemma_guide_rows_counts(table, titles.len());
    let brk = seq!['\n'];
    lemma_count_char_single('\n', ',');
    lemma_count_char_single('\n', '\n');
    let head = start + header_fields(titles);
    lemma_count_char_concat(start, header_fields(titles), ',');
    lemma_count_char_concat(start, header_fields(titles), '\n');
    lemma_count_char_concat(head, brk, ',');
    lemma_count_char_concat(head, brk, '\n');
    lemma_count_char_concat(head + brk, guide_rows(table), ',');
    lemma_count_char_concat(head + brk, guide_rows(table), '\n');
    assert(2 + titles.len() + total_episodes(table) * (2 + titles.len()) == (1 + total_episodes(
        table,
    )) * (2 + titles.len())) by (nonlinear_arith);
}

} // verus!

verus! {

proof fn lemma_page_table_nonpositive_skip(
    fields: Seq<Seq<Seq<char>>>,
    episode_skip: int,
    episode_valid: bool,
    field_valid: Seq<bool>,
    seasons: Seq<Seq<Seq<Option<Seq<char>>>>>,
)
    requires
        episode_skip <= 0,
    ensures
        page_table(fields, episode_skip, episode_valid, field_valid, seasons) == page_table(
            fields,
            0,
            episode_valid,
            field_valid,
            seasons,
        ),
    decreases seasons.len(),
{
    if seasons.len() > 0 {
        lemma_page_table_nonpositive_skip(
            fields,
            episode_skip,
            episode_valid,
            field_valid,
            seasons.drop_last(),
        );
        assert(kept(seasons.last(), episode_skip) == kept(seasons.last(), 0));
    }
}

/// A skip count of zero or less skips nothing: scraping with such counts gives
/// the same guide as scraping with counts of zero.
pub proof fn lemma_nonpositive_skip_skips_nothing(
    html: Seq<char>,
    season_query: Seq<char>,
    season_skip: int,
    episode_query: Seq<char>,
    episode_skip: int,
    fields: Seq<Seq<Seq<char>>>,
)
    requires
        season_skip <= 0,
        episode_skip <= 0,
    ensures
        scraped_guide(html, season_query, season_skip, episode_query, episode_skip, fields)
            == scraped_guide(html, season_query, 0, episode_query, 0, fields),
{
    let seasons = page_seasons(html, season_query, episode_query, fields);
    assert(kept(seasons, season_skip) == kept(seasons, 0));
    lemma_page_table_nonpositive_skip(
        fields,
        episode_skip,
        selector_accepted(episode_query),
        field_validity(fields),
        kept(seasons, 0),
    );
}

} // verus!

verus! {

/// A character that cleaning leaves alone: no whitespace, `<`, comma, quote or apostrophe.
pub open spec fn plain_char(c: char) -> bool {
    !whitespace(c) && c != '<' && c != ',' && c != '"' && c != '\''
}

/// Every character of `s` is plain.
pub open spec fn plain_text(s: Seq<char>) -> bool {
    forall|i: int| 0 <= i < s.len() ==> plain_char(#[trigger] s[i])
}

proof fn lemma_prefix_before_absent(s: Seq<char>, c: char)
    requires
        lacks_char(s, c),
    ensures
        prefix_before(s, c) == s,
    decreases s.len(),
{
    if s.len() > 0 {
        assert(lacks_char(s.drop_first(), c));
        lemma_prefix_before_absent(s.drop_first(), c);
        assert(seq![s[0]] + s.drop_first() =~= s);
    }
}

/// Cleaning turns a comma between two plain texts into a space and changes
/// nothing else: `"a,b"` becomes `"a b"`.
pub proof fn lemma_refine_turns_comma_into_space(x: Seq<char>, y: Seq<char>)
    requires
        plain_text(x),
        plain_text(y),
    ensures
        refined_field_value(x + seq![','] + y) == x + seq![' '] + y,
{
    let s = x + seq![','] + y;
    let r = x + seq![' '] + y;
    assert forall|i: int| 0 <= i < s.len() implies !whitespace(#[trigger] s[i]) && s[i] != '<'
        && s[i] != '"' && s[i] != '\'' && s[i] != '\n' && (s[i] == ',' <==> i == x.len()) by {
        if i < x.len() {
            assert(s[i] == x[i]);
        } else if i > x.len() {
            assert(s[i] == y[i - x.len() - 1]);
        }
    }
    assert forall|i: int| 0 <= i < r.len() implies r[i] != '"' && r[i] != '\'' && r[i] != '\n'
        && (#[trigger] r[i] == ' ' <==> i == x.len()) by {
        if i < x.len() {
            assert(r[i] == x[i]);
            assert(whitespace(' '));
        } else if i > x.len() {
            assert(r[i] == y[i - x.len() - 1]);
            assert(whitespace(' '));
        }
    }
    // nothing before a '<', nothing to trim
    lemma_prefix_before_absent(s, '<');
    assert(trimmed_start(s) == s);
    assert(trimmed_end(s) == s);
    // no line breaks
    lemma_lacks_char_not_contained(s, '\n');
    lemma_replaced_absent(s, seq!['\n'], seq![' ']);
    // the comma becomes a space
    lemma_replaced_char_concat(x + seq![','], y, ',', seq![' ']);
    lemma_replaced_char_concat(x, seq![','], ',', seq![' ']);
    assert(lacks_char(x, ',')) by {
        assert forall|i: int| 0 <= i < x.len() implies x[i] != ',' by {
            assert(plain_char(x[i]));
        }
    }
    assert(lacks_char(y, ',')) by {
        assert forall|i: int| 0 <= i < y.len() implies y[i] != ',' by {
            assert(plain_char(y[i]));
        }
    }
    lemma_lacks_char_not_contained(x, ',');
    lemma_lacks_char_not_contained(y, ',');
    lemma_replaced_absent(x, seq![','], seq![' ']);
    lemma_replaced_absent(y, seq![','], seq![' ']);
    assert(seq![','].subrange(0, 1) =~= seq![',']);
    assert(seq![','].skip(1) =~= Seq::<char>::empty());
    assert(replaced(seq![','], seq![','], seq![' ']) =~= seq![' '] + replaced(
        Seq::<char>::empty(),
        seq![','],
        seq![' '],
    ));
    assert(replaced(s, seq![','], seq![' ']) =~= r);
    // no quotes, apostrophes or double spaces left to touch
    lemma_lacks_char_not_contained(r, '"');
    lemma_replaced_absent(r, seq!['"'], Seq::empty());
    lemma_lacks_char_not_contained(r, '\'');
    lemma_replaced_absent(r, seq!['\''], Seq::empty());
    assert(!contains_seq(r, seq![' ', ' '])) by {
        if contains_seq(r, seq![' ', ' ']) {
            let i = choose|i: int| occurs_at(r, seq![' ', ' '], i);
            assert(r.subrange(i, i + 2)[0] == r[i]);
            assert(r.subrange(i, i + 2)[1] == r[i + 1]);
        }
    }
    lemma_replaced_absent(r, seq![' ', ' '], seq![' ']);
}

} // verus!
