use vstd::prelude::*;

verus! {

#[verifier::external_type_specification]
#[verifier::external_body]
pub struct ExSelector(::scraper::Selector);

#[verifier::external_type_specification]
#[verifier::external_body]
pub struct ExSelectorErrorKind(::scraper::error::SelectorErrorKind);

/// Whether `scraper::Selector::parse` accepts `query` as a CSS selector group.
pub uninterp spec fn selector_accepted(query: Seq<char>) -> bool;

/// What `html`, parsed with `scraper::Html::parse_document`, yields: for each
/// element that `season_query` selects (`Html::select`, in document order), for
/// each element in it that `episode_query` selects (`ElementRef::select`), for
/// each field query, the `inner_html` of the first element in the episode that
/// the query selects (`None` where none does, or where there is no query).
pub uninterp spec fn selected_page(
    html: Seq<char>,
    season_query: Seq<char>,
    episode_query: Seq<char>,
    field_queries: Seq<Option<Seq<char>>>,
) -> Seq<Seq<Seq<Option<Seq<char>>>>>;

/// How many elements of `html`, parsed with `scraper::Html::parse_document`,
/// `query` selects (`Html::select`).
pub uninterp spec fn selected_count(html: Seq<char>, query: Seq<char>) -> nat;

/// Calls `scraper::Selector::parse`. The contract claims only that whether it
/// succeeds is named by `selector_accepted(query@)`.
#[verifier::external_body]
pub(crate) fn parse_selector(query: &str) -> (res: Result<
    ::scraper::Selector,
    ::scraper::error::SelectorErrorKind,
>)
    ensures
        res is Ok == selector_accepted(query@),
{
    ::scraper::Selector::parse(query)
}

/// Parses `html` with `scraper::Html::parse_document` and the queries with
/// `Selector::parse`, then selects seasons, the episodes in each, and in each
/// episode the first match of each field query, taking its `inner_html`. The
/// contract claims that the outcome is the one named by `selected_page`, with one
/// entry per field query, `None` where there is no query.
#[verifier::external_body]
pub(crate) fn select_page(
    html: &str,
    season_query: &str,
    episode_query: &str,
    field_queries: &Vec<Option<String>>,
) -> (res: Vec<Vec<Vec<Option<String>>>>)
    requires
        selector_accepted(season_query@),
        selector_accepted(episode_query@),
        forall|f: int|
            0 <= f < field_queries@.len() ==> (#[trigger] field_queries@[f] matches Some(q)
                ==> selector_accepted(q@)),
    ensures
        res.deep_view() == selected_page(
            html@,
            season_query@,
            episode_query@,
            field_queries.deep_view(),
        ),
        forall|s: int, e: int|
            0 <= s < res.deep_view().len() && 0 <= e < res.deep_view()[s].len() ==> (
            #[trigger] res.deep_view()[s][e]).len() == field_queries@.len(),
        forall|s: int, e: int, f: int|
            0 <= s < res.deep_view().len() && 0 <= e < res.deep_view()[s].len() && 0 <= f
                < field_queries@.len() && field_queries@[f] is None ==> (
            #[trigger] res.deep_view()[s][e][f]) is None,
{
    let parse = |q: &str| ::scraper::Selector::parse(q).unwrap();
    let document = ::scraper::Html::parse_document(html);
    let (season, episode) = (parse(season_query), parse(episode_query));
    let fields: Vec<_> = field_queries.iter().map(|q| q.as_deref().map(parse)).collect();
    document.select(&season).map(|s| s.select(&episode).map(|e| fields.iter().map(|f|
        f.as_ref().and_then(|f| e.select(f).next()).map(|m| m.inner_html())
    ).collect()).collect()).collect()
}

/// Parses `html` with `scraper::Html::parse_document` and counts the elements
/// that `query` selects. The contract claims that the count is the one named by
/// `selected_count`.
#[verifier::external_body]
pub(crate) fn count_selected(html: &str, query: &str) -> (res: usize)
    requires
        selector_accepted(query@),
    ensures
        res == selected_count(html@, query@),
{
    ::scraper::Html::parse_document(html).select(&::scraper::Selector::parse(query).unwrap()).count()
}

} // verus!
