use vstd::prelude::*;
use crate::chars::{chars_of, string_of};
use crate::records::{csv_read, read_csv_records};
use crate::rule::Rule;
use crate::template::{replace_file_name_template_tokens, template_output, TemplateError};
use crate::text::{
    contains_exec, contains_seq, lemma_contains_itself, lemma_stem_and_extension_rejoin,
    stem_and_extension, stem_and_extension_exec,
};
use crate::unicode::{lowercase, to_lowercase};

verus! {

/// Why planning or carrying out the renames stopped.
#[derive(Debug)]
pub enum RenameError {
    /// The CSV reader reported an error (its message).
    Csv(String),
    /// A template could not be filled in from a record.
    Template(TemplateError),
    /// The one file found for a record has no extension.
    MissingExtension,
    /// A record of the rename list has fewer than three fields.
    MissingField,
}

/// What to look for to rename the file of one episode.
pub struct RenameLookup {
    /// The new name of the file, without extension.
    pub target_file_name: String,
    /// A part of the current name of the file, matched without regard to case.
    pub source_file_name_check: String,
    /// The directory to search.
    pub season_directory_path: String,
}

/// A lookup seen as its three texts: target name, name check, directory.
pub open spec fn lookup_view(l: RenameLookup) -> (Seq<char>, Seq<char>, Seq<char>) {
    (l.target_file_name@, l.source_file_name_check@, l.season_directory_path@)
}

/// The directory to search for the file of a record.
pub open spec fn season_directory_of(rule: &Rule, record: Seq<Seq<char>>) -> Result<Seq<char>, TemplateError> {
    if rule.has_season_directory {
        match template_output(rule.season_directory_template@, record) {
            Ok(name) => Ok(rule.target_directory@ + seq!['/'] + name),
            Err(e) => Err(e),
        }
    } else {
        Ok(rule.target_directory@)
    }
}

/// The lookup for a record of the guide: target name, name check, directory.
pub open spec fn lookup_of(rule: &Rule, record: Seq<Seq<char>>) -> Result<
    (Seq<char>, Seq<char>, Seq<char>),
    TemplateError,
> {
    match template_output(rule.file_name_template@, record) {
        Err(e) => Err(e),
        Ok(target) => match template_output(rule.file_name_check_template@, record) {
            Err(e) => Err(e),
            Ok(check) => match season_directory_of(rule, record) {
                Err(e) => Err(e),
                Ok(dir) => Ok((target, check, dir)),
            },
        },
    }
}

/// The lookup for one record of the guide.
pub fn rename_lookup(rule: &Rule, record: &Vec<String>) -> (res: Result<RenameLookup, TemplateError>)
    ensures
        match res {
            Ok(l) => lookup_of(rule, record.deep_view()) == Ok::<
                (Seq<char>, Seq<char>, Seq<char>),
                TemplateError,
            >(lookup_view(l)),
            Err(e) => lookup_of(rule, record.deep_view()) == Err::<
                (Seq<char>, Seq<char>, Seq<char>),
                TemplateError,
            >(e),
        },
{
    let target = replace_file_name_template_tokens(rule.file_name_template.clone(), record.clone())?;
    let check = replace_file_name_template_tokens(rule.file_name_check_template.clone(), record.clone())?;
    let mut directory = rule.target_directory.clone();
    if rule.has_season_directory {
        let name = replace_file_name_template_tokens(rule.season_directory_template.clone(), record.clone())?;
        directory.append("/");
        directory.append(name.as_str());
        assert("/"@ =~= seq!['/']) by {
            reveal_strlit("/");
        }
    }
    Ok(RenameLookup {
        target_file_name: target,
        source_file_name_check: check,
        season_directory_path: directory,
    })
}

} // verus!

verus! {

/// The lookups for the records of the guide, in order, up to the first record
/// that cannot be looked up or the first error of the CSV reader; `stopped`
/// holds what stopped them, if anything did.
pub struct RenameLookups {
    pub lookups: Vec<RenameLookup>,
    pub stopped: Option<RenameError>,
}

/// Reads the guide CSV and works out, record by record, what to look for.
pub fn plan_rename_lookups(rule: &Rule, guide_csv: &str) -> (res: RenameLookups)
    ensures
        ({
            let (records, failed) = csv_read(guide_csv@);
            let n = res.lookups@.len();
            &&& n <= records.len()
            &&& forall|i: int|
                0 <= i < n ==> lookup_of(rule, records[i]) == Ok::<
                    (Seq<char>, Seq<char>, Seq<char>),
                    TemplateError,
                >(lookup_view(#[trigger] res.lookups@[i]))
            &&& n < records.len() ==> lookup_of(rule, records[n as int]) is Err && res.stopped
                == Some(RenameError::Template(lookup_of(rule, records[n as int])->Err_0))
            &&& n == records.len() ==> (res.stopped is Some <==> failed)
            &&& n == records.len() ==> (res.stopped matches Some(e) ==> e is Csv)
        }),
{
    let (records, error) = read_csv_records(guide_csv);
    let ghost all = records.deep_view();
    let mut lookups: Vec<RenameLookup> = Vec::new();
    let mut i: usize = 0;
    while i < records.len()
        invariant
            i <= records@.len(),
            all == records.deep_view(),
            all == csv_read(guide_csv@).0,
            lookups@.len() == i,
            forall|j: int|
                0 <= j < i ==> lookup_of(rule, all[j]) == Ok::<
                    (Seq<char>, Seq<char>, Seq<char>),
                    TemplateError,
                >(lookup_view(#[trigger] lookups@[j])),
        decreases records@.len() - i,
    {
        match rename_lookup(rule, &records[i]) {
            Ok(lookup) => lookups.push(lookup),
            Err(e) => {
                return RenameLookups { lookups, stopped: Some(RenameError::Template(e)) };
            },
        }
        i = i + 1;
    }
    let stopped = match error {
        Some(e) => Some(RenameError::Csv(e.to_string())),
        None => None,
    };
    RenameLookups { lookups, stopped }
}

} // verus!

verus! {

/// A file name matches a name check where the lower-cased check occurs in the
/// lower-cased name.
pub open spec fn name_matches(name: Seq<char>, check: Seq<char>) -> bool {
    contains_seq(lowercase(name), lowercase(check))
}

/// The names that match `check`, in their order.
pub open spec fn matching_files(names: Seq<Seq<char>>, check: Seq<char>) -> Seq<Seq<char>>
    decreases names.len(),
{
    if names.len() == 0 {
        Seq::empty()
    } else {
        let rest = matching_files(names.drop_last(), check);
        if name_matches(names.last(), check) {
            rest.push(names.last())
        } else {
            rest
        }
    }
}

/// What the search for one episode's file comes to.
pub enum ListingOutcome {
    /// The directory to search does not exist.
    DirectoryMissing,
    /// No file matches.
    NoFiles,
    /// More than one file matches.
    MultipleFiles,
    /// Exactly one file matches, and its name has no extension.
    MissingExtension,
    /// Exactly one file matches; its name splits into this stem and extension.
    Renamed { stem: Seq<char>, extension: Seq<char> },
}

/// What searching for a file that matches `check` among `listing` (the names of
/// the files under the directory, `None` where it does not exist) comes to.
pub open spec fn listing_outcome(check: Seq<char>, listing: Option<Seq<Seq<char>>>) -> ListingOutcome {
    match listing {
        None => ListingOutcome::DirectoryMissing,
        Some(names) => {
            let found = matching_files(names, check);
            if found.len() == 0 {
                ListingOutcome::NoFiles
            } else if found.len() > 1 {
                ListingOutcome::MultipleFiles
            } else {
                match stem_and_extension(found[0]) {
                    None => ListingOutcome::MissingExtension,
                    Some((stem, extension)) => ListingOutcome::Renamed { stem, extension },
                }
            }
        },
    }
}

/// What the search for one episode's file came to.
pub enum RecordOutcome {
    DirectoryMissing,
    NoFiles,
    MultipleFiles,
    /// The one matching file, its stem and extension, and the path it is to get.
    Renamed { stem: String, extension: String, target_file_path: String },
}

impl View for RecordOutcome {
    type V = ListingOutcome;

    open spec fn view(&self) -> ListingOutcome {
        match self {
            RecordOutcome::DirectoryMissing => ListingOutcome::DirectoryMissing,
            RecordOutcome::NoFiles => ListingOutcome::NoFiles,
            RecordOutcome::MultipleFiles => ListingOutcome::MultipleFiles,
            RecordOutcome::Renamed { stem, extension, .. } => ListingOutcome::Renamed {
                stem: stem@,
                extension: extension@,
            },
        }
    }
}

/// `s` between double quotes.
pub open spec fn quoted(s: Seq<char>) -> Seq<char> {
    seq!['"'] + s + seq!['"']
}

/// The line of the rename list for a file: the new name, the current name and
/// the directory, each quoted.
pub open spec fn rename_row(target: Seq<char>, stem: Seq<char>, extension: Seq<char>, directory: Seq<char>) -> Seq<char> {
    quoted(target + seq!['.'] + extension) + seq![','] + quoted(stem + seq!['.'] + extension)
        + seq![','] + quoted(directory) + seq!['\n']
}

/// The lines of the rename list for the first records: one for each record whose
/// search found exactly one file with an extension.
pub open spec fn rename_rows(
    lookups: Seq<(Seq<char>, Seq<char>, Seq<char>)>,
    listings: Seq<Option<Seq<Seq<char>>>>,
) -> Seq<char>
    decreases lookups.len(),
{
    if lookups.len() == 0 {
        Seq::empty()
    } else {
        let l = lookups.last();
        rename_rows(lookups.drop_last(), listings.drop_last()) + match listing_outcome(
            l.1,
            listings[lookups.len() - 1],
        ) {
            ListingOutcome::Renamed { stem, extension } => rename_row(l.0, stem, extension, l.2),
            _ => Seq::empty(),
        }
    }
}

/// The first line of the rename list.
pub open spec fn rename_csv_header() -> Seq<char> {
    "Target Name, Source Name, Directory Path\n"@
}

/// Whether a file name matches a name check, without regard to case.
pub fn file_name_matches(name: &str, partial_name: &str) -> (res: bool)
    ensures
        res == name_matches(name@, partial_name@),
{
    let name_lower = chars_of(to_lowercase(name).as_str());
    let check_lower = chars_of(to_lowercase(partial_name).as_str());
    contains_exec(&name_lower, &check_lower)
}

/// The names that match a name check, in their order.
pub fn matching_file_names(names: &Vec<String>, partial_name: &str) -> (res: Vec<String>)
    ensures
        res.deep_view() == matching_files(names.deep_view(), partial_name@),
{
    let ghost all = names.deep_view();
    let mut found: Vec<String> = Vec::new();
    let mut i: usize = 0;
    assert(all.take(0) =~= Seq::<Seq<char>>::empty());
    assert(found.deep_view() =~= Seq::<Seq<char>>::empty());
    while i < names.len()
        invariant
            i <= names@.len(),
            all == names.deep_view(),
            found.deep_view() == matching_files(all.take(i as int), partial_name@),
        decreases names@.len() - i,
    {
        assert(all.take(i + 1).drop_last() =~= all.take(i as int));
        assert(all.take(i + 1).last() == names@[i as int]@);
        if file_name_matches(names[i].as_str(), partial_name) {
            let ghost before = found.deep_view();
            found.push(names[i].clone());
            assert(found.deep_view() =~= before.push(names@[i as int]@));
        }
        i = i + 1;
    }
    assert(all.take(i as int) =~= all);
    found
}

} // verus!

verus! {

/// The line of the rename list for a file.
pub fn rename_csv_row(target_file_name: &str, stem: &str, extension: &str, directory: &str) -> (res: String)
    ensures
        res@ == rename_row(target_file_name@, stem@, extension@, directory@),
{
    proof {
        reveal_strlit("\"");
        reveal_strlit(".");
        reveal_strlit(",");
        reveal_strlit("\n");
        reveal_strlit("\",\"");
    }
    let mut row = String::from_str("\"");
    row.append(target_file_name);
    row.append(".");
    row.append(extension);
    row.append("\",\"");
    row.append(stem);
    row.append(".");
    row.append(extension);
    row.append("\",\"");
    row.append(directory);
    row.append("\"");
    row.append("\n");
    assert(row@ =~= rename_row(target_file_name@, stem@, extension@, directory@));
    row
}

/// What the search for the file of `lookup` among `listing` comes to; `None`
/// where the one file found has no extension.
pub fn record_outcome(lookup: &RenameLookup, listing: &Option<Vec<String>>) -> (res: Option<RecordOutcome>)
    ensures
        match res {
            Some(o) => {
                &&& o@ == listing_outcome(lookup.source_file_name_check@, listing.deep_view())
                &&& o@ != ListingOutcome::MissingExtension
                &&& o matches RecordOutcome::Renamed { extension, target_file_path, .. }
                    ==> target_file_path@ == lookup.season_directory_path@ + seq!['/']
                    + lookup.target_file_name@ + seq!['.'] + extension@
            },
            None => listing_outcome(lookup.source_file_name_check@, listing.deep_view())
                == ListingOutcome::MissingExtension,
        },
{
    match listing {
        None => Some(RecordOutcome::DirectoryMissing),
        Some(names) => {
            let found = matching_file_names(names, lookup.source_file_name_check.as_str());
            if found.len() == 0 {
                Some(RecordOutcome::NoFiles)
            } else if found.len() > 1 {
                Some(RecordOutcome::MultipleFiles)
            } else {
                assert(found.deep_view()[0] == found@[0]@);
                match stem_and_extension_exec(&chars_of(found[0].as_str())) {
                    None => None,
                    Some((stem, extension)) => {
                        proof {
                            reveal_strlit("/");
                            reveal_strlit(".");
                        }
                        let mut target_file_path = lookup.season_directory_path.clone();
                        target_file_path.append("/");
                        target_file_path.append(lookup.target_file_name.as_str());
                        target_file_path.append(".");
                        let extension = string_of(extension.as_slice());
                        target_file_path.append(extension.as_str());
                        Some(
                            RecordOutcome::Renamed {
                                stem: string_of(stem.as_slice()),
                                extension,
                                target_file_path,
                            },
                        )
                    },
                }
            }
        },
    }
}

/// What searching for the files of the planned lookups came to, record by
/// record, and the rename list (or what stopped it).
pub struct RenameReport {
    pub outcomes: Vec<RecordOutcome>,
    pub csv: Result<String, RenameError>,
}

/// Works out the rename list from the planned lookups and, for each of them, the
/// names of the files under its directory (`None` where the directory does not
/// exist): a line for each record whose search finds exactly one file. Where the
/// one file found has no extension, the result is `MissingExtension` rather than
/// a panic, and no list is produced; the program stops on it.
pub fn generate_rename_csv(plan: RenameLookups, listings: &Vec<Option<Vec<String>>>) -> (res: RenameReport)
    requires
        listings@.len() == plan.lookups@.len(),
    ensures
        ({
            let lookups = plan.lookups@.map_values(|l: RenameLookup| lookup_view(l));
            let found = listings.deep_view();
            let k = res.outcomes@.len();
            &&& k <= lookups.len()
            &&& forall|i: int|
                0 <= i < k ==> (#[trigger] res.outcomes@[i])@ == listing_outcome(lookups[i].1, found[i])
            &&& forall|i: int|
                0 <= i < k ==> (#[trigger] res.outcomes@[i] matches RecordOutcome::Renamed {
                    extension,
                    target_file_path,
                    ..
                } ==> target_file_path@ == lookups[i].2 + seq!['/'] + lookups[i].0 + seq!['.']
                    + extension@)
            &&& k < lookups.len() ==> listing_outcome(lookups[k as int].1, found[k as int])
                == ListingOutcome::MissingExtension && (res.csv matches Err(
                RenameError::MissingExtension,
            ))
            &&& k == lookups.len() ==> match plan.stopped {
                Some(e) => res.csv == Err::<String, RenameError>(e),
                None => (res.csv matches Ok(text) && text@ == rename_csv_header() + rename_rows(
                    lookups,
                    found,
                )),
            }
        }),
{
    let ghost lookups = plan.lookups@.map_values(|l: RenameLookup| lookup_view(l));
    let ghost found = listings.deep_view();
    let mut content = String::from_str("Target Name, Source Name, Directory Path\n");
    let mut outcomes: Vec<RecordOutcome> = Vec::new();
    let mut i: usize = 0;
    assert(lookups.take(0) =~= Seq::<(Seq<char>, Seq<char>, Seq<char>)>::empty());
    while i < plan.lookups.len()
        invariant
            i <= plan.lookups@.len() == listings@.len(),
            lookups == plan.lookups@.map_values(|l: RenameLookup| lookup_view(l)),
            found == listings.deep_view(),
            outcomes@.len() == i,
            forall|j: int|
                0 <= j < i ==> (#[trigger] outcomes@[j])@ == listing_outcome(lookups[j].1, found[j]),
            forall|j: int|
                0 <= j < i ==> (#[trigger] outcomes@[j] matches RecordOutcome::Renamed {
                    extension,
                    target_file_path,
                    ..
                } ==> target_file_path@ == lookups[j].2 + seq!['/'] + lookups[j].0 + seq!['.']
                    + extension@),
            content@ == rename_csv_header() + rename_rows(
                lookups.take(i as int),
                found.take(i as int),
            ),
        decreases plan.lookups@.len() - i,
    {
        let lookup = &plan.lookups[i];
        assert(lookups[i as int] == lookup_view(*lookup));
        assert(found[i as int] == listings@[i as int].deep_view());
        assert(lookups.take(i + 1).drop_last() =~= lookups.take(i as int));
        assert(found.take(i + 1).drop_last() =~= found.take(i as int));
        assert(lookups.take(i + 1).last() == lookups[i as int]);
        assert(found.take(i + 1)[i as int] == found[i as int]);
        match record_outcome(lookup, &listings[i]) {
            None => {
                return RenameReport { outcomes, csv: Err(RenameError::MissingExtension) };
            },
            Some(outcome) => {
                let ghost before = content@;
                match &outcome {
                    RecordOutcome::Renamed { stem, extension, .. } => {
                        let row = rename_csv_row(
                            lookup.target_file_name.as_str(),
                            stem.as_str(),
                            extension.as_str(),
                            lookup.season_directory_path.as_str(),
                        );
                        content.append(row.as_str());
                    },
                    _ => {},
                }
                assert(content@ =~= rename_csv_header() + rename_rows(
                    lookups.take(i + 1),
                    found.take(i + 1),
                ));
                outcomes.push(outcome);
            },
        }
        i = i + 1;
    }
    assert(lookups.take(i as int) =~= lookups);
    assert(found.take(i as int) =~= found);
    let csv = match plan.stopped {
        Some(e) => Err(e),
        None => Ok(content),
    };
    RenameReport { outcomes, csv }
}

} // verus!

verus! {

/// One file to move: from `source_file_path` to `target_file_path`, carried out
/// only where `apply` holds (not on a dry run).
pub struct RenameOperation {
    pub source_file_path: String,
    pub target_file_path: String,
    pub apply: bool,
}

/// `directory/name`.
pub open spec fn joined_path(directory: Seq<char>, name: Seq<char>) -> Seq<char> {
    directory + seq!['/'] + name
}

/// `operation` is the move that `record` asks for: from `directory/current name`
/// to `directory/new name`.
pub open spec fn operation_for(operation: RenameOperation, record: Seq<Seq<char>>, dry_run: bool) -> bool {
    &&& record.len() >= 3
    &&& operation.source_file_path@ == joined_path(record[2], record[1])
    &&& operation.target_file_path@ == joined_path(record[2], record[0])
    &&& operation.apply == !dry_run
}

/// The move that a record of the rename list (new name, current name,
/// directory) asks for.
pub fn rename_operation(record: &Vec<String>, dry_run: bool) -> (res: RenameOperation)
    requires
        record@.len() >= 3,
    ensures
        res.source_file_path@ == joined_path(record@[2]@, record@[1]@),
        res.target_file_path@ == joined_path(record@[2]@, record@[0]@),
        res.apply == !dry_run,
{
    proof {
        reveal_strlit("/");
    }
    let mut source_file_path = record[2].clone();
    source_file_path.append("/");
    source_file_path.append(record[1].as_str());
    let mut target_file_path = record[2].clone();
    target_file_path.append("/");
    target_file_path.append(record[0].as_str());
    RenameOperation { source_file_path, target_file_path, apply: !dry_run }
}

/// The moves of the rename list, in order, up to the first record with fewer
/// than three fields or the first error of the CSV reader; `stopped` holds what
/// stopped them, if anything did.
pub struct RenameOperations {
    pub operations: Vec<RenameOperation>,
    pub stopped: Option<RenameError>,
}

/// Reads the rename list and works out the moves it asks for. A record with
/// fewer than three fields ends the moves with `MissingField` rather than a
/// panic; the program stops on it after carrying out the moves before it.
pub fn rename_files(rule: &Rule, rename_csv: &str) -> (res: RenameOperations)
    ensures
        ({
            let (records, failed) = csv_read(rename_csv@);
            let n = res.operations@.len();
            &&& n <= records.len()
            &&& forall|i: int|
                0 <= i < n ==> operation_for(#[trigger] res.operations@[i], records[i], rule.dry_run)
            &&& n < records.len() ==> records[n as int].len() < 3 && (res.stopped matches Some(
                RenameError::MissingField,
            ))
            &&& n == records.len() ==> (res.stopped is Some <==> failed)
            &&& n == records.len() ==> (res.stopped matches Some(e) ==> e is Csv)
        }),
{
    let (records, error) = read_csv_records(rename_csv);
    let ghost all = records.deep_view();
    let mut operations: Vec<RenameOperation> = Vec::new();
    let mut i: usize = 0;
    while i < records.len()
        invariant
            i <= records@.len(),
            all == records.deep_view(),
            all == csv_read(rename_csv@).0,
            operations@.len() == i,
            forall|j: int|
                0 <= j < i ==> operation_for(#[trigger] operations@[j], all[j], rule.dry_run),
        decreases records@.len() - i,
    {
        assert(all[i as int] == records@[i as int].deep_view());
        assert(all[i as int].len() == records@[i as int]@.len());
        if records[i].len() < 3 {
            return RenameOperations { operations, stopped: Some(RenameError::MissingField) };
        }
        assert(all[i as int][0] == records@[i as int]@[0]@);
        assert(all[i as int][1] == records@[i as int]@[1]@);
        assert(all[i as int][2] == records@[i as int]@[2]@);
        let operation = rename_operation(&records[i], rule.dry_run);
        operations.push(operation);
        assert(operations@[i as int] == operation);
        i = i + 1;
    }
    let stopped = match error {
        Some(e) => Some(RenameError::Csv(e.to_string())),
        None => None,
    };
    RenameOperations { operations, stopped }
}

} // verus!

verus! {

/// A file whose name is the name check itself is always found by it.
pub proof fn lemma_name_matches_itself(name: Seq<char>)
    ensures
        name_matches(name, name),
{
    lemma_contains_itself(lowercase(name));
}

/// The rename list line for a found file quotes three fields: the new name with
/// the file's extension, the file's name, and the directory; read back as a
/// record, it asks to move exactly that file (`directory/name`) to the target
/// path reported for it.
pub proof fn lemma_rename_row_round_trip(
    target: Seq<char>,
    directory: Seq<char>,
    name: Seq<char>,
    operation: RenameOperation,
    dry_run: bool,
)
    requires
        stem_and_extension(name) is Some,
        operation_for(
            operation,
            seq![
                target + seq!['.'] + stem_and_extension(name)->Some_0.1,
                stem_and_extension(name)->Some_0.0 + seq!['.'] + stem_and_extension(name)->Some_0.1,
                directory,
            ],
            dry_run,
        ),
    ensures
        ({
            let (stem, extension) = stem_and_extension(name)->Some_0;
            &&& rename_row(target, stem, extension, directory) == quoted(
                target + seq!['.'] + extension,
            ) + seq![','] + quoted(name) + seq![','] + quoted(directory) + seq!['\n']
            &&& operation.source_file_path@ == directory + seq!['/'] + name
            &&& operation.target_file_path@ == directory + seq!['/'] + target + seq!['.']
                + extension
        }),
{
    lemma_stem_and_extension_rejoin(name);
    let (stem, extension) = stem_and_extension(name)->Some_0;
    assert(directory + seq!['/'] + (target + seq!['.'] + extension) =~= directory + seq!['/']
        + target + seq!['.'] + extension);
}

} // verus!
