use vstd::prelude::*;
use crate::chars::{chars_of, string_of};
use crate::patterns::{captures_all, regex_captures, regex_replaced, replace_all_matches};
use crate::text::{
    chars_equal, concat_exec, count_char, count_char_exec, last_index_of, last_index_of_exec,
    pad_left_exec, padded_left, parse_unsigned, parsed_unsigned, prefix_exec, replace_exec,
    replaced,
};
use crate::unicode::{alphanumeric, is_alphanumeric, lowercase, to_lowercase, to_uppercase, uppercase};

verus! {

/// A token of a file name template: `{{` and `}}` around anything but a line break.
pub const TOKEN_PATTERN: &'static str = r"\{\{(.+?)\}\}";

/// A token's inside: its kind, the index of the record field, then `.` and the format.
pub const TOKEN_DECODE_PATTERN: &'static str = r"(\w)(\d+)\.(.+)";

/// One setting of a token's format: a letter and an optional number.
pub const TOKEN_DECODE_FORMAT_PATTERN: &'static str = r"(\w)(\d*)";

/// The characters that a `c` format drops (those file names may not hold).
pub const TOKEN_DECODE_FORMAT_CLEAN_PATTERN: &'static str = r#"[<>:"/\\|?\*\x00-\x1F]"#;

/// The characters that a `t` format drops after turning the value into PascalCase.
pub const TOKEN_DECODE_FORMAT_TITLE_PATTERN: &'static str = r#"[ ',\.\-_%]"#;

/// Why a template could not be filled in from a record.
#[derive(Debug, Clone, Copy, PartialEq, Eq)]
pub enum TemplateError {
    /// The regular expression library refused one of the patterns.
    InvalidPattern,
    /// A match of a pattern lacks one of the groups that the template reads.
    MissingCaptureGroup,
    /// The token does not read as kind, field index, `.` and format.
    UndecodableToken,
    /// The token's field index is not a number that fits in `usize`.
    BadTokenIndex,
    /// The token names a field that the record does not have.
    FieldIndexOutOfRange,
}

/// Group `g` of one match, if it took part.
pub open spec fn capture_group(m: Seq<Option<Seq<char>>>, g: int) -> Option<Seq<char>> {
    if 0 <= g < m.len() {
        m[g]
    } else {
        None
    }
}

/// The text between `{{` and `}}` of each token match, in order.
pub open spec fn tokens_of_captures(captures: Seq<Seq<Option<Seq<char>>>>) -> Result<
    Seq<Seq<char>>,
    TemplateError,
> {
    if forall|i: int| 0 <= i < captures.len() ==> capture_group(#[trigger] captures[i], 1) is Some {
        Ok(Seq::new(captures.len(), |i: int| capture_group(captures[i], 1).unwrap()))
    } else {
        Err(TemplateError::MissingCaptureGroup)
    }
}

/// One setting of a format: its letter and its number (0 where there is none,
/// or where it does not fit in a `u8`).
pub open spec fn format_entry(m: Seq<Option<Seq<char>>>) -> Option<(Seq<char>, u8)> {
    match (capture_group(m, 1), capture_group(m, 2)) {
        (Some(key), Some(digits)) => Some(
            (
                key,
                match parsed_unsigned(digits, 255) {
                    Some(v) => v as u8,
                    None => 0u8,
                },
            ),
        ),
        _ => None,
    }
}

/// The settings of a format, one per match, in order.
pub open spec fn format_settings_of(captures: Seq<Seq<Option<Seq<char>>>>) -> Result<
    Seq<(Seq<char>, u8)>,
    TemplateError,
> {
    if forall|i: int| 0 <= i < captures.len() ==> format_entry(#[trigger] captures[i]) is Some {
        Ok(Seq::new(captures.len(), |i: int| format_entry(captures[i]).unwrap()))
    } else {
        Err(TemplateError::MissingCaptureGroup)
    }
}

/// The number set for `key`: that of its last setting, as a map filled in order keeps it.
pub open spec fn format_value(settings: Seq<(Seq<char>, u8)>, key: Seq<char>) -> Option<u8>
    decreases settings.len(),
{
    if settings.len() == 0 {
        None
    } else if settings.last().0 == key {
        Some(settings.last().1)
    } else {
        format_value(settings.drop_last(), key)
    }
}

/// `s` cut down to `max_length` characters plus one for each space in it; where
/// that cut anything off, it is moved back to the last space left, if any.
pub open spec fn truncated_value(s: Seq<char>, max_length: nat) -> Seq<char> {
    let limit = max_length + count_char(s, ' ');
    if s.len() > limit {
        let cut = s.take(limit as int);
        match last_index_of(cut, ' ') {
            Some(k) => cut.take(k),
            None => cut,
        }
    } else {
        s
    }
}

/// The length of the run of alphanumeric characters that `s` starts with.
pub open spec fn alphanumeric_run(s: Seq<char>) -> nat
    decreases s.len(),
{
    if s.len() > 0 && alphanumeric(s[0]) {
        1 + alphanumeric_run(s.drop_first())
    } else {
        0
    }
}

/// A run of alphanumeric characters lies within the text, and is not empty where the text starts with one.
pub proof fn lemma_alphanumeric_run_bounds(s: Seq<char>)
    ensures
        alphanumeric_run(s) <= s.len(),
        s.len() > 0 && alphanumeric(s[0]) ==> alphanumeric_run(s) >= 1,
    decreases s.len(),
{
    if s.len() > 0 && alphanumeric(s[0]) {
        lemma_alphanumeric_run_bounds(s.drop_first());
    }
}

/// A word with its first character upper-cased and the rest lower-cased.
pub open spec fn capitalized(word: Seq<char>) -> Seq<char> {
    uppercase(word[0]) + lowercase(word.drop_first())
}

/// `s` in PascalCase: each maximal run of alphanumeric characters capitalized,
/// everything else dropped, the words joined.
pub open spec fn pascal_case(s: Seq<char>) -> Seq<char>
    decreases s.len(),
{
    if s.len() == 0 {
        Seq::empty()
    } else if !alphanumeric(s[0]) {
        pascal_case(s.drop_first())
    } else {
        let n = alphanumeric_run(s);
        proof {
            lemma_alphanumeric_run_bounds(s);
        }
        capitalized(s.take(n as int)) + pascal_case(s.skip(n as int))
    }
}

/// The value of an `s` token for the field text `value`: without the
/// characters of the clean pattern where the format has `c`, truncated where it
/// has `l`, in PascalCase without the title pattern's characters where it has `t`.
pub open spec fn string_token_value(value: Seq<char>, settings: Seq<(Seq<char>, u8)>) -> Result<
    Seq<char>,
    TemplateError,
> {
    let cleaned = if format_value(settings, seq!['c']) is Some {
        regex_replaced(TOKEN_DECODE_FORMAT_CLEAN_PATTERN@, value, Seq::empty())
    } else {
        Some(value)
    };
    match cleaned {
        None => Err(TemplateError::InvalidPattern),
        Some(cleaned) => {
            let cut = match format_value(settings, seq!['l']) {
                Some(l) => truncated_value(cleaned, l as nat),
                None => cleaned,
            };
            if format_value(settings, seq!['t']) is Some {
                match regex_replaced(
                    TOKEN_DECODE_FORMAT_TITLE_PATTERN@,
                    pascal_case(cut),
                    Seq::empty(),
                ) {
                    Some(title) => Ok(title),
                    None => Err(TemplateError::InvalidPattern),
                }
            } else {
                Ok(cut)
            }
        },
    }
}

/// The value of a decoded token: for kind `i` the field padded with `0`s to the
/// width of the `p` setting, for kind `s` the string value of the field, for any
/// other kind the token itself.
pub open spec fn decoded_token_value(
    token: Seq<char>,
    kind: Seq<char>,
    index: int,
    settings: Seq<(Seq<char>, u8)>,
    record: Seq<Seq<char>>,
) -> Result<Seq<char>, TemplateError> {
    if kind == seq!['i'] {
        if 0 <= index < record.len() {
            let width = match format_value(settings, seq!['p']) {
                Some(p) => p as nat,
                None => 0,
            };
            Ok(padded_left(record[index], '0', width))
        } else {
            Err(TemplateError::FieldIndexOutOfRange)
        }
    } else if kind == seq!['s'] {
        if 0 <= index < record.len() {
            string_token_value(record[index], settings)
        } else {
            Err(TemplateError::FieldIndexOutOfRange)
        }
    } else {
        Ok(token)
    }
}

/// The value that `token` (the text between `{{` and `}}`) stands for in `record`.
pub open spec fn token_value(token: Seq<char>, record: Seq<Seq<char>>) -> Result<
    Seq<char>,
    TemplateError,
> {
    match regex_captures(TOKEN_DECODE_PATTERN@, token) {
        None => Err(TemplateError::InvalidPattern),
        Some(captures) => if captures.len() == 0 {
            Err(TemplateError::UndecodableToken)
        } else {
            let m = captures[0];
            match capture_group(m, 1) {
                None => Err(TemplateError::MissingCaptureGroup),
                Some(kind) => match capture_group(m, 2) {
                    None => Err(TemplateError::MissingCaptureGroup),
                    Some(digits) => match parsed_unsigned(digits, usize::MAX as int) {
                        None => Err(TemplateError::BadTokenIndex),
                        Some(index) => match capture_group(m, 3) {
                            None => Err(TemplateError::MissingCaptureGroup),
                            Some(format) => match regex_captures(
                                TOKEN_DECODE_FORMAT_PATTERN@,
                                format,
                            ) {
                                None => Err(TemplateError::InvalidPattern),
                                Some(format_captures) => match format_settings_of(
                                    format_captures,
                                ) {
                                    Err(e) => Err(e),
                                    Ok(settings) => decoded_token_value(
                                        token,
                                        kind,
                                        index,
                                        settings,
                                        record,
                                    ),
                                },
                            },
                        },
                    },
                },
            }
        },
    }
}

/// `{{token}}`, the text that a token's value replaces.
pub open spec fn token_marker(token: Seq<char>) -> Seq<char> {
    seq!['{', '{'] + token + seq!['}', '}']
}

/// `template` with, for each token in order, every `{{token}}` replaced by its value.
pub open spec fn substituted(template: Seq<char>, tokens: Seq<Seq<char>>, values: Seq<Seq<char>>) -> Seq<
    char,
>
    decreases tokens.len(),
{
    if tokens.len() == 0 {
        template
    } else {
        replaced(
            substituted(template, tokens.drop_last(), values.drop_last()),
            token_marker(tokens.last()),
            values.last(),
        )
    }
}

/// The values of `tokens` in `record`, in order, or the error of the first that has none.
pub open spec fn token_values(tokens: Seq<Seq<char>>, record: Seq<Seq<char>>) -> Result<
    Seq<Seq<char>>,
    TemplateError,
>
    decreases tokens.len(),
{
    if tokens.len() == 0 {
        Ok(Seq::empty())
    } else {
        match token_values(tokens.drop_last(), record) {
            Err(e) => Err(e),
            Ok(values) => match token_value(tokens.last(), record) {
                Err(e) => Err(e),
                Ok(v) => Ok(values.push(v)),
            },
        }
    }
}

/// The file name that `template` gives for `record`.
pub open spec fn template_output(template: Seq<char>, record: Seq<Seq<char>>) -> Result<
    Seq<char>,
    TemplateError,
> {
    match regex_captures(TOKEN_PATTERN@, template) {
        None => Err(TemplateError::InvalidPattern),
        Some(captures) => match tokens_of_captures(captures) {
            Err(e) => Err(e),
            Ok(tokens) => match token_values(tokens, record) {
                Err(e) => Err(e),
                Ok(values) => Ok(substituted(template, tokens, values)),
            },
        },
    }
}

/// `res` holds the outcome `spec` as a `Result` of strings.
pub open spec fn string_result_is(res: Result<String, TemplateError>, spec: Result<Seq<char>, TemplateError>) -> bool {
    match res {
        Ok(s) => spec == Ok::<Seq<char>, TemplateError>(s@),
        Err(e) => spec == Err::<Seq<char>, TemplateError>(e),
    }
}

/// Format settings held as character vectors, seen as character sequences.
pub open spec fn settings_view(settings: Seq<(Vec<char>, u8)>) -> Seq<(Seq<char>, u8)> {
    settings.map_values(|e: (Vec<char>, u8)| (e.0@, e.1))
}

/// Group `g` of one match, if it took part.
fn group_of(m: &Vec<Option<String>>, g: usize) -> (res: Option<String>)
    ensures
        match res {
            Some(s) => capture_group(m.deep_view(), g as int) == Some(s@),
            None => capture_group(m.deep_view(), g as int) is None,
        },
{
    if g < m.len() {
        match &m[g] {
            Some(s) => Some(s.clone()),
            None => None,
        }
    } else {
        None
    }
}

/// The text between `{{` and `}}` of each token match.
pub fn template_tokens(captures: &Vec<Vec<Option<String>>>) -> (res: Result<Vec<String>, TemplateError>)
    ensures
        match res {
            Ok(tokens) => tokens_of_captures(captures.deep_view()) == Ok::<
                Seq<Seq<char>>,
                TemplateError,
            >(tokens.deep_view()),
            Err(e) => tokens_of_captures(captures.deep_view()) == Err::<
                Seq<Seq<char>>,
                TemplateError,
            >(e),
        },
{
    let ghost caps = captures.deep_view();
    let mut tokens: Vec<String> = Vec::new();
    let mut i: usize = 0;
    while i < captures.len()
        invariant
            i <= captures@.len(),
            caps == captures.deep_view(),
            tokens@.len() == i,
            forall|j: int|
                0 <= j < i ==> capture_group(#[trigger] caps[j], 1) == Some(tokens@[j]@),
        decreases captures@.len() - i,
    {
        match group_of(&captures[i], 1) {
            Some(token) => {
                tokens.push(token);
            },
            None => {
                assert(capture_group(caps[i as int], 1) is None);
                return Err(TemplateError::MissingCaptureGroup);
            },
        }
        i = i + 1;
    }
    assert(tokens.deep_view() =~= Seq::new(
        caps.len(),
        |j: int| capture_group(caps[j], 1).unwrap(),
    ));
    Ok(tokens)
}

/// The settings of a format, one per match of the format pattern, in order.
pub fn format_settings(captures: &Vec<Vec<Option<String>>>) -> (res: Result<
    Vec<(Vec<char>, u8)>,
    TemplateError,
>)
    ensures
        match res {
            Ok(settings) => format_settings_of(captures.deep_view()) == Ok::<
                Seq<(Seq<char>, u8)>,
                TemplateError,
            >(settings_view(settings@)),
            Err(e) => format_settings_of(captures.deep_view()) == Err::<
                Seq<(Seq<char>, u8)>,
                TemplateError,
            >(e),
        },
{
    let ghost caps = captures.deep_view();
    let mut settings: Vec<(Vec<char>, u8)> = Vec::new();
    let mut i: usize = 0;
    while i < captures.len()
        invariant
            i <= captures@.len(),
            caps == captures.deep_view(),
            settings@.len() == i,
            forall|j: int|
                0 <= j < i ==> format_entry(#[trigger] caps[j]) == Some(
                    settings_view(settings@)[j],
                ),
        decreases captures@.len() - i,
    {
        let key = group_of(&captures[i], 1);
        let digits = group_of(&captures[i], 2);
        match (key, digits) {
            (Some(key), Some(digits)) => {
                let value: u8 = match parse_unsigned(&chars_of(digits.as_str()), 255) {
                    Some(v) => v as u8,
                    None => 0,
                };
                let ghost before = settings_view(settings@);
                settings.push((chars_of(key.as_str()), value));
                assert(settings_view(settings@) =~= before.push((key@, value)));
            },
            _ => {
                assert(format_entry(caps[i as int]) is None);
                return Err(TemplateError::MissingCaptureGroup);
            },
        }
        i = i + 1;
    }
    assert(settings_view(settings@) =~= Seq::new(caps.len(), |j: int| format_entry(caps[j]).unwrap()));
    Ok(settings)
}

/// The number set for `key`, that of its last setting.
pub fn lookup_format_value(settings: &Vec<(Vec<char>, u8)>, key: &Vec<char>) -> (res: Option<u8>)
    ensures
        res == format_value(settings_view(settings@), key@),
{
    let ghost all = settings_view(settings@);
    let mut i: usize = settings.len();
    assert(all.take(i as int) =~= all);
    while i > 0
        invariant
            i <= settings@.len(),
            all == settings_view(settings@),
            format_value(all, key@) == format_value(all.take(i as int), key@),
        decreases i,
    {
        assert(all.take(i as int).drop_last() =~= all.take(i - 1));
        if chars_equal(&settings[i - 1].0, key) {
            return Some(settings[i - 1].1);
        }
        i = i - 1;
    }
    None
}

} // verus!

verus! {

/// Cuts `s` down to `max_length` characters plus one per space; where that cuts
/// anything off, moves the cut back to the last space left.
pub fn truncate_value(s: &Vec<char>, max_length: u8) -> (res: Vec<char>)
    ensures
        res@ == truncated_value(s@, max_length as nat),
{
    let spaces = count_char_exec(s, ' ');
    let limit: usize = if spaces > usize::MAX - (max_length as usize) {
        usize::MAX
    } else {
        max_length as usize + spaces
    };
    if s.len() > limit {
        let cut = prefix_exec(s, limit);
        match last_index_of_exec(&cut, ' ') {
            Some(k) => {
                proof {
                    lemma_last_index_of_in_bounds(cut@, ' ');
                }
                prefix_exec(&cut, k)
            },
            None => cut,
        }
    } else {
        s.clone()
    }
}

proof fn lemma_last_index_of_in_bounds(s: Seq<char>, c: char)
    ensures
        last_index_of(s, c) matches Some(k) ==> 0 <= k < s.len(),
    decreases s.len(),
{
    if s.len() > 0 && s.last() != c {
        lemma_last_index_of_in_bounds(s.drop_last(), c);
    }
}

proof fn lemma_alphanumeric_run_exact(s: Seq<char>, i: int, j: int)
    requires
        0 <= i <= j <= s.len(),
        forall|k: int| i <= k < j ==> alphanumeric(#[trigger] s[k]),
        j == s.len() || !alphanumeric(s[j]),
    ensures
        alphanumeric_run(s.skip(i)) == j - i,
    decreases j - i,
{
    if i < j {
        lemma_alphanumeric_run_exact(s, i + 1, j);
        assert(s.skip(i).drop_first() =~= s.skip(i + 1));
    } else {
        if j < s.len() {
            assert(s.skip(i)[0] == s[j]);
        }
    }
}

/// `input` in PascalCase: each run of alphanumeric characters with its first
/// character upper-cased and the rest lower-cased, all else dropped.
pub fn to_pascal_case(input: &str) -> (res: String)
    ensures
        res@ == pascal_case(input@),
{
    let s = chars_of(input);
    let mut out = String::new();
    let mut i: usize = 0;
    assert(s@.skip(0) =~= s@);
    while i < s.len()
        invariant
            i <= s@.len(),
            out@ + pascal_case(s@.skip(i as int)) == pascal_case(s@),
        decreases s@.len() - i,
    {
        let ghost rest = s@.skip(i as int);
        if !is_alphanumeric(s[i]) {
            assert(rest.drop_first() =~= s@.skip(i + 1));
            i = i + 1;
        } else {
            let mut j: usize = i + 1;
            while j < s.len() && is_alphanumeric(s[j])
                invariant
                    i < j <= s@.len(),
                    forall|k: int| i <= k < j ==> alphanumeric(#[trigger] s@[k]),
                decreases s@.len() - j,
            {
                j = j + 1;
            }
            proof {
                lemma_alphanumeric_run_exact(s@, i as int, j as int);
                assert(rest.skip(j - i) =~= s@.skip(j as int));
                assert(rest.take(j - i) =~= s@.subrange(i as int, j as int));
            }
            let first = to_uppercase(s[i]);
            let mut tail: Vec<char> = Vec::new();
            let mut k: usize = i + 1;
            while k < j
                invariant
                    i < k <= j <= s@.len(),
                    tail@ == s@.subrange(i + 1, k as int),
                decreases j - k,
            {
                tail.push(s[k]);
                k = k + 1;
                assert(tail@ =~= s@.subrange(i + 1, k as int));
            }
            let lowered = to_lowercase(string_of(tail.as_slice()).as_str());
            let ghost before = out@;
            out.append(first.as_str());
            out.append(lowered.as_str());
            assert(s@.subrange(i as int, j as int).drop_first() =~= tail@);
            assert(out@ + pascal_case(s@.skip(j as int)) =~= before + (capitalized(
                s@.subrange(i as int, j as int),
            ) + pascal_case(s@.skip(j as int))));
            i = j;
        }
    }
    assert(pascal_case(s@.skip(i as int)) =~= Seq::<char>::empty());
    assert(out@ + Seq::<char>::empty() =~= out@);
    out
}

/// Applies `pattern`'s replacement by nothing to `text`.
fn drop_matches(pattern: &str, text: &Vec<char>) -> (res: Result<Vec<char>, TemplateError>)
    ensures
        match res {
            Ok(out) => regex_replaced(pattern@, text@, Seq::empty()) == Some(out@),
            Err(e) => regex_replaced(pattern@, text@, Seq::empty()) is None && e
                == TemplateError::InvalidPattern,
        },
{
    let empty = String::new();
    match replace_all_matches(pattern, string_of(text.as_slice()).as_str(), empty.as_str()) {
        Ok(out) => Ok(chars_of(out.as_str())),
        Err(_) => Err(TemplateError::InvalidPattern),
    }
}

/// The value of an `s` token for the field text `value` under `settings`.
pub fn string_token_value_exec(value: &Vec<char>, settings: &Vec<(Vec<char>, u8)>) -> (res: Result<
    Vec<char>,
    TemplateError,
>)
    ensures
        match res {
            Ok(v) => string_token_value(value@, settings_view(settings@)) == Ok::<
                Seq<char>,
                TemplateError,
            >(v@),
            Err(e) => string_token_value(value@, settings_view(settings@)) == Err::<
                Seq<char>,
                TemplateError,
            >(e),
        },
{
    let c_key = vec!['c'];
    let l_key = vec!['l'];
    let t_key = vec!['t'];
    assert(c_key@ =~= seq!['c'] && l_key@ =~= seq!['l'] && t_key@ =~= seq!['t']);
    let cleaned = if lookup_format_value(settings, &c_key).is_some() {
        drop_matches(TOKEN_DECODE_FORMAT_CLEAN_PATTERN, value)?
    } else {
        value.clone()
    };
    let cut = match lookup_format_value(settings, &l_key) {
        Some(l) => truncate_value(&cleaned, l),
        None => cleaned,
    };
    if lookup_format_value(settings, &t_key).is_some() {
        let pascal = chars_of(to_pascal_case(string_of(cut.as_slice()).as_str()).as_str());
        drop_matches(TOKEN_DECODE_FORMAT_TITLE_PATTERN, &pascal)
    } else {
        Ok(cut)
    }
}

} // verus!

verus! {

/// The value of a decoded token of kind `kind` for field `index` of `record`.
pub fn decoded_token_value_exec(
    token: &Vec<char>,
    kind: &Vec<char>,
    index: usize,
    settings: &Vec<(Vec<char>, u8)>,
    record: &Vec<String>,
) -> (res: Result<Vec<char>, TemplateError>)
    ensures
        match res {
            Ok(v) => decoded_token_value(
                token@,
                kind@,
                index as int,
                settings_view(settings@),
                record.deep_view(),
            ) == Ok::<Seq<char>, TemplateError>(v@),
            Err(e) => decoded_token_value(
                token@,
                kind@,
                index as int,
                settings_view(settings@),
                record.deep_view(),
            ) == Err::<Seq<char>, TemplateError>(e),
        },
{
    let i_kind = vec!['i'];
    let s_kind = vec!['s'];
    let p_key = vec!['p'];
    assert(i_kind@ =~= seq!['i'] && s_kind@ =~= seq!['s'] && p_key@ =~= seq!['p']);
    if chars_equal(kind, &i_kind) {
        if index >= record.len() {
            return Err(TemplateError::FieldIndexOutOfRange);
        }
        let width: usize = match lookup_format_value(settings, &p_key) {
            Some(p) => p as usize,
            None => 0,
        };
        Ok(pad_left_exec(&chars_of(record[index].as_str()), '0', width))
    } else if chars_equal(kind, &s_kind) {
        if index >= record.len() {
            return Err(TemplateError::FieldIndexOutOfRange);
        }
        string_token_value_exec(&chars_of(record[index].as_str()), settings)
    } else {
        Ok(token.clone())
    }
}

/// The value that `token` (the text between `{{` and `}}`) stands for in
/// `record`: the token is read as a kind (`i` for a number, `s` for a string), a
/// field index and, after a `.`, a format; the field is formatted accordingly.
/// A token of another kind stands for itself. A token that does not read as
/// kind, index and format, an index too large for `usize`, or an `i` or `s`
/// token naming a field the record does not have is answered with an error, not
/// a panic; the program stops on it.
pub fn get_record_value_for_token(token: String, record: Vec<String>) -> (res: Result<
    String,
    TemplateError,
>)
    ensures
        string_result_is(res, token_value(token@, record.deep_view())),
{
    let captures = match captures_all(TOKEN_DECODE_PATTERN, token.as_str()) {
        Ok(c) => c,
        Err(_) => return Err(TemplateError::InvalidPattern),
    };
    if captures.len() == 0 {
        return Err(TemplateError::UndecodableToken);
    }
    let kind = match group_of(&captures[0], 1) {
        Some(k) => k,
        None => return Err(TemplateError::MissingCaptureGroup),
    };
    let digits = match group_of(&captures[0], 2) {
        Some(d) => d,
        None => return Err(TemplateError::MissingCaptureGroup),
    };
    let index = match parse_unsigned(&chars_of(digits.as_str()), usize::MAX) {
        Some(i) => i,
        None => return Err(TemplateError::BadTokenIndex),
    };
    let format = match group_of(&captures[0], 3) {
        Some(f) => f,
        None => return Err(TemplateError::MissingCaptureGroup),
    };
    let format_captures = match captures_all(TOKEN_DECODE_FORMAT_PATTERN, format.as_str()) {
        Ok(c) => c,
        Err(_) => return Err(TemplateError::InvalidPattern),
    };
    let settings = format_settings(&format_captures)?;
    let value = decoded_token_value_exec(&chars_of(token.as_str()), &chars_of(kind.as_str()), index, &settings, &record)?;
    Ok(string_of(value.as_slice()))
}

/// `template` with, for each token in order, every `{{token}}` replaced by the
/// value at the same position.
pub fn apply_token_values(template: &str, tokens: &Vec<String>, values: &Vec<String>) -> (res: String)
    requires
        tokens@.len() == values@.len(),
    ensures
        res@ == substituted(template@, tokens.deep_view(), values.deep_view()),
{
    let mut file_name = chars_of(template);
    let open = vec!['{', '{'];
    let close = vec!['}', '}'];
    let mut i: usize = 0;
    while i < tokens.len()
        invariant
            i <= tokens@.len() == values@.len(),
            open@ == seq!['{', '{'],
            close@ == seq!['}', '}'],
            file_name@ == substituted(
                template@,
                tokens.deep_view().take(i as int),
                values.deep_view().take(i as int),
            ),
        decreases tokens@.len() - i,
    {
        let marker = concat_exec(&concat_exec(&open, &chars_of(tokens[i].as_str())), &close);
        proof {
            assert(tokens.deep_view().take(i + 1).drop_last() =~= tokens.deep_view().take(i as int));
            assert(values.deep_view().take(i + 1).drop_last() =~= values.deep_view().take(i as int));
            assert(marker@ =~= token_marker(tokens.deep_view()[i as int]));
        }
        file_name = replace_exec(&file_name, &marker, &chars_of(values[i].as_str()));
        i = i + 1;
    }
    assert(tokens.deep_view().take(i as int) =~= tokens.deep_view());
    assert(values.deep_view().take(i as int) =~= values.deep_view());
    string_of(file_name.as_slice())
}

proof fn lemma_token_values_error_persists(tokens: Seq<Seq<char>>, k: int, record: Seq<Seq<char>>)
    requires
        0 <= k <= tokens.len(),
        token_values(tokens.take(k), record) is Err,
    ensures
        token_values(tokens, record) == token_values(tokens.take(k), record),
    decreases tokens.len(),
{
    if k == tokens.len() {
        assert(tokens.take(k) =~= tokens);
    } else {
        assert(tokens.drop_last().take(k) =~= tokens.take(k));
        lemma_token_values_error_persists(tokens.drop_last(), k, record);
    }
}

/// Fills in a file name template from a record of the guide: every token
/// `{{kind index . format}}` is replaced by the value it stands for in the record.
/// A token that has no value (see `get_record_value_for_token`) is answered with
/// an error, not a panic; the program stops on it.
pub fn replace_file_name_template_tokens(template: String, record: Vec<String>) -> (res: Result<
    String,
    TemplateError,
>)
    ensures
        string_result_is(res, template_output(template@, record.deep_view())),
{
    let captures = match captures_all(TOKEN_PATTERN, template.as_str()) {
        Ok(c) => c,
        Err(_) => return Err(TemplateError::InvalidPattern),
    };
    let tokens = template_tokens(&captures)?;
    let ghost token_seq = tokens.deep_view();
    let mut values: Vec<String> = Vec::new();
    let mut i: usize = 0;
    assert(token_seq.take(0) =~= Seq::<Seq<char>>::empty());
    assert(values.deep_view() =~= Seq::<Seq<char>>::empty());
    while i < tokens.len()
        invariant
            i <= tokens@.len(),
            values@.len() == i,
            token_seq == tokens.deep_view(),
            regex_captures(TOKEN_PATTERN@, template@) == Some(captures.deep_view()),
            tokens_of_captures(captures.deep_view()) == Ok::<Seq<Seq<char>>, TemplateError>(
                token_seq,
            ),
            token_values(token_seq.take(i as int), record.deep_view()) == Ok::<
                Seq<Seq<char>>,
                TemplateError,
            >(values.deep_view()),
        decreases tokens@.len() - i,
    {
        assert(token_seq.take(i + 1).drop_last() =~= token_seq.take(i as int));
        assert(token_seq.take(i + 1).last() == token_seq[i as int]);
        let record_copy = record.clone();
        let token = tokens[i].clone();
        assert(record_copy.deep_view() =~= record.deep_view());
        assert(token@ == token_seq[i as int]);
        let value = get_record_value_for_token(token, record_copy);
        match value {
            Ok(v) => {
                let ghost before = values.deep_view();
                values.push(v);
                assert(values.deep_view() =~= before.push(v@));
            },
            Err(e) => {
                proof {
                    assert(token_value(token_seq[i as int], record.deep_view()) == Err::<
                        Seq<char>,
                        TemplateError,
                    >(e));
                    assert(token_values(token_seq.take(i + 1), record.deep_view()) == Err::<
                        Seq<Seq<char>>,
                        TemplateError,
                    >(e));
                    lemma_token_values_error_persists(token_seq, (i + 1) as int, record.deep_view());
                }
                return Err(e);
            },
        }
        i = i + 1;
    }
    assert(token_seq.take(i as int) =~= token_seq);
    Ok(apply_token_values(template.as_str(), &tokens, &values))
}

} // verus!

verus! {

/// A truncated value is a beginning of the value, never longer than it.
pub proof fn lemma_truncated_value_is_prefix(s: Seq<char>, max_length: nat)
    ensures
        truncated_value(s, max_length).len() <= s.len(),
        truncated_value(s, max_length) == s.take(truncated_value(s, max_length).len() as int),
{
    let limit = max_length + count_char(s, ' ');
    if s.len() > limit {
        let cut = s.take(limit as int);
        lemma_last_index_of_in_bounds(cut, ' ');
        match last_index_of(cut, ' ') {
            Some(k) => {
                assert(cut.take(k) =~= s.take(k));
            },
            None => {},
        }
    } else {
        assert(s.take(s.len() as int) =~= s);
    }
}

/// A template in which the token pattern finds nothing comes out as it is.
pub proof fn lemma_template_without_tokens(template: Seq<char>, record: Seq<Seq<char>>)
    requires
        regex_captures(TOKEN_PATTERN@, template) == Some(Seq::<Seq<Option<Seq<char>>>>::empty()),
    ensures
        template_output(template, record) == Ok::<Seq<char>, TemplateError>(template),
{
    let captures = Seq::<Seq<Option<Seq<char>>>>::empty();
    assert(tokens_of_captures(captures) == Ok::<Seq<Seq<char>>, TemplateError>(
        Seq::<Seq<char>>::empty(),
    )) by {
        assert(Seq::new(0, |i: int| capture_group(captures[i], 1).unwrap()) =~= Seq::<
            Seq<char>,
        >::empty());
    }
}

} // verus!

verus! {

proof fn lemma_alphanumeric_run_stops(a: Seq<char>, t: Seq<char>)
    requires
        t.len() > 0,
        !alphanumeric(t[0]),
    ensures
        alphanumeric_run(a + t) == alphanumeric_run(a),
    decreases a.len(),
{
    if a.len() == 0 {
        assert(a + t =~= t);
    } else {
        assert((a + t)[0] == a[0]);
        if alphanumeric(a[0]) {
            assert((a + t).drop_first() =~= a.drop_first() + t);
            lemma_alphanumeric_run_stops(a.drop_first(), t);
        }
    }
}

/// A character that is not alphanumeric splits the PascalCase of a text: the
/// PascalCase of `a`, that character and `b` is that of `a` followed by that of `b`.
pub proof fn lemma_pascal_case_splits(a: Seq<char>, separator: char, b: Seq<char>)
    requires
        !alphanumeric(separator),
    ensures
        pascal_case(a + seq![separator] + b) == pascal_case(a) + pascal_case(b),
    decreases a.len(),
{
    let t = seq![separator] + b;
    assert(a + seq![separator] + b =~= a + t);
    if a.len() == 0 {
        assert(a + t =~= t);
        assert(t.drop_first() =~= b);
        assert(pascal_case(a) =~= Seq::<char>::empty());
        assert(Seq::<char>::empty() + pascal_case(b) =~= pascal_case(b));
    } else {
        let s = a + t;
        assert(s[0] == a[0]);
        if !alphanumeric(a[0]) {
            assert(s.drop_first() =~= a.drop_first() + seq![separator] + b);
            lemma_pascal_case_splits(a.drop_first(), separator, b);
        } else {
            lemma_alphanumeric_run_stops(a, t);
            lemma_alphanumeric_run_bounds(a);
            let n = alphanumeric_run(a);
            assert(s.take(n as int) =~= a.take(n as int));
            assert(s.skip(n as int) =~= a.skip(n as int) + seq![separator] + b);
            lemma_pascal_case_splits(a.skip(n as int), separator, b);
            assert(capitalized(a.take(n as int)) + (pascal_case(a.skip(n as int)) + pascal_case(
                b,
            )) =~= capitalized(a.take(n as int)) + pascal_case(a.skip(n as int)) + pascal_case(b));
        }
    }
}

} // verus!

verus! {

/// A single word (alphanumeric characters only, at least one) comes out of
/// PascalCase with its first character upper-cased and the rest lower-cased;
/// a one-character word is upper-cased like any other.
pub proof fn lemma_pascal_case_of_word(word: Seq<char>)
    requires
        word.len() >= 1,
        forall|i: int| 0 <= i < word.len() ==> alphanumeric(#[trigger] word[i]),
    ensures
        pascal_case(word) == uppercase(word[0]) + lowercase(word.drop_first()),
        word.len() == 1 ==> pascal_case(word) == uppercase(word[0]) + lowercase(Seq::empty()),
{
    lemma_alphanumeric_run_exact(word, 0, word.len() as int);
    assert(word.skip(0) =~= word);
    assert(word.take(word.len() as int) =~= word);
    assert(word.skip(word.len() as int) =~= Seq::<char>::empty());
    assert(pascal_case(Seq::<char>::empty()) =~= Seq::<char>::empty());
    assert(capitalized(word) + Seq::<char>::empty() =~= capitalized(word));
    if word.len() == 1 {
        assert(word.drop_first() =~= Seq::<char>::empty());
    }
}

/// The `l` cut never goes past its limit (the length plus one per space of the
/// value). Where the value is longer than that, the result is the part before
/// the last space within the limit, or the whole limit where there is no such
/// space; a value within the limit is kept whole.
pub proof fn lemma_truncated_value_within_limit(s: Seq<char>, max_length: nat)
    ensures
        ({
            let limit = max_length + count_char(s, ' ');
            let r = truncated_value(s, max_length);
            &&& r.len() <= s.len()
            &&& r == s.take(r.len() as int)
            &&& s.len() <= limit ==> r == s
            &&& s.len() > limit ==> {
                &&& r.len() <= limit
                &&& (exists|k: int| 0 <= k < limit && s[k] == ' ') ==> r.len() < limit && s[r.len()
                    as int] == ' ' && forall|j: int| r.len() < j < limit ==> s[j] != ' '
                &&& (forall|k: int| 0 <= k < limit ==> s[k] != ' ') ==> r.len() == limit
            }
        }),
{
    let limit = max_length + count_char(s, ' ');
    lemma_truncated_value_is_prefix(s, max_length);
    if s.len() > limit {
        let cut = s.take(limit as int);
        lemma_last_index_of_facts(cut, ' ');
        match last_index_of(cut, ' ') {
            Some(k) => {
                assert(cut[k] == s[k]);
                assert forall|j: int| k < j < limit implies s[j] != ' ' by {
                    assert(cut[j] == s[j]);
                }
            },
            None => {
                assert forall|j: int| 0 <= j < limit implies s[j] != ' ' by {
                    assert(cut[j] == s[j]);
                }
            },
        }
    }
}

proof fn lemma_last_index_of_facts(s: Seq<char>, c: char)
    ensures
        last_index_of(s, c) matches Some(k) ==> 0 <= k < s.len() && s[k] == c && forall|j: int|
            k < j < s.len() ==> s[j] != c,
        last_index_of(s, c) is None ==> forall|j: int| 0 <= j < s.len() ==> s[j] != c,
    decreases s.len(),
{
    if s.len() > 0 && s.last() != c {
        let t = s.drop_last();
        lemma_last_index_of_facts(t, c);
        assert forall|j: int| 0 <= j < t.len() implies t[j] == s[j] by {}
    }
}

/// With `l` and `t` set (and no `c`), the value is first cut to length and the
/// cut text is what turns into the title: the result is the PascalCase of the
/// truncated value without the title pattern's characters.
pub proof fn lemma_length_applies_before_title(value: Seq<char>, settings: Seq<(Seq<char>, u8)>)
    requires
        format_value(settings, seq!['c']) is None,
        format_value(settings, seq!['l']) is Some,
        format_value(settings, seq!['t']) is Some,
    ensures
        string_token_value(value, settings) == match regex_replaced(
            TOKEN_DECODE_FORMAT_TITLE_PATTERN@,
            pascal_case(truncated_value(value, format_value(settings, seq!['l'])->Some_0 as nat)),
            Seq::empty(),
        ) {
            Some(title) => Ok::<Seq<char>, TemplateError>(title),
            None => Err(TemplateError::InvalidPattern),
        },
        string_token_value(value, seq![(seq!['l'], format_value(settings, seq!['l'])->Some_0)])
            == Ok::<Seq<char>, TemplateError>(
            truncated_value(value, format_value(settings, seq!['l'])->Some_0 as nat),
        ),
{
    let l = format_value(settings, seq!['l'])->Some_0;
    let only_l = seq![(seq!['l'], l)];
    assert(only_l.drop_last() =~= Seq::<(Seq<char>, u8)>::empty());
    assert(format_value(only_l, seq!['l']) == Some(l));
    assert(seq!['l'] != seq!['c']) by {
        assert(seq!['l'][0] != seq!['c'][0]);
    }
    assert(seq!['l'] != seq!['t']) by {
        assert(seq!['l'][0] != seq!['t'][0]);
    }
    assert(only_l.last() == (seq!['l'], l));
    assert(format_value(Seq::<(Seq<char>, u8)>::empty(), seq!['c']) is None);
    assert(format_value(Seq::<(Seq<char>, u8)>::empty(), seq!['t']) is None);
    assert(format_value(only_l, seq!['c']) is None);
    assert(format_value(only_l, seq!['t']) is None);
}

} // verus!
