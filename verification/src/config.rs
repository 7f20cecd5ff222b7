//! Configuration: options as `name = value` lines, a user's list over a
//! list of defaults, and the settings they give.

use vstd::prelude::*;
use vstd::string::*;
use crate::pattern::char_views;
use crate::policy::{policy_named, Policy};
use crate::text::{
    chars_of, parse_i64, parsed_i64, render_i64, rendered_i64, replace_text, replaced, same_text,
    split_by, split_chars, split_on, split_text, string_of, trim_text, trimmed,
};

verus! {

/// The options that are set where the user sets none.
pub const DEFAULT_CONFIG: &'static str =
    "theme = dark\nmax_results = 9\nabs_paths = true\ncompact_paths = true\ndatabase_path = $HOME/.local/share/contemporary-z/directories.dir\nsubstring = score\nshow_files = none\nnav_start_number = 1\n";

/// The value of an option: a text, a number or a flag.
pub enum Value<'a> {
    String(&'a str),
    I64(i64),
    Bool(bool),
}

/// The value of an option, as plain values.
pub enum ValueView {
    String(Seq<char>),
    I64(int),
    Bool(bool),
}

impl<'a> View for Value<'a> {
    type V = ValueView;

    open spec fn view(&self) -> ValueView {
        match self {
            Value::String(text) => ValueView::String(text@),
            Value::I64(number) => ValueView::I64(*number as int),
            Value::Bool(flag) => ValueView::Bool(*flag),
        }
    }
}

/// The text of a value: the text itself, the number in decimal, or `true`
/// or `false`.
pub open spec fn value_text(value: Value) -> Seq<char> {
    match value {
        Value::String(text) => text@,
        Value::I64(number) => rendered_i64(number),
        Value::Bool(flag) => if flag {
            "true"@
        } else {
            "false"@
        },
    }
}

impl<'a> Clone for Value<'a> {
    fn clone(&self) -> (copy: Value<'a>)
        ensures
            copy == *self,
    {
        match self {
            Value::String(text) => Value::String(text),
            Value::I64(number) => Value::I64(*number),
            Value::Bool(flag) => Value::Bool(*flag),
        }
    }
}

impl<'a> Value<'a> {
    /// The value as text.
    pub fn to_string(&self) -> (text: String)
        ensures
            text@ == value_text(*self),
    {
        match self {
            Value::String(text) => String::from_str(text),
            Value::I64(number) => render_i64(*number),
            Value::Bool(flag) => {
                if *flag {
                    String::from_str("true")
                } else {
                    String::from_str("false")
                }
            },
        }
    }

    /// The flag that the value is.
    pub fn to_bool(&self) -> (flag: bool)
        requires
            self@ is Bool,
        ensures
            self@ == ValueView::Bool(flag),
    {
        match self {
            Value::Bool(flag) => *flag,
            _ => vstd::pervasive::unreached(),
        }
    }

    /// The number that the value is.
    pub fn to_i64(&self) -> (number: i64)
        requires
            self@ is I64,
        ensures
            self@ == ValueView::I64(number as int),
    {
        match self {
            Value::I64(number) => *number,
            _ => vstd::pervasive::unreached(),
        }
    }

    /// The flag that the value is, if it is one.
    pub fn as_bool(&self) -> (flag: Option<bool>)
        ensures
            match flag {
                Some(b) => self@ == ValueView::Bool(b),
                None => !(self@ is Bool),
            },
    {
        match self {
            Value::Bool(_) => Some(self.to_bool()),
            _ => None,
        }
    }

    /// The number that the value is, if it is one.
    pub fn as_i64(&self) -> (number: Option<i64>)
        ensures
            match number {
                Some(n) => self@ == ValueView::I64(n as int),
                None => !(self@ is I64),
            },
    {
        match self {
            Value::I64(_) => Some(self.to_i64()),
            _ => None,
        }
    }
}

/// The option takes a number.
pub open spec fn is_number_option(option: Seq<char>) -> bool {
    option == "max_results"@ || option == "nav_start_number"@
}

/// The option takes a flag.
pub open spec fn is_flag_option(option: Seq<char>) -> bool {
    option == "abs_paths"@ || option == "compact_paths"@
}

/// The flag that `text` denotes: `true` or `false`, written so.
pub open spec fn parsed_bool(text: Seq<char>) -> Option<bool> {
    if text == "true"@ {
        Some(true)
    } else if text == "false"@ {
        Some(false)
    } else {
        None
    }
}

/// The value that the text `value` gives to `option`; `None` where the
/// option takes a number or a flag and the text denotes none.
pub open spec fn option_value_of(option: Seq<char>, value: Seq<char>) -> Option<ValueView> {
    if is_number_option(option) {
        match parsed_i64(value) {
            Some(number) => Some(ValueView::I64(number as int)),
            None => None,
        }
    } else if is_flag_option(option) {
        match parsed_bool(value) {
            Some(flag) => Some(ValueView::Bool(flag)),
            None => None,
        }
    } else {
        Some(ValueView::String(value))
    }
}

/// What a value that may be absent holds, as plain values.
pub open spec fn value_view(value: Option<Value>) -> Option<ValueView> {
    match value {
        Some(v) => Some(v@),
        None => None,
    }
}

/// The flag that `text` denotes.
pub fn parse_bool(text: &str) -> (flag: Option<bool>)
    ensures
        flag == parsed_bool(text@),
{
    if same_text(text, "true") {
        Some(true)
    } else if same_text(text, "false") {
        Some(false)
    } else {
        None
    }
}

/// Whether the option takes a number.
pub fn takes_number(option: &str) -> (yes: bool)
    ensures
        yes == is_number_option(option@),
{
    same_text(option, "max_results") || same_text(option, "nav_start_number")
}

/// Whether the option takes a flag.
pub fn takes_flag(option: &str) -> (yes: bool)
    ensures
        yes == is_flag_option(option@),
{
    same_text(option, "abs_paths") || same_text(option, "compact_paths")
}

/// The value of an option that is given with its text: a number for the
/// options that take one, a flag for those that take one, else the text.
pub fn parse_option_string<'a>(option_value: &Option<&'a (String, String)>) -> (value: Value<'a>)
    requires
        option_value matches Some(pair) && option_value_of(pair.0@, pair.1@) is Some,
    ensures
        option_value matches Some(pair) && option_value_of(pair.0@, pair.1@) == Some(value@),
{
    match option_value {
        Some(x) => {
            let option = x.0.as_str();
            let value = x.1.as_str();
            if takes_number(option) {
                match parse_i64(value) {
                    Some(number) => Value::I64(number),
                    None => vstd::pervasive::unreached(),
                }
            } else if takes_flag(option) {
                match parse_bool(value) {
                    Some(flag) => Value::Bool(flag),
                    None => vstd::pervasive::unreached(),
                }
            } else {
                Value::String(value)
            }
        },
        None => vstd::pervasive::unreached(),
    }
}

/// The value of an option that may be missing: `None` where it is missing,
/// or takes a number or a flag and its text denotes none.
pub fn try_parse_option_string<'a>(option_value: &Option<&'a (String, String)>) -> (value: Option<
    Value<'a>,
>)
    ensures
        value_view(value) == match option_value {
            Some(pair) => option_value_of(pair.0@, pair.1@),
            None => None,
        },
{
    match option_value {
        Some(x) => {
            let option = x.0.as_str();
            let value = x.1.as_str();
            let sound: bool = if takes_number(option) {
                parse_i64(value).is_some()
            } else if takes_flag(option) {
                parse_bool(value).is_some()
            } else {
                true
            };
            if sound {
                Some(parse_option_string(option_value))
            } else {
                None
            }
        },
        None => None,
    }
}

/// The names and texts of the options of a list, as plain values.
pub open spec fn pair_views(pairs: Seq<(String, String)>) -> Seq<(Seq<char>, Seq<char>)> {
    Seq::new(pairs.len(), |i: int| (pairs[i].0@, pairs[i].1@))
}

/// `at` is the first place of `pairs` that sets `option`.
pub open spec fn is_first_setting(
    pairs: Seq<(Seq<char>, Seq<char>)>,
    option: Seq<char>,
    at: int,
) -> bool {
    &&& 0 <= at < pairs.len()
    &&& pairs[at].0 == option
    &&& forall|k: int| 0 <= k < at ==> (#[trigger] pairs[k]).0 != option
}

/// No place of `pairs` sets `option`.
pub open spec fn sets_nowhere(pairs: Seq<(Seq<char>, Seq<char>)>, option: Seq<char>) -> bool {
    forall|k: int| 0 <= k < pairs.len() ==> (#[trigger] pairs[k]).0 != option
}

/// The first place of `pairs` that sets `option`, if one does.
pub open spec fn first_setting(pairs: Seq<(Seq<char>, Seq<char>)>, option: Seq<char>) -> Option<int> {
    if exists|at: int| #[trigger] is_first_setting(pairs, option, at) {
        Some(choose|at: int| #[trigger] is_first_setting(pairs, option, at))
    } else {
        None
    }
}

/// The text that `pairs` gives to `option`: that of the first place that
/// sets it.
pub open spec fn setting_text(pairs: Seq<(Seq<char>, Seq<char>)>, option: Seq<char>) -> Option<
    Seq<char>,
> {
    match first_setting(pairs, option) {
        Some(at) => Some(pairs[at].1),
        None => None,
    }
}

/// The text that the user's list, or else the list of defaults, gives to
/// `option`.
pub open spec fn option_text(
    user: Seq<(Seq<char>, Seq<char>)>,
    defaults: Seq<(Seq<char>, Seq<char>)>,
    option: Seq<char>,
) -> Option<Seq<char>> {
    match setting_text(user, option) {
        Some(text) => Some(text),
        None => setting_text(defaults, option),
    }
}

/// The value that the user's list, or else the list of defaults, gives to
/// `option`; `None` where neither sets it, or where the option takes a
/// number or a flag and the text denotes none.
pub open spec fn option_value(
    user: Seq<(Seq<char>, Seq<char>)>,
    defaults: Seq<(Seq<char>, Seq<char>)>,
    option: Seq<char>,
) -> Option<ValueView> {
    match option_text(user, defaults, option) {
        Some(text) => option_value_of(option, text),
        None => None,
    }
}

/// The first setting of an option is the only place with its properties.
pub proof fn lemma_first_setting(pairs: Seq<(Seq<char>, Seq<char>)>, option: Seq<char>, at: int)
    requires
        is_first_setting(pairs, option, at),
    ensures
        first_setting(pairs, option) == Some(at),
{
    let other = choose|other: int| #[trigger] is_first_setting(pairs, option, other);
    if other < at {
        assert(pairs[other].0 != option);
    } else if at < other {
        assert(pairs[at].0 != option);
    }
}

/// An option that no place sets has no first setting.
pub proof fn lemma_no_setting(pairs: Seq<(Seq<char>, Seq<char>)>, option: Seq<char>)
    requires
        sets_nowhere(pairs, option),
    ensures
        first_setting(pairs, option) is None,
{
    if exists|at: int| #[trigger] is_first_setting(pairs, option, at) {
        let at = choose|at: int| #[trigger] is_first_setting(pairs, option, at);
        assert(pairs[at].0 != option);
    }
}

/// The first place of `pairs` that sets `option`.
pub fn find_option(pairs: &Vec<(String, String)>, option: &str) -> (place: Option<usize>)
    ensures
        match place {
            Some(at) => first_setting(pair_views(pairs@), option@) == Some(at as int),
            None => first_setting(pair_views(pairs@), option@) is None,
        },
        place matches Some(at) ==> at < pairs.len(),
{
    let wanted: String = option.to_owned();
    let mut i: usize = 0;
    while i < pairs.len()
        invariant
            i <= pairs.len(),
            wanted@ == option@,
            forall|k: int| 0 <= k < i ==> (#[trigger] pair_views(pairs@)[k]).0 != option@,
        decreases pairs.len() - i,
    {
        if pairs[i].0 == wanted {
            proof {
                assert(pair_views(pairs@)[i as int].0 == option@);
                lemma_first_setting(pair_views(pairs@), option@, i as int);
            }
            return Some(i);
        }
        i += 1;
    }
    proof {
        lemma_no_setting(pair_views(pairs@), option@);
    }
    None
}

/// The value that the user's list, or else the list of defaults, gives to
/// `option`; `None` where neither sets it, or where the option takes a
/// number or a flag and the text denotes none.
pub fn try_get_option<'a>(
    user_value: &'a Vec<(String, String)>,
    default_value: &'a Vec<(String, String)>,
    option: &str,
) -> (value: Option<Value<'a>>)
    ensures
        value_view(value) == option_value(pair_views(user_value@), pair_views(default_value@), option@),
{
    let chosen: Option<&'a (String, String)> = match find_option(user_value, option) {
        Some(at) => {
            assert(pair_views(user_value@)[at as int] == (user_value@[at as int].0@, user_value@[at as int].1@));
            Some(&user_value[at])
        },
        None => match find_option(default_value, option) {
            Some(at) => {
                assert(pair_views(default_value@)[at as int] == (
                    default_value@[at as int].0@,
                    default_value@[at as int].1@,
                ));
                Some(&default_value[at])
            },
            None => None,
        },
    };
    proof {
        match chosen {
            Some(pair) => {
                // the chosen place sets the option that was asked for
                assert(pair.0@ == option@) by {
                    match first_setting(pair_views(user_value@), option@) {
                        Some(at) => {
                            assert(is_first_setting(pair_views(user_value@), option@, at));
                        },
                        None => {
                            let at = first_setting(pair_views(default_value@), option@).unwrap();
                            assert(is_first_setting(pair_views(default_value@), option@, at));
                        },
                    }
                }
            },
            None => {},
        }
    }
    try_parse_option_string(&chosen)
}

/// What one line of a configuration holds: nothing where it is blank, an
/// option and its text where ` = ` stands between them, and no sense
/// (`None`) otherwise. The text ends where ` = ` stands again.
pub open spec fn config_line(line: Seq<char>) -> Option<Option<(Seq<char>, Seq<char>)>> {
    let inner = trimmed(line);
    if inner.len() == 0 {
        Some(None)
    } else {
        let pieces = split_by(inner, " = "@);
        if pieces.len() >= 2 {
            Some(Some((pieces[0], pieces[1])))
        } else {
            None
        }
    }
}

/// The options that the lines hold, in order; `None` where some line makes
/// no sense.
pub open spec fn config_pairs_of(lines: Seq<Seq<char>>) -> Option<Seq<(Seq<char>, Seq<char>)>>
    decreases lines.len(),
{
    if lines.len() == 0 {
        Some(Seq::empty())
    } else {
        match config_pairs_of(lines.drop_last()) {
            Some(head) => match config_line(lines.last()) {
                Some(Some(pair)) => Some(head.push(pair)),
                Some(None) => Some(head),
                None => None,
            },
            None => None,
        }
    }
}

/// The options that a configuration holds, in order; `None` where some
/// line of it makes no sense.
pub open spec fn config_pairs(text: Seq<char>) -> Option<Seq<(Seq<char>, Seq<char>)>> {
    config_pairs_of(split_on(text, '\n'))
}

/// The options that a configuration holds, in order.
fn scan_config(text: &str) -> (pairs: Option<Vec<(String, String)>>)
    ensures
        match pairs {
            Some(list) => config_pairs(text@) == Some(pair_views(list@)),
            None => config_pairs(text@) is None,
        },
{
    proof {
        reveal_strlit(" = ");
    }
    let separator = chars_of(" = ");
    let lines = split_chars(&chars_of(text), '\n');
    let ghost all = split_on(text@, '\n');
    let mut pairs: Vec<(String, String)> = Vec::new();
    let mut i: usize = 0;
    assert(all.take(0) =~= Seq::<Seq<char>>::empty());
    assert(pair_views(pairs@) =~= Seq::<(Seq<char>, Seq<char>)>::empty());
    while i < lines.len()
        invariant
            i <= lines.len(),
            all == split_on(text@, '\n'),
            char_views(lines@) == all,
            separator@ == " = "@,
            separator@.len() > 0,
            config_pairs_of(all.take(i as int)) == Some(pair_views(pairs@)),
        decreases lines.len() - i,
    {
        proof {
            assert(all.take(i + 1).drop_last() =~= all.take(i as int));
            assert(all.take(i + 1).last() == all[i as int]);
            assert(char_views(lines@)[i as int] == lines@[i as int]@);
        }
        let line = string_of(&lines[i]);
        let inner = chars_of(trim_text(line.as_str()).as_str());
        if inner.len() > 0 {
            let pieces = split_text(&inner, &separator);
            proof {
                assert(char_views(pieces@)[0] == pieces@[0]@);
            }
            if pieces.len() < 2 {
                proof {
                    assert(config_line(all[i as int]) is None);
                    lemma_config_pairs_fail(all, i as int);
                    assert(all.take(all.len() as int) =~= all);
                }
                return None;
            }
            proof {
                assert(char_views(pieces@)[1] == pieces@[1]@);
            }
            let ghost prior = pairs@;
            let option = string_of(&pieces[0]);
            let value = string_of(&pieces[1]);
            pairs.push((option, value));
            assert(pair_views(pairs@) =~= pair_views(prior).push((pieces@[0]@, pieces@[1]@)));
        }
        i += 1;
    }
    assert(all.take(all.len() as int) =~= all);
    Some(pairs)
}

/// Once a line makes no sense, no longer list of lines does.
proof fn lemma_config_pairs_fail(lines: Seq<Seq<char>>, at: int)
    requires
        0 <= at < lines.len(),
        config_line(lines[at]) is None,
    ensures
        config_pairs_of(lines) is None,
    decreases lines.len(),
{
    if at < lines.len() - 1 {
        lemma_config_pairs_fail(lines.drop_last(), at);
    }
}

/// The options that a configuration holds, in order.
pub fn parse_config(config_string: String) -> (pairs: Vec<(String, String)>)
    requires
        config_pairs(config_string@) is Some,
    ensures
        config_pairs(config_string@) == Some(pair_views(pairs@)),
{
    match scan_config(config_string.as_str()) {
        Some(pairs) => pairs,
        None => vstd::pervasive::unreached(),
    }
}

/// The options that a configuration holds, in order; `None` where some
/// line of it is neither blank nor an option, ` = ` and a text.
pub fn try_parse_config(config_string: &str) -> (pairs: Option<Vec<(String, String)>>)
    ensures
        match pairs {
            Some(list) => config_pairs(config_string@) == Some(pair_views(list@)),
            None => config_pairs(config_string@) is None,
        },
{
    if scan_config(config_string).is_some() {
        Some(parse_config(config_string.to_owned()))
    } else {
        None
    }
}

/// `path` with the home directory in place of `$HOME`.
pub fn expand_home(path: &str, home: &str) -> (expanded: String)
    ensures
        expanded@ == replaced(path@, "$HOME"@, home@),
{
    replace_text(path, "$HOME", home)
}

/// What the program is configured to do.
pub struct Settings {
    /// Colour theme: `dark` or `bright`.
    pub theme: String,
    /// Whether directories are recorded by their full paths.
    pub abs_paths: bool,
    /// Whether the home and media directories are abbreviated in lists.
    pub compact_paths: bool,
    /// How many records a page of a list shows.
    pub max_results: usize,
    /// Where the records are stored.
    pub database_path: String,
    /// How one of several matches is chosen.
    pub substring: Policy,
    /// Whether lists show files too, and where: `top`, `bottom` or `none`.
    pub show_files: String,
    /// The number of the first item of a navigation list.
    pub nav_start_number: usize,
}

/// What the program is configured to do, as plain values.
pub struct SettingsView {
    pub theme: Seq<char>,
    pub abs_paths: bool,
    pub compact_paths: bool,
    pub max_results: int,
    pub database_path: Seq<char>,
    pub substring: Policy,
    pub show_files: Seq<char>,
    pub nav_start_number: int,
}

impl View for Settings {
    type V = SettingsView;

    open spec fn view(&self) -> SettingsView {
        SettingsView {
            theme: self.theme@,
            abs_paths: self.abs_paths,
            compact_paths: self.compact_paths,
            max_results: self.max_results as int,
            database_path: self.database_path@,
            substring: self.substring,
            show_files: self.show_files@,
            nav_start_number: self.nav_start_number as int,
        }
    }
}

/// The settings that eight values give, in the order of the fields; `None`
/// where a count is negative or does not fit.
pub open spec fn settings_of(
    theme: Seq<char>,
    abs_paths: bool,
    compact_paths: bool,
    max_results: int,
    database_path: Seq<char>,
    substring: Seq<char>,
    show_files: Seq<char>,
    nav_start_number: int,
) -> Option<SettingsView> {
    if 0 <= max_results <= usize::MAX && 0 <= nav_start_number <= usize::MAX {
        Some(
            SettingsView {
                theme,
                abs_paths,
                compact_paths,
                max_results,
                database_path,
                substring: policy_named(substring),
                show_files,
                nav_start_number,
            },
        )
    } else {
        None
    }
}

/// What settings that may be absent hold, as plain values.
pub open spec fn settings_view(settings: Option<Settings>) -> Option<SettingsView> {
    match settings {
        Some(s) => Some(s@),
        None => None,
    }
}

/// The settings that eight values give; `None` where a count is negative
/// or does not fit.
pub fn build_settings(
    theme: String,
    abs_paths: bool,
    compact_paths: bool,
    max_results: i64,
    database_path: String,
    substring: String,
    show_files: String,
    nav_start_number: i64,
) -> (settings: Option<Settings>)
    ensures
        settings_view(settings) == settings_of(
            theme@,
            abs_paths,
            compact_paths,
            max_results as int,
            database_path@,
            substring@,
            show_files@,
            nav_start_number as int,
        ),
{
    if max_results < 0 || nav_start_number < 0 || max_results as u64 > usize::MAX as u64
        || nav_start_number as u64 > usize::MAX as u64 {
        return None;
    }
    Some(
        Settings {
            theme,
            abs_paths,
            compact_paths,
            max_results: max_results as usize,
            database_path,
            substring: Policy::from_name(substring.as_str()),
            show_files,
            nav_start_number: nav_start_number as usize,
        },
    )
}

/// The settings that the user's options give over the defaults; `None`
/// where an option is set by neither, or has a value of the wrong kind, or
/// a count is negative or does not fit.
pub open spec fn configured(
    user: Seq<(Seq<char>, Seq<char>)>,
    defaults: Seq<(Seq<char>, Seq<char>)>,
) -> Option<SettingsView> {
    match (
        option_value(user, defaults, "theme"@),
        option_value(user, defaults, "abs_paths"@),
        option_value(user, defaults, "compact_paths"@),
        option_value(user, defaults, "max_results"@),
        option_value(user, defaults, "database_path"@),
        option_value(user, defaults, "substring"@),
        option_value(user, defaults, "show_files"@),
        option_value(user, defaults, "nav_start_number"@),
    ) {
        (
            Some(ValueView::String(theme)),
            Some(ValueView::Bool(abs_paths)),
            Some(ValueView::Bool(compact_paths)),
            Some(ValueView::I64(max_results)),
            Some(ValueView::String(database_path)),
            Some(ValueView::String(substring)),
            Some(ValueView::String(show_files)),
            Some(ValueView::I64(nav_start_number)),
        ) => settings_of(
            theme,
            abs_paths,
            compact_paths,
            max_results,
            database_path,
            substring,
            show_files,
            nav_start_number,
        ),
        _ => None,
    }
}

impl Settings {
    /// The settings that the user's options give over the defaults.
    pub fn from_options(user: &Vec<(String, String)>, defaults: &Vec<(String, String)>) -> (settings:
        Option<Settings>)
        ensures
            settings_view(settings) == configured(pair_views(user@), pair_views(defaults@)),
    {
        let theme: String = match try_get_option(user, defaults, "theme") {
            Some(Value::String(text)) => String::from_str(text),
            _ => {
                return None;
            },
        };
        let abs_paths: bool = match try_get_option(user, defaults, "abs_paths") {
            Some(Value::Bool(flag)) => flag,
            _ => {
                return None;
            },
        };
        let compact_paths: bool = match try_get_option(user, defaults, "compact_paths") {
            Some(Value::Bool(flag)) => flag,
            _ => {
                return None;
            },
        };
        let max_results: i64 = match try_get_option(user, defaults, "max_results") {
            Some(Value::I64(number)) => number,
            _ => {
                return None;
            },
        };
        let database_path: String = match try_get_option(user, defaults, "database_path") {
            Some(Value::String(text)) => String::from_str(text),
            _ => {
                return None;
            },
        };
        let substring: String = match try_get_option(user, defaults, "substring") {
            Some(Value::String(text)) => String::from_str(text),
            _ => {
                return None;
            },
        };
        let show_files: String = match try_get_option(user, defaults, "show_files") {
            Some(Value::String(text)) => String::from_str(text),
            _ => {
                return None;
            },
        };
        let nav_start_number: i64 = match try_get_option(user, defaults, "nav_start_number") {
            Some(Value::I64(number)) => number,
            _ => {
                return None;
            },
        };
        build_settings(
            theme,
            abs_paths,
            compact_paths,
            max_results,
            database_path,
            substring,
            show_files,
            nav_start_number,
        )
    }
}

} // verus!
