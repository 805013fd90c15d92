//! The configuration text: one `key = value` per line.
//!
//! The caller reads and writes the file; this module parses its text, says
//! what a missing file is replaced with, and rewrites an option.

use crate::text::{
    chars_of, find_char, first_index, is_whitespace, lemma_first_index_bounds,
    lemma_first_index_is, lemma_lines_first, lemma_lines_single,
    lemma_trim_ignores_last_whitespace, lines, no_newline, same_text, split_lines, string_views,
    strip_cr, substring, trim, trim_end, trim_range, trim_start,
};
use vstd::prelude::*;

verus! {

/// The options that the launcher reads.
#[derive(Clone, Copy, Debug, PartialEq, Eq, Structural)]
pub enum ConfigOption {
    /// The path of the engine executable.
    EnginePath,
    /// The path of the base game data.
    IwadPath,
    /// The directory of the mods.
    ModDirectory,
}

/// The key under which `option` stands in the configuration text.
pub open spec fn option_key(option: ConfigOption) -> Seq<char> {
    match option {
        ConfigOption::EnginePath => "gzDoom_Path"@,
        ConfigOption::IwadPath => "wad_Path"@,
        ConfigOption::ModDirectory => "mods_Directory"@,
    }
}

/// The text of a configuration in which every option is unset. A missing
/// configuration file is created with it.
pub open spec fn default_config() -> Seq<char> {
    "gzDoom_Path = empty\nwad_Path = empty\nmods_Directory = empty"@
}

/// Whether `value` stands for "no path configured": the word `empty`, or
/// nothing at all.
pub open spec fn is_unset(value: Seq<char>) -> bool {
    value == "empty"@ || value.len() == 0
}

/// The key and the value of a line: what stands before and behind its first
/// `=`, each without the white space around it. A line without `=` has none.
pub open spec fn parse_line(line: Seq<char>) -> Option<(Seq<char>, Seq<char>)> {
    let k = first_index(line, '=');
    if 0 <= k < line.len() {
        Some((trim(line.take(k)), trim(line.skip(k + 1))))
    } else {
        None
    }
}

/// The keys and values of the lines `ls` that have them, in order.
pub open spec fn parse_lines(ls: Seq<Seq<char>>) -> Seq<(Seq<char>, Seq<char>)>
    decreases ls.len(),
{
    if ls.len() == 0 {
        Seq::empty()
    } else {
        match parse_line(ls.last()) {
            Some(pair) => parse_lines(ls.drop_last()).push(pair),
            None => parse_lines(ls.drop_last()),
        }
    }
}

/// The value that `pairs` gives to `key`: that of the last pair with this key.
pub open spec fn lookup(pairs: Seq<(Seq<char>, Seq<char>)>, key: Seq<char>) -> Option<Seq<char>>
    decreases pairs.len(),
{
    if pairs.len() == 0 {
        None
    } else if pairs.last().0 == key {
        Some(pairs.last().1)
    } else {
        lookup(pairs.drop_last(), key)
    }
}

/// Whether `line` gives a value to `key`: it holds a `=`, and what stands
/// before the first one is the key, but for white space around it.
pub open spec fn sets_key(line: Seq<char>, key: Seq<char>) -> bool {
    parse_line(line) matches Some(pair) && pair.0 == key
}

/// A line as it stands in the text, a carriage return before its line feed
/// being part of it, after `key` was given `value`: a line that gives the key a
/// value becomes `key = value`, and keeps its carriage return if it had one;
/// any other line stays as it is, be it the line of another key, of a key that
/// only begins with this one, or a line without `=`.
pub open spec fn rewrite_line(raw: Seq<char>, key: Seq<char>, value: Seq<char>) -> Seq<char> {
    if sets_key(strip_cr(raw), key) {
        if raw.len() > 0 && raw.last() == '\r' {
            key + " = "@ + value + seq!['\r']
        } else {
            key + " = "@ + value
        }
    } else {
        raw
    }
}

/// The configuration text `content` after `key` was given `value`: each line
/// is rewritten by [`rewrite_line`], and every line feed stays where it is. So
/// nothing changes but the lines that give the key a value.
pub open spec fn rewrite(content: Seq<char>, key: Seq<char>, value: Seq<char>) -> Seq<char>
    decreases content.len(),
{
    let k = first_index(content, '\n');
    if content.len() == 0 {
        Seq::empty()
    } else if 0 <= k < content.len() {
        rewrite_line(content.take(k), key, value) + seq!['\n'] + rewrite(
            content.skip(k + 1),
            key,
            value,
        )
    } else {
        rewrite_line(content, key, value)
    }
}

/// The settings `pairs` with `value` for each setting of `key`: no setting is
/// added or removed, and the settings of other keys are as they were.
pub open spec fn with_value(
    pairs: Seq<(Seq<char>, Seq<char>)>,
    key: Seq<char>,
    value: Seq<char>,
) -> Seq<(Seq<char>, Seq<char>)> {
    Seq::new(
        pairs.len(),
        |i: int|
            if pairs[i].0 == key {
                (key, value)
            } else {
                pairs[i]
            },
    )
}

/// Whether `key` can stand as the key of a line: it is not empty, neither
/// begins nor ends in white space, and holds no `=` and no line feed.
pub open spec fn is_key(key: Seq<char>) -> bool {
    &&& key.len() > 0
    &&& !is_whitespace(key[0])
    &&& !is_whitespace(key.last())
    &&& forall|j: int| 0 <= j < key.len() ==> key[j] != '=' && key[j] != '\n'
}

/// The settings of one line: its key and value, if it has them.
pub open spec fn line_settings(line: Seq<char>) -> Seq<(Seq<char>, Seq<char>)> {
    match parse_line(line) {
        Some(pair) => seq![pair],
        None => Seq::empty(),
    }
}

/// The key of each option can stand as the key of a line.
pub proof fn lemma_option_keys(option: ConfigOption)
    ensures
        is_key(option_key(option)),
{
    reveal_strlit("gzDoom_Path");
    reveal_strlit("wad_Path");
    reveal_strlit("mods_Directory");
    let key = option_key(option);
    assert(key.len() == 11 || key.len() == 8 || key.len() == 14);
    assert forall|j: int| 0 <= j < key.len() implies key[j] != '=' && key[j] != '\n' by {
        if j == 0 || j == 1 || j == 2 || j == 3 || j == 4 || j == 5 || j == 6 || j == 7 || j == 8
            || j == 9 || j == 10 || j == 11 || j == 12 || j == 13 {
        }
    }
}

/// The settings of a line and further lines are those of the line, then those
/// of the further lines.
pub proof fn lemma_parse_first(first: Seq<char>, rest: Seq<Seq<char>>)
    ensures
        parse_lines(seq![first] + rest) == line_settings(first) + parse_lines(rest),
    decreases rest.len(),
{
    let all = seq![first] + rest;
    if rest.len() == 0 {
        assert(all.drop_last() =~= Seq::<Seq<char>>::empty());
        assert(rest =~= Seq::<Seq<char>>::empty());
        assert(all.last() == first);
        assert(parse_lines(Seq::<Seq<char>>::empty()) =~= Seq::<(Seq<char>, Seq<char>)>::empty());
        assert(parse_lines(all) =~= line_settings(first) + parse_lines(rest));
    } else {
        assert(all.last() == rest.last());
        assert(all.drop_last() =~= seq![first] + rest.drop_last());
        lemma_parse_first(first, rest.drop_last());
        assert(parse_lines(all) =~= line_settings(first) + parse_lines(rest));
    }
}

/// A carriage return at the end of a line does not change its key and value.
pub proof fn lemma_parse_ignores_carriage_return(line: Seq<char>)
    ensures
        parse_line(strip_cr(line)) == parse_line(line),
{
    if line.len() > 0 && line.last() == '\r' {
        let short = line.drop_last();
        let k = first_index(line, '=');
        lemma_first_index_bounds(line, '=');
        if k < line.len() {
            assert(k < line.len() - 1);
            assert forall|j: int| 0 <= j < k implies short[j] != '=' by {
                assert(short[j] == line[j]);
            }
            assert(short[k] == line[k]);
            lemma_first_index_is(short, '=', k);
            assert(short.take(k) =~= line.take(k));
            let tail = line.skip(k + 1);
            assert(tail.last() == '\r');
            lemma_trim_ignores_last_whitespace(tail);
            assert(tail.drop_last() =~= short.skip(k + 1));
        } else {
            assert forall|j: int| 0 <= j < short.len() implies short[j] != '=' by {
                assert(short[j] == line[j]);
            }
            lemma_first_index_is(short, '=', short.len() as int);
        }
    }
}

/// A line that was given a value has the key and, but for white space around
/// it, that value.
pub proof fn lemma_parse_rewritten_line(key: Seq<char>, value: Seq<char>)
    requires
        is_key(key),
    ensures
        parse_line(key + " = "@ + value) == Some((key, trim(value))),
{
    reveal_strlit(" = ");
    let line = key + " = "@ + value;
    let k: int = key.len() as int + 1;
    assert(line[k] == '=');
    assert forall|j: int| 0 <= j < k implies line[j] != '=' by {
        if j < key.len() {
            assert(line[j] == key[j]);
        }
    }
    lemma_first_index_is(line, '=', k);
    let head = line.take(k);
    assert(head =~= key.push(' '));
    assert(head[0] == key[0]);
    assert(trim_start(head) == head);
    assert(head.drop_last() =~= key);
    assert(trim_end(head) == trim_end(key));
    assert(trim_end(key) == key);
    let tail = line.skip(k + 1);
    assert(tail.drop_first() =~= value);
    assert(tail[0] == ' ');
    assert(trim_start(tail) == trim_start(value));
}

/// What rewriting does to one line: the result holds no line feed; a line that
/// does not give the key a value stays as it is; one that does gives the key
/// the new value, less white space around it.
pub proof fn lemma_rewrite_line(raw: Seq<char>, key: Seq<char>, value: Seq<char>)
    requires
        is_key(key),
        no_newline(value),
        no_newline(raw),
    ensures
        no_newline(rewrite_line(raw, key, value)),
        raw.len() > 0 ==> rewrite_line(raw, key, value).len() > 0,
        !sets_key(strip_cr(raw), key) ==> rewrite_line(raw, key, value) == raw,
        sets_key(strip_cr(raw), key) ==> parse_line(strip_cr(rewrite_line(raw, key, value)))
            == Some((key, trim(value))),
        line_settings(strip_cr(rewrite_line(raw, key, value))) == with_value(
            line_settings(strip_cr(raw)),
            key,
            trim(value),
        ),
{
    reveal_strlit(" = ");
    let new = rewrite_line(raw, key, value);
    let old_settings = line_settings(strip_cr(raw));
    if sets_key(strip_cr(raw), key) {
        lemma_parse_ignores_carriage_return(new);
        if raw.len() > 0 && raw.last() == '\r' {
            let padded = value.push('\r');
            assert(new =~= key + " = "@ + padded);
            lemma_parse_rewritten_line(key, padded);
            lemma_trim_ignores_last_whitespace(padded);
            assert(padded.drop_last() =~= value);
        } else {
            lemma_parse_rewritten_line(key, value);
        }
        assert forall|j: int| 0 <= j < new.len() implies new[j] != '\n' by {
            if j < key.len() {
                assert(new[j] == key[j]);
            } else if j >= key.len() + 3 && j < key.len() + 3 + value.len() {
                assert(new[j] == value[j - key.len() - 3]);
            }
        }
        assert(line_settings(strip_cr(new)) =~= with_value(old_settings, key, trim(value)));
    } else {
        assert(line_settings(strip_cr(new)) =~= with_value(old_settings, key, trim(value)));
    }
}

/// Giving a value to the settings of some lines and of further lines gives it
/// to the settings of all of them.
pub proof fn lemma_with_value_of_both(
    first: Seq<(Seq<char>, Seq<char>)>,
    rest: Seq<(Seq<char>, Seq<char>)>,
    key: Seq<char>,
    value: Seq<char>,
)
    ensures
        with_value(first + rest, key, value) == with_value(first, key, value) + with_value(
            rest,
            key,
            value,
        ),
{
    assert(with_value(first + rest, key, value) =~= with_value(first, key, value) + with_value(
        rest,
        key,
        value,
    ));
}

/// The parts of a text that has a line feed: the first line as it stands, which
/// holds no line feed, and the lines of the text are that line, less its
/// carriage return, and the lines of what follows the line feed.
pub proof fn lemma_first_line(content: Seq<char>)
    requires
        0 <= first_index(content, '\n') < content.len(),
    ensures
        no_newline(content.take(first_index(content, '\n'))),
        lines(content) == seq![strip_cr(content.take(first_index(content, '\n')))] + lines(
            content.skip(first_index(content, '\n') + 1),
        ),
{
    let k = first_index(content, '\n');
    lemma_first_index_bounds(content, '\n');
    let raw = content.take(k);
    assert forall|j: int| 0 <= j < raw.len() implies raw[j] != '\n' by {
        assert(raw[j] == content[j]);
    }
}

/// Reading a rewritten text back gives the settings of the text, with the new
/// value for each setting of the key.
pub proof fn lemma_rewrite_settings(content: Seq<char>, key: Seq<char>, value: Seq<char>)
    requires
        is_key(key),
        no_newline(value),
    ensures
        parse_lines(lines(rewrite(content, key, value))) == with_value(
            parse_lines(lines(content)),
            key,
            trim(value),
        ),
    decreases content.len(),
{
    let k = first_index(content, '\n');
    lemma_first_index_bounds(content, '\n');
    let new_value = trim(value);
    if content.len() == 0 {
        assert(parse_lines(lines(content)) =~= Seq::<(Seq<char>, Seq<char>)>::empty());
        assert(with_value(parse_lines(lines(content)), key, new_value) =~= parse_lines(
            lines(content),
        ));
    } else if k < content.len() {
        let raw = content.take(k);
        let rest = content.skip(k + 1);
        let new_raw = rewrite_line(raw, key, value);
        lemma_first_line(content);
        lemma_rewrite_line(raw, key, value);
        lemma_lines_first(new_raw, rewrite(rest, key, value));
        lemma_parse_first(strip_cr(new_raw), lines(rewrite(rest, key, value)));
        lemma_rewrite_settings(rest, key, value);
        lemma_parse_first(strip_cr(raw), lines(rest));
        lemma_with_value_of_both(
            line_settings(strip_cr(raw)),
            parse_lines(lines(rest)),
            key,
            new_value,
        );
    } else {
        assert(no_newline(content));
        let new = rewrite_line(content, key, value);
        lemma_rewrite_line(content, key, value);
        lemma_lines_single(content);
        lemma_lines_single(new);
        lemma_parse_ignores_carriage_return(content);
        lemma_parse_ignores_carriage_return(new);
        lemma_parse_first(content, Seq::empty());
        lemma_parse_first(new, Seq::empty());
        assert(seq![content] + Seq::<Seq<char>>::empty() =~= seq![content]);
        assert(seq![new] + Seq::<Seq<char>>::empty() =~= seq![new]);
        assert(parse_lines(Seq::<Seq<char>>::empty()) =~= Seq::<(Seq<char>, Seq<char>)>::empty());
        lemma_with_value_of_both(line_settings(content), Seq::empty(), key, new_value);
        assert(with_value(Seq::<(Seq<char>, Seq<char>)>::empty(), key, new_value) =~= Seq::<
            (Seq<char>, Seq<char>),
        >::empty());
    }
}

/// Whether `after` has the lines of `before`, but for those that give `key` a
/// value: as many lines, and each line that does not give the key a value as
/// it was.
pub open spec fn keeps_other_lines(
    before: Seq<Seq<char>>,
    after: Seq<Seq<char>>,
    key: Seq<char>,
) -> bool {
    &&& after.len() == before.len()
    &&& forall|i: int|
        0 <= i < before.len() && !sets_key(#[trigger] before[i], key) ==> after[i] == before[i]
}

/// A rewritten text has the lines of the text, but for those that give the key
/// a value.
pub proof fn lemma_rewrite_lines(content: Seq<char>, key: Seq<char>, value: Seq<char>)
    requires
        is_key(key),
        no_newline(value),
    ensures
        keeps_other_lines(lines(content), lines(rewrite(content, key, value)), key),
    decreases content.len(),
{
    let k = first_index(content, '\n');
    lemma_first_index_bounds(content, '\n');
    let before = lines(content);
    let after = lines(rewrite(content, key, value));
    if content.len() == 0 {
    } else if k < content.len() {
        let raw = content.take(k);
        let rest = content.skip(k + 1);
        let new_raw = rewrite_line(raw, key, value);
        lemma_first_line(content);
        lemma_rewrite_line(raw, key, value);
        lemma_lines_first(new_raw, rewrite(rest, key, value));
        lemma_rewrite_lines(rest, key, value);
        assert forall|i: int|
            0 <= i < before.len() && !sets_key(#[trigger] before[i], key) implies after[i]
            == before[i] by {
            if i > 0 {
                assert(before[i] == lines(rest)[i - 1]);
                assert(after[i] == lines(rewrite(rest, key, value))[i - 1]);
            }
        }
    } else {
        assert(no_newline(content));
        lemma_rewrite_line(content, key, value);
        lemma_lines_single(content);
        lemma_lines_single(rewrite_line(content, key, value));
        lemma_parse_ignores_carriage_return(content);
    }
}

/// What a key is given after `key` was given `value`: the new value under
/// `key`, if it had one, and under any other key what that key had.
pub proof fn lemma_lookup_with_value(
    pairs: Seq<(Seq<char>, Seq<char>)>,
    key: Seq<char>,
    value: Seq<char>,
    asked: Seq<char>,
)
    ensures
        lookup(with_value(pairs, key, value), asked) == if asked == key && lookup(pairs, key)
            is Some {
            Some(value)
        } else {
            lookup(pairs, asked)
        },
    decreases pairs.len(),
{
    if pairs.len() > 0 {
        lemma_lookup_with_value(pairs.drop_last(), key, value, asked);
        assert(with_value(pairs, key, value).drop_last() =~= with_value(
            pairs.drop_last(),
            key,
            value,
        ));
    }
}

/// An update changes one value and nothing else. Where `option` is given a
/// path without line feed:
///
/// - the text has as many lines as before, and every line that does not give
///   the option a value, be it of another key, known or unknown, or without
///   `=`, is as it was;
/// - reading the text back, every setting of the option has the path (less
///   white space around it), no setting was added or removed, and every
///   setting of another key is as it was;
/// - so every other key is given what it was given before, and the option,
///   if it was given a value, is given the path.
pub proof fn law_update_changes_one_value(
    content: Seq<char>,
    option: ConfigOption,
    value: Seq<char>,
)
    requires
        no_newline(value),
    ensures
        keeps_other_lines(
            lines(content),
            lines(rewrite(content, option_key(option), value)),
            option_key(option),
        ),
        parse_lines(lines(rewrite(content, option_key(option), value))) == with_value(
            parse_lines(lines(content)),
            option_key(option),
            trim(value),
        ),
        forall|other: Seq<char>|
            other != option_key(option) ==> #[trigger] lookup(
                parse_lines(lines(rewrite(content, option_key(option), value))),
                other,
            ) == lookup(parse_lines(lines(content)), other),
        lookup(parse_lines(lines(content)), option_key(option)) is Some ==> lookup(
            parse_lines(lines(rewrite(content, option_key(option), value))),
            option_key(option),
        ) == Some(trim(value)),
{
    let key = option_key(option);
    lemma_option_keys(option);
    lemma_rewrite_lines(content, key, value);
    lemma_rewrite_settings(content, key, value);
    lemma_lookup_with_value(parse_lines(lines(content)), key, trim(value), key);
    assert forall|other: Seq<char>| other != key implies #[trigger] lookup(
        parse_lines(lines(rewrite(content, key, value))),
        other,
    ) == lookup(parse_lines(lines(content)), other) by {
        lemma_lookup_with_value(parse_lines(lines(content)), key, trim(value), other);
    }
}

/// In the default configuration every option is unset: reading it gives each
/// option the word `empty`.
pub proof fn law_default_is_unset(option: ConfigOption)
    ensures
        lookup(parse_lines(lines(default_config())), option_key(option)) == Some("empty"@),
        is_unset(value_or_empty(lookup(parse_lines(lines(default_config())), option_key(option)))),
{
    reveal_strlit("gzDoom_Path = empty\nwad_Path = empty\nmods_Directory = empty");
    reveal_strlit("gzDoom_Path");
    reveal_strlit("wad_Path");
    reveal_strlit("mods_Directory");
    reveal_strlit("empty");
    reveal_strlit(" = ");
    let engine = option_key(ConfigOption::EnginePath);
    let iwad = option_key(ConfigOption::IwadPath);
    let mods = option_key(ConfigOption::ModDirectory);
    let unset = "empty"@;
    let first = engine + " = "@ + unset;
    let second = iwad + " = "@ + unset;
    let third = mods + " = "@ + unset;
    assert(default_config() =~= first + seq!['\n'] + (second + seq!['\n'] + third));
    lemma_option_keys(ConfigOption::EnginePath);
    lemma_option_keys(ConfigOption::IwadPath);
    lemma_option_keys(ConfigOption::ModDirectory);
    assert(trim_start(unset) == unset);
    assert(trim_end(unset) == unset);
    lemma_parse_rewritten_line(engine, unset);
    lemma_parse_rewritten_line(iwad, unset);
    lemma_parse_rewritten_line(mods, unset);
    assert(no_newline(first) && no_newline(second) && no_newline(third));
    lemma_lines_first(first, second + seq!['\n'] + third);
    lemma_lines_first(second, third);
    lemma_lines_single(third);
    let ls = seq![first, second, third];
    assert(lines(default_config()) =~= ls);
    lemma_parse_first(first, seq![second, third]);
    lemma_parse_first(second, seq![third]);
    lemma_parse_first(third, Seq::empty());
    assert(ls =~= seq![first] + seq![second, third]);
    assert(seq![second, third] =~= seq![second] + seq![third]);
    assert(seq![third] =~= seq![third] + Seq::<Seq<char>>::empty());
    assert(parse_lines(Seq::<Seq<char>>::empty()) =~= Seq::<(Seq<char>, Seq<char>)>::empty());
    let pairs = parse_lines(ls);
    assert(pairs =~= seq![(engine, unset), (iwad, unset), (mods, unset)]);
    assert(engine.len() != iwad.len() && iwad.len() != mods.len() && engine.len() != mods.len());
    assert(pairs.drop_last() =~= seq![(engine, unset), (iwad, unset)]);
    assert(pairs.drop_last().drop_last() =~= seq![(engine, unset)]);
    reveal_with_fuel(lookup, 4);
}

/// A key with its value.
#[derive(Clone, Debug, PartialEq, Eq)]
pub struct Setting {
    pub key: String,
    pub value: String,
}

impl View for Setting {
    type V = (Seq<char>, Seq<char>);

    open spec fn view(&self) -> (Seq<char>, Seq<char>) {
        (self.key@, self.value@)
    }
}

/// The views of the settings `v`, in order.
pub open spec fn setting_views(v: Seq<Setting>) -> Seq<(Seq<char>, Seq<char>)> {
    Seq::new(v.len(), |i: int| v[i]@)
}

/// The settings of a configuration text, in the order of its lines.
#[derive(Clone, Debug, PartialEq, Eq)]
pub struct Config {
    settings: Vec<Setting>,
}

impl View for Config {
    type V = Seq<(Seq<char>, Seq<char>)>;

    closed spec fn view(&self) -> Seq<(Seq<char>, Seq<char>)> {
        setting_views(self.settings@)
    }
}

/// The paths that the launcher works with, as configured.
#[derive(Clone, Debug, PartialEq, Eq)]
pub struct ConfigSnapshot {
    pub engine_path: String,
    pub iwad_path: String,
    pub mod_directory: String,
}

/// The value of an option that may be missing: nothing, if it is.
pub open spec fn value_or_empty(value: Option<Seq<char>>) -> Seq<char> {
    match value {
        Some(text) => text,
        None => Seq::empty(),
    }
}

/// Computes [`is_unset`].
pub fn value_is_unset(value: &str) -> (unset: bool)
    ensures
        unset == is_unset(value@),
{
    same_text(value, "empty") || value.is_empty()
}

/// The key of `option`: [`option_key`].
pub fn key_of(option: ConfigOption) -> (key: &'static str)
    ensures
        key@ == option_key(option),
{
    match option {
        ConfigOption::EnginePath => "gzDoom_Path",
        ConfigOption::IwadPath => "wad_Path",
        ConfigOption::ModDirectory => "mods_Directory",
    }
}

/// Computes [`parse_line`].
pub fn parse_setting(line: &str) -> (setting: Option<Setting>)
    ensures
        match setting {
            Some(found) => parse_line(line@) == Some(found@),
            None => parse_line(line@) is None,
        },
{
    let chars = chars_of(line);
    let n = chars.len();
    let k = find_char(&chars, 0, n, '=');
    proof {
        assert(chars@.subrange(0, n as int) =~= line@);
    }
    if k >= n {
        return None;
    }
    let (key_from, key_to) = trim_range(&chars, 0, k);
    let (value_from, value_to) = trim_range(&chars, k + 1, n);
    let key = substring(line, key_from, key_to);
    let value = substring(line, value_from, value_to);
    proof {
        assert(chars@.subrange(0, k as int) =~= line@.take(k as int));
        assert(chars@.subrange(k + 1, n as int) =~= line@.skip(k + 1));
    }
    Some(Setting { key, value })
}

/// Parses a configuration text: the key and value of each line that holds a
/// `=`, in the order of the lines. Lines without `=` are ignored.
pub fn read_config(content: &str) -> (config: Config)
    ensures
        config@ == parse_lines(lines(content@)),
{
    let all = split_lines(content);
    let ghost ls = string_views(all@);
    let mut settings: Vec<Setting> = Vec::new();
    let mut i: usize = 0;
    proof {
        assert(ls.take(0) =~= Seq::<Seq<char>>::empty());
        assert(setting_views(settings@) =~= Seq::<(Seq<char>, Seq<char>)>::empty());
    }
    while i < all.len()
        invariant
            i <= all.len(),
            ls == string_views(all@),
            setting_views(settings@) == parse_lines(ls.take(i as int)),
        decreases all.len() - i,
    {
        proof {
            assert(ls.take(i + 1).last() == all@[i as int]@);
            assert(ls.take(i + 1).drop_last() =~= ls.take(i as int));
        }
        let ghost before = setting_views(settings@);
        match parse_setting(all[i].as_str()) {
            Some(setting) => {
                settings.push(setting);
                proof {
                    assert(setting_views(settings@) =~= before.push(setting@));
                }
            },
            None => {},
        }
        i += 1;
    }
    proof {
        assert(ls.take(all.len() as int) =~= ls);
    }
    Config { settings }
}

impl Config {
    /// The value given to `key`, if any; where several lines give one, the
    /// last.
    pub fn get(&self, key: &str) -> (value: Option<String>)
        ensures
            match value {
                Some(text) => lookup(self@, key@) == Some(text@),
                None => lookup(self@, key@) is None,
            },
    {
        let ghost pairs = setting_views(self.settings@);
        let mut i: usize = self.settings.len();
        proof {
            assert(pairs.take(i as int) =~= pairs);
        }
        while i > 0
            invariant
                i <= self.settings.len(),
                pairs == setting_views(self.settings@),
                lookup(pairs, key@) == lookup(pairs.take(i as int), key@),
            decreases i,
        {
            proof {
                assert(pairs.take(i as int).last() == self.settings@[i - 1]@);
                assert(pairs.take(i as int).drop_last() =~= pairs.take(i - 1));
            }
            if same_text(self.settings[i - 1].key.as_str(), key) {
                return Some(self.settings[i - 1].value.clone());
            }
            i -= 1;
        }
        None
    }

    /// The value of `option`; nothing, if the text does not give it.
    pub fn option(&self, option: ConfigOption) -> (value: String)
        ensures
            value@ == value_or_empty(lookup(self@, option_key(option))),
    {
        match self.get(key_of(option)) {
            Some(text) => text,
            None => String::new(),
        }
    }

    /// The three paths that the launcher works with.
    pub fn snapshot(&self) -> (paths: ConfigSnapshot)
        ensures
            paths.engine_path@ == value_or_empty(
                lookup(self@, option_key(ConfigOption::EnginePath)),
            ),
            paths.iwad_path@ == value_or_empty(lookup(self@, option_key(ConfigOption::IwadPath))),
            paths.mod_directory@ == value_or_empty(
                lookup(self@, option_key(ConfigOption::ModDirectory)),
            ),
    {
        ConfigSnapshot {
            engine_path: self.option(ConfigOption::EnginePath),
            iwad_path: self.option(ConfigOption::IwadPath),
            mod_directory: self.option(ConfigOption::ModDirectory),
        }
    }
}

/// The configuration text to work with, and whether the file has to be created
/// with it: the text of the file if there is one, else the default text.
pub fn check_config_file(existing: Option<String>) -> (checked: (String, bool))
    ensures
        match existing {
            Some(text) => checked.0@ == text@ && !checked.1,
            None => checked.0@ == default_config() && checked.1,
        },
{
    match existing {
        Some(text) => (text, false),
        None => (
            "gzDoom_Path = empty\nwad_Path = empty\nmods_Directory = empty".to_owned(),
            true,
        ),
    }
}

/// Computes [`sets_key`].
pub fn line_sets_key(line: &str, key: &str) -> (sets: bool)
    ensures
        sets == sets_key(line@, key@),
{
    match parse_setting(line) {
        Some(setting) => same_text(setting.key.as_str(), key),
        None => false,
    }
}

/// Computes [`rewrite_line`].
fn rewrite_one_line(raw: &str, key: &str, new_path: &str) -> (out: String)
    ensures
        out@ == rewrite_line(raw@, key@, new_path@),
{
    let chars = chars_of(raw);
    let n = chars.len();
    let has_cr = n > 0 && chars[n - 1] == '\r';
    let end = if has_cr {
        n - 1
    } else {
        n
    };
    let line = substring(raw, 0, end);
    proof {
        assert(strip_cr(raw@) =~= raw@.subrange(0, end as int));
        reveal_strlit("\r");
    }
    if line_sets_key(line.as_str(), key) {
        let mut out = String::new();
        out.append(key);
        out.append(" = ");
        out.append(new_path);
        if has_cr {
            out.append("\r");
        }
        proof {
            assert(out@ =~= rewrite_line(raw@, key@, new_path@));
        }
        out
    } else {
        raw.to_owned()
    }
}

/// How [`rewrite`] goes on from a place in the text: with the line that starts
/// there, rewritten, and behind its line feed, if it has one, with the rest.
proof fn lemma_rewrite_goes_on(rest: Seq<char>, key: Seq<char>, value: Seq<char>, k: int)
    requires
        rest.len() > 0,
        k == first_index(rest, '\n'),
    ensures
        0 <= k <= rest.len(),
        k < rest.len() ==> rewrite(rest, key, value) == rewrite_line(rest.take(k), key, value)
            + seq!['\n'] + rewrite(rest.skip(k + 1), key, value),
        k == rest.len() ==> rewrite(rest, key, value) == rewrite_line(rest, key, value),
{
    lemma_first_index_bounds(rest, '\n');
}

/// Computes [`rewrite`].
fn update_option(config: &str, key: &str, new_path: &str) -> (updated: String)
    ensures
        updated@ == rewrite(config@, key@, new_path@),
{
    let chars = chars_of(config);
    let n = chars.len();
    let mut updated = String::new();
    let mut pos: usize = 0;
    proof {
        assert(config@.skip(0) =~= config@);
        assert(updated@ + config@ =~= config@);
        assert(updated@ + rewrite(config@, key@, new_path@) =~= rewrite(
            config@,
            key@,
            new_path@,
        ));
        reveal_strlit("\n");
    }
    while pos < n
        invariant
            pos <= n,
            n == chars.len(),
            chars@ == config@,
            rewrite(config@, key@, new_path@) == updated@ + rewrite(
                config@.skip(pos as int),
                key@,
                new_path@,
            ),
            "\n"@ == seq!['\n'],
        decreases n - pos,
    {
        let k = find_char(&chars, pos, n, '\n');
        let ghost rest = config@.skip(pos as int);
        let ghost before = updated@;
        proof {
            assert(rest =~= chars@.subrange(pos as int, n as int));
            lemma_rewrite_goes_on(rest, key@, new_path@, k - pos);
        }
        let raw = substring(config, pos, k);
        let piece = rewrite_one_line(raw.as_str(), key, new_path);
        proof {
            assert(raw@ =~= rest.take(k - pos));
        }
        updated.append(piece.as_str());
        if k < n {
            updated.append("\n");
            proof {
                let tail = rewrite(config@.skip(k + 1), key@, new_path@);
                assert(rest.skip(k - pos + 1) =~= config@.skip(k + 1));
                assert(updated@ + tail =~= before + (piece@ + seq!['\n'] + tail));
            }
            pos = k + 1;
        } else {
            proof {
                assert(rest.take(k - pos) =~= rest);
                assert(config@.skip(n as int) =~= Seq::<char>::empty());
                assert(rewrite(Seq::<char>::empty(), key@, new_path@) =~= Seq::<char>::empty());
                assert(updated@ + Seq::<char>::empty() =~= updated@);
            }
            pos = n;
        }
    }
    proof {
        assert(config@.skip(n as int) =~= Seq::<char>::empty());
        assert(rewrite(Seq::<char>::empty(), key@, new_path@) =~= Seq::<char>::empty());
        assert(updated@ + Seq::<char>::empty() =~= updated@);
    }
    updated
}

/// The configuration text `config` with the engine path set to `new_path`.
/// Every line whose key is `gzDoom_Path` becomes `gzDoom_Path = ` and the new
/// path; everything else stays as it is, line endings too.
pub fn update_gzdoom_path(config: &str, new_path: &str) -> (updated: String)
    ensures
        updated@ == rewrite(config@, option_key(ConfigOption::EnginePath), new_path@),
{
    update_option(config, key_of(ConfigOption::EnginePath), new_path)
}

/// The configuration text `config` with the path of the base game data set to
/// `new_path`. Every line whose key is `wad_Path` becomes `wad_Path = ` and the
/// new path; everything else stays as it is, line endings too.
pub fn update_wad_path(config: &str, new_path: &str) -> (updated: String)
    ensures
        updated@ == rewrite(config@, option_key(ConfigOption::IwadPath), new_path@),
{
    update_option(config, key_of(ConfigOption::IwadPath), new_path)
}

/// The configuration text `config` with the mod directory set to `new_path`.
/// Every line whose key is `mods_Directory` becomes `mods_Directory = ` and
/// the new path; everything else stays as it is, line endings too.
pub fn update_wad_directory(config: &str, new_path: &str) -> (updated: String)
    ensures
        updated@ == rewrite(config@, option_key(ConfigOption::ModDirectory), new_path@),
{
    update_option(config, key_of(ConfigOption::ModDirectory), new_path)
}

/// What a choice made in a dialog does to the configuration text `config`: a
/// choice that is unset, as after a cancelled dialog, changes nothing, and the
/// result is `None`; any other text is stored as the value of `option`.
pub fn store_choice(config: &str, option: ConfigOption, text: &str) -> (stored: Option<String>)
    ensures
        match stored {
            None => is_unset(text@),
            Some(updated) => !is_unset(text@) && updated@ == rewrite(
                config@,
                option_key(option),
                text@,
            ),
        },
{
    if value_is_unset(text) {
        None
    } else {
        Some(
            match option {
                ConfigOption::EnginePath => update_gzdoom_path(config, text),
                ConfigOption::IwadPath => update_wad_path(config, text),
                ConfigOption::ModDirectory => update_wad_directory(config, text),
            },
        )
    }
}

} // verus!
