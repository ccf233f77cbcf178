//! The settings that a `.env` file makes: one `KEY=VALUE` per line, never over
//! a variable that is already set.

use vstd::prelude::*;
use vstd::string::*;

use crate::text::{chars_of, decimal, join3, same_text, split, string_of, trim};
use crate::text::{decimal_model, is_space, opt_text, split_model, texts_model, trim_model};
use crate::text::{law_trim_drops_the_padding, lemma_split_nonempty};

verus! {

/// The characters that a setting's name is made of.
pub open spec fn is_name_char(c: char) -> bool {
    ||| 'A' <= c <= 'Z'
    ||| '0' <= c <= '9'
    ||| c == '_'
}

/// Where the unbroken run of name characters that ends before `i` starts.
pub open spec fn name_start(s: Seq<char>, i: int) -> int
    decreases i,
{
    if i > 0 && is_name_char(s[i - 1]) {
        name_start(s, i - 1)
    } else {
        i
    }
}

/// The unbroken run of name characters that ends before `i`.
pub open spec fn name_before(s: Seq<char>, i: int) -> Seq<char> {
    s.subrange(name_start(s, i), i)
}

/// Long enough, with an underscore, and starting with a capital letter.
pub open spec fn is_setting_name(name: Seq<char>) -> bool {
    &&& name.len() >= 4
    &&& name.contains('_')
    &&& 'A' <= name[0] <= 'Z'
}

/// An `=` at `i` that assigns to a setting's name.
pub open spec fn assigns_at(s: Seq<char>, i: int) -> bool {
    &&& 0 <= i < s.len()
    &&& s[i] == '='
    &&& is_setting_name(name_before(s, i))
}

/// The first place from `from` on where `s` assigns to a setting's name.
pub open spec fn first_assignment(s: Seq<char>, from: int) -> Option<int>
    decreases s.len() - from,
{
    if from >= s.len() {
        None
    } else if assigns_at(s, from) {
        Some(from)
    } else {
        first_assignment(s, from + 1)
    }
}

/// The name that the first assignment inside `s` assigns to.
pub open spec fn embedded_model(s: Seq<char>) -> Option<Seq<char>> {
    match first_assignment(s, 0) {
        Some(i) => Some(name_before(s, i)),
        None => None,
    }
}

proof fn lemma_name_start(s: Seq<char>, i: int, start: int)
    requires
        0 <= start <= i <= s.len(),
        forall|j: int| start <= j < i ==> is_name_char(#[trigger] s[j]),
        start == 0 || !is_name_char(s[start - 1]),
    ensures
        name_start(s, i) == start,
    decreases i - start,
{
    if start < i {
        lemma_name_start(s, i - 1, start);
    }
}

proof fn lemma_name_start_range(s: Seq<char>, i: int)
    requires
        0 <= i <= s.len(),
    ensures
        0 <= name_start(s, i) <= i,
        forall|j: int| name_start(s, i) <= j < i ==> is_name_char(#[trigger] s[j]),
        name_start(s, i) == 0 || !is_name_char(s[name_start(s, i) - 1]),
    decreases i,
{
    if i > 0 && is_name_char(s[i - 1]) {
        lemma_name_start_range(s, i - 1);
    }
}

proof fn lemma_first_assignment(s: Seq<char>, from: int)
    requires
        0 <= from,
    ensures
        match first_assignment(s, from) {
            Some(i) => {
                &&& from <= i
                &&& assigns_at(s, i)
                &&& forall|j: int| from <= j < i ==> !assigns_at(s, j)
            },
            None => forall|j: int| from <= j ==> !assigns_at(s, j),
        },
    decreases s.len() - from,
{
    if from < s.len() && !assigns_at(s, from) {
        lemma_first_assignment(s, from + 1);
    }
}

fn name_char(c: char) -> (r: bool)
    ensures
        r == is_name_char(c),
{
    ('A' <= c && c <= 'Z') || ('0' <= c && c <= '9') || c == '_'
}

/// Where the run of name characters that ends before `i` starts, and whether
/// the run is a setting's name.
fn name_ending_at(chars: &Vec<char>, i: usize) -> (r: (usize, bool))
    requires
        i <= chars@.len(),
    ensures
        r.0 == name_start(chars@, i as int),
        r.0 <= i,
        r.1 == is_setting_name(name_before(chars@, i as int)),
{
    let mut start: usize = i;
    let mut underscore: bool = false;
    let ghost mut at: int = 0;
    while start > 0 && name_char(chars[start - 1])
        invariant
            start <= i <= chars@.len(),
            forall|j: int| start <= j < i ==> is_name_char(#[trigger] chars@[j]),
            underscore ==> start <= at < i && chars@[at] == '_',
            !underscore ==> forall|j: int| start <= j < i ==> #[trigger] chars@[j] != '_',
        decreases start,
    {
        start = start - 1;
        if chars[start] == '_' {
            underscore = true;
            proof {
                at = start as int;
            }
        }
    }
    proof {
        lemma_name_start(chars@, i as int, start as int);
        let name = name_before(chars@, i as int);
        if underscore {
            assert(name[at - start] == '_');
            assert(name.contains('_'));
        } else {
            assert forall|j: int| 0 <= j < name.len() implies name[j] != '_' by {
                assert(name[j] == chars@[start + j]);
            }
        }
        if start < i {
            assert(name[0] == chars@[start as int]);
        }
    }
    let named = i - start >= 4 && underscore && 'A' <= chars[start] && chars[start] <= 'Z';
    (start, named)
}

/// The variable name, if `value` holds what looks like a second
/// `NAME_LIKE_THIS=` assignment: several settings glued onto one line. Only
/// names in capitals with an underscore count, so ordinary values (an address
/// with `?a=b`, base64 padding like `abc==`) never trip it.
pub fn embedded_assignment(value: &str) -> (r: Option<&str>)
    ensures
        match r {
            Some(name) => embedded_model(value@) == Some(name@),
            None => embedded_model(value@) is None,
        },
{
    let chars = chars_of(value);
    let mut i: usize = 0;
    while i < chars.len()
        invariant
            chars@ == value@,
            i <= chars@.len(),
            first_assignment(value@, 0) == first_assignment(value@, i as int),
        decreases chars.len() - i,
    {
        if chars[i] == '=' {
            let (start, named) = name_ending_at(&chars, i);
            if named {
                return Some(value.substring_char(start, i));
            }
        }
        i = i + 1;
    }
    None
}

/// `v` without one layer of matching quotes.
pub open spec fn unquote_model(v: Seq<char>) -> Seq<char> {
    if v.len() >= 2 && v[0] == '"' && v.last() == '"' {
        v.subrange(1, v.len() - 1)
    } else if v.len() >= 2 && v[0] == '\'' && v.last() == '\'' {
        v.subrange(1, v.len() - 1)
    } else {
        v
    }
}

/// What one line says.
pub enum LineModel {
    /// Nothing: a blank line, a comment, or a line without `=`.
    Nothing,
    /// A setting: its key and its value.
    Setting(Seq<char>, Seq<char>),
    /// A setting whose value holds another assignment: its key, and the name
    /// assigned to in its value.
    Merged(Seq<char>, Seq<char>),
}

pub open spec fn line_model(line: Seq<char>) -> LineModel {
    let t = trim_model(line);
    if t.len() == 0 || t[0] == '#' {
        LineModel::Nothing
    } else {
        match t.index_of_first('=') {
            None => LineModel::Nothing,
            Some(i) => {
                let key = trim_model(t.take(i));
                let value = t.skip(i + 1);
                match embedded_model(value) {
                    Some(name) => LineModel::Merged(key, name),
                    None => LineModel::Setting(key, unquote_model(trim_model(value))),
                }
            },
        }
    }
}

/// What a file asks for: the settings to make, in order, and the line at which
/// reading stopped, if it did: its number, its key and the name in its value.
pub struct DotenvModel {
    pub settings: Seq<(Seq<char>, Seq<char>)>,
    pub merged: Option<(nat, Seq<char>, Seq<char>)>,
}

/// Whether a setting with this key is in the list.
pub open spec fn has_key(settings: Seq<(Seq<char>, Seq<char>)>, key: Seq<char>) -> bool {
    exists|i: int| 0 <= i < settings.len() && (#[trigger] settings[i]).0 == key
}

/// Line by line: a setting is made unless its variable is set already, by the
/// environment or by an earlier line; reading stops at the first merged line.
pub open spec fn dotenv_model(lines: Seq<Seq<char>>, set: Set<Seq<char>>) -> DotenvModel
    decreases lines.len(),
{
    if lines.len() == 0 {
        DotenvModel { settings: Seq::empty(), merged: None }
    } else {
        let before = dotenv_model(lines.drop_last(), set);
        if before.merged is Some {
            before
        } else {
            match line_model(lines.last()) {
                LineModel::Nothing => before,
                LineModel::Merged(key, name) => DotenvModel {
                    settings: before.settings,
                    merged: Some((lines.len(), key, name)),
                },
                LineModel::Setting(key, value) => if set.contains(key) || has_key(
                    before.settings,
                    key,
                ) {
                    before
                } else {
                    DotenvModel { settings: before.settings.push((key, value)), merged: None }
                },
            }
        }
    }
}

/// A variable to set, and what to set it to.
#[derive(Debug, PartialEq, Eq)]
pub struct Setting {
    pub key: String,
    pub value: String,
}

/// A line that holds several settings: its number, counted from one, its key,
/// and the name that its value assigns to.
#[derive(Debug, PartialEq, Eq)]
pub struct MergedLine {
    pub line: usize,
    pub key: String,
    pub embedded: String,
}

/// The settings to make, in order, and the line at which reading stopped.
#[derive(Debug, PartialEq, Eq)]
pub struct Dotenv {
    pub settings: Vec<Setting>,
    pub merged: Option<MergedLine>,
}

pub open spec fn settings_model(settings: Seq<Setting>) -> Seq<(Seq<char>, Seq<char>)> {
    settings.map_values(|s: Setting| (s.key@, s.value@))
}

impl View for Dotenv {
    type V = DotenvModel;

    open spec fn view(&self) -> DotenvModel {
        DotenvModel {
            settings: settings_model(self.settings@),
            merged: match self.merged {
                Some(m) => Some((m.line as nat, m.key@, m.embedded@)),
                None => None,
            },
        }
    }
}

/// The set of names in a list.
pub open spec fn names_model(names: Seq<String>) -> Set<Seq<char>> {
    Set::new(|n: Seq<char>| texts_model(names).contains(n))
}

/// `v` without one layer of matching quotes.
fn unquote(v: String) -> (r: String)
    ensures
        r@ == unquote_model(v@),
{
    let chars = chars_of(v.as_str());
    let n: usize = chars.len();
    if n >= 2 && ((chars[0] == '"' && chars[n - 1] == '"') || (chars[0] == '\'' && chars[n - 1]
        == '\'')) {
        string_of(&chars, 1, n - 1)
    } else {
        v
    }
}

enum Line {
    Nothing,
    Setting(String, String),
    Merged(String, String),
}

spec fn line_view(l: Line) -> LineModel {
    match l {
        Line::Nothing => LineModel::Nothing,
        Line::Setting(k, v) => LineModel::Setting(k@, v@),
        Line::Merged(k, n) => LineModel::Merged(k@, n@),
    }
}

fn read_line(line: &str) -> (r: Line)
    ensures
        line_view(r) == line_model(line@),
{
    let t = trim(line);
    let chars = chars_of(t.as_str());
    if chars.len() == 0 || chars[0] == '#' {
        return Line::Nothing;
    }
    proof {
        chars@.index_of_first_ensures('=');
    }
    let mut i: usize = 0;
    while i < chars.len() && chars[i] != '='
        invariant
            i <= chars@.len(),
            forall|j: int| 0 <= j < i ==> chars@[j] != '=',
        decreases chars.len() - i,
    {
        i = i + 1;
    }
    if i == chars.len() {
        return Line::Nothing;
    }
    proof {
        assert(chars@.contains('='));
        assert(chars@.index_of_first('=') == Some(i as int));
        assert(chars@.subrange(0, i as int) =~= chars@.take(i as int));
        assert(chars@.subrange(i + 1, chars@.len() as int) =~= chars@.skip(i + 1));
    }
    let key = trim(string_of(&chars, 0, i).as_str());
    let value = string_of(&chars, i + 1, chars.len());
    if let Some(name) = embedded_assignment(value.as_str()) {
        return Line::Merged(key, name.to_owned());
    }
    Line::Setting(key, unquote(trim(value.as_str())))
}

fn lists(names: &Vec<String>, name: &str) -> (r: bool)
    ensures
        r == names_model(names@).contains(name@),
{
    let mut i: usize = 0;
    while i < names.len()
        invariant
            i <= names@.len(),
            forall|j: int| 0 <= j < i ==> (#[trigger] names@[j])@ != name@,
        decreases names.len() - i,
    {
        if same_text(names[i].as_str(), name) {
            proof {
                assert(texts_model(names@)[i as int] == name@);
            }
            return true;
        }
        i = i + 1;
    }
    proof {
        assert forall|j: int| 0 <= j < texts_model(names@).len() implies texts_model(names@)[j]
            != name@ by {
            assert(texts_model(names@)[j] == names@[j]@);
        }
    }
    false
}

fn already_made(settings: &Vec<Setting>, key: &str) -> (r: bool)
    ensures
        r == has_key(settings_model(settings@), key@),
{
    let mut i: usize = 0;
    while i < settings.len()
        invariant
            i <= settings@.len(),
            forall|j: int| 0 <= j < i ==> (#[trigger] settings@[j]).key@ != key@,
        decreases settings.len() - i,
    {
        if same_text(settings[i].key.as_str(), key) {
            proof {
                assert(settings_model(settings@)[i as int].0 == key@);
            }
            return true;
        }
        i = i + 1;
    }
    proof {
        assert forall|j: int| 0 <= j < settings_model(settings@).len() implies (
        #[trigger] settings_model(settings@)[j]).0 != key@ by {
            assert(settings_model(settings@)[j].0 == settings@[j].key@);
        }
    }
    false
}

proof fn lemma_dotenv_stops(lines: Seq<Seq<char>>, n: int, set: Set<Seq<char>>)
    requires
        0 <= n <= lines.len(),
        dotenv_model(lines.take(n), set).merged is Some,
    ensures
        dotenv_model(lines, set) == dotenv_model(lines.take(n), set),
    decreases lines.len() - n,
{
    if n == lines.len() {
        assert(lines.take(n) =~= lines);
    } else {
        assert(lines.drop_last().take(n) =~= lines.take(n));
        lemma_dotenv_stops(lines.drop_last(), n, set);
    }
}

/// What the contents of a file ask for, if there is one.
pub open spec fn file_model(contents: Option<Seq<char>>, set: Set<Seq<char>>) -> DotenvModel {
    match contents {
        Some(text) => dotenv_model(split_model(text, '\n'), set),
        None => DotenvModel { settings: Seq::empty(), merged: None },
    }
}

/// Reads the contents of a `.env` file, if there is one: `KEY=VALUE` lines,
/// with blank lines and `#` comments ignored. `set` lists the variables that
/// are set already; those win over the file. Reading stops at a line that
/// several settings were merged onto.
pub fn load_dotenv(contents: Option<&str>, set: &Vec<String>) -> (r: Dotenv)
    ensures
        r@ == file_model(opt_text(contents), names_model(set@)),
{
    match contents {
        Some(text) => read_settings(text, set),
        None => {
            let settings: Vec<Setting> = Vec::new();
            proof {
                assert(settings_model(settings@) =~= Seq::empty());
            }
            Dotenv { settings, merged: None }
        },
    }
}

fn read_settings(contents: &str, set: &Vec<String>) -> (r: Dotenv)
    ensures
        r@ == dotenv_model(split_model(contents@, '\n'), names_model(set@)),
{
    let lines = split(contents, '\n');
    let ghost all = texts_model(lines@);
    let ghost env = names_model(set@);
    let mut settings: Vec<Setting> = Vec::new();
    let mut i: usize = 0;
    proof {
        assert(all.take(0) =~= Seq::empty());
        assert(settings_model(settings@) =~= Seq::empty());
    }
    while i < lines.len()
        invariant
            i <= lines@.len(),
            all == texts_model(lines@),
            env == names_model(set@),
            all == split_model(contents@, '\n'),
            dotenv_model(all.take(i as int), env) == (DotenvModel {
                settings: settings_model(settings@),
                merged: None,
            }),
        decreases lines.len() - i,
    {
        let ghost before = settings@;
        proof {
            assert(all.take(i + 1).drop_last() =~= all.take(i as int));
            assert(all.take(i + 1).last() == lines@[i as int]@);
        }
        match read_line(lines[i].as_str()) {
            Line::Nothing => {},
            Line::Merged(key, embedded) => {
                let r = Dotenv {
                    settings,
                    merged: Some(MergedLine { line: i + 1, key, embedded }),
                };
                proof {
                    lemma_dotenv_stops(all, i + 1, env);
                }
                return r;
            },
            Line::Setting(key, value) => {
                if !lists(set, key.as_str()) && !already_made(&settings, key.as_str()) {
                    let ghost made = (key@, value@);
                    settings.push(Setting { key, value });
                    proof {
                        assert(settings_model(settings@) =~= settings_model(before).push(made));
                    }
                }
            },
        }
        i = i + 1;
    }
    proof {
        assert(all.take(i as int) =~= all);
    }
    Dotenv { settings, merged: None }
}

/// What to tell whoever wrote line `line`, which sets `key` to a value that
/// assigns to `embedded`.
pub open spec fn merged_message(line: nat, key: Seq<char>, embedded: Seq<char>) -> Seq<char> {
    ".env line "@ + decimal_model(line) + ": the value of "@ + key
        + " contains another assignment ("@ + embedded
        + "=...), so several settings were merged onto one line and none of them will be read correctly. This usually happens when a block of config lines is pasted into a single-value prompt or appended without line breaks. Put each KEY=VALUE on its own line (see .env.example)."@
}

impl MergedLine {
    /// What to tell whoever wrote the line.
    pub fn message(&self) -> (r: String)
        ensures
            r@ == merged_message(self.line as nat, self.key@, self.embedded@),
    {
        let mut out = join3(".env line ", decimal(self.line as u64).as_str(), ": the value of ");
        out.append(self.key.as_str());
        out.append(" contains another assignment (");
        out.append(self.embedded.as_str());
        out.append(
            "=...), so several settings were merged onto one line and none of them will be read correctly. This usually happens when a block of config lines is pasted into a single-value prompt or appended without line breaks. Put each KEY=VALUE on its own line (see .env.example).",
        );
        out
    }
}

/// The environment wins over the file: no variable that is set already is set
/// again, and no variable is set twice.
pub proof fn law_set_variables_are_kept(lines: Seq<Seq<char>>, set: Set<Seq<char>>)
    ensures
        forall|i: int|
            0 <= i < dotenv_model(lines, set).settings.len() ==> !set.contains(
                (#[trigger] dotenv_model(lines, set).settings[i]).0,
            ),
        forall|i: int, j: int|
            0 <= i < j < dotenv_model(lines, set).settings.len() ==> (
            #[trigger] dotenv_model(lines, set).settings[i]).0 != (
            #[trigger] dotenv_model(lines, set).settings[j]).0,
    decreases lines.len(),
{
    if lines.len() > 0 {
        law_set_variables_are_kept(lines.drop_last(), set);
    }
}

/// A file is refused exactly when some line of it is merged, and the line that
/// is named is the first such line.
pub proof fn law_first_merged_line_is_named(lines: Seq<Seq<char>>, set: Set<Seq<char>>)
    ensures
        match dotenv_model(lines, set).merged {
            Some((n, key, name)) => {
                &&& 1 <= n <= lines.len()
                &&& line_model(lines[n - 1]) == LineModel::Merged(key, name)
                &&& forall|i: int|
                    0 <= i < n - 1 ==> !(#[trigger] line_model(lines[i]) is Merged)
            },
            None => forall|i: int|
                0 <= i < lines.len() ==> !(#[trigger] line_model(lines[i]) is Merged),
        },
    decreases lines.len(),
{
    if lines.len() > 0 {
        let front = lines.drop_last();
        law_first_merged_line_is_named(front, set);
        assert(forall|i: int| 0 <= i < front.len() ==> front[i] == lines[i]);
    }
}

/// Of several lines for one variable the first counts: where line `i` sets
/// `key`, no line before it does, no line up to it is merged and the variable
/// was not set, the file sets `key` to what line `i` says.
pub proof fn law_first_line_for_a_key_counts(
    lines: Seq<Seq<char>>,
    set: Set<Seq<char>>,
    i: int,
    key: Seq<char>,
    value: Seq<char>,
)
    requires
        0 <= i < lines.len(),
        line_model(lines[i]) == LineModel::Setting(key, value),
        !set.contains(key),
        forall|j: int|
            0 <= j < i ==> match #[trigger] line_model(lines[j]) {
                LineModel::Nothing => true,
                LineModel::Setting(k, _) => k != key,
                LineModel::Merged(_, _) => false,
            },
    ensures
        dotenv_model(lines, set).settings.contains((key, value)),
    decreases lines.len(),
{
    let front = lines.drop_last();
    let before = dotenv_model(front, set);
    if i == lines.len() - 1 {
        assert(forall|j: int| 0 <= j < front.len() ==> front[j] == lines[j]);
        law_first_merged_line_is_named(front, set);
        lemma_key_not_made(front, set, key);
        let s = before.settings.push((key, value));
        assert(s.last() == (key, value));
        assert(dotenv_model(lines, set).settings == s);
    } else {
        assert(forall|j: int| 0 <= j < front.len() ==> front[j] == lines[j]);
        law_first_line_for_a_key_counts(front, set, i, key, value);
        let at = choose|k: int|
            0 <= k < before.settings.len() && before.settings[k] == (key, value);
        assert(dotenv_model(lines, set).settings[at] == (key, value));
    }
}

proof fn lemma_key_not_made(lines: Seq<Seq<char>>, set: Set<Seq<char>>, key: Seq<char>)
    requires
        forall|j: int|
            0 <= j < lines.len() ==> match #[trigger] line_model(lines[j]) {
                LineModel::Setting(k, _) => k != key,
                _ => true,
            },
    ensures
        !has_key(dotenv_model(lines, set).settings, key),
    decreases lines.len(),
{
    if lines.len() > 0 {
        let front = lines.drop_last();
        assert(forall|j: int| 0 <= j < front.len() ==> front[j] == lines[j]);
        lemma_key_not_made(front, set, key);
        let before = dotenv_model(front, set).settings;
        let after = dotenv_model(lines, set).settings;
        assert(line_model(lines[lines.len() - 1]) == line_model(lines.last()));
        assert forall|k: int| 0 <= k < after.len() implies (#[trigger] after[k]).0 != key by {
            if k < before.len() {
                assert(after[k] == before[k]);
            }
        }
    }
}

/// A line that says nothing (blank, a comment, no `=`) changes no setting,
/// wherever it stands.
pub proof fn law_idle_lines_do_not_matter(
    head: Seq<Seq<char>>,
    idle: Seq<char>,
    tail: Seq<Seq<char>>,
    set: Set<Seq<char>>,
)
    requires
        line_model(idle) is Nothing,
    ensures
        dotenv_model(head.push(idle) + tail, set).settings == dotenv_model(
            head + tail,
            set,
        ).settings,
        dotenv_model(head.push(idle) + tail, set).merged is Some <==> dotenv_model(
            head + tail,
            set,
        ).merged is Some,
    decreases tail.len(),
{
    if tail.len() == 0 {
        assert(head.push(idle) + tail =~= head.push(idle));
        assert(head + tail =~= head);
        assert(head.push(idle).drop_last() =~= head);
    } else {
        law_idle_lines_do_not_matter(head, idle, tail.drop_last(), set);
        assert((head.push(idle) + tail).drop_last() =~= head.push(idle) + tail.drop_last());
        assert((head + tail).drop_last() =~= head + tail.drop_last());
    }
}

/// What is reported is a name: capital letters, digits and underscores, with
/// an underscore, starting with a letter, and an `=` follows it in the value; it
/// is not the tail of a longer run of such characters.
pub proof fn law_only_names_are_reported(value: Seq<char>)
    ensures
        match embedded_model(value) {
            Some(name) => {
                &&& name.len() >= 4
                &&& name.contains('_')
                &&& 'A' <= name[0] <= 'Z'
                &&& forall|i: int|
                    0 <= i < name.len() ==> 'A' <= #[trigger] name[i] <= 'Z' || '0' <= name[i]
                        <= '9' || name[i] == '_'
                &&& exists|i: int|
                    #![trigger value[i]]
                    name.len() <= i < value.len() && value[i] == '=' && name == value.subrange(
                        i - name.len(),
                        i,
                    ) && (i == name.len() || {
                        let c = value[i - name.len() - 1];
                        !('A' <= c <= 'Z' || '0' <= c <= '9' || c == '_')
                    })
            },
            None => true,
        },
{
    lemma_first_assignment(value, 0);
    match first_assignment(value, 0) {
        Some(i) => {
            lemma_name_start_range(value, i);
            let name = name_before(value, i);
            let start = name_start(value, i);
            assert forall|k: int| 0 <= k < name.len() implies 'A' <= #[trigger] name[k] <= 'Z'
                || '0' <= name[k] <= '9' || name[k] == '_' by {
                assert(name[k] == value[start + k]);
                assert(is_name_char(value[start + k]));
            }
            assert(name =~= value.subrange(i - name.len(), i));
            assert(value[i] == '=');
        },
        None => {},
    }
}

/// Settings glued onto one line are found: a value in which a setting's name
/// stands, not as the tail of a longer run, with an `=` right after it, is
/// reported: by that name, or by one that is assigned to before it.
pub proof fn law_glued_settings_are_found(
    before: Seq<char>,
    name: Seq<char>,
    after: Seq<char>,
)
    requires
        name.len() >= 4,
        name.contains('_'),
        'A' <= name[0] <= 'Z',
        forall|i: int|
            0 <= i < name.len() ==> 'A' <= #[trigger] name[i] <= 'Z' || '0' <= name[i] <= '9'
                || name[i] == '_',
        before.len() == 0 || !('A' <= before.last() <= 'Z' || '0' <= before.last() <= '9'
            || before.last() == '_'),
    ensures
        embedded_model(before + name + seq!['='] + after) is Some,
        embedded_model(before) is None ==> embedded_model(before + name + seq!['='] + after)
            == Some(name),
        embedded_model(before) is Some ==> embedded_model(before + name + seq!['='] + after)
            == embedded_model(before),
{
    let s = before + name + seq!['='] + after;
    let i = (before.len() + name.len()) as int;
    let start = before.len() as int;
    assert forall|j: int| start <= j < i implies is_name_char(#[trigger] s[j]) by {
        assert(s[j] == name[j - start]);
    }
    if start > 0 {
        assert(s[start - 1] == before.last());
    }
    lemma_name_start(s, i, start);
    assert(name_before(s, i) =~= name);
    assert(s[i] == '=');
    assert(assigns_at(s, i));
    lemma_first_assignment(s, 0);
    lemma_first_assignment(before, 0);
    let tail = name + seq!['='] + after;
    assert(s =~= before + tail);
    assert forall|j: int| 0 <= j < before.len() implies assigns_at(s, j) == assigns_at(
        before,
        j,
    ) by {
        lemma_assigns_in_front(before, tail, j);
    }
    match first_assignment(before, 0) {
        Some(b) => {
            let a = first_assignment(s, 0)->0;
            assert(assigns_at(s, b));
            if a < b {
                assert(assigns_at(before, a));
            }
            assert(a == b);
            lemma_assigns_in_front(before, tail, b);
        },
        None => {
            let a = first_assignment(s, 0)->0;
            if a < before.len() {
                assert(assigns_at(before, a));
            } else if a < i {
                assert(s[a] == name[a - start]);
            }
            assert(a == i);
        },
    }
}

proof fn lemma_assigns_in_front(front: Seq<char>, tail: Seq<char>, j: int)
    requires
        0 <= j < front.len(),
    ensures
        name_before(front + tail, j) == name_before(front, j),
        assigns_at(front + tail, j) == assigns_at(front, j),
{
    let s = front + tail;
    lemma_name_start_range(front, j);
    let start = name_start(front, j);
    assert forall|k: int| start <= k < j implies is_name_char(#[trigger] s[k]) by {
        assert(s[k] == front[k]);
    }
    if start > 0 {
        assert(s[start - 1] == front[start - 1]);
    }
    lemma_name_start(s, j, start);
    assert(name_before(s, j) =~= name_before(front, j));
    assert(s[j] == front[j]);
}

/// A value without an underscore, or without `=`, never trips the check.
pub proof fn law_ordinary_values_pass(value: Seq<char>)
    requires
        !value.contains('_') || !value.contains('='),
    ensures
        embedded_model(value) is None,
{
    lemma_first_assignment(value, 0);
    match first_assignment(value, 0) {
        Some(i) => {
            lemma_name_start_range(value, i);
            let name = name_before(value, i);
            let k = choose|k: int| 0 <= k < name.len() && name[k] == '_';
            assert(value[name_start(value, i) + k] == '_');
            assert(value[i] == '=');
        },
        None => {},
    }
}

/// One layer of quotes is taken off, double or single, where both ends have the
/// same; what stands between is left as it is, and so is anything else.
pub proof fn law_one_layer_of_quotes_is_taken_off(v: Seq<char>)
    ensures
        unquote_model(seq!['"'] + v + seq!['"']) == v,
        unquote_model(seq!['\''] + v + seq!['\'']) == v,
        v.len() < 2 || v[0] != v.last() || (v[0] != '"' && v[0] != '\'') ==> unquote_model(v) == v,
{
    let double = seq!['"'] + v + seq!['"'];
    let single = seq!['\''] + v + seq!['\''];
    assert(double[0] == '"' && double.last() == '"');
    assert(single[0] == '\'' && single.last() == '\'');
    assert(double.subrange(1, double.len() - 1) =~= v);
    assert(single.subrange(1, single.len() - 1) =~= v);
}

/// What a line with an `=` says. White space around the line, the key and the
/// value makes no difference. The key is what stands before the first `=`; the
/// value is what stands after it, without one layer of quotes, unless it holds
/// another assignment.
pub proof fn law_a_line_sets_its_key(
    before: Seq<char>,
    key: Seq<char>,
    gap: Seq<char>,
    value: Seq<char>,
    after: Seq<char>,
)
    requires
        forall|i: int| 0 <= i < before.len() ==> is_space(#[trigger] before[i]),
        forall|i: int| 0 <= i < gap.len() ==> is_space(#[trigger] gap[i]),
        forall|i: int| 0 <= i < after.len() ==> is_space(#[trigger] after[i]),
        key.len() > 0,
        !is_space(key[0]),
        !is_space(key.last()),
        key[0] != '#',
        !key.contains('='),
        value.len() > 0 ==> !is_space(value.last()),
    ensures
        line_model(before + key + gap + seq!['='] + value + after) == match embedded_model(value) {
            Some(name) => LineModel::Merged(key, name),
            None => LineModel::Setting(key, unquote_model(trim_model(value))),
        },
{
    let t = key + gap + seq!['='] + value;
    let at = (key.len() + gap.len()) as int;
    assert(before + key + gap + seq!['='] + value + after =~= before + t + after);
    assert(t[0] == key[0]);
    assert(t.last() == if value.len() > 0 {
        value.last()
    } else {
        '='
    });
    law_trim_drops_the_padding(before, t, after);
    assert(t[at] == '=');
    assert forall|j: int| 0 <= j < at implies t[j] != '=' by {
        if j < key.len() {
            assert(t[j] == key[j]);
        } else {
            assert(t[j] == gap[j - key.len()]);
        }
    }
    t.index_of_first_ensures('=');
    assert(t.contains('='));
    assert(t.index_of_first('=') == Some(at));
    assert(t.take(at) =~= Seq::empty() + key + gap);
    law_trim_drops_the_padding(Seq::empty(), key, gap);
    assert(t.skip(at + 1) =~= value);
}

/// White space around a value, and then one layer of quotes, are taken off a
/// setting's value: what is left is what was written.
pub proof fn law_a_value_is_what_was_written(
    before: Seq<char>,
    value: Seq<char>,
    after: Seq<char>,
)
    requires
        forall|i: int| 0 <= i < before.len() ==> is_space(#[trigger] before[i]),
        forall|i: int| 0 <= i < after.len() ==> is_space(#[trigger] after[i]),
    ensures
        unquote_model(trim_model(before + (seq!['"'] + value + seq!['"']) + after)) == value,
        unquote_model(trim_model(before + (seq!['\''] + value + seq!['\'']) + after)) == value,
        value.len() > 0 && !is_space(value[0]) && !is_space(value.last()) && value[0] != '"'
            && value[0] != '\'' ==> unquote_model(trim_model(before + value + after)) == value,
        unquote_model(trim_model(before)).len() == 0,
{
    law_trim_drops_the_padding(before, seq!['"'] + value + seq!['"'], after);
    law_trim_drops_the_padding(before, seq!['\''] + value + seq!['\''], after);
    law_one_layer_of_quotes_is_taken_off(value);
    if value.len() > 0 && !is_space(value[0]) && !is_space(value.last()) {
        law_trim_drops_the_padding(before, value, after);
    }
    law_trim_drops_the_padding(before, Seq::empty(), Seq::empty());
    assert(before + Seq::<char>::empty() + Seq::<char>::empty() =~= before);
}

/// A line of white space, a line that starts with `#`, and a line without `=`
/// say nothing; so what says nothing is one of the three.
pub proof fn law_what_says_nothing(line: Seq<char>)
    ensures
        line_model(line) is Nothing <==> {
            let t = trim_model(line);
            ||| t.len() == 0
            ||| t[0] == '#'
            ||| !t.contains('=')
        },
{
    let t = trim_model(line);
    t.index_of_first_ensures('=');
}

/// A line that starts with `=` sets the variable without a name.
pub proof fn law_a_line_without_a_key(value: Seq<char>)
    requires
        value.len() > 0 ==> !is_space(value.last()),
        embedded_model(value) is None,
    ensures
        line_model(seq!['='] + value) == LineModel::Setting(
            Seq::empty(),
            unquote_model(trim_model(value)),
        ),
{
    let t = seq!['='] + value;
    assert(t[0] == '=');
    assert(t.last() == if value.len() > 0 {
        value.last()
    } else {
        '='
    });
    law_trim_drops_the_padding(Seq::empty(), t, Seq::empty());
    assert(Seq::<char>::empty() + t + Seq::<char>::empty() =~= t);
    t.index_of_first_ensures('=');
    assert(t.contains('='));
    assert(t.index_of_first('=') == Some(0int));
    assert(t.take(0) =~= Seq::empty());
    law_trim_drops_the_padding(Seq::empty(), Seq::empty(), Seq::empty());
    assert(Seq::<char>::empty() + Seq::<char>::empty() + Seq::<char>::empty() =~= Seq::<
        char,
    >::empty());
    assert(t.skip(1) =~= value);
}

/// What one more line adds to a file. A setting is added, last, where neither
/// the environment nor the lines before set its key; a merged line stops the
/// reading, by its number; after that, and by anything else, nothing is added.
pub proof fn law_one_more_line(lines: Seq<Seq<char>>, next: Seq<char>, set: Set<Seq<char>>)
    ensures
        ({
            let before = dotenv_model(lines, set);
            let after = dotenv_model(lines.push(next), set);
            if before.merged is Some {
                after == before
            } else {
                match line_model(next) {
                    LineModel::Nothing => after == before,
                    LineModel::Merged(key, name) => {
                        &&& after.settings == before.settings
                        &&& after.merged == Some((lines.len() + 1, key, name))
                    },
                    LineModel::Setting(key, value) => {
                        let taken = set.contains(key) || exists|i: int|
                            0 <= i < before.settings.len() && (#[trigger] before.settings[i]).0
                                == key;
                        &&& after.merged is None
                        &&& taken ==> after.settings == before.settings
                        &&& !taken ==> after.settings == before.settings.push((key, value))
                    },
                }
            }
        }),
        dotenv_model(Seq::empty(), set).settings.len() == 0,
        dotenv_model(Seq::empty(), set).merged is None,
{
    assert(lines.push(next).drop_last() =~= lines);
    assert(lines.push(next).last() == next);
}

/// Every setting that is made is what some line says.
pub proof fn law_settings_come_from_lines(lines: Seq<Seq<char>>, set: Set<Seq<char>>, k: int)
    requires
        0 <= k < dotenv_model(lines, set).settings.len(),
    ensures
        exists|i: int|
            0 <= i < lines.len() && #[trigger] line_model(lines[i]) == LineModel::Setting(
                dotenv_model(lines, set).settings[k].0,
                dotenv_model(lines, set).settings[k].1,
            ),
    decreases lines.len(),
{
    let front = lines.drop_last();
    let made = dotenv_model(lines, set).settings[k];
    let before = dotenv_model(front, set).settings;
    if k < before.len() {
        law_settings_come_from_lines(front, set, k);
        let i = choose|i: int|
            0 <= i < front.len() && #[trigger] line_model(front[i]) == LineModel::Setting(
                made.0,
                made.1,
            );
        assert(line_model(lines[i]) == line_model(front[i]));
    } else {
        assert(line_model(lines[lines.len() - 1]) == LineModel::Setting(made.0, made.1));
    }
}

/// A file is read line by line: a line more at the end of the text is a line
/// more, and without a file nothing is set.
pub proof fn law_a_file_is_read_by_lines(text: Seq<char>, line: Seq<char>, set: Set<Seq<char>>)
    requires
        !line.contains('\n'),
    ensures
        file_model(Some(text.push('\n') + line), set) == dotenv_model(
            split_model(text, '\n').push(line),
            set,
        ),
        file_model(Some(text), set) == dotenv_model(split_model(text, '\n'), set),
        file_model(Some(line), set) == dotenv_model(seq![line], set),
        file_model(None, set).settings.len() == 0,
        file_model(None, set).merged is None,
{
    lemma_split_lines(text, line);
    lemma_one_line(line);
}

proof fn lemma_split_lines(text: Seq<char>, line: Seq<char>)
    requires
        !line.contains('\n'),
    ensures
        split_model(text.push('\n') + line, '\n') == split_model(text, '\n').push(line),
    decreases line.len(),
{
    let s = text.push('\n') + line;
    let front = split_model(text, '\n');
    lemma_split_nonempty(text, '\n');
    if line.len() == 0 {
        assert(s =~= text.push('\n'));
        assert(s.drop_last() =~= text);
        assert(line =~= Seq::empty());
    } else {
        let short = line.drop_last();
        assert forall|i: int| 0 <= i < short.len() implies short[i] != '\n' by {
            assert(line[i] == short[i]);
        }
        assert(line[line.len() - 1] == line.last());
        lemma_split_lines(text, short);
        assert(s.drop_last() =~= text.push('\n') + short);
        assert(front.push(short).drop_last() =~= front);
        assert(short.push(line.last()) =~= line);
    }
}

proof fn lemma_one_line(line: Seq<char>)
    requires
        !line.contains('\n'),
    ensures
        split_model(line, '\n') == seq![line],
    decreases line.len(),
{
    if line.len() > 0 {
        let short = line.drop_last();
        assert forall|i: int| 0 <= i < short.len() implies short[i] != '\n' by {
            assert(line[i] == short[i]);
        }
        assert(line[line.len() - 1] == line.last());
        lemma_one_line(short);
        assert(short.push(line.last()) =~= line);
        assert(split_model(line, '\n') =~= seq![line]);
    } else {
        assert(line =~= Seq::empty());
        assert(split_model(line, '\n') =~= seq![line]);
    }
}

/// Whoever wrote a merged line is told its number, its key, and the name that
/// its value assigns to.
pub proof fn law_the_message_names_the_line(line: nat, key: Seq<char>, embedded: Seq<char>)
    ensures
        (".env line "@ + decimal_model(line) + ": the value of "@ + key
            + " contains another assignment ("@ + embedded + "=...), "@).is_prefix_of(
            merged_message(line, key, embedded),
        ),
{
    let words =
        "=...), so several settings were merged onto one line and none of them will be read correctly. This usually happens when a block of config lines is pasted into a single-value prompt or appended without line breaks. Put each KEY=VALUE on its own line (see .env.example)."@;
    reveal_strlit("=...), ");
    reveal_strlit(
        "=...), so several settings were merged onto one line and none of them will be read correctly. This usually happens when a block of config lines is pasted into a single-value prompt or appended without line breaks. Put each KEY=VALUE on its own line (see .env.example).",
    );
    assert("=...), "@ =~= words.take(7));
    let start = ".env line "@ + decimal_model(line) + ": the value of "@ + key
        + " contains another assignment ("@ + embedded + "=...), "@;
    let said = merged_message(line, key, embedded);
    assert(start =~= said.take(start.len() as int));
}

/// Nothing of what a file asks for is left out of what is said of it, and a
/// variable is said to be set exactly where its name is in the list.
pub proof fn law_files_are_told_apart(a: Dotenv, b: Dotenv, names: Seq<String>, name: Seq<char>)
    ensures
        a@ == b@ ==> {
            &&& a.settings@.len() == b.settings@.len()
            &&& forall|i: int|
                0 <= i < a.settings@.len() ==> (#[trigger] a.settings@[i]).key@
                    == b.settings@[i].key@ && a.settings@[i].value@ == b.settings@[i].value@
            &&& a.merged is Some <==> b.merged is Some
            &&& a.merged is Some ==> {
                &&& (a.merged->0).line == (b.merged->0).line
                &&& (a.merged->0).key@ == (b.merged->0).key@
                &&& (a.merged->0).embedded@ == (b.merged->0).embedded@
            }
        },
        names_model(names).contains(name) <==> exists|i: int|
            0 <= i < names.len() && (#[trigger] names[i])@ == name,
{
    if a@ == b@ {
        let x = a.settings@;
        let y = b.settings@;
        assert(settings_model(x).len() == x.len());
        assert(settings_model(y).len() == y.len());
        assert forall|i: int| 0 <= i < x.len() implies (#[trigger] x[i]).key@ == y[i].key@
            && x[i].value@ == y[i].value@ by {
            assert(settings_model(x)[i] == (x[i].key@, x[i].value@));
            assert(settings_model(y)[i] == (y[i].key@, y[i].value@));
        }
    }
    let texts = texts_model(names);
    if names_model(names).contains(name) {
        let i = choose|i: int| 0 <= i < texts.len() && texts[i] == name;
        assert(names[i]@ == name);
    }
    if exists|i: int| 0 <= i < names.len() && (#[trigger] names[i])@ == name {
        let i = choose|i: int| 0 <= i < names.len() && (#[trigger] names[i])@ == name;
        assert(texts[i] == name);
    }
}

} // verus!
