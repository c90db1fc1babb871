//! Configuration: where the token comes from and the settings file's fields.
use vstd::prelude::*;
use crate::text::{chars_of, contains_chars, lead_ws_count, push_seq, push_str, split_lines, starts_with, str_eq};
use crate::text::{find, has_prefix, join, lead_ws, lines};

verus! {

broadcast use vstd::string::group_string_axioms;

/// Where a token was saved.
#[derive(Clone, Copy, Debug, PartialEq, Eq, Structural)]
pub enum TokenSink {
    Keyring,
    File,
}

/// A value of the settings file (TOML), as far as the settings read it.
pub enum TomlValue {
    Str(String),
    Int(i64),
    Bool(bool),
    Table(Vec<(String, TomlValue)>),
    /// Floats, dates and arrays, which no setting uses.
    Other,
}

/// The settings.
#[derive(Debug)]
pub struct Config {
    pub token: String,
    pub poll_interval_secs: u64,
    pub db_path: String,
    pub theme: String,
    pub mouse: bool,
    pub editor: Option<String>,
    /// Key binding overrides: action name to key.
    pub keys: Vec<(String, String)>,
}

/// Why no configuration could be built.
#[derive(Debug, PartialEq, Eq)]
pub enum ConfigError {
    /// No token in the keyring, the environment or the settings file.
    NoToken,
    /// The settings file is not valid TOML; the parser's message.
    BadFile(String),
}

impl ConfigError {
    /// The message shown to the user.
    pub fn message(&self) -> (r: String)
        ensures
            match self {
                ConfigError::NoToken => r@
                    == "no Notion token found: set the NOTION_TOKEN environment variable or put token = \"...\" in ~/.config/notion-tui/config.toml"@,
                ConfigError::BadFile(m) => r@ == m@,
            },
    {
        match self {
            ConfigError::NoToken => "no Notion token found: set the NOTION_TOKEN environment variable or put token = \"...\" in ~/.config/notion-tui/config.toml".to_owned(),
            ConfigError::BadFile(m) => m.clone(),
        }
    }
}

#[verifier::external_type_specification]
#[verifier::external_body]
pub struct ExTomlError(toml::de::Error);

/// The entries of the TOML document `text` (keys in sorted order, values
/// nested at most two tables deep), or `None` when `text` is not valid TOML.
pub uninterp spec fn toml_document(text: Seq<char>) -> Option<Seq<(String, TomlValue)>>;

/// Parses a settings file with `toml::Table::from_str`: the document's
/// top-level entries converted one for one into `TomlValue`s (a nested table's
/// own tables become `Other`), or the parser's error when it is not TOML.
#[verifier::external_body]
fn parse_toml(text: &str) -> (r: Result<Vec<(String, TomlValue)>, toml::de::Error>)
    ensures
        match r {
            Ok(v) => toml_document(text@) == Some(v@),
            Err(_) => toml_document(text@) is None,
        },
{
    let table: toml::Table = text.parse()?;
    let one = |v: toml::Value| match v {
        toml::Value::String(s) => TomlValue::Str(s),
        toml::Value::Integer(i) => TomlValue::Int(i),
        toml::Value::Boolean(b) => TomlValue::Bool(b),
        _ => TomlValue::Other,
    };
    Ok(table.into_iter().map(|(k, v)| match v {
        toml::Value::Table(t) => (k, TomlValue::Table(t.into_iter().map(|(k, v)| (k, one(v))).collect())),
        v => (k, one(v)),
    }).collect())
}

/// The message of a TOML parse error, as `toml::de::Error`'s `Display` writes it.
#[verifier::external_body]
fn toml_error_text(e: &toml::de::Error) -> String {
    e.to_string()
}

/// The value under `key` among the entries `t`: the first so named.
pub open spec fn entry(t: Seq<(String, TomlValue)>, key: Seq<char>) -> Option<TomlValue>
    decreases t.len(),
{
    if t.len() == 0 {
        None
    } else if t[0].0@ == key {
        Some(t[0].1)
    } else {
        entry(t.skip(1), key)
    }
}

/// The text under `key`, when it is a string.
pub open spec fn str_entry(t: Seq<(String, TomlValue)>, key: Seq<char>) -> Option<Seq<char>> {
    match entry(t, key) {
        Some(TomlValue::Str(s)) => Some(s@),
        _ => None,
    }
}

/// The string-valued entries of a table, in order.
pub open spec fn string_entries(t: Seq<(String, TomlValue)>) -> Seq<(Seq<char>, Seq<char>)>
    decreases t.len(),
{
    if t.len() == 0 {
        Seq::empty()
    } else {
        let r = string_entries(t.drop_last());
        match t.last().1 {
            TomlValue::Str(s) => r.push((t.last().0@, s@)),
            _ => r,
        }
    }
}

/// The settings built from the sources: the first token found in the
/// keyring, the environment and the file (in that order), the rest from
/// the file with defaults (poll every 30 s, the default database path,
/// theme "default", mouse on, no editor, no key overrides).
pub open spec fn config_spec(
    keyring_token: Option<Seq<char>>,
    env_token: Option<Seq<char>>,
    file: Seq<(String, TomlValue)>,
    default_db: Seq<char>,
) -> Option<(Seq<char>, u64, Seq<char>, Seq<char>, bool, Option<Seq<char>>, Seq<(Seq<char>, Seq<char>)>)> {
    let token = match keyring_token {
        Some(t) => Some(t),
        None => match env_token {
            Some(t) => Some(t),
            None => str_entry(file, "token"@),
        },
    };
    match token {
        None => None,
        Some(t) => Some(
            (
                t,
                match entry(file, "poll_interval_secs"@) {
                    Some(TomlValue::Int(i)) => i as u64,
                    _ => 30,
                },
                match str_entry(file, "db_path"@) {
                    Some(p) => p,
                    None => default_db,
                },
                match str_entry(file, "theme"@) {
                    Some(p) => p,
                    None => "default"@,
                },
                match entry(file, "mouse"@) {
                    Some(TomlValue::Bool(b)) => b,
                    _ => true,
                },
                str_entry(file, "editor"@),
                match entry(file, "keys"@) {
                    Some(TomlValue::Table(k)) => string_entries(k@),
                    _ => Seq::empty(),
                },
            ),
        ),
    }
}

pub open spec fn opt_text(o: Option<String>) -> Option<Seq<char>> {
    match o {
        Some(s) => Some(s@),
        None => None,
    }
}

/// The settings as plain values.
pub open spec fn config_view(c: Config) -> (Seq<char>, u64, Seq<char>, Seq<char>, bool, Option<Seq<char>>, Seq<(Seq<char>, Seq<char>)>) {
    (
        c.token@,
        c.poll_interval_secs,
        c.db_path@,
        c.theme@,
        c.mouse,
        opt_text(c.editor),
        c.keys@.map_values(|e: (String, String)| (e.0@, e.1@)),
    )
}

/// Finds the value under `key`.
fn find_entry<'a>(t: &'a Vec<(String, TomlValue)>, key: &str) -> (r: Option<&'a TomlValue>)
    ensures
        match r {
            Some(v) => entry(t@, key@) == Some(*v),
            None => entry(t@, key@) is None,
        },
{
    let mut i: usize = 0;
    assert(t@.skip(0) =~= t@);
    while i < t.len()
        invariant
            i <= t@.len(),
            entry(t@, key@) == entry(t@.skip(i as int), key@),
        decreases t@.len() - i,
    {
        proof {
            assert(t@.skip(i as int)[0] == t@[i as int]);
            assert(t@.skip(i as int).skip(1) =~= t@.skip(i + 1));
        }
        if str_eq(t[i].0.as_str(), key) {
            return Some(&t[i].1);
        }
        i += 1;
    }
    assert(t@.skip(i as int).len() == 0);
    None
}

fn find_str(t: &Vec<(String, TomlValue)>, key: &str) -> (r: Option<String>)
    ensures
        opt_text(r) == str_entry(t@, key@),
{
    match find_entry(t, key) {
        Some(TomlValue::Str(s)) => Some(s.clone()),
        _ => None,
    }
}

/// Builds the settings from the keyring's token, the `NOTION_TOKEN`
/// environment variable and the text of the settings file (if any): the file
/// is parsed as TOML first (an invalid file is an error whatever else is
/// given), then the first token found wins.
pub fn from_sources(
    keyring_token: Option<String>,
    env_token: Option<String>,
    file_contents: Option<&str>,
    default_db: String,
) -> (r: Result<Config, ConfigError>)
    ensures
        match file_contents {
            None => config_result(r, opt_text(keyring_token), opt_text(env_token), Seq::empty(), default_db@),
            Some(text) => match toml_document(text@) {
                None => r matches Err(ConfigError::BadFile(_)),
                Some(entries) => config_result(r, opt_text(keyring_token), opt_text(env_token), entries, default_db@),
            },
        },
{
    match file_contents {
        None => from_entries(keyring_token, env_token, None, default_db),
        Some(text) => match parse_toml(text) {
            Ok(entries) => from_entries(keyring_token, env_token, Some(&entries), default_db),
            Err(e) => Err(ConfigError::BadFile(toml_error_text(&e))),
        },
    }
}

/// What building the settings from these sources gives: the settings of
/// `config_spec`, or `NoToken` where it has none.
pub open spec fn config_result(
    r: Result<Config, ConfigError>,
    keyring_token: Option<Seq<char>>,
    env_token: Option<Seq<char>>,
    file: Seq<(String, TomlValue)>,
    default_db: Seq<char>,
) -> bool {
    match r {
        Ok(c) => config_spec(keyring_token, env_token, file, default_db) == Some(config_view(c)),
        Err(e) => e == ConfigError::NoToken && config_spec(keyring_token, env_token, file, default_db) is None,
    }
}

/// Builds the settings from the keyring's token, the `NOTION_TOKEN`
/// environment variable and the parsed settings file (if any); the first
/// token found wins. Fails when none of them has a token.
pub fn from_entries(
    keyring_token: Option<String>,
    env_token: Option<String>,
    file: Option<&Vec<(String, TomlValue)>>,
    default_db: String,
) -> (r: Result<Config, ConfigError>)
    ensures
        config_result(
            r,
            opt_text(keyring_token),
            opt_text(env_token),
            match file {
                Some(f) => f@,
                None => Seq::empty(),
            },
            default_db@,
        ),
{
    let empty: Vec<(String, TomlValue)> = Vec::new();
    let t: &Vec<(String, TomlValue)> = match file {
        Some(f) => f,
        None => &empty,
    };
    let token = match keyring_token {
        Some(k) => k,
        None => match env_token {
            Some(e) => e,
            None => match find_str(t, "token") {
                Some(f) => f,
                None => return Err(ConfigError::NoToken),
            },
        },
    };
    let poll_interval_secs: u64 = match find_entry(t, "poll_interval_secs") {
        Some(TomlValue::Int(i)) => #[verifier::truncate] (*i as u64),
        _ => 30,
    };
    let db_path = match find_str(t, "db_path") {
        Some(p) => p,
        None => default_db,
    };
    let theme = match find_str(t, "theme") {
        Some(p) => p,
        None => "default".to_owned(),
    };
    let mouse = match find_entry(t, "mouse") {
        Some(TomlValue::Bool(b)) => *b,
        _ => true,
    };
    let editor = find_str(t, "editor");
    let mut keys: Vec<(String, String)> = Vec::new();
    match find_entry(t, "keys") {
        Some(TomlValue::Table(k)) => {
            let mut i: usize = 0;
            while i < k.len()
                invariant
                    i <= k@.len(),
                    keys@.map_values(|e: (String, String)| (e.0@, e.1@)) == string_entries(k@.take(i as int)),
                decreases k@.len() - i,
            {
                proof {
                    assert(k@.take(i + 1).drop_last() =~= k@.take(i as int));
                    assert(k@.take(i + 1).last() == k@[i as int]);
                }
                let ghost before = keys@;
                match &k[i].1 {
                    TomlValue::Str(s) => {
                        keys.push((k[i].0.clone(), s.clone()));
                        proof {
                            assert(keys@.map_values(|e: (String, String)| (e.0@, e.1@)) =~= before.map_values(
                                |e: (String, String)| (e.0@, e.1@),
                            ).push((k@[i as int].0@, s@)));
                        }
                    },
                    _ => {},
                }
                i += 1;
            }
            proof {
                assert(k@.take(k@.len() as int) =~= k@);
            }
        },
        _ => {
            proof {
                assert(keys@.map_values(|e: (String, String)| (e.0@, e.1@)) =~= Seq::<(Seq<char>, Seq<char>)>::empty());
            }
        },
    }
    Ok(Config { token, poll_interval_secs, db_path, theme, mouse, editor, keys })
}

/// The setting line that holds `token`.
pub open spec fn token_setting(token: Seq<char>) -> Seq<char> {
    "token = \""@ + token + "\""@
}

/// A line that sets the token: after leading whitespace it starts with `token =`.
pub open spec fn is_token_line(l: Seq<char>) -> bool {
    has_prefix(l.skip(lead_ws(l) as int), "token ="@)
}

/// The settings file `contents` once `token` is saved in it: when no
/// `token =` occurs, the setting appended on a line of its own; otherwise
/// every line that sets the token replaced by the new setting, the lines
/// joined with newlines and ending in one.
pub open spec fn with_token_spec(contents: Seq<char>, token: Seq<char>) -> Seq<char> {
    if find(contents, "token ="@) is None {
        contents + token_setting(token) + "\n"@
    } else {
        join(
            lines(contents).map_values(
                |l: Seq<char>|
                    if is_token_line(l) {
                        token_setting(token)
                    } else {
                        l
                    },
            ),
            "\n"@,
        ) + "\n"@
    }
}

/// The text of the settings file after saving `token` into `contents` (its
/// current text, empty when there is none).
pub fn token_file_text(contents: &str, token: &str) -> (r: String)
    ensures
        r@ == with_token_spec(contents@, token@),
{
    let cs = chars_of(contents);
    let key = chars_of("token =");
    let mut setting = "token = \"".to_owned();
    push_str(&mut setting, token);
    push_str(&mut setting, "\"");
    proof {
        reveal_strlit("token =");
        assert(setting@ =~= token_setting(token@));
    }
    if !contains_chars(&cs, &key) {
        let mut out = contents.to_owned();
        push_str(&mut out, setting.as_str());
        push_str(&mut out, "\n");
        return out;
    }
    let ls = split_lines(&cs);
    let ghost parts = lines(cs@).map_values(
        |l: Seq<char>|
            if is_token_line(l) {
                token_setting(token@)
            } else {
                l
            },
    );
    let mut out = String::new();
    let mut i: usize = 0;
    while i < ls.len()
        invariant
            i <= ls@.len(),
            ls@.len() == lines(cs@).len(),
            parts.len() == ls@.len(),
            forall|k: int| 0 <= k < ls@.len() ==> (#[trigger] ls@[k])@ == lines(cs@)[k],
            forall|k: int| 0 <= k < ls@.len() ==> #[trigger] parts[k] == (if is_token_line(lines(cs@)[k]) {
                token_setting(token@)
            } else {
                lines(cs@)[k]
            }),
            key@ == "token ="@,
            setting@ == token_setting(token@),
            out@ == join(parts.take(i as int), "\n"@),
        decreases ls@.len() - i,
    {
        let l = &ls[i];
        let ws = lead_ws_count(l);
        let rest = crate::text::slice_vec(l, ws, l.len());
        let is_setting = starts_with(&rest, &key);
        proof {
            assert(rest@ =~= l@.skip(ws as int));
            crate::text::lemma_join_push(parts.take(i as int), parts[i as int], "\n"@);
            assert(parts.take(i + 1) =~= parts.take(i as int).push(parts[i as int]));
        }
        if i > 0 {
            push_str(&mut out, "\n");
        }
        if is_setting {
            push_str(&mut out, setting.as_str());
        } else {
            push_seq(&mut out, l);
        }
        i += 1;
    }
    push_str(&mut out, "\n");
    proof {
        assert(parts.take(ls@.len() as int) =~= parts);
    }
    out
}

/// Whether the keyring can be trusted with `token`: saving it succeeded
/// (`saved`) and reading it back from a fresh entry gave the same token
/// (a backend that does not persist reports success and then forgets).
pub fn keyring_holds(saved: bool, read_back: &Option<String>, token: &str) -> (r: bool)
    ensures
        r == (saved && (read_back matches Some(t) && t@ == token@)),
{
    saved && match read_back {
        Some(t) => str_eq(t.as_str(), token),
        None => false,
    }
}

} // verus!
