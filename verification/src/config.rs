//! The hub's configuration: the apps it lists and launches, and the rules a
//! loaded configuration has to meet.

use vstd::prelude::*;
use crate::lenient::{lenient_parse_gave, lenient_parse_is_function, parse_is_function, parse_lenient};
use crate::paths::{join, path_is_absolute, path_join, path_parent, parent, resolve, resolved, ends_with, path_ends_with};
use crate::text::{is_blank, is_blank_spec};

verus! {

/// The name of the configuration file, next to the executable.
pub const CONFIG_FILE: &'static str = "config.toml";

/// The apps directory used when the configuration names none.
pub const DEFAULT_APPS_DIR: &'static str = "apps";

/// The quest length, in minutes, used when the configuration names none.
pub const DEFAULT_QUEST_MINUTES: u32 = 15;

/// One launchable app of the configuration.
#[derive(Debug, Clone)]
pub struct AppEntry {
    /// Unique, non-blank key of the entry.
    pub id: String,
    /// Name shown in the hub.
    pub name: String,
    /// Executable, relative to the apps directory unless absolute.
    pub exe: String,
    /// Working directory, relative to the apps directory unless absolute;
    /// the executable's directory where absent.
    pub cwd: Option<String>,
    /// Command-line arguments.
    pub args: Vec<String>,
}

/// A loaded configuration.
#[derive(Debug, Clone)]
pub struct Config {
    /// Directory the apps live in, relative to the configuration root unless
    /// absolute.
    pub apps_dir: String,
    /// Length of a quest, in minutes.
    pub quest_minutes: u32,
    /// The apps, in the order the hub lists them.
    pub apps: Vec<AppEntry>,
    /// Catalog sources.
    pub catalogs: Vec<String>,
    /// Directory the configuration was read from (set by `Config::read`;
    /// empty for one built with `Config::new`).
    pub root: String,
}

/// What a configuration holds, as plain values.
pub struct ConfigView {
    pub apps_dir: Seq<char>,
    pub quest_minutes: u32,
    pub apps: Seq<AppEntry>,
    pub catalogs: Seq<String>,
    pub root: Seq<char>,
}

impl View for Config {
    type V = ConfigView;

    open spec fn view(&self) -> ConfigView {
        ConfigView {
            apps_dir: self.apps_dir@,
            quest_minutes: self.quest_minutes,
            apps: self.apps@,
            catalogs: self.catalogs@,
            root: self.root@,
        }
    }
}

/// Why a configuration was refused.
#[derive(Debug)]
pub enum ConfigError {
    /// `quest_minutes` is 0.
    ZeroQuestMinutes,
    /// An app's id is blank; `name` is that app's name.
    EmptyId { name: String },
    /// An id occurs a second time; `id` is that id.
    DuplicateId { id: String },
}

/// Why reading a configuration failed.
#[derive(Debug)]
pub enum ReadError<E> {
    /// The text could not be parsed, strictly or leniently.
    Parse(E),
    /// The parsed configuration breaks a rule.
    Invalid(ConfigError),
}

/// The default apps directory (`apps`).
pub fn default_apps_dir() -> (r: String)
    ensures
        r@ == DEFAULT_APPS_DIR@,
{
    DEFAULT_APPS_DIR.to_owned()
}

/// The default quest length (15 minutes).
pub fn default_quest_minutes() -> (r: u32)
    ensures
        r == DEFAULT_QUEST_MINUTES,
{
    DEFAULT_QUEST_MINUTES
}

/// Whether the app at `k` breaks a rule: its id is blank, or an earlier app
/// has the same id.
pub open spec fn entry_fault(apps: Seq<AppEntry>, k: int) -> bool {
    is_blank_spec(apps[k].id@) || exists|j: int| 0 <= j < k && apps[j].id@ == apps[k].id@
}

/// Whether no app before `k` breaks a rule.
pub open spec fn clean_before(apps: Seq<AppEntry>, k: int) -> bool {
    forall|j: int| 0 <= j < k ==> !#[trigger] entry_fault(apps, j)
}

/// Whether a configuration meets every rule.
pub open spec fn is_valid(c: ConfigView) -> bool {
    c.quest_minutes > 0 && clean_before(c.apps, c.apps.len() as int)
}

/// What validating `c` answers: the first rule broken, in the order
/// quest length, then each app in turn (blank id before duplicate id).
pub open spec fn validation_matches(c: ConfigView, r: Result<(), ConfigError>) -> bool {
    match r {
        Ok(()) => is_valid(c),
        Err(ConfigError::ZeroQuestMinutes) => c.quest_minutes == 0,
        Err(ConfigError::EmptyId { name }) => c.quest_minutes > 0 && exists|k: int|
            0 <= k < c.apps.len() && clean_before(c.apps, k) && is_blank_spec(
                #[trigger] c.apps[k].id@,
            ) && name@ == c.apps[k].name@,
        Err(ConfigError::DuplicateId { id }) => c.quest_minutes > 0 && exists|k: int|
            0 <= k < c.apps.len() && clean_before(c.apps, k) && !is_blank_spec(
                #[trigger] c.apps[k].id@,
            ) && entry_fault(c.apps, k) && id@ == c.apps[k].id@,
    }
}

/// Whether `a` and `b` agree on everything but the root.
pub open spec fn same_settings(a: ConfigView, b: ConfigView) -> bool {
    a.apps_dir == b.apps_dir && a.quest_minutes == b.quest_minutes && a.apps == b.apps
        && a.catalogs == b.catalogs
}

/// `raw` without a leading byte-order mark.
pub open spec fn without_bom(raw: Seq<char>) -> Seq<char> {
    if raw.len() > 0 && raw[0] == '\u{feff}' {
        raw.drop_first()
    } else {
        raw
    }
}

/// Where the configuration file of the root `root` is.
pub fn config_path(root: &str) -> (r: String)
    ensures
        r@ == path_join(root@, CONFIG_FILE@),
{
    join(root, CONFIG_FILE)
}

/// Where the first run creates the apps directory under the root `root`.
pub fn default_apps_path(root: &str) -> (r: String)
    ensures
        r@ == path_join(root@, DEFAULT_APPS_DIR@),
{
    join(root, DEFAULT_APPS_DIR)
}

/// Whether a change reported for `paths` concerns the configuration file:
/// whether one of them ends with `config.toml`.
pub fn touches_config(paths: &[String]) -> (r: bool)
    ensures
        r == exists|k: int| 0 <= k < paths@.len() && path_ends_with(#[trigger] paths@[k]@, CONFIG_FILE@),
{
    let mut k: usize = 0;
    while k < paths.len()
        invariant
            k <= paths@.len(),
            forall|j: int| 0 <= j < k ==> !path_ends_with(#[trigger] paths@[j]@, CONFIG_FILE@),
        decreases paths@.len() - k,
    {
        if ends_with(paths[k].as_str(), CONFIG_FILE) {
            return true;
        }
        k += 1;
    }
    false
}

/// Where the executable of `entry` is, for the configuration `c`.
pub open spec fn exe_path(c: ConfigView, entry: AppEntry) -> Seq<char> {
    resolved(path_join(c.root, c.apps_dir), entry.exe@)
}

/// The working directory for `entry`, for the configuration `c`: its own
/// `cwd` where it has one, else the directory of its executable, if that has
/// one.
pub open spec fn cwd_path(c: ConfigView, entry: AppEntry) -> Option<Seq<char>> {
    match entry.cwd {
        Some(cwd) => Some(resolved(path_join(c.root, c.apps_dir), cwd@)),
        None => path_parent(exe_path(c, entry)),
    }
}

/// Whether `r` is what reading gives for the configuration root `root` once
/// the text has parsed to `parsed`.
pub open spec fn read_outcome<E>(
    root: Seq<char>,
    parsed: Result<Config, E>,
    r: Result<Config, ReadError<E>>,
) -> bool {
    match parsed {
        Err(e) => r == Err::<Config, ReadError<E>>(ReadError::Parse(e)),
        Ok(c) => match r {
            Ok(cfg) => same_settings(cfg@, c@) && cfg@.root == root && is_valid(c@),
            Err(ReadError::Invalid(ve)) => validation_matches(c@, Err(ve)),
            Err(ReadError::Parse(_)) => false,
        },
    }
}

/// Whether `r` is what reading the text `raw` from the root `root` can give:
/// the outcome for what the lenient parse of `raw`, less a leading
/// byte-order mark, gave.
pub open spec fn read_gave<E, F: Fn(&str) -> Result<Config, E>>(
    parse: F,
    root: Seq<char>,
    raw: Seq<char>,
    r: Result<Config, ReadError<E>>,
) -> bool {
    exists|parsed: Result<Config, E>|
        lenient_parse_gave(parse, without_bom(raw), parsed) && read_outcome(root, parsed, r)
}

/// `raw` without a leading byte-order mark.
pub fn strip_bom(raw: &str) -> (r: &str)
    ensures
        r@ == without_bom(raw@),
{
    let n = raw.unicode_len();
    if n > 0 && raw.get_char(0) == '\u{feff}' {
        raw.substring_char(1, n)
    } else {
        raw
    }
}

impl Config {
    /// Reads a configuration from the text `raw` of a file found in the
    /// directory `root`: drops a leading byte-order mark, parses leniently
    /// with `parse`, records `root`, and checks the rules.
    pub fn read<E, F: Fn(&str) -> Result<Config, E>>(root: &str, raw: &str, parse: F) -> (r: Result<
        Config,
        ReadError<E>,
    >)
        requires
            forall|s: &str| parse.requires((s,)),
        ensures
            read_gave(parse, root@, raw@, r),
    {
        let text = strip_bom(raw);
        let parsed = parse_lenient(text, parse);
        let ghost outcome = parsed;
        let r = match parsed {
            Err(e) => Err(ReadError::Parse(e)),
            Ok(config) => {
                let mut config = config;
                config.root = root.to_owned();
                match config.validate() {
                    Ok(()) => Ok(config),
                    Err(ve) => Err(ReadError::Invalid(ve)),
                }
            },
        };
        assert(lenient_parse_gave(parse, without_bom(raw@), outcome) && read_outcome(
            root@,
            outcome,
            r,
        ));
        r
    }

    /// A configuration with the given settings and an empty root.
    pub fn new(apps_dir: String, quest_minutes: u32, apps: Vec<AppEntry>, catalogs: Vec<String>) -> (r: Config)
        ensures
            r@ == (ConfigView {
                apps_dir: apps_dir@,
                quest_minutes,
                apps: apps@,
                catalogs: catalogs@,
                root: Seq::empty(),
            }),
    {
        Config { apps_dir, quest_minutes, apps, catalogs, root: String::new() }
    }

    /// The directory the configuration was read from.
    pub fn root(&self) -> (r: &str)
        ensures
            r@ == self@.root,
    {
        self.root.as_str()
    }

    /// Checks the rules: `quest_minutes` is at least 1, and every app has a
    /// non-blank id that no other app has. Reports the first rule broken.
    pub fn validate(&self) -> (r: Result<(), ConfigError>)
        ensures
            validation_matches(self@, r),
            r is Ok <==> is_valid(self@),
    {
        if self.quest_minutes == 0 {
            return Err(ConfigError::ZeroQuestMinutes);
        }
        let mut k: usize = 0;
        while k < self.apps.len()
            invariant
                self.quest_minutes > 0,
                k <= self.apps@.len(),
                clean_before(self.apps@, k as int),
            decreases self.apps@.len() - k,
        {
            let app = &self.apps[k];
            if is_blank(app.id.as_str()) {
                assert(entry_fault(self.apps@, k as int));
                assert(is_blank_spec(self@.apps[k as int].id@));
                return Err(ConfigError::EmptyId { name: app.name.clone() });
            }
            let mut j: usize = 0;
            while j < k
                invariant
                    self.quest_minutes > 0,
                    k < self.apps@.len(),
                    j <= k,
                    clean_before(self.apps@, k as int),
                    !is_blank_spec(self.apps@[k as int].id@),
                    forall|i: int| 0 <= i < j ==> self.apps@[i].id@ != self.apps@[k as int].id@,
                decreases k - j,
            {
                if self.apps[j].id == self.apps[k].id {
                    assert(entry_fault(self.apps@, k as int));
                    assert(!is_blank_spec(self@.apps[k as int].id@));
                    return Err(ConfigError::DuplicateId { id: self.apps[k].id.clone() });
                }
                j += 1;
            }
            assert(!entry_fault(self.apps@, k as int));
            k += 1;
        }
        Ok(())
    }

    /// The apps directory, resolved against the configuration root.
    pub fn apps_dir_abs(&self) -> (r: String)
        ensures
            r@ == path_join(self@.root, self@.apps_dir),
            path_is_absolute(self@.apps_dir) ==> r@ == self@.apps_dir,
    {
        join(self.root.as_str(), self.apps_dir.as_str())
    }

    /// Where the executable of `entry` is.
    pub fn resolve_exe(&self, entry: &AppEntry) -> (r: String)
        ensures
            r@ == exe_path(self@, *entry),
    {
        let base = self.apps_dir_abs();
        resolve(base.as_str(), entry.exe.as_str())
    }

    /// The working directory to start `entry` in: its own `cwd` where it has
    /// one, else the directory of its executable, if that has one.
    pub fn resolve_cwd(&self, entry: &AppEntry) -> (r: Option<String>)
        ensures
            match cwd_path(self@, *entry) {
                Some(p) => r matches Some(d) && d@ == p,
                None => r is None,
            },
    {
        match &entry.cwd {
            Some(cwd) => {
                let base = self.apps_dir_abs();
                Some(resolve(base.as_str(), cwd.as_str()))
            },
            None => {
                let exe = self.resolve_exe(entry);
                parent(exe.as_str())
            },
        }
    }

    /// The apps, in order.
    pub fn apps(&self) -> (r: &[AppEntry])
        ensures
            r@ == self@.apps,
    {
        self.apps.as_slice()
    }
}

} // verus!

verus! {

/// In a configuration that passes validation, every app has a non-blank id
/// and no two apps share one.
pub proof fn valid_config_has_unique_ids(c: ConfigView)
    requires
        is_valid(c),
    ensures
        forall|k: int| 0 <= k < c.apps.len() ==> !is_blank_spec(#[trigger] c.apps[k].id@),
        forall|j: int, k: int|
            0 <= j < k < c.apps.len() ==> #[trigger] c.apps[j].id@ != #[trigger] c.apps[k].id@,
{
    assert forall|k: int| 0 <= k < c.apps.len() implies !is_blank_spec(#[trigger] c.apps[k].id@) by {
        assert(!entry_fault(c.apps, k));
    }
    assert forall|j: int, k: int| 0 <= j < k < c.apps.len() implies #[trigger] c.apps[j].id@
        != #[trigger] c.apps[k].id@ by {
        assert(!entry_fault(c.apps, k));
    }
}

} // verus!

verus! {

/// A validation error as plain values: its kind and the text it carries.
pub open spec fn error_view(e: ConfigError) -> (int, Seq<char>) {
    match e {
        ConfigError::ZeroQuestMinutes => (0, Seq::empty()),
        ConfigError::EmptyId { name } => (1, name@),
        ConfigError::DuplicateId { id } => (2, id@),
    }
}

/// Whether two read results say the same: equal configurations, equal
/// parse errors, or the same broken rule.
pub open spec fn read_alike<E>(a: Result<Config, ReadError<E>>, b: Result<Config, ReadError<E>>) -> bool {
    match (a, b) {
        (Ok(x), Ok(y)) => x@ == y@,
        (Err(ReadError::Parse(x)), Err(ReadError::Parse(y))) => x == y,
        (Err(ReadError::Invalid(x)), Err(ReadError::Invalid(y))) => error_view(x) == error_view(y),
        _ => false,
    }
}

proof fn lemma_error_means_invalid(c: ConfigView, e: ConfigError)
    requires
        validation_matches(c, Err(e)),
    ensures
        !is_valid(c),
{
    match e {
        ConfigError::ZeroQuestMinutes => {},
        ConfigError::EmptyId { name } => {
            let k = choose|k: int|
                0 <= k < c.apps.len() && clean_before(c.apps, k) && is_blank_spec(
                    #[trigger] c.apps[k].id@,
                ) && name@ == c.apps[k].name@;
            assert(entry_fault(c.apps, k));
        },
        ConfigError::DuplicateId { id } => {
            let k = choose|k: int|
                0 <= k < c.apps.len() && clean_before(c.apps, k) && !is_blank_spec(
                    #[trigger] c.apps[k].id@,
                ) && entry_fault(c.apps, k) && id@ == c.apps[k].id@;
            assert(entry_fault(c.apps, k));
        },
    }
}

/// Validation reports one error per configuration: the first rule broken.
pub proof fn validation_error_is_unique(c: ConfigView, x: ConfigError, y: ConfigError)
    requires
        validation_matches(c, Err(x)),
        validation_matches(c, Err(y)),
    ensures
        error_view(x) == error_view(y),
{
    let kx: int = match x {
        ConfigError::ZeroQuestMinutes => -1,
        ConfigError::EmptyId { name } => choose|k: int|
            0 <= k < c.apps.len() && clean_before(c.apps, k) && is_blank_spec(
                #[trigger] c.apps[k].id@,
            ) && name@ == c.apps[k].name@,
        ConfigError::DuplicateId { id } => choose|k: int|
            0 <= k < c.apps.len() && clean_before(c.apps, k) && !is_blank_spec(
                #[trigger] c.apps[k].id@,
            ) && entry_fault(c.apps, k) && id@ == c.apps[k].id@,
    };
    let ky: int = match y {
        ConfigError::ZeroQuestMinutes => -1,
        ConfigError::EmptyId { name } => choose|k: int|
            0 <= k < c.apps.len() && clean_before(c.apps, k) && is_blank_spec(
                #[trigger] c.apps[k].id@,
            ) && name@ == c.apps[k].name@,
        ConfigError::DuplicateId { id } => choose|k: int|
            0 <= k < c.apps.len() && clean_before(c.apps, k) && !is_blank_spec(
                #[trigger] c.apps[k].id@,
            ) && entry_fault(c.apps, k) && id@ == c.apps[k].id@,
    };
    if kx >= 0 && ky >= 0 {
        assert(entry_fault(c.apps, kx));
        assert(entry_fault(c.apps, ky));
        if kx < ky {
            assert(!entry_fault(c.apps, kx));
        } else if ky < kx {
            assert(!entry_fault(c.apps, ky));
        }
    }
}

/// A single leading byte-order mark does not change what is read: for a
/// parse that gives one answer per text, reading `"\u{feff}" + s` and
/// reading `s` say the same, where `s` does not itself start with a mark.
pub proof fn byte_order_mark_is_ignored<E, F: Fn(&str) -> Result<Config, E>>(
    parse: F,
    root: Seq<char>,
    s: Seq<char>,
    with_mark: Result<Config, ReadError<E>>,
    without_mark: Result<Config, ReadError<E>>,
)
    requires
        parse_is_function(parse),
        !(s.len() > 0 && s[0] == '\u{feff}'),
        read_gave(parse, root, seq!['\u{feff}'] + s, with_mark),
        read_gave(parse, root, s, without_mark),
    ensures
        read_alike(with_mark, without_mark),
{
    let marked = seq!['\u{feff}'] + s;
    assert(without_bom(marked) =~= s);
    assert(without_bom(s) == s);
    let p1 = choose|parsed: Result<Config, E>|
        lenient_parse_gave(parse, without_bom(marked), parsed) && read_outcome(root, parsed, with_mark);
    let p2 = choose|parsed: Result<Config, E>|
        lenient_parse_gave(parse, without_bom(s), parsed) && read_outcome(root, parsed, without_mark);
    lenient_parse_is_function(parse, s, p1, p2);
    match p1 {
        Ok(c) => {
            match (with_mark, without_mark) {
                (Ok(x), Ok(y)) => {
                    assert(x@.apps_dir == y@.apps_dir);
                    assert(x@.apps == y@.apps);
                    assert(x@.catalogs == y@.catalogs);
                    assert(x@.root == y@.root);
                    assert(x@ == y@);
                },
                (Err(ReadError::Invalid(x)), Err(ReadError::Invalid(y))) => {
                    validation_error_is_unique(c@, x, y);
                },
                (Ok(x), Err(ReadError::Invalid(y))) => {
                    lemma_error_means_invalid(c@, y);
                },
                (Err(ReadError::Invalid(x)), Ok(y)) => {
                    lemma_error_means_invalid(c@, x);
                },
                _ => {},
            }
        },
        Err(_) => {},
    }
}

} // verus!

verus! {

/// The message shown for a refused configuration.
pub open spec fn error_message(e: ConfigError) -> Seq<char> {
    match e {
        ConfigError::ZeroQuestMinutes => "quest_minutes must be at least 1"@,
        ConfigError::EmptyId { name } => "app '"@ + name@ + "' has an empty id; every entry needs a unique id"@,
        ConfigError::DuplicateId { id } => "duplicate app id '"@ + id@ + "'; ids must be unique"@,
    }
}

impl ConfigError {
    /// The message shown for the error.
    pub fn message(&self) -> (r: String)
        ensures
            r@ == error_message(*self),
    {
        match self {
            ConfigError::ZeroQuestMinutes => String::from_str("quest_minutes must be at least 1"),
            ConfigError::EmptyId { name } => {
                let mut out = String::from_str("app '");
                out.append(name.as_str());
                out.append("' has an empty id; every entry needs a unique id");
                out
            },
            ConfigError::DuplicateId { id } => {
                let mut out = String::from_str("duplicate app id '");
                out.append(id.as_str());
                out.append("'; ids must be unique");
                out
            },
        }
    }
}

} // verus!
