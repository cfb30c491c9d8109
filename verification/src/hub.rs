//! What the hub shows and how it reacts: the search box, the status line,
//! the list of apps and the play/stop toggle.

use vstd::prelude::*;
use crate::config::{AppEntry, Config, ConfigView, cwd_path, exe_path};
use crate::text::{
    chars_of, contains, contains_text, decimal, decimal_reads_back, digits_value, is_digit, numeral,
    push_char, push_decimal, same_text, string_of,
    trim, trimmed,
};

verus! {

/// Whether `c` is a control character (general category `Cc`:
/// U+0000 to U+001F and U+007F to U+009F), as `char::is_control` answers.
pub open spec fn is_control_spec(c: char) -> bool {
    (c as u32) <= 0x1f || (0x7f <= (c as u32) && (c as u32) <= 0x9f)
}

/// Whether `c` is a control character.
pub(crate) fn is_control(c: char) -> (r: bool)
    ensures
        r == is_control_spec(c),
{
    let u = c as u32;
    u <= 0x1f || (0x7f <= u && u <= 0x9f)
}

/// Whether `text` holds no control character.
pub open spec fn printable(text: Seq<char>) -> bool {
    forall|k: int| 0 <= k < text.len() ==> !is_control_spec(#[trigger] text[k])
}

/// The search text after the key `key` (with the text `key_char` it types,
/// if any) was pressed on `query`: backspace drops the last character,
/// escape clears, and any other key appends the text it types unless that
/// holds a control character.
pub open spec fn search_after(query: Seq<char>, key: Seq<char>, key_char: Option<Seq<char>>) -> Seq<
    char,
> {
    if key == "backspace"@ {
        if query.len() > 0 {
            query.drop_last()
        } else {
            query
        }
    } else if key == "escape"@ {
        Seq::empty()
    } else {
        match key_char {
            Some(text) => if printable(text) {
                query + text
            } else {
                query
            },
            None => query,
        }
    }
}

/// Whether `text` holds no control character.
fn is_printable(text: &str) -> (r: bool)
    ensures
        r == printable(text@),
{
    let v = chars_of(text);
    let mut i: usize = 0;
    while i < v.len()
        invariant
            v@ == text@,
            i <= v.len(),
            forall|k: int| 0 <= k < i ==> !is_control_spec(#[trigger] text@[k]),
        decreases v.len() - i,
    {
        if is_control(v[i]) {
            return false;
        }
        i += 1;
    }
    true
}

/// Applies a key press to the search text.
pub fn on_search_key(query: &mut String, key: &str, key_char: Option<&str>)
    ensures
        final(query)@ == search_after(
            old(query)@,
            key@,
            match key_char {
                Some(t) => Some(t@),
                None => None,
            },
        ),
{
    if same_text(key, "backspace") {
        let mut v = chars_of(query.as_str());
        if v.len() > 0 {
            v.pop();
            *query = string_of(&v);
        }
    } else if same_text(key, "escape") {
        *query = String::new();
    } else {
        match key_char {
            Some(text) => {
                if is_printable(text) {
                    query.append(text);
                }
            },
            None => {},
        }
    }
}

/// Two digits for `n` (`{:02}`): a leading zero below ten.
pub open spec fn two_digits(n: nat) -> Seq<char> {
    if n < 10 {
        seq!['0'] + decimal(n)
    } else {
        decimal(n)
    }
}

/// How long a run of `secs` seconds is shown: `h:mm:ss` from one hour on,
/// `m:ss` below.
pub open spec fn runtime_text(secs: nat) -> Seq<char> {
    let hours = secs / 3600;
    let minutes = (secs % 3600) / 60;
    let seconds = secs % 60;
    if hours > 0 {
        decimal(hours) + seq![':'] + two_digits(minutes) + seq![':'] + two_digits(seconds)
    } else {
        decimal(minutes) + seq![':'] + two_digits(seconds)
    }
}

fn push_two_digits(out: &mut String, n: u64)
    requires
        n < 100,
    ensures
        final(out)@ == old(out)@ + two_digits(n as nat),
{
    if n < 10 {
        push_char(out, '0');
    }
    push_decimal(out, n);
    assert(out@ =~= old(out)@ + two_digits(n as nat));
}

/// The running time of a launched app, `secs` seconds after its start.
pub fn format_runtime(secs: u64) -> (r: String)
    ensures
        r@ == runtime_text(secs as nat),
{
    let hours = secs / 3600;
    let minutes = (secs % 3600) / 60;
    let seconds = secs % 60;
    let mut out = String::new();
    if hours > 0 {
        push_decimal(&mut out, hours);
        push_char(&mut out, ':');
        push_two_digits(&mut out, minutes);
        push_char(&mut out, ':');
        push_two_digits(&mut out, seconds);
    } else {
        push_decimal(&mut out, minutes);
        push_char(&mut out, ':');
        push_two_digits(&mut out, seconds);
    }
    assert(out@ =~= runtime_text(secs as nat));
    out
}

/// The status line: the last launch error where there is one, else the
/// running time where an app runs (`elapsed` seconds), else `Idle`.
pub open spec fn status_text(error: Option<Seq<char>>, elapsed: Option<nat>) -> Seq<char> {
    match error {
        Some(e) => "! "@ + e,
        None => match elapsed {
            Some(secs) => "Uptime  "@ + runtime_text(secs),
            None => "Idle"@,
        },
    }
}

/// The status line.
pub fn status_line(error: Option<&str>, elapsed: Option<u64>) -> (r: String)
    ensures
        r@ == status_text(
            match error {
                Some(e) => Some(e@),
                None => None,
            },
            match elapsed {
                Some(s) => Some(s as nat),
                None => None,
            },
        ),
{
    match error {
        Some(e) => {
            let mut out = String::from_str("! ");
            out.append(e);
            out
        },
        None => match elapsed {
            Some(secs) => {
                let mut out = String::from_str("Uptime  ");
                let t = format_runtime(secs);
                out.append(t.as_str());
                out
            },
            None => String::from_str("Idle"),
        },
    }
}

} // verus!

verus! {

/// The text of `str::to_lowercase(s)`.
pub uninterp spec fn lowercase(s: Seq<char>) -> Seq<char>;

/// `str::to_lowercase`: the Unicode lowercase mapping of `s`. The result is
/// named; nothing more is stated.
#[verifier::external_body]
fn to_lowercase(s: &str) -> (r: String)
    ensures
        r@ == lowercase(s@),
{
    s.to_lowercase()
}

/// The search text as it is compared: trimmed and lowercased.
pub open spec fn search_key(query: Seq<char>) -> Seq<char> {
    lowercase(trimmed(query))
}

/// Whether an app named `name` is listed for the search text `query`: every
/// app for an empty search, else those whose lowercased name contains it.
pub open spec fn name_matches(name: Seq<char>, query: Seq<char>) -> bool {
    search_key(query).len() == 0 || contains_text(lowercase(name), search_key(query))
}

/// The positions, below `n`, of the apps listed for `query`, in order.
pub open spec fn matching_positions(apps: Seq<AppEntry>, query: Seq<char>, n: nat) -> Seq<usize>
    decreases n,
{
    if n == 0 {
        Seq::empty()
    } else {
        let before = matching_positions(apps, query, (n - 1) as nat);
        if name_matches(apps[n - 1].name@, query) {
            before.push((n - 1) as usize)
        } else {
            before
        }
    }
}

/// The positions of the apps the hub lists for the search text `query`, in
/// the order of `apps`.
pub fn matching_apps(apps: &[AppEntry], query: &str) -> (r: Vec<usize>)
    ensures
        r@ == matching_positions(apps@, query@, apps@.len()),
{
    let t = trim(query);
    let q = to_lowercase(t.as_str());
    let mut out: Vec<usize> = Vec::new();
    let mut k: usize = 0;
    while k < apps.len()
        invariant
            k <= apps@.len(),
            q@ == search_key(query@),
            out@ == matching_positions(apps@, query@, k as nat),
        decreases apps@.len() - k,
    {
        let name = to_lowercase(apps[k].name.as_str());
        if q.as_str().is_empty() || contains(name.as_str(), q.as_str()) {
            out.push(k);
        }
        k += 1;
    }
    out
}

/// The position of the first app whose id is `id`, if there is one.
pub fn find_app(apps: &[AppEntry], id: &str) -> (r: Option<usize>)
    ensures
        match r {
            Some(k) => k < apps@.len() && apps@[k as int].id@ == id@ && forall|j: int|
                0 <= j < k ==> apps@[j].id@ != id@,
            None => forall|j: int| 0 <= j < apps@.len() ==> apps@[j].id@ != id@,
        },
{
    let mut k: usize = 0;
    while k < apps.len()
        invariant
            k <= apps@.len(),
            forall|j: int| 0 <= j < k ==> apps@[j].id@ != id@,
        decreases apps@.len() - k,
    {
        if same_text(apps[k].id.as_str(), id) {
            return Some(k);
        }
        k += 1;
    }
    None
}

/// `c` in upper case where it is an ASCII lower-case letter
/// (`char::to_ascii_uppercase`).
pub open spec fn ascii_upper(c: char) -> char {
    if 'a' <= c && c <= 'z' {
        ((c as u32) - 32) as char
    } else {
        c
    }
}

/// The letter shown in an app's badge: the first character of its name in
/// ASCII upper case, or `?` for an empty name.
pub open spec fn badge_letter(name: Seq<char>) -> char {
    if name.len() > 0 {
        ascii_upper(name[0])
    } else {
        '?'
    }
}

/// The letter shown in the badge of the app named `name`.
pub fn initial(name: &str) -> (r: char)
    ensures
        r == badge_letter(name@),
{
    if name.unicode_len() == 0 {
        return '?';
    }
    let c = name.get_char(0);
    if 'a' <= c && c <= 'z' {
        let b = (c as u8) - 32;
        b as char
    } else {
        c
    }
}

} // verus!

verus! {

/// What the list area shows.
#[derive(Debug)]
pub enum ListContents {
    /// A message in place of the list.
    Message(String),
    /// The rows, as positions in the configuration's apps.
    Rows(Vec<usize>),
}

/// What the list area shows for `apps` and the search text `query`: a hint
/// when there are no apps, a notice when none matches, else the matches.
pub open spec fn list_shows(apps: Seq<AppEntry>, query: Seq<char>, r: ListContents) -> bool {
    if apps.len() == 0 {
        r matches ListContents::Message(m) && m@ == "No apps yet. Add them in config.toml."@
    } else if matching_positions(apps, query, apps.len()).len() == 0 {
        r matches ListContents::Message(m) && m@ == "No apps match '"@ + query + "'"@
    } else {
        r matches ListContents::Rows(rows) && rows@ == matching_positions(apps, query, apps.len())
    }
}

/// What the list area shows for `apps` and the search text `query`.
pub fn list_contents(apps: &[AppEntry], query: &str) -> (r: ListContents)
    ensures
        list_shows(apps@, query@, r),
{
    if apps.len() == 0 {
        return ListContents::Message(String::from_str("No apps yet. Add them in config.toml."));
    }
    let rows = matching_apps(apps, query);
    if rows.len() == 0 {
        let mut m = String::from_str("No apps match '");
        m.append(query);
        m.append("'");
        return ListContents::Message(m);
    }
    ListContents::Rows(rows)
}

/// What pressing an app's play/stop button does.
#[derive(Debug)]
pub enum Toggle {
    /// Stop the app that runs.
    Stop,
    /// Launch the app's executable `exe`, in `cwd` where there is one.
    Launch { exe: String, cwd: Option<String> },
}

/// What pressing the button of `entry` does, `running` being the id of the
/// app that runs, if any: stop it where it is this app, else launch this app
/// from where the configuration `c` puts it.
pub open spec fn toggle_for(c: ConfigView, entry: AppEntry, running: Option<Seq<char>>, r: Toggle) -> bool {
    if running == Some(entry.id@) {
        r matches Toggle::Stop
    } else {
        r matches Toggle::Launch { exe, cwd } && exe@ == exe_path(c, entry) && match cwd_path(
            c,
            entry,
        ) {
            Some(p) => cwd matches Some(d) && d@ == p,
            None => cwd is None,
        }
    }
}

/// What pressing the button of `entry` does.
pub fn toggle(config: &Config, entry: &AppEntry, running: Option<&str>) -> (r: Toggle)
    ensures
        toggle_for(
            config@,
            *entry,
            match running {
                Some(id) => Some(id@),
                None => None,
            },
            r,
        ),
{
    match running {
        Some(id) => {
            if same_text(id, entry.id.as_str()) {
                return Toggle::Stop;
            }
        },
        None => {},
    }
    let exe = config.resolve_exe(entry);
    let cwd = config.resolve_cwd(entry);
    Toggle::Launch { exe, cwd }
}

/// The icons the hub draws.
#[derive(Debug, Clone, Copy, PartialEq, Eq)]
pub enum IconName {
    Play,
    Pause,
    Search,
}

impl IconName {
    /// The asset path of the icon.
    pub fn path(&self) -> (r: &'static str)
        ensures
            r@ == match self {
                IconName::Play => "icons/play.svg"@,
                IconName::Pause => "icons/pause.svg"@,
                IconName::Search => "icons/search.svg"@,
            },
    {
        match self {
            IconName::Play => "icons/play.svg",
            IconName::Pause => "icons/pause.svg",
            IconName::Search => "icons/search.svg",
        }
    }

    /// The glyph of an app's button: pause while the app runs, play else.
    pub fn for_button(running: bool) -> (r: IconName)
        ensures
            r == (if running {
                IconName::Pause
            } else {
                IconName::Play
            }),
    {
        if running {
            IconName::Pause
        } else {
            IconName::Play
        }
    }
}

/// The text of the update banner for a release of version `version`.
pub fn update_notice(version: &str) -> (r: String)
    ensures
        r@ == "Update available: v"@ + version@,
{
    let mut out = String::from_str("Update available: v");
    out.append(version);
    out
}

} // verus!

verus! {

/// Escape empties the search text, whatever it held.
pub proof fn escape_clears_search(query: Seq<char>, key_char: Option<Seq<char>>)
    ensures
        search_after(query, "escape"@, key_char) == Seq::<char>::empty(),
{
    reveal_strlit("escape");
    reveal_strlit("backspace");
    assert("escape"@.len() != "backspace"@.len());
}

/// Typing one printable character and then pressing backspace leaves the
/// search text as it was.
pub proof fn backspace_undoes_typing(query: Seq<char>, key: Seq<char>, c: char)
    requires
        key != "backspace"@,
        key != "escape"@,
        !is_control_spec(c),
    ensures
        search_after(search_after(query, key, Some(seq![c])), "backspace"@, None) == query,
{
    let typed = search_after(query, key, Some(seq![c]));
    assert(typed == query + seq![c]);
    assert((query + seq![c]).drop_last() =~= query);
}

/// An empty (or blank) search lists every app, in order.
pub proof fn blank_search_lists_all(apps: Seq<AppEntry>, query: Seq<char>, n: nat)
    requires
        search_key(query).len() == 0,
        n <= apps.len(),
    ensures
        matching_positions(apps, query, n) == Seq::new(n, |k: int| k as usize),
    decreases n,
{
    if n > 0 {
        blank_search_lists_all(apps, query, (n - 1) as nat);
        assert(matching_positions(apps, query, n) =~= Seq::new(n, |k: int| k as usize));
    } else {
        assert(matching_positions(apps, query, n) =~= Seq::new(n, |k: int| k as usize));
    }
}

} // verus!

verus! {

proof fn lemma_positions_below(apps: Seq<AppEntry>, query: Seq<char>, n: nat)
    requires
        n <= usize::MAX,
    ensures
        forall|i: int|
            0 <= i < matching_positions(apps, query, n).len() ==> #[trigger] matching_positions(
                apps,
                query,
                n,
            )[i] < n,
    decreases n,
{
    if n > 0 {
        let m = (n - 1) as nat;
        lemma_positions_below(apps, query, m);
        let before = matching_positions(apps, query, m);
        if name_matches(apps[m as int].name@, query) {
            let after = before.push(m as usize);
            assert forall|i: int| 0 <= i < after.len() implies #[trigger] after[i] < n by {
                if i < before.len() {
                    assert(after[i] == before[i]);
                }
            }
        }
    }
}

proof fn lemma_listed(apps: Seq<AppEntry>, query: Seq<char>, n: nat, k: int)
    requires
        n <= usize::MAX,
        0 <= k < n,
    ensures
        matching_positions(apps, query, n).contains(k as usize) <==> name_matches(
            apps[k].name@,
            query,
        ),
    decreases n,
{
    let m = (n - 1) as nat;
    let before = matching_positions(apps, query, m);
    lemma_positions_below(apps, query, m);
    if k < m {
        lemma_listed(apps, query, m, k);
    }
    if name_matches(apps[m as int].name@, query) {
        let after = before.push(m as usize);
        assert(after[before.len() as int] == m as usize);
        if before.contains(k as usize) {
            let w = choose|w: int| 0 <= w < before.len() && before[w] == k as usize;
            assert(after[w] == k as usize);
        }
        if after.contains(k as usize) {
            let w = choose|w: int| 0 <= w < after.len() && after[w] == k as usize;
            if w < before.len() {
                assert(before[w] == k as usize);
            }
        }
    } else {
        if before.contains(k as usize) {
            let w = choose|w: int| 0 <= w < before.len() && before[w] == k as usize;
            assert(before[w] < m);
        }
    }
}

proof fn lemma_listed_ascending(apps: Seq<AppEntry>, query: Seq<char>, n: nat)
    requires
        n <= usize::MAX,
    ensures
        forall|i: int, j: int|
            0 <= i < j < matching_positions(apps, query, n).len() ==> #[trigger] matching_positions(
                apps,
                query,
                n,
            )[i] < #[trigger] matching_positions(apps, query, n)[j],
    decreases n,
{
    if n > 0 {
        let m = (n - 1) as nat;
        lemma_listed_ascending(apps, query, m);
        lemma_positions_below(apps, query, m);
        let before = matching_positions(apps, query, m);
        if name_matches(apps[m as int].name@, query) {
            let after = before.push(m as usize);
            assert forall|i: int, j: int| 0 <= i < j < after.len() implies #[trigger] after[i]
                < #[trigger] after[j] by {
                assert(after[i] == before[i]);
                if j < before.len() {
                    assert(after[j] == before[j]);
                }
            }
        }
    }
}

/// The list holds exactly the apps whose names match the search, each once,
/// in the order of the configuration.
pub proof fn listed_iff_matching(apps: Seq<AppEntry>, query: Seq<char>)
    requires
        apps.len() <= usize::MAX,
    ensures
        forall|k: int|
            0 <= k < apps.len() ==> (matching_positions(apps, query, apps.len()).contains(
                k as usize,
            ) <==> name_matches(#[trigger] apps[k].name@, query)),
        forall|i: int, j: int|
            0 <= i < j < matching_positions(apps, query, apps.len()).len() ==> #[trigger] matching_positions(
                apps,
                query,
                apps.len(),
            )[i] < #[trigger] matching_positions(apps, query, apps.len())[j],
{
    assert forall|k: int| 0 <= k < apps.len() implies (matching_positions(
        apps,
        query,
        apps.len(),
    ).contains(k as usize) <==> name_matches(#[trigger] apps[k].name@, query)) by {
        lemma_listed(apps, query, apps.len(), k);
    }
    lemma_listed_ascending(apps, query, apps.len());
}

} // verus!

verus! {

/// Whether the hub redraws on a tick: when the running app has exited, the
/// configuration was reloaded, or an app runs (its running time moves on).
pub fn should_redraw(exited: bool, reloaded: bool, running: bool) -> (r: bool)
    ensures
        r == (exited || reloaded || running),
{
    exited || reloaded || running
}

/// What the search box shows for the search text `query`: the placeholder
/// `Search` (dimmed) while it is empty, else the text itself.
pub open spec fn search_shows(query: Seq<char>) -> (Seq<char>, bool) {
    if query.len() == 0 {
        ("Search"@, true)
    } else {
        (query, false)
    }
}

/// The text of the search box, and whether it is the placeholder.
pub fn search_display(query: &str) -> (r: (String, bool))
    ensures
        (r.0@, r.1) == search_shows(query@),
{
    if query.is_empty() {
        (String::from_str("Search"), true)
    } else {
        (query.to_owned(), false)
    }
}

} // verus!

verus! {

/// Whether `s` is exactly two decimal digits reading as `v`.
pub open spec fn two_digit_field(s: Seq<char>, v: int) -> bool {
    &&& s.len() == 2
    &&& is_digit(s[0]) && is_digit(s[1])
    &&& digits_value(s) == v
}

/// Below one hundred, `two_digits(n)` is two digits that read as `n`.
pub proof fn two_digits_reads_back(n: nat)
    requires
        n < 100,
    ensures
        two_digit_field(two_digits(n), n as int),
{
    decimal_reads_back(n);
    let t = two_digits(n);
    if n < 10 {
        assert(decimal(n).len() == 1);
        assert(t =~= seq!['0', decimal(n)[0]]);
        assert(t.drop_last() =~= seq!['0']);
        assert(seq!['0'].drop_last() =~= Seq::<char>::empty());
        assert(digits_value(seq!['0']) == digits_value(seq!['0'].drop_last()) * 10 + 0);
        assert(digits_value(t) == digits_value(t.drop_last()) * 10 + (t.last() as int - '0' as int));
        assert(digits_value(decimal(n)) == digits_value(decimal(n).drop_last()) * 10 + (decimal(n).last() as int - '0' as int));
        assert(decimal(n).drop_last() =~= Seq::<char>::empty());
    } else {
        decimal_reads_back(n / 10);
        assert(decimal(n / 10).len() == 1);
        assert(t.len() == 2);
    }
}

/// The running time reads back as the clock of `secs` seconds: below an
/// hour, minutes (no leading zeros), a colon and two digits of seconds;
/// from an hour on, hours, then two digits each of minutes and seconds.
pub proof fn runtime_reads_back(secs: nat)
    ensures
        secs < 3600 ==> exists|m: Seq<char>, ss: Seq<char>|
            #![trigger numeral(m, secs as int / 60), two_digit_field(ss, secs as int % 60)]
            runtime_text(secs) == m + seq![':'] + ss && numeral(m, secs as int / 60)
                && two_digit_field(ss, secs as int % 60),
        secs >= 3600 ==> exists|h: Seq<char>, mm: Seq<char>, ss: Seq<char>|
            #![trigger numeral(h, secs as int / 3600), two_digit_field(mm, (secs as int % 3600) / 60), two_digit_field(ss, secs as int % 60)]
            runtime_text(secs) == h + seq![':'] + mm + seq![':'] + ss && numeral(
                h,
                secs as int / 3600,
            ) && two_digit_field(mm, (secs as int % 3600) / 60) && two_digit_field(
                ss,
                secs as int % 60,
            ),
{
    let hours = secs / 3600;
    let minutes = (secs % 3600) / 60;
    let seconds = secs % 60;
    two_digits_reads_back(seconds);
    two_digits_reads_back(minutes);
    decimal_reads_back(hours);
    decimal_reads_back(minutes);
    if secs < 3600 {
        assert(minutes == secs / 60);
        assert(runtime_text(secs) == decimal(minutes) + seq![':'] + two_digits(seconds));
    } else {
        assert(runtime_text(secs) == decimal(hours) + seq![':'] + two_digits(minutes) + seq![':']
            + two_digits(seconds));
    }
}

} // verus!

verus! {

/// The badge shows a name's first letter in upper case: an ASCII lower-case
/// first letter becomes the upper-case letter 32 code points below it; any
/// other first character is shown as it is, and an empty name shows `?`.
pub proof fn badge_letter_is_capitalised(name: Seq<char>)
    ensures
        name.len() > 0 && 'a' <= name[0] && name[0] <= 'z' ==> 'A' <= badge_letter(name)
            && badge_letter(name) <= 'Z' && badge_letter(name) as u32 + 32 == name[0] as u32,
        name.len() > 0 && !('a' <= name[0] && name[0] <= 'z') ==> badge_letter(name) == name[0],
        name.len() == 0 ==> badge_letter(name) == '?',
{
}

} // verus!
