//! Configuration, read from two optional files and merged.
//!
//! `/etc/wrapt/config.toml` sets machine-wide defaults (a package or an admin
//! can ship it); `~/.config/wrapt/config.toml`, or `$WRAPT_CONFIG`, is the
//! user's own and overrides it key by key, except `never_restart`, where the two
//! lists are unioned. Every field is optional, anything unset falls back to a
//! built-in default, and an explicit flag on the command line beats both files.

use vstd::prelude::*;

use crate::number::{decimal, decimal_usize};
use crate::order::{listing, listing_is_unique, sort_texts};
use crate::selfupdate::DEFAULT_REPO;
use crate::text::{
    cat2, cat3, cat4, cat5, chars_of, copy_option, copy_strings, ends, has_suffix, is_letter, join,
    join_strings, letter, lines, lines_of, opt_str, opt_text, opt_texts, pieces, same_str, split,
    split_at_char, string_of, texts, trim, trim_of,
};
use crate::ui::color_wanted;

verus! {

/// Where a setting's value came from.
#[derive(Clone, Copy, PartialEq, Eq, Structural, Debug)]
pub enum Source {
    Default,
    System,
    User,
    /// Both layers contributed: only possible for a setting that is unioned
    /// rather than overridden.
    Both,
}

impl Source {
    /// What the source is called.
    pub open spec fn title(self) -> Seq<char> {
        match self {
            Source::Default => "default"@,
            Source::System => "system"@,
            Source::User => "user"@,
            Source::Both => "system+user"@,
        }
    }

    /// What the source is called.
    pub fn label(self) -> (r: &'static str)
        ensures
            r@ == self.title(),
    {
        match self {
            Source::Default => "default",
            Source::System => "system",
            Source::User => "user",
            Source::Both => "system+user",
        }
    }
}

/// The settings; those that are not set are left to the layer below.
#[derive(Debug, Clone)]
pub struct Config {
    /// Default number of parallel downloads.
    pub parallel: Option<usize>,
    /// Assume "yes" on prompts without needing -y.
    pub assume_yes: Option<bool>,
    /// Show apt's raw output by default.
    pub verbose: Option<bool>,
    /// Colour policy: "auto" (default), "always", or "never".
    pub color: Option<String>,
    /// GitHub `owner/name` that `self-update` pulls releases from.
    pub repo: Option<String>,
    /// After `wrapt upgrade`, check whether a newer wrapt is available.
    pub notify_updates: Option<bool>,
    /// Services that must never be restarted after a transaction, on top of the
    /// session-critical ones that are found. Names may be given with or without
    /// the `.service` suffix.
    pub never_restart: Option<Vec<String>>,
    /// What to do about services using upgraded-out libraries: "ask" (default),
    /// "auto" to restart the safe ones without prompting, or "never" to only
    /// report them.
    pub restart: Option<String>,
    /// How many kernels `clean --kernels` keeps, newest first (default 2). The
    /// running kernel is always kept on top of this.
    pub keep_kernels: Option<usize>,
    /// Two-letter country code for `fetch` to pull its mirror list from.
    pub mirror_country: Option<String>,
    /// How many transactions to keep in the history (default 1000).
    pub history_limit: Option<usize>,
}

pub struct ConfigView {
    pub parallel: Option<usize>,
    pub assume_yes: Option<bool>,
    pub verbose: Option<bool>,
    pub color: Option<Seq<char>>,
    pub repo: Option<Seq<char>>,
    pub notify_updates: Option<bool>,
    pub never_restart: Option<Seq<Seq<char>>>,
    pub restart: Option<Seq<char>>,
    pub keep_kernels: Option<usize>,
    pub mirror_country: Option<Seq<char>>,
    pub history_limit: Option<usize>,
}

impl View for Config {
    type V = ConfigView;

    open spec fn view(&self) -> ConfigView {
        ConfigView {
            parallel: self.parallel,
            assume_yes: self.assume_yes,
            verbose: self.verbose,
            color: opt_text(self.color),
            repo: opt_text(self.repo),
            notify_updates: self.notify_updates,
            never_restart: opt_texts(self.never_restart),
            restart: opt_text(self.restart),
            keep_kernels: self.keep_kernels,
            mirror_country: opt_text(self.mirror_country),
            history_limit: self.history_limit,
        }
    }
}

/// Nothing is set.
pub open spec fn unset() -> ConfigView {
    ConfigView {
        parallel: None,
        assume_yes: None,
        verbose: None,
        color: None,
        repo: None,
        notify_updates: None,
        never_restart: None,
        restart: None,
        keep_kernels: None,
        mirror_country: None,
        history_limit: None,
    }
}

impl Default for Config {
    fn default() -> (r: Config)
        ensures
            r@ == unset(),
    {
        Config {
            parallel: None,
            assume_yes: None,
            verbose: None,
            color: None,
            repo: None,
            notify_updates: None,
            never_restart: None,
            restart: None,
            keep_kernels: None,
            mirror_country: None,
            history_limit: None,
        }
    }
}

// ---------------------------------------------------------------------------
// Two layers
// ---------------------------------------------------------------------------

/// The first where it is set, else the second.
pub open spec fn or<A>(over: Option<A>, base: Option<A>) -> Option<A> {
    if over is Some {
        over
    } else {
        base
    }
}

/// `out` combines the two lists: in order and each entry once where there are
/// two, else the one that there is.
pub open spec fn is_union(
    out: Option<Seq<Seq<char>>>,
    base: Option<Seq<Seq<char>>>,
    over: Option<Seq<Seq<char>>>,
) -> bool {
    match (base, over) {
        (Some(a), Some(b)) => out is Some && listing(out->0, (a + b).to_set()),
        _ => out == or(over, base),
    }
}

/// `out` is `over` laid on top of `base`, key by key; `never_restart` is unioned.
pub open spec fn is_merge(out: ConfigView, base: ConfigView, over: ConfigView) -> bool {
    &&& out.parallel == or(over.parallel, base.parallel)
    &&& out.assume_yes == or(over.assume_yes, base.assume_yes)
    &&& out.verbose == or(over.verbose, base.verbose)
    &&& out.color == or(over.color, base.color)
    &&& out.repo == or(over.repo, base.repo)
    &&& out.notify_updates == or(over.notify_updates, base.notify_updates)
    &&& is_union(out.never_restart, base.never_restart, over.never_restart)
    &&& out.restart == or(over.restart, base.restart)
    &&& out.keep_kernels == or(over.keep_kernels, base.keep_kernels)
    &&& out.mirror_country == or(over.mirror_country, base.mirror_country)
    &&& out.history_limit == or(over.history_limit, base.history_limit)
}

fn pick<T>(over: Option<T>, base: Option<T>) -> (r: Option<T>)
    ensures
        r == or(over, base),
{
    match over {
        Some(x) => Some(x),
        None => base,
    }
}

/// Combine two optional lists, keeping every entry from both. `None` on either
/// side leaves the other untouched.
pub fn union(base: Option<Vec<String>>, over: Option<Vec<String>>) -> (r: Option<Vec<String>>)
    ensures
        is_union(opt_texts(r), opt_texts(base), opt_texts(over)),
{
    match (base, over) {
        (Some(a), Some(b)) => {
            let ghost first = texts(a@);
            let ghost second = texts(b@);
            let mut all = a;
            let mut more = b;
            all.append(&mut more);
            assert(texts(all@) =~= first + second);
            Some(sort_texts(all))
        },
        (None, Some(b)) => Some(b),
        (a, None) => a,
    }
}

fn copy_list(o: &Option<Vec<String>>) -> (r: Option<Vec<String>>)
    ensures
        opt_texts(r) == opt_texts(*o),
{
    match o {
        Some(v) => Some(copy_strings(v)),
        None => None,
    }
}

/// What was found where a config file is looked for.
#[derive(Debug)]
pub enum FileState {
    /// Somebody else could have written it.
    Untrusted,
    Missing,
    /// It could not be read; with the reason.
    Unreadable(String),
    /// It is no configuration; with the reason.
    Invalid(String),
    Read(Config),
}

/// What one config file says. A file that is absent or not trusted says nothing.
pub open spec fn file_says(state: FileState, path: Seq<char>) -> Result<ConfigView, Seq<char>> {
    match state {
        FileState::Untrusted => Ok(unset()),
        FileState::Missing => Ok(unset()),
        FileState::Unreadable(e) => Err("cannot read "@ + path + ": "@ + e@),
        FileState::Invalid(e) => Err("invalid config at "@ + path + ": "@ + e@),
        FileState::Read(c) => match problem(c@, path) {
            Some(e) => Err(e),
            None => Ok(c@),
        },
    }
}

/// What the user's own file says; without a place for it, nothing.
pub open spec fn user_says(user: Option<(FileState, String)>) -> Result<ConfigView, Seq<char>> {
    match user {
        Some((state, path)) => file_says(state, path@),
        None => Ok(unset()),
    }
}

/// What one config file says.
pub fn read_file(state: FileState, path: &str) -> (r: Result<Config, String>)
    ensures
        match r {
            Ok(c) => file_says(state, path@) == Ok::<ConfigView, Seq<char>>(c@),
            Err(e) => file_says(state, path@) == Err::<ConfigView, Seq<char>>(e@),
        },
{
    match state {
        FileState::Untrusted => Ok(Config::default()),
        FileState::Missing => Ok(Config::default()),
        FileState::Unreadable(e) => Err(cat4("cannot read ", path, ": ", e.as_str())),
        FileState::Invalid(e) => Err(cat4("invalid config at ", path, ": ", e.as_str())),
        FileState::Read(c) => match validate(&c, path) {
            Ok(()) => Ok(c),
            Err(e) => Err(e),
        },
    }
}

impl Config {
    /// The effective configuration: system defaults with the user's own laid
    /// over the top. A missing file is not an error, but a malformed one is
    /// surfaced so the user can fix it.
    pub fn load(
        system: FileState,
        system_path: &str,
        user: Option<(FileState, String)>,
    ) -> (r: Result<Config, String>)
        ensures
            match r {
                Ok(c) => file_says(system, system_path@) is Ok && user_says(user) is Ok
                    && is_merge(c@, file_says(system, system_path@)->Ok_0, user_says(user)->Ok_0),
                Err(e) => if file_says(system, system_path@) is Err {
                    e@ == file_says(system, system_path@)->Err_0
                } else {
                    user_says(user) is Err && e@ == user_says(user)->Err_0
                },
            },
    {
        match Config::layers(system, system_path, user) {
            Ok((base, over)) => Ok(Config::merge(base, over)),
            Err(e) => Err(e),
        }
    }

    /// The two layers, unmerged, so that it can be said where each setting came
    /// from.
    pub fn layers(
        system: FileState,
        system_path: &str,
        user: Option<(FileState, String)>,
    ) -> (r: Result<(Config, Config), String>)
        ensures
            match r {
                Ok((s, u)) => file_says(system, system_path@) == Ok::<ConfigView, Seq<char>>(s@)
                    && user_says(user) == Ok::<ConfigView, Seq<char>>(u@),
                Err(e) => if file_says(system, system_path@) is Err {
                    e@ == file_says(system, system_path@)->Err_0
                } else {
                    user_says(user) is Err && e@ == user_says(user)->Err_0
                },
            },
    {
        let base = match read_file(system, system_path) {
            Ok(c) => c,
            Err(e) => return Err(e),
        };
        let over = match user {
            Some((state, path)) => match read_file(state, path.as_str()) {
                Ok(c) => c,
                Err(e) => return Err(e),
            },
            None => Config::default(),
        };
        Ok((base, over))
    }

    /// The effective config from layers already read.
    pub fn effective(system: &Config, user: &Config) -> (r: Config)
        ensures
            is_merge(r@, system@, user@),
    {
        Config::merge(system.copy(), user.copy())
    }

    fn copy(&self) -> (r: Config)
        ensures
            r@ == self@,
    {
        Config {
            parallel: self.parallel,
            assume_yes: self.assume_yes,
            verbose: self.verbose,
            color: copy_option(&self.color),
            repo: copy_option(&self.repo),
            notify_updates: self.notify_updates,
            never_restart: copy_list(&self.never_restart),
            restart: copy_option(&self.restart),
            keep_kernels: self.keep_kernels,
            mirror_country: copy_option(&self.mirror_country),
            history_limit: self.history_limit,
        }
    }

    /// Lay `over` on top of `base`, key by key.
    ///
    /// `never_restart` is the exception: the two layers are unioned rather than
    /// replaced. Forgetting to restate a machine-wide entry would silently drop
    /// a protection; the union can only ever protect more, never less.
    pub fn merge(base: Config, over: Config) -> (r: Config)
        ensures
            is_merge(r@, base@, over@),
    {
        Config {
            parallel: pick(over.parallel, base.parallel),
            assume_yes: pick(over.assume_yes, base.assume_yes),
            verbose: pick(over.verbose, base.verbose),
            color: pick(over.color, base.color),
            repo: pick(over.repo, base.repo),
            notify_updates: pick(over.notify_updates, base.notify_updates),
            never_restart: union(base.never_restart, over.never_restart),
            restart: pick(over.restart, base.restart),
            keep_kernels: pick(over.keep_kernels, base.keep_kernels),
            mirror_country: pick(over.mirror_country, base.mirror_country),
            history_limit: pick(over.history_limit, base.history_limit),
        }
    }

    /// Whether colour is wanted. "auto" (the default) honours the `NO_COLOR`
    /// convention and otherwise colours only what goes to a terminal, so that
    /// piped or redirected output stays plain.
    pub fn apply_color(&self, no_color: bool, terminal: bool) -> (r: bool)
        ensures
            r == color_wanted(self@.color, no_color, terminal),
    {
        match &self.color {
            Some(c) => if same_str(c.as_str(), "always") {
                true
            } else if same_str(c.as_str(), "never") {
                proof {
                    reveal_strlit("always");
                    reveal_strlit("never");
                    assert("always"@.len() != "never"@.len());
                }
                false
            } else {
                !no_color && terminal
            },
            None => !no_color && terminal,
        }
    }
}

// ---------------------------------------------------------------------------
// Valid values
// ---------------------------------------------------------------------------

/// The name of a text as `Debug` writes it: quoted, with escapes.
pub uninterp spec fn quoted(s: Seq<char>) -> Seq<char>;

/// `format!` with `{:?}` writes a text in quotes, what needs it escaped. What it
/// writes depends on the text alone.
#[verifier::external_body]
fn quote(s: &str) -> (r: String)
    ensures
        r@ == quoted(s@),
{
    format!("{s:?}")
}

/// What is said of a bad value: the rule that it breaks, and what was found.
pub open spec fn refusal(path: Seq<char>, rule: Seq<char>, shown: Seq<char>) -> Seq<char> {
    "invalid config at "@ + path + rule + shown + ")"@
}

/// What is said of a bad value.
pub fn refuse(path: &str, rule: &str, shown: &str) -> (r: String)
    ensures
        r@ == refusal(path@, rule@, shown@),
{
    cat5("invalid config at ", path, rule, shown, ")")
}

/// A two-letter country code.
pub open spec fn is_country(cc: Seq<char>) -> bool {
    cc.len() == 2 && is_letter(cc[0]) && is_letter(cc[1])
}

/// Some name is blank.
pub open spec fn some_blank(names: Seq<Seq<char>>) -> bool {
    exists|i: int| 0 <= i < names.len() && trim(#[trigger] names[i]).len() == 0
}

/// What is wrong with the settings, the first thing that is.
pub open spec fn problem(c: ConfigView, path: Seq<char>) -> Option<Seq<char>> {
    if c.color is Some && c.color->0 != "auto"@ && c.color->0 != "always"@ && c.color->0
        != "never"@ {
        Some(
            refusal(
                path,
                ": color must be \"auto\", \"always\", or \"never\" (got "@,
                quoted(c.color->0),
            ),
        )
    } else if c.never_restart is Some && some_blank(c.never_restart->0) {
        Some("invalid config at "@ + path + ": never_restart must not contain empty names"@)
    } else if c.restart is Some && c.restart->0 != "ask"@ && c.restart->0 != "auto"@
        && c.restart->0 != "never"@ {
        Some(
            refusal(
                path,
                ": restart must be \"ask\", \"auto\", or \"never\" (got "@,
                quoted(c.restart->0),
            ),
        )
    } else if c.keep_kernels == Some(0usize) {
        Some("invalid config at "@ + path + ": keep_kernels must be at least 1"@)
    } else if c.history_limit == Some(0usize) {
        Some("invalid config at "@ + path + ": history_limit must be at least 1"@)
    } else if c.mirror_country is Some && !is_country(c.mirror_country->0) {
        Some(
            refusal(
                path,
                ": mirror_country must be a two-letter country code like \"AU\" (got "@,
                quoted(c.mirror_country->0),
            ),
        )
    } else {
        None
    }
}

fn has_blank(names: &Vec<String>) -> (r: bool)
    ensures
        r == some_blank(texts(names@)),
{
    let ghost all = texts(names@);
    let mut i: usize = 0;
    while i < names.len()
        invariant
            i <= names@.len(),
            all == texts(names@),
            forall|j: int| 0 <= j < i ==> trim(#[trigger] all[j]).len() > 0,
        decreases names@.len() - i,
    {
        let chars = chars_of(names[i].as_str());
        if trim_of(chars.as_slice()).len() == 0 {
            assert(trim(all[i as int]).len() == 0);
            return true;
        }
        i += 1;
    }
    false
}

fn two_letters(cc: &str) -> (r: bool)
    ensures
        r == is_country(cc@),
{
    let chars = chars_of(cc);
    chars.len() == 2 && letter(chars[0]) && letter(chars[1])
}

/// Reject values that would otherwise fail silently or dangerously later.
pub fn validate(cfg: &Config, path: &str) -> (r: Result<(), String>)
    ensures
        match r {
            Ok(()) => problem(cfg@, path@) is None,
            Err(e) => problem(cfg@, path@) == Some(e@),
        },
{
    if let Some(c) = &cfg.color {
        let c = c.as_str();
        if !same_str(c, "auto") && !same_str(c, "always") && !same_str(c, "never") {
            return Err(
                refuse(
                    path,
                    ": color must be \"auto\", \"always\", or \"never\" (got ",
                    quote(c).as_str(),
                ),
            );
        }
    }
    if let Some(names) = &cfg.never_restart {
        if has_blank(names) {
            return Err(
                cat3("invalid config at ", path, ": never_restart must not contain empty names"),
            );
        }
    }
    if let Some(r) = &cfg.restart {
        let r = r.as_str();
        if !same_str(r, "ask") && !same_str(r, "auto") && !same_str(r, "never") {
            return Err(
                refuse(
                    path,
                    ": restart must be \"ask\", \"auto\", or \"never\" (got ",
                    quote(r).as_str(),
                ),
            );
        }
    }
    if let Some(n) = cfg.keep_kernels {
        if n == 0 {
            return Err(cat3("invalid config at ", path, ": keep_kernels must be at least 1"));
        }
    }
    if let Some(n) = cfg.history_limit {
        if n == 0 {
            return Err(cat3("invalid config at ", path, ": history_limit must be at least 1"));
        }
    }
    if let Some(cc) = &cfg.mirror_country {
        if !two_letters(cc.as_str()) {
            return Err(
                refuse(
                    path,
                    ": mirror_country must be a two-letter country code like \"AU\" (got ",
                    quote(cc.as_str()).as_str(),
                ),
            );
        }
    }
    Ok(())
}

// ---------------------------------------------------------------------------
// The settings, shown
// ---------------------------------------------------------------------------

/// Which layer won for one field, given whether each layer set it.
pub open spec fn came_from(user_set: bool, system_set: bool) -> Source {
    if user_set {
        Source::User
    } else if system_set {
        Source::System
    } else {
        Source::Default
    }
}

/// A number as it is shown, or the default.
pub open spec fn number_shown(o: Option<usize>, default: Seq<char>) -> Seq<char> {
    match o {
        Some(n) => decimal(n as nat),
        None => default,
    }
}

/// A switch as it is shown, or the default.
pub open spec fn switch_shown(o: Option<bool>, default: Seq<char>) -> Seq<char> {
    match o {
        Some(true) => "true"@,
        Some(false) => "false"@,
        None => default,
    }
}

/// A text as it is shown, or the default.
pub open spec fn text_shown(o: Option<Seq<char>>, default: Seq<char>) -> Seq<char> {
    match o {
        Some(t) => t,
        None => default,
    }
}

/// A list as it is shown, or the default.
pub open spec fn list_shown(o: Option<Seq<Seq<char>>>, default: Seq<char>) -> Seq<char> {
    match o {
        Some(v) => if v.len() == 0 {
            "(none)"@
        } else {
            join(v, ", "@)
        },
        None => default,
    }
}

/// A setting: its name, its value as shown and where that came from.
pub struct RowView {
    pub name: Seq<char>,
    pub value: Seq<char>,
    pub source: Source,
}

/// A row of the table as values.
pub open spec fn row_view(r: (String, String, Source)) -> RowView {
    RowView { name: r.0@, value: r.1@, source: r.2 }
}

/// The rows as values.
pub open spec fn row_views(v: Seq<(String, String, Source)>) -> Seq<RowView> {
    v.map_values(|r: (String, String, Source)| row_view(r))
}

/// The settings on how to run and how much to say. `never_restart` is unioned, so
/// that where both layers set it the value came from both.
pub open spec fn first_rows(merged: ConfigView, system: ConfigView, user: ConfigView) -> Seq<
    RowView,
> {
    let none: Seq<RowView> = seq![];
    none.push(
        RowView {
            name: "parallel"@,
            value: number_shown(merged.parallel, "5"@),
            source: came_from(user.parallel is Some, system.parallel is Some),
        },
    ).push(
        RowView {
            name: "assume_yes"@,
            value: switch_shown(merged.assume_yes, "false"@),
            source: came_from(user.assume_yes is Some, system.assume_yes is Some),
        },
    ).push(
        RowView {
            name: "verbose"@,
            value: switch_shown(merged.verbose, "false"@),
            source: came_from(user.verbose is Some, system.verbose is Some),
        },
    ).push(
        RowView {
            name: "color"@,
            value: text_shown(merged.color, "auto"@),
            source: came_from(user.color is Some, system.color is Some),
        },
    ).push(
        RowView {
            name: "restart"@,
            value: text_shown(merged.restart, "ask"@),
            source: came_from(user.restart is Some, system.restart is Some),
        },
    ).push(
        RowView {
            name: "never_restart"@,
            value: list_shown(merged.never_restart, "(none)"@),
            source: if user.never_restart is Some && system.never_restart is Some {
                Source::Both
            } else {
                came_from(user.never_restart is Some, system.never_restart is Some)
            },
        },
    )
}

/// Every setting, its effective value and which layer supplied it.
pub open spec fn described(merged: ConfigView, system: ConfigView, user: ConfigView) -> Seq<
    RowView,
> {
    first_rows(merged, system, user).push(
        RowView {
            name: "keep_kernels"@,
            value: number_shown(merged.keep_kernels, "2"@),
            source: came_from(user.keep_kernels is Some, system.keep_kernels is Some),
        },
    ).push(
        RowView {
            name: "history_limit"@,
            value: number_shown(merged.history_limit, "1000"@),
            source: came_from(user.history_limit is Some, system.history_limit is Some),
        },
    ).push(
        RowView {
            name: "mirror_country"@,
            value: text_shown(merged.mirror_country, "(geolocated)"@),
            source: came_from(user.mirror_country is Some, system.mirror_country is Some),
        },
    ).push(
        RowView {
            name: "repo"@,
            value: text_shown(merged.repo, DEFAULT_REPO@),
            source: came_from(user.repo is Some, system.repo is Some),
        },
    ).push(
        RowView {
            name: "notify_updates"@,
            value: switch_shown(merged.notify_updates, "false"@),
            source: came_from(user.notify_updates is Some, system.notify_updates is Some),
        },
    )
}

fn source(user_set: bool, system_set: bool) -> (r: Source)
    ensures
        r == came_from(user_set, system_set),
{
    if user_set {
        Source::User
    } else if system_set {
        Source::System
    } else {
        Source::Default
    }
}

fn show_number(o: Option<usize>, default: &str) -> (r: String)
    ensures
        r@ == number_shown(o, default@),
{
    match o {
        Some(n) => decimal_usize(n),
        None => default.to_owned(),
    }
}

fn show_switch(o: Option<bool>, default: &str) -> (r: String)
    ensures
        r@ == switch_shown(o, default@),
{
    match o {
        Some(true) => "true".to_owned(),
        Some(false) => "false".to_owned(),
        None => default.to_owned(),
    }
}

fn show_text(o: &Option<String>, default: &str) -> (r: String)
    ensures
        r@ == text_shown(opt_text(*o), default@),
{
    match o {
        Some(t) => t.clone(),
        None => default.to_owned(),
    }
}

fn show_list(o: &Option<Vec<String>>, default: &str) -> (r: String)
    ensures
        r@ == list_shown(opt_texts(*o), default@),
{
    match o {
        Some(v) => if v.len() == 0 {
            "(none)".to_owned()
        } else {
            join_strings(v, ", ")
        },
        None => default.to_owned(),
    }
}

fn add_row(rows: &mut Vec<(String, String, Source)>, name: &str, value: String, source: Source)
    ensures
        row_views(final(rows)@) == row_views(old(rows)@).push(
            RowView { name: name@, value: value@, source },
        ),
{
    rows.push((name.to_owned(), value, source));
    assert(row_views(rows@) =~= row_views(old(rows)@).push(
        RowView { name: name@, value: value@, source },
    ));
}

fn describe_first(
    merged: &Config,
    system: &Config,
    user: &Config,
) -> (rows: Vec<(String, String, Source)>)
    ensures
        row_views(rows@) == first_rows(merged@, system@, user@),
{
    let mut rows: Vec<(String, String, Source)> = Vec::new();
    assert(row_views(rows@) =~= seq![]);
    add_row(
        &mut rows,
        "parallel",
        show_number(merged.parallel, "5"),
        source(user.parallel.is_some(), system.parallel.is_some()),
    );
    add_row(
        &mut rows,
        "assume_yes",
        show_switch(merged.assume_yes, "false"),
        source(user.assume_yes.is_some(), system.assume_yes.is_some()),
    );
    add_row(
        &mut rows,
        "verbose",
        show_switch(merged.verbose, "false"),
        source(user.verbose.is_some(), system.verbose.is_some()),
    );
    add_row(
        &mut rows,
        "color",
        show_text(&merged.color, "auto"),
        source(user.color.is_some(), system.color.is_some()),
    );
    add_row(
        &mut rows,
        "restart",
        show_text(&merged.restart, "ask"),
        source(user.restart.is_some(), system.restart.is_some()),
    );
    add_row(
        &mut rows,
        "never_restart",
        show_list(&merged.never_restart, "(none)"),
        if user.never_restart.is_some() && system.never_restart.is_some() {
            Source::Both
        } else {
            source(user.never_restart.is_some(), system.never_restart.is_some())
        },
    );
    rows
}

/// Every setting, its effective value, and which layer supplied it.
pub fn describe(merged: &Config, system: &Config, user: &Config) -> (r: Vec<
    (String, String, Source),
>)
    ensures
        row_views(r@) == described(merged@, system@, user@),
{
    let mut rows = describe_first(merged, system, user);
    add_row(
        &mut rows,
        "keep_kernels",
        show_number(merged.keep_kernels, "2"),
        source(user.keep_kernels.is_some(), system.keep_kernels.is_some()),
    );
    add_row(
        &mut rows,
        "history_limit",
        show_number(merged.history_limit, "1000"),
        source(user.history_limit.is_some(), system.history_limit.is_some()),
    );
    add_row(
        &mut rows,
        "mirror_country",
        show_text(&merged.mirror_country, "(geolocated)"),
        source(user.mirror_country.is_some(), system.mirror_country.is_some()),
    );
    add_row(
        &mut rows,
        "repo",
        show_text(&merged.repo, DEFAULT_REPO),
        source(user.repo.is_some(), system.repo.is_some()),
    );
    add_row(
        &mut rows,
        "notify_updates",
        show_switch(merged.notify_updates, "false"),
        source(user.notify_updates.is_some(), system.notify_updates.is_some()),
    );
    rows
}

// ---------------------------------------------------------------------------
// The files
// ---------------------------------------------------------------------------

/// The commented starter file. Every key is present but commented out, so the
/// file documents itself without freezing today's defaults into it.
pub const TEMPLATE: &'static str = "\
# wrapt configuration. Uncomment a line to change it; anything left commented
# uses the built-in default. A command-line flag always wins over this file.
#
# A machine-wide file at /etc/wrapt/config.toml is read first, and anything
# set here overrides it.

# Number of packages to download at once.
#parallel = 5

# Skip confirmation prompts, as if -y were always passed.
#assume_yes = false

# Show apt's raw output instead of wrapt's progress display.
#verbose = false

# Colour: \"auto\" follows the terminal and NO_COLOR, or force \"always\"/\"never\".
#color = \"auto\"

# Services still using upgraded-out libraries after an upgrade:
#   \"ask\"   prompt to restart them (default)
#   \"auto\"  restart them without asking
#   \"never\" only report them
# wrapt never restarts your display manager, the unit owning a live login
# session, dbus, systemd-logind or polkit, whatever this is set to.
#restart = \"ask\"

# Extra services to leave alone -- safe to restart, but costly to interrupt.
# Names work with or without the .service suffix.
#never_restart = [\"docker\", \"postgresql\"]

# How many kernels `clean --kernels` keeps, newest first. The running kernel
# is always kept as well. Below 2 you have no fallback if a kernel won't boot.
#keep_kernels = 2

# How many transactions `wrapt history` keeps. Older ones are dropped as new
# ones arrive. Worth lowering on a machine that runs many transactions and
# never undoes them, like a CI runner.
#history_limit = 1000

# Two-letter country code for `fetch` to pull its mirror list from. Worth
# setting if `fetch` finds only a handful of mirrors.
#mirror_country = \"AU\"

# Where `self-update` looks for new releases, as owner/name.
#repo = \"marc-cr1810/wrapt\"

# Mention a newer wrapt after `upgrade`.
#notify_updates = false
";

/// Where the machine-wide file is, unless the environment names another place.
pub open spec fn machine_path(given: Option<Seq<char>>) -> Seq<char> {
    match given {
        Some(p) => p,
        None => "/etc/wrapt/config.toml"@,
    }
}

/// Where the machine-wide file is.
pub fn machine_config_path(given: Option<&str>) -> (r: String)
    ensures
        r@ == machine_path(opt_str(given)),
{
    match given {
        Some(p) => p.to_owned(),
        None => "/etc/wrapt/config.toml".to_owned(),
    }
}

/// A relative path below a directory.
pub open spec fn below(base: Seq<char>, rest: Seq<char>) -> Seq<char> {
    if base.len() == 0 || has_suffix(base, "/"@) {
        base + rest
    } else {
        base + "/"@ + rest
    }
}

/// A relative path below a directory.
pub fn join_path(base: &str, rest: &str) -> (r: String)
    ensures
        r@ == below(base@, rest@),
{
    let chars = chars_of(base);
    if chars.len() == 0 || ends(chars.as_slice(), "/") {
        cat2(base, rest)
    } else {
        cat3(base, "/", rest)
    }
}

/// Where the user's own file is: what `$WRAPT_CONFIG` names; else in the home of
/// the user who invoked sudo, which resets `$HOME` to root's; else where
/// `$XDG_CONFIG_HOME` or `$HOME` say.
pub open spec fn user_path(
    given: Option<Seq<char>>,
    sudo_home: Option<Seq<char>>,
    xdg: Option<Seq<char>>,
    home: Option<Seq<char>>,
) -> Option<Seq<char>> {
    if given is Some {
        given
    } else if sudo_home is Some {
        Some(below(sudo_home->0, ".config/wrapt/config.toml"@))
    } else if xdg is Some {
        Some(below(xdg->0, "wrapt/config.toml"@))
    } else if home is Some {
        Some(below(home->0, ".config/wrapt/config.toml"@))
    } else {
        None
    }
}

/// Where the user's own file is. `None` where there is no home.
pub fn user_config_path(
    given: Option<&str>,
    sudo_home: Option<&str>,
    xdg: Option<&str>,
    home: Option<&str>,
) -> (r: Option<String>)
    ensures
        opt_text(r) == user_path(opt_str(given), opt_str(sudo_home), opt_str(xdg), opt_str(home)),
{
    if let Some(p) = given {
        return Some(p.to_owned());
    }
    if let Some(h) = sudo_home {
        return Some(join_path(h, ".config/wrapt/config.toml"));
    }
    if let Some(x) = xdg {
        return Some(join_path(x, "wrapt/config.toml"));
    }
    match home {
        Some(h) => Some(join_path(h, ".config/wrapt/config.toml")),
        None => None,
    }
}

/// Another user than root called sudo.
pub open spec fn by_another(sudo_user: Option<Seq<char>>) -> bool {
    sudo_user matches Some(u) && u.len() > 0 && u != "root"@
}

/// Whether sudo was invoked by somebody whose home is to be asked for.
pub fn invoked_by(sudo_user: Option<&str>) -> (r: bool)
    ensures
        r == (sudo_user is Some && sudo_user->0@.len() > 0 && sudo_user->0@ != "root"@),
        r == by_another(opt_str(sudo_user)),
{
    match sudo_user {
        Some(u) => chars_of(u).len() > 0 && !same_str(u, "root"),
        None => false,
    }
}

/// The home field (the sixth, between colons) of the first passwd entry; an
/// empty one is none.
pub open spec fn passwd_home(text: Seq<char>) -> Option<Seq<char>> {
    let ls = lines(text);
    if ls.len() == 0 {
        None
    } else {
        let fields = split(ls[0], ':');
        if fields.len() < 6 || trim(fields[5]).len() == 0 {
            None
        } else {
            Some(trim(fields[5]))
        }
    }
}

/// The home field of a passwd entry.
pub fn home_from_passwd(line: &str) -> (r: Option<String>)
    ensures
        opt_text(r) == passwd_home(line@),
{
    let chars = chars_of(line);
    let ls = lines_of(chars.as_slice());
    assert(pieces(ls@).len() == ls@.len());
    if ls.len() == 0 {
        return None;
    }
    assert(pieces(ls@)[0] == ls@[0]@);
    let fields = split_at_char(ls[0], ':');
    assert(pieces(fields@).len() == fields@.len());
    if fields.len() < 6 {
        return None;
    }
    assert(pieces(fields@)[5] == fields@[5]@);
    let home = trim_of(fields[5]);
    if home.len() == 0 {
        None
    } else {
        Some(string_of(home))
    }
}

/// Whether a config file is safe for root to read: only its owner can write it,
/// and that is root or the user who invoked sudo.
pub open spec fn owned_safely(file_uid: u32, mode: u32, invoking_uid: Option<u32>) -> bool {
    mode & 0o022u32 == 0 && (file_uid == 0 || invoking_uid == Some(file_uid))
}

/// Whether a config file is safe for root to read. Running as root, a file that
/// any other user could rewrite is not honoured: `repo` decides where
/// `self-update` fetches a package to install.
pub fn trusted_owner(file_uid: u32, mode: u32, invoking_uid: Option<u32>) -> (r: bool)
    ensures
        r == owned_safely(file_uid, mode, invoking_uid),
{
    if mode & 0o022u32 != 0 {
        return false;
    }
    file_uid == 0 || match invoking_uid {
        Some(u) => u == file_uid,
        None => false,
    }
}

/// A file of settings may be relied on: always by an ordinary user, and by root
/// where it is owned safely or not there at all.
pub open spec fn may_be_relied_on(
    root: bool,
    file: Option<(u32, u32)>,
    invoking_uid: Option<u32>,
) -> bool {
    root ==> match file {
        Some((uid, mode)) => owned_safely(uid, mode, invoking_uid),
        None => true,
    }
}

/// Whether a file is trusted, given its owner and mode where it is there. It is
/// asked of root only: anybody else can only read what they could write anyway. A
/// missing file is trusted; it is handled as absent.
pub fn is_trusted(root: bool, file: Option<(u32, u32)>, invoking_uid: Option<u32>) -> (r: bool)
    ensures
        r == (!root || match file {
            Some((uid, mode)) => owned_safely(uid, mode, invoking_uid),
            None => true,
        }),
        r == may_be_relied_on(root, file, invoking_uid),
{
    if !root {
        return true;
    }
    match file {
        Some((uid, mode)) => trusted_owner(uid, mode, invoking_uid),
        None => true,
    }
}

/// What is said of a file that is not trusted.
pub fn untrusted_warning(path: &str) -> (r: String)
    ensures
        r@ == "ignoring "@ + path@
            + ": it is writable by other users, or owned by someone other than you or root"@,
{
    cat3(
        "ignoring ",
        path,
        ": it is writable by other users, or owned by someone other than you or root",
    )
}

/// What the starter config holds. An existing file is never overwritten.
pub fn write_template(path: &str, exists: bool) -> (r: Result<&'static str, String>)
    ensures
        match r {
            Ok(text) => !exists && text@ == TEMPLATE@,
            Err(e) => exists && e@ == path@ + " already exists — edit it, or delete it first"@,
        },
{
    if exists {
        Err(cat2(path, " already exists — edit it, or delete it first"))
    } else {
        Ok(TEMPLATE)
    }
}

// ---------------------------------------------------------------------------
// Laws
// ---------------------------------------------------------------------------

/// The merge can only ever protect more, never less: a service that either layer
/// names is in the merged list, and nothing else is.
pub proof fn merging_keeps_every_protection(
    out: ConfigView,
    system: ConfigView,
    user: ConfigView,
    name: Seq<char>,
)
    requires
        is_merge(out, system, user),
    ensures
        (out.never_restart is Some && out.never_restart->0.contains(name)) <==> ((
        system.never_restart is Some && system.never_restart->0.contains(name)) || (
        user.never_restart is Some && user.never_restart->0.contains(name))),
{
    if system.never_restart is Some && user.never_restart is Some {
        let a = system.never_restart->0;
        let b = user.never_restart->0;
        let v = out.never_restart->0;
        assert(v.contains(name) <==> (a + b).to_set().contains(name));
        if a.contains(name) {
            let k = choose|k: int| 0 <= k < a.len() && a[k] == name;
            assert((a + b)[k] == name);
        }
        if b.contains(name) {
            let k = choose|k: int| 0 <= k < b.len() && b[k] == name;
            assert((a + b)[a.len() + k] == name);
        }
        if (a + b).contains(name) {
            let k = choose|k: int| 0 <= k < (a + b).len() && (a + b)[k] == name;
            if k < a.len() {
                assert(a[k] == name);
            } else {
                assert(b[k - a.len()] == name);
            }
        }
    }
}

/// An empty user file leaves the machine's settings as they are.
pub proof fn an_empty_layer_changes_nothing(out: ConfigView, system: ConfigView)
    requires
        is_merge(out, system, unset()),
    ensures
        out == system,
{
}

/// There is one merged configuration only.
pub proof fn the_merge_is_unique(
    out: ConfigView,
    other: ConfigView,
    system: ConfigView,
    user: ConfigView,
)
    requires
        is_merge(out, system, user),
        is_merge(other, system, user),
    ensures
        out == other,
{
    if system.never_restart is Some && user.never_restart is Some {
        listing_is_unique(
            out.never_restart->0,
            other.never_restart->0,
            (system.never_restart->0 + user.never_restart->0).to_set(),
        );
    }
}

/// A setting that is said to be a default shows the built-in value.
pub proof fn a_default_shows_the_built_in_value(
    merged: ConfigView,
    system: ConfigView,
    user: ConfigView,
    i: int,
)
    requires
        is_merge(merged, system, user),
        0 <= i < described(merged, system, user).len(),
        described(merged, system, user)[i].source == Source::Default,
    ensures
        described(merged, system, user)[i].value == described(unset(), unset(), unset())[i].value,
{
}

/// A file that its group or others can write is never trusted, whoever owns it.
pub proof fn a_file_others_can_write_is_never_trusted(
    file_uid: u32,
    mode: u32,
    invoking_uid: Option<u32>,
)
    requires
        mode & 0o020u32 != 0 || mode & 0o002u32 != 0,
    ensures
        !owned_safely(file_uid, mode, invoking_uid),
{
    assert(mode & 0o022u32 != 0) by (bit_vector)
        requires
            mode & 0o020u32 != 0 || mode & 0o002u32 != 0,
    ;
}

} // verus!
