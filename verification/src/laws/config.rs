//! Laws of the settings: whose count, which are refused, and where they are read.

use vstd::prelude::*;

use crate::cli::{emits_json, options, refused, says_yes, would_do, Cli, Command, RepoCmd};
use crate::config::{
    below, by_another, came_from, described, file_says, is_merge, machine_path, may_be_relied_on,
    owned_safely, passwd_home, problem, unset, user_path, user_says, ConfigView, FileState, RowView,
    Source,
};
use crate::laws::text::{
    a_line_ends_at_the_line_feed, a_piece_ends_at_the_character, a_text_is_held_where_it_is_put,
    trimming_gives_the_text_back,
};
use crate::number::decimal;
use crate::selfupdate::DEFAULT_REPO;
use crate::text::{has_suffix, is_letter, is_space, join, lines, split, texts, trim};
use crate::ui::color_wanted;

verus! {

// ---------------------------------------------------------------------------
// Layers
// ---------------------------------------------------------------------------

/// Whatever the user's file sets counts, over the machine's.
pub proof fn the_users_file_wins(out: ConfigView, system: ConfigView, user: ConfigView)
    requires
        is_merge(out, system, user),
    ensures
        user.parallel is Some ==> out.parallel == user.parallel,
        user.assume_yes is Some ==> out.assume_yes == user.assume_yes,
        user.verbose is Some ==> out.verbose == user.verbose,
        user.color is Some ==> out.color == user.color,
        user.repo is Some ==> out.repo == user.repo,
        user.notify_updates is Some ==> out.notify_updates == user.notify_updates,
        user.restart is Some ==> out.restart == user.restart,
        user.keep_kernels is Some ==> out.keep_kernels == user.keep_kernels,
        user.mirror_country is Some ==> out.mirror_country == user.mirror_country,
        user.history_limit is Some ==> out.history_limit == user.history_limit,
{
}

/// Whatever the user's file leaves open the machine's decides.
pub proof fn the_machines_file_fills_in(out: ConfigView, system: ConfigView, user: ConfigView)
    requires
        is_merge(out, system, user),
    ensures
        user.parallel is None ==> out.parallel == system.parallel,
        user.assume_yes is None ==> out.assume_yes == system.assume_yes,
        user.verbose is None ==> out.verbose == system.verbose,
        user.color is None ==> out.color == system.color,
        user.repo is None ==> out.repo == system.repo,
        user.notify_updates is None ==> out.notify_updates == system.notify_updates,
        user.restart is None ==> out.restart == system.restart,
        user.keep_kernels is None ==> out.keep_kernels == system.keep_kernels,
        user.mirror_country is None ==> out.mirror_country == system.mirror_country,
        user.history_limit is None ==> out.history_limit == system.history_limit,
        user.never_restart is None ==> out.never_restart == system.never_restart,
        system.never_restart is None ==> out.never_restart == user.never_restart,
{
}

/// A file that is missing, or that others could have written, sets nothing; one
/// that cannot be read, or says what cannot be, is an error that names its path.
pub proof fn an_untrusted_file_sets_nothing(state: FileState, path: Seq<char>)
    ensures
        state is Untrusted || state is Missing ==> file_says(state, path) == Ok::<
            ConfigView,
            Seq<char>,
        >(unset()),
        state is Unreadable || state is Invalid ==> file_says(state, path) is Err
            && crate::text::has_text(file_says(state, path)->Err_0, path),
        state matches FileState::Read(c) && problem(c@, path) is None ==> file_says(state, path)
            == Ok::<ConfigView, Seq<char>>(state->Read_0@),
        state matches FileState::Read(c) && problem(c@, path) is Some ==> file_says(
            state,
            path,
        ) is Err,
        user_says(None) == Ok::<ConfigView, Seq<char>>(unset()),
{
    if let FileState::Unreadable(e) = state {
        a_text_is_held_where_it_is_put("cannot read "@, path, ": "@ + e@);
        assert("cannot read "@ + path + ": "@ + e@ =~= "cannot read "@ + path + (": "@ + e@));
    }
    if let FileState::Invalid(e) = state {
        a_text_is_held_where_it_is_put("invalid config at "@, path, ": "@ + e@);
        assert("invalid config at "@ + path + ": "@ + e@ =~= "invalid config at "@ + path + (": "@
            + e@));
    }
}

// ---------------------------------------------------------------------------
// What is refused
// ---------------------------------------------------------------------------

/// Settings are accepted exactly where the colour is `auto`, `always` or `never`,
/// the restarts are `ask`, `auto` or `never`, no protected service has a blank
/// name, at least one kernel and one transaction are kept, and the country has
/// two letters; each of them unset is fine.
pub proof fn settings_are_accepted_exactly_here(c: ConfigView, path: Seq<char>)
    ensures
        problem(c, path) is None <==> {
            &&& c.color is None || c.color->0 == "auto"@ || c.color->0 == "always"@ || c.color->0
                == "never"@
            &&& c.restart is None || c.restart->0 == "ask"@ || c.restart->0 == "auto"@
                || c.restart->0 == "never"@
            &&& c.never_restart is None || forall|i: int|
                0 <= i < c.never_restart->0.len() ==> trim(
                    #[trigger] c.never_restart->0[i],
                ).len() > 0
            &&& c.keep_kernels is None || c.keep_kernels->0 >= 1
            &&& c.history_limit is None || c.history_limit->0 >= 1
            &&& c.mirror_country is None || (c.mirror_country->0.len() == 2 && is_letter(
                c.mirror_country->0[0],
            ) && is_letter(c.mirror_country->0[1]))
        },
{
    if c.never_restart is Some {
        let v = c.never_restart->0;
        if exists|i: int| 0 <= i < v.len() && trim(#[trigger] v[i]).len() == 0 {
            let i = choose|i: int| 0 <= i < v.len() && trim(#[trigger] v[i]).len() == 0;
            assert(!(trim(v[i]).len() > 0));
        }
    }
}

// ---------------------------------------------------------------------------
// What is shown
// ---------------------------------------------------------------------------

/// The eleven settings are shown in this order, each with the value that counts
/// or, unset, with what is built in.
pub proof fn the_built_in_values_are_shown(
    merged: ConfigView,
    system: ConfigView,
    user: ConfigView,
)
    ensures
        ({
            let rows = described(merged, system, user);
            &&& rows.len() == 11
            &&& rows[0].name == "parallel"@ && rows[0].value == (if merged.parallel is Some {
                decimal(merged.parallel->0 as nat)
            } else {
                "5"@
            })
            &&& rows[1].name == "assume_yes"@ && rows[1].value == (if merged.assume_yes == Some(
                true,
            ) {
                "true"@
            } else {
                "false"@
            })
            &&& rows[2].name == "verbose"@ && rows[2].value == (if merged.verbose == Some(true) {
                "true"@
            } else {
                "false"@
            })
            &&& rows[3].name == "color"@ && rows[3].value == (if merged.color is Some {
                merged.color->0
            } else {
                "auto"@
            })
            &&& rows[4].name == "restart"@ && rows[4].value == (if merged.restart is Some {
                merged.restart->0
            } else {
                "ask"@
            })
            &&& rows[5].name == "never_restart"@
            &&& rows[6].name == "keep_kernels"@ && rows[6].value
                == (if merged.keep_kernels is Some {
                decimal(merged.keep_kernels->0 as nat)
            } else {
                "2"@
            })
            &&& rows[7].name == "history_limit"@ && rows[7].value
                == (if merged.history_limit is Some {
                decimal(merged.history_limit->0 as nat)
            } else {
                "1000"@
            })
            &&& rows[8].name == "mirror_country"@ && rows[8].value
                == (if merged.mirror_country is Some {
                merged.mirror_country->0
            } else {
                "(geolocated)"@
            })
            &&& rows[9].name == "repo"@ && rows[9].value == (if merged.repo is Some {
                merged.repo->0
            } else {
                "marc-cr1810/wrapt"@
            })
            &&& rows[10].name == "notify_updates"@ && rows[10].value == (if merged.notify_updates
                == Some(true) {
                "true"@
            } else {
                "false"@
            })
        }),
{
}

/// A setting is said to come from the user's file wherever that sets it, else
/// from the machine's, else from neither; the protected services may come from
/// both.
pub proof fn a_setting_tells_where_it_comes_from(
    merged: ConfigView,
    system: ConfigView,
    user: ConfigView,
)
    ensures
        came_from(true, true) == Source::User,
        came_from(true, false) == Source::User,
        came_from(false, true) == Source::System,
        came_from(false, false) == Source::Default,
        ({
            let rows = described(merged, system, user);
            &&& rows[0].source == came_from(user.parallel is Some, system.parallel is Some)
            &&& rows[1].source == came_from(user.assume_yes is Some, system.assume_yes is Some)
            &&& rows[2].source == came_from(user.verbose is Some, system.verbose is Some)
            &&& rows[3].source == came_from(user.color is Some, system.color is Some)
            &&& rows[4].source == came_from(user.restart is Some, system.restart is Some)
            &&& (rows[5].source == Source::Both <==> user.never_restart is Some
                && system.never_restart is Some)
            &&& rows[6].source == came_from(user.keep_kernels is Some, system.keep_kernels is Some)
            &&& rows[7].source == came_from(
                user.history_limit is Some,
                system.history_limit is Some,
            )
            &&& rows[8].source == came_from(
                user.mirror_country is Some,
                system.mirror_country is Some,
            )
            &&& rows[9].source == came_from(user.repo is Some, system.repo is Some)
            &&& rows[10].source == came_from(
                user.notify_updates is Some,
                system.notify_updates is Some,
            )
        }),
{
}

/// Colour is shown where it is forced, not where it is forbidden, and otherwise
/// on a terminal unless `NO_COLOR` is set.
pub proof fn colour_follows_the_setting(
    setting: Option<Seq<char>>,
    no_color: bool,
    terminal: bool,
)
    ensures
        setting == Some("always"@) ==> color_wanted(setting, no_color, terminal),
        setting == Some("never"@) ==> !color_wanted(setting, no_color, terminal),
        setting is None || setting == Some("auto"@) ==> (color_wanted(setting, no_color, terminal)
            <==> terminal && !no_color),
{
    reveal_strlit("always");
    reveal_strlit("never");
    reveal_strlit("auto");
    assert("always"@.len() == 6 && "never"@.len() == 5 && "auto"@.len() == 4);
}

// ---------------------------------------------------------------------------
// Where it is read
// ---------------------------------------------------------------------------

/// The user's file is the one named; else the one in the home of the user who
/// called sudo; else below the directory for settings; else below the home; with
/// none of them there is no file.
pub proof fn the_users_file_is_found(
    given: Option<Seq<char>>,
    sudo_home: Option<Seq<char>>,
    xdg: Option<Seq<char>>,
    home: Option<Seq<char>>,
)
    ensures
        given is Some ==> user_path(given, sudo_home, xdg, home) == given,
        given is None && sudo_home is Some ==> user_path(given, sudo_home, xdg, home) == Some(
            below(sudo_home->0, ".config/wrapt/config.toml"@),
        ),
        given is None && sudo_home is None && xdg is Some ==> user_path(given, sudo_home, xdg, home)
            == Some(below(xdg->0, "wrapt/config.toml"@)),
        given is None && sudo_home is None && xdg is None && home is Some ==> user_path(
            given,
            sudo_home,
            xdg,
            home,
        ) == Some(below(home->0, ".config/wrapt/config.toml"@)),
        user_path(None, None, None, None) is None,
        machine_path(None) == "/etc/wrapt/config.toml"@,
        forall|p: Seq<char>| #[trigger] machine_path(Some(p)) == p,
{
}

/// A path below a directory has one slash between them.
pub proof fn one_slash_stands_between(base: Seq<char>, rest: Seq<char>)
    requires
        base.len() > 0,
    ensures
        base.last() != '/' ==> below(base, rest) == base + seq!['/'] + rest,
        base.last() == '/' ==> below(base, rest) == base + rest,
        below(seq![], rest) == rest,
{
    reveal_strlit("/");
    assert("/"@ =~= seq!['/']);
    assert(base.skip(base.len() - 1) =~= seq![base.last()]);
    if base.last() != '/' && has_suffix(base, "/"@) {
        assert(seq![base.last()][0] == '/');
    }
    assert(Seq::<char>::empty() + rest =~= rest);
}

/// The home of a user is the sixth of the fields with colons between them.
pub proof fn the_home_is_the_sixth_field(
    a: Seq<char>,
    b: Seq<char>,
    c: Seq<char>,
    d: Seq<char>,
    e: Seq<char>,
    home: Seq<char>,
    shell: Seq<char>,
)
    requires
        !a.contains(':'),
        !b.contains(':'),
        !c.contains(':'),
        !d.contains(':'),
        !e.contains(':'),
        !home.contains(':'),
        home.len() > 0,
        !is_space(home[0]),
        !is_space(home.last()),
        !(a + seq![':'] + (b + seq![':'] + (c + seq![':'] + (d + seq![':'] + (e + seq![':'] + (home
            + seq![':'] + shell)))))).contains('\n'),
    ensures
        passwd_home(
            a + seq![':'] + (b + seq![':'] + (c + seq![':'] + (d + seq![':'] + (e + seq![':'] + (
            home + seq![':'] + shell))))),
        ) == Some(home),
{
    let s6 = home + seq![':'] + shell;
    let s5 = e + seq![':'] + s6;
    let s4 = d + seq![':'] + s5;
    let s3 = c + seq![':'] + s4;
    let s2 = b + seq![':'] + s3;
    let s1 = a + seq![':'] + s2;
    a_line_ends_at_the_line_feed(s1, seq![]);
    a_piece_ends_at_the_character(a, ':', s2);
    a_piece_ends_at_the_character(b, ':', s3);
    a_piece_ends_at_the_character(c, ':', s4);
    a_piece_ends_at_the_character(d, ':', s5);
    a_piece_ends_at_the_character(e, ':', s6);
    a_piece_ends_at_the_character(home, ':', shell);
    assert(split(s1, ':')[5] == split(s2, ':')[4]);
    assert(split(s2, ':')[4] == split(s3, ':')[3]);
    assert(split(s3, ':')[3] == split(s4, ':')[2]);
    assert(split(s4, ':')[2] == split(s5, ':')[1]);
    assert(split(s5, ':')[1] == split(s6, ':')[0]);
    assert(lines(s1)[0] == s1);
    let n = Seq::<char>::empty();
    trimming_gives_the_text_back(n, home, n);
    assert(n + home + n =~= home);
}

/// A file is trusted exactly where root or the calling user owns it and neither
/// its group nor others may write it.
pub proof fn a_file_is_trusted_exactly_here(file_uid: u32, mode: u32, invoking_uid: Option<u32>)
    ensures
        owned_safely(file_uid, mode, invoking_uid) <==> (file_uid == 0 || invoking_uid == Some(
            file_uid,
        )) && mode & 0o020u32 == 0 && mode & 0o002u32 == 0,
{
    assert(mode & 0o022u32 == 0 <==> (mode & 0o020u32 == 0 && mode & 0o002u32 == 0))
        by (bit_vector);
}

// ---------------------------------------------------------------------------
// Commands
// ---------------------------------------------------------------------------

/// Without flags and settings five packages are downloaded at once, nothing is
/// agreed to beforehand, and a thousand transactions are kept; no number of
/// downloads is less than one.
pub proof fn the_built_in_values_are_used(cli: Cli, cfg: ConfigView)
    ensures
        cli.parallel is None && cfg.parallel is None ==> options(cli, cfg).jobs == 5,
        cli.parallel is Some && cli.parallel->0 > 0 ==> options(cli, cfg).jobs == cli.parallel->0,
        cli.parallel is None && cfg.parallel is Some && cfg.parallel->0 > 0 ==> options(
            cli,
            cfg,
        ).jobs == cfg.parallel->0,
        options(cli, cfg).jobs >= 1,
        options(cli, cfg).yes <==> says_yes(cli.command) || cfg.assume_yes == Some(true),
        options(cli, cfg).verbose <==> cli.verbose || cfg.verbose == Some(true),
        options(cli, cfg).history_limit == if cfg.history_limit is Some {
            cfg.history_limit->0
        } else {
            1000
        },
{
}

/// A command that changes packages is agreed to beforehand exactly by its own
/// flag; one that changes none has no such flag.
pub proof fn the_flag_agrees_beforehand(c: Command, flag: bool)
    ensures
        c matches Command::Upgrade { yes, .. } ==> says_yes(c) == yes,
        c matches Command::Install { yes, .. } ==> says_yes(c) == yes,
        c matches Command::Remove { yes, .. } ==> says_yes(c) == yes,
        c matches Command::Reinstall { yes, .. } ==> says_yes(c) == yes,
        c matches Command::Autoremove { yes } ==> says_yes(c) == yes,
        c matches Command::Undo { yes, .. } ==> says_yes(c) == yes,
        c matches Command::Redo { yes, .. } ==> says_yes(c) == yes,
        c matches Command::Rollback { yes, .. } ==> says_yes(c) == yes,
        c is Clean || c is Plan || c is Download || c is Fetch ==> !says_yes(c),
{
}

/// Exactly the commands that search, list, explain, show the history, check,
/// list what is held, and find who provides a file can answer in JSON; asked of
/// any other the answer is a refusal.
pub proof fn json_is_refused_elsewhere(cli: Cli)
    ensures
        emits_json(cli.command) <==> cli.command is Search || cli.command is List
            || cli.command is Why || cli.command is History || cli.command is Doctor
            || cli.command is Held || cli.command is Provides,
        cli.json && !(cli.command is Search || cli.command is List || cli.command is Why
            || cli.command is History || cli.command is Doctor || cli.command is Held
            || cli.command is Provides) ==> refused(cli) is Some,
        !cli.json && !(cli.command is CommandNotFound) ==> refused(cli) is None,
{
}

/// A preview of a command that changes something by itself says what it would do.
pub proof fn a_preview_says_what_would_be_done(c: Command)
    ensures
        would_do(Command::Update) == Some("Would refresh the package lists."@),
        c matches Command::Clean { all, kernels } && kernels ==> would_do(c) is None,
        c matches Command::Clean { all, kernels } && !kernels && all ==> would_do(c) == Some(
            "Would remove every downloaded package from the cache."@,
        ),
        c matches Command::Clean { all, kernels } && !kernels && !all ==> would_do(c) == Some(
            "Would remove outdated packages from the cache."@,
        ),
        c matches Command::Hold { packages } ==> would_do(c) == Some(
            "Would hold: "@ + join(texts(packages@), ", "@),
        ),
        c matches Command::Unhold { packages } ==> would_do(c) == Some(
            "Would release: "@ + join(texts(packages@), ", "@),
        ),
        c matches Command::Download { packages } ==> would_do(c) == Some(
            "Would download into the current directory: "@ + join(texts(packages@), ", "@),
        ),
        c matches Command::Config { init, path } ==> (would_do(c) is Some <==> init),
        c is Install || c is Remove || c is Upgrade || c is Autoremove || c is Search || c is List
            ==> would_do(c) is None,
{
}

/// A line of fewer than six fields, or with a blank home, gives none.
pub proof fn a_short_line_gives_no_home(text: Seq<char>)
    ensures
        lines(text).len() == 0 ==> passwd_home(text) is None,
        lines(text).len() > 0 && split(lines(text)[0], ':').len() < 6 ==> passwd_home(text) is None,
        lines(text).len() > 0 && split(lines(text)[0], ':').len() >= 6 && trim(
            split(lines(text)[0], ':')[5],
        ).len() == 0 ==> passwd_home(text) is None,
{
}

/// A call through sudo is another user's where that user is named and is not root.
pub proof fn sudo_names_another_user(user: Seq<char>)
    ensures
        !by_another(None),
        !by_another(Some("root"@)),
        !by_another(Some(seq![])),
        user.len() > 0 && user != "root"@ ==> by_another(Some(user)),
{
}

/// An ordinary user's file is always read; root reads one only where root or the
/// caller owns it and nobody else may write it.
pub proof fn root_reads_only_what_is_safe(uid: u32, mode: u32, caller: Option<u32>)
    ensures
        may_be_relied_on(false, Some((uid, mode)), caller),
        may_be_relied_on(true, None, caller),
        may_be_relied_on(true, Some((uid, mode)), caller) <==> (uid == 0 || caller == Some(uid))
            && mode & 0o020u32 == 0 && mode & 0o002u32 == 0,
{
    a_file_is_trusted_exactly_here(uid, mode, caller);
}

} // verus!
