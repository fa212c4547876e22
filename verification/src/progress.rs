//! What is shown while `apt-get` runs. Its machine-readable status drives a
//! progress bar; its own chatter is kept in a hidden log, which is shown only
//! where it fails or asks the user something.

use vstd::prelude::*;

use crate::names::Names;
use crate::number::{decimal, decimal_usize};
use crate::order::{listing, sort_texts};
use crate::text::{
    after_prefix, cat2, cat4, chars_of, copy_strings, cut, cut_at, decode_lossy, ends, has_prefix,
    has_suffix, has_text, holds, join, join_strings, lemma_texts_push, lossy_text, remove_text,
    same_str, skip, starts, string_of, strip, texts, trim_end_char, trim_end_char_of, without_text,
};
use crate::ui::{
    bold_green, bold_red, bold_text, complain, dim_text, dimmed, green_text, line_views, no_lines,
    plural, plural_of, red, red_text, warn_line, warn_text, Line, LineView,
};
use crate::version::{first_byte, lemma_first_byte};

verus! {

// ---------------------------------------------------------------------------
// The command
// ---------------------------------------------------------------------------

/// The arguments of `apt-get`, so that it tells its status on descriptor 3 and
/// dpkg writes nothing past what is captured.
pub fn apt_args(args: &Vec<String>) -> (r: Vec<String>)
    ensures
        texts(r@) == seq![
            "-y"@,
            "-o"@,
            "APT::Status-Fd=3"@,
            "-o"@,
            "Dpkg::Use-Pty=0"@,
        ] + texts(args@),
{
    let mut r: Vec<String> = Vec::new();
    r.push("-y".to_owned());
    r.push("-o".to_owned());
    r.push("APT::Status-Fd=3".to_owned());
    r.push("-o".to_owned());
    r.push("Dpkg::Use-Pty=0".to_owned());
    let mut rest = copy_strings(args);
    let ghost head = r@;
    let ghost tail = rest@;
    r.append(&mut rest);
    assert(texts(r@) =~= texts(head) + texts(tail));
    assert(texts(head) =~= seq!["-y"@, "-o"@, "APT::Status-Fd=3"@, "-o"@, "Dpkg::Use-Pty=0"@]);
    r
}

/// The arguments of `apt-get` where it shows its own progress.
pub fn verbose_args(args: &Vec<String>) -> (r: Vec<String>)
    ensures
        texts(r@) == seq!["-y"@, "-o"@, "Dpkg::Progress-Fancy=1"@] + texts(args@),
{
    let mut r: Vec<String> = Vec::new();
    r.push("-y".to_owned());
    r.push("-o".to_owned());
    r.push("Dpkg::Progress-Fancy=1".to_owned());
    let mut rest = copy_strings(args);
    let ghost head = r@;
    let ghost tail = rest@;
    r.append(&mut rest);
    assert(texts(r@) =~= texts(head) + texts(tail));
    assert(texts(head) =~= seq!["-y"@, "-o"@, "Dpkg::Progress-Fancy=1"@]);
    r
}

/// How packages put questions: line by line, which goes with a progress bar, or
/// not at all where nobody could answer.
pub fn frontend(interactive: bool) -> (r: &'static str)
    ensures
        r@ == if interactive {
            "readline"@
        } else {
            "noninteractive"@
        },
{
    if interactive {
        "readline"
    } else {
        "noninteractive"
    }
}

// ---------------------------------------------------------------------------
// Lines of bytes
// ---------------------------------------------------------------------------

/// The complete lines in the bytes, without carriage returns at their ends.
pub open spec fn full_lines(buf: Seq<u8>) -> Seq<Seq<char>>
    decreases buf.len(),
{
    let i = first_byte(buf, 10);
    if 0 <= i < buf.len() {
        seq![trim_end_char(lossy_text(buf.take(i)), '\r')] + full_lines(buf.skip(i + 1))
    } else {
        seq![]
    }
}

/// The bytes behind the last complete line.
pub open spec fn unfinished(buf: Seq<u8>) -> Seq<u8>
    decreases buf.len(),
{
    let i = first_byte(buf, 10);
    if 0 <= i < buf.len() {
        unfinished(buf.skip(i + 1))
    } else {
        buf
    }
}

fn find_newline(buf: &Vec<u8>) -> (r: usize)
    ensures
        r == first_byte(buf@, 10),
        r <= buf@.len(),
{
    let mut i: usize = 0;
    while i < buf.len()
        invariant
            i <= buf@.len(),
            forall|j: int| 0 <= j < i ==> buf@[j] != 10,
        decreases buf@.len() - i,
    {
        if buf[i] == 10 {
            proof {
                lemma_first_byte(buf@, 10, i as int);
            }
            return i;
        }
        i += 1;
    }
    proof {
        lemma_first_byte(buf@, 10, i as int);
    }
    i
}

/// Takes the complete lines out of the bytes; an unfinished one stays.
pub fn take_lines(buf: &mut Vec<u8>) -> (r: Vec<String>)
    ensures
        texts(r@) == full_lines(old(buf)@),
        final(buf)@ == unfinished(old(buf)@),
        forall|k: int| 0 <= k < r@.len() ==> !(#[trigger] texts(r@)[k]).contains('\n'),
{
    let ghost given = buf@;
    let mut out: Vec<String> = Vec::new();
    assert(texts(out@) + full_lines(buf@) =~= full_lines(given));
    loop
        invariant
            texts(out@) + full_lines(buf@) == full_lines(given),
            unfinished(buf@) == unfinished(given),
            forall|k: int| 0 <= k < out@.len() ==> !(#[trigger] texts(out@)[k]).contains('\n'),
        ensures
            full_lines(buf@).len() == 0,
            unfinished(given) == buf@,
            forall|k: int| 0 <= k < out@.len() ==> !(#[trigger] texts(out@)[k]).contains('\n'),
        decreases buf@.len(),
    {
        broadcast use lemma_texts_push;

        let i: usize = find_newline(buf);
        if i == buf.len() {
            break;
        }
        let ghost before = texts(out@);
        let ghost all = buf@;
        let after = buf.split_off(i + 1);
        buf.truncate(i);
        assert(buf@ =~= all.take(i as int));
        assert(after@ =~= all.skip(i + 1));
        let text = decode_lossy(buf.as_slice());
        let chars = chars_of(text.as_str());
        proof {
            lemma_first_byte_is(all, 10, i as int);
            lemma_trimmed(text@, '\r');
            assert forall|k: int| 0 <= k < text@.len() implies text@[k] != '\n' by {
                if text@[k] == '\n' {
                    assert(buf@.contains(text@[k] as u8));
                    let j = choose|j: int| 0 <= j < buf@.len() && buf@[j] == 10;
                    assert(all[j] == 10);
                }
            }
        }
        out.push(string_of(trim_end_char_of(chars.as_slice(), '\r')));
        assert(texts(out@) + full_lines(after@) =~= before + full_lines(all));
        *buf = after;
    }
    assert(texts(out@) =~= full_lines(given));
    out
}

/// Where the first of a byte stands, it stands, and nowhere before.
proof fn lemma_first_byte_is(buf: Seq<u8>, b: u8, i: int)
    requires
        i == first_byte(buf, b),
    ensures
        0 <= i <= buf.len(),
        i < buf.len() ==> buf[i] == b,
        forall|j: int| 0 <= j < i ==> buf[j] != b,
    decreases buf.len(),
{
    if buf.len() > 0 && buf[0] != b {
        lemma_first_byte_is(buf.skip(1), b, i - 1);
        assert forall|j: int| 0 <= j < i implies buf[j] != b by {
            if j > 0 {
                assert(buf.skip(1)[j - 1] != b);
            }
        }
    }
}

proof fn lemma_trimmed(s: Seq<char>, c: char)
    ensures
        trim_end_char(s, c).len() <= s.len(),
        trim_end_char(s, c) == s.take(trim_end_char(s, c).len() as int),
        trim_end_char(s, c).len() > 0 ==> trim_end_char(s, c).last() != c,
    decreases s.len(),
{
    if s.len() == 0 || s.last() != c {
        assert(s.take(s.len() as int) =~= s);
    } else {
        lemma_trimmed(s.drop_last(), c);
        let n = trim_end_char(s, c).len() as int;
        assert(s.drop_last().take(n) =~= s.take(n));
    }
}

/// Where the stream of bytes is cut does not matter: reading it in two pieces
/// gives the lines, and leaves the rest, of reading it at once.
pub proof fn where_a_stream_is_cut_does_not_matter(a: Seq<u8>, b: Seq<u8>)
    ensures
        full_lines(a + b) == full_lines(a) + full_lines(unfinished(a) + b),
        unfinished(a + b) == unfinished(unfinished(a) + b),
    decreases a.len(),
{
    let all = a + b;
    let i = first_byte(a, 10);
    lemma_first_byte_is(a, 10, i);
    if i < a.len() {
        assert(all[i] == 10);
        assert forall|j: int| 0 <= j < i implies all[j] != 10 by {
            assert(a[j] != 10);
        }
        lemma_first_byte(all, 10, i);
        assert(all.take(i) =~= a.take(i));
        assert(all.skip(i + 1) =~= a.skip(i + 1) + b);
        where_a_stream_is_cut_does_not_matter(a.skip(i + 1), b);
        assert(full_lines(all) =~= full_lines(a) + full_lines(unfinished(a) + b));
    } else {
        assert(full_lines(all) =~= full_lines(a) + full_lines(all));
    }
}

/// How many line feeds there are.
pub open spec fn line_feeds(buf: Seq<u8>) -> nat
    decreases buf.len(),
{
    if buf.len() == 0 {
        0
    } else if buf[0] == 10 {
        line_feeds(buf.skip(1)) + 1
    } else {
        line_feeds(buf.skip(1))
    }
}

proof fn lemma_line_feeds(buf: Seq<u8>, i: int)
    requires
        0 <= i <= buf.len(),
        forall|j: int| 0 <= j < i ==> buf[j] != 10,
    ensures
        line_feeds(buf) == line_feeds(buf.skip(i)),
    decreases i,
{
    if i > 0 {
        assert forall|j: int| 0 <= j < i - 1 implies buf.skip(1)[j] != 10 by {
            assert(buf[j + 1] != 10);
        }
        lemma_line_feeds(buf.skip(1), i - 1);
        assert(buf.skip(1).skip(i - 1) =~= buf.skip(i));
    } else {
        assert(buf.skip(0) =~= buf);
    }
}

/// Each line feed ends one line; what stays is what stands behind the last of
/// them; and no line ends in a carriage return.
pub proof fn each_line_feed_ends_a_line(buf: Seq<u8>)
    ensures
        full_lines(buf).len() == line_feeds(buf),
        unfinished(buf).len() <= buf.len(),
        ({
            let k = buf.len() - unfinished(buf).len();
            unfinished(buf) == buf.skip(k) && (k == 0 || buf[k - 1] == 10)
        }),
        !unfinished(buf).contains(10),
        forall|k: int|
            0 <= k < full_lines(buf).len() && (#[trigger] full_lines(buf)[k]).len() > 0
                ==> full_lines(buf)[k].last() != '\r',
    decreases buf.len(),
{
    let i = first_byte(buf, 10);
    lemma_first_byte_is(buf, 10, i);
    lemma_line_feeds(buf, i);
    if i < buf.len() {
        let rest = buf.skip(i + 1);
        each_line_feed_ends_a_line(rest);
        assert(buf.skip(i).skip(1) =~= rest);
        let k = rest.len() - unfinished(rest).len();
        assert(rest.skip(k) =~= buf.skip(i + 1 + k));
        let line = lossy_text(buf.take(i));
        lemma_trimmed(line, '\r');
        assert forall|k: int|
            0 <= k < full_lines(buf).len() && (#[trigger] full_lines(buf)[k]).len()
                > 0 implies full_lines(buf)[k].last() != '\r' by {
            if k > 0 {
                assert(full_lines(buf)[k] == full_lines(rest)[k - 1]);
            }
        }
    } else {
        assert(buf.skip(0) =~= buf);
    }
}

// ---------------------------------------------------------------------------
// What is shown
// ---------------------------------------------------------------------------

/// Something to show.
#[derive(Debug)]
pub enum Action {
    /// Move the bar to a percentage, given as apt writes it.
    Position(String),
    /// Label the bar.
    Message(String),
    /// Print a line beside the bar.
    Print(Line),
    /// Take the bar away and tell the user that apt needs an answer.
    Reveal,
    /// Print an unfinished line.
    Prompt(String),
}

pub enum ActionView {
    Position(Seq<char>),
    Message(Seq<char>),
    Print(LineView),
    Reveal,
    Prompt(Seq<char>),
}

impl View for Action {
    type V = ActionView;

    open spec fn view(&self) -> ActionView {
        match self {
            Action::Position(p) => ActionView::Position(p@),
            Action::Message(m) => ActionView::Message(m@),
            Action::Print(l) => ActionView::Print(l@),
            Action::Reveal => ActionView::Reveal,
            Action::Prompt(p) => ActionView::Prompt(p@),
        }
    }
}

/// The actions as values.
pub open spec fn actions(v: Seq<Action>) -> Seq<ActionView> {
    v.map_values(|a: Action| a@)
}

pub broadcast proof fn lemma_actions_push(v: Seq<Action>, a: Action)
    ensures
        #[trigger] actions(v.push(a)) == actions(v).push(a@),
{
    assert(actions(v.push(a)) =~= actions(v).push(a@));
}

/// A run of `apt-get` as far as it has been watched.
pub struct Run {
    /// Whether there is a user who can answer.
    pub interactive: bool,
    /// What has been read and not yet looked at.
    pub status: Vec<u8>,
    pub stdout: Vec<u8>,
    pub stderr: Vec<u8>,
    /// Hidden output, shown only if the run fails.
    pub log: Vec<String>,
    pub errors: Vec<String>,
    /// Packages that a line was printed for (apt repeats "Installed").
    pub done: Names,
    /// Packages whose config files apt reported as changed.
    pub conffiles: Vec<String>,
    /// Once a question appears, output is no longer hidden.
    pub revealing: bool,
    /// Whether apt's last status was the completion of a package.
    pub last_completion: bool,
}

pub struct RunView {
    pub interactive: bool,
    pub status: Seq<u8>,
    pub stdout: Seq<u8>,
    pub stderr: Seq<u8>,
    pub log: Seq<Seq<char>>,
    pub errors: Seq<Seq<char>>,
    pub done: Set<Seq<char>>,
    pub conffiles: Seq<Seq<char>>,
    pub revealing: bool,
    pub last_completion: bool,
}

impl View for Run {
    type V = RunView;

    open spec fn view(&self) -> RunView {
        RunView {
            interactive: self.interactive,
            status: self.status@,
            stdout: self.stdout@,
            stderr: self.stderr@,
            log: texts(self.log@),
            errors: texts(self.errors@),
            done: self.done@,
            conffiles: texts(self.conffiles@),
            revealing: self.revealing,
            last_completion: self.last_completion,
        }
    }
}

/// A run, and what is to be shown.
pub struct Stage {
    pub run: RunView,
    pub shown: Seq<ActionView>,
}

/// The stage with one more thing to show.
pub open spec fn showing(s: Stage, a: ActionView) -> Stage {
    Stage { shown: s.shown.push(a), ..s }
}

/// The fields of a status line `<kind>:<package>:<percent>:<message>`; those that
/// are missing are empty.
pub struct StatusView {
    pub kind: Seq<char>,
    pub pkg: Seq<char>,
    pub percent: Seq<char>,
    pub msg: Seq<char>,
}

/// The fields of a status line; the message may hold colons.
pub open spec fn status_fields(line: Seq<char>) -> StatusView {
    match cut(line, ":"@) {
        None => StatusView { kind: line, pkg: ""@, percent: ""@, msg: ""@ },
        Some((kind, a)) => match cut(a, ":"@) {
            None => StatusView { kind, pkg: a, percent: ""@, msg: ""@ },
            Some((pkg, b)) => match cut(b, ":"@) {
                None => StatusView { kind, pkg, percent: b, msg: ""@ },
                Some((percent, msg)) => StatusView { kind, pkg, percent, msg },
            },
        },
    }
}

/// The text without architectures: `htop 3.4.1` of `htop (amd64) 3.4.1`.
pub open spec fn no_arch(s: Seq<char>) -> Seq<char> {
    without_text(
        without_text(
            without_text(
                without_text(without_text(s, " (amd64)"@), " (i386)"@),
                " (all)"@,
            ),
            " (arm64)"@,
        ),
        " (armhf)"@,
    )
}

/// The line that is printed once a package is complete.
pub open spec fn tick(mark: Seq<char>, name: Seq<char>) -> ActionView {
    ActionView::Print(LineView::Out("  "@ + mark + " "@ + no_arch(name)))
}

/// The stage once a package is complete: a line is printed the first time.
pub open spec fn completed(s: Stage, pkg: Seq<char>, mark: Seq<char>, name: Seq<char>) -> Stage {
    if s.run.done.contains(pkg) {
        s
    } else {
        showing(
            Stage { run: RunView { done: s.run.done.insert(pkg), ..s.run }, ..s },
            tick(mark, name),
        )
    }
}

/// The stage once a status line is read.
pub open spec fn status_step(s: Stage, color: bool, line: Seq<char>) -> Stage {
    let f = status_fields(line);
    if f.kind == "pmstatus"@ {
        let told = showing(
            showing(s, ActionView::Position(f.percent)),
            ActionView::Message(no_arch(f.msg)),
        );
        let s1 = Stage {
            run: RunView {
                last_completion: has_prefix(f.msg, "Installed "@) || has_prefix(
                    f.msg,
                    "Removed "@,
                ),
                ..told.run
            },
            ..told
        };
        match after_prefix(f.msg, "Installed "@) {
            Some(name) => completed(s1, f.pkg, bold_text(color, green_text(color, "✓"@)), name),
            None => match after_prefix(f.msg, "Removed "@) {
                Some(name) => completed(s1, f.pkg, bold_text(color, red_text(color, "-"@)), name),
                None => s1,
            },
        }
    } else if f.kind == "pmerror"@ {
        showing(
            s,
            ActionView::Print(
                LineView::Out(
                    "  "@ + bold_text(color, red_text(color, "✗"@)) + " "@ + red_text(color, f.msg),
                ),
            ),
        )
    } else if f.kind == "pmconffile"@ {
        Stage { run: RunView { conffiles: s.run.conffiles.push(f.pkg), ..s.run }, ..s }
    } else {
        s
    }
}

/// The label of the bar while dpkg works on without a word.
pub open spec fn finishing() -> ActionView {
    ActionView::Message("Finishing up..."@)
}

/// The stage once a line of standard output is read: it is shown where output is
/// revealed, else it goes to the log.
pub open spec fn stdout_step(s: Stage, line: Seq<char>) -> Stage {
    if s.run.revealing {
        showing(s, ActionView::Print(LineView::Out(line)))
    } else if line.len() == 0 {
        s
    } else {
        let told = if s.run.last_completion && has_prefix(line, "Processing triggers"@) {
            showing(s, finishing())
        } else {
            s
        };
        Stage { run: RunView { log: told.run.log.push(line), ..told.run }, ..told }
    }
}

/// The stage once a line of standard error is read.
pub open spec fn stderr_step(s: Stage, color: bool, line: Seq<char>) -> Stage {
    if after_prefix(line, "E: "@) is Some {
        let msg = after_prefix(line, "E: "@)->0;
        Stage {
            run: RunView {
                errors: s.run.errors.push(msg),
                log: s.run.log.push("E: "@ + msg),
                ..s.run
            },
            ..s
        }
    } else if after_prefix(line, "W: "@) is Some {
        let msg = after_prefix(line, "W: "@)->0;
        let told = showing(s, ActionView::Print(LineView::Error(warn_text(color, msg))));
        Stage { run: RunView { log: told.run.log.push("W: "@ + msg), ..told.run }, ..told }
    } else if s.run.revealing {
        showing(s, ActionView::Print(LineView::Error(line)))
    } else if line.len() == 0 {
        s
    } else {
        Stage { run: RunView { log: s.run.log.push(line), ..s.run }, ..s }
    }
}

fn fields_of(line: &[char]) -> (r: (String, String, String, String))
    ensures
        status_fields(line@) == (StatusView { kind: r.0@, pkg: r.1@, percent: r.2@, msg: r.3@ }),
{
    match cut_at(line, ":") {
        None => (string_of(line), "".to_owned(), "".to_owned(), "".to_owned()),
        Some((kind, a)) => match cut_at(a, ":") {
            None => (string_of(kind), string_of(a), "".to_owned(), "".to_owned()),
            Some((pkg, b)) => match cut_at(b, ":") {
                None => (string_of(kind), string_of(pkg), string_of(b), "".to_owned()),
                Some((percent, msg)) => (
                    string_of(kind),
                    string_of(pkg),
                    string_of(percent),
                    string_of(msg),
                ),
            },
        },
    }
}

/// "htop (amd64) 3.4.1" gives "htop 3.4.1"; other text stays.
pub fn strip_arch(s: &str) -> (r: String)
    ensures
        r@ == no_arch(s@),
{
    proof {
        reveal_strlit(" (amd64)");
        reveal_strlit(" (i386)");
        reveal_strlit(" (all)");
        reveal_strlit(" (arm64)");
        reveal_strlit(" (armhf)");
    }
    let a = remove_text(chars_of(s).as_slice(), " (amd64)");
    let b = remove_text(chars_of(a.as_str()).as_slice(), " (i386)");
    let c = remove_text(chars_of(b.as_str()).as_slice(), " (all)");
    let d = remove_text(chars_of(c.as_str()).as_slice(), " (arm64)");
    remove_text(chars_of(d.as_str()).as_slice(), " (armhf)")
}

impl Run {
    /// A run of which nothing has been seen.
    pub fn new(interactive: bool) -> (r: Run)
        ensures
            r@ == (RunView {
                interactive,
                status: seq![],
                stdout: seq![],
                stderr: seq![],
                log: seq![],
                errors: seq![],
                done: Set::empty(),
                conffiles: seq![],
                revealing: false,
                last_completion: false,
            }),
    {
        let r = Run {
            interactive,
            status: Vec::new(),
            stdout: Vec::new(),
            stderr: Vec::new(),
            log: Vec::new(),
            errors: Vec::new(),
            done: Names::new(),
            conffiles: Vec::new(),
            revealing: false,
            last_completion: false,
        };
        assert(texts(r.log@) =~= seq![]);
        r
    }

    fn complete(&mut self, pkg: String, mark: String, name: &[char], out: &mut Vec<Action>)
        ensures
            (Stage { run: final(self)@, shown: actions(final(out)@) }) == completed(
                Stage { run: old(self)@, shown: actions(old(out)@) },
                pkg@,
                mark@,
                name@,
            ),
    {
        broadcast use lemma_actions_push;

        let ghost before = *self;
        if self.done.insert(pkg) {
            let text = cat4(
                "  ",
                mark.as_str(),
                " ",
                strip_arch(string_of(name).as_str()).as_str(),
            );
            out.push(Action::Print(Line::Out(text)));
        } else {
            assert(self.done@ =~= before.done@);
        }
    }

    /// Reads a status line such as `pmstatus:<pkg>:<percent>:<message>`.
    pub fn handle_status(&mut self, color: bool, line: &str, out: &mut Vec<Action>)
        ensures
            (Stage { run: final(self)@, shown: actions(final(out)@) }) == status_step(
                Stage { run: old(self)@, shown: actions(old(out)@) },
                color,
                line@,
            ),
    {
        broadcast use {lemma_actions_push, lemma_texts_push};

        let chars = chars_of(line);
        let (kind, pkg, percent, msg) = fields_of(chars.as_slice());
        if same_str(kind.as_str(), "pmstatus") {
            let text = chars_of(msg.as_str());
            let text = text.as_slice();
            out.push(Action::Position(percent));
            out.push(Action::Message(strip_arch(msg.as_str())));
            self.last_completion = starts(text, "Installed ") || starts(text, "Removed ");
            if let Some(name) = strip(text, "Installed ") {
                self.complete(pkg, bold_green(color, "✓"), name, out);
            } else if let Some(name) = strip(text, "Removed ") {
                self.complete(pkg, bold_red(color, "-"), name, out);
            }
        } else if same_str(kind.as_str(), "pmerror") {
            let line = cat4(
                "  ",
                bold_red(color, "✗").as_str(),
                " ",
                red(color, msg.as_str()).as_str(),
            );
            out.push(Action::Print(Line::Out(line)));
        } else if same_str(kind.as_str(), "pmconffile") {
            self.conffiles.push(pkg);
        }
    }

    /// Reads a line of standard output.
    pub fn handle_stdout(&mut self, line: String, out: &mut Vec<Action>)
        ensures
            (Stage { run: final(self)@, shown: actions(final(out)@) }) == stdout_step(
                Stage { run: old(self)@, shown: actions(old(out)@) },
                line@,
            ),
    {
        broadcast use {lemma_actions_push, lemma_texts_push};

        if self.revealing {
            out.push(Action::Print(Line::Out(line)));
            return;
        }
        let chars = chars_of(line.as_str());
        if chars.len() > 0 {
            if self.last_completion && starts(chars.as_slice(), "Processing triggers") {
                out.push(Action::Message("Finishing up...".to_owned()));
            }
            self.log.push(line);
        }
    }

    /// Reads a line of standard error.
    pub fn handle_stderr(&mut self, color: bool, line: String, out: &mut Vec<Action>)
        ensures
            (Stage { run: final(self)@, shown: actions(final(out)@) }) == stderr_step(
                Stage { run: old(self)@, shown: actions(old(out)@) },
                color,
                line@,
            ),
    {
        broadcast use {lemma_actions_push, lemma_texts_push};

        let chars = chars_of(line.as_str());
        let s = chars.as_slice();
        if let Some(msg) = strip(s, "E: ") {
            let msg = string_of(msg);
            self.log.push(cat2("E: ", msg.as_str()));
            self.errors.push(msg);
        } else if let Some(msg) = strip(s, "W: ") {
            let msg = string_of(msg);
            out.push(Action::Print(Line::Error(warn_line(color, msg.as_str()))));
            self.log.push(cat2("W: ", msg.as_str()));
        } else if self.revealing {
            out.push(Action::Print(Line::Error(line)));
        } else if chars.len() > 0 {
            self.log.push(line);
        }
    }
}

// ---------------------------------------------------------------------------
// Questions
// ---------------------------------------------------------------------------

/// The text behind the last line feed or carriage return.
pub open spec fn last_part(s: Seq<char>) -> Seq<char>
    decreases s.len(),
{
    if s.len() == 0 || s.last() == '\n' || s.last() == '\r' {
        seq![]
    } else {
        last_part(s.drop_last()).push(s.last())
    }
}

/// Whether an unfinished line is a question.
pub open spec fn is_question(t: Seq<char>) -> bool {
    &&& t.len() > 0
    &&& {
        ||| has_text(t, "[Y/n]"@)
        ||| has_text(t, "[y/N]"@)
        ||| has_text(t, "[yes/no]"@)
        ||| has_text(t, "[default="@)
        ||| has_suffix(t, "?"@)
        ||| (has_suffix(t, "]:"@) || has_suffix(t, "]"@)) && has_text(t, "["@)
    }
}

/// Whether output that stopped mid-line looks like a question.
pub open spec fn prompts(buf: Seq<char>) -> bool {
    is_question(trim_end_char(last_part(buf), ' '))
}

/// Does a stalled, unterminated stdout buffer look like an interactive prompt
/// rather than apt's normal in-progress chatter? Kept deliberately strict so
/// lines like "Building dependency tree..." never count as one.
pub fn looks_like_prompt(buf: &str) -> (r: bool)
    ensures
        r == prompts(buf@),
{
    let chars = chars_of(buf);
    let mut i: usize = chars.len();
    let ghost all = chars@;
    assert(all.take(i as int) =~= all);
    assert(last_part(all.take(i as int)) + all.skip(i as int) =~= last_part(all));
    while i > 0 && chars[i - 1] != '\n' && chars[i - 1] != '\r'
        invariant
            i <= chars@.len(),
            chars@ == all,
            last_part(all.take(i as int)) + all.skip(i as int) == last_part(all),
        decreases i,
    {
        assert(all.take(i as int).drop_last() =~= all.take(i - 1));
        assert(last_part(all.take(i - 1)).push(all[i - 1]) + all.skip(i as int) =~= last_part(
            all.take(i - 1),
        ) + all.skip(i - 1));
        i -= 1;
    }
    assert(last_part(all) =~= all.skip(i as int));
    let t = trim_end_char_of(skip(chars.as_slice(), i), ' ');
    t.len() > 0 && (holds(t, "[Y/n]") || holds(t, "[y/N]") || holds(t, "[yes/no]") || holds(
        t,
        "[default=",
    ) || ends(t, "?") || (ends(t, "]:") || ends(t, "]")) && holds(t, "["))
}

// ---------------------------------------------------------------------------
// A round
// ---------------------------------------------------------------------------

/// The stage once the status lines are read.
pub open spec fn status_steps(s: Stage, color: bool, lines: Seq<Seq<char>>) -> Stage
    decreases lines.len(),
{
    if lines.len() == 0 {
        s
    } else {
        status_step(status_steps(s, color, lines.drop_last()), color, lines.last())
    }
}

/// The stage once the lines of standard output are read.
pub open spec fn stdout_steps(s: Stage, lines: Seq<Seq<char>>) -> Stage
    decreases lines.len(),
{
    if lines.len() == 0 {
        s
    } else {
        stdout_step(stdout_steps(s, lines.drop_last()), lines.last())
    }
}

/// The stage once the lines of standard error are read.
pub open spec fn stderr_steps(s: Stage, color: bool, lines: Seq<Seq<char>>) -> Stage
    decreases lines.len(),
{
    if lines.len() == 0 {
        s
    } else {
        stderr_step(stderr_steps(s, color, lines.drop_last()), color, lines.last())
    }
}

/// The stage once what has come on the three streams is read, line by line.
pub open spec fn read_all(r: RunView, color: bool) -> Stage {
    let rest = RunView {
        status: unfinished(r.status),
        stdout: unfinished(r.stdout),
        stderr: unfinished(r.stderr),
        ..r
    };
    let a = status_steps(Stage { run: rest, shown: seq![] }, color, full_lines(r.status));
    let b = stdout_steps(a, full_lines(r.stdout));
    stderr_steps(b, color, full_lines(r.stderr))
}

/// The stage once output is no longer hidden.
pub open spec fn revealed(s: Stage) -> Stage {
    showing(Stage { run: RunView { revealing: true, ..s.run }, ..s }, ActionView::Reveal)
}

/// The stage after a round. A question about a config file is revealed where
/// somebody can answer. Where nothing came for a while, the bar is relabelled if
/// a package was just completed, and an unfinished line that looks like a
/// question is revealed.
pub open spec fn after_round(r: RunView, color: bool, quiet: bool) -> Stage {
    let s = read_all(r, color);
    let s = if s.run.conffiles.len() > r.conffiles.len() && s.run.interactive
        && !s.run.revealing {
        revealed(s)
    } else {
        s
    };
    let s = if quiet && !s.run.revealing && s.run.last_completion {
        showing(s, finishing())
    } else {
        s
    };
    let pending = lossy_text(s.run.stdout);
    if quiet && s.run.interactive && !s.run.revealing && prompts(pending) {
        showing(
            revealed(Stage { run: RunView { stdout: seq![], ..s.run }, ..s }),
            ActionView::Prompt(pending),
        )
    } else {
        s
    }
}

impl Run {
    fn read_status(&mut self, color: bool, lines: &Vec<String>, out: &mut Vec<Action>)
        ensures
            (Stage { run: final(self)@, shown: actions(final(out)@) }) == status_steps(
                Stage { run: old(self)@, shown: actions(old(out)@) },
                color,
                texts(lines@),
            ),
    {
        let ghost from = Stage { run: self@, shown: actions(out@) };
        let ghost all = texts(lines@);
        let mut i: usize = 0;
        while i < lines.len()
            invariant
                i <= lines@.len(),
                all == texts(lines@),
                (Stage { run: self@, shown: actions(out@) }) == status_steps(
                    from,
                    color,
                    all.take(i as int),
                ),
            decreases lines@.len() - i,
        {
            self.handle_status(color, lines[i].as_str(), out);
            assert(all.take(i + 1).drop_last() =~= all.take(i as int));
            assert(all.take(i + 1).last() == lines@[i as int]@);
            i += 1;
        }
        assert(all.take(all.len() as int) =~= all);
    }

    fn read_stdout(&mut self, lines: Vec<String>, out: &mut Vec<Action>)
        ensures
            (Stage { run: final(self)@, shown: actions(final(out)@) }) == stdout_steps(
                Stage { run: old(self)@, shown: actions(old(out)@) },
                texts(lines@),
            ),
    {
        let ghost from = Stage { run: self@, shown: actions(out@) };
        let ghost all = texts(lines@);
        let mut i: usize = 0;
        while i < lines.len()
            invariant
                i <= lines@.len(),
                all == texts(lines@),
                (Stage { run: self@, shown: actions(out@) }) == stdout_steps(
                    from,
                    all.take(i as int),
                ),
            decreases lines@.len() - i,
        {
            self.handle_stdout(lines[i].clone(), out);
            assert(all.take(i + 1).drop_last() =~= all.take(i as int));
            assert(all.take(i + 1).last() == lines@[i as int]@);
            i += 1;
        }
        assert(all.take(all.len() as int) =~= all);
    }

    fn read_stderr(&mut self, color: bool, lines: Vec<String>, out: &mut Vec<Action>)
        ensures
            (Stage { run: final(self)@, shown: actions(final(out)@) }) == stderr_steps(
                Stage { run: old(self)@, shown: actions(old(out)@) },
                color,
                texts(lines@),
            ),
    {
        let ghost from = Stage { run: self@, shown: actions(out@) };
        let ghost all = texts(lines@);
        let mut i: usize = 0;
        while i < lines.len()
            invariant
                i <= lines@.len(),
                all == texts(lines@),
                (Stage { run: self@, shown: actions(out@) }) == stderr_steps(
                    from,
                    color,
                    all.take(i as int),
                ),
            decreases lines@.len() - i,
        {
            self.handle_stderr(color, lines[i].clone(), out);
            assert(all.take(i + 1).drop_last() =~= all.take(i as int));
            assert(all.take(i + 1).last() == lines@[i as int]@);
            i += 1;
        }
        assert(all.take(all.len() as int) =~= all);
    }

    /// Looks at what has come since the last round, and says what to show.
    /// `quiet` tells that nothing came for a while.
    pub fn round(&mut self, color: bool, quiet: bool) -> (out: Vec<Action>)
        ensures
            (Stage { run: final(self)@, shown: actions(out@) }) == after_round(
                old(self)@,
                color,
                quiet,
            ),
    {
        broadcast use lemma_actions_push;

        let known: usize = self.conffiles.len();
        let mut out: Vec<Action> = Vec::new();
        let status = take_lines(&mut self.status);
        let stdout = take_lines(&mut self.stdout);
        let stderr = take_lines(&mut self.stderr);
        assert(actions(out@) =~= seq![]);
        self.read_status(color, &status, &mut out);
        self.read_stdout(stdout, &mut out);
        self.read_stderr(color, stderr, &mut out);
        if self.conffiles.len() > known && self.interactive && !self.revealing {
            self.revealing = true;
            out.push(Action::Reveal);
        }
        if quiet && !self.revealing && self.last_completion {
            out.push(Action::Message("Finishing up...".to_owned()));
        }
        if quiet && self.interactive && !self.revealing {
            let pending = decode_lossy(self.stdout.as_slice());
            if looks_like_prompt(pending.as_str()) {
                self.stdout = Vec::new();
                self.revealing = true;
                out.push(Action::Reveal);
                out.push(Action::Prompt(pending));
            }
        }
        out
    }
}

// ---------------------------------------------------------------------------
// The end
// ---------------------------------------------------------------------------

/// The lines, with the texts below them on standard error, faint and indented.
pub open spec fn with_faint(before: Seq<LineView>, color: bool, all: Seq<Seq<char>>) -> Seq<
    LineView,
>
    decreases all.len(),
{
    if all.len() == 0 {
        before
    } else {
        with_faint(before, color, all.drop_last()).push(
            LineView::Error("    "@ + dim_text(color, all.last())),
        )
    }
}

/// The hidden log, where there is one.
pub open spec fn log_lines(color: bool, log: Seq<Seq<char>>) -> Seq<LineView> {
    if log.len() == 0 {
        seq![]
    } else {
        with_faint(seq![LineView::Error(warn_text(color, "apt output:"@))], color, log)
    }
}

/// That config files were left as they are.
pub open spec fn kept_lines(color: bool, names: Seq<Seq<char>>) -> Seq<LineView> {
    with_faint(
        seq![
            LineView::Error(
                warn_text(
                    color,
                    decimal(names.len()) + " package"@ + plural(names.len())
                        + " shipped changed config files; kept your existing versions (new ones saved alongside as *.dpkg-dist):"@,
                ),
            ),
        ],
        color,
        names,
    )
}

/// Why the run failed: apt's errors, else how it ended.
pub open spec fn failure(errors: Seq<Seq<char>>, status: Seq<char>) -> Seq<char> {
    if errors.len() == 0 {
        "apt-get exited with "@ + status
    } else {
        join(errors, "\n"@)
    }
}

fn faint(color: bool, out: &mut Vec<Line>, all: &Vec<String>)
    ensures
        line_views(final(out)@) == with_faint(line_views(old(out)@), color, texts(all@)),
{
    let ghost before = line_views(out@);
    let ghost given = texts(all@);
    let mut i: usize = 0;
    while i < all.len()
        invariant
            i <= all@.len(),
            given == texts(all@),
            line_views(out@) == with_faint(before, color, given.take(i as int)),
        decreases all@.len() - i,
    {
        complain(out, cat2("    ", dimmed(color, all[i].as_str()).as_str()));
        assert(given.take(i + 1).drop_last() =~= given.take(i as int));
        assert(given.take(i + 1).last() == all@[i as int]@);
        i += 1;
    }
    assert(given.take(given.len() as int) =~= given);
}

impl Run {
    /// What is said once apt has ended, and whether the run was a success. Where
    /// it was not, what was hidden is shown. Where nobody could be asked about
    /// changed config files, it is said which packages had some.
    pub fn finish(self, color: bool, success: bool, status: &str) -> (r: (
        Vec<Line>,
        Result<(), String>,
    ))
        ensures
            !success ==> line_views(r.0@) == log_lines(color, self@.log) && r.1 is Err
                && r.1->Err_0@ == failure(self@.errors, status@),
            success ==> r.1 is Ok,
            success && (self@.interactive || self@.conffiles.len() == 0) ==> line_views(r.0@) == Seq::<
                LineView,
            >::empty(),
            success && !self@.interactive && self@.conffiles.len() > 0 ==> exists|
                names: Seq<Seq<char>>,
            | #[trigger]
                listing(names, self@.conffiles.to_set()) && line_views(r.0@) == kept_lines(
                    color,
                    names,
                ),
    {
        let mut out = no_lines();
        if !success {
            if self.log.len() > 0 {
                complain(&mut out, warn_line(color, "apt output:"));
                assert(line_views(out@) =~= seq![
                    LineView::Error(warn_text(color, "apt output:"@)),
                ]);
                faint(color, &mut out, &self.log);
            }
            let why = if self.errors.len() == 0 {
                cat2("apt-get exited with ", status)
            } else {
                join_strings(&self.errors, "\n")
            };
            return (out, Err(why));
        }
        if self.conffiles.len() > 0 && !self.interactive {
            let names = sort_texts(self.conffiles);
            complain(
                &mut out,
                warn_line(
                    color,
                    cat4(
                        decimal_usize(names.len()).as_str(),
                        " package",
                        plural_of(names.len()),
                        " shipped changed config files; kept your existing versions (new ones saved alongside as *.dpkg-dist):",
                    ).as_str(),
                ),
            );
            assert(line_views(out@) =~= seq![
                LineView::Error(
                    warn_text(
                        color,
                        decimal(names@.len()) + " package"@ + plural(names@.len())
                            + " shipped changed config files; kept your existing versions (new ones saved alongside as *.dpkg-dist):"@,
                    ),
                ),
            ]);
            faint(color, &mut out, &names);
        }
        (out, Ok(()))
    }
}

/// What is said when output is no longer hidden.
pub fn reveal_line(color: bool) -> (r: Line)
    ensures
        r@ == LineView::Error(warn_text(color, "apt needs your input:"@)),
{
    Line::Error(warn_line(color, "apt needs your input:"))
}

// ---------------------------------------------------------------------------
// Laws
// ---------------------------------------------------------------------------

/// apt may tell of a package's completion again and again: once a line has been
/// printed for it, no later status of the package prints one.
pub proof fn a_completed_package_is_announced_once(
    s: Stage,
    color: bool,
    lines: Seq<Seq<char>>,
    line: Seq<char>,
    l: LineView,
)
    requires
        s.run.done.contains(status_fields(line).pkg),
        status_fields(line).kind == "pmstatus"@,
        status_step(status_steps(s, color, lines), color, line).shown.contains(
            ActionView::Print(l),
        ),
    ensures
        status_steps(s, color, lines).shown.contains(ActionView::Print(l)),
{
    lemma_done_stays(s, color, lines);
    let before = status_steps(s, color, lines);
    let after = status_step(before, color, line);
    let f = status_fields(line);
    assert(after.shown =~= before.shown.push(ActionView::Position(f.percent)).push(
        ActionView::Message(no_arch(f.msg)),
    ));
    let k = choose|k: int|
        0 <= k < after.shown.len() && after.shown[k] == ActionView::Print(l);
    assert(before.shown[k] == ActionView::Print(l));
}

proof fn lemma_done_stays(s: Stage, color: bool, lines: Seq<Seq<char>>)
    ensures
        s.run.done.subset_of(status_steps(s, color, lines).run.done),
    decreases lines.len(),
{
    if lines.len() > 0 {
        lemma_done_stays(s, color, lines.drop_last());
    }
}

/// Nothing that apt writes is lost: each line that is not empty is in the log or
/// was shown.
pub proof fn no_output_is_lost(s: Stage, lines: Seq<Seq<char>>, line: Seq<char>)
    requires
        lines.contains(line),
        line.len() > 0,
    ensures
        ({
            let after = stdout_steps(s, lines);
            ||| after.run.log.contains(line)
            ||| after.shown.contains(ActionView::Print(LineView::Out(line)))
        }),
    decreases lines.len(),
{
    let before = stdout_steps(s, lines.drop_last());
    let after = stdout_step(before, lines.last());
    let k = choose|k: int| 0 <= k < lines.len() && lines[k] == line;
    if k < lines.len() - 1 {
        assert(lines.drop_last()[k] == line);
        no_output_is_lost(s, lines.drop_last(), line);
        if before.run.log.contains(line) {
            let j = choose|j: int| 0 <= j < before.run.log.len() && before.run.log[j] == line;
            assert(after.run.log[j] == line);
        } else {
            let a = ActionView::Print(LineView::Out(line));
            let j = choose|j: int| 0 <= j < before.shown.len() && before.shown[j] == a;
            assert(after.shown[j] == a);
        }
    } else {
        if before.run.revealing {
            assert(after.shown.last() == ActionView::Print(LineView::Out(line)));
        } else {
            assert(after.run.log.last() == line);
        }
    }
}

/// Each error that apt reports is kept, and so told where the run fails.
pub proof fn no_error_is_lost(
    s: Stage,
    color: bool,
    lines: Seq<Seq<char>>,
    line: Seq<char>,
    msg: Seq<char>,
)
    requires
        lines.contains(line),
        after_prefix(line, "E: "@) == Some(msg),
    ensures
        stderr_steps(s, color, lines).run.errors.contains(msg),
    decreases lines.len(),
{
    let before = stderr_steps(s, color, lines.drop_last());
    let after = stderr_step(before, color, lines.last());
    let k = choose|k: int| 0 <= k < lines.len() && lines[k] == line;
    if k < lines.len() - 1 {
        assert(lines.drop_last()[k] == line);
        no_error_is_lost(s, color, lines.drop_last(), line, msg);
        let j = choose|j: int| 0 <= j < before.run.errors.len() && before.run.errors[j] == msg;
        assert(after.run.errors[j] == msg);
    } else {
        assert(after.run.errors.last() == msg);
    }
}

} // verus!
