//! Telling the user how an installation goes on.
//!
//! A [`Progress`] takes the place of what is written to the terminal: each
//! operation changes it and returns the text to be written to standard error.
use crate::text;
use crate::value;
use vstd::prelude::*;
use vstd::string::*;

verus! {

/// How much the user is told.
#[derive(Debug, Clone, Copy, PartialEq, Eq, Structural)]
pub enum InstallReporter {
    Default,
    AppendOnly,
    Silent,
}

/// What an installation has done so far.
#[derive(Debug, Clone, Copy, PartialEq, Eq, Structural)]
pub struct ProgressStats {
    pub resolved: usize,
    pub reused: usize,
    pub downloaded: usize,
    pub added: usize,
}

impl Default for ProgressStats {
    fn default() -> (stats: ProgressStats)
        ensures
            stats == no_progress(),
    {
        ProgressStats { resolved: 0, reused: 0, downloaded: 0, added: 0 }
    }
}

/// Nothing done yet.
pub open spec fn no_progress() -> ProgressStats {
    ProgressStats { resolved: 0, reused: 0, downloaded: 0, added: 0 }
}

/// What is known of the installation that is under way.
#[derive(Debug)]
pub struct State {
    pub stats: ProgressStats,
    pub rendered: bool,
    pub reporter: InstallReporter,
    pub prefix: Option<String>,
    pub deprecations: Vec<String>,
    pub shown_warnings: usize,
    pub suppressed_warnings: usize,
}

/// The mathematical value of a [`State`].
pub struct StateModel {
    pub stats: ProgressStats,
    pub rendered: bool,
    pub reporter: InstallReporter,
    pub prefix: Option<Seq<char>>,
    pub deprecations: Set<Seq<char>>,
    pub shown_warnings: nat,
    pub suppressed_warnings: nat,
}

impl View for State {
    type V = StateModel;

    open spec fn view(&self) -> StateModel {
        StateModel {
            stats: self.stats,
            rendered: self.rendered,
            reporter: self.reporter,
            prefix: self.prefix.deep_view(),
            deprecations: self.deprecations.deep_view().to_set(),
            shown_warnings: self.shown_warnings as nat,
            suppressed_warnings: self.suppressed_warnings as nat,
        }
    }
}

/// The installation that is under way, if there is one, and what the last one
/// did.
#[derive(Debug)]
pub struct Progress {
    pub state: Option<State>,
    pub last_finished: Option<ProgressStats>,
}

impl Progress {
    /// The installation that is under way.
    pub open spec fn current(self) -> Option<StateModel> {
        match self.state {
            Some(state) => Some(state@),
            None => None,
        }
    }

    /// What is written in front of each line can be cut to its width.
    pub open spec fn can_draw(self) -> bool {
        self.state is Some && self.state->0.prefix is Some ==> has_label(
            self.state->0.prefix->0@,
        )
    }

    /// What is written in front of a message, if one is shown, can be cut to its
    /// width.
    pub open spec fn can_print(self) -> bool {
        self.state is Some && !(self.state->0.reporter is Silent) ==> self.can_draw()
    }

    /// No installation is under way, and none was.
    pub fn new() -> (progress: Progress)
        ensures
            progress.current() is None,
            progress.last_finished is None,
            progress.can_draw(),
            progress.can_print(),
    {
        Progress { state: None, last_finished: None }
    }
}

/// How many characters at the end of `s` take exactly `n` bytes.
pub open spec fn suffix_chars(s: Seq<char>, n: int) -> Option<int>
    decreases s.len(),
{
    if n == 0 {
        Some(0)
    } else if s.len() == 0 || n < text::char_width(s.last()) {
        None
    } else {
        match suffix_chars(s.drop_last(), n - text::char_width(s.last())) {
            Some(k) => Some(k + 1),
            None => None,
        }
    }
}

/// What stands behind the last `/` of a prefix fits into a label.
pub open spec fn last_part_fits(prefix: Seq<char>) -> bool {
    match text::rsplit_once(prefix, '/') {
        Some((_, last)) => text::byte_len(last) + 4 <= 41,
        None => false,
    }
}

/// A prefix that has to be cut can be cut between two characters.
pub open spec fn has_label(prefix: Seq<char>) -> bool {
    text::byte_len(prefix) > 41 && !last_part_fits(prefix) ==> suffix_chars(prefix, 38) is Some
}

/// The label for a prefix: the prefix itself if it takes at most 41 bytes, its
/// last part if that fits, or else its last 38 bytes.
pub open spec fn label(prefix: Seq<char>) -> Seq<char> {
    if text::byte_len(prefix) <= 41 {
        prefix
    } else if last_part_fits(prefix) {
        ".../"@ + (text::rsplit_once(prefix, '/')->0).1
    } else {
        "..."@ + text::tail(prefix, prefix.len() - suffix_chars(prefix, 38)->0)
    }
}

/// `s` followed by as many blanks as it takes to fill `width` characters.
pub open spec fn padded(s: Seq<char>, width: int) -> Seq<char> {
    s + text::repeat(' ', width - s.len())
}

/// As many blanks as it takes to fill `width` characters, followed by `s`.
pub open spec fn padded_left(s: Seq<char>, width: int) -> Seq<char> {
    text::repeat(' ', width - s.len()) + s
}

/// A line behind the label of its prefix.
pub open spec fn prefixed(prefix: Option<Seq<char>>, line: Seq<char>) -> Seq<char> {
    match prefix {
        Some(prefix) => padded(label(prefix), 41) + " | "@ + line,
        None => line,
    }
}

/// The line that tells the progress.
pub open spec fn progress_line(stats: ProgressStats, done: bool) -> Seq<char> {
    "Progress: resolved "@ + text::decimal(stats.resolved as nat) + ", reused "@ + text::decimal(
        stats.reused as nat,
    ) + ", downloaded "@ + text::decimal(stats.downloaded as nat) + ", added "@ + text::decimal(
        stats.added as nat,
    ) + (if done {
        ", done"@
    } else {
        Seq::empty()
    })
}

/// What is written when a message is shown.
pub open spec fn message_text(
    state: Option<StateModel>,
    message: Seq<char>,
    terminal: bool,
) -> Seq<char> {
    match state {
        None => message + "\n"@,
        Some(state) => match state.reporter {
            InstallReporter::Default => (if terminal && state.rendered {
                "\r\x1b[2K"@
            } else {
                Seq::empty()
            }) + prefixed(state.prefix, message) + "\n"@,
            InstallReporter::AppendOnly => prefixed(state.prefix, message) + "\n"@,
            InstallReporter::Silent => Seq::empty(),
        },
    }
}

/// What is known after a message was shown.
pub open spec fn after_message(state: StateModel) -> StateModel {
    StateModel {
        rendered: state.rendered && !(state.reporter is Default),
        ..state
    }
}

/// What is written when the progress is drawn.
pub open spec fn drawn_text(state: StateModel, done: bool, terminal: bool) -> Seq<char> {
    let line = prefixed(state.prefix, progress_line(state.stats, done));
    match state.reporter {
        InstallReporter::Default => if terminal {
            "\r\x1b[2K"@ + line + (if done {
                "\n"@
            } else {
                Seq::empty()
            })
        } else {
            Seq::empty()
        },
        InstallReporter::AppendOnly => line + "\n"@,
        InstallReporter::Silent => Seq::empty(),
    }
}

/// What is known after the progress was drawn.
pub open spec fn after_draw(state: StateModel, done: bool, terminal: bool) -> StateModel {
    StateModel { rendered: state.reporter is Default && terminal && !done, ..state }
}

/// How a warning is written.
pub open spec fn warning(message: Seq<char>) -> Seq<char> {
    "WARN "@ + message
}

/// How a notice is written.
pub open spec fn notice(message: Seq<char>) -> Seq<char> {
    "info: "@ + message
}

/// A package and its version.
pub open spec fn package_id(name: Seq<char>, version: Seq<char>) -> Seq<char> {
    name + "@"@ + version
}

/// How a deprecation is written; behind a prefix without the reason.
pub open spec fn deprecation_message(
    is_prefixed: bool,
    name: Seq<char>,
    version: Seq<char>,
    message: Seq<char>,
) -> Seq<char> {
    if is_prefixed {
        warning("deprecated "@ + package_id(name, version))
    } else {
        warning("deprecated "@ + package_id(name, version) + ": "@ + message)
    }
}

/// The installation as it begins.
pub open spec fn started(reporter: InstallReporter, prefix: Option<Seq<char>>) -> StateModel {
    StateModel {
        stats: no_progress(),
        rendered: false,
        reporter,
        prefix,
        deprecations: Set::empty(),
        shown_warnings: 0,
        suppressed_warnings: 0,
    }
}

/// A warning is shown, and not only counted.
pub open spec fn shows_warning(state: StateModel) -> bool {
    state.reporter is AppendOnly || state.shown_warnings < 5
}

/// What is known after a warning.
pub open spec fn after_warning(state: StateModel) -> StateModel {
    if shows_warning(state) {
        StateModel { shown_warnings: state.shown_warnings + 1, ..after_message(state) }
    } else {
        StateModel { suppressed_warnings: state.suppressed_warnings + 1, ..state }
    }
}

/// What is known after a deprecation.
pub open spec fn after_deprecation(state: StateModel, id: Seq<char>) -> StateModel {
    if state.deprecations.contains(id) {
        state
    } else {
        StateModel { deprecations: state.deprecations.insert(id), ..after_message(state) }
    }
}

/// What is known once the warnings that were not shown have been summed up.
pub open spec fn after_summary(state: StateModel) -> StateModel {
    if !(state.reporter is AppendOnly) && state.suppressed_warnings > 0 {
        StateModel { suppressed_warnings: 0, ..after_message(state) }
    } else {
        state
    }
}

/// What is written when the warnings that were not shown are summed up.
pub open spec fn summary_text(state: StateModel, terminal: bool) -> Seq<char> {
    if !(state.reporter is AppendOnly) && state.suppressed_warnings > 0 {
        message_text(
            Some(state),
            warning(text::decimal(state.suppressed_warnings) + " other warnings"@),
            terminal,
        )
    } else {
        Seq::empty()
    }
}

/// What is written when an installation ends.
pub open spec fn finish_text(state: StateModel, success: bool, terminal: bool) -> Seq<char> {
    let summed = after_summary(state);
    summary_text(state, terminal) + (if success && summed.rendered || summed.reporter is AppendOnly {
        drawn_text(summed, true, terminal)
    } else if !success && summed.reporter is Default && terminal && summed.rendered {
        "\n"@
    } else {
        Seq::empty()
    })
}

/// How many characters at the end of `s` take exactly `n` bytes.
fn count_suffix_chars(s: &Vec<char>, n: u128) -> (found: Option<usize>)
    ensures
        match found {
            Some(k) => suffix_chars(s@, n as int) == Some(k as int) && k <= s@.len(),
            None => suffix_chars(s@, n as int) is None,
        },
{
    let mut left: u128 = n;
    let mut k: usize = 0;
    assert(s@.take(s@.len() as int) =~= s@);
    while left > 0
        invariant
            k <= s@.len(),
            match suffix_chars(s@.take(s@.len() - k), left as int) {
                Some(rest) => suffix_chars(s@, n as int) == Some(rest + k),
                None => suffix_chars(s@, n as int) is None,
            },
        decreases left,
    {
        let count: usize = s.len();
        if k == count {
            return None;
        }
        let code: u32 = s[count - 1 - k] as u32;
        let width: u128 = if code < 0x80 {
            1
        } else if code < 0x800 {
            2
        } else if code < 0x10000 {
            3
        } else {
            4
        };
        let ghost rest = s@.take(s@.len() - k);
        assert(rest.last() == s@[s@.len() - 1 - k]);
        assert(rest.drop_last() =~= s@.take(s@.len() - k - 1));
        if left < width {
            return None;
        }
        left = left - width;
        k = k + 1;
    }
    Some(k)
}

/// The label for a prefix.
pub fn format_prefix_label(prefix: &str) -> (formatted: String)
    requires
        has_label(prefix@),
    ensures
        formatted@ == label(prefix@),
{
    if text::utf8_len(prefix) <= 41 {
        return text::copy(prefix);
    }
    if let Some((_, last)) = text::split_at_last(prefix, '/') {
        if text::utf8_len(last) <= 37 {
            return text::copy(".../").concat(last);
        }
    }
    let chars = text::chars_of(prefix);
    let n: usize = chars.len();
    match count_suffix_chars(&chars, 38) {
        Some(k) => text::copy("...").concat(text::text_of(&chars, n - k, n).as_str()),
        None => String::new(),
    }
}

/// `s` followed by blanks up to `width` characters.
pub fn pad(s: &str, width: usize) -> (all: String)
    ensures
        all@ == padded(s@, width as int),
{
    let n: usize = s.unicode_len();
    if n >= width {
        let all = text::copy(s);
        assert(all@ =~= padded(s@, width as int));
        all
    } else {
        text::copy(s).concat(text::repeat_char(' ', width - n).as_str())
    }
}

/// Blanks up to `width` characters, followed by `s`.
pub fn pad_left(s: &str, width: usize) -> (all: String)
    ensures
        all@ == padded_left(s@, width as int),
{
    let n: usize = s.unicode_len();
    if n >= width {
        let all = text::copy(s);
        assert(all@ =~= padded_left(s@, width as int));
        all
    } else {
        text::repeat_char(' ', width - n).concat(s)
    }
}

/// A line behind the label of its prefix.
pub fn format_with_prefix(prefix: Option<&str>, line: &str) -> (formatted: String)
    requires
        prefix is Some ==> has_label(prefix->0@),
    ensures
        formatted@ == prefixed(prefix.deep_view(), line@),
{
    match prefix {
        Some(prefix) => {
            let label = format_prefix_label(prefix);
            pad(label.as_str(), 41).concat(" | ").concat(line)
        },
        None => text::copy(line),
    }
}

/// The line that tells the progress.
pub fn format_progress(stats: ProgressStats, done: bool) -> (line: String)
    ensures
        line@ == progress_line(stats, done),
{
    let mut line = text::copy("Progress: resolved ");
    line.append(text::decimal_text(stats.resolved as u128).as_str());
    line.append(", reused ");
    line.append(text::decimal_text(stats.reused as u128).as_str());
    line.append(", downloaded ");
    line.append(text::decimal_text(stats.downloaded as u128).as_str());
    line.append(", added ");
    line.append(text::decimal_text(stats.added as u128).as_str());
    if done {
        line.append(", done");
    } else {
        assert(line@ =~= progress_line(stats, done));
    }
    line
}

/// How a warning is written.
pub fn format_warn(message: &str) -> (formatted: String)
    ensures
        formatted@ == warning(message@),
{
    text::copy("WARN ").concat(message)
}

/// How a notice is written.
pub fn format_info(message: &str) -> (formatted: String)
    ensures
        formatted@ == notice(message@),
{
    text::copy("info: ").concat(message)
}

/// A package and its version.
fn format_package_id(package_name: &str, version: &str) -> (id: String)
    ensures
        id@ == package_id(package_name@, version@),
{
    text::copy(package_name).concat("@").concat(version)
}

/// How a deprecation is written.
pub fn format_deprecation_message(
    is_prefixed: bool,
    package_name: &str,
    version: &str,
    message: &str,
) -> (formatted: String)
    ensures
        formatted@ == deprecation_message(is_prefixed, package_name@, version@, message@),
{
    let id = format_package_id(package_name, version);
    let what = text::copy("deprecated ").concat(id.as_str());
    if is_prefixed {
        return format_warn(what.as_str());
    }
    format_warn(what.concat(": ").concat(message).as_str())
}

/// Draws the progress.
fn draw(state: &mut State, done: bool, terminal: bool) -> (written: String)
    requires
        old(state).prefix is Some ==> has_label(old(state).prefix->0@),
    ensures
        final(state)@ == after_draw(old(state)@, done, terminal),
        final(state).prefix == old(state).prefix,
        written@ == drawn_text(old(state)@, done, terminal),
{
    let line = format_with_prefix(
        match &state.prefix {
            Some(prefix) => Some(prefix.as_str()),
            None => None,
        },
        format_progress(state.stats, done).as_str(),
    );
    match state.reporter {
        InstallReporter::Default => {
            if terminal {
                state.rendered = !done;
                let written = text::copy("\r\x1b[2K").concat(line.as_str());
                if done {
                    written.concat("\n")
                } else {
                    assert(written@ =~= drawn_text(old(state)@, done, terminal));
                    written
                }
            } else {
                state.rendered = false;
                let nothing = String::new();
                assert(nothing@ =~= Seq::<char>::empty());
                nothing
            }
        },
        InstallReporter::AppendOnly => {
            state.rendered = false;
            line.concat("\n")
        },
        InstallReporter::Silent => {
            state.rendered = false;
            let nothing = String::new();
            assert(nothing@ =~= Seq::<char>::empty());
            nothing
        },
    }
}

/// Shows a message while an installation is under way.
fn print_state_message(state: &mut State, message: &str, terminal: bool) -> (written: String)
    requires
        !(old(state).reporter is Silent) && old(state).prefix is Some ==> has_label(
            old(state).prefix->0@,
        ),
    ensures
        final(state)@ == after_message(old(state)@),
        final(state).prefix == old(state).prefix,
        final(state).shown_warnings == old(state).shown_warnings,
        final(state).suppressed_warnings == old(state).suppressed_warnings,
        written@ == message_text(Some(old(state)@), message@, terminal),
{
    if let InstallReporter::Silent = state.reporter {
        let nothing = String::new();
        assert(nothing@ =~= Seq::<char>::empty());
        return nothing;
    }
    let line = format_with_prefix(
        match &state.prefix {
            Some(prefix) => Some(prefix.as_str()),
            None => None,
        },
        message,
    );
    match state.reporter {
        InstallReporter::Default => {
            let mut written = if terminal && state.rendered {
                text::copy("\r\x1b[2K")
            } else {
                let nothing = String::new();
                assert(nothing@ =~= Seq::<char>::empty());
                nothing
            };
            state.rendered = false;
            written.append(line.as_str());
            written.append("\n");
            written
        },
        _ => line.concat("\n"),
    }
}

/// Shows a message.
fn print_message(progress: &mut Progress, message: &str, terminal: bool) -> (written: String)
    requires
        old(progress).can_print(),
    ensures
        final(progress).current() == (match old(progress).current() {
            Some(state) => Some(after_message(state)),
            None => None,
        }),
        final(progress).can_print(),
        final(progress).last_finished == old(progress).last_finished,
        written@ == message_text(old(progress).current(), message@, terminal),
{
    match &mut progress.state {
        Some(state) => print_state_message(state, message, terminal),
        None => text::copy(message).concat("\n"),
    }
}

/// An installation begins.
pub fn start(
    progress: &mut Progress,
    _direct_dependencies: usize,
    _frozen_lockfile: bool,
    reporter: InstallReporter,
    prefix: Option<&str>,
)
    ensures
        final(progress).current() == Some(started(reporter, prefix.deep_view())),
        final(progress).last_finished is None,
        prefix is None || has_label(prefix->0@) ==> final(progress).can_draw(),
        reporter is Silent || final(progress).can_draw() ==> final(progress).can_print(),
{
    progress.last_finished = None;
    let deprecations: Vec<String> = Vec::new();
    assert(deprecations.deep_view().to_set() =~= Set::<Seq<char>>::empty());
    progress.state = Some(
        State {
            stats: ProgressStats::default(),
            rendered: false,
            reporter,
            prefix: match prefix {
                Some(prefix) => Some(text::copy(prefix)),
                None => None,
            },
            deprecations,
            shown_warnings: 0,
            suppressed_warnings: 0,
        },
    );
}

/// What is known after the counters changed, and the progress was drawn if it
/// was due.
pub open spec fn after_count(
    state: Option<StateModel>,
    stats: ProgressStats,
    due: bool,
    terminal: bool,
) -> Option<StateModel> {
    match state {
        None => None,
        Some(state) => {
            let counted = StateModel { stats, ..state };
            Some(if due {
                after_draw(counted, false, terminal)
            } else {
                counted
            })
        },
    }
}

/// What is written after the counters changed; nothing is drawn unless an
/// installation is under way and drawing is due.
pub open spec fn count_text(
    state: Option<StateModel>,
    stats: ProgressStats,
    due: bool,
    terminal: bool,
) -> Option<Seq<char>> {
    match state {
        Some(state) if due => Some(drawn_text(StateModel { stats, ..state }, false, terminal)),
        _ => None,
    }
}

/// Changes the counters and draws the progress if that is due.
fn update(progress: &mut Progress, stats: ProgressStats, due: bool, terminal: bool) -> (written:
    Option<String>)
    requires
        due ==> old(progress).can_draw(),
    ensures
        final(progress).current() == after_count(old(progress).current(), stats, due, terminal),
        old(progress).can_draw() ==> final(progress).can_draw(),
        final(progress).last_finished == old(progress).last_finished,
        written.deep_view() == count_text(old(progress).current(), stats, due, terminal),
{
    match &mut progress.state {
        Some(state) => {
            state.stats = stats;
            if due {
                Some(draw(state, false, terminal))
            } else {
                None
            }
        },
        None => None,
    }
}

/// What has been done in the installation that is under way.
fn stats_of(progress: &Progress) -> (stats: ProgressStats)
    ensures
        progress.current() is Some ==> stats == progress.current()->0.stats,
        progress.current() is None ==> stats == no_progress(),
{
    match &progress.state {
        Some(state) => state.stats,
        None => ProgressStats::default(),
    }
}

/// The counters of the installation that is under way.
pub open spec fn counters(progress: Progress) -> ProgressStats {
    match progress.current() {
        Some(state) => state.stats,
        None => no_progress(),
    }
}

/// One more package was resolved.
pub fn resolved(progress: &mut Progress, due: bool, terminal: bool) -> (written: Option<String>)
    requires
        due ==> old(progress).can_draw(),
        counters(*old(progress)).resolved < usize::MAX,
    ensures
        ({
            let before = counters(*old(progress));
            let stats = ProgressStats { resolved: (before.resolved + 1) as usize, ..before };
            &&& final(progress).current() == after_count(
                old(progress).current(),
                stats,
                due,
                terminal,
            )
            &&& written.deep_view() == count_text(old(progress).current(), stats, due, terminal)
        }),
        old(progress).can_draw() ==> final(progress).can_draw(),
        final(progress).last_finished == old(progress).last_finished,
{
    let mut stats = stats_of(progress);
    stats.resolved = stats.resolved + 1;
    update(progress, stats, due, terminal)
}

/// One more package was found in the store.
pub fn reused(progress: &mut Progress, due: bool, terminal: bool) -> (written: Option<String>)
    requires
        due ==> old(progress).can_draw(),
        counters(*old(progress)).reused < usize::MAX,
    ensures
        ({
            let before = counters(*old(progress));
            let stats = ProgressStats { reused: (before.reused + 1) as usize, ..before };
            &&& final(progress).current() == after_count(
                old(progress).current(),
                stats,
                due,
                terminal,
            )
            &&& written.deep_view() == count_text(old(progress).current(), stats, due, terminal)
        }),
        old(progress).can_draw() ==> final(progress).can_draw(),
        final(progress).last_finished == old(progress).last_finished,
{
    let mut stats = stats_of(progress);
    stats.reused = stats.reused + 1;
    update(progress, stats, due, terminal)
}

/// One more package was downloaded.
pub fn downloaded(progress: &mut Progress, due: bool, terminal: bool) -> (written: Option<String>)
    requires
        due ==> old(progress).can_draw(),
        counters(*old(progress)).downloaded < usize::MAX,
    ensures
        ({
            let before = counters(*old(progress));
            let stats = ProgressStats { downloaded: (before.downloaded + 1) as usize, ..before };
            &&& final(progress).current() == after_count(
                old(progress).current(),
                stats,
                due,
                terminal,
            )
            &&& written.deep_view() == count_text(old(progress).current(), stats, due, terminal)
        }),
        old(progress).can_draw() ==> final(progress).can_draw(),
        final(progress).last_finished == old(progress).last_finished,
{
    let mut stats = stats_of(progress);
    stats.downloaded = stats.downloaded + 1;
    update(progress, stats, due, terminal)
}

/// One more package was added.
pub fn added(progress: &mut Progress, due: bool, terminal: bool) -> (written: Option<String>)
    requires
        due ==> old(progress).can_draw(),
        counters(*old(progress)).added < usize::MAX,
    ensures
        ({
            let before = counters(*old(progress));
            let stats = ProgressStats { added: (before.added + 1) as usize, ..before };
            &&& final(progress).current() == after_count(
                old(progress).current(),
                stats,
                due,
                terminal,
            )
            &&& written.deep_view() == count_text(old(progress).current(), stats, due, terminal)
        }),
        old(progress).can_draw() ==> final(progress).can_draw(),
        final(progress).last_finished == old(progress).last_finished,
{
    let mut stats = stats_of(progress);
    stats.added = stats.added + 1;
    update(progress, stats, due, terminal)
}

/// The installation that is under way ends.
pub fn finish(progress: &mut Progress, success: bool, terminal: bool) -> (result: (
    Option<ProgressStats>,
    String,
))
    requires
        old(progress).can_print(),
        success && old(progress).current() is Some && old(progress).current()->0.rendered
            ==> old(progress).can_draw(),
    ensures
        final(progress).current() is None,
        match old(progress).current() {
            None => result.0 is None && result.1@.len() == 0 && final(progress).last_finished
                == old(progress).last_finished,
            Some(state) => {
                &&& result.0 == Some(state.stats)
                &&& result.1@ == finish_text(state, success, terminal)
                &&& final(progress).last_finished == Some(state.stats)
            },
        },
{
    let mut written = String::new();
    assert(written@ =~= Seq::<char>::empty());
    let ghost before = progress.current();
    let stats = match &mut progress.state {
        None => {
            return (None, written);
        },
        Some(state) => {
            let reporter = state.reporter;
            let append_only = matches!(reporter, InstallReporter::AppendOnly);
            let default = matches!(reporter, InstallReporter::Default);
            if !append_only && state.suppressed_warnings > 0 {
                let count = text::decimal_text(state.suppressed_warnings as u128);
                let summary = format_warn(count.concat(" other warnings").as_str());
                let shown = print_state_message(state, summary.as_str(), terminal);
                written.append(shown.as_str());
                state.suppressed_warnings = 0;
            }
            assert(written@ =~= summary_text(before->0, terminal));
            if (success && state.rendered) || append_only {
                let line = draw(state, true, terminal);
                written.append(line.as_str());
            } else if !success && default && terminal && state.rendered {
                written.append("\n");
            }
            assert(written@ =~= finish_text(before->0, success, terminal));
            state.stats
        },
    };
    progress.last_finished = Some(stats);
    progress.state = None;
    (Some(stats), written)
}

/// What the last installation did.
pub fn last_finished(progress: &Progress) -> (stats: Option<ProgressStats>)
    ensures
        stats == progress.last_finished,
{
    progress.last_finished
}

/// Shows a message as it is.
pub fn log(progress: &mut Progress, message: &str, terminal: bool) -> (written: String)
    requires
        old(progress).can_print(),
    ensures
        final(progress).current() == (match old(progress).current() {
            Some(state) => Some(after_message(state)),
            None => None,
        }),
        final(progress).can_print(),
        final(progress).last_finished == old(progress).last_finished,
        written@ == message_text(old(progress).current(), message@, terminal),
{
    print_message(progress, message, terminal)
}

/// Shows a notice.
pub fn info(progress: &mut Progress, message: &str, terminal: bool) -> (written: String)
    requires
        old(progress).can_print(),
    ensures
        final(progress).current() == (match old(progress).current() {
            Some(state) => Some(after_message(state)),
            None => None,
        }),
        final(progress).can_print(),
        final(progress).last_finished == old(progress).last_finished,
        written@ == message_text(old(progress).current(), notice(message@), terminal),
{
    print_message(progress, format_info(message).as_str(), terminal)
}

/// Shows a warning; after five of them further ones are counted alone, unless
/// every line is to be kept.
pub fn warn(progress: &mut Progress, message: &str, terminal: bool) -> (written: String)
    requires
        old(progress).can_print(),
        match old(progress).current() {
            Some(state) => state.shown_warnings < usize::MAX && state.suppressed_warnings
                < usize::MAX,
            None => true,
        },
    ensures
        final(progress).current() == (match old(progress).current() {
            Some(state) => Some(after_warning(state)),
            None => None,
        }),
        final(progress).can_print(),
        final(progress).last_finished == old(progress).last_finished,
        written@ == (match old(progress).current() {
            Some(state) if !shows_warning(state) => Seq::empty(),
            state => message_text(state, warning(message@), terminal),
        }),
{
    let formatted = format_warn(message);
    match &mut progress.state {
        None => formatted.concat("\n"),
        Some(state) => {
            let reporter = state.reporter;
            if matches!(reporter, InstallReporter::AppendOnly) || state.shown_warnings < 5 {
                let written = print_state_message(state, formatted.as_str(), terminal);
                state.shown_warnings = state.shown_warnings + 1;
                written
            } else {
                state.suppressed_warnings = state.suppressed_warnings + 1;
                let nothing = String::new();
                assert(nothing@ =~= Seq::<char>::empty());
                nothing
            }
        },
    }
}

/// Shows that a package is deprecated, once for each version of a package.
pub fn deprecation(
    progress: &mut Progress,
    package_name: &str,
    version: &str,
    message: &str,
    terminal: bool,
) -> (written: String)
    requires
        old(progress).can_print(),
    ensures
        final(progress).current() == (match old(progress).current() {
            Some(state) => Some(after_deprecation(state, package_id(package_name@, version@))),
            None => None,
        }),
        final(progress).can_print(),
        final(progress).last_finished == old(progress).last_finished,
        written@ == (match old(progress).current() {
            None => message_text(
                None,
                deprecation_message(false, package_name@, version@, message@),
                terminal,
            ),
            Some(state) => if state.deprecations.contains(package_id(package_name@, version@)) {
                Seq::empty()
            } else {
                message_text(
                    Some(state),
                    deprecation_message(
                        state.prefix is Some,
                        package_name@,
                        version@,
                        message@,
                    ),
                    terminal,
                )
            },
        }),
{
    let key = format_package_id(package_name, version);
    match &mut progress.state {
        None => format_deprecation_message(false, package_name, version, message).concat("\n"),
        Some(state) => {
            if value::list_contains(&state.deprecations, key.as_str()) {
                let nothing = String::new();
                assert(nothing@ =~= Seq::<char>::empty());
                return nothing;
            }
            let formatted = format_deprecation_message(
                state.prefix.is_some(),
                package_name,
                version,
                message,
            );
            let written = print_state_message(state, formatted.as_str(), terminal);
            let ghost before = state.deprecations.deep_view();
            let ghost id = key@;
            state.deprecations.push(key);
            proof {
                assert(state.deprecations.deep_view() =~= before.push(id));
                crate::reach::lemma_push_contains(before, id);
                assert(before.push(id).to_set() =~= before.to_set().insert(id)) by {
                    assert forall|s: Seq<char>| before.push(id).to_set().contains(s)
                        <==> before.to_set().insert(id).contains(s) by {
                        assert(before.push(id).contains(s) <==> before.contains(s) || s == id);
                    }
                }
            }
            written
        },
    }
}

/// What is known after some warnings in a row.
pub open spec fn after_warnings(state: StateModel, n: nat) -> StateModel
    decreases n,
{
    if n == 0 {
        state
    } else {
        after_warning(after_warnings(state, (n - 1) as nat))
    }
}

/// Of the warnings of one installation the first five are shown and the others
/// counted; with the reporter that keeps every line, all are shown.
pub proof fn law_warnings_collapse(reporter: InstallReporter, prefix: Option<Seq<char>>, n: nat)
    ensures
        ({
            let state = after_warnings(started(reporter, prefix), n);
            let shown = if reporter is AppendOnly || n < 5 {
                n
            } else {
                5
            };
            &&& state.shown_warnings == shown
            &&& state.suppressed_warnings == n - shown
            &&& state.reporter == reporter
        }),
    decreases n,
{
    if n > 0 {
        law_warnings_collapse(reporter, prefix, (n - 1) as nat);
    }
}

/// A deprecation is told once: to tell it again changes nothing.
pub proof fn law_deprecation_told_once(state: StateModel, id: Seq<char>)
    ensures
        after_deprecation(state, id).deprecations.contains(id),
        after_deprecation(after_deprecation(state, id), id) == after_deprecation(state, id),
{
}

/// A notice or a message leaves the counters of warnings alone.
pub proof fn law_messages_keep_counters(state: StateModel)
    ensures
        after_message(state).shown_warnings == state.shown_warnings,
        after_message(state).suppressed_warnings == state.suppressed_warnings,
        after_message(state).stats == state.stats,
        after_message(state).deprecations == state.deprecations,
{
}

/// A silent reporter writes nothing; one that keeps every line writes each message on a
/// line of its own, behind its prefix; with no installation under way a message is written
/// as it is.
pub proof fn law_messages_are_written(
    written: Seq<char>,
    state: Option<StateModel>,
    message: Seq<char>,
    terminal: bool,
)
    requires
        written == message_text(state, message, terminal),
    ensures
        state is None ==> written == message + "\n"@,
        state is Some && state->0.reporter is Silent ==> written.len() == 0,
        state is Some && !(state->0.reporter is Silent) && state->0.prefix is None
            && !state->0.rendered ==> written == message + "\n"@,
        state is Some && state->0.reporter is AppendOnly && state->0.prefix is Some ==> written
            == padded(label(state->0.prefix->0), 41) + " | "@ + message + "\n"@,
{
    if state is Some && !(state->0.reporter is Silent) && state->0.prefix is None
        && !state->0.rendered {
        assert(written =~= message + "\n"@);
    }
}

/// The line that is drawn tells every counter, and at the end that it is done.
pub proof fn law_progress_tells_the_counters(stats: ProgressStats)
    ensures
        progress_line(stats, false) == "Progress: resolved "@ + text::decimal(stats.resolved as nat)
            + ", reused "@ + text::decimal(stats.reused as nat) + ", downloaded "@ + text::decimal(
            stats.downloaded as nat,
        ) + ", added "@ + text::decimal(stats.added as nat),
        progress_line(stats, true) == progress_line(stats, false) + ", done"@,
{
    assert(progress_line(stats, false) =~= "Progress: resolved "@ + text::decimal(
        stats.resolved as nat,
    ) + ", reused "@ + text::decimal(stats.reused as nat) + ", downloaded "@ + text::decimal(
        stats.downloaded as nat,
    ) + ", added "@ + text::decimal(stats.added as nat));
}

/// A deprecation is told the first time and not again.
pub proof fn law_known_deprecations_change_nothing(state: StateModel, id: Seq<char>)
    ensures
        state.deprecations.contains(id) ==> after_deprecation(state, id) == state,
        !state.deprecations.contains(id) ==> after_deprecation(state, id).deprecations
            == state.deprecations.insert(id),
{
}

} // verus!
