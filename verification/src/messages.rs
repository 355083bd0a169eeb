//! What becomes of the lines that a compiler prints.

use vstd::prelude::*;
use vstd::string::*;
use vstd::utf8::*;

use crate::bytes::optional_text;
use crate::invocation::described;
use crate::invocation::descriptive_pkg_name;
use crate::invocation::TargetDescription;
use crate::manifest_spans::crate_span;
use crate::manifest_spans::ManifestErrorContext;
use crate::manifest_spans::Span;
use crate::text::characters;
use crate::text::decimal;
use crate::text::decimal_text;
use crate::text::has_prefix;
use crate::text::has_suffix;
use crate::text::text_is;
use crate::text::text_of;
use crate::text::texts;
use crate::unit::CompileMode;

verus! {

/// How messages are printed.
#[derive(Clone, Copy, Debug, PartialEq, Eq, Structural)]
pub enum MessageFormat {
    Human,
    Short,
    Json {
        /// Whether diagnostics are printed for people all the same.
        render_diagnostics: bool,
        short: bool,
        /// Whether diagnostics keep their colors.
        ansi: bool,
    },
}

/// How the messages of one unit are handled, and how many there were.
#[derive(Clone, Copy, Debug, PartialEq, Eq, Structural)]
pub struct OutputOptions {
    pub format: MessageFormat,
    /// Whether lines are kept to be replayed.
    pub caches: bool,
    /// Whether diagnostics are shown. Other messages are handled all the same.
    pub show_diagnostics: bool,
    pub warnings_seen: usize,
    pub errors_seen: usize,
}

impl OutputOptions {
    /// Options for a unit that is compiled.
    pub fn for_dirty(format: MessageFormat) -> (options: OutputOptions)
        ensures
            options == (OutputOptions {
                format,
                caches: true,
                show_diagnostics: true,
                warnings_seen: 0,
                errors_seen: 0,
            }),
    {
        OutputOptions {
            format,
            caches: true,
            show_diagnostics: true,
            warnings_seen: 0,
            errors_seen: 0,
        }
    }

    /// Options for a unit whose messages are replayed. They are replayed in any
    /// case, since there can be reports among them.
    pub fn for_fresh(format: MessageFormat, show_warnings: bool) -> (options: OutputOptions)
        ensures
            options == (OutputOptions {
                format,
                caches: false,
                show_diagnostics: show_warnings,
                warnings_seen: 0,
                errors_seen: 0,
            }),
    {
        OutputOptions {
            format,
            caches: false,
            show_diagnostics: show_warnings,
            warnings_seen: 0,
            errors_seen: 0,
        }
    }
}

/// Whether a suggestion can be applied as it is.
#[derive(Clone, Copy, Debug, PartialEq, Eq, Structural)]
pub enum Applicability {
    MachineApplicable,
    HasPlaceholders,
    MaybeIncorrect,
    Unspecified,
}

/// A diagnostic.
pub struct Diagnostic {
    pub rendered: String,
    pub message: String,
    pub level: String,
    /// The suggestions of each of its children.
    pub suggestions: Vec<Vec<Option<Applicability>>>,
    pub code: Option<String>,
}

/// What a line is, if it is a message of the compiler: each of the shapes that a
/// message can have, where it has it.
pub struct CompilerMessage {
    /// The levels of what a report on future versions holds.
    pub future_incompat: Option<Vec<String>>,
    pub is_section_timing: bool,
    /// A diagnostic with all that is printed of it.
    pub diagnostic: Option<Diagnostic>,
    /// What is rendered of a diagnostic, and its code.
    pub rendered: Option<(String, Option<String>)>,
    /// A file that was written.
    pub artifact: Option<String>,
    pub is_unused_externs: bool,
    /// A message and its level.
    pub message: Option<(String, String)>,
}

/// What is done about a line.
#[derive(Debug)]
pub enum Action {
    /// It is printed as it is.
    Print,
    /// It is a report on future versions.
    FutureIncompat,
    /// It tells how long something took.
    SectionTiming,
    /// It is left out.
    Skip,
    /// A diagnostic is printed.
    Diagnostic { level: String, rendered: String, lint: bool, machine_applicable: bool },
    /// Metadata were written.
    RmetaProduced,
    /// Some other file was written.
    ArtifactProduced,
    /// It names crates that are not used.
    UnusedExterns,
    /// The message is passed on, with what is rendered of it replaced where that
    /// was changed.
    PassOn { replaced: Option<String> },
}

/// What is done about a line, as plain values.
pub enum Step {
    Print,
    FutureIncompat,
    SectionTiming,
    Skip,
    Diagnostic(Seq<char>, Seq<char>, bool, bool),
    RmetaProduced,
    ArtifactProduced,
    UnusedExterns,
    PassOn(Option<Seq<char>>),
}

impl View for Action {
    type V = Step;

    open spec fn view(&self) -> Step {
        match *self {
            Action::Print => Step::Print,
            Action::FutureIncompat => Step::FutureIncompat,
            Action::SectionTiming => Step::SectionTiming,
            Action::Skip => Step::Skip,
            Action::Diagnostic { level, rendered, lint, machine_applicable } => Step::Diagnostic(
                level@,
                rendered@,
                lint,
                machine_applicable,
            ),
            Action::RmetaProduced => Step::RmetaProduced,
            Action::ArtifactProduced => Step::ArtifactProduced,
            Action::UnusedExterns => Step::UnusedExterns,
            Action::PassOn { replaced } => Step::PassOn(optional_text(replaced)),
        }
    }
}

/// Options after a diagnostic of some level.
pub open spec fn counted(options: OutputOptions, level: Seq<char>) -> OutputOptions {
    if level == "warning"@ {
        OutputOptions { warnings_seen: (options.warnings_seen + 1) as usize, ..options }
    } else if level == "error"@ {
        OutputOptions { errors_seen: (options.errors_seen + 1) as usize, ..options }
    } else {
        options
    }
}

/// Options after diagnostics of some levels.
pub open spec fn all_counted(options: OutputOptions, levels: Seq<Seq<char>>) -> OutputOptions
    decreases levels.len(),
{
    if levels.len() == 0 {
        options
    } else {
        counted(all_counted(options, levels.drop_last()), levels.last())
    }
}

/// Whether so many more diagnostics can be counted.
pub open spec fn can_count(options: OutputOptions, more: int) -> bool {
    options.warnings_seen + more <= usize::MAX && options.errors_seen + more <= usize::MAX
}

/// Counts a diagnostic.
fn count_diagnostic(level: &str, options: &mut OutputOptions)
    requires
        can_count(*old(options), 1),
    ensures
        *final(options) == counted(*old(options), level@),
{
    if text_is(level, "warning") {
        options.warnings_seen = options.warnings_seen + 1;
    } else if text_is(level, "error") {
        options.errors_seen = options.errors_seen + 1;
    }
}

/// Counting grows each number by at most one for each level.
proof fn lemma_all_counted(options: OutputOptions, levels: Seq<Seq<char>>, more: int)
    requires
        can_count(options, levels.len() + more),
        more >= 0,
    ensures
        can_count(all_counted(options, levels), more),
    decreases levels.len(),
{
    if levels.len() > 0 {
        lemma_all_counted(options, levels.drop_last(), more + 1);
    }
}

/// Counts diagnostics.
fn count_diagnostics(levels: &Vec<String>, options: &mut OutputOptions)
    requires
        can_count(*old(options), levels@.len() as int),
    ensures
        *final(options) == all_counted(*old(options), texts(levels@)),
{
    let ghost all = texts(levels@);
    let mut index: usize = 0;
    proof {
        assert(all.take(0) =~= Seq::empty());
    }
    while index < levels.len()
        invariant
            index <= levels@.len(),
            all == texts(levels@),
            can_count(*old(options), levels@.len() as int),
            *options == all_counted(*old(options), all.take(index as int)),
        decreases levels@.len() - index,
    {
        proof {
            assert(all.take(index + 1).drop_last() =~= all.take(index as int));
            assert(all.take(index + 1).last() == levels@[index as int]@);
            lemma_all_counted(*old(options), all.take(index as int), 1);
        }
        count_diagnostic(levels[index].as_str(), options);
        index = index + 1;
    }
    proof {
        assert(all.take(index as int) =~= all);
    }
}

/// Whether a message only sums up others: a summary of our own is printed.
pub open spec fn is_summary(message: Seq<char>) -> bool {
    "aborting due to"@.is_prefix_of(message) || "warning emitted"@.is_suffix_of(message)
        || "warnings emitted"@.is_suffix_of(message)
}

/// Whether a message only sums up others.
pub fn sums_up(message: &str) -> (summary: bool)
    ensures
        summary == is_summary(message@),
{
    has_prefix(message, "aborting due to") || has_suffix(message, "warning emitted") || has_suffix(
        message,
        "warnings emitted",
    )
}

/// Whether a suggestion of a diagnostic can be applied as it is.
pub open spec fn is_applicable(suggestions: Seq<Vec<Option<Applicability>>>) -> bool {
    exists|i: int, j: int|
        0 <= i < suggestions.len() && 0 <= j < suggestions[i]@.len() && #[trigger] suggestions[i]@[j]
            == Some(Applicability::MachineApplicable)
}

/// Whether a suggestion of a diagnostic can be applied as it is.
fn has_applicable(suggestions: &Vec<Vec<Option<Applicability>>>) -> (applicable: bool)
    ensures
        applicable == is_applicable(suggestions@),
{
    let mut child: usize = 0;
    while child < suggestions.len()
        invariant
            child <= suggestions@.len(),
            forall|i: int, j: int|
                0 <= i < child && 0 <= j < suggestions@[i]@.len()
                    ==> #[trigger] suggestions@[i]@[j] != Some(Applicability::MachineApplicable),
        decreases suggestions@.len() - child,
    {
        let list = &suggestions[child];
        let mut at: usize = 0;
        while at < list.len()
            invariant
                child < suggestions@.len(),
                list@ == suggestions@[child as int]@,
                at <= list@.len(),
                forall|j: int|
                    0 <= j < at ==> #[trigger] suggestions@[child as int]@[j] != Some(
                        Applicability::MachineApplicable,
                    ),
            decreases list@.len() - at,
        {
            match list[at] {
                Some(Applicability::MachineApplicable) => {
                    proof {
                        assert(suggestions@[child as int]@[at as int] == Some(
                            Applicability::MachineApplicable,
                        ));
                    }
                    return true;
                },
                _ => {},
            }
            at = at + 1;
        }
        child = child + 1;
    }
    false
}

/// The pattern of messages on private dependencies.
pub const PRIVATE_DEPENDENCY: &'static str = "from private dependency '([A-Za-z0-9-_]+)'";

/// What the first group of a pattern holds in the first place where the pattern
/// is found in a text, by `regex::Regex::captures`.
pub uninterp spec fn first_group(pattern: Seq<char>, text: Seq<char>) -> Option<Seq<char>>;

/// Calls `regex::Regex::captures`, whose result depends on the pattern and the
/// text alone. There is none where the pattern is none.
#[verifier::external_body]
fn capture(pattern: &str, text: &str) -> (group: Option<String>)
    ensures
        optional_text(group) == first_group(pattern@, text@),
{
    let expression = regex::Regex::new(pattern).ok()?;
    let captures = expression.captures(text)?;
    captures.get(1).map(|group| group.as_str().to_owned())
}

/// A path as seen from a directory, by `pathdiff::diff_paths`.
pub uninterp spec fn path_from(path: Seq<char>, base: Seq<char>) -> Option<Seq<char>>;

/// Calls `pathdiff::diff_paths`, whose result depends on the two paths alone.
#[verifier::external_body]
fn diff_paths(path: &str, base: &str) -> (difference: Option<String>)
    ensures
        optional_text(difference) == path_from(path@, base@),
{
    pathdiff::diff_paths(path, base).map(|path| path.display().to_string())
}

/// A text without colors, by `anstream::adapter::strip_str`.
pub uninterp spec fn without_colors(text: Seq<char>) -> Seq<char>;

/// Calls `anstream::adapter::strip_str`, whose result depends on the text alone.
#[verifier::external_body]
fn strip_colors(text: &str) -> (plain: String)
    ensures
        plain@ == without_colors(text@),
{
    anstream::adapter::strip_str(text).to_string()
}

/// A note that points to a dependency in a manifest.
pub struct DependencyNote {
    pub crate_name: String,
    pub span: Span,
    /// The path of the manifest.
    pub path: String,
}

impl DependencyNote {
    /// The title of the note.
    pub fn title(&self) -> (title: String)
        ensures
            title@ == "dependency `"@ + self.crate_name@ + "` declared here"@,
    {
        let mut title = "dependency `".to_owned();
        title.append(self.crate_name.as_str());
        title.append("` declared here");
        title
    }
}

/// The note on a private dependency, given the crate that a diagnostic names.
pub open spec fn note_on(
    context: ManifestErrorContext,
    has_contents: bool,
    crate_name: Option<Seq<char>>,
) -> Option<(Seq<char>, Span)> {
    match crate_name {
        Some(name) => match crate_span(context, name) {
            Some(span) => if has_contents {
                Some((name, span))
            } else {
                None
            },
            None => None,
        },
        None => None,
    }
}

/// The path of a manifest in a note: as seen from the directory that is worked
/// in, where it can be.
pub open spec fn note_path(path: Seq<char>, difference: Option<Seq<char>>) -> Seq<char> {
    match difference {
        Some(difference) => difference,
        None => path,
    }
}

/// The note on a private dependency, given the crate that a diagnostic names and
/// how the manifest is seen from the directory that is worked in.
pub fn note_on_crate(
    context: &ManifestErrorContext,
    has_contents: bool,
    manifest_path: &str,
    crate_name: Option<String>,
    difference: Option<String>,
) -> (note: Option<DependencyNote>)
    ensures
        match (note, note_on(*context, has_contents, optional_text(crate_name))) {
            (Some(note), Some(expected)) => (note.crate_name@, note.span) == expected && note.path@
                == note_path(manifest_path@, optional_text(difference)),
            (None, None) => true,
            _ => false,
        },
{
    let name = match crate_name {
        Some(name) => name,
        None => {
            return None;
        },
    };
    if !has_contents {
        return None;
    }
    match context.find_crate_span(name.as_str()) {
        None => None,
        Some(span) => {
            let path = match difference {
                Some(path) => path,
                None => manifest_path.to_owned(),
            };
            Some(DependencyNote { crate_name: name, span, path })
        },
    }
}

/// The note on the private dependency that a diagnostic names.
pub fn pub_in_priv_note(
    rendered: &str,
    context: &ManifestErrorContext,
    has_contents: bool,
    manifest_path: &str,
    cwd: &str,
) -> (note: Option<DependencyNote>)
    ensures
        is_note_for(
            note,
            Some(rendered@),
            *context,
            has_contents,
            manifest_path@,
            cwd@,
        ),
{
    let crate_name = capture(PRIVATE_DEPENDENCY, rendered);
    let difference = diff_paths(manifest_path, cwd);
    note_on_crate(context, has_contents, manifest_path, crate_name, difference)
}

/// Whether a code is that of an exported private dependency.
pub open spec fn is_private_code(code: Option<Seq<char>>) -> bool {
    code == Some("exported_private_dependencies"@)
}

/// Whether a code is that of an exported private dependency.
fn has_private_code(code: &Option<String>) -> (private: bool)
    ensures
        private == is_private_code(optional_text(*code)),
{
    match code {
        Some(code) => text_is(code.as_str(), "exported_private_dependencies"),
        None => false,
    }
}

/// What is printed of a diagnostic with a note.
pub open spec fn with_note(rendered: Seq<char>, note: Option<Seq<char>>) -> Seq<char> {
    match note {
        Some(note) => rendered + note + "\n"@,
        None => rendered,
    }
}

/// `text` without a line break at its end.
pub open spec fn without_line_break(text: Seq<char>) -> Seq<char> {
    if text.len() > 0 && text.last() == '\n' {
        text.drop_last()
    } else {
        text
    }
}

/// `text` without a line break at its end.
fn drop_line_break(text: &str) -> (result: String)
    ensures
        result@ == without_line_break(text@),
{
    let mut chars = characters(text);
    if chars.len() > 0 && chars[chars.len() - 1] == '\n' {
        chars.pop();
    }
    let result = text_of(chars.as_slice());
    proof {
        assert(result@ =~= without_line_break(text@));
    }
    result
}

/// Whether diagnostics are printed for people.
pub open spec fn renders(format: MessageFormat) -> bool {
    match format {
        MessageFormat::Json { render_diagnostics, .. } => render_diagnostics,
        _ => true,
    }
}

/// Whether diagnostics are printed for people.
fn renders_diagnostics(format: MessageFormat) -> (rendered: bool)
    ensures
        rendered == renders(format),
{
    match format {
        MessageFormat::Json { render_diagnostics, short: _, ansi: _ } => render_diagnostics,
        _ => true,
    }
}

/// The note that a diagnostic gets in a format.
pub open spec fn applied_note(
    format: MessageFormat,
    code: Option<Seq<char>>,
    note: Option<Seq<char>>,
) -> Option<Seq<char>> {
    if is_private_code(code) && format != MessageFormat::Short {
        note
    } else {
        None
    }
}

/// What becomes of a diagnostic that is printed for people.
pub open spec fn printed(
    diagnostic: Diagnostic,
    options: OutputOptions,
    note: Option<Seq<char>>,
) -> (Step, OutputOptions) {
    if is_summary(diagnostic.message@) || !options.show_diagnostics {
        (Step::Skip, options)
    } else {
        (
            Step::Diagnostic(
                diagnostic.level@,
                with_note(
                    without_line_break(diagnostic.rendered@),
                    applied_note(options.format, optional_text(diagnostic.code), note),
                ),
                diagnostic.code is Some,
                is_applicable(diagnostic.suggestions@),
            ),
            counted(options, diagnostic.level@),
        )
    }
}

/// What is rendered of a message that is passed on, where that changes. Colors
/// are taken out where they are not wanted.
pub open spec fn repainted(
    rendered: Seq<char>,
    code: Option<Seq<char>>,
    format: MessageFormat,
    note: Option<Seq<char>>,
) -> Option<Seq<char>> {
    match format {
        MessageFormat::Json { render_diagnostics: false, ansi, .. } => {
            let added = applied_note(format, code, note);
            if !ansi {
                Some(without_colors(with_note(rendered, added)))
            } else if added is Some {
                Some(with_note(rendered, added))
            } else {
                None
            }
        },
        _ => None,
    }
}

/// What is rendered of a message that is passed on, where that changes.
pub open spec fn new_rendering(
    message: CompilerMessage,
    format: MessageFormat,
    note: Option<Seq<char>>,
) -> Option<Seq<char>> {
    match message.rendered {
        Some((rendered, code)) => repainted(rendered@, optional_text(code), format, note),
        None => None,
    }
}

/// What becomes of a message that is not printed for people: the step, the
/// options, and whether the line is kept.
pub open spec fn passed_on(
    message: CompilerMessage,
    options: OutputOptions,
    note: Option<Seq<char>>,
) -> (Step, OutputOptions, bool) {
    match message.artifact {
        Some(artifact) => (
            if ".rmeta"@.is_suffix_of(artifact@) {
                Step::RmetaProduced
            } else {
                Step::ArtifactProduced
            },
            options,
            false,
        ),
        None => if message.is_unused_externs {
            (Step::UnusedExterns, options, true)
        } else if !options.show_diagnostics {
            (Step::Skip, options, true)
        } else {
            let step = Step::PassOn(new_rendering(message, options.format, note));
            match message.message {
                Some((text, level)) => if is_summary(text@) {
                    (Step::Skip, options, true)
                } else {
                    (step, counted(options, level@), true)
                },
                None => (step, options, true),
            }
        },
    }
}

/// What becomes of a line: the step, the options, and whether the line is kept.
/// A line that is not a message is printed as it is.
pub open spec fn reaction(
    message: Option<CompilerMessage>,
    options: OutputOptions,
    note: Option<Seq<char>>,
) -> (Step, OutputOptions, bool) {
    match message {
        None => (Step::Print, options, true),
        Some(message) => match message.future_incompat {
            Some(levels) => (
                Step::FutureIncompat,
                all_counted(options, texts(levels@)),
                true,
            ),
            None => if message.is_section_timing {
                (Step::SectionTiming, options, false)
            } else {
                match message.diagnostic {
                    Some(diagnostic) => if renders(options.format) {
                        let (step, after) = printed(diagnostic, options, note);
                        (step, after, true)
                    } else {
                        passed_on(message, options, note)
                    },
                    None => passed_on(message, options, note),
                }
            },
        },
    }
}

/// The rendered diagnostic of a line in which a private dependency is looked for:
/// one with the code of an exported private dependency, that is printed for
/// people at length or whose message is passed on.
pub open spec fn noted_rendering(
    message: Option<CompilerMessage>,
    options: OutputOptions,
) -> Option<Seq<char>> {
    match message {
        None => None,
        Some(message) => if message.future_incompat is Some || message.is_section_timing {
            None
        } else if renders(options.format) {
            match message.diagnostic {
                Some(diagnostic) => if !is_summary(diagnostic.message@) && options.show_diagnostics
                    && is_private_code(optional_text(diagnostic.code)) && options.format
                    != MessageFormat::Short {
                    Some(without_line_break(diagnostic.rendered@))
                } else {
                    None
                },
                None => None,
            }
        } else {
            match message.rendered {
                Some((rendered, code)) => if is_private_code(optional_text(code)) {
                    Some(rendered@)
                } else {
                    None
                },
                None => None,
            }
        },
    }
}

/// The rendered diagnostic of a line in which a private dependency is looked for.
pub fn rendering_to_note(
    message: &Option<CompilerMessage>,
    options: &OutputOptions,
) -> (rendered: Option<String>)
    ensures
        optional_text(rendered) == noted_rendering(*message, *options),
{
    let message = match message {
        Some(message) => message,
        None => {
            return None;
        },
    };
    if message.future_incompat.is_some() || message.is_section_timing {
        return None;
    }
    if renders_diagnostics(options.format) {
        let short = match options.format {
            MessageFormat::Short => true,
            _ => false,
        };
        match &message.diagnostic {
            Some(diagnostic) => {
                if !sums_up(diagnostic.message.as_str()) && options.show_diagnostics
                    && has_private_code(&diagnostic.code) && !short {
                    Some(drop_line_break(diagnostic.rendered.as_str()))
                } else {
                    None
                }
            },
            None => None,
        }
    } else {
        match &message.rendered {
            Some(parts) => {
                if has_private_code(&parts.1) {
                    Some(parts.0.as_str().to_owned())
                } else {
                    None
                }
            },
            None => None,
        }
    }
}

/// Whether `note` is the note on the private dependency that a line names.
pub open spec fn is_note_for(
    note: Option<DependencyNote>,
    rendered: Option<Seq<char>>,
    context: ManifestErrorContext,
    has_contents: bool,
    manifest_path: Seq<char>,
    cwd: Seq<char>,
) -> bool {
    match rendered {
        None => note is None,
        Some(rendered) => match (
            note,
            note_on(context, has_contents, first_group(PRIVATE_DEPENDENCY@, rendered)),
        ) {
            (Some(note), Some(expected)) => (note.crate_name@, note.span) == expected && note.path@
                == note_path(manifest_path, path_from(manifest_path, cwd)),
            (None, None) => true,
            _ => false,
        },
    }
}

/// The note on the private dependency that a line names, where it is looked for.
pub fn note_for_line(
    message: &Option<CompilerMessage>,
    options: &OutputOptions,
    context: &ManifestErrorContext,
    has_contents: bool,
    manifest_path: &str,
    cwd: &str,
) -> (note: Option<DependencyNote>)
    ensures
        is_note_for(
            note,
            noted_rendering(*message, *options),
            *context,
            has_contents,
            manifest_path@,
            cwd@,
        ),
{
    match rendering_to_note(message, options) {
        Some(rendered) => pub_in_priv_note(
            rendered.as_str(),
            context,
            has_contents,
            manifest_path,
            cwd,
        ),
        None => None,
    }
}

/// A note changes nothing about a line in which none is looked for.
pub proof fn law_notes_are_for_private_dependencies(
    message: Option<CompilerMessage>,
    options: OutputOptions,
    note: Option<Seq<char>>,
)
    requires
        noted_rendering(message, options) is None,
    ensures
        reaction(message, options, note) == reaction(message, options, None),
{
}

/// How many diagnostics a line can add.
pub open spec fn diagnostics_in(message: Option<CompilerMessage>) -> int {
    match message {
        Some(message) => match message.future_incompat {
            Some(levels) => levels@.len() as int,
            None => 1,
        },
        None => 0,
    }
}

/// Prints a diagnostic.
fn print_diagnostic(diagnostic: &Diagnostic, options: &mut OutputOptions, note: &Option<String>) -> (action:
    Action)
    requires
        can_count(*old(options), 1),
    ensures
        (action@, *final(options)) == printed(*diagnostic, *old(options), optional_text(*note)),
{
    if sums_up(diagnostic.message.as_str()) {
        return Action::Skip;
    }
    if !options.show_diagnostics {
        return Action::Skip;
    }
    let mut rendered = drop_line_break(diagnostic.rendered.as_str());
    let machine_applicable = has_applicable(&diagnostic.suggestions);
    let short = match options.format {
        MessageFormat::Short => true,
        _ => false,
    };
    count_diagnostic(diagnostic.level.as_str(), options);
    if has_private_code(&diagnostic.code) && !short {
        if let Some(text) = note {
            rendered.append(text.as_str());
            rendered.append("\n");
        }
    }
    Action::Diagnostic {
        level: diagnostic.level.as_str().to_owned(),
        rendered,
        lint: diagnostic.code.is_some(),
        machine_applicable,
    }
}

/// What is rendered of a message that is passed on, where that changes.
fn repaint(message: &CompilerMessage, format: MessageFormat, note: &Option<String>) -> (rendered: Option<
    String,
>)
    ensures
        optional_text(rendered) == new_rendering(*message, format, optional_text(*note)),
{
    let (text, code) = match &message.rendered {
        Some(parts) => (&parts.0, &parts.1),
        None => {
            return None;
        },
    };
    match format {
        MessageFormat::Json { render_diagnostics, short: _, ansi } => {
            if render_diagnostics {
                return None;
            }
            let mut rendered = text.as_str().to_owned();
            let mut modified = false;
            if has_private_code(code) {
                if let Some(added) = note {
                    rendered.append(added.as_str());
                    rendered.append("\n");
                    modified = true;
                }
            }
            if !ansi {
                return Some(strip_colors(rendered.as_str()));
            }
            if modified {
                Some(rendered)
            } else {
                None
            }
        },
        _ => None,
    }
}

/// Passes on a message that is not printed for people.
fn pass_on(message: &CompilerMessage, options: &mut OutputOptions, note: &Option<String>) -> (result: (
    Action,
    bool,
))
    requires
        can_count(*old(options), 1),
    ensures
        (result.0@, *final(options), result.1) == passed_on(
            *message,
            *old(options),
            optional_text(*note),
        ),
{
    if let Some(artifact) = &message.artifact {
        return if has_suffix(artifact.as_str(), ".rmeta") {
            (Action::RmetaProduced, false)
        } else {
            (Action::ArtifactProduced, false)
        };
    }
    if message.is_unused_externs {
        return (Action::UnusedExterns, true);
    }
    if !options.show_diagnostics {
        return (Action::Skip, true);
    }
    let replaced = repaint(message, options.format, note);
    if let Some(parts) = &message.message {
        if sums_up(parts.0.as_str()) {
            return (Action::Skip, true);
        }
        count_diagnostic(parts.1.as_str(), options);
    }
    (Action::PassOn { replaced }, true)
}

/// Handles a line: tells what is done about it, and whether it is kept to be
/// replayed. `message` is what the line is as a message, and `note` the note on
/// a private dependency, where there is one.
pub fn on_stderr_line_inner(
    message: &Option<CompilerMessage>,
    options: &mut OutputOptions,
    note: &Option<String>,
) -> (result: (Action, bool))
    requires
        can_count(*old(options), diagnostics_in(*message)),
    ensures
        (result.0@, *final(options), result.1) == reaction(
            *message,
            *old(options),
            optional_text(*note),
        ),
{
    let message = match message {
        None => {
            return (Action::Print, true);
        },
        Some(message) => message,
    };
    if let Some(levels) = &message.future_incompat {
        count_diagnostics(levels, options);
        return (Action::FutureIncompat, true);
    }
    if message.is_section_timing {
        return (Action::SectionTiming, false);
    }
    if renders_diagnostics(options.format) {
        if let Some(diagnostic) = &message.diagnostic {
            let action = print_diagnostic(diagnostic, options, note);
            return (action, true);
        }
    }
    pass_on(message, options, note)
}

/// Whether a line can be a message at all.
pub fn may_be_message(line: &str) -> (may: bool)
    ensures
        may == (line@.len() > 0 && line@[0] == '{'),
{
    let chars = characters(line);
    chars.len() > 0 && chars[0] == '{'
}

/// What is kept of a line, where it is: the line and a line break.
pub fn cached_line(line: &str, keep: bool, options: &OutputOptions) -> (kept: Option<String>)
    ensures
        optional_text(kept) == if keep && options.caches {
            Some(line@ + "\n"@)
        } else {
            None
        },
{
    if keep && options.caches {
        let mut kept = line.to_owned();
        kept.append("\n");
        Some(kept)
    } else {
        None
    }
}

/// `text` without the line breaks at its end.
pub open spec fn replayed(text: Seq<char>) -> Seq<char>
    decreases text.len(),
{
    if text.len() > 0 && (text.last() == '\n' || text.last() == '\r') {
        replayed(text.drop_last())
    } else {
        text
    }
}

/// A line that was kept, as it is replayed.
pub fn replayed_line(line: &str) -> (result: String)
    ensures
        result@ == replayed(line@),
{
    let mut chars = characters(line);
    while chars.len() > 0 && (chars[chars.len() - 1] == '\n' || chars[chars.len() - 1] == '\r')
        invariant
            replayed(chars@) == replayed(line@),
        decreases chars@.len(),
    {
        let ghost before = chars@;
        chars.pop();
        proof {
            assert(chars@ =~= before.drop_last());
        }
    }
    text_of(chars.as_slice())
}

/// A line that is kept is replayed as it was, where it does not end in a line
/// break itself.
pub proof fn law_kept_lines_are_replayed(line: Seq<char>)
    requires
        line.len() > 0 ==> line.last() != '\n' && line.last() != '\r',
    ensures
        replayed(line + "\n"@) == line,
{
    reveal_strlit("\n");
    let kept = line + "\n"@;
    assert(kept.last() == '\n');
    assert(kept.drop_last() =~= line);
    assert(replayed(line) == line);
}

/// Messages that only sum up others are neither printed nor counted.
pub proof fn law_summaries_are_left_out(
    diagnostic: Diagnostic,
    options: OutputOptions,
    note: Option<Seq<char>>,
)
    requires
        is_summary(diagnostic.message@),
    ensures
        printed(diagnostic, options, note) == (Step::Skip, options),
{
}

/// The number of warnings at the end of a message.
pub open spec fn warnings_text(count: usize) -> Seq<char> {
    if count == 0 {
        Seq::empty()
    } else if count == 1 {
        "; 1 warning emitted"@
    } else {
        "; "@ + decimal(count as nat) + " warnings emitted"@
    }
}

/// The number of errors in a message.
pub open spec fn errors_text(count: usize) -> Seq<char> {
    if count == 0 {
        Seq::empty()
    } else if count == 1 {
        " due to 1 previous error"@
    } else {
        " due to "@ + decimal(count as nat) + " previous errors"@
    }
}

/// What users are told of a unit that could not be compiled.
pub fn compile_failure(
    name: &str,
    target: &TargetDescription,
    mode: CompileMode,
    options: &OutputOptions,
) -> (text: String)
    ensures
        text@ == "could not compile "@ + described(name@, *target, mode) + errors_text(
            options.errors_seen,
        ) + warnings_text(options.warnings_seen),
{
    let mut text = "could not compile ".to_owned();
    let described = descriptive_pkg_name(name, target, mode);
    text.append(described.as_str());
    let ghost start = text@;
    if options.errors_seen == 1 {
        text.append(" due to 1 previous error");
    } else if options.errors_seen > 1 {
        text.append(" due to ");
        text.append(decimal_text(options.errors_seen as u64).as_str());
        text.append(" previous errors");
    }
    proof {
        assert(text@ =~= start + errors_text(options.errors_seen));
    }
    let ghost middle = text@;
    if options.warnings_seen == 1 {
        text.append("; 1 warning emitted");
    } else if options.warnings_seen > 1 {
        text.append("; ");
        text.append(decimal_text(options.warnings_seen as u64).as_str());
        text.append(" warnings emitted");
    }
    proof {
        assert(text@ =~= middle + warnings_text(options.warnings_seen));
    }
    text
}

/// Calls `cargo_util::is_simple_exit_code`: the codes from 0 to 127 are simple.
#[verifier::external_body]
fn is_simple_exit_code(code: i32) -> (simple: bool)
    ensures
        simple == (0 <= code <= 127),
{
    cargo_util::is_simple_exit_code(code)
}

/// Whether the details of an error are hidden unless users ask for them. They
/// are where the process ended with a simple code. A process that was killed
/// has none.
pub fn verbose_if_simple_exit_code(code: Option<i32>) -> (hidden: bool)
    ensures
        hidden == (code is Some && 0 <= code->Some_0 <= 127),
{
    match code {
        Some(code) => is_simple_exit_code(code),
        None => false,
    }
}

/// Whether the details of a failed compilation are hidden. Where no errors were
/// shown, they never are.
pub fn hides_details(errors_seen: usize, code: Option<i32>) -> (hidden: bool)
    ensures
        hidden == (errors_seen > 0 && code is Some && 0 <= code->Some_0 <= 127),
{
    errors_seen > 0 && verbose_if_simple_exit_code(code)
}

/// Whether a message only sums up others.
pub open spec fn closes_others(message: Seq<char>) -> bool {
    ||| exists|rest: Seq<char>| message == #[trigger] ("aborting due to"@ + rest)
    ||| exists|rest: Seq<char>| message == #[trigger] (rest + "warning emitted"@)
    ||| exists|rest: Seq<char>| message == #[trigger] (rest + "warnings emitted"@)
}

/// The messages that only sum up others are those that begin or end in certain words.
proof fn lemma_closing_messages(message: Seq<char>)
    ensures
        is_summary(message) == closes_others(message),
{
    let start = "aborting due to"@;
    let one = "warning emitted"@;
    let many = "warnings emitted"@;
    if start.is_prefix_of(message) {
        assert(message =~= start + message.skip(start.len() as int));
    }
    if one.is_suffix_of(message) {
        assert(message =~= message.take(message.len() - one.len()) + one);
    }
    if many.is_suffix_of(message) {
        assert(message =~= message.take(message.len() - many.len()) + many);
    }
    if exists|rest: Seq<char>| message == #[trigger] (start + rest) {
        assert(message.take(start.len() as int) =~= start);
    }
    if exists|rest: Seq<char>| message == #[trigger] (rest + one) {
        assert(message.skip(message.len() - one.len()) =~= one);
    }
    if exists|rest: Seq<char>| message == #[trigger] (rest + many) {
        assert(message.skip(message.len() - many.len()) =~= many);
    }
}

/// A diagnostic is printed and counted where diagnostics are shown and it sums up no
/// others: a warning as one warning more, an error as one error more, anything else
/// as neither. A diagnostic that is not printed counts as nothing. It has a code
/// exactly where it is a lint.
pub proof fn law_printed_diagnostics_are_counted(
    message: CompilerMessage,
    diagnostic: Diagnostic,
    options: OutputOptions,
    note: Option<Seq<char>>,
)
    requires
        message.future_incompat is None,
        !message.is_section_timing,
        message.diagnostic == Some(diagnostic),
        !(options.format is Json),
        can_count(options, 1),
    ensures
        ({
            let (step, after, kept) = reaction(Some(message), options, note);
            let shown = options.show_diagnostics && !closes_others(diagnostic.message@);
            &&& kept
            &&& step is Skip <==> !shown
            &&& shown ==> (step matches Step::Diagnostic(level, rendered, lint, applicable) && level
                == diagnostic.level@ && lint == diagnostic.code is Some)
            &&& after.warnings_seen - options.warnings_seen == if shown && diagnostic.level@
                == "warning"@ {
                1int
            } else {
                0
            }
            &&& after.errors_seen - options.errors_seen == if shown && diagnostic.level@ == "error"@ {
                1int
            } else {
                0
            }
            &&& after.show_diagnostics == options.show_diagnostics
            &&& after.format == options.format
        }),
{
    lemma_closing_messages(diagnostic.message@);
    reveal_strlit("warning");
    reveal_strlit("error");
    assert("warning"@.len() != "error"@.len());
}

/// A file that the compiler announces is told to others by its name: metadata ends in
/// `.rmeta`. Such a line is not kept, and counts as nothing.
pub proof fn law_announced_files_are_told(
    message: CompilerMessage,
    options: OutputOptions,
    note: Option<Seq<char>>,
    stem: Seq<char>,
)
    requires
        message.future_incompat is None,
        !message.is_section_timing,
        message.diagnostic is None,
        message.artifact is Some,
    ensures
        ({
            let (step, after, kept) = reaction(Some(message), options, note);
            &&& !kept
            &&& after == options
            &&& step is RmetaProduced || step is ArtifactProduced
            &&& message.artifact->Some_0@ == stem + ".rmeta"@ ==> step is RmetaProduced
            &&& !message.artifact->Some_0@.contains('.') ==> step is ArtifactProduced
        }),
{
    let name = message.artifact->Some_0@;
    if name == stem + ".rmeta"@ {
        assert(name.skip(stem.len() as int) =~= ".rmeta"@);
    }
    if ".rmeta"@.is_suffix_of(name) {
        reveal_strlit(".rmeta");
        let at = name.len() - ".rmeta"@.len();
        assert(name.skip(at)[0] == name[at]);
        assert(name[at] == '.');
    }
}

} // verus!
