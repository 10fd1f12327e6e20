use vstd::prelude::*;

use crate::build::graph::SourceKind;
use crate::text::to_owned_string;

verus! {

/// How a single module is watched.
pub struct WatchOptions {
    /// How long to wait for further changes before rebuilding.
    pub debounce: std::time::Duration,
    /// The module name to ask the client to reload; the module's own name when `None`.
    pub module: Option<String>,
}

/// Whether a watcher event at `path` is ignored: it lies in the output directory, and that
/// is not the source directory itself.
pub fn should_ignore_path(path: &str, source_dir: &str, output_dir: &str) -> (r: bool)
    ensures
        r == (!crate::paths::path_same(source_dir@, output_dir@) && crate::paths::path_strip_prefix(path@, output_dir@) is Some),
{
    if crate::paths::paths_equal(source_dir, output_dir) {
        return false;
    }
    crate::paths::strip_path_prefix(path, output_dir).is_some()
}

/// The path a source's output is written to: the source's place under `source_dir`, moved
/// to `output_dir`, with `.js` for a script and `.css` for an SCSS stylesheet.
pub open spec fn output_path_for(source_dir: Seq<char>, output_dir: Seq<char>, source: Seq<char>) -> Seq<char> {
    let rel = match crate::paths::path_strip_prefix(source, source_dir) {
        Some(r) => r,
        None => source,
    };
    let out = crate::paths::path_join(output_dir, rel);
    let kind = crate::build::graph::kind_of_extension(crate::paths::path_extension(source));
    if kind.spec_is_js_like() {
        crate::paths::path_with_extension(out, "js"@)
    } else if kind is Scss {
        crate::paths::path_with_extension(out, "css"@)
    } else {
        out
    }
}

/// The output file that corresponds to the source `source` (see [`output_path_for`]); a
/// source that is removed has its output removed too.
pub fn corresponding_output(source_dir: &str, output_dir: &str, source: &str) -> (r: String)
    ensures
        r@ == output_path_for(source_dir@, output_dir@, source@),
{
    let rel = match crate::paths::strip_path_prefix(source, source_dir) {
        Some(r) => r,
        None => to_owned_string(source),
    };
    let out = crate::paths::join_path(output_dir, rel.as_str());
    let kind = SourceKind::from_path(source);
    proof {
        crate::paths::lemma_plain_extensions();
    }
    if kind.is_js_like() {
        crate::paths::set_path_extension(out.as_str(), "js")
    } else if kind == SourceKind::Scss {
        crate::paths::set_path_extension(out.as_str(), "css")
    } else {
        out
    }
}

/// The address that asks the client to reload the module `name`.
pub fn reload_uri(name: &str) -> (r: String)
    ensures
        r@ == "spotify:app:rpc:reload?module="@ + name@,
{
    let mut r = to_owned_string("spotify:app:rpc:reload?module=");
    r.push_str(name);
    r
}

/// Where a watch loop stands: waiting for the first change, or letting a burst of changes
/// settle before the rebuild that follows it.
#[derive(Debug, Clone, Copy, PartialEq, Eq, Structural)]
pub enum DebouncePhase {
    /// Blocked until the watcher reports a change.
    Waiting,
    /// A change was built; further changes push the quiet period back.
    Settling,
}

/// What the watcher channel gave the loop.
#[derive(Debug, Clone, Copy, PartialEq, Eq, Structural)]
pub enum WatchSignal {
    /// An event about changed files.
    Changed,
    /// The quiet period passed without an event.
    QuietPeriodOver,
    /// The watcher is gone.
    Disconnected,
}

/// What the loop does next.
#[derive(Debug, Clone, PartialEq, Eq)]
pub enum WatchAction {
    /// Record the event's changes, rebuild at once, and start the quiet period.
    ApplyAndRebuild,
    /// Record the event's changes and start the quiet period again.
    ApplyAndWait,
    /// Rebuild what was recorded during the quiet period.
    Rebuild,
    /// Nothing to do; keep waiting.
    Wait,
    /// Stop watching with this error message.
    Stop(String),
}

/// Whether `r` is the decision of a watch loop in `phase` that got `signal`: the phase it
/// goes to (`None` when it stops) and what it does.  The first change of a burst is built
/// at once; every further change restarts the quiet period; when the quiet period passes,
/// what changed meanwhile is built and the loop waits again.  A watcher that goes away ends
/// the loop with an error.
pub open spec fn debounce_reports(phase: DebouncePhase, signal: WatchSignal, r: (Option<DebouncePhase>, WatchAction)) -> bool {
    match (phase, signal) {
        (DebouncePhase::Waiting, WatchSignal::Changed) => r.0 == Some(DebouncePhase::Settling)
            && r.1 is ApplyAndRebuild,
        (DebouncePhase::Waiting, WatchSignal::QuietPeriodOver) => r.0 == Some(DebouncePhase::Waiting) && r.1 is Wait,
        (DebouncePhase::Waiting, WatchSignal::Disconnected) => r.0 is None && (r.1 matches WatchAction::Stop(m)
            && m@ == "file watcher channel closed"@),
        (DebouncePhase::Settling, WatchSignal::Changed) => r.0 == Some(DebouncePhase::Settling) && r.1 is ApplyAndWait,
        (DebouncePhase::Settling, WatchSignal::QuietPeriodOver) => r.0 == Some(DebouncePhase::Waiting) && r.1 is Rebuild,
        (DebouncePhase::Settling, WatchSignal::Disconnected) => r.0 is None && (r.1 matches WatchAction::Stop(m)
            && m@ == "file watcher disconnected"@),
    }
}

/// The next step of a watch loop (see [`debounce_reports`]).
pub fn debounce_step(phase: DebouncePhase, signal: WatchSignal) -> (r: (Option<DebouncePhase>, WatchAction))
    ensures
        debounce_reports(phase, signal, r),
{
    match (phase, signal) {
        (DebouncePhase::Waiting, WatchSignal::Changed) => (Some(DebouncePhase::Settling), WatchAction::ApplyAndRebuild),
        (DebouncePhase::Waiting, WatchSignal::QuietPeriodOver) => (Some(DebouncePhase::Waiting), WatchAction::Wait),
        (DebouncePhase::Waiting, WatchSignal::Disconnected) => (
            None,
            WatchAction::Stop(to_owned_string("file watcher channel closed")),
        ),
        (DebouncePhase::Settling, WatchSignal::Changed) => (Some(DebouncePhase::Settling), WatchAction::ApplyAndWait),
        (DebouncePhase::Settling, WatchSignal::QuietPeriodOver) => (Some(DebouncePhase::Waiting), WatchAction::Rebuild),
        (DebouncePhase::Settling, WatchSignal::Disconnected) => (
            None,
            WatchAction::Stop(to_owned_string("file watcher disconnected")),
        ),
    }
}

} // verus!
