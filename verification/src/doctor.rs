//! Diagnosis: is the hook chain in place, and does it produce handles?

use crate::db;
use crate::number;
use crate::order;
use crate::order::Sortable;
use crate::settings;
use crate::text;
use vstd::prelude::*;
use vstd::string::*;

verus! {

/// Warn once this many consecutive recent sessions produced no intercept
/// handles.
pub const LIVENESS_QUIET_WARN: usize = 5;

/// Bound of the scan: enough history to tell a dead hook from a quiet week.
pub const LIVENESS_SCAN_CAP: usize = 30;

/// Default of `CTXL_BASH_THRESHOLD`.
pub const DEFAULT_BASH_BYTES: usize = 8192;

/// Default of `CTXL_BASH_LINE_THRESHOLD` and `CTXL_GREP_THRESHOLD`.
pub const DEFAULT_LINES: usize = 200;

// ---------------------------------------------------------------------------
// Liveness
// ---------------------------------------------------------------------------

/// Whether interception produces handles at all.
#[derive(Debug)]
pub struct Liveness {
    /// Age of the newest session DB containing intercept handles.
    pub last_interception_days_ago: Option<u64>,
    /// Consecutive recent sessions (newest first) with no intercept handles.
    pub recent_quiet_sessions: usize,
    /// Sessions actually examined.
    pub scanned_sessions: usize,
    pub warning: Option<String>,
}

/// A session counts: it is neither the current one, which is legitimately
/// empty, nor a synthetic one.
pub open spec fn is_eligible(name: Seq<char>, exclude: Option<Seq<char>>) -> bool {
    !"test-"@.is_prefix_of(name) && exclude != Some(name)
}

/// The place and the time of a session.
struct SessionTime {
    place: usize,
    modified: i128,
}

impl Sortable for SessionTime {
    closed spec fn precedes(&self, other: &Self) -> bool {
        self.modified > other.modified
    }

    proof fn lemma_order() {
    }

    fn comes_before(&self, other: &Self) -> (r: bool) {
        self.modified > other.modified
    }
}

/// The places and times of the sessions that count.
pub open spec fn eligible_sessions(
    names: Seq<Seq<char>>,
    times: Seq<i128>,
    exclude: Option<Seq<char>>,
) -> Seq<(int, int)>
    decreases names.len(),
{
    if names.len() == 0 {
        seq![]
    } else {
        let n = names.len() - 1;
        let before = eligible_sessions(names.drop_last(), times, exclude);
        if is_eligible(names.last(), exclude) {
            before.push((n, times[n] as int))
        } else {
            before
        }
    }
}

/// Sessions by their time, the newest first, ties as they came.
pub open spec fn newest_first(sessions: Seq<(int, int)>) -> Seq<(int, int)> {
    order::sorted(sessions, |a: (int, int), b: (int, int)| a.1 > b.1)
}

/// The places of the sessions to examine, the newest first.
pub open spec fn examined(
    names: Seq<Seq<char>>,
    times: Seq<i128>,
    exclude: Option<Seq<char>>,
) -> Seq<int> {
    let all = newest_first(eligible_sessions(names, times, exclude));
    let n = if all.len() <= LIVENESS_SCAN_CAP {
        all.len() as int
    } else {
        LIVENESS_SCAN_CAP as int
    };
    all.take(n).map_values(|s: (int, int)| s.0)
}

spec fn time_view(s: SessionTime) -> (int, int) {
    (s.place as int, s.modified as int)
}

spec fn times_view(s: Seq<SessionTime>) -> Seq<(int, int)> {
    s.map_values(|t: SessionTime| time_view(t))
}

/// The places of the sessions to examine, the newest first: `names` and `times`
/// are those of the session directories and their stores, and `exclude` is the
/// session that has just started.
pub fn select_sessions(names: &[String], times: &[i128], exclude: Option<&str>) -> (out: Vec<usize>)
    requires
        names@.len() == times@.len(),
    ensures
        out@.map_values(|i: usize| i as int) == examined(
            text::texts(names@),
            times@,
            settings::env_view(exclude),
        ),
        forall|k: int| 0 <= k < out@.len() ==> (#[trigger] out@[k]) < names@.len(),
{
    let ghost all = text::texts(names@);
    let ghost ex = settings::env_view(exclude);
    let mut found: Vec<SessionTime> = Vec::new();
    let mut i: usize = 0;
    assert(all.take(0) =~= seq![]);
    assert(times_view(found@) =~= seq![]);
    while i < names.len()
        invariant
            all == text::texts(names@),
            ex == settings::env_view(exclude),
            names@.len() == times@.len(),
            i <= names@.len(),
            times_view(found@) == eligible_sessions(all.take(i as int), times@, ex),
            forall|k: int| 0 <= k < found@.len() ==> (#[trigger] found@[k]).place < names@.len(),
        decreases names@.len() - i,
    {
        proof {
            assert(all.take(i + 1).drop_last() =~= all.take(i as int));
            assert(all.take(i + 1).last() == names@[i as int]@);
        }
        let chars = text::chars_of(names[i].as_str());
        if !text::starts_with(chars.as_slice(), "test-") && !settings::env_is(
            exclude,
            names[i].as_str(),
        ) {
            let ghost before = times_view(found@);
            found.push(SessionTime { place: i, modified: times[i] });
            assert(times_view(found@) =~= before.push((i as int, times@[i as int] as int)));
        }
        i += 1;
    }
    assert(all.take(i as int) =~= all);
    proof {
        order::lemma_sorted_map(
            found@,
            |t: SessionTime| time_view(t),
            |a: SessionTime, b: SessionTime| a.precedes(&b),
            |a: (int, int), b: (int, int)| a.1 > b.1,
        );
        SessionTime::lemma_order();
        order::lemma_sorted_in_order(found@, |a: SessionTime, b: SessionTime| a.precedes(&b));
        broadcast use vstd::seq_lib::group_to_multiset_ensures;

        let s = order::sorted_items(found@);
        assert forall|k: int| 0 <= k < s.len() implies (#[trigger] s[k]).place < names@.len() by {
            assert(s.contains(s[k]));
            assert(s.to_multiset().count(s[k]) > 0);
            assert(found@.contains(s[k]));
        }
    }
    let sorted = order::sort(found);
    let n = if sorted.len() <= LIVENESS_SCAN_CAP {
        sorted.len()
    } else {
        LIVENESS_SCAN_CAP
    };
    let ghost places = examined(all, times@, ex);
    let mut out: Vec<usize> = Vec::new();
    let mut j: usize = 0;
    while j < n
        invariant
            j <= n <= sorted@.len(),
            n == places.len(),
            forall|k: int| 0 <= k < n ==> #[trigger] places[k] == sorted@[k].place,
            forall|k: int| 0 <= k < sorted@.len() ==> (#[trigger] sorted@[k]).place < names@.len(),
            forall|k: int| 0 <= k < out@.len() ==> (#[trigger] out@[k]) < names@.len(),
            out@.map_values(|p: usize| p as int) == places.take(j as int),
        decreases n - j,
    {
        let ghost before = out@.map_values(|p: usize| p as int);
        out.push(sorted[j].place);
        j += 1;
        assert(out@.map_values(|p: usize| p as int) =~= before.push(places[j - 1]));
        assert(out@.map_values(|p: usize| p as int) =~= places.take(j as int));
    }
    assert(places.take(j as int) =~= places);
    out
}

/// What the store of a session tells.
#[derive(Debug, Clone, Copy)]
pub struct SessionProbe {
    /// Whole seconds since the store was changed; `None` for the future.
    pub age_secs: Option<u64>,
    /// The number of intercept handles; `None` where it could not be read.
    pub intercepts: Option<i64>,
}

/// What a scan has found: quiet sessions, sessions read, and the session with
/// intercept handles that ends it.
pub struct ScanView {
    pub quiet: nat,
    pub scanned: nat,
    pub found: Option<SessionProbe>,
}

/// What a scan of `probes` finds. It ends with the first session that has
/// intercept handles; sessions that cannot be read do not count.
pub open spec fn scan(probes: Seq<SessionProbe>) -> ScanView
    decreases probes.len(),
{
    if probes.len() == 0 {
        ScanView { quiet: 0, scanned: 0, found: None }
    } else {
        let before = scan(probes.drop_last());
        if before.found is Some {
            before
        } else {
            match probes.last().intercepts {
                Some(n) => if n > 0 {
                    ScanView {
                        quiet: before.quiet,
                        scanned: before.scanned + 1,
                        found: Some(probes.last()),
                    }
                } else {
                    ScanView {
                        quiet: before.quiet + 1,
                        scanned: before.scanned + 1,
                        found: None,
                    }
                },
                None => before,
            }
        }
    }
}

/// Once a session with intercept handles is found, older sessions do not
/// matter.
pub proof fn lemma_scan_settled(probes: Seq<SessionProbe>, older: Seq<SessionProbe>)
    requires
        scan(probes).found is Some,
    ensures
        scan(probes + older) == scan(probes),
    decreases older.len(),
{
    if older.len() == 0 {
        assert(probes + older =~= probes);
    } else {
        lemma_scan_settled(probes, older.drop_last());
        assert((probes + older).drop_last() =~= probes + older.drop_last());
    }
}

/// Whether a session with intercept handles is among `probes`, so that no older
/// one needs to be examined.
pub fn is_settled(probes: &[SessionProbe]) -> (r: bool)
    ensures
        r == (scan(probes@).found is Some),
{
    let mut i: usize = 0;
    assert(probes@.take(0) =~= seq![]);
    while i < probes.len()
        invariant
            i <= probes@.len(),
            scan(probes@.take(i as int)).found is None,
        decreases probes@.len() - i,
    {
        assert(probes@.take(i + 1).drop_last() =~= probes@.take(i as int));
        if let Some(n) = probes[i].intercepts {
            if n > 0 {
                proof {
                    assert(probes@ =~= probes@.take(i + 1) + probes@.skip(i + 1));
                    lemma_scan_settled(probes@.take(i + 1), probes@.skip(i + 1));
                }
                return true;
            }
        }
        i += 1;
    }
    assert(probes@.take(i as int) =~= probes@);
    false
}

/// The age in days of the session that ends a scan.
pub open spec fn found_days_ago(s: ScanView) -> Option<u64> {
    match s.found {
        Some(p) => match p.age_secs {
            Some(secs) => Some(secs / 86_400),
            None => None,
        },
        None => None,
    }
}

/// The warning on too many quiet sessions.
pub open spec fn quiet_warning(s: ScanView) -> Seq<char> {
    "no interception in the last "@ + number::decimal(s.quiet) + " sessions ("@ + (
    match found_days_ago(s) {
        Some(d) => "last handle written ~"@ + number::decimal(d as nat) + "d ago"@,
        None => "none found in "@ + number::decimal(s.scanned) + " recent sessions"@,
    }) + ") — hook chain may be broken; run `ctxl doctor`"@
}

/// Report whether interception is producing handles at all, given what the
/// stores of recent sessions tell, the newest first.
///
/// The hook chain fails open by design, so a broken link is invisible
/// in-session: it looks exactly like every command staying under threshold. No
/// handles across many consecutive sessions is the observable symptom; this
/// surfaces it.
pub fn liveness(probes: &[SessionProbe]) -> (l: Liveness)
    ensures
        l.last_interception_days_ago == found_days_ago(scan(probes@)),
        l.recent_quiet_sessions == scan(probes@).quiet,
        l.scanned_sessions == scan(probes@).scanned,
        match l.warning {
            Some(w) => scan(probes@).quiet >= LIVENESS_QUIET_WARN && w@ == quiet_warning(
                scan(probes@),
            ),
            None => scan(probes@).quiet < LIVENESS_QUIET_WARN,
        },
{
    let mut quiet: usize = 0;
    let mut scanned: usize = 0;
    let mut found: Option<SessionProbe> = None;
    let mut i: usize = 0;
    assert(probes@.take(0) =~= seq![]);
    while i < probes.len()
        invariant
            i <= probes@.len(),
            quiet <= i,
            scanned <= i,
            scan(probes@.take(i as int)) == (ScanView {
                quiet: quiet as nat,
                scanned: scanned as nat,
                found,
            }),
        decreases probes@.len() - i,
    {
        assert(probes@.take(i + 1).drop_last() =~= probes@.take(i as int));
        if found.is_none() {
            if let Some(n) = probes[i].intercepts {
                scanned += 1;
                if n > 0 {
                    found = Some(probes[i]);
                } else {
                    quiet += 1;
                }
            }
        }
        i += 1;
    }
    assert(probes@.take(i as int) =~= probes@);
    let days = match found {
        Some(p) => match p.age_secs {
            Some(secs) => Some(secs / 86_400),
            None => None,
        },
        None => None,
    };
    let warning = if quiet >= LIVENESS_QUIET_WARN {
        let mut age = String::new();
        match days {
            Some(d) => {
                age.append("last handle written ~");
                number::push_decimal(&mut age, d as u128);
                age.append("d ago");
            },
            None => {
                age.append("none found in ");
                number::push_count(&mut age, scanned);
                age.append(" recent sessions");
            },
        }
        assert(age@ =~= match found_days_ago(scan(probes@)) {
            Some(d) => "last handle written ~"@ + number::decimal(d as nat) + "d ago"@,
            None => "none found in "@ + number::decimal(scanned as nat) + " recent sessions"@,
        });
        let mut w = "no interception in the last ".to_owned();
        number::push_count(&mut w, quiet);
        w.append(" sessions (");
        w.append(age.as_str());
        w.append(") — hook chain may be broken; run `ctxl doctor`");
        Some(w)
    } else {
        None
    };
    Liveness {
        last_interception_days_ago: days,
        recent_quiet_sessions: quiet,
        scanned_sessions: scanned,
        warning,
    }
}

// ---------------------------------------------------------------------------
// Report
// ---------------------------------------------------------------------------

/// Sizes above which output is intercepted.
#[derive(Debug, Clone, Copy, PartialEq, Eq, Structural)]
pub struct Thresholds {
    pub bash_bytes: usize,
    pub bash_lines: usize,
    pub grep_lines: usize,
}

/// All that a diagnosis tells.
#[derive(Debug)]
pub struct DoctorReport {
    pub binary_path: Option<String>,
    pub version: String,
    pub session_id: Option<String>,
    pub db_path: Option<String>,
    pub db_exists: bool,
    pub schema_version: Option<i32>,
    pub handle_count: Option<i64>,
    pub calls_count: Option<i64>,
    pub intercepted_count: Option<i64>,
    pub retrieved_count: Option<i64>,
    pub retrieval_total: Option<i64>,
    pub hook_enabled: bool,
    pub disabled_file: Option<String>,
    pub norecord: bool,
    pub thresholds: Thresholds,
    pub jq_available: bool,
    pub cache_root: String,
    pub liveness: Liveness,
}

/// What the store of the session tells, `None` for a query that failed.
#[derive(Debug, Clone, Copy)]
pub struct StoreFacts {
    pub exists: bool,
    pub opened: bool,
    pub schema_version: Option<i32>,
    pub handle_count: Option<i64>,
    pub calls_count: Option<i64>,
    pub intercepted_count: Option<i64>,
    pub retrieved_count: Option<i64>,
    pub retrieval_total: Option<i64>,
}

/// What the system tells.
#[derive(Debug)]
pub struct DoctorFacts {
    pub binary_path: Option<String>,
    pub version: String,
    pub session_id: Option<String>,
    /// The value of `CTXL_ENABLED`.
    pub enabled: Option<String>,
    /// The value of `CTXL_RECORD`.
    pub record: Option<String>,
    /// The value of `CTXL_BASH_THRESHOLD`.
    pub bash_threshold: Option<String>,
    /// The value of `CTXL_BASH_LINE_THRESHOLD`.
    pub bash_line_threshold: Option<String>,
    /// The value of `CTXL_GREP_THRESHOLD`.
    pub grep_threshold: Option<String>,
    pub disabled_file: Option<String>,
    pub jq_available: bool,
    pub cache_root: String,
    pub store: StoreFacts,
    pub liveness: Liveness,
}

/// The path of the store of a session.
pub open spec fn store_path(cache_root: Seq<char>, session_id: Seq<char>) -> Seq<char> {
    db::path_joined(db::session_path(cache_root, session_id), "store.db"@)
}

/// The path of the store of a session.
pub fn session_store_path(cache_root: &str, session_id: &str) -> (s: String)
    ensures
        s@ == store_path(cache_root@, session_id@),
{
    let dir = db::session_dir_at(cache_root, session_id);
    db::join_path(dir.as_str(), "store.db")
}

/// The file in a project whose presence disables the hook: `ctxl.disabled` in the
/// directory in which the project keeps the configuration of the assistant.
pub fn disabled_file_path(cwd: &str, config_dir: &str) -> (s: String)
    ensures
        s@ == db::path_joined(db::path_joined(cwd@, config_dir@), "ctxl.disabled"@),
{
    let dir = db::join_path(cwd, config_dir);
    db::join_path(dir.as_str(), "ctxl.disabled")
}

/// What could be read of the store of the session.
pub open spec fn readable(f: DoctorFacts) -> bool {
    f.session_id is Some && f.store.exists && f.store.opened
}

/// Put together what the system tells. Without a session there is no store, and
/// of a store that could not be opened nothing is known.
pub fn collect(f: DoctorFacts) -> (r: DoctorReport)
    ensures
        r.binary_path == f.binary_path,
        r.version == f.version,
        r.session_id == f.session_id,
        match (r.db_path, f.session_id) {
            (Some(p), Some(sid)) => p@ == store_path(f.cache_root@, sid@),
            (None, None) => true,
            _ => false,
        },
        r.db_exists == (f.session_id is Some && f.store.exists),
        readable(f) ==> r.schema_version == f.store.schema_version && r.handle_count
            == f.store.handle_count && r.calls_count == f.store.calls_count && r.intercepted_count
            == f.store.intercepted_count && r.retrieved_count == f.store.retrieved_count
            && r.retrieval_total == f.store.retrieval_total,
        !readable(f) ==> r.schema_version is None && r.handle_count is None && r.calls_count is None
            && r.intercepted_count is None && r.retrieved_count is None
            && r.retrieval_total is None,
        r.hook_enabled == (text::opt_text(f.enabled) != Some("0"@)),
        r.disabled_file == f.disabled_file,
        r.norecord == (text::opt_text(f.record) == Some("0"@)),
        r.thresholds.bash_bytes == settings::env_number(
            text::opt_text(f.bash_threshold),
            DEFAULT_BASH_BYTES as nat,
        ),
        r.thresholds.bash_lines == settings::env_number(
            text::opt_text(f.bash_line_threshold),
            DEFAULT_LINES as nat,
        ),
        r.thresholds.grep_lines == settings::env_number(
            text::opt_text(f.grep_threshold),
            DEFAULT_LINES as nat,
        ),
        r.jq_available == f.jq_available,
        r.cache_root == f.cache_root,
        r.liveness == f.liveness,
{
    let thresholds = Thresholds {
        bash_bytes: settings::env_parse(settings::opt_str(&f.bash_threshold), DEFAULT_BASH_BYTES),
        bash_lines: settings::env_parse(settings::opt_str(&f.bash_line_threshold), DEFAULT_LINES),
        grep_lines: settings::env_parse(settings::opt_str(&f.grep_threshold), DEFAULT_LINES),
    };
    let hook_enabled = !settings::env_is(settings::opt_str(&f.enabled), "0");
    let norecord = settings::env_is(settings::opt_str(&f.record), "0");
    let db_path = match &f.session_id {
        Some(sid) => Some(session_store_path(f.cache_root.as_str(), sid.as_str())),
        None => None,
    };
    let has_session = f.session_id.is_some();
    let known = has_session && f.store.exists && f.store.opened;
    DoctorReport {
        binary_path: f.binary_path,
        version: f.version,
        session_id: f.session_id,
        db_path,
        db_exists: has_session && f.store.exists,
        schema_version: if known {
            f.store.schema_version
        } else {
            None
        },
        handle_count: if known {
            f.store.handle_count
        } else {
            None
        },
        calls_count: if known {
            f.store.calls_count
        } else {
            None
        },
        intercepted_count: if known {
            f.store.intercepted_count
        } else {
            None
        },
        retrieved_count: if known {
            f.store.retrieved_count
        } else {
            None
        },
        retrieval_total: if known {
            f.store.retrieval_total
        } else {
            None
        },
        hook_enabled,
        disabled_file: f.disabled_file,
        norecord,
        thresholds,
        jq_available: f.jq_available,
        cache_root: f.cache_root,
        liveness: f.liveness,
    }
}

// ---------------------------------------------------------------------------
// Output
// ---------------------------------------------------------------------------

/// A text, or a dash.
pub open spec fn text_or_dash(s: Option<String>) -> Seq<char> {
    match s {
        Some(t) => t@,
        None => "—"@,
    }
}

/// A number, or a dash.
pub open spec fn number_or_dash(n: Option<i64>) -> Seq<char> {
    match n {
        Some(v) => number::signed_decimal(v as int),
        None => "—"@,
    }
}

/// A version, or a dash.
pub open spec fn version_or_dash(n: Option<i32>) -> Seq<char> {
    match n {
        Some(v) => number::signed_decimal(v as int),
        None => "—"@,
    }
}

/// `true` or `false`.
pub open spec fn truth(b: bool) -> Seq<char> {
    if b {
        "true"@
    } else {
        "false"@
    }
}

/// `yes` or `no`.
pub open spec fn yes_no(b: bool) -> Seq<char> {
    if b {
        "yes"@
    } else {
        "no"@
    }
}

/// A line of the report.
pub open spec fn line(label: Seq<char>, value: Seq<char>) -> Seq<char> {
    label + value + "\n"@
}

/// When the last interception was.
pub open spec fn last_interception(l: Liveness) -> Seq<char> {
    match l.last_interception_days_ago {
        Some(d) => "~"@ + number::decimal(d as nat) + "d ago"@,
        None => "none in "@ + number::decimal(l.scanned_sessions as nat) + " recent sessions"@,
    }
}

/// The lines on the session.
pub open spec fn session_lines(r: DoctorReport) -> Seq<char> {
    line("ctxl v"@, r.version@) + line("binary:          "@, text_or_dash(r.binary_path)) + line(
        "cache_root:      "@,
        r.cache_root@,
    ) + line("session_id:      "@, text_or_dash(r.session_id)) + line(
        "db_path:         "@,
        text_or_dash(r.db_path),
    ) + line("db_exists:       "@, truth(r.db_exists)) + line(
        "schema_version:  "@,
        version_or_dash(r.schema_version),
    ) + line("handles:         "@, number_or_dash(r.handle_count)) + line(
        "calls:           "@,
        number_or_dash(r.calls_count),
    ) + line("intercepted:     "@, number_or_dash(r.intercepted_count)) + line(
        "retrieved:       "@,
        number_or_dash(r.retrieved_count),
    ) + line("retrieval_total: "@, number_or_dash(r.retrieval_total))
}

/// The lines on the hook.
pub open spec fn hook_lines(r: DoctorReport) -> Seq<char> {
    line("hook_enabled:    "@, yes_no(r.hook_enabled)) + (match r.disabled_file {
        Some(f) => line("disabled_file:   "@, f@),
        None => seq![],
    }) + line("norecord:        "@, yes_no(r.norecord)) + line(
        "jq_available:    "@,
        yes_no(r.jq_available),
    )
}

/// The lines on the thresholds.
pub open spec fn threshold_lines(t: Thresholds) -> Seq<char> {
    "\nThresholds:\n"@ + line("  bash_bytes:    "@, number::decimal(t.bash_bytes as nat)) + line(
        "  bash_lines:    "@,
        number::decimal(t.bash_lines as nat),
    ) + line("  grep_lines:    "@, number::decimal(t.grep_lines as nat))
}

/// The lines on liveness.
pub open spec fn liveness_lines(l: Liveness) -> Seq<char> {
    "\nLiveness:\n"@ + line("  last_interception:     "@, last_interception(l)) + line(
        "  recent_quiet_sessions: "@,
        number::decimal(l.recent_quiet_sessions as nat),
    ) + (match l.warning {
        Some(w) => line("  WARNING: "@, w@),
        None => seq![],
    })
}

/// The report for a human reader.
pub open spec fn human_report(r: DoctorReport) -> Seq<char> {
    session_lines(r) + hook_lines(r) + threshold_lines(r.thresholds) + liveness_lines(r.liveness)
}

fn push_line(out: &mut String, label: &str, value: &str)
    ensures
        final(out)@ == old(out)@ + line(label@, value@),
{
    let ghost start = out@;
    out.append(label);
    out.append(value);
    out.append("\n");
    assert(out@ =~= start + line(label@, value@));
}

fn write_line(label: &str, value: &str) -> (text: String)
    ensures
        text@ == line(label@, value@),
{
    let mut text = label.to_owned();
    text.append(value);
    text.append("\n");
    text
}

fn push_text(out: &mut String, label: &str, value: &Option<String>)
    ensures
        final(out)@ == old(out)@ + line(label@, text_or_dash(*value)),
{
    match value {
        Some(t) => push_line(out, label, t.as_str()),
        None => push_line(out, label, "—"),
    }
}

fn push_number(out: &mut String, label: &str, value: Option<i64>)
    ensures
        final(out)@ == old(out)@ + line(label@, number_or_dash(value)),
{
    match value {
        Some(v) => {
            let s = number::signed_string(v);
            push_line(out, label, s.as_str())
        },
        None => push_line(out, label, "—"),
    }
}

fn push_size(out: &mut String, label: &str, value: usize)
    ensures
        final(out)@ == old(out)@ + line(label@, number::decimal(value as nat)),
{
    let s = number::decimal_string(value as u128);
    push_line(out, label, s.as_str())
}

fn push_yes_no(out: &mut String, label: &str, value: bool)
    ensures
        final(out)@ == old(out)@ + line(label@, yes_no(value)),
{
    if value {
        push_line(out, label, "yes")
    } else {
        push_line(out, label, "no")
    }
}

fn write_session_lines(r: &DoctorReport) -> (text: String)
    ensures
        text@ == session_lines(*r),
{
    let mut text = write_line("ctxl v", r.version.as_str());
    let out = &mut text;
    push_text(out, "binary:          ", &r.binary_path);
    push_line(out, "cache_root:      ", r.cache_root.as_str());
    push_text(out, "session_id:      ", &r.session_id);
    push_text(out, "db_path:         ", &r.db_path);
    if r.db_exists {
        push_line(out, "db_exists:       ", "true");
    } else {
        push_line(out, "db_exists:       ", "false");
    }
    let version = match r.schema_version {
        Some(v) => Some(v as i64),
        None => None,
    };
    push_number(out, "schema_version:  ", version);
    push_number(out, "handles:         ", r.handle_count);
    push_number(out, "calls:           ", r.calls_count);
    push_number(out, "intercepted:     ", r.intercepted_count);
    push_number(out, "retrieved:       ", r.retrieved_count);
    push_number(out, "retrieval_total: ", r.retrieval_total);
    text
}

fn write_hook_lines(r: &DoctorReport) -> (text: String)
    ensures
        text@ == hook_lines(*r),
{
    let mut text = if r.hook_enabled {
        write_line("hook_enabled:    ", "yes")
    } else {
        write_line("hook_enabled:    ", "no")
    };
    let ghost head = text@;
    let out = &mut text;
    if let Some(f) = &r.disabled_file {
        push_line(out, "disabled_file:   ", f.as_str());
    } else {
        assert(head + Seq::<char>::empty() =~= head);
    }
    push_yes_no(out, "norecord:        ", r.norecord);
    push_yes_no(out, "jq_available:    ", r.jq_available);
    text
}

fn push_liveness_lines(out: &mut String, l: &Liveness)
    ensures
        final(out)@ == old(out)@ + liveness_lines(*l),
{
    let ghost start = out@;
    out.append("\nLiveness:\n");
    let mut last = String::new();
    match l.last_interception_days_ago {
        Some(d) => {
            last.append("~");
            number::push_decimal(&mut last, d as u128);
            last.append("d ago");
        },
        None => {
            last.append("none in ");
            number::push_count(&mut last, l.scanned_sessions);
            last.append(" recent sessions");
        },
    }
    assert(last@ =~= last_interception(*l));
    push_line(out, "  last_interception:     ", last.as_str());
    push_size(out, "  recent_quiet_sessions: ", l.recent_quiet_sessions);
    if let Some(w) = &l.warning {
        push_line(out, "  WARNING: ", w.as_str());
    }
    assert(out@ =~= start + liveness_lines(*l));
}

/// The report for a human reader.
pub fn format_human(report: &DoctorReport) -> (out: String)
    ensures
        out@ == human_report(*report),
{
    let mut out = write_session_lines(report);
    let hook = write_hook_lines(report);
    out.append(hook.as_str());
    let ghost head = out@;
    out.append("\nThresholds:\n");
    push_size(&mut out, "  bash_bytes:    ", report.thresholds.bash_bytes);
    push_size(&mut out, "  bash_lines:    ", report.thresholds.bash_lines);
    push_size(&mut out, "  grep_lines:    ", report.thresholds.grep_lines);
    assert(out@ =~= head + threshold_lines(report.thresholds));
    push_liveness_lines(&mut out, &report.liveness);
    assert(out@ =~= human_report(*report));
    out
}

} // verus!
