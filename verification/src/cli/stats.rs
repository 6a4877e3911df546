//! The report on what interception has saved.

use crate::bytes;
use crate::global_db;
use crate::global_db::{CumulativeStats, SessionCounts, SessionSummary};
use crate::json;
use crate::json::{Json, JsonView};
use crate::number;
use crate::settings;
use crate::text;
use vstd::prelude::*;
use vstd::string::*;

verus! {

// ---------------------------------------------------------------------------
// Totals
// ---------------------------------------------------------------------------

/// The totals of no sessions.
pub fn no_sessions() -> (m: CumulativeStats)
    ensures
        m.sessions_count == 0 && m.handles_count == 0 && m.tokens_intercepted == 0
            && m.bytes_intercepted == 0 && m.calls_count == 0 && m.calls_intercepted == 0
            && m.retrieval_calls == 0 && m.retrieval_tokens == 0 && m.handles_retrieved == 0
            && m.total_retrievals == 0,
        m.earliest_cleaned is None && m.latest_cleaned is None,
{
    CumulativeStats {
        sessions_count: 0,
        handles_count: 0,
        tokens_intercepted: 0,
        bytes_intercepted: 0,
        calls_count: 0,
        calls_intercepted: 0,
        retrieval_calls: 0,
        retrieval_tokens: 0,
        handles_retrieved: 0,
        total_retrievals: 0,
        earliest_cleaned: None,
        latest_cleaned: None,
    }
}

/// The summary of a session that is not cleaned yet.
pub fn live_summary(session_id: &str, counts: SessionCounts) -> (s: SessionSummary)
    ensures
        s.session_id@ == session_id@,
        text::opt_text(s.cleaned_at) == Some("[live]"@),
        s.handles_count == global_db::or_zero(counts.handles),
        s.tokens_intercepted == global_db::or_zero(counts.tokens),
        s.bytes_intercepted == global_db::or_zero(counts.bytes),
        global_db::has_calls(counts) ==> s.calls_count == global_db::or_zero(counts.calls)
            && s.calls_intercepted == global_db::or_zero(counts.calls_intercepted)
            && s.retrieval_calls == global_db::or_zero(counts.retrieval_calls)
            && s.retrieval_tokens == global_db::or_zero(counts.retrieval_tokens),
        !global_db::has_calls(counts) ==> s.calls_count == 0 && s.calls_intercepted == 0
            && s.retrieval_calls == 0 && s.retrieval_tokens == 0,
        counts.counts_retrievals ==> s.handles_retrieved == global_db::or_zero(
            counts.handles_retrieved,
        ) && s.total_retrievals == global_db::or_zero(counts.total_retrievals),
        !counts.counts_retrievals ==> s.handles_retrieved == 0 && s.total_retrievals == 0,
{
    let mut s = global_db::compute_session_stats(counts);
    s.session_id = session_id.to_owned();
    s.cleaned_at = Some("[live]".to_owned());
    s
}

/// The sum of two counts fits in 64 bits.
pub open spec fn sum_fits(a: i64, b: i64) -> bool {
    i64::MIN <= a + b <= i64::MAX
}

/// A session can be added to the totals.
pub open spec fn can_add(m: CumulativeStats, s: SessionSummary) -> bool {
    &&& m.sessions_count < i64::MAX
    &&& sum_fits(m.handles_count, s.handles_count)
    &&& sum_fits(m.tokens_intercepted, s.tokens_intercepted)
    &&& sum_fits(m.bytes_intercepted, s.bytes_intercepted)
    &&& sum_fits(m.calls_count, s.calls_count)
    &&& sum_fits(m.calls_intercepted, s.calls_intercepted)
    &&& sum_fits(m.retrieval_calls, s.retrieval_calls)
    &&& sum_fits(m.retrieval_tokens, s.retrieval_tokens)
    &&& sum_fits(m.handles_retrieved, s.handles_retrieved)
    &&& sum_fits(m.total_retrievals, s.total_retrievals)
}

fn fits(a: i64, b: i64) -> (r: bool)
    ensures
        r == sum_fits(a, b),
{
    a.checked_add(b).is_some()
}

/// Whether a session can be added to the totals.
pub fn addable(m: &CumulativeStats, s: &SessionSummary) -> (r: bool)
    ensures
        r == can_add(*m, *s),
{
    m.sessions_count < i64::MAX && fits(m.handles_count, s.handles_count) && fits(
        m.tokens_intercepted,
        s.tokens_intercepted,
    ) && fits(m.bytes_intercepted, s.bytes_intercepted) && fits(m.calls_count, s.calls_count)
        && fits(m.calls_intercepted, s.calls_intercepted) && fits(
        m.retrieval_calls,
        s.retrieval_calls,
    ) && fits(m.retrieval_tokens, s.retrieval_tokens) && fits(
        m.handles_retrieved,
        s.handles_retrieved,
    ) && fits(m.total_retrievals, s.total_retrievals)
}

/// Add a session to the totals.
pub fn add_session(m: &mut CumulativeStats, s: &SessionSummary)
    requires
        can_add(*old(m), *s),
    ensures
        final(m).sessions_count == old(m).sessions_count + 1,
        final(m).handles_count == old(m).handles_count + s.handles_count,
        final(m).tokens_intercepted == old(m).tokens_intercepted + s.tokens_intercepted,
        final(m).bytes_intercepted == old(m).bytes_intercepted + s.bytes_intercepted,
        final(m).calls_count == old(m).calls_count + s.calls_count,
        final(m).calls_intercepted == old(m).calls_intercepted + s.calls_intercepted,
        final(m).retrieval_calls == old(m).retrieval_calls + s.retrieval_calls,
        final(m).retrieval_tokens == old(m).retrieval_tokens + s.retrieval_tokens,
        final(m).handles_retrieved == old(m).handles_retrieved + s.handles_retrieved,
        final(m).total_retrievals == old(m).total_retrievals + s.total_retrievals,
        final(m).earliest_cleaned == old(m).earliest_cleaned,
        final(m).latest_cleaned == old(m).latest_cleaned,
{
    m.sessions_count = m.sessions_count + 1;
    m.handles_count = m.handles_count + s.handles_count;
    m.tokens_intercepted = m.tokens_intercepted + s.tokens_intercepted;
    m.bytes_intercepted = m.bytes_intercepted + s.bytes_intercepted;
    m.calls_count = m.calls_count + s.calls_count;
    m.calls_intercepted = m.calls_intercepted + s.calls_intercepted;
    m.retrieval_calls = m.retrieval_calls + s.retrieval_calls;
    m.retrieval_tokens = m.retrieval_tokens + s.retrieval_tokens;
    m.handles_retrieved = m.handles_retrieved + s.handles_retrieved;
    m.total_retrievals = m.total_retrievals + s.total_retrievals;
}

/// Tokens saved: those intercepted without those retrieved again.
pub fn net_saved(intercepted: i64, retrieved: i64) -> (n: i64)
    requires
        i64::MIN <= intercepted - retrieved <= i64::MAX,
    ensures
        n == intercepted - retrieved,
{
    intercepted - retrieved
}

/// `a / b` rounded towards zero.
pub open spec fn quotient(a: int, b: int) -> int {
    if a >= 0 {
        a / b
    } else {
        -((-a) / b)
    }
}

/// The average of a total over the sessions, rounded towards zero.
pub fn per_session(total: i64, sessions: i64) -> (n: i64)
    ensures
        n == (if sessions > 0 {
            quotient(total as int, sessions as int)
        } else {
            0
        }),
{
    if sessions <= 0 {
        return 0;
    }
    let t = total as i128;
    let k = sessions as i128;
    if t >= 0 {
        let q = t / k;
        assert(0 <= t as int / k as int <= t) by (nonlinear_arith)
            requires
                t >= 0,
                k > 0,
        ;
        q as i64
    } else {
        let q = (-t) / k;
        assert(0 <= (-t as int) / k as int <= -t) by (nonlinear_arith)
            requires
                t < 0,
                k > 0,
        ;
        (-q) as i64
    }
}

// ---------------------------------------------------------------------------
// The report
// ---------------------------------------------------------------------------

/// The figures of the report, as they are printed.
#[derive(Debug)]
pub struct StatsFigures {
    pub saved: String,
    pub intercepted: String,
    pub retrieval: String,
    pub per_session: String,
    pub handles: String,
    pub handles_retrieved: String,
    pub calls: String,
    pub calls_intercepted: String,
    /// Percentage of the intercepted tokens that were saved.
    pub efficiency: u64,
    /// Percentage of the handles that were retrieved.
    pub utilization: u64,
    /// Percentage of the calls that were intercepted.
    pub capture_rate: u64,
}

/// The first ten bytes of a date, or all of it.
pub open spec fn short_date(s: Seq<char>) -> Option<Seq<char>> {
    let n = bytes::byte_len(s);
    bytes::text_between(
        s,
        0,
        if n < 10 {
            n as int
        } else {
            10
        },
    )
}

fn shorten(s: &str) -> (r: String)
    requires
        short_date(s@) is Some,
    ensures
        Some(r@) == short_date(s@),
{
    let chars = text::chars_of(s);
    let n = bytes::str_bytes(s);
    let end = if n < 10 {
        n
    } else {
        10
    };
    match bytes::slice_between(chars.as_slice(), 0, end) {
        Some(t) => text::string_of(t),
        None => String::new(),
    }
}

/// The dates between which sessions were cleaned.
pub open spec fn range_text(earliest: Option<Seq<char>>, latest: Option<Seq<char>>) -> Seq<char> {
    match (earliest, latest) {
        (Some(e), Some(l)) => " ("@ + short_date(e)->0 + " \u{2013} "@ + short_date(l)->0 + ")"@,
        _ => ""@,
    }
}

/// Where both dates are there, both can be cut to their day.
pub open spec fn range_ok(earliest: Option<Seq<char>>, latest: Option<Seq<char>>) -> bool {
    match (earliest, latest) {
        (Some(e), Some(l)) => short_date(e) is Some && short_date(l) is Some,
        _ => true,
    }
}

/// The dates between which sessions were cleaned.
pub fn date_range(earliest: Option<&str>, latest: Option<&str>) -> (s: String)
    requires
        range_ok(settings::env_view(earliest), settings::env_view(latest)),
    ensures
        s@ == range_text(settings::env_view(earliest), settings::env_view(latest)),
{
    match (earliest, latest) {
        (Some(e), Some(l)) => {
            let from = shorten(e);
            let to = shorten(l);
            let mut s = " (".to_owned();
            s.append(from.as_str());
            s.append(" \u{2013} ");
            s.append(to.as_str());
            s.append(")");
            s
        },
        _ => "".to_owned(),
    }
}

/// The first line of the report.
pub open spec fn headline(f: StatsFigures, sessions: int, range: Seq<char>) -> Seq<char> {
    "ctxl has saved ~"@ + f.saved@ + " tokens across "@ + number::signed_decimal(sessions) + (
    if sessions == 1 {
        " session"@
    } else {
        " sessions"@
    }) + range + "."@ + if f.efficiency > 0 {
        "\nThat's "@ + number::decimal(f.efficiency as nat)
            + "% of intercepted content you never had to read."@
    } else {
        ""@
    }
}

fn write_headline(f: &StatsFigures, sessions: i64, range: &str) -> (s: String)
    ensures
        s@ == headline(*f, sessions as int, range@),
{
    let mut s = "ctxl has saved ~".to_owned();
    s.append(f.saved.as_str());
    s.append(" tokens across ");
    number::push_signed(&mut s, sessions);
    if sessions == 1 {
        s.append(" session");
    } else {
        s.append(" sessions");
    }
    s.append(range);
    s.append(".");
    let mut tail = "".to_owned();
    if f.efficiency > 0 {
        tail = "\nThat's ".to_owned();
        number::push_decimal(&mut tail, f.efficiency as u128);
        tail.append("% of intercepted content you never had to read.");
    }
    s.append(tail.as_str());
    s
}

/// What is left of a hundred percent.
pub open spec fn remainder(percent: nat) -> nat {
    if percent >= 100 {
        0
    } else {
        (100 - percent) as nat
    }
}

/// The lines of the totals.
pub open spec fn totals_lines(f: StatsFigures) -> Seq<Seq<char>> {
    seq![
        "  Saved    "@ + number::aligned_right(f.saved@, 12, ' ') + " tokens net  ("@
            + f.intercepted@ + " intercepted \u{2212} "@ + f.retrieval@ + " retrieval)"@,
        "  Efficiency    "@ + number::aligned_right(number::decimal(f.efficiency as nat), 4, ' ')
            + "%             only "@ + number::decimal(remainder(f.efficiency as nat))
            + "% of captured content was retrieved"@,
        "  Per session "@ + number::aligned_right(f.per_session@, 6, ' ')
            + " tokens       average net savings"@,
        "  Handles    "@ + number::aligned_right(f.handles@, 7, ' ') + " created      "@
            + f.handles_retrieved@ + " retrieved ("@ + number::decimal(f.utilization as nat)
            + "% utilization)"@,
        "  Calls      "@ + number::aligned_right(f.calls@, 7, ' ') + " recorded     "@
            + f.calls_intercepted@ + " intercepted ("@ + number::decimal(f.capture_rate as nat)
            + "% capture rate)"@,
    ]
}

fn write_totals(f: &StatsFigures) -> (out: Vec<String>)
    ensures
        text::texts(out@) == totals_lines(*f),
{
    let mut a = "  Saved    ".to_owned();
    number::push_aligned(&mut a, f.saved.as_str(), 12, ' ');
    a.append(" tokens net  (");
    a.append(f.intercepted.as_str());
    a.append(" intercepted \u{2212} ");
    a.append(f.retrieval.as_str());
    a.append(" retrieval)");
    let mut b = "  Efficiency    ".to_owned();
    let efficiency = number::decimal_string(f.efficiency as u128);
    number::push_aligned(&mut b, efficiency.as_str(), 4, ' ');
    b.append("%             only ");
    let rest: u128 = if f.efficiency >= 100 {
        0
    } else {
        (100 - f.efficiency) as u128
    };
    number::push_decimal(&mut b, rest);
    b.append("% of captured content was retrieved");
    let mut c = "  Per session ".to_owned();
    number::push_aligned(&mut c, f.per_session.as_str(), 6, ' ');
    c.append(" tokens       average net savings");
    let mut d = "  Handles    ".to_owned();
    number::push_aligned(&mut d, f.handles.as_str(), 7, ' ');
    d.append(" created      ");
    d.append(f.handles_retrieved.as_str());
    d.append(" retrieved (");
    number::push_decimal(&mut d, f.utilization as u128);
    d.append("% utilization)");
    let mut e = "  Calls      ".to_owned();
    number::push_aligned(&mut e, f.calls.as_str(), 7, ' ');
    e.append(" recorded     ");
    e.append(f.calls_intercepted.as_str());
    e.append(" intercepted (");
    number::push_decimal(&mut e, f.capture_rate as u128);
    e.append("% capture rate)");
    let out: Vec<String> = vec![a, b, c, d, e];
    assert(text::texts(out@) =~= totals_lines(*f));
    out
}

/// The report on the totals.
pub open spec fn stats_lines(f: StatsFigures, sessions: int, range: Seq<char>) -> Seq<Seq<char>> {
    if sessions == 0 {
        seq!["No sessions tracked yet. Stats accumulate as sessions are cleaned."@]
    } else {
        seq![headline(f, sessions, range), ""@] + totals_lines(f)
    }
}

/// The report on the totals of `sessions` sessions.
pub fn format_stats(f: &StatsFigures, sessions: i64, range: &str) -> (out: Vec<String>)
    ensures
        text::texts(out@) == stats_lines(*f, sessions as int, range@),
{
    if sessions == 0 {
        let out: Vec<String> = vec![
            "No sessions tracked yet. Stats accumulate as sessions are cleaned.".to_owned(),
        ];
        assert(text::texts(out@) =~= stats_lines(*f, sessions as int, range@));
        return out;
    }
    let mut out: Vec<String> = vec![write_headline(f, sessions, range), "".to_owned()];
    let ghost head = seq![headline(*f, sessions as int, range@), ""@];
    assert(text::texts(out@) =~= head);
    let mut totals = write_totals(f);
    let ghost rest = text::texts(totals@);
    out.append(&mut totals);
    assert(text::texts(out@) =~= head + rest);
    out
}

// ---------------------------------------------------------------------------
// Sessions one by one
// ---------------------------------------------------------------------------

/// A row of the table of sessions.
pub open spec fn session_row(
    session: Seq<char>,
    tokens: Seq<char>,
    handles: Seq<char>,
    calls: Seq<char>,
    status: Seq<char>,
) -> Seq<char> {
    "  "@ + number::aligned_right(session, 36, ' ') + "  "@ + number::aligned_right(tokens, 8, ' ')
        + "  "@ + number::aligned_right(handles, 8, ' ') + "  "@ + number::aligned_right(
        calls,
        6,
        ' ',
    ) + "  "@ + number::aligned_right(status, 6, ' ')
}

fn write_session_row(session: &str, tokens: &str, handles: &str, calls: &str, status: &str) -> (s:
    String)
    ensures
        s@ == session_row(session@, tokens@, handles@, calls@, status@),
{
    let mut s = "  ".to_owned();
    number::push_aligned(&mut s, session, 36, ' ');
    s.append("  ");
    number::push_aligned(&mut s, tokens, 8, ' ');
    s.append("  ");
    number::push_aligned(&mut s, handles, 8, ' ');
    s.append("  ");
    number::push_aligned(&mut s, calls, 6, ' ');
    s.append("  ");
    number::push_aligned(&mut s, status, 6, ' ');
    s
}

/// The head of the table of sessions.
pub fn sessions_head() -> (s: String)
    ensures
        s@ == session_row("SESSION"@, "TOKENS"@, "HANDLES"@, "CALLS"@, "STATUS"@),
{
    write_session_row("SESSION", "TOKENS", "HANDLES", "CALLS", "STATUS")
}

/// The ID of a session, cut to its first 36 bytes.
pub open spec fn short_id(s: Seq<char>) -> Option<Seq<char>> {
    if bytes::byte_len(s) > 36 {
        bytes::text_between(s, 0, 36)
    } else {
        Some(s)
    }
}

/// The row of a session; `tokens` is what it saved, as it is printed.
pub fn format_session(row: &SessionSummary, tokens: &str) -> (s: String)
    requires
        short_id(row.session_id@) is Some,
    ensures
        s@ == session_row(
            short_id(row.session_id@)->0,
            tokens@,
            number::signed_decimal(row.handles_count as int),
            number::signed_decimal(row.calls_count as int),
            match row.cleaned_at {
                Some(t) => t@,
                None => "cleaned"@,
            },
        ),
{
    let handles = number::signed_string(row.handles_count);
    let calls = number::signed_string(row.calls_count);
    let id = if bytes::str_bytes(row.session_id.as_str()) > 36 {
        let chars = text::chars_of(row.session_id.as_str());
        match bytes::slice_between(chars.as_slice(), 0, 36) {
            Some(t) => text::string_of(t),
            None => String::new(),
        }
    } else {
        row.session_id.clone()
    };
    let status = match &row.cleaned_at {
        Some(t) => t.as_str(),
        None => "cleaned",
    };
    write_session_row(id.as_str(), tokens, handles.as_str(), calls.as_str(), status)
}

// ---------------------------------------------------------------------------
// JSON
// ---------------------------------------------------------------------------

/// The totals as a JSON object.
pub open spec fn totals_tree(m: CumulativeStats) -> JsonView {
    JsonView::Object(
        seq![
            ("sessions_count"@, json::integer_tree(m.sessions_count as int)),
            ("handles_count"@, json::integer_tree(m.handles_count as int)),
            ("tokens_intercepted"@, json::integer_tree(m.tokens_intercepted as int)),
            ("bytes_intercepted"@, json::integer_tree(m.bytes_intercepted as int)),
            ("calls_count"@, json::integer_tree(m.calls_count as int)),
            ("calls_intercepted"@, json::integer_tree(m.calls_intercepted as int)),
            ("retrieval_calls"@, json::integer_tree(m.retrieval_calls as int)),
            ("retrieval_tokens"@, json::integer_tree(m.retrieval_tokens as int)),
            ("handles_retrieved"@, json::integer_tree(m.handles_retrieved as int)),
            ("total_retrievals"@, json::integer_tree(m.total_retrievals as int)),
            ("earliest_cleaned"@, json::optional_text_tree(m.earliest_cleaned)),
            ("latest_cleaned"@, json::optional_text_tree(m.latest_cleaned)),
        ],
    )
}

fn totals_json(m: &CumulativeStats) -> (j: Json)
    ensures
        j@ == totals_tree(*m),
{
    let members: Vec<(String, Json)> = vec![
        ("sessions_count".to_owned(), Json::integer(m.sessions_count)),
        ("handles_count".to_owned(), Json::integer(m.handles_count)),
        ("tokens_intercepted".to_owned(), Json::integer(m.tokens_intercepted)),
        ("bytes_intercepted".to_owned(), Json::integer(m.bytes_intercepted)),
        ("calls_count".to_owned(), Json::integer(m.calls_count)),
        ("calls_intercepted".to_owned(), Json::integer(m.calls_intercepted)),
        ("retrieval_calls".to_owned(), Json::integer(m.retrieval_calls)),
        ("retrieval_tokens".to_owned(), Json::integer(m.retrieval_tokens)),
        ("handles_retrieved".to_owned(), Json::integer(m.handles_retrieved)),
        ("total_retrievals".to_owned(), Json::integer(m.total_retrievals)),
        ("earliest_cleaned".to_owned(), Json::optional_text(&m.earliest_cleaned)),
        ("latest_cleaned".to_owned(), Json::optional_text(&m.latest_cleaned)),
    ];
    let j = Json::Object(members);
    proof {
        json::lemma_view(j);
        assert(json::members_view(members@) =~= totals_tree(*m)->Object_0);
    }
    j
}

/// A session as a JSON object.
pub open spec fn summary_tree(s: SessionSummary) -> JsonView {
    JsonView::Object(
        seq![
            ("session_id"@, JsonView::Text(s.session_id@)),
            ("handles_count"@, json::integer_tree(s.handles_count as int)),
            ("tokens_intercepted"@, json::integer_tree(s.tokens_intercepted as int)),
            ("bytes_intercepted"@, json::integer_tree(s.bytes_intercepted as int)),
            ("calls_count"@, json::integer_tree(s.calls_count as int)),
            ("calls_intercepted"@, json::integer_tree(s.calls_intercepted as int)),
            ("retrieval_calls"@, json::integer_tree(s.retrieval_calls as int)),
            ("retrieval_tokens"@, json::integer_tree(s.retrieval_tokens as int)),
            ("handles_retrieved"@, json::integer_tree(s.handles_retrieved as int)),
            ("total_retrievals"@, json::integer_tree(s.total_retrievals as int)),
            ("cleaned_at"@, json::optional_text_tree(s.cleaned_at)),
        ],
    )
}

fn summary_json(s: &SessionSummary) -> (j: Json)
    ensures
        j@ == summary_tree(*s),
{
    let members: Vec<(String, Json)> = vec![
        ("session_id".to_owned(), Json::text(s.session_id.as_str())),
        ("handles_count".to_owned(), Json::integer(s.handles_count)),
        ("tokens_intercepted".to_owned(), Json::integer(s.tokens_intercepted)),
        ("bytes_intercepted".to_owned(), Json::integer(s.bytes_intercepted)),
        ("calls_count".to_owned(), Json::integer(s.calls_count)),
        ("calls_intercepted".to_owned(), Json::integer(s.calls_intercepted)),
        ("retrieval_calls".to_owned(), Json::integer(s.retrieval_calls)),
        ("retrieval_tokens".to_owned(), Json::integer(s.retrieval_tokens)),
        ("handles_retrieved".to_owned(), Json::integer(s.handles_retrieved)),
        ("total_retrievals".to_owned(), Json::integer(s.total_retrievals)),
        ("cleaned_at".to_owned(), Json::optional_text(&s.cleaned_at)),
    ];
    let j = Json::Object(members);
    proof {
        json::lemma_view(j);
        assert(json::members_view(members@) =~= summary_tree(*s)->Object_0);
    }
    j
}

/// The report as a JSON object.
pub open spec fn stats_tree(m: CumulativeStats, sessions: Seq<SessionSummary>) -> JsonView {
    JsonView::Object(
        seq![
            ("cumulative"@, totals_tree(m)),
            (
                "sessions"@,
                JsonView::Array(sessions.map_values(|s: SessionSummary| summary_tree(s))),
            ),
        ],
    )
}

/// The report as indented JSON.
pub fn stats_json(m: &CumulativeStats, sessions: &[SessionSummary]) -> (s: String)
    ensures
        s@ == json::pretty(json::canonical(stats_tree(*m, sessions@))),
{
    let ghost all = sessions@.map_values(|s: SessionSummary| summary_tree(s));
    let mut items: Vec<Json> = Vec::new();
    let mut i: usize = 0;
    assert(json::items_view(items@) =~= all.take(0));
    while i < sessions.len()
        invariant
            all == sessions@.map_values(|s: SessionSummary| summary_tree(s)),
            i <= sessions@.len(),
            json::items_view(items@) == all.take(i as int),
        decreases sessions@.len() - i,
    {
        let item = summary_json(&sessions[i]);
        let ghost before = json::items_view(items@);
        items.push(item);
        assert(json::items_view(items@) =~= before.push(item@));
        i += 1;
        assert(json::items_view(items@) =~= all.take(i as int));
    }
    assert(all.take(i as int) =~= all);
    let rows = Json::Array(items);
    proof {
        json::lemma_view(rows);
    }
    let members: Vec<(String, Json)> = vec![
        ("cumulative".to_owned(), totals_json(m)),
        ("sessions".to_owned(), rows),
    ];
    let j = Json::Object(members);
    proof {
        json::lemma_view(j);
        assert(json::members_view(members@) =~= stats_tree(*m, sessions@)->Object_0);
    }
    j.to_pretty()
}

} // verus!
