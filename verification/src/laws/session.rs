//! Laws of sessions: their settings, their age and their reports.

use crate::clean;
use crate::cli::figures;
use crate::cli::session;
use crate::cli::stats;
use crate::db;
use crate::db::SchemaAction;
use crate::doctor;
use crate::doctor::SessionProbe;
use crate::error::CtxlError;
use crate::global_db;
use crate::laws::manifest as manifest_laws;
use crate::laws::text as text_laws;
use crate::number;
use crate::order;
use crate::record;
use crate::settings;
use crate::store;
use crate::store::{InsertOutcome, WriteStep};
use vstd::prelude::*;
use vstd::string::*;

verus! {

// ---------------------------------------------------------------------------
// Numbers
// ---------------------------------------------------------------------------

/// A variable that holds a number is read as that number; one that is unset, or
/// empty, or holds something else than digits, leaves the default.
pub proof fn lemma_setting(n: nat, other: Seq<char>, default: nat)
    requires
        n <= usize::MAX,
        other.len() == 0 || exists|i: int|
            0 < i < other.len() && !number::is_digit(#[trigger] other[i]),
    ensures
        settings::env_number(Some(number::decimal(n)), default) == n,
        settings::env_number(None, default) == default,
        settings::env_number(Some(other), default) == default,
{
    text_laws::lemma_decimal_value(n);
    assert(number::is_digit(number::decimal(n)[0]));
    if other.len() > 0 {
        let i = choose|i: int| 0 < i < other.len() && !number::is_digit(#[trigger] other[i]);
        assert(other.skip(1)[i - 1] == other[i]);
    }
}

/// A signed number reads back.
pub proof fn lemma_signed(n: int)
    requires
        i64::MIN <= n <= i64::MAX,
    ensures
        record::signed_value(number::signed_decimal(n)) == Some(n),
{
    let m: nat = if n < 0 {
        (-n) as nat
    } else {
        n as nat
    };
    text_laws::lemma_decimal_value(m);
    assert(number::is_digit(number::decimal(m)[0]));
    if n < 0 {
        assert(number::signed_decimal(n).skip(1) =~= number::decimal(m));
    }
}

/// A TTL in days counts a day as 86400 seconds, one in hours an hour as 3600, and
/// no other unit is one.
pub proof fn lemma_ttl(n: nat, unit: char)
    requires
        n <= u64::MAX,
    ensures
        clean::ttl_seconds(number::decimal(n).push(unit)) == if unit == 'd' {
            Some(n * 24 * 60 * 60)
        } else if unit == 'h' {
            Some(n * 60 * 60)
        } else {
            None
        },
{
    let s = number::decimal(n).push(unit);
    text_laws::lemma_decimal_value(n);
    assert(number::is_digit(number::decimal(n)[0]));
    assert(s.drop_last() =~= number::decimal(n));
    assert(n * 24 * 60 * 60 == n * 86_400);
    assert(n * 60 * 60 == n * 3_600);
}

/// Digits are separated by a comma at every fourth place from the right, and
/// nowhere else.
pub proof fn lemma_commas(digits: Seq<char>, i: int)
    requires
        number::all_digits(digits),
        0 <= i < figures::grouped(digits).len(),
    ensures
        figures::grouped(digits)[figures::grouped(digits).len() - 1 - i] == ',' <==> i % 4 == 3,
    decreases digits.len(),
{
    reveal_strlit(",");
    let all = figures::grouped(digits);
    let n = digits.len();
    if n <= 3 {
        assert(number::is_digit(digits[n - 1 - i]));
    } else {
        let head = digits.take(n - 3);
        let tail = digits.skip(n - 3);
        let front = figures::grouped(head);
        assert(all.len() == front.len() + 4);
        assert(number::all_digits(head)) by {
            assert forall|k: int| 0 <= k < head.len() implies number::is_digit(
                #[trigger] head[k],
            ) by {
                assert(head[k] == digits[k]);
            }
        }
        if i < 3 {
            assert(all[all.len() - 1 - i] == tail[2 - i]);
            assert(tail[2 - i] == digits[n - 1 - i]);
            assert(number::is_digit(digits[n - 1 - i]));
        } else if i == 3 {
            assert(all[all.len() - 1 - i] == ',');
        } else {
            lemma_commas(head, i - 4);
            assert(all[all.len() - 1 - i] == front[front.len() - 1 - (i - 4)]);
        }
    }
}

/// A retrieval is taken to cost three tokens a line, and never nothing.
pub proof fn lemma_retrieval_cost(lines: int)
    ensures
        lines >= 1 ==> session::retrieval_cost(lines) == lines + lines + lines,
        session::retrieval_cost(lines) >= 1,
        lines <= 0 ==> session::retrieval_cost(lines) == 1,
{
}

/// An average is rounded towards zero: as many times the sessions as it says fit
/// in the total, and no more.
pub proof fn lemma_average(total: int, sessions: int)
    requires
        sessions > 0,
    ensures
        total >= 0 ==> stats::quotient(total, sessions) * sessions <= total < (stats::quotient(
            total,
            sessions,
        ) + 1) * sessions,
        stats::quotient(-total, sessions) == -stats::quotient(total, sessions),
{
    if total >= 0 {
        let q = total / sessions;
        assert(q * sessions <= total < (q + 1) * sessions) by (nonlinear_arith)
            requires
                sessions > 0,
                q == total / sessions,
        ;
    }
    if total == 0 {
        assert(0int / sessions == 0) by (nonlinear_arith)
            requires
                sessions > 0,
        ;
    }
}

/// The bytes of blobs are those of each together.
pub proof fn lemma_blob_bytes(a: Seq<(i64, usize)>, b: Seq<(i64, usize)>, id: i64, len: usize)
    ensures
        global_db::blob_bytes(a + b) == global_db::blob_bytes(a) + global_db::blob_bytes(b),
        global_db::blob_bytes(seq![(id, len)]) == len,
        global_db::blob_bytes(seq![]) == 0,
    decreases b.len(),
{
    assert(seq![(id, len)].drop_last() =~= Seq::<(i64, usize)>::empty());
    assert(global_db::blob_bytes(Seq::<(i64, usize)>::empty()) == 0);
    if b.len() == 0 {
        assert(a + b =~= a);
    } else {
        assert((a + b).drop_last() =~= a + b.drop_last());
        lemma_blob_bytes(a, b.drop_last(), id, len);
    }
}

// ---------------------------------------------------------------------------
// Paths
// ---------------------------------------------------------------------------

/// The directory of a session lies under `ctxl` in the root.
pub proof fn lemma_session_path(root: Seq<char>, session_id: Seq<char>)
    requires
        root.len() > 0,
        session_id.len() > 0 ==> session_id[0] != '/',
    ensures
        db::session_path(root, session_id) == if root.last() == '/' {
            root + "ctxl/"@ + session_id
        } else {
            root + "/ctxl/"@ + session_id
        },
{
    reveal_strlit("ctxl");
    reveal_strlit("ctxl/");
    reveal_strlit("/ctxl/");
    reveal_strlit("/");
    assert("ctxl"@[0] == 'c');
    let base = db::path_joined(root, "ctxl"@);
    assert(base.last() == 'l');
    assert(db::session_path(root, session_id) == base + "/"@ + session_id);
    if root.last() == '/' {
        assert(base + "/"@ + session_id =~= root + "ctxl/"@ + session_id);
    } else {
        assert(base + "/"@ + session_id =~= root + "/ctxl/"@ + session_id);
    }
}

// ---------------------------------------------------------------------------
// Liveness
// ---------------------------------------------------------------------------

/// Session `i` is one that a scan may look at: not a synthetic one, and not the
/// one that has just started.
pub open spec fn may_look(names: Seq<Seq<char>>, exclude: Option<Seq<char>>, i: int) -> bool {
    0 <= i < names.len() && !"test-"@.is_prefix_of(names[i]) && exclude != Some(names[i])
}

proof fn lemma_eligible(names: Seq<Seq<char>>, times: Seq<i128>, exclude: Option<Seq<char>>)
    requires
        names.len() <= times.len(),
    ensures
        forall|s: (int, int)|
            doctor::eligible_sessions(names, times, exclude).contains(s) <==> #[trigger] may_look(
                names,
                exclude,
                s.0,
            ) && s.1 == times[s.0],
        doctor::eligible_sessions(names, times, exclude).no_duplicates(),
    decreases names.len(),
{
    let all = doctor::eligible_sessions(names, times, exclude);
    if names.len() > 0 {
        let head = names.drop_last();
        let n = names.len() - 1;
        lemma_eligible(head, times, exclude);
        let before = doctor::eligible_sessions(head, times, exclude);
        let own = (n, times[n] as int);
        assert(!before.contains(own)) by {
            if before.contains(own) {
                assert(may_look(head, exclude, own.0));
            }
        }
        assert forall|s: (int, int)| all.contains(s) <==> #[trigger] may_look(
            names,
            exclude,
            s.0,
        ) && s.1 == times[s.0] by {
            assert(before.contains(s) <==> may_look(head, exclude, s.0) && s.1 == times[s.0]);
            if 0 <= s.0 < n {
                assert(head[s.0] == names[s.0]);
            }
            if before.contains(s) {
                let k = before.index_of(s);
                assert(all[k] == s);
            }
            if all.contains(s) {
                let k = all.index_of(s);
                if k < before.len() {
                    assert(before[k] == s);
                }
            }
            if doctor::is_eligible(names.last(), exclude) {
                assert(all[before.len() as int] == own);
            }
        }
        assert forall|i: int, j: int| 0 <= i < all.len() && 0 <= j < all.len() && i
            != j implies all[i] != all[j] by {
            if i < before.len() {
                assert(before.contains(before[i]));
            }
            if j < before.len() {
                assert(before.contains(before[j]));
            }
        }
    } else {
        assert(all =~= seq![]);
    }
}

/// The sessions that a scan looks at: at most thirty, none twice, only such as it
/// may look at, the newest first; and where it looks at fewer than thirty it
/// leaves none out.
pub proof fn lemma_examined(
    names: Seq<Seq<char>>,
    times: Seq<i128>,
    exclude: Option<Seq<char>>,
)
    requires
        names.len() <= times.len(),
    ensures
        ({
            let places = doctor::examined(names, times, exclude);
            &&& places.len() <= 30
            &&& forall|k: int|
                0 <= k < places.len() ==> may_look(names, exclude, #[trigger] places[k])
            &&& forall|i: int, j: int|
                0 <= i < j < places.len() ==> times[#[trigger] places[i]]
                    >= times[#[trigger] places[j]] && places[i] != places[j]
            &&& places.len() < 30 ==> forall|i: int| #[trigger]
                may_look(names, exclude, i) ==> places.contains(i)
        }),
{
    let found = doctor::eligible_sessions(names, times, exclude);
    let all = doctor::newest_first(found);
    let places = doctor::examined(names, times, exclude);
    let before = |a: (int, int), b: (int, int)| a.1 > b.1;
    lemma_eligible(names, times, exclude);
    order::lemma_sorted_in_order(found, before);
    found.lemma_multiset_has_no_duplicates();
    all.lemma_multiset_has_no_duplicates_conv();
    assert forall|k: int| 0 <= k < all.len() implies may_look(
        names,
        exclude,
        (#[trigger] all[k]).0,
    ) && all[k].1 == times[all[k].0] by {
        manifest_laws::lemma_same_items(all, found, all[k]);
        assert(all.contains(all[k]));
    }
    assert forall|i: int, j: int| 0 <= i < j < places.len() implies times[#[trigger] places[i]]
        >= times[#[trigger] places[j]] && places[i] != places[j] by {
        assert(!before(all[j], all[i]));
        assert(all[i] != all[j]);
        assert(places[i] == all[i].0 && places[j] == all[j].0);
    }
    if places.len() < 30 {
        assert forall|i: int| #[trigger] may_look(names, exclude, i) implies places.contains(i) by {
            let s = (i, times[i] as int);
            assert(may_look(names, exclude, s.0));
            assert(found.contains(s));
            manifest_laws::lemma_same_items(all, found, s);
            let k = all.index_of(s);
            assert(places[k] == i);
        }
    }
}

/// The sessions that could be read.
pub open spec fn readable(probes: Seq<SessionProbe>) -> Seq<SessionProbe> {
    probes.filter(|p: SessionProbe| p.intercepts is Some)
}

/// A scan ends with the first session that has intercept handles: it has read
/// that one and all in front of it that can be read, and those in front are the
/// quiet ones.
pub proof fn lemma_scan_ends(probes: Seq<SessionProbe>, k: int)
    requires
        0 <= k < probes.len(),
        probes[k].intercepts matches Some(n) && n > 0,
        forall|j: int|
            0 <= j < k ==> ((#[trigger] probes[j]).intercepts matches Some(n) ==> n <= 0),
    ensures
        doctor::scan(probes).found == Some(probes[k]),
        doctor::scan(probes).quiet == readable(probes.take(k)).len(),
        doctor::scan(probes).scanned == readable(probes.take(k)).len() + 1,
    decreases probes.len(),
{
    let head = probes.drop_last();
    if k < head.len() {
        assert(head[k] == probes[k]);
        assert forall|j: int| 0 <= j < k implies ((#[trigger] head[j]).intercepts matches Some(n)
            ==> n <= 0) by {
            assert(head[j] == probes[j]);
        }
        lemma_scan_ends(head, k);
        assert(head.take(k) =~= probes.take(k));
    } else {
        assert(head =~= probes.take(k));
        assert forall|j: int| 0 <= j < head.len() implies ((
        #[trigger] head[j]).intercepts matches Some(n) ==> n <= 0) by {
            assert(head[j] == probes[j]);
        }
        lemma_all_quiet(head);
        assert(probes[k] == probes.last());
    }
}

/// Where no session has intercept handles all that can be read are quiet.
pub proof fn lemma_all_quiet(probes: Seq<SessionProbe>)
    requires
        forall|j: int|
            0 <= j < probes.len() ==> ((#[trigger] probes[j]).intercepts matches Some(n) ==> n
                <= 0),
    ensures
        doctor::scan(probes).found is None,
        doctor::scan(probes).quiet == readable(probes).len(),
        doctor::scan(probes).scanned == readable(probes).len(),
    decreases probes.len(),
{
    reveal(Seq::filter);
    if probes.len() > 0 {
        let head = probes.drop_last();
        assert forall|j: int| 0 <= j < head.len() implies ((
        #[trigger] head[j]).intercepts matches Some(n) ==> n <= 0) by {
            assert(head[j] == probes[j]);
        }
        lemma_all_quiet(head);
        assert(probes[probes.len() - 1] == probes.last());
    }
}

// ---------------------------------------------------------------------------
// Stores
// ---------------------------------------------------------------------------

/// The migrations from the version behind `current` to the latest, in order.
pub open spec fn migrations(current: int) -> Seq<SchemaAction> {
    Seq::new((7 - current) as nat, |i: int| SchemaAction::Migrate((current + 1 + i) as i32))
}

/// A database is brought forward by every migration that it lacks, in order; a
/// fresh one, and one of the first version, by what brings it to the second and
/// then by all migrations.
pub proof fn lemma_plan(current: int)
    requires
        0 <= current <= 7,
    ensures
        current == 0 ==> db::actions_from(2, current) == seq![SchemaAction::CreateBase]
            + migrations(2),
        current == 1 ==> db::actions_from(2, current) == seq![SchemaAction::FixTimestamps]
            + migrations(2),
        current >= 2 ==> db::actions_from(2, current) == migrations(current),
{
    if current < 2 {
        lemma_plan_from(3, 2);
    } else {
        lemma_plan_from(3, current);
    }
}

proof fn lemma_plan_from(stage: int, current: int)
    requires
        3 <= stage <= 8,
        stage - 1 <= current <= 7,
    ensures
        db::actions_from(stage, current) == migrations(current),
    decreases 8 - stage,
{
    if stage == 8 {
        assert(migrations(current) =~= seq![]);
    } else if current >= stage {
        lemma_plan_from(stage + 1, current);
    } else {
        lemma_plan_from(stage + 1, stage);
        assert(migrations(current) =~= seq![SchemaAction::Migrate(stage as i32)] + migrations(
            stage,
        ));
    }
}

/// An insert that succeeds ends the writing. One that fails because the ID is
/// taken is tried once more with seven digits in place of six, and no further;
/// one that fails otherwise is given up with the message of the store.
pub proof fn lemma_write(code: i32, message: String)
    ensures
        store::write_next(6, InsertOutcome::Stored) is Done,
        store::write_next(7, InsertOutcome::Stored) is Done,
        code == 2067 || code == 1555 ==> store::write_next(
            6,
            InsertOutcome::Failed { extended_code: Some(code), message },
        ) == WriteStep::Try(7),
        code == 2067 || code == 1555 ==> store::write_next(
            7,
            InsertOutcome::Failed { extended_code: Some(code), message },
        ) == WriteStep::Fail(CtxlError::HandleCollision),
        code != 2067 && code != 1555 ==> store::write_next(
            6,
            InsertOutcome::Failed { extended_code: Some(code), message },
        ) == WriteStep::Fail(CtxlError::Sqlite(message)),
        store::write_next(6, InsertOutcome::Failed { extended_code: None, message })
            == WriteStep::Fail(CtxlError::Sqlite(message)),
{
}

} // verus!
