//! Laws of previews.

use crate::bytes;
use crate::compress::diff;
use crate::compress::passthrough;
use crate::laws::diff as diff_laws;
use crate::laws::find as find_laws;
use crate::laws::manifest as manifest_laws;
use crate::laws::text as text_laws;
use crate::number;
use crate::pieces;
use crate::preview;
use crate::preview::DiffTally;
use crate::retrieve::window;
use crate::search;
use crate::tally;
use crate::text;
use vstd::prelude::*;
use vstd::string::*;

verus! {

// ---------------------------------------------------------------------------
// The two ends of long content
// ---------------------------------------------------------------------------

/// The line that stands for lines that a preview leaves out.
pub open spec fn elision(omitted: nat) -> Seq<char> {
    "... ["@ + number::decimal(omitted) + " lines elided] ..."@
}

/// Long content is shown by its first lines, one line on how many are left out,
/// and its last lines.
pub proof fn lemma_two_ends(input: Seq<char>, max: nat)
    requires
        window::has_plain_lines(input),
        0 < max,
        2 * max < pieces::lines_of(input).len(),
        pieces::lines_of(input).last().len() > 0,
    ensures
        ({
            let lines = pieces::lines_of(input);
            let view = pieces::lines_of(passthrough::preview_of(input, max));
            &&& view.len() == 2 * max + 1
            &&& forall|k: int| 0 <= k < max ==> #[trigger] view[k] == lines[k]
            &&& view[max as int] == elision((lines.len() - 2 * max) as nat)
            &&& forall|k: int|
                0 <= k < max ==> view[max + 1 + k] == #[trigger] lines[lines.len() - max + k]
        }),
{
    let lines = pieces::lines_of(input);
    let n = lines.len();
    let omitted = (n - 2 * max) as nat;
    let gap = elision(omitted);
    reveal_strlit("... [");
    reveal_strlit(" lines elided] ...");
    reveal_strlit("\n... [");
    reveal_strlit(" lines elided] ...\n");
    reveal_strlit("\n");
    number::lemma_decimal_digits(omitted);
    let digits = number::decimal(omitted);
    assert forall|i: int| 0 <= i < gap.len() implies gap[i] != '\n' by {
        if 5 <= i < 5 + digits.len() {
            assert(gap[i] == digits[i - 5]);
        }
    }
    assert(gap.last() == '.');
    let head = lines.take(max as int);
    let tail = lines.skip(n - max);
    let parts = head.push(gap) + tail;
    assert forall|i: int| 0 <= i < parts.len() implies pieces::is_plain_line(
        #[trigger] parts[i],
    ) by {
        if i < max {
            assert(parts[i] == lines[i]);
        } else if i > max {
            assert(parts[i] == lines[n - max + (i - max - 1)]);
        }
    }
    assert(parts.last() == lines.last());
    pieces::lemma_lines_of_joined(parts);
    pieces::lemma_joined_concat(head.push(gap), tail, "\n"@);
    pieces::lemma_joined_concat(head, seq![gap], "\n"@);
    assert(head + seq![gap] =~= head.push(gap));
    let j = pieces::joined(head, "\n"@);
    let k = pieces::joined(tail, "\n"@);
    assert(pieces::joined(seq![gap], "\n"@) == gap);
    assert(j + "\n... ["@ + digits + " lines elided] ...\n"@ + k =~= j + "\n"@ + gap + "\n"@ + k);
    assert(passthrough::preview_of(input, max) == pieces::joined(parts, "\n"@));
    assert forall|i: int| 0 <= i < max implies parts[max + 1 + i] == #[trigger] lines[n - max
        + i] by {
        assert(parts[max + 1 + i] == tail[i]);
    }
}

/// Content that is not long is shown as it is.
pub proof fn lemma_short_is_shown(input: Seq<char>, max: nat)
    requires
        pieces::lines_of(input).len() <= 2 * max,
    ensures
        passthrough::preview_of(input, max) == input,
{
}

// ---------------------------------------------------------------------------
// Cutting
// ---------------------------------------------------------------------------

/// A line of at most 120 bytes is shown as it is; a longer one by as many of its
/// first characters as fit in 119 bytes, and a mark.
pub proof fn lemma_truncated(s: Seq<char>)
    ensures
        bytes::byte_len(s) <= 120 ==> preview::truncated(s) == s,
        bytes::byte_len(s) > 120 ==> exists|n: int|
            0 <= n < s.len() && preview::truncated(s) == #[trigger] s.take(n) + "…"@
                && bytes::byte_len(s.take(n)) <= 119 && bytes::byte_len(s.take(n + 1)) > 119,
{
    if bytes::byte_len(s) > 120 {
        let n = bytes::chars_within(s, 119) as int;
        bytes::lemma_chars_within(s, 119);
        if n == s.len() {
            assert(s.take(n) =~= s);
        }
        assert(preview::truncated(s) == s.take(n) + "…"@);
        assert(bytes::byte_len(s.take(n + 1)) > 119);
    }
}

// ---------------------------------------------------------------------------
// The line that stands for a diff
// ---------------------------------------------------------------------------

/// Line `k` names the file `path` after the change.
pub open spec fn names(lines: Seq<Seq<char>>, k: int, path: Seq<char>) -> bool {
    0 <= k < lines.len() && lines[k] == "+++ b/"@ + path
}

/// A diff is shown by the first file that is named and not generated.
pub proof fn lemma_written_file_shown(lines: Seq<Seq<char>>, k: int, path: Seq<char>)
    requires
        names(lines, k, path),
        !preview::is_generated(path),
        forall|j: int, p: Seq<char>|
            j < k && #[trigger] names(lines, j, p) ==> preview::is_generated(p),
    ensures
        preview::diff_path_shown(lines) == Some(path),
{
    lemma_first_written(lines, k, path);
}

proof fn lemma_name(line: Seq<char>)
    ensures
        match preview::new_path(line) {
            Some(p) => line == "+++ b/"@ + p,
            None => forall|p: Seq<char>| line != #[trigger] ("+++ b/"@ + p),
        },
        forall|p: Seq<char>|
            line == #[trigger] ("+++ b/"@ + p) ==> preview::new_path(line) == Some(p),
{
    reveal_strlit("+++ b/");
    if "+++ b/"@.is_prefix_of(line) {
        assert(line =~= "+++ b/"@ + line.skip(6));
    }
    assert forall|p: Seq<char>| line == #[trigger] ("+++ b/"@ + p) implies preview::new_path(line)
        == Some(p) by {
        assert(line.subrange(0, 6) =~= "+++ b/"@);
        assert(line.skip(6) =~= p);
    }
}

proof fn lemma_first_written(lines: Seq<Seq<char>>, k: int, path: Seq<char>)
    requires
        names(lines, k, path),
        !preview::is_generated(path),
        forall|j: int, p: Seq<char>|
            j < k && #[trigger] names(lines, j, p) ==> preview::is_generated(p),
    ensures
        preview::first_written_path(lines) == Some(path),
    decreases lines.len(),
{
    let head = lines.drop_last();
    if k < head.len() {
        assert(names(head, k, path));
        assert forall|j: int, p: Seq<char>|
            j < k && #[trigger] names(head, j, p) implies preview::is_generated(p) by {
            assert(names(lines, j, p));
        }
        lemma_first_written(head, k, path);
    } else {
        assert forall|j: int, p: Seq<char>| #[trigger]
            names(head, j, p) implies preview::is_generated(p) by {
            assert(names(lines, j, p));
        }
        lemma_none_written(head);
        lemma_name(lines.last());
    }
}

proof fn lemma_none_written(lines: Seq<Seq<char>>)
    requires
        forall|j: int, p: Seq<char>| #[trigger] names(lines, j, p) ==> preview::is_generated(p),
    ensures
        preview::first_written_path(lines) is None,
    decreases lines.len(),
{
    if lines.len() > 0 {
        let head = lines.drop_last();
        assert forall|j: int, p: Seq<char>| #[trigger]
            names(head, j, p) implies preview::is_generated(p) by {
            assert(names(lines, j, p));
        }
        lemma_none_written(head);
        lemma_name(lines.last());
        match preview::new_path(lines.last()) {
            Some(p) => {
                assert(names(lines, lines.len() - 1, p));
            },
            None => {},
        }
    }
}

/// A diff of nothing but generated files is shown by the first that is named.
pub proof fn lemma_generated_file_shown(lines: Seq<Seq<char>>, k: int, path: Seq<char>)
    requires
        names(lines, k, path),
        forall|j: int, p: Seq<char>| #[trigger] names(lines, j, p) ==> preview::is_generated(p),
        forall|j: int, p: Seq<char>| j < k ==> !(#[trigger] names(lines, j, p)),
    ensures
        preview::diff_path_shown(lines) == Some(path),
{
    lemma_none_written(lines);
    lemma_first_named(lines, k, path);
}

proof fn lemma_first_named(lines: Seq<Seq<char>>, k: int, path: Seq<char>)
    requires
        names(lines, k, path),
        forall|j: int, p: Seq<char>| j < k ==> !(#[trigger] names(lines, j, p)),
    ensures
        preview::first_path(lines) == Some(path),
    decreases lines.len(),
{
    let head = lines.drop_last();
    if k < head.len() {
        assert(names(head, k, path));
        assert forall|j: int, p: Seq<char>| j < k implies !(#[trigger] names(head, j, p)) by {
            if names(head, j, p) {
                assert(names(lines, j, p));
            }
        }
        lemma_first_named(head, k, path);
    } else {
        assert forall|j: int, p: Seq<char>| !(#[trigger] names(head, j, p)) by {
            if names(head, j, p) {
                assert(names(lines, j, p));
            }
        }
        lemma_none_named(head);
        lemma_name(lines.last());
    }
}

proof fn lemma_none_named(lines: Seq<Seq<char>>)
    requires
        forall|j: int, p: Seq<char>| !(#[trigger] names(lines, j, p)),
    ensures
        preview::first_path(lines) is None,
    decreases lines.len(),
{
    if lines.len() > 0 {
        let head = lines.drop_last();
        assert forall|j: int, p: Seq<char>| !(#[trigger] names(head, j, p)) by {
            if names(head, j, p) {
                assert(names(lines, j, p));
            }
        }
        lemma_none_named(head);
        lemma_name(lines.last());
        match preview::new_path(lines.last()) {
            Some(p) => {
                assert(names(lines, lines.len() - 1, p));
            },
            None => {},
        }
    }
}

/// A file whose name is that of a lockfile, or that ends in `.lock`, `.min.js`
/// or `.min.css`, counts as generated, in whatever directory.
pub proof fn lemma_generated(dir: Seq<char>, stem: Seq<char>)
    ensures
        preview::is_generated(stem + ".lock"@),
        preview::is_generated(stem + ".min.js"@),
        preview::is_generated(stem + ".min.css"@),
        preview::is_generated(dir + "/package-lock.json"@),
        preview::is_generated("package-lock.json"@),
{
    reveal_strlit(".lock");
    reveal_strlit("lock");
    reveal_strlit(".min.js");
    reveal_strlit(".min.css");
    reveal_strlit("/package-lock.json");
    reveal_strlit("package-lock.json");
    reveal_strlit("/.");
    reveal_strlit(".");
    reveal_strlit("..");
    assert(!"lock"@.contains('.'));
    assert(stem + ".lock"@ =~= stem.push('.') + "lock"@);
    text_laws::lemma_after_last(stem, '.', "lock"@);
    let js = stem + ".min.js"@;
    assert(js.subrange(stem.len() as int, js.len() as int) =~= ".min.js"@);
    let css = stem + ".min.css"@;
    assert(css.subrange(stem.len() as int, css.len() as int) =~= ".min.css"@);
    let name = "package-lock.json"@;
    assert(!name.contains('/'));
    let path = dir + "/package-lock.json"@;
    assert(path =~= dir.push('/') + name);
    text_laws::lemma_after_last(dir, '/', name);
    assert(name.len() == 17 && name[16] == 'n');
    assert(path.last() == 'n');
    assert("/."@[1] == '.');
    if "/."@.is_suffix_of(path) {
        assert(path.subrange(path.len() - 2, path.len() as int)[1] == path.last());
    }
    if "/."@.is_suffix_of(name) {
        assert(name.subrange(name.len() - 2, name.len() as int)[1] == name.last());
    }
    assert(preview::file_name(path) == Some(name));
    assert(preview::file_name(name) == Some(name));
}

// ---------------------------------------------------------------------------
// The line that stands for other content
// ---------------------------------------------------------------------------

/// A line that tells by itself: the summary of a test runner other than that of
/// Rust, or an error of a build.
pub open spec fn tells(line: Seq<char>) -> bool {
    let t = text::trimmed(line);
    &&& !"test result:"@.is_prefix_of(t)
    &&& (find_laws::holds(t, "Test"@) && (find_laws::holds(t, "passed"@) || find_laws::holds(
        t,
        "failed"@,
    ))) || "error[E"@.is_prefix_of(t) || "error:"@.is_prefix_of(t)
}

/// A test result line of Rust.
pub open spec fn is_result(line: Seq<char>) -> bool {
    "test result:"@.is_prefix_of(text::trimmed(line))
}

/// The number of tests that a test result line counts as failed.
pub open spec fn failures(line: Seq<char>) -> nat {
    preview::count_before(text::trimmed(line), "failed"@)
}

/// The number of tests that a test result line counts as passed.
pub open spec fn passes(line: Seq<char>) -> nat {
    preview::count_before(text::trimmed(line), "passed"@)
}

proof fn lemma_tells(line: Seq<char>)
    ensures
        tells(line) == ({
            let t = text::trimmed(line);
            t.len() > 0 && !preview::is_test_result(t) && preview::is_telling(t)
        }),
        is_result(line) ==> text::trimmed(line).len() > 0,
{
    let t = text::trimmed(line);
    reveal_strlit("Test");
    reveal_strlit("Tests");
    reveal_strlit("passed");
    reveal_strlit("failed");
    reveal_strlit("error[E");
    reveal_strlit("error:");
    reveal_strlit("test result:");
    find_laws::lemma_holds(t, "Test"@);
    find_laws::lemma_holds(t, "Tests"@);
    find_laws::lemma_holds(t, "passed"@);
    find_laws::lemma_holds(t, "failed"@);
    if find_laws::holds(t, "Tests"@) {
        let k = choose|k: int|
            0 <= k <= t.len() - "Tests"@.len() && #[trigger] t.subrange(k, k + "Tests"@.len())
                == "Tests"@;
        let five = t.subrange(k, k + 5);
        assert(t.subrange(k, k + 4) =~= five.subrange(0, 4));
        assert("Tests"@.subrange(0, 4) =~= "Test"@);
    }
}

/// The last line that tells by itself is shown, whatever the others hold.
pub proof fn lemma_telling_line_shown(lines: Seq<Seq<char>>, k: int)
    requires
        0 <= k < lines.len(),
        tells(lines[k]),
        forall|j: int| k < j < lines.len() ==> !tells(#[trigger] lines[j]),
    ensures
        preview::summary(lines, None, None) == Some(text::trimmed(lines[k])),
{
    lemma_telling(lines, k, None, None);
}

proof fn lemma_telling(
    lines: Seq<Seq<char>>,
    k: int,
    failed: Option<Seq<char>>,
    best: Option<(Seq<char>, nat)>,
)
    requires
        0 <= k < lines.len(),
        tells(lines[k]),
        forall|j: int| k < j < lines.len() ==> !tells(#[trigger] lines[j]),
    ensures
        preview::summary(lines, failed, best) == Some(text::trimmed(lines[k])),
    decreases lines.len(),
{
    let last = lines.last();
    let t = text::trimmed(last);
    lemma_tells(last);
    assert(lines[lines.len() - 1] == last);
    if k < lines.len() - 1 {
        let head = lines.drop_last();
        assert(!tells(lines[lines.len() - 1]));
        assert(head[k] == lines[k]);
        assert forall|j: int| k < j < head.len() implies !tells(#[trigger] head[j]) by {
            assert(head[j] == lines[j]);
        }
        lemma_telling(head, k, failed, best);
        let f = if failed is None && preview::count_before(t, "failed"@) > 0 {
            Some(t)
        } else {
            failed
        };
        let b = match best {
            None => Some((t, preview::count_before(t, "passed"@))),
            Some(b) => if preview::count_before(t, "passed"@) > b.1 {
                Some((t, preview::count_before(t, "passed"@)))
            } else {
                best
            },
        };
        lemma_telling(head, k, f, b);
    }
}

/// Where no line tells by itself, the last test result with failures is shown,
/// however many tests passed elsewhere.
pub proof fn lemma_failed_result_shown(lines: Seq<Seq<char>>, k: int)
    requires
        0 <= k < lines.len(),
        forall|j: int| 0 <= j < lines.len() ==> !tells(#[trigger] lines[j]),
        is_result(lines[k]) && failures(lines[k]) > 0,
        forall|j: int|
            k < j < lines.len() ==> !(is_result(#[trigger] lines[j]) && failures(lines[j]) > 0),
    ensures
        preview::summary(lines, None, None) == Some(text::trimmed(lines[k])),
{
    lemma_failed(lines, k, None);
}

proof fn lemma_failed(lines: Seq<Seq<char>>, k: int, best: Option<(Seq<char>, nat)>)
    requires
        0 <= k < lines.len(),
        forall|j: int| 0 <= j < lines.len() ==> !tells(#[trigger] lines[j]),
        is_result(lines[k]) && failures(lines[k]) > 0,
        forall|j: int|
            k < j < lines.len() ==> !(is_result(#[trigger] lines[j]) && failures(lines[j]) > 0),
    ensures
        preview::summary(lines, None, best) == Some(text::trimmed(lines[k])),
    decreases lines.len(),
{
    let last = lines.last();
    let t = text::trimmed(last);
    lemma_tells(last);
    assert(lines[lines.len() - 1] == last);
    let head = lines.drop_last();
    assert forall|j: int| 0 <= j < head.len() implies !tells(#[trigger] head[j]) by {
        assert(head[j] == lines[j]);
    }
    let b = match best {
        None => Some((t, preview::count_before(t, "passed"@))),
        Some(b) => if preview::count_before(t, "passed"@) > b.1 {
            Some((t, preview::count_before(t, "passed"@)))
        } else {
            best
        },
    };
    if k < lines.len() - 1 {
        assert(head[k] == lines[k]);
        assert forall|j: int| k < j < head.len() implies !(is_result(#[trigger] head[j])
            && failures(head[j]) > 0) by {
            assert(head[j] == lines[j]);
        }
        lemma_failed(head, k, best);
        lemma_failed(head, k, b);
    } else {
        assert forall|i: int| 0 <= i < head.len() implies preview::is_test_result(
            text::trimmed(#[trigger] head[i]),
        ) || !preview::is_telling(text::trimmed(head[i])) by {
            lemma_tells(head[i]);
            lemma_blank_tells_nothing(text::trimmed(head[i]));
        }
        preview::lemma_failures_surface(head, t, b);
    }
}

proof fn lemma_blank_tells_nothing(t: Seq<char>)
    ensures
        t.len() == 0 ==> !preview::is_telling(t),
{
    reveal_strlit("passed");
    reveal_strlit("failed");
    reveal_strlit("error[E");
    reveal_strlit("error:");
    find_laws::lemma_holds(t, "passed"@);
    find_laws::lemma_holds(t, "failed"@);
}

/// Where no line tells by itself and no test failed, the test result with the
/// most passed tests is shown, the last of several.
pub proof fn lemma_best_result_shown(lines: Seq<Seq<char>>, k: int)
    requires
        0 <= k < lines.len(),
        forall|j: int| 0 <= j < lines.len() ==> !tells(#[trigger] lines[j]),
        forall|j: int|
            0 <= j < lines.len() && is_result(#[trigger] lines[j]) ==> failures(lines[j]) == 0,
        is_result(lines[k]),
        forall|j: int|
            0 <= j < k && is_result(#[trigger] lines[j]) ==> passes(lines[j]) <= passes(lines[k]),
        forall|j: int|
            k < j < lines.len() && is_result(#[trigger] lines[j]) ==> passes(lines[j]) < passes(
                lines[k],
            ),
    ensures
        preview::summary(lines, None, None) == Some(text::trimmed(lines[k])),
{
    lemma_best(lines, k, None);
}

proof fn lemma_best(lines: Seq<Seq<char>>, k: int, best: Option<(Seq<char>, nat)>)
    requires
        0 <= k < lines.len(),
        forall|j: int| 0 <= j < lines.len() ==> !tells(#[trigger] lines[j]),
        forall|j: int|
            0 <= j < lines.len() && is_result(#[trigger] lines[j]) ==> failures(lines[j]) == 0,
        is_result(lines[k]),
        forall|j: int|
            0 <= j < k && is_result(#[trigger] lines[j]) ==> passes(lines[j]) <= passes(lines[k]),
        forall|j: int|
            k < j < lines.len() && is_result(#[trigger] lines[j]) ==> passes(lines[j]) < passes(
                lines[k],
            ),
        best matches Some(b) ==> b.1 < passes(lines[k]),
    ensures
        preview::summary(lines, None, best) == Some(text::trimmed(lines[k])),
    decreases lines.len(),
{
    let last = lines.last();
    let t = text::trimmed(last);
    lemma_tells(last);
    assert(lines[lines.len() - 1] == last);
    let head = lines.drop_last();
    assert forall|j: int| 0 <= j < head.len() implies !tells(#[trigger] head[j]) by {
        assert(head[j] == lines[j]);
    }
    assert forall|j: int|
        0 <= j < head.len() && is_result(#[trigger] head[j]) implies failures(head[j]) == 0 by {
        assert(head[j] == lines[j]);
    }
    if k < lines.len() - 1 {
        assert(head[k] == lines[k]);
        assert forall|j: int| 0 <= j < k && is_result(#[trigger] head[j]) implies passes(head[j])
            <= passes(head[k]) by {
            assert(head[j] == lines[j]);
        }
        assert forall|j: int| k < j < head.len() && is_result(#[trigger] head[j]) implies passes(
            head[j],
        ) < passes(head[k]) by {
            assert(head[j] == lines[j]);
        }
        let b = match best {
            None => Some((t, preview::count_before(t, "passed"@))),
            Some(b) => if preview::count_before(t, "passed"@) > b.1 {
                Some((t, preview::count_before(t, "passed"@)))
            } else {
                best
            },
        };
        lemma_best(head, k, best);
        if is_result(last) {
            lemma_best(head, k, b);
        }
    } else {
        assert forall|j: int| 0 <= j < head.len() && is_result(#[trigger] head[j]) implies passes(
            head[j],
        ) <= passes(last) by {
            assert(head[j] == lines[j]);
        }
        lemma_best_stays(head, (t, passes(last)));
    }
}

proof fn lemma_best_stays(lines: Seq<Seq<char>>, best: (Seq<char>, nat))
    requires
        forall|j: int| 0 <= j < lines.len() ==> !tells(#[trigger] lines[j]),
        forall|j: int|
            0 <= j < lines.len() && is_result(#[trigger] lines[j]) ==> failures(lines[j]) == 0
                && passes(lines[j]) <= best.1,
    ensures
        preview::summary(lines, None, Some(best)) == Some(best.0),
    decreases lines.len(),
{
    if lines.len() > 0 {
        let head = lines.drop_last();
        lemma_tells(lines.last());
        assert(lines[lines.len() - 1] == lines.last());
        assert forall|j: int| 0 <= j < head.len() implies !tells(#[trigger] head[j]) by {
            assert(head[j] == lines[j]);
        }
        assert forall|j: int|
            0 <= j < head.len() && is_result(#[trigger] head[j]) implies failures(head[j]) == 0
            && passes(head[j]) <= best.1 by {
            assert(head[j] == lines[j]);
        }
        lemma_best_stays(head, best);
    }
}

/// Where nothing sums the last twenty lines up, the last line that holds more
/// than white space is shown.
pub proof fn lemma_last_line_shown(content: Seq<char>, k: int)
    requires
        !preview::is_diff(content),
        0 <= k < pieces::lines_of(content).len(),
        text::trimmed(pieces::lines_of(content)[k]).len() > 0,
        forall|j: int|
            k < j < pieces::lines_of(content).len() ==> text::trimmed(
                #[trigger] pieces::lines_of(content)[j],
            ).len() == 0,
        forall|j: int|
            pieces::lines_of(content).len() - 20 <= j < pieces::lines_of(content).len() && 0 <= j
                ==> !tells(#[trigger] pieces::lines_of(content)[j]) && !is_result(
                pieces::lines_of(content)[j],
            ),
    ensures
        preview::preview_of(content) == preview::truncated(
            text::trimmed(pieces::lines_of(content)[k]),
        ),
{
    let lines = pieces::lines_of(content);
    let tail = preview::tail_of(lines);
    assert forall|j: int| 0 <= j < tail.len() implies !tells(#[trigger] tail[j]) && !is_result(
        tail[j],
    ) by {
        assert(tail[j] == lines[lines.len() - tail.len() + j]);
    }
    lemma_nothing_tells(tail);
    lemma_last_filled(lines, k);
}

proof fn lemma_nothing_tells(lines: Seq<Seq<char>>)
    requires
        forall|j: int|
            0 <= j < lines.len() ==> !tells(#[trigger] lines[j]) && !is_result(lines[j]),
    ensures
        preview::summary(lines, None, None) is None,
    decreases lines.len(),
{
    if lines.len() > 0 {
        let head = lines.drop_last();
        lemma_tells(lines.last());
        assert(lines[lines.len() - 1] == lines.last());
        assert forall|j: int| 0 <= j < head.len() implies !tells(#[trigger] head[j])
            && !is_result(head[j]) by {
            assert(head[j] == lines[j]);
        }
        lemma_nothing_tells(head);
    }
}

proof fn lemma_last_filled(lines: Seq<Seq<char>>, k: int)
    requires
        0 <= k < lines.len(),
        text::trimmed(lines[k]).len() > 0,
        forall|j: int| k < j < lines.len() ==> text::trimmed(#[trigger] lines[j]).len() == 0,
    ensures
        preview::last_filled(lines) == Some(text::trimmed(lines[k])),
    decreases lines.len(),
{
    assert(lines[lines.len() - 1] == lines.last());
    if k < lines.len() - 1 {
        let head = lines.drop_last();
        assert(head[k] == lines[k]);
        assert forall|j: int| k < j < head.len() implies text::trimmed(
            #[trigger] head[j],
        ).len() == 0 by {
            assert(head[j] == lines[j]);
        }
        lemma_last_filled(head, k);
    }
}

/// The count of a test result stands in front of its keyword.
pub proof fn lemma_count_in_front(lead: Seq<char>, count: nat, keyword: Seq<char>, rest: Seq<char>)
    requires
        count <= usize::MAX,
        keyword.len() > 0,
        search::sub_index(
            lead + " "@ + number::decimal(count) + " "@ + keyword + rest,
            keyword,
        ) == Some((lead.len() + 1 + number::decimal(count).len() + 1) as int),
    ensures
        preview::count_before(
            lead + " "@ + number::decimal(count) + " "@ + keyword + rest,
            keyword,
        ) == count,
{
    reveal_strlit(" ");
    let digits = number::decimal(count);
    let line = lead + " "@ + digits + " "@ + keyword + rest;
    let k = lead.len() + 1 + digits.len() + 1;
    let front = lead + " "@ + digits;
    text_laws::lemma_decimal_value(count);
    assert(line.take(k as int) =~= front + " "@);
    assert(front.last() == digits.last());
    assert(number::is_digit(digits[digits.len() - 1]));
    assert((front + " "@).last() == ' ');
    assert((front + " "@).drop_last() =~= front);
    assert(text::trimmed_end(front + " "@) == front) by {
        reveal_with_fuel(text::trimmed_end, 2);
    }
    assert(front[lead.len() as int] == ' ');
    assert forall|j: int| lead.len() < j < front.len() implies front[j] != ' ' by {
        assert(front[j] == digits[j - lead.len() - 1]);
        assert(number::is_digit(digits[j - lead.len() - 1]));
    }
    text_laws::lemma_last_char(front, ' ', lead.len() as int);
    assert(front.skip(lead.len() as int + 1) =~= digits);
    assert(number::is_digit(digits[0]));
    text_laws::lemma_trimmed_is(digits);
}

// ---------------------------------------------------------------------------
// Files of a diff
// ---------------------------------------------------------------------------

/// The analysis of a diff and the reading of it agree: as many files, in the
/// same order, each with as many hunks. A file is at the path that its header
/// names.
pub proof fn lemma_analysis_agrees(content: Seq<char>)
    ensures
        ({
            let found = preview::files_of_diff(content);
            let files = diff::diff_files(content);
            let headers = pieces::lines_of(content).filter(
                |line: Seq<char>| diff_laws::is_header(line),
            );
            &&& found.len() == files.len()
            &&& found.len() == headers.len()
            &&& forall|i: int|
                0 <= i < found.len() ==> (#[trigger] found[i]).1 == files[i].hunks.len()
                    && found[i].0 == diff::diff_path(headers[i])
        }),
{
    diff_laws::lemma_files_are_sections(content);
    lemma_tally_agrees(pieces::lines_of(content));
}

proof fn lemma_tally_agrees(lines: Seq<Seq<char>>)
    ensures
        ({
            let t = preview::diff_tally(lines);
            let s = diff::hunk_closed(diff::diff_state(lines));
            let headers = lines.filter(|line: Seq<char>| diff_laws::is_header(line));
            let found = preview::tally_files(t);
            let files = diff::file_closed(s).done;
            &&& t.done.len() == s.done.len()
            &&& t.file is Some == s.file is Some
            &&& t.file matches Some(f) ==> f.1 == s.file->0.hunks.len()
            &&& t.done.len() + (if t.file is Some {
                1int
            } else {
                0int
            }) == headers.len()
            &&& found.len() == files.len() == headers.len()
            &&& forall|i: int|
                0 <= i < found.len() ==> (#[trigger] found[i]).1 == files[i].hunks.len()
                    && found[i].0 == diff::diff_path(headers[i])
        }),
    decreases lines.len(),
{
    reveal(Seq::filter);
    if lines.len() > 0 {
        let head = lines.drop_last();
        lemma_tally_agrees(head);
        diff_laws::lemma_line_kinds(lines.last());
        let t0 = preview::diff_tally(head);
        let s0 = diff::hunk_closed(diff::diff_state(head));
        let t = preview::diff_tally(lines);
        let s = diff::hunk_closed(diff::diff_state(lines));
        let found0 = preview::tally_files(t0);
        let files0 = diff::file_closed(s0).done;
        let found = preview::tally_files(t);
        let files = diff::file_closed(s).done;
        let headers0 = head.filter(|line: Seq<char>| diff_laws::is_header(line));
        let headers = lines.filter(|line: Seq<char>| diff_laws::is_header(line));
        if diff_laws::is_header(lines.last()) {
            assert(t.done == found0);
            assert(s.done == files0);
            assert(headers == headers0.push(lines.last()));
        } else {
            assert(headers == headers0);
        }
        assert forall|i: int| 0 <= i < found.len() implies (#[trigger] found[i]).1
            == files[i].hunks.len() && found[i].0 == diff::diff_path(headers[i]) by {
            if i < found0.len() {
                assert(found0[i].1 == files0[i].hunks.len());
                assert(found0[i].0 == diff::diff_path(headers0[i]));
            }
        }
    }
}

/// Two diffs one after another hold the files of both, in order: with their
/// paths, hunks and whether they are binary.
pub proof fn lemma_analysis_one_by_one(first: Seq<char>, second: Seq<char>)
    requires
        first.len() > 0 ==> first.last() == '\n',
        "diff --git "@.is_prefix_of(second),
    ensures
        preview::files_of_diff(first + second) == preview::files_of_diff(first)
            + preview::files_of_diff(second),
{
    pieces::lemma_lines_concat(first, second);
    diff_laws::lemma_first_line_is_header(second);
    let a = pieces::lines_of(first);
    let b = pieces::lines_of(second);
    lemma_tally_behind(a, b);
    let t = preview::diff_tally(b);
    assert(preview::files_of_diff(first + second) =~= preview::files_of_diff(first)
        + preview::files_of_diff(second));
}

proof fn lemma_tally_behind(a: Seq<Seq<char>>, b: Seq<Seq<char>>)
    requires
        b.len() > 0,
        diff_laws::is_header(b[0]),
    ensures
        preview::diff_tally(b).file is Some,
        preview::diff_tally(a + b) == (DiffTally {
            done: preview::tally_files(preview::diff_tally(a)) + preview::diff_tally(b).done,
            file: preview::diff_tally(b).file,
        }),
    decreases b.len(),
{
    let all = a + b;
    let front = preview::tally_files(preview::diff_tally(a));
    assert(all.drop_last() =~= a + b.drop_last());
    if b.len() == 1 {
        assert(b.drop_last() =~= seq![]);
        assert(all.drop_last() =~= a);
        assert(preview::diff_tally(b).done =~= seq![]);
        assert(preview::diff_tally(all).done =~= front + preview::diff_tally(b).done);
    } else {
        lemma_tally_behind(a, b.drop_last());
        let t = preview::diff_tally(b.drop_last());
        assert(preview::diff_tally(all).done =~= front + preview::diff_tally(b).done);
    }
}

/// A file is binary exactly where a line of its section says so.
pub proof fn lemma_binary(section: Seq<char>)
    requires
        "diff --git "@.is_prefix_of(section),
        diff_laws::header_count(pieces::lines_of(section)) == 1,
    ensures
        preview::files_of_diff(section).len() == 1,
        preview::files_of_diff(section)[0].2 <==> exists|i: int|
            0 <= i < pieces::lines_of(section).len() && "Binary files "@.is_prefix_of(
                #[trigger] pieces::lines_of(section)[i],
            ) && " differ"@.is_suffix_of(pieces::lines_of(section)[i]),
{
    let lines = pieces::lines_of(section);
    diff_laws::lemma_first_line_is_header(section);
    lemma_binary_lines(lines);
}

proof fn lemma_binary_lines(lines: Seq<Seq<char>>)
    requires
        lines.len() > 0,
        diff_laws::is_header(lines[0]),
        diff_laws::header_count(lines) == 1,
    ensures
        ({
            let t = preview::diff_tally(lines);
            &&& t.done.len() == 0
            &&& t.file matches Some(f) && (f.2 <==> exists|i: int|
                0 <= i < lines.len() && "Binary files "@.is_prefix_of(#[trigger] lines[i])
                    && " differ"@.is_suffix_of(lines[i]))
        }),
    decreases lines.len(),
{
    reveal(Seq::filter);
    reveal_strlit("Binary files ");
    reveal_strlit("diff --git ");
    reveal_strlit("@@ ");
    assert("Binary files "@[0] == 'B' && "diff --git "@[0] == 'd' && "@@ "@[0] == '@');
    let last = lines.last();
    assert(lines[lines.len() - 1] == last);
    if lines.len() == 1 {
        assert(preview::diff_tally(lines.drop_last()).done =~= seq![]);
    } else {
        let head = lines.drop_last();
        assert(head[0] == lines[0]);
        diff_laws::lemma_header_counts(head);
        lemma_binary_lines(head);
        let f = preview::diff_tally(head).file->0;
        if f.2 {
            let i = choose|i: int|
                0 <= i < head.len() && "Binary files "@.is_prefix_of(#[trigger] head[i])
                    && " differ"@.is_suffix_of(head[i]);
            assert(lines[i] == head[i]);
        }
        if exists|i: int|
            0 <= i < lines.len() && "Binary files "@.is_prefix_of(#[trigger] lines[i])
                && " differ"@.is_suffix_of(lines[i]) {
            let i = choose|i: int|
                0 <= i < lines.len() && "Binary files "@.is_prefix_of(#[trigger] lines[i])
                    && " differ"@.is_suffix_of(lines[i]);
            if i < head.len() {
                assert(head[i] == lines[i]);
            }
        }
    }
}

// ---------------------------------------------------------------------------
// Files of grep-like output
// ---------------------------------------------------------------------------

/// A line `file:12:text` is a match in `file`.
pub proof fn lemma_match_file(file: Seq<char>, line_number: nat, rest: Seq<char>)
    requires
        !file.contains(':'),
    ensures
        preview::match_file(file + ":"@ + number::decimal(line_number) + ":"@ + rest) == Some(file),
{
    reveal_strlit(":");
    let digits = number::decimal(line_number);
    text_laws::lemma_decimal_value(line_number);
    let line = file + ":"@ + digits + ":"@ + rest;
    let k = file.len() as int;
    assert forall|j: int| 0 <= j < k implies line[j] != ':' by {
        assert(file.contains(file[j]));
    }
    search::lemma_char_index_is(line, ':', k);
    let after = line.skip(k + 1);
    assert(after =~= digits + ":"@ + rest);
    assert forall|j: int| 0 <= j < digits.len() implies after[j] != ':' by {
        assert(number::is_digit(digits[j]));
    }
    search::lemma_char_index_is(after, ':', digits.len() as int);
    assert(after.take(digits.len() as int) =~= digits);
    assert(line.take(k) =~= file);
}

/// Output counts as grep-like where at least thirty of a hundred lines that hold
/// more than white space are matches.
pub proof fn lemma_grep_like(content: Seq<char>)
    ensures
        ({
            let filled = pieces::lines_of(content).filter(
                |line: Seq<char>| text::trimmed(line).len() > 0,
            );
            let matches = pieces::lines_of(content).filter(
                |line: Seq<char>| preview::match_file(text::trimmed(line)) is Some,
            );
            preview::is_grep_like(content) <==> filled.len() > 0 && matches.len() * 100 >= 30
                * filled.len()
        }),
{
    let lines = pieces::lines_of(content);
    lemma_line_counts(lines);
    let total = preview::filled_count(lines);
    let matched = preview::match_files(lines).len();
    if total > 0 {
        assert((matched * 100) / total >= 30 <==> matched * 100 >= 30 * total) by (nonlinear_arith)
            requires
                total > 0,
        ;
    }
}

proof fn lemma_line_counts(lines: Seq<Seq<char>>)
    ensures
        preview::filled_count(lines) == lines.filter(
            |line: Seq<char>| text::trimmed(line).len() > 0,
        ).len(),
        preview::match_files(lines).len() == lines.filter(
            |line: Seq<char>| preview::match_file(text::trimmed(line)) is Some,
        ).len(),
    decreases lines.len(),
{
    reveal(Seq::filter);
    if lines.len() > 0 {
        lemma_line_counts(lines.drop_last());
        let t = text::trimmed(lines.last());
        search::lemma_char_index(t, ':');
    }
}

/// The three files that are named are the first of all in the ranking.
pub proof fn lemma_top<T>(s: Seq<T>)
    ensures
        preview::top(s).len() == if s.len() < 3 {
            s.len()
        } else {
            3
        },
        forall|i: int| 0 <= i < preview::top(s).len() ==> #[trigger] preview::top(s)[i] == s[i],
{
}

/// Every file of grep-like output is counted with its matches.
pub proof fn lemma_grep_files(content: Seq<char>)
    requires
        preview::is_grep_like(content),
    ensures
        ({
            let lines = pieces::lines_of(content);
            let found = preview::files_of_grep(content);
            &&& forall|i: int|
                0 <= i < found.len() ==> (#[trigger] found[i]).1 == lines.filter(
                    |line: Seq<char>|
                        preview::match_file(text::trimmed(line)) == Some(found[i].0),
                ).len()
            &&& manifest_laws::count_total(found) == lines.filter(
                |line: Seq<char>| preview::match_file(text::trimmed(line)) is Some,
            ).len()
            &&& tally::distinct_names(found)
        }),
{
    let lines = pieces::lines_of(content);
    let files = preview::match_files(lines);
    let found = preview::files_of_grep(content);
    tally::lemma_counted(files);
    lemma_line_counts(lines);
    manifest_laws::lemma_total_counted(files);
    assert forall|i: int| 0 <= i < found.len() implies (#[trigger] found[i]).1 == lines.filter(
        |line: Seq<char>| preview::match_file(text::trimmed(line)) == Some(found[i].0),
    ).len() by {
        lemma_file_matches(lines, found[i].0);
    }
}

proof fn lemma_file_matches(lines: Seq<Seq<char>>, file: Seq<char>)
    ensures
        tally::occurrences(preview::match_files(lines), file) == lines.filter(
            |line: Seq<char>| preview::match_file(text::trimmed(line)) == Some(file),
        ).len(),
    decreases lines.len(),
{
    reveal(Seq::filter);
    if lines.len() > 0 {
        lemma_file_matches(lines.drop_last(), file);
        let t = text::trimmed(lines.last());
        search::lemma_char_index(t, ':');
        let before = preview::match_files(lines.drop_last());
        match preview::match_file(t) {
            Some(f) => {
                assert(before.push(f).drop_last() =~= before);
            },
            None => {},
        }
    }
}

} // verus!
