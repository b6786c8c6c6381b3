use vstd::prelude::*;
use crate::error::Error;
use crate::model::{
    find_open_from, find_run_from, has_run, is_ws, run_len_from, scan_content_at,
    scan_document, scan_document_at, scan_line_at, scan_lines_at, scan_name_from,
    trim_end_in, trim_from, trim_start_in, ContentModel, LineModel, SpanModel,
};

verus! {

// ---------------------------------------------------------------------------
// General laws of the scanner, stated over the model and proved once and
// for all.  The executable scanners return exactly what the model says, so
// each law carries over to them.
// ---------------------------------------------------------------------------

/// A run of `n` copies of the byte `c`.
pub open spec fn run_of(c: u8, n: nat) -> Seq<u8> {
    Seq::new(n, |k: int| c)
}

/// A maximal run measures exactly its length: `n` copies of `c` at `i`,
/// followed by the end of the input or a different byte, give `n`.
pub proof fn lemma_run_len_exact(s: Seq<u8>, i: int, c: u8, n: nat)
    requires
        has_run(s, i, c, n),
        i + n == s.len() || s[i + n] != c,
    ensures
        run_len_from(s, i, c) == n,
    decreases n,
{
    if n == 0 {
    } else {
        assert(s[i] == c);
        assert(has_run(s, i + 1, c, (n - 1) as nat));
        lemma_run_len_exact(s, i + 1, c, (n - 1) as nat);
    }
}

/// The whole run lies within the input and consists of `c`.
pub proof fn lemma_run_len_bounds(s: Seq<u8>, i: int, c: u8)
    requires
        0 <= i <= s.len(),
    ensures
        i + run_len_from(s, i, c) <= s.len(),
        has_run(s, i, c, run_len_from(s, i, c)),
    decreases s.len() - i,
{
    if i < s.len() && s[i] == c {
        lemma_run_len_bounds(s, i + 1, c);
        assert forall|k: int| i <= k < i + run_len_from(s, i, c) implies s[k] == c by {
            if k > i {
                assert(has_run(s, i + 1, c, run_len_from(s, i + 1, c)));
            }
        }
    }
}

/// Searching from a region free of matching runs finds the first run
/// beyond it: if no run of `n` bytes `c` begins anywhere in `[i, j)` and
/// one begins at `j`, the leftmost search from `i` lands exactly on `j`.
pub proof fn lemma_find_run_found(s: Seq<u8>, i: int, c: u8, n: nat, j: int)
    requires
        0 <= i <= j,
        1 <= n,
        has_run(s, j, c, n),
        forall|k: int| i <= k < j ==> !has_run(s, k, c, n),
    ensures
        find_run_from(s, i, c, n) == Some(j),
    decreases j - i,
{
    if i == j {
        lemma_run_has_ge(s, j, c, n);
    } else {
        assert(!has_run(s, i, c, n));
        lemma_run_len_bounds(s, i, c);
        if i + n <= s.len() && run_len_from(s, i, c) >= n {
            assert(has_run(s, i, c, n));
        }
        lemma_find_run_found(s, i + 1, c, n, j);
    }
}

/// A run of `n` at `j` means the measured run there is at least `n`.
pub proof fn lemma_run_has_ge(s: Seq<u8>, j: int, c: u8, n: nat)
    requires
        has_run(s, j, c, n),
    ensures
        run_len_from(s, j, c) >= n,
    decreases n,
{
    if n > 0 {
        assert(has_run(s, j + 1, c, (n - 1) as nat));
        lemma_run_has_ge(s, j + 1, c, (n - 1) as nat);
    }
}

/// The search fails exactly when no run of the required length begins
/// anywhere at or after `i`: a closing fence that is never completed is
/// reported, never silently truncated.
pub proof fn lemma_find_run_none(s: Seq<u8>, i: int, c: u8, n: nat)
    requires
        0 <= i,
        1 <= n,
    ensures
        find_run_from(s, i, c, n) is None <==> (forall|k: int| i <= k ==> !has_run(s, k, c, n)),
    decreases s.len() - i,
{
    if i + n > s.len() {
        assert forall|k: int| i <= k implies !has_run(s, k, c, n) by {}
    } else {
        lemma_find_run_none(s, i + 1, c, n);
        if run_len_from(s, i, c) >= n {
            lemma_run_ge_has(s, i, c, n);
        } else {
            if has_run(s, i, c, n) {
                lemma_run_has_ge(s, i, c, n);
            }
        }
    }
}

/// A measured run of at least `n` yields a run of `n`.
pub proof fn lemma_run_ge_has(s: Seq<u8>, i: int, c: u8, n: nat)
    requires
        0 <= i <= s.len(),
        run_len_from(s, i, c) >= n,
    ensures
        has_run(s, i, c, n),
{
    lemma_run_len_bounds(s, i, c);
    assert(has_run(s, i, c, run_len_from(s, i, c)));
}

/// A successful search lands on a run and on the leftmost one: every
/// earlier position carries no run of the required length.
pub proof fn lemma_find_run_leftmost(s: Seq<u8>, i: int, c: u8, n: nat)
    requires
        0 <= i,
        1 <= n,
    ensures
        match find_run_from(s, i, c, n) {
            Some(j) => i <= j && has_run(s, j, c, n) && forall|k: int|
                i <= k < j ==> !has_run(s, k, c, n),
            None => true,
        },
    decreases s.len() - i,
{
    if i + n > s.len() {
    } else {
        if run_len_from(s, i, c) >= n {
            lemma_run_ge_has(s, i, c, n);
        } else {
            lemma_find_run_leftmost(s, i + 1, c, n);
            assert forall|k: int| i <= k && !(i + 1 <= k) implies !has_run(s, k, c, n) by {
                if has_run(s, i, c, n) {
                    lemma_run_has_ge(s, i, c, n);
                }
            }
        }
    }
}

/// Trimming never moves backwards and never leaves the input.
pub proof fn lemma_trim_bounds(s: Seq<u8>, i: int)
    requires
        0 <= i <= s.len(),
    ensures
        i <= trim_from(s, i) <= s.len(),
    decreases s.len() - i,
{
    if i < s.len() && is_ws(s[i]) {
        lemma_trim_bounds(s, i + 1);
    }
}

/// Scanning one block always advances the cursor and stays in the input.
pub proof fn lemma_scan_line_bounds(s: Seq<u8>, i: int)
    requires
        0 <= i <= s.len(),
    ensures
        match scan_line_at(s, i) {
            Ok(mp) => i < mp.1 <= s.len(),
            Err(_) => true,
        },
    decreases s.len() - i, 1int,
{
    if i < s.len() && s[i] == 0x21 {
        let n = run_len_from(s, i, 0x21);
        if i + n < s.len() {
            match scan_name_from(s, i + n, n, 0, 0) {
                Some(pc) => match find_open_from(s, pc.0) {
                    Some(ob) => {
                        if i < ob && ob < s.len() {
                            lemma_scan_content_bounds(s, ob);
                        }
                    },
                    None => {},
                },
                None => {},
            }
        }
    }
}

/// Scanning one content region always advances the cursor and stays in
/// the input.
pub proof fn lemma_scan_content_bounds(s: Seq<u8>, i: int)
    requires
        0 <= i <= s.len(),
    ensures
        match scan_content_at(s, i) {
            Ok(mp) => i < mp.1 <= s.len(),
            Err(_) => true,
        },
    decreases s.len() - i, 0int,
{
    if i < s.len() {
        if s[i] == 0x7b {
            let n = run_len_from(s, i, 0x7b);
            if n >= 1 && i + n < s.len() {
                lemma_scan_lines_bounds(s, i + n);
            }
        } else if s[i] == 0x5b {
            let n = run_len_from(s, i, 0x5b);
            if n >= 1 && i + n < s.len() {
                lemma_find_run_bounds(s, i + n, 0x5d, n);
            }
        }
    }
}

/// The nested-lines loop never moves backwards and stays in the input.
pub proof fn lemma_scan_lines_bounds(s: Seq<u8>, i: int)
    requires
        0 <= i <= s.len(),
    ensures
        match scan_lines_at(s, i) {
            Ok(mp) => i <= mp.1 <= s.len(),
            Err(_) => true,
        },
    decreases s.len() - i, 2int,
{
    let t = trim_from(s, i);
    if i <= t <= s.len() && t < s.len() && s[t] == 0x21 {
        match scan_line_at(s, t) {
            Ok(mp) => {
                if t < mp.1 <= s.len() {
                    lemma_scan_lines_bounds(s, mp.1);
                }
            },
            Err(_) => {},
        }
    }
}

/// A found run lies at or after the start of the search and within the
/// input.
pub proof fn lemma_find_run_bounds(s: Seq<u8>, i: int, c: u8, n: nat)
    requires
        0 <= i,
    ensures
        match find_run_from(s, i, c, n) {
            Some(j) => i <= j && j + n <= s.len(),
            None => true,
        },
    decreases s.len() - i,
{
    if i + n <= s.len() && run_len_from(s, i, c) < n {
        lemma_find_run_bounds(s, i + 1, c, n);
    }
}

/// A comment block is consumed exactly like a normal block but never
/// appears in the document: the document from `i` is the document from
/// just past the comment block.
pub proof fn lemma_comment_elided(s: Seq<u8>, i: int)
    requires
        0 <= i <= s.len(),
    ensures
        match scan_line_at(s, trim_from(s, i)) {
            Ok(mp) => mp.0 is None ==> scan_document_at(s, i) == scan_document_at(s, mp.1),
            Err(_) => true,
        },
{
    lemma_trim_bounds(s, i);
    let t = trim_from(s, i);
    if t < s.len() {
        lemma_scan_line_bounds(s, t);
    }
}

/// Trimming an all-whitespace suffix reaches the end of the input.
pub proof fn lemma_trim_all_ws(s: Seq<u8>, i: int)
    requires
        0 <= i <= s.len(),
        forall|k: int| i <= k < s.len() ==> is_ws(s[k]),
    ensures
        trim_from(s, i) == s.len(),
    decreases s.len() - i,
{
    if i < s.len() {
        lemma_trim_all_ws(s, i + 1);
    }
}

/// Empty input — or input that trimming leaves empty — yields the empty
/// document, not an error.
pub proof fn lemma_whitespace_only_empty_document(s: Seq<u8>)
    requires
        forall|k: int| 0 <= k < s.len() ==> is_ws(s[k]),
    ensures
        scan_document(s) == Ok::<Seq<LineModel>, Error>(Seq::empty()),
{
    lemma_trim_all_ws(s, 0);
}

/// The name phase runs through a name that completes no run of `n` colons
/// or semicolons and ends at the first run of `n` colons: a normal block's
/// name span.  The name may contain shorter runs of either terminator.
pub proof fn lemma_scan_name_clean(s: Seq<u8>, i: int, j: int, n: nat)
    requires
        0 <= i <= j,
        j + n <= s.len(),
        1 <= n,
        forall|k: int| i <= k < j ==> !has_run(s, k, 0x3a, n) && !has_run(s, k, 0x3b, n),
        i < j ==> s[j - 1] != 0x3a,
        forall|k: int| j <= k < j + n ==> s[k] == 0x3a,
    ensures
        scan_name_from(s, i, n, 0, 0) == Some((j + n, false)),
{
    lemma_scan_name_through(s, i, i, j, n, 0, 0);
}

proof fn lemma_scan_name_through(
    s: Seq<u8>,
    i: int,
    p: int,
    j: int,
    n: nat,
    colons: nat,
    semis: nat,
)
    requires
        0 <= i <= p <= j,
        j + n <= s.len(),
        1 <= n,
        colons < n,
        semis < n,
        i <= p - colons,
        i <= p - semis,
        forall|k: int| p - colons <= k < p ==> s[k] == 0x3a,
        forall|k: int| p - semis <= k < p ==> s[k] == 0x3b,
        forall|k: int| i <= k < j ==> !has_run(s, k, 0x3a, n) && !has_run(s, k, 0x3b, n),
        i < j ==> s[j - 1] != 0x3a,
        forall|k: int| j <= k < j + n ==> s[k] == 0x3a,
    ensures
        scan_name_from(s, p, n, colons, semis) == Some((j + n, false)),
    decreases j - p,
{
    if p == j {
        // the name does not end in a colon, so the colon counter is zero here
        assert(colons == 0);
        if n == 1 {
        } else {
            lemma_scan_name_colons(s, j + 1, n, 1);
        }
    } else if s[p] == 0x3a {
        // a longer colon run would complete a run of n inside the name
        if colons + 1 == n {
            assert(has_run(s, p - colons, 0x3a, n));
        }
        lemma_scan_name_through(s, i, p + 1, j, n, (colons + 1) as nat, 0);
    } else if s[p] == 0x3b {
        if semis + 1 == n {
            assert(has_run(s, p - semis, 0x3b, n));
        }
        lemma_scan_name_through(s, i, p + 1, j, n, 0, (semis + 1) as nat);
    } else {
        lemma_scan_name_through(s, i, p + 1, j, n, 0, 0);
    }
}

proof fn lemma_scan_name_colons(s: Seq<u8>, p: int, n: nat, done: nat)
    requires
        0 <= p,
        p + (n - done) <= s.len(),
        done < n,
        forall|k: int| p <= k < p + (n - done) ==> s[k] == 0x3a,
    ensures
        scan_name_from(s, p, n, done, 0) == Some((p + (n - done), false)),
    decreases n - done,
{
    if done + 1 < n {
        lemma_scan_name_colons(s, p + 1, n, (done + 1) as nat);
    }
}

/// Scanning for a content opener through bytes that are neither `{` nor
/// `[` lands on the first that is.
pub proof fn lemma_find_open_at(s: Seq<u8>, i: int, j: int)
    requires
        0 <= i <= j < s.len(),
        forall|k: int| i <= k < j ==> s[k] != 0x7b && s[k] != 0x5b,
        s[j] == 0x7b || s[j] == 0x5b,
    ensures
        find_open_from(s, i) == Some(j),
    decreases j - i,
{
    if i < j {
        lemma_find_open_at(s, i + 1, j);
    }
}

/// A text fence whose closing run is never completed fails with
/// `UnexpectedEoF` — never a silent truncation of the text.
pub proof fn lemma_text_unclosed_eof(s: Seq<u8>, i: int)
    requires
        0 <= i < s.len(),
        s[i] == 0x5b,
        forall|k: int| !has_run(s, k, 0x5d, run_len_from(s, i, 0x5b)),
    ensures
        scan_content_at(s, i) == Err::<(ContentModel, int), Error>(Error::UnexpectedEoF),
{
    let n = run_len_from(s, i, 0x5b);
    if i + n < s.len() {
        lemma_find_run_none(s, i + n, 0x5d, n);
    }
}

/// One block with counted fences: for every name-fence width `n` and every
/// text-fence width `m`, the input
/// `!…! name :…: structure [[…[ text ]]…]` — `n` bangs and colons, `m`
/// brackets — parses to a single block with exactly these spans.  Widening
/// either fence never changes what is parsed, so long as the fenced text
/// cannot complete a closing run of the fence's width.
#[verifier::rlimit(100)]
pub proof fn lemma_single_text_block(
    n: nat,
    m: nat,
    name: Seq<u8>,
    structure: Seq<u8>,
    text: Seq<u8>,
)
    requires
        1 <= n,
        1 <= m,
        name.len() > 0 ==> name[0] != 0x21,
        name.len() > 0 ==> name[name.len() - 1] != 0x3a,
        forall|k: int| !has_run(name, k, 0x3a, n) && !has_run(name, k, 0x3b, n),
        forall|k: int| 0 <= k < structure.len() ==> structure[k] != 0x7b && structure[k] != 0x5b,
        structure.len() > 0 ==> !is_ws(structure[0]) && !is_ws(structure[structure.len() - 1]),
        text.len() > 0 ==> text[0] != 0x5b,
        text.len() > 0 ==> text[text.len() - 1] != 0x5d,
        forall|k: int| !has_run(text, k, 0x5d, m),
    ensures
        scan_document(
            run_of(0x21, n) + name + run_of(0x3a, n) + structure + run_of(0x5b, m) + text + run_of(
                0x5d,
                m,
            ),
        ) == Ok::<Seq<LineModel>, Error>(
            seq![
                LineModel {
                    name: SpanModel { start: n as int, end: (n + name.len()) as int },
                    structure: SpanModel {
                        start: (n + name.len() + n) as int,
                        end: (n + name.len() + n + structure.len()) as int,
                    },
                    content: ContentModel::Text(
                        SpanModel {
                            start: (n + name.len() + n + structure.len() + m) as int,
                            end: (n + name.len() + n + structure.len() + m + text.len()) as int,
                        },
                    ),
                },
            ],
        ),
{
    let s = run_of(0x21, n) + name + run_of(0x3a, n) + structure + run_of(0x5b, m) + text
        + run_of(0x5d, m);
    let l0 = n as int;
    let l1 = l0 + name.len();
    let l2 = l1 + n;
    let l3 = l2 + structure.len();
    let l4 = l3 + m;
    let l5 = l4 + text.len();
    let l6 = l5 + m;
    assert(s.len() == l6);
    assert forall|k: int| 0 <= k < l0 implies s[k] == 0x21 by {}
    assert forall|k: int| l0 <= k < l1 implies s[k] == name[k - l0] by {}
    assert forall|k: int| l1 <= k < l2 implies s[k] == 0x3a by {}
    assert forall|k: int| l2 <= k < l3 implies s[k] == structure[k - l2] by {}
    assert forall|k: int| l3 <= k < l4 implies s[k] == 0x5b by {}
    assert forall|k: int| l4 <= k < l5 implies s[k] == text[k - l4] by {}
    assert forall|k: int| l5 <= k < l6 implies s[k] == 0x5d by {}

    // the opening run of bangs measures exactly n
    assert(has_run(s, 0, 0x21, n));
    assert(s[l0] != 0x21);
    lemma_run_len_exact(s, 0, 0x21, n);

    // the name phase ends at the first run of n colons
    assert forall|k: int| l0 <= k < l1 implies !has_run(s, k, 0x3a, n) && !has_run(
        s,
        k,
        0x3b,
        n,
    ) by {
        if has_run(s, k, 0x3a, n) {
            if k + n <= l1 {
                assert forall|k2: int| k - l0 <= k2 < k - l0 + n implies name[k2] == 0x3a by {
                    assert(s[k2 + l0] == 0x3a);
                }
                assert(has_run(name, k - l0, 0x3a, n));
            } else {
                // the run would cross into the colon fence, so the name's
                // last byte would be a colon
                assert(s[l1 - 1] == 0x3a);
                assert(name[name.len() - 1] == 0x3a);
            }
        }
        if has_run(s, k, 0x3b, n) {
            if k + n <= l1 {
                assert forall|k2: int| k - l0 <= k2 < k - l0 + n implies name[k2] == 0x3b by {
                    assert(s[k2 + l0] == 0x3b);
                }
                assert(has_run(name, k - l0, 0x3b, n));
            } else {
                // the run would cross into the colon fence itself
                assert(s[l1] == 0x3b);
            }
        }
    }
    assert(l0 < l1 ==> s[l1 - 1] != 0x3a);
    lemma_scan_name_clean(s, l0, l1, n);

    // the structure phase ends at the first bracket
    lemma_find_open_at(s, l2, l3);

    // the structure span needs no trimming
    assert(trim_start_in(s, l2, l3) == l2);
    assert(trim_end_in(s, l2, l3) == l3);

    // the bracket run measures exactly m
    assert(has_run(s, l3, 0x5b, m));
    assert(s[l4] != 0x5b);
    lemma_run_len_exact(s, l3, 0x5b, m);

    // the closing run is found exactly at the end of the text
    assert(has_run(s, l5, 0x5d, m));
    assert forall|k: int| l4 <= k < l5 implies !has_run(s, k, 0x5d, m) by {
        if has_run(s, k, 0x5d, m) {
            if k + m <= l5 {
                assert forall|k2: int| k - l4 <= k2 < k - l4 + m implies text[k2] == 0x5d by {
                    assert(s[k2 + l4] == 0x5d);
                }
                assert(has_run(text, k - l4, 0x5d, m));
            } else {
                assert(s[l5 - 1] == 0x5d);
                assert(text[text.len() - 1] == 0x5d);
            }
        }
    }
    lemma_find_run_found(s, l4, 0x5d, m, l5);

    // assemble: one block, then only the end of the input
    assert(scan_content_at(s, l3) == Ok::<(ContentModel, int), Error>(
        (ContentModel::Text(SpanModel { start: l4, end: l5 }), l6),
    ));
    assert(scan_line_at(s, 0) == Ok::<(Option<LineModel>, int), Error>(
        (
            Some(
                LineModel {
                    name: SpanModel { start: l0, end: l1 },
                    structure: SpanModel { start: l2, end: l3 },
                    content: ContentModel::Text(SpanModel { start: l4, end: l5 }),
                },
            ),
            l6,
        ),
    ));
    assert(trim_from(s, 0) == 0);
    assert(trim_from(s, l6) == l6);
    assert(scan_document_at(s, l6) == Ok::<Seq<LineModel>, Error>(Seq::empty()));
    let m0 = LineModel {
        name: SpanModel { start: l0, end: l1 },
        structure: SpanModel { start: l2, end: l3 },
        content: ContentModel::Text(SpanModel { start: l4, end: l5 }),
    };
    assert(seq![m0] + Seq::<LineModel>::empty() =~= seq![m0]);
}

/// The scan is one deterministic pass: equal inputs yield equal outcomes,
/// whole trees or errors alike.  Together with the parsers' contracts —
/// each returns exactly the model's outcome on its input — re-parsing the
/// same buffer twice yields structurally equal results.
pub proof fn lemma_parse_deterministic(a: Seq<u8>, b: Seq<u8>)
    requires
        a == b,
    ensures
        scan_document(a) == scan_document(b),
{
}

} // verus!

