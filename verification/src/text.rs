//! Verified character-level text utilities: substring matching, occurrence
//! scanning, occurrence removal, and decimal formatting.

use vstd::prelude::*;
use vstd::string::*;

verus! {

/// True when `pat` occurs in `text` starting at position `i`.
pub open spec fn match_at(text: Seq<char>, pat: Seq<char>, i: int) -> bool {
    0 <= i && i + pat.len() <= text.len() && text.subrange(i, i + pat.len() as int) == pat
}

/// True when `pat` occurs somewhere in `text`.
pub open spec fn contains_seq(text: Seq<char>, pat: Seq<char>) -> bool {
    exists|i: int| match_at(text, pat, i)
}

/// The start positions of the occurrences of `pat` in `text` at or after
/// position `from`, scanning left to right without overlap: after a match at
/// position `i`, scanning resumes at `i + pat.len()`.
pub open spec fn occurrences(text: Seq<char>, pat: Seq<char>, from: int) -> Seq<int>
    decreases text.len() - from,
{
    if from < 0 || pat.len() == 0 || from + pat.len() > text.len() {
        Seq::empty()
    } else if match_at(text, pat, from) {
        seq![from] + occurrences(text, pat, from + pat.len() as int)
    } else {
        occurrences(text, pat, from + 1)
    }
}

/// Every listed occurrence lies at or after `from`, is a real match, and
/// successive occurrences are spaced at least `pat.len()` apart.
pub proof fn lemma_occurrences_props(text: Seq<char>, pat: Seq<char>, from: int)
    requires
        pat.len() > 0,
    ensures
        forall|k: int|
            0 <= k < occurrences(text, pat, from).len() ==> from <= #[trigger] occurrences(
                text,
                pat,
                from,
            )[k] && match_at(text, pat, occurrences(text, pat, from)[k]),
        forall|k: int|
            0 <= k < occurrences(text, pat, from).len() - 1 ==> #[trigger] occurrences(
                text,
                pat,
                from,
            )[k] + pat.len() <= occurrences(text, pat, from)[k + 1],
    decreases text.len() - from,
{
    let occ = occurrences(text, pat, from);
    if from < 0 || from + pat.len() > text.len() {
    } else if match_at(text, pat, from) {
        let rest = occurrences(text, pat, from + pat.len() as int);
        lemma_occurrences_props(text, pat, from + pat.len() as int);
        assert(occ == seq![from] + rest);
        assert forall|k: int| 0 <= k < occ.len() implies from <= #[trigger] occ[k] && match_at(
            text,
            pat,
            occ[k],
        ) by {
            if k > 0 {
                assert(occ[k] == rest[k - 1]);
            }
        }
        assert forall|k: int| 0 <= k < occ.len() - 1 implies #[trigger] occ[k] + pat.len()
            <= occ[k + 1] by {
            if k == 0 {
                assert(occ[1] == rest[0]);
            } else {
                assert(occ[k] == rest[k - 1]);
                assert(occ[k + 1] == rest[k]);
            }
        }
    } else {
        let rest = occurrences(text, pat, from + 1);
        lemma_occurrences_props(text, pat, from + 1);
        assert(occ == rest);
        assert forall|k: int| 0 <= k < occ.len() implies from <= #[trigger] occ[k] && match_at(
            text,
            pat,
            occ[k],
        ) by {
            assert(occ[k] == rest[k]);
        }
        assert forall|k: int| 0 <= k < occ.len() - 1 implies #[trigger] occ[k] + pat.len()
            <= occ[k + 1] by {
            assert(occ[k] == rest[k]);
            assert(occ[k + 1] == rest[k + 1]);
        }
    }
}

/// Appending element `k` extends the concatenation of the first `k` parts to
/// the concatenation of the first `k + 1` parts.
pub proof fn lemma_concat_all_take_step(parts: Seq<Seq<char>>, k: int)
    requires
        0 <= k < parts.len(),
    ensures
        concat_all(parts.take(k + 1)) == concat_all(parts.take(k)) + parts[k],
{
    assert(parts.take(k + 1).drop_last() =~= parts.take(k));
    assert(parts.take(k + 1).last() == parts[k]);
}

/// Checks whether `pat` occurs in `text` at position `i`.
pub fn match_at_exec(text: &str, tl: usize, pat: &str, pl: usize, i: usize) -> (r: bool)
    requires
        tl == text@.len(),
        pl == pat@.len(),
        i + pl <= tl,
    ensures
        r == match_at(text@, pat@, i as int),
{
    let mut k: usize = 0;
    while k < pl
        invariant
            tl == text@.len(),
            pl == pat@.len(),
            i + pl <= tl,
            k <= pl,
            forall|j: int| 0 <= j < k ==> text@[i + j] == pat@[j],
        decreases pl - k,
    {
        if text.get_char(i + k) != pat.get_char(k) {
            proof {
                if match_at(text@, pat@, i as int) {
                    assert(text@.subrange(i as int, i + pl)[k as int] == pat@[k as int]);
                }
            }
            return false;
        }
        k = k + 1;
    }
    proof {
        assert(text@.subrange(i as int, i + pl) =~= pat@);
    }
    true
}

/// Returns the occurrence positions of `pat` in `text`, scanning left to
/// right without overlap.
pub fn find_occurrences(text: &str, pat: &str) -> (r: Vec<usize>)
    requires
        pat@.len() > 0,
    ensures
        r@.map_values(|u: usize| u as int) == occurrences(text@, pat@, 0),
{
    let tl = text.unicode_len();
    let pl = pat.unicode_len();
    let mut r: Vec<usize> = Vec::new();
    if pl > tl {
        proof {
            assert(r@.map_values(|u: usize| u as int) =~= occurrences(text@, pat@, 0));
        }
        return r;
    }
    let mut j: usize = 0;
    while j <= tl - pl
        invariant
            tl == text@.len(),
            pl == pat@.len(),
            0 < pl <= tl,
            j <= tl,
            occurrences(text@, pat@, 0) == r@.map_values(|u: usize| u as int) + occurrences(
                text@,
                pat@,
                j as int,
            ),
        decreases tl - j,
    {
        let ghost prev = r@.map_values(|u: usize| u as int);
        if match_at_exec(text, tl, pat, pl, j) {
            r.push(j);
            proof {
                assert(occurrences(text@, pat@, j as int) == seq![j as int] + occurrences(
                    text@,
                    pat@,
                    j + pl,
                ));
                assert(r@.map_values(|u: usize| u as int) =~= prev + seq![j as int]);
                assert(prev + (seq![j as int] + occurrences(text@, pat@, j + pl)) =~= (prev + seq![
                    j as int,
                ]) + occurrences(text@, pat@, j + pl));
            }
            j = j + pl;
        } else {
            proof {
                assert(occurrences(text@, pat@, j as int) == occurrences(text@, pat@, j + 1));
            }
            j = j + 1;
        }
    }
    proof {
        assert(occurrences(text@, pat@, j as int) =~= Seq::<int>::empty());
        assert(r@.map_values(|u: usize| u as int) + Seq::<int>::empty() =~= r@.map_values(
            |u: usize| u as int,
        ));
    }
    r
}

/// Checks whether `pat` occurs somewhere in `text`.
pub fn contains_pattern(text: &str, pat: &str) -> (r: bool)
    ensures
        r == contains_seq(text@, pat@),
{
    let tl = text.unicode_len();
    let pl = pat.unicode_len();
    if pl == 0 {
        proof {
            assert(text@.subrange(0, 0) =~= pat@);
            assert(match_at(text@, pat@, 0));
        }
        return true;
    }
    if pl > tl {
        proof {
            assert(forall|i: int| match_at(text@, pat@, i) ==> i + pl <= tl);
        }
        return false;
    }
    let mut j: usize = 0;
    while j <= tl - pl
        invariant
            tl == text@.len(),
            pl == pat@.len(),
            0 < pl <= tl,
            j <= tl - pl + 1,
            forall|i: int| 0 <= i < j ==> !match_at(text@, pat@, i),
        decreases tl - pl - j + 1,
    {
        if match_at_exec(text, tl, pat, pl, j) {
            return true;
        }
        j = j + 1;
    }
    proof {
        assert(forall|i: int| match_at(text@, pat@, i) ==> 0 <= i && i + pl <= tl);
    }
    false
}

/// The concatenation of a sequence of character sequences, in order.
pub open spec fn concat_all(parts: Seq<Seq<char>>) -> Seq<char>
    decreases parts.len(),
{
    if parts.len() == 0 {
        Seq::empty()
    } else {
        concat_all(parts.drop_last()) + parts.last()
    }
}

/// The start of the stretch of `text` that follows occurrence `k - 1`.
pub open spec fn gap_start(occ: Seq<int>, plen: int, k: int) -> int {
    if k == 0 {
        0
    } else {
        occ[k - 1] + plen
    }
}

/// The end of the stretch of `text` that precedes occurrence `k`.
pub open spec fn gap_end(occ: Seq<int>, tlen: int, k: int) -> int {
    if k < occ.len() {
        occ[k]
    } else {
        tlen
    }
}

/// The stretches of `text` that lie between consecutive occurrences of `pat`.
pub open spec fn gaps(text: Seq<char>, pat: Seq<char>) -> Seq<Seq<char>> {
    Seq::new(
        (occurrences(text, pat, 0).len() + 1) as nat,
        |k: int|
            text.subrange(
                gap_start(occurrences(text, pat, 0), pat.len() as int, k),
                gap_end(occurrences(text, pat, 0), text.len() as int, k),
            ),
    )
}

/// `text` with every occurrence of `pat` removed, scanning left to right
/// without overlap.
pub open spec fn without_pattern(text: Seq<char>, pat: Seq<char>) -> Seq<char> {
    concat_all(gaps(text, pat))
}

/// Removes every occurrence of `pat` from `text`.
#[verifier::rlimit(50)]
pub fn remove_pattern(text: &str, pat: &str) -> (r: String)
    requires
        pat@.len() > 0,
    ensures
        r@ == without_pattern(text@, pat@),
{
    let tl = text.unicode_len();
    let pl = pat.unicode_len();
    let occ = find_occurrences(text, pat);
    proof {
        lemma_occurrences_props(text@, pat@, 0);
    }
    let ghost socc = occurrences(text@, pat@, 0);
    let mut out = String::new();
    let mut k: usize = 0;
    while k < occ.len()
        invariant
            tl == text@.len(),
            pl == pat@.len(),
            0 < pl,
            socc == occurrences(text@, pat@, 0),
            occ@.map_values(|u: usize| u as int) == socc,
            forall|m: int|
                0 <= m < socc.len() ==> 0 <= #[trigger] socc[m] && match_at(text@, pat@, socc[m]),
            forall|m: int| 0 <= m < socc.len() - 1 ==> #[trigger] socc[m] + pl <= socc[m + 1],
            k <= occ.len(),
            out@ == concat_all(gaps(text@, pat@).take(k as int)),
        decreases occ.len() - k,
    {
        proof {
            assert(socc[k as int] == occ@[k as int] as int);
            assert(match_at(text@, pat@, socc[k as int]));
            if k > 0 {
                assert(socc[k - 1] == occ@[k - 1] as int);
                assert(socc[k - 1] + pl <= socc[k as int]);
            }
        }
        let start: usize = if k == 0 {
            0
        } else {
            occ[k - 1] + pl
        };
        let end: usize = occ[k];
        let piece = text.substring_char(start, end);
        out.append(piece);
        proof {
            let g = gaps(text@, pat@);
            assert(g[k as int] == text@.subrange(
                gap_start(socc, pl as int, k as int),
                gap_end(socc, tl as int, k as int),
            ));
            assert(gap_start(socc, pl as int, k as int) == start as int);
            assert(gap_end(socc, tl as int, k as int) == end as int);
            lemma_concat_all_take_step(g, k as int);
        }
        k = k + 1;
    }
    proof {
        if socc.len() > 0 {
            assert(socc[socc.len() - 1] == occ@[socc.len() - 1] as int);
            assert(match_at(text@, pat@, socc[socc.len() - 1]));
        }
    }
    let start: usize = if occ.len() == 0 {
        0
    } else {
        occ[occ.len() - 1] + pl
    };
    let piece = text.substring_char(start, tl);
    out.append(piece);
    proof {
        let g = gaps(text@, pat@);
        assert(g[socc.len() as int] == text@.subrange(
            gap_start(socc, pl as int, socc.len() as int),
            gap_end(socc, tl as int, socc.len() as int),
        ));
        assert(gap_start(socc, pl as int, socc.len() as int) == start as int);
        assert(gap_end(socc, tl as int, socc.len() as int) == tl as int);
        lemma_concat_all_take_step(g, socc.len() as int);
        assert(g.take(socc.len() as int + 1) =~= g);
    }
    out
}

/// The character for a single decimal digit.
pub open spec fn dec_digit(d: int) -> char {
    if d == 0 {
        '0'
    } else if d == 1 {
        '1'
    } else if d == 2 {
        '2'
    } else if d == 3 {
        '3'
    } else if d == 4 {
        '4'
    } else if d == 5 {
        '5'
    } else if d == 6 {
        '6'
    } else if d == 7 {
        '7'
    } else if d == 8 {
        '8'
    } else {
        '9'
    }
}

/// The decimal digits of a nonnegative number, most significant first.
pub open spec fn dec_str(n: int) -> Seq<char>
    decreases n,
{
    if n < 10 {
        seq![dec_digit(n)]
    } else {
        dec_str(n / 10).push(dec_digit(n % 10))
    }
}

/// A one-character string holding the decimal digit `d`.
fn digit_string(d: usize) -> (r: &'static str)
    requires
        d < 10,
    ensures
        r@ == seq![dec_digit(d as int)],
{
    proof {
        reveal_strlit("0");
        reveal_strlit("1");
        reveal_strlit("2");
        reveal_strlit("3");
        reveal_strlit("4");
        reveal_strlit("5");
        reveal_strlit("6");
        reveal_strlit("7");
        reveal_strlit("8");
        reveal_strlit("9");
    }
    if d == 0 {
        "0"
    } else if d == 1 {
        "1"
    } else if d == 2 {
        "2"
    } else if d == 3 {
        "3"
    } else if d == 4 {
        "4"
    } else if d == 5 {
        "5"
    } else if d == 6 {
        "6"
    } else if d == 7 {
        "7"
    } else if d == 8 {
        "8"
    } else {
        "9"
    }
}

/// Renders a number in decimal.
pub fn usize_to_string(n: usize) -> (r: String)
    ensures
        r@ == dec_str(n as int),
    decreases n,
{
    if n < 10 {
        digit_string(n).to_owned()
    } else {
        let q = n / 10;
        let d = n % 10;
        let mut s = usize_to_string(q);
        s.append(digit_string(d));
        proof {
            assert(dec_str(q as int).push(dec_digit(d as int)) =~= dec_str(q as int) + seq![
                dec_digit(d as int),
            ]);
        }
        s
    }
}

/// `s` with every trailing `/` removed.
pub open spec fn trimmed_slashes(s: Seq<char>) -> Seq<char>
    decreases s.len(),
{
    if s.len() > 0 && s.last() == '/' {
        trimmed_slashes(s.drop_last())
    } else {
        s
    }
}

/// Removes every trailing `/` from `s`.
pub fn trim_trailing_slashes(s: &str) -> (r: String)
    ensures
        r@ == trimmed_slashes(s@),
{
    let mut end = s.unicode_len();
    proof {
        assert(s@.take(s@.len() as int) =~= s@);
    }
    while end > 0 && s.get_char(end - 1) == '/'
        invariant
            end <= s@.len(),
            trimmed_slashes(s@) == trimmed_slashes(s@.take(end as int)),
        decreases end,
    {
        proof {
            assert(s@.take(end as int).last() == s@[end - 1]);
            assert(s@.take(end as int).drop_last() =~= s@.take(end - 1));
        }
        end = end - 1;
    }
    proof {
        if end > 0 {
            assert(s@.take(end as int).last() == s@[end - 1]);
        }
        assert(trimmed_slashes(s@.take(end as int)) == s@.take(end as int));
    }
    s.substring_char(0, end).to_owned()
}

} // verus!
