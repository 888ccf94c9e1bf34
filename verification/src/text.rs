use vstd::prelude::*;

verus! {

/// The characters that Unicode gives the `White_Space` property, which is
/// what `char::is_whitespace` tests.
pub open spec fn is_ws(c: char) -> bool {
    ||| ('\u{9}' <= c && c <= '\u{d}')
    ||| c == ' '
    ||| c == '\u{85}'
    ||| c == '\u{a0}'
    ||| c == '\u{1680}'
    ||| ('\u{2000}' <= c && c <= '\u{200a}')
    ||| c == '\u{2028}'
    ||| c == '\u{2029}'
    ||| c == '\u{202f}'
    ||| c == '\u{205f}'
    ||| c == '\u{3000}'
}

/// Whether `c` is white space.
pub fn is_whitespace_char(c: char) -> (b: bool)
    ensures
        b == is_ws(c),
{
    ('\u{9}' <= c && c <= '\u{d}') || c == ' ' || c == '\u{85}' || c == '\u{a0}' || c
        == '\u{1680}' || ('\u{2000}' <= c && c <= '\u{200a}') || c == '\u{2028}' || c
        == '\u{2029}' || c == '\u{202f}' || c == '\u{205f}' || c == '\u{3000}'
}

/// The characters of `s`, in order.
pub fn chars_of(s: &str) -> (v: Vec<char>)
    ensures
        v@ == s@,
{
    let mut v: Vec<char> = Vec::new();
    for c in it: s.chars()
        invariant
            v@ == it.seq().take(it.index() as int),
    {
        v.push(c);
    }
    v
}

} // verus!

verus! {

/// Index of the first occurrence of `c` in `s`, if any.
pub open spec fn first_index(s: Seq<char>, c: char) -> Option<int>
    decreases s.len(),
{
    if s.len() == 0 {
        None
    } else if s[0] == c {
        Some(0)
    } else {
        match first_index(s.drop_first(), c) {
            Some(k) => Some(k + 1),
            None => None,
        }
    }
}

/// `first_index` finds the least position holding `c`, and finds nothing
/// only where `c` does not occur.
pub proof fn lemma_first_index(s: Seq<char>, c: char)
    ensures
        match first_index(s, c) {
            Some(k) => 0 <= k < s.len() && s[k] == c && forall|j: int| 0 <= j < k ==> s[j] != c,
            None => forall|j: int| 0 <= j < s.len() ==> s[j] != c,
        },
    decreases s.len(),
{
    if s.len() > 0 && s[0] != c {
        lemma_first_index(s.drop_first(), c);
        match first_index(s.drop_first(), c) {
            Some(k) => {
                assert forall|j: int| 0 <= j < k + 1 implies s[j] != c by {
                    if j > 0 {
                        assert(s[j] == s.drop_first()[j - 1]);
                    }
                }
            },
            None => {
                assert forall|j: int| 0 <= j < s.len() implies s[j] != c by {
                    if j > 0 {
                        assert(s[j] == s.drop_first()[j - 1]);
                    }
                }
            },
        }
    }
}

/// `first_index` is `k` when `k` holds the first `c`.
pub proof fn lemma_first_index_is(s: Seq<char>, c: char, k: int)
    requires
        0 <= k < s.len(),
        s[k] == c,
        forall|j: int| 0 <= j < k ==> s[j] != c,
    ensures
        first_index(s, c) == Some(k),
{
    lemma_first_index(s, c);
    match first_index(s, c) {
        Some(i) => {
            if i < k {
                assert(s[i] != c);
            } else if i > k {
                assert(s[k] != c);
            }
        },
        None => {
            assert(s[k] != c);
        },
    }
}

/// `first_index` finds nothing where `c` does not occur.
pub proof fn lemma_first_index_none(s: Seq<char>, c: char)
    requires
        forall|j: int| 0 <= j < s.len() ==> s[j] != c,
    ensures
        first_index(s, c) is None,
{
    lemma_first_index(s, c);
    if let Some(i) = first_index(s, c) {
        assert(s[i] != c);
    }
}

/// The pieces of `s` between occurrences of `sep`, as `str::split` yields
/// them: empty pieces included, and always at least one piece.
pub open spec fn split_seq(s: Seq<char>, sep: char) -> Seq<Seq<char>>
    decreases s.len(),
{
    match first_index(s, sep) {
        None => seq![s],
        Some(k) => {
            proof {
                lemma_first_index(s, sep);
            }
            seq![s.take(k)] + split_seq(s.skip(k + 1), sep)
        },
    }
}

/// Index just past the run of non-white-space characters that starts at `i`.
pub open spec fn run_end(s: Seq<char>, i: int) -> int
    decreases s.len() - i,
{
    if i < 0 || i >= s.len() || is_ws(s[i]) {
        i
    } else {
        run_end(s, i + 1)
    }
}

pub proof fn lemma_run_end(s: Seq<char>, i: int)
    requires
        0 <= i <= s.len(),
    ensures
        i <= run_end(s, i) <= s.len(),
        i < s.len() && !is_ws(s[i]) ==> run_end(s, i) > i,
        forall|j: int| i <= j < run_end(s, i) ==> !is_ws(s[j]),
        run_end(s, i) == s.len() || is_ws(s[run_end(s, i)]),
    decreases s.len() - i,
{
    if i < s.len() && !is_ws(s[i]) {
        lemma_run_end(s, i + 1);
    }
}

/// The run that starts at `i` ends at `k` when `[i, k)` holds no white
/// space and `k` is the end or white space.
pub proof fn lemma_run_end_is(s: Seq<char>, i: int, k: int)
    requires
        0 <= i <= k <= s.len(),
        forall|j: int| i <= j < k ==> !is_ws(#[trigger] s[j]),
        k == s.len() || is_ws(s[k]),
    ensures
        run_end(s, i) == k,
    decreases k - i,
{
    if i < k {
        lemma_run_end_is(s, i + 1, k);
    }
}

/// A word `w`, followed by the end or by white space, is the first of the
/// words from where it starts.
pub proof fn lemma_word_at(s: Seq<char>, i: int, k: int)
    requires
        0 <= i < k <= s.len(),
        forall|j: int| i <= j < k ==> !is_ws(#[trigger] s[j]),
        k == s.len() || is_ws(s[k]),
    ensures
        words_from(s, i) == seq![s.subrange(i, k)] + words_from(s, k),
{
    lemma_run_end_is(s, i, k);
}

/// The white-space separated words of `s` from position `i` on, as
/// `str::split_whitespace` yields them.
pub open spec fn words_from(s: Seq<char>, i: int) -> Seq<Seq<char>>
    decreases s.len() - i,
{
    if i < 0 || i >= s.len() {
        seq![]
    } else if is_ws(s[i]) {
        words_from(s, i + 1)
    } else {
        proof {
            lemma_run_end(s, i);
        }
        seq![s.subrange(i, run_end(s, i))] + words_from(s, run_end(s, i))
    }
}

/// The white-space separated words of `s`.
pub open spec fn words(s: Seq<char>) -> Seq<Seq<char>> {
    words_from(s, 0)
}

/// Position of the first `c` in `v[from..to]`.
pub fn find_char(v: &Vec<char>, from: usize, to: usize, c: char) -> (r: Option<usize>)
    requires
        from <= to <= v@.len(),
    ensures
        match r {
            Some(k) => from <= k < to && first_index(v@.subrange(from as int, to as int), c)
                == Some(k - from),
            None => first_index(v@.subrange(from as int, to as int), c) is None,
        },
{
    let ghost sub = v@.subrange(from as int, to as int);
    proof {
        lemma_first_index(sub, c);
    }
    let mut i = from;
    while i < to
        invariant
            from <= i <= to <= v@.len(),
            sub == v@.subrange(from as int, to as int),
            forall|j: int| from <= j < i ==> v@[j] != c,
        decreases to - i,
    {
        if v[i] == c {
            proof {
                assert(sub[i - from] == c);
                lemma_first_index(sub, c);
                match first_index(sub, c) {
                    Some(k) => {
                        assert(sub[k] == v@[k + from]);
                        assert(k == i - from);
                    },
                    None => {},
                }
            }
            return Some(i);
        }
        i = i + 1;
    }
    proof {
        lemma_first_index(sub, c);
        if let Some(k) = first_index(sub, c) {
            assert(sub[k] == v@[k + from]);
        }
    }
    None
}

/// Span `(a, b)` of the first word of `v` that starts at or after `from`.
pub fn next_word(v: &Vec<char>, from: usize) -> (r: Option<(usize, usize)>)
    requires
        from <= v@.len(),
    ensures
        match r {
            None => words_from(v@, from as int).len() == 0,
            Some((a, b)) => from <= a < b <= v@.len() && words_from(v@, from as int) == seq![
                v@.subrange(a as int, b as int),
            ] + words_from(v@, b as int),
        },
{
    let n = v.len();
    let mut i = from;
    while i < n && is_whitespace_char(v[i])
        invariant
            from <= i <= n == v@.len(),
            words_from(v@, from as int) == words_from(v@, i as int),
        decreases n - i,
    {
        i = i + 1;
    }
    if i == n {
        return None;
    }
    let a = i;
    proof {
        lemma_run_end(v@, a as int);
    }
    i = i + 1;
    while i < n && !is_whitespace_char(v[i])
        invariant
            a < i <= n == v@.len(),
            !is_ws(v@[a as int]),
            run_end(v@, a as int) == run_end(v@, i as int),
        decreases n - i,
    {
        i = i + 1;
    }
    Some((a, i))
}

/// No word holds white space.
pub proof fn lemma_words_have_no_ws(s: Seq<char>, i: int)
    ensures
        forall|k: int, j: int|
            0 <= k < words_from(s, i).len() && 0 <= j < words_from(s, i)[k].len() ==> !is_ws(
                #[trigger] words_from(s, i)[k][j],
            ),
    decreases s.len() - i,
{
    if 0 <= i < s.len() {
        if is_ws(s[i]) {
            lemma_words_have_no_ws(s, i + 1);
            assert(words_from(s, i) == words_from(s, i + 1));
        } else {
            lemma_run_end(s, i);
            let e = run_end(s, i);
            lemma_words_have_no_ws(s, e);
            let ws = words_from(s, i);
            let rest = words_from(s, e);
            assert(ws == seq![s.subrange(i, e)] + rest);
            assert forall|k: int, j: int| 0 <= k < ws.len() && 0 <= j < ws[k].len() implies !is_ws(
                #[trigger] ws[k][j],
            ) by {
                if k == 0 {
                    assert(ws[0][j] == s[i + j]);
                } else {
                    assert(ws[k] == rest[k - 1]);
                }
            }
        }
    }
}

/// No piece of a split holds the separator, and every character of a
/// piece has any property that all characters of `s` have.
pub proof fn lemma_split_pieces(s: Seq<char>, sep: char, keep: spec_fn(char) -> bool)
    requires
        forall|i: int| 0 <= i < s.len() ==> keep(#[trigger] s[i]),
    ensures
        forall|k: int, j: int|
            0 <= k < split_seq(s, sep).len() && 0 <= j < split_seq(s, sep)[k].len() ==> (
            #[trigger] split_seq(s, sep)[k][j]) != sep && keep(split_seq(s, sep)[k][j]),
    decreases s.len(),
{
    lemma_first_index(s, sep);
    let pieces = split_seq(s, sep);
    match first_index(s, sep) {
        None => {
            assert forall|k: int, j: int| 0 <= k < pieces.len() && 0 <= j < pieces[k].len() implies (
            #[trigger] pieces[k][j]) != sep && keep(pieces[k][j]) by {
                assert(pieces[k] == s);
            }
        },
        Some(i) => {
            let tail = s.skip(i + 1);
            assert forall|m: int| 0 <= m < tail.len() implies keep(#[trigger] tail[m]) by {
                assert(tail[m] == s[m + i + 1]);
            }
            let rest = split_seq(tail, sep);
            lemma_split_pieces(tail, sep, keep);
            assert forall|k: int, j: int| 0 <= k < pieces.len() && 0 <= j < pieces[k].len() implies (
            #[trigger] pieces[k][j]) != sep && keep(pieces[k][j]) by {
                if k == 0 {
                    assert(pieces[0][j] == s[j]);
                } else {
                    assert(pieces[k] == rest[k - 1]);
                }
            }
        },
    }
}

/// Every character of `s` is `c`.
pub open spec fn all_char(s: Seq<char>, c: char) -> bool {
    forall|i: int| 0 <= i < s.len() ==> s[i] == c
}

/// `s` holds a run of `k` characters `c` in a row.
pub open spec fn has_run(s: Seq<char>, c: char, k: int) -> bool {
    exists|a: int| 0 <= a && a + k <= s.len() && all_char(#[trigger] s.subrange(a, a + k), c)
}

/// A run holds every shorter run.
pub proof fn lemma_shorter_run(s: Seq<char>, c: char, k: int, m: int)
    requires
        has_run(s, c, k),
        0 <= m <= k,
    ensures
        has_run(s, c, m),
{
    let a = choose|a: int| 0 <= a && a + k <= s.len() && all_char(#[trigger] s.subrange(a, a + k), c);
    let part = s.subrange(a, a + m);
    assert forall|i: int| 0 <= i < m implies #[trigger] part[i] == c by {
        assert(part[i] == s.subrange(a, a + k)[i]);
    }
    assert(all_char(part, c));
}

/// The length of the longest run of `c` in `v`.
pub fn longest_run(v: &Vec<char>, c: char) -> (n: usize)
    ensures
        has_run(v@, c, n as int),
        !has_run(v@, c, n + 1),
{
    let len = v.len();
    let mut longest: usize = 0;
    let mut cur: usize = 0;
    let mut i: usize = 0;
    let ghost mut best: int = 0;
    assert(all_char(v@.subrange(0, 0), c));
    while i < len
        invariant
            len == v@.len(),
            i <= len,
            cur <= i,
            cur <= longest,
            all_char(v@.subrange(i - cur, i as int), c),
            i - cur == 0 || v@[i - cur - 1] != c,
            0 <= best && best + longest <= i,
            all_char(v@.subrange(best, best + longest), c),
            forall|a: int|
                0 <= a && a + longest + 1 <= i ==> !all_char(
                    #[trigger] v@.subrange(a, a + longest + 1),
                    c,
                ),
        decreases len - i,
    {
        let ghost old_longest = longest;
        let ghost old_cur = cur;
        if v[i] == c {
            cur = cur + 1;
            let ghost run = v@.subrange(i + 1 - cur, i + 1);
            assert forall|j: int| 0 <= j < cur implies #[trigger] run[j] == c by {
                if j < cur - 1 {
                    assert(run[j] == v@.subrange(i - old_cur, i as int)[j]);
                }
            }
            if cur > longest {
                longest = cur;
                proof {
                    best = i + 1 - cur;
                }
            }
        } else {
            cur = 0;
        }
        proof {
            let l = longest as int;
            assert forall|a: int| 0 <= a && a + l + 1 <= i + 1 implies !all_char(
                #[trigger] v@.subrange(a, a + l + 1),
                c,
            ) by {
                let w = v@.subrange(a, a + l + 1);
                if all_char(w, c) {
                    if l > old_longest {
                        // a shorter all-`c` window would end before `i`
                        let u = v@.subrange(a, a + old_longest + 1);
                        assert forall|j: int| 0 <= j < old_longest + 1 implies #[trigger] u[j] == c by {
                            assert(u[j] == w[j]);
                        }
                        if a + old_longest + 1 <= i {
                            assert(!all_char(u, c));
                        } else {
                            // the window ends at `i + 1`, so it covers the character before the run
                            assert(w[i - old_cur - 1 - a] == v@[i - old_cur - 1]);
                        }
                    } else if a + l + 1 <= i {
                    } else if v@[i as int] != c {
                        assert(w[i - a] == v@[i as int]);
                    } else {
                        assert(w[i - old_cur - 1 - a] == v@[i - old_cur - 1]);
                    }
                }
            }
        }
        i = i + 1;
    }
    proof {
        assert(all_char(v@.subrange(best, best + longest), c));
        assert forall|a: int| 0 <= a && a + (longest + 1) <= v@.len() implies !all_char(
            #[trigger] v@.subrange(a, a + (longest + 1)),
            c,
        ) by {
            assert(v@.subrange(a, a + (longest + 1)) == v@.subrange(a, a + longest + 1));
        }
    }
    longest
}

} // verus!
