//! Character-level text helpers: whitespace classification, word
//! splitting, trimming and line splitting, each stated over `Seq<char>`.

use vstd::prelude::*;
use vstd::std_specs::iter::IteratorSpec;

verus! {

broadcast use vstd::string::group_string_axioms;

/// Unicode `White_Space`: the characters for which `char::is_whitespace` holds.
pub open spec fn is_ws(c: char) -> bool {
    let u = c as u32;
    ||| 0x09 <= u <= 0x0D
    ||| u == 0x20
    ||| u == 0x85
    ||| u == 0xA0
    ||| u == 0x1680
    ||| 0x2000 <= u <= 0x200A
    ||| u == 0x2028
    ||| u == 0x2029
    ||| u == 0x202F
    ||| u == 0x205F
    ||| u == 0x3000
}

/// Executable form of `is_ws`.
pub fn is_whitespace(c: char) -> (b: bool)
    ensures
        b == is_ws(c),
{
    let u = c as u32;
    (0x09 <= u && u <= 0x0D) || u == 0x20 || u == 0x85 || u == 0xA0 || u == 0x1680 || (0x2000
        <= u && u <= 0x200A) || u == 0x2028 || u == 0x2029 || u == 0x202F || u == 0x205F || u
        == 0x3000
}

/// The characters of `s`, in order.
pub fn chars_of(s: &str) -> (v: Vec<char>)
    ensures
        v@ == s@,
{
    let mut it = s.chars();
    let mut v: Vec<char> = Vec::new();
    loop
        invariant
            v@ + it.remaining() == s@,
            it.obeys_prophetic_iter_laws(),
            it.decrease() is Some,
        decreases it.decrease()->0,
    {
        match it.next() {
            Some(c) => {
                v.push(c);
            },
            None => {
                assert(v@ + seq![] =~= v@);
                return v;
            },
        }
    }
}


/// Length of the longest prefix of `s` in which no character satisfies `stop`.
pub open spec fn run_len(s: Seq<char>, stop: spec_fn(char) -> bool) -> nat
    decreases s.len(),
{
    if s.len() == 0 || stop(s[0]) {
        0
    } else {
        1 + run_len(s.drop_first(), stop)
    }
}

/// The stop predicate of a word: a whitespace character.
pub open spec fn ws_stop() -> spec_fn(char) -> bool {
    |c: char| is_ws(c)
}

/// The stop predicate of a line: a line feed.
pub open spec fn nl_stop() -> spec_fn(char) -> bool {
    |c: char| c == '\n'
}

/// `run_len` is the index of the first stopping character, or the length.
pub proof fn lemma_run_len(s: Seq<char>, stop: spec_fn(char) -> bool, k: int)
    requires
        0 <= k <= s.len(),
        forall|j: int| 0 <= j < k ==> !stop(#[trigger] s[j]),
        k == s.len() || stop(s[k]),
    ensures
        run_len(s, stop) == k,
    decreases k,
{
    if k > 0 {
        assert forall|j: int| 0 <= j < k - 1 implies !stop(#[trigger] s.drop_first()[j]) by {
            assert(s.drop_first()[j] == s[j + 1]);
        }
        lemma_run_len(s.drop_first(), stop, k - 1);
    }
}

/// `run_len` never exceeds the length of the sequence.
pub proof fn lemma_run_len_bound(s: Seq<char>, stop: spec_fn(char) -> bool)
    ensures
        run_len(s, stop) <= s.len(),
    decreases s.len(),
{
    if s.len() > 0 && !stop(s[0]) {
        lemma_run_len_bound(s.drop_first(), stop);
    }
}

/// The whitespace-separated words of `s` (as `str::split_whitespace` yields them):
/// the maximal non-empty runs of non-whitespace characters, in order.
pub open spec fn words(s: Seq<char>) -> Seq<Seq<char>>
    decreases s.len(),
{
    if s.len() == 0 {
        seq![]
    } else if is_ws(s[0]) {
        words(s.drop_first())
    } else {
        let n = run_len(s, ws_stop()) as int;
        proof {
            lemma_run_len_bound(s, ws_stop());
        }
        seq![s.take(n)] + words(s.skip(n))
    }
}

/// `s` without its leading whitespace.
pub open spec fn trim_start(s: Seq<char>) -> Seq<char>
    decreases s.len(),
{
    if s.len() > 0 && is_ws(s[0]) {
        trim_start(s.drop_first())
    } else {
        s
    }
}

/// `s` without its trailing whitespace.
pub open spec fn trim_end(s: Seq<char>) -> Seq<char>
    decreases s.len(),
{
    if s.len() > 0 && is_ws(s.last()) {
        trim_end(s.drop_last())
    } else {
        s
    }
}

/// `s` without leading and trailing whitespace (as `str::trim` returns it).
pub open spec fn trim(s: Seq<char>) -> Seq<char> {
    trim_end(trim_start(s))
}

/// A line that was ended by a line feed loses one carriage return before it.
pub open spec fn strip_cr(x: Seq<char>) -> Seq<char> {
    if x.len() > 0 && x.last() == '\r' {
        x.drop_last()
    } else {
        x
    }
}

/// The lines of `s` (as `str::lines` yields them): split at each line feed,
/// a carriage return right before a line feed dropped, and no empty last line
/// after a final line feed.
pub open spec fn lines(s: Seq<char>) -> Seq<Seq<char>>
    decreases s.len(),
{
    if s.len() == 0 {
        seq![]
    } else {
        let n = run_len(s, nl_stop()) as int;
        if n < s.len() {
            seq![strip_cr(s.take(n))] + lines(s.skip(n + 1))
        } else {
            seq![s]
        }
    }
}

/// The pieces of `s` that a sequence of `(start, end)` character spans cut out.
pub open spec fn span_texts(s: Seq<char>, spans: Seq<(usize, usize)>) -> Seq<Seq<char>> {
    spans.map_values(|p: (usize, usize)| s.subrange(p.0 as int, p.1 as int))
}

/// Every span lies inside a text of length `n`.
pub open spec fn spans_within(spans: Seq<(usize, usize)>, n: int) -> bool {
    forall|k: int| 0 <= k < spans.len() ==> #[trigger] spans[k].0 <= spans[k].1 <= n
}

proof fn lemma_words_skip_ws(s: Seq<char>, i: int)
    requires
        0 <= i < s.len(),
        is_ws(s[i]),
    ensures
        words(s.skip(i)) == words(s.skip(i + 1)),
{
    assert(s.skip(i).drop_first() =~= s.skip(i + 1));
}

proof fn lemma_words_token(s: Seq<char>, start: int, end: int)
    requires
        0 <= start < end <= s.len(),
        forall|j: int| start <= j < end ==> !is_ws(#[trigger] s[j]),
        end == s.len() || is_ws(s[end]),
    ensures
        words(s.skip(start)) == seq![s.subrange(start, end)] + words(s.skip(end)),
{
    let t = s.skip(start);
    assert forall|j: int| 0 <= j < end - start implies !ws_stop()(#[trigger] t[j]) by {
        assert(t[j] == s[start + j]);
    }
    lemma_run_len(t, ws_stop(), end - start);
    assert(t.take(end - start) =~= s.subrange(start, end));
    assert(t.skip(end - start) =~= s.skip(end));
}

/// The spans of the whitespace-separated words of `v`.
pub fn split_whitespace(v: &Vec<char>) -> (spans: Vec<(usize, usize)>)
    ensures
        spans_within(spans@, v@.len() as int),
        span_texts(v@, spans@) == words(v@),
{
    let n = v.len();
    let mut spans: Vec<(usize, usize)> = Vec::new();
    let mut i: usize = 0;
    assert(v@.skip(0) =~= v@);
    while i < n
        invariant
            n == v@.len(),
            i <= n,
            spans_within(spans@, n as int),
            span_texts(v@, spans@) + words(v@.skip(i as int)) == words(v@),
        decreases n - i,
    {
        if is_whitespace(v[i]) {
            proof {
                lemma_words_skip_ws(v@, i as int);
            }
            i = i + 1;
        } else {
            let start = i;
            while i < n && !is_whitespace(v[i])
                invariant
                    n == v@.len(),
                    start < n,
                    start <= i <= n,
                    !is_ws(v@[start as int]),
                    forall|j: int| start <= j < i ==> !is_ws(#[trigger] v@[j]),
                decreases n - i,
            {
                i = i + 1;
            }
            proof {
                lemma_words_token(v@, start as int, i as int);
            }
            let ghost old_spans = spans@;
            spans.push((start, i));
            assert(span_texts(v@, spans@) =~= span_texts(v@, old_spans).push(
                v@.subrange(start as int, i as int),
            ));
        }
    }
    assert(v@.skip(n as int) =~= Seq::<char>::empty());
    assert(span_texts(v@, spans@) + words(v@.skip(n as int)) =~= span_texts(v@, spans@));
    spans
}


/// The span of `trim(v[a..b])` inside `v`.
pub fn trim_span(v: &Vec<char>, a: usize, b: usize) -> (r: (usize, usize))
    requires
        a <= b <= v@.len(),
    ensures
        a <= r.0 <= r.1 <= b,
        v@.subrange(r.0 as int, r.1 as int) == trim(v@.subrange(a as int, b as int)),
{
    let mut i = a;
    while i < b && is_whitespace(v[i])
        invariant
            a <= i <= b <= v@.len(),
            trim_start(v@.subrange(a as int, b as int)) == trim_start(
                v@.subrange(i as int, b as int),
            ),
        decreases b - i,
    {
        assert(v@.subrange(i as int, b as int).drop_first() =~= v@.subrange(
            i + 1,
            b as int,
        ));
        i = i + 1;
    }
    let mut j = b;
    while j > i && is_whitespace(v[j - 1])
        invariant
            a <= i <= j <= b <= v@.len(),
            trim_end(v@.subrange(i as int, b as int)) == trim_end(
                v@.subrange(i as int, j as int),
            ),
        decreases j - i,
    {
        assert(v@.subrange(i as int, j as int).drop_last() =~= v@.subrange(
            i as int,
            j - 1,
        ));
        j = j - 1;
    }
    (i, j)
}

proof fn lemma_lines_step(s: Seq<char>, i: int, k: int)
    requires
        0 <= i <= k <= s.len(),
        i < s.len(),
        forall|j: int| i <= j < k ==> #[trigger] s[j] != '\n',
        k == s.len() || s[k] == '\n',
    ensures
        k < s.len() ==> lines(s.skip(i)) == seq![strip_cr(s.subrange(i, k))] + lines(
            s.skip(k + 1),
        ),
        k == s.len() ==> lines(s.skip(i)) == seq![s.subrange(i, k)],
{
    let t = s.skip(i);
    assert forall|j: int| 0 <= j < k - i implies !nl_stop()(#[trigger] t[j]) by {
        assert(t[j] == s[i + j]);
    }
    lemma_run_len(t, nl_stop(), k - i);
    assert(t.take(k - i) =~= s.subrange(i, k));
    if k < s.len() {
        assert(t.skip(k - i + 1) =~= s.skip(k + 1));
    } else {
        assert(t =~= s.subrange(i, k));
    }
}

/// The spans of the lines of `v`.
pub fn split_lines(v: &Vec<char>) -> (spans: Vec<(usize, usize)>)
    ensures
        spans_within(spans@, v@.len() as int),
        span_texts(v@, spans@) == lines(v@),
{
    let n = v.len();
    let mut spans: Vec<(usize, usize)> = Vec::new();
    let mut i: usize = 0;
    assert(v@.skip(0) =~= v@);
    while i < n
        invariant
            n == v@.len(),
            i <= n,
            spans_within(spans@, n as int),
            span_texts(v@, spans@) + lines(v@.skip(i as int)) == lines(v@),
        decreases n - i,
    {
        let start = i;
        let mut k = i;
        while k < n && v[k] != '\n'
            invariant
                n == v@.len(),
                start < n,
                start <= k <= n,
                forall|j: int| start <= j < k ==> #[trigger] v@[j] != '\n',
            decreases n - k,
        {
            k = k + 1;
        }
        proof {
            lemma_lines_step(v@, start as int, k as int);
        }
        let ghost old_spans = spans@;
        let end;
        if k < n {
            if k > start && v[k - 1] == '\r' {
                end = k - 1;
                assert(v@.subrange(start as int, k as int).drop_last() =~= v@.subrange(
                    start as int,
                    end as int,
                ));
            } else {
                end = k;
            }
            i = k + 1;
        } else {
            end = n;
            i = n;
            assert(v@.skip(n as int) =~= Seq::<char>::empty());
        }
        spans.push((start, end));
        assert(span_texts(v@, spans@) =~= span_texts(v@, old_spans).push(
            v@.subrange(start as int, end as int),
        ));
        assert forall|j: int| 0 <= j < spans@.len() implies #[trigger] spans@[j].0 <= spans@[j].1
            <= n by {
            if j < old_spans.len() {
                assert(spans@[j] == old_spans[j]);
            }
        }
    }
    assert(v@.skip(n as int) =~= Seq::<char>::empty());
    assert(span_texts(v@, spans@) + lines(v@.skip(n as int)) =~= span_texts(v@, spans@));
    spans
}

/// Whether the characters `v[a..b]` are exactly `w`.
pub fn span_eq(v: &Vec<char>, a: usize, b: usize, w: &Vec<char>) -> (r: bool)
    requires
        a <= b <= v@.len(),
    ensures
        r == (v@.subrange(a as int, b as int) == w@),
{
    if b - a != w.len() {
        return false;
    }
    let mut k: usize = 0;
    while k < w.len()
        invariant
            a <= b <= v@.len(),
            b - a == w@.len(),
            k <= w@.len(),
            forall|j: int| 0 <= j < k ==> v@[a + j] == #[trigger] w@[j],
        decreases w@.len() - k,
    {
        if v[a + k] != w[k] {
            assert(v@.subrange(a as int, b as int)[k as int] != w@[k as int]);
            return false;
        }
        k = k + 1;
    }
    assert(v@.subrange(a as int, b as int) =~= w@);
    true
}


/// Text that ends with a line feed (or is empty) and whatever follows it split
/// into lines separately: the lines of the whole are the lines of each, in order.
pub proof fn lemma_lines_concat(a: Seq<char>, b: Seq<char>)
    requires
        a.len() == 0 || a.last() == '\n',
    ensures
        lines(a + b) == lines(a) + lines(b),
    decreases a.len(),
{
    if a.len() == 0 {
        assert(a + b =~= b);
        assert(lines(a) + lines(b) =~= lines(b));
    } else {
        let ab = a + b;
        lemma_run_len_bound(a, nl_stop());
        let n = run_len(a, nl_stop()) as int;
        lemma_run_len_first_stop(a, nl_stop());
        assert forall|j: int| 0 <= j < n implies !nl_stop()(#[trigger] ab[j]) by {
            assert(ab[j] == a[j]);
        }
        lemma_run_len(ab, nl_stop(), n);
        assert(ab.take(n) =~= a.take(n));
        let rest = a.skip(n + 1);
        assert(ab.skip(n + 1) =~= rest + b);
        if rest.len() > 0 {
            assert(rest.last() == a.last());
        }
        lemma_lines_concat(rest, b);
        assert(lines(ab) =~= lines(a) + lines(b));
    }
}

/// `run_len` stops at a stopping character inside the sequence, and no
/// character before it stops.
proof fn lemma_run_len_first_stop(s: Seq<char>, stop: spec_fn(char) -> bool)
    ensures
        run_len(s, stop) <= s.len(),
        run_len(s, stop) < s.len() ==> stop(s[run_len(s, stop) as int]),
        forall|j: int| 0 <= j < run_len(s, stop) ==> !stop(#[trigger] s[j]),
        s.len() > 0 && stop(s.last()) ==> run_len(s, stop) < s.len(),
    decreases s.len(),
{
    if s.len() > 0 && !stop(s[0]) {
        let t = s.drop_first();
        lemma_run_len_first_stop(t, stop);
        assert forall|j: int| 0 <= j < run_len(s, stop) implies !stop(#[trigger] s[j]) by {
            if j > 0 {
                assert(s[j] == t[j - 1]);
            }
        }
        if run_len(s, stop) < s.len() {
            assert(s[run_len(s, stop) as int] == t[run_len(t, stop) as int]);
        }
        if stop(s.last()) && s.len() > 1 {
            assert(t.last() == s.last());
        }
    }
}


/// The characters of Unicode's `White_Space` property, one by one.
pub open spec fn unicode_white_space(c: char) -> bool {
    ||| c == '\t' || c == '\n' || c == '\u{0B}' || c == '\u{0C}' || c == '\r' || c == ' '
    ||| c == '\u{85}' || c == '\u{A0}' || c == '\u{1680}'
    ||| c == '\u{2000}' || c == '\u{2001}' || c == '\u{2002}' || c == '\u{2003}' || c == '\u{2004}'
    ||| c == '\u{2005}' || c == '\u{2006}' || c == '\u{2007}' || c == '\u{2008}' || c == '\u{2009}'
    ||| c == '\u{200A}'
    ||| c == '\u{2028}' || c == '\u{2029}' || c == '\u{202F}' || c == '\u{205F}' || c == '\u{3000}'
}

/// The separators of words and the characters that trimming removes are
/// exactly the Unicode `White_Space` characters; every other character (a
/// letter, a digit, `_`, `-`, `.` and so on) belongs to the text.
pub proof fn law_whitespace_is_unicode_white_space(c: char)
    ensures
        is_ws(c) == unicode_white_space(c),
{
}

/// Whether `w` holds no `White_Space` character.
pub open spec fn no_white_space(w: Seq<char>) -> bool {
    forall|i: int| 0 <= i < w.len() ==> !unicode_white_space(#[trigger] w[i])
}

proof fn lemma_words_single(c: Seq<char>)
    requires
        c.len() > 0,
        no_white_space(c),
    ensures
        words(c) == seq![c],
{
    assert forall|j: int| 0 <= j < c.len() implies !is_ws(#[trigger] c[j]) by {
        law_whitespace_is_unicode_white_space(c[j]);
    }
    lemma_words_token(c, 0, c.len() as int);
    assert(c.skip(0) =~= c);
    assert(c.subrange(0, c.len() as int) =~= c);
    assert(c.skip(c.len() as int) =~= Seq::<char>::empty());
}

proof fn lemma_words_prefix(a: Seq<char>, sep: char, rest: Seq<char>)
    requires
        a.len() > 0,
        no_white_space(a),
        unicode_white_space(sep),
    ensures
        words(a + seq![sep] + rest) == seq![a] + words(rest),
{
    let s = a + seq![sep] + rest;
    law_whitespace_is_unicode_white_space(sep);
    assert forall|j: int| 0 <= j < a.len() implies !is_ws(#[trigger] s[j]) by {
        assert(s[j] == a[j]);
        law_whitespace_is_unicode_white_space(a[j]);
    }
    assert(s[a.len() as int] == sep);
    lemma_words_token(s, 0, a.len() as int);
    assert(s.skip(0) =~= s);
    assert(s.subrange(0, a.len() as int) =~= a);
    lemma_words_skip_ws(s, a.len() as int);
    assert(s.skip(a.len() as int + 1) =~= rest);
}

/// Words free of `White_Space`, separated by spaces, come back as they are:
/// the line `a b c` splits into exactly `a`, `b` and `c`.
pub proof fn law_words_of_spaced_line(a: Seq<char>, b: Seq<char>, c: Seq<char>)
    requires
        a.len() > 0 && b.len() > 0 && c.len() > 0,
        no_white_space(a) && no_white_space(b) && no_white_space(c),
    ensures
        words(a + seq![' '] + b + seq![' '] + c) == seq![a, b, c],
{
    lemma_words_single(c);
    lemma_words_prefix(b, ' ', c);
    assert(a + seq![' '] + b + seq![' '] + c =~= a + seq![' '] + (b + seq![' '] + c));
    lemma_words_prefix(a, ' ', b + seq![' '] + c);
    assert(seq![a] + (seq![b] + seq![c]) =~= seq![a, b, c]);
}

/// Every word is non-empty and free of `White_Space`.
pub proof fn law_words_are_nonblank(s: Seq<char>)
    ensures
        forall|k: int|
            0 <= k < words(s).len() ==> #[trigger] words(s)[k].len() > 0 && no_white_space(
                words(s)[k],
            ),
    decreases s.len(),
{
    if s.len() > 0 {
        if is_ws(s[0]) {
            law_words_are_nonblank(s.drop_first());
            assert(words(s) == words(s.drop_first()));
        } else {
            let n = run_len(s, ws_stop()) as int;
            lemma_run_len_bound(s, ws_stop());
            lemma_run_len_first_stop(s, ws_stop());
            law_words_are_nonblank(s.skip(n));
            assert(!ws_stop()(s[0]));
            assert(n >= 1);
            let w = words(s);
            assert(w == seq![s.take(n)] + words(s.skip(n)));
            assert forall|k: int| 0 <= k < w.len() implies #[trigger] w[k].len() > 0
                && no_white_space(w[k]) by {
                if k == 0 {
                    assert(w[0] == s.take(n));
                    assert forall|i: int| 0 <= i < w[0].len() implies !unicode_white_space(
                        #[trigger] w[0][i],
                    ) by {
                        assert(w[0][i] == s[i]);
                        law_whitespace_is_unicode_white_space(s[i]);
                    }
                } else {
                    assert(w[k] == words(s.skip(n))[k - 1]);
                }
            }
        }
    }
}


proof fn lemma_trim_start(s: Seq<char>) -> (k: int)
    ensures
        0 <= k <= s.len(),
        trim_start(s) == s.skip(k),
        forall|j: int| 0 <= j < k ==> is_ws(#[trigger] s[j]),
        k < s.len() ==> !is_ws(s[k]),
    decreases s.len(),
{
    if s.len() > 0 && is_ws(s[0]) {
        let k1 = lemma_trim_start(s.drop_first());
        assert forall|j: int| 0 <= j < k1 + 1 implies is_ws(#[trigger] s[j]) by {
            if j > 0 {
                assert(s[j] == s.drop_first()[j - 1]);
            }
        }
        assert(s.drop_first().skip(k1) =~= s.skip(k1 + 1));
        if k1 + 1 < s.len() {
            assert(s[k1 + 1] == s.drop_first()[k1]);
        }
        k1 + 1
    } else {
        assert(s.skip(0) =~= s);
        0
    }
}

proof fn lemma_trim_end(s: Seq<char>) -> (k: int)
    ensures
        0 <= k <= s.len(),
        trim_end(s) == s.take(k),
        forall|j: int| k <= j < s.len() ==> is_ws(#[trigger] s[j]),
        k > 0 ==> !is_ws(s[k - 1]),
    decreases s.len(),
{
    if s.len() > 0 && is_ws(s.last()) {
        let k1 = lemma_trim_end(s.drop_last());
        assert forall|j: int| k1 <= j < s.len() implies is_ws(#[trigger] s[j]) by {
            if j < s.len() - 1 {
                assert(s[j] == s.drop_last()[j]);
            }
        }
        assert(s.drop_last().take(k1) =~= s.take(k1));
        if k1 > 0 {
            assert(s[k1 - 1] == s.drop_last()[k1 - 1]);
        }
        k1
    } else {
        assert(s.take(s.len() as int) =~= s);
        s.len() as int
    }
}

/// Trimming removes exactly the `White_Space` at both ends: the result is a
/// contiguous part of the text, everything before and after it is
/// `White_Space`, and it neither starts nor ends with `White_Space`.
pub proof fn law_trim(s: Seq<char>)
    ensures
        exists|a: int|
            0 <= a && a + trim(s).len() <= s.len() && #[trigger] s.subrange(a, a + trim(s).len())
                == trim(s) && (forall|j: int| 0 <= j < a ==> unicode_white_space(#[trigger] s[j]))
                && (forall|j: int|
                a + trim(s).len() <= j < s.len() ==> unicode_white_space(#[trigger] s[j])),
        trim(s).len() > 0 ==> !unicode_white_space(trim(s)[0]) && !unicode_white_space(
            trim(s).last(),
        ),
{
    let a = lemma_trim_start(s);
    let t0 = s.skip(a);
    let b = lemma_trim_end(t0);
    let t = trim(s);
    assert(t == t0.take(b));
    assert(s.subrange(a, a + b) =~= t);
    assert forall|j: int| 0 <= j < a implies unicode_white_space(#[trigger] s[j]) by {
        law_whitespace_is_unicode_white_space(s[j]);
    }
    assert forall|j: int| a + b <= j < s.len() implies unicode_white_space(#[trigger] s[j]) by {
        assert(s[j] == t0[j - a]);
        law_whitespace_is_unicode_white_space(s[j]);
    }
    if t.len() > 0 {
        assert(t[0] == s[a]);
        law_whitespace_is_unicode_white_space(t[0]);
        assert(t.last() == t0[b - 1]);
        law_whitespace_is_unicode_white_space(t.last());
    }
    assert(s.subrange(a, a + t.len()) == t);
}

/// No line contains a line feed.
pub proof fn law_lines_have_no_line_feed(s: Seq<char>)
    ensures
        forall|k: int, j: int|
            0 <= k < lines(s).len() && 0 <= j < lines(s)[k].len() ==> #[trigger] lines(s)[k][j]
                != '\n',
    decreases s.len(),
{
    if s.len() > 0 {
        lemma_run_len_bound(s, nl_stop());
        lemma_run_len_first_stop(s, nl_stop());
        let n = run_len(s, nl_stop()) as int;
        if n < s.len() {
            law_lines_have_no_line_feed(s.skip(n + 1));
            let ls = lines(s);
            assert forall|k: int, j: int|
                0 <= k < ls.len() && 0 <= j < ls[k].len() implies #[trigger] ls[k][j] != '\n' by {
                if k == 0 {
                    assert(ls[0] == strip_cr(s.take(n)));
                    assert(ls[0][j] == s[j]);
                } else {
                    assert(ls[k] == lines(s.skip(n + 1))[k - 1]);
                }
            }
        } else {
            let ls = lines(s);
            assert(ls == seq![s]);
            assert forall|k: int, j: int|
                0 <= k < ls.len() && 0 <= j < ls[k].len() implies #[trigger] ls[k][j] != '\n' by {
                assert(ls[k] == s);
            }
        }
    }
}

} // verus!
