//! Characters and character sequences: white space, trimming, words, case.
//!
//! Everything here is stated over `Seq<char>`, the view of `str` and `String`.

use vstd::prelude::*;

verus! {

/// Whether `c` has the Unicode property White_Space.
pub open spec fn is_space(c: char) -> bool {
    let n = c as u32;
    ||| 0x09 <= n <= 0x0D
    ||| n == 0x20
    ||| n == 0x85
    ||| n == 0xA0
    ||| n == 0x1680
    ||| 0x2000 <= n <= 0x200A
    ||| n == 0x2028
    ||| n == 0x2029
    ||| n == 0x202F
    ||| n == 0x205F
    ||| n == 0x3000
}

/// The first index at or after `from` whose character satisfies `p`, or the
/// length of `s` where no character from `from` on does.
pub open spec fn find_from(s: Seq<char>, p: spec_fn(char) -> bool, from: int) -> int
    decreases s.len() - from,
{
    if 0 <= from < s.len() && !p(s[from]) {
        find_from(s, p, from + 1)
    } else {
        from
    }
}

/// The number of characters that remain of `s` once trailing characters that
/// satisfy `p` are cut off, looking at the first `to` characters only.
pub open spec fn cut_back(s: Seq<char>, p: spec_fn(char) -> bool, to: int) -> int
    decreases to,
{
    if 0 < to <= s.len() && p(s[to - 1]) {
        cut_back(s, p, to - 1)
    } else {
        to
    }
}

/// Where the leading white space of `s` ends.
pub open spec fn trim_start_index(s: Seq<char>) -> int {
    find_from(s, |c: char| !is_space(c), 0)
}

/// Where the trailing white space of `s` begins; never before `trim_start_index`.
pub open spec fn trim_end_index(s: Seq<char>) -> int {
    let a = trim_start_index(s);
    if a >= s.len() {
        a
    } else {
        cut_back(s, |c: char| is_space(c), s.len() as int)
    }
}

/// `s` without its leading and trailing white space.
pub open spec fn trim(s: Seq<char>) -> Seq<char> {
    s.subrange(trim_start_index(s), trim_end_index(s))
}

/// The words of `s` that begin at or after `from`: the maximal runs of
/// characters that are not white space, in order.
pub open spec fn words_from(s: Seq<char>, from: int) -> Seq<Seq<char>>
    decreases s.len() - from,
{
    if 0 <= from <= s.len() {
        let a = find_from(s, |c: char| !is_space(c), from);
        if a < s.len() {
            let b = find_from(s, |c: char| is_space(c), a);
            proof {
                lemma_find_from_bounds(s, |c: char| !is_space(c), from);
                lemma_find_from_bounds(s, |c: char| is_space(c), a);
            }
            seq![s.subrange(a, b)] + words_from(s, b)
        } else {
            Seq::empty()
        }
    } else {
        Seq::empty()
    }
}

/// The words of `s`.
pub open spec fn words(s: Seq<char>) -> Seq<Seq<char>> {
    words_from(s, 0)
}

/// The words `ws`, each two neighbours with one space between them.
pub open spec fn join(ws: Seq<Seq<char>>) -> Seq<char>
    decreases ws.len(),
{
    if ws.len() == 0 {
        Seq::empty()
    } else if ws.len() == 1 {
        ws[0]
    } else {
        join(ws.drop_last()) + seq![' '] + ws.last()
    }
}

/// Whether `c` is a character of ASCII.
pub open spec fn is_ascii(c: char) -> bool {
    c as u32 <= 0x7F
}

/// The lower-case letter for an upper-case letter of ASCII; any other
/// character unchanged.
pub open spec fn ascii_lower(c: char) -> char {
    if 'A' <= c <= 'Z' {
        ((c as u32) + 32) as char
    } else {
        c
    }
}

/// What `str::to_lowercase` returns for the characters `s`: the lower-case
/// mapping of Unicode, which may change the number of characters.
pub uninterp spec fn unicode_lowercase(s: Seq<char>) -> Seq<char>;

/// `s` in lower case: letter by letter where `s` is all ASCII, by the mapping
/// of Unicode otherwise.
pub open spec fn lowercase(s: Seq<char>) -> Seq<char> {
    if forall|i: int| 0 <= i < s.len() ==> is_ascii(#[trigger] s[i]) {
        Seq::new(s.len(), |i: int| ascii_lower(s[i]))
    } else {
        unicode_lowercase(s)
    }
}

/// A word of the input, as the half-open range of its character indices.
#[derive(Clone, Copy, Debug)]
pub struct Span {
    pub start: usize,
    pub end: usize,
}

impl Span {
    /// The characters of `s` that the span covers.
    pub open spec fn of(self, s: Seq<char>) -> Seq<char> {
        s.subrange(self.start as int, self.end as int)
    }

    /// The span is not empty and lies within `s`.
    pub open spec fn within(self, s: Seq<char>) -> bool {
        self.start < self.end <= s.len()
    }
}

/// The characters that each span of `spans` covers in `s`.
pub open spec fn spans_of(spans: Seq<Span>, s: Seq<char>) -> Seq<Seq<char>> {
    Seq::new(spans.len(), |i: int| spans[i].of(s))
}

/// `find_from` lies between `from` and the length of `s`.
pub proof fn lemma_find_from_bounds(s: Seq<char>, p: spec_fn(char) -> bool, from: int)
    requires
        0 <= from <= s.len(),
    ensures
        from <= find_from(s, p, from) <= s.len(),
        find_from(s, p, from) < s.len() ==> p(s[find_from(s, p, from)]),
        forall|i: int| from <= i < find_from(s, p, from) ==> !p(#[trigger] s[i]),
    decreases s.len() - from,
{
    if from < s.len() && !p(s[from]) {
        lemma_find_from_bounds(s, p, from + 1);
    }
}

/// An index that no earlier character from `from` on reaches is what `find_from` returns.
pub proof fn lemma_find_from_is(s: Seq<char>, p: spec_fn(char) -> bool, from: int, at: int)
    requires
        0 <= from <= at <= s.len(),
        forall|i: int| from <= i < at ==> !p(#[trigger] s[i]),
        at < s.len() ==> p(s[at]),
    ensures
        find_from(s, p, from) == at,
    decreases at - from,
{
    if from < at {
        lemma_find_from_is(s, p, from + 1, at);
    }
}

/// `cut_back` lies between zero and `to`.
pub proof fn lemma_cut_back_bounds(s: Seq<char>, p: spec_fn(char) -> bool, to: int)
    requires
        0 <= to <= s.len(),
    ensures
        0 <= cut_back(s, p, to) <= to,
        cut_back(s, p, to) > 0 ==> !p(s[cut_back(s, p, to) - 1]),
        forall|i: int| cut_back(s, p, to) <= i < to ==> p(#[trigger] s[i]),
    decreases to,
{
    if 0 < to && p(s[to - 1]) {
        lemma_cut_back_bounds(s, p, to - 1);
    }
}

/// An index below which the last character fails `p`, with only `p` between it
/// and `to`, is what `cut_back` returns.
pub proof fn lemma_cut_back_is(s: Seq<char>, p: spec_fn(char) -> bool, to: int, at: int)
    requires
        0 <= at <= to <= s.len(),
        forall|i: int| at <= i < to ==> p(#[trigger] s[i]),
        at > 0 ==> !p(s[at - 1]),
    ensures
        cut_back(s, p, to) == at,
    decreases to - at,
{
    if at < to {
        lemma_cut_back_is(s, p, to - 1, at);
    }
}

/// The words from `from` on are the first word, which runs from `start` to
/// `end`, and the words from `end` on.
pub proof fn lemma_words_step(s: Seq<char>, from: int, start: int, end: int)
    requires
        0 <= from <= start < end <= s.len(),
        forall|i: int| from <= i < start ==> is_space(#[trigger] s[i]),
        forall|i: int| start <= i < end ==> !is_space(#[trigger] s[i]),
        end < s.len() ==> is_space(s[end]),
    ensures
        words_from(s, from) == seq![s.subrange(start, end)] + words_from(s, end),
{
    lemma_find_from_is(s, |c: char| !is_space(c), from, start);
    lemma_find_from_is(s, |c: char| is_space(c), start, end);
}

/// No word begins where only white space is left.
pub proof fn lemma_words_end(s: Seq<char>, from: int)
    requires
        0 <= from <= s.len(),
        forall|i: int| from <= i < s.len() ==> is_space(#[trigger] s[i]),
    ensures
        words_from(s, from) == Seq::<Seq<char>>::empty(),
{
    lemma_find_from_is(s, |c: char| !is_space(c), from, s.len() as int);
    assert(words_from(s, from) =~= Seq::<Seq<char>>::empty());
}

/// No word is empty.
pub proof fn lemma_words_from_not_empty(s: Seq<char>, from: int)
    ensures
        forall|i: int| 0 <= i < words_from(s, from).len() ==> (#[trigger] words_from(s, from)[i]).len() > 0,
    decreases s.len() - from,
{
    if 0 <= from <= s.len() {
        let a = find_from(s, |c: char| !is_space(c), from);
        lemma_find_from_bounds(s, |c: char| !is_space(c), from);
        if a < s.len() {
            let b = find_from(s, |c: char| is_space(c), a);
            lemma_find_from_bounds(s, |c: char| is_space(c), a);
            lemma_words_from_not_empty(s, b);
            let rest = words_from(s, b);
            let all = words_from(s, from);
            assert(all == seq![s.subrange(a, b)] + rest);
            assert forall|i: int| 0 <= i < all.len() implies (#[trigger] all[i]).len() > 0 by {
                if i > 0 {
                    assert(all[i] == rest[i - 1]);
                }
            }
        }
    }
}

/// No word of `s` is empty.
pub proof fn lemma_words_not_empty(s: Seq<char>)
    ensures
        forall|i: int| 0 <= i < words(s).len() ==> (#[trigger] words(s)[i]).len() > 0,
{
    lemma_words_from_not_empty(s, 0);
}

/// `s` has a word exactly where something is left of it once trimmed.
pub proof fn lemma_trim_of_words(s: Seq<char>)
    ensures
        words(s).len() > 0 <==> trim(s).len() > 0,
{
    let a = find_from(s, |c: char| !is_space(c), 0);
    lemma_find_from_bounds(s, |c: char| !is_space(c), 0);
    if a < s.len() {
        let b = cut_back(s, |c: char| is_space(c), s.len() as int);
        lemma_cut_back_bounds(s, |c: char| is_space(c), s.len() as int);
        assert(b > a) by {
            if b <= a {
                assert(is_space(s[a]));
            }
        }
        lemma_find_from_bounds(s, |c: char| is_space(c), a);
    }
}

/// Text without white space that is not empty is one word: itself.
pub proof fn lemma_single_word(s: Seq<char>)
    requires
        s.len() > 0,
        forall|i: int| 0 <= i < s.len() ==> !is_space(#[trigger] s[i]),
    ensures
        words(s) == seq![s],
{
    lemma_find_from_is(s, |c: char| !is_space(c), 0, 0);
    lemma_find_from_is(s, |c: char| is_space(c), 0, s.len() as int);
    lemma_find_from_is(s, |c: char| !is_space(c), s.len() as int, s.len() as int);
    assert(s.subrange(0, s.len() as int) =~= s);
    assert(words_from(s, s.len() as int) =~= Seq::<Seq<char>>::empty());
    assert(words(s) =~= seq![s]);
}

/// Text of one word is that word once trimmed.
pub proof fn lemma_one_word_is_trimmed(s: Seq<char>)
    requires
        words(s).len() == 1,
    ensures
        words(s)[0] == trim(s),
{
    let a = find_from(s, |c: char| !is_space(c), 0);
    lemma_find_from_bounds(s, |c: char| !is_space(c), 0);
    let b = find_from(s, |c: char| is_space(c), a);
    lemma_find_from_bounds(s, |c: char| is_space(c), a);
    assert(words_from(s, b).len() == 0);
    let next = find_from(s, |c: char| !is_space(c), b);
    lemma_find_from_bounds(s, |c: char| !is_space(c), b);
    assert(next >= s.len());
    assert forall|i: int| b <= i < s.len() implies is_space(#[trigger] s[i]) by {}
    lemma_cut_back_is(s, |c: char| is_space(c), s.len() as int, b);
}

/// Text that neither begins nor ends with white space is trimmed already.
pub proof fn lemma_trim_is_identity(s: Seq<char>)
    requires
        s.len() > 0 ==> !is_space(s[0]) && !is_space(s[s.len() - 1]),
    ensures
        trim(s) == s,
{
    if s.len() > 0 {
        lemma_find_from_is(s, |c: char| !is_space(c), 0, 0);
        lemma_cut_back_is(s, |c: char| is_space(c), s.len() as int, s.len() as int);
    }
    assert(s.subrange(0, s.len() as int) =~= s);
}

/// Text of ASCII without capital letters is in lower case already.
pub proof fn lemma_lowercase_is_identity(s: Seq<char>)
    requires
        forall|i: int| 0 <= i < s.len() ==> is_ascii(#[trigger] s[i]) && !('A' <= s[i] <= 'Z'),
    ensures
        lowercase(s) == s,
{
    assert(lowercase(s) =~= s);
}

/// Decides `is_space`.
pub fn is_whitespace(c: char) -> (r: bool)
    ensures
        r == is_space(c),
{
    let n: u32 = c as u32;
    (0x09 <= n && n <= 0x0D) || n == 0x20 || n == 0x85 || n == 0xA0 || n == 0x1680 || (0x2000 <= n
        && n <= 0x200A) || n == 0x2028 || n == 0x2029 || n == 0x202F || n == 0x205F || n == 0x3000
}

/// The characters of `s`, in order.
pub fn chars_of(s: &str) -> (v: Vec<char>)
    ensures
        v@ == s@,
{
    let mut v: Vec<char> = Vec::new();
    for c in it: s.chars()
        invariant
            v@ == it.seq().take(it.index() as int),
    {
        v.push(c);
    }
    v
}

/// Calls `String::from_iter` on the characters of a slice: the string that
/// holds exactly these characters, in this order.
#[verifier::external_body]
pub(crate) fn string_of(chars: &[char]) -> (r: String)
    ensures
        r@ == chars@,
{
    String::from_iter(chars)
}

/// Whether `s` holds exactly the characters of `t`.
pub fn same_chars(s: &[char], t: &str) -> (r: bool)
    ensures
        r == (s@ == t@),
{
    let n = s.len();
    let mut i: usize = 0;
    for c in it: t.chars()
        invariant
            n == s.len(),
            i == it.index(),
            i <= n,
            it.seq() == t@,
            forall|j: int| 0 <= j < i ==> s@[j] == t@[j],
    {
        if i >= n || s[i] != c {
            assert(s@ != t@) by {
                if s@ == t@ {
                    assert(s@[i as int] == t@[i as int]);
                }
            }
            return false;
        }
        i += 1;
    }
    assert(i == n ==> s@ =~= t@);
    i == n
}

/// Splits `s` into its words.
pub fn word_spans(s: &[char]) -> (spans: Vec<Span>)
    ensures
        spans_of(spans@, s@) == words(s@),
        forall|i: int| 0 <= i < spans.len() ==> (#[trigger] spans[i]).within(s@),
{
    let n = s.len();
    let mut spans: Vec<Span> = Vec::new();
    let mut pos: usize = 0;
    while pos < n
        invariant
            n == s.len(),
            pos <= n,
            words(s@) == spans_of(spans@, s@) + words_from(s@, pos as int),
            forall|i: int| 0 <= i < spans.len() ==> (#[trigger] spans[i]).within(s@),
        decreases n - pos,
    {
        let ghost from = pos as int;
        let ghost before = spans@;
        let mut a = pos;
        while a < n && is_whitespace(s[a])
            invariant
                n == s.len(),
                pos <= a <= n,
                forall|i: int| pos <= i < a ==> is_space(#[trigger] s@[i]),
            decreases n - a,
        {
            a += 1;
        }
        proof {
            lemma_find_from_is(s@, |c: char| !is_space(c), from, a as int);
        }
        if a < n {
            let mut b = a + 1;
            while b < n && !is_whitespace(s[b])
                invariant
                    n == s.len(),
                    a < b <= n,
                    forall|i: int| a <= i < b ==> !is_space(#[trigger] s@[i]),
                decreases n - b,
            {
                b += 1;
            }
            proof {
                lemma_find_from_is(s@, |c: char| is_space(c), a as int, b as int);
            }
            spans.push(Span { start: a, end: b });
            proof {
                assert(spans_of(spans@, s@) =~= spans_of(before, s@) + seq![s@.subrange(a as int, b as int)]);
                assert(words_from(s@, from) == seq![s@.subrange(a as int, b as int)] + words_from(s@, b as int));
                assert(spans_of(before, s@) + (seq![s@.subrange(a as int, b as int)] + words_from(s@, b as int))
                    =~= spans_of(spans@, s@) + words_from(s@, b as int));
            }
            pos = b;
        } else {
            proof {
                assert(words_from(s@, from) =~= Seq::<Seq<char>>::empty());
                assert(words_from(s@, n as int) =~= Seq::<Seq<char>>::empty());
            }
            pos = n;
        }
    }
    proof {
        assert(words_from(s@, n as int) =~= Seq::<Seq<char>>::empty());
        assert(spans_of(spans@, s@) + Seq::<Seq<char>>::empty() =~= spans_of(spans@, s@));
    }
    spans
}

/// The bounds of `trim`: where the leading white space of `s` ends and where
/// its trailing white space begins.
pub fn trim_bounds(s: &[char]) -> (r: (usize, usize))
    ensures
        r.0 == trim_start_index(s@),
        r.1 == trim_end_index(s@),
        r.0 <= r.1 <= s.len(),
{
    let n = s.len();
    let mut a: usize = 0;
    while a < n && is_whitespace(s[a])
        invariant
            n == s.len(),
            a <= n,
            forall|i: int| 0 <= i < a ==> is_space(#[trigger] s@[i]),
        decreases n - a,
    {
        a += 1;
    }
    proof {
        lemma_find_from_is(s@, |c: char| !is_space(c), 0, a as int);
    }
    if a == n {
        return (a, a);
    }
    let mut b: usize = n;
    while b > a + 1 && is_whitespace(s[b - 1])
        invariant
            n == s.len(),
            a < b <= n,
            !is_space(s@[a as int]),
            forall|i: int| b <= i < n ==> is_space(#[trigger] s@[i]),
        decreases b,
    {
        b -= 1;
    }
    proof {
        lemma_cut_back_is(s@, |c: char| is_space(c), n as int, b as int);
    }
    (a, b)
}

/// Joins the words that `spans[from..to]` cover in `s`, with one space between
/// each two neighbours.
pub fn join_spans(s: &[char], spans: &Vec<Span>, from: usize, to: usize) -> (r: Vec<char>)
    requires
        from <= to <= spans.len(),
        forall|i: int| 0 <= i < spans.len() ==> (#[trigger] spans[i]).within(s@),
    ensures
        r@ == join(spans_of(spans@, s@).subrange(from as int, to as int)),
{
    let ghost ws = spans_of(spans@, s@);
    let mut out: Vec<char> = Vec::new();
    let mut k = from;
    while k < to
        invariant
            from <= k <= to <= spans.len(),
            ws == spans_of(spans@, s@),
            forall|i: int| 0 <= i < spans.len() ==> (#[trigger] spans[i]).within(s@),
            out@ == join(ws.subrange(from as int, k as int)),
        decreases to - k,
    {
        let ghost before = out@;
        if k > from {
            out.push(' ');
        }
        let span = spans[k];
        let mut i = span.start;
        while i < span.end
            invariant
                span.start <= i <= span.end <= s.len(),
                out@ == if k > from {
                    before + seq![' '] + s@.subrange(span.start as int, i as int)
                } else {
                    before + s@.subrange(span.start as int, i as int)
                },
            decreases span.end - i,
        {
            out.push(s[i]);
            i += 1;
        }
        proof {
            let prev = ws.subrange(from as int, k as int);
            let next = ws.subrange(from as int, k as int + 1);
            assert(next.drop_last() =~= prev);
            assert(next.last() == span.of(s@));
            if k == from {
                assert(before =~= Seq::<char>::empty());
                assert(out@ =~= span.of(s@));
            }
        }
        k += 1;
    }
    out
}

/// Decides `ascii_lower`.
pub fn to_ascii_lower(c: char) -> (r: char)
    ensures
        r == ascii_lower(c),
{
    if 'A' <= c && c <= 'Z' {
        ((c as u8) + 32) as char
    } else {
        c
    }
}

/// Calls `str::to_lowercase`. Nothing is claimed of the result but that it
/// depends on the characters of `s` alone.
#[verifier::external_body]
fn to_unicode_lowercase(s: &str) -> (r: String)
    ensures
        r@ == unicode_lowercase(s@),
{
    s.to_lowercase()
}

/// `s` in lower case.
pub fn to_lowercase(s: &[char]) -> (r: Vec<char>)
    ensures
        r@ == lowercase(s@),
{
    let n = s.len();
    let mut out: Vec<char> = Vec::new();
    let mut i: usize = 0;
    while i < n && (s[i] as u32) <= 0x7F
        invariant
            n == s.len(),
            i <= n,
            out@.len() == i,
            forall|j: int| 0 <= j < i ==> is_ascii(#[trigger] s@[j]),
            forall|j: int| 0 <= j < i ==> out@[j] == ascii_lower(s@[j]),
        decreases n - i,
    {
        out.push(to_ascii_lower(s[i]));
        i += 1;
    }
    if i == n {
        assert(out@ =~= lowercase(s@));
        out
    } else {
        assert(!is_ascii(s@[i as int]));
        let whole = string_of(s);
        let lowered = to_unicode_lowercase(whole.as_str());
        chars_of(lowered.as_str())
    }
}

} // verus!
