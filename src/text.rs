//! Character-level text handling for the IRC wire format: whitespace tokens,
//! hostmask sections, joining and the trailing `:` parameter.
use vstd::prelude::*;

verus! {

/// The Unicode `White_Space` property, the set that `char::is_whitespace` tests.
pub open spec fn is_space(c: char) -> bool {
    let n = c as u32;
    (9 <= n && n <= 13) || n == 32 || n == 0x85 || n == 0xa0 || n == 0x1680 || (0x2000 <= n && n
        <= 0x200a) || n == 0x2028 || n == 0x2029 || n == 0x202f || n == 0x205f || n == 0x3000
}

/// The separators of a hostmask: `nick!user@host`.
pub open spec fn is_mark(c: char) -> bool {
    c == '!' || c == '@'
}

/// The views of a sequence of strings.
pub open spec fn strs(v: Seq<String>) -> Seq<Seq<char>> {
    v.map_values(|s: String| s@)
}

/// The maximal runs of non-whitespace characters of `s`, in order
/// (what `str::split_whitespace` yields).
pub open spec fn tokens(s: Seq<char>) -> Seq<Seq<char>>
    decreases s.len(),
{
    if s.len() == 0 {
        seq![]
    } else {
        let r = tokens(s.drop_last());
        let c = s.last();
        if is_space(c) {
            r
        } else if s.len() >= 2 && !is_space(s[s.len() - 2]) {
            r.update(r.len() - 1, r.last().push(c))
        } else {
            r.push(seq![c])
        }
    }
}

/// The pieces of `s` between hostmask separators; there is always at least one.
pub open spec fn sections(s: Seq<char>) -> Seq<Seq<char>>
    decreases s.len(),
{
    if s.len() == 0 {
        seq![seq![]]
    } else {
        let r = sections(s.drop_last());
        if is_mark(s.last()) {
            r.push(seq![])
        } else {
            r.update(r.len() - 1, r.last().push(s.last()))
        }
    }
}

/// The pieces of `s` between occurrences of `sep`; there is always at least one.
pub open spec fn pieces(s: Seq<char>, sep: char) -> Seq<Seq<char>>
    decreases s.len(),
{
    if s.len() == 0 {
        seq![seq![]]
    } else {
        let r = pieces(s.drop_last(), sep);
        if s.last() == sep {
            r.push(seq![])
        } else {
            r.update(r.len() - 1, r.last().push(s.last()))
        }
    }
}

/// The number of `#` characters in `s`.
pub open spec fn hash_count(s: Seq<char>) -> nat
    decreases s.len(),
{
    if s.len() == 0 {
        0
    } else {
        hash_count(s.drop_last()) + if s.last() == '#' {
            1nat
        } else {
            0nat
        }
    }
}

/// The index of the first `#` of `s`, or its length when it holds none.
pub open spec fn first_hash(s: Seq<char>) -> int
    decreases s.len(),
{
    if s.len() == 0 {
        0
    } else if s[0] == '#' {
        0
    } else {
        1 + first_hash(s.drop_first())
    }
}

/// The words of `ws` separated by single spaces.
pub open spec fn join(ws: Seq<Seq<char>>) -> Seq<char>
    decreases ws.len(),
{
    if ws.len() == 0 {
        seq![]
    } else if ws.len() == 1 {
        ws[0]
    } else {
        join(ws.drop_last()) + seq![' '] + ws.last()
    }
}

/// What follows the first `:` of `s`; empty when `s` holds none.
pub open spec fn after_colon(s: Seq<char>) -> Seq<char>
    decreases s.len(),
{
    if s.len() == 0 {
        seq![]
    } else if s[0] == ':' {
        s.drop_first()
    } else {
        after_colon(s.drop_first())
    }
}

/// Characters none of which is whitespace.
pub open spec fn spaceless(w: Seq<char>) -> bool {
    forall|i: int| 0 <= i < w.len() ==> !is_space(#[trigger] w[i])
}

/// A non-empty run of characters without whitespace.
pub open spec fn is_word(w: Seq<char>) -> bool {
    w.len() > 0 && spaceless(w)
}

/// Characters that are neither whitespace nor hostmask separators (possibly none).
pub open spec fn is_atom(w: Seq<char>) -> bool {
    forall|i: int| 0 <= i < w.len() ==> !is_space(#[trigger] w[i]) && !is_mark(w[i])
}

/// Text that survives splitting into words and joining them again: its only
/// whitespace is single spaces between non-whitespace characters.
pub open spec fn is_text(s: Seq<char>) -> bool {
    forall|i: int|
        0 <= i < s.len() && is_space(#[trigger] s[i]) ==> s[i] == ' ' && 0 < i < s.len() - 1
            && !is_space(s[i + 1])
}

pub open spec fn word_at(ws: Seq<Seq<char>>, i: int) -> Seq<char> {
    if 0 <= i < ws.len() {
        ws[i]
    } else {
        seq![]
    }
}

/// The words of `ws` from index `i` on, joined by single spaces.
pub open spec fn rest_from(ws: Seq<Seq<char>>, i: int) -> Seq<char> {
    if 0 <= i <= ws.len() {
        join(ws.skip(i))
    } else {
        seq![]
    }
}

pub proof fn lemma_tokens_grow(s: Seq<char>)
    requires
        s.len() > 0,
    ensures
        tokens(s).len() >= tokens(s.drop_last()).len(),
        !is_space(s.last()) ==> tokens(s).len() > 0,
    decreases s.len(),
{
    let c = s.last();
    if !is_space(c) && s.len() >= 2 && !is_space(s[s.len() - 2]) {
        let p = s.drop_last();
        assert(p.last() == s[s.len() - 2]);
        lemma_tokens_grow(p);
    }
}

pub proof fn lemma_tokens_some(s: Seq<char>, i: int)
    requires
        0 <= i < s.len(),
        !is_space(s[i]),
    ensures
        tokens(s).len() > 0,
    decreases s.len(),
{
    lemma_tokens_grow(s);
    if i < s.len() - 1 {
        lemma_tokens_some(s.drop_last(), i);
    }
}

pub proof fn lemma_sections_some(s: Seq<char>)
    ensures
        sections(s).len() >= 1,
    decreases s.len(),
{
    if s.len() > 0 {
        lemma_sections_some(s.drop_last());
    }
}

/// A space splits the tokens of the text around it.
pub proof fn lemma_tokens_concat(a: Seq<char>, b: Seq<char>)
    ensures
        tokens(a + seq![' '] + b) == tokens(a) + tokens(b),
    decreases b.len(),
{
    let s = a + seq![' '] + b;
    if b.len() == 0 {
        assert(s.drop_last() =~= a);
        assert(tokens(b) =~= seq![]);
        assert(tokens(a) + tokens(b) =~= tokens(a));
    } else {
        let b1 = b.drop_last();
        assert(s.drop_last() =~= a + seq![' '] + b1);
        lemma_tokens_concat(a, b1);
        let c = b.last();
        assert(s.last() == c);
        if is_space(c) {
        } else if s.len() >= 2 && !is_space(s[s.len() - 2]) {
            assert(b.len() >= 2);
            assert(s[s.len() - 2] == b[b.len() - 2]);
            assert(b1.last() == b[b.len() - 2]);
            lemma_tokens_grow(b1);
            assert(tokens(s) =~= tokens(a) + tokens(b));
        } else {
            if b.len() >= 2 {
                assert(s[s.len() - 2] == b[b.len() - 2]);
            }
            assert(tokens(s) =~= tokens(a) + tokens(b));
        }
    }
}

/// A word is its own single token.
pub proof fn lemma_tokens_word(w: Seq<char>)
    requires
        is_word(w),
    ensures
        tokens(w) == seq![w],
    decreases w.len(),
{
    let p = w.drop_last();
    if w.len() == 1 {
        assert(tokens(p) =~= seq![]);
        assert(seq![w.last()] =~= w);
        assert(tokens(w) =~= seq![w]);
    } else {
        assert(is_word(p) && p.last() == w[w.len() - 2]);
        lemma_tokens_word(p);
        assert(p.push(w.last()) =~= w);
        assert(tokens(w) =~= seq![w]);
    }
}

/// Joining the tokens of a text gives the text back.
pub proof fn lemma_join_tokens(s: Seq<char>)
    requires
        is_text(s),
    ensures
        join(tokens(s)) == s,
    decreases s.len(),
{
    if s.len() == 0 {
        assert(join(tokens(s)) =~= s);
    } else {
        let n = s.len();
        let c = s.last();
        assert(!is_space(c)) by {
            if is_space(c) {
                assert(is_space(s[n - 1]));
            }
        }
        let p = s.drop_last();
        if n == 1 {
            assert(tokens(p) =~= seq![]);
            assert(join(tokens(s)) =~= s);
        } else if !is_space(s[n - 2]) {
            assert(is_text(p)) by {
                assert forall|i: int| 0 <= i < p.len() && is_space(#[trigger] p[i]) implies p[i]
                    == ' ' && 0 < i < p.len() - 1 && !is_space(p[i + 1]) by {
                    assert(p[i] == s[i]);
                    assert(s[i + 1] == p[i + 1] || i + 1 == n - 1);
                }
            }
            assert(p.last() == s[n - 2]);
            lemma_tokens_grow(p);
            lemma_join_tokens(p);
            let r = tokens(p);
            let r2 = r.update(r.len() - 1, r.last().push(c));
            assert(tokens(s) == r2);
            if r.len() == 1 {
                assert(join(r2) =~= s);
            } else {
                assert(r2.drop_last() =~= r.drop_last());
                assert(join(r) == join(r.drop_last()) + seq![' '] + r.last());
                assert(r2.last() == r.last().push(c));
                assert(p.push(c) =~= s);
                assert(join(r2) =~= s);
            }
        } else {
            assert(is_space(s[n - 2]));
            assert(s[n - 2] == ' ' && n >= 3);
            let q = s.take(n - 2);
            assert(is_text(q)) by {
                assert forall|i: int| 0 <= i < q.len() && is_space(#[trigger] q[i]) implies q[i]
                    == ' ' && 0 < i < q.len() - 1 && !is_space(q[i + 1]) by {
                    assert(q[i] == s[i]);
                    assert(i + 1 < n - 2 ==> q[i + 1] == s[i + 1]);
                    if i + 1 == n - 2 {
                        assert(is_space(s[i + 1]));
                    }
                }
            }
            assert(p.drop_last() =~= q);
            assert(p.last() == s[n - 2]);
            assert(tokens(p) == tokens(q));
            assert(q.last() == s[n - 3]);
            assert(!is_space(s[n - 3])) by {
                assert(is_space(s[n - 2]));
            }
            lemma_tokens_grow(q);
            lemma_join_tokens(q);
            let r = tokens(q);
            assert(tokens(s) == r.push(seq![c]));
            assert(r.push(seq![c]).drop_last() =~= r);
            assert(join(tokens(s)) =~= s);
        }
    }
}

/// A separator splits the sections of the text around it.
pub proof fn lemma_sections_concat(a: Seq<char>, m: char, b: Seq<char>)
    requires
        is_mark(m),
    ensures
        sections(a + seq![m] + b) == sections(a) + sections(b),
    decreases b.len(),
{
    let s = a + seq![m] + b;
    if b.len() == 0 {
        assert(s.drop_last() =~= a);
        assert(sections(a) + sections(b) =~= sections(a).push(seq![]));
    } else {
        let b1 = b.drop_last();
        assert(s.drop_last() =~= a + seq![m] + b1);
        lemma_sections_concat(a, m, b1);
        lemma_sections_some(b1);
        assert(s.last() == b.last());
        assert(sections(s) =~= sections(a) + sections(b));
    }
}

/// Text without separators is a single section.
pub proof fn lemma_sections_plain(w: Seq<char>)
    requires
        forall|i: int| 0 <= i < w.len() ==> !is_mark(#[trigger] w[i]),
    ensures
        sections(w) == seq![w],
    decreases w.len(),
{
    if w.len() == 0 {
        assert(w =~= seq![]);
        assert(sections(w) =~= seq![w]);
    } else {
        let p = w.drop_last();
        lemma_sections_plain(p);
        assert(!is_mark(w[w.len() - 1]));
        assert(sections(w) == sections(p).update(0, p.push(w.last())));
        assert(p.push(w.last()) =~= w);
        let u = sections(p).update(0, w);
        assert(u.len() == 1 && u[0] == w);
        assert(u =~= seq![w]);
    }
}

/// Whether `c` is whitespace, as `char::is_whitespace` decides it.
pub fn is_space_char(c: char) -> (r: bool)
    ensures
        r == is_space(c),
{
    let n = c as u32;
    (9 <= n && n <= 13) || n == 32 || n == 0x85 || n == 0xa0 || n == 0x1680 || (0x2000 <= n && n
        <= 0x200a) || n == 0x2028 || n == 0x2029 || n == 0x202f || n == 0x205f || n == 0x3000
}

/// Whether two strings hold the same characters.
pub fn same_text(a: &str, b: &str) -> (r: bool)
    ensures
        r == (a@ == b@),
{
    let n = a.unicode_len();
    if n != b.unicode_len() {
        return false;
    }
    let mut i: usize = 0;
    while i < n
        invariant
            n == a@.len(),
            n == b@.len(),
            i <= n,
            a@.take(i as int) =~= b@.take(i as int),
        decreases n - i,
    {
        if a.get_char(i) != b.get_char(i) {
            return false;
        }
        assert(a@.take(i + 1) =~= a@.take(i as int).push(a@[i as int]));
        assert(b@.take(i + 1) =~= b@.take(i as int).push(b@[i as int]));
        i = i + 1;
    }
    assert(a@ =~= a@.take(n as int));
    assert(b@ =~= b@.take(n as int));
    true
}

/// Splits `s` at whitespace into its non-empty words.
pub fn split_words(s: &str) -> (r: Vec<String>)
    ensures
        strs(r@) == tokens(s@),
{
    let n = s.unicode_len();
    let mut r: Vec<String> = Vec::new();
    let mut start: usize = 0;
    let mut in_word = false;
    let mut i: usize = 0;
    while i < n
        invariant
            n == s@.len(),
            i <= n,
            start <= i,
            in_word ==> i > 0 && start < i && !is_space(s@[i - 1]),
            in_word ==> strs(r@).push(s@.subrange(start as int, i as int)) == tokens(
                s@.take(i as int),
            ),
            !in_word ==> strs(r@) == tokens(s@.take(i as int)),
            !in_word && i > 0 ==> is_space(s@[i - 1]),
        decreases n - i,
    {
        let c = s.get_char(i);
        let ghost t = s@.take(i + 1);
        assert(t.drop_last() =~= s@.take(i as int));
        assert(t.last() == c);
        if is_space_char(c) {
            if in_word {
                let w = String::from_str(s.substring_char(start, i));
                let ghost r0 = r@;
                r.push(w);
                assert(strs(r@) =~= strs(r0).push(w@));
                in_word = false;
            }
        } else {
            if in_word {
                assert(t[t.len() - 2] == s@[i - 1]);
                assert(s@.subrange(start as int, i + 1) =~= s@.subrange(start as int, i as int).push(c));
                assert(strs(r@).push(s@.subrange(start as int, i + 1)) =~= tokens(t));
            } else {
                if i > 0 {
                    assert(t[t.len() - 2] == s@[i - 1]);
                }
                assert(s@.subrange(i as int, i + 1) =~= seq![c]);
                start = i;
                in_word = true;
            }
        }
        i = i + 1;
    }
    assert(s@.take(n as int) =~= s@);
    if in_word {
        let w = String::from_str(s.substring_char(start, n));
        let ghost r0 = r@;
        r.push(w);
        assert(strs(r@) =~= strs(r0).push(w@));
    }
    r
}

pub proof fn lemma_spaceless_concat(a: Seq<char>, b: Seq<char>)
    requires
        spaceless(a),
        spaceless(b),
    ensures
        spaceless(a + b),
{
    assert forall|i: int| 0 <= i < (a + b).len() implies !is_space(#[trigger] (a + b)[i]) by {
        if i < a.len() {
            assert((a + b)[i] == a[i]);
        } else {
            assert((a + b)[i] == b[i - a.len()]);
        }
    }
}

pub proof fn lemma_markless_concat(a: Seq<char>, b: Seq<char>)
    requires
        forall|i: int| 0 <= i < a.len() ==> !is_mark(#[trigger] a[i]),
        forall|i: int| 0 <= i < b.len() ==> !is_mark(#[trigger] b[i]),
    ensures
        forall|i: int| 0 <= i < (a + b).len() ==> !is_mark(#[trigger] (a + b)[i]),
{
    assert forall|i: int| 0 <= i < (a + b).len() implies !is_mark(#[trigger] (a + b)[i]) by {
        if i < a.len() {
            assert((a + b)[i] == a[i]);
        } else {
            assert((a + b)[i] == b[i - a.len()]);
        }
    }
}

/// The first token of a text that opens with a non-whitespace character
/// opens with that character.
pub proof fn lemma_first_token(s: Seq<char>)
    requires
        s.len() > 0,
        !is_space(s[0]),
    ensures
        tokens(s).len() > 0,
        tokens(s)[0].len() > 0,
        tokens(s)[0][0] == s[0],
    decreases s.len(),
{
    if s.len() > 1 {
        let p = s.drop_last();
        lemma_first_token(p);
        lemma_tokens_grow(s);
    } else {
        assert(tokens(s.drop_last()) =~= seq![]);
    }
}

pub proof fn lemma_first_hash_bound(s: Seq<char>)
    ensures
        0 <= first_hash(s) <= s.len(),
        first_hash(s) < s.len() ==> s[first_hash(s)] == '#',
        forall|i: int| 0 <= i < first_hash(s) ==> s[i] != '#',
    decreases s.len(),
{
    if s.len() > 0 && s[0] != '#' {
        lemma_first_hash_bound(s.drop_first());
        assert forall|i: int| 0 <= i < first_hash(s) implies s[i] != '#' by {
            if i > 0 {
                assert(s[i] == s.drop_first()[i - 1]);
            }
        }
    }
}

pub proof fn lemma_hash_count_concat(a: Seq<char>, b: Seq<char>)
    ensures
        hash_count(a + b) == hash_count(a) + hash_count(b),
    decreases b.len(),
{
    if b.len() == 0 {
        assert(a + b =~= a);
    } else {
        assert((a + b).drop_last() =~= a + b.drop_last());
        assert((a + b).last() == b.last());
        lemma_hash_count_concat(a, b.drop_last());
    }
}

pub proof fn lemma_no_hash(a: Seq<char>)
    requires
        hash_count(a) == 0,
    ensures
        forall|i: int| 0 <= i < a.len() ==> a[i] != '#',
    decreases a.len(),
{
    if a.len() > 0 {
        lemma_no_hash(a.drop_last());
        assert forall|i: int| 0 <= i < a.len() implies a[i] != '#' by {
            if i < a.len() - 1 {
                assert(a[i] == a.drop_last()[i]);
            }
        }
    }
}

pub proof fn lemma_first_hash_after(a: Seq<char>, b: Seq<char>)
    requires
        forall|i: int| 0 <= i < a.len() ==> a[i] != '#',
    ensures
        first_hash(a + b) == a.len() + first_hash(b),
    decreases a.len(),
{
    if a.len() == 0 {
        assert(a + b =~= b);
    } else {
        assert((a + b)[0] == a[0]);
        assert((a + b).drop_first() =~= a.drop_first() + b);
        lemma_first_hash_after(a.drop_first(), b);
    }
}

/// Splits `s` at each occurrence of `sep`.
pub fn split_on(s: &str, sep: char) -> (r: Vec<String>)
    ensures
        strs(r@) == pieces(s@, sep),
{
    let n = s.unicode_len();
    let mut r: Vec<String> = Vec::new();
    let mut start: usize = 0;
    let mut i: usize = 0;
    assert(s@.take(0) =~= seq![]);
    assert(strs(r@) =~= seq![]);
    assert(s@.subrange(0, 0) =~= seq![]);
    while i < n
        invariant
            n == s@.len(),
            start <= i <= n,
            strs(r@).push(s@.subrange(start as int, i as int)) == pieces(s@.take(i as int), sep),
        decreases n - i,
    {
        let c = s.get_char(i);
        let ghost t = s@.take(i + 1);
        assert(t.drop_last() =~= s@.take(i as int));
        assert(t.last() == c);
        if c == sep {
            let w = String::from_str(s.substring_char(start, i));
            let ghost r0 = r@;
            r.push(w);
            assert(strs(r@) =~= strs(r0).push(w@));
            assert(s@.subrange(i + 1, i + 1) =~= seq![]);
            start = i + 1;
        } else {
            assert(s@.subrange(start as int, i + 1) =~= s@.subrange(start as int, i as int).push(c));
            assert(strs(r@).push(s@.subrange(start as int, i + 1)) =~= pieces(t, sep));
        }
        i = i + 1;
    }
    assert(s@.take(n as int) =~= s@);
    let w = String::from_str(s.substring_char(start, n));
    let ghost r0 = r@;
    r.push(w);
    assert(strs(r@) =~= strs(r0).push(w@));
    r
}

/// The number of `#` characters in `s`.
pub fn count_hashes(s: &str) -> (r: usize)
    ensures
        r == hash_count(s@),
{
    let n = s.unicode_len();
    let mut k: usize = 0;
    let mut i: usize = 0;
    assert(s@.take(0) =~= seq![]);
    while i < n
        invariant
            n == s@.len(),
            i <= n,
            k == hash_count(s@.take(i as int)),
            k <= i,
        decreases n - i,
    {
        let ghost t = s@.take(i + 1);
        assert(t.drop_last() =~= s@.take(i as int));
        if s.get_char(i) == '#' {
            k = k + 1;
        }
        i = i + 1;
    }
    assert(s@.take(n as int) =~= s@);
    k
}

/// The index of the first `#` of `s`, or its length when it holds none.
pub fn find_hash(s: &str) -> (r: usize)
    ensures
        r == first_hash(s@),
{
    let n = s.unicode_len();
    let mut i: usize = 0;
    assert(s@.skip(0) =~= s@);
    while i < n
        invariant
            n == s@.len(),
            i <= n,
            first_hash(s@) == i + first_hash(s@.skip(i as int)),
        decreases n - i,
    {
        let ghost t = s@.skip(i as int);
        assert(t[0] == s@[i as int]);
        assert(t.drop_first() =~= s@.skip(i + 1));
        if s.get_char(i) == '#' {
            return i;
        }
        i = i + 1;
    }
    assert(s@.skip(n as int) =~= seq![]);
    i
}

/// Splits `s` at each `!` and `@`.
pub fn split_marks(s: &str) -> (r: Vec<String>)
    ensures
        strs(r@) == sections(s@),
{
    let n = s.unicode_len();
    let mut r: Vec<String> = Vec::new();
    let mut start: usize = 0;
    let mut i: usize = 0;
    assert(s@.take(0) =~= seq![]);
    assert(strs(r@) =~= seq![]);
    assert(s@.subrange(0, 0) =~= seq![]);
    while i < n
        invariant
            n == s@.len(),
            start <= i <= n,
            strs(r@).push(s@.subrange(start as int, i as int)) == sections(s@.take(i as int)),
        decreases n - i,
    {
        let c = s.get_char(i);
        let ghost t = s@.take(i + 1);
        assert(t.drop_last() =~= s@.take(i as int));
        assert(t.last() == c);
        if c == '!' || c == '@' {
            let w = String::from_str(s.substring_char(start, i));
            let ghost r0 = r@;
            r.push(w);
            assert(strs(r@) =~= strs(r0).push(w@));
            assert(s@.subrange(i + 1, i + 1) =~= seq![]);
            start = i + 1;
        } else {
            assert(s@.subrange(start as int, i + 1) =~= s@.subrange(start as int, i as int).push(c));
            assert(strs(r@).push(s@.subrange(start as int, i + 1)) =~= sections(t));
        }
        i = i + 1;
    }
    assert(s@.take(n as int) =~= s@);
    let w = String::from_str(s.substring_char(start, n));
    let ghost r0 = r@;
    r.push(w);
    assert(strs(r@) =~= strs(r0).push(w@));
    r
}

/// The words of `ws` from index `from` on, joined by single spaces.
pub fn join_from(ws: &Vec<String>, from: usize) -> (r: String)
    ensures
        r@ == rest_from(strs(ws@), from as int),
{
    let mut r = String::new();
    if from > ws.len() {
        return r;
    }
    let ghost v = strs(ws@);
    let mut i: usize = from;
    while i < ws.len()
        invariant
            v == strs(ws@),
            from <= i <= ws.len(),
            r@ == join(v.subrange(from as int, i as int)),
        decreases ws.len() - i,
    {
        let ghost sub = v.subrange(from as int, i + 1);
        assert(sub.drop_last() =~= v.subrange(from as int, i as int));
        assert(sub.last() == ws@[i as int]@);
        if i > from {
            r.append(" ");
            proof {
                reveal_strlit(" ");
                assert(" "@ =~= seq![' ']);
            }
        } else {
            assert(v.subrange(from as int, i as int) =~= seq![]);
        }
        r.append(ws[i].as_str());
        i = i + 1;
    }
    assert(v.subrange(from as int, ws.len() as int) =~= v.skip(from as int));
    r
}

/// The word of `ws` at index `i`, or an empty string past the end.
pub fn word_or_empty(ws: &Vec<String>, i: usize) -> (r: String)
    ensures
        r@ == word_at(strs(ws@), i as int),
{
    if i < ws.len() {
        ws[i].clone()
    } else {
        String::new()
    }
}

/// What follows the first `:` of `s`, or an empty string when there is none.
pub fn text_after_colon(s: &str) -> (r: String)
    ensures
        r@ == after_colon(s@),
{
    let n = s.unicode_len();
    let mut i: usize = 0;
    assert(s@.skip(0) =~= s@);
    while i < n
        invariant
            n == s@.len(),
            i <= n,
            after_colon(s@) == after_colon(s@.skip(i as int)),
        decreases n - i,
    {
        let ghost t = s@.skip(i as int);
        assert(t[0] == s@[i as int]);
        assert(t.drop_first() =~= s@.skip(i + 1));
        if s.get_char(i) == ':' {
            return String::from_str(s.substring_char(i + 1, n));
        }
        i = i + 1;
    }
    assert(s@.skip(n as int) =~= seq![]);
    String::new()
}

} // verus!
