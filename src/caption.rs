//! Caption handling: plain inner text for surfaces that must not render
//! markup, and repair of the upstream's internal redirect links.

use vstd::prelude::*;
use crate::text::{
    all_trimmed, chars_of, is_space, join, joined, matches_at, push_all, push_str, slice_of,
    space_char, string_of, trim, views_of,
};

verus! {

/// A character that may stand in a tag name.
pub open spec fn is_tag_char(c: char) -> bool {
    !is_space(c) && c != '>'
}

/// `s[b]` is a `<` followed by a tag name of `len` characters, and `s[g]` is
/// the first `>` after `b` (anything between the name and `g` is attributes).
pub open spec fn opens(s: Seq<char>, b: int, len: int, g: int) -> bool {
    &&& 0 <= b
    &&& 1 <= len
    &&& b + 1 + len <= g < s.len()
    &&& s[b] == '<'
    &&& s[g] == '>'
    &&& forall|m: int| b + 1 <= m < b + 1 + len ==> is_tag_char(#[trigger] s[m])
    &&& forall|m: int| b < m < g ==> #[trigger] s[m] != '>'
}

/// At `e` stands `</`, the tag name opened at `b`, optional whitespace, and
/// the closing `>` at `c`.
pub open spec fn closes(s: Seq<char>, b: int, len: int, e: int, c: int) -> bool {
    &&& 0 <= b
    &&& 0 <= e
    &&& e + 2 + len <= c < s.len()
    &&& b + 1 + len <= s.len()
    &&& s[e] == '<'
    &&& s[e + 1] == '/'
    &&& s.subrange(e + 2, e + 2 + len) == s.subrange(b + 1, b + 1 + len)
    &&& s[c] == '>'
    &&& forall|m: int| e + 2 + len <= m < c ==> is_space(#[trigger] s[m])
}

/// A tag pair: opened at `b` with a name of `len` characters, the opening tag
/// ending at `g`, inner content from `g + 1` to `e`, closed by `s[e..=c]`.
pub open spec fn is_pair(s: Seq<char>, b: int, len: int, g: int, e: int, c: int) -> bool {
    opens(s, b, len, g) && g < e && closes(s, b, len, e, c)
}

/// The order in which candidate pairs are tried: the earliest opening first,
/// then the longest tag name, then the shortest inner content.
pub open spec fn tried_before(b1: int, l1: int, e1: int, b2: int, l2: int, e2: int) -> bool {
    b1 < b2 || (b1 == b2 && (l1 > l2 || (l1 == l2 && e1 < e2)))
}

/// The pair that is found first in `s`.
pub open spec fn is_first_pair(s: Seq<char>, b: int, len: int, g: int, e: int, c: int) -> bool {
    &&& is_pair(s, b, len, g, e, c)
    &&& forall|b2: int, l2: int, g2: int, e2: int, c2: int| #[trigger]
        is_pair(s, b2, l2, g2, e2, c2) ==> !tried_before(b2, l2, e2, b, len, e)
}

pub open spec fn has_pair(s: Seq<char>) -> bool {
    exists|b: int, len: int, g: int, e: int, c: int| is_pair(s, b, len, g, e, c)
}

/// Inner content of a pair, padded with a space on each side when the tag is
/// an anchor (`a`).
pub open spec fn pair_inner(s: Seq<char>, b: int, len: int, g: int, e: int) -> Seq<char> {
    if len == 1 && s[b + 1] == 'a' {
        seq![' '] + s.subrange(g + 1, e) + seq![' ']
    } else {
        s.subrange(g + 1, e)
    }
}

/// `s` with its tag pairs taken out: the text before the first pair, then the
/// reduced inner content, then the reduced remainder. Text without a pair is
/// kept as it is.
#[verifier::opaque]
pub open spec fn stripped(s: Seq<char>) -> Seq<char>
    decreases s.len(),
{
    if exists|b: int, len: int, g: int, e: int, c: int| is_first_pair(s, b, len, g, e, c) {
        let (b, len, g, e, c) = choose|b: int, len: int, g: int, e: int, c: int|
            is_first_pair(s, b, len, g, e, c);
        s.take(b) + stripped(pair_inner(s, b, len, g, e)) + stripped(s.skip(c + 1))
    } else {
        s
    }
}

/// Length of a line-break tag (`<br>`, `<br/>`, `<br />`, with any whitespace
/// before the optional slash) at the start of `t`, or 0 if none stands there.
pub open spec fn br_len(t: Seq<char>) -> int {
    if t.len() >= 3 && t[0] == '<' && t[1] == 'b' && t[2] == 'r' {
        let p = 3 + leading_spaces(t.skip(3));
        if p < t.len() && t[p] == '>' {
            p + 1
        } else if p + 1 < t.len() && t[p] == '/' && t[p + 1] == '>' {
            p + 2
        } else {
            0
        }
    } else {
        0
    }
}

/// Number of whitespace characters at the start of `t`.
pub open spec fn leading_spaces(t: Seq<char>) -> int
    decreases t.len(),
{
    if t.len() > 0 && is_space(t[0]) {
        1 + leading_spaces(t.skip(1))
    } else {
        0
    }
}

/// `p` put in front of the first segment of `r`.
pub open spec fn prefixed(p: Seq<char>, r: Seq<Seq<char>>) -> Seq<Seq<char>> {
    r.update(0, p + r[0])
}

/// The segments of `s` between line-break tags, found from the left.
pub open spec fn br_split(s: Seq<char>) -> Seq<Seq<char>>
    decreases s.len(),
{
    if s.len() == 0 {
        seq![Seq::empty()]
    } else if 0 < br_len(s) <= s.len() {
        seq![Seq::<char>::empty()] + br_split(s.skip(br_len(s)))
    } else {
        prefixed(seq![s[0]], br_split(s.skip(1)))
    }
}

/// The plain inner text of an HTML caption: tags stripped, split at line
/// breaks, each line trimmed, the lines joined by newlines.
pub open spec fn inner_text(html: Seq<char>) -> Seq<char> {
    joined(all_trimmed(br_split(stripped(html))), seq!['\n'])
}

proof fn lemma_br_split_nonempty(s: Seq<char>)
    ensures
        br_split(s).len() >= 1,
    decreases s.len(),
{
    if s.len() == 0 {
    } else if 0 < br_len(s) <= s.len() {
        lemma_br_split_nonempty(s.skip(br_len(s)));
    } else {
        lemma_br_split_nonempty(s.skip(1));
    }
}

/// The pair found first is unique.
proof fn lemma_first_pair_unique(
    s: Seq<char>,
    b: int,
    len: int,
    g: int,
    e: int,
    c: int,
    b2: int,
    l2: int,
    g2: int,
    e2: int,
    c2: int,
)
    requires
        is_first_pair(s, b, len, g, e, c),
        is_first_pair(s, b2, l2, g2, e2, c2),
    ensures
        b == b2 && len == l2 && g == g2 && e == e2 && c == c2,
{
    assert(is_pair(s, b2, l2, g2, e2, c2));
    assert(is_pair(s, b, len, g, e, c));
    assert(!tried_before(b2, l2, e2, b, len, e));
    assert(!tried_before(b, len, e, b2, l2, e2));
    if g < g2 {
        assert(s[g] != '>');
    }
    if g2 < g {
        assert(s[g2] != '>');
    }
    if c < c2 {
        assert(is_space(s[c]));
    }
    if c2 < c {
        assert(is_space(s[c2]));
    }
}

/// The reduction of a text whose first pair is known.
proof fn lemma_stripped_at(s: Seq<char>, b: int, len: int, g: int, e: int, c: int)
    requires
        is_first_pair(s, b, len, g, e, c),
    ensures
        stripped(s) == s.take(b) + stripped(pair_inner(s, b, len, g, e)) + stripped(
            s.skip(c + 1),
        ),
{
    let (b2, l2, g2, e2, c2) = choose|b: int, len: int, g: int, e: int, c: int|
        is_first_pair(s, b, len, g, e, c);
    lemma_first_pair_unique(s, b, len, g, e, c, b2, l2, g2, e2, c2);
    reveal(stripped);
}

/// A text without a tag pair reduces to itself.
proof fn lemma_stripped_plain(s: Seq<char>)
    requires
        !has_pair(s),
    ensures
        stripped(s) == s,
{
    reveal(stripped);
}

proof fn lemma_pending_push(rest: Seq<Seq<char>>, after: Seq<char>, inner: Seq<char>)
    ensures
        pending_text(rest.push(after).push(inner)) == stripped(inner) + (stripped(after)
            + pending_text(rest)),
        pending_weight(rest.push(after).push(inner)) == pending_weight(rest) + after.len() + 1
            + inner.len() + 1,
{
    let st = rest.push(after).push(inner);
    let mid = rest.push(after);
    assert(st.drop_last() =~= mid);
    assert(mid.drop_last() =~= rest);
    assert(st.last() == inner);
    assert(mid.last() == after);
    assert(pending_text(mid) == stripped(after) + pending_text(rest));
    assert(pending_text(st) == stripped(inner) + pending_text(mid));
    assert(pending_weight(mid) == pending_weight(rest) + after.len() + 1);
    assert(pending_weight(st) == pending_weight(mid) + inner.len() + 1);
}

/// The closing tag at `e` for the tag name opened at `b`, if one stands there.
fn closing_at(s: &Vec<char>, b: usize, len: usize, e: usize) -> (r: Option<usize>)
    requires
        b + 1 + len <= s@.len(),
        e < s@.len(),
    ensures
        match r {
            Some(c) => closes(s@, b as int, len as int, e as int, c as int),
            None => forall|c: int| !closes(s@, b as int, len as int, e as int, c),
        },
{
    let n = s.len();
    if e + 1 >= n || s[e] != '<' || s[e + 1] != '/' || len > n - e - 2 {
        return None;
    }
    let mut k: usize = 0;
    assert(s@.subrange(e + 2, e + 2) =~= s@.subrange(b + 1, b + 1));
    while k < len
        invariant
            k <= len,
            e + 2 + len <= n,
            b + 1 + len <= n,
            n == s@.len(),
            s@.subrange(e + 2, e + 2 + k) == s@.subrange(b + 1, b + 1 + k),
        decreases len - k,
    {
        if s[e + 2 + k] != s[b + 1 + k] {
            assert forall|c: int| !closes(s@, b as int, len as int, e as int, c) by {
                if closes(s@, b as int, len as int, e as int, c) {
                    assert(s@.subrange(e + 2, e + 2 + len)[k as int] == s@.subrange(
                        b + 1,
                        b + 1 + len,
                    )[k as int]);
                }
            }
            return None;
        }
        assert(s@.subrange(e + 2, e + 2 + k + 1) =~= s@.subrange(e + 2, e + 2 + k).push(
            s@[e + 2 + k],
        ));
        assert(s@.subrange(b + 1, b + 1 + k + 1) =~= s@.subrange(b + 1, b + 1 + k).push(
            s@[b + 1 + k],
        ));
        k = k + 1;
    }
    let mut m: usize = e + 2 + len;
    while m < n && space_char(s[m])
        invariant
            e + 2 + len <= m <= n,
            n == s@.len(),
            forall|j: int| e + 2 + len <= j < m ==> is_space(s@[j]),
        decreases n - m,
    {
        m = m + 1;
    }
    if m < n && s[m] == '>' {
        Some(m)
    } else {
        assert forall|c: int| !closes(s@, b as int, len as int, e as int, c) by {
            if closes(s@, b as int, len as int, e as int, c) {
                if c < m {
                    assert(s@[c] == '>');
                    assert(is_space(s@[c]));
                } else if c > m {
                    assert(is_space(s@[m as int]));
                }
            }
        }
        None
    }
}

/// The first tag pair of `s`, as `(b, len, g, e, c)`: see [`is_pair`].
pub fn find_first_pair(s: &Vec<char>) -> (r: Option<(usize, usize, usize, usize, usize)>)
    ensures
        match r {
            Some((b, len, g, e, c)) => is_first_pair(
                s@,
                b as int,
                len as int,
                g as int,
                e as int,
                c as int,
            ),
            None => !has_pair(s@),
        },
{
    let n = s.len();
    let mut b: usize = 0;
    while b < n
        invariant
            b <= n,
            n == s@.len(),
            forall|b2: int, l2: int, g2: int, e2: int, c2: int| #[trigger]
                is_pair(s@, b2, l2, g2, e2, c2) ==> b2 >= b,
        decreases n - b,
    {
        if s[b] == '<' {
            // the first '>' after b
            let mut g: usize = b + 1;
            while g < n && s[g] != '>'
                invariant
                    b < g <= n,
                    n == s@.len(),
                    forall|m: int| b < m < g ==> s@[m] != '>',
                decreases n - g,
            {
                g = g + 1;
            }
            if g < n {
                // the longest run of name characters after '<'
                let mut t: usize = b + 1;
                while t < g && !space_char(s[t])
                    invariant
                        b < t <= g,
                        g < n,
                        n == s@.len(),
                        forall|m: int| b < m < g ==> s@[m] != '>',
                        forall|m: int| b + 1 <= m < t ==> is_tag_char(s@[m]),
                    decreases g - t,
                {
                    t = t + 1;
                }
                let longest = t - b - 1;
                assert forall|l2: int, g2: int, e2: int, c2: int|
                    is_pair(s@, b as int, l2, g2, e2, c2) implies g2 == g && l2 <= longest by {
                    if g2 < g {
                        assert(s@[g2] != '>');
                    }
                    if g < g2 {
                        assert(s@[g as int] != '>');
                    }
                    if l2 > longest {
                        assert(is_tag_char(s@[t as int]));
                    }
                }
                let mut len: usize = longest;
                while len > 0
                    invariant
                        len <= longest,
                        longest == t - b - 1,
                        b < t <= g < n,
                        n == s@.len(),
                        s@[b as int] == '<',
                        s@[g as int] == '>',
                        forall|m: int| b < m < g ==> s@[m] != '>',
                        forall|m: int| b + 1 <= m < t ==> is_tag_char(s@[m]),
                        forall|b2: int, l2: int, g2: int, e2: int, c2: int| #[trigger]
                            is_pair(s@, b2, l2, g2, e2, c2) ==> b2 >= b,
                        forall|l2: int, g2: int, e2: int, c2: int|
                            is_pair(s@, b as int, l2, g2, e2, c2) ==> g2 == g && l2 <= len,
                    decreases len,
                {
                    assert(opens(s@, b as int, len as int, g as int));
                    let mut e: usize = g + 1;
                    while e < n
                        invariant
                            1 <= len <= longest,
                            longest == t - b - 1,
                            b < t <= g < e <= n,
                            n == s@.len(),
                            opens(s@, b as int, len as int, g as int),
                            forall|b2: int, l2: int, g2: int, e2: int, c2: int| #[trigger]
                                is_pair(s@, b2, l2, g2, e2, c2) ==> b2 >= b,
                            forall|l2: int, g2: int, e2: int, c2: int|
                                is_pair(s@, b as int, l2, g2, e2, c2) ==> g2 == g && l2 <= len,
                            forall|g2: int, e2: int, c2: int|
                                is_pair(s@, b as int, len as int, g2, e2, c2) ==> e2 >= e,
                        decreases n - e,
                    {
                        match closing_at(s, b, len, e) {
                            Some(c) => {
                                assert(is_pair(s@, b as int, len as int, g as int, e as int, c as int));
                                return Some((b, len, g, e, c));
                            },
                            None => {},
                        }
                        e = e + 1;
                    }
                    assert forall|g2: int, e2: int, c2: int|
                        !is_pair(s@, b as int, len as int, g2, e2, c2) by {}
                    len = len - 1;
                }
            } else {
                assert forall|l2: int, g2: int, e2: int, c2: int|
                    !is_pair(s@, b as int, l2, g2, e2, c2) by {}
            }
        }
        b = b + 1;
    }
    assert forall|b2: int, l2: int, g2: int, e2: int, c2: int|
        !is_pair(s@, b2, l2, g2, e2, c2) by {}
    None
}

/// The reduced text of the segments still to be processed, the last one first.
pub open spec fn pending_text(st: Seq<Seq<char>>) -> Seq<char>
    decreases st.len(),
{
    if st.len() == 0 {
        Seq::empty()
    } else {
        stripped(st.last()) + pending_text(st.drop_last())
    }
}

pub open spec fn pending_weight(st: Seq<Seq<char>>) -> nat
    decreases st.len(),
{
    if st.len() == 0 {
        0
    } else {
        pending_weight(st.drop_last()) + st.last().len() + 1
    }
}

/// `html` with its tag pairs taken out, depth first: see [`stripped`].
pub fn strip_tags(html: &Vec<char>) -> (r: Vec<char>)
    ensures
        r@ == stripped(html@),
{
    let mut out: Vec<char> = Vec::new();
    let mut stack: Vec<Vec<char>> = Vec::new();
    stack.push(slice_of(html, 0, html.len()));
    assert(html@.subrange(0, html@.len() as int) =~= html@);
    assert(views_of(stack@).drop_last() =~= Seq::<Seq<char>>::empty());
    assert(views_of(stack@).last() == html@);
    assert(pending_text(views_of(stack@)) == stripped(html@) + pending_text(
        Seq::<Seq<char>>::empty(),
    ));
    assert(out@ + pending_text(views_of(stack@)) =~= stripped(html@));
    while stack.len() > 0
        invariant
            out@ + pending_text(views_of(stack@)) == stripped(html@),
        decreases pending_weight(views_of(stack@)),
    {
        let ghost before_pop = views_of(stack@);
        let seg = match stack.pop() {
            Some(seg) => seg,
            None => Vec::new(),
        };
        assert(views_of(stack@) =~= before_pop.drop_last());
        assert(seg@ == before_pop.last());
        let ghost rest = views_of(stack@);
        match find_first_pair(&seg) {
            Some((b, len, g, e, c)) => {
                assert(is_pair(seg@, b as int, len as int, g as int, e as int, c as int));
                assert(closes(seg@, b as int, len as int, e as int, c as int));
                assert(opens(seg@, b as int, len as int, g as int));
                assert(c < seg@.len());
                assert(c < seg.len());
                let before = slice_of(&seg, 0, b);
                let after = slice_of(&seg, c + 1, seg.len());
                let body = slice_of(&seg, g + 1, e);
                let inner = if len == 1 && seg[b + 1] == 'a' {
                    let mut padded: Vec<char> = vec![' '];
                    push_all(&mut padded, &body);
                    padded.push(' ');
                    padded
                } else {
                    body
                };
                proof {
                    assert(inner@ =~= pair_inner(seg@, b as int, len as int, g as int, e as int));
                    assert(before@ =~= seg@.take(b as int));
                    assert(after@ =~= seg@.skip(c + 1));
                    lemma_stripped_at(seg@, b as int, len as int, g as int, e as int, c as int);
                }
                stack.push(after);
                stack.push(inner);
                proof {
                    assert(views_of(stack@) =~= rest.push(after@).push(inner@));
                    lemma_pending_push(rest, after@, inner@);
                }
                push_all(&mut out, &before);
                assert(out@ + pending_text(views_of(stack@)) =~= stripped(html@));
            },
            None => {
                proof {
                    lemma_stripped_plain(seg@);
                }
                push_all(&mut out, &seg);
                assert(out@ + pending_text(views_of(stack@)) =~= stripped(html@));
            },
        }
    }
    assert(pending_text(views_of(stack@)) =~= Seq::<char>::empty());
    assert(out@ =~= stripped(html@));
    out
}

/// Length of the line-break tag at `i`, or 0 if none stands there.
fn br_len_at(s: &Vec<char>, i: usize) -> (r: usize)
    requires
        i <= s@.len(),
    ensures
        r == br_len(s@.skip(i as int)),
        r <= s@.len() - i,
{
    let n = s.len();
    let ghost t = s@.skip(i as int);
    if !(n - i >= 3 && s[i] == '<' && s[i + 1] == 'b' && s[i + 2] == 'r') {
        return 0;
    }
    let mut p: usize = i + 3;
    assert(t.skip(3) =~= s@.skip(i + 3));
    while p < n && space_char(s[p])
        invariant
            i + 3 <= p <= n,
            n == s@.len(),
            leading_spaces(s@.skip(i + 3)) == (p - i - 3) + leading_spaces(s@.skip(p as int)),
        decreases n - p,
    {
        assert(s@.skip(p as int).skip(1) =~= s@.skip(p + 1));
        p = p + 1;
    }
    assert(leading_spaces(s@.skip(p as int)) == 0);
    assert(3 + leading_spaces(t.skip(3)) == p - i);
    if p < n && s[p] == '>' {
        assert(t[p - i] == s@[p as int]);
        p - i + 1
    } else if p < n && n - p >= 2 && s[p] == '/' && s[p + 1] == '>' {
        assert(t[p - i] == s@[p as int]);
        assert(t[p - i + 1] == s@[p + 1]);
        p - i + 2
    } else {
        assert(p < n ==> t[p - i] == s@[p as int]);
        assert(p + 1 < n ==> t[p - i + 1] == s@[p + 1]);
        0
    }
}

proof fn lemma_prefixed_step(p: Seq<char>, x: char, z: Seq<Seq<char>>)
    requires
        z.len() >= 1,
    ensures
        prefixed(p, prefixed(seq![x], z)) == prefixed(p.push(x), z),
{
    assert(p + (seq![x] + z[0]) =~= p.push(x) + z[0]);
    assert(prefixed(p, prefixed(seq![x], z)) =~= prefixed(p.push(x), z));
}

proof fn lemma_prefixed_break(p: Seq<char>, y: Seq<Seq<char>>)
    requires
        y.len() >= 1,
    ensures
        prefixed(p, seq![Seq::<char>::empty()] + y) == seq![p] + prefixed(Seq::empty(), y),
{
    assert(Seq::<char>::empty() + y[0] =~= y[0]);
    assert(p + Seq::<char>::empty() =~= p);
    assert(prefixed(Seq::empty(), y) =~= y);
    assert(prefixed(p, seq![Seq::<char>::empty()] + y) =~= seq![p] + prefixed(Seq::empty(), y));
}

/// The lines of `s` between line-break tags, each trimmed, joined by newlines.
pub fn split_lines(s: &Vec<char>) -> (r: Vec<char>)
    ensures
        r@ == joined(all_trimmed(br_split(s@)), seq!['\n']),
{
    let n = s.len();
    let mut lines: Vec<Vec<char>> = Vec::new();
    let ghost mut done: Seq<Seq<char>> = Seq::empty();
    let mut start: usize = 0;
    let mut i: usize = 0;
    proof {
        assert(s@.skip(0) =~= s@);
        lemma_br_split_nonempty(s@);
        assert(prefixed(s@.subrange(0, 0), br_split(s@)) =~= br_split(s@));
    }
    while i < n
        invariant
            start <= i <= n,
            n == s@.len(),
            br_split(s@) == done + prefixed(s@.subrange(start as int, i as int), br_split(
                s@.skip(i as int),
            )),
            views_of(lines@) == all_trimmed(done),
        decreases n - i,
    {
        let k = br_len_at(s, i);
        let ghost t = s@.skip(i as int);
        if k > 0 {
            let line = slice_of(s, start, i);
            let tl = trim(&line);
            let ghost old_lines = lines@;
            lines.push(tl);
            proof {
                assert(views_of(lines@) =~= views_of(old_lines).push(tl@));
                assert(t.skip(k as int) =~= s@.skip(i + k));
                lemma_br_split_nonempty(s@.skip(i + k));
                lemma_prefixed_break(line@, br_split(s@.skip(i + k)));
                assert(s@.subrange((i + k) as int, (i + k) as int) =~= Seq::<char>::empty());
                assert(views_of(lines@) =~= all_trimmed(done.push(line@)));
                assert(done + (seq![line@] + prefixed(Seq::empty(), br_split(s@.skip(i + k))))
                    =~= done.push(line@) + prefixed(Seq::empty(), br_split(s@.skip(i + k))));
                done = done.push(line@);
            }
            i = i + k;
            start = i;
        } else {
            proof {
                assert(t.skip(1) =~= s@.skip(i + 1));
                assert(t[0] == s@[i as int]);
                lemma_br_split_nonempty(s@.skip(i + 1));
                lemma_prefixed_step(s@.subrange(start as int, i as int), s@[i as int], br_split(
                    s@.skip(i + 1),
                ));
                assert(s@.subrange(start as int, i as int).push(s@[i as int]) =~= s@.subrange(
                    start as int,
                    i + 1,
                ));
            }
            i = i + 1;
        }
    }
    let line = slice_of(s, start, n);
    let tl = trim(&line);
    let ghost old_lines = lines@;
    lines.push(tl);
    proof {
        assert(views_of(lines@) =~= views_of(old_lines).push(tl@));
        assert(s@.skip(n as int) =~= Seq::<char>::empty());
        assert(line@ + Seq::<char>::empty() =~= line@);
        assert(br_split(s@) =~= done.push(line@));
        assert(views_of(lines@) =~= all_trimmed(br_split(s@)));
    }
    let newline: Vec<char> = vec!['\n'];
    assert(newline@ =~= seq!['\n']);
    join(&lines, &newline)
}

/// Plain inner text of an HTML caption; never fails.
pub fn extract_html_inner_text(html: &str) -> (r: String)
    ensures
        r@ == inner_text(html@),
{
    let chars = chars_of(html);
    let text = strip_tags(&chars);
    let lines = split_lines(&text);
    string_of(&lines)
}

/// What `urlencoding::decode` gives for a text: the percent-decoded text, or
/// nothing where the decoded bytes are not UTF-8.
pub uninterp spec fn percent_decoded(s: Seq<char>) -> Option<Seq<char>>;

/// Relies on `urlencoding::decode`: percent-decodes `s` as UTF-8, failing only
/// where the decoded bytes are not UTF-8; a text without `%` comes back as it is.
#[verifier::external_body]
fn percent_decode(s: &str) -> (r: Option<String>)
    ensures
        r is Some <==> percent_decoded(s@) is Some,
        r matches Some(d) ==> percent_decoded(s@) == Some(d@),
        !s@.contains('%') ==> r is Some && r->0@ == s@,
{
    match urlencoding::decode(s) {
        Ok(d) => Some(d.into_owned()),
        Err(_) => None,
    }
}

/// The start of an internal redirect link.
pub open spec fn jump_prefix() -> Seq<char> {
    "href=\"/jump.php?"@
}

/// Offset in `t` of the first `"`, provided no newline comes before it;
/// otherwise -1.
pub open spec fn quote_end(t: Seq<char>) -> int
    decreases t.len(),
{
    if t.len() == 0 {
        -1
    } else if t[0] == '"' {
        0
    } else if t[0] == '\n' {
        -1
    } else {
        let k = quote_end(t.skip(1));
        if k < 0 {
            -1
        } else {
            k + 1
        }
    }
}

/// Whether a redirect link starts `s`; its target then ends at the first `"`.
pub open spec fn link_at_start(s: Seq<char>) -> bool {
    let p = jump_prefix().len() as int;
    p <= s.len() && s.take(p) == jump_prefix() && 0 <= quote_end(s.skip(p)) < s.len() - p
}

/// What replaces a redirect link: a link to the decoded target, or the link
/// as it was when its target does not decode.
pub open spec fn link_replacement(link: Seq<char>, decoded: Option<Seq<char>>) -> Seq<char> {
    match decoded {
        Some(d) => "href=\""@ + d + "\""@,
        None => link,
    }
}

/// The text that replaces the redirect link `link`, given what its target
/// decoded to.
pub fn replace_link(link: &Vec<char>, decoded: Option<String>) -> (r: Vec<char>)
    ensures
        r@ == link_replacement(
            link@,
            match decoded {
                Some(d) => Some(d@),
                None => None,
            },
        ),
{
    match decoded {
        Some(d) => {
            let mut out = chars_of("href=\"");
            push_str(&mut out, d.as_str());
            push_str(&mut out, "\"");
            out
        },
        None => link.clone(),
    }
}

/// `s` with each internal redirect link `href="/jump.php?<target>"` replaced by
/// `href="<decoded target>"`, scanning from the left. A link whose target does
/// not decode is left as it is.
pub open spec fn repaired(s: Seq<char>) -> Seq<char>
    decreases s.len(),
{
    if s.len() == 0 {
        Seq::empty()
    } else if link_at_start(s) {
        let p = jump_prefix().len() as int;
        let end = p + quote_end(s.skip(p));
        link_replacement(s.take(end + 1), percent_decoded(s.subrange(p, end))) + repaired(
            s.skip(end + 1),
        )
    } else {
        seq![s[0]] + repaired(s.skip(1))
    }
}

/// Position of the first `"` at or after `from`, unless a newline comes first.
pub fn find_quote_end(s: &Vec<char>, from: usize) -> (r: Option<usize>)
    requires
        from <= s@.len(),
    ensures
        match r {
            Some(j) => from <= j < s@.len() && quote_end(s@.skip(from as int)) == j - from,
            None => quote_end(s@.skip(from as int)) < 0,
        },
{
    let mut j: usize = from;
    while j < s.len() && s[j] != '"' && s[j] != '\n'
        invariant
            from <= j <= s@.len(),
            quote_end(s@.skip(from as int)) == (if quote_end(s@.skip(j as int)) < 0 {
                -1
            } else {
                quote_end(s@.skip(j as int)) + (j - from)
            }),
        decreases s.len() - j,
    {
        assert(s@.skip(j as int).skip(1) =~= s@.skip(j + 1));
        j = j + 1;
    }
    if j < s.len() && s[j] == '"' {
        Some(j)
    } else {
        None
    }
}

/// Rewrites every internal redirect link of a caption to point at its decoded
/// target, leaving all other markup untouched.
pub fn fix_links(description: &str) -> (r: String)
    ensures
        r@ == repaired(description@),
{
    let s = chars_of(description);
    let prefix = chars_of("href=\"/jump.php?");
    let n = s.len();
    let mut out: Vec<char> = Vec::new();
    let mut i: usize = 0;
    assert(s@.skip(0) =~= s@);
    assert(out@ + repaired(s@) =~= repaired(s@));
    while i < n
        invariant
            i <= n,
            n == s@.len(),
            prefix@ == jump_prefix(),
            out@ + repaired(s@.skip(i as int)) == repaired(s@),
        decreases n - i,
    {
        let ghost t = s@.skip(i as int);
        let p = prefix.len();
        let mut linked = false;
        if matches_at(&s, &prefix, i) {
            assert(t.take(p as int) =~= s@.subrange(i as int, i + p));
            assert(t.skip(p as int) =~= s@.skip(i + p));
            match find_quote_end(&s, i + p) {
                Some(j) => {
                    let target = string_of(&slice_of(&s, i + p, j));
                    assert(target@ =~= t.subrange(p as int, j - i));
                    assert(t.skip(j - i + 1) =~= s@.skip(j + 1));
                    let original = slice_of(&s, i, j + 1);
                    assert(original@ =~= t.take(j - i + 1));
                    let piece = replace_link(&original, percent_decode(target.as_str()));
                    push_all(&mut out, &piece);
                    assert(out@ + repaired(s@.skip(j + 1)) =~= repaired(s@));
                    i = j + 1;
                    linked = true;
                },
                None => {},
            }
        }
        if !linked {
            assert(!link_at_start(t)) by {
                if link_at_start(t) {
                    assert(t.take(p as int) =~= s@.subrange(i as int, i + p));
                    assert(t.skip(p as int) =~= s@.skip(i + p));
                }
            }
            assert(t.skip(1) =~= s@.skip(i + 1));
            out.push(s[i]);
            assert(out@ + repaired(s@.skip(i + 1)) =~= repaired(s@));
            i = i + 1;
        }
    }
    assert(s@.skip(n as int) =~= Seq::<char>::empty());
    assert(out@ =~= repaired(s@));
    string_of(&out)
}

} // verus!
