//! Sequence scanning used by the parameter resolver and the message framer:
//! splitting on a separator, splitting into lines, trimming whitespace, and
//! finding characters and whitespace-delimited tokens.

use vstd::prelude::*;
use crate::text::is_ws;
use crate::text::is_ws_char;

verus! {

/// The pieces of a character sequence split on a separator character.
/// A sequence with no separator is one piece; every separator ends a piece,
/// so `n` separators give `n + 1` pieces, some possibly empty.
pub open spec fn split_char(s: Seq<char>, sep: char) -> Seq<Seq<char>>
    decreases s.len(),
{
    if s.len() == 0 {
        seq![Seq::<char>::empty()]
    } else if s[0] == sep {
        seq![Seq::<char>::empty()] + split_char(s.drop_first(), sep)
    } else {
        let r = split_char(s.drop_first(), sep);
        seq![seq![s[0]] + r[0]] + r.drop_first()
    }
}

pub proof fn lemma_split_char_len(s: Seq<char>, sep: char)
    ensures
        split_char(s, sep).len() >= 1,
    decreases s.len(),
{
    if s.len() != 0 {
        lemma_split_char_len(s.drop_first(), sep)
    }
}

/// Splitting a sequence whose first `k` characters hold no separator and
/// whose character at `k`, if any, is one: the first piece is those `k`
/// characters, and the rest splits the remainder.
pub proof fn lemma_split_char_cut(s: Seq<char>, sep: char, k: int)
    requires
        0 <= k <= s.len(),
        forall|j: int| 0 <= j < k ==> s[j] != sep,
        k == s.len() || s[k] == sep,
    ensures
        k < s.len() ==> split_char(s, sep) == seq![s.take(k)] + split_char(s.skip(k + 1), sep),
        k == s.len() ==> split_char(s, sep) == seq![s],
    decreases k,
{
    lemma_split_char_len(s, sep);
    if k == 0 {
        if s.len() == 0 {
            assert(split_char(s, sep) =~~= seq![s]);
        } else {
            assert(s.drop_first() =~= s.skip(1));
            assert(s.take(0) =~= Seq::<char>::empty());
            assert(split_char(s, sep) =~~= seq![s.take(0)] + split_char(s.skip(1), sep));
        }
    } else {
        let d = s.drop_first();
        lemma_split_char_len(d, sep);
        lemma_split_char_cut(d, sep, k - 1);
        let r = split_char(d, sep);
        if k < s.len() {
            assert(r == seq![d.take(k - 1)] + split_char(d.skip(k), sep));
            assert(r[0] == d.take(k - 1));
            assert(r.drop_first() =~= split_char(d.skip(k), sep));
            assert(seq![s[0]] + d.take(k - 1) =~= s.take(k));
            assert(d.skip(k) =~= s.skip(k + 1));
            assert(split_char(s, sep) =~~= seq![s.take(k)] + split_char(s.skip(k + 1), sep));
        } else {
            assert(r == seq![d]);
            assert(r.drop_first() =~~= Seq::<Seq<char>>::empty());
            assert(seq![s[0]] + d =~= s);
            assert(split_char(s, sep) =~~= seq![s]);
        }
    }
}

/// Copies the characters of `v` between `a` and `b`.
pub fn subvec(v: &Vec<char>, a: usize, b: usize) -> (r: Vec<char>)
    requires
        a <= b <= v@.len(),
    ensures
        r@ == v@.subrange(a as int, b as int),
{
    let mut r: Vec<char> = Vec::new();
    let mut i: usize = a;
    while i < b
        invariant
            a <= i <= b <= v@.len(),
            r@ == v@.subrange(a as int, i as int),
        decreases b - i,
    {
        r.push(v[i]);
        assert(r@ =~= v@.subrange(a as int, i + 1));
        i += 1;
    }
    r
}

/// Splits the characters of `v` on a separator character.
pub fn split_by_char(v: &Vec<char>, sep: char) -> (r: Vec<Vec<char>>)
    ensures
        r.deep_view() == split_char(v@, sep),
{
    let mut pieces: Vec<Vec<char>> = Vec::new();
    let mut cur: Vec<char> = Vec::new();
    let ghost mut cur_start: int = 0;
    let mut i: usize = 0;
    proof {
        assert(v@.skip(0) =~= v@);
        assert(pieces.deep_view() =~~= Seq::<Seq<char>>::empty());
        assert(pieces.deep_view() + split_char(v@, sep) =~~= split_char(v@, sep));
    }
    while i < v.len()
        invariant
            0 <= cur_start <= i <= v@.len(),
            cur@ == v@.subrange(cur_start, i as int),
            forall|j: int| cur_start <= j < i ==> v@[j] != sep,
            split_char(v@, sep) == pieces.deep_view() + split_char(v@.skip(cur_start), sep),
        decreases v@.len() - i,
    {
        if v[i] == sep {
            proof {
                let tail = v@.skip(cur_start);
                let k = i - cur_start;
                assert(forall|j: int| 0 <= j < k ==> tail[j] == v@[#[trigger] (j + cur_start)]);
                lemma_split_char_cut(tail, sep, k);
                assert(tail.take(k) =~= cur@);
                assert(tail.skip(k + 1) =~= v@.skip(i + 1));
            }
            let ghost prev = pieces.deep_view();
            let ghost piece = cur@;
            pieces.push(cur);
            cur = Vec::new();
            proof {
                assert(pieces.deep_view() =~~= prev.push(piece));
                cur_start = i + 1;
                assert(prev + (seq![piece] + split_char(v@.skip(cur_start), sep)) =~~= prev.push(
                    piece,
                ) + split_char(v@.skip(cur_start), sep));
                assert(cur@ =~= v@.subrange(cur_start, i + 1));
            }
        } else {
            cur.push(v[i]);
            assert(cur@ =~= v@.subrange(cur_start, i + 1));
        }
        i += 1;
    }
    proof {
        let tail = v@.skip(cur_start);
        let k = i - cur_start;
        assert(forall|j: int| 0 <= j < k ==> tail[j] == v@[#[trigger] (j + cur_start)]);
        lemma_split_char_cut(tail, sep, k);
        assert(tail =~= cur@);
    }
    let ghost prev = pieces.deep_view();
    let ghost piece = cur@;
    pieces.push(cur);
    proof {
        assert(pieces.deep_view() =~~= prev.push(piece));
        assert(prev + seq![piece] =~~= prev.push(piece));
        assert(pieces.deep_view() =~~= split_char(v@, sep));
    }
    pieces
}

/// The sequence without its leading whitespace.
pub open spec fn trim_front(s: Seq<char>) -> Seq<char>
    decreases s.len(),
{
    if s.len() > 0 && is_ws(s[0]) {
        trim_front(s.drop_first())
    } else {
        s
    }
}

/// The sequence without its trailing whitespace.
pub open spec fn trim_back(s: Seq<char>) -> Seq<char>
    decreases s.len(),
{
    if s.len() > 0 && is_ws(s.last()) {
        trim_back(s.drop_last())
    } else {
        s
    }
}

/// The sequence without leading and trailing whitespace, as `str::trim`
/// leaves it.
pub open spec fn trim_seq(s: Seq<char>) -> Seq<char> {
    trim_back(trim_front(s))
}

/// Copies the characters of `v` without leading and trailing whitespace.
pub fn trim_chars(v: &Vec<char>) -> (r: Vec<char>)
    ensures
        r@ == trim_seq(v@),
{
    let n = v.len();
    let mut a: usize = 0;
    proof {
        assert(v@.skip(0) =~= v@);
    }
    while a < n && is_ws_char(v[a])
        invariant
            a <= n,
            n == v@.len(),
            trim_front(v@) == trim_front(v@.skip(a as int)),
        decreases n - a,
    {
        proof {
            assert(v@.skip(a as int).drop_first() =~= v@.skip(a + 1));
        }
        a += 1;
    }
    proof {
        if a < n {
            assert(trim_front(v@.skip(a as int)) == v@.skip(a as int));
        } else {
            assert(v@.skip(a as int) =~= Seq::<char>::empty());
        }
    }
    let mut b: usize = n;
    while b > a && is_ws_char(v[b - 1])
        invariant
            a <= b <= n,
            n == v@.len(),
            trim_front(v@) == trim_front(v@.skip(a as int)),
            a < n ==> trim_front(v@) == v@.skip(a as int),
            a == n ==> trim_front(v@) == Seq::<char>::empty(),
            trim_back(v@.skip(a as int)) == trim_back(v@.subrange(a as int, b as int)),
        decreases b,
    {
        proof {
            assert(v@.subrange(a as int, b as int).last() == v@[b - 1]);
            assert(v@.subrange(a as int, b as int).drop_last() =~= v@.subrange(a as int, b - 1));
        }
        b -= 1;
    }
    proof {
        let piece = v@.subrange(a as int, b as int);
        if b > a {
            assert(piece.last() == v@[b - 1]);
            assert(trim_back(piece) == piece);
        } else {
            assert(piece =~= Seq::<char>::empty());
        }
        if a == n {
            assert(v@.skip(a as int) =~= Seq::<char>::empty());
            assert(v@.subrange(a as int, b as int) =~= Seq::<char>::empty());
        }
    }
    subvec(v, a, b)
}

/// The index of the first character at or after `i` that is not whitespace,
/// or the length when the rest is whitespace.
pub open spec fn next_non_ws(s: Seq<char>, i: int) -> int
    decreases s.len() - i,
{
    if i < 0 || i >= s.len() {
        s.len() as int
    } else if is_ws(s[i]) {
        next_non_ws(s, i + 1)
    } else {
        i
    }
}

/// The index of the first character at or after `i` that is whitespace, or
/// the length when none is.
pub open spec fn next_ws(s: Seq<char>, i: int) -> int
    decreases s.len() - i,
{
    if i < 0 || i >= s.len() {
        s.len() as int
    } else if !is_ws(s[i]) {
        next_ws(s, i + 1)
    } else {
        i
    }
}

/// Scans from `i` to the first character that is not whitespace.
pub fn scan_non_ws(v: &Vec<char>, i: usize) -> (r: usize)
    requires
        i <= v@.len(),
    ensures
        r == next_non_ws(v@, i as int),
        i <= r <= v@.len(),
{
    let mut j: usize = i;
    while j < v.len() && is_ws_char(v[j])
        invariant
            i <= j <= v@.len(),
            next_non_ws(v@, i as int) == next_non_ws(v@, j as int),
        decreases v@.len() - j,
    {
        j += 1;
    }
    proof {
        lemma_next_non_ws_bounds(v@, i as int);
    }
    j
}

proof fn lemma_next_non_ws_bounds(s: Seq<char>, i: int)
    requires
        0 <= i <= s.len(),
    ensures
        i <= next_non_ws(s, i) <= s.len(),
    decreases s.len() - i,
{
    if i < s.len() && is_ws(s[i]) {
        lemma_next_non_ws_bounds(s, i + 1);
    }
}

/// Scans from `i` to the first whitespace character.
pub fn scan_ws(v: &Vec<char>, i: usize) -> (r: usize)
    requires
        i <= v@.len(),
    ensures
        r == next_ws(v@, i as int),
        i <= r <= v@.len(),
{
    let mut j: usize = i;
    while j < v.len() && !is_ws_char(v[j])
        invariant
            i <= j <= v@.len(),
            next_ws(v@, i as int) == next_ws(v@, j as int),
        decreases v@.len() - j,
    {
        j += 1;
    }
    proof {
        lemma_next_ws_bounds(v@, i as int);
    }
    j
}

proof fn lemma_next_ws_bounds(s: Seq<char>, i: int)
    requires
        0 <= i <= s.len(),
    ensures
        i <= next_ws(s, i) <= s.len(),
    decreases s.len() - i,
{
    if i < s.len() && !is_ws(s[i]) {
        lemma_next_ws_bounds(s, i + 1);
    }
}

/// The index of the first occurrence of `c` at or after `i`, or the length
/// when there is none.
pub open spec fn find_from(s: Seq<char>, c: char, i: int) -> int
    decreases s.len() - i,
{
    if i < 0 || i >= s.len() {
        s.len() as int
    } else if s[i] == c {
        i
    } else {
        find_from(s, c, i + 1)
    }
}

/// Scans from `i` to the first occurrence of `c`.
pub fn scan_find(v: &Vec<char>, c: char, i: usize) -> (r: usize)
    requires
        i <= v@.len(),
    ensures
        r == find_from(v@, c, i as int),
        i <= r <= v@.len(),
{
    let mut j: usize = i;
    while j < v.len() && v[j] != c
        invariant
            i <= j <= v@.len(),
            find_from(v@, c, i as int) == find_from(v@, c, j as int),
        decreases v@.len() - j,
    {
        j += 1;
    }
    proof {
        lemma_find_from_bounds(v@, c, i as int);
    }
    j
}

proof fn lemma_find_from_bounds(s: Seq<char>, c: char, i: int)
    requires
        0 <= i <= s.len(),
    ensures
        i <= find_from(s, c, i) <= s.len(),
    decreases s.len() - i,
{
    if i < s.len() && s[i] != c {
        lemma_find_from_bounds(s, c, i + 1);
    }
}

/// A line without one trailing carriage return, as `str::lines` strips it
/// from a line that a newline ended.
pub open spec fn strip_cr(line: Seq<char>) -> Seq<char> {
    if line.len() > 0 && line.last() == '\r' {
        line.drop_last()
    } else {
        line
    }
}

/// The lines of a text, as `str::lines` yields them: pieces split on `\n`,
/// each piece that a newline ended stripped of one trailing `\r`, and no
/// empty final piece after a trailing newline.
pub open spec fn split_lines(s: Seq<char>) -> Seq<Seq<char>> {
    if s.len() == 0 {
        seq![]
    } else {
        let parts = split_char(s, '\n');
        let term = parts.take(parts.len() - 1).map_values(|p: Seq<char>| strip_cr(p));
        if parts.last().len() == 0 {
            term
        } else {
            term.push(parts.last())
        }
    }
}

/// Splits the characters of `v` into lines as `str::lines` would.
pub fn lines_of(v: &Vec<char>) -> (r: Vec<Vec<char>>)
    ensures
        r.deep_view() == split_lines(v@),
{
    let mut out: Vec<Vec<char>> = Vec::new();
    if v.len() == 0 {
        proof {
            assert(out.deep_view() =~~= split_lines(v@));
        }
        return out;
    }
    let mut parts = split_by_char(v, '\n');
    proof {
        lemma_split_char_len(v@, '\n');
    }
    let ghost spec_parts = split_char(v@, '\n');
    let last = parts.pop().unwrap();
    proof {
        assert(parts.deep_view() =~~= spec_parts.take(spec_parts.len() - 1));
        assert(last@ == spec_parts.last());
    }
    let n = parts.len();
    let mut i: usize = 0;
    while i < n
        invariant
            i <= n,
            n == parts@.len(),
            parts.deep_view() == spec_parts.take(n as int),
            spec_parts.len() == n + 1,
            out.deep_view().len() == i,
            forall|j: int|
                0 <= j < i ==> out.deep_view()[j] == strip_cr(#[trigger] spec_parts[j]),
        decreases n - i,
    {
        let p = &parts[i];
        let ghost orig = p@;
        proof {
            assert(parts.deep_view()[i as int] =~= p@);
            assert(orig == spec_parts.take(n as int)[i as int]);
        }
        let piece: Vec<char> = if p.len() > 0 && p[p.len() - 1] == '\r' {
            let q = subvec(p, 0, p.len() - 1);
            assert(q@ =~= strip_cr(orig));
            q
        } else {
            let q = subvec(p, 0, p.len());
            assert(q@ =~= strip_cr(orig));
            q
        };
        let ghost prev = out.deep_view();
        out.push(piece);
        proof {
            assert(out.deep_view() =~~= prev.push(strip_cr(orig)));
        }
        i += 1;
    }
    let ghost term = spec_parts.take(spec_parts.len() - 1).map_values(
        |p: Seq<char>| strip_cr(p),
    );
    proof {
        assert(out.deep_view() =~~= term);
    }
    if last.len() > 0 {
        let ghost prev = out.deep_view();
        out.push(last);
        proof {
            assert(out.deep_view() =~~= prev.push(spec_parts.last()));
            assert(out.deep_view() =~~= split_lines(v@));
        }
    } else {
        proof {
            assert(out.deep_view() =~~= split_lines(v@));
        }
    }
    out
}

} // verus!
