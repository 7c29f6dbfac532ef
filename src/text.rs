//! Sequences of characters: splitting on a separator, joining with one,
//! prefixes and substrings, with the executable forms the parser and the
//! serializer of desktop entries are built from.
use vstd::prelude::*;

verus! {

/// `s` cut at every occurrence of `sep`: always at least one piece, and no
/// piece holds `sep`.
pub open spec fn split_on(s: Seq<char>, sep: char) -> Seq<Seq<char>>
    decreases s.len(),
{
    if s.len() == 0 {
        seq![Seq::<char>::empty()]
    } else {
        let r = split_on(s.drop_last(), sep);
        if s.last() == sep {
            r.push(Seq::<char>::empty())
        } else {
            r.update(r.len() - 1, r.last().push(s.last()))
        }
    }
}

/// The pieces written one after another, with `sep` between two neighbours.
pub open spec fn join_with(parts: Seq<Seq<char>>, sep: Seq<char>) -> Seq<char>
    decreases parts.len(),
{
    if parts.len() == 0 {
        Seq::<char>::empty()
    } else if parts.len() == 1 {
        parts[0]
    } else {
        join_with(parts.drop_last(), sep) + sep + parts.last()
    }
}

/// `p` is where `s` starts.
pub open spec fn has_prefix(s: Seq<char>, p: Seq<char>) -> bool {
    p.len() <= s.len() && s.subrange(0, p.len() as int) == p
}

/// `frag` occurs in `s` as a run of consecutive characters.
pub open spec fn contains_seq(s: Seq<char>, frag: Seq<char>) -> bool {
    exists|i: int| 0 <= i && i + frag.len() <= s.len() && #[trigger] s.subrange(i, i + frag.len()) == frag
}

/// `c` does not occur in `s`.
pub open spec fn lacks(s: Seq<char>, c: char) -> bool {
    forall|i: int| 0 <= i < s.len() ==> s[i] != c
}

/// The views of a vector of strings.
pub open spec fn views(v: Seq<String>) -> Seq<Seq<char>> {
    v.map_values(|s: String| s@)
}

pub proof fn lemma_split_nonempty(s: Seq<char>, sep: char)
    ensures
        split_on(s, sep).len() >= 1,
    decreases s.len(),
{
    if s.len() > 0 {
        lemma_split_nonempty(s.drop_last(), sep);
    }
}

/// A text without the separator is one piece.
pub proof fn lemma_split_without_sep(s: Seq<char>, sep: char)
    requires
        lacks(s, sep),
    ensures
        split_on(s, sep) == seq![s],
    decreases s.len(),
{
    if s.len() > 0 {
        let d = s.drop_last();
        assert(lacks(d, sep));
        lemma_split_without_sep(d, sep);
        assert(s.last() != sep);
        assert(d.push(s.last()) == s);
        assert(seq![d].update(0, d.push(s.last())) == seq![s]);
    } else {
        assert(s == Seq::<char>::empty());
    }
}

/// Cutting at a separator that stands between two texts cuts each text
/// on its own.
pub proof fn lemma_split_concat(a: Seq<char>, b: Seq<char>, sep: char)
    ensures
        split_on(a + seq![sep] + b, sep) == split_on(a, sep) + split_on(b, sep),
    decreases b.len(),
{
    let s = a + seq![sep] + b;
    lemma_split_nonempty(a, sep);
    if b.len() == 0 {
        assert(s.drop_last() == a);
        assert(split_on(a, sep) + split_on(b, sep) == split_on(a, sep).push(Seq::<char>::empty()));
    } else {
        let b1 = b.drop_last();
        assert(s.drop_last() == a + seq![sep] + b1);
        lemma_split_concat(a, b1, sep);
        lemma_split_nonempty(b1, sep);
        let ra = split_on(a, sep);
        let rb = split_on(b1, sep);
        if b.last() == sep {
            assert((ra + rb).push(Seq::<char>::empty()) == ra + rb.push(Seq::<char>::empty()));
        } else {
            let r = ra + rb;
            assert(r.update(r.len() - 1, r.last().push(b.last())) == ra + rb.update(
                rb.len() - 1,
                rb.last().push(b.last()),
            ));
        }
    }
}

/// Joining the pieces of a cut gives the text back.
pub proof fn lemma_join_split(s: Seq<char>, sep: char)
    ensures
        join_with(split_on(s, sep), seq![sep]) == s,
    decreases s.len(),
{
    if s.len() > 0 {
        let d = s.drop_last();
        lemma_join_split(d, sep);
        lemma_split_nonempty(d, sep);
        let r = split_on(d, sep);
        if s.last() == sep {
            let r2 = r.push(Seq::<char>::empty());
            assert(r2.drop_last() == r);
            assert(d + seq![sep] + Seq::<char>::empty() == s);
        } else {
            let r2 = r.update(r.len() - 1, r.last().push(s.last()));
            if r.len() == 1 {
                assert(d.push(s.last()) == s);
            } else {
                assert(r2.drop_last() == r.drop_last());
                assert(join_with(r.drop_last(), seq![sep]) + seq![sep] + r.last().push(s.last())
                    == (join_with(r.drop_last(), seq![sep]) + seq![sep] + r.last()).push(s.last()));
                assert(d.push(s.last()) == s);
            }
        }
    }
}

/// Cutting a joined list gives the list back, when the list is not empty
/// and no piece holds the separator.
pub proof fn lemma_split_join(parts: Seq<Seq<char>>, sep: char)
    requires
        parts.len() >= 1,
        forall|k: int| 0 <= k < parts.len() ==> lacks(#[trigger] parts[k], sep),
    ensures
        split_on(join_with(parts, seq![sep]), sep) == parts,
    decreases parts.len(),
{
    if parts.len() == 1 {
        assert(lacks(parts[0], sep));
        lemma_split_without_sep(parts[0], sep);
        assert(parts == seq![parts[0]]);
    } else {
        let d = parts.drop_last();
        assert forall|k: int| 0 <= k < d.len() implies lacks(#[trigger] d[k], sep) by {
            assert(d[k] == parts[k]);
        }
        lemma_split_join(d, sep);
        assert(lacks(parts[parts.len() - 1], sep));
        lemma_split_without_sep(parts.last(), sep);
        lemma_split_concat(join_with(d, seq![sep]), parts.last(), sep);
        assert(d + seq![parts.last()] == parts);
    }
}

/// What follows `p` on the first piece that starts with `p`, if one does.
pub open spec fn first_with_prefix(pieces: Seq<Seq<char>>, p: Seq<char>) -> Option<Seq<char>>
    decreases pieces.len(),
{
    if pieces.len() == 0 {
        None
    } else if has_prefix(pieces[0], p) {
        Some(pieces[0].subrange(p.len() as int, pieces[0].len() as int))
    } else {
        first_with_prefix(pieces.drop_first(), p)
    }
}

/// The characters of `s`, in order.
pub fn chars_of(s: &str) -> (r: Vec<char>)
    ensures
        r@ == s@,
{
    let mut out: Vec<char> = Vec::new();
    for c in it: s.chars()
        invariant
            out@ == it.seq().take(it.index() as int),
    {
        out.push(c);
    }
    out
}

/// Where the pieces of `split_on(s, sep)` lie in `s`: a start and an end
/// index for each.
pub fn split_bounds(s: &Vec<char>, sep: char) -> (r: Vec<(usize, usize)>)
    ensures
        r@.len() == split_on(s@, sep).len(),
        forall|k: int|
            0 <= k < r@.len() ==> {
                &&& (#[trigger] r@[k]).0 <= r@[k].1 <= s@.len()
                &&& s@.subrange(r@[k].0 as int, r@[k].1 as int) == split_on(s@, sep)[k]
            },
{
    let n = s.len();
    let mut out: Vec<(usize, usize)> = Vec::new();
    let mut start: usize = 0;
    let mut i: usize = 0;
    proof {
        assert(s@.take(0) == Seq::<char>::empty());
    }
    while i < n
        invariant
            n == s@.len(),
            i <= n,
            start <= i,
            out@.len() + 1 == split_on(s@.take(i as int), sep).len(),
            forall|k: int|
                0 <= k < out@.len() ==> {
                    &&& (#[trigger] out@[k]).0 <= out@[k].1 <= i
                    &&& s@.subrange(out@[k].0 as int, out@[k].1 as int) == split_on(
                        s@.take(i as int),
                        sep,
                    )[k]
                },
            s@.subrange(start as int, i as int) == split_on(s@.take(i as int), sep).last(),
        decreases n - i,
    {
        let ghost prev = split_on(s@.take(i as int), sep);
        proof {
            lemma_split_nonempty(s@.take(i as int), sep);
            assert(s@.take(i + 1).drop_last() == s@.take(i as int));
            assert(s@.take(i + 1).last() == s@[i as int]);
        }
        if s[i] == sep {
            out.push((start, i));
            start = i + 1;
            i = i + 1;
            proof {
                assert(s@.subrange(start as int, i as int) == Seq::<char>::empty());
            }
        } else {
            i = i + 1;
            proof {
                assert(s@.subrange(start as int, i as int) == s@.subrange(
                    start as int,
                    i - 1,
                ).push(s@[i - 1]));
            }
        }
    }
    out.push((start, n));
    proof {
        assert(s@.take(n as int) == s@);
    }
    out
}

/// `s` cut at every occurrence of `sep`.
pub fn split_text(s: &str, sep: char) -> (r: Vec<String>)
    ensures
        views(r@) == split_on(s@, sep),
{
    let cs = chars_of(s);
    let bounds = split_bounds(&cs, sep);
    let mut out: Vec<String> = Vec::new();
    for k in 0..bounds.len()
        invariant
            cs@ == s@,
            bounds@.len() == split_on(s@, sep).len(),
            forall|j: int|
                0 <= j < bounds@.len() ==> {
                    &&& (#[trigger] bounds@[j]).0 <= bounds@[j].1 <= s@.len()
                    &&& s@.subrange(bounds@[j].0 as int, bounds@[j].1 as int) == split_on(
                        s@,
                        sep,
                    )[j]
                },
            out@.len() == k,
            forall|j: int| 0 <= j < k ==> (#[trigger] out@[j])@ == split_on(s@, sep)[j],
    {
        let (a, b) = bounds[k];
        let piece = String::from_str(s.substring_char(a, b));
        out.push(piece);
    }
    proof {
        assert(views(out@) == split_on(s@, sep));
    }
    out
}

/// The strings written one after another, with `sep` between two neighbours.
pub fn join_text(parts: &Vec<String>, sep: &str) -> (r: String)
    ensures
        r@ == join_with(views(parts@), sep@),
{
    let mut out = String::new();
    let n = parts.len();
    let mut k: usize = 0;
    while k < n
        invariant
            n == parts@.len(),
            k <= n,
            out@ == join_with(views(parts@.take(k as int)), sep@),
        decreases n - k,
    {
        proof {
            let v = views(parts@.take(k + 1));
            assert(v.drop_last() == views(parts@.take(k as int)));
            assert(v.last() == parts@[k as int]@);
        }
        if k > 0 {
            out.append(sep);
        }
        out.append(parts[k].as_str());
        k = k + 1;
    }
    proof {
        assert(parts@.take(n as int) == parts@);
    }
    out
}

/// Whether `frag` occurs in `s` as a run of consecutive characters.
pub fn contains_text(s: &str, frag: &str) -> (r: bool)
    ensures
        r == contains_seq(s@, frag@),
{
    let a = chars_of(s);
    let b = chars_of(frag);
    if b.len() > a.len() {
        return false;
    }
    if b.len() == 0 {
        proof {
            assert(s@.subrange(0, 0 + frag@.len() as int) =~= frag@);
        }
        return true;
    }
    let last = a.len() - b.len();
    let mut i: usize = 0;
    while i <= last
        invariant
            a@ == s@,
            b@ == frag@,
            a@.len() == a.len(),
            last == a@.len() - b@.len(),
            b@.len() >= 1,
            i <= last + 1,
            forall|j: int| 0 <= j < i ==> #[trigger] a@.subrange(j, j + b@.len()) != b@,
        decreases last + 1 - i,
    {
        let mut k: usize = 0;
        let mut same = true;
        proof {
            assert(a@.subrange(i as int, i as int) =~= b@.take(0));
        }
        while k < b.len()
            invariant
                a@ == s@,
                b@ == frag@,
                a@.len() == a.len(),
                i <= last,
                last == a@.len() - b@.len(),
                i + b@.len() <= a@.len(),
                k <= b@.len(),
                i + k <= a@.len(),
                same == (a@.subrange(i as int, i + k) =~= b@.take(k as int)),
            decreases b@.len() - k,
        {
            proof {
                assert(a@.subrange(i as int, i + k + 1) == a@.subrange(i as int, i + k).push(
                    a@[i + k],
                ));
                assert(b@.take(k + 1) == b@.take(k as int).push(b@[k as int]));
                if a@.subrange(i as int, i + k + 1) == b@.take(k + 1) {
                    assert(a@.subrange(i as int, i + k + 1)[k as int] == a@[i + k]);
                }
            }
            assert(i + k < a@.len());
            let c = a[i + k];
            same = same && c == b[k];
            k = k + 1;
        }
        proof {
            assert(b@.take(b@.len() as int) == b@);
        }
        if same {
            return true;
        }
        i = i + 1;
    }
    proof {
        if contains_seq(s@, frag@) {
            let j = choose|j: int|
                0 <= j && j + frag@.len() <= s@.len() && #[trigger] s@.subrange(j, j + frag@.len())
                    == frag@;
            assert(a@.subrange(j, j + b@.len()) == b@);
        }
    }
    false
}

/// Whether the piece `s[a..b]` starts with `p`.
pub fn piece_has_prefix(s: &Vec<char>, a: usize, b: usize, p: &Vec<char>) -> (r: bool)
    requires
        a <= b <= s@.len(),
    ensures
        r == has_prefix(s@.subrange(a as int, b as int), p@),
{
    if p.len() > b - a {
        return false;
    }
    let ghost piece = s@.subrange(a as int, b as int);
    let mut k: usize = 0;
    while k < p.len()
        invariant
            a <= b <= s@.len(),
            piece == s@.subrange(a as int, b as int),
            p@.len() <= b - a,
            k <= p@.len(),
            piece.subrange(0, k as int) == p@.take(k as int),
        decreases p@.len() - k,
    {
        if s[a + k] != p[k] {
            proof {
                assert(piece.subrange(0, p@.len() as int)[k as int] == s@[a + k]);
            }
            return false;
        }
        proof {
            assert(piece.subrange(0, k + 1) == piece.subrange(0, k as int).push(piece[k as int]));
            assert(p@.take(k + 1) == p@.take(k as int).push(p@[k as int]));
        }
        k = k + 1;
    }
    proof {
        assert(p@.take(p@.len() as int) == p@);
    }
    true
}

/// What follows `key` on the first line of `text` that starts with `key`.
/// `chars` and `lines` are the characters of `text` and where its lines lie.
pub fn first_value(text: &str, chars: &Vec<char>, lines: &Vec<(usize, usize)>, key: &str) -> (r:
    Option<String>)
    requires
        chars@ == text@,
        lines@.len() == split_on(text@, '\n').len(),
        forall|k: int|
            0 <= k < lines@.len() ==> {
                &&& (#[trigger] lines@[k]).0 <= lines@[k].1 <= text@.len()
                &&& text@.subrange(lines@[k].0 as int, lines@[k].1 as int) == split_on(
                    text@,
                    '\n',
                )[k]
            },
    ensures
        match r {
            Some(s) => first_with_prefix(split_on(text@, '\n'), key@) == Some(s@),
            None => first_with_prefix(split_on(text@, '\n'), key@) is None,
        },
{
    let ghost ls = split_on(text@, '\n');
    let kc = chars_of(key);
    let n = lines.len();
    let mut k: usize = 0;
    proof {
        assert(ls.subrange(0, ls.len() as int) == ls);
    }
    while k < n
        invariant
            chars@ == text@,
            ls == split_on(text@, '\n'),
            kc@ == key@,
            n == lines@.len(),
            lines@.len() == ls.len(),
            forall|j: int|
                0 <= j < lines@.len() ==> {
                    &&& (#[trigger] lines@[j]).0 <= lines@[j].1 <= text@.len()
                    &&& text@.subrange(lines@[j].0 as int, lines@[j].1 as int) == ls[j]
                },
            k <= n,
            first_with_prefix(ls, key@) == first_with_prefix(ls.subrange(k as int, n as int), key@),
        decreases n - k,
    {
        let (a, b) = lines[k];
        let ghost rest = ls.subrange(k as int, n as int);
        proof {
            assert(rest[0] == ls[k as int]);
            assert(rest.drop_first() == ls.subrange(k + 1, n as int));
        }
        if piece_has_prefix(chars, a, b, &kc) {
            let v = String::from_str(text.substring_char(a + kc.len(), b));
            proof {
                assert(ls[k as int].subrange(key@.len() as int, ls[k as int].len() as int)
                    == text@.subrange(a + key@.len(), b as int));
            }
            return Some(v);
        }
        k = k + 1;
    }
    None
}

/// Whether one of the lines of `text` is `line`. `chars` and `lines` are
/// the characters of `text` and where its lines lie.
pub fn has_line(chars: &Vec<char>, lines: &Vec<(usize, usize)>, line: &str) -> (r: bool)
    requires
        lines@.len() == split_on(chars@, '\n').len(),
        forall|k: int|
            0 <= k < lines@.len() ==> {
                &&& (#[trigger] lines@[k]).0 <= lines@[k].1 <= chars@.len()
                &&& chars@.subrange(lines@[k].0 as int, lines@[k].1 as int) == split_on(
                    chars@,
                    '\n',
                )[k]
            },
    ensures
        r == split_on(chars@, '\n').contains(line@),
{
    let ghost ls = split_on(chars@, '\n');
    let lc = chars_of(line);
    let n = lines.len();
    let mut k: usize = 0;
    while k < n
        invariant
            ls == split_on(chars@, '\n'),
            lc@ == line@,
            n == lines@.len(),
            lines@.len() == ls.len(),
            forall|j: int|
                0 <= j < lines@.len() ==> {
                    &&& (#[trigger] lines@[j]).0 <= lines@[j].1 <= chars@.len()
                    &&& chars@.subrange(lines@[j].0 as int, lines@[j].1 as int) == ls[j]
                },
            k <= n,
            forall|j: int| 0 <= j < k ==> ls[j] != line@,
        decreases n - k,
    {
        let (a, b) = lines[k];
        if b - a == lc.len() && piece_has_prefix(chars, a, b, &lc) {
            proof {
                let piece = chars@.subrange(a as int, b as int);
                assert(piece.subrange(0, line@.len() as int) == piece);
                assert(ls[k as int] == line@);
            }
            return true;
        }
        proof {
            if ls[k as int] == line@ {
                let piece = chars@.subrange(a as int, b as int);
                assert(piece.subrange(0, line@.len() as int) == piece);
            }
        }
        k = k + 1;
    }
    false
}

/// Whether `a` and `b` are the same text.
pub fn same_text(a: &str, b: &str) -> (r: bool)
    ensures
        r == (a@ == b@),
{
    let x = chars_of(a);
    let y = chars_of(b);
    if x.len() != y.len() {
        return false;
    }
    let mut k: usize = 0;
    while k < x.len()
        invariant
            x@ == a@,
            y@ == b@,
            x@.len() == y@.len(),
            k <= x@.len(),
            x@.take(k as int) == y@.take(k as int),
        decreases x@.len() - k,
    {
        if x[k] != y[k] {
            return false;
        }
        proof {
            assert(x@.take(k + 1) == x@.take(k as int).push(x@[k as int]));
            assert(y@.take(k + 1) == y@.take(k as int).push(y@[k as int]));
        }
        k = k + 1;
    }
    proof {
        assert(x@.take(x@.len() as int) == x@);
        assert(y@.take(y@.len() as int) == y@);
    }
    true
}

} // verus!
