//! Character-sequence utilities: splitting on a separator, joining with a
//! separator, order-keeping deduplication, and ASCII case-insensitive
//! comparison. The spec functions here are the model that the note parser's
//! and formatter's contracts are stated over.

use vstd::prelude::*;

verus! {

/// Split `s` on the separator `sep`, scanning left to right, keeping empty
/// pieces. The result always holds at least one piece; splitting an empty
/// sequence yields one empty piece.
pub open spec fn split_by(s: Seq<char>, sep: Seq<char>) -> Seq<Seq<char>>
    decreases s.len(),
{
    if sep.len() == 0 || s.len() == 0 {
        seq![s]
    } else if s.len() >= sep.len() && s.subrange(0, sep.len() as int) == sep {
        seq![Seq::<char>::empty()] + split_by(s.subrange(sep.len() as int, s.len() as int), sep)
    } else {
        let rest = split_by(s.subrange(1, s.len() as int), sep);
        seq![seq![s[0]] + rest[0]] + rest.subrange(1, rest.len() as int)
    }
}

pub proof fn lemma_split_by_nonempty(s: Seq<char>, sep: Seq<char>)
    ensures
        split_by(s, sep).len() >= 1,
    decreases s.len(),
{
    if sep.len() == 0 || s.len() == 0 {
    } else if s.len() >= sep.len() && s.subrange(0, sep.len() as int) == sep {
    } else {
        lemma_split_by_nonempty(s.subrange(1, s.len() as int), sep);
    }
}

/// `sep` occurs in `s` starting at index `j`.
pub open spec fn sep_at(s: Seq<char>, sep: Seq<char>, j: int) -> bool {
    0 <= j && j + sep.len() <= s.len() && s.subrange(j, j + sep.len() as int) == sep
}

/// If `sep` occurs nowhere in `s`, the split is the single piece `s`.
pub proof fn lemma_split_by_no_match(s: Seq<char>, sep: Seq<char>)
    requires
        sep.len() > 0,
        forall|j: int| !sep_at(s, sep, j),
    ensures
        split_by(s, sep) == seq![s],
    decreases s.len(),
{
    if s.len() == 0 {
    } else if s.len() >= sep.len() && s.subrange(0, sep.len() as int) == sep {
        assert(!sep_at(s, sep, 0));
    } else {
        let tail = s.subrange(1, s.len() as int);
        assert forall|j: int| !sep_at(tail, sep, j) by {
            if 0 <= j && j + sep.len() <= tail.len() {
                assert(tail.subrange(j, j + sep.len() as int) =~= s.subrange(
                    j + 1,
                    j + 1 + sep.len() as int,
                ));
                assert(!sep_at(s, sep, j + 1));
            }
        }
        lemma_split_by_no_match(tail, sep);
        let rest = split_by(tail, sep);
        assert(rest == seq![tail]);
        assert(seq![s[0]] + rest[0] =~= s);
        assert(rest.subrange(1, rest.len() as int) =~= Seq::<Seq<char>>::empty());
        assert(seq![seq![s[0]] + rest[0]] + rest.subrange(1, rest.len() as int) =~= seq![s]);
    }
}

/// If the first occurrence of `sep` in `s` is at index `i`, the split is the
/// piece before `i` followed by the split of what comes after the separator.
pub proof fn lemma_split_by_first_match(s: Seq<char>, sep: Seq<char>, i: int)
    requires
        sep.len() > 0,
        sep_at(s, sep, i),
        forall|j: int| 0 <= j < i ==> !sep_at(s, sep, j),
    ensures
        split_by(s, sep) == seq![s.subrange(0, i)] + split_by(
            s.subrange(i + sep.len() as int, s.len() as int),
            sep,
        ),
    decreases i,
{
    if i == 0 {
        assert(s.len() >= sep.len());
        assert(s.subrange(0, sep.len() as int) == sep);
        assert(s.subrange(0, 0) =~= Seq::<char>::empty());
        assert(seq![Seq::<char>::empty()] =~= seq![s.subrange(0, 0)]);
    } else {
        assert(!sep_at(s, sep, 0));
        assert(s.subrange(0, sep.len() as int) != sep);
        assert(s.len() > 0);
        let tail = s.subrange(1, s.len() as int);
        assert(tail.subrange(i - 1, i - 1 + sep.len() as int) =~= s.subrange(
            i,
            i + sep.len() as int,
        ));
        assert(sep_at(tail, sep, i - 1));
        assert forall|j: int| 0 <= j < i - 1 implies !sep_at(tail, sep, j) by {
            if j + sep.len() <= tail.len() {
                assert(tail.subrange(j, j + sep.len() as int) =~= s.subrange(
                    j + 1,
                    j + 1 + sep.len() as int,
                ));
                assert(!sep_at(s, sep, j + 1));
            }
        }
        lemma_split_by_first_match(tail, sep, i - 1);
        let rest = split_by(tail, sep);
        let after = split_by(s.subrange(i + sep.len() as int, s.len() as int), sep);
        assert(tail.subrange(i - 1 + sep.len() as int, tail.len() as int) =~= s.subrange(
            i + sep.len() as int,
            s.len() as int,
        ));
        assert(rest == seq![tail.subrange(0, i - 1)] + after);
        lemma_split_by_nonempty(s.subrange(i + sep.len() as int, s.len() as int), sep);
        assert(rest[0] == tail.subrange(0, i - 1));
        assert(seq![s[0]] + rest[0] =~= s.subrange(0, i));
        assert(rest.subrange(1, rest.len() as int) =~= after);
        assert(seq![seq![s[0]] + rest[0]] + rest.subrange(1, rest.len() as int) =~= seq![
            s.subrange(0, i),
        ] + after);
    }
}

/// Join the pieces with the separator `sep` between each pair of neighbours.
pub open spec fn join_by(parts: Seq<Seq<char>>, sep: Seq<char>) -> Seq<char>
    decreases parts.len(),
{
    if parts.len() == 0 {
        Seq::<char>::empty()
    } else if parts.len() == 1 {
        parts[0]
    } else {
        parts[0] + sep + join_by(parts.subrange(1, parts.len() as int), sep)
    }
}

/// Joining one more piece appends a separator and the piece (or is the piece
/// itself when nothing was joined yet).
pub proof fn lemma_join_by_push(parts: Seq<Seq<char>>, sep: Seq<char>, x: Seq<char>)
    ensures
        join_by(parts.push(x), sep) == if parts.len() == 0 {
            x
        } else {
            join_by(parts, sep) + sep + x
        },
    decreases parts.len(),
{
    if parts.len() == 0 {
        assert(parts.push(x)[0] == x);
    } else {
        let p = parts.push(x);
        assert(p.len() >= 2);
        assert(p.subrange(1, p.len() as int) =~= parts.subrange(1, parts.len() as int).push(x));
        lemma_join_by_push(parts.subrange(1, parts.len() as int), sep, x);
        if parts.len() == 1 {
            assert(parts.subrange(1, parts.len() as int) =~= Seq::<Seq<char>>::empty());
        }
    }
}

/// Keep the first occurrence of each piece, in order of first appearance.
pub open spec fn dedup(parts: Seq<Seq<char>>) -> Seq<Seq<char>>
    decreases parts.len(),
{
    if parts.len() == 0 {
        Seq::<Seq<char>>::empty()
    } else {
        let d = dedup(parts.drop_last());
        if d.contains(parts.last()) {
            d
        } else {
            d.push(parts.last())
        }
    }
}

/// No piece appears twice.
pub open spec fn distinct(parts: Seq<Seq<char>>) -> bool {
    forall|i: int, j: int| 0 <= i < j < parts.len() ==> parts[i] != parts[j]
}

proof fn lemma_to_set_push(s: Seq<Seq<char>>, x: Seq<char>)
    ensures
        s.push(x).to_set() == s.to_set().insert(x),
{
    assert forall|y: Seq<char>| s.push(x).to_set().contains(y) implies s.to_set().insert(
        x,
    ).contains(y) by {
        let idx = choose|idx: int| 0 <= idx < s.push(x).len() && s.push(x)[idx] == y;
        if idx < s.len() {
            assert(s.contains(y));
        }
    }
    assert forall|y: Seq<char>| s.to_set().insert(x).contains(y) implies s.push(
        x,
    ).to_set().contains(y) by {
        if s.contains(y) {
            let idx = choose|idx: int| 0 <= idx < s.len() && s[idx] == y;
            assert(s.push(x)[idx] == y);
        } else {
            assert(s.push(x)[s.len() as int] == y);
        }
    }
    assert(s.push(x).to_set() =~= s.to_set().insert(x));
}

/// Deduplication keeps exactly the set of pieces and leaves no duplicates.
pub proof fn lemma_dedup_props(parts: Seq<Seq<char>>)
    ensures
        dedup(parts).to_set() == parts.to_set(),
        distinct(dedup(parts)),
    decreases parts.len(),
{
    if parts.len() == 0 {
        assert(dedup(parts).to_set() =~= parts.to_set());
    } else {
        lemma_dedup_props(parts.drop_last());
        let d = dedup(parts.drop_last());
        assert(parts =~= parts.drop_last().push(parts.last()));
        lemma_to_set_push(parts.drop_last(), parts.last());
        if d.contains(parts.last()) {
            assert(d.to_set().contains(parts.last()));
            assert(dedup(parts).to_set() =~= parts.to_set());
        } else {
            lemma_to_set_push(d, parts.last());
            assert(dedup(parts).to_set() =~= parts.to_set());
            assert forall|i: int, j: int|
                0 <= i < j < dedup(parts).len() implies dedup(parts)[i] != dedup(parts)[j] by {
                if j < d.len() {
                    assert(d[i] != d[j]);
                } else {
                    assert(dedup(parts)[j] == parts.last());
                    assert(!d.to_set().contains(parts.last()));
                    assert(d.to_set().contains(d[i]));
                }
            }
        }
    }
}

/// The code point of `c` with an ASCII upper-case letter taken to lower case.
pub open spec fn lower_code(c: char) -> int {
    if 65 <= c as int && c as int <= 90 {
        c as int + 32
    } else {
        c as int
    }
}

/// `s` equals the (lower-case) keyword `kw` up to ASCII case.
pub open spec fn eq_case_insensitive(s: Seq<char>, kw: Seq<char>) -> bool {
    s.len() == kw.len() && forall|i: int| 0 <= i < s.len() ==> lower_code(s[i]) == kw[i] as int
}

/// Whether `sep` occurs in `s` starting at character index `i`.
fn str_match_at(s: &str, sep: &str, i: usize) -> (r: bool)
    requires
        i + sep@.len() <= s@.len(),
        s@.len() <= usize::MAX,
    ensures
        r == (s@.subrange(i as int, i as int + sep@.len() as int) == sep@),
{
    let m = sep.unicode_len();
    let ghost sub = s@.subrange(i as int, i as int + m as int);
    let mut k: usize = 0;
    while k < m
        invariant
            m == sep@.len(),
            i + m <= s@.len(),
            s@.len() <= usize::MAX,
            k <= m,
            sub == s@.subrange(i as int, i as int + m as int),
            forall|t: int| 0 <= t < k ==> s@[i + t] == sep@[t],
        decreases m - k,
    {
        if s.get_char(i + k) != sep.get_char(k) {
            proof {
                assert(sub[k as int] == s@[i + k]);
                assert(sub != sep@);
            }
            return false;
        }
        k += 1;
    }
    proof {
        assert(sub =~= sep@);
    }
    true
}

/// Split `s` on the non-empty separator `sep`, keeping empty pieces, as
/// `split_by` describes.
pub fn split_str(s: &str, sep: &str) -> (out: Vec<String>)
    requires
        sep@.len() > 0,
    ensures
        out.deep_view() == split_by(s@, sep@),
{
    let n = s.unicode_len();
    let m = sep.unicode_len();
    let mut out: Vec<String> = Vec::new();
    let mut start: usize = 0;
    let mut i: usize = 0;
    proof {
        assert(s@.subrange(0, n as int) =~= s@);
        assert(out.deep_view() + split_by(s@, sep@) =~= split_by(s@, sep@));
    }
    while m <= n && i <= n - m
        invariant
            n == s@.len(),
            m == sep@.len(),
            m >= 1,
            start <= i,
            i <= n,
            out.deep_view() + split_by(s@.subrange(start as int, n as int), sep@) == split_by(
                s@,
                sep@,
            ),
            forall|j: int| start <= j < i ==> !sep_at(s@, sep@, j),
        decreases n - i,
    {
        if str_match_at(s, sep, i) {
            let piece = s.substring_char(start, i).to_owned();
            proof {
                let whole = s@.subrange(start as int, n as int);
                assert(whole.subrange(i - start, i - start + m as int) =~= s@.subrange(
                    i as int,
                    i as int + m as int,
                ));
                assert(sep_at(whole, sep@, i - start));
                assert forall|j: int| 0 <= j < i - start implies !sep_at(whole, sep@, j) by {
                    if j + m <= whole.len() {
                        assert(whole.subrange(j, j + m as int) =~= s@.subrange(
                            start + j,
                            start + j + m as int,
                        ));
                        assert(!sep_at(s@, sep@, start + j));
                    }
                }
                lemma_split_by_first_match(whole, sep@, i - start);
                assert(whole.subrange(0, i - start) =~= s@.subrange(start as int, i as int));
                assert(whole.subrange(i - start + m as int, whole.len() as int) =~= s@.subrange(
                    i as int + m as int,
                    n as int,
                ));
                assert(out.deep_view().push(piece@) =~= out.deep_view() + seq![piece@]);
            }
            out.push(piece);
            proof {
                assert(out.deep_view() + split_by(
                    s@.subrange(i as int + m as int, n as int),
                    sep@,
                ) =~= split_by(s@, sep@));
            }
            start = i + m;
            i = start;
        } else {
            proof {
                assert(!sep_at(s@, sep@, i as int));
            }
            i += 1;
        }
    }
    proof {
        let whole = s@.subrange(start as int, n as int);
        assert forall|j: int| !sep_at(whole, sep@, j) by {
            if 0 <= j && j + m <= whole.len() {
                assert(whole.subrange(j, j + m as int) =~= s@.subrange(
                    start + j,
                    start + j + m as int,
                ));
                assert(start + j < i);
                assert(!sep_at(s@, sep@, start + j));
            }
        }
        lemma_split_by_no_match(whole, sep@);
    }
    let piece = s.substring_char(start, n).to_owned();
    proof {
        assert(out.deep_view().push(piece@) =~= out.deep_view() + seq![piece@]);
    }
    out.push(piece);
    proof {
        assert(out.deep_view() =~= split_by(s@, sep@));
    }
    out
}

/// Join `parts[from..]` with the separator `sep`, as `join_by` describes.
pub fn join_range(parts: &Vec<String>, from: usize, sep: &str) -> (r: String)
    requires
        from <= parts.len(),
    ensures
        r@ == join_by(parts.deep_view().subrange(from as int, parts.len() as int), sep@),
{
    let mut r = String::new();
    if from >= parts.len() {
        proof {
            assert(parts.deep_view().subrange(from as int, parts.len() as int)
                =~= Seq::<Seq<char>>::empty());
        }
        return r;
    }
    r.append(parts[from].as_str());
    proof {
        assert(parts.deep_view().subrange(from as int, from as int + 1) =~= seq![
            parts.deep_view()[from as int],
        ]);
    }
    let mut i: usize = from + 1;
    while i < parts.len()
        invariant
            from < i,
            i <= parts.len(),
            r@ == join_by(parts.deep_view().subrange(from as int, i as int), sep@),
        decreases parts.len() - i,
    {
        r.append(sep);
        r.append(parts[i].as_str());
        proof {
            lemma_join_by_push(
                parts.deep_view().subrange(from as int, i as int),
                sep@,
                parts.deep_view()[i as int],
            );
            assert(parts.deep_view().subrange(from as int, i as int + 1) =~= parts.deep_view()
                .subrange(from as int, i as int)
                .push(parts.deep_view()[i as int]));
        }
        i += 1;
    }
    r
}

/// Whether some element of `v` holds the same characters as `t`.
pub fn contains_string(v: &Vec<String>, t: &String) -> (r: bool)
    ensures
        r == v.deep_view().contains(t@),
{
    let mut i: usize = 0;
    while i < v.len()
        invariant
            i <= v.len(),
            forall|j: int| 0 <= j < i ==> v.deep_view()[j] != t@,
        decreases v.len() - i,
    {
        if v[i] == *t {
            proof {
                assert(v.deep_view()[i as int] == t@);
            }
            return true;
        }
        i += 1;
    }
    proof {
        assert forall|j: int| 0 <= j < v.deep_view().len() implies v.deep_view()[j] != t@ by {}
    }
    false
}

/// Drop every repeated element of `parts`, keeping first occurrences in
/// order, as `dedup` describes.
pub fn dedup_strings(parts: &Vec<String>) -> (out: Vec<String>)
    ensures
        out.deep_view() == dedup(parts.deep_view()),
{
    let mut out: Vec<String> = Vec::new();
    let mut j: usize = 0;
    while j < parts.len()
        invariant
            j <= parts.len(),
            out.deep_view() == dedup(parts.deep_view().subrange(0, j as int)),
        decreases parts.len() - j,
    {
        let present = contains_string(&out, &parts[j]);
        proof {
            assert(parts.deep_view().subrange(0, j as int + 1).drop_last() =~= parts.deep_view()
                .subrange(0, j as int));
            assert(parts.deep_view().subrange(0, j as int + 1).last()
                == parts.deep_view()[j as int]);
        }
        if !present {
            out.push(parts[j].clone());
            proof {
                assert(out.deep_view() =~= dedup(parts.deep_view().subrange(0, j as int)).push(
                    parts.deep_view()[j as int],
                ));
            }
        }
        j += 1;
    }
    proof {
        assert(parts.deep_view().subrange(0, parts.len() as int) =~= parts.deep_view());
    }
    out
}

/// Whether `s` equals the lower-case keyword `kw` up to ASCII case.
pub fn eq_ignore_ascii(s: &str, kw: &str) -> (r: bool)
    ensures
        r == eq_case_insensitive(s@, kw@),
{
    let n = s.unicode_len();
    let m = kw.unicode_len();
    if n != m {
        return false;
    }
    let mut i: usize = 0;
    while i < n
        invariant
            n == s@.len(),
            n == kw@.len(),
            i <= n,
            forall|j: int| 0 <= j < i ==> lower_code(s@[j]) == kw@[j] as int,
        decreases n - i,
    {
        let c = s.get_char(i);
        let k = kw.get_char(i);
        let code: u32 = c as u32;
        let lowered: u32 = if 65 <= code && code <= 90 {
            code + 32
        } else {
            code
        };
        if lowered != k as u32 {
            proof {
                assert(lower_code(s@[i as int]) != kw@[i as int] as int);
            }
            return false;
        }
        i += 1;
    }
    true
}

} // verus!
