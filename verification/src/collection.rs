//! A collection of notes and tag search over it.
//!
//! A search walks the notes in order and, for each note, the requested tags
//! in order, returning the note once for every requested tag it carries — so
//! a note meeting several requested tags comes back several times, as the
//! listing prints it.

use vstd::prelude::*;

use crate::jot::{Jot, JotView};
use crate::text::contains_string;

verus! {

/// The views of a sequence of notes, in order.
pub open spec fn views_of(s: Seq<Jot>) -> Seq<JotView> {
    s.map_values(|j: Jot| j@)
}

proof fn lemma_views_of_push(s: Seq<Jot>, j: Jot)
    ensures
        views_of(s.push(j)) == views_of(s).push(j@),
{
    assert(views_of(s.push(j)) =~= views_of(s).push(j@));
}

/// The copies of `n` a search returns for the requested tags, in request
/// order: one for each requested tag in `n`'s tag set.
pub open spec fn matches_of(n: JotView, tags: Seq<Seq<char>>) -> Seq<JotView>
    decreases tags.len(),
{
    if tags.len() == 0 {
        Seq::<JotView>::empty()
    } else {
        let rest = matches_of(n, tags.drop_last());
        if n.tags.contains(tags.last()) {
            rest.push(n)
        } else {
            rest
        }
    }
}

/// What a search returns: for each held note in order, one copy per
/// requested tag in its tag set.
pub open spec fn search_spec(notes: Seq<JotView>, tags: Seq<Seq<char>>) -> Seq<JotView>
    decreases notes.len(),
{
    if notes.len() == 0 {
        Seq::<JotView>::empty()
    } else {
        search_spec(notes.drop_last(), tags) + matches_of(notes.last(), tags)
    }
}

/// The note's tag set meets the requested tags.
pub open spec fn tag_overlap(n: JotView, tags: Seq<Seq<char>>) -> bool {
    exists|t: Seq<char>| tags.contains(t) && n.tags.contains(t)
}

/// All notes held at once, in the order they were gathered.
pub struct Jots {
    pub all: Vec<Jot>,
}

/// Search over a collection of notes.
pub trait JotCollection {
    /// The views of the notes held, in order.
    spec fn notes(&self) -> Seq<JotView>;

    /// Return every held note whose tag set meets the requested tags: one
    /// copy per requested tag the note carries, notes in held order, tags in
    /// request order.
    fn search(&self, tags: Vec<String>) -> (out: Vec<Jot>)
        ensures
            views_of(out@) == search_spec(self.notes(), tags.deep_view()),
    ;
}

/// A field-for-field copy of a note.
fn copy_jot(j: &Jot) -> (r: Jot)
    ensures
        r@ == j@,
{
    let mut tags: Vec<String> = Vec::new();
    proof {
        assert(tags.deep_view() =~= j.tags.deep_view().subrange(0, 0));
    }
    let mut i: usize = 0;
    while i < j.tags.len()
        invariant
            i <= j.tags.len(),
            tags@.len() == i,
            forall|t: int| 0 <= t < i ==> tags@[t]@ == j.tags@[t]@,
        decreases j.tags.len() - i,
    {
        let s = j.tags[i].clone();
        proof {
            assert(s == j.tags@[i as int]);
        }
        tags.push(s);
        i += 1;
    }
    proof {
        assert(tags.deep_view() =~= j.tags.deep_view());
    }
    let r = Jot {
        title: j.title.clone(),
        variant: j.variant,
        tags,
        content: j.content.clone(),
        archived: j.archived,
    };
    proof {
        assert(r@ =~= j@);
    }
    r
}

impl JotCollection for Jots {
    open spec fn notes(&self) -> Seq<JotView> {
        views_of(self.all@)
    }

    fn search(&self, tags: Vec<String>) -> (out: Vec<Jot>) {
        let ghost ns = views_of(self.all@);
        let ghost ts = tags.deep_view();
        let mut out: Vec<Jot> = Vec::new();
        proof {
            assert(views_of(out@) =~= Seq::<JotView>::empty());
            assert(ns.subrange(0, 0) =~= Seq::<JotView>::empty());
        }
        let mut i: usize = 0;
        while i < self.all.len()
            invariant
                i <= self.all.len(),
                ns == views_of(self.all@),
                ts == tags.deep_view(),
                views_of(out@) == search_spec(ns.subrange(0, i as int), ts),
            decreases self.all.len() - i,
        {
            let n = &self.all[i];
            proof {
                assert(n@ == ns[i as int]);
                assert(matches_of(n@, ts.subrange(0, 0)) =~= Seq::<JotView>::empty());
                assert(views_of(out@) + Seq::<JotView>::empty() =~= views_of(out@));
            }
            let mut k: usize = 0;
            while k < tags.len()
                invariant
                    k <= tags.len(),
                    i < self.all.len(),
                    ns == views_of(self.all@),
                    ts == tags.deep_view(),
                    n@ == ns[i as int],
                    n.tags.deep_view() == ns[i as int].tags,
                    views_of(out@) == search_spec(ns.subrange(0, i as int), ts) + matches_of(
                        ns[i as int],
                        ts.subrange(0, k as int),
                    ),
                decreases tags.len() - k,
            {
                let hit = contains_string(&n.tags, &tags[k]);
                proof {
                    assert(tags.deep_view()[k as int] == tags@[k as int]@);
                    assert(ts.subrange(0, k + 1).drop_last() =~= ts.subrange(0, k as int));
                    assert(ts.subrange(0, k + 1).last() == ts[k as int]);
                }
                if hit {
                    let c = copy_jot(n);
                    let ghost prev = out@;
                    out.push(c);
                    proof {
                        assert(out@ == prev.push(c));
                        lemma_views_of_push(prev, c);
                        assert(views_of(prev).push(n@) =~= search_spec(ns.subrange(0, i as int), ts)
                            + matches_of(ns[i as int], ts.subrange(0, k as int)).push(n@));
                    }
                }
                k += 1;
            }
            proof {
                assert(ts.subrange(0, ts.len() as int) =~= ts);
                assert(ns.subrange(0, i + 1).drop_last() =~= ns.subrange(0, i as int));
                assert(ns.subrange(0, i + 1).last() == ns[i as int]);
            }
            i += 1;
        }
        proof {
            assert(ns.subrange(0, self.all.len() as int) =~= ns);
        }
        out
    }
}

proof fn lemma_matches_of(n: JotView, tags: Seq<Seq<char>>)
    ensures
        forall|k: int| 0 <= k < matches_of(n, tags).len() ==> matches_of(n, tags)[k] == n,
        matches_of(n, tags).len() > 0 <==> tag_overlap(n, tags),
    decreases tags.len(),
{
    if tags.len() == 0 {
        if tag_overlap(n, tags) {
            let t = choose|t: Seq<char>| tags.contains(t) && n.tags.contains(t);
            assert(tags.contains(t));
            let idx = choose|idx: int| 0 <= idx < tags.len() && tags[idx] == t;
            assert(false);
        }
    } else {
        lemma_matches_of(n, tags.drop_last());
        if n.tags.contains(tags.last()) {
            assert(tags[tags.len() - 1] == tags.last());
            assert(tags.contains(tags.last()));
            assert(tag_overlap(n, tags));
        } else {
            if tag_overlap(n, tags) {
                let t = choose|t: Seq<char>| tags.contains(t) && n.tags.contains(t);
                let idx = choose|idx: int| 0 <= idx < tags.len() && tags[idx] == t;
                assert(idx < tags.len() - 1);
                assert(tags.drop_last()[idx] == t);
                assert(tags.drop_last().contains(t));
                assert(tag_overlap(n, tags.drop_last()));
            }
            if tag_overlap(n, tags.drop_last()) {
                let t = choose|t: Seq<char>| tags.drop_last().contains(t) && n.tags.contains(t);
                let idx = choose|idx: int|
                    0 <= idx < tags.drop_last().len() && tags.drop_last()[idx] == t;
                assert(tags[idx] == t);
                assert(tags.contains(t));
                assert(tag_overlap(n, tags));
            }
        }
    }
}

/// Law: a search returns every note whose tag set meets the requested tags,
/// and every note it returns is a held note whose tag set meets them — none
/// with a disjoint tag set.
pub proof fn lemma_search_sound_complete(notes: Seq<JotView>, tags: Seq<Seq<char>>)
    ensures
        forall|i: int|
            0 <= i < notes.len() && tag_overlap(notes[i], tags) ==> search_spec(
                notes,
                tags,
            ).contains(notes[i]),
        forall|k: int|
            0 <= k < search_spec(notes, tags).len() ==> notes.contains(search_spec(notes, tags)[k])
                && tag_overlap(search_spec(notes, tags)[k], tags),
    decreases notes.len(),
{
    if notes.len() == 0 {
    } else {
        lemma_search_sound_complete(notes.drop_last(), tags);
        lemma_matches_of(notes.last(), tags);
        let pre = search_spec(notes.drop_last(), tags);
        let m = matches_of(notes.last(), tags);
        let whole = search_spec(notes, tags);
        assert(whole == pre + m);
        assert forall|i: int|
            0 <= i < notes.len() && tag_overlap(notes[i], tags) implies whole.contains(
            notes[i],
        ) by {
            if i < notes.len() - 1 {
                assert(notes.drop_last()[i] == notes[i]);
                assert(pre.contains(notes[i]));
                let idx = choose|idx: int| 0 <= idx < pre.len() && pre[idx] == notes[i];
                assert(whole[idx] == notes[i]);
            } else {
                assert(notes[i] == notes.last());
                assert(m.len() > 0);
                assert(m[0] == notes.last());
                assert(whole[pre.len() as int] == notes.last());
            }
        }
        assert forall|k: int| 0 <= k < whole.len() implies notes.contains(whole[k]) && tag_overlap(
            whole[k],
            tags,
        ) by {
            if k < pre.len() {
                assert(whole[k] == pre[k]);
                assert(notes.drop_last().contains(pre[k]));
                let idx = choose|idx: int|
                    0 <= idx < notes.drop_last().len() && notes.drop_last()[idx] == pre[k];
                assert(notes[idx] == pre[k]);
                assert(notes.contains(whole[k]));
            } else {
                assert(whole[k] == m[k - pre.len()]);
                assert(whole[k] == notes.last());
                assert(m.len() > 0);
                assert(notes[notes.len() - 1] == notes.last());
                assert(notes.contains(whole[k]));
            }
        }
    }
}

} // verus!
