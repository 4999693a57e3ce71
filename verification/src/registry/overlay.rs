//! One registry laid over another.
//!
//! - What is published goes to the top layer.
//! - A crate is downloaded from the top layer, and from the bottom layer where the top
//!   layer does not have it.
//! - A lookup merges the entries of both layers; for a version that both have, the entry
//!   of the top layer counts.

use vstd::prelude::*;

use crate::registry::index;
use crate::registry::RegistryError;
use crate::text::same_text;
use crate::types::IndexEntry;

verus! {

/// A registry laid over another.
pub struct OverlayRegistry<Top, Bottom> {
    /// The layer that is asked first and written to.
    pub top: Top,
    /// The layer below.
    pub bottom: Bottom,
}

/// What to do next in a lookup, once the top layer has answered.
pub enum LookupStep {
    /// The lookup is over.
    Done(RegistryError),
    /// The bottom layer is to be asked; the top layer has these entries.
    AskBottom(Vec<IndexEntry>),
}

/// What to do next in a download, once the top layer has answered.
pub enum DownloadStep {
    /// The download is over.
    Done(Result<Vec<u8>, RegistryError>),
    /// The bottom layer is to be asked, and its answer stands.
    AskBottom,
}

/// Whether an entry of the version is among the entries.
pub open spec fn has_version(entries: Seq<IndexEntry>, vers: Seq<char>) -> bool {
    exists|i: int| 0 <= i < entries.len() && #[trigger] entries[i].vers@ == vers
}

/// The entries whose version is not among `over`.
pub open spec fn not_covered(entries: Seq<IndexEntry>, over: Seq<IndexEntry>) -> Seq<IndexEntry> {
    entries.filter(|e: IndexEntry| !has_version(over, e.vers@))
}

/// The last entry of each version, in the order in which they stand.
pub open spec fn last_of_each(entries: Seq<IndexEntry>) -> Seq<IndexEntry>
    decreases entries.len(),
{
    if entries.len() == 0 {
        Seq::empty()
    } else {
        let last = entries.last();
        not_covered(last_of_each(entries.drop_last()), seq![last]).push(last)
    }
}

/// The entries of two layers put together: those of the bottom layer whose version the
/// top layer does not have, then those of the top layer.
pub open spec fn merged(top: Seq<IndexEntry>, bottom: Seq<IndexEntry>) -> Seq<IndexEntry> {
    not_covered(bottom, top) + last_of_each(top)
}

/// Drops the entries of one version.
fn drop_version(entries: Vec<IndexEntry>, vers: &str) -> (kept: Vec<IndexEntry>)
    ensures
        kept@ == entries@.filter(|e: IndexEntry| e.vers@ != vers@),
{
    let ghost all = entries@;
    let ghost other = |e: IndexEntry| e.vers@ != vers@;
    let mut kept: Vec<IndexEntry> = Vec::new();
    assert(all.take(0).filter(other) =~= Seq::<IndexEntry>::empty()) by {
        reveal(Seq::filter);
    }
    for e in it: entries
        invariant
            it.seq() == all,
            other == (|e: IndexEntry| e.vers@ != vers@),
            kept@ == all.take(it.index()).filter(other),
    {
        proof {
            reveal(Seq::filter);
            assert(all.take(it.index() + 1).drop_last() =~= all.take(it.index()));
        }
        if !same_text(e.vers.as_str(), vers) {
            kept.push(e);
        }
    }
    assert(all.take(all.len() as int) =~= all);
    kept
}

/// Puts the entries of two layers together.
pub fn merge(top_entries: Vec<IndexEntry>, bottom_entries: Vec<IndexEntry>) -> (entries: Vec<
    IndexEntry,
>)
    ensures
        entries@ == merged(top_entries@, bottom_entries@),
{
    let ghost top = top_entries@;
    let ghost bottom = bottom_entries@;
    let mut entries = bottom_entries;
    proof {
        lemma_nothing_covered(bottom);
        assert(top.take(0) =~= Seq::empty());
        assert(merged(top.take(0), bottom) =~= bottom);
    }
    for e in it: top_entries
        invariant
            it.seq() == top,
            entries@ == merged(top.take(it.index()), bottom),
    {
        let ghost before = top.take(it.index());
        entries = drop_version(entries, e.vers.as_str());
        entries.push(e);
        proof {
            assert(top.take(it.index() + 1) =~= before.push(e));
            lemma_merge_one_more(before, bottom, e);
        }
    }
    assert(top.take(top.len() as int) =~= top);
    entries
}

impl<Top: Clone, Bottom: Clone> Clone for OverlayRegistry<Top, Bottom> {
    fn clone(&self) -> (copy: OverlayRegistry<Top, Bottom>)
        ensures
            cloned(self.top, copy.top),
            cloned(self.bottom, copy.bottom),
    {
        OverlayRegistry { top: self.top.clone(), bottom: self.bottom.clone() }
    }
}

impl<Top, Bottom> OverlayRegistry<Top, Bottom> {
    /// Lays `top` over `bottom`.
    pub fn new(top: Top, bottom: Bottom) -> (overlay: OverlayRegistry<Top, Bottom>)
        ensures
            overlay == (OverlayRegistry { top, bottom }),
    {
        OverlayRegistry { top, bottom }
    }

    /// Goes on with a lookup when the top layer has answered: an error ends it.
    pub fn lookup_top(answer: Result<Vec<IndexEntry>, RegistryError>) -> (step: LookupStep)
        ensures
            step == match answer {
                Ok(entries) => LookupStep::AskBottom(entries),
                Err(e) => LookupStep::Done(e),
            },
    {
        match answer {
            Ok(entries) => LookupStep::AskBottom(entries),
            Err(e) => LookupStep::Done(e),
        }
    }

    /// Ends a lookup when the bottom layer has answered too.
    pub fn lookup_bottom(
        top_entries: Vec<IndexEntry>,
        answer: Result<Vec<IndexEntry>, RegistryError>,
    ) -> (entries: Result<Vec<IndexEntry>, RegistryError>)
        ensures
            match answer {
                Ok(bottom_entries) => entries matches Ok(all) && all@ == merged(
                    top_entries@,
                    bottom_entries@,
                ),
                Err(e) => entries == Err::<Vec<IndexEntry>, RegistryError>(e),
            },
    {
        match answer {
            Ok(bottom_entries) => Ok(merge(top_entries, bottom_entries)),
            Err(e) => Err(e),
        }
    }

    /// Goes on with a download when the top layer has answered: the bottom layer is
    /// asked only where the top layer does not have the crate.
    pub fn download_top(answer: Result<Vec<u8>, RegistryError>) -> (step: DownloadStep)
        ensures
            step == match answer {
                Err(RegistryError::NotFound) => DownloadStep::AskBottom,
                _ => DownloadStep::Done(answer),
            },
    {
        match answer {
            Ok(data) => DownloadStep::Done(Ok(data)),
            Err(RegistryError::NotFound) => DownloadStep::AskBottom,
            Err(e) => DownloadStep::Done(Err(e)),
        }
    }

    /// The layer that takes what is published: the top layer.
    pub fn publish_layer(&self) -> (layer: &Top)
        ensures
            layer == &self.top,
    {
        &self.top
    }
}

/// Where nothing lies over them, all entries count.
pub proof fn lemma_nothing_covered(entries: Seq<IndexEntry>)
    ensures
        not_covered(entries, Seq::empty()) == entries,
    decreases entries.len(),
{
    reveal(Seq::filter);
    if entries.len() > 0 {
        lemma_nothing_covered(entries.drop_last());
        assert(entries.drop_last().push(entries.last()) =~= entries);
    } else {
        assert(not_covered(entries, Seq::empty()) =~= entries);
    }
}

/// Filtering twice is filtering by both.
proof fn lemma_filter_twice<A>(
    s: Seq<A>,
    p: spec_fn(A) -> bool,
    q: spec_fn(A) -> bool,
    both: spec_fn(A) -> bool,
)
    requires
        forall|a: A| #[trigger] both(a) == (p(a) && q(a)),
    ensures
        s.filter(p).filter(q) == s.filter(both),
    decreases s.len(),
{
    reveal(Seq::filter);
    if s.len() > 0 {
        let last = s.last();
        let rest = s.drop_last();
        lemma_filter_twice(rest, p, q, both);
        assert(both(last) == (p(last) && q(last)));
        if p(last) {
            assert(rest.filter(p).push(last).drop_last() =~= rest.filter(p));
        }
    } else {
        assert(s.filter(p).filter(q) =~= s.filter(both));
    }
}

/// Filtering goes through a concatenation.
pub proof fn lemma_filter_add<A>(s: Seq<A>, t: Seq<A>, p: spec_fn(A) -> bool)
    ensures
        (s + t).filter(p) == s.filter(p) + t.filter(p),
    decreases t.len(),
{
    reveal(Seq::filter);
    if t.len() > 0 {
        lemma_filter_add(s, t.drop_last(), p);
        assert((s + t).drop_last() =~= s + t.drop_last());
        assert((s + t).last() == t.last());
        assert((s + t).filter(p) =~= s.filter(p) + t.filter(p));
    } else {
        assert(s + t =~= s);
        assert((s + t).filter(p) =~= s.filter(p) + t.filter(p));
    }
}

/// One more entry of the top layer takes the place of its version.
pub proof fn lemma_merge_one_more(top: Seq<IndexEntry>, bottom: Seq<IndexEntry>, e: IndexEntry)
    ensures
        merged(top, bottom).filter(|x: IndexEntry| x.vers@ != e.vers@).push(e) == merged(
            top.push(e),
            bottom,
        ),
{
    let other = |x: IndexEntry| x.vers@ != e.vers@;
    let free = |x: IndexEntry| !has_version(top, x.vers@);
    let free_now = |x: IndexEntry| !has_version(top.push(e), x.vers@);
    let not_e = |x: IndexEntry| !has_version(seq![e], x.vers@);
    assert forall|x: IndexEntry| #[trigger] free_now(x) == (free(x) && other(x)) by {
        lemma_has_version_push(top, e, x.vers@);
    }
    assert forall|x: IndexEntry| #[trigger] not_e(x) == other(x) by {
        assert(seq![e] =~= Seq::<IndexEntry>::empty().push(e));
        lemma_has_version_push(Seq::empty(), e, x.vers@);
    }
    lemma_filter_twice(bottom, free, other, free_now);
    lemma_filter_add(not_covered(bottom, top), last_of_each(top), other);
    assert(top.push(e).drop_last() =~= top);
    assert(not_e =~= other);
    assert(not_covered(last_of_each(top), seq![e]) == last_of_each(top).filter(not_e));
    assert(merged(top, bottom).filter(other).push(e) =~= merged(top.push(e), bottom));
}

/// The versions of a list with one more entry.
pub proof fn lemma_has_version_push(entries: Seq<IndexEntry>, e: IndexEntry, vers: Seq<char>)
    ensures
        has_version(entries.push(e), vers) == (has_version(entries, vers) || e.vers@ == vers),
{
    let all = entries.push(e);
    if has_version(entries, vers) {
        let i = choose|i: int| 0 <= i < entries.len() && #[trigger] entries[i].vers@ == vers;
        assert(all[i].vers@ == vers);
    }
    if e.vers@ == vers {
        assert(all[entries.len() as int].vers@ == vers);
    }
    if has_version(all, vers) {
        let i = choose|i: int| 0 <= i < all.len() && #[trigger] all[i].vers@ == vers;
        if i < entries.len() {
            assert(entries[i].vers@ == vers);
        }
    }
}

/// At most one entry for each version.
pub open spec fn distinct_versions(entries: Seq<IndexEntry>) -> bool {
    forall|i: int, j: int|
        0 <= i < j < entries.len() ==> (#[trigger] entries[i]).vers@ != (
        #[trigger] entries[j]).vers@
}

/// Whether an entry is the last of its version in a list.
pub open spec fn is_last_of_version(entries: Seq<IndexEntry>, e: IndexEntry) -> bool {
    exists|i: int|
        0 <= i < entries.len() && #[trigger] entries[i] == e && !has_version(
            entries.skip(i + 1),
            e.vers@,
        )
}

/// A merged lookup tells of exactly the versions that one of the layers has.
pub proof fn law_merge_has_the_versions_of_both(
    top: Seq<IndexEntry>,
    bottom: Seq<IndexEntry>,
    vers: Seq<char>,
)
    ensures
        has_version(merged(top, bottom), vers) <==> has_version(top, vers) || has_version(
            bottom,
            vers,
        ),
{
    let below = not_covered(bottom, top);
    lemma_last_of_each(top);
    lemma_filter_members(bottom, |e: IndexEntry| !has_version(top, e.vers@));
    lemma_has_version_add(below, last_of_each(top), vers);
    lemma_same_versions_last_of_each(top, vers);
    if has_version(below, vers) {
        let i = choose|i: int| 0 <= i < below.len() && #[trigger] below[i].vers@ == vers;
        assert(below.contains(below[i]));
        let k = choose|k: int| 0 <= k < bottom.len() && bottom[k] == below[i];
        assert(bottom[k].vers@ == vers);
    }
    if has_version(bottom, vers) && !has_version(top, vers) {
        let k = choose|k: int| 0 <= k < bottom.len() && #[trigger] bottom[k].vers@ == vers;
        assert(bottom.contains(bottom[k]));
        assert(below.contains(bottom[k]));
        let i = choose|i: int| 0 <= i < below.len() && below[i] == bottom[k];
        assert(below[i].vers@ == vers);
    }
}

/// The top layer takes precedence: of a version that it has, a merged lookup tells the
/// last entry of the top layer and no other; of any other version, the entries of the
/// bottom layer.
pub proof fn law_top_layer_takes_precedence(
    top: Seq<IndexEntry>,
    bottom: Seq<IndexEntry>,
    e: IndexEntry,
)
    ensures
        merged(top, bottom).contains(e) <==> if has_version(top, e.vers@) {
            is_last_of_version(top, e)
        } else {
            bottom.contains(e)
        },
{
    let below = not_covered(bottom, top);
    let above = last_of_each(top);
    lemma_filter_members(bottom, |x: IndexEntry| !has_version(top, x.vers@));
    lemma_last_of_each_members(top, e);
    lemma_contains_add(below, above, e);
    if is_last_of_version(top, e) {
        let i = choose|i: int|
            0 <= i < top.len() && #[trigger] top[i] == e && !has_version(
                top.skip(i + 1),
                e.vers@,
            );
        assert(top[i].vers@ == e.vers@);
    }
}

/// Where the bottom layer has one entry for each version, so has a merged lookup.
pub proof fn law_merge_keeps_versions_distinct(top: Seq<IndexEntry>, bottom: Seq<IndexEntry>)
    requires
        distinct_versions(bottom),
    ensures
        distinct_versions(merged(top, bottom)),
{
    let free = |e: IndexEntry| !has_version(top, e.vers@);
    let below = not_covered(bottom, top);
    let above = last_of_each(top);
    let all = merged(top, bottom);
    lemma_last_of_each(top);
    lemma_filter_members(bottom, free);
    lemma_filter_distinct(bottom, free);
    assert forall|i: int, j: int| 0 <= i < j < all.len() implies (#[trigger] all[i]).vers@ != (
    #[trigger] all[j]).vers@ by {
        if j < below.len() {
            assert(below[i].vers@ != below[j].vers@);
        } else if i >= below.len() {
            assert(above[i - below.len()].vers@ != above[j - below.len()].vers@);
        } else {
            let a = above[j - below.len()];
            assert(above.contains(a));
            let k = choose|k: int| 0 <= k < top.len() && top[k] == a;
            assert(top[k].vers@ == a.vers@);
            assert(below.contains(below[i]));
        }
    }
}

/// With nothing in the top layer, a merged lookup is the bottom layer's.
pub proof fn law_empty_top_layer_changes_nothing(bottom: Seq<IndexEntry>)
    ensures
        merged(Seq::empty(), bottom) == bottom,
{
    lemma_nothing_covered(bottom);
    assert(merged(Seq::empty(), bottom) =~= bottom);
}

/// Whether an entry stands last in a list, and no other has its version.
pub open spec fn is_last_and_only(entries: Seq<IndexEntry>, e: IndexEntry) -> bool {
    &&& entries.len() > 0
    &&& entries.last() == e
    &&& forall|i: int| 0 <= i < entries.len() - 1 ==> (#[trigger] entries[i]).vers@ != e.vers@
}

/// The last entry of the top layer ends a merge, and no other has its version.
proof fn lemma_merged_ends(others: Seq<IndexEntry>, e: IndexEntry, bottom: Seq<IndexEntry>)
    ensures
        is_last_and_only(merged(others.push(e), bottom), e),
{
    let now = others.push(e);
    let all = merged(now, bottom);
    let below = not_covered(bottom, now);
    let above = not_covered(last_of_each(others), seq![e]);
    assert(now.drop_last() =~= others);
    assert(all =~= below + above + seq![e]);
    lemma_filter_members(bottom, |x: IndexEntry| !has_version(now, x.vers@));
    lemma_filter_members(last_of_each(others), |x: IndexEntry| !has_version(seq![e], x.vers@));
    assert forall|i: int| 0 <= i < all.len() - 1 implies (#[trigger] all[i]).vers@ != e.vers@ by {
        if i < below.len() {
            assert(below.contains(all[i]));
            assert(now[others.len() as int] == e);
        } else {
            assert(above[i - below.len()] == all[i]);
            assert(above.contains(all[i]));
            assert(seq![e][0] == e);
        }
    }
}

/// What is published counts: once a version was published to the top layer, a lookup gives
/// the published entry for it, last, and no other, whatever either layer held of that
/// version.
pub proof fn law_published_version_covers_the_others(
    top: Seq<IndexEntry>,
    bottom: Seq<IndexEntry>,
    published: IndexEntry,
    e: IndexEntry,
)
    requires
        e.vers@ == published.vers@,
    ensures
        merged(index::other_versions(top, published.vers@).push(published), bottom).contains(e)
            <==> e == published,
        is_last_and_only(
            merged(index::other_versions(top, published.vers@).push(published), bottom),
            published,
        ),
{
    let others = index::other_versions(top, published.vers@);
    let now = others.push(published);
    let n = others.len() as int;
    lemma_filter_members(top, |x: IndexEntry| x.vers@ != published.vers@);
    law_top_layer_takes_precedence(now, bottom, e);
    lemma_merged_ends(others, published, bottom);
    assert(now[n].vers@ == e.vers@);
    assert(now.skip(n + 1) =~= Seq::empty());
    if e == published {
        assert(now[n] == e && !has_version(now.skip(n + 1), e.vers@));
    }
    if is_last_of_version(now, e) {
        let i = choose|i: int|
            0 <= i < now.len() && #[trigger] now[i] == e && !has_version(
                now.skip(i + 1),
                e.vers@,
            );
        if i < n {
            assert(others[i] == e);
            assert(others.contains(e));
        }
    }
}

/// Three layers are merged alike, whichever two are merged first.
pub proof fn law_merging_is_associative(
    a: Seq<IndexEntry>,
    b: Seq<IndexEntry>,
    c: Seq<IndexEntry>,
)
    ensures
        merged(merged(a, b), c) == merged(a, merged(b, c)),
{
    let not_a = |e: IndexEntry| !has_version(a, e.vers@);
    let not_b = |e: IndexEntry| !has_version(b, e.vers@);
    let not_ab = |e: IndexEntry| !has_version(merged(a, b), e.vers@);
    assert forall|e: IndexEntry| #[trigger] not_ab(e) == (not_b(e) && not_a(e)) by {
        law_merge_has_the_versions_of_both(a, b, e.vers@);
    }
    lemma_filter_twice(c, not_b, not_a, not_ab);
    lemma_filter_add(not_covered(c, b), last_of_each(b), not_a);
    lemma_last_of_each_merged(a, b);
    assert(merged(merged(a, b), c) =~= merged(a, merged(b, c)));
}

/// What the last entries of two merged layers are.
proof fn lemma_last_of_each_merged(top: Seq<IndexEntry>, bottom: Seq<IndexEntry>)
    ensures
        last_of_each(merged(top, bottom)) == not_covered(last_of_each(bottom), top)
            + last_of_each(top),
    decreases top.len(),
{
    if top.len() == 0 {
        assert(top =~= Seq::empty());
        lemma_nothing_covered(bottom);
        lemma_nothing_covered(last_of_each(bottom));
        assert(merged(top, bottom) =~= bottom);
        assert(last_of_each(merged(top, bottom)) =~= not_covered(last_of_each(bottom), top)
            + last_of_each(top));
    } else {
        let e = top.last();
        let rest = top.drop_last();
        let other = |x: IndexEntry| x.vers@ != e.vers@;
        let not_e = |x: IndexEntry| !has_version(seq![e], x.vers@);
        let free = |x: IndexEntry| !has_version(rest, x.vers@);
        let free_now = |x: IndexEntry| !has_version(top, x.vers@);
        assert(rest.push(e) =~= top);
        assert forall|x: IndexEntry| #[trigger] not_e(x) == other(x) by {
            assert(seq![e] =~= Seq::<IndexEntry>::empty().push(e));
            lemma_has_version_push(Seq::empty(), e, x.vers@);
        }
        assert(not_e =~= other);
        assert forall|x: IndexEntry| #[trigger] free_now(x) == (free(x) && other(x)) by {
            lemma_has_version_push(rest, e, x.vers@);
        }
        lemma_last_of_each_merged(rest, bottom);
        lemma_merge_one_more(rest, bottom, e);
        let kept = merged(rest, bottom).filter(other);
        assert(merged(top, bottom) == kept.push(e));
        assert(kept.push(e).drop_last() =~= kept);
        let vers = e.vers@;
        assert(other =~= (|x: IndexEntry| x.vers@ != vers));
        lemma_last_of_each_filter(merged(rest, bottom), vers);
        lemma_filter_twice(last_of_each(merged(rest, bottom)), other, other, other);
        lemma_filter_add(not_covered(last_of_each(bottom), rest), last_of_each(rest), other);
        lemma_filter_twice(last_of_each(bottom), free, other, free_now);
        let last_merged = last_of_each(merged(rest, bottom));
        let last_rest = last_of_each(rest);
        assert(last_of_each(kept) == last_merged.filter(other));
        assert(not_covered(last_of_each(kept), seq![e]) == last_of_each(kept).filter(not_e));
        assert(not_covered(last_rest, seq![e]) == last_rest.filter(not_e));
        assert(last_of_each(merged(top, bottom)) == last_merged.filter(other).push(e));
        assert(last_of_each(top) == last_rest.filter(other).push(e));
        assert(last_merged.filter(other) == not_covered(last_of_each(bottom), top)
            + last_rest.filter(other));
        assert(last_of_each(merged(top, bottom)) =~= not_covered(last_of_each(bottom), top)
            + last_of_each(top));
    }
}

/// Dropping a version and keeping the last of each go in either order.
proof fn lemma_last_of_each_filter(s: Seq<IndexEntry>, vers: Seq<char>)
    ensures
        last_of_each(s.filter(|x: IndexEntry| x.vers@ != vers)) == last_of_each(s).filter(
            |x: IndexEntry| x.vers@ != vers,
        ),
    decreases s.len(),
{
    let other = |x: IndexEntry| x.vers@ != vers;
    reveal(Seq::filter);
    if s.len() > 0 {
        let e = s.last();
        let rest = s.drop_last();
        let not_e = |x: IndexEntry| !has_version(seq![e], x.vers@);
        let both = |x: IndexEntry| not_e(x) && other(x);
        lemma_last_of_each_filter(rest, vers);
        let kept = last_of_each(rest).filter(not_e);
        lemma_filter_twice(last_of_each(rest), not_e, other, both);
        lemma_filter_twice(last_of_each(rest), other, not_e, both);
        assert(kept.push(e).drop_last() =~= kept);
        if other(e) {
            assert(rest.filter(other).push(e).drop_last() =~= rest.filter(other));
        } else {
            assert forall|x: IndexEntry| #[trigger] both(x) == other(x) by {
                assert(seq![e] =~= Seq::<IndexEntry>::empty().push(e));
                lemma_has_version_push(Seq::empty(), e, x.vers@);
            }
            assert(both =~= other);
        }
    } else {
        assert(s.filter(other) =~= s);
        assert(last_of_each(s).filter(other) =~= last_of_each(s));
    }
}

/// What a filter lets through.
pub proof fn lemma_filter_members<A>(s: Seq<A>, p: spec_fn(A) -> bool)
    ensures
        forall|a: A| #[trigger] s.filter(p).contains(a) <==> s.contains(a) && p(a),
    decreases s.len(),
{
    reveal(Seq::filter);
    if s.len() > 0 {
        let last = s.last();
        let rest = s.drop_last();
        lemma_filter_members(rest, p);
        assert(rest.push(last) =~= s);
        assert forall|a: A| #[trigger] s.filter(p).contains(a) <==> s.contains(a) && p(a) by {
            assert(rest.filter(p).contains(a) <==> rest.contains(a) && p(a));
            lemma_contains_push(rest, last, a);
            if p(last) {
                lemma_contains_push(rest.filter(p), last, a);
            }
        }
    }
}

/// Membership in a list with one more element.
pub proof fn lemma_contains_push<A>(s: Seq<A>, last: A, a: A)
    ensures
        s.push(last).contains(a) <==> s.contains(a) || a == last,
{
    let all = s.push(last);
    if s.contains(a) {
        let i = choose|i: int| 0 <= i < s.len() && s[i] == a;
        assert(all[i] == a);
    }
    if a == last {
        assert(all[s.len() as int] == a);
    }
    if all.contains(a) {
        let i = choose|i: int| 0 <= i < all.len() && all[i] == a;
        if i < s.len() {
            assert(s[i] == a);
        }
    }
}

/// Membership in a concatenation.
proof fn lemma_contains_add<A>(s: Seq<A>, t: Seq<A>, a: A)
    ensures
        (s + t).contains(a) <==> s.contains(a) || t.contains(a),
{
    let all = s + t;
    if s.contains(a) {
        let i = choose|i: int| 0 <= i < s.len() && s[i] == a;
        assert(all[i] == a);
    }
    if t.contains(a) {
        let i = choose|i: int| 0 <= i < t.len() && t[i] == a;
        assert(all[s.len() + i] == a);
    }
    if all.contains(a) {
        let i = choose|i: int| 0 <= i < all.len() && all[i] == a;
        if i < s.len() {
            assert(s[i] == a);
        } else {
            assert(t[i - s.len()] == a);
        }
    }
}

/// The versions of a concatenation.
proof fn lemma_has_version_add(s: Seq<IndexEntry>, t: Seq<IndexEntry>, vers: Seq<char>)
    ensures
        has_version(s + t, vers) == (has_version(s, vers) || has_version(t, vers)),
{
    let all = s + t;
    if has_version(s, vers) {
        let i = choose|i: int| 0 <= i < s.len() && #[trigger] s[i].vers@ == vers;
        assert(all[i].vers@ == vers);
    }
    if has_version(t, vers) {
        let i = choose|i: int| 0 <= i < t.len() && #[trigger] t[i].vers@ == vers;
        assert(all[s.len() + i].vers@ == vers);
    }
    if has_version(all, vers) {
        let i = choose|i: int| 0 <= i < all.len() && #[trigger] all[i].vers@ == vers;
        if i < s.len() {
            assert(s[i].vers@ == vers);
        } else {
            assert(t[i - s.len()].vers@ == vers);
        }
    }
}

/// Dropping entries keeps the versions of the others distinct.
proof fn lemma_filter_distinct(s: Seq<IndexEntry>, p: spec_fn(IndexEntry) -> bool)
    requires
        distinct_versions(s),
    ensures
        distinct_versions(s.filter(p)),
    decreases s.len(),
{
    reveal(Seq::filter);
    if s.len() > 0 {
        let last = s.last();
        let rest = s.drop_last();
        lemma_filter_distinct(rest, p);
        lemma_filter_members(rest, p);
        let kept = rest.filter(p);
        if p(last) {
            assert forall|i: int| 0 <= i < kept.len() implies (#[trigger] kept[i]).vers@
                != last.vers@ by {
                assert(kept.contains(kept[i]));
                let k = choose|k: int| 0 <= k < rest.len() && rest[k] == kept[i];
                assert(s[k].vers@ != s[s.len() - 1].vers@);
            }
        }
    }
}

/// The last entries of each version are distinct, and stand in the list.
proof fn lemma_last_of_each(s: Seq<IndexEntry>)
    ensures
        distinct_versions(last_of_each(s)),
        forall|e: IndexEntry| #[trigger] last_of_each(s).contains(e) ==> s.contains(e),
    decreases s.len(),
{
    if s.len() > 0 {
        let last = s.last();
        let rest = s.drop_last();
        let not_last = |x: IndexEntry| !has_version(seq![last], x.vers@);
        let kept = last_of_each(rest).filter(not_last);
        lemma_last_of_each(rest);
        lemma_filter_members(last_of_each(rest), not_last);
        lemma_filter_distinct(last_of_each(rest), not_last);
        assert forall|i: int| 0 <= i < kept.len() implies (#[trigger] kept[i]).vers@
            != last.vers@ by {
            assert(kept.contains(kept[i]));
            assert(not_last(kept[i]));
            assert(seq![last][0].vers@ == last.vers@);
        }
        assert(rest.push(last) =~= s);
        assert forall|e: IndexEntry| #[trigger] last_of_each(s).contains(e) implies s.contains(
            e,
        ) by {
            lemma_contains_push(kept, last, e);
            lemma_contains_push(rest, last, e);
            if kept.contains(e) {
                assert(last_of_each(rest).contains(e));
            }
        }
    }
}

/// Keeping the last of each version loses no version.
proof fn lemma_same_versions_last_of_each(s: Seq<IndexEntry>, vers: Seq<char>)
    ensures
        has_version(last_of_each(s), vers) <==> has_version(s, vers),
    decreases s.len(),
{
    if s.len() > 0 {
        let last = s.last();
        let rest = s.drop_last();
        let not_last = |x: IndexEntry| !has_version(seq![last], x.vers@);
        let older = last_of_each(rest);
        let kept = older.filter(not_last);
        assert(rest.push(last) =~= s);
        lemma_same_versions_last_of_each(rest, vers);
        lemma_filter_members(older, not_last);
        lemma_has_version_push(rest, last, vers);
        lemma_has_version_push(kept, last, vers);
        assert(seq![last] =~= Seq::<IndexEntry>::empty().push(last));
        lemma_has_version_push(Seq::empty(), last, vers);
        if has_version(kept, vers) {
            let i = choose|i: int| 0 <= i < kept.len() && #[trigger] kept[i].vers@ == vers;
            assert(kept.contains(kept[i]));
            let k = choose|k: int| 0 <= k < older.len() && older[k] == kept[i];
            assert(older[k].vers@ == vers);
        }
        if has_version(older, vers) && last.vers@ != vers {
            let k = choose|k: int| 0 <= k < older.len() && #[trigger] older[k].vers@ == vers;
            assert(older.contains(older[k]));
            assert(not_last(older[k]));
            assert(kept.contains(older[k]));
            let i = choose|i: int| 0 <= i < kept.len() && kept[i] == older[k];
            assert(kept[i].vers@ == vers);
        }
    }
}

/// What stands among the last entries of each version.
proof fn lemma_last_of_each_members(s: Seq<IndexEntry>, e: IndexEntry)
    ensures
        last_of_each(s).contains(e) <==> is_last_of_version(s, e),
    decreases s.len(),
{
    if s.len() > 0 {
        let last = s.last();
        let rest = s.drop_last();
        let n = rest.len() as int;
        let not_last = |x: IndexEntry| !has_version(seq![last], x.vers@);
        let older = last_of_each(rest);
        let kept = older.filter(not_last);
        assert(rest.push(last) =~= s);
        assert(seq![last] =~= Seq::<IndexEntry>::empty().push(last));
        lemma_has_version_push(Seq::empty(), last, e.vers@);
        lemma_last_of_each_members(rest, e);
        lemma_filter_members(older, not_last);
        lemma_contains_push(kept, last, e);
        if e == last {
            assert(s.skip(n + 1) =~= Seq::empty());
            assert(s[n] == e && !has_version(s.skip(n + 1), e.vers@));
        } else if kept.contains(e) {
            let i = choose|i: int|
                0 <= i < rest.len() && #[trigger] rest[i] == e && !has_version(
                    rest.skip(i + 1),
                    e.vers@,
                );
            assert(s.skip(i + 1) =~= rest.skip(i + 1).push(last));
            lemma_has_version_push(rest.skip(i + 1), last, e.vers@);
            assert(s[i] == e);
        }
        if is_last_of_version(s, e) && e != last {
            let i = choose|i: int|
                0 <= i < s.len() && #[trigger] s[i] == e && !has_version(
                    s.skip(i + 1),
                    e.vers@,
                );
            assert(s.skip(i + 1) =~= rest.skip(i + 1).push(last));
            lemma_has_version_push(rest.skip(i + 1), last, e.vers@);
            assert(rest[i] == e);
        }
    }
}

} // verus!
