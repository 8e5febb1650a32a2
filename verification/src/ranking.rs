//! De-duplication and ranking of discovered installations.
//!
//! Each installation enters the stage as an [`Entry`]: what identifies it,
//! the signs by which one of two entries for the same installation is
//! preferred, and the version and weight by which survivors are ranked.
//! The stage first keeps one entry per identity, then orders what is left,
//! highest version first.

use crate::version::{
    below, lemma_below_is_strict_total, lemma_precedes_asymmetric, lemma_precedes_irreflexive,
    naturals, order_sign, precedes,
};
use vstd::prelude::*;

verus! {

/// One installation on its way through the stage.
#[derive(Clone, Debug, PartialEq, Eq)]
pub struct Entry<T> {
    /// What identifies the installation: two entries with the same identity
    /// are the same installation.
    pub identity: String,
    /// The entry was found through a symbolic link.
    pub symlink: bool,
    /// How specific the file name is; a plain name is least specific.
    pub specificity: u64,
    /// The length of the path the entry was found at.
    pub length: u64,
    /// The components of the version, where it is known.
    pub version: Option<Vec<u64>>,
    /// What decides between two entries of the same version: the larger
    /// weight ranks first.
    pub weight: u64,
    /// The installation itself.
    pub item: T,
}

/// An [`Entry`] as the contracts see it.
pub ghost struct EntryView<V> {
    pub identity: Seq<char>,
    pub symlink: bool,
    pub specificity: nat,
    pub length: nat,
    pub version: Option<Seq<nat>>,
    pub weight: nat,
    pub item: V,
}

impl<T: View> View for Entry<T> {
    type V = EntryView<T::V>;

    open spec fn view(&self) -> EntryView<T::V> {
        EntryView {
            identity: self.identity@,
            symlink: self.symlink,
            specificity: self.specificity as nat,
            length: self.length as nat,
            version: match self.version {
                Some(v) => Some(naturals(v@)),
                None => None,
            },
            weight: self.weight as nat,
            item: self.item@,
        }
    }
}

/// The views of a sequence of entries.
pub open spec fn entry_views<T: View>(entries: Seq<Entry<T>>) -> Seq<EntryView<T::V>> {
    entries.map_values(|e: Entry<T>| e@)
}

/// Of two entries for one installation, `a` is the better representative:
/// one not found through a link before one that was, then the less specific
/// name, then the longer path.
pub open spec fn preferred<V>(a: EntryView<V>, b: EntryView<V>) -> bool {
    if a.symlink != b.symlink {
        !a.symlink
    } else if a.specificity != b.specificity {
        a.specificity < b.specificity
    } else {
        a.length > b.length
    }
}

/// `a` ranks strictly ahead of `b`: it has the later version, or the same
/// version and the larger weight. An unknown version is earlier than every
/// known one.
pub open spec fn ahead<V>(a: EntryView<V>, b: EntryView<V>) -> bool {
    below(b.version, a.version) || (!below(a.version, b.version) && a.weight > b.weight)
}

/// Where among `kept` the entry with this identity stands, or the length of
/// `kept` where there is none.
pub open spec fn position<V>(kept: Seq<EntryView<V>>, identity: Seq<char>) -> int
    decreases kept.len(),
{
    if kept.len() == 0 {
        0
    } else if kept[0].identity == identity {
        0
    } else {
        1 + position(kept.skip(1), identity)
    }
}

/// One entry per identity. The identities stand in the order in which they
/// first occur; each is represented by the most preferred of its entries,
/// and by the first of these where several are equally preferred.
pub open spec fn selected<V>(entries: Seq<EntryView<V>>) -> Seq<EntryView<V>>
    decreases entries.len(),
{
    if entries.len() == 0 {
        Seq::empty()
    } else {
        let kept = selected(entries.drop_last());
        let last = entries.last();
        let at = position(kept, last.identity);
        if at == kept.len() {
            kept.push(last)
        } else if preferred(last, kept[at]) {
            kept.update(at, last)
        } else {
            kept
        }
    }
}

/// Where `entry` goes into the ranked sequence: in front of the first entry
/// that it ranks ahead of, or at the end.
pub open spec fn slot<V>(sorted: Seq<EntryView<V>>, entry: EntryView<V>) -> int
    decreases sorted.len(),
{
    if sorted.len() == 0 {
        0
    } else if ahead(entry, sorted[0]) {
        0
    } else {
        1 + slot(sorted.skip(1), entry)
    }
}

/// The entries in ranking order. Entries of which neither ranks ahead of the
/// other keep the order they came in.
pub open spec fn ranked<V>(entries: Seq<EntryView<V>>) -> Seq<EntryView<V>>
    decreases entries.len(),
{
    if entries.len() == 0 {
        Seq::empty()
    } else {
        let before = ranked(entries.drop_last());
        before.insert(slot(before, entries.last()), entries.last())
    }
}

/// The whole stage: one entry per identity, then ranked.
pub open spec fn staged<V>(entries: Seq<EntryView<V>>) -> Seq<EntryView<V>> {
    ranked(selected(entries))
}

/// The position of an identity lies within the sequence or at its end;
/// where it lies within, the entry there has the identity, and no entry
/// before it has.
pub proof fn lemma_position_bounds<V>(kept: Seq<EntryView<V>>, identity: Seq<char>)
    ensures
        0 <= position(kept, identity) <= kept.len(),
        position(kept, identity) < kept.len() ==> kept[position(kept, identity)].identity
            == identity,
        forall|i: int| 0 <= i < position(kept, identity) ==> kept[i].identity != identity,
    decreases kept.len(),
{
    if kept.len() > 0 && kept[0].identity != identity {
        lemma_position_bounds(kept.skip(1), identity);
        let p = position(kept.skip(1), identity);
        assert forall|i: int| 0 <= i < 1 + p implies kept[i].identity != identity by {
            if i > 0 {
                assert(kept.skip(1)[i - 1] == kept[i]);
            }
        }
    }
}

/// The slot of an entry lies within the sequence or at its end; where it
/// lies within, the entry ranks ahead of what stands there, and it ranks
/// ahead of nothing that stands before.
pub proof fn lemma_slot_bounds<V>(sorted: Seq<EntryView<V>>, entry: EntryView<V>)
    ensures
        0 <= slot(sorted, entry) <= sorted.len(),
        slot(sorted, entry) < sorted.len() ==> ahead(entry, sorted[slot(sorted, entry)]),
        forall|i: int| 0 <= i < slot(sorted, entry) ==> !ahead(entry, sorted[i]),
    decreases sorted.len(),
{
    if sorted.len() > 0 && !ahead(entry, sorted[0]) {
        lemma_slot_bounds(sorted.skip(1), entry);
        let p = slot(sorted.skip(1), entry);
        assert forall|i: int| 0 <= i < 1 + p implies !ahead(entry, sorted[i]) by {
            if i > 0 {
                assert(sorted.skip(1)[i - 1] == sorted[i]);
            }
        }
    }
}

/// The components of a version that may be unknown.
pub open spec fn known(version: Option<Vec<u64>>) -> Option<Seq<nat>> {
    match version {
        Some(v) => Some(naturals(v@)),
        None => None,
    }
}

/// Orders two versions that may be unknown: negative where `a` is below `b`,
/// positive where `b` is below `a`, zero where neither is.
pub fn version_sign(a: &Option<Vec<u64>>, b: &Option<Vec<u64>>) -> (r: i8)
    ensures
        (r < 0) == below(known(*a), known(*b)),
        (r > 0) == below(known(*b), known(*a)),
{
    match (a, b) {
        (None, None) => 0,
        (None, Some(_)) => -1,
        (Some(_), None) => 1,
        (Some(x), Some(y)) => {
            proof {
                lemma_precedes_irreflexive(naturals(x@));
                if precedes(naturals(x@), naturals(y@)) {
                    lemma_precedes_asymmetric(naturals(x@), naturals(y@));
                }
            }
            order_sign(x, y)
        },
    }
}

/// Whether `a` is the better representative of the two.
fn is_preferred<T: View>(a: &Entry<T>, b: &Entry<T>) -> (r: bool)
    ensures
        r == preferred(a@, b@),
{
    if a.symlink != b.symlink {
        !a.symlink
    } else if a.specificity != b.specificity {
        a.specificity < b.specificity
    } else {
        a.length > b.length
    }
}

/// Whether `a` ranks strictly ahead of `b`.
fn ranks_ahead<T: View>(a: &Entry<T>, b: &Entry<T>) -> (r: bool)
    ensures
        r == ahead(a@, b@),
{
    let s = version_sign(&a.version, &b.version);
    s > 0 || (s == 0 && a.weight > b.weight)
}

/// Where among `kept` the entry with this identity stands.
fn find_identity<T: View>(kept: &Vec<Entry<T>>, identity: &String) -> (at: usize)
    ensures
        at == position(entry_views(kept@), identity@),
        at <= kept.len(),
{
    let ghost views = entry_views(kept@);
    let mut i: usize = 0;
    proof {
        assert(views.skip(0) == views);
    }
    while i < kept.len()
        invariant
            i <= kept.len(),
            views == entry_views(kept@),
            position(views, identity@) == i + position(views.skip(i as int), identity@),
        decreases kept.len() - i,
    {
        proof {
            assert(views.skip(i as int)[0] == kept@[i as int]@);
            assert(views.skip(i as int).skip(1) == views.skip(i + 1));
        }
        if kept[i].identity == *identity {
            return i;
        }
        i += 1;
    }
    i
}

/// Keeps one entry per identity: the most preferred, and of equally
/// preferred ones the first.
pub fn select<T: View>(entries: Vec<Entry<T>>) -> (kept: Vec<Entry<T>>)
    ensures
        entry_views(kept@) == selected(entry_views(entries@)),
{
    let ghost all = entry_views(entries@);
    let mut kept: Vec<Entry<T>> = Vec::new();
    proof {
        assert(all.take(0) == Seq::<EntryView<T::V>>::empty());
        assert(entry_views(kept@) == Seq::<EntryView<T::V>>::empty());
    }
    for entry in it: entries
        invariant
            it.seq() == entries@,
            all == entry_views(entries@),
            entry_views(kept@) == selected(all.take(it.index() as int)),
    {
        let ghost i = it.index() as int;
        let ghost before = entry_views(kept@);
        proof {
            assert(all.take(i + 1).drop_last() == all.take(i));
            assert(all.take(i + 1).last() == entry@);
            lemma_position_bounds(before, entry@.identity);
        }
        let at = find_identity(&kept, &entry.identity);
        if at == kept.len() {
            kept.push(entry);
            proof {
                assert(entry_views(kept@) == before.push(entry@));
            }
        } else if is_preferred(&entry, &kept[at]) {
            kept.set(at, entry);
            proof {
                assert(entry_views(kept@) == before.update(at as int, entry@));
            }
        }
    }
    proof {
        assert(all.take(entries@.len() as int) == all);
    }
    kept
}

/// Where `entry` goes into the ranked entries.
fn find_slot<T: View>(sorted: &Vec<Entry<T>>, entry: &Entry<T>) -> (at: usize)
    ensures
        at == slot(entry_views(sorted@), entry@),
        at <= sorted.len(),
{
    let ghost views = entry_views(sorted@);
    let mut i: usize = 0;
    proof {
        assert(views.skip(0) == views);
    }
    while i < sorted.len()
        invariant
            i <= sorted.len(),
            views == entry_views(sorted@),
            slot(views, entry@) == i + slot(views.skip(i as int), entry@),
        decreases sorted.len() - i,
    {
        proof {
            assert(views.skip(i as int)[0] == sorted@[i as int]@);
            assert(views.skip(i as int).skip(1) == views.skip(i + 1));
        }
        if ranks_ahead(entry, &sorted[i]) {
            return i;
        }
        i += 1;
    }
    i
}

/// Puts the entries in ranking order: the later version first, the larger
/// weight first among entries of one version, and otherwise as they came.
pub fn rank<T: View>(entries: Vec<Entry<T>>) -> (out: Vec<Entry<T>>)
    ensures
        entry_views(out@) == ranked(entry_views(entries@)),
{
    let ghost all = entry_views(entries@);
    let mut out: Vec<Entry<T>> = Vec::new();
    proof {
        assert(all.take(0) == Seq::<EntryView<T::V>>::empty());
        assert(entry_views(out@) == Seq::<EntryView<T::V>>::empty());
    }
    for entry in it: entries
        invariant
            it.seq() == entries@,
            all == entry_views(entries@),
            entry_views(out@) == ranked(all.take(it.index() as int)),
    {
        let ghost i = it.index() as int;
        let ghost before = entry_views(out@);
        proof {
            assert(all.take(i + 1).drop_last() == all.take(i));
            assert(all.take(i + 1).last() == entry@);
        }
        let at = find_slot(&out, &entry);
        out.insert(at, entry);
        proof {
            assert(entry_views(out@) == before.insert(at as int, entry@));
        }
    }
    proof {
        assert(all.take(entries@.len() as int) == all);
    }
    out
}


/// No two entries have the same identity.
pub open spec fn distinct<V>(entries: Seq<EntryView<V>>) -> bool {
    forall|i: int, j: int|
        0 <= i < entries.len() && 0 <= j < entries.len() && i != j ==> entries[i].identity
            != entries[j].identity
}

/// No entry ranks ahead of one that stands before it.
pub open spec fn in_order<V>(entries: Seq<EntryView<V>>) -> bool {
    forall|i: int, j: int| 0 <= i < j < entries.len() ==> !ahead(entries[j], entries[i])
}

/// Ranking ahead is a strict order.
pub proof fn lemma_ahead_is_strict<V>(a: EntryView<V>, b: EntryView<V>, c: EntryView<V>)
    ensures
        !ahead(a, a),
        ahead(a, b) ==> !ahead(b, a),
        ahead(a, b) && ahead(b, c) ==> ahead(a, c),
{
    lemma_below_is_strict_total(a.version, b.version, c.version);
    lemma_below_is_strict_total(b.version, a.version, c.version);
    lemma_below_is_strict_total(c.version, b.version, a.version);
    lemma_below_is_strict_total(b.version, c.version, a.version);
    lemma_below_is_strict_total(a.version, c.version, b.version);
    lemma_below_is_strict_total(c.version, a.version, b.version);
}

/// Selection keeps every identity once.
pub proof fn lemma_selected_distinct<V>(entries: Seq<EntryView<V>>)
    ensures
        distinct(selected(entries)),
    decreases entries.len(),
{
    if entries.len() > 0 {
        let kept = selected(entries.drop_last());
        let last = entries.last();
        lemma_selected_distinct(entries.drop_last());
        lemma_position_bounds(kept, last.identity);
    }
}

/// Being preferred is a strict order.
pub proof fn lemma_preferred_is_strict<V>(a: EntryView<V>, b: EntryView<V>, c: EntryView<V>)
    ensures
        !preferred(a, a),
        preferred(a, b) ==> !preferred(b, a),
        preferred(a, b) && preferred(b, c) ==> preferred(a, c),
        !preferred(a, b) && !preferred(b, c) ==> !preferred(a, c),
{
}

/// Selection keeps, for every entry that came in, an entry with the same
/// identity over which the entry is not preferred: each installation is
/// represented, and by the best of its entries.
pub proof fn lemma_selected_represents<V>(entries: Seq<EntryView<V>>, i: int) -> (k: int)
    requires
        0 <= i < entries.len(),
    ensures
        0 <= k < selected(entries).len(),
        selected(entries)[k].identity == entries[i].identity,
        !preferred(entries[i], selected(entries)[k]),
    decreases entries.len(),
{
    let head = entries.drop_last();
    let kept = selected(head);
    let last = entries.last();
    let at = position(kept, last.identity);
    lemma_position_bounds(kept, last.identity);
    if i == entries.len() - 1 {
        lemma_preferred_is_strict(last, last, last);
        at
    } else {
        let k = lemma_selected_represents(head, i);
        assert(head[i] == entries[i]);
        if at < kept.len() && preferred(last, kept[at]) && k == at {
            lemma_preferred_is_strict(entries[i], last, kept[at]);
            lemma_preferred_is_strict(last, kept[at], entries[i]);
        }
        k
    }
}

/// Selection changes nothing where every identity occurs once.
pub proof fn lemma_selected_of_distinct<V>(entries: Seq<EntryView<V>>)
    requires
        distinct(entries),
    ensures
        selected(entries) == entries,
    decreases entries.len(),
{
    if entries.len() > 0 {
        let head = entries.drop_last();
        let last = entries.last();
        assert(distinct(head)) by {
            assert forall|i: int, j: int|
                0 <= i < head.len() && 0 <= j < head.len() && i != j implies head[i].identity
                != head[j].identity by {
                assert(head[i] == entries[i]);
                assert(head[j] == entries[j]);
            }
        }
        lemma_selected_of_distinct(head);
        lemma_position_bounds(head, last.identity);
        let at = position(head, last.identity);
        if at < head.len() {
            assert(head[at] == entries[at]);
            assert(entries[entries.len() - 1].identity == last.identity);
        }
        assert(head.push(last) == entries);
    } else {
        assert(entries == Seq::<EntryView<V>>::empty());
    }
}

/// Ranking neither adds nor drops an entry: what stands at a place after
/// ranking stood at some place before.
pub proof fn lemma_ranked_member<V>(entries: Seq<EntryView<V>>, i: int) -> (j: int)
    requires
        0 <= i < ranked(entries).len(),
    ensures
        0 <= j < entries.len(),
        ranked(entries)[i] == entries[j],
    decreases entries.len(),
{
    let before = ranked(entries.drop_last());
    let last = entries.last();
    let at = slot(before, last);
    lemma_slot_bounds(before, last);
    if i == at {
        entries.len() - 1
    } else if i < at {
        assert(ranked(entries)[i] == before[i]);
        let j = lemma_ranked_member(entries.drop_last(), i);
        j
    } else {
        assert(ranked(entries)[i] == before[i - 1]);
        let j = lemma_ranked_member(entries.drop_last(), i - 1);
        j
    }
}

/// Ranking keeps identities apart.
pub proof fn lemma_ranked_distinct<V>(entries: Seq<EntryView<V>>)
    requires
        distinct(entries),
    ensures
        distinct(ranked(entries)),
    decreases entries.len(),
{
    if entries.len() > 0 {
        let head = entries.drop_last();
        let last = entries.last();
        assert(distinct(head)) by {
            assert forall|i: int, j: int|
                0 <= i < head.len() && 0 <= j < head.len() && i != j implies head[i].identity
                != head[j].identity by {
                assert(head[i] == entries[i]);
                assert(head[j] == entries[j]);
            }
        }
        lemma_ranked_distinct(head);
        let before = ranked(head);
        let at = slot(before, last);
        lemma_slot_bounds(before, last);
        let after = ranked(entries);
        assert forall|i: int| 0 <= i < before.len() implies before[i].identity
            != last.identity by {
            let j = lemma_ranked_member(head, i);
            assert(head[j] == entries[j]);
            assert(entries[entries.len() - 1] == last);
        }
        assert forall|i: int, j: int|
            0 <= i < after.len() && 0 <= j < after.len() && i != j implies after[i].identity
            != after[j].identity by {
            let bi = if i < at { i } else { i - 1 };
            let bj = if j < at { j } else { j - 1 };
            if i != at {
                assert(after[i] == before[bi]);
            }
            if j != at {
                assert(after[j] == before[bj]);
            }
        }
    }
}

/// What ranking returns is in order.
pub proof fn lemma_ranked_in_order<V>(entries: Seq<EntryView<V>>)
    ensures
        in_order(ranked(entries)),
    decreases entries.len(),
{
    if entries.len() > 0 {
        let head = entries.drop_last();
        let last = entries.last();
        lemma_ranked_in_order(head);
        let before = ranked(head);
        let at = slot(before, last);
        lemma_slot_bounds(before, last);
        let after = ranked(entries);
        assert forall|i: int, j: int| 0 <= i < j < after.len() implies !ahead(
            after[j],
            after[i],
        ) by {
            let bi = if i < at { i } else { i - 1 };
            let bj = if j < at { j } else { j - 1 };
            if i == at {
                assert(after[j] == before[bj]);
                lemma_ahead_is_strict(before[bj], last, before[at]);
                lemma_ahead_is_strict(last, before[at], before[at]);
            } else if j == at {
                assert(after[i] == before[bi]);
            } else {
                assert(after[i] == before[bi]);
                assert(after[j] == before[bj]);
            }
        }
    }
}

/// Ranking changes nothing where the entries are in order.
pub proof fn lemma_ranked_of_in_order<V>(entries: Seq<EntryView<V>>)
    requires
        in_order(entries),
    ensures
        ranked(entries) == entries,
    decreases entries.len(),
{
    if entries.len() > 0 {
        let head = entries.drop_last();
        let last = entries.last();
        assert(in_order(head)) by {
            assert forall|i: int, j: int| 0 <= i < j < head.len() implies !ahead(
                head[j],
                head[i],
            ) by {
                assert(head[i] == entries[i]);
                assert(head[j] == entries[j]);
            }
        }
        lemma_ranked_of_in_order(head);
        lemma_slot_bounds(head, last);
        let at = slot(head, last);
        if at < head.len() {
            assert(head[at] == entries[at]);
            assert(entries[entries.len() - 1] == last);
        }
        assert(head.insert(head.len() as int, last) == entries);
    } else {
        assert(entries == Seq::<EntryView<V>>::empty());
    }
}

/// Selection adds no entry: what stands at a place after selection stood
/// at some place before.
pub proof fn lemma_selected_member<V>(entries: Seq<EntryView<V>>, i: int) -> (j: int)
    requires
        0 <= i < selected(entries).len(),
    ensures
        0 <= j < entries.len(),
        selected(entries)[i] == entries[j],
    decreases entries.len(),
{
    let kept = selected(entries.drop_last());
    let last = entries.last();
    let at = position(kept, last.identity);
    lemma_position_bounds(kept, last.identity);
    if at == kept.len() {
        if i == kept.len() {
            entries.len() - 1
        } else {
            lemma_selected_member(entries.drop_last(), i)
        }
    } else if preferred(last, kept[at]) && i == at {
        entries.len() - 1
    } else {
        lemma_selected_member(entries.drop_last(), i)
    }
}

/// The stage adds no entry: what stands at a place in its output stood at
/// some place in its input.
pub proof fn lemma_staged_member<V>(entries: Seq<EntryView<V>>, i: int) -> (j: int)
    requires
        0 <= i < staged(entries).len(),
    ensures
        0 <= j < entries.len(),
        staged(entries)[i] == entries[j],
{
    let k = lemma_ranked_member(selected(entries), i);
    lemma_selected_member(entries, k)
}

/// The stage is idempotent: run on its own output, it returns that output.
pub proof fn lemma_staged_idempotent<V>(entries: Seq<EntryView<V>>)
    ensures
        staged(staged(entries)) == staged(entries),
{
    let kept = selected(entries);
    let out = ranked(kept);
    lemma_selected_distinct(entries);
    lemma_ranked_distinct(kept);
    lemma_selected_of_distinct(out);
    lemma_ranked_in_order(kept);
    lemma_ranked_of_in_order(out);
}

/// The stage in one call: one entry per identity, in ranking order.
pub fn stage<T: View>(entries: Vec<Entry<T>>) -> (out: Vec<Entry<T>>)
    ensures
        entry_views(out@) == staged(entry_views(entries@)),
        distinct(entry_views(out@)),
        in_order(entry_views(out@)),
{
    proof {
        lemma_selected_distinct(entry_views(entries@));
        lemma_ranked_distinct(selected(entry_views(entries@)));
        lemma_ranked_in_order(selected(entry_views(entries@)));
    }
    rank(select(entries))
}

/// What the stage makes of items that `enter` turns into entries.
pub open spec fn staged_items<V>(enter: spec_fn(V) -> EntryView<V>, items: Seq<V>) -> Seq<V> {
    staged(items.map_values(enter)).map_values(|e: EntryView<V>| e.item)
}

/// The stage is idempotent on items too: where every item is entered with
/// itself as the entry's item, the stage run on the items it returned gives
/// the same items again.
pub proof fn lemma_staged_items_idempotent<V>(enter: spec_fn(V) -> EntryView<V>, items: Seq<V>)
    requires
        forall|v: V| (#[trigger] enter(v)).item == v,
    ensures
        staged_items(enter, staged_items(enter, items)) == staged_items(enter, items),
{
    let entries = items.map_values(enter);
    let out = staged(entries);
    let item = |e: EntryView<V>| e.item;
    assert(out.map_values(item).map_values(enter) =~= out) by {
        assert forall|i: int| 0 <= i < out.len() implies enter(out[i].item) == out[i] by {
            let j = lemma_staged_member(entries, i);
            assert(entries[j] == enter(items[j]));
        }
    }
    lemma_staged_idempotent(entries);
}

} // verus!
