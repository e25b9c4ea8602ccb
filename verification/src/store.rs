//! The entry catalog: metadata of the credentials a user keeps, never the
//! credentials themselves. Every operation works on the whole snapshot.

use crate::text::{views, views_push};
use vstd::prelude::*;

verus! {

/// One catalog entry. `order == 0` means that the entry has no place in the
/// custom order; an absent `fingerprint` means that it is bound to no vault.
#[derive(Debug, PartialEq, Eq)]
pub struct Entry {
    pub id: String,
    pub label: String,
    pub postfix: String,
    pub method_id: String,
    pub created_at: u64,
    pub order: i64,
    pub fingerprint: Option<String>,
}

/// The whole catalog, in stored order: the unit of persistence.
#[derive(Debug, PartialEq, Eq)]
pub struct EntriesFile {
    pub entries: Vec<Entry>,
}

/// What an entry holds, as plain values.
pub struct EntryView {
    pub id: Seq<char>,
    pub label: Seq<char>,
    pub postfix: Seq<char>,
    pub method_id: Seq<char>,
    pub created_at: u64,
    pub order: i64,
    pub fingerprint: Option<Seq<char>>,
}

/// The characters of an optional string.
pub open spec fn optional_chars(s: Option<String>) -> Option<Seq<char>> {
    match s {
        Some(t) => Some(t@),
        None => None,
    }
}

impl View for Entry {
    type V = EntryView;

    open spec fn view(&self) -> EntryView {
        EntryView {
            id: self.id@,
            label: self.label@,
            postfix: self.postfix@,
            method_id: self.method_id@,
            created_at: self.created_at,
            order: self.order,
            fingerprint: optional_chars(self.fingerprint),
        }
    }
}

impl View for EntriesFile {
    type V = Seq<EntryView>;

    open spec fn view(&self) -> Seq<EntryView> {
        views(self.entries@)
    }
}

/// A copy of an optional string.
pub fn clone_optional(s: &Option<String>) -> (r: Option<String>)
    ensures
        optional_chars(r) == optional_chars(*s),
{
    match s {
        Some(t) => Some(t.clone()),
        None => None,
    }
}

impl Clone for Entry {
    fn clone(&self) -> (r: Self)
        ensures
            r@ == self@,
    {
        Entry {
            id: self.id.clone(),
            label: self.label.clone(),
            postfix: self.postfix.clone(),
            method_id: self.method_id.clone(),
            created_at: self.created_at,
            order: self.order,
            fingerprint: clone_optional(&self.fingerprint),
        }
    }
}

impl Clone for EntriesFile {
    fn clone(&self) -> (r: Self)
        ensures
            r@ == self@,
    {
        let mut entries: Vec<Entry> = Vec::new();
        let mut i: usize = 0;
        while i < self.entries.len()
            invariant
                i <= self.entries.len(),
                views(entries@) == views(self.entries@).take(i as int),
            decreases self.entries.len() - i,
        {
            let e = self.entries[i].clone();
            proof {
                views_push(entries@, e);
                assert(views(self.entries@).take(i + 1) == views(self.entries@).take(
                    i as int,
                ).push(e@));
            }
            entries.push(e);
            i += 1;
        }
        assert(views(self.entries@).take(i as int) == views(self.entries@));
        EntriesFile { entries }
    }
}

/// Whether an entry shows under the active vault: with an active
/// fingerprint, the entries bound to it and the unbound ones; without one,
/// every entry.
pub open spec fn visible_under(e: EntryView, active: Option<Seq<char>>) -> bool {
    match active {
        Some(fp) => e.fingerprint == Some(fp) || e.fingerprint is None,
        None => true,
    }
}

/// Whether some entry of `entries` has the identifier `id`.
pub open spec fn has_id(entries: Seq<EntryView>, id: Seq<char>) -> bool {
    exists|i: int| 0 <= i < entries.len() && (#[trigger] entries[i]).id == id
}

/// Whether no identifier occurs twice in `entries`.
pub open spec fn ids_distinct(entries: Seq<EntryView>) -> bool {
    forall|i: int, j: int|
        0 <= i < j < entries.len() ==> (#[trigger] entries[i]).id != (#[trigger] entries[j]).id
}

/// The catalog that a stored document stands for: a missing or unreadable
/// document is an empty catalog.
pub fn dump_all(stored: Option<EntriesFile>) -> (all: EntriesFile)
    ensures
        all@ == match stored {
            Some(file) => file@,
            None => Seq::<EntryView>::empty(),
        },
{
    match stored {
        Some(file) => file,
        None => EntriesFile { entries: Vec::new() },
    }
}

/// Whether `e` shows under `active`.
pub fn is_visible(e: &Entry, active: &Option<String>) -> (r: bool)
    ensures
        r == visible_under(e@, optional_chars(*active)),
{
    match active {
        Some(fp) => match &e.fingerprint {
            Some(own) => *own == *fp,
            None => true,
        },
        None => true,
    }
}

/// The first entry with the identifier `id`, if there is one.
pub fn get(all: &EntriesFile, id: &str) -> (found: Option<Entry>)
    ensures
        match found {
            Some(e) => exists|i: int|
                0 <= i < all@.len() && all@[i] == e@ && all@[i].id == id@ && !has_id(
                    all@.take(i),
                    id@,
                ),
            None => !has_id(all@, id@),
        },
{
    let key = id.to_owned();
    let mut i: usize = 0;
    while i < all.entries.len()
        invariant
            i <= all.entries.len(),
            key@ == id@,
            !has_id(all@.take(i as int), id@),
        decreases all.entries.len() - i,
    {
        if all.entries[i].id == key {
            let e = all.entries[i].clone();
            assert(all@[i as int] == e@);
            return Some(e);
        }
        assert forall|j: int| 0 <= j < i + 1 implies (#[trigger] all@.take(i + 1)[j]).id != id@ by {
            if j < i {
                assert(all@.take(i as int)[j].id != id@);
            }
        }
        i += 1;
    }
    assert(all@.take(i as int) == all@);
    None
}

/// Replaces the catalog by `entries` and returns their number: nothing of
/// the catalog before is kept.
pub fn replace_all(all: &mut EntriesFile, entries: Vec<Entry>) -> (count: usize)
    ensures
        final(all)@ == views(entries@),
        count == entries@.len(),
{
    let count = entries.len();
    all.entries = entries;
    count
}

/// A new entry is put in front of the catalog, without a place in the custom
/// order and bound to the active vault, if there is one. The identifier and
/// the creation time are the caller's.
pub fn add(
    all: &mut EntriesFile,
    label: String,
    postfix: String,
    method_id: String,
    active: &Option<String>,
    id: String,
    created_at: u64,
) -> (entry: Entry)
    ensures
        entry@ == (EntryView {
            id: id@,
            label: label@,
            postfix: postfix@,
            method_id: method_id@,
            created_at: created_at,
            order: 0,
            fingerprint: optional_chars(*active),
        }),
        final(all)@ == seq![entry@] + old(all)@,
{
    let entry = Entry {
        id,
        label,
        postfix,
        method_id,
        created_at,
        order: 0,
        fingerprint: clone_optional(active),
    };
    let stored = entry.clone();
    all.entries.insert(0, stored);
    assert(views(all.entries@) =~= seq![entry@] + views(old(all).entries@));
    entry
}

/// Removes every entry with the identifier `id`, and says whether there was
/// one.
pub fn delete(all: &mut EntriesFile, id: String) -> (removed: bool)
    ensures
        final(all)@ == old(all)@.filter(|e: EntryView| e.id != id@),
        removed == has_id(old(all)@, id@),
{
    let ghost keep = |e: EntryView| e.id != id@;
    let mut kept: Vec<Entry> = Vec::new();
    let mut removed = false;
    let mut i: usize = 0;
    while i < all.entries.len()
        invariant
            i <= all.entries.len(),
            all == old(all),
            keep == |e: EntryView| e.id != id@,
            views(kept@) == all@.take(i as int).filter(keep),
            removed == has_id(all@.take(i as int), id@),
        decreases all.entries.len() - i,
    {
        let ghost before = all@.take(i as int);
        let ghost now = all@.take(i + 1);
        proof {
            assert(now == before.push(all@[i as int]));
            before.lemma_filter_push(all@[i as int], keep);
        }
        if all.entries[i].id == id {
            removed = true;
            assert(now[i as int].id == id@);
        } else {
            let e = all.entries[i].clone();
            proof {
                views_push(kept@, e);
                if has_id(now, id@) {
                    let j = choose|j: int| 0 <= j < now.len() && (#[trigger] now[j]).id == id@;
                    assert(before[j].id == id@);
                }
            }
            kept.push(e);
        }
        proof {
            if has_id(before, id@) {
                let j = choose|j: int| 0 <= j < before.len() && (#[trigger] before[j]).id == id@;
                assert(now[j].id == id@);
            }
        }
        i += 1;
    }
    assert(all@.take(i as int) == all@);
    all.entries = kept;
    removed
}

/// The entry `e` bound to `fingerprint` where it was unbound.
pub open spec fn bound_to(e: EntryView, fingerprint: Seq<char>) -> EntryView {
    if e.fingerprint is None {
        EntryView { fingerprint: Some(fingerprint), ..e }
    } else {
        e
    }
}

/// Binds every unbound entry to `active` and returns how many there were.
pub fn bind_unbound_to(all: &mut EntriesFile, active: &str) -> (count: usize)
    ensures
        final(all)@ == old(all)@.map_values(|e: EntryView| bound_to(e, active@)),
        count == old(all)@.filter(|e: EntryView| e.fingerprint is None).len(),
{
    let ghost unbound = |e: EntryView| e.fingerprint is None;
    let ghost bind = |e: EntryView| bound_to(e, active@);
    let mut bound: Vec<Entry> = Vec::new();
    let mut count: usize = 0;
    let mut i: usize = 0;
    while i < all.entries.len()
        invariant
            i <= all.entries.len(),
            all == old(all),
            unbound == |e: EntryView| e.fingerprint is None,
            bind == |e: EntryView| bound_to(e, active@),
            views(bound@) == all@.take(i as int).map_values(bind),
            count == all@.take(i as int).filter(unbound).len(),
            count <= i,
        decreases all.entries.len() - i,
    {
        let ghost now = all@.take(i + 1);
        proof {
            assert(now == all@.take(i as int).push(all@[i as int]));
            all@.take(i as int).lemma_filter_push(all@[i as int], unbound);
        }
        let mut e = all.entries[i].clone();
        if e.fingerprint.is_none() {
            e.fingerprint = Some(active.to_owned());
            count += 1;
        }
        proof {
            views_push(bound@, e);
            assert(now.map_values(bind) == all@.take(i as int).map_values(bind).push(e@));
        }
        bound.push(e);
        i += 1;
    }
    assert(all@.take(i as int) == all@);
    all.entries = bound;
    count
}

/// The largest positive order among `entries`, or -1 where none has one:
/// a catalog uses the custom order exactly when this is not negative.
pub open spec fn max_custom_order(entries: Seq<EntryView>) -> int
    decreases entries.len(),
{
    if entries.len() == 0 {
        -1
    } else {
        let before = max_custom_order(entries.drop_last());
        let own = entries.last().order;
        if own != 0 && own > before {
            own as int
        } else {
            before
        }
    }
}

/// The order after `max_order`, held within `i64`.
pub open spec fn following_order(max_order: int) -> int {
    if max_order >= i64::MAX {
        i64::MAX as int
    } else {
        max_order + 1
    }
}

/// The catalog after merging `incoming` into `existing`, entry by entry. An
/// incoming entry whose identifier the catalog already holds is skipped.
/// Where the catalog uses the custom order (`max_order >= 0`), an accepted
/// entry is given the order after the largest so far; otherwise it keeps the
/// order it came with.
pub open spec fn merged(existing: Seq<EntryView>, incoming: Seq<EntryView>, max_order: int) -> Seq<
    EntryView,
>
    decreases incoming.len(),
{
    if incoming.len() == 0 {
        existing
    } else {
        let e = incoming.first();
        if has_id(existing, e.id) {
            merged(existing, incoming.drop_first(), max_order)
        } else if max_order >= 0 {
            let order = following_order(max_order);
            merged(
                existing.push(EntryView { order: order as i64, ..e }),
                incoming.drop_first(),
                order,
            )
        } else {
            merged(existing.push(e), incoming.drop_first(), max_order)
        }
    }
}

/// Merging keeps the catalog as a prefix of the result.
pub proof fn merged_extends(existing: Seq<EntryView>, incoming: Seq<EntryView>, max_order: int)
    ensures
        merged(existing, incoming, max_order).len() >= existing.len(),
        merged(existing, incoming, max_order).len() <= existing.len() + incoming.len(),
        merged(existing, incoming, max_order).take(existing.len() as int) == existing,
    decreases incoming.len(),
{
    if incoming.len() == 0 {
        assert(existing.take(existing.len() as int) == existing);
    } else {
        let e = incoming.first();
        let rest = incoming.drop_first();
        if has_id(existing, e.id) {
            merged_extends(existing, rest, max_order);
        } else {
            let (grown, order) = if max_order >= 0 {
                let order = following_order(max_order);
                (existing.push(EntryView { order: order as i64, ..e }), order)
            } else {
                (existing.push(e), max_order)
            };
            merged_extends(grown, rest, order);
            let result = merged(grown, rest, order);
            assert(result.take(existing.len() as int) == result.take(grown.len() as int).take(
                existing.len() as int,
            ));
            assert(grown.take(existing.len() as int) == existing);
        }
    }
}

/// Merging never brings an identifier into the catalog a second time.
pub proof fn merged_keeps_ids_distinct(
    existing: Seq<EntryView>,
    incoming: Seq<EntryView>,
    max_order: int,
)
    requires
        ids_distinct(existing),
    ensures
        ids_distinct(merged(existing, incoming, max_order)),
    decreases incoming.len(),
{
    if incoming.len() > 0 {
        let e = incoming.first();
        let rest = incoming.drop_first();
        if has_id(existing, e.id) {
            merged_keeps_ids_distinct(existing, rest, max_order);
        } else {
            let (grown, order) = if max_order >= 0 {
                let order = following_order(max_order);
                (existing.push(EntryView { order: order as i64, ..e }), order)
            } else {
                (existing.push(e), max_order)
            };
            assert forall|i: int, j: int| 0 <= i < j < grown.len() implies (#[trigger] grown[i]).id
                != (#[trigger] grown[j]).id by {
                if j == existing.len() {
                    assert(existing[i].id != e.id);
                } else {
                    assert(existing[i].id != existing[j].id);
                }
            }
            merged_keeps_ids_distinct(grown, rest, order);
        }
    }
}

/// Whether some entry of `entries` has the identifier `id`.
fn contains_id(entries: &Vec<Entry>, id: &String) -> (r: bool)
    ensures
        r == has_id(views(entries@), id@),
{
    let mut i: usize = 0;
    while i < entries.len()
        invariant
            i <= entries.len(),
            forall|j: int| 0 <= j < i ==> (#[trigger] views(entries@)[j]).id != id@,
        decreases entries.len() - i,
    {
        if entries[i].id == *id {
            assert(views(entries@)[i as int].id == id@);
            return true;
        }
        i += 1;
    }
    false
}

/// The largest positive order among `entries`, or -1.
fn max_order_of(entries: &Vec<Entry>) -> (max: i64)
    ensures
        max == max_custom_order(views(entries@)),
        max >= -1,
{
    let mut max: i64 = -1;
    let mut i: usize = 0;
    while i < entries.len()
        invariant
            i <= entries.len(),
            max == max_custom_order(views(entries@).take(i as int)),
            max >= -1,
        decreases entries.len() - i,
    {
        let own = entries[i].order;
        assert(views(entries@).take(i + 1).drop_last() == views(entries@).take(i as int));
        if own != 0 && own > max {
            max = own;
        }
        i += 1;
    }
    assert(views(entries@).take(i as int) == views(entries@));
    max
}

/// Merges `entries` into the catalog and returns how many were accepted. An
/// entry whose identifier the catalog already holds is skipped; the entries
/// of the catalog stay as they are, in front of the accepted ones. A
/// catalog without duplicate identifiers stays without.
pub fn merge(all: &mut EntriesFile, entries: Vec<Entry>) -> (count: usize)
    ensures
        final(all)@ == merged(old(all)@, views(entries@), max_custom_order(old(all)@)),
        count == final(all)@.len() - old(all)@.len(),
        final(all)@.take(old(all)@.len() as int) == old(all)@,
        ids_distinct(old(all)@) ==> ids_distinct(final(all)@),
{
    let ghost incoming = views(entries@);
    let ghost start_order = max_custom_order(all@) as int;
    let mut max_order: i64 = max_order_of(&all.entries);
    let mut count: usize = 0;
    let mut i: usize = 0;
    assert(incoming.skip(0) == incoming);
    while i < entries.len()
        invariant
            i <= entries.len(),
            incoming == views(entries@),
            count <= i,
            all@.len() == old(all)@.len() + count,
            merged(old(all)@, incoming, start_order) == merged(
                all@,
                incoming.skip(i as int),
                max_order as int,
            ),
        decreases entries.len() - i,
    {
        let ghost rest = incoming.skip(i as int);
        assert(rest.first() == entries@[i as int]@);
        assert(rest.drop_first() == incoming.skip(i + 1));
        if !contains_id(&all.entries, &entries[i].id) {
            let mut e = entries[i].clone();
            if max_order >= 0 {
                max_order = if max_order == i64::MAX {
                    i64::MAX
                } else {
                    max_order + 1
                };
                e.order = max_order;
            }
            proof {
                views_push(all.entries@, e);
            }
            all.entries.push(e);
            count += 1;
        }
        i += 1;
    }
    proof {
        merged_extends(old(all)@, incoming, start_order);
        if ids_distinct(old(all)@) {
            merged_keeps_ids_distinct(old(all)@, incoming, start_order);
        }
    }
    count
}

/// The index of the last occurrence of `id` in `ids`, or -1 where it does
/// not occur.
pub open spec fn last_position(ids: Seq<Seq<char>>, id: Seq<char>) -> int
    decreases ids.len(),
{
    if ids.len() == 0 {
        -1
    } else if ids.last() == id {
        ids.len() - 1
    } else {
        last_position(ids.drop_last(), id)
    }
}

/// The number of different identifiers in `ids`.
pub open spec fn distinct_count(ids: Seq<Seq<char>>) -> nat
    decreases ids.len(),
{
    if ids.len() == 0 {
        0
    } else if ids.drop_last().contains(ids.last()) {
        distinct_count(ids.drop_last())
    } else {
        distinct_count(ids.drop_last()) + 1
    }
}

/// The order value for position `n`, held within `i64`.
pub open spec fn order_at(n: int) -> i64 {
    if n > i64::MAX {
        i64::MAX
    } else {
        n as i64
    }
}

/// The catalog after reordering. An entry that is not visible under `active`
/// is left alone. A visible entry whose identifier is in `ids` gets the
/// index of its last occurrence there as its order. The other visible
/// entries get `next` and the numbers after it, in the order in which the
/// catalog holds them.
pub open spec fn reordered(
    entries: Seq<EntryView>,
    active: Option<Seq<char>>,
    ids: Seq<Seq<char>>,
    next: int,
) -> Seq<EntryView>
    decreases entries.len(),
{
    if entries.len() == 0 {
        entries
    } else {
        let e = entries.first();
        let rest = entries.drop_first();
        if !visible_under(e, active) {
            seq![e] + reordered(rest, active, ids, next)
        } else if last_position(ids, e.id) >= 0 {
            seq![EntryView { order: order_at(last_position(ids, e.id)), ..e }] + reordered(
                rest,
                active,
                ids,
                next,
            )
        } else {
            seq![EntryView { order: order_at(next), ..e }] + reordered(rest, active, ids, next + 1)
        }
    }
}

/// The index of the last occurrence of `id` in `ids`.
fn find_last(ids: &Vec<String>, id: &String) -> (r: Option<usize>)
    ensures
        match r {
            Some(i) => i == last_position(views(ids@), id@),
            None => last_position(views(ids@), id@) == -1,
        },
{
    let mut n: usize = ids.len();
    assert(views(ids@).take(n as int) == views(ids@));
    while n > 0
        invariant
            n <= ids.len(),
            last_position(views(ids@), id@) == last_position(views(ids@).take(n as int), id@),
        decreases n,
    {
        assert(views(ids@).take(n as int).drop_last() == views(ids@).take(n - 1));
        assert(views(ids@).take(n as int).last() == ids@[n - 1]@);
        if ids[n - 1] == *id {
            return Some(n - 1);
        }
        n -= 1;
    }
    None
}

/// The number of different strings in `ids`.
fn count_distinct(ids: &Vec<String>) -> (count: usize)
    ensures
        count == distinct_count(views(ids@)),
{
    let mut count: usize = 0;
    let mut i: usize = 0;
    while i < ids.len()
        invariant
            i <= ids.len(),
            count <= i,
            count == distinct_count(views(ids@).take(i as int)),
        decreases ids.len() - i,
    {
        let ghost before = views(ids@).take(i as int);
        let ghost now = views(ids@).take(i + 1);
        assert(now.drop_last() == before);
        assert(now.last() == ids@[i as int]@);
        let mut seen = false;
        let mut j: usize = 0;
        while j < i
            invariant
                j <= i < ids.len(),
                before == views(ids@).take(i as int),
                seen == before.take(j as int).contains(ids@[i as int]@),
            decreases i - j,
        {
            let ghost upto = before.take(j + 1);
            assert(upto.drop_last() == before.take(j as int));
            assert(upto.last() == ids@[j as int]@);
            if ids[j] == ids[i] {
                seen = true;
                assert(upto[j as int] == ids@[i as int]@);
            } else {
                proof {
                    if upto.contains(ids@[i as int]@) {
                        let k = choose|k: int| 0 <= k < upto.len() && upto[k] == ids@[i as int]@;
                        assert(before.take(j as int)[k] == ids@[i as int]@);
                    }
                    if before.take(j as int).contains(ids@[i as int]@) {
                        let k = choose|k: int|
                            0 <= k < before.take(j as int).len() && before.take(j as int)[k]
                                == ids@[i as int]@;
                        assert(upto[k] == ids@[i as int]@);
                    }
                }
            }
            j += 1;
        }
        assert(before.take(i as int) == before);
        if !seen {
            count += 1;
        }
        i += 1;
    }
    assert(views(ids@).take(i as int) == views(ids@));
    count
}

/// The order value for position `n`.
fn order_for(n: u64) -> (order: i64)
    ensures
        order == order_at(n as int),
{
    if n > 0x7FFF_FFFF_FFFF_FFFF {
        i64::MAX
    } else {
        n as i64
    }
}

/// Assigns the custom order. Each visible entry whose identifier is in `ids`
/// gets its position there; the visible entries that `ids` leaves out follow
/// after, in the order in which the catalog holds them, numbered from the
/// count of different identifiers in `ids`. Entries that are not visible
/// under `active` keep their order.
pub fn reorder_for_fingerprint(all: &mut EntriesFile, active: &Option<String>, ids: Vec<String>)
    ensures
        final(all)@ == reordered(
            old(all)@,
            optional_chars(*active),
            views(ids@),
            distinct_count(views(ids@)) as int,
        ),
{
    let ghost first_next = distinct_count(views(ids@)) as int;
    let ghost fp = optional_chars(*active);
    let ghost mut next_spec: int = first_next;
    let mut next: u64 = count_distinct(&ids) as u64;
    let mut done: Vec<Entry> = Vec::new();
    let mut i: usize = 0;
    assert(all@.skip(0) == all@);
    assert(views(done@) + reordered(all@, fp, views(ids@), next_spec) == reordered(
        all@,
        fp,
        views(ids@),
        next_spec,
    ));
    while i < all.entries.len()
        invariant
            i <= all.entries.len(),
            all == old(all),
            fp == optional_chars(*active),
            next as int == if next_spec > u64::MAX {
                u64::MAX as int
            } else {
                next_spec
            },
            views(done@) + reordered(all@.skip(i as int), fp, views(ids@), next_spec) == reordered(
                all@,
                fp,
                views(ids@),
                first_next,
            ),
        decreases all.entries.len() - i,
    {
        let ghost rest = all@.skip(i as int);
        assert(rest.first() == all@[i as int]);
        assert(rest.drop_first() == all@.skip(i + 1));
        let ghost tail_before = reordered(rest, fp, views(ids@), next_spec);
        let mut e = all.entries[i].clone();
        if is_visible(&e, active) {
            match find_last(&ids, &e.id) {
                Some(position) => {
                    e.order = order_for(position as u64);
                },
                None => {
                    e.order = order_for(next);
                    if next < u64::MAX {
                        next += 1;
                    }
                    proof {
                        next_spec = next_spec + 1;
                    }
                },
            }
        }
        proof {
            views_push(done@, e);
            let tail_after = reordered(all@.skip(i + 1), fp, views(ids@), next_spec);
            assert(tail_before == seq![e@] + tail_after);
            assert(views(done@).push(e@) + tail_after == views(done@) + tail_before);
        }
        done.push(e);
        i += 1;
    }
    assert(reordered(all@.skip(i as int), fp, views(ids@), next_spec) == Seq::<EntryView>::empty());
    assert(views(done@) + Seq::<EntryView>::empty() == views(done@));
    all.entries = done;
}

/// Whether reordering gives `e` a position of `ids`.
pub open spec fn listed(e: EntryView, active: Option<Seq<char>>, ids: Seq<Seq<char>>) -> bool {
    visible_under(e, active) && last_position(ids, e.id) >= 0
}

/// Whether `e` is visible under `active` and left out of `ids`.
pub open spec fn omitted(e: EntryView, active: Option<Seq<char>>, ids: Seq<Seq<char>>) -> bool {
    visible_under(e, active) && last_position(ids, e.id) < 0
}

/// The number of entries that are visible and left out of `ids`.
pub open spec fn omitted_count(
    entries: Seq<EntryView>,
    active: Option<Seq<char>>,
    ids: Seq<Seq<char>>,
) -> nat
    decreases entries.len(),
{
    if entries.len() == 0 {
        0
    } else if omitted(entries.first(), active, ids) {
        1 + omitted_count(entries.drop_first(), active, ids)
    } else {
        omitted_count(entries.drop_first(), active, ids)
    }
}

/// The last position of an identifier is an index of `ids`, or -1.
pub proof fn last_position_bounds(ids: Seq<Seq<char>>, id: Seq<char>)
    ensures
        -1 <= last_position(ids, id) < ids.len(),
        last_position(ids, id) >= 0 ==> ids[last_position(ids, id)] == id,
    decreases ids.len(),
{
    if ids.len() > 0 && ids.last() != id {
        last_position_bounds(ids.drop_last(), id);
    }
}

/// Identifiers that are all different are as many as the list is long.
pub proof fn distinct_count_without_duplicates(ids: Seq<Seq<char>>)
    requires
        ids.no_duplicates(),
    ensures
        distinct_count(ids) == ids.len(),
    decreases ids.len(),
{
    if ids.len() > 0 {
        let before = ids.drop_last();
        distinct_count_without_duplicates(before);
        if before.contains(ids.last()) {
            let k = choose|k: int| 0 <= k < before.len() && before[k] == ids.last();
            assert(ids[k] == ids[ids.len() - 1]);
        }
    }
}

/// More entries hold at least as many omitted ones.
pub proof fn omitted_count_grows(
    entries: Seq<EntryView>,
    active: Option<Seq<char>>,
    ids: Seq<Seq<char>>,
    i: int,
    j: int,
)
    requires
        0 <= i <= j <= entries.len(),
    ensures
        omitted_count(entries.take(i), active, ids) <= omitted_count(entries.take(j), active, ids),
        omitted_count(entries.take(j), active, ids) <= j,
        i < j && omitted(entries[i], active, ids) ==> omitted_count(entries.take(i), active, ids)
            < omitted_count(entries.take(j), active, ids),
    decreases entries.len(),
{
    if j > 0 {
        let rest = entries.drop_first();
        assert(entries.take(j).drop_first() == rest.take(j - 1));
        assert(entries.take(j).first() == entries[0]);
        if i > 0 {
            assert(entries.take(i).drop_first() == rest.take(i - 1));
            assert(entries.take(i).first() == entries[0]);
            omitted_count_grows(rest, active, ids, i - 1, j - 1);
        } else {
            omitted_count_grows(rest, active, ids, 0, j - 1);
        }
    }
}

/// What reordering makes of the entry at index `i`: its order is the one
/// thing that can change.
pub proof fn reordered_at(
    entries: Seq<EntryView>,
    active: Option<Seq<char>>,
    ids: Seq<Seq<char>>,
    next: int,
    i: int,
)
    requires
        0 <= i < entries.len(),
    ensures
        reordered(entries, active, ids, next).len() == entries.len(),
        reordered(entries, active, ids, next)[i] == if !visible_under(entries[i], active) {
            entries[i]
        } else if last_position(ids, entries[i].id) >= 0 {
            EntryView { order: order_at(last_position(ids, entries[i].id)), ..entries[i] }
        } else {
            EntryView {
                order: order_at(next + omitted_count(entries.take(i), active, ids)),
                ..entries[i]
            }
        },
    decreases entries.len(),
{
    let rest = entries.drop_first();
    let e = entries.first();
    let next_after = if omitted(e, active, ids) {
        next + 1
    } else {
        next
    };
    reordered_len(rest, active, ids, next_after);
    if i > 0 {
        reordered_at(rest, active, ids, next_after, i - 1);
        assert(entries.take(i).drop_first() == rest.take(i - 1));
        assert(entries.take(i).first() == e);
        assert(rest[i - 1] == entries[i]);
    } else {
        assert(entries.take(0).len() == 0);
    }
}

/// Reordering keeps the number of entries.
pub proof fn reordered_len(
    entries: Seq<EntryView>,
    active: Option<Seq<char>>,
    ids: Seq<Seq<char>>,
    next: int,
)
    ensures
        reordered(entries, active, ids, next).len() == entries.len(),
    decreases entries.len(),
{
    if entries.len() > 0 {
        let next_after = if omitted(entries.first(), active, ids) {
            next + 1
        } else {
            next
        };
        reordered_len(entries.drop_first(), active, ids, next_after);
    }
}

/// Reordering by a list without repetitions puts the visible entries that
/// the list leaves out after every listed one, in the order in which the
/// catalog holds them; a listed entry gets its position in the list, and an
/// entry that is not visible is left as it is.
pub proof fn reorder_appends_omitted(
    entries: Seq<EntryView>,
    active: Option<Seq<char>>,
    ids: Seq<Seq<char>>,
)
    requires
        ids.no_duplicates(),
        ids.len() + entries.len() <= i64::MAX,
    ensures
        distinct_count(ids) == ids.len(),
        ({
            let r = reordered(entries, active, ids, distinct_count(ids) as int);
            &&& r.len() == entries.len()
            &&& forall|i: int|
                0 <= i < entries.len() ==> #[trigger] r[i] == EntryView {
                    order: r[i].order,
                    ..entries[i]
                }
            &&& forall|i: int|
                0 <= i < entries.len() && !visible_under(entries[i], active) ==> #[trigger] r[i]
                    == entries[i]
            &&& forall|i: int|
                0 <= i < entries.len() && listed(entries[i], active, ids) ==> (#[trigger] r[i]).order
                    == last_position(ids, entries[i].id)
            &&& forall|i: int, j: int|
                0 <= i < entries.len() && 0 <= j < entries.len() && listed(entries[i], active, ids)
                    && omitted(entries[j], active, ids) ==> (#[trigger] r[i]).order < (
                #[trigger] r[j]).order
            &&& forall|i: int, j: int|
                0 <= i < j < entries.len() && omitted(entries[i], active, ids) && omitted(
                    entries[j],
                    active,
                    ids,
                ) ==> (#[trigger] r[i]).order < (#[trigger] r[j]).order
        }),
{
    distinct_count_without_duplicates(ids);
    let next = ids.len() as int;
    let r = reordered(entries, active, ids, next);
    reordered_len(entries, active, ids, next);
    assert forall|i: int| 0 <= i < entries.len() implies {
        &&& #[trigger] r[i] == EntryView { order: r[i].order, ..entries[i] }
        &&& !visible_under(entries[i], active) ==> r[i] == entries[i]
        &&& listed(entries[i], active, ids) ==> r[i].order == last_position(ids, entries[i].id)
            && r[i].order < ids.len()
        &&& omitted(entries[i], active, ids) ==> r[i].order == ids.len() + omitted_count(
            entries.take(i),
            active,
            ids,
        )
    } by {
        reordered_at(entries, active, ids, next, i);
        last_position_bounds(ids, entries[i].id);
        omitted_count_grows(entries, active, ids, i, i);
    }
    assert forall|i: int, j: int|
        0 <= i < j < entries.len() && omitted(entries[i], active, ids) && omitted(
            entries[j],
            active,
            ids,
        ) implies (#[trigger] r[i]).order < (#[trigger] r[j]).order by {
        omitted_count_grows(entries, active, ids, i, j);
    }
}

/// Whether `a` is listed strictly before `b`: entries with a nonzero order
/// come first, by ascending order; entries with order zero follow, the most
/// recently created first.
pub open spec fn precedes(a: EntryView, b: EntryView) -> bool {
    if a.order != 0 && b.order != 0 {
        a.order < b.order
    } else if a.order != 0 {
        true
    } else if b.order != 0 {
        false
    } else {
        a.created_at > b.created_at
    }
}

/// `sorted` with `e` put behind the last entry that `e` does not precede.
pub open spec fn inserted(sorted: Seq<EntryView>, e: EntryView) -> Seq<EntryView>
    decreases sorted.len(),
{
    if sorted.len() > 0 && precedes(e, sorted.last()) {
        inserted(sorted.drop_last(), e).push(sorted.last())
    } else {
        sorted.push(e)
    }
}

/// The entries of `s` in listing order. Entries of which neither precedes
/// the other keep the order in which `s` holds them.
pub open spec fn in_listing_order(s: Seq<EntryView>) -> Seq<EntryView>
    decreases s.len(),
{
    if s.len() == 0 {
        s
    } else {
        inserted(in_listing_order(s.drop_last()), s.last())
    }
}

/// The entries visible under `active`, in listing order.
pub open spec fn listing(all: Seq<EntryView>, active: Option<Seq<char>>) -> Seq<EntryView> {
    in_listing_order(all.filter(|e: EntryView| visible_under(e, active)))
}

/// Whether no entry of `s` precedes an entry that stands before it.
pub open spec fn ordered(s: Seq<EntryView>) -> bool {
    forall|i: int, j: int| 0 <= i < j < s.len() ==> !precedes(#[trigger] s[j], #[trigger] s[i])
}

/// Inserting puts `e` at index `p` when `e` precedes every entry from `p`
/// on and not the one before `p`.
pub proof fn inserted_at(sorted: Seq<EntryView>, e: EntryView, p: int)
    requires
        0 <= p <= sorted.len(),
        forall|k: int| p <= k < sorted.len() ==> precedes(e, #[trigger] sorted[k]),
        p > 0 ==> !precedes(e, sorted[p - 1]),
    ensures
        inserted(sorted, e) == sorted.insert(p, e),
    decreases sorted.len() - p,
{
    if p == sorted.len() {
        assert(sorted.insert(p, e) == sorted.push(e));
    } else {
        let shorter = sorted.drop_last();
        inserted_at(shorter, e, p);
        assert(shorter.insert(p, e).push(sorted.last()) == sorted.insert(p, e));
    }
}

/// Inserting into an ordered sequence gives an ordered sequence with the
/// same entries and the new one.
pub proof fn inserted_keeps_order(sorted: Seq<EntryView>, e: EntryView)
    requires
        ordered(sorted),
    ensures
        ordered(inserted(sorted, e)),
        inserted(sorted, e).len() == sorted.len() + 1,
        inserted(sorted, e).to_multiset() == sorted.to_multiset().insert(e),
    decreases sorted.len(),
{
    broadcast use vstd::seq_lib::group_to_multiset_ensures;

    if sorted.len() > 0 && precedes(e, sorted.last()) {
        let shorter = sorted.drop_last();
        let last = sorted.last();
        assert(sorted == shorter.push(last));
        assert(ordered(shorter)) by {
            assert forall|i: int, j: int| 0 <= i < j < shorter.len() implies !precedes(
                #[trigger] shorter[j],
                #[trigger] shorter[i],
            ) by {
                assert(!precedes(sorted[j], sorted[i]));
            }
        }
        inserted_keeps_order(shorter, e);
        let inner = inserted(shorter, e);
        let result = inner.push(last);
        assert forall|i: int, j: int| 0 <= i < j < result.len() implies !precedes(
            #[trigger] result[j],
            #[trigger] result[i],
        ) by {
            if j < inner.len() {
                assert(!precedes(inner[j], inner[i]));
            } else {
                // every entry of `inner` is `e` or an entry of `shorter`
                assert(inner.to_multiset().count(inner[i]) > 0);
                if inner[i] != e {
                    assert(shorter.to_multiset().count(inner[i]) > 0);
                    assert(shorter.contains(inner[i]));
                    let k = choose|k: int| 0 <= k < shorter.len() && shorter[k] == inner[i];
                    assert(!precedes(sorted[sorted.len() - 1], sorted[k]));
                }
            }
        }
        assert(result.to_multiset() == sorted.to_multiset().insert(e)) by {
            assert(result.to_multiset() =~= inner.to_multiset().insert(last));
            assert(sorted.to_multiset() =~= shorter.to_multiset().insert(last));
            assert(shorter.to_multiset().insert(e).insert(last) =~= shorter.to_multiset().insert(
                last,
            ).insert(e));
        }
    } else {
        let result = sorted.push(e);
        assert forall|i: int, j: int| 0 <= i < j < result.len() implies !precedes(
            #[trigger] result[j],
            #[trigger] result[i],
        ) by {
            if j < sorted.len() {
                assert(!precedes(sorted[j], sorted[i]));
            } else if sorted.len() > 0 {
                assert(!precedes(sorted[sorted.len() - 1], sorted[i]));
            }
        }
    }
}

/// The listing order is ordered and holds each entry as often as the
/// sequence it was made from.
pub proof fn listing_order_sorts(s: Seq<EntryView>)
    ensures
        ordered(in_listing_order(s)),
        in_listing_order(s).len() == s.len(),
        in_listing_order(s).to_multiset() == s.to_multiset(),
    decreases s.len(),
{
    broadcast use vstd::seq_lib::group_to_multiset_ensures;

    if s.len() > 0 {
        listing_order_sorts(s.drop_last());
        inserted_keeps_order(in_listing_order(s.drop_last()), s.last());
        assert(s == s.drop_last().push(s.last()));
    }
}

/// Whether, of the entries at the indices `i` and `j` of `s`, the first is
/// listed before the second: it precedes it, or neither precedes the other
/// and it stands first in `s`.
pub open spec fn listed_before(s: Seq<EntryView>, i: int, j: int) -> bool {
    precedes(s[i], s[j]) || (!precedes(s[j], s[i]) && i < j)
}

/// `order` with the index `i` put behind the last index whose entry the
/// entry at `i` does not precede.
pub open spec fn inserted_index(order: Seq<int>, s: Seq<EntryView>, i: int) -> Seq<int>
    decreases order.len(),
{
    if order.len() > 0 && precedes(s[i], s[order.last()]) {
        inserted_index(order.drop_last(), s, i).push(order.last())
    } else {
        order.push(i)
    }
}

/// The indices of the first `n` entries of `s`, in listing order.
pub open spec fn listing_indices(s: Seq<EntryView>, n: nat) -> Seq<int>
    decreases n,
{
    if n == 0 {
        Seq::empty()
    } else {
        inserted_index(listing_indices(s, (n - 1) as nat), s, n - 1)
    }
}

/// Whether `order` holds indices below `n` of which each is listed before
/// all that follow it.
pub open spec fn indices_in_listing_order(order: Seq<int>, s: Seq<EntryView>, n: int) -> bool {
    &&& forall|k: int| 0 <= k < order.len() ==> 0 <= #[trigger] order[k] < n
    &&& forall|k: int, l: int|
        0 <= k < l < order.len() ==> listed_before(s, #[trigger] order[k], #[trigger] order[l])
}

/// Inserting an index keeps the indices in listing order, and the entries
/// at the indices are the entries that inserting the entry gives.
pub proof fn inserted_index_keeps_order(order: Seq<int>, s: Seq<EntryView>, i: int)
    requires
        0 <= i < s.len(),
        indices_in_listing_order(order, s, i),
    ensures
        indices_in_listing_order(inserted_index(order, s, i), s, i + 1),
        inserted_index(order, s, i).len() == order.len() + 1,
        forall|k: int|
            0 <= k < inserted_index(order, s, i).len() ==> #[trigger] inserted_index(order, s, i)[k]
                == i || order.contains(inserted_index(order, s, i)[k]),
        inserted_index(order, s, i).map_values(|x: int| s[x]) == inserted(
            order.map_values(|x: int| s[x]),
            s[i],
        ),
    decreases order.len(),
{
    let at = |x: int| s[x];
    let result = inserted_index(order, s, i);
    if order.len() > 0 && precedes(s[i], s[order.last()]) {
        let shorter = order.drop_last();
        let last = order.last();
        assert(indices_in_listing_order(shorter, s, i)) by {
            assert forall|k: int, l: int| 0 <= k < l < shorter.len() implies listed_before(
                s,
                #[trigger] shorter[k],
                #[trigger] shorter[l],
            ) by {
                assert(listed_before(s, order[k], order[l]));
            }
            assert forall|k: int| 0 <= k < shorter.len() implies 0 <= #[trigger] shorter[k]
                < i by {
                assert(0 <= order[k] < i);
            }
        }
        inserted_index_keeps_order(shorter, s, i);
        let inner = inserted_index(shorter, s, i);
        assert(0 <= order[order.len() - 1] < i);
        assert forall|k: int| 0 <= k < result.len() implies #[trigger] result[k] == i
            || order.contains(result[k]) by {
            if k < inner.len() {
                if inner[k] != i {
                    let m = choose|m: int| 0 <= m < shorter.len() && shorter[m] == inner[k];
                    assert(order[m] == inner[k]);
                }
            } else {
                assert(order[order.len() - 1] == result[k]);
            }
        }
        assert forall|k: int, l: int| 0 <= k < l < result.len() implies listed_before(
            s,
            #[trigger] result[k],
            #[trigger] result[l],
        ) by {
            if l < inner.len() {
                assert(listed_before(s, inner[k], inner[l]));
            } else if inner[k] != i {
                let m = choose|m: int| 0 <= m < shorter.len() && shorter[m] == inner[k];
                assert(listed_before(s, order[m], order[order.len() - 1]));
            }
        }
        assert forall|k: int| 0 <= k < result.len() implies 0 <= #[trigger] result[k] < i + 1 by {
            if k < inner.len() {
                assert(0 <= inner[k] < i + 1);
            }
        }
        assert(order.map_values(at).drop_last() == shorter.map_values(at));
        assert(order.map_values(at).last() == s[last]);
        assert(result.map_values(at) == inner.map_values(at).push(s[last]));
    } else {
        assert forall|k: int, l: int| 0 <= k < l < result.len() implies listed_before(
            s,
            #[trigger] result[k],
            #[trigger] result[l],
        ) by {
            if l < order.len() {
                assert(listed_before(s, order[k], order[l]));
            } else {
                assert(0 <= order[k] < i);
                if k < order.len() - 1 {
                    assert(listed_before(s, order[k], order[order.len() - 1]));
                }
                assert(0 <= order[order.len() - 1] < i);
            }
        }
        assert forall|k: int| 0 <= k < result.len() implies #[trigger] result[k] == i
            || order.contains(result[k]) by {
            if k < order.len() {
                assert(order[k] == result[k]);
            }
        }
        if order.len() > 0 {
            assert(order.map_values(at).last() == s[order.last()]);
        }
        assert(result.map_values(at) == order.map_values(at).push(s[i]));
    }
}

/// Listing is a stable sort: the listing order of `s` holds the entries of
/// `s` at the indices `listing_indices` gives, each index below the length
/// of `s` once, and each listed before all that follow it. Entries of which
/// neither precedes the other therefore keep the order they have in `s`.
pub proof fn listing_is_stable(s: Seq<EntryView>, n: nat)
    requires
        n <= s.len(),
    ensures
        listing_indices(s, n).len() == n,
        indices_in_listing_order(listing_indices(s, n), s, n as int),
        in_listing_order(s.take(n as int)) == listing_indices(s, n).map_values(|x: int| s[x]),
    decreases n,
{
    let at = |x: int| s[x];
    if n == 0 {
        assert(in_listing_order(s.take(0)) == listing_indices(s, 0).map_values(at));
    } else {
        let before = (n - 1) as nat;
        listing_is_stable(s, before);
        let order = listing_indices(s, before);
        inserted_index_keeps_order(order, s, n - 1);
        assert(s.take(n as int).drop_last() == s.take(n - 1));
        assert(s.take(n as int).last() == s[n - 1]);
    }
}

/// Whether `a` is listed strictly before `b`.
fn comes_before(a: &Entry, b: &Entry) -> (r: bool)
    ensures
        r == precedes(a@, b@),
{
    if a.order != 0 && b.order != 0 {
        a.order < b.order
    } else if a.order != 0 {
        true
    } else if b.order != 0 {
        false
    } else {
        a.created_at > b.created_at
    }
}

/// The entries visible under `active`, in listing order: those with a
/// nonzero order first, by ascending order, then those with order zero, the
/// most recently created first.
pub fn list_for_fingerprint(all: &EntriesFile, active: &Option<String>) -> (shown: Vec<Entry>)
    ensures
        views(shown@) == listing(all@, optional_chars(*active)),
        ordered(views(shown@)),
        views(shown@).to_multiset() == all@.filter(
            |e: EntryView| visible_under(e, optional_chars(*active)),
        ).to_multiset(),
{
    let ghost fp = optional_chars(*active);
    let ghost visible = |e: EntryView| visible_under(e, fp);
    let mut shown: Vec<Entry> = Vec::new();
    let mut i: usize = 0;
    while i < all.entries.len()
        invariant
            i <= all.entries.len(),
            fp == optional_chars(*active),
            visible == |e: EntryView| visible_under(e, fp),
            views(shown@) == in_listing_order(all@.take(i as int).filter(visible)),
        decreases all.entries.len() - i,
    {
        proof {
            assert(all@.take(i + 1) == all@.take(i as int).push(all@[i as int]));
            all@.take(i as int).lemma_filter_push(all@[i as int], visible);
        }
        if is_visible(&all.entries[i], active) {
            let e = all.entries[i].clone();
            let mut p: usize = shown.len();
            while p > 0 && comes_before(&e, &shown[p - 1])
                invariant
                    p <= shown.len(),
                    forall|k: int| p <= k < shown.len() ==> precedes(e@, #[trigger] views(shown@)[k]),
                decreases p,
            {
                p -= 1;
            }
            proof {
                let before = views(shown@);
                inserted_at(before, e@, p as int);
                assert(views(shown@.insert(p as int, e)) =~= before.insert(p as int, e@));
                let kept = all@.take(i as int).filter(visible);
                assert(kept.push(e@).drop_last() == kept);
            }
            shown.insert(p, e);
        }
        i += 1;
    }
    proof {
        assert(all@.take(i as int) == all@);
        listing_order_sorts(all@.filter(visible));
    }
    shown
}

/// Every entry of the catalog, in listing order.
pub fn list(all: &EntriesFile) -> (shown: Vec<Entry>)
    ensures
        views(shown@) == listing(all@, None),
{
    list_for_fingerprint(all, &None)
}

/// The identifier of a new entry: the creation time in milliseconds and a
/// random number, both in lower-case hexadecimal, joined by a hyphen.
pub fn new_id(millis: u128, random: u64) -> (id: String)
    ensures
        id@ == crate::text::hex_of(millis as nat) + seq!['-'] + crate::text::hex_of(random as nat),
{
    let mut out: Vec<char> = Vec::new();
    crate::text::push_hex(&mut out, millis);
    out.push('-');
    crate::text::push_hex(&mut out, random as u128);
    crate::text::from_chars(&out)
}

} // verus!
