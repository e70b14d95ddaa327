//! Small tables keyed by thread id text: an entry per key, in insertion
//! order, and sets of keys.

use crate::text::str_is;
use vstd::prelude::*;

verus! {

/// An entry of a keyed table.
#[derive(Clone, Debug, PartialEq, Eq)]
pub struct Slot<V> {
    pub id: String,
    pub value: V,
}

/// The keys and values of a table, in order.
pub open spec fn slots_view<V>(s: Seq<Slot<V>>) -> Seq<(Seq<char>, V)> {
    s.map_values(|x: Slot<V>| (x.id@, x.value))
}

/// The position of key `id` at or after `i`, or the length when absent.
pub open spec fn slot_pos<V>(s: Seq<(Seq<char>, V)>, id: Seq<char>, i: int) -> int
    decreases s.len() - i,
{
    if i < 0 || i >= s.len() {
        s.len() as int
    } else if s[i].0 == id {
        i
    } else {
        slot_pos(s, id, i + 1)
    }
}

pub open spec fn slot_has<V>(s: Seq<(Seq<char>, V)>, id: Seq<char>) -> bool {
    slot_pos(s, id, 0) < s.len()
}

/// The value under `id`.
pub open spec fn slot_get<V>(s: Seq<(Seq<char>, V)>, id: Seq<char>) -> Option<V> {
    let p = slot_pos(s, id, 0);
    if p < s.len() {
        Some(s[p].1)
    } else {
        None
    }
}

/// `s` with `value` under `id`: replaced in place, or appended.
pub open spec fn slot_put<V>(s: Seq<(Seq<char>, V)>, id: Seq<char>, value: V) -> Seq<(Seq<char>, V)> {
    let p = slot_pos(s, id, 0);
    if p < s.len() {
        s.update(p, (id, value))
    } else {
        s.push((id, value))
    }
}

/// `s` without the entry under `id`.
pub open spec fn slot_del<V>(s: Seq<(Seq<char>, V)>, id: Seq<char>) -> Seq<(Seq<char>, V)> {
    let p = slot_pos(s, id, 0);
    if p < s.len() {
        s.remove(p)
    } else {
        s
    }
}

/// Each key occurs once.
pub open spec fn slots_unique<V>(s: Seq<(Seq<char>, V)>) -> bool {
    forall|i: int, j: int| 0 <= i < j < s.len() ==> #[trigger] s[i].0 != #[trigger] s[j].0
}

/// The search for `id` from `i` stops at the first entry under `id`, or at the end.
pub proof fn lemma_slot_pos<V>(s: Seq<(Seq<char>, V)>, id: Seq<char>, i: int)
    requires
        0 <= i <= s.len(),
    ensures
        i <= slot_pos(s, id, i) <= s.len(),
        slot_pos(s, id, i) < s.len() ==> s[slot_pos(s, id, i)].0 == id,
        forall|j: int| i <= j < slot_pos(s, id, i) ==> s[j].0 != id,
    decreases s.len() - i,
{
    if i < s.len() && s[i].0 != id {
        lemma_slot_pos(s, id, i + 1);
    }
}

/// A table has `id` exactly when some entry is under `id`.
pub proof fn lemma_slot_has<V>(s: Seq<(Seq<char>, V)>, id: Seq<char>)
    ensures
        slot_has(s, id) <==> exists|j: int| 0 <= j < s.len() && s[j].0 == id,
{
    lemma_slot_pos(s, id, 0);
    if exists|j: int| 0 <= j < s.len() && s[j].0 == id {
        let j = choose|j: int| 0 <= j < s.len() && s[j].0 == id;
        assert(slot_pos(s, id, 0) <= j);
    }
}

/// Putting `value` under `id` keeps keys unique, adds `id` to the keys, and
/// changes only what `id` holds.
pub proof fn lemma_slot_put<V>(s: Seq<(Seq<char>, V)>, id: Seq<char>, value: V)
    requires
        slots_unique(s),
    ensures
        slots_unique(slot_put(s, id, value)),
        forall|k: Seq<char>| #[trigger]
            slot_has(slot_put(s, id, value), k) <==> (slot_has(s, k) || k == id),
        slot_get(slot_put(s, id, value), id) == Some(value),
        forall|k: Seq<char>| k != id ==> #[trigger] slot_get(slot_put(s, id, value), k) == slot_get(s, k),
{
    lemma_slot_pos(s, id, 0);
    let r = slot_put(s, id, value);
    let p = slot_pos(s, id, 0);
    assert forall|k: Seq<char>| #[trigger] slot_has(r, k) <==> (slot_has(s, k) || k == id) by {
        lemma_slot_has(s, k);
        lemma_slot_has(r, k);
        if slot_has(s, k) {
            let j = choose|j: int| 0 <= j < s.len() && s[j].0 == k;
            assert(r[j].0 == k);
        }
        if k == id {
            if p < s.len() {
                assert(r[p].0 == k);
            } else {
                assert(r[s.len() as int].0 == k);
            }
        }
        if slot_has(r, k) {
            let j = choose|j: int| 0 <= j < r.len() && r[j].0 == k;
            if j < s.len() && j != p {
                assert(s[j].0 == k);
            }
        }
    }
    lemma_slot_unique_get(r, id);
    if p < s.len() {
        assert(r[p].0 == id);
    } else {
        assert(r[s.len() as int].0 == id);
    }
    assert forall|k: Seq<char>| k != id implies #[trigger] slot_get(r, k) == slot_get(s, k) by {
        lemma_slot_pos(s, k, 0);
        lemma_slot_pos(r, k, 0);
        let a = slot_pos(s, k, 0);
        let b = slot_pos(r, k, 0);
        if a < s.len() {
            assert(r[a].0 == k);
            assert(b <= a);
            assert(s[b].0 == k);
        } else if b < r.len() {
            assert(b != p);
            if b < s.len() {
                assert(s[b].0 == k);
            }
        }
    }
}

/// In a table whose keys are unique, any entry under `id` is the one found.
pub proof fn lemma_slot_unique_get<V>(s: Seq<(Seq<char>, V)>, id: Seq<char>)
    requires
        slots_unique(s),
    ensures
        forall|j: int| 0 <= j < s.len() && s[j].0 == id ==> slot_pos(s, id, 0) == j,
{
    lemma_slot_pos(s, id, 0);
    assert forall|j: int| 0 <= j < s.len() && s[j].0 == id implies slot_pos(s, id, 0) == j by {
        let p = slot_pos(s, id, 0);
        if p < j {
            assert(s[p].0 != s[j].0);
        }
    }
}

/// Deleting `id` keeps keys unique and takes exactly `id` off the keys.
pub proof fn lemma_slot_del<V>(s: Seq<(Seq<char>, V)>, id: Seq<char>)
    requires
        slots_unique(s),
    ensures
        slots_unique(slot_del(s, id)),
        forall|k: Seq<char>| #[trigger]
            slot_has(slot_del(s, id), k) <==> (slot_has(s, k) && k != id),
{
    lemma_slot_pos(s, id, 0);
    let r = slot_del(s, id);
    let p = slot_pos(s, id, 0);
    assert forall|k: Seq<char>| #[trigger] slot_has(r, k) <==> (slot_has(s, k) && k != id) by {
        lemma_slot_has(s, k);
        lemma_slot_has(r, k);
        if slot_has(s, k) && k != id {
            let j = choose|j: int| 0 <= j < s.len() && s[j].0 == k;
            if p < s.len() {
                if j < p {
                    assert(r[j].0 == k);
                } else {
                    assert(j != p);
                    assert(r[j - 1].0 == k);
                }
            }
        }
        if slot_has(r, k) {
            let j = choose|j: int| 0 <= j < r.len() && r[j].0 == k;
            if p < s.len() {
                if j < p {
                    assert(s[j].0 == k);
                } else {
                    assert(s[j + 1].0 == k);
                    assert(j + 1 != p);
                }
            } else {
                assert(s[j].0 == k);
            }
        }
    }
}

/// The position of `id` in `v`.
pub fn find_slot<V>(v: &Vec<Slot<V>>, id: &str) -> (res: usize)
    ensures
        res == slot_pos(slots_view(v@), id@, 0),
{
    let ghost s = slots_view(v@);
    let n = v.len();
    let mut i: usize = 0;
    while i < n
        invariant
            n == v@.len(),
            s == slots_view(v@),
            i <= n,
            slot_pos(s, id@, 0) == slot_pos(s, id@, i as int),
        decreases n - i,
    {
        if str_is(v[i].id.as_str(), id) {
            return i;
        }
        i += 1;
    }
    n
}

/// The value under `id`, if any.
pub fn get_slot<'a, V>(v: &'a Vec<Slot<V>>, id: &str) -> (res: Option<&'a V>)
    ensures
        match res {
            Some(x) => slot_get(slots_view(v@), id@) == Some(*x),
            None => slot_get(slots_view(v@), id@) is None,
        },
{
    let p = find_slot(v, id);
    if p < v.len() {
        Some(&v[p].value)
    } else {
        None
    }
}

/// Puts `value` under `id`.
pub fn put_slot<V>(v: &mut Vec<Slot<V>>, id: String, value: V)
    ensures
        slots_view(final(v)@) == slot_put(slots_view(old(v)@), id@, value),
{
    let ghost s = slots_view(v@);
    let ghost key = id@;
    let p = find_slot(v, id.as_str());
    if p < v.len() {
        proof {
            lemma_slot_pos(s, key, 0);
        }
        let old_slot = v.remove(p);
        let Slot { id: existing, value: _ } = old_slot;
        assert(existing@ == s[p as int].0);
        v.insert(p, Slot { id: existing, value });
        assert(slots_view(v@) =~= slot_put(s, key, value));
    } else {
        v.push(Slot { id, value });
        assert(slots_view(v@) =~= slot_put(s, key, value));
    }
}

/// Removes the entry under `id`, if any, and gives its value.
pub fn take_slot<V>(v: &mut Vec<Slot<V>>, id: &str) -> (res: Option<V>)
    ensures
        slots_view(final(v)@) == slot_del(slots_view(old(v)@), id@),
        res == slot_get(slots_view(old(v)@), id@),
{
    let ghost s = slots_view(v@);
    let p = find_slot(v, id);
    if p < v.len() {
        let x = v.remove(p);
        assert(slots_view(v@) =~= slot_del(s, id@));
        Some(x.value)
    } else {
        None
    }
}

/// The views of a set of keys.
pub open spec fn keys_view(s: Seq<String>) -> Seq<Seq<char>> {
    s.map_values(|x: String| x@)
}

/// The position of `id` in a set of keys, or the length when absent.
pub open spec fn key_pos(s: Seq<Seq<char>>, id: Seq<char>, i: int) -> int
    decreases s.len() - i,
{
    if i < 0 || i >= s.len() {
        s.len() as int
    } else if s[i] == id {
        i
    } else {
        key_pos(s, id, i + 1)
    }
}

pub open spec fn key_in(s: Seq<Seq<char>>, id: Seq<char>) -> bool {
    key_pos(s, id, 0) < s.len()
}

/// `s` with `id` added when absent.
pub open spec fn key_add(s: Seq<Seq<char>>, id: Seq<char>) -> Seq<Seq<char>> {
    if key_in(s, id) {
        s
    } else {
        s.push(id)
    }
}

/// `s` without `id`.
pub open spec fn key_del(s: Seq<Seq<char>>, id: Seq<char>) -> Seq<Seq<char>> {
    let p = key_pos(s, id, 0);
    if p < s.len() {
        s.remove(p)
    } else {
        s
    }
}

/// Each key occurs once.
pub open spec fn keys_unique(s: Seq<Seq<char>>) -> bool {
    forall|i: int, j: int| 0 <= i < j < s.len() ==> #[trigger] s[i] != #[trigger] s[j]
}

/// The search for `id` from `i` stops at the first occurrence of `id`, or at the end.
pub proof fn lemma_key_pos(s: Seq<Seq<char>>, id: Seq<char>, i: int)
    requires
        0 <= i <= s.len(),
    ensures
        i <= key_pos(s, id, i) <= s.len(),
        key_pos(s, id, i) < s.len() ==> s[key_pos(s, id, i)] == id,
        forall|j: int| i <= j < key_pos(s, id, i) ==> s[j] != id,
    decreases s.len() - i,
{
    if i < s.len() && s[i] != id {
        lemma_key_pos(s, id, i + 1);
    }
}

/// A key list has `id` exactly when it contains it.
pub proof fn lemma_key_in(s: Seq<Seq<char>>, id: Seq<char>)
    ensures
        key_in(s, id) <==> s.contains(id),
{
    lemma_key_pos(s, id, 0);
    if s.contains(id) {
        let j = choose|j: int| 0 <= j < s.len() && s[j] == id;
        assert(key_pos(s, id, 0) <= j);
    } else if key_in(s, id) {
        assert(s[key_pos(s, id, 0)] == id);
    }
}

/// Adding `id` keeps keys unique and adds exactly `id`.
pub proof fn lemma_key_add(s: Seq<Seq<char>>, id: Seq<char>)
    requires
        keys_unique(s),
    ensures
        keys_unique(key_add(s, id)),
        forall|k: Seq<char>| #[trigger] key_in(key_add(s, id), k) <==> (key_in(s, k) || k == id),
{
    let r = key_add(s, id);
    lemma_key_in(s, id);
    assert forall|k: Seq<char>| #[trigger] key_in(r, k) <==> (key_in(s, k) || k == id) by {
        lemma_key_in(s, k);
        lemma_key_in(r, k);
        if key_in(s, k) {
            let j = choose|j: int| 0 <= j < s.len() && s[j] == k;
            assert(r[j] == k);
        }
        if k == id && !key_in(s, k) {
            assert(r[s.len() as int] == k);
        }
        if key_in(r, k) {
            let j = choose|j: int| 0 <= j < r.len() && r[j] == k;
            if j < s.len() {
                assert(s[j] == k);
            }
        }
    }
}

/// Deleting `id` keeps keys unique and takes exactly `id` off.
pub proof fn lemma_key_del(s: Seq<Seq<char>>, id: Seq<char>)
    requires
        keys_unique(s),
    ensures
        keys_unique(key_del(s, id)),
        forall|k: Seq<char>| #[trigger] key_in(key_del(s, id), k) <==> (key_in(s, k) && k != id),
{
    lemma_key_pos(s, id, 0);
    let r = key_del(s, id);
    let p = key_pos(s, id, 0);
    assert forall|k: Seq<char>| #[trigger] key_in(r, k) <==> (key_in(s, k) && k != id) by {
        lemma_key_in(s, k);
        lemma_key_in(r, k);
        if key_in(s, k) && k != id {
            let j = choose|j: int| 0 <= j < s.len() && s[j] == k;
            if p < s.len() {
                if j < p {
                    assert(r[j] == k);
                } else {
                    assert(j != p);
                    assert(r[j - 1] == k);
                }
            }
        }
        if key_in(r, k) {
            let j = choose|j: int| 0 <= j < r.len() && r[j] == k;
            if p < s.len() {
                if j < p {
                    assert(s[j] == k);
                } else {
                    assert(s[j + 1] == k);
                    assert(j + 1 != p);
                }
            } else {
                assert(s[j] == k);
            }
        }
    }
}

pub fn find_key(v: &Vec<String>, id: &str) -> (res: usize)
    ensures
        res == key_pos(keys_view(v@), id@, 0),
{
    let ghost s = keys_view(v@);
    let n = v.len();
    let mut i: usize = 0;
    while i < n
        invariant
            n == v@.len(),
            s == keys_view(v@),
            i <= n,
            key_pos(s, id@, 0) == key_pos(s, id@, i as int),
        decreases n - i,
    {
        if str_is(v[i].as_str(), id) {
            return i;
        }
        i += 1;
    }
    n
}

pub fn has_key(v: &Vec<String>, id: &str) -> (res: bool)
    ensures
        res == key_in(keys_view(v@), id@),
{
    find_key(v, id) < v.len()
}

pub fn add_key(v: &mut Vec<String>, id: String)
    ensures
        keys_view(final(v)@) == key_add(keys_view(old(v)@), id@),
{
    let ghost s = keys_view(v@);
    if !has_key(v, id.as_str()) {
        let ghost key = id@;
        v.push(id);
        assert(keys_view(v@) =~= s.push(key));
    }
}

pub fn del_key(v: &mut Vec<String>, id: &str)
    ensures
        keys_view(final(v)@) == key_del(keys_view(old(v)@), id@),
{
    let ghost s = keys_view(v@);
    let p = find_key(v, id);
    if p < v.len() {
        v.remove(p);
        assert(keys_view(v@) =~= s.remove(p as int));
    }
}

} // verus!
