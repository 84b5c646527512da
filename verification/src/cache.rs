//! A bounded cache of parsed templates with least-recently-used eviction,
//! keyed by the backend, the kind of result and the static parts of a template.

use vstd::prelude::*;
use std::sync::Arc;
use crate::text::str_eq;

verus! {

/// The key a parsed template is cached under: backend name, result kind and the
/// static text parts of the template.
pub type CacheKey = (String, String, Vec<String>);

/// The value of a key: its texts as character sequences.
pub open spec fn key_view(k: CacheKey) -> (Seq<char>, Seq<char>, Seq<Seq<char>>) {
    (k.0@, k.1@, k.2@.map_values(|s: String| s@))
}

/// A shared handle to the same value (`Arc::clone`).
#[verifier::external_body]
fn share<T>(value: &Arc<T>) -> (r: Arc<T>)
    ensures
        r == *value,
{
    Arc::clone(value)
}

fn strings_eq(a: &Vec<String>, b: &Vec<String>) -> (r: bool)
    ensures
        r == (a@.map_values(|s: String| s@) == b@.map_values(|s: String| s@)),
{
    if a.len() != b.len() {
        proof {
            assert(a@.map_values(|s: String| s@).len() != b@.map_values(|s: String| s@).len());
        }
        return false;
    }
    let mut i: usize = 0;
    while i < a.len()
        invariant
            i <= a@.len(),
            a@.len() == b@.len(),
            forall|k: int| 0 <= k < i ==> a@[k]@ == b@[k]@,
        decreases a.len() - i,
    {
        if !str_eq(a[i].as_str(), b[i].as_str()) {
            proof {
                assert(a@.map_values(|s: String| s@)[i as int] != b@.map_values(|s: String| s@)[i as int]);
            }
            return false;
        }
        i += 1;
    }
    proof {
        assert(a@.map_values(|s: String| s@) =~= b@.map_values(|s: String| s@));
    }
    true
}

fn key_eq(a: &CacheKey, b: &CacheKey) -> (r: bool)
    ensures
        r == (key_view(*a) == key_view(*b)),
{
    str_eq(a.0.as_str(), b.0.as_str()) && str_eq(a.1.as_str(), b.1.as_str()) && strings_eq(&a.2, &b.2)
}

fn clone_strings(v: &Vec<String>) -> (r: Vec<String>)
    ensures
        r@.map_values(|s: String| s@) == v@.map_values(|s: String| s@),
{
    let mut out: Vec<String> = Vec::new();
    let mut i: usize = 0;
    while i < v.len()
        invariant
            i <= v@.len(),
            out@.len() == i,
            forall|k: int| 0 <= k < i ==> out@[k]@ == v@[k]@,
        decreases v.len() - i,
    {
        out.push(v[i].clone());
        i += 1;
    }
    proof {
        assert(out@.map_values(|s: String| s@) =~= v@.map_values(|s: String| s@));
    }
    out
}

fn clone_key(k: &CacheKey) -> (r: CacheKey)
    ensures
        key_view(r) == key_view(*k),
{
    (k.0.clone(), k.1.clone(), clone_strings(&k.2))
}

/// The cache: its entries from the least to the most recently used.
pub struct ParseCache<T> {
    capacity: usize,
    entries: Vec<(CacheKey, Arc<T>)>,
}

/// Where a key stands among the entries, if anywhere.
pub open spec fn find_key<T>(es: Seq<((Seq<char>, Seq<char>, Seq<Seq<char>>), T)>, k: (Seq<char>, Seq<char>, Seq<Seq<char>>)) -> Option<int> {
    if exists|i: int| 0 <= i < es.len() && #[trigger] es[i].0 == k {
        Some(choose|i: int| 0 <= i < es.len() && #[trigger] es[i].0 == k)
    } else {
        None
    }
}

/// No key occurs twice.
pub open spec fn distinct_keys<T>(es: Seq<((Seq<char>, Seq<char>, Seq<Seq<char>>), T)>) -> bool {
    forall|i: int, j: int| 0 <= i < es.len() && 0 <= j < es.len() && i != j ==> #[trigger] es[i].0 != #[trigger] es[j].0
}

/// An entry moved to the most recently used end.
pub open spec fn touched<T>(es: Seq<((Seq<char>, Seq<char>, Seq<Seq<char>>), T)>, i: int) -> Seq<((Seq<char>, Seq<char>, Seq<Seq<char>>), T)> {
    es.remove(i).push(es[i])
}

/// A new entry added as the most recently used, after dropping the least
/// recently used one when the cache is full.
pub open spec fn inserted<T>(es: Seq<((Seq<char>, Seq<char>, Seq<Seq<char>>), T)>, capacity: nat, k: (Seq<char>, Seq<char>, Seq<Seq<char>>), v: T) -> Seq<((Seq<char>, Seq<char>, Seq<Seq<char>>), T)> {
    let kept = if es.len() == capacity && es.len() > 0 { es.remove(0) } else { es };
    kept.push((k, v))
}

impl<T> ParseCache<T> {
    /// The entries, least recently used first.
    pub closed spec fn view(&self) -> Seq<((Seq<char>, Seq<char>, Seq<Seq<char>>), T)> {
        self.entries@.map_values(|e: (CacheKey, Arc<T>)| (key_view(e.0), *e.1))
    }

    pub closed spec fn capacity(&self) -> nat {
        self.capacity as nat
    }

    /// Keys are distinct, and a cache with room for at least one entry never
    /// holds more than it has room for.
    pub open spec fn wf(&self) -> bool {
        &&& distinct_keys(self.view())
        &&& self.capacity() > 0 ==> self.view().len() <= self.capacity()
    }

    pub fn new(capacity: usize) -> (r: Self)
        ensures
            r.wf(),
            r.view() == Seq::<((Seq<char>, Seq<char>, Seq<Seq<char>>), T)>::empty(),
            r.capacity() == capacity,
    {
        let r = ParseCache { capacity, entries: Vec::new() };
        proof {
            assert(r.view() =~= Seq::<((Seq<char>, Seq<char>, Seq<Seq<char>>), T)>::empty());
        }
        r
    }

    fn position(&self, key: &CacheKey) -> (r: Option<usize>)
        ensures
            match r {
                Some(i) => i < self.view().len() && self.view()[i as int].0 == key_view(*key),
                None => find_key(self.view(), key_view(*key)) is None,
            },
    {
        let mut i: usize = 0;
        while i < self.entries.len()
            invariant
                i <= self.entries@.len(),
                forall|k: int| 0 <= k < i ==> self.view()[k].0 != key_view(*key),
            decreases self.entries.len() - i,
        {
            if key_eq(&self.entries[i].0, key) {
                return Some(i);
            }
            i += 1;
        }
        None
    }

    /// Moves the entry at `index` to the most recently used end.
    fn touch(&mut self, index: usize)
        requires
            index < old(self).view().len(),
        ensures
            final(self).view() == touched(old(self).view(), index as int),
            final(self).capacity() == old(self).capacity(),
    {
        let entry = self.entries.remove(index);
        self.entries.push(entry);
        proof {
            assert(self.view() =~= touched(old(self).view(), index as int));
        }
    }

    /// The value under `key`, which then counts as the most recently used.
    pub fn get(&mut self, key: &CacheKey) -> (r: Option<Arc<T>>)
        requires
            old(self).wf(),
        ensures
            final(self).wf(),
            final(self).capacity() == old(self).capacity(),
            match find_key(old(self).view(), key_view(*key)) {
                Some(i) => r matches Some(v) && *v == old(self).view()[i].1 && final(self).view() == touched(old(self).view(), i),
                None => r is None && final(self).view() == old(self).view(),
            },
    {
        match self.position(key) {
            Some(i) => {
                let value = share(&self.entries[i].1);
                proof {
                    assert(find_key(old(self).view(), key_view(*key)) == Some(i as int));
                }
                self.touch(i);
                proof {
                    let v = self.view();
                    let o = old(self).view();
                    assert forall|a: int, b: int| 0 <= a < v.len() && 0 <= b < v.len() && a != b implies #[trigger] v[a].0 != #[trigger] v[b].0 by {
                        let oa = if a == v.len() - 1 { i as int } else if a < i { a } else { a + 1 };
                        let ob = if b == v.len() - 1 { i as int } else if b < i { b } else { b + 1 };
                        assert(v[a] == o[oa]);
                        assert(v[b] == o[ob]);
                    }
                }
                Some(value)
            },
            None => None,
        }
    }

    /// Adds a new entry, dropping the least recently used one when the cache is
    /// full.
    fn insert_new(&mut self, key: CacheKey, value: Arc<T>)
        requires
            old(self).wf(),
            find_key(old(self).view(), key_view(key)) is None,
        ensures
            final(self).wf(),
            final(self).capacity() == old(self).capacity(),
            final(self).view() == inserted(old(self).view(), old(self).capacity(), key_view(key), *value),
    {
        if self.entries.len() == self.capacity && self.entries.len() > 0 {
            let _oldest = self.entries.remove(0);
        }
        let ghost kept = self.view();
        self.entries.push((key, value));
        proof {
            let o = old(self).view();
            assert(kept =~= if o.len() == old(self).capacity() && o.len() > 0 { o.remove(0) } else { o });
            assert(self.view() =~= kept.push((key_view(key), *value)));
            let v = self.view();
            assert forall|a: int, b: int| 0 <= a < v.len() && 0 <= b < v.len() && a != b implies #[trigger] v[a].0 != #[trigger] v[b].0 by {
                if a < v.len() - 1 && b < v.len() - 1 {
                    let oa = if kept.len() < o.len() { a + 1 } else { a };
                    let ob = if kept.len() < o.len() { b + 1 } else { b };
                    assert(v[a] == o[oa]);
                    assert(v[b] == o[ob]);
                } else if a == v.len() - 1 {
                    let ob = if kept.len() < o.len() { b + 1 } else { b };
                    assert(v[b] == o[ob]);
                    assert(o[ob].0 != key_view(key));
                } else {
                    let oa = if kept.len() < o.len() { a + 1 } else { a };
                    assert(v[a] == o[oa]);
                    assert(o[oa].0 != key_view(key));
                }
            }
        }
    }

    /// The value under `key`; when there is none, the value `build` gives,
    /// which is then cached. A failure of `build` is handed back and nothing is
    /// cached.
    pub fn get_or_try_insert_with<E, F>(&mut self, key: &CacheKey, build: F) -> (r: Result<Arc<T>, E>)
        where
            F: FnOnce() -> Result<T, E>,
        requires
            old(self).wf(),
            build.requires(()),
        ensures
            final(self).wf(),
            final(self).capacity() == old(self).capacity(),
            match find_key(old(self).view(), key_view(*key)) {
                Some(i) => r matches Ok(v) && *v == old(self).view()[i].1
                    && final(self).view() == touched(old(self).view(), i),
                None => match r {
                    Ok(v) => build.ensures((), Ok::<T, E>(*v))
                        && final(self).view() == inserted(old(self).view(), old(self).capacity(), key_view(*key), *v),
                    Err(e) => build.ensures((), Err::<T, E>(e)) && final(self).view() == old(self).view(),
                },
            },
    {
        match self.get(key) {
            Some(value) => {
                return Ok(value);
            },
            None => {},
        }
        let built = build();
        match built {
            Ok(value) => {
                let parsed = Arc::new(value);
                self.insert_new(clone_key(key), share(&parsed));
                Ok(parsed)
            },
            Err(e) => Err(e),
        }
    }
}

/// A value cached under a new key is found again under that key, as the most
/// recently used entry.
pub proof fn lemma_inserted_is_found<T>(
    es: Seq<((Seq<char>, Seq<char>, Seq<Seq<char>>), T)>,
    capacity: nat,
    k: (Seq<char>, Seq<char>, Seq<Seq<char>>),
    v: T,
)
    requires
        find_key(es, k) is None,
    ensures
        find_key(inserted(es, capacity, k, v), k) == Some(inserted(es, capacity, k, v).len() - 1),
        inserted(es, capacity, k, v).last() == (k, v),
{
    let r = inserted(es, capacity, k, v);
    let kept = if es.len() == capacity && es.len() > 0 { es.remove(0) } else { es };
    assert(r == kept.push((k, v)));
    assert(r[r.len() - 1].0 == k);
    assert forall|i: int| 0 <= i < r.len() && #[trigger] r[i].0 == k implies i == r.len() - 1 by {
        if i < r.len() - 1 {
            assert(r[i] == kept[i]);
            if es.len() == capacity && es.len() > 0 {
                assert(kept[i] == es[i + 1]);
            }
        }
    }
}

/// Adding a new key to a full cache drops the least recently used entry and
/// keeps the others in their order, the new entry last.
pub proof fn lemma_full_insert_evicts_least_recent<T>(
    es: Seq<((Seq<char>, Seq<char>, Seq<Seq<char>>), T)>,
    capacity: nat,
    k: (Seq<char>, Seq<char>, Seq<Seq<char>>),
    v: T,
)
    requires
        distinct_keys(es),
        find_key(es, k) is None,
        es.len() == capacity,
        capacity > 0,
    ensures
        inserted(es, capacity, k, v) == es.subrange(1, es.len() as int).push((k, v)),
        find_key(inserted(es, capacity, k, v), es[0].0) is None,
        inserted(es, capacity, k, v).len() == capacity,
{
    let r = inserted(es, capacity, k, v);
    assert(es.remove(0) =~= es.subrange(1, es.len() as int));
    assert forall|i: int| 0 <= i < r.len() implies #[trigger] r[i].0 != es[0].0 by {
        if i < r.len() - 1 {
            assert(r[i] == es[i + 1]);
        } else {
            assert(es[0].0 != k);
        }
    }
}

/// A lookup that finds its key makes that entry the most recently used and
/// keeps every other entry, in order.
pub proof fn lemma_lookup_moves_entry_last<T>(es: Seq<((Seq<char>, Seq<char>, Seq<Seq<char>>), T)>, i: int)
    requires
        0 <= i < es.len(),
        distinct_keys(es),
    ensures
        touched(es, i).len() == es.len(),
        touched(es, i).last() == es[i],
        find_key(touched(es, i), es[i].0) == Some(es.len() - 1),
        forall|j: int| 0 <= j < i ==> #[trigger] touched(es, i)[j] == es[j],
        forall|j: int| i < j < es.len() ==> #[trigger] touched(es, i)[j - 1] == es[j],
{
    let t = touched(es, i);
    assert(t[t.len() - 1].0 == es[i].0);
    assert forall|a: int| 0 <= a < t.len() && #[trigger] t[a].0 == es[i].0 implies a == t.len() - 1 by {
        if a < t.len() - 1 {
            if a < i {
                assert(t[a] == es[a]);
            } else {
                assert(t[a] == es[a + 1]);
            }
        }
    }
}

} // verus!
