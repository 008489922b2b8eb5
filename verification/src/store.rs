//! The bookkeeping in front of an embedded key-value store.
//!
//! Writes are not sent to disk one by one: a [`StoreOverlay`] holds what was
//! set and removed since the last flush, answers reads from that where it
//! can, and says when enough keys are waiting to be worth one commit. Reading
//! and writing the disk itself is left to whoever holds the store; the
//! overlay says what to read and what to write.

use vstd::prelude::*;
use crate::text::{text_equal, chars_of, starts_with_text};

verus! {

/// How many keys may wait before the overlay asks for a flush: one commit
/// per batch.
pub const STORE_FLUSH_BATCH: usize = 32;

/// Some pair holds `key`.
pub open spec fn has_key(pairs: Seq<(String, String)>, key: Seq<char>) -> bool {
    exists|i: int| 0 <= i < pairs.len() && (#[trigger] pairs[i]).0@ == key
}

/// The value held under `key`, if any pair holds it.
pub open spec fn held_value(pairs: Seq<(String, String)>, key: Seq<char>) -> Option<Seq<char>> {
    if has_key(pairs, key) {
        Some(pairs[choose|i: int| 0 <= i < pairs.len() && (#[trigger] pairs[i]).0@ == key].1@)
    } else {
        None
    }
}

/// No key is held by two pairs.
pub open spec fn keys_apart(pairs: Seq<(String, String)>) -> bool {
    forall|i: int, j: int| 0 <= i < j < pairs.len() ==> (#[trigger] pairs[i]).0@ != (#[trigger] pairs[j]).0@
}

/// Some text of the list is `key`.
pub open spec fn listed(texts: Seq<String>, key: Seq<char>) -> bool {
    exists|i: int| 0 <= i < texts.len() && (#[trigger] texts[i])@ == key
}

/// No text is in the list twice.
pub open spec fn texts_apart(texts: Seq<String>) -> bool {
    forall|i: int, j: int| 0 <= i < j < texts.len() ==> (#[trigger] texts[i])@ != (#[trigger] texts[j])@
}

/// With keys apart, the pair at `i` is the one `held_value` finds.
proof fn lemma_held_at(pairs: Seq<(String, String)>, i: int)
    requires
        keys_apart(pairs),
        0 <= i < pairs.len(),
    ensures
        held_value(pairs, pairs[i].0@) == Some(pairs[i].1@),
{
    let key = pairs[i].0@;
    assert(has_key(pairs, key));
    let j = choose|j: int| 0 <= j < pairs.len() && (#[trigger] pairs[j]).0@ == key;
    if j < i {
        assert(pairs[j].0@ != pairs[i].0@);
    } else if j > i {
        assert(pairs[i].0@ != pairs[j].0@);
    }
}

/// Where a key sits among pairs.
fn find_pair(pairs: &Vec<(String, String)>, key: &String) -> (r: Option<usize>)
    ensures
        match r {
            Some(i) => i < pairs@.len() && pairs@[i as int].0@ == key@,
            None => !has_key(pairs@, key@),
        },
{
    let mut i: usize = 0;
    while i < pairs.len()
        invariant
            i <= pairs@.len(),
            forall|k: int| 0 <= k < i ==> (#[trigger] pairs@[k]).0@ != key@,
        decreases pairs.len() - i,
    {
        if text_equal(&pairs[i].0, key) {
            return Some(i);
        }
        i = i + 1;
    }
    None
}

/// Where a text sits in a list.
fn find_text(texts: &Vec<String>, key: &String) -> (r: Option<usize>)
    ensures
        match r {
            Some(i) => i < texts@.len() && texts@[i as int]@ == key@,
            None => !listed(texts@, key@),
        },
{
    let mut i: usize = 0;
    while i < texts.len()
        invariant
            i <= texts@.len(),
            forall|k: int| 0 <= k < i ==> (#[trigger] texts@[k])@ != key@,
        decreases texts.len() - i,
    {
        if text_equal(&texts[i], key) {
            return Some(i);
        }
        i = i + 1;
    }
    None
}

/// A list with every copy of `key` taken out.
fn without_text(texts: &Vec<String>, key: &String) -> (r: Vec<String>)
    ensures
        forall|k: Seq<char>| listed(r@, k) == (listed(texts@, k) && k != key@),
{
    let mut out: Vec<String> = Vec::new();
    let mut i: usize = 0;
    while i < texts.len()
        invariant
            i <= texts@.len(),
            forall|k: Seq<char>| listed(out@, k) == (listed(texts@.take(i as int), k) && k != key@),
        decreases texts.len() - i,
    {
        let ghost before = out@;
        let keep = !text_equal(&texts[i], key);
        if keep {
            out.push(texts[i].clone());
        }
        proof {
            let next = texts@.take(i + 1);
            assert(next =~= texts@.take(i as int).push(texts@[i as int]));
            assert forall|k: Seq<char>| listed(out@, k) == (listed(next, k) && k != key@) by {
                assert(listed(before, k) == (listed(texts@.take(i as int), k) && k != key@));
                if listed(out@, k) {
                    let m = choose|m: int| 0 <= m < out@.len() && (#[trigger] out@[m])@ == k;
                    if m < before.len() {
                        assert(before[m] == out@[m]);
                        assert(listed(before, k));
                        let n = choose|n: int| 0 <= n < i && (#[trigger] texts@.take(i as int)[n])@ == k;
                        assert(next[n] == texts@.take(i as int)[n]);
                    } else {
                        assert(next[i as int] == texts@[i as int]);
                    }
                }
                if listed(next, k) && k != key@ {
                    let n = choose|n: int| 0 <= n < next.len() && (#[trigger] next[n])@ == k;
                    if n < i {
                        assert(next[n] == texts@.take(i as int)[n]);
                        assert(listed(texts@.take(i as int), k));
                        let m = choose|m: int| 0 <= m < before.len() && (#[trigger] before[m])@ == k;
                        assert(out@[m] == before[m]);
                    } else {
                        assert(out@[before.len() as int] == texts@[i as int]);
                    }
                }
            }
        }
        i = i + 1;
    }
    assert(texts@.take(texts@.len() as int) =~= texts@);
    out
}

/// What the overlay knows of a key before anything is read from disk.
pub enum Lookup {
    /// It was removed since the last flush: there is nothing to read.
    Removed,
    /// It holds this value.
    Held(String),
    /// The overlay does not know; the disk has the answer.
    OnDisk,
}

/// What a lookup learns, as plain text.
pub enum Known {
    Removed,
    Held(Seq<char>),
    OnDisk,
}

/// What a [`Lookup`] says.
pub open spec fn lookup_view(l: Lookup) -> Known {
    match l {
        Lookup::Removed => Known::Removed,
        Lookup::Held(t) => Known::Held(t@),
        Lookup::OnDisk => Known::OnDisk,
    }
}

/// One write a flush makes.
pub enum DiskWrite {
    Put(String, String),
    Delete(String),
}

/// The key a write touches, and the value it leaves there, if any.
pub open spec fn write_view(w: DiskWrite) -> (Seq<char>, Option<Seq<char>>) {
    match w {
        DiskWrite::Put(k, v) => (k@, Some(v@)),
        DiskWrite::Delete(k) => (k@, None),
    }
}

/// What was set and removed since the last flush, and which keys still have
/// to reach the disk.
pub struct StoreOverlay {
    values: Vec<(String, String)>,
    removed: Vec<String>,
    dirty: Vec<String>,
}

impl StoreOverlay {
    /// The value set under a key since the store was opened, or read from
    /// disk and remembered.
    pub closed spec fn value_of(&self, key: Seq<char>) -> Option<Seq<char>> {
        held_value(self.values@, key)
    }

    /// Whether a key was removed and not set again since.
    pub closed spec fn is_removed(&self, key: Seq<char>) -> bool {
        listed(self.removed@, key)
    }

    /// What a lookup of a key finds.
    pub open spec fn known(&self, key: Seq<char>) -> Known {
        if self.is_removed(key) {
            Known::Removed
        } else {
            match self.value_of(key) {
                Some(v) => Known::Held(v),
                None => Known::OnDisk,
            }
        }
    }

    /// The keys waiting to reach the disk, in the order they first changed.
    pub closed spec fn dirty_keys(&self) -> Seq<Seq<char>> {
        self.dirty@.map_values(|t: String| t@)
    }

    /// The overlay's invariant: no key held twice, no key waiting twice.
    pub closed spec fn wf(&self) -> bool {
        keys_apart(self.values@) && texts_apart(self.dirty@)
    }

    /// An overlay that knows nothing yet.
    pub fn new() -> (o: StoreOverlay)
        ensures
            o.wf(),
            forall|k: Seq<char>| o.value_of(k) is None && !o.is_removed(k),
            o.dirty_keys().len() == 0,
    {
        let o = StoreOverlay { values: Vec::new(), removed: Vec::new(), dirty: Vec::new() };
        assert(o.dirty_keys() =~= Seq::<Seq<char>>::empty());
        o
    }

    /// What the overlay knows of a key: removed, held, or only on disk.
    pub fn lookup(&self, key: &String) -> (r: Lookup)
        requires
            self.wf(),
        ensures
            lookup_view(r) == self.known(key@),
    {
        if find_text(&self.removed, key).is_some() {
            return Lookup::Removed;
        }
        match find_pair(&self.values, key) {
            Some(i) => {
                proof { lemma_held_at(self.values@, i as int); }
                Lookup::Held(self.values[i].1.clone())
            },
            None => Lookup::OnDisk,
        }
    }

    /// Puts a value under a key among the held pairs.
    fn hold(&mut self, key: String, value: String)
        requires
            keys_apart(old(self).values@),
        ensures
            keys_apart(final(self).values@),
            forall|k: Seq<char>| #[trigger] final(self).value_of(k) == if k == key@ { Some(value@) } else { old(self).value_of(k) },
            final(self).removed == old(self).removed,
            final(self).dirty == old(self).dirty,
    {
        let ghost before = self.values@;
        match find_pair(&self.values, &key) {
            Some(i) => {
                self.values.set(i, (key, value));
                proof {
                    let after = self.values@;
                    assert forall|a: int, b: int| 0 <= a < b < after.len() implies (#[trigger] after[a]).0@ != (#[trigger] after[b]).0@ by {
                        assert(after[a].0@ == before[a].0@);
                        assert(after[b].0@ == before[b].0@);
                    }
                    assert forall|k: Seq<char>| #[trigger] self.value_of(k) == if k == key@ { Some(value@) } else { held_value(before, k) } by {
                        if k == key@ {
                            lemma_held_at(after, i as int);
                        } else if has_key(before, k) {
                            let j = choose|j: int| 0 <= j < before.len() && (#[trigger] before[j]).0@ == k;
                            lemma_held_at(before, j);
                            lemma_held_at(after, j);
                        } else {
                            if has_key(after, k) {
                                let j = choose|j: int| 0 <= j < after.len() && (#[trigger] after[j]).0@ == k;
                                assert(before[j].0@ == k);
                            }
                        }
                    }
                }
            },
            None => {
                self.values.push((key, value));
                proof {
                    let after = self.values@;
                    assert forall|a: int, b: int| 0 <= a < b < after.len() implies (#[trigger] after[a]).0@ != (#[trigger] after[b]).0@ by {
                        if b == before.len() {
                            assert(after[a] == before[a]);
                        } else {
                            assert(after[a] == before[a]);
                            assert(after[b] == before[b]);
                        }
                    }
                    assert forall|k: Seq<char>| #[trigger] self.value_of(k) == if k == key@ { Some(value@) } else { held_value(before, k) } by {
                        if k == key@ {
                            lemma_held_at(after, before.len() as int);
                        } else if has_key(before, k) {
                            let j = choose|j: int| 0 <= j < before.len() && (#[trigger] before[j]).0@ == k;
                            lemma_held_at(before, j);
                            assert(after[j] == before[j]);
                            lemma_held_at(after, j);
                        } else {
                            if has_key(after, k) {
                                let j = choose|j: int| 0 <= j < after.len() && (#[trigger] after[j]).0@ == k;
                                if j < before.len() {
                                    assert(after[j] == before[j]);
                                }
                            }
                        }
                    }
                }
            },
        }
    }

    /// Takes a key out of the held pairs; whether it was there.
    fn unhold(&mut self, key: &String) -> (held: bool)
        requires
            keys_apart(old(self).values@),
        ensures
            held == (old(self).value_of(key@) is Some),
            keys_apart(final(self).values@),
            forall|k: Seq<char>| #[trigger] final(self).value_of(k) == if k == key@ { None } else { old(self).value_of(k) },
            final(self).removed == old(self).removed,
            final(self).dirty == old(self).dirty,
    {
        let ghost before = self.values@;
        match find_pair(&self.values, key) {
            Some(i) => {
                self.values.remove(i);
                proof {
                    let after = self.values@;
                    assert forall|a: int| 0 <= a < after.len() implies #[trigger] after[a] == (if a < i { before[a] } else { before[a + 1] }) by {}
                    assert forall|a: int, b: int| 0 <= a < b < after.len() implies (#[trigger] after[a]).0@ != (#[trigger] after[b]).0@ by {
                        let a2 = if a < i { a } else { a + 1 };
                        let b2 = if b < i { b } else { b + 1 };
                        assert(after[a] == before[a2]);
                        assert(after[b] == before[b2]);
                    }
                    assert forall|k: Seq<char>| #[trigger] self.value_of(k) == if k == key@ { None } else { held_value(before, k) } by {
                        if has_key(after, k) {
                            let j = choose|j: int| 0 <= j < after.len() && (#[trigger] after[j]).0@ == k;
                            let j2 = if j < i { j } else { j + 1 };
                            assert(after[j] == before[j2]);
                            if k == key@ {
                                assert(before[i as int].0@ == before[j2].0@);
                                if j2 < i { assert(before[j2].0@ != before[i as int].0@); }
                                else { assert(before[i as int].0@ != before[j2].0@); }
                            } else {
                                lemma_held_at(after, j);
                                lemma_held_at(before, j2);
                            }
                        } else if k != key@ && has_key(before, k) {
                            let j = choose|j: int| 0 <= j < before.len() && (#[trigger] before[j]).0@ == k;
                            assert(j != i);
                            let j1 = if j < i { j } else { j - 1 };
                            assert(after[j1] == before[j]);
                        }
                    }
                    lemma_held_at(before, i as int);
                }
                true
            },
            None => false,
        }
    }

    /// Marks a key as waiting for the disk; whether enough keys now wait for
    /// a flush.
    fn touch(&mut self, key: String) -> (flush: bool)
        requires
            texts_apart(old(self).dirty@),
        ensures
            texts_apart(final(self).dirty@),
            final(self).dirty_keys() == if old(self).dirty_keys().contains(key@) {
                old(self).dirty_keys()
            } else {
                old(self).dirty_keys().push(key@)
            },
            flush == (final(self).dirty_keys().len() >= STORE_FLUSH_BATCH),
            final(self).values == old(self).values,
            final(self).removed == old(self).removed,
    {
        let ghost before = self.dirty@;
        match find_text(&self.dirty, &key) {
            Some(i) => {
                proof { assert(self.dirty_keys()[i as int] == key@); }
            },
            None => {
                proof {
                    if self.dirty_keys().contains(key@) {
                        let j = choose|j: int| 0 <= j < self.dirty_keys().len() && self.dirty_keys()[j] == key@;
                        assert(self.dirty@[j]@ == key@);
                    }
                }
                self.dirty.push(key);
                proof {
                    let after = self.dirty@;
                    assert forall|a: int, b: int| 0 <= a < b < after.len() implies (#[trigger] after[a])@ != (#[trigger] after[b])@ by {
                        assert(after[a] == before[a]);
                        if b < before.len() {
                            assert(after[b] == before[b]);
                        } else {
                            assert(!listed(before, key@));
                        }
                    }
                    assert(self.dirty_keys() =~= before.map_values(|t: String| t@).push(key@));
                }
            },
        }
        self.dirty.len() >= STORE_FLUSH_BATCH
    }

    /// A value read from disk, remembered unless the key was removed since.
    pub fn remember(&mut self, key: String, value: String)
        requires
            old(self).wf(),
        ensures
            final(self).wf(),
            forall|k: Seq<char>| #[trigger] final(self).value_of(k)
                == if k == key@ && !old(self).is_removed(key@) { Some(value@) } else { old(self).value_of(k) },
            forall|k: Seq<char>| #[trigger] final(self).is_removed(k) == old(self).is_removed(k),
            forall|k: Seq<char>| #[trigger] final(self).known(k)
                == if k == key@ && !old(self).is_removed(key@) { Known::Held(value@) } else { old(self).known(k) },
            final(self).dirty_keys() == old(self).dirty_keys(),
    {
        if find_text(&self.removed, &key).is_none() {
            self.hold(key, value);
        }
    }

    /// Sets a key; whether enough keys now wait for a flush.
    pub fn set(&mut self, key: String, value: String) -> (flush: bool)
        requires
            old(self).wf(),
        ensures
            final(self).wf(),
            forall|k: Seq<char>| #[trigger] final(self).value_of(k) == if k == key@ { Some(value@) } else { old(self).value_of(k) },
            forall|k: Seq<char>| #[trigger] final(self).is_removed(k) == (old(self).is_removed(k) && k != key@),
            forall|k: Seq<char>| #[trigger] final(self).known(k) == if k == key@ { Known::Held(value@) } else { old(self).known(k) },
            final(self).dirty_keys() == if old(self).dirty_keys().contains(key@) {
                old(self).dirty_keys()
            } else {
                old(self).dirty_keys().push(key@)
            },
            flush == (final(self).dirty_keys().len() >= STORE_FLUSH_BATCH),
    {
        let removed = without_text(&self.removed, &key);
        self.removed = removed;
        let touched = key.clone();
        self.hold(key, value);
        let ghost held = *self;
        let flush = self.touch(touched);
        proof {
            assert forall|k: Seq<char>| #[trigger] self.value_of(k) == held.value_of(k) by {}
            assert forall|k: Seq<char>| #[trigger] self.is_removed(k) == held.is_removed(k) by {}
        }
        flush
    }

    /// Takes a key out of what the overlay holds, the first half of a
    /// removal; whether the overlay held it. Only when it did not must the
    /// disk be asked whether the key was there.
    pub fn forget(&mut self, key: &String) -> (held: bool)
        requires
            old(self).wf(),
        ensures
            final(self).wf(),
            held == (old(self).value_of(key@) is Some),
            forall|k: Seq<char>| #[trigger] final(self).value_of(k) == if k == key@ { None } else { old(self).value_of(k) },
            forall|k: Seq<char>| #[trigger] final(self).is_removed(k) == old(self).is_removed(k),
            forall|k: Seq<char>| #[trigger] final(self).known(k) == if k == key@ {
                if old(self).is_removed(key@) { Known::Removed } else { Known::OnDisk }
            } else {
                old(self).known(k)
            },
            final(self).dirty_keys() == old(self).dirty_keys(),
    {
        self.unhold(key)
    }

    /// Records a removal, the second half; whether enough keys now wait for
    /// a flush.
    pub fn mark_removed(&mut self, key: String) -> (flush: bool)
        requires
            old(self).wf(),
        ensures
            final(self).wf(),
            forall|k: Seq<char>| #[trigger] final(self).value_of(k) == if k == key@ { None } else { old(self).value_of(k) },
            forall|k: Seq<char>| #[trigger] final(self).is_removed(k) == (old(self).is_removed(k) || k == key@),
            forall|k: Seq<char>| #[trigger] final(self).known(k) == if k == key@ { Known::Removed } else { old(self).known(k) },
            final(self).dirty_keys() == if old(self).dirty_keys().contains(key@) {
                old(self).dirty_keys()
            } else {
                old(self).dirty_keys().push(key@)
            },
            flush == (final(self).dirty_keys().len() >= STORE_FLUSH_BATCH),
    {
        let ghost before = self.removed@;
        if find_text(&self.removed, &key).is_none() {
            self.removed.push(key.clone());
        }
        proof {
            assert forall|k: Seq<char>| #[trigger] listed(self.removed@, k) == (listed(before, k) || k == key@) by {
                if listed(self.removed@, k) {
                    let m = choose|m: int| 0 <= m < self.removed@.len() && (#[trigger] self.removed@[m])@ == k;
                    if m < before.len() { assert(self.removed@[m] == before[m]); }
                }
                if listed(before, k) {
                    let m = choose|m: int| 0 <= m < before.len() && (#[trigger] before[m])@ == k;
                    assert(self.removed@[m] == before[m]);
                }
                if k == key@ && !listed(before, k) {
                    assert(self.removed@[before.len() as int]@ == key@);
                }
            }
        }
        let _ = self.unhold(&key);
        let ghost held = *self;
        let flush = self.touch(key);
        proof {
            assert forall|k: Seq<char>| #[trigger] self.value_of(k) == held.value_of(k) by {}
            assert forall|k: Seq<char>| #[trigger] self.is_removed(k) == held.is_removed(k) by {}
        }
        flush
    }

    /// The writes a flush makes, one per waiting key in the order they first
    /// changed: a key removed since is deleted, a key held is written, and
    /// any other is deleted. Nothing waits afterwards.
    pub fn take_dirty(&mut self) -> (r: Vec<DiskWrite>)
        requires
            old(self).wf(),
        ensures
            final(self).wf(),
            r@.len() == old(self).dirty_keys().len(),
            forall|i: int| 0 <= i < r@.len() ==> #[trigger] write_view(r@[i]) == (old(self).dirty_keys()[i],
                if old(self).is_removed(old(self).dirty_keys()[i]) { None } else { old(self).value_of(old(self).dirty_keys()[i]) }),
            forall|k: Seq<char>| #[trigger] final(self).value_of(k) == old(self).value_of(k),
            forall|k: Seq<char>| #[trigger] final(self).is_removed(k) == old(self).is_removed(k),
            final(self).dirty_keys().len() == 0,
    {
        let mut out: Vec<DiskWrite> = Vec::new();
        let mut i: usize = 0;
        while i < self.dirty.len()
            invariant
                i <= self.dirty@.len(),
                self.wf(),
                out@.len() == i,
                forall|j: int| 0 <= j < i ==> #[trigger] write_view(out@[j]) == (self.dirty_keys()[j],
                    if self.is_removed(self.dirty_keys()[j]) { None } else { self.value_of(self.dirty_keys()[j]) }),
            decreases self.dirty.len() - i,
        {
            let key = self.dirty[i].clone();
            assert(self.dirty_keys()[i as int] == key@);
            if find_text(&self.removed, &key).is_some() {
                out.push(DiskWrite::Delete(key));
            } else {
                match find_pair(&self.values, &key) {
                    Some(p) => {
                        proof { lemma_held_at(self.values@, p as int); }
                        let value = self.values[p].1.clone();
                        out.push(DiskWrite::Put(key, value));
                    },
                    None => {
                        out.push(DiskWrite::Delete(key));
                    },
                }
            }
            i = i + 1;
        }
        self.dirty = Vec::new();
        proof { assert(self.dirty_keys() =~= Seq::<Seq<char>>::empty()); }
        out
    }
}

} // verus!

verus! {

/// Whether text `a` sorts before text `b`, character by character, a text
/// before every longer text it begins. This is the order `str` sorts in,
/// since UTF-8 keeps the order of the characters it encodes.
pub open spec fn text_less(a: Seq<char>, b: Seq<char>) -> bool {
    crate::ops::text_order(a, b) < 0
}

/// Comparing texts the other way round gives the opposite answer, and only
/// equal texts compare as neither.
pub proof fn lemma_text_order_flips(a: Seq<char>, b: Seq<char>)
    ensures
        crate::ops::text_order(a, b) == -crate::ops::text_order(b, a),
        (crate::ops::text_order(a, b) == 0) == (a == b),
    decreases a.len(),
{
    if a.len() > 0 && b.len() > 0 && (a[0] as u32) == (b[0] as u32) {
        lemma_text_order_flips(a.drop_first(), b.drop_first());
        vstd::utf8::char_u32_cast(a[0], a[0] as u32);
        vstd::utf8::char_u32_cast(b[0], b[0] as u32);
        assert(a[0] == b[0]);
        if a.drop_first() == b.drop_first() {
            assert(a =~= seq![a[0]] + a.drop_first());
            assert(b =~= seq![b[0]] + b.drop_first());
        }
    } else if a.len() == 0 && b.len() == 0 {
        assert(a =~= b);
    } else if a.len() > 0 && b.len() > 0 {
        assert(a[0] != b[0]);
    }
}

/// No text sorts before itself.
pub proof fn lemma_text_less_irreflexive(a: Seq<char>)
    ensures
        !text_less(a, a),
{
    lemma_text_order_flips(a, a);
}

/// Of two different texts, one sorts before the other, and not both ways.
pub proof fn lemma_text_less_total(a: Seq<char>, b: Seq<char>)
    ensures
        a != b ==> (text_less(a, b) || text_less(b, a)),
        !(text_less(a, b) && text_less(b, a)),
{
    lemma_text_order_flips(a, b);
}

/// Sorting before is transitive.
pub proof fn lemma_text_less_transitive(a: Seq<char>, b: Seq<char>, c: Seq<char>)
    requires
        text_less(a, b),
        text_less(b, c),
    ensures
        text_less(a, c),
    decreases a.len(),
{
    if a.len() > 0 && b.len() > 0 && c.len() > 0 && (a[0] as u32) == (b[0] as u32) && (b[0] as u32) == (c[0] as u32) {
        lemma_text_less_transitive(a.drop_first(), b.drop_first(), c.drop_first());
    }
}

/// Whether text `a` sorts before text `b`.
pub fn text_before(a: &String, b: &String) -> (r: bool)
    ensures
        r == text_less(a@, b@),
{
    crate::ops::compare_texts(a.as_str(), b.as_str()) < 0
}

/// A list sorted strictly: each text before the next, so none twice.
pub open spec fn sorted_texts(texts: Seq<String>) -> bool {
    forall|i: int, j: int| 0 <= i < j < texts.len() ==> text_less((#[trigger] texts[i])@, (#[trigger] texts[j])@)
}

/// Puts a text into a sorted list, where it belongs; a text already there
/// is not put in again.
fn insert_sorted(texts: &mut Vec<String>, text: String)
    requires
        sorted_texts(old(texts)@),
    ensures
        sorted_texts(final(texts)@),
        forall|k: Seq<char>| #[trigger] listed(final(texts)@, k) == (listed(old(texts)@, k) || k == text@),
{
    let ghost before = texts@;
    let mut p: usize = 0;
    while p < texts.len() && text_before(&texts[p], &text)
        invariant
            p <= texts@.len(),
            texts@ == before,
            forall|k: int| 0 <= k < p ==> text_less((#[trigger] texts@[k])@, text@),
        decreases texts.len() - p,
    {
        p = p + 1;
    }
    if p < texts.len() && text_equal(&texts[p], &text) {
        proof {
            assert forall|k: Seq<char>| #[trigger] listed(texts@, k) == (listed(before, k) || k == text@) by {
                if k == text@ { assert(texts@[p as int]@ == k); }
            }
        }
        return;
    }
    proof {
        if p < texts@.len() {
            lemma_text_less_total(texts@[p as int]@, text@);
        }
    }
    texts.insert(p, text);
    proof {
        let after = texts@;
        assert forall|a: int| 0 <= a < after.len() implies #[trigger] after[a] == (if a < p { before[a] } else if a == p { text } else { before[a - 1] }) by {}
        assert forall|a: int, b: int| 0 <= a < b < after.len() implies text_less((#[trigger] after[a])@, (#[trigger] after[b])@) by {
            if b < p {
            } else if a < p && b == p {
            } else if a < p && b > p {
                assert(text_less(before[a]@, before[b - 1]@));
            } else if a == p {
                if b - 1 > p {
                    lemma_text_less_transitive(text@, before[p as int]@, before[b - 1]@);
                }
            } else {
                assert(text_less(before[a - 1]@, before[b - 1]@));
            }
        }
        assert forall|k: Seq<char>| #[trigger] listed(after, k) == (listed(before, k) || k == text@) by {
            if listed(after, k) {
                let m = choose|m: int| 0 <= m < after.len() && (#[trigger] after[m])@ == k;
                if m < p { assert(listed(before, k)); } else if m > p { assert(before[m - 1]@ == k); }
            }
            if listed(before, k) {
                let m = choose|m: int| 0 <= m < before.len() && (#[trigger] before[m])@ == k;
                if m < p { assert(after[m] == before[m]); } else { assert(after[m + 1] == before[m]); }
            }
            if k == text@ { assert(after[p as int]@ == k); }
        }
    }
}

/// Whether `k` starts with `prefix`.
pub open spec fn begins(k: Seq<char>, prefix: Seq<char>) -> bool {
    k.len() >= prefix.len() && k.take(prefix.len() as int) == prefix
}

impl StoreOverlay {
    /// The keys that start with `prefix`, sorted, each once: those the
    /// overlay holds, and those the disk holds (`on_disk`, read after a
    /// flush) that were not removed since.
    pub fn listed_keys(&self, prefix: &String, on_disk: &Vec<String>) -> (r: Vec<String>)
        requires
            self.wf(),
        ensures
            sorted_texts(r@),
            forall|k: Seq<char>| #[trigger] listed(r@, k) == (begins(k, prefix@)
                && (self.value_of(k) is Some || (listed(on_disk@, k) && !self.is_removed(k)))),
    {
        let mut out: Vec<String> = Vec::new();
        let mut i: usize = 0;
        while i < self.values.len()
            invariant
                i <= self.values@.len(),
                self.wf(),
                sorted_texts(out@),
                forall|k: Seq<char>| #[trigger] listed(out@, k) == (begins(k, prefix@)
                    && exists|j: int| 0 <= j < i && (#[trigger] self.values@[j]).0@ == k),
            decreases self.values.len() - i,
        {
            let key = self.values[i].0.clone();
            let chars = chars_of(key.as_str());
            let ghost before = out@;
            if starts_with_text(&chars, prefix.as_str()) {
                insert_sorted(&mut out, key);
            }
            proof {
                assert forall|k: Seq<char>| #[trigger] listed(out@, k) == (begins(k, prefix@)
                    && exists|j: int| 0 <= j < i + 1 && (#[trigger] self.values@[j]).0@ == k) by {
                    assert(listed(before, k) == (begins(k, prefix@) && exists|j: int| 0 <= j < i && (#[trigger] self.values@[j]).0@ == k));
                    if k == self.values@[i as int].0@ {
                        assert(exists|j: int| 0 <= j < i + 1 && (#[trigger] self.values@[j]).0@ == k);
                    }
                    if exists|j: int| 0 <= j < i + 1 && (#[trigger] self.values@[j]).0@ == k {
                        let j = choose|j: int| 0 <= j < i + 1 && (#[trigger] self.values@[j]).0@ == k;
                        if j < i {
                            assert(exists|j: int| 0 <= j < i && (#[trigger] self.values@[j]).0@ == k);
                        }
                    }
                }
            }
            i = i + 1;
        }
        let mut d: usize = 0;
        while d < on_disk.len()
            invariant
                d <= on_disk@.len(),
                self.wf(),
                sorted_texts(out@),
                forall|k: Seq<char>| #[trigger] listed(out@, k) == (begins(k, prefix@)
                    && (has_key(self.values@, k) || (listed(on_disk@.take(d as int), k) && !self.is_removed(k)))),
            decreases on_disk.len() - d,
        {
            let key = on_disk[d].clone();
            let chars = chars_of(key.as_str());
            let ghost before = out@;
            let ghost was = on_disk@.take(d as int);
            let ghost next = on_disk@.take(d + 1);
            if starts_with_text(&chars, prefix.as_str()) && find_text(&self.removed, &key).is_none() {
                insert_sorted(&mut out, key);
            }
            proof {
                assert(next =~= was.push(on_disk@[d as int]));
                assert forall|k: Seq<char>| #[trigger] listed(out@, k) == (begins(k, prefix@)
                    && (has_key(self.values@, k) || (listed(next, k) && !self.is_removed(k)))) by {
                    assert(listed(before, k) == (begins(k, prefix@)
                        && (has_key(self.values@, k) || (listed(was, k) && !self.is_removed(k)))));
                    if listed(was, k) {
                        let m = choose|m: int| 0 <= m < was.len() && (#[trigger] was[m])@ == k;
                        assert(next[m] == was[m]);
                    }
                    if listed(next, k) {
                        let m = choose|m: int| 0 <= m < next.len() && (#[trigger] next[m])@ == k;
                        if m < d { assert(was[m] == next[m]); } else { assert(next[m] == on_disk@[d as int]); }
                    }
                    if k == on_disk@[d as int]@ {
                        assert(next[d as int] == on_disk@[d as int]);
                    }
                }
            }
            d = d + 1;
        }
        proof {
            assert(on_disk@.take(on_disk@.len() as int) =~= on_disk@);
            assert forall|k: Seq<char>| #[trigger] listed(out@, k) == (begins(k, prefix@)
                && (self.value_of(k) is Some || (listed(on_disk@, k) && !self.is_removed(k)))) by {
                assert(listed(out@, k) == (begins(k, prefix@)
                    && (has_key(self.values@, k) || (listed(on_disk@.take(on_disk@.len() as int), k) && !self.is_removed(k)))));
            }
        }
        out
    }
}

} // verus!

verus! {

/// The paths of the databases or stores opened so far, by handle: a path
/// opened a second time gets the handle it got the first time.
pub struct Opened {
    paths: Vec<String>,
}

impl Opened {
    /// The paths, by handle.
    pub closed spec fn paths(&self) -> Seq<Seq<char>> {
        self.paths@.map_values(|t: String| t@)
    }

    /// No more paths than there are handles.
    pub closed spec fn wf(&self) -> bool {
        self.paths@.len() <= u32::MAX
    }

    /// Nothing opened yet.
    pub fn new() -> (o: Opened)
        ensures
            o.wf(),
            o.paths().len() == 0,
    {
        let o = Opened { paths: Vec::new() };
        assert(o.paths() =~= Seq::<Seq<char>>::empty());
        o
    }

    /// The handle a path was opened under, if it was: the first one.
    pub fn known(&self, path: &String) -> (r: Option<u32>)
        requires
            self.wf(),
        ensures
            match r {
                Some(h) => h < self.paths().len() && self.paths()[h as int] == path@
                    && forall|k: int| 0 <= k < h ==> self.paths()[k] != path@,
                None => forall|k: int| 0 <= k < self.paths().len() ==> self.paths()[k] != path@,
            },
    {
        let mut i: usize = 0;
        while i < self.paths.len()
            invariant
                i <= self.paths@.len(),
                self.paths@.len() <= u32::MAX,
                forall|k: int| 0 <= k < i ==> self.paths()[k] != path@,
            decreases self.paths.len() - i,
        {
            assert(self.paths()[i as int] == self.paths@[i as int]@);
            if text_equal(&self.paths[i], path) {
                return Some(i as u32);
            }
            i = i + 1;
        }
        None
    }

    /// Records a newly opened path; the handle it gets, or none when no
    /// more handles can be given out.
    pub fn record(&mut self, path: String) -> (r: Option<u32>)
        requires
            old(self).wf(),
        ensures
            final(self).wf(),
            match r {
                Some(h) => h == old(self).paths().len() && final(self).paths() == old(self).paths().push(path@),
                None => old(self).paths().len() >= u32::MAX && final(self).paths() == old(self).paths(),
            },
    {
        let count = self.paths.len();
        if count >= u32::MAX as usize {
            return None;
        }
        let ghost before = self.paths@;
        self.paths.push(path);
        proof { assert(self.paths() =~= before.map_values(|t: String| t@).push(path@)); }
        Some(count as u32)
    }
}

/// Where a database connection string points: the path of a SQLite file,
/// with a leading `sqlite:` taken off. A Postgres string is refused: its
/// SQL can be written, but no live connection to it can be made.
pub fn database_path(url: &String) -> (r: Result<String, String>)
    ensures
        crate::query::names_postgres(url@) ==> (r matches Err(m) && m@ == "Postgres URLs are recognised for Query SQL, but live connections are still SQLite-only \u{2014} use sqlite: for now"@),
        !crate::query::names_postgres(url@) ==> (r matches Ok(p)
            && p@ == if begins(url@, "sqlite:"@) { url@.skip(7) } else { url@ }),
{
    if crate::query::dialect_for(url.as_str()) == crate::query::Dialect::Postgres {
        return Err(String::from_str("Postgres URLs are recognised for Query SQL, but live connections are still SQLite-only \u{2014} use sqlite: for now"));
    }
    let chars = chars_of(url.as_str());
    let sqlite = starts_with_text(&chars, "sqlite:");
    proof { reveal_strlit("sqlite:"); }
    if sqlite {
        let rest = crate::text::text_between(&chars, 7, chars.len());
        assert(rest@ =~= url@.skip(7));
        Ok(rest)
    } else {
        Ok(url.clone())
    }
}


} // verus!
