//! An ordered key/value store: the state of one (sub-)trie at one block.
//!
//! Entries are kept strictly sorted in lexicographic key order, and the summed
//! length of all values fits a 64-bit size so that aggregate size queries
//! cannot overflow.

use vstd::prelude::*;

use crate::bytes::copy_bytes;
use crate::bytes::lemma_take_step;
use crate::bytes::is_prefix;
use crate::bytes::is_strict_prefix;
use crate::bytes::lemma_bytes_deep;
use crate::bytes::lemma_lex_trans;
use crate::bytes::lex_lt;
use crate::bytes::bytes_eq;
use crate::bytes::key_lt;
use crate::bytes::opt_view;
use crate::bytes::starts_with;

verus! {

/// Keys appear in strictly increasing lexicographic order.
pub open spec fn keys_sorted(s: Seq<(Vec<u8>, Vec<u8>)>) -> bool {
    forall|i: int, j: int| 0 <= i < j < s.len() ==> lex_lt(s[i].0@, s[j].0@)
}

/// Summed length of all values.
pub open spec fn total_len(s: Seq<(Vec<u8>, Vec<u8>)>) -> int
    decreases s.len(),
{
    if s.len() == 0 {
        0
    } else {
        total_len(s.drop_last()) + s.last().1@.len()
    }
}

/// Well-formed entry sequence: sorted keys, bounded total size.
pub open spec fn map_wf(s: Seq<(Vec<u8>, Vec<u8>)>) -> bool {
    keys_sorted(s) && total_len(s) <= u64::MAX
}

/// The value stored at `key`, if any (the last matching entry decides).
pub open spec fn map_get(s: Seq<(Vec<u8>, Vec<u8>)>, key: Seq<u8>) -> Option<Seq<u8>>
    decreases s.len(),
{
    if s.len() == 0 {
        None
    } else if s.last().0@ == key {
        Some(s.last().1@)
    } else {
        map_get(s.drop_last(), key)
    }
}

/// A key passes the enumeration filter: it carries the requested prefix (if
/// any) and sorts strictly after the requested start key (if any).
pub open spec fn key_selected(k: Seq<u8>, prefix: Option<Seq<u8>>, after: Option<Seq<u8>>) -> bool {
    &&& (match prefix {
        Some(p) => is_prefix(p, k),
        None => true,
    })
    &&& (match after {
        Some(a) => lex_lt(a, k),
        None => true,
    })
}

/// The keys of `s` that pass the enumeration filter, in order.
pub open spec fn selected_keys(
    s: Seq<(Vec<u8>, Vec<u8>)>,
    prefix: Option<Seq<u8>>,
    after: Option<Seq<u8>>,
) -> Seq<Seq<u8>>
    decreases s.len(),
{
    if s.len() == 0 {
        Seq::empty()
    } else {
        let rest = selected_keys(s.drop_last(), prefix, after);
        if key_selected(s.last().0@, prefix, after) {
            rest.push(s.last().0@)
        } else {
            rest
        }
    }
}

/// The entries of `s` whose key carries `prefix`, in order.
pub open spec fn selected_pairs(s: Seq<(Vec<u8>, Vec<u8>)>, prefix: Seq<u8>) -> Seq<
    (Seq<u8>, Seq<u8>),
>
    decreases s.len(),
{
    if s.len() == 0 {
        Seq::empty()
    } else {
        let rest = selected_pairs(s.drop_last(), prefix);
        if is_prefix(prefix, s.last().0@) {
            rest.push((s.last().0@, s.last().1@))
        } else {
            rest
        }
    }
}

/// Summed length of the values whose key has `key` as a strict prefix.
pub open spec fn prefixed_len(s: Seq<(Vec<u8>, Vec<u8>)>, key: Seq<u8>) -> int
    decreases s.len(),
{
    if s.len() == 0 {
        0
    } else {
        prefixed_len(s.drop_last(), key) + if is_strict_prefix(key, s.last().0@) {
            s.last().1@.len() as int
        } else {
            0
        }
    }
}

/// Some entry's key has `key` as a strict prefix.
pub open spec fn has_strict_prefixed(s: Seq<(Vec<u8>, Vec<u8>)>, key: Seq<u8>) -> bool {
    exists|i: int| 0 <= i < s.len() && is_strict_prefix(key, s[i].0@)
}

/// The size reported for `key`: the exact value length when an entry stands at
/// `key`; else the summed length of the strictly prefixed entries when any
/// exist; else nothing.
pub open spec fn map_size(s: Seq<(Vec<u8>, Vec<u8>)>, key: Seq<u8>) -> Option<int> {
    match map_get(s, key) {
        Some(v) => Some(v.len() as int),
        None => if has_strict_prefixed(s, key) {
            Some(prefixed_len(s, key))
        } else {
            None
        },
    }
}

/// The page served for a request: the filtered keys, cut to `count`.
pub open spec fn paged_keys(
    s: Seq<(Vec<u8>, Vec<u8>)>,
    prefix: Option<Seq<u8>>,
    after: Option<Seq<u8>>,
    count: int,
) -> Seq<Seq<u8>> {
    let sel = selected_keys(s, prefix, after);
    if sel.len() <= count {
        sel
    } else {
        sel.take(count)
    }
}

/// Every selected key passes the filter, stems from an entry of `s`, and the
/// selection of a sorted entry sequence is strictly increasing.
pub proof fn lemma_selected_keys_props(
    s: Seq<(Vec<u8>, Vec<u8>)>,
    prefix: Option<Seq<u8>>,
    after: Option<Seq<u8>>,
)
    requires
        keys_sorted(s),
    ensures
        selected_keys(s, prefix, after).len() <= s.len(),
        forall|j: int|
            0 <= j < selected_keys(s, prefix, after).len() ==> key_selected(
                #[trigger] selected_keys(s, prefix, after)[j],
                prefix,
                after,
            ),
        forall|j: int|
            0 <= j < selected_keys(s, prefix, after).len() ==> exists|i: int|
                0 <= i < s.len() && #[trigger] selected_keys(s, prefix, after)[j] == s[i].0@,
        forall|j1: int, j2: int|
            0 <= j1 < j2 < selected_keys(s, prefix, after).len() ==> lex_lt(
                selected_keys(s, prefix, after)[j1],
                selected_keys(s, prefix, after)[j2],
            ),
    decreases s.len(),
{
    if s.len() > 0 {
        let d = s.drop_last();
        assert(forall|i: int| 0 <= i < d.len() ==> d[i] == s[i]);
        assert(keys_sorted(d));
        lemma_selected_keys_props(d, prefix, after);
        let rest = selected_keys(d, prefix, after);
        if key_selected(s.last().0@, prefix, after) {
            let r = rest.push(s.last().0@);
            assert forall|j: int| 0 <= j < rest.len() implies lex_lt(
                #[trigger] rest[j],
                s.last().0@,
            ) by {
                let i = choose|i: int| 0 <= i < d.len() && rest[j] == d[i].0@;
                assert(lex_lt(s[i].0@, s[s.len() - 1].0@));
            }
            assert forall|j: int| 0 <= j < r.len() implies exists|i: int|
                0 <= i < s.len() && #[trigger] r[j] == s[i].0@ by {
                if j < rest.len() {
                    let i = choose|i: int| 0 <= i < d.len() && rest[j] == d[i].0@;
                    assert(r[j] == s[i].0@);
                } else {
                    assert(r[j] == s[s.len() - 1].0@);
                }
            }
        }
    }
}

/// The page served for any request against a sorted store holds at most
/// `count` keys, every one passing the filter — carrying the prefix and
/// sorting strictly after the start key — in strictly increasing order.
pub proof fn lemma_paged_keys_props(
    s: Seq<(Vec<u8>, Vec<u8>)>,
    prefix: Option<Seq<u8>>,
    after: Option<Seq<u8>>,
    count: int,
)
    requires
        keys_sorted(s),
        count >= 0,
    ensures
        paged_keys(s, prefix, after, count).len() <= count,
        forall|j: int|
            0 <= j < paged_keys(s, prefix, after, count).len() ==> key_selected(
                #[trigger] paged_keys(s, prefix, after, count)[j],
                prefix,
                after,
            ),
        forall|j1: int, j2: int|
            0 <= j1 < j2 < paged_keys(s, prefix, after, count).len() ==> lex_lt(
                paged_keys(s, prefix, after, count)[j1],
                paged_keys(s, prefix, after, count)[j2],
            ),
{
    lemma_selected_keys_props(s, prefix, after);
    let sel = selected_keys(s, prefix, after);
    let page = paged_keys(s, prefix, after, count);
    assert(forall|j: int| 0 <= j < page.len() ==> page[j] == sel[j]);
}

/// Selecting from a front segment yields a front segment of the selection.
pub proof fn lemma_selected_keys_take_prefix(
    s: Seq<(Vec<u8>, Vec<u8>)>,
    prefix: Option<Seq<u8>>,
    after: Option<Seq<u8>>,
    i: int,
)
    requires
        0 <= i <= s.len(),
    ensures
        selected_keys(s.take(i), prefix, after).len() <= selected_keys(s, prefix, after).len(),
        selected_keys(s.take(i), prefix, after) == selected_keys(s, prefix, after).take(
            selected_keys(s.take(i), prefix, after).len() as int,
        ),
    decreases s.len() - i,
{
    if i == s.len() {
        assert(s.take(i) =~= s);
        assert(selected_keys(s, prefix, after).take(
            selected_keys(s, prefix, after).len() as int,
        ) =~= selected_keys(s, prefix, after));
    } else {
        lemma_take_step(s, i);
        let a = selected_keys(s.take(i), prefix, after);
        let b = selected_keys(s.take(i + 1), prefix, after);
        assert(b == if key_selected(s[i].0@, prefix, after) {
            a.push(s[i].0@)
        } else {
            a
        });
        lemma_selected_keys_take_prefix(s, prefix, after, i + 1);
        let full = selected_keys(s, prefix, after);
        assert(a =~= full.take(b.len() as int).take(a.len() as int));
        assert(full.take(b.len() as int).take(a.len() as int) =~= full.take(a.len() as int));
    }
}

/// The aggregate size of the strictly prefixed entries never exceeds the
/// store's total size.
pub proof fn lemma_prefixed_le_total(s: Seq<(Vec<u8>, Vec<u8>)>, key: Seq<u8>)
    ensures
        0 <= prefixed_len(s, key) <= total_len(s),
    decreases s.len(),
{
    if s.len() > 0 {
        lemma_prefixed_le_total(s.drop_last(), key);
    }
}

/// A front segment's total size never exceeds the whole store's.
pub proof fn lemma_total_take_le(s: Seq<(Vec<u8>, Vec<u8>)>, i: int)
    requires
        0 <= i <= s.len(),
    ensures
        0 <= total_len(s.take(i)) <= total_len(s),
    decreases s.len(),
{
    if i == s.len() {
        assert(s.take(i) =~= s);
        lemma_total_nonneg(s);
    } else {
        assert(s.drop_last().take(i) =~= s.take(i));
        lemma_total_take_le(s.drop_last(), i);
    }
}

/// Total size is never negative.
pub proof fn lemma_total_nonneg(s: Seq<(Vec<u8>, Vec<u8>)>)
    ensures
        total_len(s) >= 0,
    decreases s.len(),
{
    if s.len() > 0 {
        lemma_total_nonneg(s.drop_last());
    }
}

/// An ordered key/value store.
pub struct StorageMap {
    entries: Vec<(Vec<u8>, Vec<u8>)>,
}

impl StorageMap {
    /// The entry sequence the store holds.
    pub closed spec fn view(&self) -> Seq<(Vec<u8>, Vec<u8>)> {
        self.entries@
    }

    /// Well-formedness: sorted keys and bounded total size.
    pub open spec fn wf(&self) -> bool {
        map_wf(self@)
    }

    /// An empty store.
    pub fn new() -> (r: StorageMap)
        ensures
            r.wf(),
            r@ == Seq::<(Vec<u8>, Vec<u8>)>::empty(),
    {
        let r = StorageMap { entries: Vec::new() };
        proof {
            assert(r.entries@ =~= Seq::<(Vec<u8>, Vec<u8>)>::empty());
        }
        r
    }

    /// Appends an entry when its key sorts after every present key and the
    /// total size stays within bounds; reports whether it was taken.
    pub fn append(&mut self, key: Vec<u8>, value: Vec<u8>) -> (ok: bool)
        requires
            old(self).wf(),
        ensures
            final(self).wf(),
            ok == ((old(self)@.len() == 0 || lex_lt(old(self)@.last().0@, key@)) && total_len(
                old(self)@,
            ) + value@.len() <= u64::MAX),
            ok ==> final(self)@ == old(self)@.push((key, value)),
            !ok ==> final(self)@ == old(self)@,
    {
        let ghost s = self.entries@;
        let in_order = if self.entries.len() == 0 {
            true
        } else {
            let last = &self.entries[self.entries.len() - 1];
            key_lt(&last.0, &key)
        };
        if !in_order {
            return false;
        }
        let total = self.total_size();
        if value.len() as u64 > u64::MAX - total {
            proof {
                lemma_total_nonneg(s);
            }
            return false;
        }
        proof {
            let t = s.push((key, value));
            assert(t.drop_last() =~= s);
            lemma_total_nonneg(s);
            if s.len() > 0 {
                assert forall|i: int, j: int| 0 <= i < j < t.len() implies lex_lt(
                    t[i].0@,
                    t[j].0@,
                ) by {
                    if j == t.len() - 1 && i < s.len() - 1 {
                        lemma_lex_trans(s[i].0@, s[s.len() - 1].0@, key@);
                    }
                }
            }
        }
        self.entries.push((key, value));
        true
    }

    /// The summed length of all values.
    pub fn total_size(&self) -> (r: u64)
        requires
            self.wf(),
        ensures
            r == total_len(self@),
    {
        let mut sum: u64 = 0;
        let mut i: usize = 0;
        proof {
            assert(self@.take(0) =~= Seq::<(Vec<u8>, Vec<u8>)>::empty());
        }
        while i < self.entries.len()
            invariant
                self.wf(),
                i <= self@.len(),
                sum == total_len(self@.take(i as int)),
            decreases self@.len() - i,
        {
            proof {
                lemma_take_step(self@, i as int);
                lemma_total_take_le(self@, i as int + 1);
                lemma_total_nonneg(self@.take(i as int));
            }
            sum = sum + self.entries[i].1.len() as u64;
            i = i + 1;
        }
        proof {
            assert(self@.take(self@.len() as int) =~= self@);
        }
        sum
    }

    /// Point lookup: the value stored exactly at `key`.
    pub fn get(&self, key: &Vec<u8>) -> (r: Option<Vec<u8>>)
        ensures
            opt_view(r) == map_get(self@, key@),
    {
        let mut found: Option<Vec<u8>> = None;
        let mut i: usize = 0;
        proof {
            assert(self@.take(0) =~= Seq::<(Vec<u8>, Vec<u8>)>::empty());
        }
        while i < self.entries.len()
            invariant
                i <= self@.len(),
                opt_view(found) == map_get(self@.take(i as int), key@),
            decreases self@.len() - i,
        {
            proof {
                lemma_take_step(self@, i as int);
            }
            if bytes_eq(&self.entries[i].0, key) {
                found = Some(copy_bytes(&self.entries[i].1));
            }
            i = i + 1;
        }
        proof {
            assert(self@.take(self@.len() as int) =~= self@);
        }
        found
    }

    /// All keys passing the enumeration filter, cut to `count`: a sorted page
    /// of keys that carry `prefix` and sort strictly after `after`.
    pub fn keys_paged(
        &self,
        prefix: &Option<Vec<u8>>,
        count: u32,
        after: &Option<Vec<u8>>,
    ) -> (r: Vec<Vec<u8>>)
        requires
            self.wf(),
        ensures
            r.deep_view() == paged_keys(self@, opt_view(*prefix), opt_view(*after), count as int),
            r@.len() <= count,
            forall|j: int|
                0 <= j < r.deep_view().len() ==> key_selected(
                    #[trigger] r.deep_view()[j],
                    opt_view(*prefix),
                    opt_view(*after),
                ),
            forall|j1: int, j2: int|
                0 <= j1 < j2 < r.deep_view().len() ==> lex_lt(r.deep_view()[j1], r.deep_view()[j2]),
    {
        let ghost pv = opt_view(*prefix);
        let ghost av = opt_view(*after);
        let mut out: Vec<Vec<u8>> = Vec::new();
        let mut i: usize = 0;
        proof {
            assert(self@.take(0) =~= Seq::<(Vec<u8>, Vec<u8>)>::empty());
            assert(out.deep_view() =~= selected_keys(self@.take(0), pv, av));
        }
        while i < self.entries.len() && out.len() < count as usize
            invariant
                self.wf(),
                i <= self@.len(),
                pv == opt_view(*prefix),
                av == opt_view(*after),
                out@.len() == out.deep_view().len(),
                out.deep_view() == selected_keys(self@.take(i as int), pv, av),
                out@.len() <= count,
            decreases self@.len() - i,
        {
            proof {
                lemma_take_step(self@, i as int);
            }
            let pref_ok = match prefix {
                Some(p) => starts_with(&self.entries[i].0, p),
                None => true,
            };
            let after_ok = match after {
                Some(a) => key_lt(a, &self.entries[i].0),
                None => true,
            };
            let take_it = pref_ok && after_ok;
            proof {
                assert(take_it == key_selected(self@[i as int].0@, pv, av));
            }
            if take_it {
                let ghost pre = out.deep_view();
                let k = copy_bytes(&self.entries[i].0);
                proof {
                    lemma_bytes_deep(k);
                }
                out.push(k);
                proof {
                    assert(out.deep_view() =~= pre.push(self@[i as int].0@));
                }
            }
            i = i + 1;
        }
        proof {
            let sel = selected_keys(self@, pv, av);
            if i == self@.len() {
                assert(self@.take(i as int) =~= self@);
                assert(out.deep_view() =~= paged_keys(self@, pv, av, count as int));
            } else {
                lemma_selected_keys_take_prefix(self@, pv, av, i as int);
                assert(out.deep_view() == sel.take(count as int));
            }
            lemma_selected_keys_props(self@, pv, av);
            assert forall|j: int| 0 <= j < out.deep_view().len() implies key_selected(
                #[trigger] out.deep_view()[j],
                pv,
                av,
            ) by {
                assert(out.deep_view()[j] == sel[j]);
            }
            assert forall|j1: int, j2: int|
                0 <= j1 < j2 < out.deep_view().len() implies lex_lt(
                out.deep_view()[j1],
                out.deep_view()[j2],
            ) by {
                assert(out.deep_view()[j1] == sel[j1] && out.deep_view()[j2] == sel[j2]);
            }
        }
        out
    }

    /// All keys that carry `prefix`, in order, without a bound.
    pub fn keys_with_prefix(&self, prefix: &Vec<u8>) -> (r: Vec<Vec<u8>>)
        requires
            self.wf(),
        ensures
            r.deep_view() == selected_keys(self@, Some(prefix@), None),
    {
        let mut out: Vec<Vec<u8>> = Vec::new();
        let mut i: usize = 0;
        proof {
            assert(self@.take(0) =~= Seq::<(Vec<u8>, Vec<u8>)>::empty());
            assert(out.deep_view() =~= selected_keys(self@.take(0), Some(prefix@), None));
        }
        while i < self.entries.len()
            invariant
                i <= self@.len(),
                out.deep_view() == selected_keys(self@.take(i as int), Some(prefix@), None),
            decreases self@.len() - i,
        {
            proof {
                lemma_take_step(self@, i as int);
            }
            if starts_with(&self.entries[i].0, prefix) {
                let ghost pre = out.deep_view();
                let k = copy_bytes(&self.entries[i].0);
                proof {
                    lemma_bytes_deep(k);
                }
                out.push(k);
                proof {
                    assert(out.deep_view() =~= pre.push(self@[i as int].0@));
                }
            }
            i = i + 1;
        }
        proof {
            assert(self@.take(self@.len() as int) =~= self@);
        }
        out
    }

    /// All entries whose key carries `prefix`, in order, without a bound.
    pub fn pairs_with_prefix(&self, prefix: &Vec<u8>) -> (r: Vec<(Vec<u8>, Vec<u8>)>)
        requires
            self.wf(),
        ensures
            r.deep_view() == selected_pairs(self@, prefix@),
    {
        let mut out: Vec<(Vec<u8>, Vec<u8>)> = Vec::new();
        let mut i: usize = 0;
        proof {
            assert(self@.take(0) =~= Seq::<(Vec<u8>, Vec<u8>)>::empty());
            assert(out.deep_view() =~= selected_pairs(self@.take(0), prefix@));
        }
        while i < self.entries.len()
            invariant
                i <= self@.len(),
                out.deep_view() == selected_pairs(self@.take(i as int), prefix@),
            decreases self@.len() - i,
        {
            proof {
                lemma_take_step(self@, i as int);
            }
            if starts_with(&self.entries[i].0, prefix) {
                let ghost pre = out.deep_view();
                let k = copy_bytes(&self.entries[i].0);
                let v = copy_bytes(&self.entries[i].1);
                proof {
                    lemma_bytes_deep(k);
                    lemma_bytes_deep(v);
                }
                out.push((k, v));
                proof {
                    assert(out.deep_view() =~= pre.push((self@[i as int].0@, self@[i as int].1@)));
                }
            }
            i = i + 1;
        }
        proof {
            assert(self@.take(self@.len() as int) =~= self@);
        }
        out
    }

    /// The size reported for `key`: the exact length of the entry at `key`
    /// when one exists; else the summed length of all entries whose key has
    /// `key` as a strict prefix, when any exist; else nothing.
    pub fn size_of(&self, key: &Vec<u8>) -> (r: Option<u64>)
        requires
            self.wf(),
        ensures
            match r {
                Some(n) => map_size(self@, key@) == Some(n as int),
                None => map_size(self@, key@) is None,
            },
    {
        let mut exact: Option<u64> = None;
        let mut sum: u64 = 0;
        let mut any_prefixed = false;
        let mut i: usize = 0;
        proof {
            assert(self@.take(0) =~= Seq::<(Vec<u8>, Vec<u8>)>::empty());
        }
        while i < self.entries.len()
            invariant
                self.wf(),
                i <= self@.len(),
                match exact {
                    Some(n) => map_get(self@.take(i as int), key@) matches Some(v) && v.len()
                        == n,
                    None => map_get(self@.take(i as int), key@) is None,
                },
                sum == prefixed_len(self@.take(i as int), key@),
                any_prefixed == has_strict_prefixed(self@.take(i as int), key@),
            decreases self@.len() - i,
        {
            proof {
                lemma_take_step(self@, i as int);
                lemma_prefixed_le_total(self@.take(i as int + 1), key@);
                lemma_total_take_le(self@, i as int + 1);
                lemma_prefixed_le_total(self@.take(i as int), key@);
            }
            let ghost before = self@.take(i as int);
            let ghost stepped = self@.take(i as int + 1);
            if bytes_eq(&self.entries[i].0, key) {
                exact = Some(self.entries[i].1.len() as u64);
            } else if self.entries[i].0.len() > key.len() && starts_with(&self.entries[i].0, key) {
                sum = sum + self.entries[i].1.len() as u64;
                any_prefixed = true;
                proof {
                    assert(is_strict_prefix(key@, stepped.last().0@));
                    assert(stepped[i as int] == self@[i as int]);
                    assert(has_strict_prefixed(stepped, key@));
                }
            } else {
                proof {
                    assert(!is_strict_prefix(key@, self@[i as int].0@));
                    if has_strict_prefixed(stepped, key@) {
                        let j = choose|j: int|
                            0 <= j < stepped.len() && is_strict_prefix(key@, stepped[j].0@);
                        assert(j < before.len());
                        assert(stepped[j] == before[j]);
                        assert(has_strict_prefixed(before, key@));
                    }
                    if has_strict_prefixed(before, key@) {
                        let j = choose|j: int|
                            0 <= j < before.len() && is_strict_prefix(key@, before[j].0@);
                        assert(stepped[j] == before[j]);
                        assert(has_strict_prefixed(stepped, key@));
                    }
                }
            }
            i = i + 1;
        }
        proof {
            assert(self@.take(self@.len() as int) =~= self@);
        }
        match exact {
            Some(n) => Some(n),
            None => {
                if any_prefixed {
                    Some(sum)
                } else {
                    None
                }
            },
        }
    }
}

} // verus!
