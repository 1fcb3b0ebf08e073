//! The map of a synchronisation: for a lifeline and a kind of action, the
//! messages on which the two operands must meet.
//!
//! The entries are kept in the order of their keys, emissions before
//! receptions and then by lifeline, so that two maps with the same content
//! are the same value.

use crate::context::ContextView;
use crate::message::MessageTypeExpression;
use crate::trace::TraceActionKind;
use vstd::prelude::*;

verus! {

/// One entry of a synchronisation map.
#[derive(Debug, Eq, Hash)]
pub struct SyncEntry {
    pub lf_id: usize,
    pub act_kind: TraceActionKind,
    pub message: MessageTypeExpression,
}

impl Clone for SyncEntry {
    fn clone(&self) -> (r: Self)
        ensures
            r == *self,
    {
        SyncEntry { lf_id: self.lf_id, act_kind: self.act_kind, message: self.message.clone() }
    }
}

impl PartialEq for SyncEntry {
    fn eq(&self, other: &Self) -> (r: bool) {
        self.lf_id == other.lf_id && self.act_kind == other.act_kind && self.message == other.message
    }
}

impl vstd::std_specs::cmp::PartialEqSpecImpl for SyncEntry {
    open spec fn obeys_eq_spec() -> bool {
        true
    }

    open spec fn eq_spec(&self, other: &Self) -> bool {
        *self == *other
    }
}

/// The order of keys: emissions come first, then the lifelines ascend.
pub open spec fn key_before(
    lf1: usize,
    kind1: TraceActionKind,
    lf2: usize,
    kind2: TraceActionKind,
) -> bool {
    (kind1 is Emission && kind2 is Reception) || (kind1 == kind2 && lf1 < lf2)
}

/// The message under a key: that of the first entry with this key.
pub open spec fn lookup(entries: Seq<SyncEntry>, lf_id: usize, kind: TraceActionKind) -> Option<
    MessageTypeExpression,
>
    decreases entries.len(),
{
    if entries.len() == 0 {
        None
    } else {
        match lookup(entries.drop_last(), lf_id, kind) {
            Some(m) => Some(m),
            None => if entries.last().lf_id == lf_id && entries.last().act_kind == kind {
                Some(entries.last().message)
            } else {
                None
            },
        }
    }
}

/// The keys ascend strictly along the entries.
pub open spec fn ordered(entries: Seq<SyncEntry>) -> bool {
    forall|i: int, j: int|
        0 <= i < j < entries.len() ==> key_before(
            #[trigger] entries[i].lf_id,
            entries[i].act_kind,
            #[trigger] entries[j].lf_id,
            entries[j].act_kind,
        )
}

/// Every message expression of the map names only types of the table.
pub open spec fn entries_well_formed(entries: Seq<SyncEntry>, ctx: ContextView) -> bool {
    forall|i: int| 0 <= i < entries.len() ==> (#[trigger] entries[i]).message.well_formed(ctx)
}

/// The entries whose key comes before that of `e`.
pub open spec fn entries_before(entries: Seq<SyncEntry>, e: SyncEntry) -> Seq<SyncEntry>
    decreases entries.len(),
{
    if entries.len() == 0 {
        entries
    } else {
        let front = entries_before(entries.drop_last(), e);
        if key_before(entries.last().lf_id, entries.last().act_kind, e.lf_id, e.act_kind) {
            front.push(entries.last())
        } else {
            front
        }
    }
}

/// The entries whose key comes after that of `e`.
pub open spec fn entries_after(entries: Seq<SyncEntry>, e: SyncEntry) -> Seq<SyncEntry>
    decreases entries.len(),
{
    if entries.len() == 0 {
        entries
    } else {
        let front = entries_after(entries.drop_last(), e);
        if key_before(e.lf_id, e.act_kind, entries.last().lf_id, entries.last().act_kind) {
            front.push(entries.last())
        } else {
            front
        }
    }
}

/// The entries with `e` put at the place of its key; an entry that had
/// this key is gone.
pub open spec fn entries_with(entries: Seq<SyncEntry>, e: SyncEntry) -> Seq<SyncEntry> {
    entries_before(entries, e).push(e) + entries_after(entries, e)
}

pub proof fn lemma_lookup_prefix(
    entries: Seq<SyncEntry>,
    n: int,
    lf_id: usize,
    kind: TraceActionKind,
)
    requires
        0 <= n <= entries.len(),
        lookup(entries.take(n), lf_id, kind) is Some,
    ensures
        lookup(entries, lf_id, kind) == lookup(entries.take(n), lf_id, kind),
    decreases entries.len() - n,
{
    if n == entries.len() {
        assert(entries.take(n) =~= entries);
    } else {
        assert(entries.take(n + 1).drop_last() =~= entries.take(n));
        lemma_lookup_prefix(entries, n + 1, lf_id, kind);
    }
}

pub proof fn lemma_lookup_well_formed(
    entries: Seq<SyncEntry>,
    lf_id: usize,
    kind: TraceActionKind,
    ctx: ContextView,
)
    requires
        entries_well_formed(entries, ctx),
    ensures
        lookup(entries, lf_id, kind) matches Some(m) ==> m.well_formed(ctx),
    decreases entries.len(),
{
    if entries.len() > 0 {
        assert forall|i: int| 0 <= i < entries.drop_last().len() implies (
        #[trigger] entries.drop_last()[i]).message.well_formed(ctx) by {
            assert(entries.drop_last()[i] == entries[i]);
        }
        lemma_lookup_well_formed(entries.drop_last(), lf_id, kind, ctx);
        assert(entries[entries.len() - 1] == entries.last());
    }
}

/// Of two keys, one comes before the other or they are the same.
pub open spec fn same_key(lf1: usize, kind1: TraceActionKind, lf2: usize, kind2: TraceActionKind) -> bool {
    lf1 == lf2 && kind1 == kind2
}

proof fn lemma_lookup_push(entries: Seq<SyncEntry>, e: SyncEntry, lf_id: usize, kind: TraceActionKind)
    ensures
        lookup(entries.push(e), lf_id, kind) == match lookup(entries, lf_id, kind) {
            Some(m) => Some(m),
            None => if same_key(e.lf_id, e.act_kind, lf_id, kind) {
                Some(e.message)
            } else {
                None
            },
        },
{
    assert(entries.push(e).drop_last() =~= entries);
    assert(entries.push(e).last() == e);
}

proof fn lemma_lookup_concat(a: Seq<SyncEntry>, b: Seq<SyncEntry>, lf_id: usize, kind: TraceActionKind)
    ensures
        lookup(a + b, lf_id, kind) == match lookup(a, lf_id, kind) {
            Some(m) => Some(m),
            None => lookup(b, lf_id, kind),
        },
    decreases b.len(),
{
    if b.len() == 0 {
        assert(a + b =~= a);
    } else {
        lemma_lookup_concat(a, b.drop_last(), lf_id, kind);
        assert((a + b).drop_last() =~= a + b.drop_last());
        assert((a + b).last() == b.last());
    }
}

proof fn lemma_lookup_before(entries: Seq<SyncEntry>, e: SyncEntry, lf_id: usize, kind: TraceActionKind)
    ensures
        lookup(entries_before(entries, e), lf_id, kind) == if key_before(
            lf_id,
            kind,
            e.lf_id,
            e.act_kind,
        ) {
            lookup(entries, lf_id, kind)
        } else {
            None
        },
        lookup(entries_after(entries, e), lf_id, kind) == if key_before(
            e.lf_id,
            e.act_kind,
            lf_id,
            kind,
        ) {
            lookup(entries, lf_id, kind)
        } else {
            None
        },
    decreases entries.len(),
{
    if entries.len() > 0 {
        lemma_lookup_before(entries.drop_last(), e, lf_id, kind);
        lemma_lookup_push(entries_before(entries.drop_last(), e), entries.last(), lf_id, kind);
        lemma_lookup_push(entries_after(entries.drop_last(), e), entries.last(), lf_id, kind);
    }
}

/// After an entry is put in a map, its key leads to its message, and
/// every other key leads to what it led to before.
pub proof fn lemma_lookup_entries_with(
    entries: Seq<SyncEntry>,
    e: SyncEntry,
    lf_id: usize,
    kind: TraceActionKind,
)
    ensures
        lookup(entries_with(entries, e), lf_id, kind) == if same_key(
            e.lf_id,
            e.act_kind,
            lf_id,
            kind,
        ) {
            Some(e.message)
        } else {
            lookup(entries, lf_id, kind)
        },
{
    let before = entries_before(entries, e);
    let after = entries_after(entries, e);
    lemma_lookup_before(entries, e, lf_id, kind);
    lemma_lookup_push(before, e, lf_id, kind);
    lemma_lookup_concat(before.push(e), after, lf_id, kind);
}

proof fn lemma_parts_ordered(entries: Seq<SyncEntry>, e: SyncEntry)
    requires
        ordered(entries),
    ensures
        ordered(entries_before(entries, e)),
        ordered(entries_after(entries, e)),
        forall|i: int|
            0 <= i < entries_before(entries, e).len() ==> key_before(
                (#[trigger] entries_before(entries, e)[i]).lf_id,
                entries_before(entries, e)[i].act_kind,
                e.lf_id,
                e.act_kind,
            ) && entries.contains(entries_before(entries, e)[i]),
        forall|i: int|
            0 <= i < entries_after(entries, e).len() ==> key_before(
                e.lf_id,
                e.act_kind,
                (#[trigger] entries_after(entries, e)[i]).lf_id,
                entries_after(entries, e)[i].act_kind,
            ) && entries.contains(entries_after(entries, e)[i]),
    decreases entries.len(),
{
    if entries.len() > 0 {
        let front = entries.drop_last();
        let last = entries.last();
        assert(ordered(front)) by {
            assert forall|i: int, j: int| 0 <= i < j < front.len() implies key_before(
                (#[trigger] front[i]).lf_id,
                front[i].act_kind,
                (#[trigger] front[j]).lf_id,
                front[j].act_kind,
            ) by {
                assert(front[i] == entries[i] && front[j] == entries[j]);
            }
        }
        lemma_parts_ordered(front, e);
        assert(entries[entries.len() - 1] == last);
        let bf = entries_before(front, e);
        let af = entries_after(front, e);
        assert forall|x: SyncEntry| front.contains(x) implies entries.contains(x) && key_before(
            x.lf_id,
            x.act_kind,
            last.lf_id,
            last.act_kind,
        ) by {
            let i = choose|i: int| 0 <= i < front.len() && front[i] == x;
            assert(entries[i] == x);
        }
        let b = entries_before(entries, e);
        assert forall|i: int| 0 <= i < b.len() implies key_before(
            (#[trigger] b[i]).lf_id,
            b[i].act_kind,
            e.lf_id,
            e.act_kind,
        ) && entries.contains(b[i]) by {
            if i < bf.len() {
                assert(b[i] == bf[i]);
                assert(front.contains(bf[i]));
            } else {
                assert(b[i] == last);
            }
        }
        assert forall|i: int, j: int| 0 <= i < j < b.len() implies key_before(
            (#[trigger] b[i]).lf_id,
            b[i].act_kind,
            (#[trigger] b[j]).lf_id,
            b[j].act_kind,
        ) by {
            assert(b[i] == bf[i]);
            assert(front.contains(bf[i]));
            if j < bf.len() {
                assert(b[j] == bf[j]);
            } else {
                assert(b[j] == last);
            }
        }
        let a = entries_after(entries, e);
        assert forall|i: int| 0 <= i < a.len() implies key_before(
            e.lf_id,
            e.act_kind,
            (#[trigger] a[i]).lf_id,
            a[i].act_kind,
        ) && entries.contains(a[i]) by {
            if i < af.len() {
                assert(a[i] == af[i]);
                assert(front.contains(af[i]));
            } else {
                assert(a[i] == last);
            }
        }
        assert forall|i: int, j: int| 0 <= i < j < a.len() implies key_before(
            (#[trigger] a[i]).lf_id,
            a[i].act_kind,
            (#[trigger] a[j]).lf_id,
            a[j].act_kind,
        ) by {
            assert(a[i] == af[i]);
            assert(front.contains(af[i]));
            if j < af.len() {
                assert(a[j] == af[j]);
            } else {
                assert(a[j] == last);
            }
        }
    }
}

/// Putting an entry in a map whose keys ascend gives a map whose keys
/// ascend.
pub proof fn lemma_entries_with_ordered(entries: Seq<SyncEntry>, e: SyncEntry)
    requires
        ordered(entries),
    ensures
        ordered(entries_with(entries, e)),
{
    lemma_parts_ordered(entries, e);
    let b = entries_before(entries, e);
    let a = entries_after(entries, e);
    let w = entries_with(entries, e);
    assert forall|i: int, j: int| 0 <= i < j < w.len() implies key_before(
        (#[trigger] w[i]).lf_id,
        w[i].act_kind,
        (#[trigger] w[j]).lf_id,
        w[j].act_kind,
    ) by {
        if j < b.len() {
            assert(w[i] == b[i] && w[j] == b[j]);
        } else if j == b.len() {
            assert(w[i] == b[i] && w[j] == e);
        } else {
            assert(w[j] == a[j - b.len() - 1]);
            if i < b.len() {
                assert(w[i] == b[i]);
            } else if i == b.len() {
                assert(w[i] == e);
            } else {
                assert(w[i] == a[i - b.len() - 1]);
            }
        }
    }
}

/// A synchronisation map.
#[derive(Debug, PartialEq, Eq, Hash)]
pub struct SyncMap {
    entries: Vec<SyncEntry>,
}

impl View for SyncMap {
    type V = Seq<SyncEntry>;

    closed spec fn view(&self) -> Seq<SyncEntry> {
        self.entries@
    }
}

impl Clone for SyncMap {
    fn clone(&self) -> (r: Self)
        ensures
            r@ == self@,
    {
        let mut entries: Vec<SyncEntry> = Vec::new();
        let mut i: usize = 0;
        while i < self.entries.len()
            invariant
                i <= self.entries.len(),
                entries@ == self.entries@.take(i as int),
            decreases self.entries.len() - i,
        {
            entries.push(self.entries[i].clone());
            proof {
                assert(self.entries@.take(i + 1) =~= self.entries@.take(i as int).push(
                    self.entries@[i as int],
                ));
            }
            i += 1;
        }
        proof {
            assert(self.entries@.take(self.entries.len() as int) =~= self.entries@);
        }
        SyncMap { entries }
    }
}

impl SyncMap {
    /// The empty map.
    pub fn new() -> (r: SyncMap)
        ensures
            r@.len() == 0,
            ordered(r@),
    {
        SyncMap { entries: Vec::new() }
    }

    /// The number of entries.
    pub fn len(&self) -> (n: usize)
        ensures
            n == self@.len(),
    {
        self.entries.len()
    }

    /// The entry at a given place in the order of the keys.
    pub fn entry(&self, i: usize) -> (e: &SyncEntry)
        requires
            i < self@.len(),
        ensures
            *e == self@[i as int],
    {
        &self.entries[i]
    }

    /// The message under a key, if the map has the key.
    pub fn get(&self, lf_id: usize, act_kind: TraceActionKind) -> (r: Option<
        &MessageTypeExpression,
    >)
        ensures
            match r {
                Some(m) => lookup(self@, lf_id, act_kind) == Some(*m),
                None => lookup(self@, lf_id, act_kind) is None,
            },
    {
        let mut i: usize = 0;
        proof {
            assert(self.entries@.take(0) =~= Seq::<SyncEntry>::empty());
        }
        while i < self.entries.len()
            invariant
                i <= self.entries.len(),
                lookup(self.entries@.take(i as int), lf_id, act_kind) is None,
            decreases self.entries.len() - i,
        {
            proof {
                assert(self.entries@.take(i + 1).drop_last() =~= self.entries@.take(i as int));
                assert(self.entries@.take(i + 1).last() == self.entries@[i as int]);
            }
            if self.entries[i].lf_id == lf_id && self.entries[i].act_kind == act_kind {
                proof {
                    lemma_lookup_prefix(self.entries@, i + 1, lf_id, act_kind);
                }
                return Some(&self.entries[i].message);
            }
            i += 1;
        }
        proof {
            assert(self.entries@.take(self.entries.len() as int) =~= self.entries@);
        }
        None
    }

    /// Puts a message under a key, in place of the one that was there.
    pub fn insert(&mut self, lf_id: usize, act_kind: TraceActionKind, message: MessageTypeExpression)
        ensures
            final(self)@ == entries_with(old(self)@, SyncEntry { lf_id, act_kind, message }),
            lookup(final(self)@, lf_id, act_kind) == Some(message),
            forall|lf: usize, kind: TraceActionKind|
                !same_key(lf_id, act_kind, lf, kind) ==> #[trigger] lookup(final(self)@, lf, kind)
                    == lookup(old(self)@, lf, kind),
            ordered(old(self)@) ==> ordered(final(self)@),
    {
        let e = SyncEntry { lf_id, act_kind, message };
        proof {
            lemma_lookup_entries_with(self@, e, lf_id, act_kind);
            assert forall|lf: usize, kind: TraceActionKind|
                !same_key(lf_id, act_kind, lf, kind) implies #[trigger] lookup(
                entries_with(self@, e),
                lf,
                kind,
            ) == lookup(self@, lf, kind) by {
                lemma_lookup_entries_with(self@, e, lf, kind);
            }
            if ordered(self@) {
                lemma_entries_with_ordered(self@, e);
            }
        }
        let ghost orig = self.entries@;
        let mut out: Vec<SyncEntry> = Vec::new();
        let n = self.entries.len();
        let mut i: usize = 0;
        proof {
            assert(orig.take(0) =~= Seq::<SyncEntry>::empty());
        }
        while i < n
            invariant
                i <= n,
                n == orig.len(),
                self.entries@ == orig,
                e.lf_id == lf_id,
                e.act_kind == act_kind,
                out@ == entries_before(orig.take(i as int), e),
            decreases n - i,
        {
            proof {
                assert(orig.take(i + 1).drop_last() =~= orig.take(i as int));
                assert(orig.take(i + 1).last() == orig[i as int]);
            }
            let cur = &self.entries[i];
            if (cur.act_kind == TraceActionKind::Emission && act_kind
                == TraceActionKind::Reception) || (cur.act_kind == act_kind && cur.lf_id < lf_id) {
                out.push(cur.clone());
            }
            i += 1;
        }
        proof {
            assert(orig.take(n as int) =~= orig);
        }
        out.push(e.clone());
        let ghost head = out@;
        i = 0;
        while i < n
            invariant
                i <= n,
                n == orig.len(),
                self.entries@ == orig,
                e.lf_id == lf_id,
                e.act_kind == act_kind,
                out@ == head + entries_after(orig.take(i as int), e),
            decreases n - i,
        {
            proof {
                assert(orig.take(i + 1).drop_last() =~= orig.take(i as int));
                assert(orig.take(i + 1).last() == orig[i as int]);
            }
            let cur = &self.entries[i];
            if (act_kind == TraceActionKind::Emission && cur.act_kind
                == TraceActionKind::Reception) || (cur.act_kind == act_kind && lf_id < cur.lf_id) {
                out.push(cur.clone());
                proof {
                    assert(head + entries_after(orig.take(i as int), e).push(orig[i as int])
                        =~= (head + entries_after(orig.take(i as int), e)).push(orig[i as int]));
                }
            }
            i += 1;
        }
        proof {
            assert(orig.take(n as int) =~= orig);
        }
        self.entries = out;
    }

    /// Whether two maps hold the same entries.
    pub fn same_as(&self, other: &SyncMap) -> (r: bool)
        ensures
            r == (self@ == other@),
    {
        if self.entries.len() != other.entries.len() {
            return false;
        }
        let mut i: usize = 0;
        while i < self.entries.len()
            invariant
                i <= self.entries.len(),
                self.entries.len() == other.entries.len(),
                forall|j: int| 0 <= j < i ==> self.entries@[j] == other.entries@[j],
            decreases self.entries.len() - i,
        {
            if !(self.entries[i] == other.entries[i]) {
                return false;
            }
            i += 1;
        }
        proof {
            assert(self.entries@ =~= other.entries@);
        }
        true
    }
}

} // verus!
