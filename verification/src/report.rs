//! The conversion report: warnings in the order they were raised and counters.
use vstd::prelude::*;

verus! {

/// What a conversion did: warnings and counters.
#[derive(Debug, Clone, PartialEq, Eq)]
pub struct Report {
    pub warnings: Vec<String>,
    pub region_files: u64,
    pub chunks_rewritten: u64,
    pub blocks_replaced: u64,
    pub items_converted: u64,
    pub dropped_data: u64,
    pub chunks_skipped: u64,
    pub block_entities_added: u64,
}

/// The warnings of a report as texts.
pub open spec fn warnings_of(r: Report) -> Seq<Seq<char>> {
    Seq::new(r.warnings@.len(), |i: int| r.warnings@[i]@)
}

/// The part of a report that the NBT rewriting rules change: warnings, dropped data and
/// converted item stacks.
pub struct Tally {
    pub warnings: Seq<Seq<char>>,
    pub dropped: nat,
    pub items: nat,
}

/// The tally of a report.
pub open spec fn tally(r: Report) -> Tally {
    Tally { warnings: warnings_of(r), dropped: r.dropped_data as nat, items: r.items_converted as nat }
}

/// The counters that the NBT rewriting rules never touch are equal.
pub open spec fn same_other_counters(a: Report, b: Report) -> bool {
    &&& a.region_files == b.region_files
    &&& a.chunks_rewritten == b.chunks_rewritten
    &&& a.blocks_replaced == b.blocks_replaced
    &&& a.chunks_skipped == b.chunks_skipped
    &&& a.block_entities_added == b.block_entities_added
}

/// The tally fits the report's counters.
pub open spec fn fits(t: Tally) -> bool {
    t.dropped <= u64::MAX && t.items <= u64::MAX
}

/// `b` is `a` with its tally replaced by `t`.
pub open spec fn tallied(a: Report, b: Report, t: Tally) -> bool {
    tally(b) == t && same_other_counters(a, b)
}

/// A tally with one more warning.
pub open spec fn tw(t: Tally, msg: Seq<char>) -> Tally {
    Tally { warnings: t.warnings.push(msg), ..t }
}

/// A tally with one more dropped datum and its warning.
pub open spec fn td(t: Tally, msg: Seq<char>) -> Tally {
    Tally { warnings: t.warnings.push(msg), dropped: t.dropped + 1, ..t }
}

/// A tally with one more converted item stack.
pub open spec fn ti(t: Tally) -> Tally {
    Tally { items: t.items + 1, ..t }
}

/// The first occurrence of every warning, in order.
pub open spec fn dedup(s: Seq<Seq<char>>) -> Seq<Seq<char>>
    decreases s.len(),
{
    if s.len() == 0 {
        s
    } else {
        let p = dedup(s.drop_last());
        if p.contains(s.last()) {
            p
        } else {
            p.push(s.last())
        }
    }
}

impl Default for Report {
    fn default() -> (r: Self)
        ensures
            r.warnings@.len() == 0,
            r.region_files == 0,
            r.chunks_rewritten == 0,
            r.blocks_replaced == 0,
            r.items_converted == 0,
            r.dropped_data == 0,
            r.chunks_skipped == 0,
            r.block_entities_added == 0,
    {
        Report {
            warnings: Vec::new(),
            region_files: 0,
            chunks_rewritten: 0,
            blocks_replaced: 0,
            items_converted: 0,
            dropped_data: 0,
            chunks_skipped: 0,
            block_entities_added: 0,
        }
    }
}

impl Report {
    /// Records a warning.
    pub fn warn(&mut self, message: String)
        ensures
            warnings_of(*final(self)) == warnings_of(*old(self)).push(message@),
            final(self).items_converted == old(self).items_converted,
            final(self).dropped_data == old(self).dropped_data,
            same_other_counters(*old(self), *final(self)),
    {
        self.warnings.push(message);
        assert(warnings_of(*self) =~= warnings_of(*old(self)).push(message@));
    }

    /// Records a dropped datum with its warning.
    pub(crate) fn drop_with_warning(&mut self, message: String)
        requires
            old(self).dropped_data < u64::MAX,
        ensures
            tallied(*old(self), *final(self), td(tally(*old(self)), message@)),
    {
        self.dropped_data = self.dropped_data + 1;
        self.warn(message);
    }

    /// Counts one converted item stack.
    pub(crate) fn count_item(&mut self)
        requires
            old(self).items_converted < u64::MAX,
        ensures
            tallied(*old(self), *final(self), ti(tally(*old(self)))),
    {
        self.items_converted = self.items_converted + 1;
        assert(warnings_of(*self) =~= warnings_of(*old(self)));
    }

    /// Adds the warnings and counters of `other` to this report.
    pub fn merge(&mut self, other: Report)
        requires
            old(self).region_files + other.region_files <= u64::MAX,
            old(self).chunks_rewritten + other.chunks_rewritten <= u64::MAX,
            old(self).blocks_replaced + other.blocks_replaced <= u64::MAX,
            old(self).items_converted + other.items_converted <= u64::MAX,
            old(self).dropped_data + other.dropped_data <= u64::MAX,
            old(self).chunks_skipped + other.chunks_skipped <= u64::MAX,
            old(self).block_entities_added + other.block_entities_added <= u64::MAX,
        ensures
            warnings_of(*final(self)) == warnings_of(*old(self)) + warnings_of(other),
            final(self).region_files == old(self).region_files + other.region_files,
            final(self).chunks_rewritten == old(self).chunks_rewritten + other.chunks_rewritten,
            final(self).blocks_replaced == old(self).blocks_replaced + other.blocks_replaced,
            final(self).items_converted == old(self).items_converted + other.items_converted,
            final(self).dropped_data == old(self).dropped_data + other.dropped_data,
            final(self).chunks_skipped == old(self).chunks_skipped + other.chunks_skipped,
            final(self).block_entities_added == old(self).block_entities_added
                + other.block_entities_added,
    {
        let ghost given = other;
        let mut other = other;
        self.warnings.append(&mut other.warnings);
        self.region_files = self.region_files + other.region_files;
        self.chunks_rewritten = self.chunks_rewritten + other.chunks_rewritten;
        self.blocks_replaced = self.blocks_replaced + other.blocks_replaced;
        self.items_converted = self.items_converted + other.items_converted;
        self.dropped_data = self.dropped_data + other.dropped_data;
        self.chunks_skipped = self.chunks_skipped + other.chunks_skipped;
        self.block_entities_added = self.block_entities_added + other.block_entities_added;
        assert(warnings_of(*self) =~= warnings_of(*old(self)) + warnings_of(given));
    }

    /// Keeps only the first occurrence of every warning, in order.
    pub fn dedup_warnings(&mut self)
        ensures
            warnings_of(*final(self)) == dedup(warnings_of(*old(self))),
            final(self).items_converted == old(self).items_converted,
            final(self).dropped_data == old(self).dropped_data,
            same_other_counters(*old(self), *final(self)),
    {
        let ghost all = warnings_of(*self);
        let mut kept: Vec<String> = Vec::new();
        let n = self.warnings.len();
        let mut i: usize = 0;
        while i < n
            invariant
                n == self.warnings@.len(),
                i <= n,
                all == warnings_of(*self),
                Seq::new(kept@.len(), |j: int| kept@[j]@) == dedup(all.take(i as int)),
            decreases n - i,
        {
            let w = &self.warnings[i];
            let mut seen = false;
            let mut j: usize = 0;
            while j < kept.len()
                invariant
                    j <= kept@.len(),
                    !seen ==> forall|m: int| 0 <= m < j ==> kept@[m]@ != w@,
                    seen ==> exists|m: int| 0 <= m < kept@.len() && kept@[m]@ == w@,
                decreases kept@.len() - j,
            {
                if kept[j] == *w {
                    seen = true;
                }
                j = j + 1;
            }
            let ghost p = Seq::new(kept@.len(), |m: int| kept@[m]@);
            assert(all.take(i + 1).drop_last() =~= all.take(i as int));
            assert(all.take(i + 1).last() == w@);
            if seen {
                proof {
                    let m = choose|m: int| 0 <= m < kept@.len() && kept@[m]@ == w@;
                    assert(p[m] == w@);
                }
            } else {
                assert(!p.contains(w@)) by {
                    if p.contains(w@) {
                        let m = choose|m: int| 0 <= m < p.len() && p[m] == w@;
                        assert(kept@[m]@ == w@);
                    }
                }
                kept.push(w.clone());
                assert(Seq::new(kept@.len(), |m: int| kept@[m]@) =~= p.push(w@));
            }
            i = i + 1;
        }
        assert(all.take(n as int) =~= all);
        self.warnings = kept;
    }
}

/// Every warning kept once: the deduplicated list holds no repeats.
pub proof fn lemma_dedup_no_repeats(s: Seq<Seq<char>>)
    ensures
        forall|i: int, j: int|
            0 <= i < j < dedup(s).len() ==> #[trigger] dedup(s)[i] != #[trigger] dedup(s)[j],
    decreases s.len(),
{
    if s.len() > 0 {
        lemma_dedup_no_repeats(s.drop_last());
        let p = dedup(s.drop_last());
        if !p.contains(s.last()) {
            assert forall|i: int, j: int|
                0 <= i < j < dedup(s).len() implies #[trigger] dedup(s)[i] != #[trigger] dedup(
                s,
            )[j] by {
                if j == p.len() {
                    assert(p[i] == dedup(s)[i]);
                    if p[i] == s.last() {
                        assert(p.contains(s.last()));
                    }
                }
            }
        }
    }
}

/// Deduplication loses no warning text and adds none.
pub proof fn lemma_dedup_same_texts(s: Seq<Seq<char>>)
    ensures
        forall|w: Seq<char>| dedup(s).contains(w) <==> s.contains(w),
    decreases s.len(),
{
    if s.len() > 0 {
        lemma_dedup_same_texts(s.drop_last());
        let d = s.drop_last();
        assert forall|w: Seq<char>| dedup(s).contains(w) <==> s.contains(w) by {
            if s.contains(w) && w != s.last() {
                let i = choose|i: int| 0 <= i < s.len() && s[i] == w;
                assert(d[i] == w);
            }
            if d.contains(w) {
                let i = choose|i: int| 0 <= i < d.len() && d[i] == w;
                assert(s[i] == w);
            }
            if w == s.last() {
                assert(s[s.len() - 1] == w);
            }
            let p = dedup(d);
            if !p.contains(s.last()) {
                if p.push(s.last()).contains(w) {
                    let i = choose|i: int| 0 <= i < p.len() + 1 && p.push(s.last())[i] == w;
                    if i < p.len() {
                        assert(p[i] == w);
                    }
                }
                if p.contains(w) {
                    let i = choose|i: int| 0 <= i < p.len() && p[i] == w;
                    assert(p.push(s.last())[i] == w);
                }
                assert(p.push(s.last())[p.len() as int] == s.last());
            }
        }
    }
}

/// Deduplicating twice is the same as deduplicating once.
pub proof fn lemma_dedup_idempotent(s: Seq<Seq<char>>)
    ensures
        dedup(dedup(s)) == dedup(s),
{
    lemma_dedup_no_repeats(s);
    lemma_dedup_of_distinct(dedup(s));
}

/// A list without repeats is its own deduplication.
pub proof fn lemma_dedup_of_distinct(s: Seq<Seq<char>>)
    requires
        forall|i: int, j: int| 0 <= i < j < s.len() ==> #[trigger] s[i] != #[trigger] s[j],
    ensures
        dedup(s) == s,
    decreases s.len(),
{
    if s.len() > 0 {
        let d = s.drop_last();
        lemma_dedup_of_distinct(d);
        lemma_dedup_same_texts(d);
        if d.contains(s.last()) {
            let i = choose|i: int| 0 <= i < d.len() && d[i] == s.last();
            assert(s[i] == s[s.len() - 1]);
        }
        assert(d.push(s.last()) =~= s);
    }
}

} // verus!
