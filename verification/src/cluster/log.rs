//! The replicated log: its entries, what makes it well formed, and how a
//! follower takes in the entries of a leader.

use vstd::prelude::*;

verus! {

/// One replicated log record: the term in which a leader created it, its
/// position in the log (counted from 1) and the opaque command it carries.
#[derive(Debug)]
pub struct LogEntry {
    pub term: u64,
    pub index: u64,
    pub command: Vec<u8>,
}

/// The mathematical value of a [`LogEntry`].
pub struct EntryView {
    pub term: u64,
    pub index: u64,
    pub command: Seq<u8>,
}

impl View for LogEntry {
    type V = EntryView;

    open spec fn view(&self) -> EntryView {
        EntryView { term: self.term, index: self.index, command: self.command@ }
    }
}

impl Clone for LogEntry {
    fn clone(&self) -> (copy: Self)
        ensures
            copy@ == self@,
    {
        let command = self.command.clone();
        assert(command@ =~= self.command@);
        LogEntry { term: self.term, index: self.index, command }
    }
}

/// The mathematical value of a stored log.
pub open spec fn log_view(log: Seq<LogEntry>) -> Seq<EntryView> {
    log.map_values(|e: LogEntry| e@)
}

/// Every entry sits at the position its index names: no gap, no repeat.
pub open spec fn gap_free(log: Seq<EntryView>) -> bool {
    forall|i: int| 0 <= i < log.len() ==> (#[trigger] log[i]).index == i + 1
}

/// Terms never decrease along the log.
pub open spec fn terms_sorted(log: Seq<EntryView>) -> bool {
    forall|i: int, j: int| 0 <= i <= j < log.len() ==> (#[trigger] log[i]).term <= (#[trigger] log[j]).term
}

/// No entry was created in a term later than `term`.
pub open spec fn terms_bounded(log: Seq<EntryView>, term: u64) -> bool {
    forall|i: int| 0 <= i < log.len() ==> (#[trigger] log[i]).term <= term
}

/// The term of the entry at one-based position `index`; 0 stands for the
/// position before the first entry and for positions the log does not hold.
pub open spec fn term_at(log: Seq<EntryView>, index: int) -> u64 {
    if 1 <= index <= log.len() {
        log[index - 1].term
    } else {
        0
    }
}

/// The term of the last entry, 0 for an empty log.
pub open spec fn last_term(log: Seq<EntryView>) -> u64 {
    term_at(log, log.len() as int)
}

/// Whether a log that ends in `(last_log_term, last_log_index)` is at least
/// as up to date as `log`: a later last term wins, equal terms compare by
/// length.
pub open spec fn up_to_date(last_log_term: u64, last_log_index: u64, log: Seq<EntryView>) -> bool {
    last_log_term > last_term(log) || (last_log_term == last_term(log) && last_log_index >= log.len())
}

/// Whether `entries` can follow position `prev_index` of a log whose entry
/// there has term `prev_term`, in a message sent in `term`: consecutive
/// indices, terms that never decrease and never exceed the sender's.
pub open spec fn batch_well_formed(
    prev_index: u64,
    prev_term: u64,
    term: u64,
    entries: Seq<EntryView>,
) -> bool {
    &&& prev_index + entries.len() < u64::MAX
    &&& prev_term <= term
    &&& forall|k: int| 0 <= k < entries.len() ==> (#[trigger] entries[k]).index == prev_index + k + 1
    &&& forall|k: int| 0 <= k < entries.len() ==> prev_term <= (#[trigger] entries[k]).term <= term
    &&& terms_sorted(entries)
}

/// Whether the log already holds, at the position `entries[k]` is meant for,
/// an entry of the same term.
pub open spec fn agrees_at(log: Seq<EntryView>, prev_index: int, entries: Seq<EntryView>, k: int) -> bool {
    0 <= k < entries.len() && 0 <= prev_index + k < log.len() && log[prev_index + k].term
        == entries[k].term
}

/// The first position of `entries`, at or after `from`, that the log does not
/// agree with; `entries.len()` when there is none.
pub open spec fn divergence(log: Seq<EntryView>, prev_index: int, entries: Seq<EntryView>, from: int) -> int
    decreases entries.len() - from,
{
    if 0 <= from < entries.len() && agrees_at(log, prev_index, entries, from) {
        divergence(log, prev_index, entries, from + 1)
    } else {
        from
    }
}

/// The log after a follower has taken in `entries` behind `prev_index`:
/// unchanged where it already agrees with all of them, otherwise cut at the
/// first disagreement and continued with the sender's entries.
pub open spec fn merged(log: Seq<EntryView>, prev_index: int, entries: Seq<EntryView>) -> Seq<EntryView> {
    let a = divergence(log, prev_index, entries, 0);
    if a >= entries.len() {
        log
    } else {
        log.take(prev_index + a) + entries.skip(a)
    }
}

/// Two logs that hold an entry of the same term at the same position hold
/// the same entries up to and including that position.
pub open spec fn logs_match(a: Seq<EntryView>, b: Seq<EntryView>) -> bool {
    forall|i: int|
        0 <= i < a.len() && i < b.len() && (#[trigger] a[i]).term == (#[trigger] b[i]).term ==> a.take(i + 1)
            == b.take(i + 1)
}

/// The smallest number of nodes that is a strict majority of `n`.
pub open spec fn quorum(n: nat) -> nat {
    n / 2 + 1
}

pub proof fn lemma_divergence_bounds(log: Seq<EntryView>, prev_index: int, entries: Seq<EntryView>, from: int)
    requires
        0 <= from <= entries.len(),
    ensures
        from <= divergence(log, prev_index, entries, from) <= entries.len(),
        forall|k: int|
            from <= k < divergence(log, prev_index, entries, from) ==> agrees_at(log, prev_index, entries, k),
        divergence(log, prev_index, entries, from) < entries.len() ==> !agrees_at(
            log,
            prev_index,
            entries,
            divergence(log, prev_index, entries, from),
        ),
    decreases entries.len() - from,
{
    if from < entries.len() && agrees_at(log, prev_index, entries, from) {
        lemma_divergence_bounds(log, prev_index, entries, from + 1);
    }
}

/// Taking in a well-formed batch keeps a log without gaps free of gaps, and
/// keeps its terms in order where they were.
pub proof fn lemma_merged_well_formed(
    log: Seq<EntryView>,
    prev_index: u64,
    prev_term: u64,
    term: u64,
    entries: Seq<EntryView>,
)
    requires
        gap_free(log),
        prev_index <= log.len(),
        term_at(log, prev_index as int) == prev_term,
        batch_well_formed(prev_index, prev_term, term, entries),
    ensures
        gap_free(merged(log, prev_index as int, entries)),
        terms_sorted(log) && terms_bounded(log, term) ==> terms_sorted(merged(log, prev_index as int, entries))
            && terms_bounded(merged(log, prev_index as int, entries), term),
        merged(log, prev_index as int, entries).len() >= prev_index + entries.len(),
        forall|k: int|
            0 <= k < entries.len() ==> (#[trigger] merged(log, prev_index as int, entries)[prev_index + k]).term
                == entries[k].term,
        merged(log, prev_index as int, entries).take(prev_index as int) == log.take(prev_index as int),
{
    let p = prev_index as int;
    let a = divergence(log, p, entries, 0);
    lemma_divergence_bounds(log, p, entries, 0);
    let m = merged(log, p, entries);
    if a >= entries.len() {
        assert forall|k: int| 0 <= k < entries.len() implies (#[trigger] m[p + k]).term == entries[k].term by {
            assert(agrees_at(log, p, entries, k));
        }
        if entries.len() > 0 {
            assert(agrees_at(log, p, entries, entries.len() - 1));
        }
    } else {
        let head = log.take(p + a);
        let tail = entries.skip(a);
        if a > 0 {
            assert(agrees_at(log, p, entries, a - 1));
        }
        assert(p + a <= log.len());
        assert forall|i: int| 0 <= i < m.len() implies (#[trigger] m[i]).index == i + 1 by {
            if i < p + a {
                assert(m[i] == log[i]);
            } else {
                assert(m[i] == entries[i - p]);
            }
        }
        if terms_sorted(log) && terms_bounded(log, term) {
            lemma_merged_in_order(log, prev_index, prev_term, term, entries);
        }
        assert forall|k: int| 0 <= k < entries.len() implies (#[trigger] m[p + k]).term == entries[k].term by {
            if k < a {
                assert(agrees_at(log, p, entries, k));
                assert(m[p + k] == log[p + k]);
            } else {
                assert(m[p + k] == entries[k]);
            }
        }
        assert(m.take(p) =~= log.take(p));
    }
}

/// Taking in a well-formed batch keeps the terms of a log in order.
proof fn lemma_merged_in_order(log: Seq<EntryView>, prev_index: u64, prev_term: u64, term: u64, entries: Seq<EntryView>)
    requires
        gap_free(log),
        terms_sorted(log),
        terms_bounded(log, term),
        prev_index <= log.len(),
        term_at(log, prev_index as int) == prev_term,
        batch_well_formed(prev_index, prev_term, term, entries),
        divergence(log, prev_index as int, entries, 0) < entries.len(),
    ensures
        terms_sorted(merged(log, prev_index as int, entries)),
        terms_bounded(merged(log, prev_index as int, entries), term),
{
    let p = prev_index as int;
    let a = divergence(log, p, entries, 0);
    lemma_divergence_bounds(log, p, entries, 0);
    let m = merged(log, p, entries);
    if a > 0 {
        assert(agrees_at(log, p, entries, a - 1));
    }
    assert forall|i: int| 0 <= i < m.len() implies (#[trigger] m[i]).term <= term by {
        if i < p + a {
            assert(m[i] == log[i]);
        } else {
            assert(m[i] == entries[i - p]);
        }
    }
    assert forall|i: int, j: int| 0 <= i <= j < m.len() implies (#[trigger] m[i]).term <= (#[trigger] m[j]).term by {
            if j < p + a {
                assert(m[i] == log[i] && m[j] == log[j]);
            } else if i >= p + a {
                assert(m[i] == entries[i - p] && m[j] == entries[j - p]);
            } else {
                assert(m[i] == log[i] && m[j] == entries[j - p]);
                if p >= 1 {
                    assert(log[i].term <= entries[j - p].term) by {
                        if i < p {
                            assert(log[i].term <= log[p - 1].term);
                        } else {
                            assert(agrees_at(log, p, entries, i - p));
                            assert(entries[i - p].term <= entries[j - p].term);
                        }
                    }
                } else {
                    assert(agrees_at(log, p, entries, i - p));
                    assert(entries[i - p].term <= entries[j - p].term);
                }
            }
    }
}

} // verus!
