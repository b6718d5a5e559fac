//! The bounded combat event log.
//!
//! Every damage or heal the interpreter applies, and every skill use, is
//! appended here for the UI to read.  The log keeps at most
//! `LOG_CAPACITY` entries; writing beyond that drops the oldest one.

use vstd::prelude::*;

verus! {

pub const LOG_CAPACITY: usize = 100;

/// One observable combat event.
#[derive(Clone, PartialEq, Eq, Debug)]
pub enum LogEntry {
    /// A caster announced a skill.
    SkillUse { caster: u64, hostile: bool, skill_name: String },
    /// A target took damage.
    DamageDone { target: u64, hostile: bool, amount: u32, crit: bool },
    /// A target was healed.
    Healed { target: u64, amount: u32 },
}

/// What the log holds after appending `e`: the oldest entries are
/// dropped so that at most `LOG_CAPACITY` entries remain.
pub open spec fn after_write(s: Seq<LogEntry>, e: LogEntry) -> Seq<LogEntry> {
    if s.len() < LOG_CAPACITY {
        s.push(e)
    } else {
        s.skip(s.len() - (LOG_CAPACITY - 1)).push(e)
    }
}

/// The log contents after a sequence of appends, each dropping the
/// oldest entry beyond capacity.
pub open spec fn spec_log_writes(l: Seq<LogEntry>, es: Seq<LogEntry>, n: int) -> Seq<LogEntry>
    decreases n,
{
    if n <= 0 {
        l
    } else {
        after_write(spec_log_writes(l, es, n - 1), es[n - 1])
    }
}

/// Whether `l2` can be reached from `l1` by appending zero or more
/// entries: what any sequence of log writes leaves behind.
pub open spec fn spec_log_extends(l1: Seq<LogEntry>, l2: Seq<LogEntry>) -> bool {
    exists|es: Seq<LogEntry>| l2 == spec_log_writes(l1, es, es.len() as int)
}

/// The extension relation is reflexive.
pub proof fn lemma_log_extends_refl(l: Seq<LogEntry>)
    ensures
        spec_log_extends(l, l),
{
    let es = Seq::<LogEntry>::empty();
    assert(l == spec_log_writes(l, es, es.len() as int));
}

/// One more append stays within the extension relation.
pub proof fn lemma_log_extends_write(l1: Seq<LogEntry>, l2: Seq<LogEntry>, e: LogEntry)
    ensures
        spec_log_extends(l1, l1),
        spec_log_extends(l1, after_write(l1, e)),
        spec_log_extends(l1, l2) ==> spec_log_extends(l1, after_write(l2, e)),
{
    lemma_log_extends_refl(l1);
    reveal_with_fuel(spec_log_writes, 2);
    let es1 = seq![e];
    assert(es1[0] == e);
    assert(es1.len() == 1);
    assert(after_write(l1, e) == spec_log_writes(l1, es1, es1.len() as int));
    if spec_log_extends(l1, l2) {
        let es = choose|es: Seq<LogEntry>| l2 == spec_log_writes(l1, es, es.len() as int);
        let es2 = es.push(e);
        assert(spec_log_writes(l1, es2, es2.len() as int - 1) == spec_log_writes(
            l1,
            es,
            es.len() as int,
        )) by {
            lemma_log_writes_prefix(l1, es, es2, es.len() as int);
        }
        assert(es2[es2.len() - 1] == e);
        assert(after_write(l2, e) == spec_log_writes(l1, es2, es2.len() as int));
    }
}

/// Writing from a common prefix of entries gives the same log.
proof fn lemma_log_writes_prefix(l: Seq<LogEntry>, es1: Seq<LogEntry>, es2: Seq<LogEntry>, n: int)
    requires
        0 <= n <= es1.len(),
        n <= es2.len(),
        forall|i: int| 0 <= i < n ==> es1[i] == es2[i],
    ensures
        spec_log_writes(l, es1, n) == spec_log_writes(l, es2, n),
    decreases n,
{
    if n > 0 {
        lemma_log_writes_prefix(l, es1, es2, n - 1);
    }
}

/// A log known to be one append away extends the original.
pub proof fn lemma_log_extends_some_write(l1: Seq<LogEntry>, l2: Seq<LogEntry>)
    requires
        exists|e: LogEntry| #[trigger] after_write(l1, e) == l2,
    ensures
        spec_log_extends(l1, l2),
{
    let e = choose|e: LogEntry| #[trigger] after_write(l1, e) == l2;
    lemma_log_extends_write(l1, l1, e);
}

/// The extension relation is transitive.
pub proof fn lemma_log_extends_trans(l1: Seq<LogEntry>, l2: Seq<LogEntry>, l3: Seq<LogEntry>)
    requires
        spec_log_extends(l1, l2),
        spec_log_extends(l2, l3),
    ensures
        spec_log_extends(l1, l3),
{
    let es12 = choose|es: Seq<LogEntry>| l2 == spec_log_writes(l1, es, es.len() as int);
    let es23 = choose|es: Seq<LogEntry>| l3 == spec_log_writes(l2, es, es.len() as int);
    let es = es12 + es23;
    assert forall|k: int| 0 <= k <= es23.len() implies spec_log_writes(l2, es23, k)
        == spec_log_writes(l1, es, es12.len() + k) by {
        lemma_log_writes_concat(l1, l2, es12, es23, es, k);
    }
    assert(l3 == spec_log_writes(l1, es, es.len() as int));
}

/// Step lemma for concatenated write sequences.
proof fn lemma_log_writes_concat(
    l1: Seq<LogEntry>,
    l2: Seq<LogEntry>,
    es12: Seq<LogEntry>,
    es23: Seq<LogEntry>,
    es: Seq<LogEntry>,
    k: int,
)
    requires
        l2 == spec_log_writes(l1, es12, es12.len() as int),
        es == es12 + es23,
        0 <= k <= es23.len(),
    ensures
        spec_log_writes(l2, es23, k) == spec_log_writes(l1, es, es12.len() + k),
    decreases k,
{
    if k == 0 {
        lemma_log_writes_prefix(l1, es12, es, es12.len() as int);
    } else {
        lemma_log_writes_concat(l1, l2, es12, es23, es, k - 1);
        assert(es[es12.len() + k - 1] == es23[k - 1]);
    }
}

/// The append-only, bounded event log.
pub struct Log {
    lines: Vec<LogEntry>,
}

impl View for Log {
    type V = Seq<LogEntry>;

    closed spec fn view(&self) -> Seq<LogEntry> {
        self.lines@
    }
}

impl Log {
    pub fn new() -> (r: Log)
        ensures
            r@ == Seq::<LogEntry>::empty(),
    {
        Log { lines: Vec::new() }
    }

    /// Append one entry, dropping the oldest beyond capacity.
    pub fn write(&mut self, e: LogEntry)
        ensures
            final(self)@ == after_write(old(self)@, e),
            final(self)@.len() <= LOG_CAPACITY,
    {
        proof {
            assert(self.lines@.skip(0) =~= self.lines@);
        }
        while self.lines.len() >= LOG_CAPACITY
            invariant
                self.lines@ == old(self)@.skip(old(self)@.len() - self.lines@.len()),
                self.lines@.len() <= old(self)@.len(),
                old(self)@.len() >= LOG_CAPACITY ==> self.lines@.len() >= LOG_CAPACITY - 1,
                old(self)@.len() < LOG_CAPACITY ==> self.lines@.len() == old(self)@.len(),
            decreases self.lines@.len(),
        {
            self.lines.remove(0);
            proof {
                assert(self.lines@ =~= old(self)@.skip(
                    old(self)@.len() - self.lines@.len(),
                ));
            }
        }
        self.lines.push(e);
        proof {
            assert(self@ =~= after_write(old(self)@, e));
        }
    }

    /// A read-only view of the retained entries, oldest first.
    pub fn get_lines(&self) -> (r: &Vec<LogEntry>)
        ensures
            r@ == self@,
    {
        &self.lines
    }
}

} // verus!
