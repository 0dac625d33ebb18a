//! Placement of logical operators onto nodes, and the chaos settings that go
//! with each placed actor.
use vstd::prelude::*;
use crate::addr_map::{AddrMap, keys_distinct, entries_map, has_key, lemma_entry_value};
use crate::sorted_map::{SortedMap, sorted};
use crate::chaos::Probability;
use crate::text::{decimal_string, spec_decimal};

verus! {

/// A duplication factor; at least 1.
#[derive(Debug, Clone, Copy, PartialEq, Eq, Structural)]
pub struct Factor(pub i32);

/// A factor below 1 was given.
#[derive(Debug, Clone, Copy, PartialEq, Eq, Structural)]
pub struct InvalidFactor(pub i32);

impl Factor {
    /// Accepts factors of at least 1.
    pub fn new(v: i32) -> (r: Result<Factor, InvalidFactor>)
        ensures
            v >= 1 ==> r == Ok::<Factor, InvalidFactor>(Factor(v)),
            v < 1 ==> r == Err::<Factor, InvalidFactor>(InvalidFactor(v)),
    {
        if v >= 1 {
            Ok(Factor(v))
        } else {
            Err(InvalidFactor(v))
        }
    }
}

/// A node of the cluster.
#[derive(Debug, Clone)]
pub struct NodeInfo {
    pub name: String,
    pub hostname: String,
    pub port: u16,
}

/// Total of the counts.
pub open spec fn spec_sum(s: Seq<(String, u32)>) -> nat
    decreases s.len(),
{
    if s.len() == 0 {
        0
    } else {
        spec_sum(s.drop_last()) + s.last().1 as nat
    }
}

/// Every host repeated as many times as its count, in entry order.
pub open spec fn spec_expand(s: Seq<(String, u32)>) -> Seq<Seq<char>>
    decreases s.len(),
{
    if s.len() == 0 {
        Seq::empty()
    } else {
        spec_expand(s.drop_last()) + Seq::new(s.last().1 as nat, |i: int| s.last().0@)
    }
}

/// A host appears as often as its count says, and the slots add up.
pub proof fn lemma_expand_len(s: Seq<(String, u32)>)
    ensures
        spec_expand(s).len() == spec_sum(s),
    decreases s.len(),
{
    if s.len() > 0 {
        lemma_expand_len(s.drop_last());
    }
}

/// How often `x` occurs in `s`.
pub open spec fn occurrences(s: Seq<Seq<char>>, x: Seq<char>) -> nat
    decreases s.len(),
{
    if s.len() == 0 {
        0
    } else {
        occurrences(s.drop_last(), x) + if s.last() == x {
            1nat
        } else {
            0nat
        }
    }
}

/// The counts of the entries for host `x`, added up.
pub open spec fn spec_count_of(s: Seq<(String, u32)>, x: Seq<char>) -> nat
    decreases s.len(),
{
    if s.len() == 0 {
        0
    } else {
        spec_count_of(s.drop_last(), x) + if s.last().0@ == x {
            s.last().1 as nat
        } else {
            0nat
        }
    }
}

proof fn lemma_occurrences_concat(a: Seq<Seq<char>>, b: Seq<Seq<char>>, x: Seq<char>)
    ensures
        occurrences(a + b, x) == occurrences(a, x) + occurrences(b, x),
    decreases b.len(),
{
    if b.len() == 0 {
        assert(a + b =~= a);
    } else {
        lemma_occurrences_concat(a, b.drop_last(), x);
        assert((a + b).drop_last() =~= a + b.drop_last());
    }
}

proof fn lemma_occurrences_repeat(c: nat, h: Seq<char>, x: Seq<char>)
    ensures
        occurrences(Seq::new(c, |i: int| h), x) == if h == x {
            c
        } else {
            0
        },
    decreases c,
{
    if c > 0 {
        lemma_occurrences_repeat((c - 1) as nat, h, x);
        assert(Seq::new(c, |i: int| h).drop_last() =~= Seq::new((c - 1) as nat, |i: int| h));
    }
}

proof fn lemma_expand_occurrences(s: Seq<(String, u32)>, x: Seq<char>)
    ensures
        occurrences(spec_expand(s), x) == spec_count_of(s, x),
    decreases s.len(),
{
    if s.len() > 0 {
        lemma_expand_occurrences(s.drop_last(), x);
        lemma_occurrences_concat(
            spec_expand(s.drop_last()),
            Seq::new(s.last().1 as nat, |i: int| s.last().0@),
            x,
        );
        lemma_occurrences_repeat(s.last().1 as nat, s.last().0@, x);
    }
}

proof fn lemma_count_of_distinct(s: Seq<(String, u32)>, x: Seq<char>)
    requires
        keys_distinct(s),
    ensures
        spec_count_of(s, x) == if entries_map(s).dom().contains(x) {
            entries_map(s)[x] as nat
        } else {
            0
        },
    decreases s.len(),
{
    if s.len() > 0 {
        let t = s.drop_last();
        let n = s.len() - 1;
        assert(keys_distinct(t)) by {
            assert forall|i: int, j: int|
                0 <= i < t.len() && 0 <= j < t.len() && i != j implies (#[trigger] t[i]).0@ != (
                #[trigger] t[j]).0@ by {
                assert(t[i] == s[i] && t[j] == s[j]);
            }
        }
        lemma_count_of_distinct(t, x);
        if s.last().0@ == x {
            lemma_entry_value(s, n);
            if entries_map(t).dom().contains(x) {
                let i = choose|i: int| 0 <= i < t.len() && (#[trigger] t[i]).0@ == x;
                assert(t[i] == s[i]);
                assert(false);
            }
        } else {
            if entries_map(t).dom().contains(x) {
                let i = choose|i: int| 0 <= i < t.len() && (#[trigger] t[i]).0@ == x;
                assert(t[i] == s[i]);
                lemma_entry_value(t, i);
                lemma_entry_value(s, i);
            }
            if entries_map(s).dom().contains(x) {
                let i = choose|i: int| 0 <= i < s.len() && (#[trigger] s[i]).0@ == x;
                assert(i != n);
                assert(t[i] == s[i]);
                assert(has_key(t, x));
            }
        }
    }
}

/// How many actors go to each host.
pub struct Placement {
    hostname_to_num: SortedMap<u32>,
}

impl Placement {
    pub closed spec fn wf(&self) -> bool {
        self.hostname_to_num.wf()
    }

    /// The hosts with their counts, by increasing host name.
    pub closed spec fn counts(&self) -> Seq<(String, u32)> {
        self.hostname_to_num.entry_seq()
    }

    /// Counts by host.
    pub closed spec fn count_map(&self) -> Map<Seq<char>, u32> {
        self.hostname_to_num@
    }

    pub fn new() -> (r: Self)
        ensures
            r.wf(),
            r.counts() == Seq::<(String, u32)>::empty(),
            r.count_map() == Map::<Seq<char>, u32>::empty(),
    {
        Placement { hostname_to_num: SortedMap::new() }
    }

    /// In every placement the hosts come out by increasing name, each host
    /// once, and the listed counts are the counts by host.
    pub proof fn law_hosts_sorted(&self)
        requires
            self.wf(),
        ensures
            sorted(self.counts()),
            keys_distinct(self.counts()),
            entries_map(self.counts()) == self.count_map(),
    {
        self.hostname_to_num.lemma_wf();
    }

    /// Each host takes as many slots as its count says (none with a count of
    /// 0), no other name takes any, and there are as many slots as the counts
    /// add up to.
    pub proof fn law_slots_per_host(&self, x: Seq<char>)
        requires
            self.wf(),
        ensures
            occurrences(spec_expand(self.counts()), x) == if self.count_map().dom().contains(x) {
                self.count_map()[x] as nat
            } else {
                0
            },
            spec_expand(self.counts()).len() == spec_sum(self.counts()),
    {
        self.hostname_to_num.lemma_wf();
        lemma_expand_occurrences(self.counts(), x);
        lemma_count_of_distinct(self.counts(), x);
        lemma_expand_len(self.counts());
    }

    /// Sets the number of actors for a host.
    pub fn set(&mut self, hostname: String, count: u32)
        requires
            old(self).wf(),
        ensures
            final(self).wf(),
            final(self).count_map() == old(self).count_map().insert(hostname@, count),
            sorted(final(self).counts()),
            entries_map(final(self).counts()) == final(self).count_map(),
    {
        let _ = self.hostname_to_num.insert(hostname, count);
        proof {
            self.hostname_to_num.lemma_wf();
        }
    }

    /// Total number of actors placed.
    pub fn num(&self) -> (r: u32)
        requires
            spec_sum(self.counts()) <= u32::MAX,
        ensures
            r == spec_sum(self.counts()),
    {
        let entries = self.hostname_to_num.entries();
        let mut total: u32 = 0;
        let mut i: usize = 0;
        while i < entries.len()
            invariant
                i <= entries@.len(),
                entries@ == self.counts(),
                spec_sum(self.counts()) <= u32::MAX,
                total == spec_sum(entries@.take(i as int)),
            decreases entries@.len() - i,
        {
            proof {
                assert(entries@.take(i + 1).drop_last() =~= entries@.take(i as int));
                lemma_sum_prefix(entries@, i + 1);
                lemma_sum_mono(entries@, i + 1);
            }
            total = total + entries[i].1;
            i = i + 1;
        }
        assert(entries@.take(entries@.len() as int) =~= entries@);
        total
    }

    /// One host name per actor slot: every host repeated as many times as
    /// its count, hosts by increasing name.
    pub fn iter(&self) -> (r: Vec<String>)
        ensures
            r@.map_values(|s: String| s@) == spec_expand(self.counts()),
    {
        let entries = self.hostname_to_num.entries();
        let mut out: Vec<String> = Vec::new();
        let mut i: usize = 0;
        while i < entries.len()
            invariant
                i <= entries@.len(),
                entries@ == self.counts(),
                out@.map_values(|s: String| s@) == spec_expand(entries@.take(i as int)),
            decreases entries@.len() - i,
        {
            let ghost before = out@.map_values(|s: String| s@);
            let count = entries[i].1;
            let mut k: u32 = 0;
            while k < count
                invariant
                    k <= count,
                    i < entries@.len(),
                    count == entries@[i as int].1,
                    out@.map_values(|s: String| s@) == before + Seq::new(
                        k as nat,
                        |j: int| entries@[i as int].0@,
                    ),
                decreases count - k,
            {
                let ghost prev = out@;
                out.push(entries[i].0.clone());
                assert(out@.map_values(|s: String| s@) =~= prev.map_values(|s: String| s@).push(
                    entries@[i as int].0@,
                ));
                k = k + 1;
                assert(out@.map_values(|s: String| s@) =~= before + Seq::new(
                    k as nat,
                    |j: int| entries@[i as int].0@,
                ));
            }
            assert(entries@.take(i + 1).drop_last() =~= entries@.take(i as int));
            i = i + 1;
        }
        assert(entries@.take(entries@.len() as int) =~= entries@);
        out
    }
}

proof fn lemma_sum_prefix(s: Seq<(String, u32)>, k: int)
    requires
        0 < k <= s.len(),
    ensures
        spec_sum(s.take(k)) == spec_sum(s.take(k - 1)) + s[k - 1].1,
        spec_sum(s.take(k - 1)) <= spec_sum(s.take(k)),
{
    assert(s.take(k).drop_last() =~= s.take(k - 1));
}

proof fn lemma_sum_mono(s: Seq<(String, u32)>, k: int)
    requires
        0 <= k <= s.len(),
    ensures
        spec_sum(s.take(k)) <= spec_sum(s),
    decreases s.len() - k,
{
    if k == s.len() {
        assert(s.take(k) =~= s);
    } else {
        lemma_sum_mono(s, k + 1);
        lemma_sum_prefix(s, k + 1);
    }
}

/// A logical operator: a name, and the library that provides it.
#[derive(Debug, Clone)]
pub struct LogicalOp {
    pub name: String,
    pub lib_name: String,
}

/// A library to compile on a node, with its compile arguments as JSON text.
#[derive(Debug, Clone)]
pub struct LibInfo {
    pub name: String,
    pub compile_info: String,
}

/// Crash the actor after `crash_ms`, restart it at `restart_ms`.
#[derive(Debug, Clone, Copy, PartialEq, Eq, Structural)]
pub struct CrashOp {
    pub crash_ms: Option<u32>,
    pub restart_ms: Option<u32>,
}

/// Lose incoming messages with `probability` between `start_ms` and `stop_ms`.
#[derive(Debug, Clone, Copy, PartialEq, Eq, Structural)]
pub struct MsgLossOp {
    pub start_ms: Option<u32>,
    pub stop_ms: Option<u32>,
    pub probability: Probability,
}

/// Duplicate incoming messages `factor` times with `probability` between
/// `start_ms` and `stop_ms`.
#[derive(Debug, Clone, Copy, PartialEq, Eq, Structural)]
pub struct MsgDuplicationOp {
    pub start_ms: Option<u32>,
    pub stop_ms: Option<u32>,
    pub factor: Factor,
    pub probability: Probability,
}

/// Delay messages from `senders` by a time in `delay_range_ms` (both ends
/// included) between `start_ms` and `stop_ms`.
#[derive(Debug)]
pub struct MsgDelayOp {
    pub start_ms: Option<u32>,
    pub stop_ms: Option<u32>,
    pub delay_range_ms: (u64, u64),
    pub senders: Vec<String>,
}

/// The same delay settings.
pub open spec fn same_delay(a: MsgDelayOp, b: MsgDelayOp) -> bool {
    &&& a.start_ms == b.start_ms
    &&& a.stop_ms == b.stop_ms
    &&& a.delay_range_ms == b.delay_range_ms
    &&& a.senders@ == b.senders@
}

/// A copy of a list of names.
pub fn copy_strings(v: &Vec<String>) -> (r: Vec<String>)
    ensures
        r@ == v@,
{
    let mut out: Vec<String> = Vec::new();
    let mut i: usize = 0;
    while i < v.len()
        invariant
            i <= v@.len(),
            out@ == v@.take(i as int),
        decreases v@.len() - i,
    {
        out.push(v[i].clone());
        i = i + 1;
        assert(out@ =~= v@.take(i as int));
    }
    assert(v@.take(v@.len() as int) =~= v@);
    out
}

impl MsgDelayOp {
    pub fn copy(&self) -> (r: Self)
        ensures
            same_delay(r, *self),
    {
        MsgDelayOp {
            start_ms: self.start_ms,
            stop_ms: self.stop_ms,
            delay_range_ms: self.delay_range_ms,
            senders: copy_strings(&self.senders),
        }
    }
}

/// The chaos settings of one actor; each kind at most once.
#[derive(Debug)]
pub struct ChaosMap {
    pub crash: Option<CrashOp>,
    pub msg_loss: Option<MsgLossOp>,
    pub msg_duplication: Option<MsgDuplicationOp>,
    pub msg_delay: Option<MsgDelayOp>,
}

pub open spec fn same_opt_delay(a: Option<MsgDelayOp>, b: Option<MsgDelayOp>) -> bool {
    match (a, b) {
        (None, None) => true,
        (Some(x), Some(y)) => same_delay(x, y),
        _ => false,
    }
}

/// The same chaos settings.
pub open spec fn same_chaos(a: ChaosMap, b: ChaosMap) -> bool {
    &&& a.crash == b.crash
    &&& a.msg_loss == b.msg_loss
    &&& a.msg_duplication == b.msg_duplication
    &&& same_opt_delay(a.msg_delay, b.msg_delay)
}

pub open spec fn same_opt_chaos(a: Option<ChaosMap>, b: Option<ChaosMap>) -> bool {
    match (a, b) {
        (None, None) => true,
        (Some(x), Some(y)) => same_chaos(x, y),
        _ => false,
    }
}

/// One chaos operation.
#[derive(Debug)]
pub enum ChaosOp {
    Crash(CrashOp),
    MsgLoss(MsgLossOp),
    MsgDuplication(MsgDuplicationOp),
    MsgDelay(MsgDelayOp),
}

/// The same chaos operation.
pub open spec fn same_op(a: ChaosOp, b: ChaosOp) -> bool {
    match (a, b) {
        (ChaosOp::Crash(x), ChaosOp::Crash(y)) => x == y,
        (ChaosOp::MsgLoss(x), ChaosOp::MsgLoss(y)) => x == y,
        (ChaosOp::MsgDuplication(x), ChaosOp::MsgDuplication(y)) => x == y,
        (ChaosOp::MsgDelay(x), ChaosOp::MsgDelay(y)) => same_delay(x, y),
        _ => false,
    }
}

/// The operations a chaos map holds, in the order they are applied: message
/// loss, message duplication, crash, message delay.
pub open spec fn spec_chaos_ops(m: ChaosMap) -> Seq<ChaosOp> {
    let a: Seq<ChaosOp> = match m.msg_loss {
        Some(op) => seq![ChaosOp::MsgLoss(op)],
        None => Seq::empty(),
    };
    let b: Seq<ChaosOp> = match m.msg_duplication {
        Some(op) => seq![ChaosOp::MsgDuplication(op)],
        None => Seq::empty(),
    };
    let c: Seq<ChaosOp> = match m.crash {
        Some(op) => seq![ChaosOp::Crash(op)],
        None => Seq::empty(),
    };
    let d: Seq<ChaosOp> = match m.msg_delay {
        Some(op) => seq![ChaosOp::MsgDelay(op)],
        None => Seq::empty(),
    };
    a + b + c + d
}

/// Two operation lists hold the same operations in the same order.
pub open spec fn same_ops(a: Seq<ChaosOp>, b: Seq<ChaosOp>) -> bool {
    a.len() == b.len() && forall|i: int| 0 <= i < a.len() ==> same_op(#[trigger] a[i], b[i])
}

/// The chaos map `m` completed by `other`: each kind of operation is taken
/// from `m` when it has one, otherwise from `other`.
pub open spec fn spec_extend(m: ChaosMap, other: ChaosMap) -> ChaosMap {
    ChaosMap {
        crash: if m.crash is Some {
            m.crash
        } else {
            other.crash
        },
        msg_loss: if m.msg_loss is Some {
            m.msg_loss
        } else {
            other.msg_loss
        },
        msg_duplication: if m.msg_duplication is Some {
            m.msg_duplication
        } else {
            other.msg_duplication
        },
        msg_delay: if m.msg_delay is Some {
            m.msg_delay
        } else {
            other.msg_delay
        },
    }
}

/// The chaos settings of an actor whose own settings are `own`, in a job whose
/// global settings are `global`: its own settings, completed by the global
/// ones.
pub open spec fn spec_merge_chaos(own: Option<ChaosMap>, global: Option<ChaosMap>) -> Option<
    ChaosMap,
> {
    match (own, global) {
        (Some(p), Some(g)) => Some(spec_extend(p, g)),
        (Some(p), None) => Some(p),
        (None, Some(g)) => Some(g),
        (None, None) => None,
    }
}

/// Extending by a map with no operations changes nothing, and a map with no
/// operations extended by `m` is `m`.
pub proof fn law_extend_identity(m: ChaosMap, none: ChaosMap)
    requires
        none.crash is None && none.msg_loss is None && none.msg_duplication is None
            && none.msg_delay is None,
    ensures
        spec_extend(m, none) == m,
        spec_extend(none, m) == m,
{
}

/// Extending is associative, and a map's own operations always win.
pub proof fn law_extend_assoc_and_bias(a: ChaosMap, b: ChaosMap, c: ChaosMap)
    ensures
        spec_extend(spec_extend(a, b), c) == spec_extend(a, spec_extend(b, c)),
        a.crash is Some ==> spec_extend(a, b).crash == a.crash,
        a.msg_loss is Some ==> spec_extend(a, b).msg_loss == a.msg_loss,
        a.msg_duplication is Some ==> spec_extend(a, b).msg_duplication == a.msg_duplication,
        a.msg_delay is Some ==> spec_extend(a, b).msg_delay == a.msg_delay,
        spec_extend(a, a) == a,
{
}

/// An actor's settings completed by the job's global ones: without global
/// settings they stay as they are, and without own settings the actor takes
/// the global ones.
pub proof fn law_merge_chaos(own: Option<ChaosMap>, global: Option<ChaosMap>)
    ensures
        spec_merge_chaos(own, None) == own,
        spec_merge_chaos(None, global) == global,
        own is Some && global is Some ==> spec_merge_chaos(own, global) == Some(
            spec_extend(own->0, global->0),
        ),
{
}

impl ChaosMap {
    /// No chaos.
    pub fn empty() -> (r: Self)
        ensures
            r.crash is None && r.msg_loss is None && r.msg_duplication is None && r.msg_delay is None,
    {
        ChaosMap { crash: None, msg_loss: None, msg_duplication: None, msg_delay: None }
    }

    pub fn copy(&self) -> (r: Self)
        ensures
            same_chaos(r, *self),
    {
        ChaosMap {
            crash: self.crash,
            msg_loss: self.msg_loss,
            msg_duplication: self.msg_duplication,
            msg_delay: match &self.msg_delay {
                Some(d) => Some(d.copy()),
                None => None,
            },
        }
    }

    /// The operations present, in the order loss, duplication, crash, delay.
    pub fn iter(&self) -> (r: Vec<ChaosOp>)
        ensures
            same_ops(r@, spec_chaos_ops(*self)),
    {
        let mut v: Vec<ChaosOp> = Vec::new();
        if let Some(op) = &self.msg_loss {
            v.push(ChaosOp::MsgLoss(*op));
        }
        if let Some(op) = &self.msg_duplication {
            v.push(ChaosOp::MsgDuplication(*op));
        }
        if let Some(op) = &self.crash {
            v.push(ChaosOp::Crash(*op));
        }
        if let Some(op) = &self.msg_delay {
            v.push(ChaosOp::MsgDelay(op.copy()));
        }
        proof {
            let s = spec_chaos_ops(*self);
            assert(v@.len() == s.len());
            assert forall|i: int| 0 <= i < v@.len() implies same_op(#[trigger] v@[i], s[i]) by {}
        }
        v
    }

    /// This map completed by `other`, keeping this map's operations where both
    /// have one of a kind.
    pub fn extend(self, other: Self) -> (r: Self)
        ensures
            r == spec_extend(self, other),
    {
        ChaosMap {
            crash: match self.crash {
                Some(c) => Some(c),
                None => other.crash,
            },
            msg_loss: match self.msg_loss {
                Some(c) => Some(c),
                None => other.msg_loss,
            },
            msg_duplication: match self.msg_duplication {
                Some(c) => Some(c),
                None => other.msg_duplication,
            },
            msg_delay: match self.msg_delay {
                Some(c) => Some(c),
                None => other.msg_delay,
            },
        }
    }
}

/// The settings of `own` completed by `global`.
pub fn merge_chaos(own: Option<ChaosMap>, global: &Option<ChaosMap>) -> (r: Option<ChaosMap>)
    ensures
        same_opt_chaos(r, spec_merge_chaos(own, *global)),
{
    match (own, global) {
        (Some(p), Some(g)) => Some(p.extend(g.copy())),
        (Some(p), None) => Some(p),
        (None, Some(g)) => Some(g.copy()),
        (None, None) => None,
    }
}

impl ChaosOp {
    /// Milliseconds after the actor's start at which the operation begins.
    pub fn start_ms(&self) -> (r: u32)
        ensures
            r == match self {
                ChaosOp::Crash(op) => op.crash_ms.unwrap_or(0),
                ChaosOp::MsgLoss(op) => op.start_ms.unwrap_or(0),
                ChaosOp::MsgDuplication(op) => op.start_ms.unwrap_or(0),
                ChaosOp::MsgDelay(op) => op.start_ms.unwrap_or(0),
            },
    {
        match self {
            ChaosOp::Crash(op) => op.crash_ms.unwrap_or(0),
            ChaosOp::MsgLoss(op) => op.start_ms.unwrap_or(0),
            ChaosOp::MsgDuplication(op) => op.start_ms.unwrap_or(0),
            ChaosOp::MsgDelay(op) => op.start_ms.unwrap_or(0),
        }
    }

    /// Milliseconds after the actor's start at which the operation is undone,
    /// if ever.
    pub fn stop_ms(&self) -> (r: Option<u32>)
        ensures
            r == match self {
                ChaosOp::Crash(op) => op.restart_ms,
                ChaosOp::MsgLoss(op) => op.stop_ms,
                ChaosOp::MsgDuplication(op) => op.stop_ms,
                ChaosOp::MsgDelay(op) => op.stop_ms,
            },
    {
        match self {
            ChaosOp::Crash(op) => op.restart_ms,
            ChaosOp::MsgLoss(op) => op.stop_ms,
            ChaosOp::MsgDuplication(op) => op.stop_ms,
            ChaosOp::MsgDelay(op) => op.stop_ms,
        }
    }

    pub fn copy(&self) -> (r: Self)
        ensures
            same_op(r, *self),
    {
        match self {
            ChaosOp::Crash(op) => ChaosOp::Crash(*op),
            ChaosOp::MsgLoss(op) => ChaosOp::MsgLoss(*op),
            ChaosOp::MsgDuplication(op) => ChaosOp::MsgDuplication(*op),
            ChaosOp::MsgDelay(op) => ChaosOp::MsgDelay(op.copy()),
        }
    }
}

/// Where one actor of a logical operator runs, with its chaos settings and the
/// arguments (JSON text) it is started with. With `replicas`, it stands for
/// that many actors, named after it with the numbers 1, 2, ... appended.
#[derive(Debug)]
pub struct PhysicalOp {
    pub nodename: String,
    pub actor_name: String,
    pub replicas: Option<u32>,
    pub chaos: Option<ChaosMap>,
    pub payload: String,
}

/// The same placed actor.
pub open spec fn same_phys(a: PhysicalOp, b: PhysicalOp) -> bool {
    &&& a.nodename@ == b.nodename@
    &&& a.actor_name@ == b.actor_name@
    &&& a.replicas == b.replicas
    &&& same_opt_chaos(a.chaos, b.chaos)
    &&& a.payload@ == b.payload@
}

/// Two lists of placed actors agree one by one.
pub open spec fn same_phys_seq(a: Seq<PhysicalOp>, b: Seq<PhysicalOp>) -> bool {
    a.len() == b.len() && forall|i: int| 0 <= i < a.len() ==> same_phys(#[trigger] a[i], b[i])
}

impl PhysicalOp {
    pub fn copy(&self) -> (r: Self)
        ensures
            same_phys(r, *self),
    {
        PhysicalOp {
            nodename: self.nodename.clone(),
            actor_name: self.actor_name.clone(),
            replicas: self.replicas,
            chaos: match &self.chaos {
                Some(c) => Some(c.copy()),
                None => None,
            },
            payload: self.payload.clone(),
        }
    }
}

/// How many actors a placed operator stands for.
pub open spec fn replica_count(op: PhysicalOp) -> nat {
    match op.replicas {
        Some(n) => n as nat,
        None => 1,
    }
}

/// `out` is what the placed operator `op` becomes in a job with global chaos
/// settings `g`: one actor per replica, on the same node, with the same
/// arguments, no replica count, and its chaos settings completed by `g`;
/// replica `i` (from 1) is named after `op` with `i` appended.
pub open spec fn expands_to(op: PhysicalOp, g: Option<ChaosMap>, out: Seq<PhysicalOp>) -> bool {
    &&& out.len() == replica_count(op)
    &&& forall|i: int|
        0 <= i < out.len() ==> {
            &&& (#[trigger] out[i]).nodename@ == op.nodename@
            &&& out[i].payload@ == op.payload@
            &&& out[i].replicas is None
            &&& same_opt_chaos(out[i].chaos, spec_merge_chaos(op.chaos, g))
            &&& out[i].actor_name@ == if op.replicas is Some {
                op.actor_name@ + spec_decimal((i + 1) as nat)
            } else {
                op.actor_name@
            }
        }
}

/// `out` is what the list `src` becomes, operator after operator.
pub open spec fn all_expand_to(src: Seq<PhysicalOp>, g: Option<ChaosMap>, out: Seq<PhysicalOp>) -> bool
    decreases src.len(),
{
    if src.len() == 0 {
        out.len() == 0
    } else {
        let c = replica_count(src.last());
        &&& out.len() >= c
        &&& expands_to(src.last(), g, out.skip(out.len() - c))
        &&& all_expand_to(src.drop_last(), g, out.take(out.len() - c))
    }
}

/// Total number of actors that a list of placed operators stands for.
pub open spec fn total_replicas(src: Seq<PhysicalOp>) -> nat
    decreases src.len(),
{
    if src.len() == 0 {
        0
    } else {
        total_replicas(src.drop_last()) + replica_count(src.last())
    }
}

/// Expanding placed operators yields exactly as many actors as they stand
/// for, and none of them asks for replicas any more.
pub proof fn law_expansion_count(src: Seq<PhysicalOp>, g: Option<ChaosMap>, out: Seq<PhysicalOp>)
    requires
        all_expand_to(src, g, out),
    ensures
        out.len() == total_replicas(src),
        forall|i: int| 0 <= i < out.len() ==> (#[trigger] out[i]).replicas is None,
    decreases src.len(),
{
    if src.len() > 0 {
        let c = replica_count(src.last());
        law_expansion_count(src.drop_last(), g, out.take(out.len() - c));
        assert forall|i: int| 0 <= i < out.len() implies (#[trigger] out[i]).replicas is None by {
            if i < out.len() - c {
                assert(out[i] == out.take(out.len() - c)[i]);
            } else {
                assert(out[i] == out.skip(out.len() - c)[i - (out.len() - c)]);
            }
        }
    }
}

/// The actors that one placed operator becomes.
fn expand_op(op: PhysicalOp, g: &Option<ChaosMap>) -> (r: Vec<PhysicalOp>)
    ensures
        expands_to(op, *g, r@),
{
    let chaos = merge_chaos(op.chaos, g);
    match op.replicas {
        Some(n) => {
            let mut out: Vec<PhysicalOp> = Vec::new();
            let mut i: u32 = 0;
            while i < n
                invariant
                    i <= n,
                    op.replicas == Some(n),
                    same_opt_chaos(chaos, spec_merge_chaos(op.chaos, *g)),
                    out@.len() == i,
                    forall|j: int|
                        0 <= j < i ==> {
                            &&& (#[trigger] out@[j]).nodename@ == op.nodename@
                            &&& out@[j].payload@ == op.payload@
                            &&& out@[j].replicas is None
                            &&& same_opt_chaos(out@[j].chaos, spec_merge_chaos(op.chaos, *g))
                            &&& out@[j].actor_name@ == op.actor_name@ + spec_decimal((j + 1) as nat)
                        },
                decreases n - i,
            {
                let mut name = op.actor_name.clone();
                let digits = decimal_string((i as u64) + 1);
                name.append(digits.as_str());
                let c = match &chaos {
                    Some(c) => Some(c.copy()),
                    None => None,
                };
                out.push(
                    PhysicalOp {
                        nodename: op.nodename.clone(),
                        actor_name: name,
                        replicas: None,
                        chaos: c,
                        payload: op.payload.clone(),
                    },
                );
                i = i + 1;
            }
            out
        },
        None => {
            let mut out: Vec<PhysicalOp> = Vec::new();
            out.push(
                PhysicalOp {
                    nodename: op.nodename,
                    actor_name: op.actor_name,
                    replicas: None,
                    chaos,
                    payload: op.payload,
                },
            );
            out
        },
    }
}

/// Takes logical operators to the actors that run them.
pub trait PlacementManager {
    /// Whether the manager knows where to put the operator.
    spec fn can_place(&self, op_info: LogicalOp) -> bool;

    /// Whether the manager knows where to put the operator, as a check that can
    /// run.
    fn knows(&self, op_info: &LogicalOp) -> (r: bool)
        ensures
            r == self.can_place(*op_info),
    ;

    /// The actors that run the operator.
    fn place(&self, op_info: &LogicalOp) -> Vec<PhysicalOp>
        requires
            self.can_place(*op_info),
    ;
}

/// Placement given in full by the job description.
pub struct ManualPlacementManager {
    map: AddrMap<Vec<PhysicalOp>>,
}

impl ManualPlacementManager {
    #[verifier::type_invariant]
    closed spec fn inv(self) -> bool {
        self.map.wf()
    }

    /// The actors of each operator, by operator name.
    pub closed spec fn placements(&self) -> Map<Seq<char>, Vec<PhysicalOp>> {
        self.map@
    }

    /// Expands the placement of each operator: replicas become actors of their
    /// own, and each actor's chaos settings are completed by the job's global
    /// ones (`gchaos_map`).
    pub fn new(placement_map: Vec<(String, Vec<PhysicalOp>)>, gchaos_map: Option<ChaosMap>) -> (r:
        Self)
        requires
            keys_distinct(placement_map@),
        ensures
            r.placements().dom() == entries_map(placement_map@).dom(),
            forall|i: int|
                0 <= i < placement_map@.len() ==> all_expand_to(
                    (#[trigger] placement_map@[i]).1@,
                    gchaos_map,
                    r.placements()[placement_map@[i].0@]@,
                ),
    {
        let ghost orig = placement_map@;
        let n = placement_map.len();
        let mut rest = placement_map;
        let mut map: AddrMap<Vec<PhysicalOp>> = AddrMap::new();
        let mut k: usize = 0;
        while rest.len() > 0
            invariant
                keys_distinct(orig),
                orig.len() == n,
                k <= orig.len(),
                rest@ == orig.skip(k as int),
                map.wf(),
                map@.dom() == entries_map(orig.take(k as int)).dom(),
                forall|i: int|
                    0 <= i < k ==> all_expand_to(
                        (#[trigger] orig[i]).1@,
                        gchaos_map,
                        map@[orig[i].0@]@,
                    ),
            decreases rest@.len(),
        {
            let (name, ops) = rest.remove(0);
            assert(orig[k as int] == (name, ops));
            let expanded = expand_all(ops, &gchaos_map);
            proof {
                assert(!map@.dom().contains(name@)) by {
                    if map@.dom().contains(name@) {
                        let j = choose|j: int| 0 <= j < orig.take(k as int).len() && (#[trigger] orig.take(k as int)[j]).0@ == name@;
                        assert(orig[j].0@ == orig[k as int].0@);
                    }
                }
            }
            let _ = map.insert(name, expanded);
            proof {
                assert(map@.dom() =~= entries_map(orig.take(k + 1)).dom()) by {
                    assert forall|key: Seq<char>| map@.dom().contains(key) == entries_map(orig.take(k + 1)).dom().contains(key) by {
                        if entries_map(orig.take(k + 1)).dom().contains(key) {
                            let j = choose|j: int| 0 <= j < orig.take(k + 1).len() && (#[trigger] orig.take(k + 1)[j]).0@ == key;
                            if j < k {
                                assert(orig.take(k as int)[j] == orig[j]);
                            }
                        }
                        if map@.dom().contains(key) && key != name@ {
                            let j = choose|j: int| 0 <= j < orig.take(k as int).len() && (#[trigger] orig.take(k as int)[j]).0@ == key;
                            assert(orig.take(k + 1)[j] == orig[j]);
                        }
                        assert(orig.take(k + 1)[k as int] == orig[k as int]);
                    }
                }
                assert forall|i: int| 0 <= i < k + 1 implies all_expand_to(
                    (#[trigger] orig[i]).1@,
                    gchaos_map,
                    map@[orig[i].0@]@,
                ) by {
                    if i < k {
                        assert(orig[i].0@ != name@);
                    }
                }
            }
            k = k + 1;
            assert(rest@ =~= orig.skip(k as int));
        }
        assert(orig.take(k as int) =~= orig);
        ManualPlacementManager { map }
    }
}

impl PlacementManager for ManualPlacementManager {
    open spec fn can_place(&self, op_info: LogicalOp) -> bool {
        self.placements().dom().contains(op_info.name@)
    }

    fn knows(&self, op_info: &LogicalOp) -> (r: bool) {
        proof {
            use_type_invariant(self);
        }
        self.map.contains_key(op_info.name.as_str())
    }

    /// The actors listed for the operator, in order.
    fn place(&self, op_info: &LogicalOp) -> (r: Vec<PhysicalOp>)
        ensures
            same_phys_seq(r@, self.placements()[op_info.name@]@),
    {
        proof {
            use_type_invariant(self);
        }
        let ops = self.map.get(op_info.name.as_str()).unwrap();
        let mut out: Vec<PhysicalOp> = Vec::new();
        let mut i: usize = 0;
        while i < ops.len()
            invariant
                i <= ops@.len(),
                *ops == self.placements()[op_info.name@],
                out@.len() == i,
                forall|j: int| 0 <= j < i ==> same_phys(#[trigger] out@[j], ops@[j]),
            decreases ops@.len() - i,
        {
            out.push(ops[i].copy());
            i = i + 1;
        }
        out
    }
}

/// The actors that a list of placed operators becomes.
fn expand_all(ops: Vec<PhysicalOp>, g: &Option<ChaosMap>) -> (r: Vec<PhysicalOp>)
    ensures
        all_expand_to(ops@, *g, r@),
{
    let ghost orig = ops@;
    let n = ops.len();
    let mut rest = ops;
    let mut out: Vec<PhysicalOp> = Vec::new();
    let mut k: usize = 0;
    while rest.len() > 0
        invariant
            orig.len() == n,
            k <= orig.len(),
            rest@ == orig.skip(k as int),
            all_expand_to(orig.take(k as int), *g, out@),
        decreases rest@.len(),
    {
        let op = rest.remove(0);
        assert(orig[k as int] == op);
        let seg = expand_op(op, g);
        let ghost before = out@;
        let ghost segv = seg@;
        let mut seg = seg;
        out.append(&mut seg);
        proof {
            let t = orig.take(k + 1);
            assert(t.drop_last() =~= orig.take(k as int));
            assert(t.last() == op);
            let c = replica_count(op);
            assert(segv.len() == c);
            assert(out@ =~= before + segv);
            assert(out@.skip(out@.len() - c) =~= segv);
            assert(out@.take(out@.len() - c) =~= before);
        }
        k = k + 1;
        assert(rest@ =~= orig.skip(k as int));
    }
    assert(orig.take(k as int) =~= orig);
    out
}

} // verus!
